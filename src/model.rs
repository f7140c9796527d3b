//! The sprite model: a sheet of named animated states, each a grid of
//! direction-major frame sequences sharing one cell size.
use vstd::prelude::*;
use crate::raster::{Frame, FrameView, blank_view};

verus! {

/// Bit pattern of the `f32` tick count 1.0, the delay of a fresh frame.
pub const ONE_TICK: u32 = 0x3F80_0000;

/// One named animation of a sheet.
///
/// `frames` is laid out direction-major: the frames of direction `d` are
/// `frames[d * frame_count .. (d + 1) * frame_count]`. A delay is the bit
/// pattern of an `f32` tick count, shared by all directions.
#[derive(Clone, Debug, PartialEq, Eq)]
pub struct State {
    pub name: String,
    pub dirs: u32,
    pub frame_count: u32,
    pub frames: Vec<Frame>,
    pub delays: Vec<u32>,
    pub loop_: u32,
    pub rewind: bool,
    pub movement: bool,
    pub hotspots: Vec<String>,
}

/// A direction count that BYOND knows: one, four or eight directions.
pub open spec fn valid_dirs(dirs: nat) -> bool {
    dirs == 1 || dirs == 4 || dirs == 8
}

pub struct StateView {
    pub name: Seq<char>,
    pub dirs: nat,
    pub frame_count: nat,
    pub frames: Seq<FrameView>,
    pub delays: Seq<u32>,
    pub loop_: nat,
    pub rewind: bool,
    pub movement: bool,
    pub hotspots: Seq<Seq<char>>,
}

impl StateView {
    /// The state has 1, 4 or 8 directions, its frame counts agree and every frame is `width` by `height`.
    pub open spec fn wf(self, width: nat, height: nat) -> bool {
        &&& valid_dirs(self.dirs)
        &&& self.frames.len() == self.dirs * self.frame_count
        &&& self.delays.len() == self.frame_count
        &&& forall|k: int|
            0 <= k < self.frames.len() ==> {
                &&& (#[trigger] self.frames[k]).wf()
                &&& self.frames[k].width == width
                &&& self.frames[k].height == height
            }
    }
}

impl State {
    pub open spec fn view(&self) -> StateView {
        StateView {
            name: self.name@,
            dirs: self.dirs as nat,
            frame_count: self.frame_count as nat,
            frames: self.frames@.map_values(|f: Frame| f.view()),
            delays: self.delays@,
            loop_: self.loop_ as nat,
            rewind: self.rewind,
            movement: self.movement,
            hotspots: self.hotspots@.map_values(|h: String| h@),
        }
    }

    pub open spec fn wf(&self, width: nat, height: nat) -> bool {
        self.view().wf(width, height)
    }

    /// A one-direction, one-frame state of transparent pixels, with a delay of
    /// one tick, looping forever, and one empty hotspot.
    pub fn new_blank(name: String, width: u32, height: u32) -> (r: State)
        ensures
            r.wf(width as nat, height as nat),
            r.view() == blank_state(name@, width as nat, height as nat),
    {
        let mut frames: Vec<Frame> = Vec::new();
        frames.push(Frame::blank(width, height));
        let mut delays: Vec<u32> = Vec::new();
        delays.push(ONE_TICK);
        let mut hotspots: Vec<String> = Vec::new();
        hotspots.push(String::new());
        let r = State {
            name,
            dirs: 1,
            frame_count: 1,
            frames,
            delays,
            loop_: 0,
            rewind: false,
            movement: false,
            hotspots,
        };
        assert(r.view().frames =~= seq![blank_view(width as nat, height as nat)]);
        assert(r.view().delays =~= seq![ONE_TICK]);
        assert(r.view().hotspots =~= seq![Seq::<char>::empty()]);
        assert(1nat * 1nat == 1nat) by (nonlinear_arith);
        assert(r.view().frames[0] == r.frames@[0].view());
        r
    }
}

pub open spec fn blank_state(name: Seq<char>, width: nat, height: nat) -> StateView {
    StateView {
        name,
        dirs: 1,
        frame_count: 1,
        frames: seq![blank_view(width, height)],
        delays: seq![ONE_TICK],
        loop_: 0,
        rewind: false,
        movement: false,
        hotspots: seq![Seq::<char>::empty()],
    }
}

/// One sprite sheet: every frame of every state is `width` by `height`.
#[derive(Clone, Debug, PartialEq, Eq)]
pub struct Dmi {
    pub name: String,
    pub width: u32,
    pub height: u32,
    pub states: Vec<State>,
}

pub struct DmiView {
    pub name: Seq<char>,
    pub width: nat,
    pub height: nat,
    pub states: Seq<StateView>,
}

impl DmiView {
    pub open spec fn wf(self) -> bool {
        forall|i: int|
            0 <= i < self.states.len() ==> (#[trigger] self.states[i]).wf(self.width, self.height)
    }
}

impl Dmi {
    pub open spec fn view(&self) -> DmiView {
        DmiView {
            name: self.name@,
            width: self.width as nat,
            height: self.height as nat,
            states: self.states@.map_values(|s: State| s.view()),
        }
    }

    pub open spec fn wf(&self) -> bool {
        self.view().wf()
    }

    /// An empty sheet with no states.
    pub fn new(name: String, width: u32, height: u32) -> (r: Dmi)
        ensures
            r.wf(),
            r.view() == (DmiView { name: name@, width: width as nat, height: height as nat, states: seq![] }),
    {
        let r = Dmi { name, width, height, states: Vec::new() };
        assert(r.view().states =~= Seq::<StateView>::empty());
        r
    }
}

} // verus!
