//! The self-contained form of one state that travels through the clipboard.
use vstd::prelude::*;
use crate::codec::DmiError;
use crate::model::{valid_dirs, State, StateView};
use crate::raster::{blank_view, placed, Frame, FrameView};

verus! {

/// A state with its frames inline and the cell size it was copied from.
#[derive(Clone, Debug, PartialEq, Eq)]
pub struct ClipboardState {
    pub name: String,
    pub dirs: u32,
    pub frame_count: u32,
    pub frames: Vec<Frame>,
    pub delays: Vec<u32>,
    pub loop_: u32,
    pub rewind: bool,
    pub movement: bool,
    pub hotspots: Vec<String>,
    pub width: u32,
    pub height: u32,
}

pub struct ClipboardView {
    pub state: StateView,
    pub width: nat,
    pub height: nat,
}

impl ClipboardState {
    pub open spec fn view(&self) -> ClipboardView {
        ClipboardView {
            state: StateView {
                name: self.name@,
                dirs: self.dirs as nat,
                frame_count: self.frame_count as nat,
                frames: self.frames@.map_values(|f: Frame| f.view()),
                delays: self.delays@,
                loop_: self.loop_ as nat,
                rewind: self.rewind,
                movement: self.movement,
                hotspots: self.hotspots@.map_values(|h: String| h@),
            },
            width: self.width as nat,
            height: self.height as nat,
        }
    }
}

/// A frame carried to a cell of `w` by `h`: kept as it is when the size is
/// the same, else anchored top-left on a transparent cell and cut at its edges.
pub open spec fn adapted(f: FrameView, w: nat, h: nat) -> FrameView {
    if f.width == w && f.height == h {
        f
    } else {
        placed(blank_view(w, h), f, 0, 0)
    }
}

/// Pasting a clipboard state into a sheet with cells of `w` by `h`.
pub open spec fn pasted(c: ClipboardView, w: nat, h: nat) -> Result<StateView, DmiError> {
    let s = c.state;
    if s.frames.len() != s.dirs * s.frame_count || s.delays.len() != s.frame_count || !valid_dirs(s.dirs) {
        Err(DmiError::ClipboardDecodeFailure)
    } else if exists|k: int|
        0 <= k < s.frames.len() && !{
            &&& (#[trigger] s.frames[k]).wf()
            &&& s.frames[k].width == c.width
            &&& s.frames[k].height == c.height
        } {
        Err(DmiError::DimensionMismatch)
    } else {
        Ok(StateView { frames: s.frames.map_values(|f: FrameView| adapted(f, w, h)), ..s })
    }
}

pub open spec fn paste_result_view(r: Result<State, DmiError>) -> Result<StateView, DmiError> {
    match r {
        Ok(s) => Ok(s.view()),
        Err(e) => Err(e),
    }
}

impl State {
    /// The state with its frames inline, copied from cells of `width` by `height`.
    pub fn into_clipboard(self, width: u32, height: u32) -> (r: ClipboardState)
        ensures
            r.view() == (ClipboardView { state: self.view(), width: width as nat, height: height as nat }),
    {
        ClipboardState {
            name: self.name,
            dirs: self.dirs,
            frame_count: self.frame_count,
            frames: self.frames,
            delays: self.delays,
            loop_: self.loop_,
            rewind: self.rewind,
            movement: self.movement,
            hotspots: self.hotspots,
            width,
            height,
        }
    }

    /// The clipboard state as a state of a sheet with cells of `width` by
    /// `height`. Fails, building nothing, when its counts disagree, its
    /// direction count is not 1, 4 or 8, or a frame
    /// is not of the size it was copied at.
    pub fn from_clipboard(c: ClipboardState, width: u32, height: u32) -> (r: Result<State, DmiError>)
        ensures
            paste_result_view(r) == pasted(c.view(), width as nat, height as nat),
            r matches Ok(s) ==> s.wf(width as nat, height as nat),
    {
        let ghost cv = c.view();
        let ghost sv = cv.state;
        assert((c.dirs as u64) * (c.frame_count as u64) <= u64::MAX) by (nonlinear_arith)
            requires
                c.dirs <= u32::MAX,
                c.frame_count <= u32::MAX,
        ;
        if c.frames.len() as u64 != c.dirs as u64 * c.frame_count as u64 || c.delays.len() != c.frame_count as usize
            || !(c.dirs == 1 || c.dirs == 4 || c.dirs == 8) {
            return Err(DmiError::ClipboardDecodeFailure);
        }
        let mut k: usize = 0;
        while k < c.frames.len()
            invariant
                cv == c.view(),
                sv == cv.state,
                sv.frames.len() == sv.dirs * sv.frame_count,
                sv.delays.len() == sv.frame_count,
                valid_dirs(sv.dirs),
                k <= c.frames@.len(),
                forall|i: int|
                    0 <= i < k ==> {
                        &&& (#[trigger] sv.frames[i]).wf()
                        &&& sv.frames[i].width == c.width
                        &&& sv.frames[i].height == c.height
                    },
            decreases c.frames@.len() - k,
        {
            let f = &c.frames[k];
            assert(sv.frames[k as int] == f.view());
            if !(f.is_valid() && f.width == c.width && f.height == c.height) {
                assert(!{
                    &&& sv.frames[k as int].wf()
                    &&& sv.frames[k as int].width == c.width
                    &&& sv.frames[k as int].height == c.height
                });
                return Err(DmiError::DimensionMismatch);
            }
            k = k + 1;
        }
        let same = c.width == width && c.height == height;
        let mut rest = c.frames;
        let ghost all = rest@;
        let n = rest.len();
        let mut frames: Vec<Frame> = Vec::new();
        let mut i: usize = 0;
        while i < n
            invariant
                n == all.len(),
                sv.frames == all.map_values(|f: Frame| f.view()),
                same == (cv.width == width && cv.height == height),
                forall|j: int|
                    0 <= j < n ==> {
                        &&& (#[trigger] sv.frames[j]).wf()
                        &&& sv.frames[j].width == cv.width
                        &&& sv.frames[j].height == cv.height
                    },
                i <= n,
                rest@ == all.subrange(i as int, n as int),
                frames@.len() == i,
                forall|j: int|
                    0 <= j < i ==> {
                        &&& (#[trigger] frames@[j]).view() == adapted(sv.frames[j], width as nat, height as nat)
                        &&& frames@[j].wf()
                        &&& frames@[j].width == width
                        &&& frames@[j].height == height
                    },
            decreases n - i,
        {
            let f = rest.remove(0);
            assert(f == all[i as int]);
            assert(f.view() == sv.frames[i as int]);
            if same {
                frames.push(f);
            } else {
                let canvas = Frame::blank(width, height);
                frames.push(canvas.place(&f, 0, 0));
            }
            i = i + 1;
            assert(rest@ =~= all.subrange(i as int, n as int));
        }
        let r = State {
            name: c.name,
            dirs: c.dirs,
            frame_count: c.frame_count,
            frames,
            delays: c.delays,
            loop_: c.loop_,
            rewind: c.rewind,
            movement: c.movement,
            hotspots: c.hotspots,
        };
        assert(r.view().frames =~= sv.frames.map_values(|f: FrameView| adapted(f, width as nat, height as nat)));
        Ok(r)
    }
}

/// Copying a well-formed state and pasting it into cells of the size it was
/// copied at gives the state back exactly.
pub proof fn lemma_clipboard_round_trip(s: StateView, w: nat, h: nat)
    requires
        s.wf(w, h),
    ensures
        pasted(ClipboardView { state: s, width: w, height: h }, w, h) == Ok::<StateView, DmiError>(s),
{
    assert(s.frames.map_values(|f: FrameView| adapted(f, w, h)) =~= s.frames);
}

} // verus!
