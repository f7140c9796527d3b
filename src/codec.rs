//! The boundary records that carry a sheet to the host with its pixels kept
//! in workspace files, and the self-contained clipboard form of one state.
use vstd::prelude::*;
use crate::model::{valid_dirs, Dmi, DmiView, State, StateView};
use crate::raster::{Frame, FrameView};

verus! {

/// Why a call failed.
#[derive(Clone, Copy, Debug, PartialEq, Eq, Structural)]
pub enum DmiError {
    /// A workspace file could not be read or written.
    IoFailure,
    /// A frame file that a record names is absent from the workspace.
    MissingFrameFile,
    /// A frame's pixel size differs from the cell size it belongs to.
    DimensionMismatch,
    /// A record's counts disagree: frames, delays, directions.
    CountMismatch,
    /// The system clipboard could not be reached.
    ClipboardUnavailable,
    /// The clipboard text is not a state.
    ClipboardDecodeFailure,
    /// A precondition of the call did not hold, such as a missing workspace.
    PreconditionFailure,
    /// A dialog, browser or process query failed.
    ExternalCapabilityFailure,
}

/// A state as the host sees it: its frames live in workspace files named
/// after `frame_key`.
#[derive(Clone, Debug, PartialEq, Eq)]
pub struct SerializedState {
    pub name: String,
    pub dirs: u32,
    pub frame_key: String,
    pub frame_count: u32,
    pub delays: Vec<u32>,
    pub loop_: u32,
    pub rewind: bool,
    pub movement: bool,
    pub hotspots: Vec<String>,
}

pub struct SerializedStateView {
    pub name: Seq<char>,
    pub dirs: nat,
    pub frame_key: Seq<char>,
    pub frame_count: nat,
    pub delays: Seq<u32>,
    pub loop_: nat,
    pub rewind: bool,
    pub movement: bool,
    pub hotspots: Seq<Seq<char>>,
}

impl SerializedState {
    pub open spec fn view(&self) -> SerializedStateView {
        SerializedStateView {
            name: self.name@,
            dirs: self.dirs as nat,
            frame_key: self.frame_key@,
            frame_count: self.frame_count as nat,
            delays: self.delays@,
            loop_: self.loop_ as nat,
            rewind: self.rewind,
            movement: self.movement,
            hotspots: self.hotspots@.map_values(|h: String| h@),
        }
    }
}

/// A sheet as the host sees it, with the workspace directory `temp`.
#[derive(Clone, Debug, PartialEq, Eq)]
pub struct SerializedDmi {
    pub name: String,
    pub width: u32,
    pub height: u32,
    pub states: Vec<SerializedState>,
    pub temp: String,
}

pub struct SerializedDmiView {
    pub name: Seq<char>,
    pub width: nat,
    pub height: nat,
    pub states: Seq<SerializedStateView>,
    pub temp: Seq<char>,
}

impl SerializedDmi {
    pub open spec fn view(&self) -> SerializedDmiView {
        SerializedDmiView {
            name: self.name@,
            width: self.width as nat,
            height: self.height as nat,
            states: self.states@.map_values(|s: SerializedState| s.view()),
            temp: self.temp@,
        }
    }
}

/// The record of `s` under `key`.
pub open spec fn encoded_state(s: StateView, key: Seq<char>) -> SerializedStateView {
    SerializedStateView {
        name: s.name,
        dirs: s.dirs,
        frame_key: key,
        frame_count: s.frame_count,
        delays: s.delays,
        loop_: s.loop_,
        rewind: s.rewind,
        movement: s.movement,
        hotspots: s.hotspots,
    }
}

/// The record of `d`, its `i`th state under `keys[i]`.
pub open spec fn encoded_dmi(d: DmiView, temp: Seq<char>, keys: Seq<Seq<char>>) -> SerializedDmiView {
    SerializedDmiView {
        name: d.name,
        width: d.width,
        height: d.height,
        states: Seq::new(d.states.len(), |i: int| encoded_state(d.states[i], keys[i])),
        temp,
    }
}

/// What was read for the first `n` expected frame files: absent when one of
/// them is missing or was not read.
pub open spec fn is_missing(loaded: Seq<Option<FrameView>>, n: nat) -> bool {
    exists|k: int| 0 <= k < n && (k >= loaded.len() || (#[trigger] loaded[k]) is None)
}

/// A frame that was read is not a well-formed `w` by `h` image.
pub open spec fn is_misfit(loaded: Seq<Option<FrameView>>, n: nat, w: nat, h: nat) -> bool {
    exists|k: int|
        0 <= k < n && k < loaded.len() && (#[trigger] loaded[k]) is Some && !fits(loaded[k]->0, w, h)
}

pub open spec fn fits(f: FrameView, w: nat, h: nat) -> bool {
    f.wf() && f.width == w && f.height == h
}

pub open spec fn loaded_frames(loaded: Seq<Option<FrameView>>, n: nat) -> Seq<FrameView> {
    Seq::new(n, |k: int| loaded[k]->0)
}

/// Decoding a record whose `k`th expected frame file gave `loaded[k]`, for a
/// sheet with cells of `w` by `h`.
pub open spec fn decoded_state(
    s: SerializedStateView,
    loaded: Seq<Option<FrameView>>,
    w: nat,
    h: nat,
) -> Result<StateView, DmiError> {
    let n = s.dirs * s.frame_count;
    if is_missing(loaded, n) {
        Err(DmiError::MissingFrameFile)
    } else if s.delays.len() != s.frame_count || !valid_dirs(s.dirs) {
        Err(DmiError::CountMismatch)
    } else if is_misfit(loaded, n, w, h) {
        Err(DmiError::DimensionMismatch)
    } else {
        Ok(
            StateView {
                name: s.name,
                dirs: s.dirs,
                frame_count: s.frame_count,
                frames: loaded_frames(loaded, n),
                delays: s.delays,
                loop_: s.loop_,
                rewind: s.rewind,
                movement: s.movement,
                hotspots: s.hotspots,
            },
        )
    }
}

pub open spec fn option_views(v: Seq<Option<Frame>>) -> Seq<Option<FrameView>> {
    v.map_values(|o: Option<Frame>| match o {
        Some(f) => Some(f.view()),
        None => None,
    })
}

pub open spec fn result_view(r: Result<State, DmiError>) -> Result<StateView, DmiError> {
    match r {
        Ok(s) => Ok(s.view()),
        Err(e) => Err(e),
    }
}

impl Frame {
    /// Whether the rows really are `height` rows of `width` pixels.
    pub fn is_valid(&self) -> (r: bool)
        ensures
            r == self.wf(),
    {
        if self.rows.len() != self.height as usize {
            return false;
        }
        let mut j: usize = 0;
        while j < self.rows.len()
            invariant
                self.rows@.len() == self.height,
                j <= self.rows@.len(),
                forall|k: int| 0 <= k < j ==> (#[trigger] self.rows@[k])@.len() == self.width,
            decreases self.rows@.len() - j,
        {
            if self.rows[j].len() != self.width as usize {
                assert(self.view().grid[j as int].len() != self.width);
                return false;
            }
            j = j + 1;
        }
        true
    }
}

/// Whether a file among the record's `dirs * frame_count` expected frame
/// files is missing from `loaded`.
pub fn missing_frames(s: &SerializedState, loaded: &Vec<Option<Frame>>) -> (r: bool)
    ensures
        r == is_missing(option_views(loaded@), s.view().dirs * s.view().frame_count),
{
    let ghost lv = option_views(loaded@);
    let ghost sv = s.view();
    assert((s.dirs as u64) * (s.frame_count as u64) <= u64::MAX) by (nonlinear_arith)
        requires
            s.dirs <= u32::MAX,
            s.frame_count <= u32::MAX,
    ;
    let n: u64 = s.dirs as u64 * s.frame_count as u64;
    let mut k: u64 = 0;
    while k < n
        invariant
            lv == option_views(loaded@),
            sv == s.view(),
            n == sv.dirs * sv.frame_count,
            k <= n,
            forall|i: int| 0 <= i < k ==> i < lv.len() && (#[trigger] lv[i]) is Some,
        decreases n - k,
    {
        if k >= loaded.len() as u64 {
            assert(!(k < lv.len()));
            assert(is_missing(lv, n as nat));
            return true;
        }
        match &loaded[k as usize] {
            None => {
                assert(lv[k as int] is None);
                assert(is_missing(lv, n as nat));
                return true;
            },
            Some(_) => {
                assert(lv[k as int] is Some);
            },
        }
        k = k + 1;
    }
    assert(!is_missing(lv, n as nat)) by {
        assert forall|i: int| 0 <= i < n implies !(i >= lv.len() || (#[trigger] lv[i]) is None) by {}
    }
    false
}

impl State {
    /// The state's record under `frame_key`, and its frames in the order in
    /// which their files are named.
    pub fn into_serialized(self, frame_key: String) -> (r: (SerializedState, Vec<Frame>))
        ensures
            r.0.view() == encoded_state(self.view(), frame_key@),
            r.1@.map_values(|f: Frame| f.view()) == self.view().frames,
    {
        let ghost v = self.view();
        let s = SerializedState {
            name: self.name,
            dirs: self.dirs,
            frame_key,
            frame_count: self.frame_count,
            delays: self.delays,
            loop_: self.loop_,
            rewind: self.rewind,
            movement: self.movement,
            hotspots: self.hotspots,
        };
        (s, self.frames)
    }

    /// Rebuilds a state from its record and what was read for each of its
    /// `dirs * frame_count` frame files, in order (`None` for a missing file).
    /// Fails, building nothing: first when a file is missing, then when the
    /// counts disagree or the direction count is not 1, 4 or 8, then when a
    /// frame is not `width` by `height`.
    pub fn from_serialized(s: SerializedState, loaded: Vec<Option<Frame>>, width: u32, height: u32) -> (r:
        Result<State, DmiError>)
        ensures
            result_view(r) == decoded_state(s.view(), option_views(loaded@), width as nat, height as nat),
            r matches Ok(st) ==> st.wf(width as nat, height as nat),
    {
        let ghost sv = s.view();
        let ghost lv = option_views(loaded@);
        if missing_frames(&s, &loaded) {
            return Err(DmiError::MissingFrameFile);
        }
        if s.delays.len() != s.frame_count as usize || !(s.dirs == 1 || s.dirs == 4 || s.dirs == 8) {
            return Err(DmiError::CountMismatch);
        }
        assert((s.dirs as u64) * (s.frame_count as u64) <= u64::MAX) by (nonlinear_arith)
            requires
                s.dirs <= u32::MAX,
                s.frame_count <= u32::MAX,
        ;
        let n: u64 = s.dirs as u64 * s.frame_count as u64;
        let mut k: u64 = 0;
        let mut misfit = false;
        while k < n
            invariant
                lv == option_views(loaded@),
                sv == s.view(),
                sv.delays.len() == sv.frame_count,
                valid_dirs(sv.dirs),
                n == sv.dirs * sv.frame_count,
                k <= n,
                forall|i: int| 0 <= i < k ==> i < lv.len() && (#[trigger] lv[i]) is Some,
                misfit <==> exists|i: int| 0 <= i < k && !fits(#[trigger] lv[i]->0, width as nat, height as nat),
            decreases n - k,
        {
            if k >= loaded.len() as u64 {
                assert(!(k < lv.len()));
                assert(is_missing(lv, n as nat));
                return Err(DmiError::MissingFrameFile);
            }
            match &loaded[k as usize] {
                None => {
                    assert(lv[k as int] is None);
                    assert(is_missing(lv, n as nat));
                    return Err(DmiError::MissingFrameFile);
                },
                Some(f) => {
                    assert(lv[k as int] == Some(f.view()));
                    if !(f.is_valid() && f.width == width && f.height == height) {
                        misfit = true;
                    }
                },
            }
            k = k + 1;
        }
        assert(!is_missing(lv, n as nat));
        assert(n <= lv.len()) by {
            if n > 0 {
                assert(lv[(n - 1) as int] is Some);
            }
        }
        if misfit {
            assert(is_misfit(lv, n as nat, width as nat, height as nat));
            return Err(DmiError::DimensionMismatch);
        }
        assert(!is_misfit(lv, n as nat, width as nat, height as nat));
        let mut frames: Vec<Frame> = Vec::new();
        let mut rest = loaded;
        let ghost all = rest@;
        let mut i: u64 = 0;
        while i < n
            invariant
                lv == option_views(all),
                sv == s.view(),
                sv.delays.len() == sv.frame_count,
                valid_dirs(sv.dirs),
                n == sv.dirs * sv.frame_count,
                n <= all.len(),
                i <= n,
                rest@ == all.subrange(i as int, all.len() as int),
                forall|j: int| 0 <= j < n ==> (#[trigger] lv[j]) is Some && fits(lv[j]->0, width as nat, height as nat),
                frames@.len() == i,
                forall|j: int| 0 <= j < i ==> (#[trigger] frames@[j]).view() == lv[j]->0,
            decreases n - i,
        {
            let o = rest.remove(0);
            assert(o == all[i as int]);
            assert(lv[i as int] is Some);
            match o {
                Some(f) => {
                    frames.push(f);
                },
                None => {},
            }
            i = i + 1;
            assert(rest@ =~= all.subrange(i as int, all.len() as int));
        }
        let r = State {
            name: s.name,
            dirs: s.dirs,
            frame_count: s.frame_count,
            frames,
            delays: s.delays,
            loop_: s.loop_,
            rewind: s.rewind,
            movement: s.movement,
            hotspots: s.hotspots,
        };
        assert(r.view().frames =~= loaded_frames(lv, n as nat));
        Ok(r)
    }
}

/// What was read for the frame files of state `i`: nothing when absent.
pub open spec fn loaded_for(loaded: Seq<Seq<Option<FrameView>>>, i: int) -> Seq<Option<FrameView>> {
    if 0 <= i < loaded.len() {
        loaded[i]
    } else {
        seq![]
    }
}

/// Decoding the first `n` state records; the first failure wins.
pub open spec fn decoded_states(
    s: SerializedDmiView,
    loaded: Seq<Seq<Option<FrameView>>>,
    n: nat,
) -> Result<Seq<StateView>, DmiError>
    decreases n,
{
    if n == 0 {
        Ok(seq![])
    } else {
        match decoded_states(s, loaded, (n - 1) as nat) {
            Err(e) => Err(e),
            Ok(done) => match decoded_state(
                s.states[n - 1],
                loaded_for(loaded, n - 1),
                s.width,
                s.height,
            ) {
                Err(e) => Err(e),
                Ok(st) => Ok(done.push(st)),
            },
        }
    }
}

/// State `i` of the record misses one of its expected frame files.
pub open spec fn state_missing(s: SerializedDmiView, loaded: Seq<Seq<Option<FrameView>>>, i: int) -> bool {
    is_missing(loaded_for(loaded, i), s.states[i].dirs * s.states[i].frame_count)
}

/// Decoding a sheet record whose state `i` had `loaded[i]` read for its
/// frame files: a missing frame file anywhere fails it first; otherwise the
/// first state that cannot be decoded does.
pub open spec fn decoded_dmi(s: SerializedDmiView, loaded: Seq<Seq<Option<FrameView>>>) -> Result<DmiView, DmiError> {
    if exists|i: int| 0 <= i < s.states.len() && #[trigger] state_missing(s, loaded, i) {
        Err(DmiError::MissingFrameFile)
    } else {
        match decoded_states(s, loaded, s.states.len()) {
        Err(e) => Err(e),
            Ok(states) => Ok(DmiView { name: s.name, width: s.width, height: s.height, states }),
        }
    }
}

pub open spec fn nested_option_views(v: Seq<Vec<Option<Frame>>>) -> Seq<Seq<Option<FrameView>>> {
    v.map_values(|l: Vec<Option<Frame>>| option_views(l@))
}

pub open spec fn nested_frame_views(v: Seq<Vec<Frame>>) -> Seq<Seq<FrameView>> {
    v.map_values(|l: Vec<Frame>| l@.map_values(|f: Frame| f.view()))
}

pub open spec fn dmi_result_view(r: Result<Dmi, DmiError>) -> Result<DmiView, DmiError> {
    match r {
        Ok(d) => Ok(d.view()),
        Err(e) => Err(e),
    }
}

/// The frames of a state as files that were all found.
pub open spec fn all_found(frames: Seq<FrameView>) -> Seq<Option<FrameView>> {
    frames.map_values(|f: FrameView| Some(f))
}

impl Dmi {
    /// The sheet's record, its `i`th state under `keys[i]`, and the frames of
    /// each state in the order in which their files are named.
    pub fn into_serialized(self, temp: String, keys: Vec<String>) -> (r: (SerializedDmi, Vec<Vec<Frame>>))
        requires
            keys@.len() == self.states@.len(),
        ensures
            r.0.view() == encoded_dmi(self.view(), temp@, keys@.map_values(|k: String| k@)),
            nested_frame_views(r.1@) == self.view().states.map_values(|s: StateView| s.frames),
    {
        let ghost v = self.view();
        let ghost kv = keys@.map_values(|k: String| k@);
        let mut rest = self.states;
        let ghost all = rest@;
        let mut key_rest = keys;
        let ghost all_keys = key_rest@;
        let n = rest.len();
        let mut states: Vec<SerializedState> = Vec::new();
        let mut frames: Vec<Vec<Frame>> = Vec::new();
        let mut i: usize = 0;
        while i < n
            invariant
                n == all.len(),
                all_keys.len() == n,
                v.states == all.map_values(|s: State| s.view()),
                kv == all_keys.map_values(|k: String| k@),
                i <= n,
                rest@ == all.subrange(i as int, n as int),
                key_rest@ == all_keys.subrange(i as int, n as int),
                states@.len() == i,
                frames@.len() == i,
                forall|k: int| 0 <= k < i ==> (#[trigger] states@[k]).view() == encoded_state(v.states[k], kv[k]),
                forall|k: int|
                    0 <= k < i ==> (#[trigger] frames@[k])@.map_values(|f: Frame| f.view()) == v.states[k].frames,
            decreases n - i,
        {
            let st = rest.remove(0);
            let key = key_rest.remove(0);
            assert(st == all[i as int]);
            assert(key == all_keys[i as int]);
            let (record, fs) = st.into_serialized(key);
            states.push(record);
            frames.push(fs);
            i = i + 1;
            assert(rest@ =~= all.subrange(i as int, n as int));
            assert(key_rest@ =~= all_keys.subrange(i as int, n as int));
        }
        let r = SerializedDmi { name: self.name, width: self.width, height: self.height, states, temp };
        assert(r.view().states =~= encoded_dmi(v, temp@, kv).states);
        assert(nested_frame_views(frames@) =~= v.states.map_values(|s: StateView| s.frames));
        (r, frames)
    }

    /// Rebuilds a sheet from its record and what was read for the frame files
    /// of each state (`loaded[i]` for state `i`). Fails, building nothing,
    /// with `MissingFrameFile` when any state misses a frame file, and
    /// otherwise as the first state that cannot be decoded does.
    pub fn from_serialized(s: SerializedDmi, loaded: Vec<Vec<Option<Frame>>>) -> (r: Result<Dmi, DmiError>)
        ensures
            dmi_result_view(r) == decoded_dmi(s.view(), nested_option_views(loaded@)),
            r matches Ok(d) ==> d.wf(),
    {
        let ghost sv = s.view();
        let ghost lv = nested_option_views(loaded@);
        let empty: Vec<Option<Frame>> = Vec::new();
        let mut j: usize = 0;
        while j < s.states.len()
            invariant
                sv == s.view(),
                lv == nested_option_views(loaded@),
                empty@.len() == 0,
                j <= sv.states.len(),
                forall|k: int| 0 <= k < j ==> !#[trigger] state_missing(sv, lv, k),
            decreases sv.states.len() - j,
        {
            let frames_read = if j < loaded.len() {
                &loaded[j]
            } else {
                &empty
            };
            assert(option_views(frames_read@) =~= loaded_for(lv, j as int));
            assert(s.states@[j as int].view() == sv.states[j as int]);
            if missing_frames(&s.states[j], frames_read) {
                assert(state_missing(sv, lv, j as int));
                return Err(DmiError::MissingFrameFile);
            }
            j = j + 1;
        }
        let mut rest = s.states;
        let ghost all = rest@;
        let mut loaded_rest = loaded;
        let ghost all_loaded = loaded_rest@;
        let n = rest.len();
        let mut states: Vec<State> = Vec::new();
        assert(states@.map_values(|x: State| x.view()) =~= Seq::<StateView>::empty());
        let mut i: usize = 0;
        while i < n
            invariant
                n == all.len(),
                sv.states == all.map_values(|x: SerializedState| x.view()),
                sv.width == s.width,
                sv.height == s.height,
                sv.name == s.name@,
                sv == s.view(),
                forall|k: int| 0 <= k < sv.states.len() ==> !#[trigger] state_missing(sv, lv, k),
                lv == nested_option_views(loaded@),
                lv == nested_option_views(all_loaded),
                i <= n,
                rest@ == all.subrange(i as int, n as int),
                loaded_rest@ == if i <= all_loaded.len() { all_loaded.subrange(i as int, all_loaded.len() as int) } else { seq![] },
                decoded_states(sv, lv, i as nat) == Ok::<Seq<StateView>, DmiError>(states@.map_values(|x: State| x.view())),
                states@.len() == i,
                forall|k: int| 0 <= k < i ==> (#[trigger] states@[k]).wf(s.width as nat, s.height as nat),
            decreases n - i,
        {
            let record = rest.remove(0);
            assert(record == all[i as int]);
            assert(record.view() == sv.states[i as int]);
            let frames_read = if loaded_rest.len() > 0 {
                loaded_rest.remove(0)
            } else {
                Vec::new()
            };
            assert(option_views(frames_read@) =~= loaded_for(lv, i as int));
            let ghost done = states@.map_values(|x: State| x.view());
            match State::from_serialized(record, frames_read, s.width, s.height) {
                Err(e) => {
                    assert(decoded_states(sv, lv, (i + 1) as nat) == Err::<Seq<StateView>, DmiError>(e));
                    proof {
                        lemma_decoded_states_fail(sv, lv, (i + 1) as nat, n as nat);
                        assert(sv.states.len() == n);
                        assert(decoded_dmi(sv, lv) == Err::<DmiView, DmiError>(e));
                        assert(dmi_result_view(Err::<Dmi, DmiError>(e)) == decoded_dmi(sv, lv));
                    }
                    return Err(e);
                },
                Ok(st) => {
                    let ghost stv = st.view();
                    assert(decoded_states(sv, lv, (i + 1) as nat) == Ok::<Seq<StateView>, DmiError>(done.push(stv)));
                    assert(st.wf(s.width as nat, s.height as nat));
                    states.push(st);
                    assert(states@[i as int].wf(s.width as nat, s.height as nat));
                    assert(states@.map_values(|x: State| x.view()) =~= done.push(stv));
                },
            }
            i = i + 1;
            assert(rest@ =~= all.subrange(i as int, n as int));
            assert(loaded_rest@ =~= if i <= all_loaded.len() { all_loaded.subrange(i as int, all_loaded.len() as int) } else { seq![] });
        }
        let r = Dmi { name: s.name, width: s.width, height: s.height, states };
        assert(r.view().states == states@.map_values(|x: State| x.view()));
        assert(r.wf()) by {
            assert forall|k: int| 0 <= k < r.view().states.len() implies (#[trigger] r.view().states[k]).wf(
                r.view().width,
                r.view().height,
            ) by {
                assert(r.states@[k].wf(s.width as nat, s.height as nat));
            }
        }
        Ok(r)
    }
}

proof fn lemma_decoded_states_fail(s: SerializedDmiView, loaded: Seq<Seq<Option<FrameView>>>, i: nat, n: nat)
    requires
        i <= n,
        decoded_states(s, loaded, i) is Err,
    ensures
        decoded_states(s, loaded, n) == decoded_states(s, loaded, i),
    decreases n - i,
{
    if i < n {
        lemma_decoded_states_fail(s, loaded, (i + 1) as nat, n);
    }
}

/// Decoding what encoding a well-formed state wrote gives the state back.
pub proof fn lemma_state_round_trip(s: StateView, key: Seq<char>, w: nat, h: nat)
    requires
        s.wf(w, h),
    ensures
        decoded_state(encoded_state(s, key), all_found(s.frames), w, h) == Ok::<StateView, DmiError>(s),
        !is_missing(all_found(s.frames), s.dirs * s.frame_count),
{
    let l = all_found(s.frames);
    let n = s.dirs * s.frame_count;
    assert(!is_missing(l, n));
    assert(!is_misfit(l, n, w, h));
    assert(loaded_frames(l, n) =~= s.frames);
}

/// Round trip through the workspace: decoding the record of a well-formed
/// sheet, with each state's frame files read back as they were written,
/// gives the sheet back, pixels, delays, flags and hotspots included.
pub proof fn lemma_round_trip(d: DmiView, temp: Seq<char>, keys: Seq<Seq<char>>)
    requires
        d.wf(),
        keys.len() == d.states.len(),
    ensures
        decoded_dmi(
            encoded_dmi(d, temp, keys),
            d.states.map_values(|s: StateView| all_found(s.frames)),
        ) == Ok::<DmiView, DmiError>(d),
{
    let e = encoded_dmi(d, temp, keys);
    let l = d.states.map_values(|s: StateView| all_found(s.frames));
    lemma_states_round_trip(d, temp, keys, d.states.len());
    assert forall|i: int| 0 <= i < e.states.len() implies !#[trigger] state_missing(e, l, i) by {
        lemma_state_round_trip(d.states[i], keys[i], d.width, d.height);
        assert(loaded_for(l, i) == all_found(d.states[i].frames));
    }
    assert(d.states.subrange(0, d.states.len() as int) =~= d.states);
}

proof fn lemma_states_round_trip(d: DmiView, temp: Seq<char>, keys: Seq<Seq<char>>, n: nat)
    requires
        d.wf(),
        keys.len() == d.states.len(),
        n <= d.states.len(),
    ensures
        decoded_states(
            encoded_dmi(d, temp, keys),
            d.states.map_values(|s: StateView| all_found(s.frames)),
            n,
        ) == Ok::<Seq<StateView>, DmiError>(d.states.subrange(0, n as int)),
    decreases n,
{
    if n > 0 {
        lemma_states_round_trip(d, temp, keys, (n - 1) as nat);
        let i = n - 1;
        lemma_state_round_trip(d.states[i], keys[i], d.width, d.height);
        let l = d.states.map_values(|s: StateView| all_found(s.frames));
        let e = encoded_dmi(d, temp, keys);
        assert(loaded_for(l, i) == all_found(d.states[i].frames));
        assert(e.states[i] == encoded_state(d.states[i], keys[i]));
        assert(d.states[i].wf(d.width, d.height));
        assert(decoded_state(e.states[i], loaded_for(l, i), e.width, e.height) == Ok::<StateView, DmiError>(d.states[i]));
        assert(d.states.subrange(0, n as int) =~= d.states.subrange(0, i).push(d.states[i]));
    } else {
        assert(d.states.subrange(0, 0) =~= Seq::<StateView>::empty());
    }
}

/// A record one of whose expected frame files is missing decodes to
/// `MissingFrameFile`, and to no state.
pub proof fn lemma_missing_frame_fails(s: SerializedStateView, loaded: Seq<Option<FrameView>>, w: nat, h: nat, k: int)
    requires
        0 <= k < s.dirs * s.frame_count,
        k >= loaded.len() || loaded[k] is None,
    ensures
        decoded_state(s, loaded, w, h) == Err::<StateView, DmiError>(DmiError::MissingFrameFile),
{
    if k < loaded.len() {
        assert(loaded[k] is None);
    }
    assert(is_missing(loaded, s.dirs * s.frame_count));
}

/// A sheet record in which any state misses one of its expected frame files
/// decodes to `MissingFrameFile`, and to no sheet, whatever else is wrong
/// with it.
pub proof fn lemma_sheet_missing_frame_fails(
    s: SerializedDmiView,
    loaded: Seq<Seq<Option<FrameView>>>,
    i: int,
    k: int,
)
    requires
        0 <= i < s.states.len(),
        0 <= k < s.states[i].dirs * s.states[i].frame_count,
        k >= loaded_for(loaded, i).len() || loaded_for(loaded, i)[k] is None,
    ensures
        decoded_dmi(s, loaded) == Err::<DmiView, DmiError>(DmiError::MissingFrameFile),
{
    let l = loaded_for(loaded, i);
    if k < l.len() {
        assert(l[k] is None);
    }
    assert(is_missing(l, s.states[i].dirs * s.states[i].frame_count));
    assert(state_missing(s, loaded, i));
}

} // verus!
