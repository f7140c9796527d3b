//! Raster transforms applied uniformly to every frame of a sheet.
use vstd::prelude::*;
use crate::model::{Dmi, DmiView, State, StateView};
use crate::text::{chars_equal, chars_of};
use crate::raster::{cropped, expanded, lemma_crop_undoes_expand, min_nat, Frame, FrameView, Pixel};

verus! {

/// The resampling kernels that `resize` offers.
#[derive(Clone, Copy, Debug, PartialEq, Eq, Structural)]
pub enum ResizeFilter {
    Nearest,
    Triangle,
    CatmullRom,
    Gaussian,
    Lanczos3,
}

/// The kernel a method name stands for.
pub open spec fn filter_named(name: Seq<char>) -> Option<ResizeFilter> {
    if name == "nearest"@ {
        Some(ResizeFilter::Nearest)
    } else if name == "triangle"@ {
        Some(ResizeFilter::Triangle)
    } else if name == "catmullrom"@ {
        Some(ResizeFilter::CatmullRom)
    } else if name == "gaussian"@ {
        Some(ResizeFilter::Gaussian)
    } else if name == "lanczos3"@ {
        Some(ResizeFilter::Lanczos3)
    } else {
        None
    }
}

impl ResizeFilter {
    /// The kernel named `nearest`, `triangle`, `catmullrom`, `gaussian` or
    /// `lanczos3`; nothing for any other name.
    pub fn from_name(name: &str) -> (r: Option<ResizeFilter>)
        ensures
            r == filter_named(name@),
    {
        let n = chars_of(name);
        if chars_equal(&n, &chars_of("nearest")) {
            Some(ResizeFilter::Nearest)
        } else if chars_equal(&n, &chars_of("triangle")) {
            Some(ResizeFilter::Triangle)
        } else if chars_equal(&n, &chars_of("catmullrom")) {
            Some(ResizeFilter::CatmullRom)
        } else if chars_equal(&n, &chars_of("gaussian")) {
            Some(ResizeFilter::Gaussian)
        } else if chars_equal(&n, &chars_of("lanczos3")) {
            Some(ResizeFilter::Lanczos3)
        } else {
            None
        }
    }
}

/// The kernels whose computation uses only IEEE arithmetic, comparisons,
/// `abs`, `floor`, `ceil` and `round`, each of which is exact, so that their
/// result depends on the pixels alone. CatmullRom calls `powi`, Gaussian `exp` and Lanczos3 `sin`,
/// whose precision std leaves unspecified.
pub open spec fn exact_kernel(filter: ResizeFilter) -> bool {
    filter == ResizeFilter::Nearest || filter == ResizeFilter::Triangle
}

/// The pixels of a `width` by `height` grid resampled to `new_width` by
/// `new_height` with one of the exact kernels.
pub uninterp spec fn resampled(
    grid: Seq<Seq<Pixel>>,
    width: nat,
    height: nat,
    new_width: nat,
    new_height: nat,
    filter: ResizeFilter,
) -> Seq<Seq<Pixel>>;

/// Relies on `image::imageops::resize`: the result is `width` by `height`, a
/// request for the image's own size returns a copy of it, and with an exact
/// kernel the pixels depend on the arguments alone.
#[verifier::external_body]
fn resample(f: &Frame, width: u32, height: u32, filter: ResizeFilter) -> (r: Frame)
    requires
        f.wf(),
    ensures
        r.wf(),
        r.width == width,
        r.height == height,
        exact_kernel(filter) ==> r.view().grid == resampled(
            f.view().grid,
            f.width as nat,
            f.height as nat,
            width as nat,
            height as nat,
            filter,
        ),
        width == f.width && height == f.height ==> r.view() == f.view(),
{
    let kernel = match filter {
        ResizeFilter::Nearest => image::imageops::FilterType::Nearest,
        ResizeFilter::Triangle => image::imageops::FilterType::Triangle,
        ResizeFilter::CatmullRom => image::imageops::FilterType::CatmullRom,
        ResizeFilter::Gaussian => image::imageops::FilterType::Gaussian,
        ResizeFilter::Lanczos3 => image::imageops::FilterType::Lanczos3,
    };
    let src = image::RgbaImage::from_raw(f.width, f.height, f.rows.concat().concat()).unwrap_or_default();
    let out = image::imageops::resize(&src, width, height, kernel);
    let rows = (0..height).map(|y| (0..width).map(|x| out.get_pixel(x, y).0).collect()).collect();
    Frame { width, height, rows }
}

/// One raster transform, applied alike to every frame.
#[derive(Clone, Copy, Debug, PartialEq, Eq, Structural)]
pub enum Transform {
    Resize { width: u32, height: u32, filter: ResizeFilter },
    Crop { x: u32, y: u32, width: u32, height: u32 },
    Expand { x: u32, y: u32, width: u32, height: u32 },
}

/// `new` is what the transform makes of the frame `old`. Crop and expand
/// fix every pixel; a resize fixes the size, keeps a frame asked for its own
/// size, and with an exact kernel fixes the pixels as `resampled`.
pub open spec fn frame_after(t: Transform, old: FrameView, new: FrameView) -> bool {
    match t {
        Transform::Resize { width, height, filter } => {
            &&& new.wf()
            &&& new.width == width
            &&& new.height == height
            &&& width == old.width && height == old.height ==> new == old
            &&& exact_kernel(filter) ==> new.grid == resampled(
                old.grid,
                old.width,
                old.height,
                width as nat,
                height as nat,
                filter,
            )
        },
        Transform::Crop { x, y, width, height } => new == cropped(old, x as nat, y as nat, width as nat, height as nat),
        Transform::Expand { x, y, width, height } => new == expanded(
            old,
            x as nat,
            y as nat,
            width as nat,
            height as nat,
        ),
    }
}

/// The cell size after the transform, from a cell of `w` by `h`.
pub open spec fn new_width(t: Transform, w: nat) -> nat {
    match t {
        Transform::Resize { width, .. } => width as nat,
        Transform::Crop { x, width, .. } => min_nat(width as nat, (w - min_nat(x as nat, w)) as nat),
        Transform::Expand { width, .. } => width as nat,
    }
}

pub open spec fn new_height(t: Transform, h: nat) -> nat {
    match t {
        Transform::Resize { height, .. } => height as nat,
        Transform::Crop { y, height, .. } => min_nat(height as nat, (h - min_nat(y as nat, h)) as nat),
        Transform::Expand { height, .. } => height as nat,
    }
}

/// `new` is the state `old` with each frame transformed and all else kept.
pub open spec fn state_after(t: Transform, old: StateView, new: StateView) -> bool {
    &&& new == (StateView { frames: new.frames, ..old })
    &&& new.frames.len() == old.frames.len()
    &&& forall|k: int| 0 <= k < old.frames.len() ==> #[trigger] frame_after(t, old.frames[k], new.frames[k])
}

/// `new` is the sheet `old` with its cell size and every frame of every state
/// transformed, and all else kept.
pub open spec fn dmi_after(t: Transform, old: DmiView, new: DmiView) -> bool {
    &&& new.name == old.name
    &&& new.width == new_width(t, old.width)
    &&& new.height == new_height(t, old.height)
    &&& new.states.len() == old.states.len()
    &&& forall|i: int| 0 <= i < old.states.len() ==> #[trigger] state_after(t, old.states[i], new.states[i])
}

impl Transform {
    pub fn apply(&self, f: &Frame) -> (r: Frame)
        requires
            f.wf(),
        ensures
            r.wf(),
            frame_after(*self, f.view(), r.view()),
            r.width == new_width(*self, f.width as nat),
            r.height == new_height(*self, f.height as nat),
    {
        match *self {
            Transform::Resize { width, height, filter } => resample(f, width, height, filter),
            Transform::Crop { x, y, width, height } => f.crop(x, y, width, height),
            Transform::Expand { x, y, width, height } => f.expand(x, y, width, height),
        }
    }
}

impl State {
    /// The state with the transform applied to each of its frames.
    pub(crate) fn transformed(self, t: &Transform, width: Ghost<nat>, height: Ghost<nat>) -> (r: State)
        requires
            self.wf(width@, height@),
        ensures
            state_after(*t, self.view(), r.view()),
            r.wf(new_width(*t, width@), new_height(*t, height@)),
    {
        let ghost v = self.view();
        let mut frames: Vec<Frame> = Vec::new();
        let mut k: usize = 0;
        while k < self.frames.len()
            invariant
                self.wf(width@, height@),
                v == self.view(),
                k <= self.frames@.len(),
                frames@.len() == k,
                forall|i: int|
                    0 <= i < k ==> {
                        &&& frame_after(*t, v.frames[i], (#[trigger] frames@[i]).view())
                        &&& frames@[i].wf()
                        &&& frames@[i].width == new_width(*t, width@)
                        &&& frames@[i].height == new_height(*t, height@)
                    },
            decreases self.frames@.len() - k,
        {
            assert(self.frames@[k as int].view() == v.frames[k as int]);
            frames.push(t.apply(&self.frames[k]));
            k = k + 1;
        }
        let r = State { frames, ..self };
        assert(r.view() == (StateView { frames: r.view().frames, ..v }));
        assert forall|i: int| 0 <= i < v.frames.len() implies #[trigger] frame_after(
            *t,
            v.frames[i],
            r.view().frames[i],
        ) by {
            assert(r.view().frames[i] == frames@[i].view());
        }
        r
    }
}

impl Dmi {
    /// Applies the transform to every frame of every state and takes the new
    /// cell size.
    pub fn transform(&mut self, t: Transform)
        requires
            old(self).wf(),
        ensures
            final(self).wf(),
            dmi_after(t, old(self).view(), final(self).view()),
    {
        let ghost v = self.view();
        let mut rest: Vec<State> = Vec::new();
        std::mem::swap(&mut rest, &mut self.states);
        let ghost all = rest@;
        let n = rest.len();
        let mut states: Vec<State> = Vec::new();
        let mut i: usize = 0;
        while i < n
            invariant
                n == all.len(),
                v.states == all.map_values(|s: State| s.view()),
                v.wf(),
                i <= n,
                rest@ == all.subrange(i as int, n as int),
                states@.len() == i,
                forall|k: int|
                    0 <= k < i ==> {
                        &&& state_after(t, v.states[k], (#[trigger] states@[k]).view())
                        &&& states@[k].wf(new_width(t, v.width), new_height(t, v.height))
                    },
            decreases n - i,
        {
            let s = rest.remove(0);
            assert(s == all[i as int]);
            assert(v.states[i as int] == s.view());
            states.push(s.transformed(&t, Ghost(v.width), Ghost(v.height)));
            i = i + 1;
            assert(rest@ =~= all.subrange(i as int, n as int));
        }
        self.states = states;
        match t {
            Transform::Resize { width, height, .. } => {
                self.width = width;
                self.height = height;
            },
            Transform::Crop { x, y, width, height } => {
                let cx: u32 = if x <= self.width { x } else { self.width };
                let cy: u32 = if y <= self.height { y } else { self.height };
                self.width = if width <= self.width - cx { width } else { self.width - cx };
                self.height = if height <= self.height - cy { height } else { self.height - cy };
            },
            Transform::Expand { width, height, .. } => {
                self.width = width;
                self.height = height;
            },
        }
        assert forall|k: int| 0 <= k < v.states.len() implies #[trigger] state_after(
            t,
            v.states[k],
            self.view().states[k],
        ) by {
            assert(self.view().states[k] == self.states@[k].view());
        }
        assert forall|k: int| 0 <= k < self.view().states.len() implies (#[trigger] self.view().states[k]).wf(
            self.view().width,
            self.view().height,
        ) by {
            assert(self.view().states[k] == self.states@[k].view());
        }
    }

    /// Resamples every frame to `width` by `height` with `filter`.
    pub fn resize(&mut self, width: u32, height: u32, filter: ResizeFilter)
        requires
            old(self).wf(),
        ensures
            final(self).wf(),
            dmi_after(Transform::Resize { width, height, filter }, old(self).view(), final(self).view()),
    {
        self.transform(Transform::Resize { width, height, filter });
    }

    /// Cuts every frame down to the rectangle at `(x, y)` of size `width` by
    /// `height`, clamped to the pixels that exist.
    pub fn crop(&mut self, x: u32, y: u32, width: u32, height: u32)
        requires
            old(self).wf(),
        ensures
            final(self).wf(),
            dmi_after(Transform::Crop { x, y, width, height }, old(self).view(), final(self).view()),
    {
        self.transform(Transform::Crop { x, y, width, height });
    }

    /// Puts every frame at `(x, y)` on a transparent `width` by `height` canvas.
    pub fn expand(&mut self, x: u32, y: u32, width: u32, height: u32)
        requires
            old(self).wf(),
        ensures
            final(self).wf(),
            dmi_after(Transform::Expand { x, y, width, height }, old(self).view(), final(self).view()),
    {
        self.transform(Transform::Expand { x, y, width, height });
    }
}

/// Expanding a sheet and then cropping the same offset at the old cell size
/// gives the sheet back pixel for pixel, whenever the old cells fit in the
/// expanded canvas.
pub proof fn lemma_expand_then_crop(
    d: DmiView,
    x: u32,
    y: u32,
    width: u32,
    height: u32,
    expanded_dmi: DmiView,
    restored: DmiView,
)
    requires
        d.wf(),
        x + d.width <= width,
        y + d.height <= height,
        dmi_after(Transform::Expand { x, y, width, height }, d, expanded_dmi),
        dmi_after(Transform::Crop { x, y, width: d.width as u32, height: d.height as u32 }, expanded_dmi, restored),
    ensures
        restored == d,
{
    let e = Transform::Expand { x, y, width, height };
    let c = Transform::Crop { x, y, width: d.width as u32, height: d.height as u32 };
    assert forall|i: int| 0 <= i < d.states.len() implies #[trigger] restored.states[i] == d.states[i] by {
        let s = d.states[i];
        let m = expanded_dmi.states[i];
        let r = restored.states[i];
        assert(s.wf(d.width, d.height));
        assert(state_after(e, s, m));
        assert(state_after(c, m, r));
        assert forall|k: int| 0 <= k < s.frames.len() implies #[trigger] r.frames[k] == s.frames[k] by {
            assert(frame_after(e, s.frames[k], m.frames[k]));
            assert(frame_after(c, m.frames[k], r.frames[k]));
            lemma_crop_undoes_expand(s.frames[k], x as nat, y as nat, width as nat, height as nat);
        }
        assert(r.frames =~= s.frames);
    }
    assert(restored.states =~= d.states);
}

} // verus!
