//! RGBA8 raster frames held as rows of pixels, and the pure placement
//! operations (crop, place onto a canvas) that the sprite transforms use.
use vstd::prelude::*;

verus! {

/// One RGBA8 pixel: red, green, blue, alpha.
pub type Pixel = [u8; 4];

/// A raster image: `rows[y][x]` is the pixel at column `x` of row `y`.
#[derive(Clone, Debug, PartialEq, Eq)]
pub struct Frame {
    pub width: u32,
    pub height: u32,
    pub rows: Vec<Vec<Pixel>>,
}

/// What a frame holds: its size and its pixel grid.
pub struct FrameView {
    pub width: nat,
    pub height: nat,
    pub grid: Seq<Seq<Pixel>>,
}

pub open spec fn transparent() -> Pixel {
    [0u8, 0u8, 0u8, 0u8]
}

/// A grid that is `w` pixels wide and `h` pixels high.
pub open spec fn grid_has_size(g: Seq<Seq<Pixel>>, w: nat, h: nat) -> bool {
    &&& g.len() == h
    &&& forall|j: int| 0 <= j < h ==> #[trigger] g[j].len() == w
}

impl FrameView {
    pub open spec fn wf(self) -> bool {
        grid_has_size(self.grid, self.width, self.height)
    }

    pub open spec fn at(self, x: int, y: int) -> Pixel {
        self.grid[y][x]
    }
}

/// A fully transparent `w` by `h` image.
pub open spec fn blank_view(w: nat, h: nat) -> FrameView {
    FrameView { width: w, height: h, grid: Seq::new(h, |j: int| Seq::new(w, |i: int| transparent())) }
}

pub open spec fn min_nat(a: nat, b: nat) -> nat {
    if a <= b { a } else { b }
}

/// The rectangle at `(x, y)` of size `w` by `h`, clamped to the pixels that exist.
pub open spec fn cropped(v: FrameView, x: nat, y: nat, w: nat, h: nat) -> FrameView {
    let cx = min_nat(x, v.width);
    let cy = min_nat(y, v.height);
    let cw = min_nat(w, (v.width - cx) as nat);
    let ch = min_nat(h, (v.height - cy) as nat);
    FrameView {
        width: cw,
        height: ch,
        grid: Seq::new(ch, |j: int| Seq::new(cw, |i: int| v.at(cx + i, cy + j))),
    }
}

/// `top` placed with its top-left corner at `(x, y)` over `canvas`; what falls
/// outside the canvas is dropped.
pub open spec fn placed(canvas: FrameView, top: FrameView, x: nat, y: nat) -> FrameView {
    FrameView {
        width: canvas.width,
        height: canvas.height,
        grid: Seq::new(
            canvas.height,
            |j: int|
                Seq::new(
                    canvas.width,
                    |i: int|
                        if x <= i < x + top.width && y <= j < y + top.height {
                            top.at(i - x, j - y)
                        } else {
                            canvas.at(i, j)
                        },
                ),
        ),
    }
}

/// A transparent `w` by `h` canvas with `v` placed at `(x, y)`.
pub open spec fn expanded(v: FrameView, x: nat, y: nat, w: nat, h: nat) -> FrameView {
    placed(blank_view(w, h), v, x, y)
}

impl Frame {
    pub open spec fn view(&self) -> FrameView {
        FrameView {
            width: self.width as nat,
            height: self.height as nat,
            grid: self.rows@.map_values(|r: Vec<Pixel>| r@),
        }
    }

    pub open spec fn wf(&self) -> bool {
        self.view().wf()
    }

    /// A fully transparent frame.
    pub fn blank(width: u32, height: u32) -> (r: Frame)
        ensures
            r.wf(),
            r.view() == blank_view(width as nat, height as nat),
    {
        let mut rows: Vec<Vec<Pixel>> = Vec::new();
        let mut j: u32 = 0;
        while j < height
            invariant
                j <= height,
                rows@.len() == j,
                forall|k: int|
                    0 <= k < j ==> #[trigger] rows@[k]@ == Seq::new(width as nat, |i: int| transparent()),
            decreases height - j,
        {
            let mut row: Vec<Pixel> = Vec::new();
            let mut i: u32 = 0;
            while i < width
                invariant
                    i <= width,
                    row@ == Seq::new(i as nat, |k: int| transparent()),
                decreases width - i,
            {
                row.push([0u8, 0u8, 0u8, 0u8]);
                i = i + 1;
                assert(row@ =~= Seq::new(i as nat, |k: int| transparent()));
            }
            rows.push(row);
            j = j + 1;
        }
        let r = Frame { width, height, rows };
        assert(r.view().grid =~= blank_view(width as nat, height as nat).grid);
        r
    }

    /// The rectangle at `(x, y)` of size `width` by `height`, clamped to the
    /// pixels that exist (so the result may be smaller than asked).
    pub fn crop(&self, x: u32, y: u32, width: u32, height: u32) -> (r: Frame)
        requires
            self.wf(),
        ensures
            r.wf(),
            r.view() == cropped(self.view(), x as nat, y as nat, width as nat, height as nat),
    {
        let cx: u32 = if x <= self.width { x } else { self.width };
        let cy: u32 = if y <= self.height { y } else { self.height };
        let cw: u32 = if width <= self.width - cx { width } else { self.width - cx };
        let ch: u32 = if height <= self.height - cy { height } else { self.height - cy };
        let ghost v = self.view();
        let mut rows: Vec<Vec<Pixel>> = Vec::new();
        let mut j: u32 = 0;
        while j < ch
            invariant
                self.wf(),
                v == self.view(),
                cy + ch <= self.height,
                cx + cw <= self.width,
                j <= ch,
                rows@.len() == j,
                forall|k: int|
                    0 <= k < j ==> #[trigger] rows@[k]@ == Seq::new(
                        cw as nat,
                        |i: int| v.at(cx + i, cy + k),
                    ),
            decreases ch - j,
        {
            let src = &self.rows[(cy + j) as usize];
            assert(src@ == v.grid[cy + j]);
            let mut row: Vec<Pixel> = Vec::new();
            let mut i: u32 = 0;
            while i < cw
                invariant
                    self.wf(),
                    v == self.view(),
                    cy + j < self.height,
                    cx + cw <= self.width,
                    src@ == v.grid[cy + j],
                    i <= cw,
                    row@ == Seq::new(i as nat, |k: int| v.at(cx + k, cy + j)),
                decreases cw - i,
            {
                row.push(src[(cx + i) as usize]);
                i = i + 1;
                assert(row@ =~= Seq::new(i as nat, |k: int| v.at(cx + k, cy + j)));
            }
            rows.push(row);
            j = j + 1;
        }
        let r = Frame { width: cw, height: ch, rows };
        assert(r.view().grid =~= cropped(v, x as nat, y as nat, width as nat, height as nat).grid);
        r
    }

    /// `top` placed with its top-left corner at `(x, y)` over this frame; what
    /// falls outside is dropped.
    pub fn place(&self, top: &Frame, x: u32, y: u32) -> (r: Frame)
        requires
            self.wf(),
            top.wf(),
        ensures
            r.wf(),
            r.view() == placed(self.view(), top.view(), x as nat, y as nat),
    {
        let ghost v = self.view();
        let ghost t = top.view();
        let ghost p = placed(v, t, x as nat, y as nat);
        let mut rows: Vec<Vec<Pixel>> = Vec::new();
        let mut j: u32 = 0;
        while j < self.height
            invariant
                self.wf(),
                top.wf(),
                v == self.view(),
                t == top.view(),
                p == placed(v, t, x as nat, y as nat),
                j <= self.height,
                rows@.len() == j,
                forall|k: int| 0 <= k < j ==> #[trigger] rows@[k]@ == p.grid[k],
            decreases self.height - j,
        {
            let base = &self.rows[j as usize];
            let mut row: Vec<Pixel> = Vec::new();
            let mut i: u32 = 0;
            while i < self.width
                invariant
                    self.wf(),
                    top.wf(),
                    v == self.view(),
                    t == top.view(),
                    p == placed(v, t, x as nat, y as nat),
                    j < self.height,
                    base@ == v.grid[j as int],
                    i <= self.width,
                    row@ == p.grid[j as int].subrange(0, i as int),
                decreases self.width - i,
            {
                let inside = x <= i && (i - x) < top.width && y <= j && (j - y) < top.height;
                if inside {
                    let trow = &top.rows[(j - y) as usize];
                    assert(trow@ == t.grid[j - y]);
                    row.push(trow[(i - x) as usize]);
                } else {
                    row.push(base[i as usize]);
                }
                i = i + 1;
                assert(row@ =~= p.grid[j as int].subrange(0, i as int));
            }
            assert(row@ =~= p.grid[j as int]);
            rows.push(row);
            j = j + 1;
        }
        let r = Frame { width: self.width, height: self.height, rows };
        assert(r.view().grid =~= p.grid);
        r
    }

    /// A transparent `width` by `height` canvas with this frame placed at `(x, y)`.
    pub fn expand(&self, x: u32, y: u32, width: u32, height: u32) -> (r: Frame)
        requires
            self.wf(),
        ensures
            r.wf(),
            r.view() == expanded(self.view(), x as nat, y as nat, width as nat, height as nat),
    {
        let canvas = Frame::blank(width, height);
        canvas.place(self, x, y)
    }
}

/// Cropping back the rectangle that `expand` placed a frame in gives the
/// frame again, pixel for pixel, whenever the frame fits in the new canvas.
pub proof fn lemma_crop_undoes_expand(v: FrameView, x: nat, y: nat, w: nat, h: nat)
    requires
        v.wf(),
        x + v.width <= w,
        y + v.height <= h,
    ensures
        cropped(expanded(v, x, y, w, h), x, y, v.width, v.height) == v,
{
    let c = cropped(expanded(v, x, y, w, h), x, y, v.width, v.height);
    assert(c.grid =~= v.grid) by {
        assert forall|j: int| 0 <= j < v.height implies #[trigger] c.grid[j] =~= v.grid[j] by {}
    }
}

} // verus!
