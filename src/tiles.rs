//! Importing a picture as a grid of new one-frame states.
use vstd::prelude::*;
use vstd::arithmetic::div_mod::{lemma_fundamental_div_mod, lemma_fundamental_div_mod_converse};
use crate::model::{blank_state, Dmi, DmiView, State, StateView};
use crate::raster::{blank_view, cropped, placed, Frame, FrameView};
use crate::text::{decimal, push_decimal};
use vstd::string::*;

verus! {

/// How many cells of size `cell` it takes to cover `len` pixels.
pub open spec fn tile_count(len: nat, cell: nat) -> nat
    recommends
        cell > 0,
{
    ((len + cell - 1) / cell as int) as nat
}

/// The name of the tile in column `x` and row `y`, rows counted from the bottom.
pub open spec fn tile_name(x: nat, y: nat) -> Seq<char> {
    decimal(x) + seq![','] + decimal(y)
}

/// The cell at column `x` and pixel row `row` of `img`: what of it exists,
/// anchored top-left on a transparent cell.
pub open spec fn tile_frame(img: FrameView, w: nat, h: nat, x: nat, row: nat) -> FrameView {
    placed(blank_view(w, h), cropped(img, x * w, row * h, w, h), 0, 0)
}

/// The state made from the tile in column `x`, `y` rows from the bottom.
pub open spec fn tile_state(img: FrameView, w: nat, h: nat, x: nat, y: nat) -> StateView {
    let ty = tile_count(img.height, h);
    StateView {
        frames: seq![tile_frame(img, w, h, x, (ty - 1 - y) as nat)],
        ..blank_state(tile_name(x, y), w, h)
    }
}

/// The first `n` tiles of the row `y` rows from the bottom, left to right.
pub open spec fn row_tiles(img: FrameView, w: nat, h: nat, y: nat, n: nat) -> Seq<StateView>
    decreases n,
{
    if n == 0 {
        seq![]
    } else {
        row_tiles(img, w, h, y, (n - 1) as nat).push(tile_state(img, w, h, (n - 1) as nat, y))
    }
}

/// The states for the bottom `rows` rows of tiles, bottom row first.
pub open spec fn imported(img: FrameView, w: nat, h: nat, rows: nat) -> Seq<StateView>
    decreases rows,
{
    if rows == 0 {
        seq![]
    } else {
        imported(img, w, h, (rows - 1) as nat) + row_tiles(
            img,
            w,
            h,
            (rows - 1) as nat,
            tile_count(img.width, w),
        )
    }
}

/// The states that importing `img` into cells of `w` by `h` appends.
pub open spec fn imported_states(img: FrameView, w: nat, h: nat) -> Seq<StateView> {
    imported(img, w, h, tile_count(img.height, h))
}

proof fn lemma_tile_offset(i: nat, len: nat, cell: nat)
    requires
        cell > 0,
        i < tile_count(len, cell),
    ensures
        i * cell < len,
{
    let t = len + cell - 1;
    lemma_fundamental_div_mod(t as int, cell as int);
    let q = t / cell as int;
    let r = t % cell as int;
    assert(0 <= r < cell);
    assert(i * cell < len) by (nonlinear_arith)
        requires
            t == cell * q + r,
            0 <= r < cell,
            i + 1 <= q,
            t == len + cell - 1,
    {}
}

proof fn lemma_tile_count_bound(len: nat, cell: nat)
    requires
        cell > 0,
    ensures
        tile_count(len, cell) <= len,
{
    let t = len + cell - 1;
    lemma_fundamental_div_mod(t as int, cell as int);
    let q = t / cell as int;
    let r = t % cell as int;
    assert(q <= len) by (nonlinear_arith)
        requires
            t == cell * q + r,
            0 <= r < cell,
            t == len + cell - 1,
            cell > 0,
    {}
}

fn tile_label(x: u32, y: u32) -> (r: String)
    ensures
        r@ == tile_name(x as nat, y as nat),
{
    let mut r = String::new();
    push_decimal(&mut r, x);
    proof {
        reveal_strlit(",");
    }
    r.append(",");
    push_decimal(&mut r, y);
    assert(r@ =~= tile_name(x as nat, y as nat));
    r
}

impl Dmi {
    /// Cuts `img` into cells of the sheet's size, left to right and top to
    /// bottom, and appends one one-frame state per cell, bottom row first.
    /// A cell at column `x` and `y` rows from the bottom is named `"x,y"`.
    /// Cells at the right and bottom edges keep what pixels exist, anchored
    /// top-left on a transparent cell. The states already there are kept.
    pub fn import_png(&mut self, img: &Frame)
        requires
            old(self).wf(),
            old(self).width > 0,
            old(self).height > 0,
            img.wf(),
        ensures
            final(self).wf(),
            final(self).view() == (DmiView {
                states: old(self).view().states + imported_states(
                    img.view(),
                    old(self).width as nat,
                    old(self).height as nat,
                ),
                ..old(self).view()
            }),
    {
        let ghost v = self.view();
        let ghost iv = img.view();
        let w = self.width;
        let h = self.height;
        proof {
            lemma_tile_count_bound(iv.width, w as nat);
            lemma_tile_count_bound(iv.height, h as nat);
        }
        let tiles_x = ((img.width as u64 + w as u64 - 1) / w as u64) as u32;
        let tiles_y = ((img.height as u64 + h as u64 - 1) / h as u64) as u32;
        assert(tiles_x == tile_count(iv.width, w as nat));
        assert(tiles_y == tile_count(iv.height, h as nat));
        let mut y: u32 = 0;
        while y < tiles_y
            invariant
                self.wf(),
                img.wf(),
                iv == img.view(),
                w == self.width,
                h == self.height,
                w > 0,
                h > 0,
                tiles_x == tile_count(iv.width, w as nat),
                tiles_y == tile_count(iv.height, h as nat),
                y <= tiles_y,
                self.view() == (DmiView { states: v.states + imported(iv, w as nat, h as nat, y as nat), ..v }),
            decreases tiles_y - y,
        {
            let row: u32 = tiles_y - 1 - y;
            proof {
                lemma_tile_offset(row as nat, iv.height, h as nat);
            }
            let top: u32 = ((row as u64) * (h as u64)) as u32;
            let ghost before = self.view();
            let mut x: u32 = 0;
            while x < tiles_x
                invariant
                    self.wf(),
                    img.wf(),
                    iv == img.view(),
                    w == self.width,
                    h == self.height,
                    w > 0,
                    h > 0,
                    tiles_x == tile_count(iv.width, w as nat),
                    tiles_y == tile_count(iv.height, h as nat),
                    y < tiles_y,
                    row == tiles_y - 1 - y,
                    top == row * h,
                    x <= tiles_x,
                    before == (DmiView { states: v.states + imported(iv, w as nat, h as nat, y as nat), ..v }),
                    self.view() == (DmiView {
                        states: before.states + row_tiles(iv, w as nat, h as nat, y as nat, x as nat),
                        ..v
                    }),
                decreases tiles_x - x,
            {
                proof {
                    lemma_tile_offset(x as nat, iv.width, w as nat);
                }
                let left: u32 = ((x as u64) * (w as u64)) as u32;
                let mut state = State::new_blank(tile_label(x, y), w, h);
                let piece = img.crop(left, top, w, h);
                let cell = Frame::blank(w, h).place(&piece, 0, 0);
                let ghost cv = cell.view();
                assert(cv == tile_frame(iv, w as nat, h as nat, x as nat, row as nat));
                let mut frames: Vec<Frame> = Vec::new();
                frames.push(cell);
                state.frames = frames;
                assert(state.view().frames =~= seq![cv]);
                assert(state.view() == tile_state(iv, w as nat, h as nat, x as nat, y as nat));
                assert(state.wf(w as nat, h as nat)) by {
                    assert(state.view().frames[0] == cv);
                    assert(1nat * 1nat == 1nat) by (nonlinear_arith);
                }
                let ghost mid = self.view();
                self.states.push(state);
                assert(self.view().states =~= mid.states.push(state.view()));
                x = x + 1;
                assert(self.view().states =~= before.states + row_tiles(
                    iv,
                    w as nat,
                    h as nat,
                    y as nat,
                    x as nat,
                ));
            }
            y = y + 1;
            assert(self.view().states =~= v.states + imported(iv, w as nat, h as nat, y as nat));
        }
        assert(self.view().states =~= v.states + imported_states(iv, w as nat, h as nat));
    }
}

proof fn lemma_row_tiles(img: FrameView, w: nat, h: nat, y: nat, n: nat)
    ensures
        row_tiles(img, w, h, y, n).len() == n,
        forall|x: int| 0 <= x < n ==> #[trigger] row_tiles(img, w, h, y, n)[x] == tile_state(img, w, h, x as nat, y),
    decreases n,
{
    if n > 0 {
        lemma_row_tiles(img, w, h, y, (n - 1) as nat);
    }
}

proof fn lemma_imported(img: FrameView, w: nat, h: nat, rows: nat)
    ensures
        imported(img, w, h, rows).len() == rows * tile_count(img.width, w),
        forall|y: int, x: int|
            0 <= y < rows && 0 <= x < tile_count(img.width, w) ==> #[trigger] imported(img, w, h, rows)[y
                * tile_count(img.width, w) + x] == tile_state(img, w, h, x as nat, y as nat),
    decreases rows,
{
    let tx = tile_count(img.width, w);
    if rows > 0 {
        let r = (rows - 1) as nat;
        lemma_imported(img, w, h, r);
        lemma_row_tiles(img, w, h, r, tx);
        assert(rows * tx == r * tx + tx) by (nonlinear_arith)
            requires
                rows == r + 1,
        ;
        assert forall|y: int, x: int| 0 <= y < rows && 0 <= x < tx implies #[trigger] imported(img, w, h, rows)[y * tx + x]
            == tile_state(img, w, h, x as nat, y as nat) by {
            if y < r {
                assert(y * tx + x < r * tx) by (nonlinear_arith)
                    requires
                        0 <= y < r,
                        0 <= x < tx,
                ;
                assert(0 <= y * tx) by (nonlinear_arith)
                    requires
                        0 <= y,
                ;
            } else {
                assert(y * tx == r * tx);
            }
        }
    } else {
        assert(0 * tx == 0);
    }
}

proof fn lemma_tile_count_exact(k: nat, cell: nat)
    requires
        cell > 0,
    ensures
        tile_count(k * cell, cell) == k,
{
    lemma_fundamental_div_mod_converse((k * cell + cell - 1) as int, cell as int, k as int, (cell - 1) as int);
}

/// Importing a picture of exactly `k` by `m` cells appends `k * m` states,
/// each with one direction and one frame of the sheet's cell size; the state
/// for column `x`, `y` rows from the bottom, stands at `y * k + x` and is
/// named `"x,y"`.
pub proof fn lemma_import_exact(img: FrameView, w: nat, h: nat, k: nat, m: nat)
    requires
        img.wf(),
        w > 0,
        h > 0,
        img.width == k * w,
        img.height == m * h,
    ensures
        imported_states(img, w, h).len() == k * m,
        forall|i: int| 0 <= i < k * m ==> (#[trigger] imported_states(img, w, h)[i]).wf(w, h),
        forall|y: int, x: int|
            0 <= y < m && 0 <= x < k ==> (#[trigger] imported_states(img, w, h)[y * k + x]).name == tile_name(
                x as nat,
                y as nat,
            ),
{
    lemma_tile_count_exact(k, w);
    lemma_tile_count_exact(m, h);
    lemma_imported(img, w, h, m);
    let s = imported_states(img, w, h);
    assert(m * k == k * m) by (nonlinear_arith);
    assert forall|i: int| 0 <= i < k * m implies (#[trigger] s[i]).wf(w, h) by {
        let y = i / k as int;
        let x = i % k as int;
        lemma_fundamental_div_mod(i, k as int);
        assert(0 <= x < k);
        assert(0 <= y < m) by (nonlinear_arith)
            requires
                i == k * y + x,
                0 <= x < k,
                0 <= i < k * m,
        ;
        assert(i == y * k + x) by (nonlinear_arith)
            requires
                i == k * y + x,
        ;
        assert(s[i] == tile_state(img, w, h, x as nat, y as nat));
        let f = s[i].frames[0];
        assert(f.width == w && f.height == h);
        assert(f.wf());
        assert(1nat * 1nat == 1nat) by (nonlinear_arith);
    }
}

} // verus!
