//! Obstacles: rectangles of the domain where the coefficient is cleared.

use crate::buffer::ArrBuffer;
use crate::buffer::TileView;
use vstd::prelude::*;

verus! {

/// Whether row `gr`, column `gc` lies in the rectangle of `height` rows and
/// `width` columns whose first cell is in row `row`, column `col`.
pub open spec fn in_rect(row: int, col: int, width: int, height: int, gr: int, gc: int) -> bool {
    row <= gr < row + height && col <= gc < col + width
}

impl<T> TileView<T> {
    /// Row of the domain that row `r` of the padded tile holds.
    pub open spec fn global_row(self, r: int) -> int {
        self.start_row + r - 1
    }

    /// Column of the domain that column `c` of the padded tile holds.
    pub open spec fn global_col(self, c: int) -> int {
        self.start_col + c - 1
    }

    /// Whether the cell in row `r`, column `c` of the padded tile is an
    /// interior cell that lies in the given rectangle of the domain.
    pub open spec fn covered(self, row: int, col: int, width: int, height: int, r: int, c: int) -> bool {
        self.in_interior(r, c) && in_rect(
            row,
            col,
            width,
            height,
            self.global_row(r),
            self.global_col(c),
        )
    }

    /// The tile with the coefficient cleared at every interior cell that
    /// lies in the given rectangle of the domain.
    pub open spec fn cleared(self, row: int, col: int, width: int, height: int) -> TileView<T> {
        TileView {
            alpha: Seq::new(
                self.grid_m(),
                |r: int|
                    Seq::new(
                        self.grid_n(),
                        |c: int|
                            if self.covered(row, col, width, height, r, c) {
                                self.zero
                            } else {
                                self.alpha[r][c]
                            },
                    ),
            ),
            ..self
        }
    }
}

/// Clears the coefficient at every cell of the rectangle of `height` rows and
/// `width` columns from row `row`, column `col` of the domain that lies in
/// the interior of `buf`. Ghost cells and cells outside the rectangle keep
/// their coefficient, and the field is not touched.
pub fn clear_alpha_region<T: Copy>(
    buf: &mut ArrBuffer<T>,
    row: usize,
    col: usize,
    width: usize,
    height: usize,
)
    ensures
        final(buf)@ == old(buf)@.cleared(row as int, col as int, width as int, height as int),
        final(buf)@.wf(),
        old(buf)@.alpha_two_valued() ==> final(buf)@.alpha_two_valued(),
        final(buf).prev_off() == old(buf).prev_off(),
        final(buf).cur_off() == old(buf).cur_off(),
        final(buf).next_off() == old(buf).next_off(),
{
    let grid_m = buf.grid_m();
    let grid_n = buf.grid_n();
    let start_row = buf.start_row();
    let start_col = buf.start_col();
    let mut r: usize = 1;
    while r < grid_m - 1
        invariant
            1 <= r <= grid_m - 1,
            grid_m == old(buf)@.grid_m(),
            grid_n == old(buf)@.grid_n(),
            start_row == old(buf)@.start_row,
            start_col == old(buf)@.start_col,
            start_row + old(buf)@.m <= usize::MAX,
            start_col + old(buf)@.n <= usize::MAX,
            old(buf)@.wf(),
            buf@ == (TileView { alpha: buf@.alpha, ..old(buf)@ }),
            buf@.wf(),
            old(buf)@.alpha_two_valued() ==> buf@.alpha_two_valued(),
            forall|i: int, j: int|
                old(buf)@.in_grid(i, j) ==> #[trigger] buf@.alpha[i][j] == if i < r
                    && old(buf)@.covered(row as int, col as int, width as int, height as int, i, j) {
                    old(buf)@.zero
                } else {
                    old(buf)@.alpha[i][j]
                },
            buf.prev_off() == old(buf).prev_off(),
            buf.cur_off() == old(buf).cur_off(),
            buf.next_off() == old(buf).next_off(),
        decreases grid_m - r,
    {
        let gr = start_row + r - 1;
        if gr >= row && gr - row < height {
            let mut c: usize = 1;
            while c < grid_n - 1
                invariant
                    1 <= r < grid_m - 1,
                    1 <= c <= grid_n - 1,
                    grid_m == old(buf)@.grid_m(),
                    grid_n == old(buf)@.grid_n(),
                    start_row == old(buf)@.start_row,
                    start_col == old(buf)@.start_col,
                    start_row + old(buf)@.m <= usize::MAX,
                    start_col + old(buf)@.n <= usize::MAX,
                    gr == start_row + r - 1,
                    row <= gr < row + height,
                    old(buf)@.wf(),
                    buf@ == (TileView { alpha: buf@.alpha, ..old(buf)@ }),
                    buf@.wf(),
                    old(buf)@.alpha_two_valued() ==> buf@.alpha_two_valued(),
                    forall|i: int, j: int|
                        old(buf)@.in_grid(i, j) ==> #[trigger] buf@.alpha[i][j] == if (i < r || (i
                            == r && j < c)) && old(buf)@.covered(
                            row as int,
                            col as int,
                            width as int,
                            height as int,
                            i,
                            j,
                        ) {
                            old(buf)@.zero
                        } else {
                            old(buf)@.alpha[i][j]
                        },
                    buf.prev_off() == old(buf).prev_off(),
                    buf.cur_off() == old(buf).cur_off(),
                    buf.next_off() == old(buf).next_off(),
                decreases grid_n - c,
            {
                let gc = start_col + c - 1;
                if gc >= col && gc - col < width {
                    buf.clear_alpha(r, c);
                }
                c = c + 1;
            }
        }
        r = r + 1;
    }
    proof {
        let expected = old(buf)@.cleared(row as int, col as int, width as int, height as int);
        assert(buf@.alpha =~~= expected.alpha);
    }
}

/// Clearing a rectangle a second time changes nothing.
pub proof fn lemma_clear_idempotent<T>(v: TileView<T>, row: int, col: int, width: int, height: int)
    requires
        v.wf(),
    ensures
        v.cleared(row, col, width, height).cleared(row, col, width, height) == v.cleared(
            row,
            col,
            width,
            height,
        ),
{
    let once = v.cleared(row, col, width, height);
    let twice = once.cleared(row, col, width, height);
    assert(twice.alpha =~~= once.alpha);
}

/// Clearing keeps a tile well formed and its coefficients two-valued, and
/// after it every interior cell in the rectangle has the cleared coefficient.
pub proof fn lemma_clear_two_valued<T>(v: TileView<T>, row: int, col: int, width: int, height: int)
    requires
        v.wf(),
        v.alpha_two_valued(),
    ensures
        v.cleared(row, col, width, height).wf(),
        v.cleared(row, col, width, height).alpha_two_valued(),
        forall|r: int, c: int|
            v.covered(row, col, width, height, r, c) ==> #[trigger] v.cleared(
                row,
                col,
                width,
                height,
            ).alpha[r][c] == v.zero,
{
    let after = v.cleared(row, col, width, height);
    assert forall|r: int, c: int| after.in_grid(r, c) implies #[trigger] after.alpha[r][c]
        == after.zero || after.alpha[r][c] == after.alpha_init by {
        assert(v.alpha[r][c] == v.zero || v.alpha[r][c] == v.alpha_init);
    }
}

} // verus!
