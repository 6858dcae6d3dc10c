//! The explicit update of one tile: the interior, the ring next to the
//! ghost cells, and the absorbing edges of the domain.
//!
//! The arithmetic is the caller's: a kernel maps the cells around one cell
//! to its next value. The functions here fix which cells a kernel is given
//! and where its result is written.

use crate::buffer::plane_with;
use crate::buffer::ArrBuffer;
use crate::buffer::TileView;
use crate::geometry::GlobalEdges;
use vstd::prelude::*;

verus! {

/// What the update rule reads for one cell: its coefficient, its four
/// neighbours and itself in the `cur` plane, and itself in the `prev` plane.
#[derive(Debug)]
pub struct StencilInput<T> {
    pub alpha: T,
    pub above: T,
    pub below: T,
    pub left: T,
    pub right: T,
    pub here: T,
    pub before: T,
}

/// What the absorbing rule reads for one ghost cell on an edge of the domain:
/// the interior cell one step inward in the `cur` plane and in the `next`
/// plane, and the ghost cell itself in the `cur` plane.
#[derive(Debug)]
pub struct AbsorbInput<T> {
    pub inward: T,
    pub inward_next: T,
    pub edge: T,
}

impl<T> TileView<T> {
    /// What the update rule reads for the cell in row `r`, column `c`.
    pub open spec fn stencil_input(self, r: int, c: int) -> StencilInput<T> {
        StencilInput {
            alpha: self.alpha[r][c],
            above: self.cur[r - 1][c],
            below: self.cur[r + 1][c],
            left: self.cur[r][c - 1],
            right: self.cur[r][c + 1],
            here: self.cur[r][c],
            before: self.prev[r][c],
        }
    }

    /// Whether row `r`, column `c` is an interior cell with no ghost cell
    /// among its neighbours.
    pub open spec fn in_core(self, r: int, c: int) -> bool {
        2 <= r <= self.m - 1 && 2 <= c <= self.n - 1
    }

    /// Whether row `r`, column `c` is an interior cell with a ghost cell
    /// among its neighbours.
    pub open spec fn in_ring(self, r: int, c: int) -> bool {
        self.in_interior(r, c) && !self.in_core(r, c)
    }

    /// Whether row `r`, column `c` is a ghost cell above the interior.
    pub open spec fn on_top(self, r: int, c: int) -> bool {
        r == 0 && 1 <= c <= self.n
    }

    /// Whether row `r`, column `c` is a ghost cell below the interior.
    pub open spec fn on_bottom(self, r: int, c: int) -> bool {
        r == self.m + 1 && 1 <= c <= self.n
    }

    /// Whether row `r`, column `c` is a ghost cell left of the interior.
    pub open spec fn on_left(self, r: int, c: int) -> bool {
        c == 0 && 1 <= r <= self.m
    }

    /// Whether row `r`, column `c` is a ghost cell right of the interior.
    pub open spec fn on_right(self, r: int, c: int) -> bool {
        c == self.n + 1 && 1 <= r <= self.m
    }

    /// Whether row `r`, column `c` is a ghost cell on a side of the tile
    /// that lies on the edge of the domain. The four corners never are.
    pub open spec fn absorbed(self, edges: GlobalEdges, r: int, c: int) -> bool {
        ||| edges.top && self.on_top(r, c)
        ||| edges.bottom && self.on_bottom(r, c)
        ||| edges.left && self.on_left(r, c)
        ||| edges.right && self.on_right(r, c)
    }

    /// Row of the interior cell next to the ghost cell in row `r`.
    pub open spec fn inward_row(self, r: int) -> int {
        if r == 0 {
            1
        } else if r == self.m + 1 {
            self.m as int
        } else {
            r
        }
    }

    /// Column of the interior cell next to the ghost cell in column `c`.
    pub open spec fn inward_col(self, c: int) -> int {
        if c == 0 {
            1
        } else if c == self.n + 1 {
            self.n as int
        } else {
            c
        }
    }

    /// What the absorbing rule reads for the ghost cell in row `r`, column
    /// `c`, where `next` is the `next` plane with the interior written.
    pub open spec fn absorb_input(self, next: Seq<Seq<T>>, r: int, c: int) -> AbsorbInput<T> {
        AbsorbInput {
            inward: self.cur[self.inward_row(r)][self.inward_col(c)],
            inward_next: next[self.inward_row(r)][self.inward_col(c)],
            edge: self.cur[r][c],
        }
    }
}

/// Reads what the update rule needs for the cell in row `r`, column `c`.
fn read_stencil<T: Copy>(buf: &ArrBuffer<T>, r: usize, c: usize) -> (input: StencilInput<T>)
    requires
        buf@.in_interior(r as int, c as int),
    ensures
        input == buf@.stencil_input(r as int, c as int),
        buf@.wf(),
{
    let rows = buf.grid_m();
    let cols = buf.grid_n();
    assert(r + 1 < rows && c + 1 < cols);
    StencilInput {
        alpha: buf.alp_v(r, c),
        above: buf.cur_v(r - 1, c),
        below: buf.cur_v(r + 1, c),
        left: buf.cur_v(r, c - 1),
        right: buf.cur_v(r, c + 1),
        here: buf.cur_v(r, c),
        before: buf.prev_v(r, c),
    }
}

/// Writes the next value of the interior cell in row `r`, column `c`.
fn update_cell<T: Copy, F: Fn(StencilInput<T>) -> T>(
    buf: &mut ArrBuffer<T>,
    r: usize,
    c: usize,
    kernel: &F,
)
    requires
        old(buf)@.in_interior(r as int, c as int),
        forall|i: StencilInput<T>| kernel.requires((i,)),
    ensures
        final(buf)@ == (TileView {
            next: plane_with(
                old(buf)@.next,
                r as int,
                c as int,
                final(buf)@.next[r as int][c as int],
            ),
            ..old(buf)@
        }),
        final(buf)@.wf(),
        kernel.ensures(
            (old(buf)@.stencil_input(r as int, c as int),),
            final(buf)@.next[r as int][c as int],
        ),
        final(buf).prev_off() == old(buf).prev_off(),
        final(buf).cur_off() == old(buf).cur_off(),
        final(buf).next_off() == old(buf).next_off(),
{
    let input = read_stencil(buf, r, c);
    let nv = kernel(input);
    if let Some(v) = buf.nxt(r, c) {
        *v = nv;
    }
}

/// Writes the next value of the ghost cell in row `r`, column `c` from the
/// interior cell in row `ir`, column `ic`.
fn absorb_cell<T: Copy, G: Fn(AbsorbInput<T>) -> T>(
    buf: &mut ArrBuffer<T>,
    r: usize,
    c: usize,
    ir: usize,
    ic: usize,
    absorb: &G,
)
    requires
        old(buf)@.in_grid(r as int, c as int),
        old(buf)@.in_grid(ir as int, ic as int),
        (r, c) != (ir, ic),
        forall|i: AbsorbInput<T>| absorb.requires((i,)),
    ensures
        final(buf)@ == (TileView {
            next: plane_with(
                old(buf)@.next,
                r as int,
                c as int,
                final(buf)@.next[r as int][c as int],
            ),
            ..old(buf)@
        }),
        final(buf)@.wf(),
        absorb.ensures(
            (
                AbsorbInput {
                    inward: old(buf)@.cur[ir as int][ic as int],
                    inward_next: old(buf)@.next[ir as int][ic as int],
                    edge: old(buf)@.cur[r as int][c as int],
                },
            ),
            final(buf)@.next[r as int][c as int],
        ),
        final(buf).prev_off() == old(buf).prev_off(),
        final(buf).cur_off() == old(buf).cur_off(),
        final(buf).next_off() == old(buf).next_off(),
{
    proof {
        use_type_invariant(&*buf);
        buf.lemma_valid_view();
    }
    let input = AbsorbInput {
        inward: buf.cur_v(ir, ic),
        inward_next: buf.nxt_v(ir, ic),
        edge: buf.cur_v(r, c),
    };
    let nv = absorb(input);
    if let Some(v) = buf.nxt(r, c) {
        *v = nv;
    }
}

/// Writes the next value of every interior cell that has no ghost cell among
/// its neighbours: `kernel` is given what `stencil_input` names, and its
/// result goes to the same cell of the `next` plane. Nothing else changes.
pub fn compute_u<T: Copy, F: Fn(StencilInput<T>) -> T>(buf: &mut ArrBuffer<T>, kernel: &F)
    requires
        forall|i: StencilInput<T>| kernel.requires((i,)),
    ensures
        final(buf)@ == (TileView { next: final(buf)@.next, ..old(buf)@ }),
        final(buf)@.wf(),
        forall|r: int, c: int|
            old(buf)@.in_core(r, c) ==> kernel.ensures(
                (old(buf)@.stencil_input(r, c),),
                #[trigger] final(buf)@.next[r][c],
            ),
        forall|r: int, c: int|
            old(buf)@.in_grid(r, c) && !old(buf)@.in_core(r, c)
                ==> #[trigger] final(buf)@.next[r][c] == old(buf)@.next[r][c],
        final(buf).prev_off() == old(buf).prev_off(),
        final(buf).cur_off() == old(buf).cur_off(),
        final(buf).next_off() == old(buf).next_off(),
{
    let grid_m = buf.grid_m();
    let grid_n = buf.grid_n();
    let mut r: usize = 2;
    while r < grid_m - 2
        invariant
            2 <= r,
            grid_m == old(buf)@.grid_m(),
            grid_n == old(buf)@.grid_n(),
            forall|i: StencilInput<T>| kernel.requires((i,)),
            buf@ == (TileView { next: buf@.next, ..old(buf)@ }),
            buf@.wf(),
            forall|i: int, j: int|
                old(buf)@.in_core(i, j) && i < r ==> kernel.ensures(
                    (old(buf)@.stencil_input(i, j),),
                    #[trigger] buf@.next[i][j],
                ),
            forall|i: int, j: int|
                old(buf)@.in_grid(i, j) && !(old(buf)@.in_core(i, j) && i < r)
                    ==> #[trigger] buf@.next[i][j] == old(buf)@.next[i][j],
            buf.prev_off() == old(buf).prev_off(),
            buf.cur_off() == old(buf).cur_off(),
            buf.next_off() == old(buf).next_off(),
        decreases grid_m - r,
    {
        let mut c: usize = 2;
        while c < grid_n - 2
            invariant
                2 <= r < grid_m - 2,
                2 <= c,
                grid_m == old(buf)@.grid_m(),
                grid_n == old(buf)@.grid_n(),
                forall|i: StencilInput<T>| kernel.requires((i,)),
                buf@ == (TileView { next: buf@.next, ..old(buf)@ }),
                buf@.wf(),
                forall|i: int, j: int|
                    old(buf)@.in_core(i, j) && (i < r || (i == r && j < c)) ==> kernel.ensures(
                        (old(buf)@.stencil_input(i, j),),
                        #[trigger] buf@.next[i][j],
                    ),
                forall|i: int, j: int|
                    old(buf)@.in_grid(i, j) && !(old(buf)@.in_core(i, j) && (i < r || (i == r && j
                        < c))) ==> #[trigger] buf@.next[i][j] == old(buf)@.next[i][j],
                buf.prev_off() == old(buf).prev_off(),
                buf.cur_off() == old(buf).cur_off(),
                buf.next_off() == old(buf).next_off(),
            decreases grid_n - c,
        {
            update_cell(buf, r, c, kernel);
            c = c + 1;
        }
        r = r + 1;
    }
}

/// Writes the next value of the first and the last interior row.
fn ring_rows<T: Copy, F: Fn(StencilInput<T>) -> T>(buf: &mut ArrBuffer<T>, kernel: &F)
    requires
        forall|i: StencilInput<T>| kernel.requires((i,)),
    ensures
        final(buf)@ == (TileView { next: final(buf)@.next, ..old(buf)@ }),
        final(buf)@.wf(),
        forall|r: int, c: int|
            (r == 1 || r == old(buf)@.m) && 1 <= c <= old(buf)@.n ==> kernel.ensures(
                (old(buf)@.stencil_input(r, c),),
                #[trigger] final(buf)@.next[r][c],
            ),
        forall|r: int, c: int|
            old(buf)@.in_grid(r, c) && !((r == 1 || r == old(buf)@.m) && 1 <= c <= old(buf)@.n)
                ==> #[trigger] final(buf)@.next[r][c] == old(buf)@.next[r][c],
        final(buf).prev_off() == old(buf).prev_off(),
        final(buf).cur_off() == old(buf).cur_off(),
        final(buf).next_off() == old(buf).next_off(),
{
    let grid_m = buf.grid_m();
    let grid_n = buf.grid_n();
    let mut c: usize = 1;
    while c < grid_n - 1
        invariant
            1 <= c <= grid_n - 1,
            grid_m == old(buf)@.grid_m(),
            grid_n == old(buf)@.grid_n(),
            forall|i: StencilInput<T>| kernel.requires((i,)),
            buf@ == (TileView { next: buf@.next, ..old(buf)@ }),
            buf@.wf(),
            forall|i: int, j: int|
                (i == 1 || i == old(buf)@.m) && 1 <= j < c ==> kernel.ensures(
                    (old(buf)@.stencil_input(i, j),),
                    #[trigger] buf@.next[i][j],
                ),
            forall|i: int, j: int|
                old(buf)@.in_grid(i, j) && !((i == 1 || i == old(buf)@.m) && 1 <= j < c)
                    ==> #[trigger] buf@.next[i][j] == old(buf)@.next[i][j],
            buf.prev_off() == old(buf).prev_off(),
            buf.cur_off() == old(buf).cur_off(),
            buf.next_off() == old(buf).next_off(),
        decreases grid_n - c,
    {
        update_cell(buf, 1, c, kernel);
        update_cell(buf, grid_m - 2, c, kernel);
        c = c + 1;
    }
}

/// Writes the next value of the first and the last interior column.
fn ring_cols<T: Copy, F: Fn(StencilInput<T>) -> T>(buf: &mut ArrBuffer<T>, kernel: &F)
    requires
        forall|i: StencilInput<T>| kernel.requires((i,)),
    ensures
        final(buf)@ == (TileView { next: final(buf)@.next, ..old(buf)@ }),
        final(buf)@.wf(),
        forall|r: int, c: int|
            (c == 1 || c == old(buf)@.n) && 1 <= r <= old(buf)@.m ==> kernel.ensures(
                (old(buf)@.stencil_input(r, c),),
                #[trigger] final(buf)@.next[r][c],
            ),
        forall|r: int, c: int|
            old(buf)@.in_grid(r, c) && !((c == 1 || c == old(buf)@.n) && 1 <= r <= old(buf)@.m)
                ==> #[trigger] final(buf)@.next[r][c] == old(buf)@.next[r][c],
        final(buf).prev_off() == old(buf).prev_off(),
        final(buf).cur_off() == old(buf).cur_off(),
        final(buf).next_off() == old(buf).next_off(),
{
    let grid_m = buf.grid_m();
    let grid_n = buf.grid_n();
    let mut r: usize = 1;
    while r < grid_m - 1
        invariant
            1 <= r <= grid_m - 1,
            grid_m == old(buf)@.grid_m(),
            grid_n == old(buf)@.grid_n(),
            forall|i: StencilInput<T>| kernel.requires((i,)),
            buf@ == (TileView { next: buf@.next, ..old(buf)@ }),
            buf@.wf(),
            forall|i: int, j: int|
                (j == 1 || j == old(buf)@.n) && 1 <= i < r ==> kernel.ensures(
                    (old(buf)@.stencil_input(i, j),),
                    #[trigger] buf@.next[i][j],
                ),
            forall|i: int, j: int|
                old(buf)@.in_grid(i, j) && !((j == 1 || j == old(buf)@.n) && 1 <= i < r)
                    ==> #[trigger] buf@.next[i][j] == old(buf)@.next[i][j],
            buf.prev_off() == old(buf).prev_off(),
            buf.cur_off() == old(buf).cur_off(),
            buf.next_off() == old(buf).next_off(),
        decreases grid_m - r,
    {
        update_cell(buf, r, 1, kernel);
        update_cell(buf, r, grid_n - 2, kernel);
        r = r + 1;
    }
}

/// Writes the next value of the ghost cells of row `edge` that border the
/// interior, each from the cell of row `inward` in its column.
fn absorb_row<T: Copy, G: Fn(AbsorbInput<T>) -> T>(
    buf: &mut ArrBuffer<T>,
    edge: usize,
    inward: usize,
    absorb: &G,
)
    requires
        edge < old(buf)@.grid_m(),
        inward < old(buf)@.grid_m(),
        edge != inward,
        forall|i: AbsorbInput<T>| absorb.requires((i,)),
    ensures
        final(buf)@ == (TileView { next: final(buf)@.next, ..old(buf)@ }),
        final(buf)@.wf(),
        forall|c: int|
            1 <= c <= old(buf)@.n ==> absorb.ensures(
                (
                    AbsorbInput {
                        inward: old(buf)@.cur[inward as int][c],
                        inward_next: old(buf)@.next[inward as int][c],
                        edge: old(buf)@.cur[edge as int][c],
                    },
                ),
                #[trigger] final(buf)@.next[edge as int][c],
            ),
        forall|r: int, c: int|
            old(buf)@.in_grid(r, c) && !(r == edge && 1 <= c <= old(buf)@.n)
                ==> #[trigger] final(buf)@.next[r][c] == old(buf)@.next[r][c],
        final(buf).prev_off() == old(buf).prev_off(),
        final(buf).cur_off() == old(buf).cur_off(),
        final(buf).next_off() == old(buf).next_off(),
{
    let grid_n = buf.grid_n();
    let mut c: usize = 1;
    while c < grid_n - 1
        invariant
            1 <= c <= grid_n - 1,
            grid_n == old(buf)@.grid_n(),
            edge < old(buf)@.grid_m(),
            inward < old(buf)@.grid_m(),
            edge != inward,
            forall|i: AbsorbInput<T>| absorb.requires((i,)),
            buf@ == (TileView { next: buf@.next, ..old(buf)@ }),
            buf@.wf(),
            forall|j: int|
                1 <= j < c ==> absorb.ensures(
                    (
                        AbsorbInput {
                            inward: old(buf)@.cur[inward as int][j],
                            inward_next: old(buf)@.next[inward as int][j],
                            edge: old(buf)@.cur[edge as int][j],
                        },
                    ),
                    #[trigger] buf@.next[edge as int][j],
                ),
            forall|i: int, j: int|
                old(buf)@.in_grid(i, j) && !(i == edge && 1 <= j < c)
                    ==> #[trigger] buf@.next[i][j] == old(buf)@.next[i][j],
            buf.prev_off() == old(buf).prev_off(),
            buf.cur_off() == old(buf).cur_off(),
            buf.next_off() == old(buf).next_off(),
        decreases grid_n - c,
    {
        absorb_cell(buf, edge, c, inward, c, absorb);
        c = c + 1;
    }
}

/// Writes the next value of the ghost cells of column `edge` that border the
/// interior, each from the cell of column `inward` in its row.
fn absorb_col<T: Copy, G: Fn(AbsorbInput<T>) -> T>(
    buf: &mut ArrBuffer<T>,
    edge: usize,
    inward: usize,
    absorb: &G,
)
    requires
        edge < old(buf)@.grid_n(),
        inward < old(buf)@.grid_n(),
        edge != inward,
        forall|i: AbsorbInput<T>| absorb.requires((i,)),
    ensures
        final(buf)@ == (TileView { next: final(buf)@.next, ..old(buf)@ }),
        final(buf)@.wf(),
        forall|r: int|
            1 <= r <= old(buf)@.m ==> absorb.ensures(
                (
                    AbsorbInput {
                        inward: old(buf)@.cur[r][inward as int],
                        inward_next: old(buf)@.next[r][inward as int],
                        edge: old(buf)@.cur[r][edge as int],
                    },
                ),
                #[trigger] final(buf)@.next[r][edge as int],
            ),
        forall|r: int, c: int|
            old(buf)@.in_grid(r, c) && !(c == edge && 1 <= r <= old(buf)@.m)
                ==> #[trigger] final(buf)@.next[r][c] == old(buf)@.next[r][c],
        final(buf).prev_off() == old(buf).prev_off(),
        final(buf).cur_off() == old(buf).cur_off(),
        final(buf).next_off() == old(buf).next_off(),
{
    let grid_m = buf.grid_m();
    let mut r: usize = 1;
    while r < grid_m - 1
        invariant
            1 <= r <= grid_m - 1,
            grid_m == old(buf)@.grid_m(),
            edge < old(buf)@.grid_n(),
            inward < old(buf)@.grid_n(),
            edge != inward,
            forall|i: AbsorbInput<T>| absorb.requires((i,)),
            buf@ == (TileView { next: buf@.next, ..old(buf)@ }),
            buf@.wf(),
            forall|i: int|
                1 <= i < r ==> absorb.ensures(
                    (
                        AbsorbInput {
                            inward: old(buf)@.cur[i][inward as int],
                            inward_next: old(buf)@.next[i][inward as int],
                            edge: old(buf)@.cur[i][edge as int],
                        },
                    ),
                    #[trigger] buf@.next[i][edge as int],
                ),
            forall|i: int, j: int|
                old(buf)@.in_grid(i, j) && !(j == edge && 1 <= i < r)
                    ==> #[trigger] buf@.next[i][j] == old(buf)@.next[i][j],
            buf.prev_off() == old(buf).prev_off(),
            buf.cur_off() == old(buf).cur_off(),
            buf.next_off() == old(buf).next_off(),
        decreases grid_m - r,
    {
        absorb_cell(buf, r, edge, r, inward, absorb);
        r = r + 1;
    }
}

/// Writes the next value of the interior cells next to the ghost cells and,
/// on the sides of the tile that lie on the edge of the domain, of the ghost
/// cells themselves.
///
/// An interior cell next to a ghost cell gets what `kernel` makes of
/// `stencil_input`, as the other interior cells do. A ghost cell on a side
/// named by a flag gets what `absorb` makes of `absorb_input`, which reads
/// the `next` plane one step inward as this very call has written it. The
/// corners, the ghost cells of the other sides and the rest of the interior
/// keep their value.
pub fn compute_edge_u<T: Copy, F: Fn(StencilInput<T>) -> T, G: Fn(AbsorbInput<T>) -> T>(
    buf: &mut ArrBuffer<T>,
    top_global_edge: bool,
    bot_global_edge: bool,
    left_global_edge: bool,
    right_global_edge: bool,
    kernel: &F,
    absorb: &G,
)
    requires
        forall|i: StencilInput<T>| kernel.requires((i,)),
        forall|i: AbsorbInput<T>| absorb.requires((i,)),
    ensures
        final(buf)@ == (TileView { next: final(buf)@.next, ..old(buf)@ }),
        final(buf)@.wf(),
        forall|r: int, c: int|
            old(buf)@.in_ring(r, c) ==> kernel.ensures(
                (old(buf)@.stencil_input(r, c),),
                #[trigger] final(buf)@.next[r][c],
            ),
        forall|r: int, c: int|
            old(buf)@.absorbed(
                GlobalEdges {
                    top: top_global_edge,
                    bottom: bot_global_edge,
                    left: left_global_edge,
                    right: right_global_edge,
                },
                r,
                c,
            ) ==> absorb.ensures(
                (old(buf)@.absorb_input(final(buf)@.next, r, c),),
                #[trigger] final(buf)@.next[r][c],
            ),
        forall|r: int, c: int|
            old(buf)@.in_grid(r, c) && !old(buf)@.in_ring(r, c) && !old(buf)@.absorbed(
                GlobalEdges {
                    top: top_global_edge,
                    bottom: bot_global_edge,
                    left: left_global_edge,
                    right: right_global_edge,
                },
                r,
                c,
            ) ==> #[trigger] final(buf)@.next[r][c] == old(buf)@.next[r][c],
        final(buf).prev_off() == old(buf).prev_off(),
        final(buf).cur_off() == old(buf).cur_off(),
        final(buf).next_off() == old(buf).next_off(),
{
    let grid_m = buf.grid_m();
    let grid_n = buf.grid_n();
    ring_rows(buf, kernel);
    ring_cols(buf, kernel);
    if top_global_edge {
        absorb_row(buf, 0, 1, absorb);
    }
    if bot_global_edge {
        absorb_row(buf, grid_m - 1, grid_m - 2, absorb);
    }
    if left_global_edge {
        absorb_col(buf, 0, 1, absorb);
    }
    if right_global_edge {
        absorb_col(buf, grid_n - 1, grid_n - 2, absorb);
    }
}

} // verus!
