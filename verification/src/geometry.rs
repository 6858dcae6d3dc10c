//! How a domain is cut into tiles, and which tiles touch.

use vstd::arithmetic::div_mod::lemma_fundamental_div_mod;
use vstd::arithmetic::div_mod::lemma_fundamental_div_mod_converse;
use vstd::prelude::*;

verus! {

/// Number of cells in part `k` when `extent` cells are split into `parts`
/// parts: the quotient, and one more for each of the first `extent % parts`.
pub open spec fn part_len(extent: nat, parts: nat, k: nat) -> nat {
    extent / parts + if k < extent % parts {
        1nat
    } else {
        0nat
    }
}

/// First cell of part `k`: the lengths of all the parts before it, summed.
pub open spec fn part_start(extent: nat, parts: nat, k: nat) -> nat
    decreases k,
{
    if k == 0 {
        0
    } else {
        part_start(extent, parts, (k - 1) as nat) + part_len(extent, parts, (k - 1) as nat)
    }
}

/// Whether cell `g` lies in part `k`.
pub open spec fn part_owns(extent: nat, parts: nat, k: nat, g: int) -> bool {
    part_start(extent, parts, k) <= g < part_start(extent, parts, k) + part_len(extent, parts, k)
}

/// The smaller of two numbers.
pub open spec fn min_nat(a: nat, b: nat) -> nat {
    if a <= b {
        a
    } else {
        b
    }
}

/// The sum that defines `part_start` has a closed form.
pub proof fn lemma_part_start_closed_form(extent: nat, parts: nat, k: nat)
    requires
        parts > 0,
    ensures
        part_start(extent, parts, k) == k * (extent / parts) + min_nat(k, extent % parts),
    decreases k,
{
    let q = (extent / parts) as int;
    if k > 0 {
        let j = (k - 1) as nat;
        lemma_part_start_closed_form(extent, parts, j);
        assert(k * q == j * q + q) by (nonlinear_arith)
            requires
                k == j + 1,
        ;
    } else {
        assert(k * q == 0) by (nonlinear_arith)
            requires
                k == 0,
        ;
    }
}

/// The parts together hold every cell: the part after the last would start
/// at `extent`.
pub proof fn lemma_part_start_total(extent: nat, parts: nat)
    requires
        parts > 0,
    ensures
        part_start(extent, parts, parts) == extent,
{
    lemma_part_start_closed_form(extent, parts, parts);
    lemma_fundamental_div_mod(extent as int, parts as int);
}

/// Later parts start later.
pub proof fn lemma_part_start_monotone(extent: nat, parts: nat, j: nat, k: nat)
    requires
        j <= k,
    ensures
        part_start(extent, parts, j) <= part_start(extent, parts, k),
    decreases k,
{
    if j < k {
        lemma_part_start_monotone(extent, parts, j, (k - 1) as nat);
    }
}

/// A part of the domain ends where the domain ends, or before.
pub proof fn lemma_part_within(extent: nat, parts: nat, k: nat)
    requires
        k < parts,
    ensures
        part_start(extent, parts, k) + part_len(extent, parts, k) <= extent,
{
    lemma_part_start_monotone(extent, parts, k + 1, parts);
    lemma_part_start_total(extent, parts);
}

/// Every cell of the domain lies in some part.
pub proof fn lemma_part_cover(extent: nat, parts: nat, g: int) -> (k: nat)
    requires
        parts > 0,
        0 <= g < extent,
    ensures
        k < parts,
        part_owns(extent, parts, k, g),
{
    lemma_part_start_total(extent, parts);
    lemma_part_search(extent, parts, g, parts)
}

proof fn lemma_part_search(extent: nat, parts: nat, g: int, bound: nat) -> (k: nat)
    requires
        0 <= g < part_start(extent, parts, bound),
    ensures
        k < bound,
        part_owns(extent, parts, k, g),
    decreases bound,
{
    let j = (bound - 1) as nat;
    if part_start(extent, parts, j) <= g {
        j
    } else {
        lemma_part_search(extent, parts, g, j)
    }
}

/// No cell lies in two parts.
pub proof fn lemma_part_disjoint(extent: nat, parts: nat, j: nat, k: nat, g: int)
    requires
        part_owns(extent, parts, j, g),
        part_owns(extent, parts, k, g),
    ensures
        j == k,
{
    if j < k {
        lemma_part_start_monotone(extent, parts, j + 1, k);
    } else if k < j {
        lemma_part_start_monotone(extent, parts, k + 1, j);
    }
}

/// The part that holds cell `g`.
pub open spec fn part_of(extent: nat, parts: nat, g: int) -> nat {
    choose|k: nat| k < parts && part_owns(extent, parts, k, g)
}

/// Column of tile `t` in a tile grid that is `px` tiles wide.
pub open spec fn tile_col(t: nat, px: nat) -> nat {
    t % px
}

/// Row of tile `t` in a tile grid that is `px` tiles wide.
pub open spec fn tile_row(t: nat, px: nat) -> nat {
    t / px
}

/// Whether tile `t` of a `px` by `py` tiling of an `m` by `n` domain holds
/// the cell in row `gr` and column `gc` of the domain.
pub open spec fn tile_owns(m: nat, n: nat, px: nat, py: nat, t: nat, gr: int, gc: int) -> bool {
    part_owns(m, py, tile_row(t, px), gr) && part_owns(n, px, tile_col(t, px), gc)
}

/// The tile that holds the cell in row `gr` and column `gc` of the domain.
pub open spec fn tile_of(m: nat, n: nat, px: nat, py: nat, gr: int, gc: int) -> nat {
    part_of(m, py, gr) * px + part_of(n, px, gc)
}

/// A tile number is its row times the width of the tile grid, plus its column.
pub proof fn lemma_tile_coordinates(px: nat, row: nat, col: nat)
    requires
        col < px,
    ensures
        tile_row(row * px + col, px) == row,
        tile_col(row * px + col, px) == col,
{
    lemma_fundamental_div_mod_converse((row * px + col) as int, px as int, row as int, col as int);
}

/// The tiles partition the domain. Every cell of an `m` by `n` domain lies in
/// the tile `tile_of` names, that tile is one of the `px * py` tiles, and no
/// other tile holds the cell.
pub proof fn lemma_tile_partition(m: nat, n: nat, px: nat, py: nat, gr: int, gc: int)
    requires
        px > 0,
        py > 0,
        0 <= gr < m,
        0 <= gc < n,
    ensures
        tile_of(m, n, px, py, gr, gc) < px * py,
        tile_owns(m, n, px, py, tile_of(m, n, px, py, gr, gc), gr, gc),
        forall|t: nat| #[trigger]
            tile_owns(m, n, px, py, t, gr, gc) ==> t == tile_of(m, n, px, py, gr, gc),
{
    let wr = lemma_part_cover(m, py, gr);
    let wc = lemma_part_cover(n, px, gc);
    let row = part_of(m, py, gr);
    let col = part_of(n, px, gc);
    lemma_tile_coordinates(px, row, col);
    assert(row * px + col < px * py) by (nonlinear_arith)
        requires
            row < py,
            col < px,
    ;
    assert forall|t: nat| #[trigger] tile_owns(m, n, px, py, t, gr, gc) implies t == row * px
        + col by {
        lemma_part_disjoint(m, py, tile_row(t, px), row, gr);
        lemma_part_disjoint(n, px, tile_col(t, px), col, gc);
        lemma_fundamental_div_mod(t as int, px as int);
        assert((t / px) * px == px * (t / px)) by (nonlinear_arith);
    }
}

/// Tiles hold cells of the domain only.
pub proof fn lemma_tile_within(m: nat, n: nat, px: nat, py: nat, t: nat, gr: int, gc: int)
    requires
        px > 0,
        t < px * py,
        tile_owns(m, n, px, py, t, gr, gc),
    ensures
        0 <= gr < m,
        0 <= gc < n,
{
    lemma_tile_in_grid(t, px, py);
    lemma_part_within(m, py, tile_row(t, px));
    lemma_part_within(n, px, tile_col(t, px));
}

/// A tile of a `px` by `py` tile grid has its row below `py` and its column
/// below `px`.
pub proof fn lemma_tile_in_grid(t: nat, px: nat, py: nat)
    requires
        px > 0,
        t < px * py,
    ensures
        tile_row(t, px) < py,
        tile_col(t, px) < px,
        t == tile_row(t, px) * px + tile_col(t, px),
{
    lemma_fundamental_div_mod(t as int, px as int);
    let row = t / px;
    assert(row < py) by (nonlinear_arith)
        requires
            px * row <= t,
            t < px * py,
            px > 0,
    ;
    assert(px * row == row * px) by (nonlinear_arith);
}

/// Length of part `k`.
pub fn axis_extent(extent: usize, parts: usize, k: usize) -> (len: usize)
    requires
        parts > 0,
    ensures
        len == part_len(extent as nat, parts as nat, k as nat),
{
    let base = extent / parts;
    if k < extent % parts {
        proof {
            lemma_fundamental_div_mod(extent as int, parts as int);
            assert(parts * base >= base) by (nonlinear_arith)
                requires
                    parts >= 1,
                    base >= 0,
            ;
        }
        base + 1
    } else {
        base
    }
}

/// First cell of part `k`.
pub fn axis_origin(extent: usize, parts: usize, k: usize) -> (start: usize)
    requires
        parts > 0,
        k <= parts,
    ensures
        start == part_start(extent as nat, parts as nat, k as nat),
{
    let mut start: usize = 0;
    let mut i: usize = 0;
    while i < k
        invariant
            parts > 0,
            i <= k <= parts,
            start == part_start(extent as nat, parts as nat, i as nat),
        decreases k - i,
    {
        proof {
            lemma_part_within(extent as nat, parts as nat, i as nat);
        }
        start = start + axis_extent(extent, parts, i);
        i = i + 1;
    }
    start
}

/// The four neighbours of tile `t` as (top, bottom, left, right), each the
/// neighbour's number, or -1 where the tile lies on that edge of the tile grid.
pub open spec fn neighbors_of(t: int, px: int, py: int) -> (int, int, int, int) {
    (
        if t / px > 0 {
            t - px
        } else {
            -1
        },
        if t / px < py - 1 {
            t + px
        } else {
            -1
        },
        if t % px > 0 {
            t - 1
        } else {
            -1
        },
        if t % px < px - 1 {
            t + 1
        } else {
            -1
        },
    )
}

/// Neighbours are tiles of the grid, they lie where their side says, and
/// being neighbours is mutual: the bottom neighbour of the top neighbour of
/// `t` is `t`, and likewise for each side.
pub proof fn lemma_neighbors_mutual(t: int, px: int, py: int)
    requires
        px > 0,
        py > 0,
        0 <= t < px * py,
    ensures
        ({
            let (top, bottom, left, right) = neighbors_of(t, px, py);
            &&& top >= 0 ==> top < px * py && top / px == t / px - 1 && top % px == t % px
                && neighbors_of(top, px, py).1 == t
            &&& bottom >= 0 ==> bottom < px * py && bottom / px == t / px + 1 && bottom % px == t
                % px && neighbors_of(bottom, px, py).0 == t
            &&& left >= 0 ==> left < px * py && left / px == t / px && left % px == t % px - 1
                && neighbors_of(left, px, py).3 == t
            &&& right >= 0 ==> right < px * py && right / px == t / px && right % px == t % px
                + 1 && neighbors_of(right, px, py).2 == t
        }),
{
    lemma_tile_in_grid(t as nat, px as nat, py as nat);
    let row = t / px;
    let col = t % px;
    assert(px * row == row * px) by (nonlinear_arith);
    if row > 0 {
        assert((row - 1) * px == row * px - px) by (nonlinear_arith);
        lemma_fundamental_div_mod_converse(t - px, px, row - 1, col);
    }
    if row < py - 1 {
        assert((row + 1) * px == row * px + px) by (nonlinear_arith);
        assert((row + 1) * px + col < px * py) by (nonlinear_arith)
            requires
                0 <= row,
                row + 2 <= py,
                0 <= col < px,
        ;
        lemma_fundamental_div_mod_converse(t + px, px, row + 1, col);
    }
    if col > 0 {
        lemma_fundamental_div_mod_converse(t - 1, px, row, col - 1);
    }
    if col < px - 1 {
        assert(row * px + px <= px * py) by (nonlinear_arith)
            requires
                row + 1 <= py,
                px > 0,
        ;
        lemma_fundamental_div_mod_converse(t + 1, px, row, col + 1);
    }
}

/// Finds the neighbours of tile `t_id` in a `px` by `py` tile grid.
pub fn compute_neighbors(t_id: i32, px: i32, py: i32) -> (ids: (i32, i32, i32, i32))
    requires
        px > 0,
        py > 0,
        0 <= t_id < px * py <= i32::MAX,
    ensures
        (ids.0 as int, ids.1 as int, ids.2 as int, ids.3 as int) == neighbors_of(
            t_id as int,
            px as int,
            py as int,
        ),
{
    proof {
        lemma_neighbors_mutual(t_id as int, px as int, py as int);
    }
    let x = t_id % px;
    let y = t_id / px;
    let top = if y > 0 {
        t_id - px
    } else {
        -1
    };
    let bottom = if y < py - 1 {
        t_id + px
    } else {
        -1
    };
    let left = if x > 0 {
        t_id - 1
    } else {
        -1
    };
    let right = if x < px - 1 {
        t_id + 1
    } else {
        -1
    };
    (top, bottom, left, right)
}

/// The sides of a tile that lie on the edge of the whole domain.
#[derive(Clone, Copy, Debug, PartialEq, Eq, Structural)]
pub struct GlobalEdges {
    pub top: bool,
    pub bottom: bool,
    pub left: bool,
    pub right: bool,
}

/// A tile lies on an edge of the domain where its row or column is the first
/// or the last of the tile grid.
pub open spec fn edges_of(t: nat, px: nat, py: nat) -> GlobalEdges {
    GlobalEdges {
        top: tile_row(t, px) == 0,
        bottom: tile_row(t, px) == py - 1,
        left: tile_col(t, px) == 0,
        right: tile_col(t, px) == px - 1,
    }
}

/// Finds the sides on which tile `tid` touches the edge of the domain.
pub fn global_edges(tid: usize, px: usize, py: usize) -> (edges: GlobalEdges)
    requires
        px > 0,
        tid < px * py,
    ensures
        edges == edges_of(tid as nat, px as nat, py as nat),
{
    GlobalEdges {
        top: tid / px == 0,
        bottom: tid / px == py - 1,
        left: tid % px == 0,
        right: tid % px == px - 1,
    }
}

/// A tile touches the edge of the domain on exactly the sides where it has no
/// neighbour.
pub proof fn lemma_edges_have_no_neighbor(t: nat, px: nat, py: nat)
    requires
        px > 0,
        t < px * py,
    ensures
        edges_of(t, px, py).top <==> neighbors_of(t as int, px as int, py as int).0 == -1,
        edges_of(t, px, py).bottom <==> neighbors_of(t as int, px as int, py as int).1 == -1,
        edges_of(t, px, py).left <==> neighbors_of(t as int, px as int, py as int).2 == -1,
        edges_of(t, px, py).right <==> neighbors_of(t as int, px as int, py as int).3 == -1,
{
    lemma_tile_in_grid(t, px, py);
    let row = tile_row(t, px);
    assert(row >= 1 ==> row * px >= px) by (nonlinear_arith)
        requires
            px > 0,
    ;
    assert(row * px >= 0) by (nonlinear_arith);
}

} // verus!
