//! The frame: the field of the whole domain, put together from the tiles.
//!
//! A frame holds one cell for each cell of the domain, row after row. After a
//! step every tile copies the interior of its `cur` plane to its place in
//! the frame.

use crate::buffer::ArrBuffer;
use crate::buffer::TileView;
use crate::geometry::lemma_tile_partition;
use crate::geometry::part_len;
use crate::geometry::part_start;
use crate::geometry::tile_col;
use crate::geometry::tile_of;
use crate::geometry::tile_owns;
use crate::geometry::tile_row;
use vstd::arithmetic::div_mod::lemma_fundamental_div_mod_converse;
use vstd::prelude::*;

verus! {

/// Row of the domain that cell `k` of a frame with `cols` columns holds.
pub open spec fn frame_row(k: int, cols: nat) -> int {
    k / cols as int
}

/// Column of the domain that cell `k` of a frame with `cols` columns holds.
pub open spec fn frame_col(k: int, cols: nat) -> int {
    k % cols as int
}

/// The frame after tile `v` has copied its interior into it: a cell of the
/// domain that lies in the tile holds what the `cur` plane holds for it, the
/// others are as they were. `cols` is the number of columns of the domain.
pub open spec fn published<T>(frame: Seq<T>, cols: nat, v: TileView<T>) -> Seq<T> {
    Seq::new(
        frame.len(),
        |k: int|
            if v.owns(frame_row(k, cols), frame_col(k, cols)) {
                v.cur[v.local_row(frame_row(k, cols))][v.local_col(frame_col(k, cols))]
            } else {
                frame[k]
            },
    )
}

/// The frame after each tile of `tiles` has copied its interior into it, one
/// after another.
pub open spec fn published_all<T>(frame: Seq<T>, cols: nat, tiles: Seq<TileView<T>>) -> Seq<T>
    decreases tiles.len(),
{
    if tiles.len() == 0 {
        frame
    } else {
        published(published_all(frame, cols, tiles.drop_last()), cols, tiles.last())
    }
}

/// Whether `v` lies where tile `t` of a `px` by `py` tiling of an `m` by `n`
/// domain lies, and has its size.
pub open spec fn tile_placed<T>(v: TileView<T>, m: nat, n: nat, px: nat, py: nat, t: nat) -> bool {
    &&& v.t_id == t
    &&& v.m == part_len(m, py, tile_row(t, px))
    &&& v.n == part_len(n, px, tile_col(t, px))
    &&& v.start_row == part_start(m, py, tile_row(t, px))
    &&& v.start_col == part_start(n, px, tile_col(t, px))
}

proof fn lemma_frame_index(cols: int, gr: int, gc: int)
    requires
        0 <= gr,
        0 <= gc < cols,
    ensures
        gr * cols + gc >= 0,
        (gr * cols + gc) / cols == gr,
        (gr * cols + gc) % cols == gc,
{
    assert(gr * cols >= 0) by (nonlinear_arith)
        requires
            0 <= gr,
            0 < cols,
    ;
    lemma_fundamental_div_mod_converse(gr * cols + gc, cols, gr, gc);
}

/// Copies the interior of the `cur` plane of `buf` to its place in `frame`,
/// a frame of a domain with `cols` columns. The tile must lie within the
/// frame.
pub fn publish_tile<T: Copy>(buf: &ArrBuffer<T>, frame: &mut Vec<T>, cols: usize)
    requires
        buf@.start_col + buf@.n <= cols,
        (buf@.start_row + buf@.m) * cols <= old(frame)@.len(),
    ensures
        final(frame)@ == published(old(frame)@, cols as nat, buf@),
{
    let m = buf.m();
    let n = buf.n();
    proof {
        use_type_invariant(buf);
        buf.lemma_valid_view();
    }
    let start_row = buf.start_row();
    let start_col = buf.start_col();
    let total = frame.len();
    let mut i: usize = 0;
    while i < m
        invariant
            i <= m == buf@.m,
            n == buf@.n,
            start_row == buf@.start_row,
            start_col == buf@.start_col,
            buf@.wf(),
            start_col + n <= cols,
            start_row + m <= usize::MAX,
            (start_row + m) * cols <= frame@.len(),
            frame@.len() == old(frame)@.len() == total,
            forall|k: int|
                0 <= k < frame@.len() ==> #[trigger] frame@[k] == if buf@.owns(
                    frame_row(k, cols as nat),
                    frame_col(k, cols as nat),
                ) && frame_row(k, cols as nat) - start_row < i {
                    buf@.cur[buf@.local_row(frame_row(k, cols as nat))][buf@.local_col(
                        frame_col(k, cols as nat),
                    )]
                } else {
                    old(frame)@[k]
                },
        decreases m - i,
    {
        let mut j: usize = 0;
        while j < n
            invariant
                i < m == buf@.m,
                j <= n == buf@.n,
                start_row == buf@.start_row,
                start_col == buf@.start_col,
                buf@.wf(),
                start_col + n <= cols,
                start_row + m <= usize::MAX,
                (start_row + m) * cols <= frame@.len(),
                frame@.len() == old(frame)@.len() == total,
                forall|k: int|
                    0 <= k < frame@.len() ==> #[trigger] frame@[k] == if buf@.owns(
                        frame_row(k, cols as nat),
                        frame_col(k, cols as nat),
                    ) && (frame_row(k, cols as nat) - start_row < i || (frame_row(k, cols as nat)
                        - start_row == i && frame_col(k, cols as nat) - start_col < j)) {
                        buf@.cur[buf@.local_row(frame_row(k, cols as nat))][buf@.local_col(
                            frame_col(k, cols as nat),
                        )]
                    } else {
                        old(frame)@[k]
                    },
            decreases n - j,
        {
            proof {
                let gr = start_row + i;
                let gc = start_col + j;
                lemma_frame_index(cols as int, gr as int, gc as int);
                assert(gr * cols + cols <= (start_row + m) * cols && cols * gr == gr * cols)
                    by (nonlinear_arith)
                    requires
                        0 <= gr,
                        gr + 1 <= start_row + m,
                        0 <= cols,
                ;
            }
            let at = cols * (start_row + i) + start_col + j;
            let ghost before = frame@;
            frame[at] = buf.cur_v(i + 1, j + 1);
            proof {
                assert(cols * (start_row + i) == (start_row + i) * cols) by (nonlinear_arith);
                assert forall|k: int| 0 <= k < frame@.len() && k != at implies !(#[trigger] frame_row(
                    k,
                    cols as nat,
                ) == start_row + i && frame_col(k, cols as nat) == start_col + j) by {
                    vstd::arithmetic::div_mod::lemma_fundamental_div_mod(k, cols as int);
                    assert(cols * (k / cols as int) == (k / cols as int) * cols)
                        by (nonlinear_arith);
                }
            }
            j = j + 1;
        }
        i = i + 1;
    }
    proof {
        assert(frame@ =~= published(old(frame)@, cols as nat, buf@));
    }
}

/// A tile that lies where tile `t` lies holds exactly the cells of the
/// domain that the tiling gives to tile `t`.
pub proof fn lemma_placed_tile_owns<T>(
    v: TileView<T>,
    m: nat,
    n: nat,
    px: nat,
    py: nat,
    t: nat,
    gr: int,
    gc: int,
)
    requires
        tile_placed(v, m, n, px, py, t),
    ensures
        v.owns(gr, gc) == tile_owns(m, n, px, py, t, gr, gc),
{
}

proof fn lemma_published_len<T>(frame: Seq<T>, cols: nat, tiles: Seq<TileView<T>>)
    ensures
        published_all(frame, cols, tiles).len() == frame.len(),
    decreases tiles.len(),
{
    if tiles.len() > 0 {
        lemma_published_len(frame, cols, tiles.drop_last());
    }
}

proof fn lemma_published_prefix<T>(
    frame: Seq<T>,
    m: nat,
    n: nat,
    px: nat,
    py: nat,
    tiles: Seq<TileView<T>>,
    k: nat,
    gr: int,
    gc: int,
)
    requires
        px > 0,
        py > 0,
        frame.len() == m * n,
        k <= tiles.len(),
        forall|t: int| 0 <= t < tiles.len() ==> tile_placed(#[trigger] tiles[t], m, n, px, py, t as nat),
        0 <= gr < m,
        0 <= gc < n,
    ensures
        0 <= gr * n + gc < frame.len(),
        published_all(frame, n, tiles.take(k as int))[gr * n + gc] == if tile_of(
            m,
            n,
            px,
            py,
            gr,
            gc,
        ) < k {
            let v = tiles[tile_of(m, n, px, py, gr, gc) as int];
            v.cur[v.local_row(gr)][v.local_col(gc)]
        } else {
            frame[gr * n + gc]
        },
    decreases k,
{
    lemma_frame_index(n as int, gr, gc);
    assert(gr * n + n <= m * n) by (nonlinear_arith)
        requires
            0 <= gr,
            gr + 1 <= m,
    ;
    if k > 0 {
        let done = tiles.take(k as int);
        let j = (k - 1) as nat;
        assert(done.drop_last() == tiles.take(j as int));
        assert(done.last() == tiles[j as int]);
        lemma_published_prefix(frame, m, n, px, py, tiles, j, gr, gc);
        lemma_published_len(frame, n, tiles.take(j as int));
        lemma_tile_partition(m, n, px, py, gr, gc);
        lemma_placed_tile_owns(tiles[j as int], m, n, px, py, j, gr, gc);
        assert(frame_row(gr * n + gc, n) == gr);
        assert(frame_col(gr * n + gc, n) == gc);
    }
}

/// Every cell of the frame holds what its tile holds for it. Once every tile
/// has copied its interior into the frame, the cell in row `gr`, column `gc`
/// of the domain equals the cell of the `cur` plane that stands for it in the
/// one tile that `tile_of` names, whatever the frame held before.
pub proof fn lemma_frame_consistency<T>(
    frame: Seq<T>,
    m: nat,
    n: nat,
    px: nat,
    py: nat,
    tiles: Seq<TileView<T>>,
    gr: int,
    gc: int,
)
    requires
        px > 0,
        py > 0,
        frame.len() == m * n,
        tiles.len() == px * py,
        forall|t: int| 0 <= t < tiles.len() ==> tile_placed(#[trigger] tiles[t], m, n, px, py, t as nat),
        0 <= gr < m,
        0 <= gc < n,
    ensures
        tile_of(m, n, px, py, gr, gc) < tiles.len(),
        tiles[tile_of(m, n, px, py, gr, gc) as int].owns(gr, gc),
        published_all(frame, n, tiles)[gr * n + gc] == ({
            let v = tiles[tile_of(m, n, px, py, gr, gc) as int];
            v.cur[v.local_row(gr)][v.local_col(gc)]
        }),
{
    lemma_tile_partition(m, n, px, py, gr, gc);
    lemma_published_prefix(frame, m, n, px, py, tiles, tiles.len(), gr, gc);
    assert(tiles.take(tiles.len() as int) == tiles);
}

} // verus!
