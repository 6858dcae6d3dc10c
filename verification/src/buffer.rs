//! The field of one tile: three planes in one slab, and the coefficient map.

use crate::controlblock::ControlBlock;
use crate::geometry::axis_extent;
use crate::geometry::axis_origin;
use crate::geometry::lemma_part_within;
use crate::geometry::part_len;
use crate::geometry::part_start;
use crate::geometry::tile_col;
use crate::geometry::tile_row;
use vstd::arithmetic::div_mod::lemma_fundamental_div_mod;
use vstd::prelude::*;

verus! {

/// Why a tile cannot be laid out.
#[derive(Clone, Copy, Debug, PartialEq, Eq, Structural)]
pub enum GeometryError {
    /// The tile grid has no column or no row.
    NoTiles,
    /// The domain has no row or no column.
    EmptyDomain,
    /// There are more tiles along an axis than cells, so some tile is empty.
    EmptyTile,
    /// The tile number is not one of the tile grid.
    NoSuchTile,
    /// The three padded planes of the tile have more cells than can be indexed.
    TooLarge,
}

/// What a tile is, apart from how it is stored: its place in the domain and
/// its four planes, each a sequence of `m + 2` rows of `n + 2` cells.
#[verifier::ext_equal]
pub struct TileView<T> {
    pub t_id: nat,
    pub m: nat,
    pub n: nat,
    pub start_row: nat,
    pub start_col: nat,
    pub zero: T,
    pub alpha_init: T,
    pub prev: Seq<Seq<T>>,
    pub cur: Seq<Seq<T>>,
    pub next: Seq<Seq<T>>,
    pub alpha: Seq<Seq<T>>,
}

/// A plane of `rows` by `cols` cells that all hold `v`.
pub open spec fn uniform_plane<T>(rows: nat, cols: nat, v: T) -> Seq<Seq<T>> {
    Seq::new(rows, |r: int| Seq::new(cols, |c: int| v))
}

/// Whether `plane` has `rows` rows of `cols` cells each.
pub open spec fn plane_has_shape<T>(plane: Seq<Seq<T>>, rows: nat, cols: nat) -> bool {
    plane.len() == rows && forall|r: int| 0 <= r < rows ==> (#[trigger] plane[r]).len() == cols
}

/// Column `c` of a plane, top to bottom.
pub open spec fn plane_col<T>(plane: Seq<Seq<T>>, c: int) -> Seq<T> {
    Seq::new(plane.len(), |r: int| plane[r][c])
}

/// `plane` with `v` in row `r`, column `c`.
pub open spec fn plane_with<T>(plane: Seq<Seq<T>>, r: int, c: int, v: T) -> Seq<Seq<T>> {
    plane.update(r, plane[r].update(c, v))
}

/// `plane` with column `c` replaced, from the top down, by `values`; rows
/// below the last value keep their cell.
pub open spec fn plane_with_col<T>(plane: Seq<Seq<T>>, c: int, values: Seq<T>) -> Seq<Seq<T>> {
    Seq::new(
        plane.len(),
        |r: int|
            if r < values.len() {
                plane[r].update(c, values[r])
            } else {
                plane[r]
            },
    )
}

impl<T> TileView<T> {
    /// Rows of a plane: the interior and one ghost row on either side.
    pub open spec fn grid_m(self) -> nat {
        self.m + 2
    }

    /// Columns of a plane: the interior and one ghost column on either side.
    pub open spec fn grid_n(self) -> nat {
        self.n + 2
    }

    /// Cells of a plane.
    pub open spec fn plane_len(self) -> int {
        (self.grid_m() * self.grid_n()) as int
    }

    /// Whether row `r`, column `c` is a cell of the padded tile.
    pub open spec fn in_grid(self, r: int, c: int) -> bool {
        0 <= r < self.grid_m() && 0 <= c < self.grid_n()
    }

    /// Whether row `r`, column `c` is a cell of the interior.
    pub open spec fn in_interior(self, r: int, c: int) -> bool {
        1 <= r <= self.m && 1 <= c <= self.n
    }

    /// Whether the cell in row `gr`, column `gc` of the domain lies in the
    /// interior of this tile.
    pub open spec fn owns(self, gr: int, gc: int) -> bool {
        self.start_row <= gr < self.start_row + self.m && self.start_col <= gc < self.start_col
            + self.n
    }

    /// Row of the padded tile that holds row `gr` of the domain.
    pub open spec fn local_row(self, gr: int) -> int {
        gr - self.start_row + 1
    }

    /// Column of the padded tile that holds column `gc` of the domain.
    pub open spec fn local_col(self, gc: int) -> int {
        gc - self.start_col + 1
    }

    /// The interior is not empty and every plane has `grid_m` rows of
    /// `grid_n` cells.
    pub open spec fn wf(self) -> bool {
        &&& self.m >= 1
        &&& self.n >= 1
        &&& plane_has_shape(self.prev, self.grid_m(), self.grid_n())
        &&& plane_has_shape(self.cur, self.grid_m(), self.grid_n())
        &&& plane_has_shape(self.next, self.grid_m(), self.grid_n())
        &&& plane_has_shape(self.alpha, self.grid_m(), self.grid_n())
    }

    /// Every coefficient is the initial one or the cleared one.
    pub open spec fn alpha_two_valued(self) -> bool {
        forall|r: int, c: int|
            self.in_grid(r, c) ==> #[trigger] self.alpha[r][c] == self.zero
                || self.alpha[r][c] == self.alpha_init
    }
}

/// Whether `x` is where one of the three planes of `g` cells starts.
pub open spec fn is_plane_offset(x: int, g: int) -> bool {
    x == 0 || x == g || x == 2 * g
}

/// Whether `p`, `c` and `n` are 0, `g` and `2 * g` in some order.
pub open spec fn offsets_permute(p: int, c: int, n: int, g: int) -> bool {
    &&& is_plane_offset(p, g)
    &&& is_plane_offset(c, g)
    &&& is_plane_offset(n, g)
    &&& p != c
    &&& c != n
    &&& p != n
}

/// The offsets of `prev`, `cur` and `next` after `k` rotations: each rotation
/// hands `prev` the offset of `cur`, `cur` that of `next`, and `next` that
/// of `prev`.
pub open spec fn rotated(offsets: (int, int, int), k: nat) -> (int, int, int)
    decreases k,
{
    if k == 0 {
        offsets
    } else {
        let (p, c, n) = rotated(offsets, (k - 1) as nat);
        (c, n, p)
    }
}

/// However often the planes are rotated, the three offsets stay 0, one plane
/// and two planes in some order, and after three rotations they are back
/// where they were.
pub proof fn lemma_rotation_permutes(p: int, c: int, n: int, g: int, k: nat)
    requires
        offsets_permute(p, c, n, g),
    ensures
        offsets_permute(rotated((p, c, n), k).0, rotated((p, c, n), k).1, rotated((p, c, n), k).2, g),
        rotated((p, c, n), k + 3) == rotated((p, c, n), k),
    decreases k,
{
    reveal_with_fuel(rotated, 4);
    if k > 0 {
        lemma_rotation_permutes(p, c, n, g, (k - 1) as nat);
    }
}

/// The reason, if any, why tile `t_id` of a `px` by `py` tiling of an `m` by
/// `n` domain cannot be laid out.
pub open spec fn tile_error(m: nat, n: nat, px: nat, py: nat, t_id: int) -> Option<GeometryError> {
    if px == 0 || py == 0 {
        Some(GeometryError::NoTiles)
    } else if m == 0 || n == 0 {
        Some(GeometryError::EmptyDomain)
    } else if m < py || n < px {
        Some(GeometryError::EmptyTile)
    } else if t_id < 0 || t_id >= px * py {
        Some(GeometryError::NoSuchTile)
    } else if 3 * ((part_len(m, py, tile_row(t_id as nat, px)) + 2) * (part_len(
        n,
        px,
        tile_col(t_id as nat, px),
    ) + 2)) > usize::MAX {
        Some(GeometryError::TooLarge)
    } else {
        None
    }
}

/// Tile `t` of a `px` by `py` tiling of an `m` by `n` domain before the first
/// step: the field is `zero` everywhere, every coefficient is `alpha_init`.
pub open spec fn fresh_tile<T>(
    m: nat,
    n: nat,
    px: nat,
    py: nat,
    t: nat,
    zero: T,
    alpha_init: T,
) -> TileView<T> {
    let tm = part_len(m, py, tile_row(t, px));
    let tn = part_len(n, px, tile_col(t, px));
    TileView {
        t_id: t,
        m: tm,
        n: tn,
        start_row: part_start(m, py, tile_row(t, px)),
        start_col: part_start(n, px, tile_col(t, px)),
        zero,
        alpha_init,
        prev: uniform_plane(tm + 2, tn + 2, zero),
        cur: uniform_plane(tm + 2, tn + 2, zero),
        next: uniform_plane(tm + 2, tn + 2, zero),
        alpha: uniform_plane(tm + 2, tn + 2, alpha_init),
    }
}

/// The field of one tile.
///
/// The three planes `prev`, `cur` and `next` lie one after another in
/// `memory_pool`; which third holds which plane is given by three offsets
/// that `adv_buffers` rotates. Rows are stored one after another.
pub struct ArrBuffer<T> {
    t_id: i32,
    m: usize,
    n: usize,
    grid_m: usize,
    grid_n: usize,
    start_row: usize,
    start_col: usize,
    zero: T,
    alpha_init: T,
    memory_pool: Vec<T>,
    alpha: Vec<T>,
    prev_offset: usize,
    curr_offset: usize,
    next_offset: usize,
}

/// The `rows` by `cols` cells that `pool` holds from `off` on, as rows.
spec fn plane_at<T>(pool: Seq<T>, off: int, rows: int, cols: int) -> Seq<Seq<T>> {
    Seq::new(rows as nat, |r: int| Seq::new(cols as nat, |c: int| slab_cell(pool, off, cols, r, c)))
}

/// The cell in row `r`, column `c` of the plane that `pool` holds from `off` on.
spec fn slab_cell<T>(pool: Seq<T>, off: int, cols: int, r: int, c: int) -> T {
    pool[off + r * cols + c]
}

proof fn lemma_cell_index(rows: int, cols: int, r: int, c: int)
    requires
        0 <= r < rows,
        0 <= c < cols,
    ensures
        0 <= r * cols + c < rows * cols,
        (r * cols + c) / cols == r,
        (r * cols + c) % cols == c,
{
    assert(r * cols >= 0 && r * cols + cols <= rows * cols) by (nonlinear_arith)
        requires
            0 <= r < rows,
            0 < cols,
    ;
    vstd::arithmetic::div_mod::lemma_fundamental_div_mod_converse(r * cols + c, cols, r, c);
}

proof fn lemma_plane_at_uniform<T>(pool: Seq<T>, off: int, rows: int, cols: int, v: T)
    requires
        0 <= rows,
        0 <= cols,
        forall|i: int| off <= i < off + rows * cols ==> pool[i] == v,
    ensures
        plane_at(pool, off, rows, cols) == uniform_plane(rows as nat, cols as nat, v),
{
    assert forall|r: int, c: int| 0 <= r < rows && 0 <= c < cols implies #[trigger] plane_at(
        pool,
        off,
        rows,
        cols,
    )[r][c] == v by {
        lemma_cell_index(rows, cols, r, c);
    }
    assert(plane_at(pool, off, rows, cols) =~~= uniform_plane(rows as nat, cols as nat, v));
}

impl<T> ArrBuffer<T> {
    /// What holds of every tile that exists: the interior is not empty, the
    /// slab holds three planes of `m + 2` rows of `n + 2` cells, the
    /// coefficient map holds one, and the three offsets are 0, one plane and
    /// two planes in some order.
    #[verifier::type_invariant]
    pub closed spec fn valid(self) -> bool {
        &&& self.t_id >= 0
        &&& self.m >= 1
        &&& self.n >= 1
        &&& self.grid_m == self.m + 2
        &&& self.grid_n == self.n + 2
        &&& self.start_row + self.m <= usize::MAX
        &&& self.start_col + self.n <= usize::MAX
        &&& 3 * (self.grid_m * self.grid_n) <= usize::MAX
        &&& self.memory_pool@.len() == 3 * (self.grid_m * self.grid_n)
        &&& self.alpha@.len() == self.grid_m * self.grid_n
        &&& offsets_permute(
            self.prev_offset as int,
            self.curr_offset as int,
            self.next_offset as int,
            self.grid_m * self.grid_n,
        )
    }

    /// Where the `prev` plane starts in the slab.
    pub closed spec fn prev_off(self) -> int {
        self.prev_offset as int
    }

    /// Where the `cur` plane starts in the slab.
    pub closed spec fn cur_off(self) -> int {
        self.curr_offset as int
    }

    /// Where the `next` plane starts in the slab.
    pub closed spec fn next_off(self) -> int {
        self.next_offset as int
    }
}

impl<T> View for ArrBuffer<T> {
    type V = TileView<T>;

    closed spec fn view(&self) -> TileView<T> {
        let rows = self.m + 2;
        let cols = self.n + 2;
        TileView {
            t_id: self.t_id as nat,
            m: self.m as nat,
            n: self.n as nat,
            start_row: self.start_row as nat,
            start_col: self.start_col as nat,
            zero: self.zero,
            alpha_init: self.alpha_init,
            prev: plane_at(self.memory_pool@, self.prev_offset as int, rows, cols),
            cur: plane_at(self.memory_pool@, self.curr_offset as int, rows, cols),
            next: plane_at(self.memory_pool@, self.next_offset as int, rows, cols),
            alpha: plane_at(self.alpha@, 0, rows, cols),
        }
    }
}

/// A vector of `len` copies of `value`.
fn filled<T: Copy>(value: T, len: usize) -> (v: Vec<T>)
    ensures
        v@ == Seq::new(len as nat, |i: int| value),
{
    let mut v: Vec<T> = Vec::with_capacity(len);
    let mut i: usize = 0;
    while i < len
        invariant
            i <= len,
            v@ == Seq::new(i as nat, |j: int| value),
        decreases len - i,
    {
        v.push(value);
        i = i + 1;
    }
    v
}

impl<T: Copy> ArrBuffer<T> {
    /// Lays out tile `t_id` of the tiling that `cb` describes, with the field
    /// at `zero` in all three planes and every coefficient at `alpha_init`.
    /// Obstacles later set coefficients to `zero`.
    pub fn new(cb: &ControlBlock, t_id: i32, zero: T, alpha_init: T) -> (res: Result<
        Self,
        GeometryError,
    >)
        ensures
            match res {
                Ok(buf) => {
                    &&& tile_error(cb.m as nat, cb.n as nat, cb.px as nat, cb.py as nat, t_id as int)
                        is None
                    &&& buf@ == fresh_tile(
                        cb.m as nat,
                        cb.n as nat,
                        cb.px as nat,
                        cb.py as nat,
                        t_id as nat,
                        zero,
                        alpha_init,
                    )
                    &&& buf@.wf()
                    &&& buf@.alpha_two_valued()
                    &&& buf.prev_off() == 0
                    &&& buf.cur_off() == buf@.plane_len()
                    &&& buf.next_off() == 2 * buf@.plane_len()
                },
                Err(e) => tile_error(
                    cb.m as nat,
                    cb.n as nat,
                    cb.px as nat,
                    cb.py as nat,
                    t_id as int,
                ) == Some(e),
            },
    {
        if cb.px == 0 || cb.py == 0 {
            return Err(GeometryError::NoTiles);
        }
        if cb.m == 0 || cb.n == 0 {
            return Err(GeometryError::EmptyDomain);
        }
        if cb.m < cb.py || cb.n < cb.px {
            return Err(GeometryError::EmptyTile);
        }
        if t_id < 0 {
            return Err(GeometryError::NoSuchTile);
        }
        let t = t_id as usize;
        let ty = t / cb.px;
        let tx = t % cb.px;
        proof {
            lemma_fundamental_div_mod(t as int, cb.px as int);
            if ty < cb.py {
                assert(t < cb.px * cb.py) by (nonlinear_arith)
                    requires
                        t == cb.px * ty + tx,
                        tx < cb.px,
                        ty < cb.py,
                ;
            } else {
                assert(t >= cb.px * cb.py) by (nonlinear_arith)
                    requires
                        t == cb.px * ty + tx,
                        0 <= tx,
                        ty >= cb.py,
                        cb.px > 0,
                ;
            }
        }
        if ty >= cb.py {
            return Err(GeometryError::NoSuchTile);
        }
        let n = axis_extent(cb.n, cb.px, tx);
        let m = axis_extent(cb.m, cb.py, ty);
        let start_col = axis_origin(cb.n, cb.px, tx);
        let start_row = axis_origin(cb.m, cb.py, ty);
        proof {
            lemma_part_within(cb.n as nat, cb.px as nat, tx as nat);
            lemma_part_within(cb.m as nat, cb.py as nat, ty as nat);
            lemma_fundamental_div_mod(cb.m as int, cb.py as int);
            lemma_fundamental_div_mod(cb.n as int, cb.px as int);
            assert(cb.m / cb.py >= 1) by (nonlinear_arith)
                requires
                    cb.m >= cb.py,
                    cb.py > 0,
                    cb.m == cb.py * (cb.m / cb.py) + cb.m % cb.py,
                    cb.m % cb.py < cb.py,
            ;
            assert(cb.n / cb.px >= 1) by (nonlinear_arith)
                requires
                    cb.n >= cb.px,
                    cb.px > 0,
                    cb.n == cb.px * (cb.n / cb.px) + cb.n % cb.px,
                    cb.n % cb.px < cb.px,
            ;
        }
        let total = match Self::pool_len(m, n) {
            Some(total) => total,
            None => {
                return Err(GeometryError::TooLarge);
            },
        };
        proof {
            assert(m + 2 <= (m + 2) * (n + 2) && n + 2 <= (m + 2) * (n + 2)) by (nonlinear_arith)
                requires
                    m >= 0,
                    n >= 0,
            ;
        }
        let grid_m = m + 2;
        let grid_n = n + 2;
        let plane = grid_m * grid_n;
        let memory_pool = filled(zero, total);
        let alpha = filled(alpha_init, plane);
        let buf = ArrBuffer {
            t_id,
            m,
            n,
            grid_m,
            grid_n,
            start_row,
            start_col,
            zero,
            alpha_init,
            memory_pool,
            alpha,
            prev_offset: 0,
            curr_offset: plane,
            next_offset: 2 * plane,
        };
        proof {
            let fresh = fresh_tile(
                cb.m as nat,
                cb.n as nat,
                cb.px as nat,
                cb.py as nat,
                t_id as nat,
                zero,
                alpha_init,
            );
            let rows = grid_m as int;
            let cols = grid_n as int;
            lemma_plane_at_uniform(memory_pool@, 0, rows, cols, zero);
            lemma_plane_at_uniform(memory_pool@, plane as int, rows, cols, zero);
            lemma_plane_at_uniform(memory_pool@, 2 * plane, rows, cols, zero);
            lemma_plane_at_uniform(alpha@, 0, rows, cols, alpha_init);
            assert(buf@ == fresh);
        }
        Ok(buf)
    }

    /// The number of cells of the three padded planes of a tile of `m` by `n`
    /// cells, where it can be indexed.
    fn pool_len(m: usize, n: usize) -> (total: Option<usize>)
        ensures
            match total {
                Some(t) => t == 3 * ((m + 2) * (n + 2)),
                None => 3 * ((m + 2) * (n + 2)) > usize::MAX,
            },
    {
        let gm = match m.checked_add(2) {
            Some(gm) => gm,
            None => {
                assert(3 * ((m + 2) * (n + 2)) > usize::MAX) by (nonlinear_arith)
                    requires
                        m + 2 > usize::MAX,
                        n >= 0,
                ;
                return None;
            },
        };
        let gn = match n.checked_add(2) {
            Some(gn) => gn,
            None => {
                assert(3 * ((m + 2) * (n + 2)) > usize::MAX) by (nonlinear_arith)
                    requires
                        n + 2 > usize::MAX,
                        m >= 0,
                ;
                return None;
            },
        };
        match gm.checked_mul(gn) {
            Some(g) => g.checked_mul(3),
            None => None,
        }
    }
}

proof fn lemma_plane_at_same<T>(a: Seq<T>, b: Seq<T>, off: int, rows: int, cols: int)
    requires
        0 <= rows,
        0 <= cols,
        forall|i: int| off <= i < off + rows * cols ==> a[i] == b[i],
    ensures
        plane_at(a, off, rows, cols) == plane_at(b, off, rows, cols),
{
    assert forall|r: int, c: int| 0 <= r < rows && 0 <= c < cols implies #[trigger] plane_at(
        a,
        off,
        rows,
        cols,
    )[r][c] == plane_at(b, off, rows, cols)[r][c] by {
        lemma_cell_index(rows, cols, r, c);
    }
    assert(plane_at(a, off, rows, cols) =~~= plane_at(b, off, rows, cols));
}

proof fn lemma_plane_at_update<T>(pool: Seq<T>, off: int, rows: int, cols: int, r: int, c: int, v: T)
    requires
        0 <= r < rows,
        0 <= c < cols,
        0 <= off,
        off + rows * cols <= pool.len(),
    ensures
        plane_at(pool.update(off + r * cols + c, v), off, rows, cols) == plane_with(
            plane_at(pool, off, rows, cols),
            r,
            c,
            v,
        ),
{
    let after = plane_at(pool.update(off + r * cols + c, v), off, rows, cols);
    let expected = plane_with(plane_at(pool, off, rows, cols), r, c, v);
    lemma_cell_index(rows, cols, r, c);
    assert forall|i: int, j: int| 0 <= i < rows && 0 <= j < cols implies #[trigger] after[i][j]
        == expected[i][j] by {
        lemma_cell_index(rows, cols, i, j);
    }
    assert(after =~~= expected);
}

impl<T: Copy> ArrBuffer<T> {
    /// Number of the tile in the tile grid.
    pub fn t_id(&self) -> (id: i32)
        ensures
            id == self@.t_id,
    {
        proof {
            use_type_invariant(self);
        }
        self.t_id
    }

    /// Rows of the interior.
    pub fn m(&self) -> (m: usize)
        ensures
            m == self@.m,
            m >= 1,
    {
        proof {
            use_type_invariant(self);
        }
        self.m
    }

    /// Columns of the interior.
    pub fn n(&self) -> (n: usize)
        ensures
            n == self@.n,
            n >= 1,
    {
        proof {
            use_type_invariant(self);
        }
        self.n
    }

    /// Rows of a plane, ghost rows included. Every tile that exists is
    /// well formed.
    pub fn grid_m(&self) -> (rows: usize)
        ensures
            rows == self@.grid_m(),
            self@.wf(),
    {
        proof {
            use_type_invariant(self);
            self.lemma_valid_view();
        }
        self.grid_m
    }

    /// Columns of a plane, ghost columns included. Every tile that exists is
    /// well formed.
    pub fn grid_n(&self) -> (cols: usize)
        ensures
            cols == self@.grid_n(),
            self@.wf(),
    {
        proof {
            use_type_invariant(self);
            self.lemma_valid_view();
        }
        self.grid_n
    }

    /// Row of the domain that the first interior row holds.
    pub fn start_row(&self) -> (row: usize)
        ensures
            row == self@.start_row,
            row + self@.m <= usize::MAX,
    {
        proof {
            use_type_invariant(self);
        }
        self.start_row
    }

    /// Column of the domain that the first interior column holds.
    pub fn start_col(&self) -> (col: usize)
        ensures
            col == self@.start_col,
            col + self@.n <= usize::MAX,
    {
        proof {
            use_type_invariant(self);
        }
        self.start_col
    }

    /// Where the `prev` plane starts in the slab. The three offsets are
    /// always 0, one plane and two planes, in some order.
    pub fn prev_offset(&self) -> (off: usize)
        ensures
            off == self.prev_off(),
            offsets_permute(
                self.prev_off(),
                self.cur_off(),
                self.next_off(),
                self@.plane_len(),
            ),
    {
        proof {
            use_type_invariant(self);
        }
        self.prev_offset
    }

    /// Where the `cur` plane starts in the slab. The three offsets are
    /// always 0, one plane and two planes, in some order.
    pub fn curr_offset(&self) -> (off: usize)
        ensures
            off == self.cur_off(),
            offsets_permute(
                self.prev_off(),
                self.cur_off(),
                self.next_off(),
                self@.plane_len(),
            ),
    {
        proof {
            use_type_invariant(self);
        }
        self.curr_offset
    }

    /// Where the `next` plane starts in the slab. The three offsets are
    /// always 0, one plane and two planes, in some order.
    pub fn next_offset(&self) -> (off: usize)
        ensures
            off == self.next_off(),
            offsets_permute(
                self.prev_off(),
                self.cur_off(),
                self.next_off(),
                self@.plane_len(),
            ),
    {
        proof {
            use_type_invariant(self);
        }
        self.next_offset
    }

    /// A tile that is valid has a well-formed view.
    pub proof fn lemma_valid_view(self)
        requires
            self.valid(),
        ensures
            self@.wf(),
    {
    }

    /// Where in a plane the cell in row `r`, column `c` lies.
    fn cell(&self, r: usize, c: usize) -> (i: usize)
        requires
            self@.in_grid(r as int, c as int),
        ensures
            i == r * self.grid_n + c,
            i < self.grid_m * self.grid_n,
    {
        proof {
            use_type_invariant(self);
            lemma_cell_index(self.grid_m as int, self.grid_n as int, r as int, c as int);
        }
        r * self.grid_n + c
    }

    /// Rotates the planes: what was `cur` becomes `prev`, what was `next`
    /// becomes `cur`, and the old `prev` is the new `next`, to be overwritten.
    /// No cell is copied.
    pub fn adv_buffers(&mut self)
        ensures
            final(self)@ == (TileView {
                prev: old(self)@.cur,
                cur: old(self)@.next,
                next: old(self)@.prev,
                ..old(self)@
            }),
            final(self).prev_off() == old(self).cur_off(),
            final(self).cur_off() == old(self).next_off(),
            final(self).next_off() == old(self).prev_off(),
            offsets_permute(
                final(self).prev_off(),
                final(self).cur_off(),
                final(self).next_off(),
                final(self)@.plane_len(),
            ),
            final(self)@.wf(),
    {
        proof {
            use_type_invariant(&*self);
        }
        core::mem::swap(&mut self.prev_offset, &mut self.curr_offset);
        core::mem::swap(&mut self.curr_offset, &mut self.next_offset);
        proof {
            use_type_invariant(&*self);
            self.lemma_valid_view();
        }
    }

    /// Whether the cell in row `r`, column `c` of the domain lies in the
    /// interior of this tile.
    pub fn check_bounds(&self, r: usize, c: usize) -> (inside: bool)
        ensures
            inside == self@.owns(r as int, c as int),
    {
        proof {
            use_type_invariant(self);
        }
        let start_r = self.start_row;
        let start_c = self.start_col;
        r >= start_r && r < start_r + self.m && c >= start_c && c < start_c + self.n
    }

    /// Row and column of the padded tile that hold the cell in row `globr`,
    /// column `globc` of the domain, or `usize::MAX` twice where that cell
    /// is not in the interior of this tile.
    pub fn map_to_local(&self, globr: i32, globc: i32) -> (local: (usize, usize))
        ensures
            self@.owns(globr as int, globc as int) ==> local.0 == self@.local_row(globr as int)
                && local.1 == self@.local_col(globc as int),
            !self@.owns(globr as int, globc as int) ==> local.0 == usize::MAX && local.1
                == usize::MAX,
    {
        proof {
            use_type_invariant(self);
        }
        if globr < 0 || globc < 0 {
            return (usize::MAX, usize::MAX);
        }
        let gr = globr as usize;
        let gc = globc as usize;
        if !self.check_bounds(gr, gc) {
            return (usize::MAX, usize::MAX);
        }
        (gr - self.start_row + 1, gc - self.start_col + 1)
    }

    /// The cell of the `cur` plane in row `r`, column `c`.
    pub fn cur_v(&self, r: usize, c: usize) -> (v: T)
        requires
            self@.in_grid(r as int, c as int),
        ensures
            v == self@.cur[r as int][c as int],
    {
        proof {
            use_type_invariant(self);
        }
        let i = self.cell(r, c);
        self.memory_pool[self.curr_offset + i]
    }

    /// The cell of the `prev` plane in row `r`, column `c`.
    pub fn prev_v(&self, r: usize, c: usize) -> (v: T)
        requires
            self@.in_grid(r as int, c as int),
        ensures
            v == self@.prev[r as int][c as int],
    {
        proof {
            use_type_invariant(self);
        }
        let i = self.cell(r, c);
        self.memory_pool[self.prev_offset + i]
    }

    /// The cell of the `next` plane in row `r`, column `c`.
    pub fn nxt_v(&self, r: usize, c: usize) -> (v: T)
        requires
            self@.in_grid(r as int, c as int),
        ensures
            v == self@.next[r as int][c as int],
    {
        proof {
            use_type_invariant(self);
        }
        let i = self.cell(r, c);
        self.memory_pool[self.next_offset + i]
    }

    /// The coefficient in row `r`, column `c`.
    pub fn alp_v(&self, r: usize, c: usize) -> (v: T)
        requires
            self@.in_grid(r as int, c as int),
        ensures
            v == self@.alpha[r as int][c as int],
    {
        proof {
            use_type_invariant(self);
        }
        let i = self.cell(r, c);
        self.alpha[i]
    }
}

impl<T: Copy> ArrBuffer<T> {
    /// The cell of the `cur` plane in row `r`, column `c`, to be written, or
    /// nothing where the padded tile has no such cell. What the caller
    /// writes is the only change.
    pub fn cur(&mut self, r: usize, c: usize) -> (cell: Option<&mut T>)
        ensures
            match cell {
                Some(x) => {
                    &&& old(self)@.in_grid(r as int, c as int)
                    &&& *x == old(self)@.cur[r as int][c as int]
                    &&& final(self)@ == (TileView {
                        cur: plane_with(old(self)@.cur, r as int, c as int, *final(x)),
                        ..old(self)@
                    })
                },
                None => !old(self)@.in_grid(r as int, c as int) && final(self)@ == old(self)@,
            },
            final(self)@.wf(),
            final(self).prev_off() == old(self).prev_off(),
            final(self).cur_off() == old(self).cur_off(),
            final(self).next_off() == old(self).next_off(),
    {
        proof {
            use_type_invariant(&*self);
            self.lemma_valid_view();
        }
        if r < self.grid_m && c < self.grid_n {
            let i = self.curr_offset + self.cell(r, c);
            let x = &mut self.memory_pool[i];
            proof {
                let rows = old(self).grid_m as int;
                let cols = old(self).grid_n as int;
                let pool = old(self).memory_pool@;
                let after = pool.update(i as int, *final(x));
                lemma_plane_at_update(pool, old(self).curr_offset as int, rows, cols, r as int, c as int, *final(x));
                lemma_plane_at_same(pool, after, old(self).prev_offset as int, rows, cols);
                lemma_plane_at_same(pool, after, old(self).next_offset as int, rows, cols);
            }
            Some(x)
        } else {
            None
        }
    }

    /// The cell of the `prev` plane in row `r`, column `c`, to be written, or
    /// nothing where the padded tile has no such cell. What the caller
    /// writes is the only change.
    pub fn prev(&mut self, r: usize, c: usize) -> (cell: Option<&mut T>)
        ensures
            match cell {
                Some(x) => {
                    &&& old(self)@.in_grid(r as int, c as int)
                    &&& *x == old(self)@.prev[r as int][c as int]
                    &&& final(self)@ == (TileView {
                        prev: plane_with(old(self)@.prev, r as int, c as int, *final(x)),
                        ..old(self)@
                    })
                },
                None => !old(self)@.in_grid(r as int, c as int) && final(self)@ == old(self)@,
            },
            final(self)@.wf(),
            final(self).prev_off() == old(self).prev_off(),
            final(self).cur_off() == old(self).cur_off(),
            final(self).next_off() == old(self).next_off(),
    {
        proof {
            use_type_invariant(&*self);
            self.lemma_valid_view();
        }
        if r < self.grid_m && c < self.grid_n {
            let i = self.prev_offset + self.cell(r, c);
            let x = &mut self.memory_pool[i];
            proof {
                let rows = old(self).grid_m as int;
                let cols = old(self).grid_n as int;
                let pool = old(self).memory_pool@;
                let after = pool.update(i as int, *final(x));
                lemma_plane_at_update(pool, old(self).prev_offset as int, rows, cols, r as int, c as int, *final(x));
                lemma_plane_at_same(pool, after, old(self).curr_offset as int, rows, cols);
                lemma_plane_at_same(pool, after, old(self).next_offset as int, rows, cols);
            }
            Some(x)
        } else {
            None
        }
    }

    /// The cell of the `next` plane in row `r`, column `c`, to be written, or
    /// nothing where the padded tile has no such cell. What the caller
    /// writes is the only change.
    pub fn nxt(&mut self, r: usize, c: usize) -> (cell: Option<&mut T>)
        ensures
            match cell {
                Some(x) => {
                    &&& old(self)@.in_grid(r as int, c as int)
                    &&& *x == old(self)@.next[r as int][c as int]
                    &&& final(self)@ == (TileView {
                        next: plane_with(old(self)@.next, r as int, c as int, *final(x)),
                        ..old(self)@
                    })
                },
                None => !old(self)@.in_grid(r as int, c as int) && final(self)@ == old(self)@,
            },
            final(self)@.wf(),
            final(self).prev_off() == old(self).prev_off(),
            final(self).cur_off() == old(self).cur_off(),
            final(self).next_off() == old(self).next_off(),
    {
        proof {
            use_type_invariant(&*self);
            self.lemma_valid_view();
        }
        if r < self.grid_m && c < self.grid_n {
            let i = self.next_offset + self.cell(r, c);
            let x = &mut self.memory_pool[i];
            proof {
                let rows = old(self).grid_m as int;
                let cols = old(self).grid_n as int;
                let pool = old(self).memory_pool@;
                let after = pool.update(i as int, *final(x));
                lemma_plane_at_update(pool, old(self).next_offset as int, rows, cols, r as int, c as int, *final(x));
                lemma_plane_at_same(pool, after, old(self).prev_offset as int, rows, cols);
                lemma_plane_at_same(pool, after, old(self).curr_offset as int, rows, cols);
            }
            Some(x)
        } else {
            None
        }
    }
}

proof fn lemma_plane_at_row<T>(pool: Seq<T>, off: int, rows: int, cols: int, r: int)
    requires
        0 <= r < rows,
        0 <= cols,
        0 <= off,
        off + rows * cols <= pool.len(),
    ensures
        off + r * cols >= 0,
        off + r * cols + cols <= off + rows * cols,
        plane_at(pool, off, rows, cols)[r] == pool.subrange(
            off + r * cols,
            off + r * cols + cols,
        ),
{
    assert(r * cols >= 0 && r * cols + cols <= rows * cols) by (nonlinear_arith)
        requires
            0 <= r < rows,
            0 <= cols,
    ;
    assert(plane_at(pool, off, rows, cols)[r] =~= pool.subrange(
        off + r * cols,
        off + r * cols + cols,
    ));
}

proof fn lemma_plane_at_row_update<T>(
    before: Seq<T>,
    after: Seq<T>,
    off: int,
    rows: int,
    cols: int,
    r: int,
    values: Seq<T>,
)
    requires
        0 <= r < rows,
        0 <= cols == values.len(),
        forall|i: int|
            off <= i < off + rows * cols ==> after[i] == if off + r * cols <= i < off + r * cols
                + cols {
                values[i - (off + r * cols)]
            } else {
                before[i]
            },
    ensures
        plane_at(after, off, rows, cols) == plane_at(before, off, rows, cols).update(r, values),
{
    let got = plane_at(after, off, rows, cols);
    let expected = plane_at(before, off, rows, cols).update(r, values);
    assert forall|i: int, j: int| 0 <= i < rows && 0 <= j < cols implies #[trigger] got[i][j]
        == expected[i][j] by {
        lemma_cell_index(rows, cols, i, j);
        if i < r {
            assert(i * cols + cols <= r * cols) by (nonlinear_arith)
                requires
                    i + 1 <= r,
                    0 <= cols,
            ;
        } else if i > r {
            assert(r * cols + cols <= i * cols) by (nonlinear_arith)
                requires
                    r + 1 <= i,
                    0 <= cols,
            ;
        }
    }
    assert(got =~~= expected);
}

proof fn lemma_plane_at_col_update<T>(
    before: Seq<T>,
    after: Seq<T>,
    off: int,
    rows: int,
    cols: int,
    c: int,
    values: Seq<T>,
)
    requires
        0 <= rows,
        0 <= c < cols,
        values.len() <= rows,
        forall|i: int, j: int|
            0 <= i < rows && 0 <= j < cols ==> #[trigger] slab_cell(after, off, cols, i, j) == if j
                == c && i < values.len() {
                values[i]
            } else {
                slab_cell(before, off, cols, i, j)
            },
    ensures
        plane_at(after, off, rows, cols) == plane_with_col(
            plane_at(before, off, rows, cols),
            c,
            values,
        ),
{
    let got = plane_at(after, off, rows, cols);
    let expected = plane_with_col(plane_at(before, off, rows, cols), c, values);
    assert(got =~~= expected);
}

impl<T: Copy> ArrBuffer<T> {
    /// Row `r` of the `cur` plane, ghost cells included.
    pub fn extract_row(&self, r: usize) -> (row: Vec<T>)
        requires
            r < self@.grid_m(),
        ensures
            row@ == self@.cur[r as int],
    {
        proof {
            use_type_invariant(self);
            lemma_plane_at_row(
                self.memory_pool@,
                self.curr_offset as int,
                self.grid_m as int,
                self.grid_n as int,
                r as int,
            );
        }
        let start = self.curr_offset + r * self.grid_n;
        vstd::slice::slice_to_vec(
            vstd::slice::slice_subrange(self.memory_pool.as_slice(), start, start + self.grid_n),
        )
    }

    /// Overwrites row `r` of the `cur` plane, ghost cells included.
    pub fn update_row(&mut self, r: usize, values: &[T])
        requires
            r < old(self)@.grid_m(),
            values@.len() == old(self)@.grid_n(),
        ensures
            final(self)@ == (TileView { cur: old(self)@.cur.update(r as int, values@), ..old(self)@ }),
            final(self)@.wf(),
            final(self).prev_off() == old(self).prev_off(),
            final(self).cur_off() == old(self).cur_off(),
            final(self).next_off() == old(self).next_off(),
    {
        proof {
            use_type_invariant(&*self);
            lemma_plane_at_row(
                self.memory_pool@,
                self.curr_offset as int,
                self.grid_m as int,
                self.grid_n as int,
                r as int,
            );
        }
        let start = self.curr_offset + r * self.grid_n;
        let cols = self.grid_n;
        let mut c: usize = 0;
        while c < cols
            invariant
                c <= cols == self.grid_n == values@.len(),
                start + cols <= self.memory_pool@.len(),
                self.valid(),
                self.memory_pool@.len() == old(self).memory_pool@.len(),
                self.t_id == old(self).t_id,
                self.m == old(self).m,
                self.n == old(self).n,
                self.grid_m == old(self).grid_m,
                self.grid_n == old(self).grid_n,
                self.start_row == old(self).start_row,
                self.start_col == old(self).start_col,
                self.zero == old(self).zero,
                self.alpha_init == old(self).alpha_init,
                self.alpha == old(self).alpha,
                self.prev_offset == old(self).prev_offset,
                self.curr_offset == old(self).curr_offset,
                self.next_offset == old(self).next_offset,
                forall|i: int|
                    0 <= i < self.memory_pool@.len() ==> self.memory_pool@[i] == if start <= i
                        < start + c {
                        values@[i - start]
                    } else {
                        old(self).memory_pool@[i]
                    },
            decreases cols - c,
        {
            self.memory_pool[start + c] = values[c];
            c = c + 1;
        }
        proof {
            let rows = self.grid_m as int;
            let before = old(self).memory_pool@;
            let after = self.memory_pool@;
            lemma_plane_at_row_update(
                before,
                after,
                self.curr_offset as int,
                rows,
                cols as int,
                r as int,
                values@,
            );
            lemma_plane_at_same(before, after, self.prev_offset as int, rows, cols as int);
            lemma_plane_at_same(before, after, self.next_offset as int, rows, cols as int);
            self.lemma_valid_view();
        }
    }

    /// Column `c` of the `cur` plane, top to bottom, ghost cells included.
    pub fn extract_col(&self, c: usize) -> (col: Vec<T>)
        requires
            c < self@.grid_n(),
        ensures
            col@ == plane_col(self@.cur, c as int),
    {
        proof {
            use_type_invariant(self);
        }
        let rows = self.grid_m;
        let mut col: Vec<T> = Vec::with_capacity(rows);
        let mut r: usize = 0;
        while r < rows
            invariant
                r <= rows == self@.grid_m(),
                c < self@.grid_n(),
                col@.len() == r,
                forall|i: int| 0 <= i < r ==> col@[i] == self@.cur[i][c as int],
            decreases rows - r,
        {
            col.push(self.cur_v(r, c));
            r = r + 1;
        }
        assert(col@ =~= plane_col(self@.cur, c as int));
        col
    }

    /// Overwrites column `c` of the `cur` plane from the top down, ghost
    /// cells included. Rows below the last value keep their cell.
    pub fn update_col(&mut self, c: usize, values: &[T])
        requires
            c < old(self)@.grid_n(),
            values@.len() <= old(self)@.grid_m(),
        ensures
            final(self)@ == (TileView {
                cur: plane_with_col(old(self)@.cur, c as int, values@),
                ..old(self)@
            }),
            final(self)@.wf(),
            final(self).prev_off() == old(self).prev_off(),
            final(self).cur_off() == old(self).cur_off(),
            final(self).next_off() == old(self).next_off(),
    {
        proof {
            use_type_invariant(&*self);
        }
        let count = values.len();
        let mut r: usize = 0;
        while r < count
            invariant
                r <= count == values@.len() <= self.grid_m,
                c < self.grid_n,
                self.valid(),
                self.memory_pool@.len() == old(self).memory_pool@.len(),
                self.t_id == old(self).t_id,
                self.m == old(self).m,
                self.n == old(self).n,
                self.grid_m == old(self).grid_m,
                self.grid_n == old(self).grid_n,
                self.start_row == old(self).start_row,
                self.start_col == old(self).start_col,
                self.zero == old(self).zero,
                self.alpha_init == old(self).alpha_init,
                self.alpha == old(self).alpha,
                self.prev_offset == old(self).prev_offset,
                self.curr_offset == old(self).curr_offset,
                self.next_offset == old(self).next_offset,
                forall|i: int, j: int|
                    0 <= i < self.grid_m && 0 <= j < self.grid_n ==> #[trigger] slab_cell(
                        self.memory_pool@,
                        self.curr_offset as int,
                        self.grid_n as int,
                        i,
                        j,
                    ) == if j == c && i < r {
                        values@[i]
                    } else {
                        slab_cell(
                            old(self).memory_pool@,
                            self.curr_offset as int,
                            self.grid_n as int,
                            i,
                            j,
                        )
                    },
                forall|k: int|
                    0 <= k < self.memory_pool@.len() && !(self.curr_offset <= k < self.curr_offset
                        + self.grid_m * self.grid_n)
                        ==> self.memory_pool@[k] == old(self).memory_pool@[k],
            decreases count - r,
        {
            let ghost mid = self.memory_pool@;
            let i = self.curr_offset + self.cell(r, c);
            self.memory_pool[i] = values[r];
            proof {
                let rows = self.grid_m as int;
                let cols = self.grid_n as int;
                lemma_cell_index(rows, cols, r as int, c as int);
                assert forall|a: int, b: int| 0 <= a < rows && 0 <= b < cols implies #[trigger] slab_cell(
                    self.memory_pool@,
                    self.curr_offset as int,
                    cols,
                    a,
                    b,
                ) == if b == c && a < r + 1 {
                    values@[a]
                } else {
                    slab_cell(old(self).memory_pool@, self.curr_offset as int, cols, a, b)
                } by {
                    lemma_cell_index(rows, cols, a, b);
                    assert(slab_cell(mid, self.curr_offset as int, cols, a, b) == if b == c && a
                        < r {
                        values@[a]
                    } else {
                        slab_cell(old(self).memory_pool@, self.curr_offset as int, cols, a, b)
                    });
                }
            }
            r = r + 1;
        }
        proof {
            let rows = self.grid_m as int;
            let cols = self.grid_n as int;
            let before = old(self).memory_pool@;
            let after = self.memory_pool@;
            lemma_plane_at_col_update(
                before,
                after,
                self.curr_offset as int,
                rows,
                cols,
                c as int,
                values@,
            );
            lemma_plane_at_same(before, after, self.prev_offset as int, rows, cols);
            lemma_plane_at_same(before, after, self.next_offset as int, rows, cols);
            self.lemma_valid_view();
        }
    }

    /// Sets the coefficient in row `r`, column `c` to the cleared value.
    pub fn clear_alpha(&mut self, r: usize, c: usize)
        requires
            old(self)@.in_grid(r as int, c as int),
        ensures
            final(self)@ == (TileView {
                alpha: plane_with(old(self)@.alpha, r as int, c as int, old(self)@.zero),
                ..old(self)@
            }),
            final(self)@.wf(),
            old(self)@.alpha_two_valued() ==> final(self)@.alpha_two_valued(),
            final(self).prev_off() == old(self).prev_off(),
            final(self).cur_off() == old(self).cur_off(),
            final(self).next_off() == old(self).next_off(),
    {
        proof {
            use_type_invariant(&*self);
            lemma_plane_at_update(
                self.alpha@,
                0,
                self.grid_m as int,
                self.grid_n as int,
                r as int,
                c as int,
                self.zero,
            );
        }
        let i = self.cell(r, c);
        self.alpha[i] = self.zero;
        proof {
            use_type_invariant(&*self);
            self.lemma_valid_view();
        }
    }
}

} // verus!
