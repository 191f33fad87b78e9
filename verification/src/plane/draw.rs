//! Writing runs of cells: lines, fills and boxes.
//!
//! A run is written whole or not at all. A cell whose cluster is in the
//! pool needs one slot for each copy, and a run of such copies is refused
//! unless the pool has room for all of them as it stands.

use vstd::prelude::*;
use crate::cell::{cell_egc, cell_extended, empty_cell, pool_released, NcCell, NCCELL_POOL_FLAG};
use crate::error::{NcError, NcResult};
use crate::plane::cells::{index_of, inside, needs_slot, put_at, put_ok, put_pool_of};
use crate::plane::room::{lemma_room_first_free, lemma_room_released, lemma_room_stowed, room};
use crate::plane::{NcPlane, NcPlaneView, NCPLANE_POOL_SLOTS};

verus! {

/// The plane after copies of `cell` were written at the first `n` of
/// `places`, one after the other.
pub open spec fn put_all(v: NcPlaneView, places: Seq<usize>, cell: NcCell, n: nat) -> NcPlaneView
    decreases n,
{
    if n == 0 {
        v
    } else {
        put_at(put_all(v, places, cell, (n - 1) as nat), places[n - 1] as int, cell)
    }
}

/// Whether `count` copies of `cell` can be written: the cell needs no slot
/// of the pool, or the pool has room for that many clusters.
pub open spec fn run_ok(v: NcPlaneView, cell: NcCell, count: nat) -> bool {
    !needs_slot(v.pool, cell) || count <= room(v.pool)
}

/// The places of `n` cells in a row, from `(y, x)` to the right.
pub open spec fn row_places(v: NcPlaneView, y: u32, x: u32, n: nat) -> Seq<usize> {
    Seq::new(n, |k: int| (index_of(v, y, x) + k) as usize)
}

/// The places of `n` cells in a column, from `(y, x)` downward.
pub open spec fn column_places(v: NcPlaneView, y: u32, x: u32, n: nat) -> Seq<usize> {
    Seq::new(n, |k: int| (index_of(v, y, x) + k * v.cols) as usize)
}

/// The places of all cells.
pub open spec fn all_places(v: NcPlaneView) -> Seq<usize> {
    Seq::new(v.cells.len(), |k: int| k as usize)
}

/// The smaller of two numbers.
pub open spec fn least(a: int, b: int) -> int {
    if a <= b {
        a
    } else {
        b
    }
}

/// Writing a cell keeps the number of cells, and takes the room of one
/// cluster at most. Writing a cell that needs no slot takes no room, and
/// gives no cell a cluster that it did not have.
pub proof fn lemma_put_at(v: NcPlaneView, i: int, cell: NcCell, other: NcCell)
    requires
        0 <= i < v.cells.len(),
        put_ok(v.pool, v.cells[i], cell),
        v.pool.len() <= NCPLANE_POOL_SLOTS,
    ensures
        put_at(v, i, cell) == (NcPlaneView {
            cells: put_at(v, i, cell).cells,
            pool: put_at(v, i, cell).pool,
            ..v
        }),
        put_at(v, i, cell).cells.len() == v.cells.len(),
        put_at(v, i, cell).pool.len() <= NCPLANE_POOL_SLOTS,
        room(put_at(v, i, cell).pool) >= room(v.pool) - 1,
        !needs_slot(v.pool, cell) ==> room(put_at(v, i, cell).pool) >= room(v.pool),
        !needs_slot(v.pool, cell) && !needs_slot(v.pool, other) ==> !needs_slot(
            put_at(v, i, cell).pool,
            other,
        ),
{
    let freed = pool_released(v.pool, v.cells[i]);
    lemma_room_released(v.pool, v.cells[i]);
    if needs_slot(v.pool, cell) {
        lemma_room_stowed(freed, cell_egc(v.pool, cell));
        crate::plane::lemma_first_free(freed, 0);
    }
}

/// Writing a run keeps the number of cells, and takes the room of one
/// cluster for each cell at most. Writing a run of a cell that needs no
/// slot takes no room, and gives no cell a cluster that it did not have.
pub proof fn lemma_put_all(v: NcPlaneView, places: Seq<usize>, cell: NcCell, n: nat, other: NcCell)
    requires
        n <= places.len(),
        forall|k: int| 0 <= k < n ==> (#[trigger] places[k]) < v.cells.len(),
        run_ok(v, cell, n),
        v.pool.len() <= NCPLANE_POOL_SLOTS,
    ensures
        put_all(v, places, cell, n) == (NcPlaneView {
            cells: put_all(v, places, cell, n).cells,
            pool: put_all(v, places, cell, n).pool,
            ..v
        }),
        put_all(v, places, cell, n).cells.len() == v.cells.len(),
        put_all(v, places, cell, n).pool.len() <= NCPLANE_POOL_SLOTS,
        room(put_all(v, places, cell, n).pool) >= room(v.pool) - n,
        !needs_slot(v.pool, cell) ==> room(put_all(v, places, cell, n).pool) >= room(v.pool),
        !needs_slot(v.pool, cell) && !needs_slot(v.pool, other) ==> !needs_slot(
            put_all(v, places, cell, n).pool,
            other,
        ),
        !needs_slot(v.pool, cell) ==> !needs_slot(put_all(v, places, cell, n).pool, cell),
    decreases n,
{
    if n > 0 {
        let m = (n - 1) as nat;
        lemma_put_all(v, places, cell, m, other);
        lemma_put_all(v, places, cell, m, cell);
        let before = put_all(v, places, cell, m);
        let i = places[n - 1] as int;
        lemma_room_released(before.pool, before.cells[i]);
        if needs_slot(before.pool, cell) {
            lemma_room_first_free(pool_released(before.pool, before.cells[i]));
        }
        lemma_put_at(before, i, cell, other);
        lemma_put_at(before, i, cell, cell);
    }
}

impl NcPlane {
    /// Writes copies of `cell` at `places`, one after the other.
    pub(crate) fn put_run(&mut self, places: &Vec<usize>, cell: &NcCell) -> (r: NcResult<()>)
        requires
            old(self).wf(),
            forall|k: int| 0 <= k < places.len() ==> (#[trigger] places[k]) < old(self)@.cells.len(),
        ensures
            final(self).wf(),
            r is Ok <==> run_ok(old(self)@, *cell, places.len() as nat),
            r is Ok ==> final(self)@ == put_all(old(self)@, places@, *cell, places.len() as nat),
            r matches Err(e) ==> e == NcError::CellEncodingError && final(self)@ == old(self)@,
    {
        let extended: bool = cell.gcluster >= NCCELL_POOL_FLAG && cell.gcluster < 2
            * NCCELL_POOL_FLAG;
        let needs: bool = extended && !cell.strdup(self).as_str().is_empty();
        if needs && places.len() > self.pool_room() {
            return Err(NcError::CellEncodingError);
        }
        let ghost start = self@;
        let mut k: usize = 0;
        while k < places.len()
            invariant
                k <= places.len(),
                self.wf(),
                start == old(self)@,
                self@ == put_all(start, places@, *cell, k as nat),
                self@.cells.len() == start.cells.len(),
                forall|j: int| 0 <= j < places.len() ==> (#[trigger] places[j]) < start.cells.len(),
                needs == needs_slot(start.pool, *cell),
                needs ==> room(self@.pool) >= places.len() - k,
                !needs ==> !needs_slot(self@.pool, *cell),
            decreases places.len() - k,
        {
            proof {
                self.lemma_wf_view();
                let target = self@.cells[places[k as int] as int];
                lemma_room_released(self@.pool, target);
                if needs {
                    lemma_room_first_free(pool_released(self@.pool, target));
                }
                lemma_put_at(self@, places[k as int] as int, *cell, *cell);
            }
            match self.put_index(places[k], cell) {
                Ok(()) => {},
                Err(e) => {
                    return Err(e);
                },
            }
            k = k + 1;
        }
        Ok(())
    }

    /// Writes copies of `cell` along a row, from `(y, x)` to the right:
    /// `len` of them, or as many as the row has left. Gives the number
    /// written.
    ///
    /// Fails with `InvalidOperation` when the plane has no position
    /// `(y, x)`, and with `CellEncodingError` when the cluster of `cell` is
    /// in the pool and the pool has no room for that many copies. Nothing
    /// changes then.
    pub fn hline(&mut self, y: u32, x: u32, cell: &NcCell, len: u32) -> (r: NcResult<u32>)
        requires
            old(self).wf(),
        ensures
            final(self).wf(),
            r is Err ==> final(self)@ == old(self)@,
            !inside(old(self)@, y, x) ==> r == Err::<u32, NcError>(NcError::InvalidOperation),
            inside(old(self)@, y, x) ==> {
                let n = least(len as int, old(self)@.cols - x) as nat;
                &&& r is Ok <==> run_ok(old(self)@, *cell, n)
                &&& r matches Ok(written) ==> written == n && final(self)@ == put_all(
                    old(self)@,
                    row_places(old(self)@, y, x, n),
                    *cell,
                    n,
                )
                &&& r matches Err(e) ==> e == NcError::CellEncodingError
            },
    {
        if !self.has_yx(y, x) {
            return Err(NcError::InvalidOperation);
        }
        let n: u32 = if len <= self.cols - x {
            len
        } else {
            self.cols - x
        };
        let first: usize = self.offset(y, x);
        proof {
            self.lemma_wf_view();
            assert(y * self.cols + self.cols <= self.rows * self.cols) by (nonlinear_arith)
                requires
                    0 <= y < self.rows,
                    0 <= self.cols,
            ;
        }
        let mut places: Vec<usize> = Vec::new();
        let mut k: u32 = 0;
        while k < n
            invariant
                k <= n,
                first + n <= self@.cells.len(),
                self@.cells.len() <= crate::plane::NCPLANE_MAX_CELLS,
                places@ == Seq::new(k as nat, |j: int| (first + j) as usize),
            decreases n - k,
        {
            places.push(first + k as usize);
            proof {
                assert(places@ =~= Seq::new((k + 1) as nat, |j: int| (first + j) as usize));
            }
            k = k + 1;
        }
        proof {
            assert(places@ =~= row_places(self@, y, x, n as nat));
        }
        match self.put_run(&places, cell) {
            Ok(()) => Ok(n),
            Err(e) => Err(e),
        }
    }

    /// Writes copies of `cell` along a column, from `(y, x)` downward:
    /// `len` of them, or as many as the column has left. Gives the number
    /// written.
    ///
    /// Fails with `InvalidOperation` when the plane has no position
    /// `(y, x)`, and with `CellEncodingError` when the cluster of `cell` is
    /// in the pool and the pool has no room for that many copies. Nothing
    /// changes then.
    pub fn vline(&mut self, y: u32, x: u32, cell: &NcCell, len: u32) -> (r: NcResult<u32>)
        requires
            old(self).wf(),
        ensures
            final(self).wf(),
            r is Err ==> final(self)@ == old(self)@,
            !inside(old(self)@, y, x) ==> r == Err::<u32, NcError>(NcError::InvalidOperation),
            inside(old(self)@, y, x) ==> {
                let n = least(len as int, old(self)@.rows - y) as nat;
                &&& r is Ok <==> run_ok(old(self)@, *cell, n)
                &&& r matches Ok(written) ==> written == n && final(self)@ == put_all(
                    old(self)@,
                    column_places(old(self)@, y, x, n),
                    *cell,
                    n,
                )
                &&& r matches Err(e) ==> e == NcError::CellEncodingError
            },
    {
        if !self.has_yx(y, x) {
            return Err(NcError::InvalidOperation);
        }
        let n: u32 = if len <= self.rows - y {
            len
        } else {
            self.rows - y
        };
        let first: usize = self.offset(y, x);
        let step: usize = self.cols as usize;
        proof {
            self.lemma_wf_view();
        }
        let mut places: Vec<usize> = Vec::new();
        let mut k: u32 = 0;
        while k < n
            invariant
                k <= n,
                n <= self.rows - y,
                x < self.cols,
                y < self.rows,
                step == self.cols,
                first == y * self.cols + x,
                self@.cells.len() == self.rows * self.cols,
                self@.cells.len() <= crate::plane::NCPLANE_MAX_CELLS,
                places@ == Seq::new(k as nat, |j: int| (first + j * step) as usize),
                forall|j: int| 0 <= j < places.len() ==> (#[trigger] places[j]) < self@.cells.len(),
            decreases n - k,
        {
            proof {
                assert(first + k * step < self.rows * self.cols) by (nonlinear_arith)
                    requires
                        first == y * self.cols + x,
                        step == self.cols,
                        0 <= x < self.cols,
                        0 <= k,
                        y + k < self.rows,
                ;
            }
            places.push(first + k as usize * step);
            proof {
                assert(places@ =~= Seq::new((k + 1) as nat, |j: int| (first + j * step) as usize));
            }
            k = k + 1;
        }
        proof {
            assert(places@ =~= column_places(self@, y, x, n as nat));
        }
        match self.put_run(&places, cell) {
            Ok(()) => Ok(n),
            Err(e) => Err(e),
        }
    }

    /// Writes a copy of `cell` at every position.
    ///
    /// Fails with `CellEncodingError`, and changes nothing, when the
    /// cluster of `cell` is in the pool and the pool has no room for a copy
    /// for each position.
    pub fn fill(&mut self, cell: &NcCell) -> (r: NcResult<()>)
        requires
            old(self).wf(),
        ensures
            final(self).wf(),
            r is Ok <==> run_ok(old(self)@, *cell, old(self)@.cells.len()),
            r is Ok ==> final(self)@ == put_all(
                old(self)@,
                all_places(old(self)@),
                *cell,
                old(self)@.cells.len(),
            ),
            r matches Err(e) ==> e == NcError::CellEncodingError && final(self)@ == old(self)@,
    {
        let n: usize = self.grid.len();
        let mut places: Vec<usize> = Vec::new();
        let mut k: usize = 0;
        while k < n
            invariant
                k <= n,
                places@ == Seq::new(k as nat, |j: int| j as usize),
            decreases n - k,
        {
            places.push(k);
            proof {
                assert(places@ =~= Seq::new((k + 1) as nat, |j: int| j as usize));
            }
            k = k + 1;
        }
        proof {
            assert(places@ =~= all_places(self@));
        }
        self.put_run(&places, cell)
    }

    /// Empties every cell and releases every cluster that the cells held.
    /// The base cell stays.
    pub fn erase(&mut self)
        requires
            old(self).wf(),
        ensures
            final(self).wf(),
            final(self)@ == put_all(
                old(self)@,
                all_places(old(self)@),
                empty_cell(),
                old(self)@.cells.len(),
            ),
    {
        let blank: NcCell = NcCell::new();
        let r = self.fill(&blank);
        proof {
            assert(r is Ok);
        }
    }

    /// Draws a box: the four corner cells at the corners of the rectangle
    /// of `rows` by `cols` whose upper left corner is `(y, x)`, copies of
    /// `hl` along its upper and lower edge, and copies of `vl` along its
    /// left and right edge.
    ///
    /// Fails with `InvalidOperation` when the rectangle has fewer than two
    /// rows or columns or does not lie inside the plane, and with
    /// `CellEncodingError` when one of the six cells has its cluster in the
    /// pool and the pool has no room for one cluster for each cell of the
    /// box. Nothing changes then.
    pub fn draw_box(
        &mut self,
        y: u32,
        x: u32,
        rows: u32,
        cols: u32,
        ul: &NcCell,
        ur: &NcCell,
        ll: &NcCell,
        lr: &NcCell,
        hl: &NcCell,
        vl: &NcCell,
    ) -> (r: NcResult<()>)
        requires
            old(self).wf(),
        ensures
            final(self).wf(),
            r is Err ==> final(self)@ == old(self)@,
            !box_fits(old(self)@, y, x, rows, cols) ==> r == Err::<(), NcError>(
                NcError::InvalidOperation,
            ),
            box_fits(old(self)@, y, x, rows, cols) ==> {
                &&& r is Ok <==> box_ok(old(self)@, rows, cols, *ul, *ur, *ll, *lr, *hl, *vl)
                &&& r is Ok ==> final(self)@ == boxed(
                    old(self)@,
                    y,
                    x,
                    rows,
                    cols,
                    *ul,
                    *ur,
                    *ll,
                    *lr,
                    *hl,
                    *vl,
                )
                &&& r matches Err(e) ==> e == NcError::CellEncodingError
            },
    {
        if rows < 2 || cols < 2 || y >= self.rows || x >= self.cols || rows > self.rows - y
            || cols > self.cols - x {
            return Err(NcError::InvalidOperation);
        }
        proof {
            self.lemma_wf_view();
        }
        let any: bool = self.wants_slot(ul) || self.wants_slot(ur) || self.wants_slot(ll)
            || self.wants_slot(lr) || self.wants_slot(hl) || self.wants_slot(vl);
        let around: usize = 2 * (rows as usize - 2) + 2 * (cols as usize - 2) + 4;
        if any && around > self.pool_room() {
            return Err(NcError::CellEncodingError);
        }
        let ghost v0 = self@;
        let wide: u32 = cols - 2;
        let high: u32 = rows - 2;
        let ghost top_places = row_places(v0, y, (x + 1) as u32, wide as nat);
        let ghost bottom_places = row_places(v0, (y + rows - 1) as u32, (x + 1) as u32, wide as nat);
        let ghost left_places = column_places(v0, (y + 1) as u32, x, high as nat);
        let ghost right_places = column_places(
            v0,
            (y + 1) as u32,
            (x + cols - 1) as u32,
            high as nat,
        );
        proof {
            lemma_edges(v0, y, x, rows, cols);
            lemma_put_all(v0, top_places, *hl, wide as nat, *hl);
            lemma_put_all(v0, top_places, *hl, wide as nat, *vl);
            lemma_put_all(v0, top_places, *hl, wide as nat, *ul);
            lemma_put_all(v0, top_places, *hl, wide as nat, *ur);
            lemma_put_all(v0, top_places, *hl, wide as nat, *ll);
            lemma_put_all(v0, top_places, *hl, wide as nat, *lr);
        }
        match self.hline(y, x + 1, hl, wide) {
            Ok(_) => {},
            Err(e) => {
                return Err(e);
            },
        }
        let ghost v1 = self@;
        proof {
            lemma_put_all(v1, bottom_places, *hl, wide as nat, *hl);
            lemma_put_all(v1, bottom_places, *hl, wide as nat, *vl);
            lemma_put_all(v1, bottom_places, *hl, wide as nat, *ul);
            lemma_put_all(v1, bottom_places, *hl, wide as nat, *ur);
            lemma_put_all(v1, bottom_places, *hl, wide as nat, *ll);
            lemma_put_all(v1, bottom_places, *hl, wide as nat, *lr);
        }
        match self.hline(y + rows - 1, x + 1, hl, wide) {
            Ok(_) => {},
            Err(e) => {
                proof {
                    assert(false);
                }
                return Err(e);
            },
        }
        let ghost v2 = self@;
        proof {
            lemma_put_all(v2, left_places, *vl, high as nat, *vl);
            lemma_put_all(v2, left_places, *vl, high as nat, *ul);
            lemma_put_all(v2, left_places, *vl, high as nat, *ur);
            lemma_put_all(v2, left_places, *vl, high as nat, *ll);
            lemma_put_all(v2, left_places, *vl, high as nat, *lr);
        }
        match self.vline(y + 1, x, vl, high) {
            Ok(_) => {},
            Err(e) => {
                proof {
                    assert(false);
                }
                return Err(e);
            },
        }
        let ghost v3 = self@;
        proof {
            lemma_put_all(v3, right_places, *vl, high as nat, *ul);
            lemma_put_all(v3, right_places, *vl, high as nat, *ur);
            lemma_put_all(v3, right_places, *vl, high as nat, *ll);
            lemma_put_all(v3, right_places, *vl, high as nat, *lr);
        }
        match self.vline(y + 1, x + cols - 1, vl, high) {
            Ok(_) => {},
            Err(e) => {
                proof {
                    assert(false);
                }
                return Err(e);
            },
        }
        let ghost v4 = self@;
        proof {
            let i = index_of(v0, y, x);
            lemma_corner(v4, i, *ul);
            lemma_put_at(v4, i, *ul, *ur);
            lemma_put_at(v4, i, *ul, *ll);
            lemma_put_at(v4, i, *ul, *lr);
        }
        match self.put_cell(y, x, ul) {
            Ok(()) => {},
            Err(e) => {
                proof {
                    assert(false);
                }
                return Err(e);
            },
        }
        let ghost v5 = self@;
        proof {
            let i = index_of(v0, y, (x + cols - 1) as u32);
            lemma_corner(v5, i, *ur);
            lemma_put_at(v5, i, *ur, *ll);
            lemma_put_at(v5, i, *ur, *lr);
        }
        match self.put_cell(y, x + cols - 1, ur) {
            Ok(()) => {},
            Err(e) => {
                proof {
                    assert(false);
                }
                return Err(e);
            },
        }
        let ghost v6 = self@;
        proof {
            let i = index_of(v0, (y + rows - 1) as u32, x);
            lemma_corner(v6, i, *ll);
            lemma_put_at(v6, i, *ll, *lr);
        }
        match self.put_cell(y + rows - 1, x, ll) {
            Ok(()) => {},
            Err(e) => {
                proof {
                    assert(false);
                }
                return Err(e);
            },
        }
        let ghost v7 = self@;
        proof {
            let i = index_of(v0, (y + rows - 1) as u32, (x + cols - 1) as u32);
            lemma_corner(v7, i, *lr);
        }
        match self.put_cell(y + rows - 1, x + cols - 1, lr) {
            Ok(()) => {},
            Err(e) => {
                proof {
                    assert(false);
                }
                return Err(e);
            },
        }
        Ok(())
    }

    /// Whether a copy of `cell` would need a slot of the pool.
    pub fn wants_slot(&self, cell: &NcCell) -> (b: bool)
        ensures
            b == needs_slot(self@.pool, *cell),
    {
        cell.gcluster >= NCCELL_POOL_FLAG && cell.gcluster < 2 * NCCELL_POOL_FLAG
            && !cell.strdup(self).as_str().is_empty()
    }
}

/// Whether the rectangle of `rows` by `cols` at `(y, x)` can take a box:
/// it has two rows and two columns at least, and lies inside the plane.
pub open spec fn box_fits(v: NcPlaneView, y: u32, x: u32, rows: u32, cols: u32) -> bool {
    rows >= 2 && cols >= 2 && y + rows <= v.rows && x + cols <= v.cols
}

/// Whether the pool can take a box of `rows` by `cols`: none of the six
/// cells needs a slot, or the pool has room for one cluster for each cell
/// of the box.
pub open spec fn box_ok(
    v: NcPlaneView,
    rows: u32,
    cols: u32,
    ul: NcCell,
    ur: NcCell,
    ll: NcCell,
    lr: NcCell,
    hl: NcCell,
    vl: NcCell,
) -> bool {
    (!needs_slot(v.pool, ul) && !needs_slot(v.pool, ur) && !needs_slot(v.pool, ll)
        && !needs_slot(v.pool, lr) && !needs_slot(v.pool, hl) && !needs_slot(v.pool, vl)) || 2
        * rows + 2 * cols - 4 <= room(v.pool)
}

/// The plane after a box was drawn: first the upper and the lower edge,
/// then the left and the right edge, then the corners from the upper left
/// to the lower right.
pub open spec fn boxed(
    v: NcPlaneView,
    y: u32,
    x: u32,
    rows: u32,
    cols: u32,
    ul: NcCell,
    ur: NcCell,
    ll: NcCell,
    lr: NcCell,
    hl: NcCell,
    vl: NcCell,
) -> NcPlaneView {
    let wide = (cols - 2) as nat;
    let high = (rows - 2) as nat;
    let last_y = (y + rows - 1) as u32;
    let last_x = (x + cols - 1) as u32;
    let top = put_all(v, row_places(v, y, (x + 1) as u32, wide), hl, wide);
    let bottom = put_all(top, row_places(v, last_y, (x + 1) as u32, wide), hl, wide);
    let left = put_all(bottom, column_places(v, (y + 1) as u32, x, high), vl, high);
    let right = put_all(left, column_places(v, (y + 1) as u32, last_x, high), vl, high);
    put_at(
        put_at(
            put_at(put_at(right, index_of(v, y, x), ul), index_of(v, y, last_x), ur),
            index_of(v, last_y, x),
            ll,
        ),
        index_of(v, last_y, last_x),
        lr,
    )
}

/// The edges and corners of a box that fits lie inside the plane.
pub proof fn lemma_edges(v: NcPlaneView, y: u32, x: u32, rows: u32, cols: u32)
    requires
        box_fits(v, y, x, rows, cols),
        v.cells.len() == v.rows * v.cols,
        v.rows <= crate::plane::NCPLANE_MAX_CELLS,
        v.cols <= crate::plane::NCPLANE_MAX_CELLS,
        v.rows * v.cols <= crate::plane::NCPLANE_MAX_CELLS,
    ensures
        forall|k: int|
            0 <= k < cols - 2 ==> (#[trigger] row_places(v, y, (x + 1) as u32, (cols - 2) as nat)[k])
                < v.cells.len(),
        forall|k: int|
            0 <= k < cols - 2 ==> (#[trigger] row_places(
                v,
                (y + rows - 1) as u32,
                (x + 1) as u32,
                (cols - 2) as nat,
            )[k]) < v.cells.len(),
        forall|k: int|
            0 <= k < rows - 2 ==> (#[trigger] column_places(
                v,
                (y + 1) as u32,
                x,
                (rows - 2) as nat,
            )[k]) < v.cells.len(),
        forall|k: int|
            0 <= k < rows - 2 ==> (#[trigger] column_places(
                v,
                (y + 1) as u32,
                (x + cols - 1) as u32,
                (rows - 2) as nat,
            )[k]) < v.cells.len(),
        0 <= index_of(v, y, x) < v.cells.len(),
        0 <= index_of(v, y, (x + cols - 1) as u32) < v.cells.len(),
        0 <= index_of(v, (y + rows - 1) as u32, x) < v.cells.len(),
        0 <= index_of(v, (y + rows - 1) as u32, (x + cols - 1) as u32) < v.cells.len(),
{
    let r: int = v.rows as int;
    let c: int = v.cols as int;
    assert forall|a: int, b: int| 0 <= a < r && 0 <= b < c implies 0 <= #[trigger] (a * c + b) < r
        * c by {
        assert(0 <= a * c + b < r * c) by (nonlinear_arith)
            requires
                0 <= a < r,
                0 <= b < c,
        ;
    }
    assert forall|k: int| 0 <= k < cols - 2 implies (#[trigger] row_places(
        v,
        y,
        (x + 1) as u32,
        (cols - 2) as nat,
    )[k]) < v.cells.len() by {
        let a: int = y as int;
        let b: int = x + 1 + k;
        assert(0 <= a * c + b < r * c);
    }
    assert forall|k: int| 0 <= k < cols - 2 implies (#[trigger] row_places(
        v,
        (y + rows - 1) as u32,
        (x + 1) as u32,
        (cols - 2) as nat,
    )[k]) < v.cells.len() by {
        let a: int = y + rows - 1;
        let b: int = x + 1 + k;
        assert(0 <= a * c + b < r * c);
    }
    assert forall|k: int| 0 <= k < rows - 2 implies (#[trigger] column_places(
        v,
        (y + 1) as u32,
        x,
        (rows - 2) as nat,
    )[k]) < v.cells.len() by {
        let a: int = y + 1 + k;
        let b: int = x as int;
        assert(0 <= a * c + b < r * c);
        assert((y + 1) * c + x + k * c == a * c + b) by (nonlinear_arith)
            requires
                a == y + 1 + k,
                b == x,
        ;
    }
    assert forall|k: int| 0 <= k < rows - 2 implies (#[trigger] column_places(
        v,
        (y + 1) as u32,
        (x + cols - 1) as u32,
        (rows - 2) as nat,
    )[k]) < v.cells.len() by {
        let a: int = y + 1 + k;
        let b: int = x + cols - 1;
        assert(0 <= a * c + b < r * c);
        assert((y + 1) * c + (x + cols - 1) + k * c == a * c + b) by (nonlinear_arith)
            requires
                a == y + 1 + k,
                b == x + cols - 1,
        ;
    }
    assert(0 <= (y as int) * c + (x as int) < r * c);
    assert(0 <= (y as int) * c + (x + cols - 1) < r * c);
    assert(0 <= (y + rows - 1) * c + (x as int) < r * c);
    assert(0 <= (y + rows - 1) * c + (x + cols - 1) < r * c);
}

/// A cell can be written where the pool has room for it.
pub proof fn lemma_corner(v: NcPlaneView, i: int, cell: NcCell)
    requires
        0 <= i < v.cells.len(),
        v.pool.len() <= NCPLANE_POOL_SLOTS,
        !needs_slot(v.pool, cell) || room(v.pool) >= 1,
    ensures
        put_ok(v.pool, v.cells[i], cell),
{
    lemma_room_released(v.pool, v.cells[i]);
    if needs_slot(v.pool, cell) {
        lemma_room_first_free(pool_released(v.pool, v.cells[i]));
    }
}

} // verus!
