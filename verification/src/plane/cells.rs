//! Reading and writing the cells of a plane.

use vstd::prelude::*;
use crate::cell::{
    cell_cleared, cell_egc, cell_extended, cell_slot, pool_released, NcCell, NCCELL_POOL_FLAG,
};
use crate::error::{NcError, NcResult};
use crate::plane::{
    first_free, first_free_from, lemma_first_free, pool_with, NcPlane, NcPlaneView,
    NCPLANE_POOL_SLOTS,
};

verus! {

/// Whether `(y, x)` is a position of a plane.
pub open spec fn inside(v: NcPlaneView, y: u32, x: u32) -> bool {
    y < v.rows && x < v.cols
}

/// The place of the cell at `(y, x)` among the cells of a plane.
pub open spec fn index_of(v: NcPlaneView, y: u32, x: u32) -> int {
    y * v.cols + x
}

/// Whether a cell has a cluster in the pool that a copy of the cell would
/// need a slot for.
pub open spec fn needs_slot(pool: Seq<Seq<char>>, cell: NcCell) -> bool {
    cell_extended(cell) && cell_egc(pool, cell).len() > 0
}

/// Whether `cell` can be written over the cell `target`: it needs no slot
/// of the pool, or the pool has room once the cluster of `target` is gone.
pub open spec fn put_ok(pool: Seq<Seq<char>>, target: NcCell, cell: NcCell) -> bool {
    !needs_slot(pool, cell) || first_free(pool_released(pool, target)) < NCPLANE_POOL_SLOTS
}

/// The cell that stands in a plane after `cell` was written over
/// `target`: a copy of `cell` whose cluster, if it is in the pool, has a
/// slot of its own.
pub open spec fn put_cell_of(pool: Seq<Seq<char>>, target: NcCell, cell: NcCell) -> NcCell {
    if needs_slot(pool, cell) {
        NcCell {
            gcluster: (NCCELL_POOL_FLAG + first_free(pool_released(pool, target))) as u32,
            ..cell
        }
    } else if cell_extended(cell) {
        cell_cleared(cell)
    } else {
        cell
    }
}

/// The pool after `cell` was written over `target`.
pub open spec fn put_pool_of(pool: Seq<Seq<char>>, target: NcCell, cell: NcCell) -> Seq<
    Seq<char>,
> {
    let freed = pool_released(pool, target);
    if needs_slot(pool, cell) {
        pool_with(freed, first_free(freed), cell_egc(pool, cell))
    } else {
        freed
    }
}

/// The plane after `cell` was written at place `i`, where that can be
/// done.
pub open spec fn put_at(v: NcPlaneView, i: int, cell: NcCell) -> NcPlaneView {
    NcPlaneView {
        cells: v.cells.update(i, put_cell_of(v.pool, v.cells[i], cell)),
        pool: put_pool_of(v.pool, v.cells[i], cell),
        ..v
    }
}

/// A cell that was written shows what the cell it was written from showed.
pub proof fn lemma_put_shows(pool: Seq<Seq<char>>, target: NcCell, cell: NcCell)
    requires
        put_ok(pool, target, cell),
        pool.len() <= NCPLANE_POOL_SLOTS,
    ensures
        cell_egc(put_pool_of(pool, target, cell), put_cell_of(pool, target, cell)) == cell_egc(
            pool,
            cell,
        ),
        put_cell_of(pool, target, cell).stylemask == cell.stylemask,
        put_cell_of(pool, target, cell).channels == cell.channels,
{
    let freed = pool_released(pool, target);
    lemma_first_free(freed, 0);
    if !needs_slot(pool, cell) && cell_extended(cell) {
        assert(cell_egc(pool, cell) =~= Seq::<char>::empty());
    }
}

impl NcPlane {
    /// Whether the plane has a position `(y, x)`.
    pub fn has_yx(&self, y: u32, x: u32) -> (b: bool)
        ensures
            b == inside(self@, y, x),
    {
        y < self.rows && x < self.cols
    }

    /// The place of `(y, x)` among the cells.
    pub(crate) fn offset(&self, y: u32, x: u32) -> (i: usize)
        requires
            self.wf(),
            inside(self@, y, x),
        ensures
            i == index_of(self@, y, x),
            i < self@.cells.len(),
    {
        proof {
            self.lemma_wf_view();
            assert(y * self.cols + x < self.rows * self.cols) by (nonlinear_arith)
                requires
                    0 <= y < self.rows,
                    0 <= x < self.cols,
            ;
        }
        (y as u64 * self.cols as u64 + x as u64) as usize
    }

    /// The cell at `(y, x)`, as it is kept: a cluster of more than one
    /// scalar stays in the pool of the plane, and the cell that is handed
    /// out names its slot without owning it.
    ///
    /// Fails with `InvalidOperation` when the plane has no such position.
    pub fn cell_at(&self, y: u32, x: u32) -> (r: NcResult<NcCell>)
        requires
            self.wf(),
        ensures
            r is Ok <==> inside(self@, y, x),
            r matches Ok(c) ==> c == self@.cells[index_of(self@, y, x)],
            r matches Err(e) ==> e == NcError::InvalidOperation,
    {
        if !self.has_yx(y, x) {
            return Err(NcError::InvalidOperation);
        }
        let i: usize = self.offset(y, x);
        Ok(self.grid[i])
    }

    /// The cluster that the cell at `(y, x)` shows.
    ///
    /// Fails with `InvalidOperation` when the plane has no such position.
    pub fn egc_at(&self, y: u32, x: u32) -> (r: NcResult<String>)
        requires
            self.wf(),
        ensures
            r is Ok <==> inside(self@, y, x),
            r matches Ok(s) ==> s@ == cell_egc(self@.pool, self@.cells[index_of(self@, y, x)]),
            r matches Err(e) ==> e == NcError::InvalidOperation,
    {
        if !self.has_yx(y, x) {
            return Err(NcError::InvalidOperation);
        }
        let i: usize = self.offset(y, x);
        let cell: NcCell = self.grid[i];
        Ok(cell.strdup(self))
    }

    /// The first free slot of the pool, or the number of slots when none is
    /// free.
    pub(crate) fn pool_first_free(&self) -> (slot: usize)
        ensures
            slot == first_free(self@.pool),
    {
        let mut i: usize = 0;
        while i < self.pool.len() && !self.pool[i].as_str().is_empty()
            invariant
                i <= self.pool.len(),
                first_free(self@.pool) == first_free_from(self@.pool, i as nat),
            decreases self.pool.len() - i,
        {
            i = i + 1;
        }
        i
    }

    /// Releases the cluster of `target`, a cell of this plane, and makes a
    /// copy of `cell` to stand in its place.
    pub(crate) fn stow(&mut self, target: NcCell, cell: &NcCell) -> (r: NcResult<NcCell>)
        requires
            old(self).wf(),
        ensures
            final(self).wf(),
            r is Ok <==> put_ok(old(self)@.pool, target, *cell),
            r matches Ok(c) ==> c == put_cell_of(old(self)@.pool, target, *cell) && final(self)@
                == (NcPlaneView {
                pool: put_pool_of(old(self)@.pool, target, *cell),
                ..old(self)@
            }),
            r matches Err(e) ==> e == NcError::CellEncodingError && final(self)@ == old(self)@,
    {
        let extended: bool = cell.gcluster >= NCCELL_POOL_FLAG && cell.gcluster < 2
            * NCCELL_POOL_FLAG;
        let cluster: String = cell.strdup(self);
        let needs: bool = extended && !cluster.as_str().is_empty();
        let target_slot: bool = target.gcluster >= NCCELL_POOL_FLAG && target.gcluster < 2
            * NCCELL_POOL_FLAG && ((target.gcluster - NCCELL_POOL_FLAG) as usize)
            < self.pool.len();
        proof {
            self.lemma_wf_view();
            let freed = pool_released(self@.pool, target);
            lemma_first_free(freed, 0);
            lemma_first_free(self@.pool, 0);
            if !target_slot {
                assert(freed == self@.pool);
            } else {
                let slot = cell_slot(target);
                assert(freed[slot].len() == 0);
                if first_free(freed) > slot {
                    assert(freed[slot].len() > 0);
                }
            }
        }
        if needs && !target_slot && self.pool_first_free() >= NCPLANE_POOL_SLOTS {
            return Err(NcError::CellEncodingError);
        }
        let mut released: NcCell = target;
        released.release(self);
        let stored: NcCell = if needs {
            match self.pool_stash(cluster.as_str()) {
                Some(slot) => NcCell { gcluster: NCCELL_POOL_FLAG + slot as u32, ..*cell },
                None => *cell,
            }
        } else if extended {
            NcCell { gcluster: 0, width: 0, ..*cell }
        } else {
            *cell
        };
        Ok(stored)
    }

    /// Writes a copy of `cell` at place `i`.
    pub(crate) fn put_index(&mut self, i: usize, cell: &NcCell) -> (r: NcResult<()>)
        requires
            old(self).wf(),
            i < old(self)@.cells.len(),
        ensures
            final(self).wf(),
            r is Ok <==> put_ok(old(self)@.pool, old(self)@.cells[i as int], *cell),
            r is Ok ==> final(self)@ == put_at(old(self)@, i as int, *cell),
            r matches Err(e) ==> e == NcError::CellEncodingError && final(self)@ == old(self)@,
    {
        let target: NcCell = self.grid[i];
        let stored: NcCell = match self.stow(target, cell) {
            Ok(c) => c,
            Err(e) => {
                return Err(e);
            },
        };
        self.grid.set(i, stored);
        proof {
            let want = put_at(old(self)@, i as int, *cell);
            assert(self@.cells =~= want.cells);
        }
        Ok(())
    }

    /// Writes a copy of `cell` at `(y, x)`. The cluster that stood there is
    /// released; a cluster of `cell` that is in the pool gets a slot of its
    /// own.
    ///
    /// Fails with `InvalidOperation` when the plane has no such position,
    /// and with `CellEncodingError` when the cluster needs a slot and the
    /// pool is full. Nothing changes then.
    pub fn put_cell(&mut self, y: u32, x: u32, cell: &NcCell) -> (r: NcResult<()>)
        requires
            old(self).wf(),
        ensures
            final(self).wf(),
            !inside(old(self)@, y, x) ==> r == Err::<(), NcError>(NcError::InvalidOperation),
            inside(old(self)@, y, x) ==> (r is Ok <==> put_ok(
                old(self)@.pool,
                old(self)@.cells[index_of(old(self)@, y, x)],
                *cell,
            )),
            inside(old(self)@, y, x) && r is Err ==> r == Err::<(), NcError>(
                NcError::CellEncodingError,
            ),
            r is Ok ==> final(self)@ == put_at(old(self)@, index_of(old(self)@, y, x), *cell),
            r is Ok ==> cell_egc(
                final(self)@.pool,
                final(self)@.cells[index_of(old(self)@, y, x)],
            ) == cell_egc(old(self)@.pool, *cell),
            r is Err ==> final(self)@ == old(self)@,
    {
        if !self.has_yx(y, x) {
            return Err(NcError::InvalidOperation);
        }
        let i: usize = self.offset(y, x);
        proof {
            self.lemma_wf_view();
            if put_ok(self@.pool, self@.cells[i as int], *cell) {
                lemma_put_shows(self@.pool, self@.cells[i as int], *cell);
            }
        }
        self.put_index(i, cell)
    }
}

} // verus!
