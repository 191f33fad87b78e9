//! Changing the size of a plane.

use vstd::prelude::*;
use crate::cell::{empty_cell, pool_released, NcCell};
use crate::error::{NcError, NcResult};
use crate::plane::options::{clamp_i32, place};
use crate::plane::{plane_size_ok, NcPlane, NcPlaneView, NCPLANE_MAX_CELLS};

verus! {

/// The cells of a plane that was given the size `rows` by `cols`: a cell
/// that the old size had keeps its place, counted from the upper left
/// corner, and every other cell is empty.
pub open spec fn resized_cells(v: NcPlaneView, rows: nat, cols: nat) -> Seq<NcCell> {
    Seq::new(
        rows * cols,
        |i: int|
            if i / (cols as int) < v.rows && i % (cols as int) < v.cols {
                v.cells[(i / (cols as int)) * v.cols + i % (cols as int)]
            } else {
                empty_cell()
            },
    )
}

/// The pool after the clusters were released of those among the first `n`
/// cells that the size `rows` by `cols` has no place for.
pub open spec fn pool_cut(
    pool: Seq<Seq<char>>,
    cells: Seq<NcCell>,
    old_cols: nat,
    rows: nat,
    cols: nat,
    n: nat,
) -> Seq<Seq<char>>
    decreases n,
{
    if n == 0 {
        pool
    } else {
        let before = pool_cut(pool, cells, old_cols, rows, cols, (n - 1) as nat);
        if (n - 1) / (old_cols as int) < rows && (n - 1) % (old_cols as int) < cols {
            before
        } else {
            pool_released(before, cells[n - 1])
        }
    }
}

/// The plane with the size `rows` by `cols`.
pub open spec fn resized(v: NcPlaneView, rows: nat, cols: nat) -> NcPlaneView {
    NcPlaneView {
        rows,
        cols,
        cells: resized_cells(v, rows, cols),
        pool: pool_cut(v.pool, v.cells, v.cols, rows, cols, v.cells.len()),
        ..v
    }
}

/// A plane that was moved by `dy` rows and `dx` columns, as far as
/// coordinates go.
pub open spec fn shifted(v: NcPlaneView, dy: int, dx: int) -> NcPlaneView {
    NcPlaneView { y: clamp_i32(v.y + dy) as int, x: clamp_i32(v.x + dx) as int, ..v }
}

impl NcPlane {
    /// Moves the plane by `dy` rows and `dx` columns, as far as coordinates
    /// go.
    pub fn shift(&mut self, dy: i64, dx: i64)
        requires
            old(self).wf(),
            -0x1_0000_0000 <= dy <= 0x1_0000_0000,
            -0x1_0000_0000 <= dx <= 0x1_0000_0000,
        ensures
            final(self).wf(),
            final(self)@ == shifted(old(self)@, dy as int, dx as int),
    {
        self.absy = place(self.absy, dy);
        self.absx = place(self.absx, dx);
    }

    /// Gives the plane the size `rows` by `cols`. The upper left corner
    /// stays where it is; what the new size has no place for is dropped,
    /// and its clusters are released; what the new size adds is empty.
    ///
    /// Fails with `AllocationError`, and changes nothing, when a dimension
    /// is zero or the plane would have more than `NCPLANE_MAX_CELLS` cells.
    pub fn resize(&mut self, rows: u32, cols: u32) -> (r: NcResult<()>)
        requires
            old(self).wf(),
        ensures
            final(self).wf(),
            r is Ok <==> plane_size_ok(rows, cols),
            r is Ok ==> final(self)@ == resized(old(self)@, rows as nat, cols as nat),
            r matches Err(e) ==> e == NcError::AllocationError && final(self)@ == old(self)@,
    {
        if rows == 0 || cols == 0 {
            return Err(NcError::AllocationError);
        }
        assert(rows * cols <= 0xffff_ffff * 0xffff_ffff) by (nonlinear_arith)
            requires
                0 <= rows <= 0xffff_ffff,
                0 <= cols <= 0xffff_ffff,
        ;
        if rows as u64 * cols as u64 > NCPLANE_MAX_CELLS as u64 {
            return Err(NcError::AllocationError);
        }
        proof {
            self.lemma_wf_view();
        }
        let ghost v0 = self@;
        let old_rows: u32 = self.rows;
        let old_cols: u32 = self.cols;
        let old_len: usize = self.grid.len();
        let mut i: usize = 0;
        while i < old_len
            invariant
                i <= old_len,
                self.wf(),
                old_len == v0.cells.len(),
                old_cols == v0.cols,
                old_cols > 0,
                self@ == (NcPlaneView { pool: self@.pool, ..v0 }),
                self@.pool == pool_cut(
                    v0.pool,
                    v0.cells,
                    v0.cols,
                    rows as nat,
                    cols as nat,
                    i as nat,
                ),
            decreases old_len - i,
        {
            let y: usize = i / old_cols as usize;
            let x: usize = i % old_cols as usize;
            if !(y < rows as usize && x < cols as usize) {
                let mut cell: NcCell = self.grid[i];
                cell.release(self);
            }
            i = i + 1;
        }
        let total: usize = (rows as u64 * cols as u64) as usize;
        let mut grid: Vec<NcCell> = Vec::new();
        let mut k: usize = 0;
        while k < total
            invariant
                k <= total,
                total == rows * cols,
                cols > 0,
                grid.len() == k,
                self.wf(),
                self@.cells == v0.cells,
                old_rows == v0.rows,
                old_cols == v0.cols,
                v0.cells.len() == v0.rows * v0.cols,
                forall|j: int|
                    0 <= j < k ==> (#[trigger] grid[j]) == resized_cells(
                        v0,
                        rows as nat,
                        cols as nat,
                    )[j],
            decreases total - k,
        {
            let y: usize = k / cols as usize;
            let x: usize = k % cols as usize;
            if y < old_rows as usize && x < old_cols as usize {
                proof {
                    assert(y * old_cols + x < old_rows * old_cols) by (nonlinear_arith)
                        requires
                            0 <= y < old_rows,
                            0 <= x < old_cols,
                    ;
                }
                grid.push(self.grid[y * old_cols as usize + x]);
            } else {
                grid.push(NcCell::new());
            }
            k = k + 1;
        }
        self.grid = grid;
        self.rows = rows;
        self.cols = cols;
        proof {
            assert(self@.cells =~= resized_cells(v0, rows as nat, cols as nat));
        }
        Ok(())
    }
}

} // verus!
