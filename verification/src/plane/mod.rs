//! Planes.
//!
//! A plane is a rectangle of cells at a position on screen, with a pool
//! for the grapheme clusters that do not fit into a cell. This module
//! holds what a plane is by itself; how planes are bound to each other and
//! stacked is the business of the pile.

pub mod attrs;
pub mod builder;
pub mod cells;
pub mod draw;
pub mod options;
pub mod resize;
pub mod room;
pub mod shown;

pub use builder::NcPlaneOptionsBuilder;
pub use options::{NcPlaneFlags, NcPlaneOptions};

use vstd::prelude::*;
use crate::cell::{empty_cell, NcCell};
use crate::error::{NcError, NcResult};
use crate::resizecb::NcResizeCb;

verus! {

/// The most cells that one plane may have.
pub const NCPLANE_MAX_CELLS: usize = 0x0100_0000;

/// The most slots that the pool of one plane may have.
pub const NCPLANE_POOL_SLOTS: usize = 0x0100_0000;

/// A rectangle of cells.
pub struct NcPlane {
    absy: i32,
    absx: i32,
    rows: u32,
    cols: u32,
    grid: Vec<NcCell>,
    pool: Vec<String>,
    base: NcCell,
    channels: u64,
    stylemask: u16,
    flags: u64,
    userptr: Option<u64>,
    name: Option<String>,
    resizecb: Option<NcResizeCb>,
}

/// What a plane is, as plain values.
pub struct NcPlaneView {
    /// The row of the screen at which the plane's first row stands.
    pub y: int,
    /// The column of the screen at which the plane's first column stands.
    pub x: int,
    /// The number of rows.
    pub rows: nat,
    /// The number of columns.
    pub cols: nat,
    /// The cells, row after row.
    pub cells: Seq<NcCell>,
    /// The pool: one cluster per slot, an empty one where the slot is free.
    pub pool: Seq<Seq<char>>,
    /// The cell that is shown where a cell of the plane is empty.
    pub base: NcCell,
    /// The channels that new output takes.
    pub channels: u64,
    /// The styles that new output takes.
    pub stylemask: u16,
    /// The option bits that the plane was created with.
    pub flags: u64,
    /// The caller's value.
    pub userptr: Option<u64>,
    /// The name.
    pub name: Option<Seq<char>>,
    /// The resize callback.
    pub resizecb: Option<NcResizeCb>,
}

/// The first free slot of a pool at or behind `from`: the pool's length
/// where there is none.
pub open spec fn first_free_from(pool: Seq<Seq<char>>, from: nat) -> nat
    decreases pool.len() - from,
{
    if from >= pool.len() {
        pool.len()
    } else if pool[from as int].len() == 0 {
        from
    } else {
        first_free_from(pool, from + 1)
    }
}

/// The slot that the next cluster goes to: the first free one, or a new
/// one behind the last.
pub open spec fn first_free(pool: Seq<Seq<char>>) -> nat {
    first_free_from(pool, 0)
}

/// A pool with `cluster` in `slot`, where `slot` is at most the pool's
/// length.
pub open spec fn pool_with(pool: Seq<Seq<char>>, slot: nat, cluster: Seq<char>) -> Seq<Seq<char>> {
    if slot < pool.len() {
        pool.update(slot as int, cluster)
    } else {
        pool.push(cluster)
    }
}

/// Whether a plane of `rows` by `cols` can be made.
pub open spec fn plane_size_ok(rows: u32, cols: u32) -> bool {
    rows > 0 && cols > 0 && rows * cols <= NCPLANE_MAX_CELLS
}

/// The first free slot is free, or lies just behind the pool, and every
/// slot before it is taken.
pub proof fn lemma_first_free(pool: Seq<Seq<char>>, from: nat)
    requires
        from <= pool.len(),
    ensures
        from <= first_free_from(pool, from) <= pool.len(),
        first_free_from(pool, from) < pool.len() ==> pool[first_free_from(pool, from) as int].len()
            == 0,
        forall|i: int| from <= i < first_free_from(pool, from) ==> (#[trigger] pool[i]).len() > 0,
    decreases pool.len() - from,
{
    if from < pool.len() && pool[from as int].len() != 0 {
        lemma_first_free(pool, from + 1);
    }
}

impl View for NcPlane {
    type V = NcPlaneView;

    closed spec fn view(&self) -> NcPlaneView {
        NcPlaneView {
            y: self.absy as int,
            x: self.absx as int,
            rows: self.rows as nat,
            cols: self.cols as nat,
            cells: self.grid@,
            pool: Seq::new(self.pool.len() as nat, |i: int| self.pool[i]@),
            base: self.base,
            channels: self.channels,
            stylemask: self.stylemask,
            flags: self.flags,
            userptr: self.userptr,
            name: match self.name {
                Some(n) => Some(n@),
                None => None,
            },
            resizecb: self.resizecb,
        }
    }
}

impl NcPlane {
    /// What holds of every plane: it has at least one cell and no more
    /// than `NCPLANE_MAX_CELLS`, one for each position, and its pool has
    /// no more than `NCPLANE_POOL_SLOTS` slots.
    pub closed spec fn wf(&self) -> bool {
        &&& plane_size_ok(self.rows, self.cols)
        &&& self.grid.len() == self.rows * self.cols
        &&& self.pool.len() <= NCPLANE_POOL_SLOTS
    }

    /// What well-formedness means in terms of the view.
    pub proof fn lemma_wf_view(&self)
        requires
            self.wf(),
        ensures
            self@.rows > 0,
            self@.cols > 0,
            self@.rows * self@.cols <= NCPLANE_MAX_CELLS,
            self@.rows <= NCPLANE_MAX_CELLS,
            self@.cols <= NCPLANE_MAX_CELLS,
            self@.cells.len() == self@.rows * self@.cols,
            self@.pool.len() <= NCPLANE_POOL_SLOTS,
            i32::MIN <= self@.y <= i32::MAX,
            i32::MIN <= self@.x <= i32::MAX,
    {
        let r: int = self.rows as int;
        let c: int = self.cols as int;
        assert(r <= r * c && c <= r * c) by (nonlinear_arith)
            requires
                r >= 1,
                c >= 1,
        ;
    }

    /// A plane of empty cells at a position on screen.
    ///
    /// Fails with `AllocationError` when a dimension is zero or the plane
    /// would have more than `NCPLANE_MAX_CELLS` cells.
    pub(crate) fn create(options: &NcPlaneOptions, absy: i32, absx: i32) -> (r: NcResult<NcPlane>)
        ensures
            r is Ok <==> plane_size_ok(options.rows, options.cols),
            r matches Err(e) ==> e == NcError::AllocationError,
            r matches Ok(p) ==> p.wf() && p@ == Self::created(*options, absy, absx),
    {
        if options.rows == 0 || options.cols == 0 {
            return Err(NcError::AllocationError);
        }
        assert(options.rows * options.cols <= 0xffff_ffff * 0xffff_ffff) by (nonlinear_arith)
            requires
                0 <= options.rows <= 0xffff_ffff,
                0 <= options.cols <= 0xffff_ffff,
        ;
        let total: u64 = options.rows as u64 * options.cols as u64;
        if total > NCPLANE_MAX_CELLS as u64 {
            return Err(NcError::AllocationError);
        }
        let count: usize = total as usize;
        let mut grid: Vec<NcCell> = Vec::new();
        let mut i: usize = 0;
        while i < count
            invariant
                i <= count,
                grid.len() == i,
                forall|k: int| 0 <= k < i ==> grid[k] == empty_cell(),
            decreases count - i,
        {
            grid.push(NcCell::new());
            i = i + 1;
        }
        let name: Option<String> = match &options.name {
            Some(n) => Some(n.clone()),
            None => None,
        };
        let plane = NcPlane {
            absy,
            absx,
            rows: options.rows,
            cols: options.cols,
            grid,
            pool: Vec::new(),
            base: NcCell::new(),
            channels: 0,
            stylemask: 0,
            flags: options.flags,
            userptr: options.userptr,
            name,
            resizecb: options.resizecb,
        };
        proof {
            assert(plane@.cells =~= Seq::new(
                (options.rows * options.cols) as nat,
                |i: int| empty_cell(),
            ));
            assert(plane@.pool =~= Seq::empty());
        }
        Ok(plane)
    }

    /// The view of a plane that was just created.
    pub open spec fn created(options: NcPlaneOptions, absy: i32, absx: i32) -> NcPlaneView {
        NcPlaneView {
            y: absy as int,
            x: absx as int,
            rows: options.rows as nat,
            cols: options.cols as nat,
            cells: Seq::new((options.rows * options.cols) as nat, |i: int| empty_cell()),
            pool: Seq::empty(),
            base: empty_cell(),
            channels: 0,
            stylemask: 0,
            flags: options.flags,
            userptr: options.userptr,
            name: match options.name {
                Some(n) => Some(n@),
                None => None,
            },
            resizecb: options.resizecb,
        }
    }

    /// The number of rows.
    pub fn rows(&self) -> (r: u32)
        ensures
            r == self@.rows,
    {
        self.rows
    }

    /// The number of columns.
    pub fn cols(&self) -> (c: u32)
        ensures
            c == self@.cols,
    {
        self.cols
    }

    /// The position on screen of the plane's first cell: row, then column.
    pub fn abs_yx(&self) -> (p: (i32, i32))
        ensures
            p.0 == self@.y,
            p.1 == self@.x,
    {
        (self.absy, self.absx)
    }

    /// The number of pool slots in use or free.
    pub fn pool_slots(&self) -> (n: usize)
        ensures
            n == self@.pool.len(),
    {
        self.pool.len()
    }

    /// The number of pool slots that hold a cluster.
    pub fn pool_used(&self) -> (n: usize)
        ensures
            n == self@.pool.filter(|c: Seq<char>| c.len() > 0).len(),
    {
        let mut used: usize = 0;
        let mut i: usize = 0;
        let ghost taken = |c: Seq<char>| c.len() > 0;
        while i < self.pool.len()
            invariant
                i <= self.pool.len(),
                used <= i,
                taken == |c: Seq<char>| c.len() > 0,
                used == self@.pool.take(i as int).filter(taken).len(),
            decreases self.pool.len() - i,
        {
            proof {
                let before = self@.pool.take(i as int);
                let next = self@.pool.take(i + 1);
                assert(next.drop_last() =~= before);
                assert(next.last() == self.pool[i as int]@);
                reveal(Seq::filter);
            }
            if !self.pool[i].as_str().is_empty() {
                used = used + 1;
            }
            i = i + 1;
        }
        proof {
            assert(self@.pool.take(i as int) =~= self@.pool);
        }
        used
    }

    /// Puts a cluster into the first free slot of the pool, or into a new
    /// slot. Gives the slot, or nothing when the pool is full.
    pub(crate) fn pool_stash(&mut self, cluster: &str) -> (slot: Option<usize>)
        requires
            old(self).wf(),
            cluster@.len() > 0,
        ensures
            final(self).wf(),
            slot is Some <==> first_free(old(self)@.pool) < NCPLANE_POOL_SLOTS,
            slot matches Some(s) ==> s == first_free(old(self)@.pool) && final(self)@ == (
            NcPlaneView { pool: pool_with(old(self)@.pool, s as nat, cluster@), ..old(self)@ }),
            slot is None ==> final(self)@ == old(self)@,
    {
        let mut i: usize = 0;
        while i < self.pool.len() && !self.pool[i].as_str().is_empty()
            invariant
                i <= self.pool.len(),
                first_free(self@.pool) == first_free_from(self@.pool, i as nat),
                *self == *old(self),
            decreases self.pool.len() - i,
        {
            i = i + 1;
        }
        if i < self.pool.len() {
            self.pool.set(i, cluster.to_owned());
            proof {
                assert(final(self)@.pool =~= pool_with(old(self)@.pool, i as nat, cluster@));
            }
            Some(i)
        } else if i < NCPLANE_POOL_SLOTS {
            self.pool.push(cluster.to_owned());
            proof {
                assert(final(self)@.pool =~= pool_with(old(self)@.pool, i as nat, cluster@));
            }
            Some(i)
        } else {
            None
        }
    }

    /// Empties a slot of the pool. A slot that the pool does not have is
    /// left alone.
    pub(crate) fn pool_release(&mut self, slot: usize)
        requires
            old(self).wf(),
        ensures
            final(self).wf(),
            final(self)@ == (NcPlaneView {
                pool: if slot < old(self)@.pool.len() {
                    old(self)@.pool.update(slot as int, Seq::empty())
                } else {
                    old(self)@.pool
                },
                ..old(self)@
            }),
    {
        if slot < self.pool.len() {
            self.pool.set(slot, String::new());
            proof {
                assert(final(self)@.pool =~= old(self)@.pool.update(slot as int, Seq::empty()));
            }
        } else {
            proof {
                assert(final(self)@.pool =~= old(self)@.pool);
            }
        }
    }

    /// The cluster in a slot of the pool: empty for a slot that the pool
    /// does not have.
    pub(crate) fn pool_cluster(&self, slot: usize) -> (cluster: String)
        ensures
            cluster@ == if slot < self@.pool.len() {
                self@.pool[slot as int]
            } else {
                Seq::empty()
            },
    {
        if slot < self.pool.len() {
            self.pool[slot].clone()
        } else {
            String::new()
        }
    }
}

} // verus!
