//! Cells.
//!
//! A cell is what one position of a plane shows: a grapheme cluster, a set
//! of styles and two colour channels. A cluster of one scalar is held by the
//! cell itself. A longer cluster is held by the pool of the plane that the
//! cell belongs to, and the cell holds the number of its slot there.

pub mod boxes;
pub mod methods;

use vstd::prelude::*;
use crate::egc::{
    after_first_cluster, first_cluster, first_cluster_len, first_cluster_ok, is_scalar_value,
    scalar_columns,
};
use crate::plane::{first_free, pool_with, NCPLANE_POOL_SLOTS};

verus! {

/// Added to a pool slot's number to mark a cell whose cluster is in the
/// pool. Every scalar value is below it.
pub const NCCELL_POOL_FLAG: u32 = 0x0100_0000;

/// One position of a plane.
#[derive(Clone, Copy, Debug, PartialEq, Eq, Structural)]
pub struct NcCell {
    /// Zero for an empty cell; a scalar value for a cluster of one scalar;
    /// `NCCELL_POOL_FLAG` plus a slot number for a cluster in the pool.
    pub gcluster: u32,
    /// Always zero.
    pub gcluster_backstop: u8,
    /// The columns that the cluster takes; zero where that was never
    /// measured, which counts as one.
    pub width: u8,
    /// The styles.
    pub stylemask: u16,
    /// The foreground and background channels.
    pub channels: u64,
}

/// The empty cell: no cluster, no style, default colours.
pub open spec fn empty_cell() -> NcCell {
    NcCell { gcluster: 0, gcluster_backstop: 0, width: 0, stylemask: 0, channels: 0 }
}

/// Whether a cell's cluster is in a pool.
pub open spec fn cell_extended(cell: NcCell) -> bool {
    NCCELL_POOL_FLAG <= cell.gcluster && cell.gcluster < 2 * NCCELL_POOL_FLAG
}

/// The pool slot that an extended cell names.
pub open spec fn cell_slot(cell: NcCell) -> int {
    cell.gcluster - NCCELL_POOL_FLAG
}

/// The cluster that a cell shows, given the pool of its plane. A cell that
/// names no scalar and no slot of the pool shows nothing.
pub open spec fn cell_egc(pool: Seq<Seq<char>>, cell: NcCell) -> Seq<char> {
    if cell.gcluster == 0 {
        Seq::empty()
    } else if cell.gcluster < NCCELL_POOL_FLAG {
        if is_scalar_value(cell.gcluster) {
            seq![cell.gcluster as char]
        } else {
            Seq::empty()
        }
    } else if cell_extended(cell) && cell_slot(cell) < pool.len() {
        pool[cell_slot(cell)]
    } else {
        Seq::empty()
    }
}

/// A cell without its cluster: what is left when the cluster is released.
pub open spec fn cell_cleared(cell: NcCell) -> NcCell {
    NcCell { gcluster: 0, width: 0, ..cell }
}

/// The pool after the cluster of `cell` was released: the slot that the
/// cell names is empty.
pub open spec fn pool_released(pool: Seq<Seq<char>>, cell: NcCell) -> Seq<Seq<char>> {
    if cell_extended(cell) && cell_slot(cell) < pool.len() {
        pool.update(cell_slot(cell), Seq::empty())
    } else {
        pool
    }
}

/// The columns that a cell takes: its width, and one where the width is
/// zero.
pub open spec fn cell_cols(cell: NcCell) -> u8 {
    if cell.width != 0 {
        cell.width
    } else {
        1
    }
}

/// Whether the first cluster of `text` can be loaded into `cell`, with
/// `pool` the pool of the cell's plane: the cluster is well formed, and if
/// it has to go to the pool, the pool has room once the cell's old cluster
/// is gone.
pub open spec fn load_ok(pool: Seq<Seq<char>>, cell: NcCell, text: Seq<char>) -> bool {
    first_cluster_ok(text) && (first_cluster_len(text) <= 1 || first_free(
        pool_released(pool, cell),
    ) < NCPLANE_POOL_SLOTS)
}

/// The cell after the first cluster of `text` was loaded into it, or
/// after the attempt failed: the old cluster is gone in both cases, and
/// styles and channels stay.
pub open spec fn load_cell(pool: Seq<Seq<char>>, cell: NcCell, text: Seq<char>) -> NcCell {
    let cluster = first_cluster(text);
    if !load_ok(pool, cell, text) || cluster.len() == 0 {
        cell_cleared(cell)
    } else if cluster.len() == 1 {
        NcCell { gcluster: cluster[0] as u32, width: scalar_columns(cluster[0]), ..cell }
    } else {
        NcCell {
            gcluster: (NCCELL_POOL_FLAG + first_free(pool_released(pool, cell))) as u32,
            width: scalar_columns(cluster[0]),
            ..cell
        }
    }
}

/// The pool after the first cluster of `text` was loaded into `cell`, or
/// after the attempt failed.
pub open spec fn load_pool(pool: Seq<Seq<char>>, cell: NcCell, text: Seq<char>) -> Seq<
    Seq<char>,
> {
    let freed = pool_released(pool, cell);
    if load_ok(pool, cell, text) && first_cluster_len(text) > 1 {
        pool_with(freed, first_free(freed), first_cluster(text))
    } else {
        freed
    }
}

/// A character's number is a scalar value, and names that character.
pub proof fn lemma_scalar_of_char(c: char)
    ensures
        is_scalar_value(c as u32),
        (c as u32) < NCCELL_POOL_FLAG,
        (c as u32) as char == c,
{
}

/// A cell that was loaded shows the cluster that was loaded.
pub proof fn lemma_load_shows_cluster(pool: Seq<Seq<char>>, cell: NcCell, text: Seq<char>)
    requires
        load_ok(pool, cell, text),
        pool.len() <= NCPLANE_POOL_SLOTS,
    ensures
        cell_egc(load_pool(pool, cell, text), load_cell(pool, cell, text)) == first_cluster(text),
{
    let cluster = first_cluster(text);
    let freed = pool_released(pool, cell);
    crate::egc::lemma_first_cluster_len(text);
    if cluster.len() == 0 {
        assert(cluster =~= Seq::empty());
    } else if cluster.len() == 1 {
        lemma_scalar_of_char(cluster[0]);
        assert(seq![(cluster[0] as u32) as char] =~= cluster);
    } else {
        crate::plane::lemma_first_free(freed, 0);
    }
}

} // verus!
