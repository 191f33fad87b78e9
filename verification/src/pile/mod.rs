//! Piles.
//!
//! `NcPiles` owns every plane and keeps the two relations between them:
//! which plane each plane is bound to, and where each plane stands on the
//! z-axis of its pile. Planes are named by number.

pub mod bind;
pub mod create;
pub mod laws;
pub mod order;
pub mod query;
pub mod rep;
pub mod reparent;
pub mod resize;
pub mod stack;
pub mod view;
pub mod zmove;

pub use view::NcPilesView;

use vstd::prelude::*;
use crate::pile::rep::Rep;
use crate::error::{NcError, NcResult};
use crate::plane::{plane_size_ok, NcPlane, NcPlaneView};
use crate::render::{NcRendered, NcRenderedView};

verus! {

/// The number by which a plane is named.
pub type NcPlaneId = usize;

/// All planes, their bindings and their piles.
pub struct NcPiles {
    pub(crate) planes: Vec<Option<NcPlane>>,
    pub(crate) parent: Vec<usize>,
    pub(crate) pile: Vec<usize>,
    pub(crate) stacks: Vec<Vec<usize>>,
    pub(crate) depth: Ghost<Seq<nat>>,
    pub(crate) rows: u32,
    pub(crate) cols: u32,
    pub(crate) snapshots: Vec<Option<NcRendered>>,
}

impl View for NcPiles {
    type V = NcPilesView;

    open(crate) spec fn view(&self) -> NcPilesView {
        self.rep().view(self.plane_views())
    }
}

impl NcPiles {
    /// The bookkeeping as plain sequences.
    pub open(crate) spec fn rep(&self) -> Rep {
        Rep {
            live: Seq::new(self.planes.len() as nat, |i: int| self.planes[i] is Some),
            parent: self.parent@,
            pile: self.pile@,
            stacks: Seq::new(self.stacks.len() as nat, |s: int| self.stacks[s]@),
            depth: self.depth@,
        }
    }

    /// What each plane that exists is.
    pub open(crate) spec fn plane_views(&self) -> Map<usize, NcPlaneView> {
        Map::new(
            |p: usize| p < self.planes.len() && self.planes[p as int] is Some,
            |p: usize| self.planes[p as int]->0@,
        )
    }

    /// What holds of every `NcPiles`: the bookkeeping is in order, and so
    /// is each plane.
    pub open(crate) spec fn wf(&self) -> bool {
        &&& self.rep().wf()
        &&& plane_size_ok(self.rows, self.cols)
        &&& forall|p: int|
            0 <= p < self.planes.len() && self.planes[p] is Some ==> (#[trigger] self.planes[p])->0.wf()
    }

    /// The invariants of piles hold of the view: see `NcPilesView::wf`.
    pub proof fn lemma_view_wf(&self)
        requires
            self.wf(),
        ensures
            self@.wf(),
            forall|p: usize| self@.contains(p) ==> self@.planes.dom().contains(p),
    {
        assert(self.plane_views().dom() =~= Set::new(|p: usize| self.rep().is_live(p as int)));
        self.rep().lemma_view_wf(self.plane_views());
    }

    /// The rendering that is kept for the pile of `p`, if any.
    pub open(crate) spec fn snapshot(&self, p: usize) -> Option<NcRenderedView> {
        if p < self.planes.len() && self.planes[p as int] is Some && p < self.pile.len()
            && self.pile[p as int] < self.snapshots.len() {
            match self.snapshots[self.pile[p as int] as int] {
                Some(m) => Some(m@),
                None => None,
            }
        } else {
            None
        }
    }

    /// The size of the screen that piles are rendered for: rows, then
    /// columns.
    pub open(crate) spec fn screen(&self) -> (u32, u32) {
        (self.rows, self.cols)
    }

    /// No planes at all, for a screen of `rows` by `cols`.
    ///
    /// Fails with `AllocationError` when a dimension is zero or the
    /// screen would have more cells than a plane may have.
    pub fn new(rows: u32, cols: u32) -> (r: NcResult<NcPiles>)
        ensures
            r is Ok <==> plane_size_ok(rows, cols),
            r matches Err(e) ==> e == NcError::AllocationError,
            r matches Ok(piles) ==> piles.wf() && piles.screen() == (rows, cols)
                && piles@.parent.dom() == Set::<usize>::empty(),
    {
        if rows == 0 || cols == 0 {
            return Err(NcError::AllocationError);
        }
        assert(rows * cols <= 0xffff_ffff * 0xffff_ffff) by (nonlinear_arith)
            requires
                0 <= rows <= 0xffff_ffff,
                0 <= cols <= 0xffff_ffff,
        ;
        if rows as u64 * cols as u64 > crate::plane::NCPLANE_MAX_CELLS as u64 {
            return Err(NcError::AllocationError);
        }
        let piles = NcPiles {
            planes: Vec::new(),
            parent: Vec::new(),
            pile: Vec::new(),
            stacks: Vec::new(),
            depth: Ghost(Seq::empty()),
            rows,
            cols,
            snapshots: Vec::new(),
        };
        proof {
            assert(piles@.parent.dom() =~= Set::<usize>::empty());
        }
        Ok(piles)
    }

    /// The size of the screen: rows, then columns.
    pub fn screen_size(&self) -> (size: (u32, u32))
        ensures
            size == self.screen(),
    {
        (self.rows, self.cols)
    }

    /// Whether a plane exists.
    pub fn contains(&self, p: usize) -> (b: bool)
        ensures
            b == self@.contains(p),
    {
        p < self.planes.len() && self.planes[p].is_some()
    }
}

} // verus!
