//! Moving planes along the z-axis of their pile.

use vstd::prelude::*;
use crate::error::{NcError, NcResult};
use crate::pile::order::{lemma_split, without};
use crate::pile::stack::{anchor_at, Anchor};
use crate::pile::view::NcPilesView;
use crate::pile::NcPiles;

verus! {

/// Whether `movers`, planes of the pile of `p`, can be moved to the place
/// that the anchor names: `p` exists, and a plane that the anchor names is
/// in the pile of `p` and is none of the movers.
pub open spec fn shift_ok(v: NcPilesView, movers: Set<usize>, p: usize, anchor: Anchor) -> bool {
    v.contains(p) && match anchor {
        Anchor::Top => true,
        Anchor::Bottom => true,
        Anchor::Above(t) => v.same_pile(p, t) && !movers.contains(t),
        Anchor::Below(t) => v.same_pile(p, t) && !movers.contains(t),
    }
}

/// The position that the anchor names in what the pile of `p` holds
/// besides `movers`.
pub open spec fn shift_at(v: NcPilesView, movers: Set<usize>, p: usize, anchor: Anchor) -> int {
    anchor_at(without(v.z_order[p], movers), anchor)
}

impl NcPiles {
    /// Moves `p`, alone or with its family, to the place in its pile that
    /// the anchor names.
    pub(crate) fn shift(&mut self, p: usize, family: bool, anchor: Anchor) -> (r: NcResult<()>)
        requires
            old(self).wf(),
        ensures
            final(self).wf(),
            final(self).screen() == old(self).screen(),
            r is Ok <==> shift_ok(
                old(self)@,
                if family {
                    old(self)@.family(p)
                } else {
                    set![p]
                },
                p,
                anchor,
            ),
            r is Ok ==> final(self)@ == old(self)@.moved(
                if family {
                    old(self)@.family(p)
                } else {
                    set![p]
                },
                p,
                shift_at(
                    old(self)@,
                    if family {
                        old(self)@.family(p)
                    } else {
                        set![p]
                    },
                    p,
                    anchor,
                ),
            ),
            r matches Err(e) ==> e == NcError::InvalidOperation && *final(self) == *old(self),
            forall|q: usize| final(self).snapshot(q) == old(self).snapshot(q),
    {
        if !self.contains(p) {
            return Err(NcError::InvalidOperation);
        }
        let ghost a = self.rep();
        let ghost views = self.plane_views();
        let ghost movers: Set<usize> = if family {
            self@.family(p)
        } else {
            set![p]
        };
        let marks: Vec<bool> = if family {
            self.mark_family(p)
        } else {
            self.mark_one(p)
        };
        let s: usize = self.pile[p];
        proof {
            assert(a.link_ok(p as int));
        }
        match anchor {
            Anchor::Above(t) | Anchor::Below(t) => {
                if !self.contains(t) || self.pile[t] != s || marks[t] {
                    proof {
                        if self@.contains(t) {
                            assert(a.link_ok(t as int));
                            if self@.z_order[p].contains(t) {
                                let k = choose|k: int|
                                    0 <= k < a.stacks[s as int].len() && a.stacks[s as int][k] == t;
                                assert(a.member_ok(s as int, k));
                            }
                        }
                    }
                    return Err(NcError::InvalidOperation);
                }
                proof {
                    assert(a.link_ok(t as int));
                    lemma_split(a.stacks[s as int], movers);
                }
            },
            _ => {},
        }
        proof {
            a.lemma_wf_stacks();
            assert forall|x: usize| #[trigger] movers.contains(x) implies a.is_live(x as int)
                && a.pile[x as int] == s by {
                if family {
                    a.lemma_under_family(views, x, p);
                    a.lemma_under_pile(x as int, p as int);
                }
            }
        }
        self.restack(&marks, Ghost(movers), s, s, anchor);
        proof {
            let at = anchor_at(without(a.stacks[s as int], movers), anchor);
            let b = self.rep();
            a.lemma_restacked_stacks(movers, s, s, at);
            a.lemma_restacked_view(views, movers, s, s, at);
            assert(b.pile =~= a.pile);
            assert(self.pile@ == old(self).pile@);
            assert forall|x: int| 0 <= x < b.live.len() && b.live[x] implies #[trigger] b.link_ok(
                x,
            ) by {
                assert(a.link_ok(x));
                assert(b.placed_ok(x));
            }
            assert(self.plane_views() == views);
        }
        Ok(())
    }

    /// Moves a plane to the top of its pile.
    ///
    /// Fails with `InvalidOperation`, and changes nothing, when the plane
    /// does not exist.
    pub fn move_top(&mut self, p: usize) -> (r: NcResult<()>)
        requires
            old(self).wf(),
        ensures
            final(self).wf(),
            final(self).screen() == old(self).screen(),
            r is Ok <==> old(self)@.contains(p),
            r is Ok ==> final(self)@ == old(self)@.moved(set![p], p, 0),
            r matches Err(e) ==> e == NcError::InvalidOperation && final(self)@ == old(self)@,
            forall|q: usize| final(self).snapshot(q) == old(self).snapshot(q),
    {
        self.shift(p, false, Anchor::Top)
    }

    /// Moves a plane to the bottom of its pile.
    ///
    /// Fails with `InvalidOperation`, and changes nothing, when the plane
    /// does not exist.
    pub fn move_bottom(&mut self, p: usize) -> (r: NcResult<()>)
        requires
            old(self).wf(),
        ensures
            final(self).wf(),
            final(self).screen() == old(self).screen(),
            r is Ok <==> old(self)@.contains(p),
            r is Ok ==> final(self)@ == old(self)@.moved(
                set![p],
                p,
                old(self)@.count_without(set![p], p),
            ),
            r matches Err(e) ==> e == NcError::InvalidOperation && final(self)@ == old(self)@,
            forall|q: usize| final(self).snapshot(q) == old(self).snapshot(q),
    {
        self.shift(p, false, Anchor::Bottom)
    }

    /// Moves a plane to the place just above `target`, which has to be
    /// another plane of the same pile.
    ///
    /// Fails with `InvalidOperation`, and changes nothing, when one of the
    /// two does not exist, when they are in different piles, or when they
    /// are one plane.
    pub fn move_above(&mut self, p: usize, target: usize) -> (r: NcResult<()>)
        requires
            old(self).wf(),
        ensures
            final(self).wf(),
            final(self).screen() == old(self).screen(),
            r is Ok <==> old(self)@.same_pile(p, target) && p != target,
            r is Ok ==> final(self)@ == old(self)@.moved(
                set![p],
                p,
                old(self)@.position_without(set![p], target),
            ),
            r matches Err(e) ==> e == NcError::InvalidOperation && final(self)@ == old(self)@,
            forall|q: usize| final(self).snapshot(q) == old(self).snapshot(q),
    {
        proof {
            old(self).lemma_same_pile(p, target);
        }
        self.shift(p, false, Anchor::Above(target))
    }

    /// Moves a plane to the place just below `target`, which has to be
    /// another plane of the same pile.
    ///
    /// Fails with `InvalidOperation`, and changes nothing, when one of the
    /// two does not exist, when they are in different piles, or when they
    /// are one plane.
    pub fn move_below(&mut self, p: usize, target: usize) -> (r: NcResult<()>)
        requires
            old(self).wf(),
        ensures
            final(self).wf(),
            final(self).screen() == old(self).screen(),
            r is Ok <==> old(self)@.same_pile(p, target) && p != target,
            r is Ok ==> final(self)@ == old(self)@.moved(
                set![p],
                p,
                old(self)@.position_without(set![p], target) + 1,
            ),
            r matches Err(e) ==> e == NcError::InvalidOperation && final(self)@ == old(self)@,
            forall|q: usize| final(self).snapshot(q) == old(self).snapshot(q),
    {
        proof {
            old(self).lemma_same_pile(p, target);
        }
        self.shift(p, false, Anchor::Below(target))
    }

    /// Moves a plane and its family, as one block that keeps its order, to
    /// the top of their pile.
    ///
    /// Fails with `InvalidOperation`, and changes nothing, when the plane
    /// does not exist.
    pub fn move_family_top(&mut self, p: usize) -> (r: NcResult<()>)
        requires
            old(self).wf(),
        ensures
            final(self).wf(),
            final(self).screen() == old(self).screen(),
            r is Ok <==> old(self)@.contains(p),
            r is Ok ==> final(self)@ == old(self)@.moved(old(self)@.family(p), p, 0),
            r matches Err(e) ==> e == NcError::InvalidOperation && final(self)@ == old(self)@,
            forall|q: usize| final(self).snapshot(q) == old(self).snapshot(q),
    {
        self.shift(p, true, Anchor::Top)
    }

    /// Moves a plane and its family, as one block that keeps its order, to
    /// the bottom of their pile.
    ///
    /// Fails with `InvalidOperation`, and changes nothing, when the plane
    /// does not exist.
    pub fn move_family_bottom(&mut self, p: usize) -> (r: NcResult<()>)
        requires
            old(self).wf(),
        ensures
            final(self).wf(),
            final(self).screen() == old(self).screen(),
            r is Ok <==> old(self)@.contains(p),
            r is Ok ==> final(self)@ == old(self)@.moved(
                old(self)@.family(p),
                p,
                old(self)@.count_without(old(self)@.family(p), p),
            ),
            r matches Err(e) ==> e == NcError::InvalidOperation && final(self)@ == old(self)@,
            forall|q: usize| final(self).snapshot(q) == old(self).snapshot(q),
    {
        self.shift(p, true, Anchor::Bottom)
    }

    /// Moves a plane and its family, as one block that keeps its order, to
    /// the place just above `target`, which has to be a plane of the same
    /// pile outside the family.
    ///
    /// Fails with `InvalidOperation`, and changes nothing, when one of the
    /// two does not exist, when they are in different piles, or when
    /// `target` belongs to the family.
    pub fn move_family_above(&mut self, p: usize, target: usize) -> (r: NcResult<()>)
        requires
            old(self).wf(),
        ensures
            final(self).wf(),
            final(self).screen() == old(self).screen(),
            r is Ok <==> old(self)@.same_pile(p, target) && !old(self)@.in_family(target, p),
            r is Ok ==> final(self)@ == old(self)@.moved(
                old(self)@.family(p),
                p,
                old(self)@.position_without(old(self)@.family(p), target),
            ),
            r matches Err(e) ==> e == NcError::InvalidOperation && final(self)@ == old(self)@,
            forall|q: usize| final(self).snapshot(q) == old(self).snapshot(q),
    {
        proof {
            old(self).lemma_same_pile(p, target);
        }
        self.shift(p, true, Anchor::Above(target))
    }

    /// Moves a plane and its family, as one block that keeps its order, to
    /// the place just below `target`, which has to be a plane of the same
    /// pile outside the family.
    ///
    /// Fails with `InvalidOperation`, and changes nothing, when one of the
    /// two does not exist, when they are in different piles, or when
    /// `target` belongs to the family.
    pub fn move_family_below(&mut self, p: usize, target: usize) -> (r: NcResult<()>)
        requires
            old(self).wf(),
        ensures
            final(self).wf(),
            final(self).screen() == old(self).screen(),
            r is Ok <==> old(self)@.same_pile(p, target) && !old(self)@.in_family(target, p),
            r is Ok ==> final(self)@ == old(self)@.moved(
                old(self)@.family(p),
                p,
                old(self)@.position_without(old(self)@.family(p), target) + 1,
            ),
            r matches Err(e) ==> e == NcError::InvalidOperation && final(self)@ == old(self)@,
            forall|q: usize| final(self).snapshot(q) == old(self).snapshot(q),
    {
        proof {
            old(self).lemma_same_pile(p, target);
        }
        self.shift(p, true, Anchor::Below(target))
    }

    /// Planes of one pile have one order.
    pub proof fn lemma_same_pile(&self, p: usize, q: usize)
        requires
            self.wf(),
        ensures
            self@.same_pile(p, q) ==> self@.z_order[p] == self@.z_order[q] && self@.same_pile(
                q,
                p,
            ),
    {
        if self@.same_pile(p, q) {
            let a = self.rep();
            assert(a.link_ok(p as int));
            assert(a.link_ok(q as int));
            let s = a.pile[p as int] as int;
            let k = choose|k: int| 0 <= k < a.stacks[s].len() && a.stacks[s][k] == q;
            assert(a.member_ok(s, k));
        }
    }
}

} // verus!
