//! Binding planes to other planes.

use vstd::prelude::*;
use crate::error::{NcError, NcResult};
use crate::pile::order::{lemma_split, without};
use crate::pile::stack::{anchor_at, Anchor};
use crate::pile::NcPiles;

verus! {

impl NcPiles {
    /// Binds a plane and all its family to `new_parent`.
    ///
    /// Nothing changes when the plane is `new_parent` and already a root.
    /// Else the family stands as one block that keeps its order: as a pile
    /// of its own when the plane is `new_parent`, and else just above
    /// `new_parent` in the pile of `new_parent`.
    ///
    /// Fails with `InvalidOperation`, and changes nothing, when one of the
    /// two does not exist, or when `new_parent` is another plane of the
    /// family.
    pub fn reparent_family(&mut self, p: usize, new_parent: usize) -> (r: NcResult<()>)
        requires
            old(self).wf(),
        ensures
            final(self).wf(),
            final(self).screen() == old(self).screen(),
            r is Ok <==> old(self)@.contains(p) && old(self)@.contains(new_parent) && (p
                == new_parent || !old(self)@.in_family(new_parent, p)),
            r is Ok ==> final(self)@ == old(self)@.family_reparented(p, new_parent),
            r matches Err(e) ==> e == NcError::InvalidOperation && final(self)@ == old(self)@,
    {
        let q: usize = new_parent;
        if !self.contains(p) || !self.contains(q) {
            return Err(NcError::InvalidOperation);
        }
        if p == q {
            if self.parent[p] == p {
                return Ok(());
            }
        } else if self.is_under(q, p) {
            return Err(NcError::InvalidOperation);
        }
        let ghost before = self@;
        proof {
            self.rep().lemma_wf_stacks();
            assert(self.rep().link_ok(p as int));
            assert(self.rep().link_ok(q as int));
        }
        let src: usize = self.pile[p];
        let dest: usize = if p == q {
            self.alloc_stack()
        } else {
            self.pile[q]
        };
        let anchor: Anchor = if p == q {
            Anchor::Top
        } else {
            Anchor::Above(q)
        };
        let ghost a = self.rep();
        let ghost views = self.plane_views();
        let ghost movers: Set<usize> = self@.family(p);
        let marks: Vec<bool> = self.mark_family(p);
        proof {
            assert(self.plane_views() =~= old(self).plane_views());
            assert(a.link_ok(p as int));
            assert(a.link_ok(q as int));
            assert forall|x: usize| #[trigger] movers.contains(x) implies a.is_live(x as int)
                && a.pile[x as int] == src by {
                a.lemma_under_family(views, x, p);
                a.lemma_under_pile(x as int, p as int);
            }
            lemma_split(a.stacks[dest as int], movers);
            if p != q {
                a.lemma_under_family(views, q, p);
            }
        }
        self.restack(&marks, Ghost(movers), src, dest, anchor);
        let ghost b = self.rep();
        let ghost at = anchor_at(without(a.stacks[dest as int], movers), anchor);
        self.bind(p, q);
        proof {
            a.lemma_restacked_stacks(movers, src, dest, at);
            a.lemma_restacked_view(views, movers, src, dest, at);
            assert forall|x: int| a.is_live(x) implies (#[trigger] b.pile[x]) == if a.under(
                x,
                p as int,
            ) {
                b.pile[p as int]
            } else {
                a.pile[x]
            } by {
                a.lemma_under_family(views, x as usize, p);
                a.lemma_under_family(views, p, p);
            }
            a.lemma_under_family(views, p, p);
            b.lemma_bound_wf(a, p, q);
            b.lemma_bound_view(views, p, q);
            assert(self.plane_views() =~= views);
            if p == q {
                assert(a.stacks[dest as int] =~= Seq::<usize>::empty());
            }
        }
        Ok(())
    }

    /// Binds a plane, alone, to `new_parent`.
    ///
    /// Nothing changes when the plane is `new_parent` and already a root.
    /// Else the planes that were bound to it are bound to what it was bound
    /// to, or become roots if it was a root, and stay where they are on the
    /// z-axis. The plane itself becomes a pile of its own when it is
    /// `new_parent`; goes just above `new_parent` when that is in another
    /// pile; and stays where it is when `new_parent` is in its own pile.
    ///
    /// Fails with `InvalidOperation`, and changes nothing, when one of the
    /// two does not exist.
    pub fn reparent(&mut self, p: usize, new_parent: usize) -> (r: NcResult<()>)
        requires
            old(self).wf(),
        ensures
            final(self).wf(),
            final(self).screen() == old(self).screen(),
            r is Ok <==> old(self)@.contains(p) && old(self)@.contains(new_parent),
            r is Ok ==> final(self)@ == old(self)@.reparented(p, new_parent),
            r matches Err(e) ==> e == NcError::InvalidOperation && final(self)@ == old(self)@,
    {
        let q: usize = new_parent;
        if !self.contains(p) || !self.contains(q) {
            return Err(NcError::InvalidOperation);
        }
        if p == q && self.parent[p] == p {
            return Ok(());
        }
        let ghost a0 = self.rep();
        let ghost views = self.plane_views();
        proof {
            assert(a0.link_ok(p as int));
            assert(a0.link_ok(q as int));
        }
        let src: usize = self.pile[p];
        let same: bool = self.pile[q] == src;
        self.rebind_children(p);
        proof {
            a0.lemma_rebound_wf(p);
            a0.lemma_rebound_view(views, p);
            self.rep().lemma_wf_stacks();
            assert(self.plane_views() =~= views);
            if old(self)@.z_order[p].contains(q) {
                let k = choose|k: int|
                    0 <= k < a0.stacks[src as int].len() && a0.stacks[src as int][k] == q;
                assert(a0.member_ok(src as int, k));
            }
            assert(a0.placed_ok(q as int));
        }
        let ghost movers: Set<usize> = set![p];
        if p == q || !same {
            let dest: usize = if p == q {
                self.alloc_stack()
            } else {
                self.pile[q]
            };
            let anchor: Anchor = if p == q {
                Anchor::Top
            } else {
                Anchor::Above(q)
            };
            let ghost a = self.rep();
            let marks: Vec<bool> = self.mark_one(p);
            proof {
                assert(self.plane_views() =~= views);
                assert(a.link_ok(p as int));
                assert(a.link_ok(q as int));
                lemma_split(a.stacks[dest as int], movers);
            }
            self.restack(&marks, Ghost(movers), src, dest, anchor);
            let ghost b = self.rep();
            let ghost at = anchor_at(without(a.stacks[dest as int], movers), anchor);
            self.bind(p, q);
            proof {
                a.lemma_restacked_stacks(movers, src, dest, at);
                a.lemma_restacked_view(views, movers, src, dest, at);
                assert forall|x: int| a.is_live(x) implies (#[trigger] b.pile[x]) == if a.under(
                    x,
                    p as int,
                ) {
                    b.pile[p as int]
                } else {
                    a.pile[x]
                } by {
                    if a.under(x, p as int) {
                        a.lemma_same_under(a0.rebound(p), x, p as int);
                        a0.lemma_rebound_leaf(p, x);
                    }
                }
                if p != q && a.under(q as int, p as int) {
                    a.lemma_same_under(a0.rebound(p), q as int, p as int);
                    a0.lemma_rebound_leaf(p, q as int);
                }
                assert(a.wf());
                b.lemma_bound_wf(a, p, q);
                b.lemma_bound_view(views, p, q);
                assert(self.plane_views() =~= views);
                if p == q {
                    assert(a.stacks[dest as int] =~= Seq::<usize>::empty());
                }
            }
        } else {
            let ghost a = self.rep();
            self.bind(p, q);
            proof {
                assert forall|x: int| a.is_live(x) implies (#[trigger] a.pile[x]) == if a.under(
                    x,
                    p as int,
                ) {
                    a.pile[p as int]
                } else {
                    a.pile[x]
                } by {
                    if a.under(x, p as int) {
                        a0.lemma_rebound_leaf(p, x);
                    }
                }
                if a.under(q as int, p as int) {
                    a0.lemma_rebound_leaf(p, q as int);
                }
                a.lemma_bound_wf(a, p, q);
                a.lemma_bound_view(views, p, q);
                assert(self.plane_views() =~= views);
            }
        }
        Ok(())
    }
}

} // verus!
