//! Asking after planes, their bindings and their places.

use vstd::prelude::*;
use crate::pile::order::lemma_position;
use crate::pile::stack::position;
use crate::pile::view::NcPilesView;
use crate::pile::NcPiles;
use crate::plane::NcPlane;

verus! {

impl NcPiles {
    /// A plane.
    pub fn plane(&self, p: usize) -> (r: Option<&NcPlane>)
        requires
            self.wf(),
        ensures
            r is Some <==> self@.contains(p),
            r matches Some(pl) ==> pl@ == self@.planes[p] && pl.wf(),
    {
        if p < self.planes.len() {
            self.planes[p].as_ref()
        } else {
            None
        }
    }

    /// A plane, to draw on. What is done to the plane changes nothing else.
    pub fn plane_mut(&mut self, p: usize) -> (r: Option<&mut NcPlane>)
        requires
            old(self).wf(),
        ensures
            r is Some <==> old(self)@.contains(p),
            match r {
                Some(pl) => {
                    &&& pl@ == old(self)@.planes[p]
                    &&& pl.wf()
                    &&& final(self).holds_instead(old(self), p, *final(pl))
                    &&& final(self)@ == (NcPilesView {
                        planes: old(self)@.planes.insert(p, final(pl)@),
                        ..old(self)@
                    })
                    &&& final(self).screen() == old(self).screen()
                    &&& forall|q: usize| final(self).snapshot(q) == old(self).snapshot(q)
                    &&& final(pl).wf() ==> final(self).wf()
                },
                None => *final(self) == *old(self),
            },
    {
        if p < self.planes.len() && self.planes[p].is_some() {
            proof {
                assert forall|now: NcPiles, plane: NcPlane| #[trigger]
                    now.holds_instead(self, p, plane) implies now@ == (NcPilesView {
                    planes: self@.planes.insert(p, plane@),
                    ..self@
                }) && now.screen() == self.screen() && (plane.wf() ==> now.wf()) && (forall|
                    q: usize,
                | now.snapshot(q) == self.snapshot(q)) by {
                    now.lemma_holds_instead(self, p, plane);
                }
            }
            self.planes[p].as_mut()
        } else {
            None
        }
    }

    /// Whether `self` is `was` with `plane` in the place of the plane `p`.
    pub open(crate) spec fn holds_instead(&self, was: &NcPiles, p: usize, plane: NcPlane) -> bool {
        &&& p < was.planes.len()
        &&& self.planes@ == was.planes@.update(p as int, Some(plane))
        &&& self.parent == was.parent
        &&& self.pile == was.pile
        &&& self.stacks == was.stacks
        &&& self.depth == was.depth
        &&& self.rows == was.rows
        &&& self.cols == was.cols
        &&& self.snapshots == was.snapshots
    }

    /// A plane that was put in the place of another changes that plane and
    /// nothing else.
    pub proof fn lemma_holds_instead(&self, was: &NcPiles, p: usize, plane: NcPlane)
        requires
            was.wf(),
            was@.contains(p),
            self.holds_instead(was, p, plane),
        ensures
            self@ == (NcPilesView { planes: was@.planes.insert(p, plane@), ..was@ }),
            self.screen() == was.screen(),
            plane.wf() ==> self.wf(),
            forall|q: usize| self.snapshot(q) == was.snapshot(q),
    {
        let a = was.rep();
        let b = self.rep();
        assert(b.live =~= a.live);
        assert(b.stacks =~= a.stacks);
        assert(self@.parent =~= was@.parent);
        assert(self@.z_order =~= was@.z_order);
        assert(self@.planes =~= was@.planes.insert(p, plane@));
    }

    /// The plane that a plane is bound to: itself for a root.
    pub fn parent(&self, p: usize) -> (r: Option<usize>)
        requires
            self.wf(),
        ensures
            r == if self@.contains(p) {
                Some(self@.parent[p])
            } else {
                None
            },
    {
        if self.contains(p) {
            Some(self.parent[p])
        } else {
            None
        }
    }

    /// Whether a plane exists and is bound to `q`.
    pub fn bound_to(&self, p: usize, q: usize) -> (b: bool)
        requires
            self.wf(),
        ensures
            b == (self@.contains(p) && self@.parent[p] == q),
    {
        self.contains(p) && self.parent[p] == q
    }

    /// Whether a plane exists and is a root: bound to itself.
    pub fn is_root(&self, p: usize) -> (b: bool)
        requires
            self.wf(),
        ensures
            b == self@.is_root(p),
    {
        self.contains(p) && self.parent[p] == p
    }

    /// Whether two planes exist and are in one pile.
    pub fn same_pile(&self, p: usize, q: usize) -> (b: bool)
        requires
            self.wf(),
        ensures
            b == self@.same_pile(p, q),
    {
        if !self.contains(p) || !self.contains(q) {
            return false;
        }
        proof {
            let a = self.rep();
            assert(a.link_ok(p as int));
            assert(a.link_ok(q as int));
            let s = a.pile[p as int] as int;
            if a.stacks[s].contains(q) {
                let k = choose|k: int| 0 <= k < a.stacks[s].len() && a.stacks[s][k] == q;
                assert(a.member_ok(s, k));
            }
        }
        self.pile[p] == self.pile[q]
    }

    /// Whether `x` exists and is `p` or is bound to `p`, directly or
    /// through other planes.
    pub fn in_family(&self, x: usize, p: usize) -> (b: bool)
        requires
            self.wf(),
        ensures
            b == self@.in_family(x, p),
    {
        self.contains(x) && self.is_under(x, p)
    }

    /// The planes of the pile of `p`, from top to bottom: none when `p`
    /// does not exist.
    pub fn z_order(&self, p: usize) -> (order: Vec<usize>)
        requires
            self.wf(),
        ensures
            order@ == if self@.contains(p) {
                self@.z_order[p]
            } else {
                Seq::empty()
            },
    {
        let mut order: Vec<usize> = Vec::new();
        if !self.contains(p) {
            return order;
        }
        proof {
            assert(self.rep().link_ok(p as int));
        }
        let s: usize = self.pile[p];
        let mut i: usize = 0;
        while i < self.stacks[s].len()
            invariant
                s < self.stacks.len(),
                i <= self.stacks[s as int].len(),
                order@ == self.stacks[s as int]@.take(i as int),
            decreases self.stacks[s as int].len() - i,
        {
            order.push(self.stacks[s][i]);
            proof {
                assert(self.stacks[s as int]@.take(i + 1) =~= self.stacks[s as int]@.take(
                    i as int,
                ).push(self.stacks[s as int][i as int]));
            }
            i = i + 1;
        }
        proof {
            assert(self.stacks[s as int]@.take(i as int) =~= self.stacks[s as int]@);
        }
        order
    }

    /// The top of the pile of `p`: nothing when `p` does not exist.
    pub fn top(&self, p: usize) -> (r: Option<usize>)
        requires
            self.wf(),
        ensures
            r == if self@.contains(p) {
                Some(self@.top(p))
            } else {
                None
            },
    {
        if !self.contains(p) {
            return None;
        }
        proof {
            assert(self.rep().link_ok(p as int));
        }
        let s: usize = self.pile[p];
        Some(self.stacks[s][0])
    }

    /// The bottom of the pile of `p`: nothing when `p` does not exist.
    pub fn bottom(&self, p: usize) -> (r: Option<usize>)
        requires
            self.wf(),
        ensures
            r == if self@.contains(p) {
                Some(self@.bottom(p))
            } else {
                None
            },
    {
        if !self.contains(p) {
            return None;
        }
        proof {
            assert(self.rep().link_ok(p as int));
        }
        let s: usize = self.pile[p];
        Some(self.stacks[s][self.stacks[s].len() - 1])
    }

    /// The plane just above `p` in its pile: nothing when `p` is the top or
    /// does not exist.
    pub fn above(&self, p: usize) -> (r: Option<usize>)
        requires
            self.wf(),
        ensures
            r == if self@.contains(p) && self@.z_order[p].index_of(p) > 0 {
                Some(self@.z_order[p][self@.z_order[p].index_of(p) - 1])
            } else {
                None
            },
    {
        if !self.contains(p) {
            return None;
        }
        proof {
            assert(self.rep().link_ok(p as int));
            assert(self.rep().stacks[self.pile[p as int] as int].no_duplicates());
        }
        let s: usize = self.pile[p];
        let at: usize = position(&self.stacks[s], p);
        if at > 0 {
            Some(self.stacks[s][at - 1])
        } else {
            None
        }
    }

    /// The plane just below `p` in its pile: nothing when `p` is the bottom
    /// or does not exist.
    pub fn below(&self, p: usize) -> (r: Option<usize>)
        requires
            self.wf(),
        ensures
            r == if self@.contains(p) && self@.z_order[p].index_of(p) + 1
                < self@.z_order[p].len() {
                Some(self@.z_order[p][self@.z_order[p].index_of(p) + 1])
            } else {
                None
            },
    {
        if !self.contains(p) {
            return None;
        }
        proof {
            assert(self.rep().link_ok(p as int));
            assert(self.rep().stacks[self.pile[p as int] as int].no_duplicates());
        }
        let s: usize = self.pile[p];
        let at: usize = position(&self.stacks[s], p);
        if at + 1 < self.stacks[s].len() {
            Some(self.stacks[s][at + 1])
        } else {
            None
        }
    }
}

} // verus!
