//! Changing what planes are bound to.

use vstd::prelude::*;
use crate::pile::rep::Rep;
use crate::pile::NcPiles;
use crate::plane::NcPlaneView;

verus! {

impl Rep {
    /// The bookkeeping after the planes bound to `p` were bound to what
    /// `p` is bound to, or made roots if `p` is a root. All that is under
    /// `p` comes one binding closer to its root.
    pub open spec fn rebound(self, p: usize) -> Rep {
        Rep {
            parent: Seq::new(
                self.parent.len(),
                |x: int|
                    if self.is_live(x) && x != p && self.parent[x] == p {
                        if self.parent[p as int] == p {
                            x as usize
                        } else {
                            self.parent[p as int]
                        }
                    } else {
                        self.parent[x]
                    },
            ),
            depth: Seq::new(
                self.depth.len(),
                |x: int|
                    if self.is_live(x) && x != p && self.under(x, p as int) {
                        (self.depth[x] - 1) as nat
                    } else {
                        self.depth[x]
                    },
            ),
            ..self
        }
    }

    /// The bookkeeping after `p` was bound to `q`, with all that is under
    /// `p` as deep below `q` as it was below `p`'s old parent.
    pub open spec fn bound_family(self, p: usize, q: usize) -> Rep {
        let top: int = if p == q {
            0int
        } else {
            self.depth[q as int] as int + 1
        };
        Rep {
            parent: self.parent.update(p as int, q),
            depth: Seq::new(
                self.depth.len(),
                |x: int|
                    if self.is_live(x) && self.under(x, p as int) {
                        (self.depth[x] - self.depth[p as int] + top) as nat
                    } else {
                        self.depth[x]
                    },
            ),
            ..self
        }
    }

    /// All that is under a plane is in its pile.
    pub proof fn lemma_under_pile(self, x: int, p: int)
        requires
            self.wf(),
            self.is_live(x),
            self.under(x, p),
        ensures
            self.pile[x] == self.pile[p],
        decreases self.depth[x],
    {
        if x != p {
            assert(self.link_ok(x));
            self.lemma_under_pile(self.parent[x] as int, p);
        }
    }

    /// Rebinding the children of a plane keeps the bookkeeping in order.
    pub proof fn lemma_rebound_wf(self, p: usize)
        requires
            self.wf(),
            self.is_live(p as int),
        ensures
            self.rebound(p).wf(),
    {
        let b = self.rebound(p);
        assert(self.link_ok(p as int));
        assert forall|x: int| 0 <= x < b.live.len() && b.live[x] implies #[trigger] b.link_ok(
            x,
        ) by {
            assert(self.link_ok(x));
            let m = self.parent[x] as int;
            self.lemma_under_step(x, p as int);
            if x == p {
                if m != p && self.under(m, p as int) {
                    self.lemma_under_depth(m, p as int);
                }
            } else if m == p {
                let r = self.parent[p as int] as int;
                if r != p {
                    assert(self.link_ok(r));
                    if self.under(r, p as int) {
                        self.lemma_under_depth(r, p as int);
                    }
                }
            } else {
                if m != x {
                    assert(self.link_ok(m));
                    self.lemma_under_step(m, p as int);
                }
            }
        }
        assert forall|s: int, i: int|
            0 <= s < b.stacks.len() && 0 <= i < b.stacks[s].len() implies #[trigger] b.member_ok(
            s,
            i,
        ) by {
            assert(self.member_ok(s, i));
        }
    }

    /// Rebinding the children in the bookkeeping rebinds them in the
    /// piles.
    pub proof fn lemma_rebound_view(self, planes: Map<usize, NcPlaneView>, p: usize)
        requires
            self.is_live(p as int),
            self.parent.len() == self.live.len(),
        ensures
            self.rebound(p).view(planes) == self.view(planes).rebound(p),
    {
        let a = self.rebound(p).view(planes);
        let b = self.view(planes).rebound(p);
        assert(a.parent =~= b.parent);
        assert(a.z_order =~= b.z_order);
    }

    /// After the children of a plane were rebound, nothing but the plane
    /// itself is under it.
    pub proof fn lemma_rebound_leaf(self, p: usize, x: int)
        requires
            self.wf(),
            self.is_live(p as int),
            self.is_live(x),
            self.rebound(p).under(x, p as int),
        ensures
            x == p,
        decreases self.rebound(p).depth[x],
    {
        let b = self.rebound(p);
        self.lemma_rebound_wf(p);
        if x != p {
            assert(b.link_ok(x));
            assert(self.link_ok(x));
            assert(self.link_ok(p as int));
            self.lemma_rebound_leaf(p, b.parent[x] as int);
        }
    }

    /// Binding a plane and its family to another plane keeps the
    /// bookkeeping in order, if the stacks are in order, the family is in
    /// one stack with the new parent, and every other plane is in the
    /// stack it was in.
    pub proof fn lemma_bound_wf(self, was: Rep, p: usize, q: usize)
        requires
            was.wf(),
            self.stacks_ok(),
            self.live == was.live,
            self.parent == was.parent,
            self.depth == was.depth,
            was.is_live(p as int),
            was.is_live(q as int),
            p == q || !was.under(q as int, p as int),
            forall|x: int|
                was.is_live(x) ==> (#[trigger] self.pile[x]) == if was.under(x, p as int) {
                    self.pile[p as int]
                } else {
                    was.pile[x]
                },
            self.pile[q as int] == self.pile[p as int],
        ensures
            self.bound_family(p, q).wf(),
    {
        let c = self.bound_family(p, q);
        assert forall|x: int| 0 <= x < c.live.len() && c.live[x] implies #[trigger] c.link_ok(
            x,
        ) by {
            assert(was.link_ok(x));
            assert(self.placed_ok(x));
            let m = was.parent[x] as int;
            was.lemma_under_step(x, p as int);
            assert(self.under(x, p as int) == was.under(x, p as int)) by {
                self.lemma_same_under(was, x, p as int);
            }
            assert(self.under(m, p as int) == was.under(m, p as int)) by {
                self.lemma_same_under(was, m, p as int);
            }
            assert(self.under(q as int, p as int) == was.under(q as int, p as int)) by {
                self.lemma_same_under(was, q as int, p as int);
            }
            if x == p {
            } else if was.under(x, p as int) {
                was.lemma_under_depth(m, p as int);
                was.lemma_under_depth(x, p as int);
            } else {
            }
        }
        assert forall|s: int, i: int|
            0 <= s < c.stacks.len() && 0 <= i < c.stacks[s].len() implies #[trigger] c.member_ok(
            s,
            i,
        ) by {
            assert(self.member_ok(s, i));
        }
    }

    /// What is under what depends on bindings and depths alone.
    pub proof fn lemma_same_under(self, was: Rep, x: int, p: int)
        requires
            self.parent == was.parent,
            self.depth == was.depth,
        ensures
            self.under(x, p) == was.under(x, p),
        decreases self.depth[x],
    {
        if x != p && 0 <= x < self.parent.len() && 0 <= self.parent[x] < self.depth.len()
            && self.parent[x] != x && self.depth[self.parent[x] as int] < self.depth[x] {
            self.lemma_same_under(was, self.parent[x] as int, p);
        }
    }

    /// Binding in the bookkeeping binds in the piles.
    pub proof fn lemma_bound_view(self, planes: Map<usize, NcPlaneView>, p: usize, q: usize)
        requires
            self.is_live(p as int),
            self.parent.len() == self.live.len(),
        ensures
            self.bound_family(p, q).view(planes) == self.view(planes).bound(p, q),
    {
        let a = self.bound_family(p, q).view(planes);
        let b = self.view(planes).bound(p, q);
        assert(a.parent =~= b.parent);
        assert(a.z_order =~= b.z_order);
    }
}

impl NcPiles {
    /// Whether `x` is `p` or is bound to `p` directly or through other
    /// planes.
    pub(crate) fn is_under(&self, x: usize, p: usize) -> (b: bool)
        requires
            self.rep().wf(),
            self.rep().is_live(x as int),
        ensures
            b == self.rep().under(x as int, p as int),
            b == self@.in_family(x, p),
    {
        let ghost a = self.rep();
        let mut cur: usize = x;
        proof {
            a.lemma_under_family(self.plane_views(), x, p);
            assert(a.link_ok(cur as int));
        }
        while cur != p && self.parent[cur] != cur
            invariant
                a == self.rep(),
                a.wf(),
                a.is_live(cur as int),
                a.under(x as int, p as int) == a.under(cur as int, p as int),
            decreases a.depth[cur as int],
        {
            proof {
                assert(a.link_ok(cur as int));
                a.lemma_under_step(cur as int, p as int);
                assert(a.link_ok(a.parent[cur as int] as int));
            }
            cur = self.parent[cur];
        }
        proof {
            a.lemma_under_step(cur as int, p as int);
        }
        cur == p
    }

    /// One flag for each plane number: set for `p` and all that is bound to
    /// it, directly or through other planes.
    pub(crate) fn mark_family(&self, p: usize) -> (marks: Vec<bool>)
        requires
            self.rep().wf(),
        ensures
            marks.len() == self.planes.len(),
            forall|x: usize|
                x < marks.len() ==> marks[x as int] == (self.rep().is_live(x as int)
                    && self.rep().under(x as int, p as int)),
            forall|x: usize| x < marks.len() ==> marks[x as int] == self@.family(p).contains(x),
            forall|x: usize| self@.family(p).contains(x) ==> x < marks.len(),
    {
        let mut marks: Vec<bool> = Vec::new();
        let mut x: usize = 0;
        while x < self.planes.len()
            invariant
                x <= self.planes.len(),
                marks.len() == x,
                self.rep().wf(),
                forall|k: usize|
                    k < x ==> marks[k as int] == (self.rep().is_live(k as int)
                        && self.rep().under(k as int, p as int)),
                forall|k: usize| k < x ==> marks[k as int] == self@.family(p).contains(k),
            decreases self.planes.len() - x,
        {
            let inside: bool = self.planes[x].is_some() && self.is_under(x, p);
            marks.push(inside);
            x = x + 1;
        }
        marks
    }

    /// One flag for each plane number: set for `p` alone.
    pub(crate) fn mark_one(&self, p: usize) -> (marks: Vec<bool>)
        ensures
            marks.len() == self.planes.len(),
            forall|x: usize| x < marks.len() ==> marks[x as int] == set![p].contains(x),
    {
        let mut marks: Vec<bool> = Vec::new();
        let mut x: usize = 0;
        while x < self.planes.len()
            invariant
                x <= self.planes.len(),
                marks.len() == x,
                forall|k: usize| k < x ==> marks[k as int] == (k == p),
            decreases self.planes.len() - x,
        {
            marks.push(x == p);
            x = x + 1;
        }
        marks
    }

    /// Binds the planes that are bound to `p` to what `p` is bound to, or
    /// makes them roots if `p` is a root.
    pub(crate) fn rebind_children(&mut self, p: usize)
        requires
            old(self).rep().wf(),
            old(self).rep().is_live(p as int),
        ensures
            final(self).planes == old(self).planes,
            final(self).screen() == old(self).screen(),
            final(self).pile == old(self).pile,
            final(self).stacks == old(self).stacks,
            final(self).rep() == old(self).rep().rebound(p),
    {
        let ghost a = self.rep();
        let up: usize = self.parent[p];
        let n: usize = self.parent.len();
        let mut x: usize = 0;
        while x < n
            invariant
                x <= n,
                n == self.parent.len(),
                n == a.parent.len(),
                n == self.planes.len(),
                p < n,
                up == a.parent[p as int],
                self.planes == old(self).planes,
                self.screen() == old(self).screen(),
                self.pile == old(self).pile,
                self.stacks == old(self).stacks,
                self.depth == old(self).depth,
                a == old(self).rep(),
                forall|k: int|
                    0 <= k < n ==> (#[trigger] self.parent[k]) == if k < x {
                        a.rebound(p).parent[k]
                    } else {
                        a.parent[k]
                    },
            decreases n - x,
        {
            if x != p && self.planes[x].is_some() && self.parent[x] == p {
                if up == p {
                    self.parent.set(x, x);
                } else {
                    self.parent.set(x, up);
                }
            }
            x = x + 1;
        }
        self.depth = Ghost(a.rebound(p).depth);
        proof {
            let b = self.rep();
            let want = a.rebound(p);
            assert(b.live =~= want.live);
            assert(b.parent =~= want.parent);
            assert(b.stacks =~= want.stacks);
        }
    }

    /// Binds `p` to `q`.
    pub(crate) fn bind(&mut self, p: usize, q: usize)
        requires
            p < old(self).parent.len(),
        ensures
            final(self).planes == old(self).planes,
            final(self).screen() == old(self).screen(),
            final(self).pile == old(self).pile,
            final(self).stacks == old(self).stacks,
            final(self).rep() == old(self).rep().bound_family(p, q),
    {
        let ghost a = self.rep();
        self.parent.set(p, q);
        self.depth = Ghost(a.bound_family(p, q).depth);
        proof {
            let b = self.rep();
            let want = a.bound_family(p, q);
            assert(b.live =~= want.live);
            assert(b.stacks =~= want.stacks);
        }
    }
}

} // verus!
