//! How the piles are kept, and why that is a faithful way to keep them.
//!
//! Planes are numbered. For each number there is a flag that says whether
//! the plane exists, the number of the plane it is bound to, and the number
//! of the stack that holds the order of its pile. A stack lists the planes
//! of one pile from top to bottom; a stack that is not in use is empty.
//! Beside these stands, for each plane, its depth in the forest of
//! bindings, which is never computed and only serves to show that the
//! bindings form no cycle.

use vstd::prelude::*;
use crate::pile::order::{lemma_split, lemma_split_apart, lemma_spliced, only, spliced, without};
use crate::pile::view::NcPilesView;
use crate::plane::NcPlaneView;

verus! {

/// The bookkeeping of the piles, as plain sequences.
pub struct Rep {
    /// Whether the plane of each number exists.
    pub live: Seq<bool>,
    /// The plane that each plane is bound to.
    pub parent: Seq<usize>,
    /// The stack of each plane.
    pub pile: Seq<usize>,
    /// The order of each pile, top first.
    pub stacks: Seq<Seq<usize>>,
    /// The number of bindings between each plane and its root.
    pub depth: Seq<nat>,
}

impl Rep {
    /// Whether a plane exists.
    pub open spec fn is_live(self, p: int) -> bool {
        0 <= p < self.live.len() && self.live[p]
    }

    /// What holds of a plane that exists: the plane it is bound to exists
    /// and has the same stack, the stack lists the plane, and the depth is
    /// zero for a root and one more than the parent's for any other plane.
    pub open spec fn link_ok(self, p: int) -> bool {
        let par = self.parent[p] as int;
        &&& self.is_live(par)
        &&& self.pile[p] < self.stacks.len()
        &&& self.pile[par] == self.pile[p]
        &&& self.stacks[self.pile[p] as int].contains(p as usize)
        &&& if par == p {
            self.depth[p] == 0
        } else {
            self.depth[p] == self.depth[par] + 1
        }
    }

    /// What holds of an entry of a stack: it is a plane that exists and
    /// has this stack.
    pub open spec fn member_ok(self, s: int, i: int) -> bool {
        let q = self.stacks[s][i] as int;
        self.is_live(q) && self.pile[q] == s
    }

    /// What holds of the bookkeeping as a whole.
    pub open spec fn wf(self) -> bool {
        &&& self.live.len() <= usize::MAX
        &&& self.parent.len() == self.live.len()
        &&& self.pile.len() == self.live.len()
        &&& self.depth.len() == self.live.len()
        &&& forall|p: int| 0 <= p < self.live.len() && self.live[p] ==> #[trigger] self.link_ok(p)
        &&& forall|s: int|
            0 <= s < self.stacks.len() ==> (#[trigger] self.stacks[s]).no_duplicates()
        &&& forall|s: int, i: int|
            0 <= s < self.stacks.len() && 0 <= i < self.stacks[s].len()
                ==> #[trigger] self.member_ok(s, i)
    }

    /// What holds of a plane that exists, as far as the stacks go: it has
    /// a stack, and the stack lists it.
    pub open spec fn placed_ok(self, p: int) -> bool {
        self.pile[p] < self.stacks.len() && self.stacks[self.pile[p] as int].contains(p as usize)
    }

    /// What holds of the stacks by themselves: no stack lists a plane
    /// twice, every entry is a plane that exists and has that stack, and
    /// every plane that exists is listed by its stack.
    pub open spec fn stacks_ok(self) -> bool {
        &&& self.live.len() <= usize::MAX
        &&& self.pile.len() == self.live.len()
        &&& forall|p: int| 0 <= p < self.live.len() && self.live[p] ==> #[trigger] self.placed_ok(p)
        &&& forall|s: int|
            0 <= s < self.stacks.len() ==> (#[trigger] self.stacks[s]).no_duplicates()
        &&& forall|s: int, i: int|
            0 <= s < self.stacks.len() && 0 <= i < self.stacks[s].len()
                ==> #[trigger] self.member_ok(s, i)
    }

    /// Whether every one of `movers` exists and has the stack `src`.
    pub open spec fn movers_in(self, movers: Set<usize>, src: int) -> bool {
        forall|x: usize| #[trigger]
            movers.contains(x) ==> self.is_live(x as int) && self.pile[x as int] == src
    }

    /// The bookkeeping after `movers`, planes of the stack `src`, were put
    /// as a block into the stack `dest`, before position `at` of what that
    /// stack holds besides them.
    pub open spec fn restacked(self, movers: Set<usize>, src: usize, dest: usize, at: int) -> Rep {
        let merged = spliced(
            without(self.stacks[dest as int], movers),
            at,
            only(self.stacks[src as int], movers),
        );
        Rep {
            pile: Seq::new(
                self.pile.len(),
                |x: int|
                    if movers.contains(x as usize) {
                        dest
                    } else {
                        self.pile[x]
                    },
            ),
            stacks: Seq::new(
                self.stacks.len(),
                |s: int|
                    if s == dest {
                        merged
                    } else if s == src {
                        without(self.stacks[src as int], movers)
                    } else {
                        self.stacks[s]
                    },
            ),
            ..self
        }
    }

    /// Whether `x` is `p` or is bound to `p` directly or through other
    /// planes, found by walking up from `x`.
    pub open spec fn under(self, x: int, p: int) -> bool
        decreases self.depth[x],
    {
        x == p || (0 <= x < self.parent.len() && 0 <= self.parent[x] < self.depth.len()
            && self.parent[x] != x && self.depth[self.parent[x] as int] < self.depth[x]
            && self.under(self.parent[x] as int, p))
    }

    /// The piles that the bookkeeping stands for, with what the planes are
    /// taken from `planes`.
    pub open spec fn view(self, planes: Map<usize, NcPlaneView>) -> NcPilesView {
        NcPilesView {
            planes,
            parent: Map::new(|p: usize| self.is_live(p as int), |p: usize| self.parent[p as int]),
            z_order: Map::new(
                |p: usize| self.is_live(p as int),
                |p: usize| self.stacks[self.pile[p as int] as int],
            ),
        }
    }

    /// A plane that is under another one is at least as deep.
    pub proof fn lemma_under_depth(self, x: int, p: int)
        requires
            self.wf(),
            self.is_live(x),
            self.under(x, p),
        ensures
            self.depth[x] >= self.depth[p] || x == p,
            self.is_live(p),
        decreases self.depth[x],
    {
        if x != p {
            assert(self.link_ok(x));
            self.lemma_under_depth(self.parent[x] as int, p);
        }
    }

    /// A plane is under another one exactly when its parent is, unless it
    /// is that plane or a root.
    pub proof fn lemma_under_step(self, x: int, p: int)
        requires
            self.wf(),
            self.is_live(x),
        ensures
            self.under(x, p) <==> x == p || (self.parent[x] != x && self.under(
                self.parent[x] as int,
                p,
            )),
    {
        assert(self.link_ok(x));
    }

    /// Walking up from a plane stays among the planes that exist, and
    /// reaches the root after as many steps as the plane is deep.
    pub proof fn lemma_ancestors(self, planes: Map<usize, NcPlaneView>, x: usize, n: nat)
        requires
            self.wf(),
            self.is_live(x as int),
        ensures
            self.is_live(self.view(planes).nth_ancestor(x, n) as int),
            n >= self.depth[x as int] ==> self.view(planes).is_root(
                self.view(planes).nth_ancestor(x, n),
            ),
            self.pile[self.view(planes).nth_ancestor(x, n) as int] == self.pile[x as int],
        decreases n,
    {
        assert(self.link_ok(x as int));
        let v = self.view(planes);
        if n > 0 {
            assert(v.parent[x] == self.parent[x as int]);
            self.lemma_ancestors(planes, self.parent[x as int], (n - 1) as nat);
        }
    }

    /// Walking up finds exactly the planes that `under` finds.
    pub proof fn lemma_under_family(self, planes: Map<usize, NcPlaneView>, x: usize, p: usize)
        requires
            self.wf(),
            self.is_live(x as int),
        ensures
            self.under(x as int, p as int) <==> self.view(planes).in_family(x, p),
    {
        let v = self.view(planes);
        if self.under(x as int, p as int) {
            let n = self.lemma_under_witness(planes, x, p);
        }
        if v.in_family(x, p) {
            let n = choose|n: nat| v.nth_ancestor(x, n) == p;
            self.lemma_witness_under(planes, x, p, n);
        }
    }

    /// A plane that is under another one reaches it in some number of
    /// steps.
    pub proof fn lemma_under_witness(
        self,
        planes: Map<usize, NcPlaneView>,
        x: usize,
        p: usize,
    ) -> (n: nat)
        requires
            self.wf(),
            self.is_live(x as int),
            self.under(x as int, p as int),
        ensures
            self.view(planes).nth_ancestor(x, n) == p,
        decreases self.depth[x as int],
    {
        let v = self.view(planes);
        if x == p {
            0
        } else {
            assert(self.link_ok(x as int));
            assert(v.parent[x] == self.parent[x as int]);
            let m = self.lemma_under_witness(planes, self.parent[x as int], p);
            m + 1
        }
    }

    /// A plane that reaches another one in some number of steps is under
    /// it.
    pub proof fn lemma_witness_under(
        self,
        planes: Map<usize, NcPlaneView>,
        x: usize,
        p: usize,
        n: nat,
    )
        requires
            self.wf(),
            self.is_live(x as int),
            self.view(planes).nth_ancestor(x, n) == p,
        ensures
            self.under(x as int, p as int),
        decreases n,
    {
        let v = self.view(planes);
        assert(self.link_ok(x as int));
        if n > 0 && x != p {
            assert(v.parent[x] == self.parent[x as int]);
            self.lemma_witness_under(planes, self.parent[x as int], p, (n - 1) as nat);
        }
    }

    /// Well-formed bookkeeping has well-formed stacks.
    pub proof fn lemma_wf_stacks(self)
        requires
            self.wf(),
        ensures
            self.stacks_ok(),
    {
        assert forall|p: int| 0 <= p < self.live.len() && self.live[p] implies #[trigger] self.placed_ok(
            p,
        ) by {
            assert(self.link_ok(p));
        }
    }

    /// Restacking keeps the stacks in order.
    pub proof fn lemma_restacked_stacks(self, movers: Set<usize>, src: usize, dest: usize, at: int)
        requires
            self.stacks_ok(),
            0 <= src < self.stacks.len(),
            0 <= dest < self.stacks.len(),
            self.movers_in(movers, src as int),
            0 <= at <= without(self.stacks[dest as int], movers).len(),
        ensures
            self.restacked(movers, src, dest, at).stacks_ok(),
    {
        let new = self.restacked(movers, src, dest, at);
        let base = without(self.stacks[dest as int], movers);
        let block = only(self.stacks[src as int], movers);
        let merged = spliced(base, at, block);
        let rest = without(self.stacks[src as int], movers);
        lemma_split(self.stacks[dest as int], movers);
        lemma_split(self.stacks[src as int], movers);
        assert(self.stacks[dest as int].no_duplicates());
        assert(self.stacks[src as int].no_duplicates());
        assert forall|i: int, j: int| 0 <= i < base.len() && 0 <= j < block.len() implies base[i]
            != block[j] by {
            assert(base.contains(base[i]));
            assert(block.contains(block[j]));
        }
        lemma_spliced(base, at, block);
        assert forall|s: int| 0 <= s < new.stacks.len() implies (
        #[trigger] new.stacks[s]).no_duplicates() by {
            assert(self.stacks[s].no_duplicates());
        }
        assert forall|s: int, i: int|
            0 <= s < new.stacks.len() && 0 <= i < new.stacks[s].len() implies #[trigger] new.member_ok(
            s,
            i,
        ) by {
            let q = new.stacks[s][i];
            assert(new.stacks[s].contains(q));
            if s == dest {
                assert(merged.contains(q));
                if block.contains(q) {
                    assert(movers.contains(q));
                } else {
                    assert(base.contains(q));
                    let k = choose|k: int|
                        0 <= k < self.stacks[dest as int].len() && self.stacks[dest as int][k] == q;
                    assert(self.member_ok(dest as int, k));
                }
            } else if s == src {
                assert(rest.contains(q));
                let k = choose|k: int| 0 <= k < self.stacks[src as int].len() && self.stacks[src as int][k] == q;
                assert(self.member_ok(src as int, k));
            } else {
                assert(self.member_ok(s, i));
            }
        }
        assert forall|p: int| 0 <= p < new.live.len() && new.live[p] implies #[trigger] new.placed_ok(
            p,
        ) by {
            assert(self.placed_ok(p));
            if movers.contains(p as usize) {
                assert(block.contains(p as usize));
                assert(merged.contains(p as usize));
            } else if self.pile[p] == dest {
                assert(base.contains(p as usize));
                assert(merged.contains(p as usize));
            } else if self.pile[p] == src {
                assert(rest.contains(p as usize));
            }
        }
    }

    /// Restacking the bookkeeping restacks the piles.
    pub proof fn lemma_restacked_view(
        self,
        planes: Map<usize, NcPlaneView>,
        movers: Set<usize>,
        src: usize,
        dest: usize,
        at: int,
    )
        requires
            self.stacks_ok(),
            0 <= src < self.stacks.len(),
            0 <= dest < self.stacks.len(),
            self.movers_in(movers, src as int),
        ensures
            self.restacked(movers, src, dest, at).view(planes) == self.view(planes).restacked(
                movers,
                self.stacks[src as int],
                self.stacks[dest as int],
                at,
            ),
    {
        let new = self.restacked(movers, src, dest, at);
        let v = self.view(planes);
        let w = v.restacked(movers, self.stacks[src as int], self.stacks[dest as int], at);
        let base = without(self.stacks[dest as int], movers);
        lemma_split(self.stacks[dest as int], movers);
        lemma_split(self.stacks[src as int], movers);
        assert(new.view(planes).parent =~= w.parent);
        assert(new.view(planes).z_order.dom() =~= w.z_order.dom());
        assert forall|x: usize| new.view(planes).z_order.dom().contains(x) implies #[trigger] new.view(
            planes,
        ).z_order[x] == w.z_order[x] by {
            let px = self.pile[x as int] as int;
            assert(self.placed_ok(x as int));
            if !movers.contains(x) {
                if base.contains(x) {
                    let k = choose|k: int|
                        0 <= k < self.stacks[dest as int].len() && self.stacks[dest as int][k] == x;
                    assert(self.member_ok(dest as int, k));
                } else if self.stacks[src as int].contains(x) {
                    let k = choose|k: int|
                        0 <= k < self.stacks[src as int].len() && self.stacks[src as int][k] == x;
                    assert(self.member_ok(src as int, k));
                }
            }
        }
        assert(new.view(planes).z_order =~= w.z_order);
    }

    /// Bookkeeping that is in order stands for piles that are in order.
    pub proof fn lemma_view_wf(self, planes: Map<usize, NcPlaneView>)
        requires
            self.wf(),
            planes.dom() == Set::new(|p: usize| self.is_live(p as int)),
        ensures
            self.view(planes).wf(),
    {
        let v = self.view(planes);
        assert(v.planes.dom() =~= v.parent.dom());
        assert(v.z_order.dom() =~= v.parent.dom());
        assert forall|p: usize| v.contains(p) implies #[trigger] v.plane_ok(p) by {
            assert(self.link_ok(p as int));
            let s = self.pile[p as int] as int;
            let order = self.stacks[s];
            assert(v.z_order[p] == order);
            assert forall|i: int| 0 <= i < order.len() implies v.contains(#[trigger] order[i])
                && v.z_order[order[i]] == order by {
                assert(self.member_ok(s, i));
            }
            self.lemma_ancestors(planes, p, self.depth[p as int]);
        }
    }
}

} // verus!
