//! What a set of piles is, as plain values, and what each operation makes
//! of it.
//!
//! Piles are not objects of their own. The state is three maps over the
//! planes that exist: what each plane is, which plane it is bound to, and
//! the order of its pile along the z-axis, top first. Two planes are in
//! the same pile when they have the same order.

use vstd::prelude::*;
use crate::pile::order::{only, spliced, without};
use crate::plane::NcPlaneView;

verus! {

/// The planes that exist, their bindings, and the order of their piles.
pub struct NcPilesView {
    /// What each plane is.
    pub planes: Map<usize, NcPlaneView>,
    /// The plane that each plane is bound to: itself for a root.
    pub parent: Map<usize, usize>,
    /// For each plane, the planes of its pile from top to bottom.
    pub z_order: Map<usize, Seq<usize>>,
}

impl NcPilesView {
    /// Whether a plane exists.
    pub open spec fn contains(self, p: usize) -> bool {
        self.parent.dom().contains(p)
    }

    /// Whether a plane is bound to itself.
    pub open spec fn is_root(self, p: usize) -> bool {
        self.contains(p) && self.parent[p] == p
    }

    /// Whether two planes are in one pile.
    pub open spec fn same_pile(self, p: usize, q: usize) -> bool {
        self.contains(p) && self.contains(q) && self.z_order[p].contains(q)
    }

    /// The plane reached from `p` by following the binding `n` times.
    pub open spec fn nth_ancestor(self, p: usize, n: nat) -> usize
        decreases n,
    {
        if n == 0 {
            p
        } else {
            self.nth_ancestor(self.parent[p], (n - 1) as nat)
        }
    }

    /// Whether `x` is `p` or is bound to `p` directly or through other
    /// planes.
    pub open spec fn in_family(self, x: usize, p: usize) -> bool {
        self.contains(x) && exists|n: nat| self.nth_ancestor(x, n) == p
    }

    /// A plane and all that is bound to it, directly or through other
    /// planes.
    pub open spec fn family(self, p: usize) -> Set<usize> {
        Set::new(|x: usize| self.in_family(x, p))
    }

    /// Whether `a` is above `b` on the z-axis of one pile.
    pub open spec fn is_above(self, a: usize, b: usize) -> bool {
        self.same_pile(a, b) && self.z_order[a].index_of(a) < self.z_order[a].index_of(b)
    }

    /// The top of the pile of `p`.
    pub open spec fn top(self, p: usize) -> usize {
        self.z_order[p].first()
    }

    /// The bottom of the pile of `p`.
    pub open spec fn bottom(self, p: usize) -> usize {
        self.z_order[p].last()
    }

    /// What holds of a plane that exists: it is in the order of its pile,
    /// once; the planes of that order exist and have the same order; the
    /// plane it is bound to is one of them; and following the bindings from
    /// it ends at a root.
    pub open spec fn plane_ok(self, p: usize) -> bool {
        &&& self.z_order[p].contains(p)
        &&& self.z_order[p].no_duplicates()
        &&& forall|i: int|
            0 <= i < self.z_order[p].len() ==> self.contains(#[trigger] self.z_order[p][i])
                && self.z_order[self.z_order[p][i]] == self.z_order[p]
        &&& self.contains(self.parent[p])
        &&& self.z_order[self.parent[p]] == self.z_order[p]
        &&& exists|n: nat| self.is_root(#[trigger] self.nth_ancestor(p, n))
    }

    /// What holds of every state: the three maps speak of the same planes,
    /// and `plane_ok` holds of each.
    pub open spec fn wf(self) -> bool {
        &&& self.planes.dom() == self.parent.dom()
        &&& self.z_order.dom() == self.parent.dom()
        &&& forall|p: usize| self.contains(p) ==> #[trigger] self.plane_ok(p)
    }

    /// The state in which `movers`, planes of the pile with the order
    /// `from`, stand as one block in the pile with the order `onto`, before
    /// position `at` of what `onto` holds besides them. The block keeps the
    /// order that the movers had, and so does what they leave behind. With
    /// `onto` empty the block is a pile of its own.
    pub open spec fn restacked(
        self,
        movers: Set<usize>,
        from: Seq<usize>,
        onto: Seq<usize>,
        at: int,
    ) -> NcPilesView {
        let base = without(onto, movers);
        let dest = spliced(base, at, only(from, movers));
        NcPilesView {
            z_order: Map::new(
                |x: usize| self.contains(x),
                |x: usize|
                    if movers.contains(x) || base.contains(x) {
                        dest
                    } else if from.contains(x) {
                        without(from, movers)
                    } else {
                        self.z_order[x]
                    },
            ),
            ..self
        }
    }

    /// The state in which the planes bound to `p` are bound to what `p` is
    /// bound to, or are roots if `p` is a root.
    pub open spec fn rebound(self, p: usize) -> NcPilesView {
        NcPilesView {
            parent: Map::new(
                |x: usize| self.contains(x),
                |x: usize|
                    if x != p && self.parent[x] == p {
                        if self.parent[p] == p {
                            x
                        } else {
                            self.parent[p]
                        }
                    } else {
                        self.parent[x]
                    },
            ),
            ..self
        }
    }

    /// The state with `p` bound to `q`.
    pub open spec fn bound(self, p: usize, q: usize) -> NcPilesView {
        NcPilesView { parent: self.parent.insert(p, q), ..self }
    }

    /// The state with a new plane `id` that is the root, top and bottom of
    /// a new pile.
    pub open spec fn with_root(self, id: usize, plane: NcPlaneView) -> NcPilesView {
        NcPilesView {
            planes: self.planes.insert(id, plane),
            parent: self.parent.insert(id, id),
            z_order: self.z_order.insert(id, seq![id]),
        }
    }

    /// The state with a new plane `id` bound to `parent`, in the pile of
    /// `parent` and just above it.
    pub open spec fn with_bound(self, id: usize, parent: usize, plane: NcPlaneView) -> NcPilesView {
        let old_order = self.z_order[parent];
        let order = spliced(old_order, old_order.index_of(parent), seq![id]);
        NcPilesView {
            planes: self.planes.insert(id, plane),
            parent: self.parent.insert(id, parent),
            z_order: Map::new(
                |x: usize| self.contains(x) || x == id,
                |x: usize|
                    if x == id || old_order.contains(x) {
                        order
                    } else {
                        self.z_order[x]
                    },
            ),
        }
    }

    /// The state without `p`: the planes that were bound to `p` are bound
    /// to what `p` was bound to, or are roots if `p` was a root, and every
    /// other plane stands where it stood.
    pub open spec fn destroyed(self, p: usize) -> NcPilesView {
        NcPilesView {
            planes: self.planes.remove(p),
            parent: self.rebound(p).parent.remove(p),
            z_order: Map::new(
                |x: usize| self.contains(x) && x != p,
                |x: usize| without(self.z_order[x], set![p]),
            ),
        }
    }

    /// The state in which `movers`, planes of the pile of `p`, stand as one
    /// block before position `at` of what that pile holds besides them.
    pub open spec fn moved(self, movers: Set<usize>, p: usize, at: int) -> NcPilesView {
        self.restacked(movers, self.z_order[p], self.z_order[p], at)
    }

    /// The position of `target` among what the pile of `p` holds besides
    /// `movers`.
    pub open spec fn position_without(self, movers: Set<usize>, target: usize) -> int {
        without(self.z_order[target], movers).index_of(target)
    }

    /// The number of planes that the pile of `p` holds besides `movers`.
    pub open spec fn count_without(self, movers: Set<usize>, p: usize) -> int {
        without(self.z_order[p], movers).len() as int
    }

    /// The state after `p` alone was bound to `q`.
    ///
    /// Nothing changes when `p` is `q` and already a root. Else the planes
    /// bound to `p` are rebound as in `rebound`. Then `p`, bound to itself,
    /// is a pile of its own; bound to a plane of another pile, it stands
    /// just above that plane; bound to a plane of its own pile, it stays
    /// where it is on the z-axis.
    pub open spec fn reparented(self, p: usize, q: usize) -> NcPilesView {
        if p == q && self.parent[p] == p {
            self
        } else {
            let loose = self.rebound(p);
            let placed = if p == q {
                loose.restacked(set![p], self.z_order[p], Seq::empty(), 0)
            } else if !self.z_order[p].contains(q) {
                loose.restacked(
                    set![p],
                    self.z_order[p],
                    self.z_order[q],
                    self.position_without(set![p], q),
                )
            } else {
                loose
            };
            placed.bound(p, q)
        }
    }

    /// The state after `p` and all its family were bound to `q`.
    ///
    /// Nothing changes when `p` is `q` and already a root. Else the family
    /// of `p` stands as one block, in the order it had: as a pile of its
    /// own when `p` is `q`, and else just above `q` in the pile of `q`.
    pub open spec fn family_reparented(self, p: usize, q: usize) -> NcPilesView {
        if p == q && self.parent[p] == p {
            self
        } else {
            let placed = if p == q {
                self.restacked(self.family(p), self.z_order[p], Seq::empty(), 0)
            } else {
                self.restacked(
                    self.family(p),
                    self.z_order[p],
                    self.z_order[q],
                    self.position_without(self.family(p), q),
                )
            };
            placed.bound(p, q)
        }
    }
}

} // verus!
