//! Taking planes out of the order of one pile and putting them into the
//! order of another, or back into their own at another place.

use vstd::prelude::*;
use crate::pile::order::{lemma_position, lemma_split, lemma_split_step, only, spliced, without};
use crate::pile::NcPiles;

verus! {

/// Where a block of planes goes in an order.
#[derive(Clone, Copy, Debug)]
pub enum Anchor {
    /// Above everything.
    Top,
    /// Below everything.
    Bottom,
    /// Just above a plane.
    Above(usize),
    /// Just below a plane.
    Below(usize),
}

/// The position in `base` before which a block goes.
pub open spec fn anchor_at(base: Seq<usize>, anchor: Anchor) -> int {
    match anchor {
        Anchor::Top => 0,
        Anchor::Bottom => base.len() as int,
        Anchor::Above(t) => base.index_of(t),
        Anchor::Below(t) => base.index_of(t) + 1,
    }
}

/// Whether an anchor names a place in `base`.
pub open spec fn anchor_ok(base: Seq<usize>, anchor: Anchor) -> bool {
    match anchor {
        Anchor::Top => true,
        Anchor::Bottom => true,
        Anchor::Above(t) => base.contains(t),
        Anchor::Below(t) => base.contains(t),
    }
}

/// The planes of an order that carry the mark `want`.
pub fn pick(order: &Vec<usize>, marks: &Vec<bool>, Ghost(movers): Ghost<Set<usize>>, want: bool) -> (out:
    Vec<usize>)
    requires
        forall|i: int| 0 <= i < order.len() ==> (#[trigger] order[i]) < marks.len(),
        forall|x: usize| x < marks.len() ==> marks[x as int] == movers.contains(x),
    ensures
        out@ == if want {
            only(order@, movers)
        } else {
            without(order@, movers)
        },
{
    let mut out: Vec<usize> = Vec::new();
    let mut i: usize = 0;
    proof {
        assert(order@.take(0) =~= Seq::<usize>::empty());
        reveal(Seq::filter);
    }
    while i < order.len()
        invariant
            i <= order.len(),
            forall|k: int| 0 <= k < order.len() ==> (#[trigger] order[k]) < marks.len(),
            forall|x: usize| x < marks.len() ==> marks[x as int] == movers.contains(x),
            out@ == if want {
                only(order@.take(i as int), movers)
            } else {
                without(order@.take(i as int), movers)
            },
        decreases order.len() - i,
    {
        let x: usize = order[i];
        proof {
            lemma_split_step(order@, movers, i as int);
        }
        if marks[x] == want {
            out.push(x);
        }
        i = i + 1;
    }
    proof {
        assert(order@.take(i as int) =~= order@);
    }
    out
}

/// The position of a plane in an order that holds it once.
pub fn position(order: &Vec<usize>, t: usize) -> (at: usize)
    requires
        order@.no_duplicates(),
        order@.contains(t),
    ensures
        at == order@.index_of(t),
        at < order.len(),
        order[at as int] == t,
{
    proof {
        lemma_position(order@, t);
    }
    let mut i: usize = 0;
    while i < order.len() && order[i] != t
        invariant
            i <= order.len(),
            order@.contains(t),
            forall|k: int| 0 <= k < i ==> order[k] != t,
        decreases order.len() - i,
    {
        i = i + 1;
    }
    proof {
        if i == order.len() {
            let k = choose|k: int| 0 <= k < order.len() && order[k] == t;
            assert(false);
        }
    }
    i
}

/// An order with a block put in before a position.
pub fn splice(base: &Vec<usize>, at: usize, block: &Vec<usize>) -> (out: Vec<usize>)
    requires
        at <= base.len(),
    ensures
        out@ == spliced(base@, at as int, block@),
{
    let mut out: Vec<usize> = Vec::new();
    let mut i: usize = 0;
    while i < at
        invariant
            i <= at <= base.len(),
            out@ == base@.take(i as int),
        decreases at - i,
    {
        out.push(base[i]);
        proof {
            assert(base@.take(i + 1) =~= base@.take(i as int).push(base[i as int]));
        }
        i = i + 1;
    }
    let mut j: usize = 0;
    while j < block.len()
        invariant
            j <= block.len(),
            at <= base.len(),
            out@ == base@.take(at as int) + block@.take(j as int),
        decreases block.len() - j,
    {
        out.push(block[j]);
        proof {
            assert(block@.take(j + 1) =~= block@.take(j as int).push(block[j as int]));
            assert(base@.take(at as int) + block@.take(j + 1) =~= (base@.take(at as int)
                + block@.take(j as int)).push(block[j as int]));
        }
        j = j + 1;
    }
    let mut k: usize = at;
    while k < base.len()
        invariant
            at <= k <= base.len(),
            out@ == base@.take(at as int) + block@ + base@.subrange(at as int, k as int),
        decreases base.len() - k,
    {
        out.push(base[k]);
        proof {
            assert(base@.subrange(at as int, k + 1) =~= base@.subrange(at as int, k as int).push(
                base[k as int],
            ));
            assert(base@.take(at as int) + block@ + base@.subrange(at as int, k + 1) =~= (
            base@.take(at as int) + block@ + base@.subrange(at as int, k as int)).push(
                base[k as int],
            ));
        }
        k = k + 1;
    }
    proof {
        assert(block@.take(block.len() as int) =~= block@);
        assert(base@.subrange(at as int, base.len() as int) =~= base@.skip(at as int));
    }
    out
}

impl NcPiles {
    /// A stack that is not in use: one that was emptied, or a new one.
    pub(crate) fn alloc_stack(&mut self) -> (s: usize)
        requires
            old(self).rep().stacks_ok(),
        ensures
            s < final(self).stacks.len(),
            final(self).stacks[s as int]@.len() == 0,
            final(self).rep().stacks_ok(),
            final(self).planes == old(self).planes,
            final(self).screen() == old(self).screen(),
            final(self).parent == old(self).parent,
            final(self).pile == old(self).pile,
            final(self).depth == old(self).depth,
            final(self).stacks.len() >= old(self).stacks.len(),
            forall|k: int|
                0 <= k < old(self).stacks.len() ==> (#[trigger] final(self).stacks[k])
                    == old(self).stacks[k],
            final(self).rep().wf() == old(self).rep().wf(),
            final(self)@ == old(self)@,
    {
        let mut i: usize = 0;
        while i < self.stacks.len() && self.stacks[i].len() != 0
            invariant
                i <= self.stacks.len(),
                *self == *old(self),
            decreases self.stacks.len() - i,
        {
            i = i + 1;
        }
        if i == self.stacks.len() {
            self.stacks.push(Vec::new());
        }
        if i < self.snapshots.len() {
            self.snapshots.set(i, None);
        }
        proof {
            let a = old(self).rep();
            let b = self.rep();
            assert(b.live =~= a.live);
            assert forall|s: int, k: int|
                0 <= s < b.stacks.len() && 0 <= k < b.stacks[s].len() implies #[trigger] b.member_ok(
                s,
                k,
            ) by {
                assert(a.member_ok(s, k));
            }
            assert forall|p: int| 0 <= p < b.live.len() && b.live[p] implies #[trigger] b.placed_ok(
                p,
            ) by {
                assert(a.placed_ok(p));
            }
            assert forall|s: int| 0 <= s < b.stacks.len() implies (
            #[trigger] b.stacks[s]).no_duplicates() by {
                if s < a.stacks.len() {
                    assert(a.stacks[s].no_duplicates());
                }
            }
            if a.wf() {
                assert forall|p: int| 0 <= p < b.live.len() && b.live[p] implies #[trigger] b.link_ok(
                    p,
                ) by {
                    assert(a.link_ok(p));
                }
            }
            if b.wf() {
                assert forall|p: int| 0 <= p < a.live.len() && a.live[p] implies #[trigger] a.link_ok(
                    p,
                ) by {
                    assert(b.link_ok(p));
                    assert(a.placed_ok(p));
                }
                assert forall|s: int| 0 <= s < a.stacks.len() implies (
                #[trigger] a.stacks[s]).no_duplicates() by {}
            }
            assert(self@.z_order =~= old(self)@.z_order) by {
                assert forall|p: usize| self@.z_order.dom().contains(p) implies self@.z_order[p]
                    == old(self)@.z_order[p] by {
                    assert(a.placed_ok(p as int));
                }
            }
            assert(self@.parent =~= old(self)@.parent);
            assert(self@.planes =~= old(self)@.planes);
        }
        i
    }

    /// Takes the marked planes out of the stack `src` and puts them as a
    /// block into the stack `dest`, at the place that the anchor names in
    /// what `dest` holds besides them. The bindings are left alone.
    pub(crate) fn restack(
        &mut self,
        marks: &Vec<bool>,
        Ghost(movers): Ghost<Set<usize>>,
        src: usize,
        dest: usize,
        anchor: Anchor,
    )
        requires
            old(self).rep().stacks_ok(),
            src < old(self).stacks.len(),
            dest < old(self).stacks.len(),
            marks.len() == old(self).planes.len(),
            forall|x: usize| x < marks.len() ==> marks[x as int] == movers.contains(x),
            old(self).rep().movers_in(movers, src as int),
            anchor_ok(without(old(self).stacks[dest as int]@, movers), anchor),
        ensures
            final(self).planes == old(self).planes,
            final(self).screen() == old(self).screen(),
            final(self).snapshots == old(self).snapshots,
            final(self).parent == old(self).parent,
            final(self).depth == old(self).depth,
            final(self).rep() == old(self).rep().restacked(
                movers,
                src,
                dest,
                anchor_at(without(old(self).stacks[dest as int]@, movers), anchor),
            ),
            0 <= anchor_at(without(old(self).stacks[dest as int]@, movers), anchor) <= without(
                old(self).stacks[dest as int]@,
                movers,
            ).len(),
    {
        let ghost a = self.rep();
        proof {
            assert forall|i: int| 0 <= i < self.stacks[src as int].len() implies (
            #[trigger] self.stacks[src as int][i]) < marks.len() by {
                assert(a.member_ok(src as int, i));
            }
            assert forall|i: int| 0 <= i < self.stacks[dest as int].len() implies (
            #[trigger] self.stacks[dest as int][i]) < marks.len() by {
                assert(a.member_ok(dest as int, i));
            }
            lemma_split(a.stacks[dest as int], movers);
            lemma_split(a.stacks[src as int], movers);
            assert(a.stacks[dest as int].no_duplicates());
        }
        let block: Vec<usize> = pick(&self.stacks[src], marks, Ghost(movers), true);
        let rest: Vec<usize> = pick(&self.stacks[src], marks, Ghost(movers), false);
        let base: Vec<usize> = pick(&self.stacks[dest], marks, Ghost(movers), false);
        let at: usize = match anchor {
            Anchor::Top => 0,
            Anchor::Bottom => base.len(),
            Anchor::Above(t) => position(&base, t),
            Anchor::Below(t) => position(&base, t) + 1,
        };
        let merged: Vec<usize> = splice(&base, at, &block);
        if src != dest {
            self.stacks.set(src, rest);
        }
        self.stacks.set(dest, merged);
        let n: usize = self.pile.len();
        let mut x: usize = 0;
        while x < n
            invariant
                x <= n,
                n == self.pile.len(),
                n == a.pile.len(),
                n == marks.len(),
                self.planes == old(self).planes,
                self.screen() == old(self).screen(),
                self.snapshots == old(self).snapshots,
                self.parent == old(self).parent,
                self.depth == old(self).depth,
                self.stacks.len() == old(self).stacks.len(),
                forall|s: int|
                    0 <= s < self.stacks.len() ==> (#[trigger] self.stacks[s])@ == if s == dest {
                        merged@
                    } else if s == src {
                        rest@
                    } else {
                        a.stacks[s]
                    },
                forall|x: usize| x < marks.len() ==> marks[x as int] == movers.contains(x),
                forall|k: int|
                    0 <= k < n ==> (#[trigger] self.pile[k]) == if k < x && movers.contains(
                        k as usize,
                    ) {
                        dest
                    } else {
                        a.pile[k]
                    },
            decreases n - x,
        {
            if marks[x] {
                self.pile.set(x, dest);
            }
            x = x + 1;
        }
        proof {
            let b = self.rep();
            let want = a.restacked(movers, src, dest, at as int);
            assert(b.live =~= want.live);
            assert(b.pile =~= want.pile);
            assert(b.stacks =~= want.stacks);
        }
    }
}

} // verus!
