//! What holds of piles, whatever is done with them.

use vstd::prelude::*;
use crate::pile::order::{
    among, before, beside, lemma_filter_all, lemma_filter_none, lemma_filter_order, lemma_position, lemma_split, lemma_split_apart, lemma_spliced,
    only, spliced, without,
};
use crate::pile::view::NcPilesView;
use crate::plane::NcPlaneView;

verus! {

/// A plane that follows its binding any number of times from a root is
/// still at that root.
pub proof fn lemma_root_ancestors(v: NcPilesView, p: usize, n: nat)
    requires
        v.parent[p] == p,
    ensures
        v.nth_ancestor(p, n) == p,
    decreases n,
{
    if n > 0 {
        lemma_root_ancestors(v, p, (n - 1) as nat);
    }
}

/// A plane is bound to itself exactly when it is a root of its pile: when
/// no other plane has it in its family.
pub proof fn lemma_self_bound_is_root(v: NcPilesView, p: usize)
    requires
        v.wf(),
        v.contains(p),
    ensures
        v.parent[p] == p <==> (forall|q: usize| q != p ==> !v.in_family(p, q)),
{
    if v.parent[p] == p {
        assert forall|q: usize| q != p implies !v.in_family(p, q) by {
            if v.in_family(p, q) {
                let n = choose|n: nat| v.nth_ancestor(p, n) == q;
                lemma_root_ancestors(v, p, n);
            }
        }
    } else {
        let q = v.parent[p];
        assert(v.nth_ancestor(p, 1) == v.nth_ancestor(q, 0));
        assert(v.in_family(p, q));
    }
}

/// The z-axis of a pile is a strict total order: no plane is above itself,
/// of two planes of one pile exactly one is above the other, and what is
/// above a plane is above all that the plane is above. The pile has one top
/// and one bottom, and they are one plane only if the pile has no other.
pub proof fn lemma_z_order_strict_total(v: NcPilesView, a: usize, b: usize, c: usize)
    requires
        v.wf(),
        v.same_pile(a, b),
        v.same_pile(a, c),
    ensures
        !v.is_above(a, a),
        a != b ==> (v.is_above(a, b) <==> !v.is_above(b, a)),
        v.is_above(a, b) && v.is_above(b, c) ==> v.is_above(a, c),
        v.same_pile(a, v.top(a)) && v.same_pile(a, v.bottom(a)),
        !v.is_above(b, v.top(a)),
        !v.is_above(v.bottom(a), b),
        b != v.top(a) ==> v.is_above(v.top(a), b),
        b != v.bottom(a) ==> v.is_above(b, v.bottom(a)),
        v.top(a) == v.bottom(a) <==> v.z_order[a].len() == 1,
{
    let order = v.z_order[a];
    assert(v.plane_ok(a));
    lemma_position(order, a);
    lemma_position(order, b);
    lemma_position(order, c);
    let ib = order.index_of(b);
    let ic = order.index_of(c);
    assert(v.z_order[order[ib]] == order);
    assert(v.z_order[order[ic]] == order);
    assert(v.plane_ok(b));
    assert(v.plane_ok(c));
    let top = order[0];
    let bottom = order[order.len() - 1];
    assert(order.contains(top));
    assert(order.contains(bottom));
    assert(v.z_order[top] == order);
    assert(v.z_order[bottom] == order);
    lemma_position(order, top);
    lemma_position(order, bottom);
}

/// A plane that was made as a root is the root, the top and the bottom of
/// its pile, and alone in it; no other plane is touched, and the piles stay
/// in order.
pub proof fn lemma_created_root(v: NcPilesView, id: usize, plane: NcPlaneView)
    requires
        v.wf(),
        !v.contains(id),
    ensures
        v.with_root(id, plane).wf(),
        v.with_root(id, plane).is_root(id),
        v.with_root(id, plane).top(id) == id,
        v.with_root(id, plane).bottom(id) == id,
        v.with_root(id, plane).z_order[id] == seq![id],
        forall|x: usize|
            v.contains(x) ==> v.with_root(id, plane).z_order[x] == v.z_order[x] && v.with_root(
                id,
                plane,
            ).parent[x] == v.parent[x],
{
    let w = v.with_root(id, plane);
    assert(w.planes.dom() =~= w.parent.dom());
    assert(w.z_order.dom() =~= w.parent.dom());
    assert forall|p: usize| w.contains(p) implies #[trigger] w.plane_ok(p) by {
        if p == id {
            assert(seq![id][0] == id);
            assert(w.nth_ancestor(id, 0) == id);
        } else {
            assert(v.plane_ok(p));
            let n = choose|n: nat| v.is_root(#[trigger] v.nth_ancestor(p, n));
            lemma_untouched_ancestors(v, w, p, n);
            assert(w.is_root(w.nth_ancestor(p, n)));
        }
    }
}

/// Where two states agree on the bindings of the planes of the first, they
/// agree on where following the bindings leads.
pub proof fn lemma_untouched_ancestors(v: NcPilesView, w: NcPilesView, p: usize, n: nat)
    requires
        v.wf(),
        v.contains(p),
        forall|x: usize| v.contains(x) ==> w.contains(x) && w.parent[x] == v.parent[x],
    ensures
        w.nth_ancestor(p, n) == v.nth_ancestor(p, n),
        v.contains(v.nth_ancestor(p, n)),
    decreases n,
{
    if n > 0 {
        assert(v.plane_ok(p));
        lemma_untouched_ancestors(v, w, v.parent[p], (n - 1) as nat);
    }
}

/// Binding a root to itself changes nothing, alone or with its family.
pub proof fn lemma_reparent_root_to_itself(v: NcPilesView, p: usize)
    requires
        v.is_root(p),
    ensures
        v.reparented(p, p) == v,
        v.family_reparented(p, p) == v,
{
}

/// Two piles that share a plane are one pile.
pub proof fn lemma_piles_apart(v: NcPilesView, p: usize, q: usize, x: usize)
    requires
        v.wf(),
        v.contains(p),
        v.contains(q),
        v.z_order[p].contains(x),
        v.z_order[q].contains(x),
    ensures
        v.z_order[p] == v.z_order[q],
        v.z_order[x] == v.z_order[p],
        v.contains(x),
{
    assert(v.plane_ok(p));
    assert(v.plane_ok(q));
    let i = choose|i: int| 0 <= i < v.z_order[p].len() && v.z_order[p][i] == x;
    let j = choose|j: int| 0 <= j < v.z_order[q].len() && v.z_order[q][j] == x;
    assert(v.z_order[v.z_order[p][i]] == v.z_order[p]);
    assert(v.z_order[v.z_order[q][j]] == v.z_order[q]);
}

/// A family is in the pile of its head.
pub proof fn lemma_family_in_pile(v: NcPilesView, x: usize, p: usize)
    requires
        v.wf(),
        v.in_family(x, p),
    ensures
        v.contains(p),
        v.z_order[x] == v.z_order[p],
        v.z_order[p].contains(x),
{
    let n = choose|n: nat| v.nth_ancestor(x, n) == p;
    lemma_ancestor_in_pile(v, x, n);
    assert(v.plane_ok(x));
}

/// Following the bindings stays in the pile.
pub proof fn lemma_ancestor_in_pile(v: NcPilesView, x: usize, n: nat)
    requires
        v.wf(),
        v.contains(x),
    ensures
        v.contains(v.nth_ancestor(x, n)),
        v.z_order[v.nth_ancestor(x, n)] == v.z_order[x],
    decreases n,
{
    if n > 0 {
        assert(v.plane_ok(x));
        lemma_ancestor_in_pile(v, v.parent[x], (n - 1) as nat);
    }
}

/// After a root with planes bound to it was destroyed, those planes are
/// roots of the pile that is left, and stand in it in the order they had.
pub proof fn lemma_destroyed_root(v: NcPilesView, p: usize, c: usize, d: usize)
    requires
        v.wf(),
        v.is_root(p),
        v.contains(c),
        v.contains(d),
        c != p,
        d != p,
        v.parent[c] == p,
        v.parent[d] == p,
    ensures
        !v.destroyed(p).contains(p),
        v.destroyed(p).is_root(c),
        v.destroyed(p).is_root(d),
        v.destroyed(p).same_pile(c, d),
        v.destroyed(p).z_order[c] == without(v.z_order[p], set![p]),
        before(v.z_order[p], c, d) <==> before(v.destroyed(p).z_order[c], c, d),
{
    let w = v.destroyed(p);
    let order = v.z_order[p];
    assert(v.plane_ok(c));
    assert(v.plane_ok(d));
    assert(v.plane_ok(p));
    lemma_split(order, set![p]);
    lemma_filter_order(order, beside(set![p]));
    assert(beside(set![p])(c));
    assert(beside(set![p])(d));
}

/// After a plane was bound elsewhere alone, the planes that were bound to
/// it still exist; they are bound to what it was bound to, or are roots if
/// it was a root; and they and their neighbours stand in the order they
/// had, without the plane if it left the pile.
pub proof fn lemma_reparented_children(v: NcPilesView, p: usize, q: usize, c: usize)
    requires
        v.wf(),
        v.contains(p),
        v.contains(q),
        v.contains(c),
        c != p,
        v.parent[c] == p,
        !(p == q && v.is_root(p)),
    ensures
        v.reparented(p, q).contains(c),
        v.reparented(p, q).parent[c] == if v.is_root(p) {
            c
        } else {
            v.parent[p]
        },
        v.reparented(p, q).z_order[c] == if p == q || !v.same_pile(p, q) {
            without(v.z_order[c], set![p])
        } else {
            v.z_order[c]
        },
        forall|x: usize, y: usize|
            x != p && y != p ==> (before(v.z_order[c], x, y) <==> #[trigger] before(
                v.reparented(p, q).z_order[c],
                x,
                y,
            )),
{
    let w = v.reparented(p, q);
    let order = v.z_order[p];
    assert(v.plane_ok(c));
    assert(v.plane_ok(p));
    assert(v.plane_ok(q));
    lemma_split(order, set![p]);
    lemma_split(v.z_order[q], set![p]);
    lemma_split(Seq::<usize>::empty(), set![p]);
    lemma_filter_order(order, beside(set![p]));
    if p == q || !v.same_pile(p, q) {
        if p != q && v.z_order[q].contains(c) {
            lemma_piles_apart(v, p, q, c);
        }
        assert(w.z_order[c] == without(order, set![p]));
        assert forall|x: usize, y: usize| x != p && y != p implies (before(order, x, y)
            <==> #[trigger] before(w.z_order[c], x, y)) by {
            assert(beside(set![p])(x));
            assert(beside(set![p])(y));
        }
    }
}

/// After a plane and its family were bound to a plane outside the family,
/// the family is in the pile of that plane, as one block just above it, in
/// the order it had; and what else that pile holds is in the order it had.
pub proof fn lemma_family_reparented(v: NcPilesView, p: usize, q: usize)
    requires
        v.wf(),
        v.contains(p),
        v.contains(q),
        p != q,
        !v.in_family(q, p),
    ensures
        v.family_reparented(p, q).parent[p] == q,
        forall|x: usize|
            v.in_family(x, p) ==> #[trigger] v.family_reparented(p, q).z_order[x]
                == v.family_reparented(p, q).z_order[q],
        only(v.family_reparented(p, q).z_order[q], v.family(p)) == only(
            v.z_order[p],
            v.family(p),
        ),
        without(v.family_reparented(p, q).z_order[q], v.family(p)) == without(
            v.z_order[q],
            v.family(p),
        ),
        v.family_reparented(p, q).z_order[q].index_of(q) >= only(v.z_order[p], v.family(p)).len(),
        v.family_reparented(p, q).z_order[q].subrange(
            v.family_reparented(p, q).z_order[q].index_of(q) - only(
                v.z_order[p],
                v.family(p),
            ).len(),
            v.family_reparented(p, q).z_order[q].index_of(q),
        ) == only(v.z_order[p], v.family(p)),
        forall|x: usize, y: usize|
            v.in_family(x, p) && v.in_family(y, p) ==> (before(v.z_order[p], x, y)
                <==> #[trigger] before(v.family_reparented(p, q).z_order[q], x, y)),
{
    let w = v.family_reparented(p, q);
    let fam = v.family(p);
    let from = v.z_order[p];
    let onto = v.z_order[q];
    let base = without(onto, fam);
    let block = only(from, fam);
    assert(v.plane_ok(p));
    assert(v.plane_ok(q));
    lemma_split(from, fam);
    lemma_split(onto, fam);
    assert(base.contains(q));
    lemma_position(base, q);
    let at = base.index_of(q);
    let dest = spliced(base, at, block);
    lemma_spliced(base, at, block);
    assert(w.z_order[q] == dest);
    assert forall|x: usize| v.in_family(x, p) implies #[trigger] w.z_order[x] == dest by {
        assert(fam.contains(x));
    }
    // the block keeps its order, and so does the rest
    let head = base.take(at);
    let tail = base.skip(at);
    assert forall|i: int| 0 <= i < head.len() implies !among(fam)(#[trigger] head[i]) by {
        assert(base.contains(base[i]));
    }
    assert forall|i: int| 0 <= i < tail.len() implies !among(fam)(#[trigger] tail[i]) by {
        assert(base.contains(base[at + i]));
    }
    assert forall|i: int| 0 <= i < block.len() implies among(fam)(#[trigger] block[i]) by {
        assert(block.contains(block[i]));
    }
    assert forall|i: int| 0 <= i < head.len() implies beside(fam)(#[trigger] head[i]) by {
        assert(base.contains(base[i]));
    }
    assert forall|i: int| 0 <= i < tail.len() implies beside(fam)(#[trigger] tail[i]) by {
        assert(base.contains(base[at + i]));
    }
    assert forall|i: int| 0 <= i < block.len() implies !beside(fam)(#[trigger] block[i]) by {
        assert(block.contains(block[i]));
    }
    lemma_filter_none(head, among(fam));
    lemma_filter_none(tail, among(fam));
    lemma_filter_all(block, among(fam));
    lemma_filter_all(head, beside(fam));
    lemma_filter_all(tail, beside(fam));
    lemma_filter_none(block, beside(fam));
    Seq::filter_distributes_over_add(head, block, among(fam));
    Seq::filter_distributes_over_add(head + block, tail, among(fam));
    Seq::filter_distributes_over_add(head, block, beside(fam));
    Seq::filter_distributes_over_add(head + block, tail, beside(fam));
    assert(only(dest, fam) =~= block);
    assert(without(dest, fam) =~= base) by {
        assert(head + tail =~= base);
        assert(head + Seq::<usize>::empty() + tail =~= head + tail);
    }
    // the block stands just above the new parent
    assert(dest[block.len() + at] == q);
    assert(dest.contains(q));
    lemma_position(dest, q);
    assert(dest.index_of(q) == block.len() + at);
    assert(dest.subrange(at, at + block.len()) =~= block);
    lemma_filter_order(from, among(fam));
    lemma_filter_order(dest, among(fam));
    assert forall|x: usize, y: usize| v.in_family(x, p) && v.in_family(y, p) implies (before(
        from,
        x,
        y,
    ) <==> #[trigger] before(dest, x, y)) by {
        assert(among(fam)(x) && among(fam)(y));
        assert(from.no_duplicates());
        assert(dest.no_duplicates());
        assert(only(dest, fam) == only(from, fam));
        if before(from, x, y) {
            assert(before(from.filter(among(fam)), x, y));
            assert(before(dest.filter(among(fam)), x, y));
        }
        if before(dest, x, y) {
            assert(before(dest.filter(among(fam)), x, y));
            assert(before(from.filter(among(fam)), x, y));
        }
    }
}

} // verus!
