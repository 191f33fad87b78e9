//! Orders of planes: sequences without repetition, and the few ways in
//! which a pile's order is taken apart and put together again.

use vstd::prelude::*;

verus! {

/// The test that a plane is one of `movers`.
pub open spec fn among(movers: Set<usize>) -> spec_fn(usize) -> bool {
    |x: usize| movers.contains(x)
}

/// The test that a plane is none of `movers`.
pub open spec fn beside(movers: Set<usize>) -> spec_fn(usize) -> bool {
    |x: usize| !movers.contains(x)
}

/// The planes of `order` that are not among `movers`, in their order.
pub open spec fn without(order: Seq<usize>, movers: Set<usize>) -> Seq<usize> {
    order.filter(beside(movers))
}

/// The planes of `order` that are among `movers`, in their order.
pub open spec fn only(order: Seq<usize>, movers: Set<usize>) -> Seq<usize> {
    order.filter(among(movers))
}

/// `base` with `block` put in before position `at`.
pub open spec fn spliced(base: Seq<usize>, at: int, block: Seq<usize>) -> Seq<usize> {
    base.take(at) + block + base.skip(at)
}

/// Whether `a` comes before `b` in `order`.
pub open spec fn before(order: Seq<usize>, a: usize, b: usize) -> bool {
    exists|i: int, j: int| 0 <= i < j < order.len() && order[i] == a && order[j] == b
}

/// What a filter keeps of a sequence that grew by one element.
pub proof fn lemma_filter_step(s: Seq<usize>, keep: spec_fn(usize) -> bool, i: int)
    requires
        0 <= i < s.len(),
    ensures
        s.take(i + 1).filter(keep) == if keep(s[i]) {
            s.take(i).filter(keep).push(s[i])
        } else {
            s.take(i).filter(keep)
        },
{
    reveal(Seq::filter);
    assert(s.take(i + 1).drop_last() =~= s.take(i));
    assert(s.take(i + 1).last() == s[i]);
}

/// A filter keeps exactly the elements that pass it, keeps their order, and
/// brings in no repetition.
pub proof fn lemma_filter_order(s: Seq<usize>, keep: spec_fn(usize) -> bool)
    ensures
        forall|x: usize| #[trigger] s.filter(keep).contains(x) <==> s.contains(x) && keep(x),
        s.no_duplicates() ==> s.filter(keep).no_duplicates(),
        forall|a: usize, b: usize| #[trigger]
            before(s.filter(keep), a, b) ==> before(s, a, b),
        s.no_duplicates() ==> forall|a: usize, b: usize|
            keep(a) && keep(b) && before(s, a, b) ==> #[trigger] before(s.filter(keep), a, b),
        s.filter(keep).len() <= s.len(),
    decreases s.len(),
{
    reveal(Seq::filter);
    let f = s.filter(keep);
    if s.len() == 0 {
        assert forall|a: usize, b: usize| #[trigger] before(f, a, b) implies before(s, a, b) by {}
    } else {
        let front = s.drop_last();
        let ff = front.filter(keep);
        let last = s.last();
        lemma_filter_order(front, keep);
        assert forall|x: usize| #[trigger] f.contains(x) <==> s.contains(x) && keep(x) by {
            if f.contains(x) {
                let i = choose|i: int| 0 <= i < f.len() && f[i] == x;
                if keep(last) && i == f.len() - 1 {
                    assert(s[s.len() - 1] == x);
                } else {
                    assert(ff[i] == x);
                    assert(ff.contains(x));
                    let k = choose|k: int| 0 <= k < front.len() && front[k] == x;
                    assert(s[k] == x);
                }
            }
            if s.contains(x) && keep(x) {
                let k = choose|k: int| 0 <= k < s.len() && s[k] == x;
                if k == s.len() - 1 {
                    assert(f[f.len() - 1] == x);
                } else {
                    assert(front[k] == x);
                    assert(front.contains(x));
                    assert(ff.contains(x));
                    let i = choose|i: int| 0 <= i < ff.len() && ff[i] == x;
                    assert(f[i] == x);
                }
            }
        }
        if s.no_duplicates() {
            assert(front.no_duplicates());
            assert forall|i: int, j: int| 0 <= i < f.len() && 0 <= j < f.len() && i != j implies f[i]
                != f[j] by {
                if keep(last) {
                    if i == f.len() - 1 || j == f.len() - 1 {
                        let other = if i == f.len() - 1 {
                            j
                        } else {
                            i
                        };
                        assert(ff[other] == f[other]);
                        assert(ff.contains(f[other]));
                        assert(front.contains(f[other]));
                        let k = choose|k: int| 0 <= k < front.len() && front[k] == f[other];
                        assert(s[k] == f[other]);
                    } else {
                        assert(ff[i] == f[i] && ff[j] == f[j]);
                    }
                }
            }
        }
        assert forall|a: usize, b: usize| #[trigger] before(f, a, b) implies before(s, a, b) by {
            let (i, j) = choose|i: int, j: int| 0 <= i < j < f.len() && f[i] == a && f[j] == b;
            if keep(last) && j == f.len() - 1 {
                assert(ff[i] == a);
                assert(ff.contains(a));
                let k = choose|k: int| 0 <= k < front.len() && front[k] == a;
                assert(s[k] == a && s[s.len() - 1] == b);
            } else {
                assert(ff[i] == a && ff[j] == b);
                assert(before(ff, a, b));
                let (k, l) = choose|k: int, l: int|
                    0 <= k < l < front.len() && front[k] == a && front[l] == b;
                assert(s[k] == a && s[l] == b);
            }
        }
        if s.no_duplicates() {
            assert forall|a: usize, b: usize|
                keep(a) && keep(b) && before(s, a, b) implies #[trigger] before(f, a, b) by {
                let (k, l) = choose|k: int, l: int|
                    0 <= k < l < s.len() && s[k] == a && s[l] == b;
                if l == s.len() - 1 {
                    assert(front[k] == a);
                    assert(front.contains(a));
                    assert(ff.contains(a));
                    let i = choose|i: int| 0 <= i < ff.len() && ff[i] == a;
                    assert(f[i] == a && f[f.len() - 1] == b);
                } else {
                    assert(front[k] == a && front[l] == b);
                    assert(before(front, a, b));
                    assert(before(ff, a, b));
                    let (i, j) = choose|i: int, j: int|
                        0 <= i < j < ff.len() && ff[i] == a && ff[j] == b;
                    assert(f[i] == a && f[j] == b);
                }
            }
        }
    }
}

/// A filter that every element passes changes nothing.
pub proof fn lemma_filter_all(s: Seq<usize>, keep: spec_fn(usize) -> bool)
    requires
        forall|i: int| 0 <= i < s.len() ==> keep(#[trigger] s[i]),
    ensures
        s.filter(keep) == s,
    decreases s.len(),
{
    reveal(Seq::filter);
    if s.len() > 0 {
        lemma_filter_all(s.drop_last(), keep);
        assert(s.drop_last().push(s.last()) =~= s);
    }
}

/// A filter that no element passes leaves nothing.
pub proof fn lemma_filter_none(s: Seq<usize>, keep: spec_fn(usize) -> bool)
    requires
        forall|i: int| 0 <= i < s.len() ==> !keep(#[trigger] s[i]),
    ensures
        s.filter(keep) == Seq::<usize>::empty(),
    decreases s.len(),
{
    reveal(Seq::filter);
    if s.len() > 0 {
        lemma_filter_none(s.drop_last(), keep);
    }
}

/// A block spliced into a base that shares no plane with it: the result
/// holds the planes of both and no repetition, and keeps the order inside
/// the base and inside the block.
pub proof fn lemma_spliced(base: Seq<usize>, at: int, block: Seq<usize>)
    requires
        0 <= at <= base.len(),
        base.no_duplicates(),
        block.no_duplicates(),
        forall|i: int, j: int| 0 <= i < base.len() && 0 <= j < block.len() ==> base[i] != block[j],
    ensures
        spliced(base, at, block).no_duplicates(),
        spliced(base, at, block).len() == base.len() + block.len(),
        forall|x: usize| #[trigger]
            spliced(base, at, block).contains(x) <==> base.contains(x) || block.contains(x),
        forall|i: int|
            0 <= i < at ==> #[trigger] spliced(base, at, block)[i] == base[i],
        forall|i: int|
            0 <= i < block.len() ==> #[trigger] spliced(base, at, block)[at + i] == block[i],
        forall|i: int|
            at <= i < base.len() ==> #[trigger] spliced(base, at, block)[block.len() + i]
                == base[i],
{
    let r = spliced(base, at, block);
    assert forall|x: usize| #[trigger] r.contains(x) <==> base.contains(x) || block.contains(
        x,
    ) by {
        if r.contains(x) {
            let i = choose|i: int| 0 <= i < r.len() && r[i] == x;
            if i < at {
                assert(base[i] == x);
            } else if i < at + block.len() {
                assert(block[i - at] == x);
            } else {
                assert(base[i - block.len()] == x);
            }
        }
        if base.contains(x) {
            let i = choose|i: int| 0 <= i < base.len() && base[i] == x;
            if i < at {
                assert(r[i] == x);
            } else {
                assert(r[i + block.len()] == x);
            }
        }
        if block.contains(x) {
            let i = choose|i: int| 0 <= i < block.len() && block[i] == x;
            assert(r[at + i] == x);
        }
    }
    assert forall|i: int, j: int| 0 <= i < r.len() && 0 <= j < r.len() && i != j implies r[i]
        != r[j] by {
        let bi = if i < at {
            i
        } else {
            i - block.len()
        };
        let bj = if j < at {
            j
        } else {
            j - block.len()
        };
        let in_block_i = at <= i < at + block.len();
        let in_block_j = at <= j < at + block.len();
        if in_block_i && in_block_j {
            assert(r[i] == block[i - at] && r[j] == block[j - at]);
        } else if in_block_i {
            assert(r[i] == block[i - at] && r[j] == base[bj]);
        } else if in_block_j {
            assert(r[j] == block[j - at] && r[i] == base[bi]);
        } else {
            assert(r[i] == base[bi] && r[j] == base[bj]);
        }
    }
}

/// What `only` and `without` keep: the movers and the others, each in the
/// order they had, without repetition where there was none.
pub proof fn lemma_split(order: Seq<usize>, movers: Set<usize>)
    ensures
        forall|x: usize| #[trigger]
            only(order, movers).contains(x) <==> order.contains(x) && movers.contains(x),
        forall|x: usize| #[trigger]
            without(order, movers).contains(x) <==> order.contains(x) && !movers.contains(x),
        order.no_duplicates() ==> only(order, movers).no_duplicates() && without(
            order,
            movers,
        ).no_duplicates(),
        forall|i: int, j: int|
            0 <= i < without(order, movers).len() && 0 <= j < only(order, movers).len()
                ==> without(order, movers)[i] != only(order, movers)[j],
        only(order, movers).len() <= order.len(),
        without(order, movers).len() <= order.len(),
{
    lemma_filter_order(order, among(movers));
    lemma_filter_order(order, beside(movers));
    let o = only(order, movers);
    let w = without(order, movers);
    assert forall|x: usize| #[trigger] o.contains(x) <==> order.contains(x) && movers.contains(
        x,
    ) by {
        assert(among(movers)(x) == movers.contains(x));
    }
    assert forall|x: usize| #[trigger] w.contains(x) <==> order.contains(x) && !movers.contains(
        x,
    ) by {
        assert(beside(movers)(x) == !movers.contains(x));
    }
    assert forall|i: int, j: int| 0 <= i < w.len() && 0 <= j < o.len() implies w[i] != o[j] by {
        assert(w.contains(w[i]));
        assert(o.contains(o[j]));
    }
}

/// What `only` and `without` keep of an order that grew by one plane.
pub proof fn lemma_split_step(order: Seq<usize>, movers: Set<usize>, i: int)
    requires
        0 <= i < order.len(),
    ensures
        only(order.take(i + 1), movers) == if movers.contains(order[i]) {
            only(order.take(i), movers).push(order[i])
        } else {
            only(order.take(i), movers)
        },
        without(order.take(i + 1), movers) == if movers.contains(order[i]) {
            without(order.take(i), movers)
        } else {
            without(order.take(i), movers).push(order[i])
        },
{
    lemma_filter_step(order, among(movers), i);
    lemma_filter_step(order, beside(movers), i);
}

/// An order that holds none of the movers is left whole by `without` and
/// emptied by `only`.
pub proof fn lemma_split_apart(order: Seq<usize>, movers: Set<usize>)
    requires
        forall|i: int| 0 <= i < order.len() ==> !movers.contains(#[trigger] order[i]),
    ensures
        without(order, movers) == order,
        only(order, movers) == Seq::<usize>::empty(),
{
    lemma_filter_all(order, beside(movers));
    lemma_filter_none(order, among(movers));
}

/// In an order without repetition a plane stands at one position only.
pub proof fn lemma_position(order: Seq<usize>, x: usize)
    requires
        order.no_duplicates(),
        order.contains(x),
    ensures
        0 <= order.index_of(x) < order.len(),
        order[order.index_of(x)] == x,
        forall|i: int| 0 <= i < order.len() && order[i] == x ==> i == order.index_of(x),
{
}

} // verus!
