//! Making and destroying planes.

use vstd::prelude::*;
use crate::error::{NcError, NcResult};
use crate::pile::order::{
    lemma_position, lemma_split, lemma_split_apart, lemma_spliced, spliced, without,
};
use crate::pile::stack::{pick, position, splice};
use crate::pile::NcPiles;
use crate::plane::{plane_size_ok, NcPlane, NcPlaneOptions};

verus! {

impl NcPiles {
    /// A plane number that is not in use: one that was given up, or a new
    /// one.
    pub(crate) fn free_slot(&mut self) -> (id: usize)
        requires
            old(self).wf(),
        ensures
            final(self).wf(),
            final(self)@ == old(self)@,
            final(self).screen() == old(self).screen(),
            id < final(self).planes.len(),
            final(self).planes[id as int] is None,
            final(self).stacks == old(self).stacks,
            final(self).planes.len() >= old(self).planes.len(),
            forall|k: int|
                0 <= k < old(self).planes.len() ==> (#[trigger] final(self).planes[k])
                    == old(self).planes[k] && final(self).parent[k] == old(self).parent[k]
                    && final(self).pile[k] == old(self).pile[k] && final(self).depth@[k]
                    == old(self).depth@[k],
    {
        let mut i: usize = 0;
        while i < self.planes.len() && self.planes[i].is_some()
            invariant
                i <= self.planes.len(),
                *self == *old(self),
            decreases self.planes.len() - i,
        {
            i = i + 1;
        }
        if i == self.planes.len() {
            self.planes.push(None);
            self.parent.push(0);
            self.pile.push(0);
            self.depth = Ghost(self.depth@.push(0));
            proof {
                let a = old(self).rep();
                let b = self.rep();
                assert forall|p: int| 0 <= p < b.live.len() && b.live[p] implies #[trigger] b.link_ok(
                    p,
                ) by {
                    assert(a.link_ok(p));
                }
                assert(b.stacks =~= a.stacks);
                assert forall|s: int, k: int|
                    0 <= s < b.stacks.len() && 0 <= k < b.stacks[s].len() implies #[trigger] b.member_ok(
                    s,
                    k,
                ) by {
                    assert(a.member_ok(s, k));
                }
                assert(self@.parent =~= old(self)@.parent);
                assert(self@.z_order =~= old(self)@.z_order);
                assert(self@.planes =~= old(self)@.planes);
            }
        }
        i
    }

    /// Makes a plane that is the root, top and bottom of a new pile, and
    /// gives its number. The plane stands at the place that the options
    /// name on the screen.
    ///
    /// Fails with `AllocationError`, and changes nothing, when a dimension
    /// is zero or the plane would have more than `NCPLANE_MAX_CELLS` cells.
    pub fn create_root(&mut self, options: &NcPlaneOptions) -> (r: NcResult<usize>)
        requires
            old(self).wf(),
        ensures
            final(self).wf(),
            final(self).screen() == old(self).screen(),
            r is Ok <==> plane_size_ok(options.rows, options.cols),
            r matches Err(e) ==> e == NcError::AllocationError && final(self)@ == old(self)@,
            r matches Ok(id) ==> !old(self)@.contains(id) && final(self)@ == old(self)@.with_root(
                id,
                NcPlane::created(
                    *options,
                    options.row_in(0, old(self).screen().0),
                    options.col_in(0, old(self).screen().1),
                ),
            ),
    {
        let at: (i32, i32) = options.position_in((0, 0), (self.rows, self.cols));
        let plane: NcPlane = match NcPlane::create(options, at.0, at.1) {
            Ok(p) => p,
            Err(e) => {
                return Err(e);
            },
        };
        let id: usize = self.free_slot();
        proof {
            self.rep().lemma_wf_stacks();
        }
        let s: usize = self.alloc_stack();
        let ghost a = self.rep();
        let ghost before = self@;
        let mut order: Vec<usize> = Vec::new();
        order.push(id);
        self.stacks.set(s, order);
        self.planes.set(id, Some(plane));
        self.parent.set(id, id);
        self.pile.set(id, s);
        self.depth = Ghost(self.depth@.update(id as int, 0));
        proof {
            let b = self.rep();
            assert forall|t: int, k: int|
                0 <= t < b.stacks.len() && 0 <= k < b.stacks[t].len() implies #[trigger] b.member_ok(
                t,
                k,
            ) by {
                if t != s {
                    assert(a.member_ok(t, k));
                }
            }
            assert forall|p: int| 0 <= p < b.live.len() && b.live[p] implies #[trigger] b.link_ok(
                p,
            ) by {
                if p != id {
                    assert(a.link_ok(p));
                    assert(a.stacks[a.pile[p] as int].contains(p as usize));
                } else {
                    assert(b.stacks[s as int][0] == id);
                }
            }
            assert forall|t: int| 0 <= t < b.stacks.len() implies (
            #[trigger] b.stacks[t]).no_duplicates() by {
                if t != s {
                    assert(a.stacks[t].no_duplicates());
                }
            }
            let want = before.with_root(id, plane@);
            assert(self@.parent =~= want.parent);
            assert(self@.planes =~= want.planes);
            assert(self@.z_order =~= want.z_order) by {
                assert forall|p: usize| self@.z_order.dom().contains(p) implies self@.z_order[p]
                    == want.z_order[p] by {
                    if p != id {
                        assert(a.link_ok(p as int));
                    } else {
                        assert(b.stacks[s as int] =~= seq![id]);
                    }
                }
            }
        }
        Ok(id)
    }

    /// Makes a plane that is bound to `parent`, and gives its number. The
    /// plane joins the pile of `parent`, just above `parent`, and stands at
    /// the place that the options name relative to `parent`.
    ///
    /// Fails with `InvalidOperation` when `parent` does not exist, and with
    /// `AllocationError` when a dimension is zero or the plane would have
    /// more than `NCPLANE_MAX_CELLS` cells. Nothing changes then.
    pub fn create_bound(&mut self, parent: usize, options: &NcPlaneOptions) -> (r: NcResult<usize>)
        requires
            old(self).wf(),
        ensures
            final(self).wf(),
            final(self).screen() == old(self).screen(),
            r is Err ==> final(self)@ == old(self)@,
            !old(self)@.contains(parent) ==> r == Err::<usize, NcError>(NcError::InvalidOperation),
            old(self)@.contains(parent) && !plane_size_ok(options.rows, options.cols) ==> r == Err::<
                usize,
                NcError,
            >(NcError::AllocationError),
            old(self)@.contains(parent) && plane_size_ok(options.rows, options.cols) ==> r is Ok,
            r matches Ok(id) ==> !old(self)@.contains(id) && final(self)@ == old(self)@.with_bound(
                id,
                parent,
                NcPlane::created(
                    *options,
                    options.row_in(
                        old(self)@.planes[parent].y as i32,
                        old(self)@.planes[parent].rows as u32,
                    ),
                    options.col_in(
                        old(self)@.planes[parent].x as i32,
                        old(self)@.planes[parent].cols as u32,
                    ),
                ),
            ),
    {
        if !self.contains(parent) {
            return Err(NcError::InvalidOperation);
        }
        let (base, avail): ((i32, i32), (u32, u32)) = match &self.planes[parent] {
            Some(pl) => (pl.abs_yx(), (pl.rows(), pl.cols())),
            None => ((0, 0), (0, 0)),
        };
        proof {
            old(self).planes[parent as int]->0.lemma_wf_view();
        }
        let at: (i32, i32) = options.position_in(base, avail);
        let plane: NcPlane = match NcPlane::create(options, at.0, at.1) {
            Ok(p) => p,
            Err(e) => {
                return Err(e);
            },
        };
        let id: usize = self.free_slot();
        let ghost a = self.rep();
        let ghost before = self@;
        let s: usize = self.pile[parent];
        proof {
            assert(a.link_ok(parent as int));
            assert(a.stacks[s as int].no_duplicates());
            assert forall|k: int| 0 <= k < a.stacks[s as int].len() implies a.stacks[s as int][k]
                != id by {
                assert(a.member_ok(s as int, k));
            }
            lemma_position(a.stacks[s as int], parent);
        }
        let place: usize = position(&self.stacks[s], parent);
        let mut block: Vec<usize> = Vec::new();
        block.push(id);
        let merged: Vec<usize> = splice(&self.stacks[s], place, &block);
        let ghost up_depth = self.depth@[parent as int];
        self.stacks.set(s, merged);
        self.planes.set(id, Some(plane));
        self.parent.set(id, parent);
        self.pile.set(id, s);
        self.depth = Ghost(self.depth@.update(id as int, up_depth + 1));
        proof {
            let b = self.rep();
            let old_order = a.stacks[s as int];
            let new_order = b.stacks[s as int];
            assert(block@ =~= seq![id]);
            assert(new_order == spliced(old_order, place as int, seq![id]));
            lemma_spliced(old_order, place as int, seq![id]);
            assert(seq![id].contains(id)) by {
                assert(seq![id][0] == id);
            }
            assert forall|t: int, k: int|
                0 <= t < b.stacks.len() && 0 <= k < b.stacks[t].len() implies #[trigger] b.member_ok(
                t,
                k,
            ) by {
                if t != s {
                    assert(a.member_ok(t, k));
                } else {
                    let q = new_order[k];
                    assert(new_order.contains(q));
                    if old_order.contains(q) {
                        let j = choose|j: int| 0 <= j < old_order.len() && old_order[j] == q;
                        assert(a.member_ok(s as int, j));
                    } else {
                        assert(seq![id].contains(q));
                        let j = choose|j: int| 0 <= j < seq![id].len() && seq![id][j] == q;
                    }
                }
            }
            assert forall|p: int| 0 <= p < b.live.len() && b.live[p] implies #[trigger] b.link_ok(
                p,
            ) by {
                if p != id {
                    assert(a.link_ok(p));
                    if a.pile[p] == s {
                        assert(old_order.contains(p as usize));
                        assert(new_order.contains(p as usize));
                    }
                } else {
                    assert(new_order.contains(id));
                }
            }
            assert forall|t: int| 0 <= t < b.stacks.len() implies (
            #[trigger] b.stacks[t]).no_duplicates() by {
                if t != s {
                    assert(a.stacks[t].no_duplicates());
                }
            }
            let want = before.with_bound(id, parent, plane@);
            assert(before.z_order[parent] == old_order);
            assert(self@.parent =~= want.parent);
            assert(self@.planes =~= want.planes);
            assert(self@.z_order =~= want.z_order) by {
                assert forall|p: usize| self@.z_order.dom().contains(p) implies self@.z_order[p]
                    == want.z_order[p] by {
                    if p != id {
                        assert(a.link_ok(p as int));
                        if old_order.contains(p) {
                            let j = choose|j: int| 0 <= j < old_order.len() && old_order[j] == p;
                            assert(a.member_ok(s as int, j));
                        }
                    }
                }
            }
        }
        Ok(id)
    }

    /// Destroys a plane. The planes that were bound to it are bound to what
    /// it was bound to, or become roots of the pile if it was a root; every
    /// other plane stays where it was on the z-axis. A pile whose last plane
    /// is destroyed is gone.
    ///
    /// Fails with `InvalidOperation`, and changes nothing, when the plane
    /// does not exist.
    pub fn destroy(&mut self, p: usize) -> (r: NcResult<()>)
        requires
            old(self).wf(),
        ensures
            final(self).wf(),
            final(self).screen() == old(self).screen(),
            r is Ok <==> old(self)@.contains(p),
            r is Ok ==> final(self)@ == old(self)@.destroyed(p),
            r matches Err(e) ==> e == NcError::InvalidOperation && final(self)@ == old(self)@,
    {
        if !self.contains(p) {
            return Err(NcError::InvalidOperation);
        }
        let ghost a0 = self.rep();
        let ghost before = self@;
        let ghost views = self.plane_views();
        self.rebind_children(p);
        let ghost a = self.rep();
        proof {
            a0.lemma_rebound_wf(p);
            a0.lemma_rebound_view(views, p);
            assert(a.link_ok(p as int));
            assert forall|k: int| 0 <= k < self.stacks[a.pile[p as int] as int].len() implies (
            #[trigger] self.stacks[a.pile[p as int] as int][k]) < self.planes.len() by {
                assert(a.member_ok(a.pile[p as int] as int, k));
            }
        }
        let s: usize = self.pile[p];
        let marks: Vec<bool> = self.mark_one(p);
        let ghost one: Set<usize> = set![p];
        let rest: Vec<usize> = pick(&self.stacks[s], &marks, Ghost(one), false);
        self.stacks.set(s, rest);
        self.planes.set(p, None);
        proof {
            let b = self.rep();
            let old_order = a.stacks[s as int];
            lemma_split(old_order, set![p]);
            assert(old_order.no_duplicates());
            assert forall|t: int, k: int|
                0 <= t < b.stacks.len() && 0 <= k < b.stacks[t].len() implies #[trigger] b.member_ok(
                t,
                k,
            ) by {
                if t != s {
                    assert(a.member_ok(t, k));
                } else {
                    let q = b.stacks[t][k];
                    assert(b.stacks[t].contains(q));
                    let j = choose|j: int| 0 <= j < old_order.len() && old_order[j] == q;
                    assert(a.member_ok(s as int, j));
                }
            }
            assert forall|x: int| 0 <= x < b.live.len() && b.live[x] implies #[trigger] b.link_ok(
                x,
            ) by {
                assert(a.link_ok(x));
                assert(a0.link_ok(x));
                assert(a0.link_ok(p as int));
                if a.pile[x] == s {
                    assert(b.stacks[s as int].contains(x as usize));
                }
            }
            assert forall|t: int| 0 <= t < b.stacks.len() implies (
            #[trigger] b.stacks[t]).no_duplicates() by {
                if t != s {
                    assert(a.stacks[t].no_duplicates());
                }
            }
            let want = before.destroyed(p);
            assert(self@.parent =~= want.parent);
            assert(self@.planes =~= want.planes);
            assert(self@.z_order =~= want.z_order) by {
                assert forall|x: usize| self@.z_order.dom().contains(x) implies self@.z_order[x]
                    == want.z_order[x] by {
                    assert(a.link_ok(x as int));
                    let t = a.pile[x as int] as int;
                    if t != s {
                        assert forall|k: int| 0 <= k < a.stacks[t].len() implies !set![
                            p,
                        ].contains(#[trigger] a.stacks[t][k]) by {
                            assert(a.member_ok(t, k));
                        }
                        lemma_split_apart(a.stacks[t], set![p]);
                    }
                }
            }
        }
        Ok(())
    }
}

} // verus!
