//! Moving and resizing planes that are bound to each other.
//!
//! A plane that is moved takes its family along. A plane that is resized
//! may leave the planes bound to it out of place; each of them can carry a
//! callback for that. The library does not run callbacks: resizing gives
//! back the callbacks that are due, and the caller runs them.

use vstd::prelude::*;
use crate::error::{NcError, NcResult};
use crate::pile::view::NcPilesView;
use crate::pile::NcPiles;
use crate::plane::options::clamp_i32;
use crate::plane::resize::{resized, shifted};
use crate::plane::{plane_size_ok, NcPlane, NcPlaneView};
use crate::resizecb::NcResizeCb;

verus! {

/// Whether the callback `cb` of the plane `c` is due when `p` changes
/// size: `c` is bound to `p`, and `cb` is its callback.
pub open spec fn callback_due(v: NcPilesView, p: usize, c: usize, cb: NcResizeCb) -> bool {
    v.contains(c) && c != p && v.parent[c] == p && v.planes[c].resizecb == Some(cb)
}

/// The state in which `p` and its family were moved by `dy` rows and `dx`
/// columns.
pub open spec fn family_shifted(v: NcPilesView, p: usize, dy: int, dx: int) -> NcPilesView {
    NcPilesView {
        planes: Map::new(
            |c: usize| v.contains(c),
            |c: usize|
                if v.in_family(c, p) {
                    shifted(v.planes[c], dy, dx)
                } else {
                    v.planes[c]
                },
        ),
        ..v
    }
}

impl NcPiles {
    /// Puts a plane at `(y, x)` relative to the plane it is bound to, or
    /// relative to the screen if it is a root, and moves all its family by
    /// as much as it moves itself.
    ///
    /// Fails with `InvalidOperation`, and changes nothing, when the plane
    /// does not exist.
    pub fn move_yx(&mut self, p: usize, y: i32, x: i32) -> (r: NcResult<()>)
        requires
            old(self).wf(),
        ensures
            final(self).wf(),
            final(self).screen() == old(self).screen(),
            r is Ok <==> old(self)@.contains(p),
            r is Ok ==> final(self)@ == family_shifted(
                old(self)@,
                p,
                Self::move_by(old(self)@, p, y, x).0,
                Self::move_by(old(self)@, p, y, x).1,
            ),
            r matches Err(e) ==> e == NcError::InvalidOperation && final(self)@ == old(self)@,
            forall|q: usize| final(self).snapshot(q) == old(self).snapshot(q),
    {
        if !self.contains(p) {
            return Err(NcError::InvalidOperation);
        }
        proof {
            assert(self.rep().link_ok(p as int));
            self.lemma_view_wf();
        }
        let up: usize = self.parent[p];
        let base: (i32, i32) = if up == p {
            (0, 0)
        } else {
            match &self.planes[up] {
                Some(pl) => pl.abs_yx(),
                None => (0, 0),
            }
        };
        let at: (i32, i32) = match &self.planes[p] {
            Some(pl) => pl.abs_yx(),
            None => (0, 0),
        };
        let to_y: i32 = crate::plane::options::place(base.0, y as i64);
        let to_x: i32 = crate::plane::options::place(base.1, x as i64);
        let dy: i64 = to_y as i64 - at.0 as i64;
        let dx: i64 = to_x as i64 - at.1 as i64;
        let marks: Vec<bool> = self.mark_family(p);
        let ghost before = self@;
        let n: usize = self.planes.len();
        let mut c: usize = 0;
        while c < n
            invariant
                c <= n,
                n == self.planes.len(),
                n == marks.len(),
                self.wf(),
                self.screen() == old(self).screen(),
                forall|q: usize| self.snapshot(q) == old(self).snapshot(q),
                before == old(self)@,
                before.wf(),
                -0x1_0000_0000 <= dy <= 0x1_0000_0000,
                -0x1_0000_0000 <= dx <= 0x1_0000_0000,
                forall|k: usize| k < marks.len() ==> marks[k as int] == before.family(p).contains(k),
                forall|k: usize| before.family(p).contains(k) ==> k < marks.len(),
                self@.parent == before.parent,
                self@.z_order == before.z_order,
                self@.planes.dom() == before.planes.dom(),
                forall|k: usize| #[trigger]
                    before.contains(k) ==> self@.planes[k] == if k < c && before.in_family(k, p) {
                        shifted(before.planes[k], dy as int, dx as int)
                    } else {
                        before.planes[k]
                    },
            decreases n - c,
        {
            if marks[c] {
                let ghost now = self@;
                match self.plane_mut(c) {
                    Some(pl) => {
                        pl.shift(dy, dx);
                    },
                    None => {},
                }
                proof {
                    assert(self@.planes.dom() =~= before.planes.dom());
                }
            }
            c = c + 1;
        }
        proof {
            let want = family_shifted(before, p, dy as int, dx as int);
            assert(self@.planes =~= want.planes);
        }
        Ok(())
    }

    /// How far a plane moves when it is put at `(y, x)` relative to what it
    /// is bound to: rows, then columns.
    pub open spec fn move_by(v: NcPilesView, p: usize, y: i32, x: i32) -> (int, int) {
        let base_y = if v.parent[p] == p {
            0
        } else {
            v.planes[v.parent[p]].y
        };
        let base_x = if v.parent[p] == p {
            0
        } else {
            v.planes[v.parent[p]].x
        };
        (clamp_i32(base_y + y) - v.planes[p].y, clamp_i32(base_x + x) - v.planes[p].x)
    }

    /// Gives a plane the size `rows` by `cols`, as `NcPlane::resize` does
    /// it, and gives back the callbacks that are due: those of the planes
    /// bound to it, each with the number of its plane, in the order of
    /// those numbers.
    ///
    /// Fails with `InvalidOperation` when the plane does not exist, and
    /// with `AllocationError` when a dimension is zero or the plane would
    /// have more than `NCPLANE_MAX_CELLS` cells. Nothing changes then.
    pub fn resize(&mut self, p: usize, rows: u32, cols: u32) -> (r: NcResult<
        Vec<(usize, NcResizeCb)>,
    >)
        requires
            old(self).wf(),
        ensures
            final(self).wf(),
            final(self).screen() == old(self).screen(),
            r is Ok <==> old(self)@.contains(p) && plane_size_ok(rows, cols),
            r matches Err(e) ==> final(self)@ == old(self)@ && e == if old(self)@.contains(p) {
                NcError::AllocationError
            } else {
                NcError::InvalidOperation
            },
            r matches Ok(due) ==> {
                &&& final(self)@ == (NcPilesView {
                    planes: old(self)@.planes.insert(
                        p,
                        resized(old(self)@.planes[p], rows as nat, cols as nat),
                    ),
                    ..old(self)@
                })
                &&& forall|i: int, j: int| 0 <= i < j < due.len() ==> due[i].0 < due[j].0
                &&& forall|i: int|
                    0 <= i < due.len() ==> callback_due(old(self)@, p, (#[trigger] due[i]).0, due[i].1)
                &&& forall|c: usize, cb: NcResizeCb|
                    callback_due(old(self)@, p, c, cb) ==> due@.contains((c, cb))
            },
            forall|q: usize| final(self).snapshot(q) == old(self).snapshot(q),
    {
        let ghost before = self@;
        let outcome: NcResult<()> = match self.plane_mut(p) {
            Some(pl) => pl.resize(rows, cols),
            None => {
                return Err(NcError::InvalidOperation);
            },
        };
        match outcome {
            Ok(()) => {},
            Err(e) => {
                proof {
                    assert(self@.planes =~= before.planes);
                }
                return Err(e);
            },
        }
        let mut due: Vec<(usize, NcResizeCb)> = Vec::new();
        let n: usize = self.planes.len();
        let mut c: usize = 0;
        while c < n
            invariant
                c <= n,
                n == self.planes.len(),
                self.wf(),
                forall|q: usize| self.snapshot(q) == old(self).snapshot(q),
                self.screen() == old(self).screen(),
                before.contains(p),
                self@ == (NcPilesView {
                    planes: before.planes.insert(
                        p,
                        resized(before.planes[p], rows as nat, cols as nat),
                    ),
                    ..before
                }),
                forall|i: int, j: int| 0 <= i < j < due.len() ==> due[i].0 < due[j].0,
                forall|i: int| 0 <= i < due.len() ==> (#[trigger] due[i]).0 < c,
                forall|i: int|
                    0 <= i < due.len() ==> callback_due(before, p, (#[trigger] due[i]).0, due[i].1),
                forall|k: usize, cb: NcResizeCb|
                    k < c && callback_due(before, p, k, cb) ==> due@.contains((k, cb)),
            decreases n - c,
        {
            let ghost had = due@;
            let mut found: Option<NcResizeCb> = None;
            if c != p && self.contains(c) && self.parent[c] == p {
                found = match &self.planes[c] {
                    Some(pl) => pl.resizecb(),
                    None => None,
                };
            }
            proof {
                assert(self@.parent[c] == before.parent[c]);
                if c != p && before.contains(c) {
                    assert(self@.planes[c] == before.planes[c]);
                }
                assert(found matches Some(f) ==> callback_due(before, p, c, f));
                assert(forall|g: NcResizeCb| callback_due(before, p, c, g) ==> found == Some(g));
            }
            match found {
                Some(f) => {
                    due.push((c, f));
                    proof {
                        assert(due@[had.len() as int] == (c, f));
                    }
                },
                None => {},
            }
            proof {
                assert forall|k: usize, g: NcResizeCb|
                    k < c + 1 && callback_due(before, p, k, g) implies due@.contains((k, g)) by {
                    if k < c {
                        assert(had.contains((k, g)));
                        let i = choose|i: int| 0 <= i < had.len() && had[i] == (k, g);
                        assert(due@[i] == (k, g));
                    } else {
                        assert(found == Some(g));
                        assert(due@[had.len() as int] == (k, g));
                    }
                }
            }
            c = c + 1;
        }
        Ok(due)
    }
}

} // verus!
