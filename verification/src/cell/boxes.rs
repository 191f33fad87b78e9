//! Loading the six cells that a box is drawn with.
//!
//! A box needs six glyphs: four corners (upper left, upper right, lower
//! left, lower right), the horizontal line and the vertical line. They are
//! given as one text of six clusters, in that order.

use vstd::prelude::*;
use vstd::string::StrSliceExecFns;
use crate::cell::{
    cell_cleared, cell_egc, cell_extended, cell_slot, load_cell, load_ok, load_pool,
    pool_released, NcCell, NCCELL_POOL_FLAG,
};
use crate::egc::{
    after_first_cluster, first_cluster, first_cluster_len, first_cluster_ok, is_base,
    lemma_first_cluster_len, scalar_columns,
};
use crate::error::{NcError, NcResult};
use crate::plane::{lemma_first_free, NcPlane, NcPlaneView};

verus! {

/// The double-line box glyphs.
pub const NCBOXDOUBLE: &'static str = "╔╗╚╝═║";

/// The rounded box glyphs.
pub const NCBOXROUND: &'static str = "╭╮╰╯─│";

/// The box glyphs that every terminal has.
pub const NCBOXASCII: &'static str = "/\\\\/-|";

/// The heavy-line box glyphs.
pub const NCBOXHEAVY: &'static str = "┏┓┗┛━┃";

/// The light-line box glyphs.
pub const NCBOXLIGHT: &'static str = "┌┐└┘─│";

/// How far the loading of a row of cells has come.
pub struct BoxLoad {
    /// The pool of the plane.
    pub pool: Seq<Seq<char>>,
    /// The cells.
    pub cells: Seq<NcCell>,
    /// The text that is left.
    pub text: Seq<char>,
    /// The number of cells that a load was tried on.
    pub done: nat,
    /// Whether the last load that was tried failed.
    pub failed: bool,
}

/// The state after the first `n` cells were loaded in turn from the
/// clusters of a text, each with the styles and channels given, up to the
/// first load that fails. A load fails when `load_ok` does not hold or when
/// no text is left.
pub open spec fn box_loaded(
    pool: Seq<Seq<char>>,
    cells: Seq<NcCell>,
    text: Seq<char>,
    style: u16,
    channels: u64,
    n: nat,
) -> BoxLoad
    decreases n,
{
    if n == 0 {
        BoxLoad { pool, cells, text, done: 0, failed: false }
    } else {
        let prev = box_loaded(pool, cells, text, style, channels, (n - 1) as nat);
        if prev.failed || n > cells.len() {
            prev
        } else {
            let primed = NcCell { stylemask: style, channels, ..prev.cells[n - 1] };
            BoxLoad {
                pool: load_pool(prev.pool, primed, prev.text),
                cells: prev.cells.update(n - 1, load_cell(prev.pool, primed, prev.text)),
                text: after_first_cluster(prev.text),
                done: n,
                failed: !load_ok(prev.pool, primed, prev.text) || first_cluster_len(prev.text)
                    == 0,
            }
        }
    }
}

/// The pool and the cells after the clusters of the first `n` cells were
/// released.
pub open spec fn box_released(pool: Seq<Seq<char>>, cells: Seq<NcCell>, n: nat) -> (
    Seq<Seq<char>>,
    Seq<NcCell>,
)
    decreases n,
{
    if n == 0 || n > cells.len() {
        (pool, cells)
    } else {
        let prev = box_released(pool, cells, (n - 1) as nat);
        (pool_released(prev.0, prev.1[n - 1]), prev.1.update(n - 1, cell_cleared(prev.1[n - 1])))
    }
}

/// What is left of a text behind its first `i` clusters.
pub open spec fn nth_rest(text: Seq<char>, i: nat) -> Seq<char>
    decreases i,
{
    if i == 0 {
        text
    } else {
        after_first_cluster(nth_rest(text, (i - 1) as nat))
    }
}

/// Whether a text holds fewer than `n` clusters.
pub open spec fn fewer_clusters(text: Seq<char>, n: nat) -> bool {
    exists|i: nat| i < n && #[trigger] nth_rest(text, i).len() == 0
}

/// Whether a pool holds nothing that another pool did not hold in the same
/// slot.
pub open spec fn pool_within(now: Seq<Seq<char>>, was: Seq<Seq<char>>) -> bool {
    forall|j: int|
        0 <= j < now.len() && (#[trigger] now[j]).len() > 0 ==> j < was.len() && was[j] == now[j]
}

/// Whether one of the cells `from..upto` names the pool slot `slot`.
pub open spec fn held(cells: Seq<NcCell>, from: int, upto: int, slot: int) -> bool {
    exists|k: int| from <= k < upto && (#[trigger] cells[k]).gcluster == NCCELL_POOL_FLAG + slot
}

/// Whether a pool holds nothing that another pool did not hold, but for
/// the slots that the cells `from..upto` name.
pub open spec fn pool_within_but(
    now: Seq<Seq<char>>,
    was: Seq<Seq<char>>,
    cells: Seq<NcCell>,
    from: int,
    upto: int,
) -> bool {
    forall|j: int|
        0 <= j < now.len() && (#[trigger] now[j]).len() > 0 ==> (j < was.len() && was[j] == now[j])
            || held(cells, from, upto, j)
}

/// Once a load has failed, trying further changes nothing.
pub proof fn lemma_box_failed_stays(
    pool: Seq<Seq<char>>,
    cells: Seq<NcCell>,
    text: Seq<char>,
    style: u16,
    channels: u64,
    n: nat,
    m: nat,
)
    requires
        n <= m,
        box_loaded(pool, cells, text, style, channels, n).failed,
    ensures
        box_loaded(pool, cells, text, style, channels, m) == box_loaded(
            pool,
            cells,
            text,
            style,
            channels,
            n,
        ),
    decreases m,
{
    if m > n {
        lemma_box_failed_stays(pool, cells, text, style, channels, n, (m - 1) as nat);
    }
}

/// Whether every scalar of a text is a cluster by itself.
pub open spec fn plain_text(text: Seq<char>) -> bool {
    forall|i: int| 0 <= i < text.len() ==> is_base(#[trigger] text[i])
}

/// In a text of scalars that are clusters by themselves, every cluster is
/// one scalar.
pub proof fn lemma_plain_cluster(text: Seq<char>, n: int)
    requires
        plain_text(text),
        0 <= n < text.len(),
    ensures
        first_cluster_ok(text.skip(n)),
        first_cluster_len(text.skip(n)) == 1,
        first_cluster(text.skip(n)) == seq![text[n]],
        after_first_cluster(text.skip(n)) == text.skip(n + 1),
{
    let t = text.skip(n);
    assert(t[0] == text[n]);
    if t.len() > 1 {
        assert(t[1] == text[n + 1]);
    }
    assert(t.take(1) =~= seq![text[n]]);
    assert(t.skip(1) =~= text.skip(n + 1));
}

/// Loading cells from a text of scalars that are clusters by themselves
/// does not fail while the text lasts: each cell gets its scalar, and the
/// pool loses what the cells held and gains nothing.
pub proof fn lemma_box_plain(
    pool: Seq<Seq<char>>,
    cells: Seq<NcCell>,
    text: Seq<char>,
    style: u16,
    channels: u64,
    n: nat,
)
    requires
        plain_text(text),
        n <= text.len(),
        n <= cells.len(),
    ensures
        !box_loaded(pool, cells, text, style, channels, n).failed,
        box_loaded(pool, cells, text, style, channels, n).done == n,
        box_loaded(pool, cells, text, style, channels, n).text == text.skip(n as int),
        box_loaded(pool, cells, text, style, channels, n).pool == box_released(pool, cells, n).0,
        box_loaded(pool, cells, text, style, channels, n).cells.len() == cells.len(),
        forall|i: int|
            0 <= i < cells.len() ==> (#[trigger] box_loaded(
                pool,
                cells,
                text,
                style,
                channels,
                n,
            ).cells[i]) == if i < n {
                NcCell {
                    gcluster: text[i] as u32,
                    width: scalar_columns(text[i]),
                    stylemask: style,
                    channels,
                    ..cells[i]
                }
            } else {
                cells[i]
            },
        forall|i: int|
            0 <= i < cells.len() ==> (#[trigger] box_released(pool, cells, n).1[i]) == if i < n {
                cell_cleared(cells[i])
            } else {
                cells[i]
            },
        box_released(pool, cells, n).1.len() == cells.len(),
    decreases n,
{
    if n == 0 {
        assert(text.skip(0) =~= text);
    } else {
        lemma_box_plain(pool, cells, text, style, channels, (n - 1) as nat);
        lemma_plain_cluster(text, n - 1);
    }
}

/// A cell that was given a glyph of one scalar, with styles and channels.
pub open spec fn box_cell(was: NcCell, glyph: char, style: u16, channels: u64) -> NcCell {
    NcCell {
        gcluster: glyph as u32,
        width: scalar_columns(glyph),
        stylemask: style,
        channels,
        ..was
    }
}

/// What holds after six cells were loaded with six glyphs of one scalar
/// each: every cell holds its glyph with the styles and channels given, and
/// the plane has changed in its pool only, which has lost the clusters that
/// the cells held and gained nothing.
pub open spec fn box_cells_are(
    plane_was: NcPlaneView,
    plane_now: NcPlaneView,
    before: Seq<NcCell>,
    after: Seq<NcCell>,
    glyphs: Seq<char>,
    style: u16,
    channels: u64,
) -> bool {
    &&& plane_now == (NcPlaneView { pool: box_released(plane_was.pool, before, 6).0, ..plane_was })
    &&& forall|i: int|
        0 <= i < 6 ==> #[trigger] after[i] == box_cell(before[i], glyphs[i], style, channels)
}

impl NcCell {
    /// Loads six cells with the first six clusters of a text, and gives
    /// each the styles and channels passed.
    ///
    /// The cells are loaded in the order given, each as `prime` does it.
    /// When one load fails, or the text ends before the sixth cluster, the
    /// clusters of the cells loaded so far are released again and the
    /// result is `CellEncodingError`: the pool then holds nothing that it
    /// did not hold before.
    pub fn load_box(
        plane: &mut NcPlane,
        style: u16,
        channels: u64,
        ul: &mut NcCell,
        ur: &mut NcCell,
        ll: &mut NcCell,
        lr: &mut NcCell,
        hl: &mut NcCell,
        vl: &mut NcCell,
        gcluster: &str,
    ) -> (r: NcResult<()>)
        requires
            old(plane).wf(),
        ensures
            final(plane).wf(),
            final(plane)@ == (NcPlaneView { pool: final(plane)@.pool, ..old(plane)@ }),
            ({
                let before = seq![*old(ul), *old(ur), *old(ll), *old(lr), *old(hl), *old(vl)];
                let after = seq![
                    *final(ul),
                    *final(ur),
                    *final(ll),
                    *final(lr),
                    *final(hl),
                    *final(vl),
                ];
                let s = box_loaded(old(plane)@.pool, before, gcluster@, style, channels, 6);
                &&& r is Ok <==> !s.failed
                &&& r is Ok ==> final(plane)@.pool == s.pool && after == s.cells
                &&& r is Err ==> (final(plane)@.pool, after) == box_released(
                    s.pool,
                    s.cells,
                    s.done,
                )
                &&& r is Err ==> forall|i: int| 0 <= i < s.done ==> (#[trigger] after[i]).gcluster == 0
            }),
            fewer_clusters(gcluster@, 6) ==> r is Err,
            r matches Err(e) ==> e == NcError::CellEncodingError && pool_within(
                final(plane)@.pool,
                old(plane)@.pool,
            ),
    {
        let ghost pool0 = plane@.pool;
        let ghost cells0 = seq![*ul, *ur, *ll, *lr, *hl, *vl];
        let ghost text0 = gcluster@;
        let mut cells: Vec<NcCell> = Vec::new();
        cells.push(*ul);
        cells.push(*ur);
        cells.push(*ll);
        cells.push(*lr);
        cells.push(*hl);
        cells.push(*vl);
        proof {
            assert(cells@ =~= cells0);
        }
        let mut rest: &str = gcluster;
        let mut failed: bool = false;
        let mut i: usize = 0;
        while i < 6 && !failed
            invariant
                i <= 6,
                cells.len() == 6,
                plane.wf(),
                plane@ == (NcPlaneView { pool: plane@.pool, ..old(plane)@ }),
                box_loaded(pool0, cells0, text0, style, channels, i as nat).pool == plane@.pool,
                box_loaded(pool0, cells0, text0, style, channels, i as nat).cells == cells@,
                box_loaded(pool0, cells0, text0, style, channels, i as nat).done == i,
                box_loaded(pool0, cells0, text0, style, channels, i as nat).failed == failed,
                !failed ==> box_loaded(pool0, cells0, text0, style, channels, i as nat).text
                    == rest@,
                cells0.len() == 6,
                !failed ==> rest@ == nth_rest(text0, i as nat),
                !failed ==> forall|k: nat| k < i ==> (#[trigger] nth_rest(text0, k)).len() > 0,
                failed ==> i >= 1,
                pool_within_but(plane@.pool, pool0, cells@, 0, i as int),
            decreases 6 - i + (if failed { 0int } else { 1int }),
        {
            let ghost pool_before = plane@.pool;
            let ghost cells_before = cells@;
            let mut cell: NcCell = cells[i];
            cell.stylemask = style;
            cell.channels = channels;
            let ghost primed = cell;
            let outcome: NcResult<(usize, u32)> = NcCell::load_counted(plane, &mut cell, rest);
            cells.set(i, cell);
            proof {
                lemma_first_cluster_len(rest@);
                plane.lemma_wf_view();
                let freed = pool_released(pool_before, primed);
                lemma_first_free(freed, 0);
                assert forall|j: int|
                    0 <= j < plane@.pool.len() && (#[trigger] plane@.pool[j]).len()
                        > 0 implies (j < pool0.len() && pool0[j] == plane@.pool[j]) || held(
                    cells@,
                    0,
                    i + 1,
                    j,
                ) by {
                    if j < pool_before.len() && plane@.pool[j] == pool_before[j] {
                        if !(j < pool0.len() && pool0[j] == pool_before[j]) {
                            assert(held(cells_before, 0, i as int, j));
                            let k = choose|k: int|
                                0 <= k < i && (#[trigger] cells_before[k]).gcluster
                                    == NCCELL_POOL_FLAG + j;
                            assert(cells@[k] == cells_before[k]);
                        }
                    } else {
                        assert(cells@[i as int].gcluster == NCCELL_POOL_FLAG + j);
                    }
                }
            }
            match outcome {
                Ok(n) => {
                    if n.0 == 0 {
                        failed = true;
                    } else {
                        let len: usize = rest.unicode_len();
                        rest = rest.substring_char(n.0, len);
                        proof {
                            assert(rest@ =~= after_first_cluster(nth_rest(text0, i as nat)));
                        }
                    }
                },
                Err(_) => {
                    failed = true;
                },
            }
            i = i + 1;
        }
        let ghost loaded = box_loaded(pool0, cells0, text0, style, channels, i as nat);
        proof {
            if failed {
                lemma_box_failed_stays(pool0, cells0, text0, style, channels, i as nat, 6);
            }
            if !failed && fewer_clusters(text0, 6) {
                let k = choose|k: nat| k < 6 && #[trigger] nth_rest(text0, k).len() == 0;
                assert(nth_rest(text0, k).len() > 0);
            }
        }
        if failed {
            let ghost held_cells = cells@;
            let mut m: usize = 0;
            while m < i
                invariant
                    m <= i <= 6,
                    cells.len() == 6,
                    held_cells.len() == 6,
                    plane.wf(),
                    plane@ == (NcPlaneView { pool: plane@.pool, ..old(plane)@ }),
                    (plane@.pool, cells@) == box_released(
                        loaded.pool,
                        loaded.cells,
                        m as nat,
                    ),
                    loaded.cells == held_cells,
                    forall|k: int| m <= k < 6 ==> cells@[k] == held_cells[k],
                    forall|k: int| 0 <= k < m ==> (#[trigger] cells@[k]).gcluster == 0,
                    pool_within_but(plane@.pool, pool0, held_cells, m as int, i as int),
                decreases i - m,
            {
                let ghost pool_before = plane@.pool;
                let mut cell: NcCell = cells[m];
                proof {
                    plane.lemma_wf_view();
                }
                cell.release(plane);
                cells.set(m, cell);
                proof {
                    assert forall|j: int|
                        0 <= j < plane@.pool.len() && (#[trigger] plane@.pool[j]).len()
                            > 0 implies (j < pool0.len() && pool0[j] == plane@.pool[j]) || held(
                        held_cells,
                        m + 1,
                        i as int,
                        j,
                    ) by {
                        assert(plane@.pool[j] == pool_before[j]);
                        if !(j < pool0.len() && pool0[j] == pool_before[j]) {
                            assert(held(held_cells, m as int, i as int, j));
                            let k = choose|k: int|
                                m <= k < i && (#[trigger] held_cells[k]).gcluster
                                    == NCCELL_POOL_FLAG + j;
                            assert(k != m);
                        }
                    }
                }
                m = m + 1;
            }
        }
        *ul = cells[0];
        *ur = cells[1];
        *ll = cells[2];
        *lr = cells[3];
        *hl = cells[4];
        *vl = cells[5];
        proof {
            assert(seq![*ul, *ur, *ll, *lr, *hl, *vl] =~= cells@);
        }
        if failed {
            Err(NcError::CellEncodingError)
        } else {
            Ok(())
        }
    }

    /// Loads six cells from a text of six scalars that are clusters by
    /// themselves. This cannot fail.
    fn load_plain_box(
        plane: &mut NcPlane,
        style: u16,
        channels: u64,
        ul: &mut NcCell,
        ur: &mut NcCell,
        ll: &mut NcCell,
        lr: &mut NcCell,
        hl: &mut NcCell,
        vl: &mut NcCell,
        glyphs: &str,
    ) -> (r: NcResult<()>)
        requires
            old(plane).wf(),
            plain_text(glyphs@),
            glyphs@.len() == 6,
        ensures
            r is Ok,
            box_cells_are(
                old(plane)@,
                final(plane)@,
                seq![*old(ul), *old(ur), *old(ll), *old(lr), *old(hl), *old(vl)],
                seq![*final(ul), *final(ur), *final(ll), *final(lr), *final(hl), *final(vl)],
                glyphs@,
                style,
                channels,
            ),
            final(plane).wf(),
    {
        proof {
            lemma_box_plain(
                plane@.pool,
                seq![*ul, *ur, *ll, *lr, *hl, *vl],
                glyphs@,
                style,
                channels,
                6,
            );
        }
        let r = Self::load_box(plane, style, channels, ul, ur, ll, lr, hl, vl, glyphs);
        proof {
            let before = seq![*old(ul), *old(ur), *old(ll), *old(lr), *old(hl), *old(vl)];
            let after = seq![*ul, *ur, *ll, *lr, *hl, *vl];
            let s = box_loaded(old(plane)@.pool, before, glyphs@, style, channels, 6);
            assert forall|i: int| 0 <= i < 6 implies #[trigger] after[i] == box_cell(
                before[i],
                glyphs@[i],
                style,
                channels,
            ) by {
                assert(s.cells[i] == box_cell(before[i], glyphs@[i], style, channels));
            }
        }
        r
    }

    /// Loads six cells with the double-line glyphs, `╔╗╚╝═║`, and gives each the
    /// styles and channels passed. The clusters that the cells held are
    /// released. This cannot fail.
    pub fn double_box(
        plane: &mut NcPlane,
        style: u16,
        channels: u64,
        ul: &mut NcCell,
        ur: &mut NcCell,
        ll: &mut NcCell,
        lr: &mut NcCell,
        hl: &mut NcCell,
        vl: &mut NcCell,
    ) -> (r: NcResult<()>)
        requires
            old(plane).wf(),
        ensures
            r is Ok,
            box_cells_are(
                old(plane)@,
                final(plane)@,
                seq![*old(ul), *old(ur), *old(ll), *old(lr), *old(hl), *old(vl)],
                seq![*final(ul), *final(ur), *final(ll), *final(lr), *final(hl), *final(vl)],
                "╔╗╚╝═║"@,
                style,
                channels,
            ),
            "╔╗╚╝═║"@.len() == 6,
            final(plane).wf(),
    {
        proof {
            reveal_strlit("╔╗╚╝═║");
        }
        Self::load_plain_box(plane, style, channels, ul, ur, ll, lr, hl, vl, "╔╗╚╝═║")
    }

    /// Loads six cells with the rounded glyphs, `╭╮╰╯─│`, and gives each the
    /// styles and channels passed. The clusters that the cells held are
    /// released. This cannot fail.
    pub fn rounded_box(
        plane: &mut NcPlane,
        style: u16,
        channels: u64,
        ul: &mut NcCell,
        ur: &mut NcCell,
        ll: &mut NcCell,
        lr: &mut NcCell,
        hl: &mut NcCell,
        vl: &mut NcCell,
    ) -> (r: NcResult<()>)
        requires
            old(plane).wf(),
        ensures
            r is Ok,
            box_cells_are(
                old(plane)@,
                final(plane)@,
                seq![*old(ul), *old(ur), *old(ll), *old(lr), *old(hl), *old(vl)],
                seq![*final(ul), *final(ur), *final(ll), *final(lr), *final(hl), *final(vl)],
                "╭╮╰╯─│"@,
                style,
                channels,
            ),
            "╭╮╰╯─│"@.len() == 6,
            final(plane).wf(),
    {
        proof {
            reveal_strlit("╭╮╰╯─│");
        }
        Self::load_plain_box(plane, style, channels, ul, ur, ll, lr, hl, vl, "╭╮╰╯─│")
    }

    /// Loads six cells with the glyphs that every terminal has, `/\\/-|`, and gives each the
    /// styles and channels passed. The clusters that the cells held are
    /// released. This cannot fail.
    pub fn ascii_box(
        plane: &mut NcPlane,
        style: u16,
        channels: u64,
        ul: &mut NcCell,
        ur: &mut NcCell,
        ll: &mut NcCell,
        lr: &mut NcCell,
        hl: &mut NcCell,
        vl: &mut NcCell,
    ) -> (r: NcResult<()>)
        requires
            old(plane).wf(),
        ensures
            r is Ok,
            box_cells_are(
                old(plane)@,
                final(plane)@,
                seq![*old(ul), *old(ur), *old(ll), *old(lr), *old(hl), *old(vl)],
                seq![*final(ul), *final(ur), *final(ll), *final(lr), *final(hl), *final(vl)],
                "/\\\\/-|"@,
                style,
                channels,
            ),
            "/\\\\/-|"@.len() == 6,
            final(plane).wf(),
    {
        proof {
            reveal_strlit("/\\\\/-|");
        }
        Self::load_plain_box(plane, style, channels, ul, ur, ll, lr, hl, vl, "/\\\\/-|")
    }

    /// Loads six cells with the heavy-line glyphs, `┏┓┗┛━┃`, and gives each the
    /// styles and channels passed. The clusters that the cells held are
    /// released. This cannot fail.
    pub fn heavy_box(
        plane: &mut NcPlane,
        style: u16,
        channels: u64,
        ul: &mut NcCell,
        ur: &mut NcCell,
        ll: &mut NcCell,
        lr: &mut NcCell,
        hl: &mut NcCell,
        vl: &mut NcCell,
    ) -> (r: NcResult<()>)
        requires
            old(plane).wf(),
        ensures
            r is Ok,
            box_cells_are(
                old(plane)@,
                final(plane)@,
                seq![*old(ul), *old(ur), *old(ll), *old(lr), *old(hl), *old(vl)],
                seq![*final(ul), *final(ur), *final(ll), *final(lr), *final(hl), *final(vl)],
                "┏┓┗┛━┃"@,
                style,
                channels,
            ),
            "┏┓┗┛━┃"@.len() == 6,
            final(plane).wf(),
    {
        proof {
            reveal_strlit("┏┓┗┛━┃");
        }
        Self::load_plain_box(plane, style, channels, ul, ur, ll, lr, hl, vl, "┏┓┗┛━┃")
    }

    /// Loads six cells with the light-line glyphs, `┌┐└┘─│`, and gives each the
    /// styles and channels passed. The clusters that the cells held are
    /// released. This cannot fail.
    pub fn light_box(
        plane: &mut NcPlane,
        style: u16,
        channels: u64,
        ul: &mut NcCell,
        ur: &mut NcCell,
        ll: &mut NcCell,
        lr: &mut NcCell,
        hl: &mut NcCell,
        vl: &mut NcCell,
    ) -> (r: NcResult<()>)
        requires
            old(plane).wf(),
        ensures
            r is Ok,
            box_cells_are(
                old(plane)@,
                final(plane)@,
                seq![*old(ul), *old(ur), *old(ll), *old(lr), *old(hl), *old(vl)],
                seq![*final(ul), *final(ur), *final(ll), *final(lr), *final(hl), *final(vl)],
                "┌┐└┘─│"@,
                style,
                channels,
            ),
            "┌┐└┘─│"@.len() == 6,
            final(plane).wf(),
    {
        proof {
            reveal_strlit("┌┐└┘─│");
        }
        Self::load_plain_box(plane, style, channels, ul, ur, ll, lr, hl, vl, "┌┐└┘─│")
    }
}

} // verus!
