//! Rendering: flattening a pile into one matrix of cells.
//!
//! For each position of the screen the planes of the pile are gone through
//! from top to bottom. The glyph is that of the first plane that has one
//! there. Each of the two colours is mixed from the planes that set it: a
//! channel that is the default colour or transparent is passed over, a
//! blending channel is averaged in and lets the planes below add to the
//! mix, and an opaque channel is averaged in and ends the mix.

use vstd::prelude::*;
use crate::channel::{
    channel_alpha, channel_b, channel_default_p, channel_g, channel_palindex,
    channel_palindex_p, channel_r, channel_with_palindex, channel_with_rgb,
    channels_with_bchannel, channels_with_fchannel, ncchannel_alpha, ncchannel_default_p,
    ncchannel_palindex, ncchannel_palindex_p, ncchannel_rgb8, ncchannel_set_palindex,
    ncchannel_set_rgb8, ncchannels_combine, rgb_of, NCALPHA_BLEND, NCALPHA_TRANSPARENT,
};
use crate::error::{NcError, NcResult};
use crate::pile::view::NcPilesView;
use crate::pile::NcPiles;
use crate::plane::shown::{covers, shown, Shown, ShownCell};

verus! {

/// One colour while it is mixed.
#[derive(Clone, Copy, Debug, PartialEq, Eq, Structural)]
pub struct Paint {
    /// Red so far.
    pub r: u8,
    /// Green so far.
    pub g: u8,
    /// Blue so far.
    pub b: u8,
    /// Whether the colour is a palette colour.
    pub palette: bool,
    /// The palette index, for a palette colour.
    pub index: u8,
    /// The number of channels mixed in so far.
    pub count: u32,
    /// Whether an opaque channel has ended the mix.
    pub locked: bool,
}

/// No colour yet.
pub open spec fn paint_none() -> Paint {
    Paint { r: 0, g: 0, b: 0, palette: false, index: 0, count: 0, locked: false }
}

/// The average of `count` components that average `acc`, and one more.
pub open spec fn averaged(acc: u8, count: u32, c: u8) -> u8 {
    ((acc * count + c) / (count + 1)) as u8
}

/// The colour after a channel of the next plane below was offered.
///
/// Nothing changes once the mix has ended, or when the channel is the
/// default colour or transparent. Else the first channel gives its colour
/// as it is; a later one is averaged in, unless it or the mix is a palette
/// colour, which cannot be averaged. Any alpha but blending ends the mix.
pub open spec fn paint_over(p: Paint, ch: u32) -> Paint {
    if p.locked || channel_default_p(ch) || channel_alpha(ch) == NCALPHA_TRANSPARENT {
        p
    } else {
        let mixed = if p.count == 0 {
            Paint {
                r: channel_r(ch),
                g: channel_g(ch),
                b: channel_b(ch),
                palette: channel_palindex_p(ch),
                index: if channel_palindex_p(ch) {
                    channel_palindex(ch)
                } else {
                    0
                },
                ..p
            }
        } else if p.palette || channel_palindex_p(ch) {
            p
        } else {
            Paint {
                r: averaged(p.r, p.count, channel_r(ch)),
                g: averaged(p.g, p.count, channel_g(ch)),
                b: averaged(p.b, p.count, channel_b(ch)),
                ..p
            }
        };
        Paint {
            count: if p.count < u32::MAX {
                (p.count + 1) as u32
            } else {
                p.count
            },
            locked: channel_alpha(ch) != NCALPHA_BLEND,
            ..mixed
        }
    }
}

/// The channel that a mixed colour makes: the default colour where nothing
/// was mixed in, and else an opaque channel with the colour.
pub open spec fn paint_channel(p: Paint) -> u32 {
    if p.count == 0 {
        0
    } else if p.palette {
        channel_with_palindex(0, p.index)
    } else {
        channel_with_rgb(0, rgb_of(p.r, p.g, p.b))
    }
}

/// One position of the screen while the planes are gone through.
pub struct Mix {
    /// The glyph: empty while no plane has shown one.
    pub glyph: Seq<char>,
    /// The styles of the glyph.
    pub stylemask: u16,
    /// The columns of the glyph.
    pub width: u8,
    /// The foreground.
    pub fg: Paint,
    /// The background.
    pub bg: Paint,
}

/// Nothing shown yet.
pub open spec fn mix_none() -> Mix {
    Mix { glyph: Seq::empty(), stylemask: 0, width: 0, fg: paint_none(), bg: paint_none() }
}

/// The position after the next plane below has shown what it has there.
pub open spec fn mix_under(m: Mix, s: Shown) -> Mix {
    let takes = m.glyph.len() == 0 && s.glyph.len() > 0;
    Mix {
        glyph: if takes {
            s.glyph
        } else {
            m.glyph
        },
        stylemask: if takes {
            s.stylemask
        } else {
            m.stylemask
        },
        width: if takes {
            s.width
        } else {
            m.width
        },
        fg: paint_over(m.fg, s.fchannel),
        bg: paint_over(m.bg, s.bchannel),
    }
}

/// The position `(y, x)` after the first `n` planes of an order, from the
/// top, have shown what they have there.
pub open spec fn mixed(v: NcPilesView, order: Seq<usize>, n: nat, y: int, x: int) -> Mix
    decreases n,
{
    if n == 0 || n > order.len() {
        mix_none()
    } else {
        let above = mixed(v, order, (n - 1) as nat, y, x);
        let plane = v.planes[order[n - 1]];
        if covers(plane, y, x) {
            mix_under(above, shown(plane, y, x))
        } else {
            above
        }
    }
}

/// One cell of a rendered pile, as plain values.
pub struct NcRenderedCellView {
    /// The glyph: empty where no plane shows one.
    pub egc: Seq<char>,
    /// The styles of the glyph.
    pub stylemask: u16,
    /// The columns of the glyph.
    pub width: u8,
    /// The two channels.
    pub channels: u64,
}

/// The cell that a finished mix makes.
pub open spec fn mix_cell(m: Mix) -> NcRenderedCellView {
    NcRenderedCellView {
        egc: m.glyph,
        stylemask: m.stylemask,
        width: m.width,
        channels: channels_with_bchannel(
            channels_with_fchannel(0, paint_channel(m.fg)),
            paint_channel(m.bg),
        ),
    }
}

/// The cell that the pile with the order `order` shows at `(y, x)`.
pub open spec fn rendered_cell(v: NcPilesView, order: Seq<usize>, y: int, x: int) -> NcRenderedCellView {
    mix_cell(mixed(v, order, order.len(), y, x))
}

/// A rendered pile, as plain values.
pub struct NcRenderedView {
    /// The rows of the screen.
    pub rows: nat,
    /// The columns of the screen.
    pub cols: nat,
    /// The cells, row after row.
    pub cells: Seq<NcRenderedCellView>,
}

/// What the pile of `p` looks like on a screen of `rows` by `cols`.
pub open spec fn rendered_view(v: NcPilesView, p: usize, rows: nat, cols: nat) -> NcRenderedView {
    NcRenderedView {
        rows,
        cols,
        cells: Seq::new(
            rows * cols,
            |i: int| rendered_cell(v, v.z_order[p], i / cols as int, i % cols as int),
        ),
    }
}

/// One cell of a rendered pile.
#[derive(Clone, Debug)]
pub struct NcRenderedCell {
    /// The glyph: empty where no plane shows one.
    pub egc: String,
    /// The styles of the glyph.
    pub stylemask: u16,
    /// The columns of the glyph.
    pub width: u8,
    /// The two channels.
    pub channels: u64,
}

impl View for NcRenderedCell {
    type V = NcRenderedCellView;

    open spec fn view(&self) -> NcRenderedCellView {
        NcRenderedCellView {
            egc: self.egc@,
            stylemask: self.stylemask,
            width: self.width,
            channels: self.channels,
        }
    }
}

/// A rendered pile: one cell for each position of the screen.
pub struct NcRendered {
    pub(crate) rows: u32,
    pub(crate) cols: u32,
    pub(crate) cells: Vec<NcRenderedCell>,
}

impl View for NcRendered {
    type V = NcRenderedView;

    open(crate) spec fn view(&self) -> NcRenderedView {
        NcRenderedView {
            rows: self.rows as nat,
            cols: self.cols as nat,
            cells: Seq::new(self.cells.len() as nat, |i: int| self.cells[i]@),
        }
    }
}

impl NcRendered {
    /// What holds of every rendered pile: it has one cell for each position.
    pub open(crate) spec fn wf(&self) -> bool {
        self.cells.len() == self.rows * self.cols
    }

    /// A rendered pile has one cell for each position.
    pub proof fn lemma_wf_view(&self)
        requires
            self.wf(),
        ensures
            self@.cells.len() == self@.rows * self@.cols,
    {
    }

    /// The number of rows.
    pub fn rows(&self) -> (n: u32)
        ensures
            n == self@.rows,
    {
        self.rows
    }

    /// The number of columns.
    pub fn cols(&self) -> (n: u32)
        ensures
            n == self@.cols,
    {
        self.cols
    }

    /// The number of cells.
    pub fn len(&self) -> (n: usize)
        ensures
            n == self@.cells.len(),
    {
        self.cells.len()
    }

    /// The cell at place `i`, counted row after row.
    pub fn cell(&self, i: usize) -> (c: Option<&NcRenderedCell>)
        ensures
            c is Some <==> i < self@.cells.len(),
            c matches Some(cell) ==> cell@ == self@.cells[i as int],
    {
        if i < self.cells.len() {
            Some(&self.cells[i])
        } else {
            None
        }
    }

    /// The cell at `(y, x)`.
    pub fn cell_at(&self, y: u32, x: u32) -> (c: Option<&NcRenderedCell>)
        requires
            self.wf(),
        ensures
            c is Some <==> y < self@.rows && x < self@.cols,
            c matches Some(cell) ==> cell@ == self@.cells[y * self@.cols + x],
    {
        if y < self.rows && x < self.cols {
            proof {
                assert(y * self.cols + x < self.rows * self.cols) by (nonlinear_arith)
                    requires
                        0 <= y < self.rows,
                        0 <= x < self.cols,
                ;
            }
            let i: usize = (y as u64 * self.cols as u64 + x as u64) as usize;
            Some(&self.cells[i])
        } else {
            None
        }
    }
}

/// Mixes a channel into a colour.
pub fn blend(p: Paint, ch: u32) -> (out: Paint)
    ensures
        out == paint_over(p, ch),
{
    if p.locked || ncchannel_default_p(ch) || ncchannel_alpha(ch) == NCALPHA_TRANSPARENT {
        return p;
    }
    let rgb: (u8, u8, u8) = ncchannel_rgb8(ch);
    let indexed: bool = ncchannel_palindex_p(ch);
    let mixed: Paint = if p.count == 0 {
        Paint {
            r: rgb.0,
            g: rgb.1,
            b: rgb.2,
            palette: indexed,
            index: if indexed {
                ncchannel_palindex(ch)
            } else {
                0
            },
            ..p
        }
    } else if p.palette || indexed {
        p
    } else {
        Paint {
            r: average(p.r, p.count, rgb.0),
            g: average(p.g, p.count, rgb.1),
            b: average(p.b, p.count, rgb.2),
            ..p
        }
    };
    Paint {
        count: if p.count < u32::MAX {
            p.count + 1
        } else {
            p.count
        },
        locked: ncchannel_alpha(ch) != NCALPHA_BLEND,
        ..mixed
    }
}

/// The average of `count` components that average `acc`, and one more.
pub fn average(acc: u8, count: u32, c: u8) -> (out: u8)
    ensures
        out == averaged(acc, count, c),
{
    assert(acc * count + c <= 255 * (count + 1)) by (nonlinear_arith)
        requires
            0 <= acc <= 255,
            0 <= c <= 255,
            0 <= count,
    ;
    assert(acc * count <= 255 * 0xffff_ffff) by (nonlinear_arith)
        requires
            0 <= acc <= 255,
            0 <= count <= 0xffff_ffff,
    ;
    let sum: u64 = acc as u64 * count as u64 + c as u64;
    let n: u64 = count as u64 + 1;
    let q: u64 = sum / n;
    assert(q <= 255) by (nonlinear_arith)
        requires
            q == sum / n,
            sum <= 255 * n,
            n > 0,
    ;
    q as u8
}

/// The channel that a mixed colour makes.
pub fn finish(p: Paint) -> (ch: u32)
    ensures
        ch == paint_channel(p),
{
    if p.count == 0 {
        0
    } else if p.palette {
        ncchannel_set_palindex(0, p.index)
    } else {
        ncchannel_set_rgb8(0, p.r, p.g, p.b)
    }
}

impl NcPiles {
    /// The cell that the pile in the stack `s` shows at `(y, x)`.
    fn compose_cell(&self, s: usize, y: u32, x: u32) -> (cell: NcRenderedCell)
        requires
            self.wf(),
            s < self.stacks.len(),
        ensures
            cell@ == rendered_cell(self@, self.stacks[s as int]@, y as int, x as int),
    {
        let ghost order = self.stacks[s as int]@;
        let mut glyph: String = String::new();
        let mut stylemask: u16 = 0;
        let mut width: u8 = 0;
        let mut fg: Paint = Paint {
            r: 0,
            g: 0,
            b: 0,
            palette: false,
            index: 0,
            count: 0,
            locked: false,
        };
        let mut bg: Paint = fg;
        let mut k: usize = 0;
        while k < self.stacks[s].len()
            invariant
                self.wf(),
                s < self.stacks.len(),
                order == self.stacks[s as int]@,
                k <= order.len(),
                mixed(self@, order, k as nat, y as int, x as int) == (Mix {
                    glyph: glyph@,
                    stylemask,
                    width,
                    fg,
                    bg,
                }),
            decreases order.len() - k,
        {
            let id: usize = self.stacks[s][k];
            proof {
                assert(self.rep().member_ok(s as int, k as int));
            }
            match &self.planes[id] {
                Some(plane) => {
                    match plane.shown_at(y, x) {
                        Some(offer) => {
                            if glyph.as_str().is_empty() && !offer.glyph.as_str().is_empty() {
                                glyph = offer.glyph;
                                stylemask = offer.stylemask;
                                width = offer.width;
                            }
                            fg = blend(fg, offer.fchannel);
                            bg = blend(bg, offer.bchannel);
                        },
                        None => {},
                    }
                },
                None => {},
            }
            k = k + 1;
        }
        NcRenderedCell {
            egc: glyph,
            stylemask,
            width,
            channels: ncchannels_combine(finish(fg), finish(bg)),
        }
    }

    /// Renders the pile of `member` for the screen: flattens it, from top
    /// to bottom, into one matrix of cells.
    ///
    /// Fails with `InvalidOperation` when `member` does not exist.
    pub fn compose(&self, member: usize) -> (r: NcResult<NcRendered>)
        requires
            self.wf(),
        ensures
            r is Ok <==> self@.contains(member),
            r matches Ok(m) ==> m.wf() && m@ == rendered_view(
                self@,
                member,
                self.screen().0 as nat,
                self.screen().1 as nat,
            ),
            r matches Err(e) ==> e == NcError::InvalidOperation,
    {
        if !self.contains(member) {
            return Err(NcError::InvalidOperation);
        }
        proof {
            assert(self.rep().link_ok(member as int));
        }
        let s: usize = self.pile[member];
        let rows: u32 = self.rows;
        let cols: u32 = self.cols;
        let ghost want = rendered_view(self@, member, rows as nat, cols as nat);
        let mut cells: Vec<NcRenderedCell> = Vec::new();
        let mut y: u32 = 0;
        while y < rows
            invariant
                self.wf(),
                s < self.stacks.len(),
                self.stacks[s as int]@ == self@.z_order[member],
                rows == self.rows,
                cols == self.cols,
                cols > 0,
                y <= rows,
                cells.len() == y * cols,
                rows * cols <= crate::plane::NCPLANE_MAX_CELLS,
                want == rendered_view(self@, member, rows as nat, cols as nat),
                forall|i: int| 0 <= i < cells.len() ==> (#[trigger] cells[i])@ == want.cells[i],
            decreases rows - y,
        {
            let mut x: u32 = 0;
            proof {
                assert((y + 1) * cols <= rows * cols) by (nonlinear_arith)
                    requires
                        y + 1 <= rows,
                        cols >= 0,
                ;
                assert((y + 1) * cols == y * cols + cols) by (nonlinear_arith);
            }
            while x < cols
                invariant
                    self.wf(),
                    s < self.stacks.len(),
                    self.stacks[s as int]@ == self@.z_order[member],
                    rows == self.rows,
                    cols == self.cols,
                    cols > 0,
                    y < rows,
                    x <= cols,
                    cells.len() == y * cols + x,
                    y * cols + cols <= rows * cols,
                    want == rendered_view(self@, member, rows as nat, cols as nat),
                    forall|i: int|
                        0 <= i < cells.len() ==> (#[trigger] cells[i])@ == want.cells[i],
                decreases cols - x,
            {
                let cell: NcRenderedCell = self.compose_cell(s, y, x);
                proof {
                    let i: int = y * cols + x;
                    assert(i / cols as int == y && i % cols as int == x) by (nonlinear_arith)
                        requires
                            i == y * cols + x,
                            0 <= x < cols,
                            0 <= y,
                    ;
                }
                cells.push(cell);
                x = x + 1;
            }
            y = y + 1;
        }
        let out = NcRendered { rows, cols, cells };
        proof {
            assert(out@.cells =~= want.cells);
        }
        Ok(out)
    }

    /// Renders the pile of `member` and keeps the rendering, in the place
    /// of the one that was kept for that pile before.
    ///
    /// Fails with `InvalidOperation`, and keeps what was kept, when
    /// `member` does not exist.
    pub fn render(&mut self, member: usize) -> (r: NcResult<()>)
        requires
            old(self).wf(),
        ensures
            final(self).wf(),
            final(self)@ == old(self)@,
            final(self).screen() == old(self).screen(),
            r is Ok <==> old(self)@.contains(member),
            r is Ok ==> final(self).snapshot(member) == Some(
                rendered_view(
                    old(self)@,
                    member,
                    old(self).screen().0 as nat,
                    old(self).screen().1 as nat,
                ),
            ),
            r matches Err(e) ==> e == NcError::InvalidOperation && forall|q: usize|
                final(self).snapshot(q) == old(self).snapshot(q),
            forall|q: usize|
                !old(self)@.same_pile(member, q) ==> final(self).snapshot(q) == old(
                    self,
                ).snapshot(q),
    {
        let fresh: NcRendered = match self.compose(member) {
            Ok(m) => m,
            Err(e) => {
                return Err(e);
            },
        };
        proof {
            assert(self.rep().link_ok(member as int));
        }
        let s: usize = self.pile[member];
        proof {
            assert forall|q: usize| old(self)@.contains(q) && self.pile[q as int]
                == s implies old(self)@.same_pile(member, q) by {
                assert(self.rep().link_ok(q as int));
            }
        }
        while self.snapshots.len() <= s
            invariant
                self.snapshots.len() >= old(self).snapshots.len(),
                forall|k: int|
                    0 <= k < self.snapshots.len() ==> (#[trigger] self.snapshots[k]) == if k
                        < old(self).snapshots.len() {
                        old(self).snapshots[k]
                    } else {
                        None
                    },
                self.planes == old(self).planes,
                self.parent == old(self).parent,
                self.pile == old(self).pile,
                self.stacks == old(self).stacks,
                self.depth == old(self).depth,
                self.rows == old(self).rows,
                self.cols == old(self).cols,
            decreases s + 1 - self.snapshots.len(),
        {
            self.snapshots.push(None);
        }
        self.snapshots.set(s, Some(fresh));
        proof {
            assert forall|q: usize| !old(self)@.same_pile(member, q) implies self.snapshot(q)
                == old(self).snapshot(q) by {
                if old(self)@.contains(q) {
                    assert(self.pile[q as int] != s);
                }
            }
        }
        Ok(())
    }

    /// The rendering that is kept for the pile of `member`: none when that
    /// pile was not rendered, or `member` does not exist.
    pub fn rendered(&self, member: usize) -> (r: Option<&NcRendered>)
        requires
            self.wf(),
        ensures
            r is Some <==> self.snapshot(member) is Some,
            r matches Some(m) ==> Some(m@) == self.snapshot(member),
    {
        if !self.contains(member) {
            return None;
        }
        let s: usize = self.pile[member];
        if s < self.snapshots.len() {
            self.snapshots[s].as_ref()
        } else {
            None
        }
    }
}

} // verus!
