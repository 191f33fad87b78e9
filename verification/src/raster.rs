//! Rasterizing: turning a rendered pile into the bytes that bring a
//! terminal up to date.
//!
//! The terminal is taken to show what was last rasterized. For each cell
//! that is to differ from what it shows, the bytes move the cursor to the
//! cell, set styles and colours, and write the glyph. Cells that are
//! already right cost nothing. Writing the bytes to the terminal is left to
//! the caller.

use vstd::prelude::*;
use vstd::string::StringSliceAdditionalSpecFns;
use crate::channel::{
    channel_b, channel_default_p, channel_g, channel_palindex, channel_palindex_p, channel_r,
    channels_bchannel, channels_fchannel, ncchannel_default_p, ncchannel_palindex,
    ncchannel_palindex_p, ncchannel_rgb8, ncchannels_bchannel, ncchannels_fchannel,
};
use crate::error::{NcError, NcResult};
use crate::plane::plane_size_ok;
use crate::render::{NcRendered, NcRenderedCell, NcRenderedCellView};
use crate::style::{
    NCSTYLE_BOLD, NCSTYLE_ITALIC, NCSTYLE_STRUCK, NCSTYLE_UNDERCURL, NCSTYLE_UNDERLINE,
};

verus! {

/// The escape character.
pub const ESC: u8 = 0x1b;

/// A number in decimal digits.
pub open spec fn decimal(n: nat) -> Seq<u8>
    decreases n,
{
    if n < 10 {
        seq![(0x30 + n) as u8]
    } else {
        decimal(n / 10).push((0x30 + n % 10) as u8)
    }
}

/// The sequence that moves the cursor to row `y` and column `x`, both
/// counted from zero: `ESC [ y+1 ; x+1 H`.
pub open spec fn cursor_to(y: nat, x: nat) -> Seq<u8> {
    seq![ESC, 0x5b] + decimal(y + 1) + seq![0x3bu8] + decimal(x + 1) + seq![0x48u8]
}

/// The parameters that turn styles on: `;1` for bold, `;3` for italic,
/// `;4` for underline, `;4:3` for a curly underline, `;9` for struck.
pub open spec fn style_codes(stylemask: u16) -> Seq<u8> {
    (if stylemask & NCSTYLE_BOLD != 0 {
        seq![0x3bu8, 0x31]
    } else {
        Seq::empty()
    }) + (if stylemask & NCSTYLE_ITALIC != 0 {
        seq![0x3bu8, 0x33]
    } else {
        Seq::empty()
    }) + (if stylemask & NCSTYLE_UNDERLINE != 0 {
        seq![0x3bu8, 0x34]
    } else {
        Seq::empty()
    }) + (if stylemask & NCSTYLE_UNDERCURL != 0 {
        seq![0x3bu8, 0x34, 0x3a, 0x33]
    } else {
        Seq::empty()
    }) + (if stylemask & NCSTYLE_STRUCK != 0 {
        seq![0x3bu8, 0x39]
    } else {
        Seq::empty()
    })
}

/// The parameters that set one colour. `lead` is `3` for the foreground
/// and `4` for the background: `;39` for the default colour, `;38;5;N` for
/// a palette colour, `;38;2;R;G;B` for any other.
pub open spec fn colour_codes(ch: u32, lead: u8) -> Seq<u8> {
    if channel_default_p(ch) {
        seq![0x3bu8, lead, 0x39]
    } else if channel_palindex_p(ch) {
        seq![0x3bu8, lead, 0x38, 0x3b, 0x35, 0x3b] + decimal(channel_palindex(ch) as nat)
    } else {
        seq![0x3bu8, lead, 0x38, 0x3b, 0x32, 0x3b] + decimal(channel_r(ch) as nat) + seq![0x3bu8]
            + decimal(channel_g(ch) as nat) + seq![0x3bu8] + decimal(channel_b(ch) as nat)
    }
}

/// The sequence that sets the styles and colours of a cell:
/// `ESC [ 0 ... m`.
pub open spec fn attributes(cell: NcRenderedCellView) -> Seq<u8> {
    seq![ESC, 0x5b, 0x30] + style_codes(cell.stylemask) + colour_codes(
        channels_fchannel(cell.channels),
        0x33,
    ) + colour_codes(channels_bchannel(cell.channels), 0x34) + seq![0x6du8]
}

/// The bytes of a glyph: its UTF-8, or a space where there is none.
pub open spec fn glyph_bytes(egc: Seq<char>) -> Seq<u8> {
    if egc.len() == 0 {
        seq![0x20u8]
    } else {
        vstd::utf8::encode_utf8(egc)
    }
}

/// The bytes that bring the cell at place `i` of a screen `cols` wide up to
/// date.
pub open spec fn cell_update(i: nat, cols: nat, cell: NcRenderedCellView) -> Seq<u8> {
    cursor_to(i / cols, i % cols) + attributes(cell) + glyph_bytes(cell.egc)
}

/// The bytes that bring the first `n` cells of a screen from `last` to
/// `next`: the updates of the cells that differ, in order.
pub open spec fn updates(
    last: Seq<NcRenderedCellView>,
    next: Seq<NcRenderedCellView>,
    cols: nat,
    n: nat,
) -> Seq<u8>
    decreases n,
{
    if n == 0 {
        Seq::empty()
    } else {
        let before = updates(last, next, cols, (n - 1) as nat);
        if last[n - 1] == next[n - 1] {
            before
        } else {
            before + cell_update((n - 1) as nat, cols, next[n - 1])
        }
    }
}

/// The cell of a screen that shows nothing.
pub open spec fn blank_cell() -> NcRenderedCellView {
    NcRenderedCellView { egc: Seq::empty(), stylemask: 0, width: 0, channels: 0 }
}

/// A screen that is as it should be needs no bytes.
pub proof fn lemma_updates_none(cells: Seq<NcRenderedCellView>, cols: nat, n: nat)
    ensures
        updates(cells, cells, cols, n) == Seq::<u8>::empty(),
    decreases n,
{
    if n > 0 {
        lemma_updates_none(cells, cols, (n - 1) as nat);
    }
}

/// What a terminal shows, as plain values.
pub struct NcTerminalView {
    /// The rows of the screen.
    pub rows: nat,
    /// The columns of the screen.
    pub cols: nat,
    /// The cells, row after row.
    pub cells: Seq<NcRenderedCellView>,
}

/// What the terminal was last brought to show.
pub struct NcTerminal {
    rows: u32,
    cols: u32,
    last: Vec<NcRenderedCell>,
}

impl View for NcTerminal {
    type V = NcTerminalView;

    closed spec fn view(&self) -> NcTerminalView {
        NcTerminalView {
            rows: self.rows as nat,
            cols: self.cols as nat,
            cells: Seq::new(self.last.len() as nat, |i: int| self.last[i]@),
        }
    }
}

/// Appends a number in decimal digits.
pub fn push_decimal(out: &mut Vec<u8>, n: u32)
    ensures
        final(out)@ == old(out)@ + decimal(n as nat),
    decreases n,
{
    if n >= 10 {
        push_decimal(out, n / 10);
    }
    out.push(0x30 + (n % 10) as u8);
    proof {
        if n < 10 {
            assert(final(out)@ =~= old(out)@ + decimal(n as nat));
        } else {
            assert(final(out)@ =~= old(out)@ + decimal(n as nat));
        }
    }
}

/// Appends the sequence that moves the cursor.
pub fn push_cursor_to(out: &mut Vec<u8>, y: u32, x: u32)
    requires
        y < u32::MAX,
        x < u32::MAX,
    ensures
        final(out)@ == old(out)@ + cursor_to(y as nat, x as nat),
{
    out.push(ESC);
    out.push(0x5b);
    push_decimal(out, y + 1);
    out.push(0x3b);
    push_decimal(out, x + 1);
    out.push(0x48);
    proof {
        assert(final(out)@ =~= old(out)@ + cursor_to(y as nat, x as nat));
    }
}

/// Appends the parameters that turn styles on.
pub fn push_style_codes(out: &mut Vec<u8>, stylemask: u16)
    ensures
        final(out)@ == old(out)@ + style_codes(stylemask),
{
    if stylemask & NCSTYLE_BOLD != 0 {
        out.push(0x3b);
        out.push(0x31);
    }
    if stylemask & NCSTYLE_ITALIC != 0 {
        out.push(0x3b);
        out.push(0x33);
    }
    if stylemask & NCSTYLE_UNDERLINE != 0 {
        out.push(0x3b);
        out.push(0x34);
    }
    if stylemask & NCSTYLE_UNDERCURL != 0 {
        out.push(0x3b);
        out.push(0x34);
        out.push(0x3a);
        out.push(0x33);
    }
    if stylemask & NCSTYLE_STRUCK != 0 {
        out.push(0x3b);
        out.push(0x39);
    }
    proof {
        assert(final(out)@ =~= old(out)@ + style_codes(stylemask));
    }
}

/// Appends the parameters that set one colour.
pub fn push_colour_codes(out: &mut Vec<u8>, ch: u32, lead: u8)
    ensures
        final(out)@ == old(out)@ + colour_codes(ch, lead),
{
    out.push(0x3b);
    out.push(lead);
    if ncchannel_default_p(ch) {
        out.push(0x39);
    } else if ncchannel_palindex_p(ch) {
        out.push(0x38);
        out.push(0x3b);
        out.push(0x35);
        out.push(0x3b);
        push_decimal(out, ncchannel_palindex(ch) as u32);
    } else {
        let rgb: (u8, u8, u8) = ncchannel_rgb8(ch);
        out.push(0x38);
        out.push(0x3b);
        out.push(0x32);
        out.push(0x3b);
        push_decimal(out, rgb.0 as u32);
        out.push(0x3b);
        push_decimal(out, rgb.1 as u32);
        out.push(0x3b);
        push_decimal(out, rgb.2 as u32);
    }
    proof {
        assert(final(out)@ =~= old(out)@ + colour_codes(ch, lead));
    }
}

/// Appends the bytes that bring one cell up to date.
pub fn push_cell_update(out: &mut Vec<u8>, y: u32, x: u32, cell: &NcRenderedCell)
    requires
        y < u32::MAX,
        x < u32::MAX,
    ensures
        final(out)@ == old(out)@ + cursor_to(y as nat, x as nat) + attributes(cell@) + glyph_bytes(
            cell@.egc,
        ),
{
    push_cursor_to(out, y, x);
    let ghost moved = out@;
    out.push(ESC);
    out.push(0x5b);
    out.push(0x30);
    push_style_codes(out, cell.stylemask);
    push_colour_codes(out, ncchannels_fchannel(cell.channels), 0x33);
    push_colour_codes(out, ncchannels_bchannel(cell.channels), 0x34);
    out.push(0x6d);
    proof {
        assert(out@ =~= moved + attributes(cell@));
    }
    let ghost styled = out@;
    if cell.egc.as_str().is_empty() {
        out.push(0x20);
        proof {
            assert(out@ =~= styled + glyph_bytes(cell@.egc));
        }
    } else {
        let bytes: &[u8] = cell.egc.as_str().as_bytes();
        let mut k: usize = 0;
        while k < bytes.len()
            invariant
                k <= bytes.len(),
                bytes@ == glyph_bytes(cell@.egc),
                out@ == styled + bytes@.take(k as int),
            decreases bytes.len() - k,
        {
            out.push(bytes[k]);
            proof {
                assert(bytes@.take(k + 1) =~= bytes@.take(k as int).push(bytes[k as int]));
                assert(out@ =~= styled + bytes@.take(k + 1));
            }
            k = k + 1;
        }
        proof {
            assert(bytes@.take(k as int) =~= bytes@);
        }
    }
}

/// Whether two cells show the same.
pub fn same_cell(a: &NcRenderedCell, b: &NcRenderedCell) -> (same: bool)
    ensures
        same == (a@ == b@),
{
    a.stylemask == b.stylemask && a.width == b.width && a.channels == b.channels && a.egc
        == b.egc
}

impl NcTerminal {
    /// What holds of every terminal: it has one cell for each position, at
    /// least one and no more than a plane may have.
    pub closed spec fn wf(&self) -> bool {
        plane_size_ok(self.rows, self.cols) && self.last.len() == self.rows * self.cols
    }

    /// A terminal of `rows` by `cols` that shows nothing: one that was just
    /// cleared.
    ///
    /// Fails with `AllocationError` when a dimension is zero or the screen
    /// would have more cells than a plane may have.
    pub fn new(rows: u32, cols: u32) -> (r: NcResult<NcTerminal>)
        ensures
            r is Ok <==> plane_size_ok(rows, cols),
            r matches Err(e) ==> e == NcError::AllocationError,
            r matches Ok(t) ==> t.wf() && t@ == (NcTerminalView {
                rows: rows as nat,
                cols: cols as nat,
                cells: Seq::new((rows * cols) as nat, |i: int| blank_cell()),
            }),
    {
        if rows == 0 || cols == 0 {
            return Err(NcError::AllocationError);
        }
        assert(rows * cols <= 0xffff_ffff * 0xffff_ffff) by (nonlinear_arith)
            requires
                0 <= rows <= 0xffff_ffff,
                0 <= cols <= 0xffff_ffff,
        ;
        let total: u64 = rows as u64 * cols as u64;
        if total > crate::plane::NCPLANE_MAX_CELLS as u64 {
            return Err(NcError::AllocationError);
        }
        let count: usize = total as usize;
        let mut last: Vec<NcRenderedCell> = Vec::new();
        let mut i: usize = 0;
        while i < count
            invariant
                i <= count,
                last.len() == i,
                forall|k: int| 0 <= k < i ==> (#[trigger] last[k])@ == blank_cell(),
            decreases count - i,
        {
            last.push(NcRenderedCell { egc: String::new(), stylemask: 0, width: 0, channels: 0 });
            i = i + 1;
        }
        let t = NcTerminal { rows, cols, last };
        proof {
            assert(t@.cells =~= Seq::new((rows * cols) as nat, |i: int| blank_cell()));
        }
        Ok(t)
    }

    /// Makes the bytes that bring the terminal from what it shows to what
    /// was rendered, and takes the terminal to show that from now on.
    ///
    /// Fails with `InvalidOperation`, and changes nothing, when the
    /// rendering is for a screen of another size.
    pub fn rasterize(&mut self, rendered: &NcRendered) -> (r: NcResult<Vec<u8>>)
        requires
            old(self).wf(),
            rendered.wf(),
        ensures
            final(self).wf(),
            r is Ok <==> rendered@.rows == old(self)@.rows && rendered@.cols == old(self)@.cols,
            r matches Ok(bytes) ==> bytes@ == updates(
                old(self)@.cells,
                rendered@.cells,
                old(self)@.cols,
                rendered@.cells.len(),
            ) && final(self)@ == (NcTerminalView { cells: rendered@.cells, ..old(self)@ }),
            r matches Err(e) ==> e == NcError::InvalidOperation && final(self)@ == old(self)@,
    {
        if rendered.rows() != self.rows || rendered.cols() != self.cols {
            return Err(NcError::InvalidOperation);
        }
        proof {
            rendered.lemma_wf_view();
        }
        let ghost was = self@.cells;
        let ghost next = rendered@.cells;
        let n: usize = self.last.len();
        let cols: u32 = self.cols;
        let mut out: Vec<u8> = Vec::new();
        let mut i: usize = 0;
        while i < n
            invariant
                i <= n,
                n == self.last.len(),
                n == next.len(),
                n == was.len(),
                n == self.rows * self.cols,
                cols == self.cols,
                cols > 0,
                self.rows == old(self).rows,
                self.cols == old(self).cols,
                plane_size_ok(self.rows, self.cols),
                next == rendered@.cells,
                rendered.wf(),
                out@ == updates(was, next, cols as nat, i as nat),
                forall|k: int| 0 <= k < i ==> (#[trigger] self.last[k])@ == next[k],
                forall|k: int| i <= k < n ==> (#[trigger] self.last[k])@ == was[k],
            decreases n - i,
        {
            let cell: &NcRenderedCell = match rendered.cell(i) {
                Some(c) => c,
                None => {
                    proof {
                        assert(false);
                    }
                    return Err(NcError::InvalidOperation);
                },
            };
            if !same_cell(&self.last[i], cell) {
                let y: u32 = (i / cols as usize) as u32;
                let x: u32 = (i % cols as usize) as u32;
                push_cell_update(&mut out, y, x, cell);
                proof {
                    assert(out@ =~= updates(was, next, cols as nat, i as nat) + cell_update(
                        i as nat,
                        cols as nat,
                        next[i as int],
                    ));
                }
                self.last.set(
                    i,
                    NcRenderedCell {
                        egc: cell.egc.clone(),
                        stylemask: cell.stylemask,
                        width: cell.width,
                        channels: cell.channels,
                    },
                );
            }
            i = i + 1;
        }
        proof {
            assert(self@.cells =~= next);
        }
        Ok(out)
    }

    /// The size of the screen: rows, then columns.
    pub fn size(&self) -> (s: (u32, u32))
        ensures
            s.0 == self@.rows,
            s.1 == self@.cols,
    {
        (self.rows, self.cols)
    }
}

} // verus!
