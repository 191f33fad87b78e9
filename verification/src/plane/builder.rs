//! A builder for plane options.

use vstd::prelude::*;
use crate::align::{align_code, NcAlign};
use crate::plane::options::{
    NcPlaneFlags, NcPlaneOptions, NCPLANE_OPTION_AUTOGROW, NCPLANE_OPTION_FIXED,
    NCPLANE_OPTION_HORALIGNED, NCPLANE_OPTION_MARGINALIZED, NCPLANE_OPTION_VERALIGNED,
    NCPLANE_OPTION_VSCROLL,
};
use crate::resizecb::NcResizeCb;

verus! {

/// Collects the options of a plane, one setting at a time.
///
/// A setting that makes another one meaningless clears its flag: a plain
/// coordinate ends an alignment along its axis, and a size ends fixed
/// margins.
#[derive(Clone, Copy, Debug)]
pub struct NcPlaneOptionsBuilder {
    /// Vertical placement, or a vertical alignment.
    pub y: i32,
    /// Horizontal placement, or a horizontal alignment.
    pub x: i32,
    /// Height in rows.
    pub rows: u32,
    /// Width in columns.
    pub cols: u32,
    /// The resize callback.
    pub resizecb: Option<NcResizeCb>,
    /// The option bits.
    pub flags: u64,
    /// The bottom margin.
    pub margin_b: u32,
    /// The right margin.
    pub margin_r: u32,
}

/// `flags` with the bits of `flag` set or cleared.
pub open spec fn flags_with(flags: u64, flag: u64, on: bool) -> u64 {
    if on {
        flags | flag
    } else {
        flags & !flag
    }
}

impl NcPlaneOptionsBuilder {
    /// The builder that holds nothing: every number zero, no callback.
    pub open spec fn spec_default() -> NcPlaneOptionsBuilder {
        NcPlaneOptionsBuilder {
            y: 0,
            x: 0,
            rows: 0,
            cols: 0,
            resizecb: None,
            flags: 0,
            margin_b: 0,
            margin_r: 0,
        }
    }

    /// The builder that holds what `options` hold.
    pub open spec fn spec_from_options(options: NcPlaneOptions) -> NcPlaneOptionsBuilder {
        NcPlaneOptionsBuilder {
            y: options.y,
            x: options.x,
            rows: options.rows,
            cols: options.cols,
            resizecb: options.resizecb,
            flags: options.flags,
            margin_b: options.margin_b,
            margin_r: options.margin_r,
        }
    }

    /// The options that the builder stands for.
    pub open spec fn spec_build(self) -> NcPlaneOptions {
        NcPlaneOptions {
            y: self.y,
            x: self.x,
            rows: self.rows,
            cols: self.cols,
            userptr: None,
            name: None,
            resizecb: self.resizecb,
            flags: self.flags,
            margin_b: self.margin_b,
            margin_r: self.margin_r,
        }
    }

    /// A builder that holds nothing.
    pub fn new() -> (b: NcPlaneOptionsBuilder)
        ensures
            b == Self::spec_default(),
    {
        NcPlaneOptionsBuilder {
            y: 0,
            x: 0,
            rows: 0,
            cols: 0,
            resizecb: None,
            flags: 0,
            margin_b: 0,
            margin_r: 0,
        }
    }

    /// A builder that holds what `options` hold.
    pub fn from_options(options: &NcPlaneOptions) -> (b: NcPlaneOptionsBuilder)
        ensures
            b == Self::spec_from_options(*options),
    {
        NcPlaneOptionsBuilder {
            y: options.y,
            x: options.x,
            rows: options.rows,
            cols: options.cols,
            resizecb: options.resizecb,
            flags: options.flags,
            margin_b: options.margin_b,
            margin_r: options.margin_r,
        }
    }

    /// The options.
    pub fn build(self) -> (o: NcPlaneOptions)
        ensures
            o == self.spec_build(),
    {
        NcPlaneOptions::with_flags(
            self.y,
            self.x,
            self.rows,
            self.cols,
            self.resizecb,
            NcPlaneFlags(self.flags),
            self.margin_b,
            self.margin_r,
        )
    }

    /// Sets the vertical placement and ends vertical alignment.
    pub fn y(self, y: i32) -> (b: NcPlaneOptionsBuilder)
        ensures
            b == (NcPlaneOptionsBuilder {
                y,
                flags: flags_with(self.flags, NCPLANE_OPTION_VERALIGNED, false),
                ..self
            }),
            (b.flags & NCPLANE_OPTION_VERALIGNED != 0) == false,
    {
        proof {
            lemma_flags_with(self.flags, NCPLANE_OPTION_VERALIGNED, 0);
        }
        NcPlaneOptionsBuilder { y, flags: self.flags & !NCPLANE_OPTION_VERALIGNED, ..self }
    }

    /// Sets the horizontal placement and ends horizontal alignment.
    pub fn x(self, x: i32) -> (b: NcPlaneOptionsBuilder)
        ensures
            b == (NcPlaneOptionsBuilder {
                x,
                flags: flags_with(self.flags, NCPLANE_OPTION_HORALIGNED, false),
                ..self
            }),
            (b.flags & NCPLANE_OPTION_HORALIGNED != 0) == false,
    {
        proof {
            lemma_flags_with(self.flags, NCPLANE_OPTION_HORALIGNED, 0);
        }
        NcPlaneOptionsBuilder { x, flags: self.flags & !NCPLANE_OPTION_HORALIGNED, ..self }
    }

    /// Sets both placements and ends both alignments.
    pub fn yx(self, y: i32, x: i32) -> (b: NcPlaneOptionsBuilder)
        ensures
            b == (NcPlaneOptionsBuilder {
                y,
                x,
                flags: flags_with(
                    flags_with(self.flags, NCPLANE_OPTION_VERALIGNED, false),
                    NCPLANE_OPTION_HORALIGNED,
                    false,
                ),
                ..self
            }),
    {
        self.y(y).x(x)
    }

    /// Aligns the plane vertically.
    pub fn valign(self, align: NcAlign) -> (b: NcPlaneOptionsBuilder)
        ensures
            b == (NcPlaneOptionsBuilder {
                y: align_code(align),
                flags: flags_with(self.flags, NCPLANE_OPTION_VERALIGNED, true),
                ..self
            }),
            (b.flags & NCPLANE_OPTION_VERALIGNED != 0) == true,
    {
        proof {
            lemma_flags_with(self.flags, NCPLANE_OPTION_VERALIGNED, 0);
        }
        NcPlaneOptionsBuilder {
            y: align.into(),
            flags: self.flags | NCPLANE_OPTION_VERALIGNED,
            ..self
        }
    }

    /// Aligns the plane horizontally.
    pub fn halign(self, align: NcAlign) -> (b: NcPlaneOptionsBuilder)
        ensures
            b == (NcPlaneOptionsBuilder {
                x: align_code(align),
                flags: flags_with(self.flags, NCPLANE_OPTION_HORALIGNED, true),
                ..self
            }),
            (b.flags & NCPLANE_OPTION_HORALIGNED != 0) == true,
    {
        proof {
            lemma_flags_with(self.flags, NCPLANE_OPTION_HORALIGNED, 0);
        }
        NcPlaneOptionsBuilder {
            x: align.into(),
            flags: self.flags | NCPLANE_OPTION_HORALIGNED,
            ..self
        }
    }

    /// Sets the height and ends fixed margins.
    pub fn rows(self, rows: u32) -> (b: NcPlaneOptionsBuilder)
        ensures
            b == (NcPlaneOptionsBuilder {
                rows,
                flags: flags_with(self.flags, NCPLANE_OPTION_MARGINALIZED, false),
                ..self
            }),
            (b.flags & NCPLANE_OPTION_MARGINALIZED != 0) == false,
    {
        proof {
            lemma_flags_with(self.flags, NCPLANE_OPTION_MARGINALIZED, 0);
        }
        NcPlaneOptionsBuilder { rows, flags: self.flags & !NCPLANE_OPTION_MARGINALIZED, ..self }
    }

    /// Sets the width and ends fixed margins.
    pub fn cols(self, cols: u32) -> (b: NcPlaneOptionsBuilder)
        ensures
            b == (NcPlaneOptionsBuilder {
                cols,
                flags: flags_with(self.flags, NCPLANE_OPTION_MARGINALIZED, false),
                ..self
            }),
            (b.flags & NCPLANE_OPTION_MARGINALIZED != 0) == false,
    {
        proof {
            lemma_flags_with(self.flags, NCPLANE_OPTION_MARGINALIZED, 0);
        }
        NcPlaneOptionsBuilder { cols, flags: self.flags & !NCPLANE_OPTION_MARGINALIZED, ..self }
    }

    /// Sets height and width and ends fixed margins.
    pub fn rows_cols(self, rows: u32, cols: u32) -> (b: NcPlaneOptionsBuilder)
        ensures
            b == (NcPlaneOptionsBuilder {
                rows,
                cols,
                flags: flags_with(
                    flags_with(self.flags, NCPLANE_OPTION_MARGINALIZED, false),
                    NCPLANE_OPTION_MARGINALIZED,
                    false,
                ),
                ..self
            }),
    {
        self.rows(rows).cols(cols)
    }

    /// Sets or removes the resize callback.
    pub fn resizecb(self, resizecb: Option<NcResizeCb>) -> (b: NcPlaneOptionsBuilder)
        ensures
            b == (NcPlaneOptionsBuilder { resizecb, ..self }),
    {
        NcPlaneOptionsBuilder { resizecb, ..self }
    }

    /// Gives the plane fixed margins at the bottom and at the right.
    pub fn marginalized(self, bottom: u32, right: u32) -> (b: NcPlaneOptionsBuilder)
        ensures
            b == (NcPlaneOptionsBuilder {
                margin_b: bottom,
                margin_r: right,
                flags: flags_with(self.flags, NCPLANE_OPTION_MARGINALIZED, true),
                ..self
            }),
            (b.flags & NCPLANE_OPTION_MARGINALIZED != 0) == true,
    {
        proof {
            lemma_flags_with(self.flags, NCPLANE_OPTION_MARGINALIZED, 0);
        }
        NcPlaneOptionsBuilder {
            margin_b: bottom,
            margin_r: right,
            flags: self.flags | NCPLANE_OPTION_MARGINALIZED,
            ..self
        }
    }

    /// Says whether the plane stays put when its parent scrolls.
    pub fn fixed(self, fixed: bool) -> (b: NcPlaneOptionsBuilder)
        ensures
            b == (NcPlaneOptionsBuilder {
                flags: flags_with(self.flags, NCPLANE_OPTION_FIXED, fixed),
                ..self
            }),
            (b.flags & NCPLANE_OPTION_FIXED != 0) == fixed,
    {
        proof {
            lemma_flags_with(self.flags, NCPLANE_OPTION_FIXED, 0);
        }
        if fixed {
            NcPlaneOptionsBuilder { flags: self.flags | NCPLANE_OPTION_FIXED, ..self }
        } else {
            NcPlaneOptionsBuilder { flags: self.flags & !NCPLANE_OPTION_FIXED, ..self }
        }
    }

    /// Says whether the plane scrolls vertically.
    pub fn vscroll(self, vscroll: bool) -> (b: NcPlaneOptionsBuilder)
        ensures
            b == (NcPlaneOptionsBuilder {
                flags: flags_with(self.flags, NCPLANE_OPTION_VSCROLL, vscroll),
                ..self
            }),
            (b.flags & NCPLANE_OPTION_VSCROLL != 0) == vscroll,
    {
        proof {
            lemma_flags_with(self.flags, NCPLANE_OPTION_VSCROLL, 0);
        }
        if vscroll {
            NcPlaneOptionsBuilder { flags: self.flags | NCPLANE_OPTION_VSCROLL, ..self }
        } else {
            NcPlaneOptionsBuilder { flags: self.flags & !NCPLANE_OPTION_VSCROLL, ..self }
        }
    }

    /// Says whether the plane grows to take its output.
    pub fn autogrow(self, autogrow: bool) -> (b: NcPlaneOptionsBuilder)
        ensures
            b == (NcPlaneOptionsBuilder {
                flags: flags_with(self.flags, NCPLANE_OPTION_AUTOGROW, autogrow),
                ..self
            }),
            (b.flags & NCPLANE_OPTION_AUTOGROW != 0) == autogrow,
    {
        proof {
            lemma_flags_with(self.flags, NCPLANE_OPTION_AUTOGROW, 0);
        }
        if autogrow {
            NcPlaneOptionsBuilder { flags: self.flags | NCPLANE_OPTION_AUTOGROW, ..self }
        } else {
            NcPlaneOptionsBuilder { flags: self.flags & !NCPLANE_OPTION_AUTOGROW, ..self }
        }
    }
}

impl Default for NcPlaneOptionsBuilder {
    fn default() -> (b: NcPlaneOptionsBuilder)
        ensures
            b == NcPlaneOptionsBuilder::spec_default(),
    {
        NcPlaneOptionsBuilder::new()
    }
}

/// Setting a flag and then asking for it says yes; clearing it says no;
/// no other flag is touched.
pub proof fn lemma_flags_with(flags: u64, flag: u64, other: u64)
    by (bit_vector)
    ensures
        flags_with(flags, flag, true) & flag == flag,
        flags_with(flags, flag, false) & flag == 0,
        flag & other == 0 ==> flags_with(flags, flag, true) & other == flags & other,
        flag & other == 0 ==> flags_with(flags, flag, false) & other == flags & other,
{
}

} // verus!
