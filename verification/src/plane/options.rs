//! The options that a plane is created with.

use vstd::prelude::*;
use vstd::std_specs::ops::{BitAndSpecImpl, BitOrSpecImpl};
use crate::align::{align_code, align_of_code, aligned_offset, NcAlign};
use crate::plane::builder::NcPlaneOptionsBuilder;
use crate::resizecb::NcResizeCb;

verus! {

/// The plane is aligned horizontally in its parent; `x` holds the
/// alignment.
pub const NCPLANE_OPTION_HORALIGNED: u64 = 0x0001;

/// The plane is aligned vertically in its parent; `y` holds the alignment.
pub const NCPLANE_OPTION_VERALIGNED: u64 = 0x0002;

/// The plane keeps fixed margins to its parent.
pub const NCPLANE_OPTION_MARGINALIZED: u64 = 0x0004;

/// The plane does not scroll along with its parent.
pub const NCPLANE_OPTION_FIXED: u64 = 0x0008;

/// The plane grows to take the output written to it.
pub const NCPLANE_OPTION_AUTOGROW: u64 = 0x0010;

/// The plane scrolls vertically to take the output written to it.
pub const NCPLANE_OPTION_VSCROLL: u64 = 0x0020;

/// A set of plane options, one bit each.
#[derive(Clone, Copy, Debug, PartialEq, Eq, Structural)]
pub struct NcPlaneFlags(pub u64);

impl NcPlaneFlags {
    /// No flag.
    pub fn none() -> (f: NcPlaneFlags)
        ensures
            f.0 == 0,
    {
        NcPlaneFlags(0)
    }

    /// Horizontal alignment.
    pub fn hor_aligned() -> (f: NcPlaneFlags)
        ensures
            f.0 == NCPLANE_OPTION_HORALIGNED,
    {
        NcPlaneFlags(NCPLANE_OPTION_HORALIGNED)
    }

    /// Vertical alignment.
    pub fn ver_aligned() -> (f: NcPlaneFlags)
        ensures
            f.0 == NCPLANE_OPTION_VERALIGNED,
    {
        NcPlaneFlags(NCPLANE_OPTION_VERALIGNED)
    }

    /// Fixed margins.
    pub fn marginalized() -> (f: NcPlaneFlags)
        ensures
            f.0 == NCPLANE_OPTION_MARGINALIZED,
    {
        NcPlaneFlags(NCPLANE_OPTION_MARGINALIZED)
    }

    /// No scrolling with the parent.
    pub fn fixed() -> (f: NcPlaneFlags)
        ensures
            f.0 == NCPLANE_OPTION_FIXED,
    {
        NcPlaneFlags(NCPLANE_OPTION_FIXED)
    }

    /// Automatic growth.
    pub fn auto_grow() -> (f: NcPlaneFlags)
        ensures
            f.0 == NCPLANE_OPTION_AUTOGROW,
    {
        NcPlaneFlags(NCPLANE_OPTION_AUTOGROW)
    }

    /// Vertical scrolling.
    pub fn vscroll() -> (f: NcPlaneFlags)
        ensures
            f.0 == NCPLANE_OPTION_VSCROLL,
    {
        NcPlaneFlags(NCPLANE_OPTION_VSCROLL)
    }

    /// The bits of the set.
    pub fn bits(&self) -> (b: u64)
        ensures
            b == self.0,
    {
        self.0
    }

    /// Whether every flag of `other` is in the set.
    pub fn contains(&self, other: NcPlaneFlags) -> (b: bool)
        ensures
            b == (self.0 & other.0 == other.0),
    {
        self.0 & other.0 == other.0
    }
}

impl Default for NcPlaneFlags {
    fn default() -> (f: NcPlaneFlags)
        ensures
            f.0 == 0,
    {
        NcPlaneFlags(0)
    }
}

impl core::ops::BitOr for NcPlaneFlags {
    type Output = NcPlaneFlags;

    fn bitor(self, rhs: NcPlaneFlags) -> (out: NcPlaneFlags) {
        NcPlaneFlags(self.0 | rhs.0)
    }
}

impl BitOrSpecImpl for NcPlaneFlags {
    open spec fn obeys_bitor_spec() -> bool {
        true
    }

    open spec fn bitor_req(self, rhs: NcPlaneFlags) -> bool {
        true
    }

    open spec fn bitor_spec(self, rhs: NcPlaneFlags) -> NcPlaneFlags {
        NcPlaneFlags(self.0 | rhs.0)
    }
}

impl core::ops::BitAnd for NcPlaneFlags {
    type Output = NcPlaneFlags;

    fn bitand(self, rhs: NcPlaneFlags) -> (out: NcPlaneFlags) {
        NcPlaneFlags(self.0 & rhs.0)
    }
}

impl BitAndSpecImpl for NcPlaneFlags {
    open spec fn obeys_bitand_spec() -> bool {
        true
    }

    open spec fn bitand_req(self, rhs: NcPlaneFlags) -> bool {
        true
    }

    open spec fn bitand_spec(self, rhs: NcPlaneFlags) -> NcPlaneFlags {
        NcPlaneFlags(self.0 & rhs.0)
    }
}

/// The coordinate nearest to `v` that a plane can have.
pub open spec fn clamp_i32(v: int) -> i32 {
    if v < i32::MIN {
        i32::MIN
    } else if v > i32::MAX {
        i32::MAX
    } else {
        v as i32
    }
}

/// How far from the start of a space `avail` long something `size` long
/// stands: under an alignment, where `coord` names one, the offset that the
/// alignment gives, and zero where `coord` names none; else `coord` itself.
pub open spec fn offset_along(aligned: bool, coord: i32, avail: u32, size: u32) -> int {
    if aligned {
        match align_of_code(coord) {
            Some(a) => match aligned_offset(a, avail as int, size as int) {
                Some(o) => o,
                None => 0,
            },
            None => 0,
        }
    } else {
        coord as int
    }
}

/// Computes `offset_along`.
pub fn compute_offset(aligned: bool, coord: i32, avail: u32, size: u32) -> (off: i64)
    ensures
        off == offset_along(aligned, coord, avail, size),
{
    if aligned {
        match NcAlign::from_code(coord) {
            Some(a) => match a.offset(avail, size) {
                Some(o) => o,
                None => 0,
            },
            None => 0,
        }
    } else {
        coord as i64
    }
}

/// The coordinate at `offset` from `base`, kept inside what a coordinate
/// can be.
pub fn place(base: i32, offset: i64) -> (at: i32)
    requires
        -0x1_0000_0000 <= offset <= 0x1_0000_0000,
    ensures
        at == clamp_i32(base + offset),
{
    let sum: i64 = base as i64 + offset;
    if sum < i32::MIN as i64 {
        i32::MIN
    } else if sum > i32::MAX as i64 {
        i32::MAX
    } else {
        sum as i32
    }
}

/// What a plane is created with: where it stands relative to its parent,
/// its size, and how it behaves.
#[derive(Clone, Debug)]
pub struct NcPlaneOptions {
    /// Vertical placement relative to the parent, or a vertical alignment.
    pub y: i32,
    /// Horizontal placement relative to the parent, or a horizontal
    /// alignment.
    pub x: i32,
    /// Height in rows.
    pub rows: u32,
    /// Width in columns.
    pub cols: u32,
    /// A value of the caller's that the plane carries along.
    pub userptr: Option<u64>,
    /// A name, for debugging.
    pub name: Option<String>,
    /// The callback to run when the parent changes size.
    pub resizecb: Option<NcResizeCb>,
    /// The option bits.
    pub flags: u64,
    /// The bottom margin of a plane with fixed margins.
    pub margin_b: u32,
    /// The right margin of a plane with fixed margins.
    pub margin_r: u32,
}

impl NcPlaneOptions {
    /// Options with a placement and a size, and nothing else.
    pub fn new(y: i32, x: i32, rows: u32, cols: u32) -> (o: NcPlaneOptions)
        ensures
            o == (NcPlaneOptions {
                y,
                x,
                rows,
                cols,
                userptr: None,
                name: None,
                resizecb: None,
                flags: 0,
                margin_b: 0,
                margin_r: 0,
            }),
    {
        Self::with_flags(y, x, rows, cols, None, NcPlaneFlags::none(), 0, 0)
    }

    /// A builder that starts from nothing.
    pub fn builder() -> (b: NcPlaneOptionsBuilder)
        ensures
            b == NcPlaneOptionsBuilder::spec_default(),
    {
        NcPlaneOptionsBuilder::new()
    }

    /// A builder that starts from these options.
    pub fn to_builder(&self) -> (b: NcPlaneOptionsBuilder)
        ensures
            b == NcPlaneOptionsBuilder::spec_from_options(*self),
    {
        NcPlaneOptionsBuilder::from_options(self)
    }

    /// Options for a plane that is aligned horizontally.
    pub fn new_aligned(y: i32, align: NcAlign, rows: u32, cols: u32) -> (o: NcPlaneOptions)
        ensures
            o == (NcPlaneOptions {
                y,
                x: align_code(align),
                rows,
                cols,
                userptr: None,
                name: None,
                resizecb: None,
                flags: NCPLANE_OPTION_HORALIGNED,
                margin_b: 0,
                margin_r: 0,
            }),
    {
        assert(NCPLANE_OPTION_HORALIGNED | NCPLANE_OPTION_HORALIGNED == NCPLANE_OPTION_HORALIGNED)
            by (bit_vector);
        Self::with_flags_aligned(y, align, rows, cols, None, NcPlaneFlags::hor_aligned())
    }

    /// Options with a placement, a size, a callback, flags and margins.
    pub fn with_flags(
        y: i32,
        x: i32,
        rows: u32,
        cols: u32,
        resizecb: Option<NcResizeCb>,
        flags: NcPlaneFlags,
        margin_b: u32,
        margin_r: u32,
    ) -> (o: NcPlaneOptions)
        ensures
            o == (NcPlaneOptions {
                y,
                x,
                rows,
                cols,
                userptr: None,
                name: None,
                resizecb,
                flags: flags.0,
                margin_b,
                margin_r,
            }),
    {
        NcPlaneOptions {
            y,
            x,
            rows,
            cols,
            userptr: None,
            name: None,
            resizecb,
            flags: flags.0,
            margin_b,
            margin_r,
        }
    }

    /// Options for a plane that is aligned horizontally, with a callback
    /// and flags. The flag for horizontal alignment is added to `flags`.
    pub fn with_flags_aligned(
        y: i32,
        align: NcAlign,
        rows: u32,
        cols: u32,
        resizecb: Option<NcResizeCb>,
        flags: NcPlaneFlags,
    ) -> (o: NcPlaneOptions)
        ensures
            o == (NcPlaneOptions {
                y,
                x: align_code(align),
                rows,
                cols,
                userptr: None,
                name: None,
                resizecb,
                flags: NCPLANE_OPTION_HORALIGNED | flags.0,
                margin_b: 0,
                margin_r: 0,
            }),
            o.flags & NCPLANE_OPTION_HORALIGNED != 0,
    {
        let given: u64 = flags.0;
        let flags: NcPlaneFlags = NcPlaneFlags::hor_aligned() | flags;
        assert((NCPLANE_OPTION_HORALIGNED | given) & NCPLANE_OPTION_HORALIGNED != 0)
            by (bit_vector);
        NcPlaneOptions {
            y,
            x: align.into(),
            rows,
            cols,
            userptr: None,
            name: None,
            resizecb,
            flags: flags.0,
            margin_b: 0,
            margin_r: 0,
        }
    }

    /// The row at which a plane with these options stands, when the space
    /// it is placed in starts at row `base` and has `avail` rows.
    pub open spec fn row_in(self, base: i32, avail: u32) -> i32 {
        clamp_i32(
            base + offset_along(
                self.flags & NCPLANE_OPTION_VERALIGNED != 0,
                self.y,
                avail,
                self.rows,
            ),
        )
    }

    /// The column at which a plane with these options stands, when the
    /// space it is placed in starts at column `base` and has `avail`
    /// columns.
    pub open spec fn col_in(self, base: i32, avail: u32) -> i32 {
        clamp_i32(
            base + offset_along(
                self.flags & NCPLANE_OPTION_HORALIGNED != 0,
                self.x,
                avail,
                self.cols,
            ),
        )
    }

    /// Where a plane with these options stands in a space that starts at
    /// `base` (row, column) and has the size `avail` (rows, columns).
    pub fn position_in(&self, base: (i32, i32), avail: (u32, u32)) -> (at: (i32, i32))
        ensures
            at.0 == self.row_in(base.0, avail.0),
            at.1 == self.col_in(base.1, avail.1),
    {
        let dy: i64 = compute_offset(self.is_veraligned(), self.y, avail.0, self.rows);
        let dx: i64 = compute_offset(self.is_horaligned(), self.x, avail.1, self.cols);
        (place(base.0, dy), place(base.1, dx))
    }

    /// Whether the plane is aligned vertically.
    pub fn is_veraligned(&self) -> (b: bool)
        ensures
            b == (self.flags & NCPLANE_OPTION_VERALIGNED != 0),
    {
        self.flags & NCPLANE_OPTION_VERALIGNED != 0
    }

    /// Whether the plane is aligned horizontally.
    pub fn is_horaligned(&self) -> (b: bool)
        ensures
            b == (self.flags & NCPLANE_OPTION_HORALIGNED != 0),
    {
        self.flags & NCPLANE_OPTION_HORALIGNED != 0
    }

    /// Whether the plane keeps fixed margins.
    pub fn is_marginalized(&self) -> (b: bool)
        ensures
            b == (self.flags & NCPLANE_OPTION_MARGINALIZED != 0),
    {
        self.flags & NCPLANE_OPTION_MARGINALIZED != 0
    }

    /// Whether the plane stays put when its parent scrolls.
    pub fn is_fixed(&self) -> (b: bool)
        ensures
            b == (self.flags & NCPLANE_OPTION_FIXED != 0),
    {
        self.flags & NCPLANE_OPTION_FIXED != 0
    }

    /// Whether the plane grows to take its output.
    pub fn is_autogrow(&self) -> (b: bool)
        ensures
            b == (self.flags & NCPLANE_OPTION_AUTOGROW != 0),
    {
        self.flags & NCPLANE_OPTION_AUTOGROW != 0
    }

    /// Whether the plane scrolls vertically.
    pub fn is_vscroll(&self) -> (b: bool)
        ensures
            b == (self.flags & NCPLANE_OPTION_VSCROLL != 0),
    {
        self.flags & NCPLANE_OPTION_VSCROLL != 0
    }
}

} // verus!
