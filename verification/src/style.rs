//! Text styles.

use vstd::prelude::*;

verus! {

/// A set of text styles, one bit each.
pub type NcStyle = u16;

/// No style.
pub const NCSTYLE_NONE: u16 = 0x0000;

/// Struck through.
pub const NCSTYLE_STRUCK: u16 = 0x0001;

/// Bold.
pub const NCSTYLE_BOLD: u16 = 0x0002;

/// Underlined with a curly line.
pub const NCSTYLE_UNDERCURL: u16 = 0x0004;

/// Underlined.
pub const NCSTYLE_UNDERLINE: u16 = 0x0008;

/// Italic.
pub const NCSTYLE_ITALIC: u16 = 0x0010;

/// Every style bit.
pub const NCSTYLE_MASK: u16 = 0xffff;

} // verus!
