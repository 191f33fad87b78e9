//! Alignment of a plane inside the space that its parent offers.

use vstd::prelude::*;
use vstd::std_specs::convert::FromSpecImpl;

verus! {

/// Where a plane stands along one axis of its parent. Along the vertical
/// axis `Left` means the top and `Right` the bottom.
#[derive(Clone, Copy, Debug, PartialEq, Eq, Structural)]
pub enum NcAlign {
    /// No alignment.
    Unaligned,
    /// At the start of the axis: left, or top.
    Left,
    /// In the middle of the axis.
    Center,
    /// At the end of the axis: right, or bottom.
    Right,
}

/// The number that stands for an alignment in the coordinate of an aligned
/// plane.
pub open spec fn align_code(align: NcAlign) -> i32 {
    match align {
        NcAlign::Unaligned => 0,
        NcAlign::Left => 1,
        NcAlign::Center => 2,
        NcAlign::Right => 3,
    }
}

/// The alignment that a number stands for, if any.
pub open spec fn align_of_code(code: i32) -> Option<NcAlign> {
    if code == 0 {
        Some(NcAlign::Unaligned)
    } else if code == 1 {
        Some(NcAlign::Left)
    } else if code == 2 {
        Some(NcAlign::Center)
    } else if code == 3 {
        Some(NcAlign::Right)
    } else {
        None
    }
}

/// The offset at which something `size` long stands in a space `avail`
/// long under an alignment: `None` when it is unaligned. What does not fit
/// hangs over at both ends or at the start, so the offset can be negative.
pub open spec fn aligned_offset(align: NcAlign, avail: int, size: int) -> Option<int> {
    match align {
        NcAlign::Unaligned => None,
        NcAlign::Left => Some(0int),
        NcAlign::Center => Some(
            if avail >= size {
                (avail - size) / 2
            } else {
                -((size - avail) / 2)
            },
        ),
        NcAlign::Right => Some(avail - size),
    }
}

impl From<NcAlign> for i32 {
    fn from(align: NcAlign) -> (code: i32) {
        match align {
            NcAlign::Unaligned => 0,
            NcAlign::Left => 1,
            NcAlign::Center => 2,
            NcAlign::Right => 3,
        }
    }
}

impl FromSpecImpl<NcAlign> for i32 {
    open spec fn obeys_from_spec() -> bool {
        true
    }

    open spec fn from_spec(align: NcAlign) -> i32 {
        align_code(align)
    }
}

impl NcAlign {
    /// The alignment that a number stands for.
    pub fn from_code(code: i32) -> (align: Option<NcAlign>)
        ensures
            align == align_of_code(code),
    {
        if code == 0 {
            Some(NcAlign::Unaligned)
        } else if code == 1 {
            Some(NcAlign::Left)
        } else if code == 2 {
            Some(NcAlign::Center)
        } else if code == 3 {
            Some(NcAlign::Right)
        } else {
            None
        }
    }

    /// The offset at which something `size` long stands in a space `avail`
    /// long. Toward zero where the centre falls between two positions.
    pub fn offset(self, avail: u32, size: u32) -> (off: Option<i64>)
        ensures
            off matches Some(o) ==> aligned_offset(self, avail as int, size as int) == Some(
                o as int,
            ),
            off is None ==> aligned_offset(self, avail as int, size as int) is None,
    {
        match self {
            NcAlign::Unaligned => None,
            NcAlign::Left => Some(0),
            NcAlign::Center => {
                if avail >= size {
                    Some(((avail - size) / 2) as i64)
                } else {
                    Some(-(((size - avail) / 2) as i64))
                }
            },
            NcAlign::Right => Some(avail as i64 - size as i64),
        }
    }
}

} // verus!
