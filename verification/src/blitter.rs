//! The numbers that go into and come out of a blit.
//!
//! Blitting pixels onto a plane is the work of a rasterizing backend. What
//! is settled here is how a line size is handed to it and how the number
//! it answers with is read.

use vstd::prelude::*;
use crate::error::{NcError, NcResult};

verus! {

/// The answer of a blit, as plain values: the number of pixels that were
/// blitted, or a failure where the number is negative.
pub open spec fn blit_result(res: i32) -> NcResult<usize> {
    if res >= 0 {
        Ok(res as usize)
    } else {
        Err(NcError::InvalidOperation)
    }
}

/// Reads the number that a blit answered with.
pub fn blit_outcome(res: i32) -> (r: NcResult<usize>)
    ensures
        r == blit_result(res),
{
    if res >= 0 {
        Ok(res as usize)
    } else {
        Err(NcError::InvalidOperation)
    }
}

/// Whether a line size can be handed to a blit: it is at most `i32::MAX`.
pub open spec fn line_size_ok(line_size: usize) -> bool {
    line_size <= i32::MAX
}

/// The line size as a blit takes it. A line size that is too large is
/// refused with `InvalidOperation`.
pub fn line_size_arg(line_size: usize) -> (r: NcResult<i32>)
    ensures
        r is Ok <==> line_size_ok(line_size),
        r matches Ok(n) ==> n == line_size,
        r matches Err(e) ==> e == NcError::InvalidOperation,
{
    if line_size <= i32::MAX as usize {
        Ok(line_size as i32)
    } else {
        Err(NcError::InvalidOperation)
    }
}

/// Whether `rows` lines of `line_size` bytes, of pixels that take
/// `pixel_bytes` bytes each, lie inside `len` bytes of data.
pub open spec fn lines_fit(len: usize, line_size: usize, rows: usize, pixel_bytes: usize) -> bool {
    pixel_bytes > 0 && line_size % pixel_bytes == 0 && line_size * rows <= len
}

/// Checks that the data of a blit holds the lines that are asked for.
pub fn check_lines(len: usize, line_size: usize, rows: usize, pixel_bytes: usize) -> (ok: bool)
    ensures
        ok == lines_fit(len, line_size, rows, pixel_bytes),
{
    if pixel_bytes == 0 || line_size % pixel_bytes != 0 {
        return false;
    }
    if rows == 0 || line_size == 0 {
        assert(line_size * rows == 0) by (nonlinear_arith)
            requires
                rows == 0 || line_size == 0,
        ;
        return true;
    }
    let most: usize = len / line_size;
    proof {
        assert(line_size * rows <= len <==> rows <= len / line_size) by (nonlinear_arith)
            requires
                line_size > 0,
                rows >= 0,
                len >= 0,
        ;
    }
    rows <= most
}

} // verus!
