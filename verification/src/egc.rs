//! Extended grapheme clusters.
//!
//! A cell shows one cluster: a base scalar and the scalars that modify it.
//! The rule used here is a small part of Unicode's: a cluster is a scalar
//! that is neither a control character nor a combining mark, followed by
//! any run of combining marks, variation selectors and zero-width joiners,
//! where the scalar behind a joiner belongs to the cluster too.

use vstd::prelude::*;
use crate::error::{NcError, NcResult};

verus! {

/// Whether a number is a Unicode scalar value.
pub open spec fn is_scalar_value(v: u32) -> bool {
    v < 0xd800 || (0xe000 <= v && v <= 0x10_ffff)
}

/// The most scalars that one cluster may hold.
pub const NCCELL_EGC_MAX_SCALARS: usize = 32;

/// The zero-width joiner.
pub const ZERO_WIDTH_JOINER: u32 = 0x200d;

/// Control characters: C0, DEL and C1.
pub open spec fn is_control(c: char) -> bool {
    (c as u32) < 0x20 || (0x7f <= (c as u32) && (c as u32) < 0xa0)
}

/// Scalars that modify the one before them: combining marks, variation
/// selectors and the zero-width joiner.
pub open spec fn is_extender(c: char) -> bool {
    ||| 0x0300 <= (c as u32) <= 0x036f
    ||| 0x1ab0 <= (c as u32) <= 0x1aff
    ||| 0x1dc0 <= (c as u32) <= 0x1dff
    ||| 0x20d0 <= (c as u32) <= 0x20ff
    ||| 0xfe00 <= (c as u32) <= 0xfe0f
    ||| 0xfe20 <= (c as u32) <= 0xfe2f
    ||| (c as u32) == ZERO_WIDTH_JOINER
}

/// Scalars that can start a cluster.
pub open spec fn is_base(c: char) -> bool {
    !is_control(c) && !is_extender(c)
}

/// Whether `next` stays in the cluster when it follows `prev`.
pub open spec fn continues_cluster(prev: char, next: char) -> bool {
    is_extender(next) || ((prev as u32) == ZERO_WIDTH_JOINER && !is_control(next))
}

/// How many scalars from position `from` on still belong to the cluster
/// that holds position `from - 1`.
pub open spec fn continuation_run(s: Seq<char>, from: int) -> nat
    decreases s.len() - from,
{
    if 1 <= from < s.len() && continues_cluster(s[from - 1], s[from]) {
        1 + continuation_run(s, from + 1)
    } else {
        0
    }
}

/// The number of scalars in the first cluster of `s`: zero for empty text.
pub open spec fn first_cluster_len(s: Seq<char>) -> nat {
    if s.len() == 0 {
        0
    } else {
        1 + continuation_run(s, 1)
    }
}

/// Whether the first cluster of `s` can be held by a cell: the text is
/// empty, or starts with a base scalar and the cluster is not too long.
pub open spec fn first_cluster_ok(s: Seq<char>) -> bool {
    s.len() == 0 || (is_base(s[0]) && first_cluster_len(s) <= NCCELL_EGC_MAX_SCALARS)
}

/// The first cluster of `s`.
pub open spec fn first_cluster(s: Seq<char>) -> Seq<char> {
    s.take(first_cluster_len(s) as int)
}

/// What is left of `s` behind its first cluster.
pub open spec fn after_first_cluster(s: Seq<char>) -> Seq<char> {
    s.skip(first_cluster_len(s) as int)
}

/// The number of bytes that UTF-8 takes for one scalar.
pub open spec fn scalar_utf8_len(c: char) -> nat {
    if (c as u32) < 0x80 {
        1
    } else if (c as u32) < 0x800 {
        2
    } else if (c as u32) < 0x1_0000 {
        3
    } else {
        4
    }
}

/// The number of bytes that UTF-8 takes for a text.
pub open spec fn utf8_len(s: Seq<char>) -> nat
    decreases s.len(),
{
    if s.len() == 0 {
        0
    } else {
        utf8_len(s.drop_last()) + scalar_utf8_len(s.last())
    }
}

/// The number of columns that a scalar takes on screen: two for the wide
/// East Asian and emoji ranges, one for everything else.
pub open spec fn scalar_columns(c: char) -> u8 {
    if {
        ||| 0x1100 <= (c as u32) <= 0x115f
        ||| 0x2e80 <= (c as u32) <= 0x303e
        ||| 0x3041 <= (c as u32) <= 0xa4cf
        ||| 0xac00 <= (c as u32) <= 0xd7a3
        ||| 0xf900 <= (c as u32) <= 0xfaff
        ||| 0xfe30 <= (c as u32) <= 0xfe6f
        ||| 0xff00 <= (c as u32) <= 0xff60
        ||| 0xffe0 <= (c as u32) <= 0xffe6
        ||| 0x1_f300 <= (c as u32) <= 0x1_f64f
        ||| 0x1_f900 <= (c as u32) <= 0x1_f9ff
        ||| 0x2_0000 <= (c as u32) <= 0x3_fffd
    } {
        2
    } else {
        1
    }
}

/// A run of continuing scalars ends within the text.
pub proof fn lemma_continuation_run_bound(s: Seq<char>, from: int)
    requires
        1 <= from,
    ensures
        from + continuation_run(s, from) <= s.len() || continuation_run(s, from) == 0,
    decreases s.len() - from,
{
    if 1 <= from < s.len() && continues_cluster(s[from - 1], s[from]) {
        lemma_continuation_run_bound(s, from + 1);
    }
}

/// The first cluster is a prefix of the text, and is empty only if the
/// text is.
pub proof fn lemma_first_cluster_len(s: Seq<char>)
    ensures
        first_cluster_len(s) <= s.len(),
        s.len() > 0 ==> first_cluster_len(s) >= 1,
        first_cluster(s).len() == first_cluster_len(s),
        first_cluster_len(s) >= 1 ==> first_cluster(s)[0] == s[0],
        after_first_cluster(s).len() == s.len() - first_cluster_len(s),
{
    lemma_continuation_run_bound(s, 1);
}

/// A text of at most `n` scalars takes at most `4 * n` bytes.
pub proof fn lemma_utf8_len_bound(s: Seq<char>)
    ensures
        s.len() <= utf8_len(s) <= 4 * s.len(),
    decreases s.len(),
{
    if s.len() > 0 {
        lemma_utf8_len_bound(s.drop_last());
    }
}

/// The character with a given scalar value, by `char::from_u32`. Claimed
/// of it: it gives the character whose value is `v` when `v` is a scalar
/// value, and nothing for a surrogate or a number above U+10FFFF.
#[verifier::external_body]
pub(crate) fn scalar_from_u32(v: u32) -> (c: Option<char>)
    ensures
        c == if is_scalar_value(v) {
            Some(v as char)
        } else {
            None::<char>
        },
{
    char::from_u32(v)
}

/// Appends one character to a string, by `String::push`. Claimed of it:
/// the string afterwards is the string before with `c` behind it.
#[verifier::external_body]
pub(crate) fn string_push(s: &mut String, c: char)
    ensures
        final(s)@ == old(s)@.push(c),
{
    s.push(c)
}

/// Whether a scalar is a control character.
pub fn scalar_is_control(c: char) -> (b: bool)
    ensures
        b == is_control(c),
{
    let v: u32 = c as u32;
    v < 0x20 || (0x7f <= v && v < 0xa0)
}

/// Whether a scalar modifies the one before it.
pub fn scalar_is_extender(c: char) -> (b: bool)
    ensures
        b == is_extender(c),
{
    let v: u32 = c as u32;
    (0x0300 <= v && v <= 0x036f) || (0x1ab0 <= v && v <= 0x1aff) || (0x1dc0 <= v && v <= 0x1dff)
        || (0x20d0 <= v && v <= 0x20ff) || (0xfe00 <= v && v <= 0xfe0f) || (0xfe20 <= v && v
        <= 0xfe2f) || v == ZERO_WIDTH_JOINER
}

/// The number of columns of a scalar.
pub fn scalar_width(c: char) -> (w: u8)
    ensures
        w == scalar_columns(c),
{
    let v: u32 = c as u32;
    if (0x1100 <= v && v <= 0x115f) || (0x2e80 <= v && v <= 0x303e) || (0x3041 <= v && v
        <= 0xa4cf) || (0xac00 <= v && v <= 0xd7a3) || (0xf900 <= v && v <= 0xfaff) || (0xfe30
        <= v && v <= 0xfe6f) || (0xff00 <= v && v <= 0xff60) || (0xffe0 <= v && v <= 0xffe6)
        || (0x1_f300 <= v && v <= 0x1_f64f) || (0x1_f900 <= v && v <= 0x1_f9ff) || (0x2_0000
        <= v && v <= 0x3_fffd) {
        2
    } else {
        1
    }
}

/// The number of UTF-8 bytes of a scalar.
pub fn scalar_bytes(c: char) -> (n: usize)
    ensures
        n == scalar_utf8_len(c),
{
    let v: u32 = c as u32;
    if v < 0x80 {
        1
    } else if v < 0x800 {
        2
    } else if v < 0x1_0000 {
        3
    } else {
        4
    }
}

/// Measures the first cluster of a text.
///
/// Gives the number of scalars in it, or `CellEncodingError` when the text
/// starts with a scalar that cannot start a cluster, or when the cluster
/// holds more than `NCCELL_EGC_MAX_SCALARS` scalars.
pub fn measure_first_cluster(s: &str) -> (r: NcResult<usize>)
    ensures
        r is Ok <==> first_cluster_ok(s@),
        r matches Ok(n) ==> n == first_cluster_len(s@),
        r matches Err(e) ==> e == NcError::CellEncodingError,
{
    let len: usize = s.unicode_len();
    if len == 0 {
        return Ok(0);
    }
    let first: char = s.get_char(0);
    if scalar_is_control(first) || scalar_is_extender(first) {
        return Err(NcError::CellEncodingError);
    }
    let mut i: usize = 1;
    let mut prev: char = first;
    while i < len
        invariant
            1 <= i <= len,
            i <= NCCELL_EGC_MAX_SCALARS,
            len == s@.len(),
            is_base(s@[0]),
            prev == s@[i - 1],
            continuation_run(s@, 1) == (i - 1) + continuation_run(s@, i as int),
        decreases len - i,
    {
        let next: char = s.get_char(i);
        let stays: bool = scalar_is_extender(next) || (prev as u32 == ZERO_WIDTH_JOINER
            && !scalar_is_control(next));
        assert(stays == continues_cluster(s@[i - 1], s@[i as int]));
        assert(continuation_run(s@, i as int) == if stays {
            1 + continuation_run(s@, i + 1)
        } else {
            0
        });
        if !stays {
            return Ok(i);
        }
        if i == NCCELL_EGC_MAX_SCALARS {
            return Err(NcError::CellEncodingError);
        }
        prev = next;
        i = i + 1;
    }
    Ok(i)
}

/// The number of UTF-8 bytes of the first `n` scalars of a text.
pub fn utf8_bytes(s: &str, n: usize) -> (bytes: usize)
    requires
        n <= s@.len(),
        n <= NCCELL_EGC_MAX_SCALARS,
    ensures
        bytes == utf8_len(s@.take(n as int)),
        bytes <= 4 * n,
{
    let mut total: usize = 0;
    let mut i: usize = 0;
    while i < n
        invariant
            i <= n <= s@.len(),
            n <= NCCELL_EGC_MAX_SCALARS,
            total == utf8_len(s@.take(i as int)),
            total <= 4 * i,
        decreases n - i,
    {
        let c: char = s.get_char(i);
        proof {
            assert(s@.take(i + 1).drop_last() =~= s@.take(i as int));
            assert(s@.take(i + 1).last() == c);
        }
        total = total + scalar_bytes(c);
        i = i + 1;
    }
    total
}

} // verus!
