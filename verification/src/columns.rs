//! How many terminal columns and how many bytes a text takes.

use unicode_width::{UnicodeWidthChar, UnicodeWidthStr};
use vstd::prelude::*;
use vstd::utf8::{encode_scalar, encode_utf8};

verus! {

/// The displayed width of a character, or `None` for a control character other than NUL: what
/// `unicode_width::UnicodeWidthChar::width` returns for it.
pub uninterp spec fn char_columns(c: char) -> Option<usize>;

/// The columns that a character adds to a line; a control character adds none.
pub open spec fn char_advance(c: char) -> nat {
    match char_columns(c) {
        Some(n) => n as nat,
        None => 0,
    }
}

/// The displayed width of a text: the sum over its characters.
pub open spec fn columns(s: Seq<char>) -> nat
    decreases s.len(),
{
    if s.len() == 0 {
        0
    } else {
        columns(s.drop_last()) + char_advance(s.last())
    }
}

/// The number of bytes of a text in UTF-8.
pub open spec fn byte_len(s: Seq<char>) -> nat {
    encode_utf8(s).len()
}

/// The number of bytes of a character in UTF-8.
pub open spec fn char_bytes(c: char) -> nat {
    encode_scalar(c as u32).len()
}

/// Calls `unicode_width::UnicodeWidthChar::width`.
///
/// Taken on trust: the result is a function of the character alone. It is at most 2, and 2 only
/// from U+1100 (the first of the double-width characters) on. Printable ASCII takes one column,
/// control characters have no width.
#[verifier::external_body]
pub(crate) fn char_width(c: char) -> (w: Option<usize>)
    ensures
        w == char_columns(c),
        w matches Some(n) ==> n <= 2,
        w == Some(2usize) ==> 0x1100 <= c as u32,
        0x20 <= c as u32 <= 0x7e ==> w == Some(1usize),
        0 < c as u32 <= 0x1f ==> w is None,
        0x7f <= c as u32 <= 0x9f ==> w is None,
{
    UnicodeWidthChar::width(c)
}

/// Calls `unicode_width::UnicodeWidthStr::width`.
///
/// Taken on trust: the width of a string is the sum of the widths of its characters, control
/// characters counting nothing, and no more than its length in bytes.
#[verifier::external_body]
pub(crate) fn str_width(s: &str) -> (w: usize)
    ensures
        w == columns(s@),
        w <= byte_len(s@),
        w <= 2 * s@.len(),
{
    UnicodeWidthStr::width(s)
}

/// The length of a string in bytes.
pub fn str_bytes(s: &str) -> (n: usize)
    ensures
        n == byte_len(s@),
{
    s.as_bytes().len()
}

/// The encoding of a text followed by one more character.
pub proof fn lemma_byte_len_push(s: Seq<char>, c: char)
    ensures
        byte_len(s.push(c)) == byte_len(s) + char_bytes(c),
        1 <= char_bytes(c) <= 4,
    decreases s.len(),
{
    if s.len() == 0 {
        assert(s.push(c).drop_first() =~= s);
        reveal_with_fuel(encode_utf8, 2);
    } else {
        assert(s.push(c).drop_first() =~= s.drop_first().push(c));
        lemma_byte_len_push(s.drop_first(), c);
    }
}

/// The length in bytes adds up over concatenation.
pub proof fn lemma_byte_len_concat(a: Seq<char>, b: Seq<char>)
    ensures
        byte_len(a + b) == byte_len(a) + byte_len(b),
    decreases b.len(),
{
    if b.len() == 0 {
        assert(a + b =~= a);
    } else {
        let b0 = b.drop_last();
        assert(a + b =~= (a + b0).push(b.last()));
        assert(b =~= b0.push(b.last()));
        lemma_byte_len_concat(a, b0);
        lemma_byte_len_push(a + b0, b.last());
        lemma_byte_len_push(b0, b.last());
    }
}

/// The displayed width adds up over concatenation.
pub proof fn lemma_columns_concat(a: Seq<char>, b: Seq<char>)
    ensures
        columns(a + b) == columns(a) + columns(b),
    decreases b.len(),
{
    if b.len() == 0 {
        assert(a + b =~= a);
    } else {
        assert((a + b).drop_last() =~= a + b.drop_last());
        lemma_columns_concat(a, b.drop_last());
    }
}

} // verus!
