//! Building strings and taking them apart.

use itertools::Itertools;
use vstd::prelude::*;

verus! {

/// `String::push` appends the character to the end of the string.
pub assume_specification[ String::push ](s: &mut String, c: char)
    ensures
        final(s)@ == old(s)@.push(c),
;

/// The character `c`, `n` times.
pub open spec fn repeated(c: char, n: nat) -> Seq<char> {
    Seq::new(n, |i: int| c)
}

/// The string of `n` times the character `c`.
pub fn repeat_char(c: char, n: usize) -> (s: String)
    ensures
        s@ == repeated(c, n as nat),
{
    let mut s: String = String::new();
    for i in 0..n
        invariant
            s@ == repeated(c, i as nat),
    {
        s.push(c);
        assert(s@ =~= repeated(c, (i + 1) as nat));
    }
    s
}

/// A decimal digit.
pub open spec fn digit(d: nat) -> char {
    ('0' as u32 + d) as char
}

/// A number in decimal notation.
pub open spec fn decimal(n: nat) -> Seq<char>
    decreases n,
{
    if n < 10 {
        seq![digit(n)]
    } else {
        decimal(n / 10).push(digit(n % 10))
    }
}

/// Appends `n` in decimal notation.
pub fn push_decimal(out: &mut String, n: usize)
    ensures
        final(out)@ == old(out)@ + decimal(n as nat),
    decreases n,
{
    if n >= 10 {
        push_decimal(out, n / 10);
    }
    out.push((48u8 + (n % 10) as u8) as char);
    assert(out@ =~= old(out)@ + decimal(n as nat));
}

/// What is left of `line` behind `prefix`.
pub fn strip_prefix(line: &str, prefix: &str) -> (rest: String)
    requires
        prefix@.is_prefix_of(line@),
    ensures
        rest@ == line@.skip(prefix@.len() as int),
{
    line.substring_char(prefix.unicode_len(), line.unicode_len()).to_owned()
}

/// What several strings hold.
pub open spec fn texts(parts: Seq<String>) -> Seq<Seq<char>> {
    parts.map_values(|p: String| p@)
}

/// The parts one behind the other, with `separator` between them.
pub open spec fn joined(parts: Seq<Seq<char>>, separator: Seq<char>) -> Seq<char>
    decreases parts.len(),
{
    if parts.len() == 0 {
        Seq::empty()
    } else {
        joined(parts.drop_last(), separator) + (if parts.len() > 1 {
            separator
        } else {
            Seq::empty()
        }) + parts.last()
    }
}

/// Calls `itertools::Itertools::format` and displays what it returns.
///
/// Taken on trust: all elements are displayed in order, with the separator inserted between each
/// two of them.
#[verifier::external_body]
pub(crate) fn join(parts: &Vec<String>, separator: &str) -> (s: String)
    ensures
        s@ == joined(texts(parts@), separator@),
{
    parts.iter().format(separator).to_string()
}

/// The characters that Unicode calls white space.
pub open spec fn is_white(c: char) -> bool {
    let u = c as u32;
    ||| 0x09 <= u <= 0x0d
    ||| u == 0x20
    ||| u == 0x85
    ||| u == 0xa0
    ||| u == 0x1680
    ||| 0x2000 <= u <= 0x200a
    ||| u == 0x2028
    ||| u == 0x2029
    ||| u == 0x202f
    ||| u == 0x205f
    ||| u == 0x3000
}

/// Whether a line holds nothing but white space.
pub open spec fn is_blank(line: Seq<char>) -> bool {
    forall|i: int| 0 <= i < line.len() ==> is_white(#[trigger] line[i])
}

/// A text without the white space at its end.
pub open spec fn trimmed_end(s: Seq<char>) -> Seq<char>
    decreases s.len(),
{
    if s.len() > 0 && is_white(s.last()) {
        trimmed_end(s.drop_last())
    } else {
        s
    }
}

/// The length of the first line of a text.
pub open spec fn first_line_len(s: Seq<char>) -> nat
    decreases s.len(),
{
    if s.len() == 0 || s[0] == '\n' {
        0
    } else {
        1 + first_line_len(s.drop_first())
    }
}

/// A text with `prefix` put in front of each of its lines. A blank line gets the prefix without
/// the white space at its end.
pub open spec fn indented(s: Seq<char>, prefix: Seq<char>) -> Seq<char>
    decreases s.len(),
{
    let n = first_line_len(s) as int;
    if s.len() == 0 {
        Seq::empty()
    } else {
        let line = s.take(n);
        (if is_blank(line) {
            trimmed_end(prefix)
        } else {
            prefix
        }) + line + (if n < s.len() {
            seq!['\n'] + indented(s.skip(n + 1), prefix)
        } else {
            Seq::empty()
        })
    }
}

/// Calls `textwrap::indent`.
///
/// Taken on trust: the prefix goes in front of each line, and trailing white space is stripped
/// from it where the line is blank.
#[verifier::external_body]
pub(crate) fn indent(s: &str, prefix: &str) -> (r: String)
    ensures
        r@ == indented(s@, prefix@),
{
    textwrap::indent(s, prefix)
}

/// Whether there are lines, and each starts with `indent`.
pub open spec fn start_with(lines: Seq<Seq<char>>, indent: Seq<char>) -> bool {
    &&& lines.len() > 0
    &&& forall|i: int| 0 <= i < lines.len() ==> indent.is_prefix_of(#[trigger] lines[i])
}

/// The lines that `textwrap::wrap` breaks a text into, for lines of `width` columns of which each
/// starts with `indent`.
pub uninterp spec fn wrapped_lines(text: Seq<char>, width: usize, indent: Seq<char>) -> Seq<
    Seq<char>,
>;

/// Calls `textwrap::wrap` with the default options, the given width, and `indent` for the first
/// and the subsequent lines.
///
/// Taken on trust: the lines are a function of the three arguments, there is at least one, and
/// each starts with the indentation. Where the text is broken is not stated.
#[verifier::external_body]
pub(crate) fn wrap_lines(text: &str, width: usize, indent: &str) -> (lines: Vec<String>)
    ensures
        texts(lines@) == wrapped_lines(text@, width, indent@),
        start_with(texts(lines@), indent@),
{
    let options = textwrap::Options::new(width).initial_indent(indent).subsequent_indent(indent);
    textwrap::wrap(text, options).into_iter().map(|line| line.into_owned()).collect()
}

} // verus!
