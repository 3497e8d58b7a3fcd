//! What wrapping the text of an input box promises as a whole.

use vstd::prelude::*;

use crate::columns::{byte_len, char_advance, columns, lemma_byte_len_concat, lemma_byte_len_push};
use crate::input::{
    beyond_edge, column, input_caret, input_text, lemma_newlines_push, line_full,
    moved, newlines, wrappable, wrapped, Caret,
};

verus! {

/// The columns that a text takes on its last line.
pub open spec fn line_columns(s: Seq<char>) -> nat
    decreases s.len(),
{
    if s.len() == 0 || s.last() == '\n' {
        0
    } else {
        line_columns(s.drop_last()) + char_advance(s.last())
    }
}

/// A text without its line feeds.
pub open spec fn without_newlines(s: Seq<char>) -> Seq<char>
    decreases s.len(),
{
    if s.len() == 0 {
        s
    } else if s.last() == '\n' {
        without_newlines(s.drop_last())
    } else {
        without_newlines(s.drop_last()).push(s.last())
    }
}

/// The caret that stands before the character `p` of a text, or behind its last one.
pub open spec fn caret_at(s: Seq<char>, p: int) -> Caret {
    Caret {
        line: newlines(s.take(p)) as int,
        col: line_columns(s.take(p)) as int,
        idx: byte_len(s.take(p)) as int,
    }
}

/// The place of the character `p` of `text` in its wrapped text.
pub open spec fn place_in_wrapped(text: Seq<char>, p: int, width: nat) -> int {
    wrapped(text.take(p), width).len() + (if line_full(column(text.take(p), width), width) {
        1int
    } else {
        0
    })
}

proof fn lemma_line_columns_push(s: Seq<char>, c: char)
    ensures
        line_columns(s.push(c)) == (if c == '\n' {
            0
        } else {
            line_columns(s) + char_advance(c)
        }),
{
    assert(s.push(c).drop_last() =~= s);
}

proof fn lemma_without_newlines_push(s: Seq<char>, c: char)
    ensures
        without_newlines(s.push(c)) == (if c == '\n' {
            without_newlines(s)
        } else {
            without_newlines(s).push(c)
        }),
{
    assert(s.push(c).drop_last() =~= s);
}

proof fn lemma_column_is_line_columns(text: Seq<char>, width: nat)
    ensures
        line_columns(wrapped(text, width)) == column(text, width),
    decreases text.len(),
{
    if text.len() > 0 {
        let before = text.drop_last();
        lemma_column_is_line_columns(before, width);
        lemma_line_columns_push(wrapped(before, width), '\n');
        lemma_line_columns_push(wrapped(before, width), text.last());
        lemma_line_columns_push(wrapped(before, width).push('\n'), text.last());
    }
}

proof fn lemma_wrapped_prefix(text: Seq<char>, p: int, width: nat)
    requires
        0 <= p <= text.len(),
    ensures
        wrapped(text.take(p), width).is_prefix_of(wrapped(text, width)),
        p < text.len() ==> {
            let q = place_in_wrapped(text, p, width);
            &&& q < wrapped(text, width).len()
            &&& wrapped(text, width)[q] == text[p]
            &&& q > wrapped(text.take(p), width).len() ==> wrapped(text, width)[q - 1] == '\n'
        },
    decreases text.len() - p,
{
    if p == text.len() {
        assert(text.take(p) =~= text);
    } else {
        lemma_wrapped_prefix(text, p + 1, width);
        assert(text.take(p + 1).drop_last() =~= text.take(p));
        let a = wrapped(text.take(p), width);
        let b = wrapped(text.take(p + 1), width);
        let t = wrapped(text, width);
        assert(b.len() <= t.len());
        assert(forall|k: int| 0 <= k < b.len() ==> b[k] == t[k]);
        assert(a =~= t.take(a.len() as int));
    }
}

/// Where the caret of character `p` stands when only the first `n` characters were laid out.
spec fn caret_midway(text: Seq<char>, p: int, n: int, width: nat) -> Caret {
    let target = text.take(p);
    let done = text.take(n);
    Caret {
        line: newlines(target) - newlines(done) + newlines(wrapped(done, width)),
        col: if newlines(target) == newlines(done) {
            line_columns(target) - line_columns(done) + column(done, width)
        } else {
            line_columns(target) as int
        },
        idx: byte_len(target) - byte_len(done) + byte_len(wrapped(done, width)),
    }
}

proof fn lemma_newlines_monotonic(s: Seq<char>, n: int, p: int)
    requires
        0 <= n <= p <= s.len(),
    ensures
        newlines(s.take(n)) <= newlines(s.take(p)),
        newlines(s.take(n)) == newlines(s.take(p)) ==> line_columns(s.take(n)) <= line_columns(
            s.take(p),
        ),
    decreases p - n,
{
    if n < p {
        lemma_newlines_monotonic(s, n, p - 1);
        assert(s.take(p) =~= s.take(p - 1).push(s[p - 1]));
        lemma_newlines_push(s.take(p - 1), s[p - 1]);
        lemma_line_columns_push(s.take(p - 1), s[p - 1]);
    }
}

proof fn lemma_caret_midway(text: Seq<char>, p: int, n: int, width: nat)
    requires
        0 <= n <= p <= text.len(),
    ensures
        moved(text.take(n), caret_at(text, p), width) == caret_midway(text, p, n, width),
    decreases n,
{
    if n == 0 {
        assert(text.take(0) =~= Seq::<char>::empty());
    } else {
        let done = text.take(n - 1);
        let c = text[n - 1];
        lemma_caret_midway(text, p, n - 1, width);
        assert(text.take(n) =~= done.push(c));
        assert(text.take(n).drop_last() =~= done);
        lemma_newlines_monotonic(text, n - 1, p);
        lemma_newlines_monotonic(text, n, p);
        lemma_newlines_push(done, c);
        lemma_line_columns_push(done, c);
        lemma_byte_len_push(done, c);
        let w = wrapped(done, width);
        lemma_newlines_push(w, '\n');
        lemma_newlines_push(w, c);
        lemma_newlines_push(w.push('\n'), c);
        lemma_byte_len_push(w, '\n');
        lemma_byte_len_push(w, c);
        lemma_byte_len_push(w.push('\n'), c);
    }
}

proof fn lemma_caret_stays(text: Seq<char>, p: int, n: int, width: nat)
    requires
        0 <= p < n <= text.len(),
    ensures
        ({
            let w = wrapped(text.take(p), width);
            let c = moved(text.take(n), caret_at(text, p), width);
            let full = line_full(column(text.take(p), width), width);
            &&& c.line == newlines(w) + (if full {
                1int
            } else {
                0
            })
            &&& c.col == (if full {
                0
            } else {
                column(text.take(p), width)
            })
            &&& c.idx == byte_len(w) + (if full {
                1int
            } else {
                0
            })
            &&& newlines(wrapped(text.take(n), width)) >= c.line
            &&& newlines(wrapped(text.take(n), width)) == c.line ==> column(text.take(n), width)
                >= c.col
        }),
    decreases n - p,
{
    let done = text.take(n - 1);
    let c = text[n - 1];
    assert(text.take(n).drop_last() =~= done);
    let w = wrapped(done, width);
    lemma_newlines_push(w, '\n');
    lemma_newlines_push(w, c);
    lemma_newlines_push(w.push('\n'), c);
    if n == p + 1 {
        lemma_caret_midway(text, p, p, width);
    } else {
        lemma_caret_stays(text, p, n - 1, width);
    }
}

/// Lines are counted by their line feeds.
pub proof fn law_newlines_are_counted(s: Seq<char>)
    ensures
        newlines(s) == s.to_multiset().count('\n'),
    decreases s.len(),
{
    s.to_multiset_ensures();
    if s.len() > 0 {
        let before = s.drop_last();
        law_newlines_are_counted(before);
        before.to_multiset_ensures();
        assert(s =~= before.push(s.last()));
    } else {
        assert(!s.contains('\n'));
    }
}

/// The columns of the last line are those of the text behind the last line feed.
pub proof fn law_columns_of_the_last_line(before: Seq<char>, line: Seq<char>)
    requires
        before.len() == 0 || before.last() == '\n',
        !line.contains('\n'),
    ensures
        line_columns(before + line) == columns(line),
    decreases line.len(),
{
    let s = before + line;
    if line.len() == 0 {
        assert(s =~= before);
    } else {
        assert(line.contains(line[line.len() - 1]));
        let rest = line.drop_last();
        assert(!rest.contains('\n')) by {
            assert(forall|i: int| 0 <= i < rest.len() ==> line.contains(#[trigger] rest[i])) by {
                assert forall|i: int| 0 <= i < rest.len() implies line.contains(
                    #[trigger] rest[i],
                ) by {
                    assert(line[i] == rest[i]);
                }
            }
        }
        law_columns_of_the_last_line(before, rest);
        assert(s.drop_last() =~= before + rest);
    }
}

/// A line is broken exactly where it is full: a further character starts a new line if and only if
/// the last line has columns, and as many as the box or a multiple of that. Nothing else is added,
/// and nothing gets lost.
pub proof fn law_full_lines_are_broken(
    text: Seq<char>,
    c: char,
    width: nat,
    before: Seq<char>,
    line: Seq<char>,
)
    requires
        width > 0,
        wrapped(text, width) == before + line,
        before.len() == 0 || before.last() == '\n',
        !line.contains('\n'),
    ensures
        wrapped(Seq::<char>::empty(), width) == Seq::<char>::empty(),
        columns(line) > 0 && columns(line) % width == 0 ==> wrapped(text.push(c), width)
            == before + line + seq!['\n', c],
        columns(line) == 0 || columns(line) % width != 0 ==> wrapped(text.push(c), width)
            == before + line + seq![c],
{
    law_columns_of_the_last_line(before, line);
    lemma_column_is_line_columns(text, width);
    assert(text.push(c).drop_last() =~= text);
    let w = wrapped(text, width);
    assert(w.push('\n').push(c) =~= w + seq!['\n', c]);
    assert(w.push(c) =~= w + seq![c]);
}

/// A text can be laid out wherever there is a column. In none at all it can only if nothing that
/// takes a column stands in front of its last character, and then it stays as it is.
pub proof fn law_text_without_columns(text: Seq<char>)
    ensures
        forall|width: nat| width > 0 ==> #[trigger] wrappable(text, width),
        wrappable(text, 0) <==> forall|i: int|
            0 <= i < text.len() - 1 ==> #[trigger] text[i] == '\n' || char_advance(text[i]) == 0,
        wrappable(text, 0) ==> wrapped(text, 0) == text,
{
    if wrappable(text, 0) {
        lemma_unbroken(text, text.len() as int);
        assert(text.take(text.len() as int) =~= text);
        assert forall|i: int| 0 <= i < text.len() - 1 implies #[trigger] text[i] == '\n'
            || char_advance(text[i]) == 0 by {
            assert(column(text.take(i + 1), 0) == 0);
            assert(text.take(i + 1).last() == text[i]);
        }
    }
    if forall|i: int|
        0 <= i < text.len() - 1 ==> #[trigger] text[i] == '\n' || char_advance(text[i]) == 0 {
        assert forall|i: int| 0 <= i < text.len() implies #[trigger] column(text.take(i), 0)
            == 0 by {
            lemma_no_columns(text, i);
        }
    }
}

proof fn lemma_unbroken(text: Seq<char>, i: int)
    requires
        0 <= i <= text.len(),
        forall|j: int| 0 <= j < text.len() ==> #[trigger] column(text.take(j), 0) == 0,
    ensures
        wrapped(text.take(i), 0) == text.take(i),
    decreases i,
{
    if i > 0 {
        lemma_unbroken(text, i - 1);
        assert(column(text.take(i - 1), 0) == 0);
        assert(text.take(i).drop_last() =~= text.take(i - 1));
        assert(wrapped(text.take(i), 0) =~= text.take(i));
    }
}

proof fn lemma_no_columns(text: Seq<char>, i: int)
    requires
        0 <= i < text.len(),
        forall|j: int|
            0 <= j < text.len() - 1 ==> #[trigger] text[j] == '\n' || char_advance(text[j]) == 0,
    ensures
        column(text.take(i), 0) == 0,
    decreases i,
{
    if i > 0 {
        lemma_no_columns(text, i - 1);
        assert(text.take(i).drop_last() =~= text.take(i - 1));
        assert(text.take(i).last() == text[i - 1]);
    }
}

/// The place of a character in the wrapped text is at the end of what is wrapped up to it.
pub proof fn law_place_is_at_the_end_of_what_was_wrapped(text: Seq<char>, p: int, width: nat)
    requires
        0 <= p < text.len(),
    ensures
        place_in_wrapped(text, p, width) == wrapped(text.take(p + 1), width).len() - 1,
        wrapped(text.take(p + 1), width).is_prefix_of(wrapped(text, width)),
{
    lemma_wrapped_prefix(text, p + 1, width);
    assert(text.take(p + 1).drop_last() =~= text.take(p));
}

/// The displayed text is the wrapped one. Only a cursor behind the last character that stands past
/// the last column gets a further line.
pub proof fn law_cursor_past_the_edge_gets_a_line(text: Seq<char>, p: int, width: nat)
    requires
        0 <= p <= text.len(),
    ensures
        ({
            let body = wrapped(text, width);
            let shown = input_text(text, caret_at(text, p), width);
            &&& p < text.len() ==> shown == body
            &&& p == text.len() && line_columns(body) != width ==> shown == body
            &&& p == text.len() && line_columns(body) == width ==> shown == body.push('\n')
        }),
{
    law_wrap_keeps_cursor(text, p, width);
    assert(text.take(text.len() as int) =~= text);
    if p == text.len() {
        lemma_caret_midway(text, p, p, width);
        lemma_column_is_line_columns(text, width);
    } else {
        lemma_not_beyond_edge(text, p, width);
    }
}

/// Wrapping moves the cursor along with its character.
///
/// A cursor before some character of the text stands, after wrapping, before the same character;
/// one behind the last character stands behind the last one. Line, column and byte index of the
/// result are those of that place in the text that is displayed.
pub proof fn law_wrap_keeps_cursor(text: Seq<char>, p: int, width: nat)
    requires
        0 <= p <= text.len(),
    ensures
        ({
            let shown = input_text(text, caret_at(text, p), width);
            let q = if p < text.len() {
                place_in_wrapped(text, p, width)
            } else {
                shown.len() as int
            };
            &&& 0 <= q <= shown.len()
            &&& p < text.len() ==> q < shown.len() && shown[q] == text[p]
            &&& input_caret(text, caret_at(text, p), width) == caret_at(shown, q)
        }),
{
    let caret = caret_at(text, p);
    let body = wrapped(text, width);
    let shown = input_text(text, caret, width);
    assert(text.take(text.len() as int) =~= text);
    if p == text.len() {
        lemma_caret_midway(text, p, p, width);
        lemma_column_is_line_columns(text, width);
        lemma_newlines_push(body, '\n');
        lemma_line_columns_push(body, '\n');
        lemma_byte_len_push(body, '\n');
        assert('\n' as u32 == 10);
        assert(shown.take(shown.len() as int) =~= shown);
    } else {
        lemma_caret_stays(text, p, text.len() as int, width);
        lemma_wrapped_prefix(text, p, width);
        let head = wrapped(text.take(p), width);
        let q = place_in_wrapped(text, p, width);
        lemma_column_is_line_columns(text.take(p), width);
        lemma_newlines_push(head, '\n');
        lemma_line_columns_push(head, '\n');
        lemma_byte_len_push(head, '\n');
        assert('\n' as u32 == 10);
        if q == head.len() {
            assert(body.take(q) =~= head);
        } else {
            assert(body.take(q) =~= head.push('\n'));
        }
        lemma_not_beyond_edge(text, p, width);
    }
}

proof fn lemma_not_beyond_edge(text: Seq<char>, p: int, width: nat)
    requires
        0 <= p < text.len(),
    ensures
        !beyond_edge(text, caret_at(text, p), width),
{
    let body = wrapped(text, width);
    let head = wrapped(text.take(p), width);
    let q = place_in_wrapped(text, p, width);
    assert(text.take(text.len() as int) =~= text);
    lemma_caret_stays(text, p, text.len() as int, width);
    lemma_wrapped_prefix(text, p, width);
    lemma_byte_len_push(head, '\n');
    assert('\n' as u32 == 10);
    if q == head.len() {
        assert(body.take(q) =~= head);
    } else {
        assert(body.take(q) =~= head.push('\n'));
    }
    lemma_byte_len_concat(body.take(q), body.skip(q));
    assert(body.take(q) + body.skip(q) =~= body);
    assert(body.skip(q) =~= seq![body[q]] + body.skip(q + 1));
    lemma_byte_len_concat(seq![body[q]], body.skip(q + 1));
    lemma_byte_len_push(Seq::empty(), body[q]);
    assert(seq![body[q]] =~= Seq::empty().push(body[q]));
}

/// Wrapping puts line feeds in and changes nothing else.
pub proof fn law_wrap_keeps_characters(text: Seq<char>, caret: Caret, width: nat)
    ensures
        without_newlines(input_text(text, caret, width)) == without_newlines(text),
{
    lemma_wrapped_characters(text, width);
    lemma_without_newlines_push(wrapped(text, width), '\n');
}

proof fn lemma_wrapped_characters(text: Seq<char>, width: nat)
    ensures
        without_newlines(wrapped(text, width)) == without_newlines(text),
    decreases text.len(),
{
    if text.len() > 0 {
        let before = text.drop_last();
        lemma_wrapped_characters(before, width);
        lemma_without_newlines_push(wrapped(before, width), '\n');
        lemma_without_newlines_push(wrapped(before, width), text.last());
        lemma_without_newlines_push(wrapped(before, width).push('\n'), text.last());
    }
}

/// Text of narrow characters is never displayed wider than the box.
///
/// Where no character takes more than one column, no line of the displayed text takes more than
/// `width` columns.
pub proof fn law_wrap_fits_width(text: Seq<char>, caret: Caret, width: nat, k: int)
    requires
        width > 0,
        forall|i: int| 0 <= i < text.len() ==> char_advance(#[trigger] text[i]) <= 1,
        0 <= k <= input_text(text, caret, width).len(),
    ensures
        line_columns(input_text(text, caret, width).take(k)) <= width,
{
    let body = wrapped(text, width);
    let shown = input_text(text, caret, width);
    if k <= body.len() {
        lemma_wrapped_fits(text, width, k);
        assert(shown.take(k) =~= body.take(k));
    } else {
        assert(shown.take(k) =~= body.push('\n'));
        lemma_line_columns_push(body, '\n');
    }
}

proof fn lemma_wrapped_fits(text: Seq<char>, width: nat, k: int)
    requires
        width > 0,
        forall|i: int| 0 <= i < text.len() ==> char_advance(#[trigger] text[i]) <= 1,
        0 <= k <= wrapped(text, width).len(),
    ensures
        line_columns(wrapped(text, width).take(k)) <= width,
        column(text, width) <= width,
    decreases text.len(),
{
    let body = wrapped(text, width);
    lemma_column_is_line_columns(text, width);
    if text.len() > 0 {
        let before = text.drop_last();
        let c = text.last();
        assert(forall|i: int| 0 <= i < before.len() ==> char_advance(#[trigger] before[i]) <= 1);
        assert(char_advance(text[text.len() - 1]) <= 1);
        let head = wrapped(before, width);
        lemma_wrapped_fits(before, width, if k <= head.len() { k } else { 0 });
        assert(column(before, width) == width ==> line_full(column(before, width), width)) by {
            vstd::arithmetic::div_mod::lemma_mod_self_0(width as int);
        }
        if k <= head.len() {
            assert(body.take(k) =~= head.take(k));
        } else if k < body.len() {
            assert(body.take(k) =~= head.push('\n'));
            lemma_line_columns_push(head, '\n');
        } else {
            assert(body.take(k) =~= body);
        }
    } else {
        assert(body.take(k) =~= body);
    }
}

/// The cursor in a text of narrow characters always stands in the box.
///
/// Where no character takes more than one column, a cursor before some character of the text, or
/// behind the last one, comes to stand in one of the displayed lines and of the `width` columns.
pub proof fn law_wrap_keeps_cursor_in_box(text: Seq<char>, p: int, width: nat)
    requires
        width > 0,
        forall|i: int| 0 <= i < text.len() ==> char_advance(#[trigger] text[i]) <= 1,
        0 <= p <= text.len(),
    ensures
        ({
            let caret = caret_at(text, p);
            &&& 0 <= input_caret(text, caret, width).col < width
            &&& 0 <= input_caret(text, caret, width).line <= newlines(
                input_text(text, caret, width),
            )
        }),
{
    let caret = caret_at(text, p);
    let shown = input_text(text, caret, width);
    law_wrap_keeps_cursor(text, p, width);
    let q = if p < text.len() {
        place_in_wrapped(text, p, width)
    } else {
        shown.len() as int
    };
    lemma_newlines_monotonic(shown, q, shown.len() as int);
    assert(shown.take(shown.len() as int) =~= shown);
    vstd::arithmetic::div_mod::lemma_mod_self_0(width as int);
    lemma_wrapped_fits(text.take(p), width, 0);
    if p < text.len() {
        assert(text.take(text.len() as int) =~= text);
        lemma_caret_stays(text, p, text.len() as int, width);
        lemma_wrapped_prefix(text, p, width);
        assert(input_caret(text, caret, width).col != width);
    } else {
        assert(text.take(p) =~= text);
        lemma_caret_midway(text, p, p, width);
        lemma_column_is_line_columns(text, width);
    }
}

/// A text that does not reach the last column is displayed as it is, and the cursor stays.
pub proof fn law_wrap_leaves_short_text(text: Seq<char>, caret: Caret, width: nat)
    requires
        forall|i: int| 0 <= i <= text.len() ==> line_columns(#[trigger] text.take(i)) < width,
        caret.col < width,
    ensures
        input_text(text, caret, width) == text,
        input_caret(text, caret, width) == caret,
{
    assert(text.take(text.len() as int) =~= text);
    lemma_short_text(text, caret, width, text.len() as int);
}

proof fn lemma_short_text(text: Seq<char>, caret: Caret, width: nat, n: int)
    requires
        0 <= n <= text.len(),
        forall|i: int| 0 <= i <= text.len() ==> line_columns(#[trigger] text.take(i)) < width,
    ensures
        wrapped(text.take(n), width) == text.take(n),
        column(text.take(n), width) == line_columns(text.take(n)),
        moved(text.take(n), caret, width) == caret,
    decreases n,
{
    if n > 0 {
        lemma_short_text(text, caret, width, n - 1);
        let before = text.take(n - 1);
        assert(text.take(n).drop_last() =~= before);
        assert(text.take(n) =~= before.push(text[n - 1]));
        assert(!line_full(column(before, width), width)) by {
            let c = column(before, width);
            assert(line_columns(text.take(n - 1)) < width);
            if c > 0 {
                vstd::arithmetic::div_mod::lemma_small_mod(c, width);
            }
        }
    }
}

} // verus!
