//! Laying out the text of an input box.

use vstd::prelude::*;

use crate::columns::{
    byte_len, char_advance, char_bytes, char_width, lemma_byte_len_concat, lemma_byte_len_push,
    str_bytes,
};

verus! {

/// A position in a text: its line, its column in that line, and its byte index.
#[derive(Clone, Copy, Debug, PartialEq, Eq, Structural, Default)]
pub struct Cursor {
    pub line: usize,
    pub col: usize,
    pub idx: usize,
}

/// A cursor as integers.
pub struct Caret {
    pub line: int,
    pub col: int,
    pub idx: int,
}

impl View for Cursor {
    type V = Caret;

    open spec fn view(&self) -> Caret {
        Caret { line: self.line as int, col: self.col as int, idx: self.idx as int }
    }
}

/// The number of line feeds in a text.
pub open spec fn newlines(s: Seq<char>) -> nat
    decreases s.len(),
{
    if s.len() == 0 {
        0
    } else {
        newlines(s.drop_last()) + (if s.last() == '\n' {
            1nat
        } else {
            0
        })
    }
}

/// Whether a line that reached column `col` is continued on a new one.
pub open spec fn line_full(col: nat, width: nat) -> bool {
    col > 0 && col % width == 0
}

/// The column reached after laying out `text` in lines of `width` columns.
pub open spec fn column(text: Seq<char>, width: nat) -> nat
    decreases text.len(),
{
    if text.len() == 0 || text.last() == '\n' {
        0
    } else {
        let before = column(text.drop_last(), width);
        (if line_full(before, width) {
            0
        } else {
            before
        }) + char_advance(text.last())
    }
}

/// The text with a line feed put in before every character that a full line has no room for.
pub open spec fn wrapped(text: Seq<char>, width: nat) -> Seq<char>
    decreases text.len(),
{
    if text.len() == 0 {
        text
    } else {
        let before = text.drop_last();
        (if line_full(column(before, width), width) {
            wrapped(before, width).push('\n')
        } else {
            wrapped(before, width)
        }).push(text.last())
    }
}

/// Where a caret comes to stand when the line `line` is broken at column `col`.
pub open spec fn after_break(caret: Caret, line: int, col: int) -> Caret {
    if line < caret.line {
        Caret { line: caret.line + 1, idx: caret.idx + 1, ..caret }
    } else if line == caret.line && col <= caret.col {
        Caret { line: caret.line + 1, col: caret.col - col, idx: caret.idx + 1 }
    } else {
        caret
    }
}

/// Where a caret in `text` comes to stand when the text is wrapped.
pub open spec fn moved(text: Seq<char>, caret: Caret, width: nat) -> Caret
    decreases text.len(),
{
    if text.len() == 0 {
        caret
    } else {
        let before = text.drop_last();
        let c = moved(before, caret, width);
        if line_full(column(before, width), width) {
            after_break(c, newlines(wrapped(before, width)) as int, column(before, width) as int)
        } else {
            c
        }
    }
}

/// Whether the wrapped caret stands behind the last character, past the last column.
pub open spec fn beyond_edge(text: Seq<char>, caret: Caret, width: nat) -> bool {
    let c = moved(text, caret, width);
    c.idx == byte_len(wrapped(text, width)) && c.col == width
}

/// The text of the input box: the wrapped text, and a new line for a caret beyond the edge.
pub open spec fn input_text(text: Seq<char>, caret: Caret, width: nat) -> Seq<char> {
    if beyond_edge(text, caret, width) {
        wrapped(text, width).push('\n')
    } else {
        wrapped(text, width)
    }
}

/// The caret of the input box.
pub open spec fn input_caret(text: Seq<char>, caret: Caret, width: nat) -> Caret {
    let c = moved(text, caret, width);
    if beyond_edge(text, caret, width) {
        Caret { line: c.line + 1, col: 0, idx: c.idx + 1 }
    } else {
        c
    }
}

/// Whether a text can be laid out in lines of `width` columns: in lines of no column at all only
/// a text can in which nothing follows a visible character on its line.
pub open spec fn wrappable(text: Seq<char>, width: nat) -> bool {
    width > 0 || forall|i: int| 0 <= i < text.len() ==> #[trigger] column(text.take(i), width) == 0
}

/// A further character adds at most one line feed.
pub proof fn lemma_newlines_push(s: Seq<char>, c: char)
    ensures
        newlines(s.push(c)) == newlines(s) + (if c == '\n' {
            1nat
        } else {
            0
        }),
{
    assert(s.push(c).drop_last() =~= s);
}

/// Wraps `text` in lines of `width` columns and moves the cursor along with it.
///
/// Returns the wrapped text, the cursor in it, and its number of lines.
pub fn wrap(text: &str, cursor: Cursor, width: usize) -> (r: (String, Cursor, usize))
    requires
        wrappable(text@, width as nat),
        cursor.line + text@.len() + 2 <= usize::MAX,
        cursor.idx + text@.len() + 1 <= usize::MAX,
    ensures
        r.0@ == input_text(text@, cursor@, width as nat),
        r.1@ == input_caret(text@, cursor@, width as nat),
        r.2 == newlines(r.0@) + 1,
{
    let mut cursor: Cursor = cursor;
    let ghost caret = cursor@;
    let ghost w = width as nat;
    let total: usize = str_bytes(text);
    let mut res: String = String::new();
    let mut line: usize = 0;
    let mut col: usize = 0;

    for c in chars: text.chars()
        invariant
            chars.seq() == text@,
            total == byte_len(text@),
            w == width,
            wrappable(text@, w),
            0 <= caret.line,
            0 <= caret.idx,
            caret.line + text@.len() + 2 <= usize::MAX,
            caret.idx + text@.len() + 1 <= usize::MAX,
            res@ == wrapped(text@.take(chars.index() as int), w),
            col == column(text@.take(chars.index() as int), w),
            line == newlines(res@),
            cursor@ == moved(text@.take(chars.index() as int), caret, w),
            col <= byte_len(text@.take(chars.index() as int)),
            line + (if col > 0 {
                1int
            } else {
                0
            }) <= chars.index(),
            cursor.line <= caret.line + line,
            cursor.idx <= caret.idx + line,
    {
        let ghost i = chars.index() as int;
        proof {
            let before = text@.take(i);
            let next = text@.take(i + 1);
            assert(next.drop_last() =~= before);
            assert(next =~= before.push(c));
            lemma_byte_len_push(before, c);
            lemma_byte_len_concat(next, text@.skip(i + 1));
            assert(next + text@.skip(i + 1) =~= text@);
        }

        // current line too long => wrap
        if col > 0 && col % width == 0 {
            proof {
                lemma_newlines_push(res@, '\n');
            }
            res.push('\n');

            // adjust cursor
            if line < cursor.line {
                cursor.line = cursor.line + 1;
                cursor.idx = cursor.idx + 1;
            } else if line == cursor.line && col <= cursor.col {
                cursor.line = cursor.line + 1;
                cursor.col = cursor.col - col;
                cursor.idx = cursor.idx + 1;
            }
            line = line + 1;
            col = 0;
        }
        if c == '\n' {
            line = line + 1;
            col = 0;
        } else {
            let advance: usize = match char_width(c) {
                Some(n) => n,
                None => 0,
            };
            assert(advance <= char_bytes(c)) by {
                lemma_byte_len_push(Seq::empty(), c);
            }
            col = col + advance;
        }
        proof {
            lemma_newlines_push(res@, c);
        }
        res.push(c);
    }
    assert(text@.take(text@.len() as int) =~= text@);

    // special case: cursor is at the end of the text and overflows `width`
    if cursor.idx == str_bytes(res.as_str()) && cursor.col == width {
        proof {
            lemma_newlines_push(res@, '\n');
        }
        res.push('\n');
        cursor.line = cursor.line + 1;
        cursor.col = 0;
        cursor.idx = cursor.idx + 1;
        line = line + 1;
    }
    (res, cursor, line + 1)
}

} // verus!
