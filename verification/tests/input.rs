use gurk::data::BoxData;
use gurk::draw::{can_wrap, cursor_cell, lay_out, DrawError};
use gurk::input::{wrap, Cursor};
use gurk::widgets::Rect;
use unicode_width::UnicodeWidthChar;

fn at(line: usize, col: usize, idx: usize) -> Cursor {
    Cursor { line, col, idx }
}

fn wrapped(text: &str, cursor: Cursor, width: usize) -> (String, (usize, usize, usize), usize) {
    let (text, cursor, lines) = wrap(text, cursor, width);
    (text, (cursor.line, cursor.col, cursor.idx), lines)
}

/// The cursor before the byte `idx`.
fn cursor_before(text: &str, idx: usize) -> Cursor {
    let head = &text[..idx];
    let line = head.matches('\n').count();
    let last = head.rsplit('\n').next().unwrap_or("");
    let col = last.chars().map(|c| UnicodeWidthChar::width(c).unwrap_or(0)).sum();
    at(line, col, idx)
}

#[test]
fn long_text_is_wrapped() {
    assert_eq!(wrapped("abcdef", at(0, 0, 0), 3), ("abc\ndef".to_string(), (0, 0, 0), 2));
    assert_eq!(wrapped("abcdefg", at(0, 0, 0), 3), ("abc\ndef\ng".to_string(), (0, 0, 0), 3));
    assert_eq!(wrapped("ab", at(0, 2, 2), 1), ("a\nb\n".to_string(), (2, 0, 4), 3));
}

#[test]
fn cursor_moves_with_its_character() {
    assert_eq!(wrapped("abcdef", at(0, 4, 4), 3), ("abc\ndef".to_string(), (1, 1, 5), 2));
    assert_eq!(wrapped("abcdef", at(0, 3, 3), 3), ("abc\ndef".to_string(), (1, 0, 4), 2));
    assert_eq!(wrapped("abcdef", at(0, 2, 2), 3), ("abc\ndef".to_string(), (0, 2, 2), 2));
    assert_eq!(wrapped("ab\ncdef", at(1, 3, 6), 3), ("ab\ncde\nf".to_string(), (2, 0, 7), 3));
}

#[test]
fn cursor_behind_a_full_line_gets_a_new_one() {
    assert_eq!(wrapped("abcdef", at(0, 6, 6), 3), ("abc\ndef\n".to_string(), (2, 0, 8), 3));
    assert_eq!(wrapped("abcde", at(0, 5, 5), 3), ("abc\nde".to_string(), (1, 2, 6), 2));
    assert_eq!(wrapped("", at(0, 0, 0), 3), (String::new(), (0, 0, 0), 1));
}

#[test]
fn a_full_line_keeps_its_own_line_feed() {
    assert_eq!(wrapped("abc\nd", at(1, 0, 4), 3), ("abc\n\nd".to_string(), (2, 0, 5), 3));
}

#[test]
fn wide_characters_take_two_columns() {
    assert_eq!(wrapped("日本語", at(0, 6, 9), 4), ("日本\n語".to_string(), (1, 2, 10), 2));
    assert_eq!(wrapped("a日b", at(0, 0, 0), 3), ("a日\nb".to_string(), (0, 0, 0), 2));
    // a line that never ends exactly at the edge is not broken
    assert_eq!(wrapped("日日x", at(0, 0, 0), 3), ("日日x".to_string(), (0, 0, 0), 1));
}

#[test]
fn characters_without_width_take_no_column() {
    assert_eq!(wrapped("e\u{301}fg", at(0, 0, 0), 2), ("e\u{301}f\ng".to_string(), (0, 0, 0), 2));
    assert_eq!(wrapped("a\tbc", at(0, 0, 0), 2), ("a\tb\nc".to_string(), (0, 0, 0), 2));
}

#[test]
fn lines_without_columns() {
    assert_eq!(wrapped("", at(0, 0, 0), 0), ("\n".to_string(), (1, 0, 1), 2));
    assert!(can_wrap("", 0));
    assert!(can_wrap("a", 0));
    assert!(can_wrap("\n\na", 0));
    assert!(can_wrap("\u{301}\t\na", 0));
    assert!(!can_wrap("ab", 0));
    assert!(!can_wrap("a\n", 0));
    assert!(can_wrap("ab", 1));
}

const TEXTS: [&str; 7] = [
    "",
    "x",
    "hello world",
    "one\ntwo three\n\nfour",
    "日本語 and ascii",
    "e\u{301}\u{301}e\n\n\nlast line is long",
    "\n\nabcabcabcabc\n",
];

#[test]
fn cursor_stays_before_its_character_in_all_widths() {
    for text in TEXTS {
        for width in 1..20 {
            for (idx, c) in text.char_indices() {
                let (shown, cursor, _) = wrap(text, cursor_before(text, idx), width);
                assert_eq!(shown[cursor.idx..].chars().next(), Some(c), "{text:?} {width} {idx}");
                assert_eq!(cursor, cursor_before(&shown, cursor.idx), "{text:?} {width} {idx}");
            }
            let (shown, cursor, _) = wrap(text, cursor_before(text, text.len()), width);
            assert_eq!(cursor, cursor_before(&shown, shown.len()), "{text:?} {width}");
        }
    }
}

#[test]
fn only_line_feeds_are_added() {
    for text in TEXTS {
        for width in 1..20 {
            let (shown, _, lines) = wrap(text, cursor_before(text, text.len()), width);
            assert_eq!(shown.replace('\n', ""), text.replace('\n', ""));
            assert_eq!(lines, shown.matches('\n').count() + 1);
        }
    }
}

#[test]
fn narrow_text_fits_the_width() {
    for text in ["hello world", "one\ntwo three\n\nfour", "\n\nabcabcabcabc\n"] {
        for width in 1..20 {
            let (shown, _, _) = wrap(text, cursor_before(text, text.len()), width);
            assert!(shown.split('\n').all(|line| line.len() <= width));
        }
    }
}

#[test]
fn cursor_in_narrow_text_stands_in_the_box() {
    for text in ["", "hello world", "one\ntwo three\n\nfour", "\n\nabcabcabcabc\n"] {
        for width in 1..20 {
            for idx in 0..=text.len() {
                let (_, cursor, lines) = wrap(text, cursor_before(text, idx), width);
                assert!(cursor.col < width && cursor.line < lines);
            }
        }
    }
}

#[test]
fn short_text_stays_as_it_is() {
    let text = "one\ntwo\nthree";
    assert_eq!(wrapped(text, at(1, 2, 6), 6), (text.to_string(), (1, 2, 6), 3));
}

#[test]
fn every_character_is_as_wide_as_it_is_counted() {
    for c in '\0'..=char::MAX {
        let w = UnicodeWidthChar::width(c).unwrap_or(0);
        assert!(w <= 2 && w <= c.len_utf8());
        assert!(w < 2 || c as u32 >= 0x1100);
        if (' '..='~').contains(&c) {
            assert_eq!(w, 1);
        }
        if c.is_control() {
            assert_eq!(w, 0);
            assert!(c == '\0' || UnicodeWidthChar::width(c).is_none());
        }
        if c != '\n' {
            let mut text = String::from(c);
            text.push('x');
            let (shown, _, _) = wrap(&text, at(0, 0, 0), 2);
            assert_eq!(shown.contains('\n'), w == 2);
            let (shown, _, _) = wrap(&text, at(0, 0, 0), 1);
            assert_eq!(shown.contains('\n'), w > 0);
        }
    }
}

#[test]
fn boxes_have_room_for_text_and_borders() {
    let data = BoxData { data: "abcdef".to_string(), cursor: at(0, 6, 6) };
    assert_eq!(lay_out(&data, 3), Ok(("abc\ndef\n".to_string(), at(2, 0, 8), 5)));
    assert_eq!(lay_out(&data, 0), Err(DrawError::NoColumns));
}

#[test]
fn boxes_have_a_largest_height() {
    let data = BoxData { data: "\n".repeat(65_532), cursor: at(0, 0, 0) };
    assert_eq!(lay_out(&data, 10).map(|(_, _, height)| height), Ok(65_535));
    let data = BoxData { data: "\n".repeat(65_533), cursor: at(0, 0, 0) };
    assert_eq!(lay_out(&data, 10), Err(DrawError::TooManyLines));
    let data = BoxData { data: "\n".repeat(65_534), cursor: at(0, 0, 0) };
    assert_eq!(lay_out(&data, 10), Err(DrawError::TooManyLines));
    // beyond that, the lines are counted anew
    let data = BoxData { data: "\n".repeat(65_535), cursor: at(0, 0, 0) };
    assert_eq!(lay_out(&data, 10).map(|(_, _, height)| height), Ok(2));
}

#[test]
fn cursor_stands_inside_of_the_borders() {
    let area = Rect { x: 10, y: 20, width: 30, height: 4 };
    assert_eq!(cursor_cell(area, at(1, 5, 99)), Some((16, 22)));
    let far = Rect { x: 65_500, y: 0, width: 35, height: 4 };
    assert_eq!(cursor_cell(far, at(0, 34, 0)), Some((65_535, 1)));
    assert_eq!(cursor_cell(far, at(0, 35, 0)), None);
    let low = Rect { x: 0, y: 65_531, width: 3, height: 4 };
    assert_eq!(cursor_cell(low, at(3, 0, 0)), Some((1, 65_535)));
    assert_eq!(cursor_cell(low, at(4, 0, 0)), None);
}
