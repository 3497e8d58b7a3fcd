use gurk::columns::str_bytes;
use gurk::text::{push_decimal, repeat_char, strip_prefix};

#[test]
fn characters_are_repeated() {
    assert_eq!(repeat_char('x', 0), "");
    assert_eq!(repeat_char('x', 3), "xxx");
    assert_eq!(repeat_char('日', 2), "日日");
}

#[test]
fn numbers_are_written_in_decimal() {
    for n in [0, 7, 9, 10, 99, 100, 1_234_567_890, usize::MAX] {
        let mut out = "n=".to_string();
        push_decimal(&mut out, n);
        assert_eq!(out, format!("n={n}"));
    }
}

#[test]
fn prefixes_are_stripped() {
    assert_eq!(strip_prefix("   text", "   "), "text");
    assert_eq!(strip_prefix("日本語", "日"), "本語");
    assert_eq!(strip_prefix("same", "same"), "");
    assert_eq!(strip_prefix("text", ""), "text");
}

#[test]
fn strings_are_measured_in_bytes() {
    assert_eq!(str_bytes(""), 0);
    assert_eq!(str_bytes("abc"), 3);
    assert_eq!(str_bytes("aé日𝄞"), 10);
}
