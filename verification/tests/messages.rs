use gurk::clock::display_time;
use gurk::data::{Attachment, Message, Receipt};
use gurk::message::{
    add_attachments, add_reactions, compose, display_message, displayed_quote, message_item,
};
use gurk::message_laws::are_signs_narrow;
use gurk::names::{NameEntry, NameResolver};
use gurk::receipts::ShowReceipt;
use gurk::widgets::{Color, ListItem, Span, Spans, Style};

const USER_ID: u128 = 0;

// formatting test options
const PREFIX: &str = "                  ";
const WIDTH: usize = 60;
const HEIGHT: usize = 10;

fn test_attachment() -> Attachment {
    Attachment {
        id: "2022-01-16T11:59:58.405665+00:00".to_string(),
        content_type: "image/jpeg".into(),
        filename: "/tmp/gurk/signal-2022-01-16T11:59:58.405665+00:00.jpg".into(),
        size: 238987,
    }
}

fn name_resolver() -> NameResolver {
    NameResolver::single_user(USER_ID, "boxdot".to_string(), Color::Green)
}

fn test_message() -> Message {
    Message {
        from_id: USER_ID,
        message: None,
        arrived_at: 1642334397421,
        quote: None,
        attachments: vec![],
        reactions: vec![],
        receipt: Receipt::Sent,
    }
}

fn raw(content: &str) -> Span {
    Span::raw(content.to_string())
}

fn styled(content: &str, color: Color) -> Span {
    Span::styled(content.to_string(), Style::default().fg(color))
}

fn header(receipt: &str, msg: &Message) -> Vec<Span> {
    vec![
        styled(receipt, Color::Yellow),
        styled(&display_time(msg.arrived_at), Color::Yellow),
        styled("boxdot", Color::Green),
        raw(": "),
    ]
}

fn first_line(receipt: &str, msg: &Message, text: &str) -> Spans {
    let mut spans = header(receipt, msg);
    spans.push(raw(text));
    Spans(spans)
}

#[test]
fn test_display_attachment_only_message() {
    let names = name_resolver();
    let msg = Message {
        attachments: vec![test_attachment()],
        ..test_message()
    };
    let rendered = display_message(&names, &msg, PREFIX, WIDTH, HEIGHT, ShowReceipt::Never);

    let expected = ListItem {
        lines: vec![
            first_line("", &msg, "<file:///tmp/gurk/signal-2022-01-"),
            Spans(vec![raw("                  16T11:59:58.405665+00:00.jpg>")]),
        ],
    };
    assert_eq!(rendered, Some(expected));
}

#[test]
fn test_display_text_and_attachment_message() {
    let names = name_resolver();
    let msg = Message {
        message: Some("Hello, World!".into()),
        attachments: vec![test_attachment()],
        ..test_message()
    };
    let rendered = display_message(&names, &msg, PREFIX, WIDTH, HEIGHT, ShowReceipt::Never);

    let expected = ListItem {
        lines: vec![
            first_line("", &msg, "Hello, World!"),
            Spans(vec![raw("                  <file:///tmp/gurk/signal-2022-01-")]),
            Spans(vec![raw("                  16T11:59:58.405665+00:00.jpg>")]),
        ],
    };
    assert_eq!(rendered, Some(expected));
}

#[test]
fn test_display_sent_receipt() {
    let names = name_resolver();
    let msg = Message {
        message: Some("Hello, World!".into()),
        receipt: Receipt::Sent,
        ..test_message()
    };
    let show_receipt = ShowReceipt::from_msg(&msg, USER_ID, true);
    let rendered = display_message(&names, &msg, PREFIX, WIDTH, HEIGHT, show_receipt);

    let expected = ListItem {
        lines: vec![first_line("○ ", &msg, "Hello, World!")],
    };
    assert_eq!(rendered, Some(expected));
}

#[test]
fn test_display_received_receipt() {
    let names = name_resolver();
    let msg = Message {
        message: Some("Hello, World!".into()),
        receipt: Receipt::Delivered,
        ..test_message()
    };
    let show_receipt = ShowReceipt::from_msg(&msg, USER_ID, true);
    let rendered = display_message(&names, &msg, PREFIX, WIDTH, HEIGHT, show_receipt);

    let expected = ListItem {
        lines: vec![first_line("◉ ", &msg, "Hello, World!")],
    };
    assert_eq!(rendered, Some(expected));
}

#[test]
fn test_display_delivered_receipt() {
    let names = name_resolver();
    let msg = Message {
        message: Some("Hello, World!".into()),
        receipt: Receipt::Read,
        ..test_message()
    };
    let show_receipt = ShowReceipt::from_msg(&msg, USER_ID, true);
    let rendered = display_message(&names, &msg, PREFIX, WIDTH, HEIGHT, show_receipt);

    let expected = ListItem {
        lines: vec![first_line("● ", &msg, "Hello, World!")],
    };
    assert_eq!(rendered, Some(expected));
}

#[test]
fn test_display_show_receipts_disabled() {
    let names = name_resolver();
    let msg = Message {
        message: Some("Hello, World!".into()),
        receipt: Receipt::Read,
        ..test_message()
    };
    let show_receipt = ShowReceipt::from_msg(&msg, USER_ID, false);
    let rendered = display_message(&names, &msg, PREFIX, WIDTH, HEIGHT, show_receipt);

    let expected = ListItem {
        lines: vec![first_line("", &msg, "Hello, World!")],
    };
    assert_eq!(rendered, Some(expected));
}

#[test]
fn test_display_receipts_for_incoming_message() {
    let user_id = 1;
    let names = NameResolver::single_user(user_id, "boxdot".to_string(), Color::Green);
    let msg = Message {
        from_id: user_id,
        message: Some("Hello, World!".into()),
        receipt: Receipt::Read,
        ..test_message()
    };
    let show_receipt = ShowReceipt::from_msg(&msg, USER_ID, true);
    let rendered = display_message(&names, &msg, PREFIX, WIDTH, HEIGHT, show_receipt);

    let expected = ListItem {
        lines: vec![first_line("  ", &msg, "Hello, World!")],
    };
    assert_eq!(rendered, Some(expected));
}

fn text_message(text: &str) -> Message {
    Message { message: Some(text.into()), ..test_message() }
}

/// The lines of a message, with the contents of their spans one behind the other.
fn lines(item: Option<ListItem>) -> Vec<String> {
    let item = item.expect("the message is displayed");
    let line = |spans: &Spans| spans.0.iter().map(|span| span.content.as_str()).collect();
    item.lines.iter().map(line).collect()
}

fn group() -> NameResolver {
    let entry = |id, name: &str, color| NameEntry { id, name: name.to_string(), color };
    NameResolver::new(
        vec![
            entry(1, "al", Color::Red),
            entry(2, "barbara", Color::Blue),
            entry(3, "日本", Color::Cyan),
            entry(4, "  ", Color::Gray),
            entry(2, "babs", Color::White),
        ],
        "somebody".to_string(),
        Color::Magenta,
    )
}

#[test]
fn names_are_resolved() {
    let names = group();
    assert_eq!(names.resolve(1), ("al", Color::Red));
    assert_eq!(names.resolve(2), ("barbara", Color::Blue));
    assert_eq!(names.resolve(9), ("somebody", Color::Magenta));
    assert_eq!(names.max_name_width(), 7);
    assert_eq!(NameResolver::new(vec![], "x".to_string(), Color::Red).max_name_width(), 0);
    let single = name_resolver();
    assert_eq!(single.resolve(USER_ID), ("boxdot", Color::Green));
    assert_eq!(single.resolve(77), ("boxdot", Color::Green));
    assert_eq!(single.max_name_width(), 6);
}

#[test]
fn no_known_name_is_wider_than_the_widest() {
    let names = group();
    for id in 1..=4 {
        let (name, color) = names.resolve(id);
        let alone = NameResolver::single_user(id, name.to_string(), color);
        assert!(alone.max_name_width() <= names.max_name_width());
    }
}

#[test]
fn names_are_aligned_to_the_right() {
    let names = group();
    let padded = |from_id| {
        let msg = Message { from_id, ..text_message("hi") };
        let item = message_item(&names, &msg, "12:34 ", "  ", 60, 10, ShowReceipt::Never);
        item.expect("the message is displayed").lines[0].0[2].content.clone()
    };
    assert_eq!(padded(1), "     al");
    assert_eq!(padded(2), "barbara");
    assert_eq!(padded(3), "   日本");
    assert_eq!(padded(9), "somebody");
    // nothing is put in front of a name that cannot be seen
    assert_eq!(padded(4), "  ");
}

#[test]
fn white_space_alone_is_not_aligned() {
    for c in '\0'..='\u{3100}' {
        let entry = |id, name: String| NameEntry { id, name, color: Color::Red };
        let entries = vec![entry(1, c.to_string()), entry(2, "widest name".to_string())];
        let names = NameResolver::new(entries, "?".to_string(), Color::Red);
        let msg = Message { from_id: 1, ..text_message("hi") };
        let item = message_item(&names, &msg, "12:34 ", "", 60, 10, ShowReceipt::Never);
        let name = item.expect("the message is displayed").lines[0].0[2].content.clone();
        let padded = name.starts_with("    ") && name.ends_with(c);
        assert_eq!(padded, !c.is_whitespace(), "{c:?}");
        assert_eq!(name == c.to_string(), c.is_whitespace(), "{c:?}");
    }
}

#[test]
fn the_first_line_is_as_broad_as_the_indentation() {
    let names = group();
    // time, widest name, delimiter and receipt
    let prefix = " ".repeat(6 + 7 + 2 + 2);
    for from_id in 1..=3 {
        for receipt in [Receipt::Nothing, Receipt::Sent, Receipt::Delivered, Receipt::Read] {
            let msg = Message { from_id, receipt, ..text_message("one two") };
            let show = ShowReceipt::from_msg(&msg, 1, true);
            let shown = lines(message_item(&names, &msg, "12:34 ", &prefix, 20, 10, show));
            assert_eq!(shown.len(), 2);
            let head = shown[0].strip_suffix("one").expect("the text is at the end");
            let width = NameResolver::single_user(0, head.to_string(), Color::Red);
            assert_eq!(width.max_name_width(), prefix.len());
            assert_eq!(shown[1].strip_prefix(&prefix), Some("two"));
        }
    }
}

#[test]
fn text_is_wrapped_behind_the_indentation() {
    let msg = text_message("aaa bbb ccc");
    let item = message_item(&name_resolver(), &msg, "12:34 ", "    ", 12, 10, ShowReceipt::Never);
    assert_eq!(lines(item), ["12:34 boxdot: aaa bbb", "    ccc"]);
    let msg = text_message("one\n\ntwo");
    let item = message_item(&name_resolver(), &msg, "12:34 ", "  ", 30, 10, ShowReceipt::Never);
    assert_eq!(lines(item), ["12:34 boxdot: one", "  ", "  two"]);
}

#[test]
fn text_without_room_is_still_shown() {
    let msg = text_message("abc");
    let item = message_item(&name_resolver(), &msg, "12:34 ", "    ", 0, 10, ShowReceipt::Never);
    assert_eq!(lines(item).last().map(String::as_str), Some("    c"));
}

#[test]
fn messages_without_content_are_not_shown() {
    let reactions = vec![(1, "+".to_string())];
    let quote = Some(Box::new(text_message("quoted")));
    let msg = Message { reactions, quote, ..test_message() };
    assert_eq!(message_item(&group(), &msg, "12:34 ", "", 60, 10, ShowReceipt::Never), None);
    assert_eq!(display_message(&group(), &msg, "", 60, 0, ShowReceipt::Never), None);
    let msg = text_message("");
    assert_eq!(message_item(&group(), &msg, "12:34 ", "", 60, 0, ShowReceipt::Never), None);
}

#[test]
fn reactions_follow_the_text() {
    let reactions = vec![(1, "👍".to_string()), (2, "❤".to_string())];
    let msg = Message { reactions, ..text_message("hi") };
    let item = message_item(&name_resolver(), &msg, "12:34 ", "  ", 60, 10, ShowReceipt::Never);
    assert_eq!(lines(item), ["12:34 boxdot: hi [👍❤]"]);
    let mut out = "x".to_string();
    add_reactions(&msg, &mut out);
    assert_eq!(out, "x [👍❤]");
    add_reactions(&test_message(), &mut out);
    assert_eq!(out, "x [👍❤]");
}

#[test]
fn attachments_follow_the_text() {
    let file = |name: &str| Attachment { filename: name.to_string(), ..test_attachment() };
    let msg = Message { attachments: vec![file("/a"), file("/b c")], ..test_message() };
    let mut out = String::new();
    add_attachments(&msg, &mut out);
    assert_eq!(out, "<file:///a>\n<file:///b c>");
    let mut out = "text".to_string();
    add_attachments(&msg, &mut out);
    assert_eq!(out, "text\n<file:///a>\n<file:///b c>");
    add_attachments(&test_message(), &mut out);
    assert_eq!(out, "text\n<file:///a>\n<file:///b c>");
}

#[test]
fn quotes_precede_the_text() {
    let quote = Message { from_id: 1, ..text_message("what is it?") };
    assert_eq!(displayed_quote(&group(), &quote), Some("(al) what is it?".to_string()));
    assert_eq!(displayed_quote(&group(), &test_message()), None);

    let gray = Style::default().fg(Color::Rgb(150, 150, 150));
    let gray = |text: &str| Span::styled(text.to_string(), gray);
    let msg = Message { from_id: 2, quote: Some(Box::new(quote)), ..text_message("it") };
    let item = message_item(&group(), &msg, "12:34 ", "  ", 18, 10, ShowReceipt::No);
    let expected = ListItem {
        lines: vec![
            Spans(vec![
                styled("  ", Color::Yellow),
                styled("12:34 ", Color::Yellow),
                styled("barbara", Color::Blue),
                raw(": "),
                gray("> (al) what is"),
            ]),
            Spans(vec![gray("  > it?")]),
            Spans(vec![raw("  it")]),
        ],
    };
    assert_eq!(item, Some(expected));
}

#[test]
fn quotes_without_text_are_left_out() {
    let msg = Message { quote: Some(Box::new(test_message())), ..text_message("it") };
    let item = message_item(&name_resolver(), &msg, "12:34 ", "  ", 60, 10, ShowReceipt::Never);
    assert_eq!(lines(item), ["12:34 boxdot: it"]);
}

#[test]
fn long_messages_are_shortened() {
    let msg = text_message("one\ntwo\nthree");
    let shown = |height| {
        let names = name_resolver();
        lines(message_item(&names, &msg, "12:34 ", "  ", 60, height, ShowReceipt::Never))
    };
    assert_eq!(shown(3), ["12:34 boxdot: one", "  two", "  three"]);
    assert_eq!(shown(2), ["12:34 boxdot: one", "  [...]"]);
    assert_eq!(shown(1), ["  [...]"]);
}

#[test]
fn messages_are_composed_of_given_lines() {
    let strings = |lines: &[&str]| lines.iter().map(|line| line.to_string()).collect::<Vec<_>>();
    let head = || Spans(vec![raw("head: ")]);
    let body = || strings(&["  one", "  two"]);
    let gray = |text: &str| styled(text, Color::Rgb(150, 150, 150));
    assert_eq!(
        compose(head(), None, body(), "  ", 2).lines,
        [Spans(vec![raw("head: "), raw("one")]), Spans(vec![raw("  two")])]
    );
    assert_eq!(
        compose(head(), Some(strings(&["  > a", "  > b"])), body(), "  ", 4).lines,
        [
            Spans(vec![raw("head: "), gray("> a")]),
            Spans(vec![gray("  > b")]),
            Spans(vec![raw("  one")]),
            Spans(vec![raw("  two")]),
        ]
    );
    assert_eq!(
        compose(head(), Some(strings(&["  > a", "  > b"])), body(), "  ", 2).lines,
        [Spans(vec![raw("head: "), gray("> a")]), Spans(vec![raw("  [...]")])]
    );
}

#[test]
fn signs_take_one_column() {
    assert!(are_signs_narrow());
    let time = display_time(1642334397421);
    let width = NameResolver::single_user(0, time, Color::Red).max_name_width();
    assert_eq!(width, 6);
}
