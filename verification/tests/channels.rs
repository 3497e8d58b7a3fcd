use gurk::channels::{draw_channels, label, without_borders};
use gurk::data::{
    App, BoxData, Channel, ChannelList, Config, ListState, MessageList, Rendered,
};
use gurk::input::Cursor;
use gurk::names::NameResolver;
use gurk::widgets::{Color, Rect};
use unicode_width::UnicodeWidthStr;

fn channel(name: &str, unread_messages: usize) -> Channel {
    Channel {
        name: name.to_string(),
        display_name: name.to_string(),
        writing_people: None,
        names: NameResolver::new(vec![], "?".to_string(), Color::Red),
        messages: MessageList {
            items: vec![],
            state: ListState::default(),
            rendered: Rendered::default(),
        },
        unread_messages,
    }
}

fn app(items: Vec<Channel>, filtered_items: Vec<usize>, selected: Option<usize>) -> App {
    let text = || BoxData { data: String::new(), cursor: Cursor::default() };
    App {
        config: Config { show_receipts: true },
        user_id: 0,
        channels: ChannelList { items, filtered_items, state: ListState { selected } },
        search_box: text(),
        input: text(),
        is_searching: false,
        is_multiline_input: false,
        display_help: false,
        shortcuts: vec![],
        channel_text_width: 0,
        receipt_events: vec![],
    }
}

#[test]
fn unread_messages_are_counted() {
    assert_eq!(label(&channel("general", 0), 20), "general");
    assert_eq!(label(&channel("general", 3), 20), "general (3)");
    assert_eq!(label(&channel("general", 3), 11), "general (3)");
    assert_eq!(label(&channel("x", 10), 9), "x (10)");
    assert_eq!(
        label(&channel("x", 12_345_678_901_234_567_890), 99),
        "x (12345678901234567890)"
    );
}

#[test]
fn a_name_without_unread_messages_is_not_cut() {
    assert_eq!(label(&channel("general", 0), 2), "general");
}

#[test]
fn a_long_name_is_cut_in_front_of_the_count() {
    assert_eq!(label(&channel("general", 12), 11), "genera (12)");
    assert_eq!(label(&channel("general", 12), 8), "gen (12)");
    assert_eq!(label(&channel("general", 12), 5), " (12)");
    assert_eq!(label(&channel("general", 12), 0), " (12)");
}

#[test]
fn a_name_is_cut_between_characters() {
    assert_eq!(label(&channel("äöü", 1), 5), "ä (1)");
    assert_eq!(label(&channel("äöü", 1), 6), "ä (1)");
    assert_eq!(label(&channel("日本語", 1), 8), "日本 (1)");
    // a wide character at the cut makes the label one column too wide
    assert_eq!(label(&channel("a日本", 1), 6), "a日 (1)");
}

#[test]
fn the_name_of_the_channel_stands_in_for_a_long_displayed_name() {
    let mut anna = channel("anna-long", 7);
    anna.display_name = "Anna".to_string();
    assert_eq!(label(&anna, 8), "Anna (7)");
    assert_eq!(label(&anna, 6), "anna-lo (7)");
}

#[test]
fn labels_of_narrow_names_fit_the_list() {
    for name in ["", "a", "general", "über alles", "a rather long name"] {
        for unread in [1, 9, 10, 123] {
            let count = format!(" ({unread})").len();
            for width in 0..30 {
                let text = label(&channel(name, unread), width);
                assert!(UnicodeWidthStr::width(text.as_str()) <= width.max(count));
            }
        }
    }
}

#[test]
fn cut_labels_of_ascii_names_fill_the_list() {
    for width in 6..23 {
        let text = label(&channel("a rather long name", 123), width);
        assert_eq!(text.len(), width);
        assert!(text.ends_with(" (123)"));
    }
}

#[test]
fn borders_take_two_cells() {
    assert_eq!(without_borders(0), 0);
    assert_eq!(without_borders(1), 0);
    assert_eq!(without_borders(2), 0);
    assert_eq!(without_borders(3), 1);
    assert_eq!(without_borders(65_535), 65_533);
}

#[test]
fn channels_are_drawn_as_the_search_leaves_them() {
    let items = vec![channel("one", 0), channel("two", 2), channel("three", 33)];
    let mut app = app(items, vec![2, 0], Some(1));
    let area = Rect { x: 0, y: 3, width: 10, height: 7 };
    let panel = draw_channels(&mut app, area);
    assert_eq!(panel.area, area);
    assert_eq!(panel.labels, ["thr (33)", "one"]);
    assert_eq!(panel.selected, Some(1));
    assert_eq!(app.channel_text_width, 8);
    assert_eq!(app.channels.filtered_items, [2, 0]);
}
