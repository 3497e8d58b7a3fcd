use gurk::chat::{draw_chat, draw_messages, layout_messages, MessagesPanel};
use gurk::clock::LocalTime;
use gurk::data::{
    App, BoxData, Channel, ChannelList, Config, ListState, Message, MessageList, Receipt,
    Rendered,
};
use gurk::draw::DrawError;
use gurk::input::Cursor;
use gurk::names::{NameEntry, NameResolver};
use gurk::viewport::scroll_offset;
use gurk::widgets::{Color, ListItem, Rect, Spans};

const ME: u128 = 1;
const BOB: u128 = 2;
const DAY: i32 = 730_119;

fn message(text: &str) -> Message {
    Message {
        from_id: BOB,
        message: Some(text.to_string()),
        arrived_at: 1_642_334_397_421,
        quote: None,
        attachments: vec![],
        reactions: vec![],
        receipt: Receipt::Delivered,
    }
}

fn channel(texts: &[&str], selected: Option<usize>, offset: usize) -> Channel {
    let bob = NameEntry { id: BOB, name: "bob".to_string(), color: Color::Blue };
    Channel {
        name: "channel".to_string(),
        display_name: "channel".to_string(),
        writing_people: None,
        names: NameResolver::new(vec![bob], "?".to_string(), Color::Red),
        messages: MessageList {
            items: texts.iter().map(|text| message(text)).collect(),
            state: ListState { selected },
            rendered: Rendered { offset },
        },
        unread_messages: 0,
    }
}

fn app(items: Vec<Channel>, filtered_items: Vec<usize>, selected: Option<usize>) -> App {
    let text = || BoxData { data: String::new(), cursor: Cursor::default() };
    App {
        config: Config { show_receipts: false },
        user_id: ME,
        channels: ChannelList { items, filtered_items, state: ListState { selected } },
        search_box: text(),
        input: text(),
        is_searching: false,
        is_multiline_input: false,
        display_help: false,
        shortcuts: vec![],
        channel_text_width: 0,
        receipt_events: vec![],
    }
}

fn area(height: u16) -> Rect {
    Rect { x: 10, y: 0, width: 40, height }
}

/// The last span of the first line of each entry.
fn texts(items: &[ListItem]) -> Vec<String> {
    let last = |spans: &Spans| spans.0.last().map(|span| span.content.clone());
    items.iter().map(|item| last(&item.lines[0]).unwrap_or_default()).collect()
}

fn noon(day: i32) -> LocalTime {
    LocalTime { day, second: 43_200 }
}

/// The entries in an area with room for `height` lines, and the offset of the lowest.
fn laid_out(channel: &Channel, height: u16, days: &[i32]) -> (Vec<String>, usize) {
    let times = days.iter().map(|day| noon(*day)).collect();
    let layout = layout_messages(channel, ME, false, area(height + 2), &times, None);
    (texts(&layout.items), layout.offset)
}

/// The entry of the selected message, and the number of all entries.
fn highlighted(channel: &Channel, height: u16, days: &[i32]) -> (Option<usize>, Vec<String>) {
    let times = days.iter().map(|day| noon(*day)).collect();
    let selected = channel.messages.state.selected;
    let layout = layout_messages(channel, ME, false, area(height + 2), &times, selected);
    (layout.selected, texts(&layout.items))
}

#[test]
fn drawing_starts_near_the_selection() {
    assert_eq!(scroll_offset(None, 5, 3), 5);
    assert_eq!(scroll_offset(Some(2), 5, 3), 2);
    assert_eq!(scroll_offset(Some(5), 5, 3), 5);
    assert_eq!(scroll_offset(Some(6), 5, 3), 5);
    assert_eq!(scroll_offset(Some(8), 5, 3), 5);
    assert_eq!(scroll_offset(Some(9), 5, 3), 6);
    assert_eq!(scroll_offset(Some(usize::MAX), 0, 1), usize::MAX - 1);
}

#[test]
fn the_offset_reaches_the_selection() {
    for selected in 0..20 {
        for rendered in 0..20 {
            for height in 0..10 {
                let offset = scroll_offset(Some(selected), rendered, height);
                assert!(offset <= selected && selected <= offset + height);
            }
        }
    }
}

#[test]
fn the_latest_messages_fill_the_page() {
    let c = channel(&["a", "b", "c", "d", "e"], None, 0);
    assert_eq!(laid_out(&c, 3, &[DAY; 5]), (vec!["e".into(), "d".into(), "c".into()], 0));
    let (all, _) = laid_out(&c, 9, &[DAY; 5]);
    assert_eq!(all, ["e", "d", "c", "b", "a"]);
}

#[test]
fn the_page_starts_at_the_last_offset() {
    let c = channel(&["a", "b", "c", "d", "e"], None, 2);
    assert_eq!(laid_out(&c, 2, &[DAY; 3]), (vec!["c".into(), "b".into()], 2));
    let beyond = channel(&["a", "b"], None, 7);
    assert_eq!(laid_out(&beyond, 2, &[]), (vec![], 7));
}

#[test]
fn the_page_moves_up_to_the_selection() {
    let c = channel(&["a", "b", "c", "d", "e"], Some(4), 0);
    let expected = (vec!["c".into(), "b".into(), "a".into()], 2);
    assert_eq!(laid_out(&c, 3, &[DAY; 4]), expected);
    // one that is on the page already stays in its place
    let c = channel(&["a", "b", "c", "d", "e"], Some(2), 0);
    let expected = (vec!["e".into(), "d".into(), "c".into()], 0);
    assert_eq!(laid_out(&c, 3, &[DAY; 5]), expected);
}

#[test]
fn high_messages_push_the_lower_ones_off_the_page() {
    let c = channel(&["top", "1\n1\n1", "2\n2", "3"], Some(2), 0);
    // three lines of the selected message and two below it
    assert_eq!(laid_out(&c, 5, &[DAY; 4]), (vec!["2".into(), "1".into()], 1));
    assert_eq!(laid_out(&c, 6, &[DAY; 4]), (vec!["3".into(), "2".into(), "1".into()], 0));
    assert_eq!(laid_out(&c, 3, &[DAY; 4]), (vec!["1".into()], 2));
}

#[test]
fn no_page_holds_more_lines_than_it_is_high() {
    let list = ["a", "1\n1\n1", "b", "2\n2", "4\n4\n4\n4", "c", "3\n3\n3"];
    for selected in 0..list.len() {
        for height in 1..12u16 {
            let c = channel(&list, Some(selected), 0);
            let n = list.len() - scroll_offset(Some(selected), 0, usize::from(height));
            let times = vec![noon(DAY); n];
            let layout = layout_messages(&c, ME, false, area(height + 2), &times, None);
            let lines: usize = layout.items.iter().map(|item| item.height()).sum();
            assert!(lines <= usize::from(height));
            // the selection is on the page
            let offset = layout.offset;
            assert!(offset <= selected && selected < offset + layout.items.len());
        }
    }
}

#[test]
fn no_message_is_left_out_that_fits() {
    let list = ["a", "1\n1\n1", "b", "2\n2", "4\n4\n4\n4", "c", "3\n3\n3"];
    let heights = [3, 1, 4, 2, 1, 3, 1];
    for height in 4..20u16 {
        let (items, offset) = laid_out(&channel(&list, None, 0), height, &[DAY; 7]);
        assert_eq!(offset, 0);
        let taken: u16 = heights[..items.len()].iter().sum();
        assert!(taken <= height);
        assert!(items.len() == heights.len() || taken + heights[items.len()] > height);
    }
}

#[test]
fn pages_settle_after_one_drawing() {
    let list = ["a", "1\n1\n1", "b", "2\n2", "4\n4\n4\n4", "c", "3\n3\n3"];
    for selected in 0..list.len() {
        for height in 1..12u16 {
            let mut c = channel(&list, Some(selected), 0);
            let n = list.len() - scroll_offset(Some(selected), 0, usize::from(height));
            let (first, offset) = laid_out(&c, height, &vec![DAY; n]);
            c.messages.rendered.offset = offset;
            let (second, again) = laid_out(&c, height, &vec![DAY; list.len() - offset]);
            assert_eq!(again, offset);
            assert_eq!(second[..first.len()], first[..]);
        }
    }
}

#[test]
fn days_are_divided() {
    let c = channel(&["a", "b", "c"], None, 0);
    let (items, offset) = laid_out(&c, 9, &[DAY, DAY - 1, DAY - 1]);
    let line = "========= Thursday, 12/30/99 =========";
    assert_eq!(items, ["c", line, "b", "a"]);
    assert_eq!(offset, 0);
    // a line that does not fit ends the page
    let (items, _) = laid_out(&c, 1, &[DAY, DAY - 1, DAY - 1]);
    assert_eq!(items, ["c"]);
}

#[test]
fn messages_without_content_take_no_entry() {
    let c = channel(&["a", "", "c"], None, 0);
    let (items, _) = laid_out(&c, 9, &[DAY; 3]);
    assert_eq!(items, ["c", "a"]);
}

#[test]
fn unread_messages_are_set_apart() {
    let mut c = channel(&["a", "b", "c"], None, 0);
    let line = "-----------new messages---------------------------";
    for (unread, expected) in [
        (0, vec!["c", "b", "a"]),
        (1, vec!["c", line, "b", "a"]),
        (2, vec!["c", "b", line, "a"]),
        (3, vec!["c", "b", "a"]),
        (9, vec!["c", "b", "a"]),
    ] {
        c.unread_messages = unread;
        let (items, _) = laid_out(&c, 9, &[DAY; 3]);
        assert_eq!(items, expected);
    }
}

#[test]
fn messages_show_their_clock() {
    let c = channel(&["a"], None, 0);
    let layout = layout_messages(&c, ME, true, area(9), &vec![noon(DAY)], None);
    let spans: Vec<&str> = layout.items[0].lines[0].0.iter().map(|s| s.content.as_str()).collect();
    assert_eq!(spans, ["  ", "12:00 ", "bob", ": ", "a"]);
}

#[test]
fn a_selection_above_a_date_line_is_highlighted() {
    let c = channel(&["old", "new"], Some(1), 0);
    let line = "========= Tuesday, 12/28/99 ==========";
    let (selected, items) = highlighted(&c, 9, &[DAY, DAY - 3]);
    assert_eq!(items, ["new", line, "old"]);
    assert_eq!(selected, Some(2));
    // the line below it is not
    let c = channel(&["old", "new"], Some(0), 0);
    assert_eq!(highlighted(&c, 9, &[DAY, DAY - 3]).0, Some(0));
}

#[test]
fn date_lines_do_not_count_as_messages() {
    let days = [DAY, DAY - 1, DAY - 2];
    let mut c = channel(&["a", "b", "c"], Some(2), 0);
    let line = "======== Wednesday, 12/29/99 =========";
    let (selected, items) = highlighted(&c, 3, &days);
    assert_eq!(items, ["b", line, "a"]);
    assert_eq!(selected, Some(2));
    c.messages.rendered.offset = laid_out(&c, 3, &days).1;
    assert_eq!(c.messages.rendered.offset, 1);
    assert_eq!(highlighted(&c, 3, &days[1..]), (selected, items));

    // a line at the lower edge is left out when the messages are drawn again
    c.messages.rendered.offset = 0;
    let (selected, items) = highlighted(&c, 2, &days);
    assert_eq!(items, [line, "a"]);
    assert_eq!(selected, Some(1));
    c.messages.rendered.offset = laid_out(&c, 2, &days).1;
    assert_eq!(c.messages.rendered.offset, 2);
    assert_eq!(highlighted(&c, 2, &days[2..]), (Some(0), vec!["a".to_string()]));
}

#[test]
fn messages_without_content_do_not_shift_the_highlight() {
    let c = channel(&["a", "", "c"], Some(2), 0);
    assert_eq!(highlighted(&c, 9, &[DAY; 3]), (Some(1), vec!["c".into(), "a".into()]));
    // one without an entry shares that of the message below
    let c = channel(&["a", "", "c"], Some(1), 0);
    assert_eq!(highlighted(&c, 9, &[DAY; 3]).0, Some(0));
    let c = channel(&["a", ""], Some(0), 0);
    assert_eq!(highlighted(&c, 9, &[DAY; 2]), (Some(0), vec!["a".into()]));
    let c = channel(&[""], Some(0), 0);
    assert_eq!(highlighted(&c, 9, &[DAY]), (Some(0), vec![]));
    // the latest one without content does not move the offset
    let c = channel(&["a", ""], None, 0);
    assert_eq!(laid_out(&c, 9, &[DAY; 2]).1, 0);
}

#[test]
fn the_unread_line_does_not_shift_the_highlight() {
    for (unread, expected) in [(0, [0, 1, 2]), (1, [0, 2, 3]), (2, [0, 1, 3]), (3, [0, 1, 2])] {
        for (selected, entry) in expected.iter().enumerate() {
            let mut c = channel(&["a", "b", "c"], Some(selected), 0);
            c.unread_messages = unread;
            let (highlight, items) = highlighted(&c, 9, &[DAY; 3]);
            assert_eq!(highlight, Some(*entry));
            assert_eq!(items[*entry], ["c", "b", "a"][selected]);
        }
    }
}

#[test]
fn the_selected_message_is_always_drawn_and_highlighted() {
    let list = ["a\na", "b", "c\nc\nc", "", "d", "e\ne", "f", "g"];
    let days = [DAY, DAY, DAY - 1, DAY - 1, DAY - 3, DAY - 4, DAY - 4, DAY - 9];
    for selected in (0..list.len()).filter(|s| *s != 4) {
        for height in 3..15u16 {
            for unread in 0..6 {
                for rendered in 0..list.len() {
                    let mut c = channel(&list, Some(selected), rendered);
                    c.unread_messages = unread;
                    let text = list[list.len() - 1 - selected].split('\n').next();
                    let height_lines = usize::from(height);
                    let first = scroll_offset(Some(selected), rendered, height_lines);
                    let (highlight, items) = highlighted(&c, height, &days[first..]);
                    let entry = highlight.and_then(|e| items.get(e));
                    assert_eq!(entry.map(String::as_str), text);
                    // and the offset stays where it is
                    let (_, offset) = laid_out(&c, height, &days[first..]);
                    c.messages.rendered.offset = offset;
                    assert_eq!(laid_out(&c, height, &days[offset..]).1, offset);
                    let (highlight, items) = highlighted(&c, height, &days[offset..]);
                    let entry = highlight.and_then(|e| items.get(e));
                    assert_eq!(entry.map(String::as_str), text);
                }
            }
        }
    }
}

#[test]
fn selections_beyond_the_messages_highlight_nothing() {
    let mut c = channel(&["a", "b"], Some(9), 0);
    assert_eq!(highlighted(&c, 12, &[DAY; 2]), (Some(9), vec!["b".into(), "a".into()]));
    c.unread_messages = 1;
    let (selected, items) = highlighted(&c, 12, &[DAY; 2]);
    assert_eq!((selected, items.len()), (Some(10), 3));
    let c = channel(&["a", "b"], Some(usize::MAX), 0);
    let (selected, items) = highlighted(&c, 12, &[]);
    assert_eq!((selected, items.len()), (Some(12), 0));
}

#[test]
fn selections_above_the_page_highlight_nothing() {
    let c = channel(&["a", "b", "c", "d"], None, 0);
    for days in [[DAY; 4], [DAY, DAY - 1, DAY - 2, DAY - 3]] {
        for selected in 0..9 {
            let times = days.iter().map(|day| noon(*day)).collect();
            let layout = layout_messages(&c, ME, false, area(4), &times, Some(selected));
            let entry = layout.selected.and_then(|e| layout.items.get(e));
            let text = entry.map(|item| texts(std::slice::from_ref(item)).remove(0));
            let drawn = texts(&layout.items);
            let expected = ["d", "c", "b", "a"].get(selected).map(|t| t.to_string());
            assert_eq!(text, expected.filter(|t| drawn.contains(t)));
        }
    }
    let times = vec![noon(DAY); 4];
    let layout = layout_messages(&c, ME, false, area(4), &times, Some(3));
    assert_eq!(layout.selected, Some(3));
}

#[test]
fn times_are_only_needed_of_the_messages_that_are_reached() {
    let c = channel(&["a", "b", "c", "d"], None, 0);
    let all = laid_out(&c, 1, &[DAY; 4]);
    assert_eq!(laid_out(&c, 1, &[DAY; 2]), all);
    assert_eq!(laid_out(&c, 9, &[DAY; 2]).0, ["d", "c"]);
}

fn drawn(app: &mut App, height: u16) -> MessagesPanel {
    match draw_messages(app, area(height + 2)) {
        Ok(Some(panel)) => panel,
        other => panic!("{other:?}"),
    }
}

#[test]
fn drawing_messages_reads_them_and_stores_the_offset() {
    let c = channel(&["a", "b", "c", "d", "e"], Some(4), 0);
    let mut app = app(vec![c], vec![0], Some(0));
    let panel = drawn(&mut app, 3);
    assert_eq!(panel.area, area(5));
    assert_eq!(panel.title, "Messages");
    assert_eq!(texts(&panel.items), ["c", "b", "a"]);
    assert_eq!(panel.selected, Some(2));
    let list = &app.channels.items[0].messages;
    assert_eq!(list.rendered.offset, 2);
    assert_eq!(list.state.selected, Some(4));
    // the message below the first offset is not read
    assert_eq!(app.receipt_events.len(), 4);
    assert_eq!(list.items[4].receipt, Receipt::Delivered);
    assert_eq!(list.items[3].receipt, Receipt::Read);
}

#[test]
fn drawing_highlights_the_selected_message_above_a_date_line() {
    let mut c = channel(&["old", "new"], Some(1), 0);
    c.messages.items[1].arrived_at += 3 * 24 * 60 * 60 * 1000;
    let mut app = app(vec![c], vec![0], Some(0));
    let panel = drawn(&mut app, 9);
    let entries = texts(&panel.items);
    assert_eq!(entries.len(), 3);
    assert_eq!((entries[0].as_str(), entries[2].as_str()), ("new", "old"));
    assert_eq!(panel.selected, Some(2));
    // on a page of one line only the selected message is left, and the offset is its own
    let panel = drawn(&mut app, 1);
    assert_eq!(texts(&panel.items), ["old"]);
    assert_eq!(panel.selected, Some(0));
    assert_eq!(app.channels.items[0].messages.rendered.offset, 1);
    assert_eq!(app.receipt_events.len(), 2);
}

#[test]
fn drawing_again_sends_nothing_and_moves_nothing() {
    let c = channel(&["a", "b", "c", "d", "e"], Some(4), 0);
    let mut app = app(vec![c], vec![0], Some(0));
    let first = drawn(&mut app, 3);
    let second = drawn(&mut app, 3);
    assert_eq!(app.receipt_events.len(), 4);
    assert_eq!(second, first);
}

#[test]
fn the_title_tells_who_is_writing() {
    let mut c = channel(&["a"], None, 0);
    c.writing_people = Some("[bob] writing...".to_string());
    let mut app = app(vec![c], vec![0], Some(0));
    let panel = drawn(&mut app, 3);
    assert_eq!(panel.title, "Messages [bob] writing...");
    assert_eq!(panel.selected, None);
}

#[test]
fn nothing_is_drawn_without_room_or_messages() {
    let mut low = app(vec![channel(&["a"], None, 0)], vec![0], Some(0));
    assert_eq!(draw_messages(&mut low, area(2)), Ok(None));
    assert!(low.receipt_events.is_empty());
    let mut none = app(vec![channel(&["a"], None, 0)], vec![0], None);
    assert_eq!(draw_messages(&mut none, area(9)), Ok(None));
    assert!(none.receipt_events.is_empty());
    let mut empty = app(vec![channel(&[], None, 0)], vec![0], Some(0));
    assert_eq!(draw_messages(&mut empty, area(9)), Ok(None));
}

#[test]
fn the_search_displays_another_channel_in_the_selected_row() {
    let mut app = app(
        vec![channel(&["a", "b"], None, 0), channel(&["x", "y"], None, 1)],
        vec![1],
        Some(0),
    );
    let panel = drawn(&mut app, 5);
    assert_eq!(texts(&panel.items), ["x"]);
    // what is read and where the offset is stored goes by the index of the row
    assert_eq!(app.channels.items[0].messages.rendered.offset, 1);
    assert_eq!(app.channels.items[1].messages.items[0].receipt, Receipt::Delivered);
    assert_eq!(app.channels.items[0].messages.items[0].receipt, Receipt::Read);
}

#[test]
fn nothing_is_drawn_of_a_missing_channel() {
    let mut app = app(vec![channel(&["a"], None, 0)], vec![5], Some(0));
    assert_eq!(draw_messages(&mut app, area(9)), Ok(None));
    // what is read goes by the index of the row
    assert_eq!(app.receipt_events.len(), 1);
    app.channels.filtered_items = vec![0, 5];
    app.channels.state.selected = Some(1);
    assert_eq!(draw_messages(&mut app, area(9)), Ok(None));
    assert_eq!(app.receipt_events.len(), 1);
}

#[test]
fn messages_below_the_offset_may_be_of_any_time() {
    let mut c = channel(&["a", "b"], None, 1);
    c.messages.items[1].arrived_at = u64::MAX;
    let mut app = app(vec![c], vec![0], Some(0));
    assert_eq!(texts(&drawn(&mut app, 5).items), ["a"]);
}

#[test]
fn messages_above_the_page_may_be_of_any_time() {
    let mut c = channel(&["a", "b", "c"], None, 0);
    c.messages.items[0].arrived_at = u64::MAX;
    let mut app = app(vec![c], vec![0], Some(0));
    assert_eq!(texts(&drawn(&mut app, 1).items), ["c"]);
    // where all below it fits, the message is looked at
    assert_eq!(draw_messages(&mut app, area(4)), Err(DrawError::OffCalendar));
    assert_eq!(draw_chat(&mut app, area(7)), Err(DrawError::OffCalendar));
    assert_eq!(app.channels.items[0].messages.rendered.offset, 0);
}

#[test]
fn messages_of_other_channels_may_be_of_any_time() {
    let mut other = channel(&["x"], None, 0);
    other.messages.items[0].arrived_at = u64::MAX;
    let mut app = app(vec![channel(&["a"], None, 0), other], vec![0, 1], Some(0));
    assert_eq!(texts(&drawn(&mut app, 5).items), ["a"]);
}

#[test]
fn a_selection_below_the_edge_cannot_be_drawn() {
    let many = ["1", "2", "3", "4", "5", "6", "7"];
    let mut app = app(
        vec![channel(&["a"], Some(0), 0), channel(&many, Some(5), 5)],
        vec![1],
        Some(0),
    );
    assert_eq!(draw_messages(&mut app, area(9)), Err(DrawError::SelectionOffScreen));
    assert_eq!(draw_chat(&mut app, area(20)), Err(DrawError::SelectionOffScreen));
    assert_eq!(app.channels.items[0].messages.rendered.offset, 0);
}

#[test]
fn the_box_to_answer_is_at_the_bottom() {
    let mut app = app(vec![channel(&["a"], None, 0)], vec![0], Some(0));
    app.input.data = "two\nlines".to_string();
    app.input.cursor = Cursor { line: 1, col: 2, idx: 6 };
    let (messages, input) = draw_chat(&mut app, area(20)).unwrap_or_else(|e| panic!("{e:?}"));
    assert_eq!(messages.map(|panel| panel.area), Some(Rect { height: 16, ..area(20) }));
    assert_eq!(input.area, Rect { y: 16, height: 4, ..area(20) });
    assert_eq!(input.title, "Input");
    assert_eq!(input.text, "two\nlines");
    assert_eq!(input.cursor, Some((13, 18)));

    app.is_searching = true;
    app.is_multiline_input = true;
    let (_, input) = draw_chat(&mut app, area(20)).unwrap_or_else(|e| panic!("{e:?}"));
    assert_eq!(input.title, "Input (Multiline)");
    assert_eq!(input.cursor, None);
}
