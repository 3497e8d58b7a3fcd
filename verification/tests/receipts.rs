use gurk::data::{
    App, BoxData, Channel, ChannelList, Config, ListState, Message, MessageList, Receipt,
    ReceiptEvent, Rendered,
};
use gurk::data::Receipt::{Delivered, Nothing, Read, Sent};
use gurk::input::Cursor;
use gurk::names::NameResolver;
use gurk::receipts::{display_receipt, prepare_receipts, ShowReceipt, RECEIPT_WIDTH};
use gurk::widgets::Color;

const ME: u128 = 1;
const BOB: u128 = 2;
const EVE: u128 = 3;

fn message(from_id: u128, arrived_at: u64, receipt: Receipt) -> Message {
    Message {
        from_id,
        message: Some("hi".to_string()),
        arrived_at,
        quote: None,
        attachments: vec![],
        reactions: vec![],
        receipt,
    }
}

fn channel(items: Vec<Message>, selected: Option<usize>, offset: usize) -> Channel {
    Channel {
        name: "channel".to_string(),
        display_name: "channel".to_string(),
        writing_people: None,
        names: NameResolver::new(vec![], "?".to_string(), Color::Red),
        messages: MessageList {
            items,
            state: ListState { selected },
            rendered: Rendered { offset },
        },
        unread_messages: 0,
    }
}

fn app(items: Vec<Channel>, selected: Option<usize>) -> App {
    let text = || BoxData { data: String::new(), cursor: Cursor::default() };
    let filtered_items = (0..items.len()).collect();
    App {
        config: Config { show_receipts: true },
        user_id: ME,
        channels: ChannelList { items, filtered_items, state: ListState { selected } },
        search_box: text(),
        input: text(),
        is_searching: false,
        is_multiline_input: false,
        display_help: false,
        shortcuts: vec![],
        channel_text_width: 0,
        receipt_events: vec![],
    }
}

fn conversation() -> Vec<Message> {
    vec![
        message(BOB, 10, Receipt::Delivered),
        message(ME, 11, Receipt::Delivered),
        message(EVE, 12, Receipt::Delivered),
        message(BOB, 13, Receipt::Read),
        message(BOB, 14, Receipt::Nothing),
        message(BOB, 15, Receipt::Sent),
        message(BOB, 16, Receipt::Delivered),
    ]
}

fn receipts(app: &App, channel: usize) -> Vec<Receipt> {
    app.channels.items[channel].messages.items.iter().map(|m| m.receipt).collect()
}

fn read(uuid: u128, timestamp: u64) -> ReceiptEvent {
    ReceiptEvent { uuid, timestamp, receipt_type: Receipt::Read }
}

#[test]
fn receipts_have_signs() {
    assert_eq!(display_receipt(Receipt::Nothing, ShowReceipt::Yes), "  ");
    assert_eq!(display_receipt(Receipt::Sent, ShowReceipt::Yes), "○ ");
    assert_eq!(display_receipt(Receipt::Delivered, ShowReceipt::Yes), "◉ ");
    assert_eq!(display_receipt(Receipt::Read, ShowReceipt::Yes), "● ");
    assert_eq!(display_receipt(Receipt::Read, ShowReceipt::No), "  ");
    assert_eq!(display_receipt(Receipt::Read, ShowReceipt::Never), "");
}

#[test]
fn signs_are_equally_broad() {
    let all = [Receipt::Nothing, Receipt::Sent, Receipt::Delivered, Receipt::Read];
    for receipt in all {
        for show in [ShowReceipt::Yes, ShowReceipt::No] {
            let names = NameResolver::single_user(
                ME,
                display_receipt(receipt, show).to_string(),
                Color::Red,
            );
            assert_eq!(names.max_name_width(), RECEIPT_WIDTH);
        }
    }
}

#[test]
fn receipts_are_shown_of_own_messages() {
    let mine = message(ME, 1, Receipt::Sent);
    let other = message(BOB, 1, Receipt::Sent);
    assert_eq!(ShowReceipt::from_msg(&mine, ME, true), ShowReceipt::Yes);
    assert_eq!(ShowReceipt::from_msg(&other, ME, true), ShowReceipt::No);
    assert_eq!(ShowReceipt::from_msg(&mine, ME, false), ShowReceipt::Never);
    assert_eq!(ShowReceipt::from_msg(&other, ME, false), ShowReceipt::Never);
}

#[test]
fn read_messages_are_acknowledged_from_the_latest_on() {
    let mut app = app(vec![channel(conversation(), None, 0)], Some(0));
    prepare_receipts(&mut app, 10);
    assert_eq!(app.receipt_events, [read(BOB, 16), read(EVE, 12), read(BOB, 10)]);
    assert_eq!(receipts(&app, 0), [Read, Delivered, Read, Read, Nothing, Sent, Read]);
}

#[test]
fn receipts_are_sent_once() {
    let mut app = app(vec![channel(conversation(), None, 0)], Some(0));
    app.receipt_events.push(read(EVE, 1));
    prepare_receipts(&mut app, 10);
    assert_eq!(app.receipt_events.len(), 4);
    assert_eq!(app.receipt_events[0], read(EVE, 1));
    prepare_receipts(&mut app, 10);
    assert_eq!(app.receipt_events.len(), 4);
}

#[test]
fn messages_below_the_edge_are_not_acknowledged() {
    let mut app = app(vec![channel(conversation(), None, 5)], Some(0));
    prepare_receipts(&mut app, 10);
    assert_eq!(app.receipt_events, [read(BOB, 10)]);
    assert_eq!(receipts(&app, 0), [Read, Delivered, Delivered, Read, Nothing, Sent, Delivered]);
    assert_eq!(app.channels.items[0].messages.rendered.offset, 5);
}

#[test]
fn the_selected_message_moves_the_edge() {
    // the selection is below the edge
    let mut lower = app(vec![channel(conversation(), Some(4), 6)], Some(0));
    prepare_receipts(&mut lower, 10);
    assert_eq!(lower.receipt_events, [read(EVE, 12), read(BOB, 10)]);
    // the selection is too far above the edge
    let mut upper = app(vec![channel(conversation(), Some(6), 0)], Some(0));
    prepare_receipts(&mut upper, 2);
    assert_eq!(upper.receipt_events, [read(EVE, 12), read(BOB, 10)]);
}

#[test]
fn reading_changes_neither_selections_nor_looks() {
    let mut app = app(vec![channel(conversation(), Some(4), 6)], Some(0));
    let signs = |app: &App| -> Vec<&'static str> {
        let items = &app.channels.items[0].messages.items;
        let sign = |msg| (ShowReceipt::from_msg(msg, ME, true), msg.receipt);
        items.iter().map(sign).map(|(show, receipt)| display_receipt(receipt, show)).collect()
    };
    let before = signs(&app);
    prepare_receipts(&mut app, 10);
    assert_eq!(signs(&app), before);
    assert_eq!(app.receipt_events.len(), 2);
    assert!(app.receipt_events.iter().all(|event| event.uuid != ME));
    let list = &app.channels.items[0].messages;
    assert_eq!((list.state.selected, list.rendered.offset), (Some(4), 6));
    assert_eq!(app.channels.state.selected, Some(0));
}

#[test]
fn only_the_selected_channel_is_read() {
    let both = vec![channel(conversation(), None, 0), channel(conversation(), None, 0)];
    let mut app = app(both, Some(1));
    prepare_receipts(&mut app, 10);
    assert_eq!(receipts(&app, 0)[6], Receipt::Delivered);
    assert_eq!(receipts(&app, 1)[6], Receipt::Read);
    assert_eq!(app.receipt_events.len(), 3);
}

#[test]
fn nothing_is_read_without_a_selected_channel() {
    for selected in [None, Some(1)] {
        let mut app = app(vec![channel(conversation(), None, 0)], selected);
        prepare_receipts(&mut app, 10);
        assert!(app.receipt_events.is_empty());
        assert_eq!(receipts(&app, 0)[6], Receipt::Delivered);
    }
}

#[test]
fn an_offset_beyond_the_messages_leaves_them_alone() {
    let mut app = app(vec![channel(conversation(), None, 100)], Some(0));
    prepare_receipts(&mut app, 10);
    assert!(app.receipt_events.is_empty());
}
