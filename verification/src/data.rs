//! Messages, channels and the state of the user interface.

use vstd::prelude::*;

use crate::input::Cursor;
use crate::names::NameResolver;

verus! {

/// How far a message got.
#[derive(Clone, Copy, Debug, PartialEq, Eq, Structural)]
pub enum Receipt {
    Nothing,
    Sent,
    Delivered,
    Read,
}

/// The news that a user's message got further.
#[derive(Clone, Copy, Debug, PartialEq, Eq, Structural)]
pub struct ReceiptEvent {
    /// The sender of the message.
    pub uuid: u128,
    /// When the message arrived.
    pub timestamp: u64,
    /// How far it got.
    pub receipt_type: Receipt,
}

impl ReceiptEvent {
    pub fn new(uuid: u128, timestamp: u64, receipt_type: Receipt) -> (e: Self)
        ensures
            e == (ReceiptEvent { uuid, timestamp, receipt_type }),
    {
        ReceiptEvent { uuid, timestamp, receipt_type }
    }
}

/// A file that came with a message.
#[derive(Debug, PartialEq, Eq)]
pub struct Attachment {
    pub id: String,
    pub content_type: String,
    /// The path of the file, as it is displayed.
    pub filename: String,
    pub size: u32,
}

/// A message of a channel.
#[derive(Debug, PartialEq, Eq)]
pub struct Message {
    pub from_id: u128,
    pub message: Option<String>,
    /// Milliseconds since the start of 1970.
    pub arrived_at: u64,
    pub quote: Option<Box<Message>>,
    pub attachments: Vec<Attachment>,
    /// Who reacted, and with which emoji.
    pub reactions: Vec<(u128, String)>,
    pub receipt: Receipt,
}

/// Which entry of a list is selected.
#[derive(Clone, Copy, Debug, PartialEq, Eq, Structural, Default)]
pub struct ListState {
    pub selected: Option<usize>,
}

/// What was drawn last.
#[derive(Clone, Copy, Debug, PartialEq, Eq, Structural, Default)]
pub struct Rendered {
    /// How many of the latest messages lie below the lower edge.
    pub offset: usize,
}

/// The messages of a channel, the latest at the end.
#[derive(Debug, PartialEq, Eq)]
pub struct MessageList {
    pub items: Vec<Message>,
    /// The selected message, counted from the latest.
    pub state: ListState,
    pub rendered: Rendered,
}

/// A channel.
#[derive(Debug, PartialEq, Eq)]
pub struct Channel {
    pub name: String,
    /// The name under which the channel is displayed.
    pub display_name: String,
    /// The people who are writing at the moment, as they are displayed.
    pub writing_people: Option<String>,
    /// The names of the people in the channel.
    pub names: NameResolver,
    pub messages: MessageList,
    pub unread_messages: usize,
}

/// The channels, and those among them that the search leaves.
#[derive(Debug, PartialEq, Eq)]
pub struct ChannelList {
    pub items: Vec<Channel>,
    /// The indices of the channels that are displayed.
    pub filtered_items: Vec<usize>,
    /// The selected channel, as an index into `filtered_items`.
    pub state: ListState,
}

impl ChannelList {
    /// Whether the displayed channels exist.
    pub open spec fn wf(self) -> bool {
        forall|i: int|
            0 <= i < self.filtered_items@.len() ==> (#[trigger] self.filtered_items@[i])
                < self.items@.len()
    }

    /// The index of the channel that is displayed in the selected row, if there is one.
    pub open spec fn shown(self) -> Option<int> {
        match self.state.selected {
            Some(i) if i < self.filtered_items@.len() && self.filtered_items@[i as int]
                < self.items@.len() => Some(self.filtered_items@[i as int] as int),
            _ => None,
        }
    }
}

/// A text that the user is editing.
#[derive(Debug, PartialEq, Eq)]
pub struct BoxData {
    pub data: String,
    pub cursor: Cursor,
}

impl BoxData {
    /// Whether the cursor can move by as many lines and bytes as the text has characters.
    pub open spec fn wf(self) -> bool {
        &&& self.cursor.line + self.data@.len() + 2 <= usize::MAX
        &&& self.cursor.idx + self.data@.len() + 1 <= usize::MAX
    }
}

/// A keyboard shortcut.
#[derive(Debug, PartialEq, Eq)]
pub struct ShortCut {
    pub event: String,
    pub description: String,
}

/// The settings.
#[derive(Clone, Copy, Debug, PartialEq, Eq, Structural)]
pub struct Config {
    pub show_receipts: bool,
}

/// The state of the user interface.
#[derive(Debug, PartialEq, Eq)]
pub struct App {
    pub config: Config,
    pub user_id: u128,
    pub channels: ChannelList,
    pub search_box: BoxData,
    pub input: BoxData,
    pub is_searching: bool,
    pub is_multiline_input: bool,
    pub display_help: bool,
    pub shortcuts: Vec<ShortCut>,
    /// The width of the list of channels when it was last drawn.
    pub channel_text_width: usize,
    /// The receipts that are still to be sent.
    pub receipt_events: Vec<ReceiptEvent>,
}

impl App {
    /// Whether the help is displayed in place of the channels.
    pub fn is_help(&self) -> (b: bool)
        ensures
            b == self.display_help,
    {
        self.display_help
    }

    /// Queues a receipt.
    pub fn add_receipt_event(&mut self, event: ReceiptEvent)
        ensures
            *final(self) == (App { receipt_events: final(self).receipt_events, ..*old(self) }),
            final(self).receipt_events@ == old(self).receipt_events@.push(event),
    {
        self.receipt_events.push(event);
    }
}

} // verus!
