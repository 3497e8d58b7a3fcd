//! Receipts: how far messages got.

use vstd::prelude::*;

use crate::bounds::max;
use crate::data::{App, Channel, ChannelList, Message, MessageList, Receipt, ReceiptEvent};
use crate::viewport::{scroll_offset, start_offset};

verus! {

/// The columns that a receipt takes.
pub const RECEIPT_WIDTH: usize = 2;

/// Ternary state whether to show the receipt of a message.
#[derive(Clone, Copy, Debug, PartialEq, Eq, Structural)]
pub enum ShowReceipt {
    /// Show the receipt of this message.
    Yes,
    /// Don't show the receipt of this message.
    No,
    /// Don't show the receipt of any message.
    Never,
}

/// Whether to show the receipt of a message: only where receipts are shown at all, and only of
/// the user's own messages.
pub open spec fn receipt_shown(msg: Message, user_id: u128, show_receipts: bool) -> ShowReceipt {
    if !show_receipts {
        ShowReceipt::Never
    } else if msg.from_id == user_id {
        ShowReceipt::Yes
    } else {
        ShowReceipt::No
    }
}

impl ShowReceipt {
    /// Whether to show the receipt of a message to a user.
    pub fn from_msg(msg: &Message, user_id: u128, config_show_receipts: bool) -> (show: Self)
        ensures
            show == receipt_shown(*msg, user_id, config_show_receipts),
    {
        if config_show_receipts {
            if user_id == msg.from_id {
                Self::Yes
            } else {
                Self::No
            }
        } else {
            Self::Never
        }
    }
}

/// The sign of a receipt.
pub open spec fn receipt_sign(receipt: Receipt, show: ShowReceipt) -> Seq<char> {
    match show {
        ShowReceipt::Never => Seq::empty(),
        ShowReceipt::No => seq![' ', ' '],
        ShowReceipt::Yes => match receipt {
            Receipt::Nothing => seq![' ', ' '],
            Receipt::Sent => seq!['○', ' '],
            Receipt::Delivered => seq!['◉', ' '],
            Receipt::Read => seq!['●', ' '],
        },
    }
}

/// The sign of a receipt.
pub fn display_receipt(receipt: Receipt, show: ShowReceipt) -> (sign: &'static str)
    ensures
        sign@ == receipt_sign(receipt, show),
{
    proof {
        reveal_strlit("  ");
        reveal_strlit("○ ");
        reveal_strlit("◉ ");
        reveal_strlit("● ");
        reveal_strlit("");
    }
    let sign: &'static str = match (show, receipt) {
        (ShowReceipt::Yes, Receipt::Nothing) => "  ",
        (ShowReceipt::Yes, Receipt::Sent) => "○ ",
        (ShowReceipt::Yes, Receipt::Delivered) => "◉ ",
        (ShowReceipt::Yes, Receipt::Read) => "● ",
        (ShowReceipt::No, _) => "  ",
        (ShowReceipt::Never, _) => "",
    };
    assert(sign@ =~= receipt_sign(receipt, show));
    sign
}

/// Whether a message reached the user, but its sender was not yet told that it was read.
pub open spec fn awaits_receipt(msg: Message, user_id: u128) -> bool {
    msg.receipt == Receipt::Delivered && msg.from_id != user_id
}

/// A message after the user saw it.
pub open spec fn seen(msg: Message, user_id: u128) -> Message {
    if awaits_receipt(msg, user_id) {
        Message { receipt: Receipt::Read, ..msg }
    } else {
        msg
    }
}

/// The receipts that tell the senders of the messages that these were read, for the latest
/// message first.
pub open spec fn read_receipts(messages: Seq<Message>, user_id: u128) -> Seq<ReceiptEvent>
    decreases messages.len(),
{
    if messages.len() == 0 {
        Seq::empty()
    } else {
        let msg = messages.last();
        (if awaits_receipt(msg, user_id) {
            seq![
                ReceiptEvent {
                    uuid: msg.from_id,
                    timestamp: msg.arrived_at,
                    receipt_type: Receipt::Read,
                },
            ]
        } else {
            Seq::empty()
        }) + read_receipts(messages.drop_last(), user_id)
    }
}

/// The number of messages of a channel that do not lie below the lower edge.
pub open spec fn messages_from_offset(list: MessageList, height: nat) -> int {
    max(
        list.items@.len() - start_offset(list.state.selected, list.rendered.offset as nat, height),
        0,
    )
}

/// Whether two states differ in nothing but the messages of one channel and the queued receipts.
pub open spec fn same_but_messages(a: App, b: App, idx: int) -> bool {
    let x = a.channels.items@[idx];
    let y = b.channels.items@[idx];
    &&& b == App { channels: b.channels, receipt_events: b.receipt_events, ..a }
    &&& b.channels == ChannelList { items: b.channels.items, ..a.channels }
    &&& b.channels.items@ == a.channels.items@.update(idx, y)
    &&& y == Channel { messages: MessageList { items: y.messages.items, ..x.messages }, ..x }
}

/// What preparing the receipts makes of a state.
///
/// In the selected channel all messages but those below the lower edge are now read, and a
/// receipt is queued for each that was not.
pub open spec fn receipts_prepared(a: App, b: App, height: nat) -> bool {
    match a.channels.state.selected {
        Some(i) if i < a.channels.items@.len() => {
            let before = a.channels.items@[i as int].messages;
            let after = b.channels.items@[i as int].messages;
            let n = messages_from_offset(before, height);
            &&& same_but_messages(a, b, i as int)
            &&& after.items@.len() == before.items@.len()
            &&& forall|j: int|
                #![trigger after.items@[j]]
                0 <= j < n ==> after.items@[j] == seen(before.items@[j], a.user_id)
            &&& forall|j: int|
                #![trigger after.items@[j]]
                n <= j < before.items@.len() ==> after.items@[j] == before.items@[j]
            &&& b.receipt_events@ == a.receipt_events@ + read_receipts(
                before.items@.take(n),
                a.user_id,
            )
        },
        _ => b == a,
    }
}

/// Marks the messages of the selected channel as read and queues a receipt for each that was not.
pub fn prepare_receipts(app: &mut App, height: usize)
    ensures
        receipts_prepared(*old(app), *final(app), height as nat),
{
    let idx: usize = match app.channels.state.selected {
        Some(i) => i,
        None => return ,
    };
    if idx >= app.channels.items.len() {
        return ;
    }
    let list = &app.channels.items[idx].messages;
    let offset: usize = scroll_offset(list.state.selected, list.rendered.offset, height);
    let len: usize = list.items.len();
    let user_id: u128 = app.user_id;
    let n: usize = if len > offset {
        len - offset
    } else {
        0
    };
    let ghost before = list.items@;
    let mut j: usize = n;
    assert(app.channels.items@.update(idx as int, app.channels.items@[idx as int])
        =~= app.channels.items@);
    while j > 0
        invariant
            j <= n <= before.len(),
            idx < old(app).channels.items@.len(),
            before == old(app).channels.items@[idx as int].messages.items@,
            user_id == old(app).user_id,
            same_but_messages(*old(app), *app, idx as int),
            app.channels.items@[idx as int].messages.items@.len() == before.len(),
            forall|k: int|
                #![trigger app.channels.items@[idx as int].messages.items@[k]]
                0 <= k < j || n <= k < before.len()
                    ==> app.channels.items@[idx as int].messages.items@[k] == before[k],
            forall|k: int|
                #![trigger app.channels.items@[idx as int].messages.items@[k]]
                j <= k < n ==> app.channels.items@[idx as int].messages.items@[k] == seen(
                    before[k],
                    user_id,
                ),
            old(app).receipt_events@ + read_receipts(before.take(n as int), user_id)
                == app.receipt_events@ + read_receipts(before.take(j as int), user_id),
        decreases j,
    {
        let ghost j0 = j as int;
        j = j - 1;
        assert(before.take(j0).drop_last() =~= before.take(j as int));
        let msg = &app.channels.items[idx].messages.items[j];
        if msg.receipt == Receipt::Delivered && msg.from_id != user_id {
            let event = ReceiptEvent::new(msg.from_id, msg.arrived_at, Receipt::Read);
            app.channels.items[idx].messages.items[j].receipt = Receipt::Read;
            app.add_receipt_event(event);
            assert(app.channels.items@ =~= old(app).channels.items@.update(
                idx as int,
                app.channels.items@[idx as int],
            ));
        }
    }
}

} // verus!
