//! What sending receipts promises as a whole.

use vstd::prelude::*;

use crate::data::{App, Channel, ChannelList, Message, MessageList, Receipt, ReceiptEvent};
use crate::receipts::{
    awaits_receipt, messages_from_offset, read_receipts, receipt_shown, receipt_sign,
    receipts_prepared, seen, ShowReceipt, RECEIPT_WIDTH,
};
use crate::viewport::start_offset;

verus! {

/// Preparing receipts changes nothing of the channels and messages but the receipts: neither
/// selections and offsets, nor names and times.
pub proof fn law_receipts_keep_channels(a: App, b: App, height: nat)
    requires
        receipts_prepared(a, b, height),
    ensures
        b.channels.state == a.channels.state,
        b.channels.filtered_items == a.channels.filtered_items,
        b.channels.items@.len() == a.channels.items@.len(),
        forall|i: int|
            #![trigger b.channels.items@[i]]
            0 <= i < a.channels.items@.len() ==> {
                let x = a.channels.items@[i];
                let y = b.channels.items@[i];
                &&& y == Channel { messages: y.messages, ..x }
                &&& y.messages == MessageList { items: y.messages.items, ..x.messages }
                &&& y.messages.items@.len() == x.messages.items@.len()
                &&& forall|j: int|
                    #![trigger y.messages.items@[j]]
                    0 <= j < x.messages.items@.len() ==> y.messages.items@[j] == Message {
                        receipt: y.messages.items@[j].receipt,
                        ..x.messages.items@[j]
                    }
            },
{
    if let Some(s) = a.channels.state.selected {
        if s < a.channels.items@.len() {
            let x = a.channels.items@[s as int].messages;
            let y = b.channels.items@[s as int].messages;
            assert forall|j: int| 0 <= j < x.items@.len() implies #[trigger] y.items@[j] == (
            Message { receipt: y.items@[j].receipt, ..x.items@[j] }) by {}
        }
    }
}

/// Preparing receipts changes nothing but the messages of the selected channel and the receipts
/// that are still to be sent. Without a selected channel it changes nothing.
pub proof fn law_receipts_change_nothing_else(a: App, b: App, height: nat)
    requires
        receipts_prepared(a, b, height),
    ensures
        b == (App { channels: b.channels, receipt_events: b.receipt_events, ..a }),
        b.channels == (ChannelList { items: b.channels.items, ..a.channels }),
        forall|i: int|
            #![trigger b.channels.items@[i]]
            0 <= i < a.channels.items@.len() && a.channels.state.selected != Some(i as usize)
                ==> b.channels.items@[i] == a.channels.items@[i],
        a.channels.state.selected is None ==> b == a,
        a.channels.state.selected matches Some(i) ==> i >= a.channels.items@.len() ==> b == a,
{
    assert(a.channels == (ChannelList { items: a.channels.items, ..a.channels }));
    assert forall|i: int|
        #![trigger b.channels.items@[i]]
        0 <= i < a.channels.items@.len() && a.channels.state.selected != Some(
            i as usize,
        ) implies b.channels.items@[i] == a.channels.items@[i] by {
        if let Some(s) = a.channels.state.selected {
            if s < a.channels.items@.len() {
                assert(i != s as int) by {
                    if i == s as int {
                        assert(i as usize == s);
                    }
                }
            }
        }
    }
}

/// All that was delivered to the user and is displayed is read and acknowledged.
///
/// Of the messages from the offset upwards, each that somebody else sent and that was delivered is
/// now read, and a receipt for it is queued; no such message is left. All others stay as they are.
pub proof fn law_delivered_messages_are_acknowledged(
    a: App,
    b: App,
    height: nat,
    i: usize,
    j: int,
)
    requires
        receipts_prepared(a, b, height),
        a.channels.state.selected == Some(i),
        i < a.channels.items@.len(),
        0 <= j < a.channels.items@[i as int].messages.items@.len(),
    ensures
        ({
            let list = a.channels.items@[i as int].messages;
            let before = list.items@[j];
            let after = b.channels.items@[i as int].messages.items@[j];
            let offset = start_offset(list.state.selected, list.rendered.offset as nat, height);
            let displayed = j < list.items@.len() - offset;
            &&& b.channels.items@[i as int].messages.items@.len() == list.items@.len()
            &&& displayed ==> after.receipt != Receipt::Delivered || after.from_id == a.user_id
            &&& displayed && before.receipt == Receipt::Delivered && before.from_id != a.user_id
                ==> {
                &&& after == Message { receipt: Receipt::Read, ..before }
                &&& exists|k: int|
                    a.receipt_events@.len() <= k < b.receipt_events@.len()
                        && #[trigger] b.receipt_events@[k] == (ReceiptEvent {
                        uuid: before.from_id,
                        timestamp: before.arrived_at,
                        receipt_type: Receipt::Read,
                    })
            }
            &&& !displayed || before.receipt != Receipt::Delivered || before.from_id == a.user_id
                ==> after == before
        }),
{
    let list = a.channels.items@[i as int].messages;
    let n = messages_from_offset(list, height);
    let after = b.channels.items@[i as int].messages;
    assert(after.items@[j] == after.items@[j]);
    if j < n && awaits_receipt(list.items@[j], a.user_id) {
        let k = lemma_receipt_of(list.items@.take(n), a.user_id, j);
        assert(b.receipt_events@[a.receipt_events@.len() + k] == read_receipts(
            list.items@.take(n),
            a.user_id,
        )[k]);
    }
}

proof fn lemma_receipt_of(messages: Seq<Message>, user_id: u128, j: int) -> (k: int)
    requires
        0 <= j < messages.len(),
        awaits_receipt(messages[j], user_id),
    ensures
        0 <= k < read_receipts(messages, user_id).len(),
        read_receipts(messages, user_id)[k] == (ReceiptEvent {
            uuid: messages[j].from_id,
            timestamp: messages[j].arrived_at,
            receipt_type: Receipt::Read,
        }),
    decreases messages.len(),
{
    if j == messages.len() - 1 {
        0
    } else {
        let k = lemma_receipt_of(messages.drop_last(), user_id, j);
        if awaits_receipt(messages.last(), user_id) {
            k + 1
        } else {
            k
        }
    }
}

/// Exactly the messages that are displayed, were delivered, and somebody else sent are
/// acknowledged, each once, the latest first, behind the receipts that were already queued.
pub proof fn law_receipts_follow_the_messages(a: App, b: App, height: nat, i: usize)
    requires
        receipts_prepared(a, b, height),
        a.channels.state.selected == Some(i),
        i < a.channels.items@.len(),
    ensures
        ({
            let list = a.channels.items@[i as int].messages;
            let offset = start_offset(list.state.selected, list.rendered.offset as nat, height);
            let displayed = if offset < list.items@.len() {
                list.items@.take(list.items@.len() - offset)
            } else {
                Seq::empty()
            };
            b.receipt_events@ == a.receipt_events@ + displayed.filter(
                |m: Message| m.receipt == Receipt::Delivered && m.from_id != a.user_id,
            ).reverse().map_values(
                |m: Message|
                    ReceiptEvent {
                        uuid: m.from_id,
                        timestamp: m.arrived_at,
                        receipt_type: Receipt::Read,
                    },
            )
        }),
{
    let list = a.channels.items@[i as int].messages;
    let n = messages_from_offset(list, height);
    lemma_offset_not_negative(list.state.selected, list.rendered.offset as nat, height);
    lemma_receipts_filter(list.items@.take(n), a.user_id);
    if n == 0 {
        assert(list.items@.take(n) =~= Seq::<Message>::empty());
    }
}

proof fn lemma_offset_not_negative(selected: Option<usize>, rendered: nat, height: nat)
    ensures
        start_offset(selected, rendered, height) >= 0,
{
}

proof fn lemma_receipts_filter(messages: Seq<Message>, user_id: u128)
    ensures
        read_receipts(messages, user_id) == messages.filter(
            |m: Message| m.receipt == Receipt::Delivered && m.from_id != user_id,
        ).reverse().map_values(
            |m: Message|
                ReceiptEvent {
                    uuid: m.from_id,
                    timestamp: m.arrived_at,
                    receipt_type: Receipt::Read,
                },
        ),
    decreases messages.len(),
{
    reveal(Seq::filter);
    let pred = |m: Message| m.receipt == Receipt::Delivered && m.from_id != user_id;
    let event = |m: Message|
        ReceiptEvent {
            uuid: m.from_id,
            timestamp: m.arrived_at,
            receipt_type: Receipt::Read,
        };
    let kept = messages.filter(pred);
    if messages.len() > 0 {
        let before = messages.drop_last();
        let last = messages.last();
        lemma_receipts_filter(before, user_id);
        let rest = before.filter(pred);
        assert(read_receipts(before, user_id) == rest.reverse().map_values(event));
        if pred(last) {
            assert(kept == rest.push(last));
            assert(kept.reverse().map_values(event) =~= seq![event(last)]
                + rest.reverse().map_values(event));
        } else {
            assert(kept == rest);
            assert(read_receipts(messages, user_id) =~= rest.reverse().map_values(event));
        }
    } else {
        assert(kept.reverse().map_values(event) =~= Seq::empty());
    }
}

/// The receipt of a message is shown to its sender, who can tell from it how far the message got;
/// others see a blank of the same breadth, and nothing at all where receipts are not shown.
pub proof fn law_receipts_tell_how_far_messages_got(
    msg: Message,
    user_id: u128,
    show_receipts: bool,
)
    ensures
        ({
            let sign = receipt_sign(msg.receipt, receipt_shown(msg, user_id, show_receipts));
            &&& !show_receipts ==> sign.len() == 0
            &&& show_receipts ==> sign.len() == 2 && sign[1] == ' '
            &&& show_receipts && msg.from_id != user_id ==> sign[0] == ' '
            &&& show_receipts && msg.from_id == user_id ==> {
                &&& sign[0] == ' ' <==> msg.receipt == Receipt::Nothing
                &&& sign[0] == '○' <==> msg.receipt == Receipt::Sent
                &&& sign[0] == '◉' <==> msg.receipt == Receipt::Delivered
                &&& sign[0] == '●' <==> msg.receipt == Receipt::Read
            }
        }),
{
}

/// No receipt is sent twice: what was prepared once needs no further receipt.
pub proof fn law_receipts_are_sent_once(a: App, b: App, c: App, height: nat)
    requires
        receipts_prepared(a, b, height),
        receipts_prepared(b, c, height),
    ensures
        c.receipt_events@ == b.receipt_events@,
{
    if let Some(s) = a.channels.state.selected {
        if s < a.channels.items@.len() {
            let x = a.channels.items@[s as int].messages;
            let y = b.channels.items@[s as int].messages;
            let n = messages_from_offset(x, height);
            assert(messages_from_offset(y, height) == n);
            lemma_nothing_to_send(y.items@.take(n), a.user_id);
            assert(c.receipt_events@ =~= b.receipt_events@);
        }
    }
}

pub(crate) proof fn lemma_nothing_to_send(messages: Seq<Message>, user_id: u128)
    requires
        forall|i: int|
            0 <= i < messages.len() ==> !awaits_receipt(#[trigger] messages[i], user_id),
    ensures
        read_receipts(messages, user_id) == Seq::<ReceiptEvent>::empty(),
    decreases messages.len(),
{
    if messages.len() > 0 {
        assert(!awaits_receipt(messages[messages.len() - 1], user_id));
        lemma_nothing_to_send(messages.drop_last(), user_id);
    }
}

/// Every receipt goes to somebody else, and tells that a message of theirs was read which had
/// been delivered.
pub proof fn law_receipts_go_to_senders(messages: Seq<Message>, user_id: u128, k: int)
    requires
        0 <= k < read_receipts(messages, user_id).len(),
    ensures
        ({
            let event = read_receipts(messages, user_id)[k];
            &&& event.uuid != user_id
            &&& event.receipt_type == Receipt::Read
            &&& exists|i: int|
                0 <= i < messages.len() && awaits_receipt(#[trigger] messages[i], user_id)
                    && messages[i].from_id == event.uuid && messages[i].arrived_at
                    == event.timestamp
        }),
    decreases messages.len(),
{
    let before = messages.drop_last();
    let last = messages[messages.len() - 1];
    if awaits_receipt(last, user_id) {
        if k > 0 {
            law_receipts_go_to_senders(before, user_id, k - 1);
            let event = read_receipts(before, user_id)[k - 1];
            let i = choose|i: int|
                0 <= i < before.len() && awaits_receipt(#[trigger] before[i], user_id)
                    && before[i].from_id == event.uuid && before[i].arrived_at == event.timestamp;
            assert(messages[i] == before[i]);
        }
    } else {
        law_receipts_go_to_senders(before, user_id, k);
        let event = read_receipts(before, user_id)[k];
        let i = choose|i: int|
            0 <= i < before.len() && awaits_receipt(#[trigger] before[i], user_id)
                && before[i].from_id == event.uuid && before[i].arrived_at == event.timestamp;
        assert(messages[i] == before[i]);
    }
}

/// Marking a message as read does not change how it appears.
pub proof fn law_read_messages_look_the_same(msg: Message, user_id: u128, show_receipts: bool)
    ensures
        receipt_shown(seen(msg, user_id), user_id, show_receipts) == receipt_shown(
            msg,
            user_id,
            show_receipts,
        ),
        receipt_sign(
            seen(msg, user_id).receipt,
            receipt_shown(msg, user_id, show_receipts),
        ) == receipt_sign(msg.receipt, receipt_shown(msg, user_id, show_receipts)),
{
}

/// All receipts of a list are equally broad, so that its lines stay aligned.
pub proof fn law_receipts_are_aligned(receipt: Receipt, show: ShowReceipt)
    ensures
        receipt_sign(receipt, show).len() == (if show == ShowReceipt::Never {
            0
        } else {
            RECEIPT_WIDTH as nat
        }),
{
}

} // verus!
