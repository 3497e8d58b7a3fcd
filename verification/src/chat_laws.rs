//! What drawing the messages of a channel promises as a whole.

use vstd::prelude::*;

use crate::bounds::{max, min};
use crate::channels::inside;
use crate::chat::{
    channel_entries, drawable, drawn_entries, drawn_offset, draws_messages, enough_times,
    first_message, has_messages, highlighted, lemma_offset, lowest_row, messages_drawn,
    messages_title, page_entries, page_of, selection_in_place, selection_of, unread_line, whole_of,
    with_unread_line, MessagesPanel,
};
use crate::clock::{clock_text, LocalTime};
use crate::data::{App, Channel, ChannelList, Message, MessageList, Rendered};
use crate::draw::DrawError;
use crate::message::{content, message_entry};
use crate::names::NameResolver;
use crate::receipts::{
    awaits_receipt, messages_from_offset, receipt_shown, receipts_prepared, seen,
};
use crate::receipts_laws::{law_receipts_keep_channels, lemma_nothing_to_send};
use crate::viewport::{
    all_entries, date_line_at, entries_upto, entry_at, extended, heights, lemma_entries_prefix,
    lemma_known_entries, lemma_lowest, lemma_message_of_row, lemma_messages_below_at_least,
    lemma_messages_below_range, lowest, row_of, start_offset, taken_from, times_of, visible,
    PageView,
};
use crate::viewport_laws::{
    law_every_message_has_its_row, law_offset_moves_only_for_the_selection, law_page_settles,
    law_selection_is_visible,
};
use crate::widgets::{entries, Rect, SpanView};

verus! {

/// The selected message is drawn, and it is the one that is highlighted.
///
/// This holds of every message that has a text or files; others have no entry.
pub proof fn law_selected_message_is_drawn(
    channel: Channel,
    page: PageView,
    times: Seq<LocalTime>,
    s: usize,
)
    requires
        page.height > 0,
        enough_times(channel, page, times),
        channel.messages.state.selected == Some(s),
        s < channel.messages.items@.len(),
        content(channel.messages.items@[channel.messages.items@.len() - 1 - s]).len() > 0,
    ensures
        ({
            let first = first_message(channel.messages, page.height);
            let drawn = drawn_entries(channel, page, times);
            let e = highlighted(channel, page, times, s);
            &&& 0 <= e < drawn.len()
            &&& s - first < times.len()
            &&& entry_at(
                page,
                channel.names,
                channel.messages.items@,
                first,
                times,
                s - first,
            ) == Some(drawn[e])
        }),
{
    let first = first_message(channel.messages, page.height);
    let messages = channel.messages.items@;
    let names = channel.names;
    let all = channel_entries(channel, page, times);
    let row = selection_of(channel, page, times);
    let taken = taken_from(heights(all), page.height, row, 0);
    let k = s - first;
    lemma_lowest(page, all, row);
    if row >= 0 {
        lemma_selection_row(channel, page, times);
        law_selection_is_visible(page, all, row);
    }
    assert(k < times.len());
    let upto = entries_upto(page, names, messages, first, times, k + 1);
    lemma_entries_prefix(page, names, messages, first, times, k + 1, times.len() as int);
    assert(upto.len() == row + 1);
    assert(Some(upto[row]) == entry_at(page, names, messages, first, times, k));
    assert(all[row] == upto[row]);
    lemma_messages_below_at_least(
        page,
        names,
        messages,
        first,
        times,
        taken,
        k + 1,
        times.len() as int,
    );
    let list = page_entries(channel, page, times);
    assert(list[row - lowest_row(channel, page, times)] == all[row]);
}

/// The row of the selected message is one of all rows.
proof fn lemma_selection_row(channel: Channel, page: PageView, times: Seq<LocalTime>)
    ensures
        selection_of(channel, page, times) < channel_entries(channel, page, times).len(),
{
    if let Some(s) = channel.messages.state.selected {
        let first = first_message(channel.messages, page.height);
        let n = times.len() as int;
        let m = min(s - first + 1, n);
        if m >= 0 {
            lemma_entries_prefix(
                page,
                channel.names,
                channel.messages.items@,
                first,
                times,
                m,
                n,
            );
        }
    }
}

/// Drawing the messages highlights the selected one.
///
/// What the panel has selected is how the selected message appears, with a clock of its arrival.
/// This holds where the selected row displays the channel at its index.
pub proof fn law_panel_highlights_selection(
    a: App,
    b: App,
    area: Rect,
    r: Result<Option<MessagesPanel>, DrawError>,
    s: usize,
)
    requires
        inside(area.height) > 0,
        draws_messages(a, b, area, r),
        r is Ok,
        selection_in_place(a.channels),
        has_messages(a.channels),
        ({
            let list = a.channels.items@[a.channels.shown()->0].messages;
            &&& list.state.selected == Some(s)
            &&& s < list.items@.len()
            &&& content(list.items@[list.items@.len() - 1 - s]).len() > 0
        }),
    ensures
        ({
            let channel = b.channels.items@[a.channels.shown()->0];
            let msg = channel.messages.items@[channel.messages.items@.len() - 1 - s];
            let page = page_of(channel, a.user_id, a.config.show_receipts, area);
            &&& r matches Ok(Some(panel))
            &&& panel.selected matches Some(e)
            &&& e < panel.items@.len()
            &&& exists|local: LocalTime| #[trigger]
                local.is_time_of(msg.arrived_at) && message_entry(
                    channel.names,
                    msg,
                    clock_text(local.second as nat),
                    page.prefix,
                    page.width,
                    page.height,
                    receipt_shown(msg, page.user_id, page.show_receipts),
                ) == Some(panel.items@[e as int]@)
        }),
{
    let height = inside(area.height);
    let (mid, times) = choose|mid: App, times: Seq<LocalTime>|
        receipts_prepared(a, mid, height) && #[trigger] messages_drawn(mid, b, area, times, r);
    law_receipts_keep_channels(a, mid, height);
    let before = a.channels.items@[a.channels.shown()->0].messages.items@;
    let channel = mid.channels.items@[a.channels.shown()->0];
    let messages = channel.messages.items@;
    let page = page_of(channel, mid.user_id, mid.config.show_receipts, area);
    let first = first_message(channel.messages, height);
    assert(messages[messages.len() - 1 - s].message == before[messages.len() - 1 - s].message);
    lemma_offset(channel, page, times);
    law_selected_message_is_drawn(channel, page, times, s);
    let panel = r->Ok_0->0;
    let e = panel.selected->0 as int;
    assert(entries(panel.items@)[e] == panel.items@[e]@);
    let local = times[s - first];
    assert(local.is_time_of(messages[messages.len() - 1 - s].arrived_at));
}

/// The line above the unread messages is drawn wherever there are read and unread entries on the
/// page, whatever the settings are, and nothing else changes.
pub proof fn law_unread_line_is_drawn(channel: Channel, page: PageView, times: Seq<LocalTime>)
    ensures
        ({
            let list = page_entries(channel, page, times);
            let drawn = drawn_entries(channel, page, times);
            let unread = channel.unread_messages as int;
            let n = page.prefix.len() as int;
            &&& unread == 0 || unread >= list.len() ==> drawn == list
            &&& 0 < unread < list.len() ==> {
                let line = drawn[unread][0][0];
                &&& drawn.len() == list.len() + 1
                &&& drawn.remove(unread) == list
                &&& drawn[unread].len() == 1
                &&& drawn[unread][0].len() == 1
                &&& line.style.fg is None
                &&& line.content.len() == n + 12 + max(page.width - n, 0)
                &&& line.content.subrange(n, n + 12) == "new messages"@
                &&& forall|i: int|
                    0 <= i < n || n + 12 <= i < line.content.len()
                        ==> #[trigger] line.content[i] == '-'
            }
        }),
{
    let list = page_entries(channel, page, times);
    let drawn = drawn_entries(channel, page, times);
    let unread = channel.unread_messages as int;
    let n = page.prefix.len() as int;
    if 0 < unread < list.len() {
        reveal_strlit("new messages");
        let line = drawn[unread][0][0];
        assert(drawn.remove(unread) =~= list);
        assert(line.content == unread_line(n as nat, page.width as nat));
        assert(line.content.subrange(n, n + 12) =~= "new messages"@);
    }
}

/// The page has room for what is inside of the borders. The indentation is as long as a time with
/// its space, the widest name and the delimiter, and a receipt, where receipts are shown.
pub proof fn law_page_of_an_area(channel: Channel, user_id: u128, show_receipts: bool, area: Rect)
    ensures
        ({
            let page = page_of(channel, user_id, show_receipts, area);
            &&& page.user_id == user_id
            &&& page.show_receipts == show_receipts
            &&& page.prefix.len() == 6 + channel.names.max_name_width + 2 + (if show_receipts {
                2int
            } else {
                0
            })
            &&& forall|i: int| 0 <= i < page.prefix.len() ==> #[trigger] page.prefix[i] == ' '
            &&& area.width >= 2 ==> page.width == area.width - 2
            &&& area.width < 2 ==> page.width == 0
            &&& area.height >= 2 ==> page.height == area.height - 2
            &&& area.height < 2 ==> page.height == 0
        }),
{
}

/// The title tells who is writing, if anybody is.
pub proof fn law_title_tells_who_is_writing(channel: Channel)
    ensures
        channel.writing_people is None ==> messages_title(channel) == "Messages"@,
        channel.writing_people matches Some(people) ==> messages_title(channel) == "Messages"@
            + seq![' '] + people@,
{
    reveal_strlit("Messages");
    reveal_strlit("Messages ");
    assert("Messages "@ =~= "Messages"@ + seq![' ']);
}

/// The offset is that of the message in the lowest row: all messages below it left the page. It
/// stays where nothing left the page.
pub proof fn law_offset_is_that_of_the_lowest_message(
    channel: Channel,
    page: PageView,
    times: Seq<LocalTime>,
)
    ensures
        ({
            let first = first_message(channel.messages, page.height);
            let low = lowest_row(channel, page, times);
            let k = drawn_offset(channel, page, times) - first;
            let messages = channel.messages.items@;
            &&& low == 0 ==> k == 0
            &&& low > 0 ==> 0 < k < times.len() && entries_upto(
                page,
                channel.names,
                messages,
                first,
                times,
                k,
            ).len() <= low < entries_upto(
                page,
                channel.names,
                messages,
                first,
                times,
                k + 1,
            ).len()
        }),
{
    let first = first_message(channel.messages, page.height);
    let low = lowest_row(channel, page, times);
    lemma_lowest(
        page,
        channel_entries(channel, page, times),
        selection_of(channel, page, times),
    );
    if low > 0 {
        let k = lemma_message_of_row(
            page,
            channel.names,
            channel.messages.items@,
            first,
            times,
            low,
            times.len() as int,
        );
        if k == 0 {
            reveal_with_fuel(entries_upto, 2);
        }
    }
}

/// What is on the page of a channel is chosen from its messages by the row of the selected one.
pub proof fn law_page_of_a_channel(channel: Channel, page: PageView, times: Seq<LocalTime>)
    ensures
        ({
            let list = channel.messages;
            let first = start_offset(list.state.selected, list.rendered.offset as nat, page.height);
            let all = all_entries(page, channel.names, list.items@, first, times);
            let row = match list.state.selected {
                Some(s) => row_of(page, channel.names, list.items@, first, times, s - first),
                None => -1,
            };
            &&& page_entries(channel, page, times) == visible(page, all, row)
            &&& lowest_row(channel, page, times) == lowest(page, all, row)
            &&& first_message(list, page.height) == first
        }),
{
}

/// The local times that are read are those of the messages from the offset upwards, in order: less
/// than a day away from the time at which the message arrived, in a day that has it.
pub proof fn law_times_are_those_of_the_messages(
    messages: Seq<Message>,
    offset: int,
    times: Seq<LocalTime>,
    k: int,
)
    requires
        times_of(messages, offset, times),
        0 <= k < times.len(),
    ensures
        times.len() <= messages.len() - offset,
        times[k].second < 86_400,
        ({
            let seconds = (times[k].day - 719_163) * 86_400 + times[k].second;
            let arrived = messages[messages.len() - 1 - offset - k].arrived_at as int / 1000;
            arrived - 86_400 < seconds < arrived + 86_400
        }),
{
    assert(times[k].is_time_of(messages[messages.len() - 1 - offset - k].arrived_at));
}

/// No message is left out for want of its time: where the times of some messages above are not
/// known, an entry of the known ones is not on the page either.
pub proof fn law_times_are_read_as_far_as_needed(
    channel: Channel,
    page: PageView,
    times: Seq<LocalTime>,
)
    requires
        enough_times(channel, page, times),
    ensures
        times.len() == max(
            channel.messages.items@.len() - first_message(channel.messages, page.height),
            0,
        ) || lowest_row(channel, page, times) + page_entries(channel, page, times).len()
            < channel_entries(channel, page, times).len(),
{
    lemma_lowest(
        page,
        channel_entries(channel, page, times),
        selection_of(channel, page, times),
    );
}

/// The entry of a message that is on the page is highlighted where that message is selected, and
/// nothing is where its entry lies above the page.
pub proof fn law_highlight_is_that_of_the_message(
    channel: Channel,
    page: PageView,
    times: Seq<LocalTime>,
    s: usize,
)
    requires
        ({
            let first = first_message(channel.messages, page.height);
            let messages = channel.messages.items@;
            &&& 0 <= s - first < times.len()
            &&& s < messages.len()
            &&& content(messages[messages.len() - 1 - s]).len() > 0
        }),
    ensures
        ({
            let first = first_message(channel.messages, page.height);
            let messages = channel.messages.items@;
            let row = row_of(page, channel.names, messages, first, times, s - first);
            let low = lowest_row(channel, page, times);
            let drawn = drawn_entries(channel, page, times);
            let e = highlighted(channel, page, times, s);
            let entry = entry_at(page, channel.names, messages, first, times, s - first);
            let n = page_entries(channel, page, times).len();
            &&& low <= row < low + n ==> 0 <= e < drawn.len() && entry == Some(drawn[e])
            &&& row >= low + n ==> e >= min(drawn.len() as int, usize::MAX as int)
        }),
{
    let first = first_message(channel.messages, page.height);
    let messages = channel.messages.items@;
    let names = channel.names;
    let all = channel_entries(channel, page, times);
    let selection = selection_of(channel, page, times);
    let low = lowest_row(channel, page, times);
    let taken = taken_from(heights(all), page.height, selection, 0);
    let t = times.len() as int;
    let k = s - first;
    let row = row_of(page, names, messages, first, times, k);
    let list = page_entries(channel, page, times);
    lemma_lowest(page, all, selection);
    law_every_message_has_its_row(page, names, messages, first, times, k);
    if low <= row < low + list.len() {
        lemma_messages_below_at_least(page, names, messages, first, times, taken, k + 1, t);
        assert(list[row - low] == all[row]);
    } else if row >= low + list.len() {
        let whole = whole_of(channel, page, times);
        lemma_messages_below_range(page, names, messages, first, times, taken, t);
        if whole > k {
            lemma_entries_prefix(page, names, messages, first, times, k + 1, whole);
        }
    }
}

/// Where any message, also one without an entry of its own, is highlighted: in its row, or at the
/// lower edge if that lies below the page. From the first message on that is not drawn as a whole,
/// there is one more index behind the entries for each message. The line above the unread messages
/// moves what stands above it.
pub proof fn law_highlight_follows_the_row(
    channel: Channel,
    page: PageView,
    times: Seq<LocalTime>,
    s: usize,
    whole: int,
)
    requires
        0 <= whole <= times.len(),
        ({
            let first = first_message(channel.messages, page.height);
            let messages = channel.messages.items@;
            let top = lowest_row(channel, page, times) + page_entries(channel, page, times).len();
            // the messages that are drawn as a whole, and those below them
            &&& entries_upto(page, channel.names, messages, first, times, whole).len() <= top
            &&& whole < times.len() ==> top < entries_upto(
                page,
                channel.names,
                messages,
                first,
                times,
                whole + 1,
            ).len()
        }),
    ensures
        ({
            let first = first_message(channel.messages, page.height);
            let messages = channel.messages.items@;
            let row = row_of(page, channel.names, messages, first, times, s - first);
            let low = lowest_row(channel, page, times);
            let n = page_entries(channel, page, times).len() as int;
            let i = if s - first >= whole {
                n + (s - first - whole)
            } else if row >= low {
                row - low
            } else {
                0
            };
            let moved = if 0 < channel.unread_messages < n && i >= channel.unread_messages {
                i + 1
            } else {
                i
            };
            &&& s - first < whole ==> highlighted(channel, page, times, s) == moved
            &&& s - first >= whole ==> highlighted(channel, page, times, s) == min(
                moved,
                usize::MAX as int,
            )
        }),
{
    let first = first_message(channel.messages, page.height);
    let messages = channel.messages.items@;
    let names = channel.names;
    let all = channel_entries(channel, page, times);
    let selection = selection_of(channel, page, times);
    let taken = taken_from(heights(all), page.height, selection, 0);
    let t = times.len() as int;
    lemma_lowest(page, all, selection);
    lemma_messages_below_range(page, names, messages, first, times, taken, t);
    lemma_messages_below_at_least(page, names, messages, first, times, taken, whole, t);
    if whole < whole_of(channel, page, times) {
        lemma_entries_prefix(
            page,
            names,
            messages,
            first,
            times,
            whole + 1,
            whole_of(channel, page, times),
        );
    }
}

/// Where drawing the messages fails, they are read nevertheless, and nothing else changes.
pub proof fn law_failed_drawing_keeps_offsets(a: App, b: App, area: Rect, e: DrawError)
    requires
        draws_messages(a, b, area, Err(e)),
    ensures
        area.height > 2,
        receipts_prepared(a, b, (area.height - 2) as nat),
{
    let height = inside(area.height);
    let (mid, times) = choose|mid: App, times: Seq<LocalTime>|
        receipts_prepared(a, mid, height) && #[trigger] messages_drawn(mid, b, area, times, Err(e));
    assert(b == mid);
}

/// The calendar is asked no earlier than it must be: where drawing fails because it does not cover
/// a message, all entries of the messages below that one are taken up, and there is more to come.
pub proof fn law_calendar_is_asked_for_the_next_message(a: App, b: App, area: Rect)
    requires
        draws_messages(a, b, area, Err(DrawError::OffCalendar)),
        a.channels.shown() is Some,
    ensures
        ({
            let channel = b.channels.items@[a.channels.shown()->0];
            let page = page_of(channel, a.user_id, a.config.show_receipts, area);
            let first = first_message(channel.messages, page.height);
            let messages = channel.messages.items@;
            exists|times: Seq<LocalTime>| #[trigger]
                times_of(messages, first, times) && {
                    &&& times.len() < messages.len() - first
                    &&& messages[messages.len() - 1 - first - times.len()].arrived_at
                        > 8_210_266_790_399_999
                    &&& lowest_row(channel, page, times) + page_entries(channel, page, times).len()
                        == channel_entries(channel, page, times).len()
                }
        }),
{
    let height = inside(area.height);
    let r = Err::<Option<MessagesPanel>, DrawError>(DrawError::OffCalendar);
    let (mid, times) = choose|mid: App, times: Seq<LocalTime>|
        receipts_prepared(a, mid, height) && #[trigger] messages_drawn(mid, b, area, times, r);
    law_receipts_keep_channels(a, mid, height);
    let channel = b.channels.items@[a.channels.shown()->0];
    let page = page_of(channel, a.user_id, a.config.show_receipts, area);
    let first = first_message(channel.messages, page.height);
    assert(b == mid);
    assert(times_of(channel.messages.items@, first, times));
    lemma_lowest(
        page,
        channel_entries(channel, page, times),
        selection_of(channel, page, times),
    );
}

/// What drawing the messages does: the panel shows the channel of the selected row, as it is once
/// its messages are read, in the given area; nothing of the state changes but the receipts and the
/// offset.
pub proof fn law_drawing_shows_the_selected_channel(
    a: App,
    b: App,
    area: Rect,
    panel: MessagesPanel,
    i: usize,
)
    requires
        draws_messages(a, b, area, Ok(Some(panel))),
        a.channels.state.selected == Some(i),
    ensures
        i < a.channels.filtered_items@.len(),
        a.channels.filtered_items@[i as int] < a.channels.items@.len(),
        ({
            let shown = a.channels.filtered_items@[i as int] as int;
            let selected = a.channels.items@[i as int].messages.state.selected;
            &&& area.height > 2
            &&& a.channels.items@[shown].messages.items@.len() > 0
            &&& panel.area == area
            &&& panel.title@ == messages_title(a.channels.items@[shown])
            &&& i < a.channels.items@.len() ==> (panel.selected is Some <==> selected is Some)
            &&& exists|mid: App, times: Seq<LocalTime>|
                #![trigger mid.channels.items@[shown], times.len()]
                {
                    let channel = mid.channels.items@[shown];
                    let page = page_of(channel, a.user_id, a.config.show_receipts, area);
                    let first = first_message(channel.messages, page.height);
                    &&& receipts_prepared(a, mid, (area.height - 2) as nat)
                    &&& times_of(channel.messages.items@, first, times)
                    &&& enough_times(channel, page, times)
                    &&& entries(panel.items@) == drawn_entries(channel, page, times)
                    &&& i < a.channels.items@.len() ==> (selected matches Some(s) ==> s
                        >= drawn_offset(channel, page, times) && panel.selected->0 as int
                        == highlighted(channel, page, times, s))
                    &&& i < a.channels.items@.len() ==> b == (App {
                        channels: b.channels,
                        ..mid
                    }) && b.channels == (ChannelList {
                        items: b.channels.items,
                        ..mid.channels
                    }) && b.channels.items@ == mid.channels.items@.update(
                        i as int,
                        after_offset(
                            mid.channels.items@[i as int],
                            drawn_offset(channel, page, times),
                        ),
                    )
                }
        }),
{
    let height = inside(area.height);
    let (mid, times) = choose|mid: App, times: Seq<LocalTime>|
        receipts_prepared(a, mid, height) && #[trigger] messages_drawn(
            mid,
            b,
            area,
            times,
            Ok(Some(panel)),
        );
    law_receipts_keep_channels(a, mid, height);
    let shown = a.channels.filtered_items@[i as int] as int;
    let channel = mid.channels.items@[shown];
    let page = page_of(channel, a.user_id, a.config.show_receipts, area);
    let first = first_message(channel.messages, page.height);
    assert(mid.user_id == a.user_id && mid.config == a.config);
    assert(times_of(channel.messages.items@, first, times));
    if i < a.channels.items@.len() {
        assert(mid.channels.items@[i as int].messages.state
            == a.channels.items@[i as int].messages.state);
    }
}

/// A channel whose messages are drawn from another offset.
pub open spec fn after_offset(channel: Channel, offset: int) -> Channel {
    Channel {
        messages: MessageList {
            rendered: Rendered { offset: offset as usize },
            ..channel.messages
        },
        ..channel
    }
}

/// Whether the calendar does not cover all messages.
pub open spec fn any_off_calendar(messages: Seq<Message>) -> bool {
    exists|j: int|
        0 <= j < messages.len() && (#[trigger] messages[j]).arrived_at > 8_210_266_790_399_999
}

/// Messages are drawn wherever there is a line for them and the selected row displays a channel
/// that has some: then drawing either shows them, or fails for one of two reasons.
pub proof fn law_messages_are_drawn_where_there_is_room(
    a: App,
    b: App,
    area: Rect,
    r: Result<Option<MessagesPanel>, DrawError>,
    i: usize,
)
    requires
        draws_messages(a, b, area, r),
        area.height > 2,
        a.channels.state.selected == Some(i),
        i < a.channels.filtered_items@.len(),
        a.channels.filtered_items@[i as int] < a.channels.items@.len(),
        a.channels.items@[a.channels.filtered_items@[i as int] as int].messages.items@.len() > 0,
    ensures
        match r {
            Ok(panel) => panel is Some,
            Err(e) => {
                let shown = a.channels.filtered_items@[i as int] as int;
                // a message that the calendar does not cover, or a selection of another channel
                ||| e == DrawError::OffCalendar && any_off_calendar(
                    a.channels.items@[shown].messages.items@,
                )
                ||| e == DrawError::SelectionOffScreen && shown != i
            },
        },
{
    let height = inside(area.height);
    let shown = a.channels.filtered_items@[i as int] as int;
    let (mid, times) = choose|mid: App, times: Seq<LocalTime>|
        receipts_prepared(a, mid, height) && #[trigger] messages_drawn(mid, b, area, times, r);
    law_receipts_keep_channels(a, mid, height);
    let channel = mid.channels.items@[shown];
    let page = page_of(channel, mid.user_id, mid.config.show_receipts, area);
    let first = first_message(channel.messages, page.height);
    lemma_offset(channel, page, times);
    if !enough_times(channel, page, times) {
        let before = a.channels.items@[shown].messages.items@;
        let messages = channel.messages.items@;
        let j = messages.len() - 1 - first - times.len();
        law_offset_moves_only_for_the_selection(
            channel.messages.state.selected,
            channel.messages.rendered.offset as nat,
            page.height,
        );
        assert(messages[j].arrived_at == before[j].arrived_at);
    }
}

/// Nothing is drawn, and nothing changes, where there is no line for messages.
pub proof fn law_nothing_is_drawn_without_room(
    a: App,
    b: App,
    area: Rect,
    r: Result<Option<MessagesPanel>, DrawError>,
)
    requires
        draws_messages(a, b, area, r),
        area.height <= 2,
    ensures
        r matches Ok(panel) && panel is None,
        b == a,
{
}

/// Where the selected row displays no channel with messages, none are drawn.
pub proof fn law_nothing_is_drawn_without_messages(
    a: App,
    b: App,
    area: Rect,
    r: Result<Option<MessagesPanel>, DrawError>,
)
    requires
        draws_messages(a, b, area, r),
        a.channels.state.selected matches Some(i) ==> i >= a.channels.filtered_items@.len()
            || a.channels.filtered_items@[i as int] >= a.channels.items@.len()
            || a.channels.items@[a.channels.filtered_items@[i as int] as int].messages.items@.len()
            == 0,
    ensures
        r matches Ok(panel) && panel is None,
        area.height > 2 ==> receipts_prepared(a, b, (area.height - 2) as nat),
{
}

/// Where the entry of the message `k` starts if the messages are drawn from it upwards: behind the
/// line below it, which then is left out.
spec fn start_of(
    page: PageView,
    names: NameResolver,
    messages: Seq<Message>,
    offset: int,
    times: Seq<LocalTime>,
    k: int,
) -> int {
    extended(
        entries_upto(page, names, messages, offset, times, k),
        date_line_at(page, times, k),
    ).len() as int
}

proof fn lemma_later_entry(
    page: PageView,
    names: NameResolver,
    messages: Seq<Message>,
    offset: int,
    times: Seq<LocalTime>,
    skipped: int,
    k: int,
)
    requires
        0 <= skipped,
        0 <= k < times.len() - skipped,
    ensures
        entry_at(page, names, messages, offset + skipped, times.skip(skipped), k) == entry_at(
            page,
            names,
            messages,
            offset,
            times,
            k + skipped,
        ),
        k > 0 ==> date_line_at(page, times.skip(skipped), k) == date_line_at(
            page,
            times,
            k + skipped,
        ),
{
}

proof fn lemma_later_entries(
    page: PageView,
    names: NameResolver,
    messages: Seq<Message>,
    offset: int,
    times: Seq<LocalTime>,
    skipped: int,
    m: int,
)
    requires
        0 < skipped,
        1 <= m <= times.len() - skipped,
    ensures
        ({
            let from = start_of(page, names, messages, offset, times, skipped);
            let list = entries_upto(page, names, messages, offset, times, skipped + m);
            &&& from <= list.len()
            &&& entries_upto(page, names, messages, offset + skipped, times.skip(skipped), m)
                == list.skip(from)
        }),
    decreases m,
{
    let from = start_of(page, names, messages, offset, times, skipped);
    let later = times.skip(skipped);
    let list = entries_upto(page, names, messages, offset, times, skipped + m);
    let rest = entries_upto(page, names, messages, offset + skipped, later, m);
    let before = entries_upto(page, names, messages, offset, times, skipped + m - 1);
    let rest_before = entries_upto(page, names, messages, offset + skipped, later, m - 1);
    lemma_later_entry(page, names, messages, offset, times, skipped, m - 1);
    let entry = entry_at(page, names, messages, offset, times, skipped + m - 1);
    let line = date_line_at(page, times, skipped + m - 1);
    assert(list == extended(extended(before, line), entry));
    if m == 1 {
        assert(rest_before =~= Seq::empty());
        assert(rest == extended(rest_before, entry));
        assert(rest =~= list.skip(from));
    } else {
        lemma_later_entries(page, names, messages, offset, times, skipped, m - 1);
        assert(rest == extended(extended(rest_before, line), entry));
        assert(rest =~= list.skip(from));
    }
}

proof fn lemma_entry_heights(
    page: PageView,
    names: NameResolver,
    messages: Seq<Message>,
    offset: int,
    times: Seq<LocalTime>,
    n: int,
)
    requires
        page.height > 0,
    ensures
        forall|i: int|
            0 <= i < entries_upto(page, names, messages, offset, times, n).len() ==> (
            #[trigger] entries_upto(page, names, messages, offset, times, n)[i]).len()
                <= page.height,
    decreases n,
{
    if n > 0 {
        lemma_entry_heights(page, names, messages, offset, times, n - 1);
        let before = entries_upto(page, names, messages, offset, times, n - 1);
        let line = date_line_at(page, times, n - 1);
        let entry = entry_at(page, names, messages, offset, times, n - 1);
        let list = entries_upto(page, names, messages, offset, times, n);
        assert(list == extended(extended(before, line), entry));
        assert(line is Some ==> line->0.len() == 1);
        assert(entry is Some ==> entry->0.len() <= page.height);
        assert forall|i: int| 0 <= i < list.len() implies (#[trigger] list[i]).len()
            <= page.height by {
            if i < before.len() {
                assert(list[i] == before[i]);
            }
        }
    }
}

proof fn lemma_unread_line_prefix(
    before: Seq<Seq<Seq<SpanView>>>,
    after: Seq<Seq<Seq<SpanView>>>,
    unread: nat,
    line: Seq<char>,
)
    requires
        before.is_prefix_of(after),
    ensures
        with_unread_line(before, unread, line).is_prefix_of(with_unread_line(after, unread, line)),
{
    let a = with_unread_line(before, unread, line);
    let b = with_unread_line(after, unread, line);
    assert(a =~= b.take(a.len() as int));
}

/// The channel after it was drawn.
pub open spec fn after_drawing(channel: Channel, page: PageView, times: Seq<LocalTime>) -> Channel {
    Channel {
        messages: MessageList {
            rendered: Rendered { offset: drawn_offset(channel, page, times) as usize },
            ..channel.messages
        },
        ..channel
    }
}

/// The number of lines between two days at the lower edge of the page, none or one: the message
/// below such a line has left the page.
pub open spec fn lines_at_edge(channel: Channel, page: PageView, times: Seq<LocalTime>) -> int {
    let first = first_message(channel.messages, page.height);
    let k = drawn_offset(channel, page, times) - first;
    let below = entries_upto(page, channel.names, channel.messages.items@, first, times, k);
    if k > 0 && date_line_at(page, times, k) is Some && below.len() == lowest_row(
        channel,
        page,
        times,
    ) {
        1
    } else {
        0
    }
}

/// Whether the times that are known when a channel is drawn again are those of the messages that
/// are still drawn, and perhaps of some above them.
pub open spec fn are_later_times(
    channel: Channel,
    page: PageView,
    times: Seq<LocalTime>,
    later: Seq<LocalTime>,
) -> bool {
    let offset = drawn_offset(channel, page, times);
    &&& times.skip(offset - first_message(channel.messages, page.height)).is_prefix_of(later)
    &&& later.len() <= max(channel.messages.items@.len() - offset, 0)
}

/// What is drawn again.
proof fn lemma_redraw(
    channel: Channel,
    page: PageView,
    times: Seq<LocalTime>,
    later: Seq<LocalTime>,
)
    requires
        page.height > 0,
        times.len() <= max(
            channel.messages.items@.len() - first_message(channel.messages, page.height),
            0,
        ),
        enough_times(channel, page, times),
        are_later_times(channel, page, times, later),
    ensures
        ({
            let next = after_drawing(channel, page, times);
            let from = lowest_row(channel, page, times) + lines_at_edge(channel, page, times);
            &&& channel_entries(channel, page, times).skip(from).is_prefix_of(
                channel_entries(next, page, later),
            )
            &&& channel.messages.state.selected is Some ==> selection_of(next, page, later)
                == selection_of(channel, page, times) - from
            &&& from <= taken_from(
                heights(channel_entries(channel, page, times)),
                page.height,
                selection_of(channel, page, times),
                0,
            )
        }),
{
    let first = first_message(channel.messages, page.height);
    let messages = channel.messages.items@;
    let names = channel.names;
    let low = lowest_row(channel, page, times);
    let t = times.len() as int;
    let next = after_drawing(channel, page, times);
    let offset = drawn_offset(channel, page, times);
    let k = offset - first;
    let known = times.skip(k);
    let all = channel_entries(channel, page, times);
    let row = selection_of(channel, page, times);
    lemma_lowest(page, all, row);
    lemma_offset(channel, page, times);
    assert(first_message(next.messages, page.height) == offset);
    assert(0 <= k <= t && from_row(channel, page, times) == low + lines_at_edge(
        channel,
        page,
        times,
    )) by {
        lemma_from_row(channel, page, times);
    }
    let from = from_row(channel, page, times);
    // the entries whose times were known
    lemma_later_rows(channel, page, times, t);
    lemma_known_entries(page, names, messages, offset, known, later, t - k);
    lemma_entries_prefix(page, names, messages, offset, later, t - k, later.len() as int);
    assert(all.skip(from).is_prefix_of(channel_entries(next, page, later)));
    // the row of the selected message
    if let Some(s) = channel.messages.state.selected {
        if s - first + 1 <= t {
            lemma_later_rows(channel, page, times, s - first + 1);
            lemma_known_entries(page, names, messages, offset, known, later, s - offset + 1);
        } else {
            if row >= 0 {
                lemma_selection_row(channel, page, times);
                law_selection_is_visible(page, all, row);
            }
            assert(later =~= known);
        }
    }
}

/// Where the entries start that are drawn again.
spec fn from_row(channel: Channel, page: PageView, times: Seq<LocalTime>) -> int {
    let first = first_message(channel.messages, page.height);
    let k = drawn_offset(channel, page, times) - first;
    if k == 0 {
        0
    } else {
        start_of(page, channel.names, channel.messages.items@, first, times, k)
    }
}

proof fn lemma_from_row(channel: Channel, page: PageView, times: Seq<LocalTime>)
    ensures
        ({
            let first = first_message(channel.messages, page.height);
            let low = lowest_row(channel, page, times);
            let k = drawn_offset(channel, page, times) - first;
            &&& 0 <= k <= times.len()
            &&& k > 0 ==> k < times.len()
            &&& from_row(channel, page, times) == low + lines_at_edge(channel, page, times)
        }),
{
    let first = first_message(channel.messages, page.height);
    let messages = channel.messages.items@;
    let low = lowest_row(channel, page, times);
    lemma_lowest(
        page,
        channel_entries(channel, page, times),
        selection_of(channel, page, times),
    );
    if low > 0 {
        let k = lemma_message_of_row(
            page,
            channel.names,
            messages,
            first,
            times,
            low,
            times.len() as int,
        );
        assert(k == drawn_offset(channel, page, times) - first);
        assert(k > 0) by {
            if k == 0 {
                reveal_with_fuel(entries_upto, 2);
            }
        }
        lemma_one_more(page, channel.names, messages, first, times, k);
    }
}

/// The entries of the messages up to `m`, drawn from the new offset on.
proof fn lemma_later_rows(channel: Channel, page: PageView, times: Seq<LocalTime>, m: int)
    requires
        ({
            let k = drawn_offset(channel, page, times) - first_message(
                channel.messages,
                page.height,
            );
            0 <= k && (k > 0 ==> k < m) && k <= m
        }),
        m <= times.len(),
    ensures
        ({
            let first = first_message(channel.messages, page.height);
            let offset = drawn_offset(channel, page, times);
            let list = entries_upto(
                page,
                channel.names,
                channel.messages.items@,
                first,
                times,
                m,
            );
            let from = from_row(channel, page, times);
            &&& 0 <= from <= list.len()
            &&& entries_upto(
                page,
                channel.names,
                channel.messages.items@,
                offset,
                times.skip(offset - first),
                m - (offset - first),
            ) == list.skip(from)
        }),
{
    let first = first_message(channel.messages, page.height);
    let messages = channel.messages.items@;
    let k = drawn_offset(channel, page, times) - first;
    if k == 0 {
        assert(times.skip(0) =~= times);
        let list = entries_upto(page, channel.names, messages, first, times, m);
        assert(list.skip(0) =~= list);
    } else {
        lemma_later_entries(page, channel.names, messages, first, times, k, m - k);
    }
}

proof fn lemma_one_more(
    page: PageView,
    names: NameResolver,
    messages: Seq<Message>,
    offset: int,
    times: Seq<LocalTime>,
    k: int,
)
    requires
        0 <= k,
    ensures
        ({
            let before = entries_upto(page, names, messages, offset, times, k).len();
            let from = start_of(page, names, messages, offset, times, k);
            let after = entries_upto(page, names, messages, offset, times, k + 1).len();
            &&& from == before + (if date_line_at(page, times, k) is Some {
                1int
            } else {
                0
            })
            &&& from <= after <= from + 1
        }),
{
}

/// Drawing the same messages again does not move them.
///
/// The lowest message stays the lowest one, and all entries that were on the page are there again,
/// in the same order from the lower edge on. Only a line between two days at the lower edge itself
/// goes.
pub proof fn law_redraw_keeps_place(
    channel: Channel,
    page: PageView,
    times: Seq<LocalTime>,
    later: Seq<LocalTime>,
)
    requires
        page.height > 0,
        times.len() <= max(
            channel.messages.items@.len() - first_message(channel.messages, page.height),
            0,
        ),
        enough_times(channel, page, times),
        are_later_times(channel, page, times, later),
    ensures
        ({
            let next = after_drawing(channel, page, times);
            let edge = lines_at_edge(channel, page, times);
            &&& drawn_offset(next, page, later) == drawn_offset(channel, page, times)
            &&& page_entries(channel, page, times).skip(edge).is_prefix_of(
                page_entries(next, page, later),
            )
            &&& edge == 0 ==> drawn_entries(channel, page, times).is_prefix_of(
                drawn_entries(next, page, later),
            )
        }),
{
    let all = channel_entries(channel, page, times);
    let row = selection_of(channel, page, times);
    let low = lowest_row(channel, page, times);
    let first = first_message(channel.messages, page.height);
    let next = after_drawing(channel, page, times);
    let edge = lines_at_edge(channel, page, times);
    lemma_lowest(page, all, row);
    lemma_offset(channel, page, times);
    lemma_selection_row(channel, page, times);
    assert(forall|i: int| 0 <= i < all.len() ==> (#[trigger] all[i]).len() <= page.height) by {
        lemma_entry_heights(
            page,
            channel.names,
            channel.messages.items@,
            first,
            times,
            times.len() as int,
        );
    }
    assert(first_message(next.messages, page.height) == drawn_offset(channel, page, times));
    lemma_redraw(channel, page, times, later);
    if channel.messages.state.selected is None {
        assert(low == 0);
    }
    law_page_settles(page, all, row, low + edge, channel_entries(next, page, later));
    if edge == 0 {
        let list = page_entries(channel, page, times);
        assert(list.skip(0) =~= list);
        lemma_unread_line_prefix(
            list,
            page_entries(next, page, later),
            channel.unread_messages as nat,
            unread_line(page.prefix.len(), page.width as nat),
        );
    }
}

/// What was drawn once can be drawn again.
pub proof fn law_drawn_stays_drawable(
    a: App,
    b: App,
    area: Rect,
    r: Result<Option<MessagesPanel>, DrawError>,
)
    requires
        drawable(a),
        draws_messages(a, b, area, r),
    ensures
        drawable(b),
{
    let height = inside(area.height);
    if height > 0 && a.channels.state.selected is Some {
        if has_messages(a.channels) {
            let (mid, times) = choose|mid: App, times: Seq<LocalTime>|
                receipts_prepared(a, mid, height) && #[trigger] messages_drawn(
                    mid,
                    b,
                    area,
                    times,
                    r,
                );
            law_receipts_keep_channels(a, mid, height);
            let shown = a.channels.shown()->0;
            assert(b.channels.items@[shown].names == mid.channels.items@[shown].names);
        } else {
            law_receipts_keep_channels(a, b, height);
        }
    }
}

/// Drawing the messages again sends no further receipts.
///
/// This holds where the selected row displays the channel at its index: then no message above the
/// lower edge of the first drawing is left that awaits a receipt, and the second drawing does not
/// reach below that.
pub proof fn law_redraw_sends_nothing(
    a: App,
    b: App,
    c: App,
    area: Rect,
    r1: Result<Option<MessagesPanel>, DrawError>,
    r2: Result<Option<MessagesPanel>, DrawError>,
)
    requires
        selection_in_place(a.channels),
        draws_messages(a, b, area, r1),
        draws_messages(b, c, area, r2),
    ensures
        c.receipt_events@ == b.receipt_events@,
{
    let height = inside(area.height);
    if height > 0 && a.channels.state.selected is Some && a.channels.state.selected->0
        < a.channels.items@.len() {
        let i = a.channels.state.selected->0 as int;
        let mid = if has_messages(a.channels) {
            let (mid, times) = choose|mid: App, times: Seq<LocalTime>|
                receipts_prepared(a, mid, height) && #[trigger] messages_drawn(
                    mid,
                    b,
                    area,
                    times,
                    r1,
                );
            let channel = mid.channels.items@[i];
            let page = page_of(channel, mid.user_id, mid.config.show_receipts, area);
            lemma_offset(channel, page, times);
            mid
        } else {
            b
        };
        let last = if has_messages(b.channels) {
            let (last, times) = choose|last: App, times: Seq<LocalTime>|
                receipts_prepared(b, last, height) && #[trigger] messages_drawn(
                    last,
                    c,
                    area,
                    times,
                    r2,
                );
            last
        } else {
            c
        };
        let x = a.channels.items@[i].messages;
        let y = b.channels.items@[i].messages;
        let n = messages_from_offset(x, height);
        let m = messages_from_offset(y, height);
        assert(mid.channels.items@[i].messages.items@ == y.items@);
        assert(m <= n);
        assert forall|j: int| 0 <= j < m implies !awaits_receipt(
            #[trigger] y.items@.take(m)[j],
            a.user_id,
        ) by {
            assert(mid.channels.items@[i].messages.items@[j] == seen(x.items@[j], a.user_id));
        }
        lemma_nothing_to_send(y.items@.take(m), a.user_id);
        assert(last.receipt_events@ =~= b.receipt_events@);
    }
}

} // verus!
