//! The messages of a channel and the box to answer them.

use vstd::prelude::*;

use crate::bounds::{max, min};
use crate::channels::{inside, without_borders};
use crate::clock::{LocalTime, MAX_TIMESTAMP};
use crate::data::{App, Channel, ChannelList, MessageList, Rendered};
use crate::draw::{box_area, box_error, place_box, rest_area, shows, DrawError, InputPanel};
use crate::receipts::{prepare_receipts, receipts_prepared, RECEIPT_WIDTH};
use crate::receipts_laws::law_receipts_keep_channels;
use crate::text::{repeat_char, repeated};
use crate::viewport::{
    all_entries, are_enough, cut_to_page, fit_page, heights, lemma_entries_prefix, lemma_lowest,
    lemma_message_of_row, lemma_messages_below_range, lemma_rows_in_order, lowest,
    read_entries, row_of, scroll_offset, scrolled, selection_row, shows_page, start_offset,
    taken_from, times_of, visible, visible_entries, whole_messages, Page, PageView, Viewport,
};
use crate::widgets::{entries, raw, ListItem, Rect, SpanView};

verus! {

/// The columns that a time takes, as in "00:00 ".
pub const TIME_WIDTH: usize = 6;

/// The columns between the name of a sender and the text.
pub const DELIMITER_WIDTH: usize = 2;

/// The messages of a channel on the screen.
#[derive(Debug, PartialEq, Eq)]
pub struct MessagesPanel {
    pub area: Rect,
    pub title: String,
    /// The entries, the lowest first.
    pub items: Vec<ListItem>,
    /// The selected entry, counted from the lowest.
    pub selected: Option<usize>,
}

/// The columns in front of the text of a message.
pub open spec fn prefix_width(channel: Channel, show_receipts: bool) -> nat {
    TIME_WIDTH as nat + channel.names.max_name_width as nat + DELIMITER_WIDTH as nat + (
    if show_receipts {
        RECEIPT_WIDTH as nat
    } else {
        0
    })
}

/// The page on which the messages of a channel are drawn.
pub open spec fn page_of(channel: Channel, user_id: u128, show_receipts: bool, area: Rect)
    -> PageView {
    PageView {
        user_id,
        show_receipts,
        prefix: repeated(' ', prefix_width(channel, show_receipts)),
        width: inside(area.width) as usize,
        height: inside(area.height),
    }
}

/// The message to start drawing from.
pub open spec fn first_message(list: MessageList, height: nat) -> int {
    start_offset(list.state.selected, list.rendered.offset as nat, height)
}

/// The line above the unread messages.
pub open spec fn unread_line(prefix_width: nat, width: nat) -> Seq<char> {
    repeated('-', prefix_width) + "new messages"@ + repeated(
        '-',
        max(width - prefix_width, 0) as nat,
    )
}

/// Entries with the line above the unread ones, if there are read and unread ones among them.
pub open spec fn with_unread_line(
    list: Seq<Seq<Seq<SpanView>>>,
    unread: nat,
    line: Seq<char>,
) -> Seq<Seq<Seq<SpanView>>> {
    if 0 < unread < list.len() {
        list.insert(unread as int, seq![seq![raw(line)]])
    } else {
        list
    }
}

/// The entries of a channel from the first message on.
pub open spec fn channel_entries(channel: Channel, page: PageView, times: Seq<LocalTime>) -> Seq<
    Seq<Seq<SpanView>>,
> {
    all_entries(
        page,
        channel.names,
        channel.messages.items@,
        first_message(channel.messages, page.height),
        times,
    )
}

/// The row of the selected message of a channel, counted from the first message.
pub open spec fn selection_of(channel: Channel, page: PageView, times: Seq<LocalTime>) -> int {
    selection_row(
        page,
        channel.names,
        channel.messages.items@,
        first_message(channel.messages, page.height),
        times,
        channel.messages.state.selected,
    )
}

/// The lowest row that is drawn of a channel.
pub open spec fn lowest_row(channel: Channel, page: PageView, times: Seq<LocalTime>) -> int {
    lowest(page, channel_entries(channel, page, times), selection_of(channel, page, times))
}

/// The entries that are on the page of a channel.
pub open spec fn page_entries(channel: Channel, page: PageView, times: Seq<LocalTime>) -> Seq<
    Seq<Seq<SpanView>>,
> {
    visible(page, channel_entries(channel, page, times), selection_of(channel, page, times))
}

/// The entries that are drawn of a channel: those on its page, and the line above the unread ones.
pub open spec fn drawn_entries(channel: Channel, page: PageView, times: Seq<LocalTime>) -> Seq<
    Seq<Seq<SpanView>>,
> {
    with_unread_line(
        page_entries(channel, page, times),
        channel.unread_messages as nat,
        unread_line(page.prefix.len(), page.width as nat),
    )
}

/// The offset of the lowest message that is drawn of a channel.
pub open spec fn drawn_offset(channel: Channel, page: PageView, times: Seq<LocalTime>) -> int {
    let first = first_message(channel.messages, page.height);
    first + scrolled(
        page,
        channel.names,
        channel.messages.items@,
        first,
        times,
        lowest_row(channel, page, times),
    )
}

/// Where the entry `i` of a page stands among `n` entries and the line above the unread ones.
pub open spec fn below_unread_line(i: int, n: nat, unread: nat) -> int {
    if 0 < unread < n && unread <= i {
        i + 1
    } else {
        i
    }
}

/// How many messages of a channel are on its page as a whole, or below it.
pub open spec fn whole_of(channel: Channel, page: PageView, times: Seq<LocalTime>) -> int {
    whole_messages(
        page,
        channel.names,
        channel.messages.items@,
        first_message(channel.messages, page.height),
        times,
        channel.messages.state.selected,
    )
}

/// The drawn entry of the message `selected`, counted from the latest.
///
/// A message without an entry of its own shares that of the one below it. One above the page has
/// an index behind the drawn entries, as if there were an entry of each message up to it.
pub open spec fn highlighted(
    channel: Channel,
    page: PageView,
    times: Seq<LocalTime>,
    selected: usize,
) -> int {
    let first = first_message(channel.messages, page.height);
    let k = selected - first;
    let row = row_of(page, channel.names, channel.messages.items@, first, times, k);
    let n = page_entries(channel, page, times).len();
    let whole = whole_of(channel, page, times);
    let unread = channel.unread_messages as nat;
    if k < whole {
        below_unread_line(max(row - lowest_row(channel, page, times), 0), n, unread)
    } else {
        min(below_unread_line(n + (k - whole), n, unread), usize::MAX as int)
    }
}

/// The title of the messages of a channel.
pub open spec fn messages_title(channel: Channel) -> Seq<char> {
    match channel.writing_people {
        Some(people) => "Messages "@ + people@,
        None => "Messages"@,
    }
}

/// The title of the messages of a channel.
fn title(channel: &Channel) -> (s: String)
    ensures
        s@ == messages_title(*channel),
{
    match &channel.writing_people {
        Some(people) => {
            let mut s: String = "Messages ".to_owned();
            s.append(people.as_str());
            s
        },
        None => "Messages".to_owned(),
    }
}

/// The entries of a channel as they are drawn.
#[derive(Debug, PartialEq, Eq)]
pub struct MessagesLayout {
    /// The entries, the lowest first.
    pub items: Vec<ListItem>,
    /// The selected entry, counted from the lowest.
    pub selected: Option<usize>,
    /// How many of the latest messages lie below the lower edge.
    pub offset: usize,
}

/// How many of the messages come before the first one above `selected`.
fn count_upto(messages: &Vec<usize>, selected: usize) -> (count: usize)
    ensures
        count <= messages@.len(),
        forall|i: int| 0 <= i < count ==> #[trigger] messages@[i] <= selected,
        count < messages@.len() ==> messages@[count as int] > selected,
{
    let mut count: usize = 0;
    while count < messages.len() && messages[count] <= selected
        invariant
            count <= messages@.len(),
            forall|i: int| 0 <= i < count ==> #[trigger] messages@[i] <= selected,
        decreases messages@.len() - count,
    {
        count = count + 1;
    }
    count
}

/// The page on which the messages of a channel are drawn.
fn page_for(channel: &Channel, user_id: u128, show_receipts: bool, area: Rect) -> (page: Page)
    requires
        prefix_width(*channel, show_receipts) <= usize::MAX,
    ensures
        page@ == page_of(*channel, user_id, show_receipts, area),
{
    // message display options
    let mut prefix_width: usize = TIME_WIDTH + channel.names.max_name_width() + DELIMITER_WIDTH;
    if show_receipts {
        prefix_width = prefix_width + RECEIPT_WIDTH;
    }
    Page {
        user_id,
        show_receipts,
        prefix: repeat_char(' ', prefix_width),
        width: without_borders(area.width),
        height: without_borders(area.height),
    }
}

/// What a layout holds of a channel whose messages arrived at the given local times.
pub open spec fn lays_out(
    layout: MessagesLayout,
    channel: Channel,
    page: PageView,
    times: Seq<LocalTime>,
    selected: Option<usize>,
) -> bool {
    &&& entries(layout.items@) == drawn_entries(channel, page, times)
    &&& layout.offset == drawn_offset(channel, page, times)
    &&& match selected {
        Some(s) => layout.selected matches Some(e) && e == highlighted(channel, page, times, s),
        None => layout.selected is None,
    }
    &&& fit_page(layout.items@, page)
}

/// Arranges the entries on the page of a channel.
fn arrange(
    channel: &Channel,
    page: &Page,
    Ghost(times): Ghost<Seq<LocalTime>>,
    viewport: Viewport,
    selected: Option<usize>,
) -> (r: MessagesLayout)
    requires
        page.height > 0,
        shows_page(
            viewport,
            page@,
            channel.names,
            channel.messages.items@,
            first_message(channel.messages, page.height as nat),
            times,
            channel.messages.state.selected,
        ),
    ensures
        lays_out(r, *channel, page@, times, selected),
{
    let mut items: Vec<ListItem> = viewport.items;
    let unread_messages: usize = channel.unread_messages;

    // update selected state to point within `items`
    let entry: Option<usize> = match selected {
        Some(s) => {
            let i: usize = if s < viewport.end {
                let count: usize = count_upto(&viewport.messages, s);
                proof {
                    lemma_count(*channel, page@, times, viewport, s, count as int);
                }
                if count > 0 {
                    count - 1
                } else {
                    0
                }
            } else {
                items.len().saturating_add(s - viewport.end)
            };
            if 0 < unread_messages && unread_messages < items.len() && unread_messages <= i {
                Some(i.saturating_add(1))
            } else {
                Some(i)
            }
        },
        None => None,
    };

    // add unread messages line
    if unread_messages > 0 && unread_messages < items.len() {
        let prefix_width: usize = page.prefix.as_str().unicode_len();
        let mut line: String = repeat_char('-', prefix_width);
        line.append("new messages");
        let rest: String = repeat_char(
            '-',
            if page.width > prefix_width {
                page.width - prefix_width
            } else {
                0
            },
        );
        line.append(rest.as_str());
        let ghost before = items@;
        let item = ListItem::single(line);
        items.insert(unread_messages, item);
        assert(entries(items@) =~= entries(before).insert(unread_messages as int, item@));
    }
    MessagesLayout { items, selected: entry, offset: viewport.offset }
}

/// Lays out the messages of a channel, of which the first ones from the offset upwards arrived at
/// the given local times.
///
/// `selected` is the message to highlight, counted from the latest.
pub fn layout_messages(
    channel: &Channel,
    user_id: u128,
    show_receipts: bool,
    area: Rect,
    times: &Vec<LocalTime>,
    selected: Option<usize>,
) -> (r: MessagesLayout)
    requires
        inside(area.height) > 0,
        prefix_width(*channel, show_receipts) <= usize::MAX,
        times@.len() <= max(
            channel.messages.items@.len() - first_message(channel.messages, inside(area.height)),
            0,
        ),
        forall|k: int| 0 <= k < times@.len() ==> (#[trigger] times@[k]).wf(),
    ensures
        lays_out(
            r,
            *channel,
            page_of(*channel, user_id, show_receipts, area),
            times@,
            selected,
        ),
{
    let page = page_for(channel, user_id, show_receipts, area);
    let list = &channel.messages;
    let offset: usize = scroll_offset(list.state.selected, list.rendered.offset, page.height);
    let viewport = visible_entries(
        &page,
        &channel.names,
        &list.items,
        offset,
        times,
        list.state.selected,
    );
    arrange(channel, &page, Ghost(times@), viewport, selected)
}

proof fn lemma_count(
    channel: Channel,
    page: PageView,
    times: Seq<LocalTime>,
    viewport: Viewport,
    selected: usize,
    count: int,
)
    requires
        shows_page(
            viewport,
            page,
            channel.names,
            channel.messages.items@,
            first_message(channel.messages, page.height),
            times,
            channel.messages.state.selected,
        ),
        selected < viewport.end,
        0 <= count <= viewport.messages@.len(),
        forall|i: int| 0 <= i < count ==> #[trigger] viewport.messages@[i] <= selected,
        count < viewport.messages@.len() ==> viewport.messages@[count] > selected,
    ensures
        ({
            let first = first_message(channel.messages, page.height);
            let row = row_of(
                page,
                channel.names,
                channel.messages.items@,
                first,
                times,
                selected - first,
            );
            max(row - lowest_row(channel, page, times), 0) == max(count - 1, 0)
        }),
{
    let first = first_message(channel.messages, page.height);
    let messages = channel.messages.items@;
    let owners = viewport.messages@;
    let low = lowest_row(channel, page, times);
    let row = row_of(page, channel.names, messages, first, times, selected - first);
    assert(owners.len() == page_entries(channel, page, times).len());
    lemma_row_on_page(channel, page, times, selected - first);
    if count > 0 {
        assert(low + count - 1 <= row) by {
            assert(owners[count - 1] <= selected);
            lemma_rows_in_order(
                page,
                channel.names,
                messages,
                first,
                times,
                low + count - 1,
                owners[count - 1] - first,
                selected - first,
            );
        }
    }
    if count < owners.len() {
        assert(row < low + count) by {
            assert(owners[count] > selected);
            lemma_rows_in_order(
                page,
                channel.names,
                messages,
                first,
                times,
                low + count,
                owners[count] - first,
                selected - first,
            );
        }
    }
}

/// The row of a message that is drawn as a whole does not lie above the page.
pub(crate) proof fn lemma_row_on_page(
    channel: Channel,
    page: PageView,
    times: Seq<LocalTime>,
    k: int,
)
    requires
        k < whole_of(channel, page, times),
    ensures
        row_of(
            page,
            channel.names,
            channel.messages.items@,
            first_message(channel.messages, page.height),
            times,
            k,
        ) < lowest_row(channel, page, times) + page_entries(channel, page, times).len(),
{
    let first = first_message(channel.messages, page.height);
    let messages = channel.messages.items@;
    let all = channel_entries(channel, page, times);
    let selection = selection_of(channel, page, times);
    let n = taken_from(heights(all), page.height, selection, 0);
    lemma_lowest(page, all, selection);
    lemma_messages_below_range(
        page,
        channel.names,
        messages,
        first,
        times,
        n,
        times.len() as int,
    );
    if k >= 0 {
        let whole = whole_of(channel, page, times);
        lemma_entries_prefix(page, channel.names, messages, first, times, k + 1, whole);
    }
}

/// Whether two states differ in nothing but the offset of the messages of one channel.
pub open spec fn offset_stored(a: App, b: App, idx: int, offset: int) -> bool {
    let x = a.channels.items@[idx];
    &&& b == App { channels: b.channels, ..a }
    &&& b.channels == ChannelList { items: b.channels.items, ..a.channels }
    &&& b.channels.items@ == a.channels.items@.update(
        idx,
        Channel {
            messages: MessageList {
                rendered: Rendered { offset: offset as usize },
                ..x.messages
            },
            ..x
        },
    )
}

/// Whether the known times are enough to draw a channel: those of all messages from the first one
/// on, or up to one that is not drawn as a whole.
pub open spec fn enough_times(channel: Channel, page: PageView, times: Seq<LocalTime>) -> bool {
    are_enough(
        page,
        channel.names,
        channel.messages.items@,
        first_message(channel.messages, page.height),
        times,
        channel.messages.state.selected,
    )
}

/// What drawing the messages makes of a state in which the receipts were prepared, where the
/// messages of the selected channel arrived at the given local times.
///
/// The time of a message is read once all entries below it are drawn.
pub open spec fn messages_drawn(
    mid: App,
    last: App,
    area: Rect,
    times: Seq<LocalTime>,
    r: Result<Option<MessagesPanel>, DrawError>,
) -> bool {
    let idx = mid.channels.state.selected->0 as int;
    let channel = mid.channels.items@[mid.channels.shown()->0];
    let page = page_of(channel, mid.user_id, mid.config.show_receipts, area);
    let first = first_message(channel.messages, page.height);
    let messages = channel.messages.items@;
    let offset = drawn_offset(channel, page, times);
    let selected = mid.channels.items@[idx].messages.state.selected;
    &&& times_of(messages, first, times)
    &&& if !enough_times(channel, page, times) {
        &&& messages[messages.len() - 1 - first - times.len()].arrived_at > MAX_TIMESTAMP
        &&& r == Err::<Option<MessagesPanel>, DrawError>(DrawError::OffCalendar)
        &&& last == mid
    } else if selected is Some && selected->0 < offset {
        r == Err::<Option<MessagesPanel>, DrawError>(DrawError::SelectionOffScreen) && last == mid
    } else {
        &&& r matches Ok(Some(panel))
        &&& panel.area == area
        &&& panel.title@ == messages_title(channel)
        &&& entries(panel.items@) == drawn_entries(channel, page, times)
        &&& fit_page(panel.items@, page)
        &&& match selected {
            Some(s) => panel.selected matches Some(e) && e == highlighted(
                channel,
                page,
                times,
                s,
            ),
            None => panel.selected is None,
        }
        &&& offset_stored(mid, last, idx, offset)
    }
}

/// Whether there are messages to draw.
pub open spec fn has_messages(channels: ChannelList) -> bool {
    channels.shown() matches Some(i) && channels.items@[i].messages.items@.len() > 0
}

/// What drawing the messages in an area makes of a state.
///
/// The local times of the messages are those of the time zone of the machine.
pub open spec fn draws_messages(
    a: App,
    b: App,
    area: Rect,
    r: Result<Option<MessagesPanel>, DrawError>,
) -> bool {
    let height = inside(area.height);
    if height == 0 {
        r == Ok::<Option<MessagesPanel>, DrawError>(None) && b == a
    } else if !has_messages(a.channels) {
        r == Ok::<Option<MessagesPanel>, DrawError>(None) && receipts_prepared(a, b, height)
    } else {
        exists|mid: App, times: Seq<LocalTime>|
            receipts_prepared(a, mid, height) && #[trigger] messages_drawn(mid, b, area, times, r)
    }
}

/// Whether the channel that is displayed in the selected row is the one at its index.
pub open spec fn selection_in_place(channels: ChannelList) -> bool {
    channels.state.selected matches Some(i) ==> i < channels.filtered_items@.len()
        && channels.filtered_items@[i as int] == i
}

/// Whether the calendar covers all messages from the offset upwards.
pub open spec fn covered(list: MessageList, height: nat) -> bool {
    forall|j: int|
        0 <= j < list.items@.len() - first_message(list, height) ==> (
        #[trigger] list.items@[j]).arrived_at <= MAX_TIMESTAMP
}

/// Whether the messages of the selected channel can be drawn: its row exists, and where there are
/// messages, so does a channel at the index of the row, and the names leave room for what stands
/// beside them.
pub open spec fn drawable(app: App) -> bool {
    app.channels.state.selected matches Some(i) ==> {
        &&& i < app.channels.filtered_items@.len()
        &&& has_messages(app.channels) ==> {
            let channel = app.channels.items@[app.channels.shown()->0];
            &&& i < app.channels.items@.len()
            &&& prefix_width(channel, app.config.show_receipts) <= usize::MAX
        }
    }
}

/// Whether the messages of the selected channel can be drawn.
pub fn can_draw_messages(app: &App) -> (b: bool)
    ensures
        b == drawable(*app),
{
    let idx: usize = match app.channels.state.selected {
        Some(i) => i,
        None => return true,
    };
    if idx >= app.channels.filtered_items.len() {
        return false;
    }
    let shown: usize = app.channels.filtered_items[idx];
    if shown >= app.channels.items.len() || app.channels.items[shown].messages.items.len() == 0 {
        return true;
    }
    let receipt_width: usize = if app.config.show_receipts {
        RECEIPT_WIDTH
    } else {
        0
    };
    let name_width: usize = app.channels.items[shown].names.max_name_width();
    idx < app.channels.items.len() && name_width <= usize::MAX - TIME_WIDTH - DELIMITER_WIDTH
        - receipt_width
}

/// Draws the messages of the selected channel, which are then read, from the latest upwards.
///
/// Nothing is drawn in an area without a line inside of its borders, nor of a channel that is
/// missing or has no messages.
pub fn draw_messages(app: &mut App, area: Rect) -> (r: Result<Option<MessagesPanel>, DrawError>)
    requires
        inside(area.height) > 0 ==> drawable(*old(app)),
    ensures
        draws_messages(*old(app), *final(app), area, r),
        // the selection can only be lost where the search displays another channel in its row
        r matches Err(e) ==> e == DrawError::OffCalendar || e == DrawError::SelectionOffScreen
            && !selection_in_place(old(app).channels),
        has_messages(old(app).channels) && covered(
            old(app).channels.items@[old(app).channels.shown()->0].messages,
            inside(area.height),
        ) ==> r != Err::<Option<MessagesPanel>, DrawError>(DrawError::OffCalendar),
        old(app).channels.wf() ==> final(app).channels.wf(),
{
    // area without borders
    let height: usize = without_borders(area.height);
    if height == 0 {
        return Ok(None);
    }
    prepare_receipts(app, height);
    proof {
        law_receipts_keep_channels(*old(app), *app, height as nat);
    }
    let ghost mid = *app;
    let idx: usize = match app.channels.state.selected {
        Some(i) => i,
        None => return Ok(None),
    };
    let shown: usize = app.channels.filtered_items[idx];
    if shown >= app.channels.items.len() {
        return Ok(None);
    }
    let channel = &app.channels.items[shown];
    if channel.messages.items.len() == 0 {
        return Ok(None);
    }
    let page = page_for(channel, app.user_id, app.config.show_receipts, area);
    let list = &channel.messages;
    let offset: usize = scroll_offset(list.state.selected, list.rendered.offset, height);
    assert(list.items@.len() == list.items.len());
    let reading = read_entries(&page, &channel.names, &list.items, offset, list.state.selected);
    let ghost times = reading.times@;
    if reading.off_calendar {
        proof {
            let j = list.items@.len() - 1 - offset - times.len();
            let before = old(app).channels.items@[shown as int].messages;
            assert(list.items@[j].arrived_at == before.items@[j].arrived_at);
            assert(messages_drawn(mid, *app, area, times, Err(DrawError::OffCalendar)));
        }
        return Err(DrawError::OffCalendar);
    }
    let viewport = cut_to_page(
        &page,
        &channel.names,
        &list.items,
        offset,
        &reading.times,
        list.state.selected,
        reading.collected,
    );
    let selected: Option<usize> = app.channels.items[idx].messages.state.selected;
    let layout = arrange(channel, &page, Ghost(times), viewport, selected);
    let title: String = title(channel);
    proof {
        lemma_offset(*channel, page@, times);
    }
    if let Some(s) = selected {
        if s < layout.offset {
            assert(messages_drawn(mid, *app, area, times, Err(DrawError::SelectionOffScreen)));
            return Err(DrawError::SelectionOffScreen);
        }
    }

    // update offset
    app.channels.items[idx].messages.rendered.offset = layout.offset;
    let ghost new_offset = layout.offset;
    let panel = MessagesPanel { area, title, items: layout.items, selected: layout.selected };
    proof {
        let x = mid.channels.items@[idx as int];
        assert(app.channels.items@ =~= mid.channels.items@.update(
            idx as int,
            Channel {
                messages: MessageList {
                    rendered: Rendered { offset: new_offset },
                    ..x.messages
                },
                ..x
            },
        ));
        assert(messages_drawn(mid, *app, area, times, Ok(Some(panel))));
    }
    Ok(Some(panel))
}

/// The offset never leaves the selected message behind, and does not move without one.
pub(crate) proof fn lemma_offset(channel: Channel, page: PageView, times: Seq<LocalTime>)
    ensures
        ({
            let first = first_message(channel.messages, page.height);
            let offset = drawn_offset(channel, page, times);
            &&& first <= offset
            &&& channel.messages.state.selected matches Some(s) ==> offset <= s
            &&& channel.messages.state.selected is None ==> offset == first
        }),
{
    let first = first_message(channel.messages, page.height);
    let all = channel_entries(channel, page, times);
    let row = selection_of(channel, page, times);
    let low = lowest_row(channel, page, times);
    lemma_lowest(page, all, row);
    if low > 0 {
        let n = times.len() as int;
        let k = lemma_message_of_row(
            page,
            channel.names,
            channel.messages.items@,
            first,
            times,
            low,
            n,
        );
        if let Some(s) = channel.messages.state.selected {
            lemma_rows_in_order(
                page,
                channel.names,
                channel.messages.items@,
                first,
                times,
                low,
                k,
                s - first,
            );
        }
    }
}

/// The part of an area that the messages take.
pub open spec fn messages_area(app: App, area: Rect) -> Rect {
    rest_area(app.input, area, false)
}

/// The part of an area that the box to answer messages takes.
pub open spec fn input_area(app: App, area: Rect) -> Rect {
    box_area(app.input, area, false)
}

/// What drawing the chat in an area makes of a state.
pub open spec fn draws_chat(
    a: App,
    b: App,
    area: Rect,
    r: Result<(Option<MessagesPanel>, InputPanel), DrawError>,
) -> bool {
    match box_error(a.input, input_area(a, area), !a.is_searching) {
        Some(e) => r matches Err(x) && x == e && b == a,
        None => match r {
            Ok((messages, input)) => {
                &&& draws_messages(a, b, messages_area(a, area), Ok(messages))
                &&& input.title@ == (if a.is_multiline_input {
                    "Input (Multiline)"@
                } else {
                    "Input"@
                })
                &&& input.area == input_area(a, area)
                &&& shows(input, a.input, !a.is_searching)
            },
            Err(e) => {
                &&& draws_messages(a, b, messages_area(a, area), Err(e))
                &&& e == DrawError::OffCalendar || e == DrawError::SelectionOffScreen
                    && !selection_in_place(a.channels)
            },
        },
    }
}

/// Whether the chat can be drawn in an area: where the box to answer messages can, and leaves a
/// line for them, so can they.
pub open spec fn chat_drawable(app: App, area: Rect) -> bool {
    box_error(app.input, input_area(app, area), !app.is_searching) is None && inside(
        messages_area(app, area).height,
    ) > 0 ==> drawable(app)
}

/// Whether the chat can be drawn in an area.
pub fn can_draw_chat(app: &App, area: Rect) -> (b: bool)
    requires
        area.wf(),
        app.input.wf(),
    ensures
        b == chat_drawable(*app, area),
{
    match place_box(&app.input, area, false, !app.is_searching, String::new()) {
        Ok((_, messages)) => without_borders(messages.height) == 0 || can_draw_messages(app),
        Err(_) => true,
    }
}

/// Draws the messages of the selected channel and below them the box to answer them.
pub fn draw_chat(app: &mut App, area: Rect) -> (r: Result<
    (Option<MessagesPanel>, InputPanel),
    DrawError,
>)
    requires
        area.wf(),
        chat_drawable(*old(app), area),
        old(app).input.wf(),
    ensures
        old(app).channels.wf() ==> final(app).channels.wf(),
        draws_chat(*old(app), *final(app), area, r),
{
    let title: String = if app.is_multiline_input {
        "Input (Multiline)".to_owned()
    } else {
        "Input".to_owned()
    };
    let (input, rest) = match place_box(&app.input, area, false, !app.is_searching, title) {
        Ok(t) => t,
        Err(e) => return Err(e),
    };
    let messages = match draw_messages(app, rest) {
        Ok(panel) => panel,
        Err(e) => return Err(e),
    };
    Ok((messages, input))
}

} // verus!
