//! Which part of a channel's messages is visible.

use vstd::prelude::*;

use crate::bounds::{max, min};
use crate::clock::{clock, clock_text, utc_timestamp_msec_to_local, LocalTime, MAX_TIMESTAMP};
use crate::data::Message;
use crate::message::{date_line, date_line_text, is_indented, message_entry, message_item};
use crate::names::NameResolver;
use crate::receipts::{receipt_shown, ShowReceipt};
use crate::widgets::{entries, raw, ListItem, SpanView};

verus! {

/// The message to start drawing from, counted from the latest: the one of the last time, moved so
/// that the selected message lies above it and at most `height` messages away.
pub open spec fn start_offset(selected: Option<usize>, rendered: nat, height: nat) -> int {
    match selected {
        Some(s) => max(min(rendered as int, s as int), max(s - height, 0)),
        None => rendered as int,
    }
}

/// Calculates the offset in messages to start drawing with.
pub fn scroll_offset(selected: Option<usize>, rendered: usize, height: usize) -> (offset: usize)
    ensures
        offset == start_offset(selected, rendered as nat, height as nat),
        selected matches Some(s) ==> offset <= s && s <= offset + height,
{
    match selected {
        Some(s) => {
            let near: usize = if rendered < s {
                rendered
            } else {
                s
            };
            let far: usize = if s > height {
                s - height
            } else {
                0
            };
            if near > far {
                near
            } else {
                far
            }
        },
        None => rendered,
    }
}

/// The sum of heights.
pub open spec fn total(heights: Seq<nat>) -> nat
    decreases heights.len(),
{
    if heights.len() == 0 {
        0
    } else {
        total(heights.drop_last()) + heights.last()
    }
}

/// The heights of entries.
pub open spec fn heights(list: Seq<Seq<Seq<SpanView>>>) -> Seq<nat> {
    list.map_values(|e: Seq<Seq<SpanView>>| e.len())
}

/// Whether the entry `i`, counted from the lower edge, is taken up: it still fits into the height
/// of the list, or it does not lie above the row of the selected message.
pub open spec fn taken_up(h: Seq<nat>, height: nat, selection: int, i: int) -> bool {
    total(h.take(i + 1)) <= height || i <= selection
}

/// How many entries are taken up one after the other from the entry `i` on.
pub open spec fn taken_from(h: Seq<nat>, height: nat, selection: int, i: int) -> int
    decreases h.len() - i,
{
    if i < h.len() && taken_up(h, height, selection, i) {
        taken_from(h, height, selection, i + 1)
    } else {
        i
    }
}

/// The first of the entries of which the last ones fill at most `room` lines; all of them if not
/// even the last one fits.
pub open spec fn first_visible(h: Seq<nat>, room: nat) -> int {
    if first_fitting(h, room) == h.len() {
        0
    } else {
        first_fitting(h, room)
    }
}

/// The first of the entries that fit into `room` lines, filled from the last one on.
pub open spec fn first_fitting(h: Seq<nat>, room: nat) -> int
    decreases h.len(),
{
    if h.len() == 0 {
        0
    } else if h.last() <= room {
        first_fitting(h.drop_last(), (room - h.last()) as nat)
    } else {
        h.len() as int
    }
}

/// How the messages of a channel are laid out on a page.
#[derive(Debug, PartialEq, Eq)]
pub struct Page {
    /// The user who looks at the messages.
    pub user_id: u128,
    pub show_receipts: bool,
    /// What stands in front of all lines of a message but the first.
    pub prefix: String,
    pub width: usize,
    pub height: usize,
}

/// A page, with its prefix as a sequence of characters.
pub struct PageView {
    pub user_id: u128,
    pub show_receipts: bool,
    pub prefix: Seq<char>,
    pub width: usize,
    pub height: nat,
}

impl View for Page {
    type V = PageView;

    open spec fn view(&self) -> PageView {
        PageView {
            user_id: self.user_id,
            show_receipts: self.show_receipts,
            prefix: self.prefix@,
            width: self.width,
            height: self.height as nat,
        }
    }
}

/// The entry of the message `k`, counted from the offset upwards, if it has one.
pub open spec fn entry_at(
    page: PageView,
    names: NameResolver,
    messages: Seq<Message>,
    offset: int,
    times: Seq<LocalTime>,
    k: int,
) -> Option<Seq<Seq<SpanView>>> {
    let msg = messages[messages.len() - 1 - offset - k];
    message_entry(
        names,
        msg,
        clock_text(times[k].second as nat),
        page.prefix,
        page.width,
        page.height,
        receipt_shown(msg, page.user_id, page.show_receipts),
    )
}

/// The line between the message `k` and the later one below it, if that is of another day.
pub open spec fn date_line_at(page: PageView, times: Seq<LocalTime>, k: int) -> Option<
    Seq<Seq<SpanView>>,
> {
    if k > 0 && times[k].day != times[k - 1].day {
        Some(seq![seq![raw(date_line_text(times[k].day as int, page.width as nat))]])
    } else {
        None
    }
}

/// A list with one more entry, if there is one.
pub open spec fn extended<T>(list: Seq<T>, entry: Option<T>) -> Seq<T> {
    match entry {
        Some(e) => list.push(e),
        None => list,
    }
}

/// The entries of the first `n` messages from the offset upwards.
///
/// `times` are the local times of these messages.
pub open spec fn entries_upto(
    page: PageView,
    names: NameResolver,
    messages: Seq<Message>,
    offset: int,
    times: Seq<LocalTime>,
    n: int,
) -> Seq<Seq<Seq<SpanView>>>
    decreases n,
{
    if n <= 0 {
        Seq::empty()
    } else {
        extended(
            extended(
                entries_upto(page, names, messages, offset, times, n - 1),
                date_line_at(page, times, n - 1),
            ),
            entry_at(page, names, messages, offset, times, n - 1),
        )
    }
}

/// All entries from the offset upwards, of the messages whose local times are known.
pub open spec fn all_entries(
    page: PageView,
    names: NameResolver,
    messages: Seq<Message>,
    offset: int,
    times: Seq<LocalTime>,
) -> Seq<Seq<Seq<SpanView>>> {
    entries_upto(page, names, messages, offset, times, times.len() as int)
}

/// The row of the message `k`, counted from the offset upwards: that of its entry, or, if it has
/// none, of the entry below.
pub open spec fn row_of(
    page: PageView,
    names: NameResolver,
    messages: Seq<Message>,
    offset: int,
    times: Seq<LocalTime>,
    k: int,
) -> int {
    let n = times.len() as int;
    entries_upto(page, names, messages, offset, times, min(k + 1, n)).len() - 1
}

/// The row of the selected message; -1 if there is none.
pub open spec fn selection_row(
    page: PageView,
    names: NameResolver,
    messages: Seq<Message>,
    offset: int,
    times: Seq<LocalTime>,
    selected: Option<usize>,
) -> int {
    match selected {
        Some(s) => row_of(page, names, messages, offset, times, s - offset),
        None => -1,
    }
}

/// Whether the entry in a row is that of the message `k`, or the line below it.
pub open spec fn belongs(
    page: PageView,
    names: NameResolver,
    messages: Seq<Message>,
    offset: int,
    times: Seq<LocalTime>,
    row: int,
    k: int,
) -> bool {
    &&& 0 <= k < times.len()
    &&& entries_upto(page, names, messages, offset, times, k).len() <= row
    &&& row < entries_upto(page, names, messages, offset, times, k + 1).len()
}

/// How many of the first `n` messages from the offset upwards lie wholly below a row.
pub open spec fn messages_below(
    page: PageView,
    names: NameResolver,
    messages: Seq<Message>,
    offset: int,
    times: Seq<LocalTime>,
    row: int,
    n: int,
) -> int
    decreases n,
{
    if n <= 0 {
        0
    } else if entries_upto(page, names, messages, offset, times, n).len() <= row {
        n
    } else {
        messages_below(page, names, messages, offset, times, row, n - 1)
    }
}

/// How many messages left the page at its lower edge when a row became the lowest.
pub open spec fn scrolled(
    page: PageView,
    names: NameResolver,
    messages: Seq<Message>,
    offset: int,
    times: Seq<LocalTime>,
    row: int,
) -> int {
    if row <= 0 {
        0
    } else {
        messages_below(page, names, messages, offset, times, row, times.len() as int)
    }
}

proof fn lemma_total_push(h: Seq<nat>, x: nat)
    ensures
        total(h.push(x)) == total(h) + x,
{
    assert(h.push(x).drop_last() =~= h);
}

proof fn lemma_heights_push(list: Seq<Seq<Seq<SpanView>>>, e: Seq<Seq<SpanView>>)
    ensures
        heights(list.push(e)) == heights(list).push(e.len()),
        total(heights(list.push(e))) == total(heights(list)) + e.len(),
{
    assert(heights(list.push(e)) =~= heights(list).push(e.len()));
    lemma_total_push(heights(list), e.len());
}

pub(crate) proof fn lemma_taken_from(h: Seq<nat>, height: nat, selection: int, a: int, b: int)
    requires
        0 <= a <= b <= h.len(),
        forall|i: int| a <= i < b ==> #[trigger] taken_up(h, height, selection, i),
    ensures
        taken_from(h, height, selection, a) == taken_from(h, height, selection, b),
    decreases b - a,
{
    if a < b {
        assert(taken_up(h, height, selection, a));
        lemma_taken_from(h, height, selection, a + 1, b);
    }
}

pub(crate) proof fn lemma_entries_prefix(
    page: PageView,
    names: NameResolver,
    messages: Seq<Message>,
    offset: int,
    times: Seq<LocalTime>,
    m: int,
    n: int,
)
    requires
        0 <= m <= n,
    ensures
        entries_upto(page, names, messages, offset, times, m).is_prefix_of(
            entries_upto(page, names, messages, offset, times, n),
        ),
    decreases n - m,
{
    if m < n {
        lemma_entries_prefix(page, names, messages, offset, times, m, n - 1);
        let a = entries_upto(page, names, messages, offset, times, m);
        let b = entries_upto(page, names, messages, offset, times, n - 1);
        let c = entries_upto(page, names, messages, offset, times, n);
        assert(a =~= c.take(a.len() as int));
    }
}

/// More known times do not change the entries of the messages whose times were known.
pub(crate) proof fn lemma_known_entries(
    page: PageView,
    names: NameResolver,
    messages: Seq<Message>,
    offset: int,
    times: Seq<LocalTime>,
    more: Seq<LocalTime>,
    n: int,
)
    requires
        times.is_prefix_of(more),
        n <= times.len(),
    ensures
        entries_upto(page, names, messages, offset, times, n) == entries_upto(
            page,
            names,
            messages,
            offset,
            more,
            n,
        ),
    decreases n,
{
    if n > 0 {
        lemma_known_entries(page, names, messages, offset, times, more, n - 1);
        assert(times[n - 1] == more[n - 1]);
        if n > 1 {
            assert(times[n - 2] == more[n - 2]);
        }
    }
}

pub(crate) proof fn lemma_messages_below(
    page: PageView,
    names: NameResolver,
    messages: Seq<Message>,
    offset: int,
    times: Seq<LocalTime>,
    row: int,
    k: int,
    n: int,
)
    requires
        belongs(page, names, messages, offset, times, row, k),
        k < n,
    ensures
        messages_below(page, names, messages, offset, times, row, n) == k,
    decreases n,
{
    lemma_entries_prefix(page, names, messages, offset, times, k + 1, n);
    if n > k + 1 {
        lemma_messages_below(page, names, messages, offset, times, row, k, n - 1);
    } else {
        lemma_messages_below_row(page, names, messages, offset, times, row, k);
    }
}

pub(crate) proof fn lemma_messages_below_range(
    page: PageView,
    names: NameResolver,
    messages: Seq<Message>,
    offset: int,
    times: Seq<LocalTime>,
    row: int,
    n: int,
)
    requires
        0 <= n,
        0 <= row,
    ensures
        ({
            let m = messages_below(page, names, messages, offset, times, row, n);
            &&& 0 <= m <= n
            &&& entries_upto(page, names, messages, offset, times, m).len() <= row
        }),
    decreases n,
{
    if n > 0 && entries_upto(page, names, messages, offset, times, n).len() > row {
        lemma_messages_below_range(page, names, messages, offset, times, row, n - 1);
    }
}

pub(crate) proof fn lemma_messages_below_at_least(
    page: PageView,
    names: NameResolver,
    messages: Seq<Message>,
    offset: int,
    times: Seq<LocalTime>,
    row: int,
    m: int,
    n: int,
)
    requires
        0 <= m <= n,
        entries_upto(page, names, messages, offset, times, m).len() <= row,
    ensures
        messages_below(page, names, messages, offset, times, row, n) >= m,
    decreases n,
{
    if m < n && entries_upto(page, names, messages, offset, times, n).len() > row {
        lemma_messages_below_at_least(page, names, messages, offset, times, row, m, n - 1);
    }
}

/// Every row belongs to a message: to the first one that does not lie wholly below it.
pub(crate) proof fn lemma_message_of_row(
    page: PageView,
    names: NameResolver,
    messages: Seq<Message>,
    offset: int,
    times: Seq<LocalTime>,
    row: int,
    n: int,
) -> (k: int)
    requires
        0 <= row < entries_upto(page, names, messages, offset, times, n).len(),
        0 <= n <= times.len(),
    ensures
        belongs(page, names, messages, offset, times, row, k),
        messages_below(page, names, messages, offset, times, row, n) == k,
        k < n,
    decreases n,
{
    if entries_upto(page, names, messages, offset, times, n - 1).len() <= row {
        lemma_messages_below(page, names, messages, offset, times, row, n - 1, n);
        n - 1
    } else {
        lemma_message_of_row(page, names, messages, offset, times, row, n - 1)
    }
}

proof fn lemma_messages_below_row(
    page: PageView,
    names: NameResolver,
    messages: Seq<Message>,
    offset: int,
    times: Seq<LocalTime>,
    row: int,
    n: int,
)
    requires
        0 <= n,
        entries_upto(page, names, messages, offset, times, n).len() <= row,
    ensures
        messages_below(page, names, messages, offset, times, row, n) == n,
{
}

/// A row is not above that of a message if and only if it belongs to it or to one below.
pub(crate) proof fn lemma_rows_in_order(
    page: PageView,
    names: NameResolver,
    messages: Seq<Message>,
    offset: int,
    times: Seq<LocalTime>,
    row: int,
    k: int,
    j: int,
)
    requires
        belongs(page, names, messages, offset, times, row, k),
    ensures
        k <= j <==> row <= row_of(page, names, messages, offset, times, j),
{
    let n = times.len() as int;
    if k <= j {
        lemma_entries_prefix(page, names, messages, offset, times, k + 1, min(j + 1, n));
    } else if j >= 0 {
        lemma_entries_prefix(page, names, messages, offset, times, j + 1, k);
    }
}

/// Whether the entries of the message `k` have to be taken up: it does not lie above the selected
/// one.
spec fn is_needed(selected: Option<usize>, offset: int, k: int) -> bool {
    selected matches Some(s) && k <= s - offset
}

/// What is left of a height behind entries, if they do not exceed it.
spec fn is_room(room: Option<usize>, height: nat, list: Seq<Seq<Seq<SpanView>>>) -> bool {
    match room {
        Some(r) => total(heights(list)) + r == height,
        None => total(heights(list)) > height,
    }
}

/// Whether `list` are the first entries of all, `owners` their messages, and each of them fits or
/// has to be taken up.
spec fn are_first(
    page: PageView,
    names: NameResolver,
    messages: Seq<Message>,
    offset: int,
    times: Seq<LocalTime>,
    selected: Option<usize>,
    list: Seq<Seq<Seq<SpanView>>>,
    owners: Seq<usize>,
) -> bool {
    &&& list.is_prefix_of(all_entries(page, names, messages, offset, times))
    &&& owners.len() == list.len()
    &&& forall|i: int|
        0 <= i < owners.len() ==> belongs(
            page,
            names,
            messages,
            offset,
            times,
            i,
            #[trigger] owners[i] as int,
        )
    &&& forall|i: int|
        0 <= i < owners.len() ==> total(heights(list).take(i + 1)) <= page.height || is_needed(
            selected,
            offset,
            #[trigger] owners[i] as int,
        )
}

/// Whether the entry in a row is one of the message `k` that neither fits nor has to be taken up.
spec fn is_rejected(
    page: PageView,
    names: NameResolver,
    messages: Seq<Message>,
    offset: int,
    times: Seq<LocalTime>,
    selected: Option<usize>,
    row: int,
    k: int,
) -> bool {
    &&& belongs(page, names, messages, offset, times, row, k)
    &&& total(heights(all_entries(page, names, messages, offset, times)).take(row + 1))
        > page.height
    &&& !is_needed(selected, offset, k)
}

proof fn lemma_more_known(
    page: PageView,
    names: NameResolver,
    messages: Seq<Message>,
    offset: int,
    times: Seq<LocalTime>,
    more: Seq<LocalTime>,
    selected: Option<usize>,
    list: Seq<Seq<Seq<SpanView>>>,
    owners: Seq<usize>,
)
    requires
        times.is_prefix_of(more),
        are_first(page, names, messages, offset, times, selected, list, owners),
    ensures
        are_first(page, names, messages, offset, more, selected, list, owners),
        forall|k: int|
            is_rejected(page, names, messages, offset, times, selected, list.len() as int, k)
                ==> is_rejected(
                page,
                names,
                messages,
                offset,
                more,
                selected,
                list.len() as int,
                k,
            ),
{
    let n = times.len() as int;
    let all = all_entries(page, names, messages, offset, times);
    let longer = all_entries(page, names, messages, offset, more);
    lemma_known_entries(page, names, messages, offset, times, more, n);
    lemma_entries_prefix(page, names, messages, offset, more, n, more.len() as int);
    assert(list =~= longer.take(list.len() as int));
    assert forall|i: int| 0 <= i < owners.len() implies belongs(
        page,
        names,
        messages,
        offset,
        more,
        i,
        #[trigger] owners[i] as int,
    ) by {
        let k = owners[i] as int;
        assert(belongs(page, names, messages, offset, times, i, k));
        lemma_known_entries(page, names, messages, offset, times, more, k);
        lemma_known_entries(page, names, messages, offset, times, more, k + 1);
    }
    let row = list.len() as int;
    assert forall|k: int|
        is_rejected(
            page,
            names,
            messages,
            offset,
            times,
            selected,
            row,
            k,
        ) implies is_rejected(page, names, messages, offset, more, selected, row, k) by {
        lemma_known_entries(page, names, messages, offset, times, more, k);
        lemma_known_entries(page, names, messages, offset, times, more, k + 1);
        lemma_entries_prefix(page, names, messages, offset, times, k + 1, n);
        assert(heights(all).take(row + 1) =~= heights(longer).take(row + 1));
    }
}

/// The entries that were collected are those that are taken up, if they are all, or the next one
/// was rejected.
proof fn lemma_collected(
    page: PageView,
    names: NameResolver,
    messages: Seq<Message>,
    offset: int,
    times: Seq<LocalTime>,
    selected: Option<usize>,
    list: Seq<Seq<Seq<SpanView>>>,
    owners: Seq<usize>,
    k: int,
)
    requires
        are_first(page, names, messages, offset, times, selected, list, owners),
        list.len() == all_entries(page, names, messages, offset, times).len() || is_rejected(
            page,
            names,
            messages,
            offset,
            times,
            selected,
            list.len() as int,
            k,
        ),
    ensures
        list.len() == taken_from(
            heights(all_entries(page, names, messages, offset, times)),
            page.height,
            selection_row(page, names, messages, offset, times, selected),
            0,
        ),
        whole_messages(page, names, messages, offset, times, selected) == (if is_rejected(
            page,
            names,
            messages,
            offset,
            times,
            selected,
            list.len() as int,
            k,
        ) {
            k
        } else {
            times.len() as int
        }),
{
    let all = all_entries(page, names, messages, offset, times);
    if is_rejected(page, names, messages, offset, times, selected, list.len() as int, k) {
        lemma_entries_prefix(page, names, messages, offset, times, k + 1, times.len() as int);
    }
    let h = heights(all);
    let row = selection_row(page, names, messages, offset, times, selected);
    let n = list.len() as int;
    assert forall|i: int| 0 <= i < n implies #[trigger] taken_up(h, page.height, row, i) by {
        lemma_needed(page, names, messages, offset, times, selected, i, owners[i] as int);
        assert(heights(list).take(i + 1) =~= h.take(i + 1));
    }
    lemma_taken_from(h, page.height, row, 0, n);
    if n < all.len() {
        lemma_needed(page, names, messages, offset, times, selected, n, k);
        lemma_messages_below(
            page,
            names,
            messages,
            offset,
            times,
            n,
            k,
            times.len() as int,
        );
    }
}

/// Entries that are collected from the offset upwards.
struct Collector {
    items: Vec<ListItem>,
    /// The message of each entry, counted from the offset.
    owners: Vec<usize>,
    /// What is left of the height, if the entries fit.
    room: Option<usize>,
    /// The day of the last message.
    previous_msg_day: i32,
}

impl Collector {
    /// Whether all entries of the messages were collected whose times are known.
    spec fn is_upto(
        self,
        page: PageView,
        names: NameResolver,
        messages: Seq<Message>,
        offset: int,
        times: Seq<LocalTime>,
        selected: Option<usize>,
    ) -> bool {
        &&& are_first(
            page,
            names,
            messages,
            offset,
            times,
            selected,
            entries(self.items@),
            self.owners@,
        )
        &&& entries(self.items@) == all_entries(page, names, messages, offset, times)
        &&& is_room(self.room, page.height, entries(self.items@))
        &&& times.len() > 0 ==> self.previous_msg_day == times.last().day
        &&& fit_page(self.items@, page)
    }

    fn new(page: &Page) -> (c: Self)
        ensures
            c.items@.len() == 0,
            c.owners@.len() == 0,
            c.room == Some(page.height),
    {
        Collector {
            items: Vec::new(),
            owners: Vec::new(),
            room: Some(page.height),
            previous_msg_day: 0,
        }
    }

    /// Takes up an entry of the message `k`, if it fits or has to be taken up.
    fn take_up(&mut self, item: ListItem, k: usize, needed: bool, Ghost(height): Ghost<nat>) -> (
    taken: bool)
        requires
            is_room(old(self).room, height, entries(old(self).items@)),
        ensures
            taken == (total(heights(entries(old(self).items@).push(item@))) <= height || needed),
            taken ==> {
                &&& final(self).items@ == old(self).items@.push(item)
                &&& final(self).owners@ == old(self).owners@.push(k)
                &&& is_room(final(self).room, height, entries(final(self).items@))
                &&& entries(final(self).items@) == entries(old(self).items@).push(item@)
            },
            !taken ==> *final(self) == *old(self),
            final(self).previous_msg_day == old(self).previous_msg_day,
    {
        proof {
            lemma_heights_push(entries(self.items@), item@);
            assert(entries(self.items@.push(item)) =~= entries(self.items@).push(item@));
        }
        let rest: Option<usize> = match self.room {
            Some(r) => if item.height() <= r {
                Some(r - item.height())
            } else {
                None
            },
            None => None,
        };
        if rest.is_some() || needed {
            self.items.push(item);
            self.owners.push(k);
            self.room = rest;
            true
        } else {
            false
        }
    }

    /// Collects the entries of the message `k`, which arrived at a local time, if they are taken
    /// up.
    fn add_message(
        &mut self,
        page: &Page,
        names: &NameResolver,
        messages: &Vec<Message>,
        offset: usize,
        selected: Option<usize>,
        k: usize,
        local: LocalTime,
        Ghost(times): Ghost<Seq<LocalTime>>,
    ) -> (taken: bool)
        requires
            0 < page.height,
            k == times.len(),
            k < messages@.len() - offset,
            local.wf(),
            old(self).is_upto(page@, *names, messages@, offset as int, times, selected),
        ensures
            taken ==> final(self).is_upto(
                page@,
                *names,
                messages@,
                offset as int,
                times.push(local),
                selected,
            ),
            !taken ==> are_first(
                page@,
                *names,
                messages@,
                offset as int,
                times.push(local),
                selected,
                entries(final(self).items@),
                final(self).owners@,
            ) && is_rejected(
                page@,
                *names,
                messages@,
                offset as int,
                times.push(local),
                selected,
                final(self).items@.len() as int,
                k as int,
            ),
            fit_page(final(self).items@, page@),
    {
        let ghost at = offset as int;
        let ghost after = times.push(local);
        let ghost all = all_entries(page@, *names, messages@, at, after);
        let ghost height = page.height as nat;
        let ghost before = entries(self.items@);
        proof {
            assert(times =~= after.take(times.len() as int));
            lemma_known_entries(page@, *names, messages@, at, times, after, k as int);
            lemma_more_known(
                page@,
                *names,
                messages@,
                at,
                times,
                after,
                selected,
                before,
                self.owners@,
            );
        }
        if k == 0 {
            // the message at the bottom of the viewport
            self.previous_msg_day = local.day;
        }
        let msg = &messages[messages.len() - 1 - offset - k];
        let date_division = date_line(local, &mut self.previous_msg_day, page.width);
        let show_receipt = ShowReceipt::from_msg(msg, page.user_id, page.show_receipts);
        let time: String = clock(local);
        let item = message_item(
            names,
            msg,
            time.as_str(),
            page.prefix.as_str(),
            page.width,
            page.height,
            show_receipt,
        );
        let needed: bool = match selected {
            Some(s) => s >= offset && k <= s - offset,
            None => false,
        };
        if let Some(line) = date_division {
            proof {
                lemma_next_row(
                    page@,
                    *names,
                    messages@,
                    at,
                    after,
                    selected,
                    before,
                    self.owners@,
                    line@,
                    k,
                );
            }
            if !self.take_up(line, k, needed, Ghost(height)) {
                return false;
            }
        }
        if let Some(entry) = item {
            proof {
                lemma_next_row(
                    page@,
                    *names,
                    messages@,
                    at,
                    after,
                    selected,
                    entries(self.items@),
                    self.owners@,
                    entry@,
                    k,
                );
            }
            if !self.take_up(entry, k, needed, Ghost(height)) {
                return false;
            }
        }
        true
    }
}

/// Whether no entry is empty or higher than the page, and all lines of the entries but the first
/// ones are indented.
pub open spec fn fit_page(items: Seq<ListItem>, page: PageView) -> bool {
    forall|i: int|
        0 <= i < items.len() ==> 1 <= (#[trigger] items[i])@.len() <= page.height && is_indented(
            items[i]@,
            page.prefix,
        )
}

proof fn lemma_next_row(
    page: PageView,
    names: NameResolver,
    messages: Seq<Message>,
    offset: int,
    times: Seq<LocalTime>,
    selected: Option<usize>,
    list: Seq<Seq<Seq<SpanView>>>,
    owners: Seq<usize>,
    entry: Seq<Seq<SpanView>>,
    k: usize,
)
    requires
        are_first(page, names, messages, offset, times, selected, list, owners),
        list.push(entry).is_prefix_of(all_entries(page, names, messages, offset, times)),
        belongs(page, names, messages, offset, times, list.len() as int, k as int),
    ensures
        ({
            let taken = total(heights(list.push(entry))) <= page.height || is_needed(
                selected,
                offset,
                k as int,
            );
            &&& taken ==> are_first(
                page,
                names,
                messages,
                offset,
                times,
                selected,
                list.push(entry),
                owners.push(k),
            )
            &&& !taken ==> is_rejected(
                page,
                names,
                messages,
                offset,
                times,
                selected,
                list.len() as int,
                k as int,
            )
        }),
{
    let n = list.len() as int;
    let all = all_entries(page, names, messages, offset, times);
    assert(heights(all).take(n + 1) =~= heights(list.push(entry)));
    assert(heights(list.push(entry)).take(n + 1) =~= heights(list.push(entry)));
    assert forall|i: int| 0 <= i < n implies #[trigger] heights(list.push(entry)).take(i + 1)
        == heights(list).take(i + 1) by {
        assert(heights(list.push(entry)).take(i + 1) =~= heights(list).take(i + 1));
    }
    let longer = owners.push(k);
    assert forall|i: int| 0 <= i < longer.len() implies belongs(
        page,
        names,
        messages,
        offset,
        times,
        i,
        #[trigger] longer[i] as int,
    ) by {
        if i < n {
            assert(longer[i] == owners[i]);
        }
    }
    if total(heights(list.push(entry))) <= page.height || is_needed(selected, offset, k as int) {
        assert forall|i: int| 0 <= i < longer.len() implies total(
            heights(list.push(entry)).take(i + 1),
        ) <= page.height || is_needed(selected, offset, #[trigger] longer[i] as int) by {
            if i < n {
                assert(longer[i] == owners[i]);
            }
        }
    }
}

/// Collects the entries of a page from the offset upwards, as long as they fit, or up to the
/// selected message.
///
/// `selected` is the selected message, counted from the latest. Messages whose local times are not
/// given are not collected.
pub fn collect_entries(
    page: &Page,
    names: &NameResolver,
    messages: &Vec<Message>,
    offset: usize,
    times: &Vec<LocalTime>,
    selected: Option<usize>,
) -> (r: Collected)
    requires
        0 < page.height,
        times@.len() <= max(messages@.len() - offset, 0),
        forall|k: int| 0 <= k < times@.len() ==> (#[trigger] times@[k]).wf(),
    ensures
        are_collected(r, page@, *names, messages@, offset as int, times@, selected),
{
    let ghost at = offset as int;
    let mut collector = Collector::new(page);
    assert(entries(collector.items@) =~= all_entries(page@, *names, messages@, at, times@.take(0)));
    for k in 0..times.len()
        invariant
            at == offset,
            0 < page.height,
            times@.len() <= max(messages@.len() - offset, 0),
            forall|k: int| 0 <= k < times@.len() ==> (#[trigger] times@[k]).wf(),
            collector.is_upto(page@, *names, messages@, at, times@.take(k as int), selected),
    {
        let ghost known = times@.take(k as int);
        let local = times[k];
        let taken = collector.add_message(
            page,
            names,
            messages,
            offset,
            selected,
            k,
            local,
            Ghost(known),
        );
        assert(known.push(local) =~= times@.take(k + 1));
        if !taken {
            proof {
                let list = entries(collector.items@);
                lemma_more_known(
                    page@,
                    *names,
                    messages@,
                    at,
                    known.push(local),
                    times@,
                    selected,
                    list,
                    collector.owners@,
                );
                lemma_collected(
                    page@,
                    *names,
                    messages@,
                    at,
                    times@,
                    selected,
                    list,
                    collector.owners@,
                    k as int,
                );
            }
            return Collected { items: collector.items, owners: collector.owners, whole: k };
        }
    }
    proof {
        assert(times@.take(times@.len() as int) =~= times@);
        lemma_collected(
            page@,
            *names,
            messages@,
            at,
            times@,
            selected,
            entries(collector.items@),
            collector.owners@,
            0,
        );
    }
    Collected { items: collector.items, owners: collector.owners, whole: times.len() }
}

/// Entries that were taken up.
#[derive(Debug, PartialEq, Eq)]
pub struct Collected {
    /// The entries, the lowest first.
    pub items: Vec<ListItem>,
    /// The message of each entry, counted from the offset.
    pub owners: Vec<usize>,
    /// How many messages from the offset upwards were taken up as a whole.
    pub whole: usize,
}

/// How many messages from the offset upwards are taken up as a whole.
pub open spec fn whole_messages(
    page: PageView,
    names: NameResolver,
    messages: Seq<Message>,
    offset: int,
    times: Seq<LocalTime>,
    selected: Option<usize>,
) -> int {
    let all = all_entries(page, names, messages, offset, times);
    let row = selection_row(page, names, messages, offset, times, selected);
    messages_below(
        page,
        names,
        messages,
        offset,
        times,
        taken_from(heights(all), page.height, row, 0),
        times.len() as int,
    )
}

/// Whether these are the entries that are taken up of messages whose local times are known.
pub open spec fn are_collected(
    c: Collected,
    page: PageView,
    names: NameResolver,
    messages: Seq<Message>,
    offset: int,
    times: Seq<LocalTime>,
    selected: Option<usize>,
) -> bool {
    let all = all_entries(page, names, messages, offset, times);
    let row = selection_row(page, names, messages, offset, times, selected);
    &&& c.items@.len() == taken_from(heights(all), page.height, row, 0)
    &&& entries(c.items@).is_prefix_of(all)
    &&& c.owners@.len() == c.items@.len()
    &&& forall|i: int|
        0 <= i < c.owners@.len() ==> belongs(
            page,
            names,
            messages,
            offset,
            times,
            i,
            #[trigger] c.owners@[i] as int,
        )
    &&& c.whole == whole_messages(page, names, messages, offset, times, selected)
    &&& fit_page(c.items@, page)
}

/// Whether the known times are enough to lay out a page: those of all messages from the offset
/// upwards, or up to one that is not taken up as a whole.
pub open spec fn are_enough(
    page: PageView,
    names: NameResolver,
    messages: Seq<Message>,
    offset: int,
    times: Seq<LocalTime>,
    selected: Option<usize>,
) -> bool {
    let all = all_entries(page, names, messages, offset, times);
    let row = selection_row(page, names, messages, offset, times, selected);
    times.len() == max(messages.len() - offset, 0) || taken_from(heights(all), page.height, row, 0)
        < all.len()
}

/// Whether `times` are the local times of the first messages from the offset upwards, all of which
/// the calendar covers.
pub open spec fn times_of(messages: Seq<Message>, offset: int, times: Seq<LocalTime>) -> bool {
    &&& times.len() <= max(messages.len() - offset, 0)
    &&& forall|k: int|
        0 <= k < times.len() ==> (#[trigger] times[k]).is_time_of(
            messages[messages.len() - 1 - offset - k].arrived_at,
        ) && messages[messages.len() - 1 - offset - k].arrived_at <= MAX_TIMESTAMP
}

proof fn lemma_next_time(
    messages: Seq<Message>,
    offset: int,
    times: Seq<LocalTime>,
    local: LocalTime,
)
    requires
        times_of(messages, offset, times),
        times.len() < messages.len() - offset,
        local.is_time_of(messages[messages.len() - 1 - offset - times.len()].arrived_at),
        messages[messages.len() - 1 - offset - times.len()].arrived_at <= MAX_TIMESTAMP,
    ensures
        times_of(messages, offset, times.push(local)),
{
    let more = times.push(local);
    assert forall|k: int| 0 <= k < more.len() implies (#[trigger] more[k]).is_time_of(
        messages[messages.len() - 1 - offset - k].arrived_at,
    ) && messages[messages.len() - 1 - offset - k].arrived_at <= MAX_TIMESTAMP by {
        if k < times.len() {
            assert(more[k] == times[k]);
            assert(times[k].is_time_of(messages[messages.len() - 1 - offset - k].arrived_at));
        }
    }
}

/// Entries with the local times that were read for them.
#[derive(Debug, PartialEq, Eq)]
pub struct Reading {
    pub collected: Collected,
    /// The local times of the first messages from the offset upwards.
    pub times: Vec<LocalTime>,
    /// Whether the messages were collected up to one that the calendar does not cover.
    pub off_calendar: bool,
}

/// Collects the entries of a page like `collect_entries`, where the local time of a message in the
/// time zone of the machine is only read once all entries below it were taken up.
pub fn read_entries(
    page: &Page,
    names: &NameResolver,
    messages: &Vec<Message>,
    offset: usize,
    selected: Option<usize>,
) -> (r: Reading)
    requires
        0 < page.height,
    ensures
        times_of(messages@, offset as int, r.times@),
        are_collected(
            r.collected,
            page@,
            *names,
            messages@,
            offset as int,
            r.times@,
            selected,
        ),
        r.off_calendar <==> !are_enough(
            page@,
            *names,
            messages@,
            offset as int,
            r.times@,
            selected,
        ),
        r.off_calendar ==> messages@[messages@.len() - 1 - offset - r.times@.len()].arrived_at
            > MAX_TIMESTAMP,
{
    let ghost at = offset as int;
    let n: usize = if messages.len() > offset {
        messages.len() - offset
    } else {
        0
    };
    let mut collector = Collector::new(page);
    let mut times: Vec<LocalTime> = Vec::new();
    assert(entries(collector.items@) =~= all_entries(page@, *names, messages@, at, times@));
    for k in 0..n
        invariant
            at == offset,
            n == max(messages@.len() - offset, 0),
            0 < page.height,
            times@.len() == k,
            times_of(messages@, at, times@),
            collector.is_upto(page@, *names, messages@, at, times@, selected),
    {
        let arrived_at: u64 = messages[messages.len() - 1 - offset - k].arrived_at;
        if arrived_at > MAX_TIMESTAMP {
            proof {
                lemma_collected(
                    page@,
                    *names,
                    messages@,
                    at,
                    times@,
                    selected,
                    entries(collector.items@),
                    collector.owners@,
                    0,
                );
            }
            let collected = Collected {
                items: collector.items,
                owners: collector.owners,
                whole: k,
            };
            return Reading { collected, times, off_calendar: true };
        }
        let local = utc_timestamp_msec_to_local(arrived_at);
        let ghost known = times@;
        let taken = collector.add_message(
            page,
            names,
            messages,
            offset,
            selected,
            k,
            local,
            Ghost(known),
        );
        times.push(local);
        proof {
            lemma_next_time(messages@, at, known, local);
        }
        if !taken {
            proof {
                let list = entries(collector.items@);
                lemma_collected(
                    page@,
                    *names,
                    messages@,
                    at,
                    times@,
                    selected,
                    list,
                    collector.owners@,
                    k as int,
                );
            }
            let collected = Collected {
                items: collector.items,
                owners: collector.owners,
                whole: k,
            };
            return Reading { collected, times, off_calendar: false };
        }
    }
    proof {
        lemma_collected(
            page@,
            *names,
            messages@,
            at,
            times@,
            selected,
            entries(collector.items@),
            collector.owners@,
            0,
        );
    }
    let collected = Collected { items: collector.items, owners: collector.owners, whole: n };
    Reading { collected, times, off_calendar: false }
}

proof fn lemma_needed(
    page: PageView,
    names: NameResolver,
    messages: Seq<Message>,
    offset: int,
    times: Seq<LocalTime>,
    selected: Option<usize>,
    row: int,
    k: int,
)
    requires
        belongs(page, names, messages, offset, times, row, k),
    ensures
        row <= selection_row(page, names, messages, offset, times, selected) <==> is_needed(
            selected,
            offset,
            k,
        ),
{
    if let Some(s) = selected {
        lemma_rows_in_order(page, names, messages, offset, times, row, k, s - offset);
    }
}

/// The entries on a page, the lowest first.
pub open spec fn visible(
    page: PageView,
    all: Seq<Seq<Seq<SpanView>>>,
    selection: int,
) -> Seq<Seq<Seq<SpanView>>> {
    let n = taken_from(heights(all), page.height, selection, 0);
    all.subrange(lowest(page, all, selection), n)
}

/// The lowest entry on a page: the upper ones that were taken up fill it.
pub open spec fn lowest(page: PageView, all: Seq<Seq<Seq<SpanView>>>, selection: int) -> int {
    let n = taken_from(heights(all), page.height, selection, 0);
    first_visible(heights(all.take(n)), page.height)
}

pub(crate) proof fn lemma_fits_whole(h: Seq<nat>, room: nat)
    requires
        total(h) <= room,
    ensures
        first_fitting(h, room) == 0,
    decreases h.len(),
{
    if h.len() > 0 {
        lemma_fits_whole(h.drop_last(), (room - h.last()) as nat);
    }
}

pub(crate) proof fn lemma_first_fitting(h: Seq<nat>, room: nat)
    ensures
        0 <= first_fitting(h, room) <= h.len(),
        total(h.skip(first_fitting(h, room))) <= room,
        first_fitting(h, room) > 0 ==> total(h.skip(first_fitting(h, room) - 1)) > room,
    decreases h.len(),
{
    let f = first_fitting(h, room);
    if h.len() == 0 {
        assert(h.skip(f) =~= Seq::empty());
    } else if h.last() <= room {
        let rest = (room - h.last()) as nat;
        lemma_first_fitting(h.drop_last(), rest);
        assert(h.skip(f).drop_last() =~= h.drop_last().skip(f)) by {
            if f == h.len() {
                assert(false) by {
                    assert(first_fitting(h.drop_last(), rest) <= h.len() - 1);
                }
            }
        }
        assert(h.skip(f).last() == h.last());
        if f > 0 {
            assert(h.skip(f - 1).drop_last() =~= h.drop_last().skip(f - 1));
        }
    } else {
        assert(h.skip(f) =~= Seq::empty());
        assert(h.skip(f - 1).drop_last() =~= Seq::<nat>::empty());
        assert(total(h.skip(f - 1)) == total(h.skip(f - 1).drop_last()) + h.last());
    }
}

pub(crate) proof fn lemma_taken_range(h: Seq<nat>, height: nat, selection: int, i: int)
    requires
        0 <= i <= h.len(),
    ensures
        i <= taken_from(h, height, selection, i) <= h.len(),
        forall|j: int|
            i <= j < taken_from(h, height, selection, i) ==> #[trigger] taken_up(
                h,
                height,
                selection,
                j,
            ),
    decreases h.len() - i,
{
    if i < h.len() && taken_up(h, height, selection, i) {
        lemma_taken_range(h, height, selection, i + 1);
    }
}

/// The entries that were taken up fit, or the last of them is not above the selection.
pub(crate) proof fn lemma_lowest(page: PageView, all: Seq<Seq<Seq<SpanView>>>, selection: int)
    ensures
        ({
            let n = taken_from(heights(all), page.height, selection, 0);
            &&& 0 <= n <= all.len()
            &&& 0 <= lowest(page, all, selection) <= n
            &&& lowest(page, all, selection) > 0 ==> lowest(page, all, selection) < n && n - 1
                <= selection
        }),
{
    let h = heights(all);
    let height = page.height;
    let n = taken_from(h, height, selection, 0);
    lemma_taken_range(h, height, selection, 0);
    lemma_first_fitting(heights(all.take(n)), height);
    if n > 0 {
        assert(taken_up(h, height, selection, n - 1));
        assert(h.take(n) =~= heights(all.take(n)));
        if total(h.take(n)) <= height {
            lemma_fits_whole(h.take(n), height);
        }
    }
}

/// The entries on a page.
#[derive(Debug, PartialEq, Eq)]
pub struct Viewport {
    /// The entries, the lowest first.
    pub items: Vec<ListItem>,
    /// The message of each entry, counted from the latest.
    pub messages: Vec<usize>,
    /// How many of the latest messages lie below the lower edge.
    pub offset: usize,
    /// The first message above those that were taken up as a whole, counted from the latest.
    pub end: usize,
}

/// Whether a viewport shows the page of messages whose local times are known.
pub open spec fn shows_page(
    v: Viewport,
    page: PageView,
    names: NameResolver,
    messages: Seq<Message>,
    offset: int,
    times: Seq<LocalTime>,
    selected: Option<usize>,
) -> bool {
    let all = all_entries(page, names, messages, offset, times);
    let row = selection_row(page, names, messages, offset, times, selected);
    let first = lowest(page, all, row);
    &&& entries(v.items@) == visible(page, all, row)
    &&& v.offset == offset + scrolled(page, names, messages, offset, times, first)
    &&& v.end == offset + whole_messages(page, names, messages, offset, times, selected)
    &&& fit_page(v.items@, page)
    &&& v.messages@.len() == v.items@.len()
    &&& forall|i: int|
        0 <= i < v.messages@.len() ==> belongs(
            page,
            names,
            messages,
            offset,
            times,
            first + i,
            #[trigger] v.messages@[i] - offset,
        )
}

/// Cuts collected entries down to those on the page.
pub fn cut_to_page(
    page: &Page,
    names: &NameResolver,
    messages: &Vec<Message>,
    offset: usize,
    times: &Vec<LocalTime>,
    selected: Option<usize>,
    collected: Collected,
) -> (r: Viewport)
    requires
        offset + times@.len() <= usize::MAX,
        are_collected(collected, page@, *names, messages@, offset as int, times@, selected),
    ensures
        shows_page(r, page@, *names, messages@, offset as int, times@, selected),
{
    let ghost at = offset as int;
    let owners: Vec<usize> = collected.owners;
    let mut items: Vec<ListItem> = collected.items;
    let ghost all = all_entries(page@, *names, messages@, at, times@);
    let ghost row = selection_row(page@, *names, messages@, at, times@, selected);
    let ghost h = heights(entries(items@));
    proof {
        lemma_lowest(page@, all, row);
    }

    // calculate the new offset by counting the messages down: we know that we either stopped at
    // the last fitting message or at the selected message
    let mut room: usize = page.height;
    let mut i: usize = items.len();
    assert(h.take(i as int) =~= h);
    while i > 0 && items[i - 1].height() <= room
        invariant
            i <= items@.len(),
            h == heights(entries(items@)),
            first_fitting(h, page.height as nat) == first_fitting(h.take(i as int), room as nat),
        decreases i,
    {
        assert(h.take(i as int).drop_last() =~= h.take(i - 1));
        room = room - items[i - 1].height();
        i = i - 1;
    }
    let first_idx: usize = if i == items.len() {
        0
    } else {
        i
    };
    assert(first_idx == first_visible(h, page.height as nat));
    let new_offset: usize = if first_idx == 0 {
        offset
    } else {
        proof {
            assert(belongs(
                page@,
                *names,
                messages@,
                at,
                times@,
                first_idx as int,
                owners@[first_idx as int] as int,
            ));
            lemma_messages_below(
                page@,
                *names,
                messages@,
                at,
                times@,
                first_idx as int,
                owners@[first_idx as int] as int,
                times@.len() as int,
            );
        }
        offset + owners[first_idx]
    };
    let mut shown_messages: Vec<usize> = Vec::new();
    for j in first_idx..owners.len()
        invariant
            at == offset,
            offset + times@.len() <= usize::MAX,
            first_idx <= owners@.len(),
            shown_messages@.len() == j - first_idx,
            forall|i: int|
                0 <= i < owners@.len() ==> belongs(
                    page@,
                    *names,
                    messages@,
                    at,
                    times@,
                    i,
                    #[trigger] owners@[i] as int,
                ),
            forall|i: int|
                0 <= i < shown_messages@.len() ==> #[trigger] shown_messages@[i] == offset
                    + owners@[first_idx + i],
    {
        assert(belongs(page@, *names, messages@, at, times@, j as int, owners@[j as int] as int));
        shown_messages.push(offset + owners[j]);
    }
    let ghost n = items@.len() as int;
    let ghost taken = entries(items@);
    let shown: Vec<ListItem> = items.split_off(first_idx);
    assert(entries(shown@) =~= taken.subrange(first_idx as int, n));
    assert(taken =~= all.take(n));
    assert(entries(shown@) =~= visible(page@, all, row));
    proof {
        lemma_messages_below_range(
            page@,
            *names,
            messages@,
            at,
            times@,
            n,
            times@.len() as int,
        );
    }
    let end: usize = offset + collected.whole;
    let r = Viewport { items: shown, messages: shown_messages, offset: new_offset, end };
    assert forall|i: int| 0 <= i < r.messages@.len() implies belongs(
        page@,
        *names,
        messages@,
        at,
        times@,
        first_idx + i,
        #[trigger] r.messages@[i] - offset,
    ) by {
        let owner = owners@[first_idx + i];
        assert(belongs(page@, *names, messages@, at, times@, first_idx + i, owner as int));
    }
    r
}

/// The entries on a page.
///
/// `selected` is the selected message, counted from the latest.
pub fn visible_entries(
    page: &Page,
    names: &NameResolver,
    messages: &Vec<Message>,
    offset: usize,
    times: &Vec<LocalTime>,
    selected: Option<usize>,
) -> (r: Viewport)
    requires
        0 < page.height,
        times@.len() <= max(messages@.len() - offset, 0),
        forall|k: int| 0 <= k < times@.len() ==> (#[trigger] times@[k]).wf(),
    ensures
        shows_page(r, page@, *names, messages@, offset as int, times@, selected),
{
    assert(messages@.len() == messages.len());
    let collected = collect_entries(page, names, messages, offset, times, selected);
    cut_to_page(page, names, messages, offset, times, selected, collected)
}

} // verus!
