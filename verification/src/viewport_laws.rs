//! What the list of messages promises as a whole.

use vstd::prelude::*;

use crate::clock::{clock_text, LocalTime};
use crate::data::Message;
use crate::message::{content, date_line_text, message_entry};
use crate::names::NameResolver;
use crate::receipts::receipt_shown;
use crate::viewport::{
    all_entries, entries_upto, first_fitting, heights, lemma_entries_prefix, lemma_first_fitting,
    lemma_fits_whole, lemma_lowest, lemma_taken_from, lemma_taken_range, lowest, row_of,
    start_offset, taken_from, taken_up, total, visible, PageView,
};
use crate::widgets::{SpanView, Style};

verus! {

/// No page holds more lines than it is high.
///
/// This holds of all entries that are not themselves higher than the page.
pub proof fn law_page_holds_its_height(
    page: PageView,
    all: Seq<Seq<Seq<SpanView>>>,
    selection: int,
)
    requires
        forall|i: int| 0 <= i < all.len() ==> (#[trigger] all[i]).len() <= page.height,
    ensures
        total(heights(visible(page, all, selection))) <= page.height,
{
    let height = page.height;
    let n = taken_from(heights(all), height, selection, 0);
    lemma_lowest(page, all, selection);
    let h = heights(all.take(n));
    lemma_first_fitting(h, height);
    let f = lowest(page, all, selection);
    assert(heights(visible(page, all, selection)) =~= h.skip(f));
    if n > 0 {
        assert(h.last() == all[n - 1].len());
        if first_fitting(h, height) == n {
            assert(h.last() <= height);
            lemma_not_last(h, height);
        }
    }
}

proof fn lemma_not_last(h: Seq<nat>, room: nat)
    requires
        h.len() > 0,
        h.last() <= room,
    ensures
        first_fitting(h, room) < h.len(),
{
    lemma_first_fitting(h.drop_last(), (room - h.last()) as nat);
}

/// The selected entry is on the page, if it exists.
pub proof fn law_selection_is_visible(page: PageView, all: Seq<Seq<Seq<SpanView>>>, selection: int)
    requires
        0 <= selection < all.len(),
    ensures
        lowest(page, all, selection) <= selection,
        selection < lowest(page, all, selection) + visible(page, all, selection).len(),
        visible(page, all, selection)[selection - lowest(page, all, selection)] == all[selection],
{
    let h = heights(all);
    let height = page.height;
    lemma_lowest(page, all, selection);
    lemma_taken_at_least(h, height, selection, 0);
}

proof fn lemma_taken_at_least(h: Seq<nat>, height: nat, selection: int, i: int)
    requires
        0 <= i <= selection + 1 <= h.len(),
    ensures
        taken_from(h, height, selection, i) >= selection + 1,
    decreases selection + 1 - i,
{
    if i <= selection {
        lemma_taken_at_least(h, height, selection, i + 1);
    } else {
        lemma_taken_range(h, height, selection, i);
    }
}

/// No entry is left out that the page has room for.
///
/// The entry above the page would make what was taken up too high, and so would the one below it
/// make the page.
pub proof fn law_page_is_filled(page: PageView, all: Seq<Seq<Seq<SpanView>>>, selection: int)
    ensures
        ({
            let n = taken_from(heights(all), page.height, selection, 0);
            let f = lowest(page, all, selection);
            &&& n < all.len() ==> total(heights(all.take(n + 1))) > page.height
            &&& f > 0 ==> total(heights(all.subrange(f - 1, n))) > page.height
        }),
{
    let h = heights(all);
    let height = page.height;
    let n = taken_from(h, height, selection, 0);
    let f = lowest(page, all, selection);
    lemma_lowest(page, all, selection);
    lemma_stopped(h, height, selection, 0);
    if n < all.len() {
        assert(h.take(n + 1) =~= heights(all.take(n + 1)));
    }
    if f > 0 {
        lemma_first_fitting(heights(all.take(n)), height);
        assert(heights(all.take(n)).skip(f - 1) =~= heights(all.subrange(f - 1, n)));
    }
}

proof fn lemma_stopped(h: Seq<nat>, height: nat, selection: int, i: int)
    requires
        0 <= i <= h.len(),
    ensures
        taken_from(h, height, selection, i) < h.len() ==> !taken_up(
            h,
            height,
            selection,
            taken_from(h, height, selection, i),
        ),
    decreases h.len() - i,
{
    if i < h.len() && taken_up(h, height, selection, i) {
        lemma_stopped(h, height, selection, i + 1);
    }
}

/// What is on the page stays there.
///
/// Where the entries are collected again from one on the page, none of them leaves the page at its
/// lower edge, and the page starts with the same ones. There may be room for more above them.
pub proof fn law_page_settles(
    page: PageView,
    all: Seq<Seq<Seq<SpanView>>>,
    selection: int,
    from: int,
    rest: Seq<Seq<Seq<SpanView>>>,
)
    requires
        forall|i: int| 0 <= i < all.len() ==> (#[trigger] all[i]).len() <= page.height,
        selection < all.len(),
        lowest(page, all, selection) <= from <= taken_from(heights(all), page.height, selection, 0),
        all.skip(from).is_prefix_of(rest),
    ensures
        lowest(page, rest, selection - from) == 0,
        visible(page, all, selection).skip(from - lowest(page, all, selection)).is_prefix_of(
            visible(page, rest, selection - from),
        ),
{
    let height = page.height;
    let h = heights(all);
    let n = taken_from(h, height, selection, 0);
    let f = lowest(page, all, selection);
    lemma_lowest(page, all, selection);
    law_page_holds_its_height(page, all, selection);
    lemma_stopped(h, height, selection, 0);

    let g = heights(rest);
    let m = taken_from(g, height, selection - from, 0);
    lemma_lowest(page, rest, selection - from);
    let on_page = heights(visible(page, all, selection));
    lemma_total_suffix(on_page, from - f);
    assert(on_page.skip(from - f) =~= g.take(n - from)) by {
        assert forall|i: int| 0 <= i < n - from implies #[trigger] rest[i] == all[from + i] by {
            assert(all.skip(from)[i] == rest[i]);
        }
    }
    assert forall|i: int| 0 <= i < n - from implies #[trigger] taken_up(
        g,
        height,
        selection - from,
        i,
    ) by {
        lemma_total_prefix(g, i + 1, n - from);
    }
    lemma_taken_from(g, height, selection - from, 0, n - from);
    lemma_taken_range(g, height, selection - from, n - from);
    lemma_taken_range(g, height, selection - from, 0);
    assert(total(g.take(m)) <= height) by {
        if m > n - from {
            assert(taken_up(g, height, selection - from, m - 1));
            if m - 1 <= selection - from {
                assert(taken_up(h, height, selection, n));
            }
        }
    }
    assert(heights(rest.take(m)) =~= g.take(m));
    lemma_fits_whole(g.take(m), height);
    let before = visible(page, all, selection).skip(from - f);
    let after = visible(page, rest, selection - from);
    assert forall|i: int| 0 <= i < n - from implies #[trigger] before[i] == after[i] by {
        assert(all.skip(from)[i] == rest[i]);
    }
    assert(before =~= after.take(before.len() as int));
}

proof fn lemma_total_suffix(h: Seq<nat>, a: int)
    requires
        0 <= a <= h.len(),
    ensures
        total(h.skip(a)) <= total(h),
    decreases h.len(),
{
    if a < h.len() {
        lemma_total_suffix(h.drop_last(), a);
        assert(h.skip(a).drop_last() =~= h.drop_last().skip(a));
    } else {
        assert(h.skip(a) =~= Seq::<nat>::empty());
    }
}

proof fn lemma_total_prefix(h: Seq<nat>, a: int, b: int)
    requires
        0 <= a <= b <= h.len(),
    ensures
        total(h.take(a)) <= total(h.take(b)),
    decreases b - a,
{
    if a < b {
        lemma_total_prefix(h, a, b - 1);
        assert(h.take(b).drop_last() =~= h.take(b - 1));
    }
}

/// The lines of entries add up, one entry after the other.
pub proof fn law_lines_add_up(list: Seq<Seq<Seq<SpanView>>>, entry: Seq<Seq<SpanView>>)
    ensures
        total(heights(Seq::<Seq<Seq<SpanView>>>::empty())) == 0,
        total(heights(list.push(entry))) == total(heights(list)) + entry.len(),
{
    assert(heights(list.push(entry)).drop_last() =~= heights(list));
}

/// Which entries are on the page: the ones from the lower edge upwards that fit, or up to the
/// selected one, and of these the uppermost that fill the page.
///
/// Together these facts leave only one choice. They hold of entries that are not themselves higher
/// than the page.
pub proof fn law_page_is_determined(page: PageView, all: Seq<Seq<Seq<SpanView>>>, selection: int)
    requires
        forall|i: int| 0 <= i < all.len() ==> (#[trigger] all[i]).len() <= page.height,
    ensures
        ({
            let f = lowest(page, all, selection);
            let n = f + visible(page, all, selection).len();
            &&& 0 <= f <= n <= all.len()
            &&& visible(page, all, selection) == all.subrange(f, n)
            &&& n < all.len() ==> n > selection && total(heights(all.take(n + 1))) > page.height
            &&& forall|i: int|
                0 <= i < n && i > selection ==> total(heights(#[trigger] all.take(i + 1)))
                    <= page.height
            &&& total(heights(all.subrange(f, n))) <= page.height
            &&& f > 0 ==> total(heights(all.subrange(f - 1, n))) > page.height
        }),
{
    let h = heights(all);
    let f = lowest(page, all, selection);
    let n = taken_from(h, page.height, selection, 0);
    lemma_lowest(page, all, selection);
    lemma_stopped(h, page.height, selection, 0);
    lemma_taken_range(h, page.height, selection, 0);
    law_page_is_filled(page, all, selection);
    law_page_holds_its_height(page, all, selection);
    assert forall|i: int| 0 <= i < n && i > selection implies total(
        heights(#[trigger] all.take(i + 1)),
    ) <= page.height by {
        assert(taken_up(h, page.height, selection, i));
        assert(h.take(i + 1) =~= heights(all.take(i + 1)));
    }
}

/// The messages are drawn from the last offset on, if the selected message lies above it and at
/// most `height` messages away; else the offset moves as far as it must for that.
pub proof fn law_offset_moves_only_for_the_selection(
    selected: Option<usize>,
    rendered: nat,
    height: nat,
)
    ensures
        ({
            let offset = start_offset(selected, rendered, height);
            &&& selected is None ==> offset == rendered
            &&& selected matches Some(s) ==> {
                &&& rendered <= s <= rendered + height ==> offset == rendered
                &&& s < rendered ==> offset == s
                &&& s > rendered + height ==> offset + height == s
            }
        }),
{
}

/// The messages are drawn from the selected one or a later one, and it is at most `height`
/// messages away.
pub proof fn law_offset_reaches_selection(selected: usize, rendered: nat, height: nat)
    ensures
        start_offset(Some(selected), rendered, height) <= selected,
        selected <= start_offset(Some(selected), rendered, height) + height,
        0 <= start_offset(Some(selected), rendered, height),
{
}

/// Behind the entries of the messages below, a message adds a line with its day, if the message
/// below it is of another one, and then itself, if it is displayed.
pub proof fn law_messages_follow_each_other(
    page: PageView,
    names: NameResolver,
    messages: Seq<Message>,
    offset: int,
    times: Seq<LocalTime>,
    k: int,
)
    requires
        0 <= k < times.len(),
        0 <= offset,
        k < messages.len() - offset,
    ensures
        ({
            let msg = messages[messages.len() - 1 - offset - k];
            let before = entries_upto(page, names, messages, offset, times, k);
            let after = entries_upto(page, names, messages, offset, times, k + 1);
            let line = SpanView {
                content: date_line_text(times[k].day as int, page.width as nat),
                style: Style { fg: None },
            };
            let entry = message_entry(
                names,
                msg,
                clock_text(times[k].second as nat),
                page.prefix,
                page.width,
                page.height,
                receipt_shown(msg, page.user_id, page.show_receipts),
            );
            let with_line = if k > 0 && times[k].day != times[k - 1].day {
                before.push(seq![seq![line]])
            } else {
                before
            };
            &&& entry is None ==> after == with_line
            &&& entry matches Some(e) ==> after == with_line.push(e)
        }),
        entries_upto(page, names, messages, offset, times, 0).len() == 0,
        all_entries(page, names, messages, offset, times) == entries_upto(
            page,
            names,
            messages,
            offset,
            times,
            times.len() as int,
        ),
{
}

/// Each message that is displayed has a row of its own, in which it stands; the rows of later
/// messages lie below.
pub proof fn law_every_message_has_its_row(
    page: PageView,
    names: NameResolver,
    messages: Seq<Message>,
    offset: int,
    times: Seq<LocalTime>,
    k: int,
)
    requires
        0 <= k < times.len(),
        0 <= offset,
        k < messages.len() - offset,
        content(messages[messages.len() - 1 - offset - k]).len() > 0,
    ensures
        ({
            let msg = messages[messages.len() - 1 - offset - k];
            let all = all_entries(page, names, messages, offset, times);
            let row = row_of(page, names, messages, offset, times, k);
            &&& 0 <= row < all.len()
            &&& message_entry(
                names,
                msg,
                clock_text(times[k].second as nat),
                page.prefix,
                page.width,
                page.height,
                receipt_shown(msg, page.user_id, page.show_receipts),
            ) == Some(all[row])
            &&& forall|j: int|
                j < k ==> #[trigger] row_of(page, names, messages, offset, times, j) < row
        }),
{
    let all = all_entries(page, names, messages, offset, times);
    let upto = entries_upto(page, names, messages, offset, times, k + 1);
    let row = row_of(page, names, messages, offset, times, k);
    lemma_entries_prefix(page, names, messages, offset, times, k + 1, times.len() as int);
    assert(upto.len() == row + 1);
    assert(all[row] == upto[row]);
    assert forall|j: int| j < k implies #[trigger] row_of(page, names, messages, offset, times, j)
        < row by {
        if j + 1 >= 0 {
            lemma_entries_prefix(page, names, messages, offset, times, j + 1, k);
        }
    }
}

/// The row of a message is the last one of the messages up to it, whether it has an entry of its
/// own or not. A message whose time is not known has the last row of all.
pub proof fn law_row_is_the_last_up_to_the_message(
    page: PageView,
    names: NameResolver,
    messages: Seq<Message>,
    offset: int,
    times: Seq<LocalTime>,
    k: int,
)
    requires
        0 <= k,
    ensures
        ({
            let row = row_of(page, names, messages, offset, times, k);
            let all = all_entries(page, names, messages, offset, times);
            &&& k < times.len() ==> entries_upto(page, names, messages, offset, times, k + 1)
                == all.take(row + 1)
            &&& k >= times.len() ==> row == all.len() - 1
            &&& -1 <= row < all.len()
        }),
{
    let all = all_entries(page, names, messages, offset, times);
    if k < times.len() {
        let upto = entries_upto(page, names, messages, offset, times, k + 1);
        lemma_entries_prefix(page, names, messages, offset, times, k + 1, times.len() as int);
        assert(upto =~= all.take(upto.len() as int));
    }
}

} // verus!
