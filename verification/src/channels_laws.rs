//! What the labels of the channels promise as a whole.

use vstd::prelude::*;

use crate::bounds::max;
use crate::channels::{beginning, channel_label, channel_labels, unread_label};
use crate::columns::{
    byte_len, char_advance, char_bytes, columns, lemma_byte_len_push, lemma_columns_concat,
};
use crate::data::{Channel, ChannelList};
use crate::text::decimal;
use crate::text_laws::{law_decimal_reads_as_number, number};

verus! {

/// A channel without unread messages is labelled with the name under which it is displayed, however
/// long that is.
pub proof fn law_read_channel_shows_its_name(channel: Channel, width: nat)
    requires
        channel.unread_messages == 0,
    ensures
        channel_label(channel, width) == channel.display_name@,
{
    assert(channel.display_name@ + Seq::<char>::empty() =~= channel.display_name@);
}

/// Whether a text is the number of unread messages behind a name: the number in brackets.
pub open spec fn is_count(s: Seq<char>, unread: nat) -> bool {
    &&& s.len() > 3
    &&& s[0] == ' '
    &&& s[1] == '('
    &&& s.last() == ')'
    &&& forall|i: int| 2 <= i < s.len() - 1 ==> '0' <= #[trigger] s[i] <= '9'
    &&& number(s.subrange(2, s.len() - 1)) == unread
    &&& s.len() > 4 ==> s[2] != '0'
}

proof fn lemma_count(unread: nat)
    requires
        unread > 0,
    ensures
        is_count(unread_label(unread), unread),
{
    let s = unread_label(unread);
    reveal_strlit(" (");
    reveal_strlit(")");
    law_decimal_reads_as_number(unread);
    assert(s.subrange(2, s.len() - 1) =~= decimal(unread));
    assert forall|i: int| 2 <= i < s.len() - 1 implies '0' <= #[trigger] s[i] <= '9' by {
        assert(s[i] == decimal(unread)[i - 2]);
    }
    assert(s[2] == decimal(unread)[0]);
}

/// The label of a channel with unread messages ends with their number. In front of it stands the
/// name under which the channel is displayed, if there is room for both.
pub proof fn law_unread_channel_shows_name_and_count(channel: Channel, width: nat) -> (count: Seq<
    char,
>)
    requires
        channel.unread_messages > 0,
    ensures
        is_count(count, channel.unread_messages as nat),
        columns(channel.display_name@ + count) <= width ==> channel_label(channel, width)
            == channel.display_name@ + count,
        columns(channel.display_name@ + count) > width ==> exists|m: int|
            0 <= m <= channel.name@.len() && channel_label(channel, width)
                == #[trigger] channel.name@.take(m) + count,
{
    let count = unread_label(channel.unread_messages as nat);
    lemma_count(channel.unread_messages as nat);
    if columns(channel.display_name@ + count) > width {
        let excess = columns(channel.display_name@ + count) - width;
        let short = beginning(channel.name@, max(columns(channel.name@) - excess, 0));
        lemma_beginning_is_prefix(channel.name@, max(columns(channel.name@) - excess, 0));
        assert(channel_label(channel, width) == channel.name@.take(short.len() as int) + count);
    }
    count
}

/// A name that is cut off keeps as many bytes as it has columns, less the columns that the label
/// was too broad; and the rest of the character in which that ends.
pub proof fn law_cut_name_keeps_what_fits(channel: Channel, width: nat, m: int, count: Seq<char>)
    requires
        is_count(count, channel.unread_messages as nat),
        channel.unread_messages > 0,
        columns(channel.display_name@ + count) > width,
        0 <= m <= channel.name@.len(),
        channel_label(channel, width) == channel.name@.take(m) + count,
    ensures
        ({
            let name = channel.name@;
            let excess = columns(channel.display_name@ + count) - width;
            let kept = max(columns(name) - excess, 0);
            &&& m < name.len() ==> byte_len(name.take(m)) >= kept
            &&& m > 0 ==> byte_len(name.take(m - 1)) < kept
        }),
{
    let name = channel.name@;
    let own = unread_label(channel.unread_messages as nat);
    lemma_count(channel.unread_messages as nat);
    lemma_counts_agree(own, count, channel.unread_messages as nat);
    let excess = columns(channel.display_name@ + count) - width;
    let kept = max(columns(name) - excess, 0);
    lemma_beginning_is_prefix(name, kept);
    let short = beginning(name, kept);
    let label = channel_label(channel, width);
    assert(label == short + count);
    assert(short =~= label.take(label.len() - count.len()));
    assert(name.take(m) =~= label.take(label.len() - count.len()));
    assert(short.len() == m);
    lemma_beginning_ends(name, kept);
}

proof fn lemma_beginning_is_prefix(s: Seq<char>, end: int)
    ensures
        beginning(s, end).is_prefix_of(s),
        beginning(s, end) == s.take(beginning(s, end).len() as int),
    decreases s.len(),
{
    if s.len() > 0 && byte_len(s.drop_last()) >= end {
        lemma_beginning_is_prefix(s.drop_last(), end);
        let b = beginning(s, end);
        assert(b =~= s.take(b.len() as int));
    } else {
        assert(s =~= s.take(s.len() as int));
    }
}

proof fn lemma_beginning_ends(s: Seq<char>, end: int)
    ensures
        ({
            let m = beginning(s, end).len() as int;
            &&& m < s.len() ==> byte_len(s.take(m)) >= end
            &&& m > 0 ==> byte_len(s.take(m - 1)) < end
        }),
    decreases s.len(),
{
    lemma_beginning_is_prefix(s, end);
    if s.len() > 0 && byte_len(s.drop_last()) >= end {
        lemma_beginning_ends(s.drop_last(), end);
        lemma_beginning_is_prefix(s.drop_last(), end);
        let m = beginning(s, end).len() as int;
        assert(s.drop_last().take(m) =~= s.take(m));
        if m == s.len() - 1 {
            assert(s.take(m) =~= s.drop_last());
        }
        if m > 0 {
            assert(s.drop_last().take(m - 1) =~= s.take(m - 1));
        }
    } else if s.len() > 0 {
        assert(s.take(s.len() - 1) =~= s.drop_last());
    }
}

/// There is only one way to write a number of unread messages.
proof fn lemma_counts_agree(a: Seq<char>, b: Seq<char>, unread: nat)
    requires
        is_count(a, unread),
        is_count(b, unread),
        unread > 0,
    ensures
        a == b,
{
    let x = a.subrange(2, a.len() - 1);
    let y = b.subrange(2, b.len() - 1);
    assert(x[0] == a[2] && y[0] == b[2]);
    assert(forall|i: int| 0 <= i < x.len() ==> #[trigger] x[i] == a[i + 2]);
    assert(forall|i: int| 0 <= i < y.len() ==> #[trigger] y[i] == b[i + 2]);
    lemma_numerals_agree(x, y);
    assert(a =~= seq![' ', '('] + x + seq![')']);
    assert(b =~= seq![' ', '('] + y + seq![')']);
}

proof fn lemma_numerals_agree(x: Seq<char>, y: Seq<char>)
    requires
        forall|i: int| 0 <= i < x.len() ==> '0' <= #[trigger] x[i] <= '9',
        forall|i: int| 0 <= i < y.len() ==> '0' <= #[trigger] y[i] <= '9',
        x.len() > 1 ==> x[0] != '0',
        y.len() > 1 ==> y[0] != '0',
        x.len() > 0,
        y.len() > 0,
        number(x) == number(y),
    ensures
        x == y,
    decreases x.len(),
{
    let (u, v) = (x.drop_last(), y.drop_last());
    let (c, d) = (x[x.len() - 1], y[y.len() - 1]);
    assert('0' <= c <= '9' && '0' <= d <= '9');
    lemma_number_positive(u);
    lemma_number_positive(v);
    assert(number(u) == number(v) && c == d) by {
        assert(10 * number(u) + (c as int - 48) == 10 * number(v) + (d as int - 48));
    }
    if u.len() > 0 && v.len() > 0 {
        lemma_numerals_agree(u, v);
        assert(x =~= u.push(c));
        assert(y =~= v.push(d));
    } else {
        assert(u.len() == 0 && v.len() == 0);
        assert(x =~= seq![c]);
        assert(y =~= seq![d]);
    }
}

proof fn lemma_number_positive(x: Seq<char>)
    requires
        forall|i: int| 0 <= i < x.len() ==> '0' <= #[trigger] x[i] <= '9',
    ensures
        number(x) >= 0,
        x.len() > 0 && x[0] != '0' ==> number(x) > 0,
        x.len() == 0 ==> number(x) == 0,
    decreases x.len(),
{
    if x.len() > 0 {
        assert('0' <= x[x.len() - 1] <= '9');
        lemma_number_positive(x.drop_last());
        if x.len() == 1 {
            assert(x.drop_last() =~= Seq::empty());
        }
    }
}

/// Every channel that the search leaves has its own row, in the order in which they are left.
pub proof fn law_every_displayed_channel_has_a_row(channels: ChannelList, width: nat, i: int)
    requires
        0 <= i < channels.filtered_items@.len(),
    ensures
        channel_labels(channels, width).len() == channels.filtered_items@.len(),
        channel_labels(channels, width)[i] == channel_label(
            channels.items@[channels.filtered_items@[i] as int],
            width,
        ),
{
}

/// The label of a channel with unread messages is never broader than the list, unless the number
/// of unread messages alone is.
///
/// This holds of a channel that is displayed under its own name, if no character of the name
/// takes more than one column.
pub proof fn law_label_fits_list(channel: Channel, width: nat)
    requires
        channel.display_name@ == channel.name@,
        forall|i: int|
            0 <= i < channel.name@.len() ==> char_advance(#[trigger] channel.name@[i]) <= 1,
        channel.unread_messages > 0,
    ensures
        columns(channel_label(channel, width)) <= max(
            width as int,
            columns(unread_label(channel.unread_messages as nat)) as int,
        ),
{
    let name = channel.name@;
    let unread = unread_label(channel.unread_messages as nat);
    reveal_strlit(" (");
    lemma_columns_concat(name, unread);
    let end = max(columns(name) - (columns(name + unread) - width), 0);
    lemma_columns_of_beginning(name, end);
    lemma_columns_concat(beginning(name, end), unread);
}

proof fn lemma_columns_of_beginning(s: Seq<char>, end: int)
    requires
        0 <= end,
        forall|i: int| 0 <= i < s.len() ==> char_advance(#[trigger] s[i]) <= 1,
    ensures
        columns(s) <= byte_len(s),
        columns(beginning(s, end)) <= end || beginning(s, end) == s,
        byte_len(s) >= end ==> columns(beginning(s, end)) <= end,
    decreases s.len(),
{
    if s.len() > 0 {
        assert(s.last() == s[s.len() - 1]);
        lemma_columns_of_beginning(s.drop_last(), end);
        lemma_byte_len_push(s.drop_last(), s.last());
        assert(s.drop_last().push(s.last()) =~= s);
    }
}

/// A label that had to be cut off fills the list exactly.
///
/// This holds of a channel that is displayed under its own name, if each character of the name
/// takes one byte and one column, and the list has room for the number of unread messages.
pub proof fn law_cut_label_fills_list(channel: Channel, width: nat)
    requires
        channel.display_name@ == channel.name@,
        forall|i: int|
            0 <= i < channel.name@.len() ==> char_bytes(#[trigger] channel.name@[i]) == 1
                && char_advance(channel.name@[i]) == 1,
        channel.unread_messages > 0,
        columns(unread_label(channel.unread_messages as nat)) <= width,
    ensures
        columns(channel.name@ + unread_label(channel.unread_messages as nat)) >= width ==> columns(
            channel_label(channel, width),
        ) == width,
{
    let name = channel.name@;
    let unread = unread_label(channel.unread_messages as nat);
    reveal_strlit(" (");
    lemma_columns_concat(name, unread);
    lemma_narrow(name);
    if columns(name + unread) > width {
        let end = columns(name) - (columns(name + unread) - width);
        lemma_narrow_beginning(name, end);
        lemma_columns_concat(beginning(name, end), unread);
        lemma_narrow(name.take(end));
    }
}

proof fn lemma_narrow(s: Seq<char>)
    requires
        forall|i: int|
            0 <= i < s.len() ==> char_bytes(#[trigger] s[i]) == 1 && char_advance(s[i]) == 1,
    ensures
        columns(s) == s.len(),
        byte_len(s) == s.len(),
    decreases s.len(),
{
    if s.len() > 0 {
        assert(s.last() == s[s.len() - 1]);
        lemma_narrow(s.drop_last());
        lemma_byte_len_push(s.drop_last(), s.last());
        assert(s.drop_last().push(s.last()) =~= s);
    }
}

proof fn lemma_narrow_beginning(s: Seq<char>, end: int)
    requires
        forall|i: int|
            0 <= i < s.len() ==> char_bytes(#[trigger] s[i]) == 1 && char_advance(s[i]) == 1,
        0 <= end <= s.len(),
    ensures
        beginning(s, end) == s.take(end),
    decreases s.len(),
{
    if s.len() > 0 {
        lemma_narrow(s.drop_last());
        if end < s.len() {
            lemma_narrow_beginning(s.drop_last(), end);
            assert(s.drop_last().take(end) =~= s.take(end));
        } else {
            assert(s.take(end) =~= s);
        }
    } else {
        assert(s.take(end) =~= s);
    }
}

} // verus!
