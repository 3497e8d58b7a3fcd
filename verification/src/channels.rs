//! The list of channels.

use vstd::prelude::*;

use crate::bounds::max;
use crate::columns::{
    byte_len, char_bytes, columns, lemma_byte_len_concat, lemma_byte_len_push, str_bytes,
    str_width,
};
use crate::data::{App, Channel, ChannelList};
use crate::text::{decimal, push_decimal, texts};
use crate::widgets::Rect;

verus! {

/// The number of unread messages behind the name of a channel; nothing if there is none.
pub open spec fn unread_label(unread: nat) -> Seq<char> {
    if unread == 0 {
        Seq::empty()
    } else {
        " ("@ + decimal(unread) + ")"@
    }
}

/// The shortest beginning of a text of at least `bytes` bytes, or all of it.
pub open spec fn beginning(s: Seq<char>, bytes: int) -> Seq<char>
    decreases s.len(),
{
    if s.len() > 0 && byte_len(s.drop_last()) >= bytes {
        beginning(s.drop_last(), bytes)
    } else {
        s
    }
}

/// A channel in a list of `width` columns.
///
/// Where the name under which the channel is displayed and the number of unread messages take
/// more, the name of the channel is cut off: by as many bytes as there are columns too many.
pub open spec fn channel_label(channel: Channel, width: nat) -> Seq<char> {
    let unread = unread_label(channel.unread_messages as nat);
    let label = channel.display_name@ + unread;
    if columns(label) <= width || unread.len() == 0 {
        label
    } else {
        let excess = columns(label) - width;
        beginning(channel.name@, max(columns(channel.name@) - excess, 0)) + unread
    }
}

/// The length of a character in bytes.
fn char_len(c: char) -> (n: usize)
    ensures
        n == char_bytes(c),
{
    let u: u32 = c as u32;
    if u <= 0x7f {
        1
    } else if u <= 0x7ff {
        2
    } else if u <= 0xffff {
        3
    } else {
        4
    }
}

proof fn lemma_beginning(s: Seq<char>, bytes: int)
    ensures
        byte_len(beginning(s, bytes)) < bytes ==> beginning(s, bytes) == s,
        byte_len(beginning(s, bytes)) <= byte_len(s),
    decreases s.len(),
{
    if s.len() > 0 && byte_len(s.drop_last()) >= bytes {
        lemma_beginning(s.drop_last(), bytes);
        lemma_byte_len_push(s.drop_last(), s.last());
        assert(s.drop_last().push(s.last()) =~= s);
    }
}

/// Appends the shortest beginning of a text of at least `end` bytes.
fn push_beginning(out: &mut String, s: &str, end: usize)
    ensures
        final(out)@ == old(out)@ + beginning(s@, end as int),
{
    let total: usize = str_bytes(s);
    let mut bytes: usize = 0;
    assert(out@ =~= old(out)@ + beginning(s@.take(0), end as int));
    for c in chars: s.chars()
        invariant
            chars.seq() == s@,
            total == byte_len(s@),
            out@ == old(out)@ + beginning(s@.take(chars.index() as int), end as int),
            bytes == byte_len(beginning(s@.take(chars.index() as int), end as int)),
    {
        let ghost i = chars.index() as int;
        let ghost before = s@.take(i);
        let ghost next = s@.take(i + 1);
        proof {
            assert(next.drop_last() =~= before);
            assert(next =~= before.push(c));
            lemma_beginning(before, end as int);
            lemma_byte_len_push(before, c);
            lemma_byte_len_concat(next, s@.skip(i + 1));
            assert(next + s@.skip(i + 1) =~= s@);
        }
        if bytes < end {
            out.push(c);
            bytes = bytes + char_len(c);
            assert(out@ =~= old(out)@ + beginning(next, end as int));
        }
    }
    assert(s@.take(s@.len() as int) =~= s@);
}

/// A channel in a list of `width` columns.
pub fn label(channel: &Channel, width: usize) -> (s: String)
    ensures
        s@ == channel_label(*channel, width as nat),
{
    let mut unread: String = String::new();
    if channel.unread_messages != 0 {
        unread.append(" (");
        push_decimal(&mut unread, channel.unread_messages);
        unread.append(")");
    }
    proof {
        reveal_strlit(" (");
    }
    assert(unread@ =~= unread_label(channel.unread_messages as nat));
    let mut label: String = channel.display_name.clone();
    label.append(unread.as_str());
    let label_width: usize = str_width(label.as_str());
    if label_width <= width || unread.as_str().is_empty() {
        label
    } else {
        let diff: usize = label_width - width;
        let name_width: usize = str_width(channel.name.as_str());
        let end: usize = if name_width > diff {
            name_width - diff
        } else {
            0
        };
        let mut short: String = String::new();
        push_beginning(&mut short, channel.name.as_str(), end);
        short.append(unread.as_str());
        assert(short@ =~= channel_label(*channel, width as nat));
        short
    }
}

/// The list of channels on the screen.
#[derive(Debug, PartialEq, Eq)]
pub struct ChannelsPanel {
    pub area: Rect,
    /// The displayed channels, one to a row.
    pub labels: Vec<String>,
    /// The selected row.
    pub selected: Option<usize>,
}

/// The number of cells of an extent inside of its borders.
pub open spec fn inside(extent: u16) -> nat {
    max(extent - 2, 0) as nat
}

/// The number of cells of an extent inside of its borders.
pub fn without_borders(extent: u16) -> (n: usize)
    ensures
        n == inside(extent),
        n <= u16::MAX,
{
    if extent > 2 {
        (extent - 2) as usize
    } else {
        0
    }
}

/// The labels of the channels that are displayed.
pub open spec fn channel_labels(channels: ChannelList, width: nat) -> Seq<Seq<char>> {
    Seq::new(
        channels.filtered_items@.len(),
        |i: int| channel_label(channels.items@[channels.filtered_items@[i] as int], width),
    )
}

/// Draws the channels that the search leaves.
pub fn draw_channels(app: &mut App, area: Rect) -> (panel: ChannelsPanel)
    requires
        old(app).channels.wf(),
    ensures
        panel.area == area,
        texts(panel.labels@) == channel_labels(old(app).channels, inside(area.width)),
        panel.selected == old(app).channels.state.selected,
        *final(app) == (App { channel_text_width: inside(area.width) as usize, ..*old(app) }),
{
    let channel_list_width: usize = without_borders(area.width);
    app.channel_text_width = channel_list_width;
    let mut labels: Vec<String> = Vec::new();
    let filtered = &app.channels.filtered_items;
    for i in 0..filtered.len()
        invariant
            filtered == app.channels.filtered_items,
            app.channels.wf(),
            labels@.len() == i,
            forall|j: int|
                0 <= j < i ==> (#[trigger] labels@[j])@ == channel_label(
                    app.channels.items@[filtered@[j] as int],
                    channel_list_width as nat,
                ),
    {
        labels.push(label(&app.channels.items[filtered[i]], channel_list_width));
    }
    assert(texts(labels@) =~= channel_labels(app.channels, inside(area.width)));
    ChannelsPanel { area, labels, selected: app.channels.state.selected }
}

} // verus!
