//! What the lines of a message promise as a whole.

use vstd::prelude::*;

use crate::bounds::max;
use crate::chat::{prefix_width, TIME_WIDTH};
use crate::clock::{
    clock_text, date_text, day_number, is_date, law_date_of_day_number, two_digits, weekday_name,
};
use crate::columns::{char_advance, char_width, columns, lemma_columns_concat};
use crate::data::{Attachment, Channel, Message};
use crate::message::{
    content, date_line_text, file_link, header, message_entry, message_lines, padded_name,
    quote_of, with_attachments, with_reactions,
};
use crate::names::{entry_of, law_names_fit, NameResolver};
use crate::receipts::{receipt_shown, receipt_sign, ShowReceipt};
use crate::text::{
    digit, indented, is_blank, is_white, joined, repeated, trimmed_end, wrapped_lines,
};
use crate::text_laws::{
    law_every_part_is_joined, law_joined_without_separator, law_one_line_is_indented,
    law_trimmed_end, lemma_one_line, lemma_two_digits, number,
};
use crate::widgets::{plain, styled, Color, SpanView};

verus! {

/// The columns that a line of spans takes.
pub open spec fn line_width(spans: Seq<SpanView>) -> nat
    decreases spans.len(),
{
    if spans.len() == 0 {
        0
    } else {
        line_width(spans.drop_last()) + columns(spans.last().content)
    }
}

/// Whether a character takes one column.
pub open spec fn is_narrow(c: char) -> bool {
    char_advance(c) == 1
}

/// The emojis of all reactions follow what is already there, in brackets and in order, whatever
/// else the message holds; without reactions nothing follows.
pub proof fn law_reactions_are_appended(msg: Message, before: Seq<char>)
    ensures
        msg.reactions@.len() == 0 ==> with_reactions(msg, before) == before,
        msg.reactions@.len() > 0 ==> with_reactions(msg, before) == before + seq![' ', '[']
            + msg.reactions@.map_values(|r: (u128, String)| r.1@).flatten() + seq![']'],
{
    reveal_strlit(" [");
    reveal_strlit("]");
    reveal_strlit("");
    assert(""@ =~= Seq::<char>::empty());
    assert(" ["@ =~= seq![' ', '[']);
    assert("]"@ =~= seq![']']);
    law_joined_without_separator(msg.reactions@.map_values(|r: (u128, String)| r.1@));
}

/// No reaction gets lost: the emoji of each stands in the text that is displayed.
pub proof fn law_every_reaction_is_displayed(msg: Message, i: int) -> (r: (Seq<char>, Seq<char>))
    requires
        0 <= i < msg.reactions@.len(),
    ensures
        with_reactions(msg, content(msg)) == r.0 + msg.reactions@[i].1@ + r.1,
{
    let emojis = msg.reactions@.map_values(|r: (u128, String)| r.1@);
    let (a, b) = law_every_part_is_joined(emojis, ""@, i);
    let text = content(msg);
    assert(with_reactions(msg, text) =~= (text + " ["@ + a) + msg.reactions@[i].1@ + (b + "]"@));
    (text + " ["@ + a, b + "]"@)
}

/// The files of a message follow what is already there as links, each on a line of its own and in
/// order.
pub proof fn law_attachments_are_linked(msg: Message, before: Seq<char>)
    ensures
        msg.attachments@.len() == 0 ==> with_attachments(msg, before) == before,
        msg.attachments@.len() > 0 ==> ({
            let links = joined(
                msg.attachments@.map_values(|a: Attachment| "<file://"@ + a.filename@ + seq!['>']),
                seq!['\n'],
            );
            &&& before.len() == 0 ==> with_attachments(msg, before) == links
            &&& before.len() > 0 ==> with_attachments(msg, before) == before + seq!['\n'] + links
        }),
{
    reveal_strlit(">");
    reveal_strlit("\n");
    assert(">"@ =~= seq!['>']);
    assert("\n"@ =~= seq!['\n']);
    let own = msg.attachments@.map_values(|a: Attachment| file_link(a));
    let links = msg.attachments@.map_values(
        |a: Attachment| "<file://"@ + a.filename@ + seq!['>'],
    );
    assert(own =~= links);
    assert(Seq::<char>::empty() + joined(links, "\n"@) =~= joined(links, "\n"@));
    if before.len() == 0 {
        assert(with_attachments(msg, before) =~= joined(links, seq!['\n'])
            || msg.attachments@.len() == 0);
    } else {
        assert(before.push('\n') =~= before + seq!['\n']);
    }
}

/// No file gets lost: a link to each stands in the text that is displayed.
pub proof fn law_every_file_is_displayed(msg: Message, i: int) -> (r: (Seq<char>, Seq<char>))
    requires
        0 <= i < msg.attachments@.len(),
    ensures
        content(msg) == r.0 + ("<file://"@ + msg.attachments@[i].filename@ + ">"@) + r.1,
{
    let links = msg.attachments@.map_values(|a: Attachment| file_link(a));
    let (a, b) = law_every_part_is_joined(links, "\n"@, i);
    let text = match msg.message {
        Some(text) => text@,
        None => Seq::empty(),
    };
    let head = if text.len() == 0 {
        text
    } else {
        text.push('\n')
    };
    assert(content(msg) =~= (head + a) + links[i] + b);
    (head + a, b)
}

/// The text of a message comes first, and without files it is all there is.
pub proof fn law_text_comes_first(msg: Message)
    ensures
        ({
            let text = match msg.message {
                Some(text) => text@,
                None => Seq::empty(),
            };
            &&& text.is_prefix_of(content(msg))
            &&& msg.attachments@.len() == 0 ==> content(msg) == text
            &&& content(msg).is_prefix_of(with_reactions(msg, content(msg)))
        }),
{
    let text = match msg.message {
        Some(text) => text@,
        None => Seq::empty(),
    };
    assert(text =~= content(msg).take(text.len() as int));
    let all = with_reactions(msg, content(msg));
    assert(content(msg) =~= all.take(content(msg).len() as int));
}

/// A message is displayed if and only if it has a text or a file.
pub proof fn law_messages_with_content_are_displayed(
    names: NameResolver,
    msg: Message,
    time: Seq<char>,
    prefix: Seq<char>,
    width: usize,
    height: nat,
    show: ShowReceipt,
)
    ensures
        message_entry(names, msg, time, prefix, width, height, show) is Some <==> (
        msg.message matches Some(text) && text@.len() > 0) || msg.attachments@.len() > 0,
{
    if msg.attachments@.len() > 0 {
        let (a, b) = law_every_file_is_displayed(msg, 0);
        reveal_strlit(">");
        assert(content(msg).len() > 0);
    } else {
        law_text_comes_first(msg);
    }
}

/// A quote stands behind the name of its sender in brackets; one without a text is left out.
pub proof fn law_quotes_name_their_sender(names: NameResolver, msg: Message)
    ensures
        msg.quote is None ==> quote_of(names, msg) is None,
        msg.quote matches Some(quote) ==> {
            &&& quote.message is None ==> quote_of(names, msg) is None
            &&& quote.message matches Some(text) ==> quote_of(names, msg) == Some(
                seq!['('] + names.name_of(quote.from_id) + seq![')', ' '] + text@,
            )
        },
{
    reveal_strlit("(");
    reveal_strlit(") ");
    assert("("@ =~= seq!['(']);
    assert(") "@ =~= seq![')', ' ']);
}

/// In front of a message stand its receipt and its time in yellow, then the sender in their color.
pub proof fn law_header_tells_who_and_when(
    names: NameResolver,
    msg: Message,
    time: Seq<char>,
    show: ShowReceipt,
)
    ensures
        ({
            let spans = header(names, msg, time, show);
            &&& spans.len() == 4
            &&& spans[0].content == receipt_sign(msg.receipt, show)
            &&& spans[0].style.fg == Some(Color::Yellow)
            &&& spans[1].content == time
            &&& spans[1].style.fg == Some(Color::Yellow)
            &&& spans[2].content == padded_name(names, msg.from_id)
            &&& spans[2].style.fg == Some(names.color_of(msg.from_id))
            &&& spans[3].content == seq![':', ' ']
            &&& spans[3].style.fg is None
        }),
{
    reveal_strlit(": ");
    assert(": "@ =~= seq![':', ' ']);
}

/// A name is written out, behind as many spaces as it is narrower than the widest name. This holds
/// of names that can be seen and have one line.
pub proof fn law_names_are_aligned_to_the_right(names: NameResolver, id: u128)
    requires
        !names.name_of(id).contains('\n'),
        exists|i: int|
            0 <= i < names.name_of(id).len() && !is_white(#[trigger] names.name_of(id)[i]),
    ensures
        ({
            let name = names.name_of(id);
            let padded = padded_name(names, id);
            let spaces = padded.len() - name.len();
            &&& 0 <= spaces
            &&& padded.skip(spaces) == name
            &&& forall|i: int| 0 <= i < spaces ==> #[trigger] padded[i] == ' '
            &&& columns(name) <= names.max_name_width ==> spaces == names.max_name_width
                - columns(name)
            &&& columns(name) > names.max_name_width ==> spaces == 0
        }),
{
    let name = names.name_of(id);
    let padding = max(names.max_name_width - columns(name), 0) as nat;
    law_one_line_is_indented(name, repeated(' ', padding));
    let padded = padded_name(names, id);
    assert(padded == repeated(' ', padding) + name);
    assert(padded.skip(padding as int) =~= name);
}

/// However a name looks, all its lines are indented by as many spaces as it is narrower than the
/// widest name; a blank name of one line stays as it is.
pub proof fn law_all_names_are_padded(names: NameResolver, id: u128)
    ensures
        ({
            let name = names.name_of(id);
            let spaces = if columns(name) < names.max_name_width {
                (names.max_name_width - columns(name)) as nat
            } else {
                0
            };
            &&& padded_name(names, id) == indented(name, repeated(' ', spaces))
            &&& !name.contains('\n') && (forall|i: int|
                0 <= i < name.len() ==> is_white(#[trigger] name[i])) ==> padded_name(names, id)
                == name
        }),
{
    let name = names.name_of(id);
    let spaces = repeated(' ', max(names.max_name_width - columns(name), 0) as nat);
    if !name.contains('\n') && name.len() > 0 {
        law_one_line_is_indented(name, spaces);
        law_trimmed_end(spaces);
        let t = trimmed_end(spaces);
        assert(t.len() == 0) by {
            if t.len() > 0 {
                assert(t[t.len() - 1] == spaces[t.len() - 1]);
            }
        }
        assert(t + name =~= name);
    } else if name.len() == 0 {
        assert(padded_name(names, id) =~= name);
    }
}

/// A message without a quote shows all its lines, plain and in order. In front of the first stands
/// the header, in place of the indentation.
pub proof fn law_message_shows_its_lines(
    names: NameResolver,
    msg: Message,
    time: Seq<char>,
    prefix: Seq<char>,
    width: usize,
    show: ShowReceipt,
    j: int,
)
    requires
        quote_of(names, msg) is None,
        0 <= j < wrapped_lines(with_reactions(msg, content(msg)), width, prefix).len(),
    ensures
        ({
            let text = wrapped_lines(with_reactions(msg, content(msg)), width, prefix);
            let lines = message_lines(names, msg, time, prefix, width, show);
            &&& lines.len() == text.len()
            &&& lines[j].last().style.fg is None
            &&& j == 0 ==> lines[j].drop_last() == header(names, msg, time, show)
                && lines[j].last().content == text[j].skip(prefix.len() as int)
            &&& j > 0 ==> lines[j].len() == 1 && lines[j][0].content == text[j]
        }),
{
    let text = wrapped_lines(with_reactions(msg, content(msg)), width, prefix);
    let lines = message_lines(names, msg, time, prefix, width, show);
    if j == 0 {
        let head = header(names, msg, time, show);
        assert(lines[0] == head.push(styled(text[0].skip(prefix.len() as int), plain())));
        assert(lines[0].drop_last() =~= head);
    }
}

/// A message with a quote shows all lines of the quote, gray and marked, and then all its own
/// lines. In front of the first stands the header, in place of the indentation.
pub proof fn law_message_shows_quote_and_lines(
    names: NameResolver,
    msg: Message,
    time: Seq<char>,
    prefix: Seq<char>,
    width: usize,
    show: ShowReceipt,
    quote: Seq<char>,
    j: int,
)
    requires
        quote_of(names, msg) == Some(quote),
        0 <= j,
    ensures
        ({
            let quote_width = if width >= 2 {
                (width - 2) as usize
            } else {
                0
            };
            let quoted = wrapped_lines(quote, quote_width, prefix + seq!['>', ' ']);
            let text = wrapped_lines(with_reactions(msg, content(msg)), width, prefix);
            let lines = message_lines(names, msg, time, prefix, width, show);
            &&& lines.len() == quoted.len() + text.len()
            &&& j < quoted.len() ==> {
                &&& lines[j].last().style.fg == Some(Color::Rgb(150, 150, 150))
                &&& j == 0 ==> lines[j].drop_last() == header(names, msg, time, show)
                    && lines[j].last().content == quoted[j].skip(prefix.len() as int)
                &&& j > 0 ==> lines[j].len() == 1 && lines[j][0].content == quoted[j]
            }
            &&& j < text.len() ==> {
                let line = lines[quoted.len() + j];
                line.len() == 1 && line[0].style.fg is None && line[0].content == text[j]
            }
        }),
{
    reveal_strlit("> ");
    assert("> "@ =~= seq!['>', ' ']);
    let quoted = wrapped_lines(quote, max(width - 2, 0) as usize, prefix + "> "@);
    let lines = message_lines(names, msg, time, prefix, width, show);
    if j == 0 && quoted.len() > 0 {
        let head = header(names, msg, time, show);
        assert(lines[0].drop_last() =~= head);
    }
}

/// A message that is not higher than the page is shown in full. Of a higher one as much is shown as
/// leaves a line to say that there is more.
pub proof fn law_only_high_messages_are_shortened(
    names: NameResolver,
    msg: Message,
    time: Seq<char>,
    prefix: Seq<char>,
    width: usize,
    height: nat,
    show: ShowReceipt,
)
    requires
        height > 0,
        message_entry(names, msg, time, prefix, width, height, show) is Some,
    ensures
        ({
            let lines = message_lines(names, msg, time, prefix, width, show);
            let entry = message_entry(names, msg, time, prefix, width, height, show)->0;
            &&& lines.len() <= height ==> entry == lines
            &&& lines.len() > height ==> {
                &&& entry.len() == height
                &&& entry.drop_last() == lines.take(height - 1)
                &&& entry.last().len() == 1
                &&& entry.last()[0].content == prefix + seq!['[', '.', '.', '.', ']']
                &&& entry.last()[0].style.fg is None
            }
        }),
{
    reveal_strlit("[...]");
    assert("[...]"@ =~= seq!['[', '.', '.', '.', ']']);
    let lines = message_lines(names, msg, time, prefix, width, show);
    let entry = message_entry(names, msg, time, prefix, width, height, show)->0;
    if lines.len() > height {
        assert(entry.drop_last() =~= lines.take(height - 1));
    }
}

/// The line between two days holds the date in its middle, and is filled up with `=` on both sides.
pub proof fn law_date_line_is_centered(day: int, width: nat)
    ensures
        ({
            let date = date_text(day);
            let line = date_line_text(day, width);
            let left = (line.len() - date.len()) / 2;
            &&& line.len() == max(width as int, date.len() as int)
            &&& line.subrange(left, left + date.len()) == date
            &&& forall|i: int|
                0 <= i < left || left + date.len() <= i < line.len() ==> #[trigger] line[i] == '='
        }),
{
    let date = date_text(day);
    let line = date_line_text(day, width);
    let left = (line.len() - date.len()) / 2;
    assert(line.subrange(left, left + date.len()) =~= date);
}

/// A date is written as weekday, month, day and year, the last three with two digits each.
pub proof fn law_date_is_written_out(year: int, month: int, day: int)
    requires
        is_date(year, month, day),
    ensures
        ({
            let n = day_number(year, month, day);
            let text = date_text(n);
            let m = text.len() as int;
            &&& m == weekday_name(n).len() + 12
            &&& text[0] == ' '
            &&& text.subrange(1, m - 11) == weekday_name(n)
            &&& text[m - 11] == ','
            &&& text[m - 10] == ' '
            &&& number(text.subrange(m - 9, m - 7)) == month
            &&& text[m - 7] == '/'
            &&& number(text.subrange(m - 6, m - 4)) == day
            &&& text[m - 4] == '/'
            &&& number(text.subrange(m - 3, m - 1)) == year % 100
            &&& text[m - 1] == ' '
        }),
{
    let n = day_number(year, month, day);
    law_date_of_day_number(year, month, day);
    let text = date_text(n);
    let m = text.len() as int;
    lemma_two_digits(month as nat);
    lemma_two_digits(day as nat);
    lemma_two_digits((year % 100) as nat);
    assert(text.subrange(1, m - 11) =~= weekday_name(n));
    assert(text.subrange(m - 9, m - 7) =~= two_digits(month as nat));
    assert(text.subrange(m - 6, m - 4) =~= two_digits(day as nat));
    assert(text.subrange(m - 3, m - 1) =~= two_digits((year % 100) as nat));
}

/// Whether all characters of receipts, times and delimiters take one column.
pub open spec fn narrow_signs() -> bool {
    &&& is_narrow(' ')
    &&& is_narrow(':')
    &&& forall|d: nat| d < 10 ==> is_narrow(#[trigger] digit(d))
    &&& is_narrow('○')
    &&& is_narrow('◉')
    &&& is_narrow('●')
}

/// A clock consists of six characters, which take as many columns.
pub proof fn law_clock_is_six_columns(second: nat)
    requires
        second < 86_400,
    ensures
        clock_text(second).len() == TIME_WIDTH,
        narrow_signs() ==> columns(clock_text(second)) == TIME_WIDTH,
{
    if narrow_signs() {
        lemma_narrow(clock_text(second));
    }
}

/// Whether the header of a message is as broad as the indentation, if its sender's name is known,
/// is not blank and has only one line.
pub open spec fn is_aligned(
    channel: Channel,
    msg: Message,
    user_id: u128,
    show_receipts: bool,
    second: nat,
) -> bool {
    let name = channel.names.name_of(msg.from_id);
    let show = receipt_shown(msg, user_id, show_receipts);
    channel.names.wf() && entry_of(channel.names.entries@, msg.from_id) is Some && !is_blank(name)
        && !name.contains('\n') && second < 86_400 ==> line_width(
        header(channel.names, msg, clock_text(second), show),
    ) == prefix_width(channel, show_receipts)
}

/// What stands in front of the first line of a message is as broad as the indentation of the
/// others, so that all of its text is aligned.
///
/// This holds of a sender whose name is known, is not blank and has only one line, if the
/// characters of receipts and times take one column each.
pub proof fn law_text_is_aligned(
    channel: Channel,
    msg: Message,
    user_id: u128,
    show_receipts: bool,
    second: nat,
)
    requires
        narrow_signs(),
    ensures
        is_aligned(channel, msg, user_id, show_receipts, second),
{
    let show = receipt_shown(msg, user_id, show_receipts);
    let name = channel.names.name_of(msg.from_id);
    let spans = header(channel.names, msg, clock_text(second), show);
    if channel.names.wf() && entry_of(channel.names.entries@, msg.from_id) is Some && !is_blank(
        name,
    ) && !name.contains('\n') && second < 86_400 {
        lemma_narrow(receipt_sign(msg.receipt, show));
        law_clock_is_six_columns(second);
        reveal_strlit(": ");
        lemma_narrow(": "@);

        law_names_fit(channel.names, msg.from_id);
        let padding = (channel.names.max_name_width - columns(name)) as nat;
        lemma_one_line(name);
        assert(name.take(name.len() as int) =~= name);
        assert(padded_name(channel.names, msg.from_id) =~= repeated(' ', padding) + name);
        lemma_columns_concat(repeated(' ', padding), name);
        lemma_narrow(repeated(' ', padding));

        reveal_with_fuel(line_width, 5);
        assert(spans.drop_last().drop_last().drop_last().drop_last() =~= Seq::empty());
    }
}

/// Whether all characters of receipts, times and delimiters take one column, so that clocks take
/// six and the text of all messages is aligned.
pub fn are_signs_narrow() -> (b: bool)
    ensures
        b == narrow_signs(),
        b ==> forall|second: nat|
            second < 86_400 ==> columns(#[trigger] clock_text(second)) == TIME_WIDTH,
        b ==> forall|
            channel: Channel,
            msg: Message,
            user_id: u128,
            show_receipts: bool,
            second: nat,
        | #[trigger]
            is_aligned(channel, msg, user_id, show_receipts, second),
{
    let mut narrow: bool = takes_one_column(' ') && takes_one_column(':') && takes_one_column('○')
        && takes_one_column('◉') && takes_one_column('●');
    let mut d: u8 = 0;
    while d < 10
        invariant
            d <= 10,
            narrow <==> is_narrow(' ') && is_narrow(':') && is_narrow('○') && is_narrow('◉')
                && is_narrow('●') && (forall|i: nat| i < d ==> is_narrow(#[trigger] digit(i))),
        decreases 10 - d,
    {
        let sign: char = (48u8 + d) as char;
        assert(sign == digit(d as nat));
        narrow = takes_one_column(sign) && narrow;
        d = d + 1;
    }
    proof {
        if narrow {
            assert forall|second: nat| second < 86_400 implies columns(
                #[trigger] clock_text(second),
            ) == TIME_WIDTH by {
                law_clock_is_six_columns(second);
            }
            assert forall|
                channel: Channel,
                msg: Message,
                user_id: u128,
                show_receipts: bool,
                second: nat,
            | #[trigger] is_aligned(channel, msg, user_id, show_receipts, second) by {
                law_text_is_aligned(channel, msg, user_id, show_receipts, second);
            }
        }
    }
    narrow
}

/// Whether a character takes one column.
fn takes_one_column(c: char) -> (b: bool)
    ensures
        b == is_narrow(c),
{
    match char_width(c) {
        Some(n) => n == 1,
        None => false,
    }
}

pub(crate) proof fn lemma_narrow(s: Seq<char>)
    requires
        forall|i: int| 0 <= i < s.len() ==> is_narrow(#[trigger] s[i]),
    ensures
        columns(s) == s.len(),
    decreases s.len(),
{
    if s.len() > 0 {
        assert(is_narrow(s[s.len() - 1]));
        lemma_narrow(s.drop_last());
    }
}

} // verus!
