//! How a message appears in the list of messages.

use vstd::prelude::*;

use crate::bounds::max;
use crate::clock::{
    clock, clock_text, date_text, format_date, utc_timestamp_msec_to_local, LocalTime,
    MAX_TIMESTAMP,
};
use crate::columns::{columns, str_width};
use crate::data::{Attachment, Message};
use crate::names::NameResolver;
use crate::receipts::{display_receipt, receipt_sign, ShowReceipt};
use crate::text::{
    indent, indented, join, joined, repeat_char, repeated, start_with, strip_prefix, texts,
    wrap_lines, wrapped_lines,
};
use crate::widgets::{
    colored, lines_view, plain, raw, styled, Color, ListItem, Span, SpanView, Spans, Style,
};

verus! {

/// A file as a link.
pub open spec fn file_link(attachment: Attachment) -> Seq<char> {
    "<file://"@ + attachment.filename@ + ">"@
}

/// The files of a message, a line each, behind what is already there.
pub open spec fn with_attachments(msg: Message, before: Seq<char>) -> Seq<char> {
    if msg.attachments@.len() == 0 {
        before
    } else {
        (if before.len() == 0 {
            before
        } else {
            before.push('\n')
        }) + joined(msg.attachments@.map_values(|a: Attachment| file_link(a)), "\n"@)
    }
}

/// The emojis of the reactions in brackets, behind what is already there.
pub open spec fn with_reactions(msg: Message, before: Seq<char>) -> Seq<char> {
    if msg.reactions@.len() == 0 {
        before
    } else {
        before + " ["@ + joined(msg.reactions@.map_values(|r: (u128, String)| r.1@), ""@) + "]"@
    }
}

/// Appends links to the files of a message.
pub fn add_attachments(msg: &Message, out: &mut String)
    ensures
        final(out)@ == with_attachments(*msg, old(out)@),
{
    if msg.attachments.len() > 0 {
        if !out.as_str().is_empty() {
            out.push('\n');
        }
        let mut links: Vec<String> = Vec::new();
        for i in 0..msg.attachments.len()
            invariant
                links@.len() == i,
                forall|j: int|
                    0 <= j < i ==> (#[trigger] links@[j])@ == file_link(msg.attachments@[j]),
        {
            let mut link: String = String::new();
            link.append("<file://");
            link.append(msg.attachments[i].filename.as_str());
            link.append(">");
            assert(link@ =~= file_link(msg.attachments@[i as int]));
            links.push(link);
        }
        assert(texts(links@) =~= msg.attachments@.map_values(|a: Attachment| file_link(a)));
        let list: String = join(&links, "\n");
        out.append(list.as_str());
    }
}

/// Appends the reactions to a message.
pub fn add_reactions(msg: &Message, out: &mut String)
    ensures
        final(out)@ == with_reactions(*msg, old(out)@),
{
    if msg.reactions.len() > 0 {
        let mut emojis: Vec<String> = Vec::new();
        for i in 0..msg.reactions.len()
            invariant
                emojis@.len() == i,
                forall|j: int| 0 <= j < i ==> (#[trigger] emojis@[j])@ == msg.reactions@[j].1@,
        {
            emojis.push(msg.reactions[i].1.clone());
        }
        assert(texts(emojis@) =~= msg.reactions@.map_values(|r: (u128, String)| r.1@));
        let list: String = join(&emojis, "");
        out.append(" [");
        out.append(list.as_str());
        out.append("]");
    }
}

/// A quoted message behind the name of its sender; nothing if it has no text.
pub open spec fn quote_text(names: NameResolver, quote: Message) -> Option<Seq<char>> {
    match quote.message {
        Some(text) => Some("("@ + names.name_of(quote.from_id) + ") "@ + text@),
        None => None,
    }
}

/// A quoted message behind the name of its sender; nothing if it has no text.
pub fn displayed_quote(names: &NameResolver, quote: &Message) -> (r: Option<String>)
    ensures
        r is Some <==> quote_text(*names, *quote) is Some,
        r matches Some(s) ==> quote_text(*names, *quote) == Some(s@),
{
    match &quote.message {
        Some(text) => {
            let (name, _) = names.resolve(quote.from_id);
            let mut s: String = String::new();
            s.append("(");
            s.append(name);
            s.append(") ");
            s.append(text.as_str());
            assert(s@ =~= "("@ + names.name_of(quote.from_id) + ") "@ + text@);
            Some(s)
        },
        None => None,
    }
}

/// The text of a message and its files; a message without either is not displayed.
pub open spec fn content(msg: Message) -> Seq<char> {
    with_attachments(
        msg,
        match msg.message {
            Some(text) => text@,
            None => Seq::empty(),
        },
    )
}

/// The quote of a message, if it has one with a text.
pub open spec fn quote_of(names: NameResolver, msg: Message) -> Option<Seq<char>> {
    match msg.quote {
        Some(quote) => quote_text(names, *quote),
        None => None,
    }
}

/// The style of receipts and times.
pub open spec fn note_style() -> Style {
    colored(Color::Yellow)
}

/// The style of quotes.
pub open spec fn quote_style() -> Style {
    colored(Color::Rgb(150, 150, 150))
}

/// The name of the sender, filled up with spaces on the left to the widest name.
pub open spec fn padded_name(names: NameResolver, id: u128) -> Seq<char> {
    let name = names.name_of(id);
    indented(name, repeated(' ', max(names.max_name_width - columns(name), 0) as nat))
}

/// What stands in front of the first line of a message: receipt, time and sender.
pub open spec fn header(
    names: NameResolver,
    msg: Message,
    time: Seq<char>,
    show: ShowReceipt,
) -> Seq<SpanView> {
    seq![
        styled(receipt_sign(msg.receipt, show), note_style()),
        styled(time, note_style()),
        styled(padded_name(names, msg.from_id), colored(names.color_of(msg.from_id))),
        raw(": "@),
    ]
}

/// Lines in a style; where there is a header, it takes the place of the indentation of the first.
pub open spec fn styled_lines(
    lines: Seq<Seq<char>>,
    head: Option<Seq<SpanView>>,
    indentation: nat,
    style: Style,
) -> Seq<Seq<SpanView>> {
    Seq::new(
        lines.len(),
        |i: int|
            match head {
                Some(spans) if i == 0 => spans.push(
                    styled(lines[i].skip(indentation as int), style),
                ),
                _ => seq![styled(lines[i], style)],
            },
    )
}

/// The lines of a message: those that it quotes, if any, and its own ones, with the header in front
/// of the first.
pub open spec fn headed_lines(
    head: Seq<SpanView>,
    quoted: Option<Seq<Seq<char>>>,
    body: Seq<Seq<char>>,
    indentation: nat,
) -> Seq<Seq<SpanView>> {
    match quoted {
        Some(lines) => styled_lines(lines, Some(head), indentation, quote_style()) + styled_lines(
            body,
            None,
            indentation,
            plain(),
        ),
        None => styled_lines(body, Some(head), indentation, plain()),
    }
}

/// The lines of a message, however many.
pub open spec fn message_lines(
    names: NameResolver,
    msg: Message,
    time: Seq<char>,
    prefix: Seq<char>,
    width: usize,
    show: ShowReceipt,
) -> Seq<Seq<SpanView>> {
    let quoted = match quote_of(names, msg) {
        Some(quote) => Some(
            wrapped_lines(quote, max(width - 2, 0) as usize, prefix + "> "@),
        ),
        None => None,
    };
    let body = wrapped_lines(with_reactions(msg, content(msg)), width, prefix);
    headed_lines(header(names, msg, time, show), quoted, body, prefix.len())
}

/// At most `height` lines; where there are more, the last one says so.
pub open spec fn shortened(
    lines: Seq<Seq<SpanView>>,
    prefix: Seq<char>,
    height: nat,
) -> Seq<Seq<SpanView>> {
    if lines.len() > height {
        lines.take(height - 1).push(seq![raw(prefix + "[...]"@)])
    } else {
        lines
    }
}

/// How a message appears; nothing if it has neither text nor files.
pub open spec fn message_entry(
    names: NameResolver,
    msg: Message,
    time: Seq<char>,
    prefix: Seq<char>,
    width: usize,
    height: nat,
    show: ShowReceipt,
) -> Option<Seq<Seq<SpanView>>> {
    if content(msg).len() == 0 {
        None
    } else {
        Some(shortened(message_lines(names, msg, time, prefix, width, show), prefix, height))
    }
}

/// The header of a message.
fn header_spans(names: &NameResolver, msg: &Message, time: &str, show: ShowReceipt) -> (r: Spans)
    ensures
        r@ == header(*names, *msg, time@, show),
{
    let (name, color) = names.resolve(msg.from_id);
    let name_width: usize = str_width(name);
    let padding: usize = if names.max_name_width() > name_width {
        names.max_name_width() - name_width
    } else {
        0
    };
    let spaces: String = repeat_char(' ', padding);
    let from: String = indent(name, spaces.as_str());
    let note: Style = Style::default().fg(Color::Yellow);
    let mut spans: Vec<Span> = Vec::new();
    spans.push(Span::styled(display_receipt(msg.receipt, show).to_owned(), note));
    spans.push(Span::styled(time.to_owned(), note));
    spans.push(Span::styled(from, Style::default().fg(color)));
    spans.push(Span::raw(": ".to_owned()));
    let r = Spans(spans);
    assert(r@ =~= header(*names, *msg, time@, show));
    r
}

/// The spans of a header, if there is one.
pub open spec fn header_view(head: Option<Spans>) -> Option<Seq<SpanView>> {
    match head {
        Some(spans) => Some(spans@),
        None => None,
    }
}

/// Appends lines in a style; a header takes the place of the indentation of the first.
pub fn push_lines(
    out: &mut Vec<Spans>,
    lines: &Vec<String>,
    head: Option<Spans>,
    indentation: &str,
    style: Style,
)
    requires
        lines@.len() > 0,
        head is Some ==> indentation@.is_prefix_of(lines@[0]@),
    ensures
        lines_view(final(out)@) == lines_view(old(out)@)
            + styled_lines(
            texts(lines@),
            header_view(head),
            indentation@.len(),
            style,
        ),
{
    let ghost target = styled_lines(
        texts(lines@),
        header_view(head),
        indentation@.len(),
        style,
    );
    let first: Spans = match head {
        Some(Spans(mut spans)) => {
            let ghost before = Spans(spans)@;
            spans.push(Span::styled(strip_prefix(lines[0].as_str(), indentation), style));
            let s = Spans(spans);
            assert(s@ =~= before.push(
                styled(lines@[0]@.skip(indentation@.len() as int), style),
            ));
            s
        },
        None => Spans::single(Span::styled(lines[0].clone(), style)),
    };
    assert(first@ == target[0]);
    out.push(first);
    for i in 1..lines.len()
        invariant
            lines@.len() > 0,
            out@.len() == old(out)@.len() + i,
            forall|j: int| 0 <= j < old(out)@.len() ==> out@[j] == old(out)@[j],
            forall|j: int|
                0 <= j < i ==> (#[trigger] out@[old(out)@.len() + j])@ == target[j],
            target.len() == lines@.len(),
            forall|j: int|
                1 <= j < lines@.len() ==> #[trigger] target[j] == seq![styled(lines@[j]@, style)],
    {
        let ghost mid = out@;
        out.push(Spans::single(Span::styled(lines[i].clone(), style)));
        assert(forall|j: int| 0 <= j < mid.len() ==> out@[j] == mid[j]);
        assert(out@[old(out)@.len() + i]@ == target[i as int]);
    }
    assert forall|k: int| 0 <= k < out@.len() implies #[trigger] lines_view(out@)[k] == (lines_view(
        old(out)@,
    ) + target)[k] by {
        if k >= old(out)@.len() {
            let j = k - old(out)@.len();
            assert(out@[old(out)@.len() + j]@ == target[j]);
        }
    }
    assert(lines_view(out@) =~= lines_view(old(out)@) + target);
}

/// Whether all lines but the first consist of one span that starts with the indentation.
pub open spec fn is_indented(lines: Seq<Seq<SpanView>>, prefix: Seq<char>) -> bool {
    forall|j: int|
        1 <= j < lines.len() ==> (#[trigger] lines[j]).len() == 1 && prefix.is_prefix_of(
            lines[j][0].content,
        )
}

/// Whether a message was broken into lines, of which each starts with the indentation, and so was
/// its quote.
pub open spec fn is_broken(
    names: NameResolver,
    msg: Message,
    prefix: Seq<char>,
    width: usize,
) -> bool {
    &&& start_with(wrapped_lines(with_reactions(msg, content(msg)), width, prefix), prefix)
    &&& quote_of(names, msg) matches Some(quote) ==> start_with(
        wrapped_lines(quote, max(width - 2, 0) as usize, prefix + "> "@),
        prefix + "> "@,
    )
}

/// What several lines of text hold, if there are any.
pub open spec fn quoted_texts(quoted: Option<Vec<String>>) -> Option<Seq<Seq<char>>> {
    match quoted {
        Some(lines) => Some(texts(lines@)),
        None => None,
    }
}

/// Puts a message together: the header, the lines that it quotes and its own ones, which all start
/// with `prefix`; cut off where there are more than `height`.
pub fn compose(
    head: Spans,
    quoted: Option<Vec<String>>,
    body: Vec<String>,
    prefix: &str,
    height: usize,
) -> (item: ListItem)
    requires
        height > 0,
        body@.len() > 0,
        quoted matches Some(lines) ==> lines@.len() > 0 && prefix@.is_prefix_of(lines@[0]@),
        quoted is None ==> prefix@.is_prefix_of(body@[0]@),
    ensures
        item@ == shortened(
            headed_lines(head@, quoted_texts(quoted), texts(body@), prefix@.len()),
            prefix@,
            height as nat,
        ),
        1 <= item@.len() <= height,
        start_with(texts(body@), prefix@) && (quoted is Some ==> start_with(
            quoted_texts(quoted)->0,
            prefix@,
        )) ==> is_indented(item@, prefix@),
{
    let mut lines: Vec<Spans> = Vec::new();
    let ghost quoted_lines = quoted_texts(quoted);
    let ghost all = headed_lines(head@, quoted_texts(quoted), texts(body@), prefix@.len());
    // prepend quote if any
    match quoted {
        Some(quoted) => {
            push_lines(
                &mut lines,
                &quoted,
                Some(head),
                prefix,
                Style::default().fg(Color::Rgb(150, 150, 150)),
            );
            push_lines(&mut lines, &body, None, prefix, Style::default());
        },
        None => {
            push_lines(&mut lines, &body, Some(head), prefix, Style::default());
        },
    }
    assert(lines_view(lines@) =~= all);

    if lines.len() > height {
        // the message is too big to be shown fully
        lines.truncate(height - 1);
        let mut more: String = prefix.to_owned();
        more.append("[...]");
        lines.push(Spans::single(Span::raw(more)));
    }
    let item = ListItem { lines };
    assert(item@ =~= shortened(all, prefix@, height as nat));
    proof {
        if start_with(texts(body@), prefix@) && (quoted_lines is Some ==> start_with(
            quoted_lines->0,
            prefix@,
        )) {
            assert forall|j: int| 1 <= j < item@.len() implies (#[trigger] item@[j]).len() == 1
                && prefix@.is_prefix_of(item@[j][0].content) by {
                lemma_indented_line(quoted_lines, texts(body@), prefix@, j);
            }
        }
    }
    item
}

proof fn lemma_indented_line(
    quoted: Option<Seq<Seq<char>>>,
    body: Seq<Seq<char>>,
    prefix: Seq<char>,
    j: int,
)
    requires
        start_with(body, prefix),
        quoted matches Some(lines) ==> start_with(lines, prefix),
    ensures
        forall|head: Seq<SpanView>|
            #![trigger headed_lines(head, quoted, body, prefix.len())]
            1 <= j < headed_lines(head, quoted, body, prefix.len()).len() ==> {
                let line = headed_lines(head, quoted, body, prefix.len())[j];
                line.len() == 1 && prefix.is_prefix_of(line[0].content)
            },
        prefix.is_prefix_of(prefix + "[...]"@),
{
    assert((prefix + "[...]"@).take(prefix.len() as int) =~= prefix);
    assert forall|head: Seq<SpanView>|
        #![trigger headed_lines(head, quoted, body, prefix.len())]
        1 <= j < headed_lines(head, quoted, body, prefix.len()).len() implies {
        let line = headed_lines(head, quoted, body, prefix.len())[j];
        line.len() == 1 && prefix.is_prefix_of(line[0].content)
    } by {
        if let Some(lines) = quoted {
            if j < lines.len() {
                assert(prefix.is_prefix_of(lines[j]));
            } else {
                assert(prefix.is_prefix_of(body[j - lines.len()]));
            }
        } else {
            assert(prefix.is_prefix_of(body[j]));
        }
    }
}

/// How a message that arrived at a given time appears; nothing if it has neither text nor files.
pub fn message_item(
    names: &NameResolver,
    msg: &Message,
    time: &str,
    prefix: &str,
    width: usize,
    height: usize,
    show_receipt: ShowReceipt,
) -> (r: Option<ListItem>)
    requires
        height > 0 || content(*msg).len() == 0,
    ensures
        ({
            let entry = message_entry(
                *names,
                *msg,
                time@,
                prefix@,
                width,
                height as nat,
                show_receipt,
            );
            &&& r is Some <==> entry is Some
            &&& r matches Some(item) ==> entry == Some(item@) && 1 <= item@.len() <= height
        }),
        r matches Some(item) ==> is_indented(item@, prefix@) && is_broken(
            *names,
            *msg,
            prefix@,
            width,
        ),
{
    // collect message text
    let mut text: String = match &msg.message {
        Some(text) => text.clone(),
        None => String::new(),
    };
    add_attachments(msg, &mut text);
    if text.as_str().is_empty() {
        return None;  // no text => nothing to render
    }
    add_reactions(msg, &mut text);

    let head: Spans = header_spans(names, msg, time, show_receipt);
    let quote: Option<String> = match &msg.quote {
        Some(quote) => displayed_quote(names, quote),
        None => None,
    };
    let body: Vec<String> = wrap_lines(text.as_str(), width, prefix);
    let quoted: Option<Vec<String>> = match quote {
        Some(quote) => {
            let mut quote_prefix: String = prefix.to_owned();
            quote_prefix.append("> ");
            let quote_width: usize = if width > 2 {
                width - 2
            } else {
                0
            };
            let lines: Vec<String> = wrap_lines(quote.as_str(), quote_width, quote_prefix.as_str());
            proof {
                lemma_start_with(texts(lines@), prefix@, "> "@);
                assert(texts(lines@)[0] == lines@[0]@);
            }
            Some(lines)
        },
        None => None,
    };
    assert(texts(body@)[0] == body@[0]@);
    Some(compose(head, quoted, body, prefix, height))
}

proof fn lemma_start_with(lines: Seq<Seq<char>>, a: Seq<char>, b: Seq<char>)
    requires
        start_with(lines, a + b),
    ensures
        start_with(lines, a),
{
    assert forall|i: int| 0 <= i < lines.len() implies a.is_prefix_of(#[trigger] lines[i]) by {
        assert((a + b).is_prefix_of(lines[i]));
        assert(a =~= lines[i].take(a.len() as int));
    }
}

/// How a message appears, with the clock of its arrival in the time zone of the machine.
pub fn display_message(
    names: &NameResolver,
    msg: &Message,
    prefix: &str,
    width: usize,
    height: usize,
    show_receipt: ShowReceipt,
) -> (r: Option<ListItem>)
    requires
        height > 0 || content(*msg).len() == 0,
        msg.arrived_at <= MAX_TIMESTAMP,
    ensures
        r is Some <==> content(*msg).len() > 0,
        r matches Some(item) ==> 1 <= item@.len() <= height && exists|local: LocalTime| #[trigger]
            local.is_time_of(msg.arrived_at) && message_entry(
                *names,
                *msg,
                clock_text(local.second as nat),
                prefix@,
                width,
                height as nat,
                show_receipt,
            ) == Some(item@),
        r matches Some(item) ==> is_indented(item@, prefix@) && is_broken(
            *names,
            *msg,
            prefix@,
            width,
        ),
{
    let local = utc_timestamp_msec_to_local(msg.arrived_at);
    let time: String = clock(local);
    message_item(names, msg, time.as_str(), prefix, width, height, show_receipt)
}

/// A text in the middle of a line of `width` characters, which `fill` fills up.
pub open spec fn centered(text: Seq<char>, fill: char, width: nat) -> Seq<char> {
    let missing = max(width - text.len(), 0);
    repeated(fill, (missing / 2) as nat) + text + repeated(fill, (missing - missing / 2) as nat)
}

/// The line below the last message of a day, with that day.
pub open spec fn date_line_text(day: int, width: nat) -> Seq<char> {
    centered(date_text(day), '=', width)
}

/// The line below a message that did not arrive on the day of the later one under it, with the day
/// of the message; remembers the day.
pub fn date_line(local: LocalTime, previous_msg_day: &mut i32, width: usize) -> (r: Option<
    ListItem,
>)
    requires
        local.wf(),
    ensures
        *final(previous_msg_day) == local.day,
        r is Some <==> local.day != *old(previous_msg_day),
        r matches Some(item) ==> item@ == seq![
            seq![raw(date_line_text(local.day as int, width as nat))],
        ],
{
    if local.day != *previous_msg_day {
        *previous_msg_day = local.day;

        let date: String = format_date(local.day);
        let len: usize = date.as_str().unicode_len();
        let missing: usize = if width > len {
            width - len
        } else {
            0
        };
        let mut line: String = repeat_char('=', missing / 2);
        line.append(date.as_str());
        let right: String = repeat_char('=', missing - missing / 2);
        line.append(right.as_str());
        Some(ListItem::single(line))
    } else {
        None
    }
}

/// The line below a message that did not arrive on the day of the later one under it, in the time
/// zone of the machine; remembers the day.
pub fn display_date_line(msg_timestamp: u64, previous_msg_day: &mut i32, width: usize) -> (r:
    Option<ListItem>)
    requires
        msg_timestamp <= MAX_TIMESTAMP,
    ensures
        exists|local: LocalTime| #[trigger]
            local.is_time_of(msg_timestamp) && *final(previous_msg_day) == local.day,
        r is Some <==> *final(previous_msg_day) != *old(previous_msg_day),
        r matches Some(item) ==> item@ == seq![
            seq![raw(date_line_text(*final(previous_msg_day) as int, width as nat))],
        ],
{
    let local = utc_timestamp_msec_to_local(msg_timestamp);
    date_line(local, previous_msg_day, width)
}

} // verus!
