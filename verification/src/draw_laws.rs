//! What the screen promises as a whole.

use vstd::prelude::*;

use crate::bounds::{max, min};
use crate::channels::{channel_label, channel_labels, inside};
use crate::chat::{draws_messages, input_area, messages_area};
use crate::columns::{char_advance, columns, lemma_columns_concat};
use crate::data::{App, BoxData, ShortCut};
use crate::draw::{
    box_area, box_error, channels_area, draws_screen, help_area, left_area, rest_area, right_area,
    screen_drawable, search_area, shortcut_entry, shortcut_header, shows, shows_help,
    widest_event, DrawError, HelpPanel, InputPanel, MainScreen, Screen,
};
use crate::input::{input_caret, input_text, newlines};
use crate::input_laws::law_text_without_columns;
use crate::message::is_indented;
use crate::message_laws::{is_narrow, lemma_narrow, line_width};
use crate::text::{is_white, repeated, texts, trimmed_end, wrapped_lines};
use crate::text_laws::{law_one_line_is_indented, law_trimmed_end};
use crate::widgets::{entries, Rect};

verus! {

/// Whether an area consists of two parts side by side.
pub open spec fn side_by_side(area: Rect, left: Rect, right: Rect) -> bool {
    &&& left.x == area.x
    &&& right.x == left.x + left.width
    &&& right.x + right.width == area.x + area.width
    &&& left.y == right.y == area.y
    &&& left.height == right.height == area.height
}

/// Whether an area consists of two parts one below the other.
pub open spec fn stacked(area: Rect, upper: Rect, lower: Rect) -> bool {
    &&& upper.y == area.y
    &&& lower.y == upper.y + upper.height
    &&& lower.y + lower.height == area.y + area.height
    &&& upper.x == lower.x == area.x
    &&& upper.width == lower.width == area.width
}

/// Search box, channels, messages and input fill the screen, and none of them covers another.
pub proof fn law_parts_fill_the_screen(app: App, area: Rect)
    requires
        area.wf(),
    ensures
        side_by_side(area, left_area(area), right_area(area)),
        stacked(
            left_area(area),
            search_area(app, left_area(area)),
            channels_area(app, left_area(area)),
        ),
        stacked(
            right_area(area),
            messages_area(app, right_area(area)),
            input_area(app, right_area(area)),
        ),
{
}

/// The help lies in the middle of the screen, up to two cells that cannot be shared out evenly.
pub proof fn law_help_is_centered(area: Rect)
    requires
        area.wf(),
    ensures
        ({
            let help = help_area(area);
            let left = help.x - area.x;
            let right = area.x + area.width - help.x - help.width;
            &&& 0 <= left <= right <= left + 2
            &&& help.y == area.y
            &&& help.height == area.height
        }),
{
}

/// The channels take a quarter of the screen, rounded down to whole cells.
pub proof fn law_channels_take_a_quarter(area: Rect)
    requires
        area.wf(),
    ensures
        4 * left_area(area).width <= area.width < 4 * (left_area(area).width + 1),
{
}

/// The help takes 70 percent of the screen and leaves 15 on the left, rounded down to whole cells.
pub proof fn law_help_takes_seventy_percent(area: Rect)
    requires
        area.wf(),
    ensures
        ({
            let help = help_area(area);
            let left = help.x - area.x;
            &&& 100 * help.width <= 70 * area.width < 100 * (help.width + 1)
            &&& 100 * left <= 15 * area.width < 100 * (left + 1)
        }),
{
}

/// A box has room for all its lines and its borders, or takes all there is; it lies at the top or
/// at the bottom of its column, over its whole width.
pub proof fn law_box_has_room_for_its_lines(data: BoxData, area: Rect, at_top: bool)
    requires
        area.wf(),
    ensures
        ({
            let width = if area.width >= 2 {
                (area.width - 2) as nat
            } else {
                0
            };
            let lines = newlines(input_text(data.data@, data.cursor@, width)) + 1;
            let part = box_area(data, area, at_top);
            &&& part.x == area.x
            &&& part.width == area.width
            &&& lines <= 65_533 ==> part.height == min(lines as int + 2, area.height as int)
            &&& at_top ==> part.y == area.y
            &&& !at_top ==> part.y + part.height == area.y + area.height
        }),
{
}

/// A box shows its text, wrapped to its inner width, and the cursor where it stands in that text,
/// one cell inside of the borders; but only if the box has the focus.
pub proof fn law_box_shows_text_and_cursor(panel: InputPanel, data: BoxData, focused: bool)
    requires
        shows(panel, data, focused),
    ensures
        ({
            let width = if panel.area.width >= 2 {
                (panel.area.width - 2) as nat
            } else {
                0
            };
            let caret = input_caret(data.data@, data.cursor@, width);
            &&& panel.text@ == input_text(data.data@, data.cursor@, width)
            &&& panel.cursor is Some <==> focused
            &&& panel.cursor matches Some(c) ==> {
                &&& 0 <= caret.col <= u16::MAX ==> c.0 == panel.area.x + 1 + caret.col
                &&& 0 <= caret.line <= u16::MAX ==> c.1 == panel.area.y + 1 + caret.line
            }
        }),
{
}

/// A box whose text can be laid out in its columns, and which does not have too many lines, can be
/// drawn, unless it has the focus and its cursor lies beyond the last cell.
pub proof fn law_ordinary_boxes_are_drawn(data: BoxData, area: Rect, focused: bool)
    requires
        box_error(data, area, focused) != Some(DrawError::NoColumns),
    ensures
        ({
            let width = if area.width >= 2 {
                (area.width - 2) as nat
            } else {
                0
            };
            let lines = newlines(input_text(data.data@, data.cursor@, width)) + 1;
            let caret = input_caret(data.data@, data.cursor@, width);
            let error = box_error(data, area, focused);
            &&& 65_533 < lines <= 65_535 ==> error == Some(DrawError::TooManyLines)
            &&& lines <= 65_533 && !focused ==> error is None
            &&& lines <= 65_533 && focused && 0 <= caret.col <= u16::MAX && 0 <= caret.line
                <= u16::MAX ==> {
                &&& error is None <==> area.x + 1 + caret.col <= u16::MAX && area.y + 1
                    + caret.line <= u16::MAX
                &&& error is Some ==> error == Some(DrawError::CursorOffScreen)
            }
        }),
{
}

/// Why boxes cannot be drawn: a text in no column at all, or more lines than can be counted.
pub proof fn law_boxes_fail_for_a_reason(data: BoxData, area: Rect, focused: bool)
    ensures
        box_error(data, area, focused) == Some(DrawError::NoColumns) <==> area.width <= 2
            && exists|i: int|
            0 <= i < data.data@.len() - 1 && #[trigger] data.data@[i] != '\n' && char_advance(
                data.data@[i],
            ) > 0,
        box_error(data, area, focused) == Some(DrawError::TooManyLines) ==> newlines(
            input_text(data.data@, data.cursor@, inside(area.width)),
        ) >= 65_533,
        box_error(data, area, focused) == Some(DrawError::CursorOffScreen) ==> focused,
        box_error(data, area, focused) != Some(DrawError::OffCalendar),
        box_error(data, area, focused) != Some(DrawError::SelectionOffScreen),
{
    if area.width <= 2 {
        law_text_without_columns(data.data@);
    }
}

/// The width that keys are filled up to is that of the widest key: no key is wider, and one is as
/// wide.
pub proof fn law_widest_key(shortcuts: Seq<ShortCut>)
    ensures
        forall|i: int|
            0 <= i < shortcuts.len() ==> columns((#[trigger] shortcuts[i]).event@)
                <= widest_event(shortcuts),
        shortcuts.len() == 0 ==> widest_event(shortcuts) == 0,
        shortcuts.len() > 0 ==> exists|i: int|
            0 <= i < shortcuts.len() && columns((#[trigger] shortcuts[i]).event@) == widest_event(
                shortcuts,
            ),
    decreases shortcuts.len(),
{
    if shortcuts.len() > 0 {
        let before = shortcuts.drop_last();
        let n = shortcuts.len() - 1;
        law_widest_key(before);
        assert forall|i: int| 0 <= i < shortcuts.len() implies columns(
            (#[trigger] shortcuts[i]).event@,
        ) <= widest_event(shortcuts) by {
            if i < n {
                assert(before[i] == shortcuts[i]);
            }
        }
        if widest_event(before) > columns(shortcuts[n].event@) {
            let i = choose|i: int|
                0 <= i < before.len() && columns((#[trigger] before[i]).event@) == widest_event(
                    before,
                );
            assert(shortcuts[i] == before[i]);
        } else {
            assert(columns(shortcuts[n].event@) == widest_event(shortcuts));
        }
    }
}

/// In front of the description of a shortcut stands its key, without white space at its end, and
/// behind it as many spaces as it is narrower than the widest, and one more.
pub proof fn law_keys_are_filled_up(shortcut: ShortCut, widest: nat)
    ensures
        ({
            let key = trimmed_end(shortcut.event@);
            let missing = widest - columns(shortcut.event@);
            let spans = shortcut_header(shortcut, widest);
            let filled = spans[0].content;
            &&& spans.len() == 2
            &&& key.is_prefix_of(filled)
            &&& missing >= 0 ==> filled.len() - key.len() == missing + 1
            &&& missing < 0 ==> filled.len() - key.len() == 1
            &&& forall|j: int| key.len() <= j < filled.len() ==> #[trigger] filled[j] == ' '
            &&& spans[1].content == seq![':', ' ']
            &&& spans[0].style.fg is None
            &&& spans[1].style.fg is None
        }),
{
    let key = trimmed_end(shortcut.event@);
    reveal_strlit(": ");
    assert(": "@ =~= seq![':', ' ']);
    let spaces = repeated(' ', (max(widest - columns(shortcut.event@), 0) + 1) as nat);
    assert(is_white(spaces[0]));
    law_one_line_is_indented(spaces, shortcut.event@);
    let filled = shortcut_header(shortcut, widest)[0].content;
    assert(filled == key + spaces);
    assert(key =~= filled.take(key.len() as int));
}

/// All descriptions start in the same column, and their further lines are indented up to it, where
/// the space and the colon take one column each and keys do not end with white space.
pub proof fn law_descriptions_are_aligned(app: App, panel: HelpPanel, i: int)
    requires
        shows_help(panel, app),
        0 <= i < app.shortcuts@.len(),
        app.shortcuts@[i].event@.len() > 0 ==> !is_white(app.shortcuts@[i].event@.last()),
        is_narrow(' '),
        is_narrow(':'),
    ensures
        line_width(shortcut_header(app.shortcuts@[i], widest_event(app.shortcuts@)))
            == widest_event(app.shortcuts@) + 3,
        forall|j: int|
            1 <= j < panel.items@[i]@.len() ==> repeated(
                ' ',
                widest_event(app.shortcuts@) + 3,
            ).is_prefix_of((#[trigger] panel.items@[i]@[j])[0].content),
{
    let widest = widest_event(app.shortcuts@);
    let key = app.shortcuts@[i].event@;
    let spans = shortcut_header(app.shortcuts@[i], widest);
    law_widest_key(app.shortcuts@);
    law_keys_are_filled_up(app.shortcuts@[i], widest);
    law_trimmed_end(key);
    assert(trimmed_end(key) =~= key);
    law_help_lists_every_shortcut(app, panel, i);
    let filled = spans[0].content;
    let spaces = filled.skip(key.len() as int);
    assert(filled =~= key + spaces);
    lemma_columns_concat(key, spaces);
    assert(forall|j: int|
        0 <= j < spaces.len() ==> #[trigger] spaces[j] == filled[key.len() + j]);
    lemma_narrow(spaces);
    lemma_narrow(seq![':', ' ']);
    reveal_with_fuel(line_width, 3);
    assert(spans.drop_last().drop_last() =~= Seq::empty());
    assert(is_indented(panel.items@[i]@, repeated(' ', widest + 3)));
}

/// The help lists every shortcut once and in order: its key in front of the first line of its
/// description, and then the other lines of it, all plain.
pub proof fn law_help_lists_every_shortcut(app: App, panel: HelpPanel, i: int)
    requires
        shows_help(panel, app),
        0 <= i < app.shortcuts@.len(),
    ensures
        ({
            let shortcut = app.shortcuts@[i];
            let widest = widest_event(app.shortcuts@);
            let width = if panel.area.width >= 2 {
                (panel.area.width - 2) as usize
            } else {
                0
            };
            let lines = wrapped_lines(shortcut.description@, width, repeated(' ', widest + 3));
            let item = panel.items@[i]@;
            &&& panel.items@.len() == app.shortcuts@.len()
            &&& panel.selected == app.channels.state.selected
            &&& lines.len() > 0
            &&& item.len() == lines.len()
            &&& item[0].drop_last() == shortcut_header(shortcut, widest)
            &&& item[0].last().content == lines[0].skip(widest as int + 3)
            &&& item[0].last().style.fg is None
            &&& forall|j: int|
                1 <= j < item.len() ==> (#[trigger] item[j]).len() == 1 && item[j][0].content
                    == lines[j] && item[j][0].style.fg is None
        }),
{
    let shortcut = app.shortcuts@[i];
    let widest = widest_event(app.shortcuts@);
    let item = panel.items@[i]@;
    assert(entries(panel.items@).len() == panel.items@.len());
    assert(entries(panel.items@)[i] == item);
    assert(item == shortcut_entry(shortcut, widest, inside(panel.area.width) as usize));
    assert(is_indented(panel.items@[i]@, repeated(' ', widest + 3)));
    assert(item[0].drop_last() =~= shortcut_header(shortcut, widest));
}

/// The help is shown exactly where the user asked for it, and leaves everything else alone.
pub proof fn law_help_is_shown_on_request(
    a: App,
    b: App,
    area: Rect,
    r: Result<Screen, DrawError>,
)
    requires
        draws_screen(a, b, area, r),
    ensures
        a.display_help ==> b == a && (r matches Ok(Screen::Help(panel)) && panel.area == help_area(
            area,
        ) && shows_help(panel, a)),
        !a.display_help ==> !(r matches Ok(Screen::Help(_))),
{
}

/// The main screen shows the search box above the channels, one row for each that the search
/// leaves, and the messages above the box to answer them. The cursor is in one of the two boxes.
pub proof fn law_main_screen_shows_channels_and_chat(a: App, b: App, area: Rect, m: MainScreen)
    requires
        draws_screen(a, b, area, Ok(Screen::Main(m))),
    ensures
        !a.display_help,
        box_error(a.search_box, m.search.area, a.is_searching) is None,
        box_error(a.input, m.input.area, !a.is_searching) is None,
        m.search.title@ == "Search"@,
        m.search.area == box_area(a.search_box, left_area(area), true),
        shows(m.search, a.search_box, a.is_searching),
        m.channels.area == rest_area(a.search_box, left_area(area), true),
        m.channels.labels@.len() == a.channels.filtered_items@.len(),
        forall|i: int|
            0 <= i < m.channels.labels@.len() ==> (#[trigger] m.channels.labels@[i])@
                == channel_label(
                a.channels.items@[a.channels.filtered_items@[i] as int],
                inside(left_area(area).width),
            ),
        m.channels.selected == a.channels.state.selected,
        m.input.title@ == (if a.is_multiline_input {
            "Input (Multiline)"@
        } else {
            "Input"@
        }),
        m.input.area == box_area(a.input, right_area(area), false),
        shows(m.input, a.input, !a.is_searching),
        m.search.cursor is Some <==> m.input.cursor is None,
        draws_messages(
            (App { channel_text_width: inside(left_area(area).width) as usize, ..a }),
            b,
            rest_area(a.input, right_area(area), false),
            Ok(m.messages),
        ),
        area.wf() && left_area(area).width >= 2 ==> inside(left_area(area).width)
            == left_area(area).width - 2,
{
    let labels = channel_labels(a.channels, inside(left_area(area).width));
    assert(texts(m.channels.labels@).len() == m.channels.labels@.len());
    assert(texts(m.channels.labels@) == labels);
    assert forall|i: int| 0 <= i < m.channels.labels@.len() implies (
    #[trigger] m.channels.labels@[i])@ == channel_label(
        a.channels.items@[a.channels.filtered_items@[i] as int],
        inside(left_area(area).width),
    ) by {
        assert(texts(m.channels.labels@)[i] == m.channels.labels@[i]@);
        assert(texts(m.channels.labels@)[i] == labels[i]);
    }
}

/// Where the screen cannot be drawn, one of its parts cannot: the search box, the box to answer
/// messages, or the messages.
pub proof fn law_screen_fails_only_with_a_part(a: App, b: App, area: Rect, e: DrawError)
    requires
        draws_screen(a, b, area, Err(e)),
    ensures
        ({
            let search = box_error(
                a.search_box,
                box_area(a.search_box, left_area(area), true),
                a.is_searching,
            );
            let input = box_error(
                a.input,
                box_area(a.input, right_area(area), false),
                !a.is_searching,
            );
            &&& !a.display_help
            &&& search matches Some(x) ==> e == x && b == a
            &&& search is None ==> (input matches Some(x) ==> e == x && b == (App {
                channel_text_width: inside(left_area(area).width) as usize,
                ..a
            }))
            &&& search is None && input is None ==> draws_messages(
                (App { channel_text_width: inside(left_area(area).width) as usize, ..a }),
                b,
                rest_area(a.input, right_area(area), false),
                Err(e),
            )
        }),
{
}

/// The screen can be drawn wherever its edges and all that is measured on the way can be counted,
/// and the displayed channels exist.
pub proof fn law_ordinary_screens_can_be_drawn(app: App, area: Rect)
    requires
        area.x + area.width <= u16::MAX,
        area.y + area.height <= u16::MAX,
        app.display_help ==> 70 * area.width <= u16::MAX,
        app.display_help ==> forall|i: int|
            0 <= i < app.shortcuts@.len() ==> 2 * (#[trigger] app.shortcuts@[i]).event@.len() + 3
                <= usize::MAX,
        !app.display_help ==> {
            let channels = app.channels;
            &&& forall|i: int|
                0 <= i < channels.filtered_items@.len() ==> (
                #[trigger] channels.filtered_items@[i]) < channels.items@.len()
            &&& app.search_box.cursor.line + app.search_box.data@.len() + 2 <= usize::MAX
            &&& app.search_box.cursor.idx + app.search_box.data@.len() + 1 <= usize::MAX
            &&& app.input.cursor.line + app.input.data@.len() + 2 <= usize::MAX
            &&& app.input.cursor.idx + app.input.data@.len() + 1 <= usize::MAX
            &&& channels.state.selected matches Some(i) ==> {
                &&& i < channels.filtered_items@.len()
                &&& i < channels.items@.len()
                &&& channels.items@[channels.filtered_items@[i as int] as int].names.max_name_width
                    + 10 <= usize::MAX
            }
        },
    ensures
        screen_drawable(app, area),
{
}

} // verus!
