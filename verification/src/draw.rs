//! Drawing the screen.

use vstd::prelude::*;

use crate::bounds::{max, min};
use crate::channels::{channel_labels, draw_channels, inside, without_borders, ChannelsPanel};
use crate::chat::{can_draw_chat, chat_drawable, draw_chat, draws_chat, MessagesPanel};
use crate::columns::{char_width, columns, str_width};
use crate::data::{App, BoxData, ChannelList, ShortCut};
use crate::input::{column, input_caret, input_text, newlines, wrap, wrappable, Caret, Cursor};
use crate::layout::{part, split, Constraint, Direction};
use crate::message::{is_indented, push_lines, styled_lines};
use crate::text::{
    indent, indented, repeat_char, repeated, start_with, texts, wrap_lines, wrapped_lines,
};
use crate::widgets::{
    entries, plain, raw, ListItem, Rect, Span, SpanView, Spans, Style,
};

verus! {

/// The channels take one part of the screen in this many, the messages the others.
pub const CHANNEL_VIEW_RATIO: u32 = 4;

/// Why the screen cannot be drawn.
#[derive(Clone, Copy, Debug, PartialEq, Eq, Structural)]
pub enum DrawError {
    /// A text does not fit into a box without columns.
    NoColumns,
    /// The lines of a box cannot be counted.
    TooManyLines,
    /// The cursor is beyond the last cell that can be addressed.
    CursorOffScreen,
    /// The selected message lies below the lower edge.
    SelectionOffScreen,
    /// The calendar does not cover the time of a message.
    OffCalendar,
}

/// A text that is being edited, on the screen.
#[derive(Debug, PartialEq, Eq)]
pub struct InputPanel {
    pub area: Rect,
    pub title: String,
    /// The text, wrapped at the width of the box.
    pub text: String,
    /// The cell of the cursor, if it is in this box.
    pub cursor: Option<(u16, u16)>,
}

/// Whether the text of a box can be laid out in lines of `width` columns.
pub fn can_wrap(text: &str, width: usize) -> (b: bool)
    ensures
        b == wrappable(text@, width as nat),
{
    if width > 0 {
        return true;
    }
    let mut col: usize = 0;
    for c in chars: text.chars()
        invariant
            chars.seq() == text@,
            width == 0,
            col == column(text@.take(chars.index() as int), 0),
            col <= 2,
            forall|i: int|
                0 <= i < chars.index() ==> #[trigger] column(text@.take(i), 0) == 0,
    {
        let ghost i = chars.index() as int;
        if col > 0 {
            assert(column(text@.take(i), 0) != 0);
            return false;
        }
        assert(text@.take(i + 1).drop_last() =~= text@.take(i));
        if c != '\n' {
            col = match char_width(c) {
                Some(n) => n,
                None => 0,
            };
        }
    }
    true
}

/// The number of lines of a box of text, with its borders.
pub open spec fn box_height(lines: nat) -> int {
    (lines as u16) + 2
}

/// Lays out the text of a box in lines of `width` columns; returns the text, the cursor in it and
/// the height of the box.
pub fn lay_out(data: &BoxData, width: usize) -> (r: Result<(String, Cursor, u16), DrawError>)
    requires
        data.wf(),
    ensures
        r is Ok <==> wrappable(data.data@, width as nat) && text_height(*data, width as nat)
            <= u16::MAX,
        r matches Ok(t) ==> {
            &&& t.0@ == input_text(data.data@, data.cursor@, width as nat)
            &&& t.1@ == input_caret(data.data@, data.cursor@, width as nat)
            &&& t.2 == box_height(newlines(t.0@) + 1)
        },
        r matches Err(e) ==> e == (if wrappable(data.data@, width as nat) {
            DrawError::TooManyLines
        } else {
            DrawError::NoColumns
        }),
{
    if !can_wrap(data.data.as_str(), width) {
        return Err(DrawError::NoColumns);
    }
    let (text, cursor, num_lines) = wrap(data.data.as_str(), data.cursor, width);
    let lines: u16 = #[verifier::truncate] (num_lines as u16);
    if lines > u16::MAX - 2 {
        return Err(DrawError::TooManyLines);
    }
    Ok((text, cursor, lines + 2))
}

/// The column of the screen, or the row, of a cursor in a box that starts at `start`.
pub open spec fn cell(start: u16, pos: int) -> int {
    start + (pos as u16) + 1
}

/// Whether the cell of a cursor can be addressed.
pub open spec fn addressable(area: Rect, caret: Caret) -> bool {
    cell(area.x, caret.col) <= u16::MAX && cell(area.y, caret.line) <= u16::MAX
}

/// The cell of a cursor in a box, if it can be addressed.
pub fn cursor_cell(area: Rect, cursor: Cursor) -> (r: Option<(u16, u16)>)
    ensures
        r is Some <==> addressable(area, cursor@),
        r matches Some(c) ==> c.0 == cell(area.x, cursor@.col) && c.1 == cell(
            area.y,
            cursor@.line,
        ),
{
    let col: u16 = #[verifier::truncate] (cursor.col as u16);
    let line: u16 = #[verifier::truncate] (cursor.line as u16);
    // +1 for frame
    if col < u16::MAX - area.x && line < u16::MAX - area.y {
        Some((area.x + col + 1, area.y + line + 1))
    } else {
        None
    }
}

/// What a box of text shows in an area.
pub open spec fn shows(panel: InputPanel, data: BoxData, focused: bool) -> bool {
    let width = inside(panel.area.width);
    let caret = input_caret(data.data@, data.cursor@, width);
    &&& panel.text@ == input_text(data.data@, data.cursor@, width)
    &&& panel.cursor is Some <==> focused
    &&& panel.cursor matches Some(c) ==> c.0 == cell(panel.area.x, caret.col) && c.1 == cell(
        panel.area.y,
        caret.line,
    )
}

/// The height of the box of a text, with its borders.
pub open spec fn text_height(data: BoxData, width: nat) -> int {
    box_height(newlines(input_text(data.data@, data.cursor@, width)) + 1)
}

/// Why a text cannot be drawn in a box, if it cannot.
pub open spec fn box_error(data: BoxData, area: Rect, focused: bool) -> Option<DrawError> {
    let width = inside(area.width);
    let caret = input_caret(data.data@, data.cursor@, width);
    if !wrappable(data.data@, width) {
        Some(DrawError::NoColumns)
    } else if text_height(data, width) > u16::MAX {
        Some(DrawError::TooManyLines)
    } else if focused && !addressable(area, caret) {
        Some(DrawError::CursorOffScreen)
    } else {
        None
    }
}

/// The part of an area that the box of a text takes, at the top or at the bottom.
pub open spec fn box_area(data: BoxData, area: Rect, at_top: bool) -> Rect {
    let height = min(text_height(data, inside(area.width)), area.height as int);
    part(
        Direction::Vertical,
        area,
        if at_top {
            0
        } else {
            area.height - height
        },
        height,
    )
}

/// The part of an area that the box of a text leaves.
pub open spec fn rest_area(data: BoxData, area: Rect, at_top: bool) -> Rect {
    let height = min(text_height(data, inside(area.width)), area.height as int);
    part(
        Direction::Vertical,
        area,
        if at_top {
            height
        } else {
            0
        },
        area.height - height,
    )
}

/// Places the box of a text at the top or at the bottom of an area; returns it and the part of the
/// area that is left.
pub fn place_box(
    data: &BoxData,
    area: Rect,
    at_top: bool,
    focused: bool,
    title: String,
) -> (r: Result<(InputPanel, Rect), DrawError>)
    requires
        area.wf(),
        data.wf(),
    ensures
        match box_error(*data, box_area(*data, area, at_top), focused) {
            Some(e) => r matches Err(x) && x == e,
            None => {
                &&& r matches Ok((panel, rest))
                &&& panel.area == box_area(*data, area, at_top)
                &&& panel.title == title
                &&& shows(panel, *data, focused)
                &&& rest == rest_area(*data, area, at_top)
            },
        },
{
    let text_width: usize = without_borders(area.width);
    let (text, cursor, box_lines) = match lay_out(data, text_width) {
        Ok(t) => t,
        Err(e) => return Err(e),
    };
    let (box_part, rest): (Rect, Rect) = if at_top {
        let constraints = vec![Constraint::Length(box_lines), Constraint::Min(0)];
        let chunks = split(Direction::Vertical, &constraints, area);
        (chunks[0], chunks[1])
    } else {
        let constraints = vec![Constraint::Min(0), Constraint::Length(box_lines)];
        let chunks = split(Direction::Vertical, &constraints, area);
        (chunks[1], chunks[0])
    };
    let cell = cursor_cell(box_part, cursor);
    if focused && cell.is_none() {
        return Err(DrawError::CursorOffScreen);
    }
    let cursor = if focused {
        cell
    } else {
        None
    };
    Ok((InputPanel { area: box_part, title, text, cursor }, rest))
}

/// The part of a column that the search box takes.
pub open spec fn search_area(app: App, area: Rect) -> Rect {
    box_area(app.search_box, area, true)
}

/// The part of a column below the search box.
pub open spec fn channels_area(app: App, area: Rect) -> Rect {
    rest_area(app.search_box, area, true)
}

/// What the column of the channels shows in an area.
pub open spec fn shows_column(
    channels: ChannelsPanel,
    search: InputPanel,
    app: App,
    area: Rect,
) -> bool {
    &&& search.title@ == "Search"@
    &&& search.area == search_area(app, area)
    &&& shows(search, app.search_box, app.is_searching)
    &&& channels.area == channels_area(app, area)
    &&& texts(channels.labels@) == channel_labels(app.channels, inside(area.width))
    &&& channels.selected == app.channels.state.selected
}

/// The state after the channels were drawn.
pub open spec fn column_drawn(app: App, area: Rect) -> App {
    App { channel_text_width: inside(area.width) as usize, ..app }
}

/// Draws the search box and below it the channels that the search leaves.
pub fn draw_channels_column(app: &mut App, area: Rect) -> (r: Result<
    (ChannelsPanel, InputPanel),
    DrawError,
>)
    requires
        area.wf(),
        old(app).channels.wf(),
        old(app).search_box.wf(),
    ensures
        match box_error(
            old(app).search_box,
            search_area(*old(app), area),
            old(app).is_searching,
        ) {
            Some(e) => r matches Err(x) && x == e && *final(app) == *old(app),
            None => r matches Ok((channels, search)) && shows_column(
                channels,
                search,
                *old(app),
                area,
            ) && *final(app) == column_drawn(*old(app), area),
        },
{
    let title: String = "Search".to_owned();
    let (search, rest) = match place_box(&app.search_box, area, true, app.is_searching, title) {
        Ok(t) => t,
        Err(e) => return Err(e),
    };
    let channels = draw_channels(app, rest);
    Ok((channels, search))
}

/// The list of shortcuts on the screen.
#[derive(Debug, PartialEq, Eq)]
pub struct HelpPanel {
    pub area: Rect,
    pub items: Vec<ListItem>,
    /// The selected row.
    pub selected: Option<usize>,
}

/// The width of the widest key of the shortcuts.
pub open spec fn widest_event(shortcuts: Seq<ShortCut>) -> nat
    decreases shortcuts.len(),
{
    if shortcuts.len() == 0 {
        0
    } else {
        max(
            widest_event(shortcuts.drop_last()) as int,
            columns(shortcuts.last().event@) as int,
        ) as nat
    }
}

/// What stands in front of the description of a shortcut: its key, filled up with spaces.
pub open spec fn shortcut_header(shortcut: ShortCut, widest: nat) -> Seq<SpanView> {
    let spaces = repeated(' ', (max(widest - columns(shortcut.event@), 0) + 1) as nat);
    seq![raw(indented(spaces, shortcut.event@)), raw(": "@)]
}

/// How a shortcut appears in a list of `width` columns.
pub open spec fn shortcut_entry(shortcut: ShortCut, widest: nat, width: usize) -> Seq<
    Seq<SpanView>,
> {
    let prefix = repeated(' ', widest + 3);
    styled_lines(
        wrapped_lines(shortcut.description@, width, prefix),
        Some(shortcut_header(shortcut, widest)),
        prefix.len(),
        plain(),
    )
}

/// Whether the keys of the shortcuts leave room for what stands beside them.
pub open spec fn short_events(shortcuts: Seq<ShortCut>) -> bool {
    forall|i: int|
        0 <= i < shortcuts.len() ==> 2 * (#[trigger] shortcuts[i]).event@.len() + 3 <= usize::MAX
}

/// Puts a shortcut together: its key, filled up with spaces to the widest, and the lines of its
/// description, which start with `prefix`.
pub fn shortcut_item(
    shortcut: &ShortCut,
    widest: usize,
    lines: &Vec<String>,
    prefix: &str,
) -> (item: ListItem)
    requires
        widest < usize::MAX,
        lines@.len() > 0,
        prefix@.is_prefix_of(lines@[0]@),
    ensures
        item@ == styled_lines(
            texts(lines@),
            Some(shortcut_header(*shortcut, widest as nat)),
            prefix@.len(),
            plain(),
        ),
        start_with(texts(lines@), prefix@) ==> is_indented(item@, prefix@),
{
    let event: &str = shortcut.event.as_str();
    let event_width: usize = str_width(event);
    let padding: usize = if widest > event_width {
        widest - event_width
    } else {
        0
    };
    let spaces: String = repeat_char(' ', padding + 1);
    let mut spans: Vec<Span> = Vec::new();
    spans.push(Span::raw(indent(spaces.as_str(), event)));
    spans.push(Span::raw(": ".to_owned()));
    let head = Spans(spans);
    assert(head@ =~= shortcut_header(*shortcut, widest as nat));
    let mut item_lines: Vec<Spans> = Vec::new();
    push_lines(&mut item_lines, lines, Some(head), prefix, Style::default());
    let item = ListItem { lines: item_lines };
    assert(item@ =~= styled_lines(
        texts(lines@),
        Some(shortcut_header(*shortcut, widest as nat)),
        prefix@.len(),
        plain(),
    ));
    proof {
        if start_with(texts(lines@), prefix@) {
            assert forall|j: int| 1 <= j < item@.len() implies (#[trigger] item@[j]).len() == 1
                && prefix@.is_prefix_of(item@[j][0].content) by {
                assert(prefix@.is_prefix_of(texts(lines@)[j]));
            }
        }
    }
    item
}

/// Whether the shortcuts were broken into lines, and all but the first of each are indented.
pub open spec fn are_broken(panel: HelpPanel, app: App) -> bool {
    let prefix = repeated(' ', widest_event(app.shortcuts@) + 3);
    forall|i: int|
        0 <= i < panel.items@.len() ==> is_indented((#[trigger] panel.items@[i])@, prefix)
            && start_with(
            wrapped_lines(
                app.shortcuts@[i].description@,
                inside(panel.area.width) as usize,
                prefix,
            ),
            prefix,
        )
}

/// Draws the shortcuts.
pub fn draw_help(app: &App, area: Rect) -> (panel: HelpPanel)
    requires
        short_events(app.shortcuts@),
    ensures
        panel.area == area,
        panel.selected == app.channels.state.selected,
        entries(panel.items@) == app.shortcuts@.map_values(
            |s: ShortCut|
                shortcut_entry(s, widest_event(app.shortcuts@), inside(area.width) as usize),
        ),
        are_broken(panel, *app),
{
    let shortcuts = &app.shortcuts;
    let mut max_event_width: usize = 0;
    for i in 0..shortcuts.len()
        invariant
            shortcuts == app.shortcuts,
            short_events(shortcuts@),
            max_event_width == widest_event(shortcuts@.take(i as int)),
            max_event_width + 3 <= usize::MAX,
    {
        assert(shortcuts@.take(i + 1).drop_last() =~= shortcuts@.take(i as int));
        let event_width: usize = str_width(shortcuts[i].event.as_str());
        if event_width > max_event_width {
            max_event_width = event_width;
        }
    }
    assert(shortcuts@.take(shortcuts@.len() as int) =~= shortcuts@);

    let width: usize = without_borders(area.width);
    // +2 for the delimiter, +1 for the space between the event and the delimiter
    let prefix: String = repeat_char(' ', max_event_width + 3);
    let ghost widest = max_event_width as nat;
    let mut items: Vec<ListItem> = Vec::new();
    for i in 0..shortcuts.len()
        invariant
            shortcuts == app.shortcuts,
            short_events(shortcuts@),
            widest == max_event_width,
            max_event_width + 3 <= usize::MAX,
            prefix@ == repeated(' ', widest + 3),
            items@.len() == i,
            forall|j: int|
                0 <= j < i ==> (#[trigger] items@[j])@ == shortcut_entry(
                    shortcuts@[j],
                    widest,
                    width,
                ) && is_indented(items@[j]@, prefix@) && start_with(
                    wrapped_lines(shortcuts@[j].description@, width, prefix@),
                    prefix@,
                ),
    {
        let wrapped = wrap_lines(shortcuts[i].description.as_str(), width, prefix.as_str());
        assert(texts(wrapped@)[0] == wrapped@[0]@);
        items.push(shortcut_item(&shortcuts[i], max_event_width, &wrapped, prefix.as_str()));
    }
    assert(entries(items@) =~= app.shortcuts@.map_values(
        |s: ShortCut| shortcut_entry(s, widest, inside(area.width) as usize),
    ));
    HelpPanel { area, items, selected: app.channels.state.selected }
}

/// The channels and the chat on the screen.
#[derive(Debug, PartialEq, Eq)]
pub struct MainScreen {
    pub search: InputPanel,
    pub channels: ChannelsPanel,
    /// The messages of the selected channel, if there are any and there is room for them.
    pub messages: Option<MessagesPanel>,
    pub input: InputPanel,
}

/// What is on the screen.
#[derive(Debug, PartialEq, Eq)]
pub enum Screen {
    Help(HelpPanel),
    Main(MainScreen),
}

/// The left part of the screen, for the channels.
pub open spec fn left_area(area: Rect) -> Rect {
    part(Direction::Horizontal, area, 0, area.width as int / CHANNEL_VIEW_RATIO as int)
}

/// The right part of the screen, for the chat.
pub open spec fn right_area(area: Rect) -> Rect {
    let width = area.width as int / CHANNEL_VIEW_RATIO as int;
    part(Direction::Horizontal, area, width, area.width - width)
}

/// The middle of the screen, for the help.
pub open spec fn help_area(area: Rect) -> Rect {
    part(Direction::Horizontal, area, area.width * 15 / 100, area.width * 70 / 100)
}

/// What the help shows in a part of the screen.
pub open spec fn shows_help(panel: HelpPanel, app: App) -> bool {
    &&& panel.selected == app.channels.state.selected
    &&& entries(panel.items@) == app.shortcuts@.map_values(
        |s: ShortCut|
            shortcut_entry(s, widest_event(app.shortcuts@), inside(panel.area.width) as usize),
    )
    &&& are_broken(panel, app)
}

/// The parts of the screen for the channels and for the chat.
pub fn screen_columns(area: Rect) -> (r: (Rect, Rect))
    requires
        area.wf(),
    ensures
        r.0 == left_area(area),
        r.1 == right_area(area),
{
    let constraints = vec![
        Constraint::Ratio(1, CHANNEL_VIEW_RATIO),
        Constraint::Ratio(3, CHANNEL_VIEW_RATIO),
    ];
    let chunks = split(Direction::Horizontal, &constraints, area);
    proof {
        let n = area.width as int;
        let a: u32 = 1;
        let d = CHANNEL_VIEW_RATIO as int;
        assert(n * a / d == n / d) by (nonlinear_arith)
            requires
                a == 1,
        ;
        assert(constraints@[0] == Constraint::Ratio(a, CHANNEL_VIEW_RATIO));
    }
    (chunks[0], chunks[1])
}

/// Why the search box cannot be drawn on a screen, if it cannot.
pub open spec fn search_error(app: App, area: Rect) -> Option<DrawError> {
    box_error(app.search_box, search_area(app, left_area(area)), app.is_searching)
}

/// Whether an attempt can be made to draw the screen: its edges can be counted, and so can all that
/// is measured on the way; the channels that are to be displayed exist.
pub open spec fn screen_drawable(app: App, area: Rect) -> bool {
    &&& area.wf()
    &&& if app.display_help {
        70 * area.width <= u16::MAX && short_events(app.shortcuts@)
    } else {
        &&& app.channels.wf()
        &&& app.search_box.wf()
        &&& app.input.wf()
        &&& search_error(app, area) is None ==> chat_drawable(app, right_area(area))
    }
}

/// Whether an attempt can be made to draw the screen.
pub fn can_draw(app: &App, area: Rect) -> (b: bool)
    ensures
        b == screen_drawable(*app, area),
{
    if area.width > u16::MAX - area.x || area.height > u16::MAX - area.y {
        return false;
    }
    if app.is_help() {
        return area.width <= u16::MAX / 70 && can_measure(&app.shortcuts);
    }
    if !channels_exist(&app.channels) || !can_move(&app.search_box) || !can_move(&app.input) {
        return false;
    }
    let (left, right) = screen_columns(area);
    match place_box(&app.search_box, left, true, app.is_searching, String::new()) {
        Ok(_) => can_draw_chat(app, right),
        Err(_) => true,
    }
}

/// Whether the keys of the shortcuts leave room for what stands beside them.
fn can_measure(shortcuts: &Vec<ShortCut>) -> (b: bool)
    ensures
        b == short_events(shortcuts@),
{
    for i in 0..shortcuts.len()
        invariant
            forall|j: int|
                0 <= j < i ==> 2 * (#[trigger] shortcuts@[j]).event@.len() + 3 <= usize::MAX,
    {
        if shortcuts[i].event.as_str().unicode_len() > (usize::MAX - 3) / 2 {
            assert(2 * shortcuts@[i as int].event@.len() + 3 > usize::MAX);
            return false;
        }
    }
    true
}

/// Whether the displayed channels exist.
fn channels_exist(channels: &ChannelList) -> (b: bool)
    ensures
        b == channels.wf(),
{
    for i in 0..channels.filtered_items.len()
        invariant
            forall|j: int|
                0 <= j < i ==> (#[trigger] channels.filtered_items@[j]) < channels.items@.len(),
    {
        if channels.filtered_items[i] >= channels.items.len() {
            return false;
        }
    }
    true
}

/// Whether the cursor can move by as many lines and bytes as the text has characters.
fn can_move(data: &BoxData) -> (b: bool)
    ensures
        b == data.wf(),
{
    let len: usize = data.data.as_str().unicode_len();
    let room: usize = usize::MAX - len;
    room >= 2 && data.cursor.line <= room - 2 && data.cursor.idx <= room - 1
}

/// Draws the screen, if an attempt can be made.
pub fn try_draw(app: &mut App, area: Rect) -> (r: Option<Result<Screen, DrawError>>)
    ensures
        r is Some <==> screen_drawable(*old(app), area),
        r matches Some(screen) ==> draws_screen(*old(app), *final(app), area, screen),
        r is None ==> *final(app) == *old(app),
{
    if can_draw(app, area) {
        Some(draw(app, area))
    } else {
        None
    }
}

/// What drawing the screen makes of a state.
pub open spec fn draws_screen(a: App, b: App, area: Rect, r: Result<Screen, DrawError>) -> bool {
    if a.display_help {
        &&& b == a
        &&& r matches Ok(Screen::Help(panel))
        &&& panel.area == help_area(area)
        &&& shows_help(panel, a)
    } else if search_error(a, area) is Some {
        r matches Err(e) && Some(e) == search_error(a, area) && b == a
    } else {
        let drawn = column_drawn(a, left_area(area));
        match r {
            Ok(Screen::Main(m)) => {
                &&& shows_column(m.channels, m.search, a, left_area(area))
                &&& draws_chat(drawn, b, right_area(area), Ok((m.messages, m.input)))
            },
            Ok(Screen::Help(_)) => false,
            Err(e) => draws_chat(drawn, b, right_area(area), Err(e)),
        }
    }
}

/// Draws the screen: the help, or the channels and the chat.
///
/// Where the screen cannot be drawn, says why.
pub fn draw(app: &mut App, area: Rect) -> (r: Result<Screen, DrawError>)
    requires
        screen_drawable(*old(app), area),
    ensures
        draws_screen(*old(app), *final(app), area, r),
        !old(app).display_help ==> final(app).channels.wf(),
{
    if app.is_help() {
        // Display shortcut panel
        let constraints = vec![
            Constraint::Percentage(15),
            Constraint::Percentage(70),
            Constraint::Percentage(15),
        ];
        let chunks = split(Direction::Horizontal, &constraints, area);
        let panel = draw_help(app, chunks[1]);
        return Ok(Screen::Help(panel));
    }
    let (left, right) = screen_columns(area);
    let (channels, search) = match draw_channels_column(app, left) {
        Ok(panels) => panels,
        Err(e) => return Err(e),
    };
    let (messages, input) = match draw_chat(app, right) {
        Ok(panels) => panels,
        Err(e) => return Err(e),
    };
    Ok(Screen::Main(MainScreen { search, channels, messages, input }))
}

} // verus!
