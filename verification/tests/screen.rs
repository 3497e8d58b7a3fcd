use gurk::data::{App, BoxData, ChannelList, Config, ListState, ShortCut};
use gurk::draw::{
    can_draw, draw, draw_channels_column, draw_help, screen_columns, shortcut_item, try_draw,
    DrawError, MainScreen, Screen,
};
use gurk::input::Cursor;
use gurk::widgets::{ListItem, Rect};

fn text_box(text: &str) -> BoxData {
    BoxData { data: text.to_string(), cursor: Cursor::default() }
}

fn empty_app() -> App {
    App {
        config: Config { show_receipts: true },
        user_id: 0,
        channels: ChannelList {
            items: vec![],
            filtered_items: vec![],
            state: ListState::default(),
        },
        search_box: text_box(""),
        input: text_box(""),
        is_searching: false,
        is_multiline_input: false,
        display_help: false,
        shortcuts: vec![],
        channel_text_width: 0,
        receipt_events: vec![],
    }
}

fn main_screen(app: &mut App, area: Rect) -> MainScreen {
    match draw(app, area) {
        Ok(Screen::Main(main)) => main,
        other => panic!("{area:?} {other:?}"),
    }
}

/// Draws screens of all widths and checks the areas of what is on them.
fn areas_are_exact(widths: std::ops::RangeInclusive<u16>, heights: &[u16], x: u16, y: u16) {
    for width in widths {
        for &height in heights {
            let mut app = empty_app();
            let area = Rect { x, y, width, height };
            let main = main_screen(&mut app, area);
            let left = width / 4;
            // a cursor beyond the edge of a box without columns takes a line of its own
            let search = height.min(if left <= 2 { 4 } else { 3 });
            let input = height.min(if width - left <= 2 { 4 } else { 3 });
            assert_eq!(main.search.area, Rect { x, y, width: left, height: search });
            assert_eq!(
                main.channels.area,
                Rect { x, y: y + search, width: left, height: height - search }
            );
            assert_eq!(
                main.input.area,
                Rect { x: x + left, y: y + height - input, width: width - left, height: input }
            );
            app.display_help = true;
            let help = match draw(&mut app, area) {
                Ok(Screen::Help(help)) => help,
                other => panic!("{area:?} {other:?}"),
            };
            let margin = (u32::from(width) * 15 / 100) as u16;
            let middle = (u32::from(width) * 70 / 100) as u16;
            assert_eq!(help.area, Rect { x: x + margin, y, width: middle, height });
            let right = width - margin - middle;
            assert!(margin <= right && right <= margin + 2);
        }
    }
}

#[test]
fn low_screens_are_split() {
    areas_are_exact(0..=936, &[0, 3], 0, 0)
}

#[test]
fn screens_away_from_the_origin_are_split() {
    areas_are_exact(0..=936, &[1, 4], 7, 3)
}

#[test]
fn screens_at_the_far_right_are_split() {
    areas_are_exact(0..=936, &[2, 77], 64_000, 12)
}

#[test]
fn screens_far_down_are_split() {
    areas_are_exact(0..=936, &[5, 30_000], 13, 30_000)
}

#[test]
fn high_screens_are_split() {
    areas_are_exact(0..=936, &[24, 936], 1, 1)
}

#[test]
fn broad_screens_are_split() {
    for width in (937..=60_000).step_by(97) {
        let area = Rect { x: 1, y: 1, width, height: 20 };
        let main = main_screen(&mut empty_app(), area);
        assert_eq!(main.search.area.width, width / 4);
        assert_eq!(main.input.area.x, 1 + width / 4);
        assert_eq!(main.input.area.width, width - width / 4);
    }
}

#[test]
fn boxes_take_their_height_or_all_there_is() {
    for lines in 1..40u16 {
        for height in 0..50u16 {
            let mut app = empty_app();
            app.search_box = text_box(&"\n".repeat(usize::from(lines) - 1));
            app.input = text_box(&"\n".repeat(usize::from(lines) - 1));
            let area = Rect { x: 3, y: 5, width: 80, height };
            let main = main_screen(&mut app, area);
            let taken = height.min(lines + 2);
            assert_eq!(main.search.area, Rect { x: 3, y: 5, width: 20, height: taken });
            assert_eq!(
                main.channels.area,
                Rect { x: 3, y: 5 + taken, width: 20, height: height - taken }
            );
            assert_eq!(
                main.input.area,
                Rect { x: 23, y: 5 + height - taken, width: 60, height: taken }
            );
        }
    }
}

#[test]
fn the_screen_shows_search_channels_and_input() {
    let mut app = empty_app();
    app.search_box = text_box("a long search text");
    app.search_box.cursor = Cursor { line: 0, col: 18, idx: 18 };
    app.is_searching = true;
    app.input = text_box("answer");
    let area = Rect { x: 0, y: 0, width: 40, height: 20 };
    let main = main_screen(&mut app, area);
    assert_eq!(main.search.title, "Search");
    assert_eq!(main.search.text, "a long s\nearch te\nxt");
    assert_eq!(main.search.cursor, Some((3, 3)));
    assert_eq!(main.search.area, Rect { x: 0, y: 0, width: 10, height: 5 });
    assert!(main.channels.labels.is_empty());
    assert_eq!(main.messages, None);
    assert_eq!(main.input.text, "answer");
    assert_eq!(main.input.cursor, None);
    assert_eq!(app.channel_text_width, 8);
}

#[test]
fn a_box_without_columns_has_no_room_for_text() {
    let mut app = empty_app();
    app.search_box = text_box("ab");
    let area = Rect { x: 0, y: 0, width: 8, height: 20 };
    assert_eq!(draw(&mut app, area), Err(DrawError::NoColumns));
    let column = Rect { width: 2, ..area };
    assert_eq!(draw_channels_column(&mut app, column), Err(DrawError::NoColumns));
    assert_eq!(app.channel_text_width, 0);
    // the input has the other three quarters
    app.search_box = text_box("");
    app.input = text_box("ab");
    assert!(draw(&mut app, area).is_ok());
    assert_eq!(draw(&mut app, Rect { width: 2, ..area }), Err(DrawError::NoColumns));
}

#[test]
fn a_box_has_at_most_as_many_lines_as_can_be_counted() {
    let area = Rect { x: 0, y: 0, width: 40, height: 20 };
    let mut app = empty_app();
    app.search_box = text_box(&"\n".repeat(65_533));
    assert_eq!(draw(&mut app, area), Err(DrawError::TooManyLines));
    app.search_box = text_box("");
    app.input = text_box(&"\n".repeat(65_533));
    assert_eq!(draw(&mut app, area), Err(DrawError::TooManyLines));
}

#[test]
fn a_cursor_beyond_the_last_cell_cannot_be_shown() {
    let area = Rect { x: 65_495, y: 0, width: 40, height: 20 };
    let mut app = empty_app();
    app.input.cursor = Cursor { line: 0, col: 100, idx: 0 };
    assert_eq!(draw(&mut app, area), Err(DrawError::CursorOffScreen));
    app.is_searching = true;
    assert!(draw(&mut app, area).is_ok());
    app.search_box.cursor = Cursor { line: 0, col: 100, idx: 0 };
    assert_eq!(draw(&mut app, area), Err(DrawError::CursorOffScreen));
    app.is_searching = false;
    app.input.cursor = Cursor::default();
    assert!(draw(&mut app, area).is_ok());
}

fn shortcut(event: &str, description: &str) -> ShortCut {
    ShortCut { event: event.to_string(), description: description.to_string() }
}

fn lines(item: &ListItem) -> Vec<Vec<&str>> {
    item.lines
        .iter()
        .map(|spans| spans.0.iter().map(|span| span.content.as_str()).collect())
        .collect()
}

#[test]
fn the_help_lists_the_shortcuts() {
    let mut app = empty_app();
    app.shortcuts = vec![
        shortcut("Esc", "Reset."),
        shortcut("Ctrl+日", "Move up and then down."),
    ];
    let area = Rect { x: 4, y: 2, width: 26, height: 9 };
    let panel = draw_help(&app, area);
    assert_eq!(panel.area, area);
    assert_eq!(panel.selected, None);
    assert_eq!(lines(&panel.items[0]), [vec!["Esc     ", ": ", "Reset."]]);
    assert_eq!(
        lines(&panel.items[1]),
        [vec!["Ctrl+日 ", ": ", "Move up and"], vec!["          then down."]]
    );
}

#[test]
fn shortcuts_are_put_together_of_given_lines() {
    let given = vec!["   one".to_string(), "   two".to_string()];
    let item = shortcut_item(&shortcut("Esc", ""), 5, &given, "   ");
    assert_eq!(lines(&item), [vec!["Esc   ", ": ", "one"], vec!["   two"]]);
}

#[test]
fn states_that_do_not_fit_together_are_not_drawn() {
    let area = Rect { x: 0, y: 0, width: 80, height: 24 };
    let mut app = empty_app();
    assert!(can_draw(&app, area));
    assert!(matches!(try_draw(&mut app, area), Some(Ok(Screen::Main(_)))));
    // edges that cannot be counted
    assert!(!can_draw(&app, Rect { x: 65_456, ..area }));
    assert!(can_draw(&app, Rect { x: 65_455, ..area }));
    assert_eq!(try_draw(&mut app, Rect { y: 65_512, ..area }), None);
    // a displayed channel that does not exist
    app.channels.filtered_items = vec![0];
    assert!(!can_draw(&app, area));
    app.channels.filtered_items = vec![];
    // a selected row that does not exist
    app.channels.state.selected = Some(0);
    assert!(!can_draw(&app, area));
    assert_eq!(try_draw(&mut app, area), None);
    // which is not looked at where there is no line for messages
    assert!(can_draw(&app, Rect { height: 5, ..area }));
    assert!(!can_draw(&app, Rect { height: 6, ..area }));
    assert!(matches!(try_draw(&mut app, Rect { height: 5, ..area }), Some(Ok(_))));
    app.channels.state.selected = None;
    // a cursor that cannot be moved
    app.input.cursor.line = usize::MAX - 1;
    assert!(!can_draw(&app, area));
    app.input.cursor.line = usize::MAX - 2;
    assert!(can_draw(&app, area));
    // a help that cannot be measured
    app.display_help = true;
    assert!(can_draw(&app, Rect { width: 936, ..area }));
    assert!(!can_draw(&app, Rect { width: 937, ..area }));
}

#[test]
fn the_screen_has_two_columns() {
    let area = Rect { x: 3, y: 4, width: 81, height: 9 };
    let (left, right) = screen_columns(area);
    assert_eq!(left, Rect { width: 20, ..area });
    assert_eq!(right, Rect { x: 23, width: 61, ..area });
}

#[test]
fn the_help_takes_the_middle_of_the_screen() {
    let mut app = empty_app();
    app.display_help = true;
    app.shortcuts = vec![shortcut("Esc", "Reset.")];
    let area = Rect { x: 0, y: 0, width: 100, height: 50 };
    let before = format!("{app:?}");
    let help = match draw(&mut app, area) {
        Ok(Screen::Help(help)) => help,
        other => panic!("{other:?}"),
    };
    assert_eq!(help.area, Rect { x: 15, y: 0, width: 70, height: 50 });
    assert_eq!(help.items.len(), 1);
    assert_eq!(format!("{app:?}"), before);
}
