use chrono::TimeZone;
use gurk::clock::{clock, display_time, LocalTime, MAX_DAY, MAX_TIMESTAMP};
use gurk::message::{date_line, display_date_line};
use gurk::widgets::ListItem;

fn text(item: Option<ListItem>) -> Option<String> {
    item.map(|item| {
        assert_eq!(item.lines.len(), 1);
        assert_eq!(item.lines[0].0.len(), 1);
        assert_eq!(item.lines[0].0[0].style.fg, None);
        item.lines[0].0[0].content.clone()
    })
}

fn date(day: i32, width: usize) -> String {
    let mut previous = 0;
    let line = text(date_line(LocalTime { day, second: 0 }, &mut previous, width));
    assert_eq!(previous, day);
    line.expect("the day is a new one")
}

#[test]
fn clock_shows_hours_and_minutes() {
    let at = |second| clock(LocalTime { day: 1, second });
    assert_eq!(at(0), "00:00 ");
    assert_eq!(at(59), "00:00 ");
    assert_eq!(at(60), "00:01 ");
    assert_eq!(at(27_000), "07:30 ");
    assert_eq!(at(36_000), "10:00 ");
    assert_eq!(at(86_399), "23:59 ");
}

#[test]
fn date_line_shows_weekday_and_date() {
    assert_eq!(date(730_119, 0), " Friday, 12/31/99 ");
    assert_eq!(date(730_179, 0), " Tuesday, 02/29/00 ");
    assert_eq!(date(1, 0), " Monday, 01/01/01 ");
    assert_eq!(date(MAX_DAY, 0), " Monday, 12/31/42 ");
}

#[test]
fn date_line_shows_all_weekdays() {
    let names = ["Monday", "Tuesday", "Wednesday", "Thursday", "Friday", "Saturday", "Sunday"];
    for (i, name) in names.iter().enumerate() {
        let line = date(730_115 + i as i32, 0);
        let number = if i < 5 { 27 + i } else { i - 4 };
        let month = if i < 5 { "12" } else { "01" };
        let year = if i < 5 { "99" } else { "00" };
        assert_eq!(line, format!(" {name}, {month}/{number:02}/{year} "));
    }
}

#[test]
fn every_date_of_four_hundred_years_has_its_own_number() {
    let leap = |y: i32| y % 4 == 0 && (y % 100 != 0 || y % 400 == 0);
    let mut day = 584_389; // the first of January 1601
    for year in 1601..2001 {
        for month in 1..=12 {
            let days = match month {
                2 => 28 + i32::from(leap(year)),
                4 | 6 | 9 | 11 => 30,
                _ => 31,
            };
            for number in 1..=days {
                let line = date(day, 0);
                let expected = format!(", {month:02}/{number:02}/{:02} ", year % 100);
                assert!(line.ends_with(&expected), "{line} {expected}");
                day += 1;
            }
        }
    }
}

#[test]
fn date_line_is_centered() {
    assert_eq!(date(730_119, 18), " Friday, 12/31/99 ");
    assert_eq!(date(730_119, 19), " Friday, 12/31/99 =");
    assert_eq!(date(730_119, 23), "== Friday, 12/31/99 ===");
    assert_eq!(date(730_119, 24), "=== Friday, 12/31/99 ===");
}

#[test]
fn date_line_is_shown_once_a_day() {
    let mut previous = 730_119;
    assert!(date_line(LocalTime { day: 730_119, second: 7 }, &mut previous, 20).is_none());
    assert_eq!(previous, 730_119);
    assert!(date_line(LocalTime { day: 730_118, second: 7 }, &mut previous, 20).is_some());
    assert_eq!(previous, 730_118);
}

#[test]
fn times_are_those_of_the_local_time_zone() {
    for timestamp in [0, 1_642_334_397_421, 1_657_972_797_000, 4_102_444_799_999, MAX_TIMESTAMP] {
        let local = chrono::Local.timestamp_millis_opt(timestamp as i64).unwrap();
        assert_eq!(display_time(timestamp), local.format("%R ").to_string());
        let mut previous = 0;
        for width in [0, 30, 41] {
            previous = 0;
            let line = text(display_date_line(timestamp, &mut previous, width));
            let date = format!("{:=^width$}", local.format(" %A, %x "));
            assert_eq!(line, Some(date));
        }
        assert!(display_date_line(timestamp, &mut previous, 30).is_none());
    }
}
