use effort::activity::{Activity, ActivityId};
use effort::datetime::{is_weekend, Date, Time};
use effort::editor::{parse_day, parse_time, ActivityBeingBuilt, Selected};
use effort::text::{compare_str, fmt_date, fmt_duration, fmt_time, fmt_u32, parse_i32, parse_u8,
    trim, Cmp};

fn today() -> Date {
    Date { year: 2024, month: 1, day: 15 }
}

fn noon() -> Time {
    Time { hour: 12, minute: 30 }
}

#[test]
fn parse_day_fields_replace_in_turn() {
    assert_eq!(parse_day("", today()), Ok(today()));
    assert_eq!(parse_day("10", today()), Ok(Date { year: 2024, month: 1, day: 10 }));
    assert_eq!(parse_day("10/3", today()), Ok(Date { year: 2024, month: 3, day: 10 }));
    assert_eq!(parse_day("10/3/1999", today()), Ok(Date { year: 1999, month: 3, day: 10 }));
    assert_eq!(parse_day(" 10 - 3 - 1999 ", today()), Ok(Date { year: 1999, month: 3, day: 10 }));
    // a fourth field is ignored
    assert_eq!(parse_day("10/3/1999/9", today()), Ok(Date { year: 1999, month: 3, day: 10 }));
    // an empty day field keeps today's day
    assert_eq!(parse_day("/3", today()), Ok(Date { year: 2024, month: 3, day: 15 }));
}

#[test]
fn parse_day_reports_each_failure() {
    assert_eq!(parse_day("x", today()), Err("failed to parse date: invalid day"));
    assert_eq!(parse_day("40", today()), Err("failed to parse date: day out of bounds"));
    assert_eq!(parse_day("10/x", today()), Err("failed to parse date: invalid month number"));
    assert_eq!(parse_day("10/13", today()), Err("failed to parse date: month number out of bounds"));
    assert_eq!(parse_day("10/0", today()), Err("failed to parse date: month number out of bounds"));
    assert_eq!(parse_day("30/2", today()), Err("failed to parse date: invalid month"));
    assert_eq!(parse_day("10/3/x", today()), Err("failed to parse date: invalid year"));
    assert_eq!(parse_day("10/3/99999", today()), Err("failed to parse date: year out of bounds"));
}

#[test]
fn leap_years_in_the_calendar() {
    assert_eq!(parse_day("29/2/2024", today()), Ok(Date { year: 2024, month: 2, day: 29 }));
    assert_eq!(parse_day("29/2/2023", today()), Err("failed to parse date: year out of bounds"));
    assert!(Date::new(2000, 2, 29).is_some());
    assert!(Date::new(1900, 2, 29).is_none());
    assert!(Date::new(2024, 0, 1).is_none());
    assert!(Time::new(23, 59).is_some());
    assert!(Time::new(24, 0).is_none());
}

#[test]
fn parse_time_words_and_digits() {
    let last = Some(Time { hour: 9, minute: 15 });
    assert_eq!(parse_time("now", false, None, noon()), Ok(noon()));
    assert_eq!(parse_time("NOW", false, None, noon()), Ok(noon()));
    assert_eq!(parse_time("", true, None, noon()), Ok(noon()));
    assert_eq!(parse_time("last", false, last, noon()), Ok(Time { hour: 9, minute: 15 }));
    assert_eq!(parse_time("last", false, None, noon()), Err("no previous time available"));
    assert_eq!(parse_time("9:30", false, None, noon()), Ok(Time { hour: 9, minute: 30 }));
    assert_eq!(parse_time("12", false, None, noon()), Ok(Time { hour: 12, minute: 30 }));
    assert_eq!(
        parse_time("9", false, None, noon()),
        Err("can't use current minute because you are not inputing current hour"),
    );
    assert_eq!(parse_time("9q", false, None, noon()), Err("failed to parse time: invalid hour"));
    assert_eq!(parse_time("9:xx", false, None, noon()), Err("failed to parse time: invalid minute"));
    assert_eq!(
        parse_time("25:00", false, None, noon()),
        Err("failed to parse time: hour or minute out of bounds"),
    );
}

#[test]
fn editor_validates_before_building() {
    let mut b = ActivityBeingBuilt::new(ActivityId(5), None);
    assert_eq!(b.to_activity(noon(), today()).unwrap_err(), "action field is mandatory");
    b.action.push_str("review");
    b.start_time.push_str("10:00");
    b.end_time.push_str("09:00");
    assert_eq!(b.to_activity(noon(), today()).unwrap_err(), "end time can't be before start time");
    b.end_time.clear();
    b.end_time.push_str("11:00");
    b.day.push_str("9/1");
    let a = b.to_activity(noon(), today()).expect("valid input");
    assert_eq!(a.id, ActivityId(5));
    assert_eq!(a.day, Date { year: 2024, month: 1, day: 9 });
    assert_eq!(a.start_time, Time { hour: 10, minute: 0 });
    assert_eq!(a.end_time, Some(Time { hour: 11, minute: 0 }));
    assert_eq!(a.action, "review");
}

#[test]
fn editor_cursor_cycles() {
    assert_eq!(Selected::Issue.next(), Selected::Action);
    assert_eq!(Selected::Day.next(), Selected::Issue);
    assert_eq!(Selected::Issue.prev(), Selected::Day);
    let mut s = Selected::Action;
    for _ in 0..5 {
        s = s.next();
    }
    assert_eq!(s, Selected::Action);
}

#[test]
fn editor_prefills_from_activity() {
    let a = Activity {
        day: Date { year: 2024, month: 11, day: 3 },
        start_time: Time { hour: 7, minute: 5 },
        end_time: None,
        action: String::from("standup"),
        issue: String::from("OPS-7"),
        id: ActivityId(9),
    };
    let b = ActivityBeingBuilt::from_activity(&a, None);
    assert_eq!(b.id, ActivityId(9));
    assert_eq!(b.action, "standup");
    assert_eq!(b.issue, "OPS-7");
    assert_eq!(b.start_time, "07:05");
    assert_eq!(b.end_time, "");
    assert_eq!(b.day, "03/11/2024");
}

#[test]
fn numbers_and_text_helpers() {
    assert_eq!(parse_u8("0"), Some(0));
    assert_eq!(parse_u8("255"), Some(255));
    assert_eq!(parse_u8("256"), None);
    assert_eq!(parse_u8("+7"), Some(7));
    assert_eq!(parse_u8(""), None);
    assert_eq!(parse_u8("1a"), None);
    assert_eq!(parse_i32("-44"), Some(-44));
    assert_eq!(parse_i32("2147483647"), Some(2147483647));
    assert_eq!(parse_i32("2147483648"), None);
    assert_eq!(trim("  a b  "), "a b");
    assert_eq!(trim("   "), "");
    assert_eq!(fmt_u32(0), "0");
    assert_eq!(fmt_u32(90210), "90210");
    assert_eq!(fmt_duration(90), "01:30");
    assert_eq!(fmt_duration(6000), "100:00");
    assert_eq!(fmt_time(&Time { hour: 9, minute: 7 }), "09:07");
    assert_eq!(fmt_date(&Date { year: 987, month: 6, day: 5 }), "05/06/0987");
    assert_eq!(fmt_date(&Date { year: -44, month: 3, day: 15 }), "15/03/-0044");
    assert!(matches!(compare_str("abc", "abd"), Cmp::Lt));
    assert!(matches!(compare_str("b", "ab"), Cmp::Gt));
    assert!(matches!(compare_str("same", "same"), Cmp::Eq));
}

#[test]
fn weekends_by_the_calendar() {
    // 13/14 January 2024: Saturday and Sunday; the 15th a Monday
    assert!(is_weekend(&Date { year: 2024, month: 1, day: 13 }));
    assert!(is_weekend(&Date { year: 2024, month: 1, day: 14 }));
    assert!(!is_weekend(&Date { year: 2024, month: 1, day: 15 }));
    assert!(!is_weekend(&Date { year: 2024, month: 1, day: 19 }));
    assert!(is_weekend(&Date { year: 2024, month: 1, day: 20 }));
}
