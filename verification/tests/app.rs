use effort::activity::{Activity, ActivityId};
use effort::app::{App, PopUp};
use effort::datetime::{Date, Time};

fn record(y: i32, mo: u8, d: u8, sh: u8, sm: u8, what: &str) -> Activity {
    Activity {
        day: Date { year: y, month: mo, day: d },
        start_time: Time { hour: sh, minute: sm },
        end_time: Some(Time { hour: sh + 1, minute: sm }),
        action: String::from(what),
        issue: String::new(),
        id: ActivityId(0),
    }
}

fn two_day_app() -> App {
    App::new(
        vec![
            record(2024, 1, 10, 9, 0, "recent-a"),
            record(2024, 1, 10, 11, 0, "recent-b"),
            record(2024, 1, 5, 9, 0, "older"),
        ],
        vec![],
    )
}

#[test]
fn navigation_wraps_both_ways() {
    let mut app = two_day_app();
    assert!(app.selected_id().is_none());
    app.next();
    let first = app.selected_id().expect("first row selected");
    app.next();
    app.next();
    app.next();
    // three rows in all: a fourth step wraps back to the first
    assert_eq!(app.selected_id(), Some(first));
    app.previous();
    // and one step back from the first lands on the last
    app.select_first();
    assert_eq!(app.selected_id(), Some(first));
    app.previous();
    let last = app.selected_id().expect("last row selected");
    app.select_last();
    assert_eq!(app.selected_id(), Some(last));
}

#[test]
fn delete_moves_selection_to_adjacent_row() {
    let mut app = two_day_app();
    app.select_first();
    let doomed = app.selected_id().expect("selected");
    app.delete_activity();
    let after = app.selected_id().expect("selection survives on an adjacent row");
    assert_ne!(after, doomed);
    // deleting everything leaves no selection
    app.delete_activity();
    app.delete_activity();
    assert!(app.selected_id().is_none());
    assert!(app.activities().is_empty());
}

#[test]
fn delete_undo_redo_through_facade() {
    let mut app = two_day_app();
    app.select_last();
    app.delete_activity();
    assert_eq!(app.activities().n_days(), 1);
    app.undo();
    assert_eq!(app.activities().n_days(), 2);
    app.redo();
    assert_eq!(app.activities().n_days(), 1);
    app.undo();
    assert_eq!(app.activities().n_days(), 2);
}

#[test]
fn yank_and_paste_lands_after_selected_row() {
    let mut app = two_day_app();
    app.select_first();
    assert!(app.yank_selected());
    // pasting after the first row starts where that row ended (10:00)
    assert!(app.paste().is_ok());
    let day = app.activities().day(0);
    assert_eq!(day.acts.len(), 3);
    let mut starts: Vec<(u8, u8)> = Vec::new();
    for i in 0..day.acts.len() {
        let a = day.acts.get(i);
        starts.push((a.start_time.hour, a.start_time.minute));
    }
    assert_eq!(starts, vec![(9, 0), (10, 0), (11, 0)]);
}

#[test]
fn paste_with_empty_clipboard_reports() {
    let mut app = App::new(vec![], vec![]);
    assert_eq!(app.paste(), Err("clipboard is empty"));
}

#[test]
fn submit_new_activity_through_editor() {
    let mut app = App::new(vec![], vec![]);
    let now = Time { hour: 12, minute: 0 };
    let today = Date { year: 2024, month: 1, day: 15 };
    app.create_new_activity();
    match app.pop_up_mut() {
        Some(PopUp::EditingActivity(b)) => {
            b.action.push_str("write tests");
            b.start_time.push_str("09:00");
            b.end_time.push_str("10:30");
            b.day.push_str("10/1/2024");
        },
        _ => panic!("activity editor should be open"),
    }
    assert!(app.submit(now, today).is_ok());
    assert!(app.pop_up().is_none());
    let st = app.activities();
    assert_eq!(st.n_days(), 1);
    assert_eq!(st.day(0).date, Date { year: 2024, month: 1, day: 10 });
    let a = st.day(0).acts.get(0);
    assert_eq!(a.action, "write tests");
    assert_eq!(a.start_time, Time { hour: 9, minute: 0 });
    assert_eq!(a.end_time, Some(Time { hour: 10, minute: 30 }));
}

#[test]
fn submit_keeps_editor_open_on_bad_input() {
    let mut app = App::new(vec![], vec![]);
    let now = Time { hour: 12, minute: 0 };
    let today = Date { year: 2024, month: 1, day: 15 };
    app.create_new_activity();
    match app.pop_up_mut() {
        Some(PopUp::EditingActivity(b)) => {
            b.action.push_str("broken");
            b.start_time.push_str("9q");
        },
        _ => panic!("activity editor should be open"),
    }
    assert_eq!(app.submit(now, today), Err("failed to parse time: invalid hour"));
    assert!(matches!(app.pop_up(), Some(PopUp::EditingActivity(_))));
    assert!(app.activities().is_empty());
}

#[test]
fn edit_selected_prefills_editor() {
    let mut app = two_day_app();
    app.select_first();
    let id = app.selected_id().expect("selected");
    app.edit_activity();
    match app.pop_up() {
        Some(PopUp::EditingActivity(b)) => {
            assert_eq!(b.id, id);
            assert_eq!(b.action, "recent-a");
            assert_eq!(b.start_time, "09:00");
            assert_eq!(b.end_time, "10:00");
            assert_eq!(b.day, "10/01/2024");
        },
        _ => panic!("activity editor should be open"),
    }
}

#[test]
fn days_off_rules() {
    let mut app = two_day_app();
    // a day with logged work cannot be taken off
    assert_eq!(
        app.add_day_off(Date { year: 2024, month: 1, day: 10 }),
        Err("you worked that day, can't take it off"),
    );
    // 13 January 2024 is a Saturday
    assert_eq!(
        app.add_day_off(Date { year: 2024, month: 1, day: 13 }),
        Err("can't take weekends off"),
    );
    assert!(app.add_day_off(Date { year: 2024, month: 1, day: 11 }).is_ok());
    assert!(app.add_day_off(Date { year: 2024, month: 1, day: 12 }).is_ok());
    // duplicates collapse; the list stays most recent first
    assert!(app.add_day_off(Date { year: 2024, month: 1, day: 11 }).is_ok());
    assert_eq!(app.n_days_off(), 2);
    assert_eq!(app.days_off()[0], Date { year: 2024, month: 1, day: 12 });
    assert_eq!(app.days_off()[1], Date { year: 2024, month: 1, day: 11 });
    assert_eq!(app.n_days_off_up_to_today(Date { year: 2024, month: 1, day: 11 }), 1);
    assert_eq!(app.n_days_off_up_to_today(Date { year: 2024, month: 1, day: 31 }), 2);
}

#[test]
fn submit_day_off_through_popup() {
    let mut app = App::new(vec![], vec![]);
    let today = Date { year: 2024, month: 1, day: 15 };
    app.show_days_off();
    match app.pop_up_mut() {
        Some(PopUp::DaysOff { new_day_off, .. }) => {
            *new_day_off = Some(String::from("11/1/2024"));
        },
        _ => panic!("days-off pop-up should be open"),
    }
    assert!(app.submit_new_day_off(today).is_ok());
    assert_eq!(app.n_days_off(), 1);
    assert_eq!(app.days_off()[0], Date { year: 2024, month: 1, day: 11 });
    match app.pop_up() {
        Some(PopUp::DaysOff { new_day_off, .. }) => assert!(new_day_off.is_none()),
        _ => panic!("days-off pop-up stays open"),
    }
}

#[test]
fn stats_toggle_and_popup_lifecycle() {
    let mut app = App::new(vec![], vec![]);
    assert!(!app.show_stats());
    app.toggle_stats();
    assert!(app.show_stats());
    app.show_days_off();
    assert!(matches!(app.pop_up(), Some(PopUp::DaysOff { .. })));
    app.hide_days_off();
    assert!(app.pop_up().is_none());
    app.create_new_activity();
    assert!(app.editing());
    app.cancel_edit();
    assert!(!app.editing());
    assert!(app.pop_up().is_none());
}

#[test]
fn workdays_span_the_logged_days() {
    // empty: nothing logged; one day counts as one; 5..=10 January 2024
    // holds four week days (the 6th and 7th are a weekend)
    let empty = App::new(vec![], vec![]);
    assert_eq!(empty.n_workdays_so_far(), 0);
    let one = App::new(vec![record(2024, 1, 13, 9, 0, "sat")], vec![]);
    assert_eq!(one.n_workdays_so_far(), 1);
    let both = two_day_app();
    assert_eq!(both.n_workdays_so_far(), 4);
}

#[test]
fn issue_total_sums_finished_rows() {
    let mut app = two_day_app();
    assert_eq!(app.selected_issue_total_time(), None);
    app.select_first();
    // three one-hour rows share the blank issue
    assert_eq!(app.selected_issue_total_time(), Some(180));
}

#[test]
fn issue_total_resets_at_an_unfinished_row() {
    let mut open_row = record(2024, 1, 10, 11, 0, "unfinished");
    open_row.end_time = None;
    let mut app = App::new(
        vec![
            record(2024, 1, 10, 9, 0, "fin-recent"),
            open_row,
            record(2024, 1, 5, 9, 0, "fin-old"),
        ],
        vec![],
    );
    app.select_first();
    // the unfinished row drops what came before it; only the older day's
    // hour survives the scan
    assert_eq!(app.selected_issue_total_time(), Some(60));
}
