use effort::activity::{Activity, ActivityId};
use effort::activity_vec::ActivityVec;
use effort::datetime::{Date, Time};
use effort::history::{Action, History};
use effort::state::State;

fn mk_act(id: u64, y: i32, mo: u8, d: u8, sh: u8, sm: u8, eh: u8, em: u8, what: &str) -> Activity {
    Activity {
        day: Date { year: y, month: mo, day: d },
        start_time: Time { hour: sh, minute: sm },
        end_time: Some(Time { hour: eh, minute: em }),
        action: String::from(what),
        issue: String::new(),
        id: ActivityId(id),
    }
}

fn total_count(st: &State) -> usize {
    let mut n = 0;
    for i in 0..st.n_days() {
        n += st.day(i).acts.len();
    }
    n
}

#[test]
fn add_edit_undo_redo() {
    // start with an empty store; a fresh id adds, the same id edits
    let mut st = State::new();
    let mut h = History::new();
    let day = Date { year: 2024, month: 1, day: 10 };

    let first = mk_act(1, 2024, 1, 10, 9, 0, 12, 0, "build");
    assert!(st.add(first).is_none());
    assert_eq!(st.n_days(), 1);
    assert_eq!(st.day(0).acts.len(), 1);

    let second = mk_act(1, 2024, 1, 10, 13, 0, 17, 0, "build");
    let prev = st.add(second).expect("same id means edit");
    assert_eq!(prev.start_time, Time { hour: 9, minute: 0 });
    assert_eq!(prev.end_time, Some(Time { hour: 12, minute: 0 }));
    assert_eq!(total_count(&st), 1);
    h.frwd(Action::Edit { prev });

    h.undo(&mut st);
    let reverted = st.find_by_id(day, ActivityId(1)).expect("still live after undo");
    assert_eq!(reverted.start_time, Time { hour: 9, minute: 0 });
    assert_eq!(reverted.end_time, Some(Time { hour: 12, minute: 0 }));

    h.redo(&mut st);
    let forward = st.find_by_id(day, ActivityId(1)).expect("still live after redo");
    assert_eq!(forward.start_time, Time { hour: 13, minute: 0 });
    assert_eq!(forward.end_time, Some(Time { hour: 17, minute: 0 }));
}

#[test]
fn same_day_sorted_by_start() {
    // inserted 10:00 then 09:00; read back 09:00 then 10:00
    let mut st = State::new();
    assert!(st.add(mk_act(1, 2024, 3, 5, 10, 0, 11, 0, "later")).is_none());
    assert!(st.add(mk_act(2, 2024, 3, 5, 9, 0, 10, 0, "earlier")).is_none());
    assert_eq!(st.n_days(), 1);
    let acts = &st.day(0).acts;
    assert_eq!(acts.len(), 2);
    assert_eq!(acts.get(0).start_time, Time { hour: 9, minute: 0 });
    assert_eq!(acts.get(1).start_time, Time { hour: 10, minute: 0 });
}

#[test]
fn days_most_recent_first() {
    let mut st = State::new();
    st.add(mk_act(1, 2024, 1, 2, 9, 0, 10, 0, "old"));
    st.add(mk_act(2, 2024, 1, 9, 9, 0, 10, 0, "new"));
    st.add(mk_act(3, 2024, 1, 5, 9, 0, 10, 0, "mid"));
    assert_eq!(st.n_days(), 3);
    assert_eq!(st.day(0).date, Date { year: 2024, month: 1, day: 9 });
    assert_eq!(st.day(1).date, Date { year: 2024, month: 1, day: 5 });
    assert_eq!(st.day(2).date, Date { year: 2024, month: 1, day: 2 });
}

#[test]
fn sorted_after_every_add() {
    let mut st = State::new();
    st.add(mk_act(1, 2024, 6, 1, 12, 0, 13, 0, "c"));
    st.add(mk_act(2, 2024, 6, 1, 8, 30, 9, 0, "a"));
    st.add(mk_act(3, 2024, 6, 1, 9, 45, 10, 0, "b"));
    st.add(mk_act(4, 2024, 6, 1, 8, 30, 9, 0, "a0"));
    let acts = st.day(0).acts.as_vec();
    for w in acts.windows(2) {
        let a = &w[0];
        let b = &w[1];
        let ka = (a.start_time.hour, a.start_time.minute, a.action.clone());
        let kb = (b.start_time.hour, b.start_time.minute, b.action.clone());
        assert!(ka <= kb);
    }
}

#[test]
fn edit_can_move_a_day() {
    // the same id submitted under another day is an edit, not a second record
    let mut st = State::new();
    assert!(st.add(mk_act(7, 2024, 2, 1, 9, 0, 10, 0, "port")).is_none());
    let prev = st.add(mk_act(7, 2024, 2, 2, 9, 0, 10, 0, "port")).expect("id already lives");
    assert_eq!(prev.day, Date { year: 2024, month: 2, day: 1 });
    assert_eq!(st.n_days(), 1);
    assert_eq!(st.day(0).date, Date { year: 2024, month: 2, day: 2 });
    assert_eq!(total_count(&st), 1);
}

#[test]
fn day_pruned_when_emptied() {
    let mut st = State::new();
    let day = Date { year: 2024, month: 4, day: 4 };
    st.add(mk_act(1, 2024, 4, 4, 9, 0, 10, 0, "only"));
    let removed = st.remove(day, 0).expect("row exists");
    assert_eq!(removed.id, ActivityId(1));
    assert_eq!(st.n_days(), 0);
    assert!(st.day_index(day).is_none());
}

#[test]
fn remove_out_of_range_is_none() {
    let mut st = State::new();
    let day = Date { year: 2024, month: 4, day: 4 };
    st.add(mk_act(1, 2024, 4, 4, 9, 0, 10, 0, "only"));
    assert!(st.remove(day, 5).is_none());
    assert!(st.remove(Date { year: 2024, month: 4, day: 5 }, 0).is_none());
    assert_eq!(total_count(&st), 1);
}

#[test]
fn remove_by_id_prunes_too() {
    let mut st = State::new();
    let day = Date { year: 2024, month: 4, day: 4 };
    st.add(mk_act(1, 2024, 4, 4, 9, 0, 10, 0, "a"));
    st.add(mk_act(2, 2024, 4, 4, 11, 0, 12, 0, "b"));
    assert!(st.remove_by_id(day, ActivityId(3)).is_none());
    assert!(st.remove_by_id(day, ActivityId(1)).is_some());
    assert_eq!(st.n_days(), 1);
    assert!(st.remove_by_id(day, ActivityId(2)).is_some());
    assert_eq!(st.n_days(), 0);
}

#[test]
fn undo_of_delete_restores_row() {
    let mut st = State::new();
    let mut h = History::new();
    let day = Date { year: 2024, month: 5, day: 20 };
    st.add(mk_act(1, 2024, 5, 20, 9, 0, 10, 0, "a"));
    st.add(mk_act(2, 2024, 5, 20, 11, 0, 12, 0, "b"));
    let gone = st.remove(day, 0).expect("row exists");
    assert_eq!(gone.id, ActivityId(1));
    h.frwd(Action::DeleteActivity(gone));
    assert_eq!(total_count(&st), 1);
    h.undo(&mut st);
    assert_eq!(total_count(&st), 2);
    assert_eq!(st.day(0).acts.get(0).id, ActivityId(1));
    h.redo(&mut st);
    assert_eq!(total_count(&st), 1);
    assert_eq!(st.day(0).acts.get(0).id, ActivityId(2));
}

#[test]
fn new_action_clears_redo() {
    // after an undo, a fresh action discards the redo trail
    let mut st = State::new();
    let mut h = History::new();
    let a1 = mk_act(1, 2024, 7, 1, 9, 0, 10, 0, "one");
    st.add(a1.clone());
    h.frwd(Action::AddActivity(a1));
    h.undo(&mut st);
    assert_eq!(total_count(&st), 0);

    let a2 = mk_act(2, 2024, 7, 2, 9, 0, 10, 0, "two");
    st.add(a2.clone());
    h.frwd(Action::AddActivity(a2));
    assert_eq!(total_count(&st), 1);

    // redo is now a no-op: the undone add of `one` is gone for good
    h.redo(&mut st);
    assert_eq!(total_count(&st), 1);
    assert!(st.find_by_id(Date { year: 2024, month: 7, day: 1 }, ActivityId(1)).is_none());
}

#[test]
fn undo_all_then_redo_all_round_trip() {
    let mut st = State::new();
    let mut h = History::new();
    let day = Date { year: 2024, month: 8, day: 8 };

    let a1 = mk_act(1, 2024, 8, 8, 9, 0, 10, 0, "one");
    assert!(st.add(a1.clone()).is_none());
    h.frwd(Action::AddActivity(a1));

    let a2 = mk_act(2, 2024, 8, 8, 11, 0, 12, 0, "two");
    assert!(st.add(a2.clone()).is_none());
    h.frwd(Action::AddActivity(a2));

    let edit = mk_act(1, 2024, 8, 8, 8, 0, 8, 30, "one-earlier");
    let prev = st.add(edit).expect("edit of one");
    h.frwd(Action::Edit { prev });

    let gone = st.remove(day, 1).expect("two is last");
    assert_eq!(gone.id, ActivityId(2));
    h.frwd(Action::DeleteActivity(gone));

    // four undos take the store back to empty
    h.undo(&mut st);
    h.undo(&mut st);
    h.undo(&mut st);
    h.undo(&mut st);
    assert_eq!(total_count(&st), 0);
    // one more undo is a harmless no-op
    h.undo(&mut st);
    assert_eq!(total_count(&st), 0);

    // four redos replay the session exactly
    h.redo(&mut st);
    h.redo(&mut st);
    h.redo(&mut st);
    h.redo(&mut st);
    assert_eq!(total_count(&st), 1);
    let survivor = st.find_by_id(day, ActivityId(1)).expect("one is back");
    assert_eq!(survivor.start_time, Time { hour: 8, minute: 0 });
    assert_eq!(survivor.action, "one-earlier");
    assert!(st.find_by_id(day, ActivityId(2)).is_none());
}

#[test]
fn activity_vec_add_and_find() {
    let mut v = ActivityVec::new();
    assert!(v.is_empty());
    assert!(v.add(mk_act(1, 2024, 9, 9, 10, 0, 11, 0, "x")).is_none());
    assert!(v.add(mk_act(2, 2024, 9, 9, 8, 0, 9, 0, "y")).is_none());
    assert_eq!(v.len(), 2);
    assert_eq!(v.get(0).id, ActivityId(2));
    let prev = v.add(mk_act(2, 2024, 9, 9, 12, 0, 13, 0, "y2")).expect("edit");
    assert_eq!(prev.action, "y");
    assert_eq!(v.len(), 2);
    assert_eq!(v.find_by_id(ActivityId(2)).expect("present").action, "y2");
    assert!(v.find_by_id(ActivityId(9)).is_none());
    assert!(v.remove(7).is_none());
    let taken = v.remove_by_id(ActivityId(1)).expect("present");
    assert_eq!(taken.action, "x");
    assert_eq!(v.len(), 1);
}

#[test]
fn sorted_vec_files_elements_in_order() {
    let mut v: effort::sorted_vec::SortedVec<u64> = effort::sorted_vec::SortedVec::new();
    v.push(30);
    v.push(10);
    v.push(20);
    v.push(20);
    assert_eq!(v.len(), 4);
    assert_eq!(*v.get(0), 10);
    assert_eq!(*v.get(1), 20);
    assert_eq!(*v.get(2), 20);
    assert_eq!(*v.get(3), 30);
    assert_eq!(v.remove(0), 10);
    assert_eq!(*v.get(0), 20);
    assert_eq!(v.len(), 3);
}
