//! The store's laws: what a whole session of commands and undos adds up to.
//!
//! The two commands a session issues against the store are `Put` (submit an
//! activity: a fresh id adds a record, a known id edits it) and `Delete` (a
//! row by coordinate).  Each command that changes the store records one
//! action.  The theorems below state, over the recorded log alone, that
//! undoing everything restores the store that the session started from, and
//! that redoing everything afterwards restores the store the session ended
//! with.

use vstd::prelude::*;

use crate::activity::ActivityView;
use crate::datetime::Date;
use crate::history::{redoable, spec_redo, spec_redo_swap, spec_undo, spec_undo_swap, undoable,
    ActionView};
use crate::state::{lemma_state_insert_props, lemma_state_remove_at_props,
    lemma_state_remove_id_absent, lemma_state_remove_id_full, state_add, state_at, state_count,
    state_find_id, state_has_id, state_insert, state_remove_at, state_remove_id,
    state_remove_in_day, state_wf, DayView};

verus! {

/// One command a session can issue against the store.
pub ghost enum CommandView {
    /// Submit an activity: a fresh id adds it, a known id edits the record
    /// carrying that id.
    Put(ActivityView),
    /// Delete the row at (date, index).
    Delete(Date, int),
}

/// The store after one command.
pub open spec fn apply_command(s: Seq<DayView>, c: CommandView) -> Seq<DayView> {
    match c {
        CommandView::Put(v) => state_add(s, v),
        CommandView::Delete(d, i) => state_remove_at(s, d, i),
    }
}

/// The action a command records, if it changed anything.
pub open spec fn command_action(s: Seq<DayView>, c: CommandView) -> Option<ActionView> {
    match c {
        CommandView::Put(v) => match state_find_id(s, v.id) {
            Some(old) => Some(ActionView::Edit { prev: old }),
            None => Some(ActionView::AddActivity(v)),
        },
        CommandView::Delete(d, i) => match state_at(s, d, i) {
            Some(v) => Some(ActionView::DeleteActivity(v)),
            None => None,
        },
    }
}

/// The store after a whole sequence of commands.
pub open spec fn run_state(s: Seq<DayView>, cs: Seq<CommandView>) -> Seq<DayView>
    decreases cs.len(),
{
    if cs.len() == 0 {
        s
    } else {
        apply_command(run_state(s, cs.drop_last()), cs.last())
    }
}

/// The action log a whole sequence of commands leaves behind.
pub open spec fn run_past(s: Seq<DayView>, cs: Seq<CommandView>) -> Seq<ActionView>
    decreases cs.len(),
{
    if cs.len() == 0 {
        Seq::empty()
    } else {
        match command_action(run_state(s, cs.drop_last()), cs.last()) {
            Some(a) => run_past(s, cs.drop_last()).push(a),
            None => run_past(s, cs.drop_last()),
        }
    }
}

/// Undoing the whole log, most recent action first.
pub open spec fn undo_all(past: Seq<ActionView>, s: Seq<DayView>) -> Seq<DayView>
    decreases past.len(),
{
    if past.len() == 0 {
        s
    } else {
        undo_all(past.drop_last(), spec_undo(past.last(), s))
    }
}

/// Every step of undoing the whole log finds its record to invert against.
pub open spec fn undo_all_ok(past: Seq<ActionView>, s: Seq<DayView>) -> bool
    decreases past.len(),
{
    if past.len() == 0 {
        true
    } else {
        undoable(past.last(), s) && undo_all_ok(past.drop_last(), spec_undo(past.last(), s))
    }
}

/// The redo trail that undoing the whole log leaves behind: the log
/// reversed, with each edit carrying the record it displaced.
pub open spec fn undo_future(past: Seq<ActionView>, s: Seq<DayView>) -> Seq<ActionView>
    decreases past.len(),
{
    if past.len() == 0 {
        Seq::empty()
    } else {
        seq![spec_undo_swap(past.last(), s)] + undo_future(
            past.drop_last(),
            spec_undo(past.last(), s),
        )
    }
}

/// Redoing a whole redo trail, last element first.
pub open spec fn redo_all(future: Seq<ActionView>, s: Seq<DayView>) -> Seq<DayView>
    decreases future.len(),
{
    if future.len() == 0 {
        s
    } else {
        redo_all(future.drop_last(), spec_redo(future.last(), s))
    }
}

/// Every step of redoing the trail finds its record to swap against.
pub open spec fn redo_all_ok(future: Seq<ActionView>, s: Seq<DayView>) -> bool
    decreases future.len(),
{
    if future.len() == 0 {
        true
    } else {
        redoable(future.last(), s) && redo_all_ok(
            future.drop_last(),
            spec_redo(future.last(), s),
        )
    }
}

/// Add/edit duality: submitting an activity with a fresh id grows the store
/// by one record, submitting one with a known id replaces the record and
/// leaves the total count unchanged; either way the submitted value is then
/// the live record under its id.
pub proof fn lemma_add_edit_duality(s: Seq<DayView>, v: ActivityView)
    requires
        state_wf(s),
    ensures
        state_wf(state_add(s, v)),
        state_has_id(s, v.id) ==> state_count(state_add(s, v)) == state_count(s),
        !state_has_id(s, v.id) ==> state_count(state_add(s, v)) == state_count(s) + 1,
        state_find_id(state_add(s, v), v.id) == Some(v),
{
    lemma_state_remove_id_full(s, v.id);
    lemma_state_insert_props(state_remove_id(s, v.id), v);
}

/// Identity uniqueness: in a well-formed store, no two activities anywhere
/// — whether on one day or on two — share an id.
pub proof fn lemma_identity_uniqueness(s: Seq<DayView>)
    requires
        state_wf(s),
    ensures
        forall|i: int, k: int, j: int, l: int|
            #![trigger s[i].acts[k], s[j].acts[l]]
            0 <= i < s.len() && 0 <= k < s[i].acts.len() && 0 <= j < s.len() && 0 <= l
                < s[j].acts.len() && (i != j || k != l) ==> s[i].acts[k].id != s[j].acts[l].id,
{
    assert forall|i: int, k: int, j: int, l: int|
        #![trigger s[i].acts[k], s[j].acts[l]]
        0 <= i < s.len() && 0 <= k < s[i].acts.len() && 0 <= j < s.len() && 0 <= l
            < s[j].acts.len() && (i != j || k != l) implies s[i].acts[k].id != s[j].acts[l].id by {
        if i == j {
            assert(crate::activity_vec::uniq_ids(s[i].acts));
        } else if s[i].acts[k].id == s[j].acts[l].id {
            let id = s[i].acts[k].id;
            assert(crate::activity_vec::has_id(s[i].acts, id));
            assert(crate::activity_vec::has_id(s[j].acts, id));
        }
    };
}

/// Filing any list of records into a well-formed store leaves it well
/// formed: sorted within each day, days most recent first, every day
/// non-empty, no id repeated — after every step of the load.
pub proof fn lemma_load_preserves_wf(s: Seq<DayView>, recs: Seq<ActivityView>)
    requires
        state_wf(s),
    ensures
        state_wf(crate::app::load_fold(s, recs)),
    decreases recs.len(),
{
    if recs.len() > 0 {
        lemma_load_preserves_wf(s, recs.drop_last());
        lemma_add_edit_duality(crate::app::load_fold(s, recs.drop_last()), recs.last());
    }
}

/// One command, undone, restores the store it found; its undo-swapped
/// action, redone, restores the store it left.
pub proof fn lemma_command_round_trip(s: Seq<DayView>, c: CommandView)
    requires
        state_wf(s),
    ensures
        state_wf(apply_command(s, c)),
        match command_action(s, c) {
            Some(a) => {
                &&& undoable(a, apply_command(s, c))
                &&& spec_undo(a, apply_command(s, c)) == s
                &&& redoable(spec_undo_swap(a, apply_command(s, c)), s)
                &&& spec_redo(spec_undo_swap(a, apply_command(s, c)), s) == apply_command(s, c)
                &&& spec_redo_swap(spec_undo_swap(a, apply_command(s, c)), s) == a
            },
            None => apply_command(s, c) == s,
        },
{
    match c {
        CommandView::Put(v) => {
            lemma_state_remove_id_full(s, v.id);
            let rm = state_remove_id(s, v.id);
            lemma_state_insert_props(rm, v);
            let ins = state_insert(rm, v);
            assert(apply_command(s, c) == ins);
            match state_find_id(s, v.id) {
                Some(old) => {
                    // the recorded action is an edit carrying the old record
                    assert(old.id == v.id);
                    assert(state_has_id(ins, v.id));
                    assert(spec_undo(ActionView::Edit { prev: old }, ins) == state_add(ins, old));
                    assert(state_remove_id(ins, v.id) == rm);
                    assert(state_add(ins, old) == state_insert(rm, old));
                    assert(state_insert(rm, old) == s);
                    assert(state_find_id(ins, v.id) == Some(v));
                    assert(spec_undo_swap(ActionView::Edit { prev: old }, ins)
                        == ActionView::Edit { prev: v });
                    assert(state_has_id(s, v.id));
                    assert(spec_redo(ActionView::Edit { prev: v }, s) == state_add(s, v));
                },
                None => {
                    // the recorded action is a plain add
                    lemma_state_remove_id_absent(s, v.id);
                    assert(rm == s);
                    assert(spec_undo(ActionView::AddActivity(v), ins)
                        == state_remove_in_day(ins, v.day, v.id));
                    assert(state_remove_in_day(ins, v.day, v.id) == s);
                },
            }
        },
        CommandView::Delete(d, i) => {
            lemma_state_remove_at_props(s, d, i);
            match state_at(s, d, i) {
                Some(v) => {
                    let r = state_remove_at(s, d, i);
                    assert(spec_undo(ActionView::DeleteActivity(v), r) == state_add(r, v));
                    assert(spec_redo(ActionView::DeleteActivity(v), s)
                        == state_remove_in_day(s, v.day, v.id));
                    assert(v.day == d);
                },
                None => {},
            }
        },
    }
}

/// Redoing a concatenated trail is redoing the back part, then the front.
pub proof fn lemma_redo_all_concat(f1: Seq<ActionView>, f2: Seq<ActionView>, s: Seq<DayView>)
    ensures
        redo_all(f1 + f2, s) == redo_all(f1, redo_all(f2, s)),
        redo_all_ok(f1 + f2, s) == (redo_all_ok(f2, s) && redo_all_ok(f1, redo_all(f2, s))),
    decreases f2.len(),
{
    if f2.len() == 0 {
        assert(f1 + f2 =~= f1);
    } else {
        assert((f1 + f2).last() == f2.last());
        assert((f1 + f2).drop_last() =~= f1 + f2.drop_last());
        lemma_redo_all_concat(f1, f2.drop_last(), spec_redo(f2.last(), s));
    }
}

/// Undo/redo round trip: for any starting store and any sequence of
/// commands, undoing the whole recorded log restores the starting store,
/// and redoing the whole trail that undoing left restores the store the
/// commands produced.
pub proof fn lemma_history_round_trip(s0: Seq<DayView>, cs: Seq<CommandView>)
    requires
        state_wf(s0),
    ensures
        state_wf(run_state(s0, cs)),
        undo_all_ok(run_past(s0, cs), run_state(s0, cs)),
        undo_all(run_past(s0, cs), run_state(s0, cs)) == s0,
        redo_all_ok(undo_future(run_past(s0, cs), run_state(s0, cs)), s0),
        redo_all(undo_future(run_past(s0, cs), run_state(s0, cs)), s0) == run_state(s0, cs),
    decreases cs.len(),
{
    if cs.len() == 0 {
    } else {
        let cs0 = cs.drop_last();
        let c = cs.last();
        lemma_history_round_trip(s0, cs0);
        let sp = run_state(s0, cs0);
        let sn = apply_command(sp, c);
        lemma_command_round_trip(sp, c);
        match command_action(sp, c) {
            Some(a) => {
                let past = run_past(s0, cs0).push(a);
                assert(run_past(s0, cs) == past);
                assert(past.drop_last() =~= run_past(s0, cs0));
                assert(past.last() == a);
                assert(spec_undo(a, sn) == sp);
                assert(undo_all(past, sn) == undo_all(run_past(s0, cs0), sp));
                let swapped = spec_undo_swap(a, sn);
                assert(undo_future(past, sn) =~= seq![swapped] + undo_future(
                    run_past(s0, cs0),
                    sp,
                ));
                lemma_redo_all_concat(seq![swapped], undo_future(run_past(s0, cs0), sp), s0);
                assert(redo_all(undo_future(run_past(s0, cs0), sp), s0) == sp);
                assert(seq![swapped].drop_last() =~= Seq::<ActionView>::empty());
                assert(seq![swapped].last() == swapped);
                assert(redo_all(Seq::<ActionView>::empty(), spec_redo(swapped, sp))
                    == spec_redo(swapped, sp));
                assert(redo_all(seq![swapped], sp) == spec_redo(swapped, sp));
                assert(redo_all_ok(Seq::<ActionView>::empty(), spec_redo(swapped, sp)));
                assert(redo_all_ok(seq![swapped], sp) == redoable(swapped, sp));
                assert(spec_redo(swapped, sp) == sn);
            },
            None => {
                assert(sn == sp);
                assert(run_past(s0, cs) == run_past(s0, cs0));
            },
        }
    }
}

} // verus!
