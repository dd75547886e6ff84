//! The undo/redo action log.
//!
//! `past` holds applied actions, most recent last; `future` holds undone
//! actions available for redo, most recent first undone last.  Each action
//! carries exactly the data needed to invert itself: undoing a delete
//! re-adds the carried activity, undoing an add removes it by id, and an
//! edit carries the previous record and is its own inverse — applying it
//! swaps the live record for the carried one and keeps the displaced record
//! for the swap back.
//!
//! Recording a fresh action clears `future`: once the user acts anew after
//! undoing, the redo trail is gone.

use vstd::prelude::*;

use crate::activity::{Activity, ActivityView};
use crate::state::{state_add, state_find_id, state_has_id, state_remove_in_day, DayView, State};

verus! {

/// A reversible description of one mutation.
#[derive(Debug)]
pub enum Action {
    DeleteActivity(Activity),
    Edit { prev: Activity },
    AddActivity(Activity),
}

/// The mathematical value of an `Action`.
pub ghost enum ActionView {
    DeleteActivity(ActivityView),
    Edit { prev: ActivityView },
    AddActivity(ActivityView),
}

impl View for Action {
    type V = ActionView;

    open spec fn view(&self) -> ActionView {
        match self {
            Action::DeleteActivity(a) => ActionView::DeleteActivity(a@),
            Action::Edit { prev } => ActionView::Edit { prev: prev@ },
            Action::AddActivity(a) => ActionView::AddActivity(a@),
        }
    }
}

/// The mathematical value behind a vector of actions.
pub open spec fn action_views_of(v: Seq<Action>) -> Seq<ActionView> {
    Seq::new(v.len(), |i: int| v[i]@)
}

/// The mathematical value of a `History`.
#[verifier::ext_equal]
pub ghost struct HistoryView {
    pub past: Seq<ActionView>,
    pub future: Seq<ActionView>,
}

/// Undoing `a` on store `s` needs a live record to invert against; only an
/// edit can lack one, and only through a defect elsewhere.
pub open spec fn undoable(a: ActionView, s: Seq<DayView>) -> bool {
    match a {
        ActionView::Edit { prev } => state_has_id(s, prev.id),
        _ => true,
    }
}

/// The store after undoing `a`.
pub open spec fn spec_undo(a: ActionView, s: Seq<DayView>) -> Seq<DayView> {
    match a {
        ActionView::DeleteActivity(v) => state_add(s, v),
        ActionView::Edit { prev } => state_add(s, prev),
        ActionView::AddActivity(v) => state_remove_in_day(s, v.day, v.id),
    }
}

/// The action moved to `future` by undoing `a` on `s`: an edit swaps its
/// carried record for the displaced live one.
pub open spec fn spec_undo_swap(a: ActionView, s: Seq<DayView>) -> ActionView {
    match a {
        ActionView::Edit { prev } => match state_find_id(s, prev.id) {
            Some(cur) => ActionView::Edit { prev: cur },
            None => a,
        },
        _ => a,
    }
}

/// Redoing `a` on store `s` again needs a live record only for an edit.
pub open spec fn redoable(a: ActionView, s: Seq<DayView>) -> bool {
    match a {
        ActionView::Edit { prev } => state_has_id(s, prev.id),
        _ => true,
    }
}

/// The store after redoing `a`.
pub open spec fn spec_redo(a: ActionView, s: Seq<DayView>) -> Seq<DayView> {
    match a {
        ActionView::DeleteActivity(v) => state_remove_in_day(s, v.day, v.id),
        ActionView::Edit { prev } => state_add(s, prev),
        ActionView::AddActivity(v) => state_add(s, v),
    }
}

/// The action moved back to `past` by redoing `a` on `s`.
pub open spec fn spec_redo_swap(a: ActionView, s: Seq<DayView>) -> ActionView {
    match a {
        ActionView::Edit { prev } => match state_find_id(s, prev.id) {
            Some(cur) => ActionView::Edit { prev: cur },
            None => a,
        },
        _ => a,
    }
}

/// The applied log is coherent with store `s`: each action, from the most
/// recent down, can be undone, and redoing what its undo leaves behind
/// restores both the store and the action itself.
pub open spec fn past_coherent(past: Seq<ActionView>, s: Seq<DayView>) -> bool
    decreases past.len(),
{
    past.len() == 0 || {
        let a = past.last();
        let s0 = spec_undo(a, s);
        let w = spec_undo_swap(a, s);
        &&& undoable(a, s)
        &&& redoable(w, s0)
        &&& spec_redo(w, s0) == s
        &&& spec_redo_swap(w, s0) == a
        &&& past_coherent(past.drop_last(), s0)
    }
}

/// The redo trail is coherent with store `s`: each undone action, from the
/// first undone down, can be redone, and undoing what its redo leaves
/// behind restores both the store and the trail entry itself.
pub open spec fn future_coherent(future: Seq<ActionView>, s: Seq<DayView>) -> bool
    decreases future.len(),
{
    future.len() == 0 || {
        let w = future.last();
        let s1 = spec_redo(w, s);
        let a = spec_redo_swap(w, s);
        &&& redoable(w, s)
        &&& undoable(a, s1)
        &&& spec_undo(a, s1) == s
        &&& spec_undo_swap(a, s1) == w
        &&& future_coherent(future.drop_last(), s1)
    }
}

/// The undo/redo log.
#[derive(Debug)]
pub struct History {
    past: Vec<Action>,
    future: Vec<Action>,
}

impl View for History {
    type V = HistoryView;

    closed spec fn view(&self) -> HistoryView {
        HistoryView { past: action_views_of(self.past@), future: action_views_of(self.future@) }
    }
}

impl History {
    pub fn new() -> (r: History)
        ensures
            r@.past =~= Seq::<ActionView>::empty(),
            r@.future =~= Seq::<ActionView>::empty(),
    {
        History { past: Vec::new(), future: Vec::new() }
    }

    pub fn past_len(&self) -> (r: usize)
        ensures
            r == self@.past.len(),
    {
        self.past.len()
    }

    pub fn future_len(&self) -> (r: usize)
        ensures
            r == self@.future.len(),
    {
        self.future.len()
    }

    /// Record a freshly applied action; the redo trail is discarded.
    pub fn frwd(&mut self, a: Action)
        ensures
            final(self)@.past =~= old(self)@.past.push(a@),
            final(self)@.future =~= Seq::<ActionView>::empty(),
    {
        self.past.push(a);
        self.future.clear();
    }

    /// Undo the most recent applied action against `state`; a no-op when
    /// nothing is left to undo.
    pub fn undo(&mut self, state: &mut State)
        requires
            old(state).wf(),
            old(self)@.past.len() > 0 ==> undoable(old(self)@.past.last(), old(state)@),
        ensures
            final(state).wf(),
            if old(self)@.past.len() == 0 {
                &&& final(self)@ =~= old(self)@
                &&& final(state)@ == old(state)@
            } else {
                let a = old(self)@.past.last();
                &&& final(self)@.past =~= old(self)@.past.drop_last()
                &&& final(self)@.future =~= old(self)@.future.push(
                    spec_undo_swap(a, old(state)@),
                )
                &&& final(state)@ == spec_undo(a, old(state)@)
            },
    {
        let popped = self.past.pop();
        match popped {
            None => {
                proof {
                    assert(self@ =~= old(self)@);
                }
            },
            Some(action) => {
                let moved: Action = match action {
                    Action::DeleteActivity(a) => {
                        let _ = state.add(a.clone());
                        Action::DeleteActivity(a)
                    },
                    Action::Edit { prev } => {
                        proof {
                            crate::state::lemma_state_find_id_spec(state@, prev@.id);
                        }
                        let cur = state.add(prev);
                        match cur {
                            Some(c) => Action::Edit { prev: c },
                            // ruled out by `undoable`: the edited record is live
                            None => unreached(),
                        }
                    },
                    Action::AddActivity(act) => {
                        let _ = state.remove_by_id(act.day, act.id);
                        Action::AddActivity(act)
                    },
                };
                self.future.push(moved);
                proof {
                    assert(self@.past =~= old(self)@.past.drop_last());
                    assert(self@.future =~= old(self)@.future.push(moved@));
                }
            },
        }
    }

    /// Redo the most recently undone action against `state`; a no-op when
    /// nothing is left to redo.
    pub fn redo(&mut self, state: &mut State)
        requires
            old(state).wf(),
            old(self)@.future.len() > 0 ==> redoable(old(self)@.future.last(), old(state)@),
        ensures
            final(state).wf(),
            if old(self)@.future.len() == 0 {
                &&& final(self)@ =~= old(self)@
                &&& final(state)@ == old(state)@
            } else {
                let a = old(self)@.future.last();
                &&& final(self)@.future =~= old(self)@.future.drop_last()
                &&& final(self)@.past =~= old(self)@.past.push(spec_redo_swap(a, old(state)@))
                &&& final(state)@ == spec_redo(a, old(state)@)
            },
    {
        let popped = self.future.pop();
        match popped {
            None => {
                proof {
                    assert(self@ =~= old(self)@);
                }
            },
            Some(action) => {
                let moved: Action = match action {
                    Action::DeleteActivity(a) => {
                        let _ = state.remove_by_id(a.day, a.id);
                        Action::DeleteActivity(a)
                    },
                    Action::Edit { prev } => {
                        proof {
                            crate::state::lemma_state_find_id_spec(state@, prev@.id);
                        }
                        let cur = state.add(prev);
                        match cur {
                            Some(c) => Action::Edit { prev: c },
                            // ruled out by `redoable`: the edited record is live
                            None => unreached(),
                        }
                    },
                    Action::AddActivity(a) => {
                        let _ = state.add(a.clone());
                        Action::AddActivity(a)
                    },
                };
                self.past.push(moved);
                proof {
                    assert(self@.future =~= old(self)@.future.drop_last());
                    assert(self@.past =~= old(self)@.past.push(moved@));
                }
            },
        }
    }
}

impl Default for History {
    fn default() -> (r: History)
        ensures
            r@.past =~= Seq::<ActionView>::empty(),
            r@.future =~= Seq::<ActionView>::empty(),
    {
        History::new()
    }
}

} // verus!
