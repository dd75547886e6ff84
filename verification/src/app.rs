//! The application façade: one owner for the store, the undo/redo log, the
//! selection cursor, the clipboard, the days-off list and the open pop-up.
//!
//! Every command the input layer can issue maps to one method here.  The
//! façade applies the mutation to the store, records the inverse-describing
//! action in the log, and re-validates the cursor, so that the selection
//! never points at a row that is no longer there.

use vstd::prelude::*;

use crate::activity::{Activity, ActivityId, ActivityView};
use crate::config::ConfigBeingBuilt;
use crate::datetime::{date_lt, Date, Time};
use crate::editor::ActivityBeingBuilt;
use crate::history::{future_coherent, past_coherent, Action, History};
use crate::state::{days_ordered, state_add, state_at, state_find_id, state_has_id,
    state_remove_at, state_wf, DayView, State};

verus! {

/// The modal surface currently open over the table, if any.
#[derive(Debug)]
pub enum PopUp {
    EditingActivity(ActivityBeingBuilt),
    EditingConfig(ConfigBeingBuilt),
    DaysOff { selected: usize, new_day_off: Option<String> },
}

/// Which kind of editing pop-up is open.
#[derive(Clone, Copy, PartialEq, Eq, Structural, Debug)]
pub enum PopUpType {
    Config,
    EditActivity,
}

/// The first row of the table: most recent day, first activity.
pub open spec fn first_row(s: Seq<DayView>) -> Option<(Date, usize)> {
    if s.len() == 0 {
        None
    } else {
        Some((s[0].date, 0usize))
    }
}

/// The last row of the table: oldest day, last activity.
pub open spec fn last_row(s: Seq<DayView>) -> Option<(Date, usize)> {
    if s.len() == 0 {
        None
    } else {
        Some((s[s.len() - 1].date, (s[s.len() - 1].acts.len() - 1) as usize))
    }
}

/// The position of day `date` in the store, if it is there.
pub open spec fn day_idx(s: Seq<DayView>, date: Date) -> Option<int>
    decreases s.len(),
{
    if s.len() == 0 {
        None
    } else if s[0].date == date {
        Some(0int)
    } else {
        match day_idx(s.drop_first(), date) {
            Some(i) => Some(i + 1),
            None => None,
        }
    }
}

/// How many days are strictly more recent than `date`.
pub open spec fn days_before(s: Seq<DayView>, date: Date) -> int
    decreases s.len(),
{
    if s.len() == 0 {
        0
    } else if date_lt(date, s[0].date) {
        1 + days_before(s.drop_first(), date)
    } else {
        0
    }
}

/// The row after the cursor in (day, index) order, wrapping past the end;
/// a cursor on a vanished day starts over at the first row.
pub open spec fn next_row(s: Seq<DayView>, sel: Option<(Date, usize)>) -> Option<(Date, usize)> {
    match sel {
        None => first_row(s),
        Some((d, k)) => match day_idx(s, d) {
            None => first_row(s),
            Some(i) => if k + 1 < s[i].acts.len() {
                Some((d, (k + 1) as usize))
            } else if i + 1 < s.len() {
                Some((s[i + 1].date, 0usize))
            } else {
                first_row(s)
            },
        },
    }
}

/// The row before the cursor, wrapping past the start; from a vanished day
/// it falls back to the nearest more recent day, or the last row.
pub open spec fn prev_row(s: Seq<DayView>, sel: Option<(Date, usize)>) -> Option<(Date, usize)> {
    match sel {
        None => last_row(s),
        Some((d, k)) => if k > 0 {
            Some((d, (k - 1) as usize))
        } else {
            let m = days_before(s, d);
            if m > 0 {
                Some((s[m - 1].date, (s[m - 1].acts.len() - 1) as usize))
            } else {
                last_row(s)
            }
        },
    }
}

/// The cursor names a row the store actually holds.
pub open spec fn sel_ok(s: Seq<DayView>, sel: Option<(Date, usize)>) -> bool {
    match sel {
        None => true,
        Some((d, k)) => match day_idx(s, d) {
            Some(i) => k < s[i].acts.len(),
            None => false,
        },
    }
}

/// The activity id under the cursor, if the cursor names a real row.
pub open spec fn sel_id(s: Seq<DayView>, sel: Option<(Date, usize)>) -> Option<ActivityId> {
    match sel {
        None => None,
        Some((d, k)) => match day_idx(s, d) {
            Some(i) => if k < s[i].acts.len() {
                Some(s[i].acts[k as int].id)
            } else {
                None
            },
            None => None,
        },
    }
}

/// The activity under the cursor, if the cursor names a real row.
pub open spec fn sel_act(s: Seq<DayView>, sel: Option<(Date, usize)>) -> Option<ActivityView> {
    match sel {
        None => None,
        Some((d, k)) => match day_idx(s, d) {
            Some(i) => if k < s[i].acts.len() {
                Some(s[i].acts[k as int])
            } else {
                None
            },
            None => None,
        },
    }
}

/// Where the cursor lands after the row at (`d`, `k`) was deleted from the
/// store now reading `s`: the row that took the deleted row's place, the
/// previous row when the day's last row went, the next older day's first
/// row when the whole day went, and the table's last row past the end.
pub open spec fn after_delete_row(s: Seq<DayView>, d: Date, k: usize) -> Option<(Date, usize)> {
    if s.len() == 0 {
        None
    } else {
        match day_idx(s, d) {
            Some(i) => if k < s[i].acts.len() {
                Some((d, k))
            } else {
                Some((d, (s[i].acts.len() - 1) as usize))
            },
            None => {
                let m = days_before(s, d);
                if m < s.len() {
                    Some((s[m].date, 0usize))
                } else {
                    last_row(s)
                }
            },
        }
    }
}

/// Dates strictly descending: the days-off list's standing order.
pub open spec fn dates_desc(s: Seq<Date>) -> bool {
    forall|i: int, j: int| 0 <= i < j < s.len() ==> date_lt(#[trigger] s[j], #[trigger] s[i])
}

/// When `i` is the position of day `date`, `day_idx` names it.
pub proof fn lemma_day_idx_at(s: Seq<DayView>, date: Date, i: int)
    requires
        0 <= i < s.len(),
        s[i].date == date,
        forall|k: int| 0 <= k < i ==> (#[trigger] s[k]).date != date,
    ensures
        day_idx(s, date) == Some(i),
    decreases i,
{
    if i > 0 {
        let t = s.drop_first();
        assert(forall|k: int| 0 <= k < t.len() ==> (#[trigger] t[k]) == s[k + 1]);
        lemma_day_idx_at(t, date, i - 1);
    }
}

/// On a store without day `date`, `day_idx` answers `None`.
pub proof fn lemma_day_idx_absent(s: Seq<DayView>, date: Date)
    requires
        forall|k: int| 0 <= k < s.len() ==> (#[trigger] s[k]).date != date,
    ensures
        day_idx(s, date) is None,
    decreases s.len(),
{
    if s.len() > 0 {
        let t = s.drop_first();
        assert(forall|k: int| 0 <= k < t.len() ==> (#[trigger] t[k]) == s[k + 1]);
        lemma_day_idx_absent(t, date);
    }
}

/// Where the cursor stands after a mutation: kept if its row is still
/// there, clamped to the day's new last row if only the row went, moved to
/// the nearest surviving row if the whole day went.
pub open spec fn revalidate(s: Seq<DayView>, sel: Option<(Date, usize)>) -> Option<(Date, usize)> {
    match sel {
        None => None,
        Some((d, k)) => after_delete_row(s, d, k),
    }
}

/// What pasting the clipboard produces: the clipboard's text under a fresh
/// id, moved to the selected row's day and start (keeping its own length),
/// or left where it was when nothing is selected.
pub open spec fn paste_candidate(
    clip: ActivityView,
    sel: Option<ActivityView>,
    id: ActivityId,
) -> ActivityView {
    let start = match sel {
        Some(sa) => match sa.end_time {
            Some(e) => e,
            None => clip.start_time,
        },
        None => clip.start_time,
    };
    let day = match sel {
        Some(sa) => sa.day,
        None => clip.day,
    };
    let end = match clip.end_time {
        Some(ce) => Some(
            crate::datetime::spec_add_wrap(
                start,
                crate::datetime::minutes_of(ce) - crate::datetime::minutes_of(clip.start_time),
            ),
        ),
        None => None,
    };
    ActivityView {
        day,
        start_time: start,
        end_time: end,
        action: clip.action,
        issue: clip.issue,
        id,
    }
}

/// The records as they are filed at load: record `k` carries id `base + k`.
pub open spec fn reid(recs: Seq<ActivityView>, base: int) -> Seq<ActivityView> {
    Seq::new(recs.len(), |k: int| ActivityView { id: ActivityId((base + k) as u64), ..recs[k] })
}

/// Filing a list of records into a store, first record first.
pub open spec fn load_fold(s: Seq<DayView>, recs: Seq<ActivityView>) -> Seq<DayView>
    decreases recs.len(),
{
    if recs.len() == 0 {
        s
    } else {
        state_add(load_fold(s, recs.drop_last()), recs.last())
    }
}

/// A date filed into a descending duplicate-free list.
pub open spec fn day_off_insert(s: Seq<Date>, d: Date) -> Seq<Date>
    decreases s.len(),
{
    if s.len() == 0 {
        seq![d]
    } else if date_lt(s[0], d) {
        seq![d] + s
    } else if s[0] == d {
        s
    } else {
        seq![s[0]] + day_off_insert(s.drop_first(), d)
    }
}

/// Filing a list of dates into a days-off list, first date first.
pub open spec fn days_off_fold(s: Seq<Date>, ds: Seq<Date>) -> Seq<Date>
    decreases ds.len(),
{
    if ds.len() == 0 {
        s
    } else {
        day_off_insert(days_off_fold(s, ds.drop_last()), ds.last())
    }
}

/// When `j` is the first position not more recent than `d`, filing `d`
/// keeps the list descending and duplicate-free.
pub proof fn lemma_day_off_insert_at(s: Seq<Date>, d: Date, j: int)
    requires
        dates_desc(s),
        0 <= j <= s.len(),
        forall|k: int| 0 <= k < j ==> date_lt(d, #[trigger] s[k]),
        j < s.len() ==> !date_lt(d, s[j]),
    ensures
        day_off_insert(s, d) == if j < s.len() && s[j] == d {
            s
        } else {
            s.insert(j, d)
        },
        dates_desc(day_off_insert(s, d)),
    decreases j,
{
    if j == 0 {
        if s.len() == 0 {
            assert(day_off_insert(s, d) =~= s.insert(0, d));
        } else if date_lt(s[0], d) {
            assert(seq![d] + s =~= s.insert(0, d));
        } else if s[0] == d {
        } else {
            assert(false);
        }
    } else {
        let t = s.drop_first();
        assert(forall|k: int| 0 <= k < t.len() ==> (#[trigger] t[k]) == s[k + 1]);
        assert(date_lt(d, s[0]));
        lemma_day_off_insert_at(t, d, j - 1);
        if j < s.len() && s[j] == d {
            assert(t[j - 1] == d);
        } else {
            assert(seq![s[0]] + t.insert(j - 1, d) =~= s.insert(j, d));
        }
    }
    let r = day_off_insert(s, d);
    if j < s.len() && s[j] == d {
    } else {
        let r2 = s.insert(j, d);
        assert forall|a: int, b: int| 0 <= a < b < r2.len() implies date_lt(r2[b], r2[a]) by {
            if a < j && b < j {
            } else if a == j && b > j {
                if j < s.len() {
                    assert(!date_lt(d, s[j]) && s[j] != d);
                }
                if b - 1 > j {
                    assert(date_lt(s[b - 1], s[j]));
                }
            } else if b == j && a < j {
            } else if a < j && b > j {
                assert(date_lt(d, s[a]));
                if j < s.len() {
                    assert(!date_lt(d, s[j]) && s[j] != d);
                }
            }
        };
    }
}

/// On a descending store, `days_before` is the scan position of `date`.
pub proof fn lemma_days_before_at(s: Seq<DayView>, date: Date, j: int)
    requires
        0 <= j <= s.len(),
        forall|k: int| 0 <= k < j ==> date_lt(date, (#[trigger] s[k]).date),
        j < s.len() ==> !date_lt(date, s[j].date),
    ensures
        days_before(s, date) == j,
    decreases j,
{
    if j == 0 {
    } else {
        let t = s.drop_first();
        assert(forall|k: int| 0 <= k < t.len() ==> (#[trigger] t[k]) == s[k + 1]);
        lemma_days_before_at(t, date, j - 1);
    }
}

/// The application façade.
#[derive(Debug)]
pub struct App {
    selected: Option<(Date, usize)>,
    activities: State,
    days_off: Vec<Date>,
    pop_up: Option<PopUp>,
    show_stats: bool,
    history: History,
    clipboard: Option<Activity>,
    next_id: u64,
}

impl App {
    /// The stored days, most recent first.
    pub closed spec fn state(self) -> Seq<DayView> {
        self.activities@
    }

    /// The selection cursor.
    pub closed spec fn selection(self) -> Option<(Date, usize)> {
        self.selected
    }

    /// The applied actions, most recent last.
    pub closed spec fn past(self) -> Seq<crate::history::ActionView> {
        self.history@.past
    }

    /// The undone actions available for redo.
    pub closed spec fn future(self) -> Seq<crate::history::ActionView> {
        self.history@.future
    }

    /// The clipboard's value, if an activity was yanked or deleted.
    pub closed spec fn clip(self) -> Option<ActivityView> {
        match self.clipboard {
            Some(a) => Some(a@),
            None => None,
        }
    }

    /// The open pop-up.
    pub closed spec fn popup(self) -> Option<PopUp> {
        self.pop_up
    }

    pub closed spec fn stats_shown(self) -> bool {
        self.show_stats
    }

    /// The days-off list, most recent first.
    pub closed spec fn days_off_list(self) -> Seq<Date> {
        self.days_off@
    }

    /// The next id the façade will hand out.
    pub closed spec fn id_counter(self) -> int {
        self.next_id as int
    }

    /// The façade's standing invariant: a well-formed store, a cursor on a
    /// real row, a descending days-off list, and an undo/redo log coherent
    /// with the store.
    pub closed spec fn wf(self) -> bool {
        &&& self.activities.wf()
        &&& sel_ok(self.activities@, self.selected)
        &&& dates_desc(self.days_off@)
        &&& past_coherent(self.history@.past, self.activities@)
        &&& future_coherent(self.history@.future, self.activities@)
    }

    /// Ids are not exhausted; every id-allocating command asks for this.
    pub closed spec fn ids_available(self) -> bool {
        self.next_id < u64::MAX
    }

    /// Exec check of `ids_available`, for callers that must test it first.
    pub fn can_allocate_ids(&self) -> (r: bool)
        ensures
            r == self.ids_available(),
    {
        self.next_id < u64::MAX
    }

    /// A fresh façade over loaded records and days off.  Every record gets
    /// a fresh id as it is filed (ids are process-local and never persist),
    /// so a record whose day moved in the file cannot shadow another.
    pub fn new(records: Vec<Activity>, days_off: Vec<Date>) -> (r: App)
        requires
            records@.len() < u64::MAX,
        ensures
            r.wf(),
            r.state() == load_fold(Seq::<DayView>::empty(), reid(
                crate::activity_vec::views_of(records@),
                0,
            )),
            r.days_off_list() == days_off_fold(Seq::<Date>::empty(), days_off@),
            r.selection() is None,
            r.past().len() == 0,
            r.future().len() == 0,
            r.clip() is None,
            r.popup() is None,
            !r.stats_shown(),
            r.id_counter() == records@.len(),
    {
        let ghost rv = crate::activity_vec::views_of(records@);
        let mut st = State::new();
        let n = records.len();
        let mut i: usize = 0;
        let mut next_id: u64 = 0;
        while i < n
            invariant
                i <= n,
                n == records@.len(),
                n < u64::MAX,
                next_id == i,
                rv == crate::activity_vec::views_of(records@),
                st.wf(),
                st@ == load_fold(Seq::<DayView>::empty(), reid(rv.take(i as int), 0)),
            decreases n - i,
        {
            let mut a = records[i].clone();
            a.id = ActivityId(next_id);
            proof {
                assert(a@ =~= ActivityView { id: ActivityId(i as u64), ..rv[i as int] });
                assert(reid(rv.take(i + 1), 0).drop_last() =~= reid(rv.take(i as int), 0));
                assert(reid(rv.take(i + 1), 0).last() == a@);
            }
            let _ = st.add(a);
            next_id = next_id + 1;
            i = i + 1;
        }
        proof {
            assert(rv.take(n as int) =~= rv);
        }
        let mut offs: Vec<Date> = Vec::new();
        let m = days_off.len();
        let mut j: usize = 0;
        while j < m
            invariant
                j <= m,
                m == days_off@.len(),
                dates_desc(offs@),
                offs@ == days_off_fold(Seq::<Date>::empty(), days_off@.take(j as int)),
            decreases m - j,
        {
            let d = days_off[j];
            proof {
                assert(days_off@.take(j + 1).drop_last() =~= days_off@.take(j as int));
                assert(days_off@.take(j + 1).last() == d);
            }
            insert_day_off_sorted(&mut offs, d);
            j = j + 1;
        }
        proof {
            assert(days_off@.take(m as int) =~= days_off@);
        }
        App {
            selected: None,
            activities: st,
            days_off: offs,
            pop_up: None,
            show_stats: false,
            history: History::new(),
            clipboard: None,
            next_id,
        }
    }

    /// Read access to the store, for rendering and saving.
    pub fn activities(&self) -> (r: &State)
        ensures
            r@ == self.state(),
    {
        &self.activities
    }

    /// Read access to the days-off list, most recent first.
    pub fn days_off(&self) -> (r: &Vec<Date>)
        ensures
            r@ == self.days_off_list(),
    {
        &self.days_off
    }

    pub fn n_days_off(&self) -> (r: usize)
        ensures
            r == self.days_off_list().len(),
    {
        self.days_off.len()
    }

    /// The first row of the table, as an exec value.
    fn first_row_exec(&self) -> (r: Option<(Date, usize)>)
        ensures
            r == first_row(self.state()),
    {
        if self.activities.is_empty() {
            None
        } else {
            Some((self.activities.day(0).date, 0))
        }
    }

    /// The last row of the table, as an exec value.
    fn last_row_exec(&self) -> (r: Option<(Date, usize)>)
        requires
            self.wf(),
        ensures
            r == last_row(self.state()),
    {
        let n = self.activities.n_days();
        if n == 0 {
            None
        } else {
            let e = self.activities.day(n - 1);
            Some((e.date, e.acts.len() - 1))
        }
    }

    /// The position of day `date`, with its `day_idx` meaning established.
    fn day_idx_exec(&self, date: Date) -> (r: Option<usize>)
        requires
            self.wf(),
        ensures
            match r {
                Some(i) => day_idx(self.state(), date) == Some(i as int) && i < self.state().len()
                    && self.state()[i as int].date == date,
                None => day_idx(self.state(), date) is None,
            },
    {
        let r = self.activities.day_index(date);
        proof {
            match r {
                Some(i) => {
                    lemma_day_idx_at(self.state(), date, i as int);
                },
                None => {
                    lemma_day_idx_absent(self.state(), date);
                },
            }
        }
        r
    }

    /// How many days are more recent than `date`, as an exec value.
    fn days_before_exec(&self, date: Date) -> (r: usize)
        requires
            self.wf(),
        ensures
            r == days_before(self.state(), date),
            r <= self.state().len(),
    {
        let ghost s = self.state();
        let n = self.activities.n_days();
        let mut j: usize = 0;
        let mut stop = false;
        while !stop && j < n
            invariant
                j <= n,
                n == s.len(),
                s == self.state(),
                self.wf(),
                forall|k: int| 0 <= k < j ==> date_lt(date, (#[trigger] s[k]).date),
                stop ==> j < n && !date_lt(date, s[j as int].date),
            decreases n - j + (if stop { 0int } else { 1int }),
        {
            if date.before(&self.activities.day(j).date) {
                j = j + 1;
            } else {
                stop = true;
            }
        }
        proof {
            lemma_days_before_at(s, date, j as int);
        }
        j
    }

    /// Move the cursor to the next row, wrapping past the last.
    pub fn next(&mut self)
        requires
            old(self).wf(),
        ensures
            final(self).wf(),
            final(self).selection() == next_row(old(self).state(), old(self).selection()),
            final(self).state() == old(self).state(),
            final(self).past() == old(self).past(),
            final(self).future() == old(self).future(),
            final(self).clip() == old(self).clip(),
            final(self).popup() == old(self).popup(),
            final(self).days_off_list() == old(self).days_off_list(),
            final(self).id_counter() == old(self).id_counter(),
            final(self).stats_shown() == old(self).stats_shown(),
    {
        let sel = self.selected;
        match sel {
            None => {
                self.selected = self.first_row_exec();
            },
            Some((date, index)) => {
                match self.day_idx_exec(date) {
                    None => {
                        self.selected = self.first_row_exec();
                    },
                    Some(i) => {
                        let len = self.activities.day(i).acts.len();
                        assert(len > 0);
                        let nd = self.activities.n_days();
                        if index < len - 1 {
                            self.selected = Some((date, index + 1));
                        } else if i < nd - 1 {
                            let d2 = self.activities.day(i + 1).date;
                            self.selected = Some((d2, 0));
                            proof {
                                lemma_day_idx_at2(self.state(), d2, i + 1);
                            }
                        } else {
                            self.selected = self.first_row_exec();
                        }
                    },
                }
            },
        }
        proof {
            self.lemma_nav_sel_ok();
        }
    }

    /// Move the cursor to the previous row, wrapping past the first.
    pub fn previous(&mut self)
        requires
            old(self).wf(),
        ensures
            final(self).wf(),
            final(self).selection() == prev_row(old(self).state(), old(self).selection()),
            final(self).state() == old(self).state(),
            final(self).past() == old(self).past(),
            final(self).future() == old(self).future(),
            final(self).clip() == old(self).clip(),
            final(self).popup() == old(self).popup(),
            final(self).days_off_list() == old(self).days_off_list(),
            final(self).id_counter() == old(self).id_counter(),
            final(self).stats_shown() == old(self).stats_shown(),
    {
        let sel = self.selected;
        match sel {
            None => {
                self.selected = self.last_row_exec();
            },
            Some((date, index)) => {
                if index > 0 {
                    self.selected = Some((date, index - 1));
                } else {
                    let m = self.days_before_exec(date);
                    if m > 0 {
                        let e = self.activities.day(m - 1);
                        let d2 = e.date;
                        self.selected = Some((d2, e.acts.len() - 1));
                        proof {
                            lemma_day_idx_at2(self.state(), d2, m - 1);
                        }
                    } else {
                        self.selected = self.last_row_exec();
                    }
                }
            },
        }
        proof {
            self.lemma_nav_sel_ok();
        }
    }

    /// Jump to the very first row.
    pub fn select_first(&mut self)
        requires
            old(self).wf(),
        ensures
            final(self).wf(),
            final(self).selection() == first_row(old(self).state()),
            final(self).state() == old(self).state(),
            final(self).past() == old(self).past(),
            final(self).future() == old(self).future(),
            final(self).clip() == old(self).clip(),
            final(self).popup() == old(self).popup(),
            final(self).days_off_list() == old(self).days_off_list(),
            final(self).id_counter() == old(self).id_counter(),
            final(self).stats_shown() == old(self).stats_shown(),
    {
        self.selected = self.first_row_exec();
        proof {
            self.lemma_nav_sel_ok();
        }
    }

    /// Jump to the very last row.
    pub fn select_last(&mut self)
        requires
            old(self).wf(),
        ensures
            final(self).wf(),
            final(self).selection() == last_row(old(self).state()),
            final(self).state() == old(self).state(),
            final(self).past() == old(self).past(),
            final(self).future() == old(self).future(),
            final(self).clip() == old(self).clip(),
            final(self).popup() == old(self).popup(),
            final(self).days_off_list() == old(self).days_off_list(),
            final(self).id_counter() == old(self).id_counter(),
            final(self).stats_shown() == old(self).stats_shown(),
    {
        self.selected = self.last_row_exec();
        proof {
            self.lemma_nav_sel_ok();
        }
    }

    /// Any cursor produced by the navigation spec functions names a real
    /// row of a well-formed store.
    proof fn lemma_nav_sel_ok(&self)
        requires
            state_wf(self.state()),
            self.selection() == first_row(self.state()) || self.selection() == last_row(
                self.state(),
            ) || (match self.selection() {
                Some((d, k)) => match day_idx(self.state(), d) {
                    Some(i) => k < self.state()[i].acts.len(),
                    None => false,
                },
                None => true,
            }),
        ensures
            sel_ok(self.state(), self.selection()),
    {
        let s = self.state();
        if self.selection() == first_row(s) && s.len() > 0 {
            lemma_day_idx_at2(s, s[0].date, 0);
        }
        if self.selection() == last_row(s) && s.len() > 0 {
            lemma_day_idx_at2(s, s[s.len() - 1].date, s.len() - 1);
        }
    }

    /// The id of the activity under the cursor, if any.
    pub fn selected_id(&self) -> (r: Option<ActivityId>)
        requires
            self.wf(),
        ensures
            r == sel_id(self.state(), self.selection()),
    {
        match self.selected_activity() {
            Some(a) => Some(a.id),
            None => None,
        }
    }

    /// The activity under the cursor, if any.
    fn selected_activity(&self) -> (r: Option<&Activity>)
        requires
            self.wf(),
        ensures
            match r {
                Some(a) => sel_act(self.state(), self.selection()) == Some(a@),
                None => sel_act(self.state(), self.selection()) is None,
            },
            r is Some <==> sel_id(self.state(), self.selection()) is Some,
            match r {
                Some(a) => sel_id(self.state(), self.selection()) == Some(a.id),
                None => true,
            },
    {
        match self.selected {
            None => None,
            Some((date, index)) => {
                match self.day_idx_exec(date) {
                    None => None,
                    Some(i) => {
                        let e = self.activities.day(i);
                        if index < e.acts.len() {
                            Some(e.acts.get(index))
                        } else {
                            None
                        }
                    },
                }
            },
        }
    }
}

impl App {
    /// Bring the cursor back onto a real row after a mutation.
    fn fix_selection(&mut self)
        requires
            old(self).activities.wf(),
        ensures
            final(self).selection() == revalidate(old(self).state(), old(self).selection()),
            sel_ok(final(self).state(), final(self).selection()),
            final(self).state() == old(self).state(),
            final(self).activities == old(self).activities,
            final(self).history == old(self).history,
            final(self).clipboard == old(self).clipboard,
            final(self).pop_up == old(self).pop_up,
            final(self).days_off == old(self).days_off,
            final(self).next_id == old(self).next_id,
            final(self).show_stats == old(self).show_stats,
    {
        let ghost s = self.state();
        let sel = self.selected;
        match sel {
            None => {},
            Some((date, index)) => {
                if self.activities.is_empty() {
                    self.selected = None;
                } else {
                    match self.day_idx_exec2(date) {
                        Some(i) => {
                            let len = self.activities.day(i).acts.len();
                            assert(len > 0);
                            if index < len {
                            } else {
                                self.selected = Some((date, len - 1));
                            }
                        },
                        None => {
                            let m = self.days_before_exec2(date);
                            let nd = self.activities.n_days();
                            if m < nd {
                                let d2 = self.activities.day(m).date;
                                self.selected = Some((d2, 0));
                                proof {
                                    lemma_day_idx_at2(s, d2, m as int);
                                }
                            } else {
                                let e = self.activities.day(nd - 1);
                                self.selected = Some((e.date, e.acts.len() - 1));
                                proof {
                                    lemma_day_idx_at2(s, s[s.len() - 1].date, s.len() - 1);
                                }
                            }
                        },
                    }
                }
            },
        }
    }

    /// As `day_idx_exec`, but asking only for a well-formed store.
    fn day_idx_exec2(&self, date: Date) -> (r: Option<usize>)
        requires
            self.activities.wf(),
        ensures
            match r {
                Some(i) => day_idx(self.state(), date) == Some(i as int) && i < self.state().len()
                    && self.state()[i as int].date == date,
                None => day_idx(self.state(), date) is None,
            },
    {
        let r = self.activities.day_index(date);
        proof {
            match r {
                Some(i) => {
                    lemma_day_idx_at(self.state(), date, i as int);
                },
                None => {
                    lemma_day_idx_absent(self.state(), date);
                },
            }
        }
        r
    }

    /// As `days_before_exec`, but asking only for a well-formed store.
    fn days_before_exec2(&self, date: Date) -> (r: usize)
        requires
            self.activities.wf(),
        ensures
            r == days_before(self.state(), date),
            r <= self.state().len(),
    {
        let ghost s = self.state();
        let n = self.activities.n_days();
        let mut j: usize = 0;
        let mut stop = false;
        while !stop && j < n
            invariant
                j <= n,
                n == s.len(),
                s == self.state(),
                self.activities.wf(),
                forall|k: int| 0 <= k < j ==> date_lt(date, (#[trigger] s[k]).date),
                stop ==> j < n && !date_lt(date, s[j as int].date),
            decreases n - j + (if stop { 0int } else { 1int }),
        {
            if date.before(&self.activities.day(j).date) {
                j = j + 1;
            } else {
                stop = true;
            }
        }
        proof {
            lemma_days_before_at(s, date, j as int);
        }
        j
    }

    /// Apply a submitted activity to the store and record the action: a
    /// fresh id is an add, a known id an edit carrying the displaced
    /// record.  The redo trail is discarded and the cursor re-validated.
    fn add_activity(&mut self, a: Activity)
        requires
            old(self).wf(),
        ensures
            final(self).wf(),
            final(self).state() == state_add(old(self).state(), a@),
            final(self).past() == old(self).past().push(
                match state_find_id(old(self).state(), a.id) {
                    Some(p) => crate::history::ActionView::Edit { prev: p },
                    None => crate::history::ActionView::AddActivity(a@),
                },
            ),
            final(self).future().len() == 0,
            final(self).selection() == revalidate(
                state_add(old(self).state(), a@),
                old(self).selection(),
            ),
            final(self).clip() == old(self).clip(),
            final(self).popup() == old(self).popup(),
            final(self).days_off_list() == old(self).days_off_list(),
            final(self).id_counter() == old(self).id_counter(),
            final(self).stats_shown() == old(self).stats_shown(),
    {
        let ghost s0 = self.state();
        let ghost p0 = self.past();
        let ghost av = match state_find_id(s0, a@.id) {
            Some(p) => crate::history::ActionView::Edit { prev: p },
            None => crate::history::ActionView::AddActivity(a@),
        };
        proof {
            crate::laws::lemma_command_round_trip(s0, crate::laws::CommandView::Put(a@));
        }
        proof {
            crate::state::lemma_state_find_id_spec(s0, a@.id);
        }
        let prev = self.activities.add(a.clone());
        match prev {
            Some(p) => {
                proof {
                    assert(state_find_id(s0, a@.id) == Some(p@));
                    assert(av == crate::history::ActionView::Edit { prev: p@ });
                }
                self.history.frwd(Action::Edit { prev: p });
            },
            None => {
                proof {
                    assert(!state_has_id(s0, a@.id));
                    assert(av == crate::history::ActionView::AddActivity(a@));
                }
                self.history.frwd(Action::AddActivity(a));
            },
        }
        proof {
            assert(self.past() =~= p0.push(av));
            let pnew = p0.push(av);
            assert(pnew.last() == av);
            assert(pnew.drop_last() =~= p0);
            assert(crate::laws::command_action(s0, crate::laws::CommandView::Put(a@)) == Some(av));
            assert(crate::history::spec_undo(av, self.state()) == s0);
            assert(past_coherent(pnew, self.state()));
        }
        self.fix_selection();
    }

    /// Delete the activity under the cursor: it moves to the clipboard, the
    /// deletion is recorded, the redo trail is discarded, and the cursor
    /// moves to a valid adjacent row (or to nothing when the store empties).
    pub fn delete_activity(&mut self)
        requires
            old(self).wf(),
        ensures
            final(self).wf(),
            match old(self).selection() {
                None => {
                    &&& final(self).state() == old(self).state()
                    &&& final(self).past() == old(self).past()
                    &&& final(self).future() == old(self).future()
                    &&& final(self).selection() == old(self).selection()
                    &&& final(self).clip() == old(self).clip()
                },
                Some((d, k)) => match state_at(old(self).state(), d, k as int) {
                    Some(v) => {
                        &&& final(self).state() == state_remove_at(old(self).state(), d, k as int)
                        &&& final(self).past() == old(self).past().push(
                            crate::history::ActionView::DeleteActivity(v),
                        )
                        &&& final(self).future().len() == 0
                        &&& final(self).clip() == Some(v)
                        &&& final(self).selection() == after_delete_row(
                            state_remove_at(old(self).state(), d, k as int),
                            d,
                            k,
                        )
                        &&& (final(self).state().len() == 0 ==> final(self).selection() is None)
                    },
                    None => {
                    &&& final(self).state() == old(self).state()
                    &&& final(self).past() == old(self).past()
                    &&& final(self).future() == old(self).future()
                    &&& final(self).selection() == old(self).selection()
                    &&& final(self).clip() == old(self).clip()
                },
                },
            },
            final(self).popup() == old(self).popup(),
            final(self).days_off_list() == old(self).days_off_list(),
            final(self).id_counter() == old(self).id_counter(),
            final(self).stats_shown() == old(self).stats_shown(),
    {
        let ghost s0 = self.state();
        let sel = self.selected;
        match sel {
            None => {},
            Some((date, index)) => {
                proof {
                    crate::laws::lemma_command_round_trip(
                        s0,
                        crate::laws::CommandView::Delete(date, index as int),
                    );
                }
                let ghost p0 = self.past();
                let removed = self.activities.remove(date, index);
                match removed {
                    Some(act) => {
                        let ghost av = crate::history::ActionView::DeleteActivity(act@);
                        self.clipboard = Some(act.clone());
                        self.history.frwd(Action::DeleteActivity(act));
                        proof {
                            assert(self.past() =~= p0.push(av));
                            let pnew = p0.push(av);
                            assert(pnew.last() == av);
                            assert(pnew.drop_last() =~= p0);
                            assert(crate::laws::command_action(
                                s0,
                                crate::laws::CommandView::Delete(date, index as int),
                            ) == Some(av));
                            assert(crate::history::spec_undo(av, self.state()) == s0);
                            assert(past_coherent(pnew, self.state()));
                        }
                        self.fix_selection();
                    },
                    None => {},
                }
            },
        }
    }

    /// Undo the most recent recorded action; a no-op when nothing is left
    /// to undo.  The cursor is re-validated afterwards.
    pub fn undo(&mut self)
        requires
            old(self).wf(),
        ensures
            final(self).wf(),
            if old(self).past().len() == 0 {
                &&& final(self).state() == old(self).state()
                &&& final(self).past() == old(self).past()
                &&& final(self).future() == old(self).future()
                &&& final(self).selection() == old(self).selection()
            } else {
                let a = old(self).past().last();
                &&& final(self).state() == crate::history::spec_undo(a, old(self).state())
                &&& final(self).past() == old(self).past().drop_last()
                &&& final(self).future() == old(self).future().push(
                    crate::history::spec_undo_swap(a, old(self).state()),
                )
                &&& final(self).selection() == revalidate(
                    crate::history::spec_undo(a, old(self).state()),
                    old(self).selection(),
                )
            },
            final(self).clip() == old(self).clip(),
            final(self).popup() == old(self).popup(),
            final(self).days_off_list() == old(self).days_off_list(),
            final(self).id_counter() == old(self).id_counter(),
            final(self).stats_shown() == old(self).stats_shown(),
    {
        let ghost s0 = self.state();
        let ghost p0 = self.past();
        let ghost f0 = self.future();
        if self.history_past_empty() {
        } else {
            let ghost a = p0.last();
            let ghost w = crate::history::spec_undo_swap(a, s0);
            let ghost s1 = crate::history::spec_undo(a, s0);
            self.history.undo(&mut self.activities);
            proof {
                assert(past_coherent(p0.drop_last(), s1));
                assert(future_coherent(f0.push(w), s1)) by {
                    assert(f0.push(w).last() == w);
                    assert(f0.push(w).drop_last() =~= f0);
                    assert(crate::history::spec_redo(w, s1) == s0);
                    assert(crate::history::spec_redo_swap(w, s1) == a);
                    assert(future_coherent(f0, s0));
                };
            }
            self.fix_selection();
        }
    }

    /// Redo the most recently undone action; a no-op when nothing is left
    /// to redo.  The cursor is re-validated afterwards.
    pub fn redo(&mut self)
        requires
            old(self).wf(),
        ensures
            final(self).wf(),
            if old(self).future().len() == 0 {
                &&& final(self).state() == old(self).state()
                &&& final(self).past() == old(self).past()
                &&& final(self).future() == old(self).future()
                &&& final(self).selection() == old(self).selection()
            } else {
                let w = old(self).future().last();
                &&& final(self).state() == crate::history::spec_redo(w, old(self).state())
                &&& final(self).future() == old(self).future().drop_last()
                &&& final(self).past() == old(self).past().push(
                    crate::history::spec_redo_swap(w, old(self).state()),
                )
                &&& final(self).selection() == revalidate(
                    crate::history::spec_redo(w, old(self).state()),
                    old(self).selection(),
                )
            },
            final(self).clip() == old(self).clip(),
            final(self).popup() == old(self).popup(),
            final(self).days_off_list() == old(self).days_off_list(),
            final(self).id_counter() == old(self).id_counter(),
            final(self).stats_shown() == old(self).stats_shown(),
    {
        let ghost s0 = self.state();
        let ghost p0 = self.past();
        let ghost f0 = self.future();
        if self.history_future_empty() {
        } else {
            let ghost w = f0.last();
            let ghost a = crate::history::spec_redo_swap(w, s0);
            let ghost s1 = crate::history::spec_redo(w, s0);
            self.history.redo(&mut self.activities);
            proof {
                assert(future_coherent(f0.drop_last(), s1));
                assert(past_coherent(p0.push(a), s1)) by {
                    assert(p0.push(a).last() == a);
                    assert(p0.push(a).drop_last() =~= p0);
                    assert(crate::history::spec_undo(a, s1) == s0);
                    assert(crate::history::spec_undo_swap(a, s1) == w);
                    assert(past_coherent(p0, s0));
                };
            }
            self.fix_selection();
        }
    }

    /// Copy the activity under the cursor to the clipboard; reports whether
    /// anything was selected.
    pub fn yank_selected(&mut self) -> (r: bool)
        requires
            old(self).wf(),
        ensures
            final(self).wf(),
            r == (sel_act(old(self).state(), old(self).selection()) is Some),
            final(self).clip() == if r {
                sel_act(old(self).state(), old(self).selection())
            } else {
                old(self).clip()
            },
            final(self).state() == old(self).state(),
            final(self).selection() == old(self).selection(),
            final(self).past() == old(self).past(),
            final(self).future() == old(self).future(),
            final(self).popup() == old(self).popup(),
            final(self).days_off_list() == old(self).days_off_list(),
            final(self).id_counter() == old(self).id_counter(),
            final(self).stats_shown() == old(self).stats_shown(),
    {
        let selected = match self.selected_activity() {
            Some(a) => Some(a.clone()),
            None => None,
        };
        match selected {
            Some(a) => {
                self.clipboard = Some(a);
                true
            },
            None => false,
        }
    }

    /// Paste the clipboard as a new activity under a fresh id: it lands on
    /// the selected row's day right after that row's end time (keeping its
    /// own length), or exactly where it was yanked from when nothing is
    /// selected.
    pub fn paste(&mut self) -> (r: Result<(), &'static str>)
        requires
            old(self).wf(),
            old(self).ids_available(),
        ensures
            final(self).wf(),
            match old(self).clip() {
                None => {
                    &&& r == Err::<(), &'static str>("clipboard is empty")
                    &&& final(self).state() == old(self).state()
                    &&& final(self).past() == old(self).past()
                    &&& final(self).future() == old(self).future()
                    &&& final(self).selection() == old(self).selection()
                    &&& final(self).id_counter() == old(self).id_counter()
                },
                Some(c) => {
                    let v = paste_candidate(
                        c,
                        sel_act(old(self).state(), old(self).selection()),
                        ActivityId(old(self).id_counter() as u64),
                    );
                    &&& r is Ok
                    &&& final(self).state() == state_add(old(self).state(), v)
                    &&& final(self).past() == old(self).past().push(
                        match state_find_id(old(self).state(), v.id) {
                            Some(p) => crate::history::ActionView::Edit { prev: p },
                            None => crate::history::ActionView::AddActivity(v),
                        },
                    )
                    &&& final(self).future().len() == 0
                    &&& final(self).id_counter() == old(self).id_counter() + 1
                },
            },
            final(self).clip() == old(self).clip(),
            final(self).popup() == old(self).popup(),
            final(self).days_off_list() == old(self).days_off_list(),
            final(self).stats_shown() == old(self).stats_shown(),
    {
        let ghost c = match self.clip() {
            Some(c) => c,
            None => arbitrary(),
        };
        let mut to_paste = match &self.clipboard {
            Some(s) => s.clone(),
            None => {
                return Err("clipboard is empty");
            },
        };
        to_paste.id = ActivityId(self.next_id);
        self.next_id = self.next_id + 1;
        let length: Option<i32> = match &to_paste.end_time {
            Some(e) => Some(crate::datetime::minutes_between(&to_paste.start_time, e)),
            None => None,
        };
        let sel_info: Option<(Date, Option<Time>)> = match self.selected_activity() {
            Some(a) => Some((a.day, a.end_time)),
            None => None,
        };
        match sel_info {
            Some((d, et)) => {
                match et {
                    Some(e) => {
                        to_paste.start_time = e;
                    },
                    None => {},
                }
                to_paste.day = d;
            },
            None => {},
        }
        to_paste.end_time = match length {
            Some(l) => Some(crate::datetime::add_minutes_wrapping(&to_paste.start_time, l)),
            None => None,
        };
        proof {
            assert(to_paste@ =~= paste_candidate(
                c,
                sel_act(self.state(), self.selection()),
                ActivityId((self.id_counter() - 1) as u64),
            ));
        }
        self.add_activity(to_paste);
        Ok(())
    }

    /// Open the editor on a blank activity carrying a fresh id.
    pub fn create_new_activity(&mut self)
        requires
            old(self).wf(),
            old(self).ids_available(),
        ensures
            final(self).wf(),
            match final(self).popup() {
                Some(p) => match p {
                    PopUp::EditingActivity(b) => {
                        &&& b.id == ActivityId(old(self).id_counter() as u64)
                        &&& b.last_time == (match sel_act(old(self).state(), old(self).selection()) {
                            Some(sa) => sa.end_time,
                            None => None,
                        })
                        &&& b.action@.len() == 0
                        &&& b.issue@.len() == 0
                        &&& b.start_time@.len() == 0
                        &&& b.end_time@.len() == 0
                        &&& b.day@.len() == 0
                        &&& b.selected is Issue
                        &&& b.editing
                    },
                    _ => false,
                },
                None => false,
            },
            final(self).id_counter() == old(self).id_counter() + 1,
            final(self).state() == old(self).state(),
            final(self).selection() == old(self).selection(),
            final(self).past() == old(self).past(),
            final(self).future() == old(self).future(),
            final(self).clip() == old(self).clip(),
            final(self).days_off_list() == old(self).days_off_list(),
            final(self).stats_shown() == old(self).stats_shown(),
    {
        let last_time = match self.selected_activity() {
            Some(a) => a.end_time,
            None => None,
        };
        let id = ActivityId(self.next_id);
        self.next_id = self.next_id + 1;
        self.pop_up = Some(PopUp::EditingActivity(ActivityBeingBuilt::new(id, last_time)));
    }

    /// Open the editor pre-filled with the activity under the cursor, so
    /// that submitting edits the same record; the row above supplies the
    /// value the word `last` stands for.
    pub fn edit_activity(&mut self)
        requires
            old(self).wf(),
        ensures
            final(self).wf(),
            match sel_act(old(self).state(), old(self).selection()) {
                None => final(self).popup() == old(self).popup(),
                Some(act) => match final(self).popup() {
                    Some(p) => match p {
                        PopUp::EditingActivity(b) => {
                            &&& b.id == act.id
                            &&& (match old(self).selection() {
                                Some((d, k)) => match day_idx(old(self).state(), d) {
                                    Some(i) => b.last_time == old(self).state()[i].acts[if k == 0 {
                                        0int
                                    } else {
                                        k - 1
                                    }].end_time,
                                    None => true,
                                },
                                None => true,
                            })
                            &&& b.action@ == act.action
                            &&& b.issue@ == act.issue
                            &&& b.start_time@ == crate::text::spec_fmt_time(act.start_time)
                            &&& b.end_time@ == (match act.end_time {
                                Some(t) => crate::text::spec_fmt_time(t),
                                None => Seq::<char>::empty(),
                            })
                            &&& b.day@ == crate::text::spec_fmt_date(act.day)
                            &&& b.selected is Action
                            &&& b.editing
                        },
                        _ => false,
                    },
                    None => false,
                },
            },
            final(self).state() == old(self).state(),
            final(self).selection() == old(self).selection(),
            final(self).past() == old(self).past(),
            final(self).future() == old(self).future(),
            final(self).clip() == old(self).clip(),
            final(self).id_counter() == old(self).id_counter(),
            final(self).days_off_list() == old(self).days_off_list(),
            final(self).stats_shown() == old(self).stats_shown(),
    {
        let sel = self.selected;
        match sel {
            None => {},
            Some((date, index)) => {
                match self.day_idx_exec(date) {
                    None => {},
                    Some(i) => {
                        let e = self.activities.day(i);
                        if index < e.acts.len() {
                            let act = e.acts.get(index);
                            let prev_index = if index == 0 {
                                0
                            } else {
                                index - 1
                            };
                            let last_time = match e.acts.get(prev_index).end_time {
                                Some(t) => Some(t),
                                None => None,
                            };
                            let b = ActivityBeingBuilt::from_activity(act, last_time);
                            self.pop_up = Some(PopUp::EditingActivity(b));
                        }
                    },
                }
            },
        }
    }

    /// Open the configuration editor over a prepared draft.
    pub fn edit_config(&mut self, draft: ConfigBeingBuilt)
        requires
            old(self).wf(),
        ensures
            final(self).wf(),
            final(self).popup() == Some(PopUp::EditingConfig(draft)),
            final(self).state() == old(self).state(),
            final(self).selection() == old(self).selection(),
            final(self).past() == old(self).past(),
            final(self).future() == old(self).future(),
            final(self).clip() == old(self).clip(),
            final(self).id_counter() == old(self).id_counter(),
            final(self).days_off_list() == old(self).days_off_list(),
            final(self).stats_shown() == old(self).stats_shown(),
    {
        self.pop_up = Some(PopUp::EditingConfig(draft));
    }

    /// Whether an editing pop-up is open and in typing mode.
    pub fn editing(&self) -> (r: bool)
        ensures
            r == match self.popup() {
                Some(p) => match p {
                    PopUp::EditingActivity(b) => b.editing,
                    PopUp::EditingConfig(b) => b.editing,
                    _ => false,
                },
                None => false,
            },
    {
        match &self.pop_up {
            Some(PopUp::EditingActivity(a)) => a.is_editing(),
            Some(PopUp::EditingConfig(c)) => c.is_editing(),
            _ => false,
        }
    }

    /// Read access to the open pop-up.
    pub fn pop_up(&self) -> (r: &Option<PopUp>)
        ensures
            *r == self.popup(),
    {
        &self.pop_up
    }

    /// Write access to the open pop-up, for the input layer to type into.
    pub fn pop_up_mut(&mut self) -> (r: &mut Option<PopUp>)
        ensures
            *r == old(self).popup(),
            final(self).popup() == *final(r),
            old(self).wf() ==> final(self).wf(),
            final(self).state() == old(self).state(),
            final(self).selection() == old(self).selection(),
            final(self).past() == old(self).past(),
            final(self).future() == old(self).future(),
            final(self).clip() == old(self).clip(),
            final(self).id_counter() == old(self).id_counter(),
            final(self).days_off_list() == old(self).days_off_list(),
            final(self).stats_shown() == old(self).stats_shown(),
    {
        &mut self.pop_up
    }

    /// Abandon the pending edit, if any; nothing else changes.
    pub fn cancel_edit(&mut self)
        requires
            old(self).wf(),
        ensures
            final(self).wf(),
            final(self).popup() is None,
            final(self).state() == old(self).state(),
            final(self).selection() == old(self).selection(),
            final(self).past() == old(self).past(),
            final(self).future() == old(self).future(),
            final(self).clip() == old(self).clip(),
            final(self).id_counter() == old(self).id_counter(),
            final(self).days_off_list() == old(self).days_off_list(),
            final(self).stats_shown() == old(self).stats_shown(),
    {
        self.pop_up = None;
    }

    pub fn toggle_stats(&mut self)
        requires
            old(self).wf(),
        ensures
            final(self).wf(),
            final(self).stats_shown() == !old(self).stats_shown(),
            final(self).state() == old(self).state(),
            final(self).selection() == old(self).selection(),
            final(self).past() == old(self).past(),
            final(self).future() == old(self).future(),
            final(self).clip() == old(self).clip(),
            final(self).popup() == old(self).popup(),
            final(self).id_counter() == old(self).id_counter(),
            final(self).days_off_list() == old(self).days_off_list(),
    {
        self.show_stats = !self.show_stats;
    }

    pub fn show_stats(&self) -> (r: bool)
        ensures
            r == self.stats_shown(),
    {
        self.show_stats
    }

    /// Open the days-off pop-up.
    pub fn show_days_off(&mut self)
        requires
            old(self).wf(),
        ensures
            final(self).wf(),
            final(self).popup() == Some(PopUp::DaysOff { selected: 0usize, new_day_off: None }),
            final(self).state() == old(self).state(),
            final(self).selection() == old(self).selection(),
            final(self).past() == old(self).past(),
            final(self).future() == old(self).future(),
            final(self).clip() == old(self).clip(),
            final(self).id_counter() == old(self).id_counter(),
            final(self).days_off_list() == old(self).days_off_list(),
            final(self).stats_shown() == old(self).stats_shown(),
    {
        self.pop_up = Some(PopUp::DaysOff { selected: 0, new_day_off: None });
    }

    /// Close the days-off pop-up if it is the one open.
    pub fn hide_days_off(&mut self)
        requires
            old(self).wf(),
        ensures
            final(self).wf(),
            final(self).popup() == match old(self).popup() {
                Some(p) => match p {
                    PopUp::DaysOff { .. } => None::<PopUp>,
                    _ => old(self).popup(),
                },
                None => None::<PopUp>,
            },
            final(self).state() == old(self).state(),
            final(self).selection() == old(self).selection(),
            final(self).past() == old(self).past(),
            final(self).future() == old(self).future(),
            final(self).clip() == old(self).clip(),
            final(self).id_counter() == old(self).id_counter(),
            final(self).days_off_list() == old(self).days_off_list(),
            final(self).stats_shown() == old(self).stats_shown(),
    {
        match &self.pop_up {
            Some(PopUp::DaysOff { .. }) => {
                self.pop_up = None;
            },
            _ => {},
        }
    }

    /// Take a day off: refused on a day with logged work and on weekends.
    pub fn add_day_off(&mut self, date: Date) -> (r: Result<(), &'static str>)
        requires
            old(self).wf(),
            date.wf(),
        ensures
            final(self).wf(),
            if day_idx(old(self).state(), date) is Some {
                &&& r == Err::<(), &'static str>("you worked that day, can't take it off")
                &&& final(self).days_off_list() == old(self).days_off_list()
            } else if crate::datetime::spec_is_weekend(date) {
                &&& r == Err::<(), &'static str>("can't take weekends off")
                &&& final(self).days_off_list() == old(self).days_off_list()
            } else {
                &&& r is Ok
                &&& final(self).days_off_list() == day_off_insert(old(self).days_off_list(), date)
            },
            final(self).state() == old(self).state(),
            final(self).selection() == old(self).selection(),
            final(self).past() == old(self).past(),
            final(self).future() == old(self).future(),
            final(self).clip() == old(self).clip(),
            final(self).popup() == old(self).popup(),
            final(self).id_counter() == old(self).id_counter(),
            final(self).stats_shown() == old(self).stats_shown(),
    {
        let worked = match self.day_idx_exec(date) {
            Some(_) => true,
            None => false,
        };
        if worked {
            Err("you worked that day, can't take it off")
        } else if crate::datetime::is_weekend(&date) {
            Err("can't take weekends off")
        } else {
            let _ = insert_day_off_sorted(&mut self.days_off, date);
            Ok(())
        }
    }

    /// Submit the open editor.  An activity draft is parsed against the
    /// caller's clock and calendar and applied to the store; on a parse
    /// failure the message is returned and the pop-up stays open for
    /// correction, with nothing mutated.  A configuration draft is the
    /// caller's to parse (its fields are not this crate's); any other
    /// pop-up is simply closed.
    pub fn submit(&mut self, now: Time, today: Date) -> (r: Result<(), &'static str>)
        requires
            old(self).wf(),
            now.wf(),
            today.wf(),
        ensures
            final(self).wf(),
            final(self).clip() == old(self).clip(),
            final(self).days_off_list() == old(self).days_off_list(),
            final(self).id_counter() == old(self).id_counter(),
            final(self).stats_shown() == old(self).stats_shown(),
            match old(self).popup() {
                Some(p) => match p {
                    PopUp::EditingActivity(b) => match crate::editor::spec_to_activity(
                        b.action@,
                        b.issue@,
                        b.id,
                        b.start_time@,
                        b.end_time@,
                        b.day@,
                        b.last_time,
                        now,
                        today,
                    ) {
                        Ok(v) => {
                            &&& r is Ok
                            &&& final(self).popup() is None
                            &&& final(self).state() == state_add(old(self).state(), v)
                            &&& final(self).past() == old(self).past().push(
                                match state_find_id(old(self).state(), v.id) {
                                    Some(pv) => crate::history::ActionView::Edit { prev: pv },
                                    None => crate::history::ActionView::AddActivity(v),
                                },
                            )
                            &&& final(self).future().len() == 0
                            &&& final(self).selection() == revalidate(
                                state_add(old(self).state(), v),
                                old(self).selection(),
                            )
                        },
                        Err(m) => {
                            &&& r matches Err(e) && e@ == m
                            &&& final(self).popup() == old(self).popup()
                            &&& final(self).state() == old(self).state()
                            &&& final(self).past() == old(self).past()
                            &&& final(self).future() == old(self).future()
                            &&& final(self).selection() == old(self).selection()
                        },
                    },
                    PopUp::EditingConfig(_) => {
                        &&& r is Ok
                        &&& final(self).popup() == old(self).popup()
                        &&& final(self).state() == old(self).state()
                        &&& final(self).past() == old(self).past()
                        &&& final(self).future() == old(self).future()
                        &&& final(self).selection() == old(self).selection()
                    },
                    PopUp::DaysOff { .. } => {
                        &&& r is Ok
                        &&& final(self).popup() is None
                        &&& final(self).state() == old(self).state()
                        &&& final(self).past() == old(self).past()
                        &&& final(self).future() == old(self).future()
                        &&& final(self).selection() == old(self).selection()
                    },
                },
                None => {
                    &&& r is Ok
                    &&& final(self).popup() is None
                    &&& final(self).state() == old(self).state()
                    &&& final(self).past() == old(self).past()
                    &&& final(self).future() == old(self).future()
                    &&& final(self).selection() == old(self).selection()
                },
            },
    {
        let outcome: Option<Result<Activity, &'static str>> = match &self.pop_up {
            Some(PopUp::EditingActivity(b)) => Some(b.to_activity(now, today)),
            _ => None,
        };
        match outcome {
            Some(parsed) => {
                match parsed {
                    Ok(a) => {
                        self.add_activity(a);
                        self.pop_up = None;
                        Ok(())
                    },
                    Err(m) => Err(m),
                }
            },
            None => {
                match &self.pop_up {
                    Some(PopUp::EditingConfig(_)) => Ok(()),
                    _ => {
                        self.pop_up = None;
                        Ok(())
                    },
                }
            },
        }
    }

    /// Submit the date typed into the days-off pop-up: parse it, take the
    /// day off, and blank the entry field.  On failure the message is
    /// returned and nothing is mutated.
    pub fn submit_new_day_off(&mut self, today: Date) -> (r: Result<(), &'static str>)
        requires
            old(self).wf(),
            today.wf(),
        ensures
            final(self).wf(),
            final(self).state() == old(self).state(),
            final(self).past() == old(self).past(),
            final(self).future() == old(self).future(),
            final(self).selection() == old(self).selection(),
            final(self).clip() == old(self).clip(),
            final(self).id_counter() == old(self).id_counter(),
            final(self).stats_shown() == old(self).stats_shown(),
            match old(self).popup() {
                Some(p) => match p {
                    PopUp::DaysOff { selected, new_day_off } => match new_day_off {
                        Some(d) => match crate::editor::spec_parse_day(d@, today) {
                            Err(m) => r matches Err(e) && e@ == m && final(self).days_off_list()
                                == old(self).days_off_list() && final(self).popup() == old(
                                self,
                            ).popup(),
                            Ok(date) => if day_idx(old(self).state(), date) is Some {
                                &&& r == Err::<(), &'static str>(
                                    "you worked that day, can't take it off",
                                )
                                &&& final(self).days_off_list() == old(self).days_off_list()
                                &&& final(self).popup() == old(self).popup()
                            } else if crate::datetime::spec_is_weekend(date) {
                                &&& r == Err::<(), &'static str>("can't take weekends off")
                                &&& final(self).days_off_list() == old(self).days_off_list()
                                &&& final(self).popup() == old(self).popup()
                            } else {
                                &&& r is Ok
                                &&& final(self).days_off_list() == day_off_insert(
                                    old(self).days_off_list(),
                                    date,
                                )
                                &&& final(self).popup() == Some(
                                    PopUp::DaysOff { selected, new_day_off: None },
                                )
                            },
                        },
                        None => r is Ok && final(self).days_off_list() == old(
                            self,
                        ).days_off_list() && final(self).popup() == old(self).popup(),
                    },
                    _ => r is Ok && final(self).days_off_list() == old(self).days_off_list()
                        && final(self).popup() == old(self).popup(),
                },
                None => r is Ok && final(self).days_off_list() == old(self).days_off_list()
                    && final(self).popup() == old(self).popup(),
            },
    {
        let info: Option<(usize, String)> = match &self.pop_up {
            Some(PopUp::DaysOff { selected, new_day_off: Some(d) }) => Some((*selected, d.clone())),
            _ => None,
        };
        match info {
            None => Ok(()),
            Some((selected, d)) => {
                let date = match crate::editor::parse_day(d.as_str(), today) {
                    Ok(x) => x,
                    Err(m) => {
                        return Err(m);
                    },
                };
                match self.add_day_off(date) {
                    Ok(_) => {},
                    Err(m) => {
                        return Err(m);
                    },
                }
                self.pop_up = Some(PopUp::DaysOff { selected, new_day_off: None });
                Ok(())
            },
        }
    }

    /// How many week days lie between the oldest and the most recent
    /// logged day, both included.  A single logged day counts as one
    /// whatever day of the week it is.
    pub fn n_workdays_so_far(&self) -> (r: u16)
        requires
            self.wf(),
            self.state().len() > 1 ==> {
                let newest = self.state()[0].date;
                let oldest = self.state()[self.state().len() - 1].date;
                &&& newest.wf()
                &&& oldest.wf()
                &&& newest.year <= 9998
                &&& crate::datetime::date_scalar(newest) - crate::datetime::date_scalar(oldest)
                    < 65535
            },
        ensures
            r == if self.state().len() == 0 {
                0int
            } else if self.state().len() == 1 {
                1int
            } else {
                crate::datetime::spec_workdays(
                    self.state()[self.state().len() - 1].date,
                    self.state()[0].date,
                )
            },
    {
        let n = self.activities.n_days();
        if n == 0 {
            return 0;
        }
        if n == 1 {
            return 1;
        }
        let last = self.activities.day(0).date;
        let mut first = self.activities.day(n - 1).date;
        let ghost total = crate::datetime::spec_workdays(first, last);
        let ghost oldest = first;
        proof {
            crate::datetime::lemma_workdays_bounds(first, last);
        }
        let mut counter: u16 = 0;
        while !last.before(&first)
            invariant
                first.wf(),
                last.wf(),
                last.year <= 9998,
                crate::datetime::date_scalar(last) - crate::datetime::date_scalar(oldest) < 65535,
                crate::datetime::date_scalar(oldest) <= crate::datetime::date_scalar(first),
                counter + crate::datetime::spec_workdays(first, last) == total,
                total <= 65535,
            decreases (if crate::datetime::date_le(first, last) {
                crate::datetime::date_scalar(last) - crate::datetime::date_scalar(first) + 1
            } else {
                0int
            }),
        {
            let ghost before_step = first;
            proof {
                crate::datetime::lemma_workdays_bounds(first, last);
                crate::datetime::lemma_workdays_bounds(
                    crate::datetime::spec_next_day(first),
                    last,
                );
                assert(crate::datetime::spec_workdays(before_step, last) == (
                if crate::datetime::spec_is_weekend(before_step) {
                    0int
                } else {
                    1int
                }) + crate::datetime::spec_workdays(
                    crate::datetime::spec_next_day(before_step),
                    last,
                ));
                assert(crate::datetime::spec_days_in_month(
                    before_step.year as int,
                    before_step.month as int,
                ) <= 31);
                assert(crate::datetime::date_scalar(crate::datetime::spec_next_day(before_step))
                    > crate::datetime::date_scalar(before_step));
            }
            if !crate::datetime::is_weekend(&first) {
                counter = counter + 1;
            }
            first = match crate::datetime::next_day(&first) {
                Some(d) => d,
                // the walk cannot reach the calendar's end: the most recent
                // day is older than the calendar's last year
                None => unreached(),
            };
        }
        proof {
            assert(crate::datetime::spec_workdays(first, last) == 0);
        }
        counter
    }

    /// Total logged minutes on the selected activity's issue, `None` when
    /// nothing is selected.  As rows are scanned oldest-last, a finished
    /// row of the issue adds its length and an unfinished one drops the
    /// total gathered so far.
    pub fn selected_issue_total_time(&self) -> (r: Option<i64>)
        requires
            self.wf(),
            crate::state::state_count(self.state()) <= 0x1000_0000,
        ensures
            (match r {
                Some(a) => Some(a as int),
                None => None::<int>,
            }) == match sel_act(self.state(), self.selection()) {
                Some(sa) => issue_fold(crate::state::flatten_state(self.state()), sa.issue),
                None => None::<int>,
            },
    {
        let issue: String = match self.selected_activity() {
            Some(a) => a.issue.clone(),
            None => {
                return None;
            },
        };
        let ghost s = self.state();
        let ghost iss = issue@;
        proof {
            crate::state::lemma_flatten_len(s);
        }
        let mut acc: Option<i64> = None;
        let n = self.activities.n_days();
        let mut i: usize = 0;
        while i < n
            invariant
                i <= n,
                n == s.len(),
                s == self.state(),
                self.wf(),
                iss == issue@,
                crate::state::state_count(s) <= 0x1000_0000,
                crate::state::flatten_state(s).len() == crate::state::state_count(s),
                crate::state::flatten_state(s.take(i as int)).len() <= crate::state::state_count(
                    s,
                ),
                acc == match issue_fold(crate::state::flatten_state(s.take(i as int)), iss) {
                    Some(a) => Some(a as i64),
                    None => None::<i64>,
                },
            decreases n - i,
        {
            let ghost done = crate::state::flatten_state(s.take(i as int));
            proof {
                crate::state::lemma_flatten_take(s, i as int);
                crate::state::lemma_flatten_take_le(s, i + 1);
                lemma_issue_fold_bound(done, iss);
            }
            let day = self.activities.day(i);
            let m = day.acts.len();
            let mut j: usize = 0;
            while j < m
                invariant
                    j <= m,
                    i < n,
                    n == s.len(),
                    s == self.state(),
                    self.wf(),
                    iss == issue@,
                    crate::state::state_count(s) <= 0x1000_0000,
                    day@ == s[i as int],
                    m == s[i as int].acts.len(),
                    done == crate::state::flatten_state(s.take(i as int)),
                    done.len() + m <= crate::state::state_count(s),
                    acc == match issue_fold(done + s[i as int].acts.take(j as int), iss) {
                        Some(a) => Some(a as i64),
                        None => None::<i64>,
                    },
                decreases m - j,
            {
                let ghost part = done + s[i as int].acts.take(j as int);
                proof {
                    assert((done + s[i as int].acts.take(j + 1)).drop_last() =~= part);
                    assert((done + s[i as int].acts.take(j + 1)).last() == s[i as int].acts[j as int]);
                    lemma_issue_fold_bound(part, iss);
                    assert(part.len() <= crate::state::state_count(s));
                }
                let x = day.acts.get(j);
                if x.issue == issue {
                    match &x.end_time {
                        Some(e) => {
                            let d = crate::datetime::minutes_between(&x.start_time, e) as i64;
                            acc = match acc {
                                Some(a) => Some(a + d),
                                None => Some(d),
                            };
                        },
                        None => {
                            acc = None;
                        },
                    }
                }
                j = j + 1;
            }
            proof {
                assert(s[i as int].acts.take(m as int) =~= s[i as int].acts);
                assert(done + s[i as int].acts == crate::state::flatten_state(s.take(i + 1)));
                crate::state::lemma_flatten_len(s);
                assert(crate::state::flatten_state(s.take(i + 1)).len()
                    <= crate::state::flatten_state(s).len()) by {
                    crate::state::lemma_flatten_take_le(s, i + 1);
                };
            }
            i = i + 1;
        }
        proof {
            assert(s.take(n as int) =~= s);
            crate::state::lemma_flatten_len(s);
            lemma_issue_fold_bound(crate::state::flatten_state(s), iss);
        }
        acc
    }

    /// How many listed days off fall on or before `today`.
    pub fn n_days_off_up_to_today(&self, today: Date) -> (r: u16)
        requires
            self.days_off_list().len() <= u16::MAX,
        ensures
            r == count_dates_le(self.days_off_list(), today),
    {
        let ghost s = self.days_off_list();
        let n = self.days_off.len();
        let mut cnt: u16 = 0;
        let mut i: usize = 0;
        while i < n
            invariant
                i <= n,
                n == s.len(),
                n <= u16::MAX,
                s == self.days_off_list(),
                cnt <= i,
                cnt == count_dates_le(s.take(i as int), today),
            decreases n - i,
        {
            let d = self.days_off[i];
            proof {
                assert(s.take(i + 1).drop_last() =~= s.take(i as int));
                assert(s.take(i + 1).last() == d);
                lemma_count_dates_le_bound(s.take(i + 1), today);
            }
            if !today.before(&d) {
                cnt = cnt + 1;
            }
            i = i + 1;
        }
        proof {
            assert(s.take(n as int) =~= s);
        }
        cnt
    }

    fn history_past_empty(&self) -> (r: bool)
        ensures
            r == (self.past().len() == 0),
    {
        self.history.past_len() == 0
    }

    fn history_future_empty(&self) -> (r: bool)
        ensures
            r == (self.future().len() == 0),
    {
        self.history.future_len() == 0
    }
}

/// One activity against the running total of an issue: rows of other
/// issues pass by, a finished row of the issue adds its length, and an
/// unfinished row of the issue drops the total gathered so far.
pub open spec fn issue_step(acc: Option<int>, x: ActivityView, issue: Seq<char>) -> Option<int> {
    if x.issue != issue {
        acc
    } else {
        match x.end_time {
            Some(e) => {
                let d = crate::datetime::minutes_of(e) - crate::datetime::minutes_of(
                    x.start_time,
                );
                match acc {
                    Some(a) => Some(a + d),
                    None => Some(d),
                }
            },
            None => None,
        }
    }
}

/// The running total over a whole sequence of activities, first row first.
pub open spec fn issue_fold(xs: Seq<ActivityView>, issue: Seq<char>) -> Option<int>
    decreases xs.len(),
{
    if xs.len() == 0 {
        None
    } else {
        issue_step(issue_fold(xs.drop_last(), issue), xs.last(), issue)
    }
}

/// The total is bounded by a day's minutes for every row seen.
pub proof fn lemma_issue_fold_bound(xs: Seq<ActivityView>, issue: Seq<char>)
    ensures
        match issue_fold(xs, issue) {
            Some(a) => -15555 * xs.len() <= a <= 15555 * xs.len(),
            None => true,
        },
    decreases xs.len(),
{
    if xs.len() > 0 {
        lemma_issue_fold_bound(xs.drop_last(), issue);
    }
}

/// How many of the listed dates fall on or before `today`.
pub open spec fn count_dates_le(s: Seq<Date>, today: Date) -> int
    decreases s.len(),
{
    if s.len() == 0 {
        0
    } else {
        count_dates_le(s.drop_last(), today) + (if crate::datetime::date_le(s.last(), today) {
            1int
        } else {
            0int
        })
    }
}

/// The count never exceeds the list's length.
pub proof fn lemma_count_dates_le_bound(s: Seq<Date>, today: Date)
    ensures
        0 <= count_dates_le(s, today) <= s.len(),
    decreases s.len(),
{
    if s.len() > 0 {
        lemma_count_dates_le_bound(s.drop_last(), today);
    }
}

/// When `i` is a position of day `date` in a date-distinct store, `day_idx`
/// names it.
pub proof fn lemma_day_idx_at2(s: Seq<DayView>, date: Date, i: int)
    requires
        days_ordered(s),
        0 <= i < s.len(),
        s[i].date == date,
    ensures
        day_idx(s, date) == Some(i),
{
    assert forall|k: int| 0 <= k < i implies (#[trigger] s[k]).date != date by {
        assert(date_lt(s[i].date, s[k].date));
    };
    lemma_day_idx_at(s, date, i);
}

/// File `d` into a descending duplicate-free list of dates.
fn insert_day_off_sorted(offs: &mut Vec<Date>, d: Date) -> (added: bool)
    requires
        dates_desc(old(offs)@),
    ensures
        dates_desc(final(offs)@),
        final(offs)@ == day_off_insert(old(offs)@, d),
        added == !old(offs)@.contains(d),
{
    let ghost s0 = offs@;
    let n = offs.len();
    let mut j: usize = 0;
    let mut stop = false;
    while !stop && j < n
        invariant
            j <= n,
            n == offs@.len(),
            offs@ == s0,
            forall|k: int| 0 <= k < j ==> date_lt(d, #[trigger] s0[k]),
            stop ==> j < n && !date_lt(d, s0[j as int]),
        decreases n - j + (if stop { 0int } else { 1int }),
    {
        if d.before(&offs[j]) {
            j = j + 1;
        } else {
            stop = true;
        }
    }
    proof {
        lemma_day_off_insert_at(s0, d, j as int);
    }
    if j < offs.len() && offs[j] == d {
        proof {
            assert(s0.contains(d));
        }
        false
    } else {
        offs.insert(j, d);
        proof {
            assert(offs@ =~= s0.insert(j as int, d));
            if s0.contains(d) {
                let w = choose|w: int| 0 <= w < s0.len() && s0[w] == d;
                if w < j {
                    assert(date_lt(d, s0[w]));
                } else {
                    assert(!date_lt(d, s0[j as int]));
                    if w > j {
                        assert(date_lt(s0[w], s0[j as int]));
                    }
                }
            }
        }
        true
    }
}

} // verus!
