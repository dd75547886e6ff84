//! The full date-keyed store of activities.
//!
//! `State` maps calendar dates to their day's activities, most recent day
//! first.  Every held day is non-empty (empty days are pruned on the spot),
//! and no two activities anywhere share an id.  `add` is also the edit
//! operation: it first takes out whatever activity carries the incoming id,
//! on whatever day it lives (moving an activity to another day is an edit,
//! not a new record), and then files the incoming one under its own day.
//!
//! As with one day's container, the contracts are phrased against recursive
//! functions over the sequence of day values, so each mutation has one
//! deterministic description that the undo/redo log can be proved against.

use vstd::prelude::*;

use crate::activity::{Activity, ActivityId, ActivityView};
use crate::activity_vec::{find_id, has_id, insert_sorted, lemma_insert_sorted_props,
    lemma_remove_id_props, remove_id, sorted, uniq_ids, ActivityVec};
use crate::datetime::{date_lt, Date};

verus! {

/// The mathematical value of one stored day.
#[verifier::ext_equal]
pub ghost struct DayView {
    pub date: Date,
    pub acts: Seq<ActivityView>,
}

/// One stored day: a date and its sorted activities.
#[derive(Debug)]
pub struct DayEntry {
    pub date: Date,
    pub acts: ActivityVec,
}

impl View for DayEntry {
    type V = DayView;

    open spec fn view(&self) -> DayView {
        DayView { date: self.date, acts: self.acts@ }
    }
}

/// A well-formed stored day: sorted, id-unique, non-empty, and every
/// activity filed under the day's own date.
pub open spec fn day_wf(d: DayView) -> bool {
    &&& sorted(d.acts)
    &&& uniq_ids(d.acts)
    &&& d.acts.len() > 0
    &&& forall|k: int| 0 <= k < d.acts.len() ==> (#[trigger] d.acts[k]).day == d.date
}

/// Most recent day first: dates strictly descending.
pub open spec fn days_ordered(s: Seq<DayView>) -> bool {
    forall|i: int, j: int|
        0 <= i < j < s.len() ==> date_lt((#[trigger] s[j]).date, (#[trigger] s[i]).date)
}

/// No id appears on two different days.
pub open spec fn cross_uniq(s: Seq<DayView>) -> bool {
    forall|i: int, j: int, id: ActivityId|
        #![trigger has_id(s[i].acts, id), has_id(s[j].acts, id)]
        0 <= i < s.len() && 0 <= j < s.len() && i != j ==> !(has_id(s[i].acts, id) && has_id(
            s[j].acts,
            id,
        ))
}

/// The store's standing invariant.
pub open spec fn state_wf(s: Seq<DayView>) -> bool {
    &&& days_ordered(s)
    &&& cross_uniq(s)
    &&& forall|i: int| 0 <= i < s.len() ==> day_wf(#[trigger] s[i])
}

/// Whether any day holds an activity with `id`.
pub open spec fn state_has_id(s: Seq<DayView>, id: ActivityId) -> bool {
    exists|i: int| 0 <= i < s.len() && has_id((#[trigger] s[i]).acts, id)
}

/// The activity carrying `id`, wherever it lives.
pub open spec fn state_find_id(s: Seq<DayView>, id: ActivityId) -> Option<ActivityView>
    decreases s.len(),
{
    if s.len() == 0 {
        None
    } else if has_id(s[0].acts, id) {
        find_id(s[0].acts, id)
    } else {
        state_find_id(s.drop_first(), id)
    }
}

/// The store with the activity carrying `id` taken out, wherever it lives;
/// a day left empty disappears.
pub open spec fn state_remove_id(s: Seq<DayView>, id: ActivityId) -> Seq<DayView>
    decreases s.len(),
{
    if s.len() == 0 {
        s
    } else if has_id(s[0].acts, id) {
        let acts = remove_id(s[0].acts, id);
        if acts.len() == 0 {
            s.drop_first()
        } else {
            seq![DayView { date: s[0].date, acts }] + s.drop_first()
        }
    } else {
        seq![s[0]] + state_remove_id(s.drop_first(), id)
    }
}

/// The store with `v` filed under its day, the day created at its
/// chronological place if it was not there.
pub open spec fn state_insert(s: Seq<DayView>, v: ActivityView) -> Seq<DayView>
    decreases s.len(),
{
    if s.len() == 0 {
        seq![DayView { date: v.day, acts: seq![v] }]
    } else if date_lt(s[0].date, v.day) {
        seq![DayView { date: v.day, acts: seq![v] }] + s
    } else if s[0].date == v.day {
        seq![DayView { date: v.day, acts: insert_sorted(s[0].acts, v) }] + s.drop_first()
    } else {
        seq![s[0]] + state_insert(s.drop_first(), v)
    }
}

/// What `add` does: take the id out everywhere, then file the newcomer.
pub open spec fn state_add(s: Seq<DayView>, v: ActivityView) -> Seq<DayView> {
    state_insert(state_remove_id(s, v.id), v)
}

/// The activity at (`date`, `index`), if that coordinate exists.
pub open spec fn state_at(s: Seq<DayView>, date: Date, index: int) -> Option<ActivityView>
    decreases s.len(),
{
    if s.len() == 0 {
        None
    } else if s[0].date == date {
        if 0 <= index < s[0].acts.len() {
            Some(s[0].acts[index])
        } else {
            None
        }
    } else {
        state_at(s.drop_first(), date, index)
    }
}

/// The store with the activity at (`date`, `index`) removed; a day left
/// empty disappears.
pub open spec fn state_remove_at(s: Seq<DayView>, date: Date, index: int) -> Seq<DayView>
    decreases s.len(),
{
    if s.len() == 0 {
        s
    } else if s[0].date == date {
        if 0 <= index < s[0].acts.len() {
            let acts = s[0].acts.remove(index);
            if acts.len() == 0 {
                s.drop_first()
            } else {
                seq![DayView { date: s[0].date, acts }] + s.drop_first()
            }
        } else {
            s
        }
    } else {
        seq![s[0]] + state_remove_at(s.drop_first(), date, index)
    }
}

/// The store with the activity carrying `id` removed from day `date` only.
pub open spec fn state_remove_in_day(s: Seq<DayView>, date: Date, id: ActivityId) -> Seq<DayView>
    decreases s.len(),
{
    if s.len() == 0 {
        s
    } else if s[0].date == date {
        if has_id(s[0].acts, id) {
            let acts = remove_id(s[0].acts, id);
            if acts.len() == 0 {
                s.drop_first()
            } else {
                seq![DayView { date: s[0].date, acts }] + s.drop_first()
            }
        } else {
            s
        }
    } else {
        seq![s[0]] + state_remove_in_day(s.drop_first(), date, id)
    }
}

/// The activity carrying `id` on day `date`, if any.
pub open spec fn state_find_in_day(s: Seq<DayView>, date: Date, id: ActivityId) -> Option<
    ActivityView,
>
    decreases s.len(),
{
    if s.len() == 0 {
        None
    } else if s[0].date == date {
        find_id(s[0].acts, id)
    } else {
        state_find_in_day(s.drop_first(), date, id)
    }
}

/// How many activities the store holds in all.
pub open spec fn state_count(s: Seq<DayView>) -> int
    decreases s.len(),
{
    if s.len() == 0 {
        0
    } else {
        s[0].acts.len() + state_count(s.drop_first())
    }
}

/// All activities in the store, day after day, most recent day first.
pub open spec fn flatten_state(s: Seq<DayView>) -> Seq<ActivityView>
    decreases s.len(),
{
    if s.len() == 0 {
        Seq::empty()
    } else {
        s[0].acts + flatten_state(s.drop_first())
    }
}

/// One more day flattens to one more block.
pub proof fn lemma_flatten_take(s: Seq<DayView>, i: int)
    requires
        0 <= i < s.len(),
    ensures
        flatten_state(s.take(i + 1)) == flatten_state(s.take(i)) + s[i].acts,
    decreases i,
{
    if i == 0 {
        assert(s.take(0) =~= Seq::<DayView>::empty());
        assert(s.take(1).drop_first() =~= Seq::<DayView>::empty());
        assert(s.take(1)[0] == s[0]);
        assert(flatten_state(Seq::<DayView>::empty()) =~= Seq::<ActivityView>::empty());
        assert(flatten_state(s.take(1)) =~= s[0].acts);
        assert(flatten_state(s.take(0)) + s[0].acts =~= s[0].acts);
    } else {
        let t = s.drop_first();
        assert(forall|k: int| 0 <= k < t.len() ==> (#[trigger] t[k]) == s[k + 1]);
        lemma_flatten_take(t, i - 1);
        assert(s.take(i + 1).drop_first() =~= t.take(i));
        assert(s.take(i).drop_first() =~= t.take(i - 1));
        assert(s.take(i + 1)[0] == s[0]);
        assert(s.take(i)[0] == s[0]);
        assert(t[i - 1] == s[i]);
        assert(s[0].acts + (flatten_state(t.take(i - 1)) + s[i].acts) =~= (s[0].acts
            + flatten_state(t.take(i - 1))) + s[i].acts);
    }
}

/// A front segment flattens to no more than the whole.
pub proof fn lemma_flatten_take_le(s: Seq<DayView>, k: int)
    requires
        0 <= k <= s.len(),
    ensures
        flatten_state(s.take(k)).len() <= flatten_state(s).len(),
    decreases s.len() - k,
{
    if k == s.len() {
        assert(s.take(k) =~= s);
    } else {
        lemma_flatten_take(s, k);
        lemma_flatten_take_le(s, k + 1);
    }
}

/// The flattened store holds exactly `state_count` activities.
pub proof fn lemma_flatten_len(s: Seq<DayView>)
    ensures
        flatten_state(s).len() == state_count(s),
    decreases s.len(),
{
    if s.len() > 0 {
        lemma_flatten_len(s.drop_first());
    }
}

/// On a store without day `date`, the day-scoped operations do nothing.
pub proof fn lemma_state_day_absent(s: Seq<DayView>, date: Date, index: int, id: ActivityId)
    requires
        forall|k: int| 0 <= k < s.len() ==> (#[trigger] s[k]).date != date,
    ensures
        state_at(s, date, index) is None,
        state_remove_at(s, date, index) == s,
        state_remove_in_day(s, date, id) == s,
        state_find_in_day(s, date, id) is None,
    decreases s.len(),
{
    if s.len() > 0 {
        assert(forall|k: int|
            0 <= k < s.drop_first().len() ==> (#[trigger] s.drop_first()[k]) == s[k + 1]);
        lemma_state_day_absent(s.drop_first(), date, index, id);
        assert(seq![s[0]] + s.drop_first() =~= s);
    }
}

/// When `i` is the position of day `date`, the day-scoped operations act
/// there and nowhere else.
pub proof fn lemma_state_day_at(s: Seq<DayView>, date: Date, index: int, id: ActivityId, i: int)
    requires
        0 <= i < s.len(),
        s[i].date == date,
        forall|k: int| 0 <= k < i ==> (#[trigger] s[k]).date != date,
    ensures
        state_at(s, date, index) == if 0 <= index < s[i].acts.len() {
            Some(s[i].acts[index])
        } else {
            None::<ActivityView>
        },
        state_remove_at(s, date, index) == if 0 <= index < s[i].acts.len() {
            if s[i].acts.remove(index).len() == 0 {
                s.remove(i)
            } else {
                s.update(i, DayView { date, acts: s[i].acts.remove(index) })
            }
        } else {
            s
        },
        state_remove_in_day(s, date, id) == if has_id(s[i].acts, id) {
            if remove_id(s[i].acts, id).len() == 0 {
                s.remove(i)
            } else {
                s.update(i, DayView { date, acts: remove_id(s[i].acts, id) })
            }
        } else {
            s
        },
        state_find_in_day(s, date, id) == find_id(s[i].acts, id),
    decreases i,
{
    if i == 0 {
        assert(s.drop_first() =~= s.remove(0));
        if 0 <= index < s[0].acts.len() && s[0].acts.remove(index).len() != 0 {
            assert(seq![DayView { date, acts: s[0].acts.remove(index) }] + s.drop_first() =~= s
                .update(0, DayView { date, acts: s[0].acts.remove(index) }));
        }
        if has_id(s[0].acts, id) && remove_id(s[0].acts, id).len() != 0 {
            assert(seq![DayView { date, acts: remove_id(s[0].acts, id) }] + s.drop_first() =~= s
                .update(0, DayView { date, acts: remove_id(s[0].acts, id) }));
        }
    } else {
        let t = s.drop_first();
        assert(forall|k: int| 0 <= k < t.len() ==> (#[trigger] t[k]) == s[k + 1]);
        lemma_state_day_at(t, date, index, id, i - 1);
        assert(s[0].date != date);
        assert(seq![s[0]] + t.remove(i - 1) =~= s.remove(i));
        if 0 <= index < s[i].acts.len() {
            assert(t[i - 1] == s[i]);
            assert(seq![s[0]] + t.update(i - 1, DayView { date, acts: s[i].acts.remove(index) })
                =~= s.update(i, DayView { date, acts: s[i].acts.remove(index) }));
        }
        if has_id(s[i].acts, id) {
            assert(seq![s[0]] + t.update(i - 1, DayView { date, acts: remove_id(s[i].acts, id) })
                =~= s.update(i, DayView { date, acts: remove_id(s[i].acts, id) }));
        }
    }
}

/// On a store without `id`, taking the id out does nothing.
pub proof fn lemma_state_remove_id_absent(s: Seq<DayView>, id: ActivityId)
    requires
        !state_has_id(s, id),
    ensures
        state_remove_id(s, id) == s,
        state_find_id(s, id) is None,
    decreases s.len(),
{
    if s.len() > 0 {
        assert(!has_id(s[0].acts, id));
        assert(forall|k: int|
            0 <= k < s.drop_first().len() ==> (#[trigger] s.drop_first()[k]) == s[k + 1]);
        assert(!state_has_id(s.drop_first(), id));
        lemma_state_remove_id_absent(s.drop_first(), id);
        assert(seq![s[0]] + s.drop_first() =~= s);
    }
}

/// When `i` is the day holding `id`, taking the id out acts there.
pub proof fn lemma_state_remove_id_at(s: Seq<DayView>, id: ActivityId, i: int)
    requires
        0 <= i < s.len(),
        has_id(s[i].acts, id),
        forall|k: int| 0 <= k < i ==> !has_id((#[trigger] s[k]).acts, id),
    ensures
        state_remove_id(s, id) == if remove_id(s[i].acts, id).len() == 0 {
            s.remove(i)
        } else {
            s.update(i, DayView { date: s[i].date, acts: remove_id(s[i].acts, id) })
        },
        state_find_id(s, id) == find_id(s[i].acts, id),
    decreases i,
{
    if i == 0 {
        assert(s.drop_first() =~= s.remove(0));
        if remove_id(s[0].acts, id).len() != 0 {
            assert(seq![DayView { date: s[0].date, acts: remove_id(s[0].acts, id) }]
                + s.drop_first() =~= s.update(
                0,
                DayView { date: s[0].date, acts: remove_id(s[0].acts, id) },
            ));
        }
    } else {
        let t = s.drop_first();
        assert(forall|k: int| 0 <= k < t.len() ==> (#[trigger] t[k]) == s[k + 1]);
        lemma_state_remove_id_at(t, id, i - 1);
        assert(!has_id(s[0].acts, id));
        assert(seq![s[0]] + t.remove(i - 1) =~= s.remove(i));
        assert(t[i - 1] == s[i]);
        if remove_id(s[i].acts, id).len() != 0 {
            assert(seq![s[0]] + t.update(
                i - 1,
                DayView { date: s[i].date, acts: remove_id(s[i].acts, id) },
            ) =~= s.update(i, DayView { date: s[i].date, acts: remove_id(s[i].acts, id) }));
        }
    }
}

/// When `j` is the first position not more recent than `v.day`, filing `v`
/// acts there: into day `j` when the dates agree, as a new day before `j`
/// otherwise.
pub proof fn lemma_state_insert_at(s: Seq<DayView>, v: ActivityView, j: int)
    requires
        0 <= j <= s.len(),
        forall|k: int| 0 <= k < j ==> date_lt(v.day, (#[trigger] s[k]).date),
        j < s.len() ==> !date_lt(v.day, s[j].date),
    ensures
        state_insert(s, v) == if j < s.len() && s[j].date == v.day {
            s.update(j, DayView { date: v.day, acts: insert_sorted(s[j].acts, v) })
        } else {
            s.insert(j, DayView { date: v.day, acts: seq![v] })
        },
    decreases j,
{
    if j == 0 {
        if s.len() == 0 {
            assert(state_insert(s, v) =~= s.insert(0, DayView { date: v.day, acts: seq![v] }));
        } else if date_lt(s[0].date, v.day) {
            assert(seq![DayView { date: v.day, acts: seq![v] }] + s =~= s.insert(
                0,
                DayView { date: v.day, acts: seq![v] },
            ));
        } else if s[0].date == v.day {
            assert(seq![DayView { date: v.day, acts: insert_sorted(s[0].acts, v) }]
                + s.drop_first() =~= s.update(
                0,
                DayView { date: v.day, acts: insert_sorted(s[0].acts, v) },
            ));
        }
    } else {
        let t = s.drop_first();
        assert(forall|k: int| 0 <= k < t.len() ==> (#[trigger] t[k]) == s[k + 1]);
        assert(date_lt(v.day, s[0].date));
        assert(!date_lt(s[0].date, v.day) && s[0].date != v.day);
        lemma_state_insert_at(t, v, j - 1);
        if j < s.len() && s[j].date == v.day {
            assert(t[j - 1] == s[j]);
            assert(seq![s[0]] + t.update(
                j - 1,
                DayView { date: v.day, acts: insert_sorted(s[j].acts, v) },
            ) =~= s.update(j, DayView { date: v.day, acts: insert_sorted(s[j].acts, v) }));
        } else {
            assert(seq![s[0]] + t.insert(j - 1, DayView { date: v.day, acts: seq![v] }) =~= s
                .insert(j, DayView { date: v.day, acts: seq![v] }));
        }
    }
}

/// `state_find_id` answers `Some` exactly where `state_has_id` holds.
pub proof fn lemma_state_find_id_spec(s: Seq<DayView>, id: ActivityId)
    ensures
        state_find_id(s, id) is Some <==> state_has_id(s, id),
        match state_find_id(s, id) {
            Some(v) => v.id == id && exists|i: int|
                0 <= i < s.len() && (#[trigger] s[i]).acts.contains(v),
            None => true,
        },
    decreases s.len(),
{
    if s.len() > 0 {
        let t = s.drop_first();
        assert(forall|k: int| 0 <= k < t.len() ==> (#[trigger] t[k]) == s[k + 1]);
        lemma_state_find_id_spec(t, id);
        crate::activity_vec::lemma_find_id_spec(s[0].acts, id);
        if has_id(s[0].acts, id) {
            assert(state_has_id(s, id));
            match find_id(s[0].acts, id) {
                Some(v) => {
                    let k = choose|k: int|
                        0 <= k < s[0].acts.len() && #[trigger] s[0].acts[k] == v;
                    assert(s[0].acts.contains(v));
                },
                None => {},
            }
        } else {
            if state_has_id(s, id) {
                let i = choose|i: int| 0 <= i < s.len() && has_id((#[trigger] s[i]).acts, id);
                assert(i > 0);
                assert(t[i - 1] == s[i]);
                assert(state_has_id(t, id));
            }
            if state_has_id(t, id) {
                let i = choose|i: int| 0 <= i < t.len() && has_id((#[trigger] t[i]).acts, id);
                assert(s[i + 1] == t[i]);
                assert(state_has_id(s, id));
            }
            match state_find_id(t, id) {
                Some(v) => {
                    let i = choose|i: int|
                        0 <= i < t.len() && (#[trigger] t[i]).acts.contains(v);
                    assert(s[i + 1].acts.contains(v));
                },
                None => {},
            }
        }
    }
}

/// Dropping a whole day keeps the store well formed; ids that lived only on
/// that day are gone.
pub proof fn lemma_state_remove_day_wf(s: Seq<DayView>, i: int)
    requires
        state_wf(s),
        0 <= i < s.len(),
    ensures
        state_wf(s.remove(i)),
        forall|x: ActivityId|
            #[trigger] state_has_id(s.remove(i), x) <==> (state_has_id(s, x) && !has_id(
                s[i].acts,
                x,
            )),
        state_count(s.remove(i)) == state_count(s) - s[i].acts.len(),
{
    let r = s.remove(i);
    assert(forall|k: int| 0 <= k < i ==> #[trigger] r[k] == s[k]);
    assert(forall|k: int| i <= k < r.len() ==> #[trigger] r[k] == s[k + 1]);
    assert forall|x: ActivityId| #[trigger] state_has_id(r, x) implies (state_has_id(s, x)
        && !has_id(s[i].acts, x)) by {
        let k = choose|k: int| 0 <= k < r.len() && has_id((#[trigger] r[k]).acts, x);
        if k < i {
            assert(has_id(s[k].acts, x));
            assert(state_has_id(s, x));
        } else {
            assert(has_id(s[k + 1].acts, x));
            assert(state_has_id(s, x));
        }
    };
    assert forall|x: ActivityId| state_has_id(s, x) && !has_id(s[i].acts, x) implies
        #[trigger] state_has_id(r, x) by {
        let k = choose|k: int| 0 <= k < s.len() && has_id((#[trigger] s[k]).acts, x);
        assert(k != i);
        if k < i {
            assert(has_id(r[k].acts, x));
        } else {
            assert(has_id(r[k - 1].acts, x));
        }
    };
    lemma_state_count_remove(s, i);
}

/// Replacing one day's activities keeps the store well formed, provided the
/// replacement is itself a well-formed day of the same date and brings in no
/// id that lives elsewhere.
pub proof fn lemma_state_update_day_wf(s: Seq<DayView>, i: int, acts: Seq<ActivityView>)
    requires
        state_wf(s),
        0 <= i < s.len(),
        sorted(acts),
        uniq_ids(acts),
        acts.len() > 0,
        forall|k: int| 0 <= k < acts.len() ==> (#[trigger] acts[k]).day == s[i].date,
        forall|x: ActivityId|
            #[trigger] has_id(acts, x) ==> has_id(s[i].acts, x) || !state_has_id(s, x),
    ensures
        state_wf(s.update(i, DayView { date: s[i].date, acts })),
        forall|x: ActivityId|
            #[trigger] state_has_id(s.update(i, DayView { date: s[i].date, acts }), x) <==> (
            has_id(acts, x) || (state_has_id(s, x) && !has_id(s[i].acts, x))),
        state_count(s.update(i, DayView { date: s[i].date, acts })) == state_count(s) - s[
            i
        ].acts.len() + acts.len(),
{
    let d = DayView { date: s[i].date, acts };
    let r = s.update(i, d);
    assert(forall|k: int| 0 <= k < r.len() && k != i ==> #[trigger] r[k] == s[k]);
    assert(r[i] == d);
    assert forall|a: int, b: int, id: ActivityId|
        #![trigger has_id(r[a].acts, id), has_id(r[b].acts, id)]
        0 <= a < r.len() && 0 <= b < r.len() && a != b implies !(has_id(r[a].acts, id) && has_id(
        r[b].acts,
        id,
    )) by {
        if has_id(r[a].acts, id) && has_id(r[b].acts, id) {
            if a == i {
                assert(has_id(acts, id));
                assert(has_id(s[b].acts, id));
                assert(state_has_id(s, id));
                assert(has_id(s[i].acts, id) || !state_has_id(s, id));
            } else if b == i {
                assert(has_id(acts, id));
                assert(has_id(s[a].acts, id));
                assert(state_has_id(s, id));
                assert(has_id(s[i].acts, id) || !state_has_id(s, id));
            }
        }
    };
    assert forall|x: ActivityId| #[trigger] state_has_id(r, x) implies (has_id(acts, x) || (
    state_has_id(s, x) && !has_id(s[i].acts, x))) by {
        let k = choose|k: int| 0 <= k < r.len() && has_id((#[trigger] r[k]).acts, x);
        if k != i {
            assert(has_id(s[k].acts, x));
            assert(state_has_id(s, x));
            if has_id(s[i].acts, x) {
                assert(!(has_id(s[i].acts, x) && has_id(s[k].acts, x)));
            }
        }
    };
    assert forall|x: ActivityId| has_id(acts, x) || (state_has_id(s, x) && !has_id(
        s[i].acts,
        x,
    )) implies #[trigger] state_has_id(r, x) by {
        if has_id(acts, x) {
            assert(has_id(r[i].acts, x));
        } else {
            let k = choose|k: int| 0 <= k < s.len() && has_id((#[trigger] s[k]).acts, x);
            assert(k != i);
            assert(has_id(r[k].acts, x));
        }
    };
    lemma_state_count_update(s, i, d);
}

/// Filing a whole new day at its chronological place keeps the store well
/// formed, provided the day is well formed and brings in no id that lives
/// elsewhere.
pub proof fn lemma_state_insert_day_wf(s: Seq<DayView>, j: int, d: DayView)
    requires
        state_wf(s),
        day_wf(d),
        0 <= j <= s.len(),
        forall|k: int| 0 <= k < j ==> date_lt(d.date, (#[trigger] s[k]).date),
        forall|k: int| j <= k < s.len() ==> date_lt((#[trigger] s[k]).date, d.date),
        forall|x: ActivityId| #[trigger] has_id(d.acts, x) ==> !state_has_id(s, x),
    ensures
        state_wf(s.insert(j, d)),
        forall|x: ActivityId|
            #[trigger] state_has_id(s.insert(j, d), x) <==> (has_id(d.acts, x) || state_has_id(
                s,
                x,
            )),
        state_count(s.insert(j, d)) == state_count(s) + d.acts.len(),
{
    let r = s.insert(j, d);
    assert(forall|k: int| 0 <= k < j ==> #[trigger] r[k] == s[k]);
    assert(r[j] == d);
    assert(forall|k: int| j < k < r.len() ==> #[trigger] r[k] == s[k - 1]);
    assert forall|a: int, b: int, id: ActivityId|
        #![trigger has_id(r[a].acts, id), has_id(r[b].acts, id)]
        0 <= a < r.len() && 0 <= b < r.len() && a != b implies !(has_id(r[a].acts, id) && has_id(
        r[b].acts,
        id,
    )) by {
        if has_id(r[a].acts, id) && has_id(r[b].acts, id) {
            if a == j {
                let o = if b < j { b } else { b - 1 };
                assert(has_id(s[o].acts, id));
                assert(state_has_id(s, id));
            } else if b == j {
                let o = if a < j { a } else { a - 1 };
                assert(has_id(s[o].acts, id));
                assert(state_has_id(s, id));
            }
        }
    };
    assert forall|x: ActivityId| #[trigger] state_has_id(r, x) implies (has_id(d.acts, x)
        || state_has_id(s, x)) by {
        let k = choose|k: int| 0 <= k < r.len() && has_id((#[trigger] r[k]).acts, x);
        if k < j {
            assert(has_id(s[k].acts, x));
            assert(state_has_id(s, x));
        } else if k > j {
            assert(has_id(s[k - 1].acts, x));
            assert(state_has_id(s, x));
        }
    };
    assert forall|x: ActivityId| has_id(d.acts, x) || state_has_id(s, x) implies
        #[trigger] state_has_id(r, x) by {
        if has_id(d.acts, x) {
            assert(has_id(r[j].acts, x));
        } else {
            let k = choose|k: int| 0 <= k < s.len() && has_id((#[trigger] s[k]).acts, x);
            if k < j {
                assert(has_id(r[k].acts, x));
            } else {
                assert(has_id(r[k + 1].acts, x));
            }
        }
    };
    lemma_state_count_insert(s, j, d);
}

/// Dropping day `i` lowers the total count by that day's share.
pub proof fn lemma_state_count_remove(s: Seq<DayView>, i: int)
    requires
        0 <= i < s.len(),
    ensures
        state_count(s.remove(i)) == state_count(s) - s[i].acts.len(),
    decreases i,
{
    if i == 0 {
        assert(s.remove(0) =~= s.drop_first());
    } else {
        let t = s.drop_first();
        lemma_state_count_remove(t, i - 1);
        assert(t[i - 1] == s[i]);
        assert(s.remove(i).drop_first() =~= t.remove(i - 1));
        assert(s.remove(i)[0] == s[0]);
    }
}

/// Replacing day `i` shifts the total count by the difference.
pub proof fn lemma_state_count_update(s: Seq<DayView>, i: int, d: DayView)
    requires
        0 <= i < s.len(),
    ensures
        state_count(s.update(i, d)) == state_count(s) - s[i].acts.len() + d.acts.len(),
    decreases i,
{
    if i == 0 {
        assert(s.update(0, d).drop_first() =~= s.drop_first());
        assert(s.update(0, d)[0] == d);
    } else {
        let t = s.drop_first();
        lemma_state_count_update(t, i - 1, d);
        assert(t[i - 1] == s[i]);
        assert(s.update(i, d).drop_first() =~= t.update(i - 1, d));
        assert(s.update(i, d)[0] == s[0]);
    }
}

/// A chronological position for day `day`: everything before it is more
/// recent, and `day` is no older than whatever stands at it.
pub proof fn lemma_day_position(s: Seq<DayView>, day: Date) -> (j: int)
    ensures
        0 <= j <= s.len(),
        forall|k: int| 0 <= k < j ==> date_lt(day, (#[trigger] s[k]).date),
        j < s.len() ==> !date_lt(day, s[j].date),
    decreases s.len(),
{
    if s.len() == 0 {
        0
    } else if !date_lt(day, s[0].date) {
        0
    } else {
        let j = lemma_day_position(s.drop_first(), day);
        assert(forall|k: int| 1 <= k < j + 1 ==> (#[trigger] s[k]) == s.drop_first()[k - 1]);
        if j + 1 < s.len() {
            assert(s[j + 1] == s.drop_first()[j]);
        }
        j + 1
    }
}

/// What filing a fresh id does to the store, and that taking it back out
/// restores the store exactly.
pub proof fn lemma_state_insert_props(s: Seq<DayView>, v: ActivityView)
    requires
        state_wf(s),
        !state_has_id(s, v.id),
    ensures
        state_wf(state_insert(s, v)),
        state_count(state_insert(s, v)) == state_count(s) + 1,
        forall|x: ActivityId|
            #[trigger] state_has_id(state_insert(s, v), x) <==> (state_has_id(s, x) || x == v.id),
        state_find_id(state_insert(s, v), v.id) == Some(v),
        state_remove_id(state_insert(s, v), v.id) == s,
        state_remove_in_day(state_insert(s, v), v.day, v.id) == s,
{
    let j = lemma_day_position(s, v.day);
    lemma_state_insert_at(s, v, j);
    if j < s.len() && s[j].date == v.day {
        let acts = s[j].acts;
        assert forall|x: ActivityId| #[trigger] has_id(acts, x) implies state_has_id(s, x) by {}
        assert(!has_id(acts, v.id));
        lemma_insert_sorted_props(acts, v);
        crate::activity_vec::lemma_insert_then_remove(acts, v);
        let acts1 = insert_sorted(acts, v);
        let r = s.update(j, DayView { date: v.day, acts: acts1 });
        assert(state_insert(s, v) == r);
        assert(s[j] =~= DayView { date: s[j].date, acts });
        assert forall|k: int| 0 <= k < acts1.len() implies (#[trigger] acts1[k]).day == s[j].date
            by {
            if acts1[k] == v {
            } else {
                assert(acts.contains(acts1[k]));
                let w = choose|w: int| 0 <= w < acts.len() && #[trigger] acts[w] == acts1[k];
            }
        };
        assert forall|x: ActivityId| #[trigger] has_id(acts1, x) implies has_id(s[j].acts, x)
            || !state_has_id(s, x) by {}
        lemma_state_update_day_wf(s, j, acts1);
        // taking the id back out lands on day j and yields the old activities
        assert(r[j].acts == acts1);
        assert(has_id(acts1, v.id));
        assert forall|k: int| 0 <= k < j implies !has_id((#[trigger] r[k]).acts, v.id) by {
            assert(r[k] == s[k]);
            if has_id(s[k].acts, v.id) {
                assert(state_has_id(s, v.id));
            }
        };
        lemma_state_remove_id_at(r, v.id, j);
        assert(remove_id(acts1, v.id) == acts);
        assert(acts.len() > 0);
        assert(DayView { date: r[j].date, acts } =~= s[j]);
        assert(r.update(j, DayView { date: r[j].date, acts }) =~= s);
        // the same through the day-scoped removal
        assert forall|k: int| 0 <= k < j implies (#[trigger] r[k]).date != v.day by {
            assert(r[k] == s[k]);
            assert(date_lt(v.day, s[k].date));
        };
        lemma_state_day_at(r, v.day, 0, v.id, j);
        assert(DayView { date: v.day, acts } =~= s[j]);
        assert(r.update(j, DayView { date: v.day, acts }) =~= s);
    } else {
        let d = DayView { date: v.day, acts: seq![v] };
        let r = s.insert(j, d);
        assert(state_insert(s, v) == r);
        assert(day_wf(d));
        assert forall|k: int| j <= k < s.len() implies date_lt((#[trigger] s[k]).date, v.day) by {
            if j < s.len() {
                assert(!date_lt(v.day, s[j].date) && s[j].date != v.day);
                if k > j {
                    assert(date_lt(s[k].date, s[j].date));
                }
            }
        };
        assert forall|x: ActivityId| #[trigger] has_id(d.acts, x) implies !state_has_id(s, x) by {
            assert(d.acts[0] == v);
        };
        lemma_state_insert_day_wf(s, j, d);
        assert(r[j] == d);
        assert(has_id(d.acts, v.id)) by {
            assert(d.acts[0].id == v.id);
        };
        assert forall|k: int| 0 <= k < j implies !has_id((#[trigger] r[k]).acts, v.id) by {
            assert(r[k] == s[k]);
            if has_id(s[k].acts, v.id) {
                assert(state_has_id(s, v.id));
            }
        };
        lemma_state_remove_id_at(r, v.id, j);
        assert(find_id(d.acts, v.id) == Some(v));
        assert(remove_id(d.acts, v.id) =~= Seq::<ActivityView>::empty());
        assert(r.remove(j) =~= s);
        assert forall|k: int| 0 <= k < j implies (#[trigger] r[k]).date != v.day by {
            assert(r[k] == s[k]);
            assert(date_lt(v.day, s[k].date));
        };
        lemma_state_day_at(r, v.day, 0, v.id, j);
    }
}

/// What taking an id out does to the store, and that filing the displaced
/// activity again restores the store exactly.
pub proof fn lemma_state_remove_id_full(s: Seq<DayView>, id: ActivityId)
    requires
        state_wf(s),
    ensures
        state_wf(state_remove_id(s, id)),
        !state_has_id(state_remove_id(s, id), id),
        forall|x: ActivityId|
            #[trigger] state_has_id(state_remove_id(s, id), x) <==> (state_has_id(s, x) && x
                != id),
        state_count(state_remove_id(s, id)) == if state_has_id(s, id) {
            state_count(s) - 1
        } else {
            state_count(s)
        },
        match state_find_id(s, id) {
            Some(cur) => cur.id == id && cur.day == state_day_of_id(s, id) && state_has_id(s, id)
                && state_insert(state_remove_id(s, id), cur) == s,
            None => !state_has_id(s, id),
        },
{
    lemma_state_find_id_spec(s, id);
    if !state_has_id(s, id) {
        lemma_state_remove_id_absent(s, id);
        return ;
    }
    let i = choose|i: int| 0 <= i < s.len() && has_id((#[trigger] s[i]).acts, id);
    assert forall|k: int| 0 <= k < s.len() && k != i implies !has_id(
        (#[trigger] s[k]).acts,
        id,
    ) by {}
    lemma_state_remove_id_at(s, id, i);
    let acts = s[i].acts;
    lemma_remove_id_props(acts, id);
    let p = crate::activity_vec::lemma_first_id_index(acts, id);
    crate::activity_vec::lemma_remove_id_at(acts, id, p);
    let cur = acts[p];
    assert(state_find_id(s, id) == Some(cur));
    assert(cur.day == s[i].date);
    assert(state_day_of_id(s, id) == s[i].date) by {
        lemma_state_day_of_id(s, id, i);
    };
    if remove_id(acts, id).len() == 0 {
        let r = s.remove(i);
        assert(state_remove_id(s, id) == r);
        lemma_state_remove_day_wf(s, i);
        assert forall|x: ActivityId| #[trigger] state_has_id(r, x) <==> (state_has_id(s, x) && x
            != id) by {
            assert(acts.len() == 1);
            if has_id(acts, x) {
                let w = choose|w: int| 0 <= w < acts.len() && (#[trigger] acts[w].id) == x;
                assert(w == 0 && p == 0);
            }
        };
        // filing `cur` again recreates the pruned day at its old place
        let j = lemma_day_position(r, cur.day);
        assert forall|k: int| 0 <= k < r.len() implies (k < i <==> date_lt(
            cur.day,
            (#[trigger] r[k]).date,
        )) by {
            if k < i {
                assert(r[k] == s[k]);
            } else {
                assert(r[k] == s[k + 1]);
            }
        };
        assert(j == i);
        lemma_state_insert_at(r, cur, i);
        assert(i < r.len() ==> r[i].date != cur.day);
        assert(acts.len() == 1 && p == 0);
        assert(acts =~= seq![cur]);
        assert(DayView { date: cur.day, acts: seq![cur] } =~= s[i]);
        assert(r.insert(i, DayView { date: cur.day, acts: seq![cur] }) =~= s);
    } else {
        let acts1 = remove_id(acts, id);
        let r = s.update(i, DayView { date: s[i].date, acts: acts1 });
        assert(state_remove_id(s, id) == r);
        assert forall|k: int| 0 <= k < acts1.len() implies (#[trigger] acts1[k]).day == s[i].date
            by {
            assert(acts.contains(acts1[k]));
            let w = choose|w: int| 0 <= w < acts.len() && #[trigger] acts[w] == acts1[k];
        };
        assert forall|x: ActivityId| #[trigger] has_id(acts1, x) implies has_id(acts, x)
            || !state_has_id(s, x) by {}
        lemma_state_update_day_wf(s, i, acts1);
        // filing `cur` again merges into day i and restores its activities
        let j = lemma_day_position(r, cur.day);
        assert(r[i].date == cur.day);
        assert forall|k: int| 0 <= k < i implies date_lt(cur.day, (#[trigger] r[k]).date) by {
            assert(r[k] == s[k]);
        };
        assert(j <= i);
        assert forall|k: int| 0 <= k < i implies date_lt(
            (#[trigger] r[i]).date,
            r[k].date,
        ) by {
            assert(r[k] == s[k]);
        };
        assert(j == i) by {
            if j < i {
                assert(!date_lt(cur.day, r[j].date));
                assert(date_lt(cur.day, r[j].date));
            }
        };
        lemma_state_insert_at(r, cur, i);
        assert(acts1 == acts.remove(p));
        crate::activity_vec::lemma_remove_then_insert(acts, p);
        assert(insert_sorted(acts1, cur) == acts);
        assert(DayView { date: cur.day, acts } =~= s[i]);
        assert(r.update(i, DayView { date: cur.day, acts }) =~= s);
    }
}

/// What removing by coordinate does to the store: the removed activity can
/// be filed again to restore the store exactly, and removing it by id from
/// its day would have done the same thing.
pub proof fn lemma_state_remove_at_props(s: Seq<DayView>, date: Date, index: int)
    requires
        state_wf(s),
    ensures
        state_wf(state_remove_at(s, date, index)),
        match state_at(s, date, index) {
            Some(v) => {
                &&& v.day == date
                &&& v.id == match state_find_id(s, v.id) {
                    Some(c) => c.id,
                    None => v.id,
                }
                &&& state_find_id(s, v.id) == Some(v)
                &&& state_count(state_remove_at(s, date, index)) == state_count(s) - 1
                &&& !state_has_id(state_remove_at(s, date, index), v.id)
                &&& forall|x: ActivityId|
                    #[trigger] state_has_id(state_remove_at(s, date, index), x) <==> (
                    state_has_id(s, x) && x != v.id)
                &&& state_remove_in_day(s, date, v.id) == state_remove_at(s, date, index)
                &&& state_remove_id(s, v.id) == state_remove_at(s, date, index)
                &&& state_add(state_remove_at(s, date, index), v) == s
            },
            None => state_remove_at(s, date, index) == s,
        },
{
    if forall|k: int| 0 <= k < s.len() ==> (#[trigger] s[k]).date != date {
        lemma_state_day_absent(s, date, index, ActivityId(0));
        return ;
    }
    let i = choose|i: int| 0 <= i < s.len() && (#[trigger] s[i]).date == date;
    assert forall|k: int| 0 <= k < i implies (#[trigger] s[k]).date != date by {
        assert(date_lt(s[i].date, s[k].date));
    };
    lemma_state_day_at(s, date, index, ActivityId(0), i);
    let acts = s[i].acts;
    if !(0 <= index < acts.len()) {
        return ;
    }
    let v = acts[index];
    assert(state_at(s, date, index) == Some(v));
    assert(v.day == date);
    assert(has_id(acts, v.id));
    lemma_state_day_at(s, date, index, v.id, i);
    assert forall|k: int| 0 <= k < i implies !has_id((#[trigger] s[k]).acts, v.id) by {}
    lemma_state_remove_id_at(s, v.id, i);
    assert forall|k: int| 0 <= k < index implies (#[trigger] acts[k].id) != v.id by {}
    crate::activity_vec::lemma_remove_id_at(acts, v.id, index);
    assert(find_id(acts, v.id) == Some(v));
    assert(state_find_id(s, v.id) == Some(v));
    assert(remove_id(acts, v.id) == acts.remove(index));
    lemma_state_remove_id_full(s, v.id);
    assert(state_remove_at(s, date, index) == state_remove_id(s, v.id));
    assert(state_remove_in_day(s, date, v.id) == state_remove_id(s, v.id));
    assert(state_add(state_remove_at(s, date, index), v) == s) by {
        assert(state_add(state_remove_id(s, v.id), v) == state_insert(
            state_remove_id(state_remove_id(s, v.id), v.id),
            v,
        ));
        lemma_state_remove_id_full(state_remove_id(s, v.id), v.id);
        lemma_state_remove_id_absent(state_remove_id(s, v.id), v.id);
    };
}

/// The date of the day holding `id` (meaningful only when some day does).
pub open spec fn state_day_of_id(s: Seq<DayView>, id: ActivityId) -> Date
    decreases s.len(),
{
    if s.len() == 0 {
        Date { year: 0, month: 0, day: 0 }
    } else if has_id(s[0].acts, id) {
        s[0].date
    } else {
        state_day_of_id(s.drop_first(), id)
    }
}

/// When day `i` holds `id`, it names the date `state_day_of_id` gives.
pub proof fn lemma_state_day_of_id(s: Seq<DayView>, id: ActivityId, i: int)
    requires
        0 <= i < s.len(),
        has_id(s[i].acts, id),
        forall|k: int| 0 <= k < i ==> !has_id((#[trigger] s[k]).acts, id),
    ensures
        state_day_of_id(s, id) == s[i].date,
    decreases i,
{
    if i > 0 {
        let t = s.drop_first();
        assert(forall|k: int| 0 <= k < t.len() ==> (#[trigger] t[k]) == s[k + 1]);
        lemma_state_day_of_id(t, id, i - 1);
    }
}

/// The mathematical value behind a vector of stored days.
pub open spec fn day_views_of(v: Seq<DayEntry>) -> Seq<DayView> {
    Seq::new(v.len(), |i: int| v[i]@)
}

/// The full date-keyed store, most recent day first.
#[derive(Debug)]
pub struct State {
    days: Vec<DayEntry>,
}

impl View for State {
    type V = Seq<DayView>;

    closed spec fn view(&self) -> Seq<DayView> {
        day_views_of(self.days@)
    }
}

impl State {
    /// The store's standing invariant.
    pub open spec fn wf(self) -> bool {
        state_wf(self@)
    }

    pub fn new() -> (r: State)
        ensures
            r@ =~= Seq::<DayView>::empty(),
            r.wf(),
    {
        State { days: Vec::new() }
    }

    pub fn n_days(&self) -> (r: usize)
        ensures
            r == self@.len(),
    {
        self.days.len()
    }

    pub fn is_empty(&self) -> (r: bool)
        ensures
            r == (self@.len() == 0),
    {
        self.days.len() == 0
    }

    /// The stored day at position `i` (position 0 is the most recent day).
    pub fn day(&self, i: usize) -> (r: &DayEntry)
        requires
            i < self@.len(),
        ensures
            r@ == self@[i as int],
    {
        &self.days[i]
    }

    /// The position of day `date`, if the store holds it.
    pub fn day_index(&self, date: Date) -> (r: Option<usize>)
        ensures
            match r {
                Some(i) => i < self@.len() && self@[i as int].date == date && forall|k: int|
                    0 <= k < i ==> (#[trigger] self@[k]).date != date,
                None => forall|k: int| 0 <= k < self@.len() ==> (#[trigger] self@[k]).date != date,
            },
    {
        let n = self.days.len();
        let mut i: usize = 0;
        while i < n
            invariant
                i <= n,
                n == self@.len(),
                forall|k: int| 0 <= k < i ==> (#[trigger] self@[k]).date != date,
            decreases n - i,
        {
            if self.days[i].date == date {
                return Some(i);
            }
            i = i + 1;
        }
        None
    }

    /// Take out the activity carrying `id`, on whatever day it lives; a day
    /// left empty disappears.
    fn take_out_id(&mut self, id: ActivityId) -> (r: Option<Activity>)
        requires
            old(self).wf(),
        ensures
            final(self).wf(),
            final(self)@ == state_remove_id(old(self)@, id),
            !state_has_id(final(self)@, id),
            match r {
                Some(p) => state_find_id(old(self)@, id) == Some(p@) && p@.id == id
                    && state_has_id(old(self)@, id),
                None => !state_has_id(old(self)@, id) && final(self)@ == old(self)@,
            },
    {
        let ghost s0 = self@;
        let n = self.days.len();
        let mut i: usize = 0;
        while i < n
            invariant
                i <= n,
                n == self@.len(),
                self@ == s0,
                s0 == old(self)@,
                state_wf(s0),
                forall|k: int| 0 <= k < i ==> !has_id((#[trigger] s0[k]).acts, id),
            decreases n - i,
        {
            if self.days[i].acts.contains_id(id) {
                proof {
                    assert(s0[i as int] == self.days@[i as int]@);
                    assert(has_id(s0[i as int].acts, id));
                    assert(state_has_id(s0, id));
                    lemma_state_remove_id_at(s0, id, i as int);
                    lemma_remove_id_props(s0[i as int].acts, id);
                }
                let mut entry = self.days.remove(i);
                let p = entry.acts.remove_by_id(id);
                let ghost acts1 = remove_id(s0[i as int].acts, id);
                if entry.acts.is_empty() {
                    proof {
                        lemma_state_remove_day_wf(s0, i as int);
                        assert(self@ =~= s0.remove(i as int));
                    }
                } else {
                    self.days.insert(i, entry);
                    proof {
                        assert forall|x: ActivityId| #[trigger] has_id(acts1, x) implies has_id(
                            s0[i as int].acts,
                            x,
                        ) || !state_has_id(s0, x) by {}
                        lemma_state_update_day_wf(s0, i as int, acts1);
                        assert(entry@ =~= DayView { date: s0[i as int].date, acts: acts1 });
                        assert(self@ =~= s0.update(
                            i as int,
                            DayView { date: s0[i as int].date, acts: acts1 },
                        ));
                    }
                }
                assert(!state_has_id(self@, id));
                return p;
            }
            i = i + 1;
        }
        proof {
            assert(!state_has_id(s0, id));
            lemma_state_remove_id_absent(s0, id);
        }
        None
    }

    /// File `t` under its own day.  If an activity with the same id already
    /// lives anywhere in the store — the same day or another — it is taken
    /// out first and handed back: that is how an edit happens, and it is
    /// what keeps ids unique across the whole store.
    pub fn add(&mut self, t: Activity) -> (prev: Option<Activity>)
        requires
            old(self).wf(),
        ensures
            final(self).wf(),
            final(self)@ == state_add(old(self)@, t@),
            match prev {
                Some(p) => state_find_id(old(self)@, t.id) == Some(p@) && p@.id == t.id
                    && state_has_id(old(self)@, t.id),
                None => !state_has_id(old(self)@, t.id),
            },
    {
        let prev = self.take_out_id(t.id);
        let ghost s1 = self@;
        let n = self.days.len();
        let mut j: usize = 0;
        let mut stop = false;
        while !stop && j < n
            invariant
                j <= n,
                n == self@.len(),
                self@ == s1,
                state_wf(s1),
                !state_has_id(s1, t@.id),
                forall|k: int| 0 <= k < j ==> date_lt(t@.day, (#[trigger] s1[k]).date),
                stop ==> j < n && !date_lt(t@.day, s1[j as int].date),
            decreases n - j + (if stop { 0int } else { 1int }),
        {
            if t.day.before(&self.days[j].date) {
                j = j + 1;
            } else {
                stop = true;
            }
        }
        proof {
            lemma_state_insert_at(s1, t@, j as int);
        }
        if j < self.days.len() && self.days[j].date == t.day {
            proof {
                assert(has_id(s1[j as int].acts, t.id) ==> state_has_id(s1, t.id));
                assert(!has_id(s1[j as int].acts, t@.id));
                crate::activity_vec::lemma_remove_id_absent(s1[j as int].acts, t@.id);
                lemma_insert_sorted_props(s1[j as int].acts, t@);
            }
            let mut entry = self.days.remove(j);
            let p2 = entry.acts.add(t);
            self.days.insert(j, entry);
            proof {
                let acts1 = insert_sorted(s1[j as int].acts, t@);
                assert(entry@ =~= DayView { date: t@.day, acts: acts1 });
                assert forall|x: ActivityId| #[trigger] has_id(acts1, x) implies has_id(
                    s1[j as int].acts,
                    x,
                ) || !state_has_id(s1, x) by {}
                lemma_state_update_day_wf(s1, j as int, acts1);
                assert(self@ =~= s1.update(j as int, DayView { date: t@.day, acts: acts1 }));
            }
        } else {
            let date = t.day;
            let mut av = ActivityVec::new();
            let p2 = av.add(t);
            proof {
                assert(av@ =~= seq![t@]);
            }
            let entry = DayEntry { date, acts: av };
            proof {
                let d = entry@;
                assert forall|k: int| j <= k < s1.len() implies date_lt(
                    (#[trigger] s1[k]).date,
                    d.date,
                ) by {
                    if k > j as int {
                        assert(date_lt(s1[k].date, s1[j as int].date));
                    }
                };
                lemma_state_insert_day_wf(s1, j as int, d);
            }
            self.days.insert(j, entry);
            proof {
                assert(self@ =~= s1.insert(j as int, DayView { date: t@.day, acts: seq![t@] }));
            }
        }
        prev
    }

    /// Remove and return the activity at (`date`, `index`); the day is
    /// pruned when that was its last activity.
    pub fn remove(&mut self, date: Date, index: usize) -> (r: Option<Activity>)
        requires
            old(self).wf(),
        ensures
            final(self).wf(),
            final(self)@ == state_remove_at(old(self)@, date, index as int),
            match r {
                Some(p) => state_at(old(self)@, date, index as int) == Some(p@),
                None => state_at(old(self)@, date, index as int) is None && final(self)@ == old(
                    self,
                )@,
            },
    {
        let ghost s0 = self@;
        match self.day_index(date) {
            None => {
                proof {
                    lemma_state_day_absent(s0, date, index as int, ActivityId(0));
                }
                None
            },
            Some(i) => {
                proof {
                    lemma_state_day_at(s0, date, index as int, ActivityId(0), i as int);
                }
                let mut entry = self.days.remove(i);
                let r = entry.acts.remove(index);
                match r {
                    None => {
                        self.days.insert(i, entry);
                        proof {
                            assert(s0[i as int] == old(self).days@[i as int]@);
                            assert(entry.date == s0[i as int].date);
                            assert(entry.acts@ =~= s0[i as int].acts);
                            assert(entry@ == DayView { date: s0[i as int].date, acts: s0[i as int].acts });
                            assert(s0[i as int] =~= DayView { date: s0[i as int].date, acts: s0[i as int].acts });
                            assert(entry@ == s0[i as int]);
                            assert(self@ =~= s0);
                        }
                        None
                    },
                    Some(p) => {
                        let ghost acts1 = s0[i as int].acts.remove(index as int);
                        if entry.acts.is_empty() {
                            proof {
                                lemma_state_remove_day_wf(s0, i as int);
                                assert(self@ =~= s0.remove(i as int));
                            }
                        } else {
                            self.days.insert(i, entry);
                            proof {
                                assert(forall|k: int|
                                    0 <= k < acts1.len() ==> #[trigger] acts1[k] == (if k
                                        < index as int {
                                        s0[i as int].acts[k]
                                    } else {
                                        s0[i as int].acts[k + 1]
                                    }));
                                assert forall|x: ActivityId| #[trigger] has_id(acts1, x) implies
                                    has_id(s0[i as int].acts, x) || !state_has_id(s0, x) by {
                                    let k = choose|k: int|
                                        0 <= k < acts1.len() && (#[trigger] acts1[k].id) == x;
                                    if k < index as int {
                                        assert(s0[i as int].acts[k].id == x);
                                    } else {
                                        assert(s0[i as int].acts[k + 1].id == x);
                                    }
                                };
                                lemma_state_update_day_wf(s0, i as int, acts1);
                                assert(entry@ =~= DayView { date, acts: acts1 });
                                assert(self@ =~= s0.update(
                                    i as int,
                                    DayView { date, acts: acts1 },
                                ));
                            }
                        }
                        Some(p)
                    },
                }
            },
        }
    }

    /// Remove and return the activity carrying `id` from day `date`; the day
    /// is pruned when that was its last activity.
    pub fn remove_by_id(&mut self, date: Date, id: ActivityId) -> (r: Option<Activity>)
        requires
            old(self).wf(),
        ensures
            final(self).wf(),
            final(self)@ == state_remove_in_day(old(self)@, date, id),
            match r {
                Some(p) => state_find_in_day(old(self)@, date, id) == Some(p@) && p@.id == id,
                None => state_find_in_day(old(self)@, date, id) is None && final(self)@ == old(
                    self,
                )@,
            },
    {
        let ghost s0 = self@;
        match self.day_index(date) {
            None => {
                proof {
                    lemma_state_day_absent(s0, date, 0, id);
                }
                None
            },
            Some(i) => {
                proof {
                    lemma_state_day_at(s0, date, 0, id, i as int);
                    lemma_remove_id_props(s0[i as int].acts, id);
                    crate::activity_vec::lemma_find_id_spec(s0[i as int].acts, id);
                }
                let mut entry = self.days.remove(i);
                let r = entry.acts.remove_by_id(id);
                match r {
                    None => {
                        self.days.insert(i, entry);
                        proof {
                            crate::activity_vec::lemma_remove_id_absent(s0[i as int].acts, id);
                            assert(s0[i as int] == old(self).days@[i as int]@);
                            assert(entry.date == s0[i as int].date);
                            assert(entry.acts@ == s0[i as int].acts);
                            assert(entry@ =~= s0[i as int]);
                            assert(self@ =~= s0);
                        }
                        None
                    },
                    Some(p) => {
                        let ghost acts1 = remove_id(s0[i as int].acts, id);
                        if entry.acts.is_empty() {
                            proof {
                                lemma_state_remove_day_wf(s0, i as int);
                                assert(self@ =~= s0.remove(i as int));
                            }
                        } else {
                            self.days.insert(i, entry);
                            proof {
                                assert forall|x: ActivityId| #[trigger] has_id(acts1, x) implies
                                    has_id(s0[i as int].acts, x) || !state_has_id(s0, x) by {}
                                lemma_state_update_day_wf(s0, i as int, acts1);
                                assert(entry@ =~= DayView { date, acts: acts1 });
                                assert(self@ =~= s0.update(
                                    i as int,
                                    DayView { date, acts: acts1 },
                                ));
                            }
                        }
                        Some(p)
                    },
                }
            },
        }
    }

    /// Read access to the activity carrying `id` on day `date`, if any.
    pub fn find_by_id(&self, date: Date, id: ActivityId) -> (r: Option<&Activity>)
        ensures
            match r {
                Some(a) => state_find_in_day(self@, date, id) == Some(a@) && a@.id == id,
                None => state_find_in_day(self@, date, id) is None,
            },
    {
        let ghost s0 = self@;
        match self.day_index(date) {
            None => {
                proof {
                    lemma_state_day_absent(s0, date, 0, id);
                }
                None
            },
            Some(i) => {
                proof {
                    lemma_state_day_at(s0, date, 0, id, i as int);
                    crate::activity_vec::lemma_find_id_spec(s0[i as int].acts, id);
                }
                self.days[i].acts.find_by_id(id)
            },
        }
    }
}

/// Filing a new day raises the total count by that day's share.
pub proof fn lemma_state_count_insert(s: Seq<DayView>, j: int, d: DayView)
    requires
        0 <= j <= s.len(),
    ensures
        state_count(s.insert(j, d)) == state_count(s) + d.acts.len(),
    decreases j,
{
    if j == 0 {
        assert(s.insert(0, d).drop_first() =~= s);
        assert(s.insert(0, d)[0] == d);
    } else {
        let t = s.drop_first();
        lemma_state_count_insert(t, j - 1, d);
        assert(s.insert(j, d).drop_first() =~= t.insert(j - 1, d));
        assert(s.insert(j, d)[0] == s[0]);
    }
}

} // verus!
