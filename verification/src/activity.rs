//! One logged unit of work and its total order.
//!
//! An `Activity` is identified for its whole life by its `ActivityId`; the
//! id is the one key for "the same logical activity across edits".  Within a
//! day, activities are kept sorted by the total order below: lexicographic
//! on (day, start time, end time, action, issue, id), with an absent end
//! time ordering before any present one.

use vstd::prelude::*;

use crate::datetime::{date_lt, time_lt, Date, Time};
use crate::text::{compare_str, lemma_str_cmp_antisym, lemma_str_cmp_eq, lemma_str_lt_trans,
    str_cmp, Cmp};

verus! {

/// Process-lifetime unique identifier of an activity; never reused.
#[derive(Clone, Copy, PartialEq, Eq, Structural, Debug, Hash)]
pub struct ActivityId(pub u64);

/// One logged unit of work.
#[derive(Debug)]
pub struct Activity {
    pub day: Date,
    pub start_time: Time,
    pub end_time: Option<Time>,
    pub action: String,
    pub issue: String,
    pub id: ActivityId,
}

/// The mathematical value of an `Activity`: the same fields with the text
/// read off as character sequences.
#[verifier::ext_equal]
pub ghost struct ActivityView {
    pub day: Date,
    pub start_time: Time,
    pub end_time: Option<Time>,
    pub action: Seq<char>,
    pub issue: Seq<char>,
    pub id: ActivityId,
}

impl View for Activity {
    type V = ActivityView;

    open spec fn view(&self) -> ActivityView {
        ActivityView {
            day: self.day,
            start_time: self.start_time,
            end_time: self.end_time,
            action: self.action@,
            issue: self.issue@,
            id: self.id,
        }
    }
}

impl Clone for Activity {
    /// A clone carries the same value.
    fn clone(&self) -> (res: Self)
        ensures
            res@ == self@,
    {
        Activity {
            day: self.day,
            start_time: self.start_time,
            end_time: self.end_time,
            action: self.action.clone(),
            issue: self.issue.clone(),
            id: self.id,
        }
    }
}

pub open spec fn scalar_cmp(a: int, b: int) -> Cmp {
    if a < b {
        Cmp::Lt
    } else if a == b {
        Cmp::Eq
    } else {
        Cmp::Gt
    }
}

pub open spec fn date_cmp(a: Date, b: Date) -> Cmp {
    if date_lt(a, b) {
        Cmp::Lt
    } else if a == b {
        Cmp::Eq
    } else {
        Cmp::Gt
    }
}

pub open spec fn time_cmp(a: Time, b: Time) -> Cmp {
    if time_lt(a, b) {
        Cmp::Lt
    } else if a == b {
        Cmp::Eq
    } else {
        Cmp::Gt
    }
}

/// An absent end time sorts before any present one.
pub open spec fn opt_time_cmp(a: Option<Time>, b: Option<Time>) -> Cmp {
    match (a, b) {
        (None, None) => Cmp::Eq,
        (None, Some(_)) => Cmp::Lt,
        (Some(_), None) => Cmp::Gt,
        (Some(x), Some(y)) => time_cmp(x, y),
    }
}

/// First non-`Eq` outcome wins.
pub open spec fn after(c: Cmp, next: Cmp) -> Cmp {
    if c == Cmp::Eq {
        next
    } else {
        c
    }
}

/// The total order on activities: lexicographic on
/// (day, start time, end time, action, issue, id).
pub open spec fn act_cmp(a: ActivityView, b: ActivityView) -> Cmp {
    after(
        date_cmp(a.day, b.day),
        after(
            time_cmp(a.start_time, b.start_time),
            after(
                opt_time_cmp(a.end_time, b.end_time),
                after(
                    str_cmp(a.action, b.action),
                    after(str_cmp(a.issue, b.issue), scalar_cmp(a.id.0 as int, b.id.0 as int)),
                ),
            ),
        ),
    )
}

pub open spec fn act_lt(a: ActivityView, b: ActivityView) -> bool {
    act_cmp(a, b) == Cmp::Lt
}

/// The order is reflexive-free and `Eq` exactly on equal views.
pub proof fn lemma_act_cmp_eq(a: ActivityView, b: ActivityView)
    ensures
        act_cmp(a, b) == Cmp::Eq <==> a == b,
{
    lemma_str_cmp_eq(a.action, b.action);
    lemma_str_cmp_eq(a.issue, b.issue);
    if act_cmp(a, b) == Cmp::Eq {
        assert(a =~= b);
    }
}

/// `Lt` one way round is `Gt` the other way round; together with
/// `lemma_act_cmp_eq` this makes the order total.
pub proof fn lemma_act_cmp_antisym(a: ActivityView, b: ActivityView)
    ensures
        act_cmp(a, b) == Cmp::Lt <==> act_cmp(b, a) == Cmp::Gt,
{
    lemma_str_cmp_antisym(a.action, b.action);
    lemma_str_cmp_antisym(b.action, a.action);
    lemma_str_cmp_eq(a.action, b.action);
    lemma_str_cmp_eq(b.action, a.action);
    lemma_str_cmp_antisym(a.issue, b.issue);
    lemma_str_cmp_antisym(b.issue, a.issue);
    lemma_str_cmp_eq(a.issue, b.issue);
    lemma_str_cmp_eq(b.issue, a.issue);
}

/// The strict order is transitive.
pub proof fn lemma_act_lt_trans(a: ActivityView, b: ActivityView, c: ActivityView)
    requires
        act_lt(a, b),
        act_lt(b, c),
    ensures
        act_lt(a, c),
{
    lemma_str_cmp_eq(a.action, b.action);
    lemma_str_cmp_eq(b.action, c.action);
    lemma_str_cmp_eq(a.action, c.action);
    lemma_str_cmp_eq(a.issue, b.issue);
    lemma_str_cmp_eq(b.issue, c.issue);
    lemma_str_cmp_eq(a.issue, c.issue);
    if str_cmp(a.action, b.action) == Cmp::Lt && str_cmp(b.action, c.action) == Cmp::Lt {
        lemma_str_lt_trans(a.action, b.action, c.action);
    }
    if str_cmp(a.issue, b.issue) == Cmp::Lt && str_cmp(b.issue, c.issue) == Cmp::Lt {
        lemma_str_lt_trans(a.issue, b.issue, c.issue);
    }
}

/// Exec counterpart of `act_cmp`.
pub fn compare_activities(a: &Activity, b: &Activity) -> (r: Cmp)
    ensures
        r == act_cmp(a@, b@),
{
    if a.day.before(&b.day) {
        return Cmp::Lt;
    }
    if b.day.before(&a.day) {
        return Cmp::Gt;
    }
    assert(a.day == b.day);
    if a.start_time.before(&b.start_time) {
        return Cmp::Lt;
    }
    if b.start_time.before(&a.start_time) {
        return Cmp::Gt;
    }
    assert(a.start_time == b.start_time);
    match (&a.end_time, &b.end_time) {
        (None, Some(_)) => {
            return Cmp::Lt;
        },
        (Some(_), None) => {
            return Cmp::Gt;
        },
        (Some(x), Some(y)) => {
            if x.before(y) {
                return Cmp::Lt;
            }
            if y.before(x) {
                return Cmp::Gt;
            }
            assert(*x == *y);
        },
        (None, None) => {},
    }
    match compare_str(a.action.as_str(), b.action.as_str()) {
        Cmp::Lt => {
            return Cmp::Lt;
        },
        Cmp::Gt => {
            return Cmp::Gt;
        },
        Cmp::Eq => {},
    }
    match compare_str(a.issue.as_str(), b.issue.as_str()) {
        Cmp::Lt => {
            return Cmp::Lt;
        },
        Cmp::Gt => {
            return Cmp::Gt;
        },
        Cmp::Eq => {},
    }
    if a.id.0 < b.id.0 {
        Cmp::Lt
    } else if a.id.0 == b.id.0 {
        Cmp::Eq
    } else {
        Cmp::Gt
    }
}

/// `Lt` outcome of the order, the way sorted insertion asks for it.
pub fn activity_before(a: &Activity, b: &Activity) -> (r: bool)
    ensures
        r == act_lt(a@, b@),
{
    match compare_activities(a, b) {
        Cmp::Lt => true,
        _ => false,
    }
}

} // verus!
