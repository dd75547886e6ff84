//! The activity editor's text buffers.
//!
//! A new or edited activity is typed into five text buffers (issue, action,
//! start time, end time, day) with a cursor over them.  `to_activity` is
//! the validation boundary: it parses the buffers and either yields a
//! well-formed `Activity` or the message shown to the user, and nothing is
//! mutated on failure.

use vstd::prelude::*;

use crate::activity::{Activity, ActivityId, ActivityView};
use crate::datetime::{time_lt, Date, Time};
use crate::text::{eq_ignore_case, find_char_at, fmt_date, fmt_time, i32_text_ok, i32_text_val,
    spec_fmt_date, spec_fmt_time, spec_trim, u8_text_ok, u8_text_val};

verus! {

/// Which activity field the editor cursor is on.
#[derive(Clone, Copy, PartialEq, Eq, Structural, Debug, Hash)]
pub enum Selected {
    Action,
    StartTime,
    EndTime,
    Day,
    Issue,
}

impl Selected {
    pub open spec fn spec_next(self) -> Selected {
        match self {
            Selected::Issue => Selected::Action,
            Selected::Action => Selected::StartTime,
            Selected::StartTime => Selected::EndTime,
            Selected::EndTime => Selected::Day,
            Selected::Day => Selected::Issue,
        }
    }

    pub open spec fn spec_prev(self) -> Selected {
        match self {
            Selected::Issue => Selected::Day,
            Selected::Action => Selected::Issue,
            Selected::StartTime => Selected::Action,
            Selected::EndTime => Selected::StartTime,
            Selected::Day => Selected::EndTime,
        }
    }

    /// The field after this one; the cursor cycles through all five.
    pub fn next(self) -> (r: Selected)
        ensures
            r == self.spec_next(),
            r.spec_prev() == self,
    {
        match self {
            Selected::Issue => Selected::Action,
            Selected::Action => Selected::StartTime,
            Selected::StartTime => Selected::EndTime,
            Selected::EndTime => Selected::Day,
            Selected::Day => Selected::Issue,
        }
    }

    /// The field before this one; the cursor cycles through all five.
    pub fn prev(self) -> (r: Selected)
        ensures
            r == self.spec_prev(),
            r.spec_next() == self,
    {
        match self {
            Selected::Issue => Selected::Day,
            Selected::Action => Selected::Issue,
            Selected::StartTime => Selected::Action,
            Selected::EndTime => Selected::StartTime,
            Selected::Day => Selected::EndTime,
        }
    }
}

/// An activity being typed in: the raw text of every field, the id the
/// submitted activity will carry, and the end time of the previous row (the
/// value the word `last` stands for in the start-time field).
#[derive(Debug)]
pub struct ActivityBeingBuilt {
    pub id: ActivityId,
    pub last_time: Option<Time>,
    pub action: String,
    pub issue: String,
    pub start_time: String,
    pub end_time: String,
    pub day: String,
    pub selected: Selected,
    pub editing: bool,
}

impl ActivityBeingBuilt {
    /// A blank editor for a brand-new activity carrying a caller-chosen
    /// fresh id.
    pub fn new(id: ActivityId, last_time: Option<Time>) -> (r: ActivityBeingBuilt)
        ensures
            r.id == id,
            r.last_time == last_time,
            r.action@.len() == 0,
            r.issue@.len() == 0,
            r.start_time@.len() == 0,
            r.end_time@.len() == 0,
            r.day@.len() == 0,
            r.selected is Issue,
            r.editing,
    {
        ActivityBeingBuilt {
            id,
            last_time,
            action: String::new(),
            issue: String::new(),
            start_time: String::new(),
            end_time: String::new(),
            day: String::new(),
            selected: Selected::Issue,
            editing: true,
        }
    }

    /// An editor pre-filled from an existing activity, keeping its id so
    /// that submitting is an edit of the same record.
    pub fn from_activity(a: &Activity, last_time: Option<Time>) -> (r: ActivityBeingBuilt)
        ensures
            r.id == a.id,
            r.last_time == last_time,
            r.action@ == a.action@,
            r.issue@ == a.issue@,
            r.start_time@ == spec_fmt_time(a.start_time),
            r.end_time@ == match a.end_time {
                Some(t) => spec_fmt_time(t),
                None => Seq::<char>::empty(),
            },
            r.day@ == spec_fmt_date(a.day),
            r.selected is Action,
            r.editing,
    {
        let end_time = match &a.end_time {
            Some(t) => fmt_time(t),
            None => String::new(),
        };
        ActivityBeingBuilt {
            id: a.id,
            last_time,
            action: a.action.clone(),
            issue: a.issue.clone(),
            start_time: fmt_time(&a.start_time),
            end_time,
            day: fmt_date(&a.day),
            selected: Selected::Action,
            editing: true,
        }
    }

    pub fn select_next(&mut self)
        ensures
            final(self).selected == old(self).selected.spec_next(),
            final(self).id == old(self).id,
            final(self).last_time == old(self).last_time,
            final(self).action == old(self).action,
            final(self).issue == old(self).issue,
            final(self).start_time == old(self).start_time,
            final(self).end_time == old(self).end_time,
            final(self).day == old(self).day,
            final(self).editing == old(self).editing,
    {
        self.selected = self.selected.next();
    }

    pub fn select_prev(&mut self)
        ensures
            final(self).selected == old(self).selected.spec_prev(),
            final(self).id == old(self).id,
            final(self).last_time == old(self).last_time,
            final(self).action == old(self).action,
            final(self).issue == old(self).issue,
            final(self).start_time == old(self).start_time,
            final(self).end_time == old(self).end_time,
            final(self).day == old(self).day,
            final(self).editing == old(self).editing,
    {
        self.selected = self.selected.prev();
    }

    /// The buffer the cursor is on, open for the caller to type into.
    pub fn selected_buf(&mut self) -> (r: &mut String)
        ensures
            final(self).id == old(self).id,
            final(self).last_time == old(self).last_time,
            final(self).selected == old(self).selected,
            final(self).editing == old(self).editing,
            match old(self).selected {
                Selected::Action => {
                    &&& *r == old(self).action
                    &&& final(self).action == *final(r)
                    &&& final(self).issue == old(self).issue
                    &&& final(self).start_time == old(self).start_time
                    &&& final(self).end_time == old(self).end_time
                    &&& final(self).day == old(self).day
                },
                Selected::Issue => {
                    &&& *r == old(self).issue
                    &&& final(self).issue == *final(r)
                    &&& final(self).action == old(self).action
                    &&& final(self).start_time == old(self).start_time
                    &&& final(self).end_time == old(self).end_time
                    &&& final(self).day == old(self).day
                },
                Selected::StartTime => {
                    &&& *r == old(self).start_time
                    &&& final(self).start_time == *final(r)
                    &&& final(self).action == old(self).action
                    &&& final(self).issue == old(self).issue
                    &&& final(self).end_time == old(self).end_time
                    &&& final(self).day == old(self).day
                },
                Selected::EndTime => {
                    &&& *r == old(self).end_time
                    &&& final(self).end_time == *final(r)
                    &&& final(self).action == old(self).action
                    &&& final(self).issue == old(self).issue
                    &&& final(self).start_time == old(self).start_time
                    &&& final(self).day == old(self).day
                },
                Selected::Day => {
                    &&& *r == old(self).day
                    &&& final(self).day == *final(r)
                    &&& final(self).action == old(self).action
                    &&& final(self).issue == old(self).issue
                    &&& final(self).start_time == old(self).start_time
                    &&& final(self).end_time == old(self).end_time
                },
            },
    {
        match self.selected {
            Selected::Action => &mut self.action,
            Selected::Issue => &mut self.issue,
            Selected::StartTime => &mut self.start_time,
            Selected::EndTime => &mut self.end_time,
            Selected::Day => &mut self.day,
        }
    }

    pub fn set_editing(&mut self, state: bool)
        ensures
            final(self).editing == state,
            final(self).id == old(self).id,
            final(self).last_time == old(self).last_time,
            final(self).selected == old(self).selected,
            final(self).action == old(self).action,
            final(self).issue == old(self).issue,
            final(self).start_time == old(self).start_time,
            final(self).end_time == old(self).end_time,
            final(self).day == old(self).day,
    {
        self.editing = state;
    }

    pub fn is_editing(&self) -> (r: bool)
        ensures
            r == self.editing,
    {
        self.editing
    }

    /// Parse the buffers into an activity, or the message shown to the
    /// user.  `now` and `today` stand in for the clock and the calendar,
    /// which the caller reads.
    pub fn to_activity(&self, now: Time, today: Date) -> (r: Result<Activity, &'static str>)
        requires
            now.wf(),
            today.wf(),
        ensures
            match r {
                Ok(a) => spec_to_activity(
                    self.action@,
                    self.issue@,
                    self.id,
                    self.start_time@,
                    self.end_time@,
                    self.day@,
                    self.last_time,
                    now,
                    today,
                ) == Ok::<ActivityView, Seq<char>>(a@),
                Err(m) => spec_to_activity(
                    self.action@,
                    self.issue@,
                    self.id,
                    self.start_time@,
                    self.end_time@,
                    self.day@,
                    self.last_time,
                    now,
                    today,
                ) == Err::<ActivityView, Seq<char>>(m@),
            },
    {
        if self.action.as_str().is_empty() {
            return Err("action field is mandatory");
        }
        let start_time = match parse_time(self.start_time.as_str(), true, self.last_time, now) {
            Ok(t) => t,
            Err(m) => {
                return Err(m);
            },
        };
        let end_time = if self.end_time.as_str().is_empty() {
            None
        } else {
            let e = match parse_time(self.end_time.as_str(), false, None, now) {
                Ok(t) => t,
                Err(m) => {
                    return Err(m);
                },
            };
            if e.before(&start_time) {
                return Err("end time can't be before start time");
            }
            Some(e)
        };
        let day = match parse_day(self.day.as_str(), today) {
            Ok(d) => d,
            Err(m) => {
                return Err(m);
            },
        };
        Ok(
            Activity {
                day,
                start_time,
                end_time,
                action: self.action.clone(),
                issue: self.issue.clone(),
                id: self.id,
            },
        )
    }
}

/// What submitting the editor means, over the buffer texts: the activity
/// built from them, or the message shown to the user.
pub open spec fn spec_to_activity(
    action: Seq<char>,
    issue: Seq<char>,
    id: ActivityId,
    start_text: Seq<char>,
    end_text: Seq<char>,
    day_text: Seq<char>,
    last_time: Option<Time>,
    now: Time,
    today: Date,
) -> Result<ActivityView, Seq<char>> {
    if action.len() == 0 {
        Err("action field is mandatory"@)
    } else {
        match spec_parse_time(start_text, true, last_time, now) {
            Err(m) => Err(m),
            Ok(start) => {
                let end = if end_text.len() == 0 {
                    Ok(None::<Time>)
                } else {
                    match spec_parse_time(end_text, false, None, now) {
                        Err(m) => Err(m),
                        Ok(e) => if time_lt(e, start) {
                            Err("end time can't be before start time"@)
                        } else {
                            Ok(Some(e))
                        },
                    }
                };
                match end {
                    Err(m) => Err(m),
                    Ok(e) => match spec_parse_day(day_text, today) {
                        Err(m) => Err(m),
                        Ok(d) => Ok(
                            ActivityView {
                                day: d,
                                start_time: start,
                                end_time: e,
                                action,
                                issue,
                                id,
                            },
                        ),
                    },
                }
            },
        }
    }
}

/// What a typed time of day means: the words `now` and `last`, or
/// `HH[:MM]`, with the minute defaulting to the current one only during the
/// current hour, and an empty text meaning `now` where the caller says so.
pub open spec fn spec_parse_time(
    s: Seq<char>,
    assume_now: bool,
    last_time: Option<Time>,
    now: Time,
) -> Result<Time, Seq<char>> {
    if eq_ignore_case(s, "now"@) || (s.len() == 0 && assume_now) {
        Ok(Time { hour: now.hour, minute: now.minute })
    } else if eq_ignore_case(s, "last"@) {
        match last_time {
            Some(t) => Ok(t),
            None => Err("no previous time available"@),
        }
    } else {
        let hs = match find_char_at(s, ':') {
            None => s,
            Some(i) => s.take(i),
        };
        let ms = match find_char_at(s, ':') {
            None => Seq::<char>::empty(),
            Some(i) => s.skip(i + 1),
        };
        if !u8_text_ok(hs) {
            Err("failed to parse time: invalid hour"@)
        } else {
            let h = u8_text_val(hs);
            let m = if ms.len() == 0 {
                if h == now.hour {
                    Ok(now.minute as int)
                } else {
                    Err("can't use current minute because you are not inputing current hour"@)
                }
            } else if !u8_text_ok(ms) {
                Err("failed to parse time: invalid minute"@)
            } else {
                Ok(u8_text_val(ms))
            };
            match m {
                Err(e) => Err(e),
                Ok(mv) => if h < 24 && mv < 60 {
                    Ok(Time { hour: h as u8, minute: mv as u8 })
                } else {
                    Err("failed to parse time: hour or minute out of bounds"@)
                },
            }
        }
    }
}

/// Exec counterpart of `spec_parse_time`.
pub fn parse_time(s: &str, assume_now: bool, last_time: Option<Time>, now: Time) -> (r: Result<
    Time,
    &'static str,
>)
    requires
        now.wf(),
    ensures
        match r {
            Ok(t) => spec_parse_time(s@, assume_now, last_time, now) == Ok::<Time, Seq<char>>(t),
            Err(m) => spec_parse_time(s@, assume_now, last_time, now) == Err::<Time, Seq<char>>(
                m@,
            ),
        },
{
    if crate::text::str_eq_ignore_case(s, "now") || (s.is_empty() && assume_now) {
        return Ok(Time { hour: now.hour, minute: now.minute });
    }
    if crate::text::str_eq_ignore_case(s, "last") {
        return match last_time {
            Some(t) => Ok(t),
            None => Err("no previous time available"),
        };
    }
    let n = s.unicode_len();
    let (hs, ms) = match crate::text::find_char(s, ':') {
        None => (s, ""),
        Some(i) => {
            let hs = s.substring_char(0, i);
            let ms = s.substring_char(i + 1, n);
            proof {
                assert(hs@ =~= s@.take(
                    match find_char_at(s@, ':') {
                        Some(i) => i,
                        None => 0,
                    },
                ));
                assert(ms@ =~= s@.skip(
                    match find_char_at(s@, ':') {
                        Some(i) => i + 1,
                        None => 0,
                    },
                ));
            }
            (hs, ms)
        },
    };
    proof {
        reveal_strlit("");
        if find_char_at(s@, ':') is None {
            assert(""@ =~= Seq::<char>::empty());
        }
    }
    let h = match crate::text::parse_u8(hs) {
        Some(h) => h,
        None => {
            return Err("failed to parse time: invalid hour");
        },
    };
    let m: u8 = if ms.is_empty() {
        if h == now.hour {
            now.minute
        } else {
            return Err("can't use current minute because you are not inputing current hour");
        }
    } else {
        match crate::text::parse_u8(ms) {
            Some(m) => m,
            None => {
                return Err("failed to parse time: invalid minute");
            },
        }
    };
    if h < 24 && m < 60 {
        Ok(Time { hour: h, minute: m })
    } else {
        Err("failed to parse time: hour or minute out of bounds")
    }
}

pub open spec fn is_date_delim(c: char) -> bool {
    c == '/' || c == '-'
}

/// The first position of a date separator, if one occurs.
pub open spec fn find_delim_at(s: Seq<char>) -> Option<int>
    decreases s.len(),
{
    if s.len() == 0 {
        None
    } else if is_date_delim(s[0]) {
        Some(0int)
    } else {
        match find_delim_at(s.drop_first()) {
            Some(i) => Some(i + 1),
            None => None,
        }
    }
}

/// When `i` is the first separator position, `find_delim_at` names it.
proof fn lemma_find_delim_at(s: Seq<char>, i: int)
    requires
        0 <= i <= s.len(),
        forall|k: int| 0 <= k < i ==> !is_date_delim(#[trigger] s[k]),
        i < s.len() ==> is_date_delim(s[i]),
    ensures
        find_delim_at(s) == if i < s.len() {
            Some(i)
        } else {
            None::<int>
        },
    decreases i,
{
    if i > 0 {
        let t = s.drop_first();
        assert(forall|k: int| 0 <= k < t.len() ==> (#[trigger] t[k]) == s[k + 1]);
        lemma_find_delim_at(t, i - 1);
    }
}

/// The first position of a date separator in the string, if one occurs.
fn find_delim(s: &str) -> (r: Option<usize>)
    ensures
        find_delim_at(s@) == match r {
            Some(i) => Some(i as int),
            None => None::<int>,
        },
        match r {
            Some(i) => i < s@.len(),
            None => true,
        },
{
    let n = s.unicode_len();
    let mut i: usize = 0;
    while i < n
        invariant
            i <= n,
            n == s@.len(),
            forall|k: int| 0 <= k < i ==> !is_date_delim(#[trigger] s@[k]),
        decreases n - i,
    {
        let c = s.get_char(i);
        if c == '/' || c == '-' {
            proof {
                lemma_find_delim_at(s@, i as int);
            }
            return Some(i);
        }
        i = i + 1;
    }
    proof {
        lemma_find_delim_at(s@, n as int);
    }
    None
}

/// The up-to-three fields of a typed date, split on `/` and `-`; anything
/// past the third separator is ignored.
pub open spec fn date_parts(s: Seq<char>) -> (Seq<char>, Option<Seq<char>>, Option<Seq<char>>) {
    match find_delim_at(s) {
        None => (s, None::<Seq<char>>, None::<Seq<char>>),
        Some(i) => {
            let rest = s.skip(i + 1);
            match find_delim_at(rest) {
                None => (s.take(i), Some(rest), None::<Seq<char>>),
                Some(j) => {
                    let rest2 = rest.skip(j + 1);
                    let third = match find_delim_at(rest2) {
                        None => rest2,
                        Some(k) => rest2.take(k),
                    };
                    (s.take(i), Some(rest.take(j)), Some(third))
                },
            }
        },
    }
}

/// What a typed date means, parsed against `today`: each present field
/// (day, then month, then year) replaces that part of the date in turn,
/// and each step must land on a day the calendar contains.
pub open spec fn spec_parse_day(s: Seq<char>, today: Date) -> Result<Date, Seq<char>> {
    let parts = date_parts(s);
    let p1 = spec_trim(parts.0);
    let step1: Result<Date, Seq<char>> = if p1.len() == 0 {
        Ok(today)
    } else if !u8_text_ok(p1) {
        Err("failed to parse date: invalid day"@)
    } else {
        let c = Date { year: today.year, month: today.month, day: u8_text_val(p1) as u8 };
        if c.wf() {
            Ok(c)
        } else {
            Err("failed to parse date: day out of bounds"@)
        }
    };
    match step1 {
        Err(e) => Err(e),
        Ok(t1) => {
            let step2: Result<Date, Seq<char>> = match parts.1 {
                None => Ok(t1),
                Some(p2raw) => {
                    let p2 = spec_trim(p2raw);
                    if !i32_text_ok(p2) {
                        Err("failed to parse date: invalid month number"@)
                    } else if !(1 <= i32_text_val(p2) <= 12) {
                        Err("failed to parse date: month number out of bounds"@)
                    } else {
                        let c = Date {
                            year: t1.year,
                            month: i32_text_val(p2) as u8,
                            day: t1.day,
                        };
                        if c.wf() {
                            Ok(c)
                        } else {
                            Err("failed to parse date: invalid month"@)
                        }
                    }
                },
            };
            match step2 {
                Err(e) => Err(e),
                Ok(t2) => match parts.2 {
                    None => Ok(t2),
                    Some(p3raw) => {
                        let p3 = spec_trim(p3raw);
                        if !i32_text_ok(p3) {
                            Err("failed to parse date: invalid year"@)
                        } else {
                            let c = Date {
                                year: i32_text_val(p3) as i32,
                                month: t2.month,
                                day: t2.day,
                            };
                            if c.wf() {
                                Ok(c)
                            } else {
                                Err("failed to parse date: year out of bounds"@)
                            }
                        }
                    },
                },
            }
        },
    }
}

/// Exec counterpart of `spec_parse_day`.
pub fn parse_day(s: &str, today: Date) -> (r: Result<Date, &'static str>)
    requires
        today.wf(),
    ensures
        match r {
            Ok(d) => spec_parse_day(s@, today) == Ok::<Date, Seq<char>>(d) && d.wf(),
            Err(m) => spec_parse_day(s@, today) == Err::<Date, Seq<char>>(m@),
        },
{
    let ghost parts = date_parts(s@);
    let n = s.unicode_len();
    let d1 = find_delim(s);
    let (p1s, rest_opt): (&str, Option<&str>) = match d1 {
        None => (s, None),
        Some(i) => (s.substring_char(0, i), Some(s.substring_char(i + 1, n))),
    };
    proof {
        match d1 {
            None => {
                assert(parts.0 == s@);
            },
            Some(i) => {
                assert(p1s@ =~= parts.0);
            },
        }
    }
    let mut cur = today;
    let p1t = crate::text::trim(p1s);
    if !p1t.is_empty() {
        match crate::text::parse_u8(p1t) {
            None => {
                return Err("failed to parse date: invalid day");
            },
            Some(dd) => {
                match Date::new(cur.year, cur.month, dd) {
                    Some(c) => {
                        cur = c;
                    },
                    None => {
                        return Err("failed to parse date: day out of bounds");
                    },
                }
            },
        }
    }
    match rest_opt {
        None => Ok(cur),
        Some(rest) => {
            let m = rest.unicode_len();
            proof {
                match find_delim_at(s@) {
                    Some(i) => {
                        assert(rest@ =~= s@.skip(i + 1));
                    },
                    None => {},
                }
            }
            let d2 = find_delim(rest);
            let (p2s, rest2_opt): (&str, Option<&str>) = match d2 {
                None => (rest, None),
                Some(j) => (rest.substring_char(0, j), Some(rest.substring_char(j + 1, m))),
            };
            proof {
                match d2 {
                    None => {},
                    Some(j) => {
                        assert(p2s@ =~= rest@.take(j as int));
                    },
                }
            }
            let p2t = crate::text::trim(p2s);
            match crate::text::parse_i32(p2t) {
                None => {
                    return Err("failed to parse date: invalid month number");
                },
                Some(mn) => {
                    if mn < 1 || mn > 12 {
                        return Err("failed to parse date: month number out of bounds");
                    }
                    match Date::new(cur.year, mn as u8, cur.day) {
                        Some(c) => {
                            cur = c;
                        },
                        None => {
                            return Err("failed to parse date: invalid month");
                        },
                    }
                },
            }
            match rest2_opt {
                None => Ok(cur),
                Some(rest2) => {
                    let m2 = rest2.unicode_len();
                    proof {
                        match find_delim_at(rest@) {
                            Some(j) => {
                                assert(rest2@ =~= rest@.skip(j + 1));
                            },
                            None => {},
                        }
                    }
                    let d3 = find_delim(rest2);
                    let p3s: &str = match d3 {
                        None => rest2,
                        Some(k) => rest2.substring_char(0, k),
                    };
                    proof {
                        match d3 {
                            None => {},
                            Some(k) => {
                                assert(p3s@ =~= rest2@.take(k as int));
                            },
                        }
                    }
                    let p3t = crate::text::trim(p3s);
                    match crate::text::parse_i32(p3t) {
                        None => {
                            return Err("failed to parse date: invalid year");
                        },
                        Some(yy) => {
                            match Date::new(yy, cur.month, cur.day) {
                                Some(c) => Ok(c),
                                None => Err("failed to parse date: year out of bounds"),
                            }
                        },
                    }
                },
            }
        },
    }
}

} // verus!
