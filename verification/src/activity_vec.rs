//! One day's activities, always kept sorted.
//!
//! `ActivityVec` owns the activities of a single calendar day, sorted by the
//! total activity order and with no two elements sharing an id.  `add` is
//! also how an edit happens: an incoming activity whose id is already
//! present replaces the old record and hands it back.
//!
//! The contracts are written against three recursive functions on sequences
//! of activity values — `find_id`, `remove_id` and `insert_sorted` — so that
//! every mutation has one deterministic mathematical description.

use vstd::prelude::*;

use crate::activity::{act_lt, lemma_act_cmp_antisym, lemma_act_cmp_eq, lemma_act_lt_trans,
    activity_before, Activity, ActivityId, ActivityView};

verus! {

/// The sequence of mathematical values behind a sequence of activities.
pub open spec fn views_of(v: Seq<Activity>) -> Seq<ActivityView> {
    Seq::new(v.len(), |i: int| v[i]@)
}

/// Strictly sorted by the total activity order.
pub open spec fn sorted(s: Seq<ActivityView>) -> bool {
    forall|i: int, j: int| 0 <= i < j < s.len() ==> act_lt(#[trigger] s[i], #[trigger] s[j])
}

/// No two elements share an id.
pub open spec fn uniq_ids(s: Seq<ActivityView>) -> bool {
    forall|i: int, j: int|
        0 <= i < j < s.len() ==> (#[trigger] s[i].id) != (#[trigger] s[j].id)
}

pub open spec fn has_id(s: Seq<ActivityView>, id: ActivityId) -> bool {
    exists|i: int| 0 <= i < s.len() && (#[trigger] s[i].id) == id
}

/// The first element carrying `id`, if any.
pub open spec fn find_id(s: Seq<ActivityView>, id: ActivityId) -> Option<ActivityView>
    decreases s.len(),
{
    if s.len() == 0 {
        None
    } else if s[0].id == id {
        Some(s[0])
    } else {
        find_id(s.drop_first(), id)
    }
}

/// The sequence with the first element carrying `id` taken out.
pub open spec fn remove_id(s: Seq<ActivityView>, id: ActivityId) -> Seq<ActivityView>
    decreases s.len(),
{
    if s.len() == 0 {
        s
    } else if s[0].id == id {
        s.drop_first()
    } else {
        seq![s[0]] + remove_id(s.drop_first(), id)
    }
}

/// The sequence with `v` inserted at its sorted position.
pub open spec fn insert_sorted(s: Seq<ActivityView>, v: ActivityView) -> Seq<ActivityView>
    decreases s.len(),
{
    if s.len() == 0 {
        seq![v]
    } else if act_lt(v, s[0]) {
        seq![v] + s
    } else {
        seq![s[0]] + insert_sorted(s.drop_first(), v)
    }
}

/// `find_id` answers `Some` exactly where `has_id` holds, and on sequences
/// without duplicate ids it returns the unique element carrying the id.
pub proof fn lemma_find_id_spec(s: Seq<ActivityView>, id: ActivityId)
    ensures
        find_id(s, id) is Some <==> has_id(s, id),
        match find_id(s, id) {
            Some(v) => v.id == id && exists|i: int|
                0 <= i < s.len() && #[trigger] s[i] == v,
            None => true,
        },
    decreases s.len(),
{
    if s.len() > 0 {
        lemma_find_id_spec(s.drop_first(), id);
        if s[0].id != id {
            if has_id(s, id) {
                let i = choose|i: int| 0 <= i < s.len() && (#[trigger] s[i].id) == id;
                assert(s.drop_first()[i - 1].id == id);
            }
            if has_id(s.drop_first(), id) {
                let i = choose|i: int|
                    0 <= i < s.drop_first().len() && (#[trigger] s.drop_first()[i].id) == id;
                assert(s[i + 1].id == id);
            }
            match find_id(s.drop_first(), id) {
                Some(v) => {
                    let i = choose|i: int|
                        0 <= i < s.drop_first().len() && #[trigger] s.drop_first()[i] == v;
                    assert(s[i + 1] == v);
                },
                None => {},
            }
        }
    }
}

/// Removing an id that is not there changes nothing.
pub proof fn lemma_remove_id_absent(s: Seq<ActivityView>, id: ActivityId)
    requires
        !has_id(s, id),
    ensures
        remove_id(s, id) == s,
    decreases s.len(),
{
    if s.len() > 0 {
        assert(s[0].id != id);
        assert(forall|i: int|
            0 <= i < s.drop_first().len() ==> (#[trigger] s.drop_first()[i].id) == s[i + 1].id
                && s[i + 1].id != id);
        lemma_remove_id_absent(s.drop_first(), id);
        assert(seq![s[0]] + s.drop_first() =~= s);
    }
}

/// When `i` is the first position carrying `id`, `remove_id` is removal at `i`.
pub proof fn lemma_remove_id_at(s: Seq<ActivityView>, id: ActivityId, i: int)
    requires
        0 <= i < s.len(),
        s[i].id == id,
        forall|k: int| 0 <= k < i ==> (#[trigger] s[k].id) != id,
    ensures
        remove_id(s, id) == s.remove(i),
        find_id(s, id) == Some(s[i]),
    decreases i,
{
    if i == 0 {
        assert(remove_id(s, id) == s.drop_first());
        assert(s.drop_first() =~= s.remove(0));
    } else {
        lemma_remove_id_at(s.drop_first(), id, i - 1);
        assert(s.drop_first()[i - 1] == s[i]);
        assert(forall|k: int|
            0 <= k < i - 1 ==> (#[trigger] s.drop_first()[k].id) == s[k + 1].id && s[k + 1].id
                != id);
        assert(remove_id(s, id) == seq![s[0]] + s.drop_first().remove(i - 1));
        assert(seq![s[0]] + s.drop_first().remove(i - 1) =~= s.remove(i));
    }
}

/// When `j` is the first position that `v` sorts before, `insert_sorted`
/// is insertion at `j`.
pub proof fn lemma_insert_sorted_position(s: Seq<ActivityView>, v: ActivityView, j: int)
    requires
        0 <= j <= s.len(),
        forall|k: int| 0 <= k < j ==> !act_lt(v, #[trigger] s[k]),
        j < s.len() ==> act_lt(v, s[j]),
    ensures
        insert_sorted(s, v) == s.insert(j, v),
    decreases s.len(),
{
    if s.len() == 0 {
        assert(insert_sorted(s, v) =~= s.insert(0, v));
    } else if act_lt(v, s[0]) {
        assert(j == 0);
        assert(seq![v] + s =~= s.insert(0, v));
    } else {
        assert(j > 0);
        lemma_insert_sorted_position(s.drop_first(), v, j - 1);
        assert(forall|k: int|
            0 <= k < j - 1 ==> (#[trigger] s.drop_first()[k]) == s[k + 1] && !act_lt(v, s[k + 1]));
        if j - 1 < s.drop_first().len() {
            assert(s.drop_first()[j - 1] == s[j]);
        }
        assert(insert_sorted(s, v) == seq![s[0]] + s.drop_first().insert(j - 1, v));
        assert(seq![s[0]] + s.drop_first().insert(j - 1, v) =~= s.insert(j, v));
    }
}

/// Taking one element out keeps the sequence sorted and id-unique.
pub proof fn lemma_remove_preserves_wf(s: Seq<ActivityView>, i: int)
    requires
        sorted(s),
        uniq_ids(s),
        0 <= i < s.len(),
    ensures
        sorted(s.remove(i)),
        uniq_ids(s.remove(i)),
        !has_id(s.remove(i), s[i].id),
{
    let r = s.remove(i);
    assert(forall|k: int| 0 <= k < i ==> #[trigger] r[k] == s[k]);
    assert(forall|k: int| i <= k < r.len() ==> #[trigger] r[k] == s[k + 1]);
    if has_id(r, s[i].id) {
        let k = choose|k: int| 0 <= k < r.len() && (#[trigger] r[k].id) == s[i].id;
        if k < i {
            assert(s[k].id == s[i].id);
        } else {
            assert(s[k + 1].id == s[i].id);
        }
    }
}

/// Inserting a fresh id at its sort position keeps the sequence sorted and
/// id-unique.
pub proof fn lemma_insert_preserves_wf(s: Seq<ActivityView>, v: ActivityView, j: int)
    requires
        sorted(s),
        uniq_ids(s),
        !has_id(s, v.id),
        0 <= j <= s.len(),
        forall|k: int| 0 <= k < j ==> !act_lt(v, #[trigger] s[k]),
        j < s.len() ==> act_lt(v, s[j]),
    ensures
        sorted(s.insert(j, v)),
        uniq_ids(s.insert(j, v)),
{
    let r = s.insert(j, v);
    assert(forall|k: int| 0 <= k < j ==> #[trigger] r[k] == s[k]);
    assert(r[j] == v);
    assert(forall|k: int| j < k < r.len() ==> #[trigger] r[k] == s[k - 1]);
    assert forall|k: int| 0 <= k < j implies act_lt(#[trigger] s[k], v) by {
        assert(s[k].id != v.id);
        lemma_act_cmp_eq(v, s[k]);
        lemma_act_cmp_antisym(s[k], v);
    };
    assert forall|k: int| j <= k < s.len() implies act_lt(v, #[trigger] s[k]) by {
        if j < k {
            lemma_act_lt_trans(v, s[j], s[k]);
        }
    };
    assert forall|a: int, b: int| 0 <= a < b < r.len() implies act_lt(r[a], r[b]) by {
        if a < j && b < j {
        } else if a == j && b > j {
        } else if b == j && a < j {
        } else if a < j && b > j {
            lemma_act_lt_trans(s[a], v, s[b - 1]);
        }
    };
    assert forall|a: int, b: int| 0 <= a < b < r.len() implies r[a].id != r[b].id by {
        if a == j || b == j {
        }
    };
}

/// The first position carrying `id`, when one exists.
pub proof fn lemma_first_id_index(s: Seq<ActivityView>, id: ActivityId) -> (i: int)
    requires
        has_id(s, id),
    ensures
        0 <= i < s.len(),
        s[i].id == id,
        forall|k: int| 0 <= k < i ==> (#[trigger] s[k].id) != id,
    decreases s.len(),
{
    if s[0].id == id {
        0
    } else {
        assert(s.len() > 0);
        let w = choose|w: int| 0 <= w < s.len() && (#[trigger] s[w].id) == id;
        assert(s.drop_first()[w - 1].id == id);
        assert(has_id(s.drop_first(), id));
        let j = lemma_first_id_index(s.drop_first(), id);
        assert(s[j + 1] == s.drop_first()[j]);
        assert(forall|k: int| 1 <= k < j + 1 ==> (#[trigger] s[k].id) == s.drop_first()[k - 1].id);
        j + 1
    }
}

/// A sort position for `v`: everything before it sorts no later than `v`,
/// and `v` sorts before whatever stands at it.
pub proof fn lemma_insert_position(s: Seq<ActivityView>, v: ActivityView) -> (j: int)
    ensures
        0 <= j <= s.len(),
        forall|k: int| 0 <= k < j ==> !act_lt(v, #[trigger] s[k]),
        j < s.len() ==> act_lt(v, s[j]),
    decreases s.len(),
{
    if s.len() == 0 {
        0
    } else if act_lt(v, s[0]) {
        0
    } else {
        let j = lemma_insert_position(s.drop_first(), v);
        assert(forall|k: int|
            1 <= k < j + 1 ==> (#[trigger] s[k]) == s.drop_first()[k - 1]);
        if j + 1 < s.len() {
            assert(s[j + 1] == s.drop_first()[j]);
        }
        j + 1
    }
}

/// What `remove_id` does to length, membership and order.
pub proof fn lemma_remove_id_props(s: Seq<ActivityView>, id: ActivityId)
    requires
        sorted(s),
        uniq_ids(s),
    ensures
        sorted(remove_id(s, id)),
        uniq_ids(remove_id(s, id)),
        !has_id(remove_id(s, id), id),
        remove_id(s, id).len() == if has_id(s, id) {
            s.len() - 1
        } else {
            s.len() as int
        },
        forall|x: ActivityId|
            #[trigger] has_id(remove_id(s, id), x) <==> (has_id(s, x) && x != id),
        forall|k: int|
            0 <= k < remove_id(s, id).len() ==> s.contains(#[trigger] remove_id(s, id)[k]),
        match find_id(s, id) {
            Some(v) => v.id == id && s.contains(v) && has_id(s, id),
            None => !has_id(s, id),
        },
{
    lemma_find_id_spec(s, id);
    if has_id(s, id) {
        let i = lemma_first_id_index(s, id);
        lemma_remove_id_at(s, id, i);
        lemma_remove_preserves_wf(s, i);
        let r = s.remove(i);
        assert(forall|k: int| 0 <= k < i ==> #[trigger] r[k] == s[k]);
        assert(forall|k: int| i <= k < r.len() ==> #[trigger] r[k] == s[k + 1]);
        assert forall|x: ActivityId| #[trigger] has_id(r, x) implies (has_id(s, x) && x != id) by {
            let k = choose|k: int| 0 <= k < r.len() && (#[trigger] r[k].id) == x;
            if k < i {
                assert(s[k].id == x);
            } else {
                assert(s[k + 1].id == x);
            }
        };
        assert forall|x: ActivityId| has_id(s, x) && x != id implies #[trigger] has_id(r, x) by {
            let k = choose|k: int| 0 <= k < s.len() && (#[trigger] s[k].id) == x;
            if k < i {
                assert(r[k].id == x);
            } else {
                assert(k != i);
                assert(r[k - 1].id == x);
            }
        };
        assert forall|k: int| 0 <= k < r.len() implies s.contains(#[trigger] r[k]) by {
            if k < i {
                assert(r[k] == s[k]);
            } else {
                assert(r[k] == s[k + 1]);
            }
        };
    } else {
        lemma_remove_id_absent(s, id);
        assert forall|k: int| 0 <= k < remove_id(s, id).len() implies s.contains(
            #[trigger] remove_id(s, id)[k],
        ) by {
            assert(remove_id(s, id)[k] == s[k]);
        };
    }
}

/// What `insert_sorted` does to length, membership and order.
pub proof fn lemma_insert_sorted_props(s: Seq<ActivityView>, v: ActivityView)
    requires
        sorted(s),
        uniq_ids(s),
        !has_id(s, v.id),
    ensures
        sorted(insert_sorted(s, v)),
        uniq_ids(insert_sorted(s, v)),
        insert_sorted(s, v).len() == s.len() + 1,
        forall|x: ActivityId|
            #[trigger] has_id(insert_sorted(s, v), x) <==> (has_id(s, x) || x == v.id),
        forall|k: int|
            0 <= k < insert_sorted(s, v).len() ==> (#[trigger] insert_sorted(s, v)[k]) == v
                || s.contains(insert_sorted(s, v)[k]),
        find_id(insert_sorted(s, v), v.id) == Some(v),
{
    let j = lemma_insert_position(s, v);
    lemma_insert_sorted_position(s, v, j);
    lemma_insert_preserves_wf(s, v, j);
    let r = s.insert(j, v);
    assert(forall|k: int| 0 <= k < j ==> #[trigger] r[k] == s[k]);
    assert(r[j] == v);
    assert(forall|k: int| j < k < r.len() ==> #[trigger] r[k] == s[k - 1]);
    assert forall|x: ActivityId| #[trigger] has_id(r, x) implies (has_id(s, x) || x == v.id) by {
        let k = choose|k: int| 0 <= k < r.len() && (#[trigger] r[k].id) == x;
        if k < j {
            assert(s[k].id == x);
        } else if k > j {
            assert(s[k - 1].id == x);
        }
    };
    assert forall|x: ActivityId| has_id(s, x) implies #[trigger] has_id(r, x) by {
        let k = choose|k: int| 0 <= k < s.len() && (#[trigger] s[k].id) == x;
        if k < j {
            assert(r[k].id == x);
        } else {
            assert(r[k + 1].id == x);
        }
    };
    assert(has_id(r, v.id)) by {
        assert(r[j].id == v.id);
    };
    assert forall|k: int| 0 <= k < r.len() implies (#[trigger] r[k]) == v || s.contains(r[k]) by {
        if k < j {
            assert(r[k] == s[k]);
        } else if k > j {
            assert(r[k] == s[k - 1]);
        }
    };
    assert forall|k: int| 0 <= k < j implies (#[trigger] r[k].id) != v.id by {
        if s[k].id == v.id {
            assert(has_id(s, v.id));
        }
    };
    lemma_remove_id_at(r, v.id, j);
}

/// Taking back out what was just put in restores the starting sequence.
pub proof fn lemma_insert_then_remove(s: Seq<ActivityView>, v: ActivityView)
    requires
        sorted(s),
        uniq_ids(s),
        !has_id(s, v.id),
    ensures
        remove_id(insert_sorted(s, v), v.id) == s,
{
    let j = lemma_insert_position(s, v);
    lemma_insert_sorted_position(s, v, j);
    let r = s.insert(j, v);
    assert forall|k: int| 0 <= k < j implies (#[trigger] r[k].id) != v.id by {
        assert(r[k] == s[k]);
        if s[k].id == v.id {
            assert(has_id(s, v.id));
        }
    };
    assert(r[j] == v);
    lemma_remove_id_at(r, v.id, j);
    assert(r.remove(j) =~= s);
}

/// Putting back what was just taken out restores the starting sequence.
pub proof fn lemma_remove_then_insert(s: Seq<ActivityView>, i: int)
    requires
        sorted(s),
        uniq_ids(s),
        0 <= i < s.len(),
    ensures
        insert_sorted(s.remove(i), s[i]) == s,
{
    let v = s[i];
    let r = s.remove(i);
    assert(forall|k: int| 0 <= k < i ==> #[trigger] r[k] == s[k]);
    assert(forall|k: int| i <= k < r.len() ==> #[trigger] r[k] == s[k + 1]);
    assert forall|k: int| 0 <= k < i implies !act_lt(v, #[trigger] r[k]) by {
        assert(r[k] == s[k]);
        assert(act_lt(s[k], v));
        lemma_act_cmp_antisym(s[k], v);
    };
    if i < r.len() {
        assert(r[i] == s[i + 1]);
        assert(act_lt(v, r[i]));
    }
    lemma_insert_sorted_position(r, v, i);
    assert(r.insert(i, v) =~= s);
}

/// One day's activities, sorted and id-unique.
#[derive(Debug)]
pub struct ActivityVec {
    v: Vec<Activity>,
}

impl View for ActivityVec {
    type V = Seq<ActivityView>;

    closed spec fn view(&self) -> Seq<ActivityView> {
        views_of(self.v@)
    }
}

impl ActivityVec {
    /// Sorted with no duplicate ids: the container's standing invariant.
    pub open spec fn wf(self) -> bool {
        sorted(self@) && uniq_ids(self@)
    }

    pub fn new() -> (r: ActivityVec)
        ensures
            r@ =~= Seq::<ActivityView>::empty(),
            r.wf(),
    {
        ActivityVec { v: Vec::new() }
    }

    pub fn len(&self) -> (r: usize)
        ensures
            r == self@.len(),
    {
        self.v.len()
    }

    pub fn is_empty(&self) -> (r: bool)
        ensures
            r == (self@.len() == 0),
    {
        self.v.len() == 0
    }

    pub fn get(&self, i: usize) -> (r: &Activity)
        requires
            i < self@.len(),
        ensures
            r@ == self@[i as int],
    {
        &self.v[i]
    }

    /// Read access to the underlying sorted vector (for rendering and saving).
    pub fn as_vec(&self) -> (r: &Vec<Activity>)
        ensures
            r@.len() == self@.len(),
            forall|i: int| 0 <= i < r@.len() ==> (#[trigger] r@[i])@ == self@[i],
    {
        &self.v
    }

    /// First index carrying `id`, if any.
    fn index_of_id(&self, id: ActivityId) -> (r: Option<usize>)
        ensures
            match r {
                Some(i) => i < self@.len() && self@[i as int].id == id && forall|k: int|
                    0 <= k < i ==> (#[trigger] self@[k].id) != id,
                None => !has_id(self@, id),
            },
    {
        let n = self.v.len();
        let mut i: usize = 0;
        while i < n
            invariant
                i <= n,
                n == self@.len(),
                forall|k: int| 0 <= k < i ==> (#[trigger] self@[k].id) != id,
            decreases n - i,
        {
            if self.v[i].id == id {
                return Some(i);
            }
            i = i + 1;
        }
        None
    }

    /// Whether some element carries `id`.
    pub fn contains_id(&self, id: ActivityId) -> (r: bool)
        ensures
            r == has_id(self@, id),
    {
        match self.index_of_id(id) {
            Some(_) => true,
            None => false,
        }
    }

    /// Insert `t` at its sorted position; if an element with the same id was
    /// already present (an edit), remove it first and hand it back.
    pub fn add(&mut self, t: Activity) -> (prev: Option<Activity>)
        requires
            old(self).wf(),
        ensures
            final(self).wf(),
            final(self)@ == insert_sorted(remove_id(old(self)@, t.id), t@),
            match prev {
                Some(p) => find_id(old(self)@, t.id) == Some(p@) && p@.id == t.id,
                None => !has_id(old(self)@, t.id),
            },
    {
        let ghost s0 = self@;
        let prev: Option<Activity> = match self.index_of_id(t.id) {
            Some(i) => {
                proof {
                    lemma_remove_id_at(s0, t.id, i as int);
                    lemma_remove_preserves_wf(s0, i as int);
                }
                let p = self.v.remove(i);
                proof {
                    assert(self@ =~= s0.remove(i as int));
                }
                Some(p)
            },
            None => {
                proof {
                    lemma_remove_id_absent(s0, t.id);
                }
                None
            },
        };
        let ghost s1 = self@;
        assert(s1 == remove_id(s0, t.id));
        assert(sorted(s1) && uniq_ids(s1) && !has_id(s1, t.id));
        let n = self.v.len();
        let mut j: usize = 0;
        let mut stop = false;
        while !stop && j < n
            invariant
                j <= n,
                n == self@.len(),
                self@ == s1,
                forall|k: int| 0 <= k < j ==> !act_lt(t@, #[trigger] self@[k]),
                stop ==> j < n && act_lt(t@, self@[j as int]),
            decreases n - j + (if stop { 0int } else { 1int }),
        {
            if activity_before(&t, &self.v[j]) {
                stop = true;
            } else {
                j = j + 1;
            }
        }
        proof {
            lemma_insert_sorted_position(s1, t@, j as int);
            lemma_insert_preserves_wf(s1, t@, j as int);
        }
        self.v.insert(j, t);
        proof {
            assert(self@ =~= s1.insert(j as int, t@));
        }
        prev
    }

    /// Remove and return the element at `index`; `None` when out of range.
    /// Removal needs no re-sort: it preserves the order as it stands.
    pub fn remove(&mut self, index: usize) -> (r: Option<Activity>)
        requires
            old(self).wf(),
        ensures
            final(self).wf(),
            if index < old(self)@.len() {
                match r {
                    Some(a) => a@ == old(self)@[index as int] && final(self)@ == old(self)@.remove(
                        index as int,
                    ),
                    None => false,
                }
            } else {
                r is None && final(self)@ == old(self)@
            },
    {
        if index < self.v.len() {
            let ghost s0 = self@;
            proof {
                lemma_remove_preserves_wf(s0, index as int);
            }
            let a = self.v.remove(index);
            proof {
                assert(self@ =~= s0.remove(index as int));
            }
            Some(a)
        } else {
            None
        }
    }

    /// Remove and return the first element carrying `id`, if any.
    pub fn remove_by_id(&mut self, id: ActivityId) -> (r: Option<Activity>)
        requires
            old(self).wf(),
        ensures
            final(self).wf(),
            final(self)@ == remove_id(old(self)@, id),
            match r {
                Some(a) => find_id(old(self)@, id) == Some(a@),
                None => !has_id(old(self)@, id),
            },
    {
        let ghost s0 = self@;
        match self.index_of_id(id) {
            Some(i) => {
                proof {
                    lemma_remove_id_at(s0, id, i as int);
                    lemma_remove_preserves_wf(s0, i as int);
                }
                let a = self.v.remove(i);
                proof {
                    assert(self@ =~= s0.remove(i as int));
                }
                Some(a)
            },
            None => {
                proof {
                    lemma_remove_id_absent(s0, id);
                }
                None
            },
        }
    }

    /// Read access to the element carrying `id`, if any.
    pub fn find_by_id(&self, id: ActivityId) -> (r: Option<&Activity>)
        ensures
            match r {
                Some(a) => find_id(self@, id) == Some(a@),
                None => !has_id(self@, id),
            },
    {
        let ghost s0 = self@;
        match self.index_of_id(id) {
            Some(i) => {
                proof {
                    lemma_remove_id_at(s0, id, i as int);
                }
                Some(&self.v[i])
            },
            None => None,
        }
    }
}

impl Default for ActivityVec {
    fn default() -> (r: ActivityVec)
        ensures
            r@ =~= Seq::<ActivityView>::empty(),
            r.wf(),
    {
        ActivityVec::new()
    }
}

impl ActivityVec {
    /// Give the day's activities up, in their sorted order.
    pub fn into_vec(self) -> (r: Vec<Activity>)
        ensures
            views_of(r@) == self@,
    {
        self.v
    }
}

} // verus!
