//! Multi-key command combos.
//!
//! Some commands are typed as a short key sequence (`dd` deletes, `gg`
//! jumps to the first row).  The buffer keeps the keys typed so far while
//! they are still the beginning of some combo; a key that completes a combo
//! fires it, and a key that fits nothing starts over — after first giving
//! the key one fresh chance as the start of a new combo.

use vstd::prelude::*;

verus! {

/// The commands that combos can trigger.
#[derive(Clone, Copy, Debug, PartialEq, Eq, PartialOrd, Ord, Structural)]
pub enum ComboAction {
    Delete,
    SelectFirst,
}

/// The first combo whose key sequence is exactly `p`.
pub open spec fn find_full(cs: Seq<(Seq<char>, ComboAction)>, p: Seq<char>) -> Option<ComboAction>
    decreases cs.len(),
{
    if cs.len() == 0 {
        None
    } else if cs[0].0 == p {
        Some(cs[0].1)
    } else {
        find_full(cs.drop_first(), p)
    }
}

/// Whether `p` is the proper beginning of some combo.
pub open spec fn some_proper_prefix(cs: Seq<(Seq<char>, ComboAction)>, p: Seq<char>) -> bool {
    exists|i: int|
        0 <= i < cs.len() && p.len() < (#[trigger] cs[i]).0.len() && cs[i].0.take(
            p.len() as int,
        ) == p
}

/// One key against the buffer: what fires and what stays pending.
pub open spec fn spec_combo(
    cs: Seq<(Seq<char>, ComboAction)>,
    pending: Seq<char>,
    k: char,
) -> (Seq<char>, Option<ComboAction>) {
    let p1 = pending.push(k);
    match find_full(cs, p1) {
        Some(c) => (Seq::empty(), Some(c)),
        None => if some_proper_prefix(cs, p1) {
            (p1, None)
        } else {
            let p2 = seq![k];
            match find_full(cs, p2) {
                Some(c) => (Seq::empty(), Some(c)),
                None => if some_proper_prefix(cs, p2) {
                    (p2, None)
                } else {
                    (Seq::empty(), None)
                },
            }
        },
    }
}

/// The combo recognizer: the known combos and the keys typed so far.
#[derive(Debug)]
pub struct ComboBuffer {
    combos: Vec<(Vec<char>, ComboAction)>,
    pending: Vec<char>,
}

impl ComboBuffer {
    /// The known combos, as key sequences with their commands.
    pub closed spec fn combos_view(self) -> Seq<(Seq<char>, ComboAction)> {
        Seq::new(self.combos@.len(), |i: int| (self.combos@[i].0@, self.combos@[i].1))
    }

    /// The keys typed so far towards a combo.
    pub closed spec fn pending_view(self) -> Seq<char> {
        self.pending@
    }

    /// A recognizer over a caller-chosen combo set, with nothing typed yet.
    pub fn with_combos(combos: Vec<(Vec<char>, ComboAction)>) -> (r: ComboBuffer)
        ensures
            r.combos_view().len() == combos@.len(),
            forall|i: int|
                0 <= i < combos@.len() ==> r.combos_view()[i] == ((#[trigger] combos@[i]).0@,
                combos@[i].1),
            r.pending_view().len() == 0,
    {
        ComboBuffer { combos, pending: Vec::new() }
    }

    /// Drop the keys typed so far; the combo set stays.
    pub fn reset(&mut self)
        ensures
            final(self).pending_view().len() == 0,
            final(self).combos_view() == old(self).combos_view(),
    {
        self.pending.clear();
    }

    /// Whether `p` is exactly some combo, and which command it carries.
    fn full_match(&self, p: &Vec<char>) -> (r: Option<ComboAction>)
        ensures
            r == find_full(self.combos_view(), p@),
    {
        let ghost cs = self.combos_view();
        let n = self.combos.len();
        let mut i: usize = 0;
        while i < n
            invariant
                i <= n,
                n == cs.len(),
                cs == self.combos_view(),
                forall|w: int| 0 <= w < i ==> (#[trigger] cs[w]).0 != p@,
            decreases n - i,
        {
            if chars_equal(&self.combos[i].0, p) {
                proof {
                    lemma_find_full_at(cs, p@, i as int);
                }
                return Some(self.combos[i].1);
            }
            i = i + 1;
        }
        proof {
            lemma_find_full_absent(cs, p@);
        }
        None
    }

    /// Whether `p` properly begins some combo.
    fn prefix_match(&self, p: &Vec<char>) -> (r: bool)
        ensures
            r == some_proper_prefix(self.combos_view(), p@),
    {
        let ghost cs = self.combos_view();
        let n = self.combos.len();
        let mut i: usize = 0;
        while i < n
            invariant
                i <= n,
                n == cs.len(),
                cs == self.combos_view(),
                forall|w: int|
                    0 <= w < i ==> !(p@.len() < (#[trigger] cs[w]).0.len() && cs[w].0.take(
                        p@.len() as int,
                    ) == p@),
            decreases n - i,
        {
            let c = &self.combos[i].0;
            if p.len() < c.len() && chars_prefix(c, p) {
                proof {
                    assert(cs[i as int].0.take(p@.len() as int) =~= p@);
                }
                return true;
            }
            proof {
                if p@.len() < cs[i as int].0.len() && cs[i as int].0.take(p@.len() as int) == p@ {
                    assert(forall|w: int|
                        0 <= w < p@.len() ==> (#[trigger] cs[i as int].0.take(p@.len() as int)[w])
                            == cs[i as int].0[w]);
                    assert(false);
                }
            }
            i = i + 1;
        }
        false
    }

    /// Feed one key: the completed combo's command, if this key completed
    /// one.  A key that fits nothing clears the buffer, after first being
    /// given a fresh chance as the start of a new combo.
    pub fn combo(&mut self, k: char) -> (r: Option<ComboAction>)
        ensures
            final(self).combos_view() == old(self).combos_view(),
            (final(self).pending_view(), r) == spec_combo(
                old(self).combos_view(),
                old(self).pending_view(),
                k,
            ),
    {
        let ghost p0 = self.pending_view();
        self.pending.push(k);
        assert(self.pending_view() =~= p0.push(k));
        let hit = self.full_match(&self.pending);
        match hit {
            Some(c) => {
                self.pending.clear();
                Some(c)
            },
            None => {
                if self.prefix_match(&self.pending) {
                    None
                } else {
                    self.pending.clear();
                    self.pending.push(k);
                    assert(self.pending_view() =~= seq![k]);
                    let hit2 = self.full_match(&self.pending);
                    match hit2 {
                        Some(c) => {
                            self.pending.clear();
                            Some(c)
                        },
                        None => {
                            if self.prefix_match(&self.pending) {
                                None
                            } else {
                                self.pending.clear();
                                None
                            }
                        },
                    }
                }
            },
        }
    }
}

/// Element-wise equality of two key vectors.
fn chars_equal(a: &Vec<char>, b: &Vec<char>) -> (r: bool)
    ensures
        r == (a@ == b@),
{
    if a.len() != b.len() {
        proof {
            assert(a@.len() != b@.len());
        }
        return false;
    }
    let n = a.len();
    let mut i: usize = 0;
    while i < n
        invariant
            i <= n,
            n == a@.len(),
            n == b@.len(),
            forall|w: int| 0 <= w < i ==> a@[w] == b@[w],
        decreases n - i,
    {
        if a[i] != b[i] {
            return false;
        }
        i = i + 1;
    }
    proof {
        assert(a@ =~= b@);
    }
    true
}

/// Whether `b` is an initial segment of `a`.
fn chars_prefix(a: &Vec<char>, b: &Vec<char>) -> (r: bool)
    requires
        b@.len() <= a@.len(),
    ensures
        r == (a@.take(b@.len() as int) == b@),
{
    let n = b.len();
    let mut i: usize = 0;
    while i < n
        invariant
            i <= n,
            n == b@.len(),
            n <= a@.len(),
            forall|w: int| 0 <= w < i ==> a@[w] == b@[w],
        decreases n - i,
    {
        if a[i] != b[i] {
            proof {
                assert(a@.take(n as int)[i as int] == a@[i as int]);
            }
            return false;
        }
        i = i + 1;
    }
    proof {
        assert(a@.take(n as int) =~= b@);
    }
    true
}

/// When `i` is the first combo equal to `p`, `find_full` names its command.
proof fn lemma_find_full_at(cs: Seq<(Seq<char>, ComboAction)>, p: Seq<char>, i: int)
    requires
        0 <= i < cs.len(),
        cs[i].0 == p,
        forall|w: int| 0 <= w < i ==> (#[trigger] cs[w]).0 != p,
    ensures
        find_full(cs, p) == Some(cs[i].1),
    decreases i,
{
    if i > 0 {
        let t = cs.drop_first();
        assert(forall|w: int| 0 <= w < t.len() ==> (#[trigger] t[w]) == cs[w + 1]);
        lemma_find_full_at(t, p, i - 1);
    }
}

/// On a set without `p`, `find_full` answers `None`.
proof fn lemma_find_full_absent(cs: Seq<(Seq<char>, ComboAction)>, p: Seq<char>)
    requires
        forall|w: int| 0 <= w < cs.len() ==> (#[trigger] cs[w]).0 != p,
    ensures
        find_full(cs, p) is None,
    decreases cs.len(),
{
    if cs.len() > 0 {
        let t = cs.drop_first();
        assert(forall|w: int| 0 <= w < t.len() ==> (#[trigger] t[w]) == cs[w + 1]);
        lemma_find_full_absent(t, p);
    }
}

impl Default for ComboBuffer {
    /// The tracker's standing combos: `dd` deletes the selected row, `gg`
    /// jumps to the first row.
    fn default() -> (r: ComboBuffer)
        ensures
            r.combos_view() =~= seq![
                (seq!['d', 'd'], ComboAction::Delete),
                (seq!['g', 'g'], ComboAction::SelectFirst),
            ],
            r.pending_view().len() == 0,
    {
        let dd: Vec<char> = vec!['d', 'd'];
        let gg: Vec<char> = vec!['g', 'g'];
        let mut combos: Vec<(Vec<char>, ComboAction)> = Vec::new();
        combos.push((dd, ComboAction::Delete));
        combos.push((gg, ComboAction::SelectFirst));
        let r = ComboBuffer { combos, pending: Vec::new() };
        proof {
            assert(r.combos_view() =~~= seq![
                (seq!['d', 'd'], ComboAction::Delete),
                (seq!['g', 'g'], ComboAction::SelectFirst),
            ]);
        }
        r
    }
}

} // verus!
