//! A vector that files every pushed element at its sort position.
//!
//! The element type brings its own ordering through `Ord`.  Everything the
//! order-sensitive contracts promise is conditional on that ordering
//! actually behaving like one (`obeys_cmp`), which the standard numeric
//! types are known to do; the content promises hold for any type.

use core::cmp::Ordering;
use vstd::laws_cmp::obeys_cmp;
use vstd::prelude::*;
use vstd::std_specs::cmp::{OrdSpec, PartialOrdSpec};

verus! {

/// No later element sorts strictly below an earlier one.
pub open spec fn sorted_by_cmp<T: Ord>(s: Seq<T>) -> bool {
    forall|i: int, j: int|
        0 <= i < j < s.len() ==> (#[trigger] s[j].cmp_spec(&s[i])) != Ordering::Less
}

/// A vector kept sorted by the element type's own ordering.
#[derive(Debug)]
pub struct SortedVec<T> {
    v: Vec<T>,
}

impl<T> SortedVec<T> {
    /// The held elements, in their kept order.
    pub closed spec fn items(self) -> Seq<T> {
        self.v@
    }

    pub fn new() -> (r: SortedVec<T>)
        ensures
            r.items() =~= Seq::<T>::empty(),
    {
        SortedVec { v: Vec::new() }
    }

    pub fn len(&self) -> (r: usize)
        ensures
            r == self.items().len(),
    {
        self.v.len()
    }

    pub fn get(&self, i: usize) -> (r: &T)
        requires
            i < self.items().len(),
        ensures
            *r == self.items()[i as int],
    {
        &self.v[i]
    }
}

impl<T: Ord> SortedVec<T> {
    /// File `t` at its sort position (ties land before the run of equals).
    pub fn push(&mut self, t: T)
        requires
            obeys_cmp::<T>() ==> sorted_by_cmp(old(self).items()),
        ensures
            final(self).items().len() == old(self).items().len() + 1,
            exists|j: int|
                0 <= j <= old(self).items().len() && final(self).items() == (
                #[trigger] old(self).items().insert(j, t)),
            obeys_cmp::<T>() ==> sorted_by_cmp(final(self).items()),
    {
        let ghost s0 = self.v@;
        let n = self.v.len();
        let mut j: usize = 0;
        let mut stop = false;
        while !stop && j < n
            invariant
                j <= n,
                n == self.v@.len(),
                self.v@ == s0,
                obeys_cmp::<T>() ==> forall|k: int|
                    0 <= k < j ==> (#[trigger] t.partial_cmp_spec(&s0[k])) != Some(Ordering::Less),
                stop ==> j < n && (obeys_cmp::<T>() ==> t.partial_cmp_spec(&s0[j as int]) == Some(
                    Ordering::Less,
                )),
            decreases n - j + (if stop { 0int } else { 1int }),
        {
            proof {
                if obeys_cmp::<T>() {
                    reveal(vstd::laws_cmp::obeys_cmp_partial_ord);
                }
            }
            if t < self.v[j] {
                stop = true;
            } else {
                j = j + 1;
            }
        }
        self.v.insert(j, t);
        proof {
            assert(self.v@ == s0.insert(j as int, t));
            if obeys_cmp::<T>() {
                reveal(vstd::laws_cmp::obeys_cmp_partial_ord);
                reveal(vstd::laws_cmp::obeys_cmp_ord);
                reveal(vstd::laws_cmp::obeys_partial_cmp_spec_properties);
                let r = s0.insert(j as int, t);
                assert(forall|k: int| 0 <= k < j ==> #[trigger] r[k] == s0[k]);
                assert(r[j as int] == t);
                assert(forall|k: int| j < k < r.len() ==> #[trigger] r[k] == s0[k - 1]);
                assert forall|a: int, b: int| 0 <= a < b < r.len() implies (
                #[trigger] r[b].cmp_spec(&r[a])) != Ordering::Less by {
                    if a < j && b < j {
                    } else if a > j && b > j {
                    } else if b == j {
                        // t sorts no lower than anything before its slot
                        assert(t.partial_cmp_spec(&s0[a]) != Some(Ordering::Less));
                        assert(t.partial_cmp_spec(&s0[a]) == Some(t.cmp_spec(&s0[a])));
                    } else if a == j {
                        // nothing after the slot sorts below t
                        assert(t.partial_cmp_spec(&s0[j as int]) == Some(Ordering::Less));
                        if r[b].cmp_spec(&t) == Ordering::Less {
                            assert(s0[b - 1].partial_cmp_spec(&t) == Some(Ordering::Less));
                            assert(t.partial_cmp_spec(&s0[j as int]) == Some(Ordering::Less));
                            assert(s0[b - 1].partial_cmp_spec(&s0[j as int]) == Some(
                                Ordering::Less,
                            ));
                            if j < b - 1 {
                                assert(s0[b - 1].cmp_spec(&s0[j as int]) != Ordering::Less);
                                assert(s0[b - 1].partial_cmp_spec(&s0[j as int]) == Some(
                                    s0[b - 1].cmp_spec(&s0[j as int]),
                                ));
                            }
                        }
                    } else if a < j && b > j {
                    }
                };
            }
        }
    }

    /// Remove and return the element at `index`; order needs no repair.
    pub fn remove(&mut self, index: usize) -> (r: T)
        requires
            index < old(self).items().len(),
        ensures
            r == old(self).items()[index as int],
            final(self).items() == old(self).items().remove(index as int),
            (obeys_cmp::<T>() && sorted_by_cmp(old(self).items())) ==> sorted_by_cmp(
                final(self).items(),
            ),
    {
        let r = self.v.remove(index);
        proof {
            let f = old(self).items().remove(index as int);
            assert(forall|k: int| 0 <= k < index ==> #[trigger] f[k] == old(self).items()[k]);
            assert(forall|k: int|
                index <= k < f.len() ==> #[trigger] f[k] == old(self).items()[k + 1]);
        }
        r
    }
}

impl<T> Default for SortedVec<T> {
    fn default() -> (r: SortedVec<T>)
        ensures
            r.items() =~= Seq::<T>::empty(),
    {
        SortedVec::new()
    }
}

} // verus!
