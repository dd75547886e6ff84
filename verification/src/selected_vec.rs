//! A vector built together with the position of its selected element, the
//! shape the renderer wants a table in.

use vstd::prelude::*;

verus! {

/// A vector and the index of its selected element, if one was marked.
#[derive(Debug)]
pub struct SelectedVec<T> {
    v: Vec<T>,
    index: Option<usize>,
}

/// The position of the last marked element, if any.
pub open spec fn last_marked<T>(pairs: Seq<(T, bool)>) -> Option<int>
    decreases pairs.len(),
{
    if pairs.len() == 0 {
        None
    } else if pairs.last().1 {
        Some(pairs.len() - 1)
    } else {
        last_marked(pairs.drop_last())
    }
}

impl<T> SelectedVec<T> {
    pub closed spec fn items(self) -> Seq<T> {
        self.v@
    }

    pub closed spec fn sel(self) -> Option<usize> {
        self.index
    }

    /// Collect elements, remembering where the marked one ended up.
    pub fn from_pairs(pairs: Vec<(T, bool)>) -> (r: SelectedVec<T>)
        ensures
            r.items().len() == pairs@.len(),
            forall|i: int| 0 <= i < pairs@.len() ==> r.items()[i] == (#[trigger] pairs@[i]).0,
            match r.sel() {
                Some(i) => last_marked(pairs@) == Some(i as int),
                None => last_marked(pairs@) is None,
            },
    {
        let ghost ps = pairs@;
        let mut it = pairs;
        let mut v: Vec<T> = Vec::new();
        let mut index: Option<usize> = None;
        let mut k: usize = 0;
        while it.len() > 0
            invariant
                v@.len() == k,
                k + it@.len() == ps.len(),
                it@ == ps.skip(k as int),
                forall|i: int| 0 <= i < k ==> v@[i] == (#[trigger] ps[i]).0,
                match index {
                    Some(i) => last_marked(ps.take(k as int)) == Some(i as int),
                    None => last_marked(ps.take(k as int)) is None,
                },
            decreases it@.len(),
    {
            proof {
                assert(ps.skip(k as int)[0] == ps[k as int]);
                assert(ps.skip(k as int).remove(0) =~= ps.skip(k + 1));
                assert(ps.take(k + 1).drop_last() =~= ps.take(k as int));
                assert(ps.take(k + 1).last() == ps[k as int]);
            }
            let pair = it.remove(0);
            let selected = pair.1;
            v.push(pair.0);
            if selected {
                index = Some(k);
            }
            k = v.len();
        }
        proof {
            assert(ps.take(k as int) =~= ps);
        }
        SelectedVec { v, index }
    }

    /// Give the vector and the selected position up.
    pub fn into_parts(self) -> (r: (Vec<T>, Option<usize>))
        ensures
            r.0@ == self.items(),
            r.1 == self.sel(),
    {
        (self.v, self.index)
    }
}

} // verus!
