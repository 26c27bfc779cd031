//! Sorting by a key.

use vstd::prelude::*;
use vstd::seq_lib::{to_multiset_build, to_multiset_insert};
use crate::fdt::meta::{Device, Hart};

verus! {

/// A value that is ordered by a key.
pub trait Keyed: Copy {
    /// The key by which the value is ordered.
    spec fn key(&self) -> u64;

    /// The key by which the value is ordered.
    fn sort_key(&self) -> (k: u64)
        ensures
            k == self.key(),
    ;
}

impl Keyed for Hart {
    open spec fn key(&self) -> u64 {
        self.hartid
    }

    fn sort_key(&self) -> (k: u64) {
        self.hartid
    }
}

impl Keyed for Device {
    open spec fn key(&self) -> u64 {
        self.base_address
    }

    fn sort_key(&self) -> (k: u64) {
        self.base_address
    }
}

/// Whether the keys never fall along the sequence.
pub open spec fn ascending<T: Keyed>(s: Seq<T>) -> bool {
    forall|i: int, j: int| 0 <= i < j < s.len() ==> s[i].key() <= s[j].key()
}

/// Whether the keys rise all along the sequence.
pub open spec fn strictly_ascending<T: Keyed>(s: Seq<T>) -> bool {
    forall|i: int, j: int| 0 <= i < j < s.len() ==> s[i].key() < s[j].key()
}

/// The values of `list`, ordered by their keys: the same values, each as
/// often as in `list`, with keys that never fall.
pub fn sorted_by_key<T: Keyed>(list: &Vec<T>) -> (sorted: Vec<T>)
    ensures
        ascending(sorted@),
        sorted@.to_multiset() == list@.to_multiset(),
        sorted.len() == list.len(),
{
    let mut sorted: Vec<T> = Vec::new();
    let mut i: usize = 0;
    assert(list@.take(0) =~= sorted@);
    while i < list.len()
        invariant
            i <= list.len(),
            sorted.len() == i,
            ascending(sorted@),
            sorted@.to_multiset() == list@.take(i as int).to_multiset(),
        decreases list.len() - i,
    {
        let item = list[i];
        let key = item.sort_key();
        let mut at: usize = 0;
        while at < sorted.len() && sorted[at].sort_key() <= key
            invariant
                at <= sorted.len(),
                key == item.key(),
                forall|k: int| 0 <= k < at ==> sorted[k].key() <= key,
            decreases sorted.len() - at,
        {
            at += 1;
        }
        let ghost before = sorted@;
        sorted.insert(at, item);
        proof {
            to_multiset_insert(before, at as int, item);
            to_multiset_build(list@.take(i as int), item);
            assert(list@.take(i + 1) =~= list@.take(i as int).push(item));
            assert forall|p: int, q: int| 0 <= p < q < sorted.len() implies sorted[p].key()
                <= sorted[q].key() by {
                let a = if p < at { p } else { p - 1 };
                let c = if q < at { q } else { q - 1 };
                if p != at && q != at {
                    assert(before[a].key() <= before[c].key());
                }
            }
        }
        i += 1;
    }
    assert(list@.take(list.len() as int) =~= list@);
    sorted
}

} // verus!
