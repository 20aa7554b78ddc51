//! The read-only view of the buckets that policies decide from.
use std::collections::HashMap;

use vstd::prelude::*;
use vstd::std_specs::hash::spec_hash_map_iter;
use vstd::std_specs::iter::IteratorSpec;

use crate::error::ControlError;

verus! {

broadcast use vstd::std_specs::hash::group_hash_axioms;

/// `id` holds the least quantity of `m`; among equal quantities, the lowest
/// identifier wins.
pub open spec fn is_smallest(m: Map<u64, u64>, id: u64) -> bool {
    &&& m.contains_key(id)
    &&& forall|k: u64| #[trigger]
        m.contains_key(k) ==> m[id] < m[k] || (m[id] == m[k] && id <= k)
}

/// `id` holds the greatest quantity of `m`; among equal quantities, the lowest
/// identifier wins.
pub open spec fn is_largest(m: Map<u64, u64>, id: u64) -> bool {
    &&& m.contains_key(id)
    &&& forall|k: u64| #[trigger]
        m.contains_key(k) ==> m[id] > m[k] || (m[id] == m[k] && id <= k)
}

/// The smallest bucket of `m` with its quantity, `None` when `m` is empty.
pub open spec fn smallest_of(m: Map<u64, u64>) -> Option<(u64, u64)> {
    if exists|id: u64| is_smallest(m, id) {
        let id = choose|id: u64| is_smallest(m, id);
        Some((id, m[id]))
    } else {
        None
    }
}

/// The largest bucket of `m` with its quantity, `None` when `m` is empty.
pub open spec fn largest_of(m: Map<u64, u64>) -> Option<(u64, u64)> {
    if exists|id: u64| is_largest(m, id) {
        let id = choose|id: u64| is_largest(m, id);
        Some((id, m[id]))
    } else {
        None
    }
}

/// The quantity of `bucket` in `m`, or why there is none.
pub open spec fn quantity_lookup(m: Map<u64, u64>, bucket: u64) -> Result<u64, ControlError> {
    if m.contains_key(bucket) {
        Ok(m[bucket])
    } else {
        Err(ControlError::UnknownBucket { bucket })
    }
}

/// The extremum winners are unique: one snapshot has exactly one smallest and
/// one largest bucket, so repeated queries on it agree.
pub proof fn lemma_extrema_unique(m: Map<u64, u64>, a: u64, b: u64)
    ensures
        is_smallest(m, a) && is_smallest(m, b) ==> a == b,
        is_largest(m, a) && is_largest(m, b) ==> a == b,
{
}

/// `smallest_of` and `largest_of` name the unique winners, and a non-empty
/// mapping has both.
pub proof fn lemma_extrema_of(m: Map<u64, u64>, lo: u64, hi: u64)
    ensures
        is_smallest(m, lo) ==> smallest_of(m) == Some((lo, m[lo])),
        is_largest(m, hi) ==> largest_of(m) == Some((hi, m[hi])),
        m.dom() == Set::<u64>::empty() ==> smallest_of(m) is None && largest_of(m) is None,
{
    if is_smallest(m, lo) {
        let c = choose|id: u64| is_smallest(m, id);
        lemma_extrema_unique(m, lo, c);
    }
    if is_largest(m, hi) {
        let c = choose|id: u64| is_largest(m, id);
        lemma_extrema_unique(m, hi, c);
    }
}

/// Read access to the bucket levels.
pub trait Sensor: View<V = Map<u64, u64>> {
    /// All buckets with their quantities.
    fn buckets(&self) -> (r: &HashMap<u64, u64>)
        ensures
            r@ == self@,
    ;

    /// The bucket with the least quantity (lowest identifier among equals).
    fn get_smallest_bucket(&self) -> (r: Option<(u64, u64)>)
        ensures
            r == smallest_of(self@),
    {
        let m = self.buckets();
        let mut best: Option<(u64, u64)> = None;
        for entry in it: m.iter()
            invariant
                m@ == self@,
                it.seq() == spec_hash_map_iter(m).remaining(),
                best is None <==> it.index() == 0,
                best matches Some((id, q)) ==> {
                    &&& m@.contains_key(id)
                    &&& m@[id] == q
                    &&& forall|j: int|
                        0 <= j < it.index() ==> q < #[trigger] m@[*it.seq()[j].0] || (q
                            == m@[*it.seq()[j].0] && id <= *it.seq()[j].0)
                },
        {
            let (id, q) = entry;
            assert(m@.contains_key(*id) && m@[*id] == *q) by {
                assert(it.seq()[it.index() as int] == entry);
            }
            match best {
                Some((bid, bq)) => {
                    if *q < bq || (*q == bq && *id < bid) {
                        best = Some((*id, *q));
                    }
                },
                None => {
                    best = Some((*id, *q));
                },
            }
        }
        proof {
            let seq = spec_hash_map_iter(m).remaining();
            if let Some((id, q)) = best {
                assert forall|k: u64| #[trigger] m@.contains_key(k) implies q < m@[k] || (q == m@[k]
                    && id <= k) by {
                    assert(seq.contains((&k, &m@[k])));
                    let j = choose|j: int| 0 <= j < seq.len() && seq[j] == (&k, &m@[k]);
                    assert(*seq[j].0 == k);
                }
                assert(is_smallest(m@, id));
                lemma_extrema_of(m@, id, id);
            } else {
                assert(m@.dom() =~= Set::<u64>::empty());
                lemma_extrema_of(m@, 0, 0);
            }
        }
        best
    }

    /// The bucket with the greatest quantity (lowest identifier among equals).
    fn get_largest_bucket(&self) -> (r: Option<(u64, u64)>)
        ensures
            r == largest_of(self@),
    {
        let m = self.buckets();
        let mut best: Option<(u64, u64)> = None;
        for entry in it: m.iter()
            invariant
                m@ == self@,
                it.seq() == spec_hash_map_iter(m).remaining(),
                best is None <==> it.index() == 0,
                best matches Some((id, q)) ==> {
                    &&& m@.contains_key(id)
                    &&& m@[id] == q
                    &&& forall|j: int|
                        0 <= j < it.index() ==> q > #[trigger] m@[*it.seq()[j].0] || (q
                            == m@[*it.seq()[j].0] && id <= *it.seq()[j].0)
                },
        {
            let (id, q) = entry;
            assert(m@.contains_key(*id) && m@[*id] == *q) by {
                assert(it.seq()[it.index() as int] == entry);
            }
            match best {
                Some((bid, bq)) => {
                    if *q > bq || (*q == bq && *id < bid) {
                        best = Some((*id, *q));
                    }
                },
                None => {
                    best = Some((*id, *q));
                },
            }
        }
        proof {
            let seq = spec_hash_map_iter(m).remaining();
            if let Some((id, q)) = best {
                assert forall|k: u64| #[trigger] m@.contains_key(k) implies q > m@[k] || (q == m@[k]
                    && id <= k) by {
                    assert(seq.contains((&k, &m@[k])));
                    let j = choose|j: int| 0 <= j < seq.len() && seq[j] == (&k, &m@[k]);
                    assert(*seq[j].0 == k);
                }
                assert(is_largest(m@, id));
                lemma_extrema_of(m@, id, id);
            } else {
                assert(m@.dom() =~= Set::<u64>::empty());
                lemma_extrema_of(m@, 0, 0);
            }
        }
        best
    }

    /// The quantity of one bucket.
    fn get_bucket_quantity(&self, bucket: u64) -> (r: Result<u64, ControlError>)
        ensures
            r == quantity_lookup(self@, bucket),
    ;
}

} // verus!
