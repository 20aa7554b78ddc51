//! A bucket backend holding a fixed set of buckets.
use std::collections::HashMap;

use itertools::Itertools;
use vstd::prelude::*;

use super::{
    disturbed, label_of, lemma_disturbance_within_capacity, lemma_transfer_within_capacity,
    labelled_in_order, lists_in_order, raised, reports_change, transferred, within_capacity,
    MAX_QUANTITY,
};
use crate::actuator::FinalControlElement;
use crate::error::ControlError;
use crate::sensor::{quantity_lookup, Sensor};

verus! {

broadcast use vstd::std_specs::hash::group_hash_axioms;

/// Relies on itertools' `Itertools::sorted`, which sorts the map's entries in
/// ascending order; identifiers are unique, so they ascend strictly.
#[verifier::external_body]
fn sorted_entries(m: &HashMap<u64, u64>) -> (r: Vec<(u64, u64)>)
    ensures
        lists_in_order(m@, r@),
{
    m.iter().map(|(id, q)| (*id, *q)).sorted().collect()
}

/// Relies on rand's `random_range`: a value drawn by the thread-local
/// generator from `0..=max`.
#[verifier::external_body]
fn random_increment(max: u64) -> (r: u64)
    ensures
        r <= max,
{
    rand::random_range(0..=max)
}

/// Relies on std's `format!`: `B` followed by the decimal digits of `id`.
#[verifier::external_body]
fn bucket_label(id: u64) -> (r: String)
    ensures
        r@ == label_of(id),
{
    format!("B{}", id)
}

/// A fixed set of buckets whose quantities drift upward at random.
pub struct NBuckets {
    data: HashMap<u64, u64>,
}

impl View for NBuckets {
    type V = Map<u64, u64>;

    closed spec fn view(&self) -> Map<u64, u64> {
        self.data@
    }
}

impl NBuckets {
    /// Takes ownership of the initial bucket quantities, which must lie
    /// within `[0, MAX_QUANTITY]`.
    pub fn new(data: HashMap<u64, u64>) -> (r: NBuckets)
        requires
            within_capacity(data@),
        ensures
            r@ == data@,
    {
        NBuckets { data }
    }

    /// Raises `bucket` by `increase`, saturating at `MAX_QUANTITY`, and
    /// returns its new quantity.
    pub fn raise_bucket(&mut self, bucket: u64, increase: u64) -> (r: Result<u64, ControlError>)
        ensures
            match quantity_lookup(old(self)@, bucket) {
                Ok(q) => r == Ok::<u64, ControlError>(raised(q, increase)) && final(self)@
                    == old(self)@.insert(bucket, raised(q, increase)),
                Err(e) => r == Err::<u64, ControlError>(e) && final(self)@ == old(self)@,
            },
    {
        let q = match self.get_bucket(bucket) {
            Ok(q) => q,
            Err(e) => return Err(e),
        };
        let new_quantity = if q >= MAX_QUANTITY {
            q
        } else if increase > MAX_QUANTITY - q {
            MAX_QUANTITY
        } else {
            q + increase
        };
        self.data.insert(bucket, new_quantity);
        Ok(new_quantity)
    }

    /// One disturbance step: every bucket below `MAX_QUANTITY` rises by a
    /// randomly drawn 0 or 1. Returns one change record `(bucket, increase,
    /// new quantity)` for logging, of a bucket that rose if any did, and
    /// `None` when there are no buckets.
    pub fn fill(&mut self) -> (r: Option<(u64, u64, u64)>)
        ensures
            disturbed(old(self)@, final(self)@),
            within_capacity(old(self)@) ==> within_capacity(final(self)@),
            reports_change(old(self)@, final(self)@, r),
    {
        let entries = sorted_entries(&self.data);
        let mut record: Option<(u64, u64, u64)> = None;
        let mut i: usize = 0;
        while i < entries.len()
            invariant
                0 <= i <= entries.len(),
                lists_in_order(old(self)@, entries@),
                self.data@.dom() == old(self)@.dom(),
                forall|id: u64| #[trigger]
                    old(self)@.contains_key(id) ==> self.data@[id] == old(self)@[id] || (
                    self.data@[id] == old(self)@[id] + 1 && self.data@[id] <= MAX_QUANTITY),
                forall|j: int|
                    i <= j < entries.len() ==> self.data@[#[trigger] entries@[j].0] == old(
                        self,
                    )@[entries@[j].0],
                record is None <==> i == 0,
                record matches Some((id, increase, q)) ==> {
                    &&& old(self)@.contains_key(id)
                    &&& q == self.data@[id]
                    &&& q == old(self)@[id] + increase
                    &&& increase == 0 ==> self.data@ == old(self)@
                    &&& forall|j: int| i <= j < entries.len() ==> id < #[trigger] entries@[j].0
                },
            decreases entries.len() - i,
        {
            let (id, q) = entries[i];
            let step = random_increment(1);
            proof {
                assert(entries@[i as int].0 == id);
            }
            let ghost before = self.data@;
            let new_quantity = match self.raise_bucket(id, step) {
                Ok(r) => r,
                Err(_) => q,
            };
            proof {
                if new_quantity == q {
                    assert(self.data@ =~= before);
                }
            }
            if record.is_none() || new_quantity > q {
                record = Some((id, new_quantity - q, new_quantity));
            }
            i += 1;
        }
        proof {
            assert(self.data@.dom() =~= old(self)@.dom());
            if within_capacity(old(self)@) {
                lemma_disturbance_within_capacity(old(self)@, self.data@);
            }
            if record is None {
                assert forall|id: u64| !old(self)@.contains_key(id) by {
                    if old(self)@.contains_key(id) {
                        let j = choose|j: int| 0 <= j < entries@.len() && entries@[j].0 == id;
                    }
                }
                assert(old(self)@.dom() =~= Set::<u64>::empty());
            }
        }
        record
    }

    /// Every bucket with its quantity, labelled `B<id>`, in ascending order
    /// of identifier.
    pub fn data(&self) -> (r: Vec<(String, u64)>)
        ensures
            labelled_in_order(self@, r@),
    {
        let entries = sorted_entries(&self.data);
        let mut labelled: Vec<(String, u64)> = Vec::new();
        let mut i: usize = 0;
        while i < entries.len()
            invariant
                0 <= i <= entries.len(),
                labelled@.len() == i,
                forall|j: int|
                    0 <= j < i ==> (#[trigger] labelled@[j]).0@ == label_of(entries@[j].0)
                        && labelled@[j].1 == entries@[j].1,
            decreases entries.len() - i,
        {
            let (id, q) = entries[i];
            labelled.push((bucket_label(id), q));
            i += 1;
        }
        proof {
            assert(lists_in_order(self@, entries@));
        }
        labelled
    }

    /// The quantity of `bucket`.
    pub fn get_bucket(&self, bucket: u64) -> (r: Result<u64, ControlError>)
        ensures
            r == quantity_lookup(self@, bucket),
    {
        match self.data.get(&bucket) {
            Some(quantity) => Ok(*quantity),
            None => Err(ControlError::UnknownBucket { bucket }),
        }
    }
}

impl Sensor for NBuckets {
    fn buckets(&self) -> (r: &HashMap<u64, u64>) {
        &self.data
    }

    fn get_bucket_quantity(&self, bucket: u64) -> (r: Result<u64, ControlError>) {
        self.get_bucket(bucket)
    }
}

impl FinalControlElement for NBuckets {
    fn transfer(&mut self, source: u64, destination: u64, amount: u64) -> (r: Result<
        (),
        ControlError,
    >)
        ensures
            within_capacity(old(self)@) ==> within_capacity(final(self)@),
    {
        let source_amount = match self.get_bucket(source) {
            Ok(q) => q,
            Err(e) => return Err(e),
        };
        let destination_amount = match self.get_bucket(destination) {
            Ok(q) => q,
            Err(e) => return Err(e),
        };
        if source_amount < amount {
            return Err(ControlError::InsufficientSource { amount, available: source_amount });
        }
        if destination_amount > MAX_QUANTITY || amount > MAX_QUANTITY - destination_amount {
            return Err(
                ControlError::Overflow { amount, destination_quantity: destination_amount },
            );
        }
        // Lower the source first, then raise the destination from its current
        // level, so that a transfer onto itself leaves the bucket unchanged.
        self.data.insert(source, source_amount - amount);
        let new_destination_amount = if source == destination {
            source_amount
        } else {
            destination_amount + amount
        };
        self.data.insert(destination, new_destination_amount);
        proof {
            assert(self.data@ =~= transferred(old(self)@, source, destination, amount));
            if within_capacity(old(self)@) {
                lemma_transfer_within_capacity(old(self)@, source, destination, amount);
            }
        }
        Ok(())
    }

    fn add_bucket(&mut self) -> (r: Result<u64, ControlError>)
        ensures
            r == Err::<u64, ControlError>(ControlError::Unsupported),
    {
        Err(ControlError::Unsupported)
    }
}

} // verus!
