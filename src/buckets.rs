//! The authoritative bucket store: quantities, their bounds, and the laws
//! that transfers and disturbance steps obey.
use vstd::prelude::*;

use std::collections::HashMap;

use crate::actuator::FinalControlElement;
use crate::error::ControlError;
use crate::sensor::Sensor;
use n_buckets::NBuckets;

pub mod n_buckets;

verus! {

/// The largest quantity a bucket may hold.
pub const MAX_QUANTITY: u64 = 100;

/// Every quantity of the mapping lies within `[0, MAX_QUANTITY]`.
pub open spec fn within_capacity(m: Map<u64, u64>) -> bool {
    forall|id: u64| #[trigger] m.contains_key(id) ==> m[id] <= MAX_QUANTITY
}

/// The character of a decimal digit.
pub open spec fn digit_char(d: nat) -> char {
    seq!['0', '1', '2', '3', '4', '5', '6', '7', '8', '9'][d as int]
}

/// The decimal digits of `n`, most significant first, without leading zeros.
pub open spec fn decimal_text(n: nat) -> Seq<char>
    decreases n,
{
    if n < 10 {
        seq![digit_char(n)]
    } else {
        decimal_text(n / 10).push(digit_char(n % 10))
    }
}

/// The display label of a bucket: `B` followed by its identifier in decimal.
pub open spec fn label_of(id: u64) -> Seq<char> {
    seq!['B'] + decimal_text(id as nat)
}

/// `entries` lists every bucket of `m` once, with its quantity, in ascending
/// order of identifier.
pub open spec fn lists_in_order(m: Map<u64, u64>, entries: Seq<(u64, u64)>) -> bool {
    &&& forall|i: int, j: int| 0 <= i < j < entries.len() ==> entries[i].0 < entries[j].0
    &&& forall|i: int|
        0 <= i < entries.len() ==> m.contains_key(#[trigger] entries[i].0) && entries[i].1
            == m[entries[i].0]
    &&& forall|id: u64| #[trigger]
        m.contains_key(id) ==> exists|i: int| 0 <= i < entries.len() && entries[i].0 == id
}

/// A mapping has exactly one listing in ascending order of identifier.
pub proof fn lemma_lists_in_order_unique(m: Map<u64, u64>, a: Seq<(u64, u64)>, b: Seq<(u64, u64)>)
    requires
        lists_in_order(m, a),
        lists_in_order(m, b),
    ensures
        a == b,
    decreases a.len(),
{
    if a.len() == 0 {
        if b.len() > 0 {
            assert(m.contains_key(b[0].0));
        }
        assert(a =~= b);
    } else {
        assert(m.contains_key(a[0].0));
        assert(b.len() > 0);
        let k = a[0].0;
        assert(m.contains_key(b[0].0));
        let ja = choose|i: int| 0 <= i < a.len() && a[i].0 == b[0].0;
        let jb = choose|i: int| 0 <= i < b.len() && b[i].0 == k;
        assert(a[0].0 <= a[ja].0);
        assert(b[0].0 <= b[jb].0);
        assert(a[0] == b[0]);
        let rest = m.remove(k);
        assert forall|id: u64| #[trigger] rest.contains_key(id) implies exists|i: int|
            0 <= i < a.drop_first().len() && a.drop_first()[i].0 == id by {
            let j = choose|i: int| 0 <= i < a.len() && a[i].0 == id;
            assert(a.drop_first()[j - 1].0 == id);
        }
        assert forall|id: u64| #[trigger] rest.contains_key(id) implies exists|i: int|
            0 <= i < b.drop_first().len() && b.drop_first()[i].0 == id by {
            let j = choose|i: int| 0 <= i < b.len() && b[i].0 == id;
            assert(b.drop_first()[j - 1].0 == id);
        }
        assert forall|i: int| 0 <= i < a.drop_first().len() implies rest.contains_key(
            #[trigger] a.drop_first()[i].0,
        ) by {
            assert(a[0].0 < a[i + 1].0);
        }
        assert forall|i: int| 0 <= i < b.drop_first().len() implies rest.contains_key(
            #[trigger] b.drop_first()[i].0,
        ) by {
            assert(b[0].0 < b[i + 1].0);
        }
        lemma_lists_in_order_unique(rest, a.drop_first(), b.drop_first());
        assert(a =~= seq![a[0]] + a.drop_first());
        assert(b =~= seq![b[0]] + b.drop_first());
    }
}

/// `labelled` lists every bucket of `m` once, as its label and quantity, in
/// ascending order of identifier.
pub open spec fn labelled_in_order(m: Map<u64, u64>, labelled: Seq<(String, u64)>) -> bool {
    exists|entries: Seq<(u64, u64)>|
        {
            &&& lists_in_order(m, entries)
            &&& labelled.len() == entries.len()
            &&& forall|i: int|
                0 <= i < entries.len() ==> (#[trigger] labelled[i]).0@ == label_of(entries[i].0)
                    && labelled[i].1 == entries[i].1
        }
}

/// `record` reports one bucket's change from `before` to `after` as
/// `(bucket, increase, new quantity)`, and reports no change only when
/// nothing changed; there is a record unless there are no buckets.
pub open spec fn reports_change(
    before: Map<u64, u64>,
    after: Map<u64, u64>,
    record: Option<(u64, u64, u64)>,
) -> bool {
    &&& record is None <==> before.dom() == Set::<u64>::empty()
    &&& record matches Some((id, increase, q)) ==> {
        &&& before.contains_key(id)
        &&& q == after[id]
        &&& q == before[id] + increase
        &&& increase == 0 ==> after == before
    }
}

/// The sum of all quantities of a finite mapping.
pub open spec fn total(m: Map<u64, u64>) -> int
    decreases m.dom().len(),
{
    if m.dom().finite() && m.dom().len() > 0 {
        let id = m.dom().choose();
        m[id] + total(m.remove(id))
    } else {
        0
    }
}

/// Why moving `amount` from `source` to `destination` must be refused, checked
/// in this order; `None` when the transfer is valid.
pub open spec fn transfer_error(
    m: Map<u64, u64>,
    source: u64,
    destination: u64,
    amount: u64,
) -> Option<ControlError> {
    if !m.contains_key(source) {
        Some(ControlError::UnknownBucket { bucket: source })
    } else if !m.contains_key(destination) {
        Some(ControlError::UnknownBucket { bucket: destination })
    } else if amount > m[source] {
        Some(ControlError::InsufficientSource { amount, available: m[source] })
    } else if m[destination] + amount > MAX_QUANTITY {
        Some(ControlError::Overflow { amount, destination_quantity: m[destination] })
    } else {
        None
    }
}

/// The mapping after a valid transfer: the source is lowered by `amount`,
/// then the destination is raised by it.
pub open spec fn transferred(m: Map<u64, u64>, source: u64, destination: u64, amount: u64) -> Map<
    u64,
    u64,
> {
    let lowered = m.insert(source, (m[source] - amount) as u64);
    lowered.insert(destination, (lowered[destination] + amount) as u64)
}

/// `q` raised by `increase`, saturating at `MAX_QUANTITY`; a quantity already
/// at or above it stays as it is.
pub open spec fn raised(q: u64, increase: u64) -> u64 {
    if q >= MAX_QUANTITY {
        q
    } else if q + increase > MAX_QUANTITY {
        MAX_QUANTITY
    } else {
        (q + increase) as u64
    }
}

/// `after` is one disturbance step away from `before`: the same buckets, each
/// left alone or raised by one without passing `MAX_QUANTITY`.
pub open spec fn disturbed(before: Map<u64, u64>, after: Map<u64, u64>) -> bool {
    &&& after.dom() == before.dom()
    &&& forall|id: u64| #[trigger]
        before.contains_key(id) ==> after[id] == before[id] || (after[id] == before[id] + 1
            && after[id] <= MAX_QUANTITY)
}

/// The sum of a finite mapping splits off any one of its entries.
pub proof fn lemma_total_remove(m: Map<u64, u64>, id: u64)
    requires
        m.dom().finite(),
        m.contains_key(id),
    ensures
        total(m) == m[id] + total(m.remove(id)),
    decreases m.dom().len(),
{
    let c = m.dom().choose();
    if c != id {
        lemma_total_remove(m.remove(c), id);
        lemma_total_remove(m.remove(id), c);
        assert(m.remove(c).remove(id) =~= m.remove(id).remove(c));
    }
}

/// Replacing one quantity changes the sum by the difference.
pub proof fn lemma_total_insert(m: Map<u64, u64>, id: u64, q: u64)
    requires
        m.dom().finite(),
        m.contains_key(id),
    ensures
        total(m.insert(id, q)) == total(m) - m[id] + q,
{
    lemma_total_remove(m, id);
    lemma_total_remove(m.insert(id, q), id);
    assert(m.insert(id, q).remove(id) =~= m.remove(id));
}

/// A successful transfer neither creates nor destroys quantity.
pub proof fn lemma_transfer_conserves_total(
    m: Map<u64, u64>,
    source: u64,
    destination: u64,
    amount: u64,
)
    requires
        m.dom().finite(),
        transfer_error(m, source, destination, amount) is None,
    ensures
        total(transferred(m, source, destination, amount)) == total(m),
{
    let lowered = m.insert(source, (m[source] - amount) as u64);
    lemma_total_insert(m, source, (m[source] - amount) as u64);
    lemma_total_insert(lowered, destination, (lowered[destination] + amount) as u64);
}

/// A successful transfer keeps every quantity within `[0, MAX_QUANTITY]`.
pub proof fn lemma_transfer_within_capacity(
    m: Map<u64, u64>,
    source: u64,
    destination: u64,
    amount: u64,
)
    requires
        within_capacity(m),
        transfer_error(m, source, destination, amount) is None,
    ensures
        within_capacity(transferred(m, source, destination, amount)),
        transferred(m, source, destination, amount).dom() == m.dom(),
{
    let after = transferred(m, source, destination, amount);
    assert(after.dom() =~= m.dom());
}

/// A disturbance step never lowers the sum of all quantities.
pub proof fn lemma_disturbance_never_lowers_total(before: Map<u64, u64>, after: Map<u64, u64>)
    requires
        before.dom().finite(),
        disturbed(before, after),
    ensures
        total(after) >= total(before),
    decreases before.dom().len(),
{
    if before.dom().len() > 0 {
        let c = before.dom().choose();
        lemma_total_remove(after, c);
        assert(disturbed(before.remove(c), after.remove(c))) by {
            assert(after.remove(c).dom() =~= before.remove(c).dom());
        }
        lemma_disturbance_never_lowers_total(before.remove(c), after.remove(c));
    } else {
        assert(after.dom().len() == 0);
    }
}

/// A disturbance step keeps every quantity within `[0, MAX_QUANTITY]`.
pub proof fn lemma_disturbance_within_capacity(before: Map<u64, u64>, after: Map<u64, u64>)
    requires
        within_capacity(before),
        disturbed(before, after),
    ensures
        within_capacity(after),
{
    assert forall|id: u64| #[trigger] after.contains_key(id) implies after[id] <= MAX_QUANTITY by {
        assert(before.contains_key(id));
    }
}

/// One move of the store: a valid transfer, or a disturbance step (which
/// includes leaving every bucket alone).
pub open spec fn store_step(before: Map<u64, u64>, after: Map<u64, u64>) -> bool {
    ||| exists|source: u64, destination: u64, amount: u64|
        {
            &&& #[trigger] transfer_error(before, source, destination, amount) is None
            &&& after == transferred(before, source, destination, amount)
        }
    ||| disturbed(before, after)
}

/// Every state reached from one within capacity, by any sequence of valid
/// transfers and disturbance steps, is within capacity.
pub proof fn lemma_reachable_within_capacity(states: Seq<Map<u64, u64>>)
    requires
        states.len() > 0,
        within_capacity(states[0]),
        forall|i: int|
            0 <= i < states.len() - 1 ==> store_step(#[trigger] states[i], states[i + 1]),
    ensures
        forall|i: int| 0 <= i < states.len() ==> within_capacity(#[trigger] states[i]),
    decreases states.len(),
{
    if states.len() > 1 {
        let earlier = states.drop_last();
        assert forall|i: int| 0 <= i < earlier.len() - 1 implies store_step(
            #[trigger] earlier[i],
            earlier[i + 1],
        ) by {
            assert(store_step(states[i], states[i + 1]));
        }
        lemma_reachable_within_capacity(earlier);
        let n = states.len() - 1;
        assert(within_capacity(earlier[n - 1]));
        assert(store_step(states[n - 1], states[n]));
        if disturbed(states[n - 1], states[n]) {
            lemma_disturbance_within_capacity(states[n - 1], states[n]);
        } else {
            let (source, destination, amount) = choose|source: u64, destination: u64, amount: u64|
                {
                    &&& #[trigger] transfer_error(states[n - 1], source, destination, amount)
                        is None
                    &&& states[n] == transferred(states[n - 1], source, destination, amount)
                };
            lemma_transfer_within_capacity(states[n - 1], source, destination, amount);
        }
        assert forall|i: int| 0 <= i < states.len() implies within_capacity(
            #[trigger] states[i],
        ) by {
            if i < n {
                assert(states[i] == earlier[i]);
            }
        }
    }
}

} // verus!

verus! {

/// The kinds of bucket backend.
#[derive(Clone, Copy, Debug, PartialEq, Eq, Structural)]
pub enum BucketType {
    /// A fixed set of buckets, see `NBuckets`.
    NBuckets,
}

/// The bucket store behind one interface, whichever kind of backend holds
/// the buckets.
pub struct Buckets {
    store: NBuckets,
}

impl View for Buckets {
    type V = Map<u64, u64>;

    closed spec fn view(&self) -> Map<u64, u64> {
        self.store@
    }
}

impl Buckets {
    /// A store of the default kind holding the initial quantities.
    pub fn new(data: HashMap<u64, u64>) -> (r: Buckets)
        requires
            within_capacity(data@),
        ensures
            r@ == data@,
    {
        Buckets::with_type(BucketType::NBuckets, data)
    }

    /// A store of the given kind holding the initial quantities.
    pub fn with_type(bucket_type: BucketType, data: HashMap<u64, u64>) -> (r: Buckets)
        requires
            within_capacity(data@),
        ensures
            r@ == data@,
    {
        match bucket_type {
            BucketType::NBuckets => Buckets { store: NBuckets::new(data) },
        }
    }

    /// Every bucket with its quantity, labelled `B<id>`, in ascending order
    /// of identifier.
    pub fn data(&self) -> (r: Vec<(String, u64)>)
        ensures
            labelled_in_order(self@, r@),
    {
        self.store.data()
    }

    /// One disturbance step, see `NBuckets::fill`.
    pub fn tick(&mut self) -> (r: Option<(u64, u64, u64)>)
        ensures
            disturbed(old(self)@, final(self)@),
            within_capacity(old(self)@) ==> within_capacity(final(self)@),
            reports_change(old(self)@, final(self)@, r),
    {
        self.store.fill()
    }
}

impl Sensor for Buckets {
    fn buckets(&self) -> (r: &HashMap<u64, u64>) {
        self.store.buckets()
    }

    fn get_bucket_quantity(&self, bucket: u64) -> (r: Result<u64, ControlError>) {
        self.store.get_bucket_quantity(bucket)
    }
}

impl FinalControlElement for Buckets {
    fn transfer(&mut self, source: u64, destination: u64, amount: u64) -> (r: Result<
        (),
        ControlError,
    >)
        ensures
            within_capacity(old(self)@) ==> within_capacity(final(self)@),
    {
        self.store.transfer(source, destination, amount)
    }

    fn add_bucket(&mut self) -> (r: Result<u64, ControlError>) {
        self.store.add_bucket()
    }
}

} // verus!
