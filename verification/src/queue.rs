//! A double-ended queue with a byte budget and a hard element cap.
use vstd::prelude::*;
use vstd::std_specs::cmp::PartialEqSpec;
use std::collections::VecDeque;

use crate::{TelemetryError, TelemetryResult};

verus! {

/// Items stored in a bounded queue report how much memory they account for.
pub trait ByteCost {
    /// The cost of the item, as a specification.
    spec fn spec_byte_cost(&self) -> nat;

    /// Approximate heap + payload memory attributable to this item.
    fn byte_cost(&self) -> (r: usize)
        ensures
            r == self.spec_byte_cost(),
    ;
}

impl ByteCost for u64 {
    open spec fn spec_byte_cost(&self) -> nat {
        8
    }

    fn byte_cost(&self) -> (r: usize) {
        8
    }
}

/// Total cost of the items of a sequence.
pub open spec fn seq_cost<T: ByteCost>(s: Seq<T>) -> nat
    decreases s.len(),
{
    if s.len() == 0 {
        0
    } else {
        s[0].spec_byte_cost() + seq_cost(s.drop_first())
    }
}

/// Appending an item adds its cost.
pub proof fn lemma_seq_cost_push<T: ByteCost>(s: Seq<T>, v: T)
    ensures
        seq_cost(s.push(v)) == seq_cost(s) + v.spec_byte_cost(),
    decreases s.len(),
{
    if s.len() == 0 {
        assert(s.push(v).drop_first() =~= Seq::<T>::empty());
        assert(seq_cost(Seq::<T>::empty()) == 0);
        assert(s.push(v)[0] == v);
    } else {
        assert(s.push(v).drop_first() =~= s.drop_first().push(v));
        assert(s.push(v)[0] == s[0]);
        lemma_seq_cost_push(s.drop_first(), v);
    }
}

/// Removing the item at `i` subtracts its cost.
pub proof fn lemma_seq_cost_remove<T: ByteCost>(s: Seq<T>, i: int)
    requires
        0 <= i < s.len(),
    ensures
        seq_cost(s.remove(i)) + s[i].spec_byte_cost() == seq_cost(s),
    decreases s.len(),
{
    if i == 0 {
        assert(s.remove(0) =~= s.drop_first());
    } else {
        assert(s.remove(i).drop_first() =~= s.drop_first().remove(i - 1));
        lemma_seq_cost_remove(s.drop_first(), i - 1);
    }
}

/// The cost of a suffix never exceeds the cost of the whole sequence.
pub proof fn lemma_seq_cost_skip<T: ByteCost>(s: Seq<T>, k: int)
    requires
        0 <= k <= s.len(),
    ensures
        seq_cost(s.skip(k)) <= seq_cost(s),
    decreases k,
{
    if k > 0 {
        assert(s.skip(k) =~= s.drop_first().skip(k - 1));
        lemma_seq_cost_skip(s.drop_first(), k - 1);
    } else {
        assert(s.skip(0) =~= s);
    }
}

/// Number of items evicted from the front of `s` until an item of cost
/// `cost` fits in a budget of `max_bytes`.
pub open spec fn budget_evictions<T: ByteCost>(s: Seq<T>, cost: nat, max_bytes: nat) -> nat
    decreases s.len(),
{
    if s.len() == 0 || seq_cost(s) + cost <= max_bytes {
        0
    } else {
        1 + budget_evictions(s.drop_first(), cost, max_bytes)
    }
}

/// Total number of items evicted from the front of `s` before pushing an
/// item of cost `cost`: first to fit the byte budget, then one more when the
/// element cap is reached.
pub open spec fn push_evictions<T: ByteCost>(
    s: Seq<T>,
    cost: nat,
    max_bytes: nat,
    max_elems: nat,
) -> nat {
    let e = budget_evictions(s, cost, max_bytes);
    if s.len() - e >= max_elems {
        e + 1
    } else {
        e
    }
}

proof fn lemma_budget_evictions_bound<T: ByteCost>(s: Seq<T>, cost: nat, max_bytes: nat)
    requires
        cost <= max_bytes,
    ensures
        budget_evictions(s, cost, max_bytes) <= s.len(),
        seq_cost(s.skip(budget_evictions(s, cost, max_bytes) as int)) + cost <= max_bytes,
    decreases s.len(),
{
    if s.len() == 0 || seq_cost(s) + cost <= max_bytes {
        assert(s.skip(0) =~= s);
    } else {
        lemma_budget_evictions_bound(s.drop_first(), cost, max_bytes);
        let e = budget_evictions(s.drop_first(), cost, max_bytes);
        assert(s.skip(e + 1 as int) =~= s.drop_first().skip(e as int));
    }
}

/// A double-ended queue with a maximum byte budget and an element cap.
///
/// Pushing evicts from the front until the new item fits the byte budget,
/// and once more when the element cap is reached; the byte counter always
/// equals the total cost of the queued items.
#[derive(Debug, Clone)]
pub struct BoundedDeque<T> {
    q: VecDeque<T>,
    max_bytes: usize,
    cur_bytes: usize,
    max_elems: usize,
    grow_num: usize,
    grow_den: usize,
}

/// Capacity of a `VecDeque`, as reported by the allocator.
#[verifier::external_body]
fn deque_capacity<T>(q: &VecDeque<T>) -> (r: usize)
    ensures
        r >= q@.len(),
{
    q.capacity()
}

/// Reserve room for exactly `additional` more items
/// (`VecDeque::reserve_exact`); the items are unchanged. What capacity
/// results is the allocator's and is not stated.
#[verifier::external_body]
fn deque_reserve_exact<T>(q: &mut VecDeque<T>, additional: usize)
    ensures
        final(q)@ == old(q)@,
{
    q.reserve_exact(additional);
}

impl<T: ByteCost> BoundedDeque<T> {
    /// The queued items, front first.
    pub closed spec fn view(&self) -> Seq<T> {
        self.q@
    }

    /// Byte budget.
    pub closed spec fn spec_max_bytes(&self) -> nat {
        self.max_bytes as nat
    }

    /// Hard element cap.
    pub closed spec fn spec_max_elems(&self) -> nat {
        self.max_elems as nat
    }

    /// Growth ratio of the allocation, as numerator and denominator.
    pub closed spec fn spec_grow_ratio(&self) -> (nat, nat) {
        (self.grow_num as nat, self.grow_den as nat)
    }

    /// A well-formed queue keeps the total cost of its items within the
    /// byte budget and its length within the element cap, which is at
    /// least one.
    pub proof fn lemma_wf_bounds(&self)
        requires
            self.wf(),
        ensures
            seq_cost(self@) <= self.spec_max_bytes(),
            self@.len() <= self.spec_max_elems(),
            self.spec_max_elems() >= 1,
    {
    }

    /// Internal consistency: the byte counter is the total cost of the items,
    /// and both the byte budget and the element cap hold.
    pub closed spec fn wf(&self) -> bool {
        &&& self.cur_bytes == seq_cost(self.q@)
        &&& self.cur_bytes <= self.max_bytes
        &&& self.q@.len() <= self.max_elems
        &&& self.max_elems >= 1
        &&& self.grow_den >= 1
        &&& self.grow_num > self.grow_den
    }

    /// Create a queue with a byte budget, a starting allocation and a growth
    /// ratio `grow_num / grow_den` (which must exceed 1).
    ///
    /// The element cap is `max(max_bytes / max(size_of::<T>(), 1), 1)`.
    pub fn new(max_bytes: usize, starting_bytes: usize, grow_num: usize, grow_den: usize) -> (r: Self)
        requires
            starting_bytes <= max_bytes,
            max_bytes > 0,
            grow_den >= 1,
            grow_num > grow_den,
        ensures
            r.wf(),
            r@ == Seq::<T>::empty(),
            r.spec_max_bytes() == max_bytes,
            r.spec_grow_ratio() == (grow_num as nat, grow_den as nat),
            r.spec_max_elems() == ({
                let min_cost = if vstd::layout::size_of::<T>() == 0 { 1 } else { vstd::layout::size_of::<T>() };
                if (max_bytes as nat) / min_cost == 0 { 1 } else { (max_bytes as nat) / min_cost }
            }),
    {
        let sz = core::mem::size_of::<T>();
        let min_cost: usize = if sz == 0 { 1 } else { sz };
        let per = max_bytes / min_cost;
        let max_elems: usize = if per == 0 { 1 } else { per };
        let starting_elems = starting_bytes / min_cost;
        let start_cap: usize = if starting_elems < 1 {
            1
        } else if starting_elems > max_elems {
            max_elems
        } else {
            starting_elems
        };
        let r = BoundedDeque {
            q: VecDeque::with_capacity(start_cap),
            max_bytes,
            cur_bytes: 0,
            max_elems,
            grow_num,
            grow_den,
        };
        r
    }

    /// Current number of items.
    pub fn len(&self) -> (r: usize)
        ensures
            r == self@.len(),
    {
        self.q.len()
    }

    /// Whether the queue is empty.
    pub fn is_empty(&self) -> (r: bool)
        ensures
            r == (self@.len() == 0),
    {
        self.q.len() == 0
    }

    /// The queued items, front first.
    pub fn iter(&self) -> (r: Vec<&T>)
        ensures
            r@.len() == self@.len(),
            forall|i: int| 0 <= i < self@.len() ==> *#[trigger] r@[i] == self@[i],
    {
        let n = self.q.len();
        let mut out: Vec<&T> = Vec::new();
        let mut i: usize = 0;
        while i < n
            invariant
                n == self@.len(),
                i <= n,
                out@.len() == i,
                forall|k: int| 0 <= k < i ==> *#[trigger] out@[k] == self@[k],
            decreases n - i,
        {
            out.push(&self.q[i]);
            i = i + 1;
        }
        out
    }

    /// Whether an item equal to `v` is queued.
    pub fn contains(&self, v: &T) -> (r: bool)
        where
            T: PartialEq,
        requires
            T::obeys_eq_spec(),
        ensures
            r == (exists|i: int| 0 <= i < self@.len() && self@[i].eq_spec(v)),
    {
        match self.position_of(v) {
            Some(_) => true,
            None => false,
        }
    }

    /// Index of the first queued item equal to `needle`.
    fn position_of(&self, needle: &T) -> (r: Option<usize>)
        where
            T: PartialEq,
        requires
            T::obeys_eq_spec(),
        ensures
            match r {
                Some(i) => i < self@.len() && self@[i as int].eq_spec(needle) && forall|j: int|
                    0 <= j < i ==> !self@[j].eq_spec(needle),
                None => forall|j: int| 0 <= j < self@.len() ==> !self@[j].eq_spec(needle),
            },
    {
        let n = self.q.len();
        let mut i: usize = 0;
        while i < n
            invariant
                n == self.q@.len(),
                i <= n,
                T::obeys_eq_spec(),
                forall|j: int| 0 <= j < i ==> !self.q@[j].eq_spec(needle),
            decreases n - i,
        {
            if self.q[i] == *needle {
                return Some(i);
            }
            i = i + 1;
        }
        None
    }

    /// Remove all items.
    pub fn clear(&mut self)
        requires
            old(self).wf(),
        ensures
            final(self).wf(),
            final(self)@ == Seq::<T>::empty(),
            final(self).spec_max_bytes() == old(self).spec_max_bytes(),
            final(self).spec_max_elems() == old(self).spec_max_elems(),
            final(self).spec_grow_ratio() == old(self).spec_grow_ratio(),
    {
        self.q.clear();
        self.cur_bytes = 0;
    }

    /// Bytes currently accounted to queued items.
    pub fn bytes_used(&self) -> (r: usize)
        requires
            self.wf(),
        ensures
            r == seq_cost(self@),
    {
        self.cur_bytes
    }

    /// Byte budget.
    pub fn max_bytes(&self) -> (r: usize)
        ensures
            r == self.spec_max_bytes(),
    {
        self.max_bytes
    }

    /// Hard element cap.
    pub fn max_elems(&self) -> (r: usize)
        ensures
            r == self.spec_max_elems(),
    {
        self.max_elems
    }

    /// Capacity of the underlying storage (never below the length).
    pub fn capacity(&self) -> (r: usize)
        ensures
            r >= self@.len(),
    {
        deque_capacity(&self.q)
    }

    /// Pop from the front, updating the byte count.
    pub fn pop_front(&mut self) -> (r: Option<T>)
        requires
            old(self).wf(),
        ensures
            final(self).wf(),
            final(self).spec_max_bytes() == old(self).spec_max_bytes(),
            final(self).spec_max_elems() == old(self).spec_max_elems(),
            final(self).spec_grow_ratio() == old(self).spec_grow_ratio(),
            match r {
                Some(x) => old(self)@.len() > 0 && x == old(self)@[0] && final(self)@
                    == old(self)@.drop_first(),
                None => old(self)@.len() == 0 && final(self)@ == old(self)@,
            },
    {
        let v = self.q.pop_front();
        match v {
            Some(x) => {
                proof {
                    assert(old(self).q@.subrange(1, old(self).q@.len() as int)
                        =~= old(self).q@.drop_first());
                }
                let c = x.byte_cost();
                self.cur_bytes = self.cur_bytes - c;
                Some(x)
            },
            None => None,
        }
    }

    /// Pop from the back, updating the byte count.
    pub fn pop_back(&mut self) -> (r: Option<T>)
        requires
            old(self).wf(),
        ensures
            final(self).wf(),
            final(self).spec_max_bytes() == old(self).spec_max_bytes(),
            final(self).spec_max_elems() == old(self).spec_max_elems(),
            final(self).spec_grow_ratio() == old(self).spec_grow_ratio(),
            match r {
                Some(x) => old(self)@.len() > 0 && x == old(self)@.last() && final(self)@
                    == old(self)@.drop_last(),
                None => old(self)@.len() == 0 && final(self)@ == old(self)@,
            },
    {
        let ghost s = self.q@;
        let v = self.q.pop_back();
        match v {
            Some(x) => {
                proof {
                    assert(s.remove(s.len() - 1) =~= s.drop_last());
                    lemma_seq_cost_remove(s, s.len() - 1);
                }
                let c = x.byte_cost();
                self.cur_bytes = self.cur_bytes - c;
                Some(x)
            },
            None => None,
        }
    }

    /// Remove the item at position `idx`, updating the byte count.
    pub fn remove_pos(&mut self, idx: usize) -> (r: Option<T>)
        requires
            old(self).wf(),
        ensures
            final(self).wf(),
            final(self).spec_max_bytes() == old(self).spec_max_bytes(),
            final(self).spec_max_elems() == old(self).spec_max_elems(),
            final(self).spec_grow_ratio() == old(self).spec_grow_ratio(),
            match r {
                Some(x) => idx < old(self)@.len() && x == old(self)@[idx as int] && final(self)@
                    == old(self)@.remove(idx as int),
                None => old(self)@.len() <= idx && final(self)@ == old(self)@,
            },
    {
        let ghost s = self.q@;
        let v = self.q.remove(idx);
        match v {
            Some(x) => {
                proof {
                    lemma_seq_cost_remove(s, idx as int);
                }
                let c = x.byte_cost();
                self.cur_bytes = self.cur_bytes - c;
                Some(x)
            },
            None => None,
        }
    }

    /// Remove the first item equal to `needle`, if any, updating the byte count.
    pub fn remove_value(&mut self, needle: &T)
        where
            T: PartialEq,
        requires
            old(self).wf(),
            T::obeys_eq_spec(),
        ensures
            final(self).wf(),
            final(self).spec_max_bytes() == old(self).spec_max_bytes(),
            final(self).spec_max_elems() == old(self).spec_max_elems(),
            final(self).spec_grow_ratio() == old(self).spec_grow_ratio(),
            (forall|j: int| 0 <= j < old(self)@.len() ==> !old(self)@[j].eq_spec(needle))
                ==> final(self)@ == old(self)@,
            forall|i: int|
                0 <= i < old(self)@.len() && old(self)@[i].eq_spec(needle) && (forall|j: int|
                    0 <= j < i ==> !old(self)@[j].eq_spec(needle)) ==> final(self)@ == old(
                    self,
                )@.remove(i),
    {
        match self.position_of(needle) {
            Some(idx) => {
                let _ = self.remove_pos(idx);
            },
            None => {},
        }
    }

    /// Make room for one more item without implicit growth: when the
    /// allocation is full, evict the front item if the element cap is
    /// reached, else grow the allocation by `grow_num / grow_den`, capped at
    /// the element cap.
    ///
    /// Returns the capacity it found, which decides between the cases.
    fn ensure_room_for_one(&mut self) -> (found_cap: Ghost<usize>)
        requires
            old(self).wf(),
        ensures
            final(self).wf(),
            final(self).spec_max_bytes() == old(self).spec_max_bytes(),
            final(self).spec_max_elems() == old(self).spec_max_elems(),
            final(self).spec_grow_ratio() == old(self).spec_grow_ratio(),
            old(self)@.len() < old(self).spec_max_elems() ==> final(self)@ == old(self)@,
            old(self)@.len() < found_cap@ ==> final(self)@ == old(self)@,
            old(self)@.len() >= found_cap@ && old(self)@.len() >= old(self).spec_max_elems() ==> final(self)@ == old(
                self,
            )@.drop_first(),
    {
        let len = self.q.len();
        let cap = deque_capacity(&self.q);
        if len < cap {
            return Ghost(cap);
        }
        if len >= self.max_elems {
            let _ = self.pop_front();
            return Ghost(cap);
        }
        if cap >= self.max_elems {
            let _ = self.pop_front();
            return Ghost(cap);
        }
        let gn = self.grow_num;
        let prod: usize = if cap > usize::MAX / gn {
            usize::MAX
        } else {
            proof {
                assert(cap * gn <= usize::MAX) by (nonlinear_arith)
                    requires cap <= usize::MAX / gn, gn > 0;
            }
            cap * gn
        };
        let scaled = prod.saturating_add(self.grow_den - 1);
        let mut target_cap = scaled / self.grow_den;
        if target_cap < cap + 1 {
            target_cap = cap + 1;
        }
        if target_cap > self.max_elems {
            target_cap = self.max_elems;
        }
        let add = target_cap - cap;
        deque_reserve_exact(&mut self.q, add);
        Ghost(cap)
    }

    /// Push to the back, evicting from the front as needed.
    ///
    /// An item costing more than the whole budget is refused with
    /// `PacketTooLarge` and the queue is left unchanged.
    pub fn push_back(&mut self, v: T) -> (r: TelemetryResult<()>)
        requires
            old(self).wf(),
        ensures
            final(self).wf(),
            final(self).spec_max_bytes() == old(self).spec_max_bytes(),
            final(self).spec_max_elems() == old(self).spec_max_elems(),
            final(self).spec_grow_ratio() == old(self).spec_grow_ratio(),
            v.spec_byte_cost() > old(self).spec_max_bytes() ==> (r matches Err(
                TelemetryError::PacketTooLarge(m),
            ) && m == "Item exceeds maximum byte budget" && final(self)@ == old(self)@),
            v.spec_byte_cost() <= old(self).spec_max_bytes() ==> (r is Ok && final(self)@
                == old(self)@.skip(
                push_evictions(
                    old(self)@,
                    v.spec_byte_cost(),
                    old(self).spec_max_bytes(),
                    old(self).spec_max_elems(),
                ) as int,
            ).push(v)),
            v.spec_byte_cost() <= old(self).spec_max_bytes() ==> (final(self)@.len() <= old(self)@.len() + 1
                && final(self)@.len() >= 1 && final(self)@.last() == v),
            v.spec_byte_cost() <= old(self).spec_max_bytes() ==> push_evictions(
                old(self)@,
                v.spec_byte_cost(),
                old(self).spec_max_bytes(),
                old(self).spec_max_elems(),
            ) <= old(self)@.len(),
    {
        let cost = v.byte_cost();
        if cost > self.max_bytes {
            return Err(TelemetryError::PacketTooLarge("Item exceeds maximum byte budget"));
        }
        let ghost s0 = self.q@;
        let ghost e = budget_evictions(s0, cost as nat, self.max_bytes as nat);
        proof {
            lemma_budget_evictions_bound(s0, cost as nat, self.max_bytes as nat);
            assert(s0.skip(0) =~= s0);
        }
        let ghost mut k: int = 0;
        while self.q.len() > 0 && cost > self.max_bytes - self.cur_bytes
            invariant
                self.wf(),
                self.max_bytes == old(self).max_bytes,
                self.max_elems == old(self).max_elems,
                self.grow_num == old(self).grow_num,
                self.grow_den == old(self).grow_den,
                cost == v.spec_byte_cost(),
                cost <= self.max_bytes,
                0 <= k <= e,
                e == budget_evictions(s0, cost as nat, self.max_bytes as nat),
                e <= s0.len(),
                self.q@ == s0.skip(k),
                budget_evictions(s0, cost as nat, self.max_bytes as nat) == k
                    + budget_evictions(s0.skip(k), cost as nat, self.max_bytes as nat),
            decreases self.q@.len(),
        {
            proof {
                assert(s0.skip(k).drop_first() =~= s0.skip(k + 1));
            }
            let _ = self.pop_front();
            proof {
                k = k + 1;
            }
        }
        proof {
            assert(budget_evictions(s0.skip(k), cost as nat, self.max_bytes as nat) == 0);
        }
        if self.q.len() >= self.max_elems {
            proof {
                assert(s0.skip(k).drop_first() =~= s0.skip(k + 1));
            }
            let _ = self.pop_front();
            proof {
                k = k + 1;
            }
        }
        self.ensure_room_for_one();
        proof {
            lemma_seq_cost_push(self.q@, v);
            lemma_seq_cost_skip(s0.skip(e as int), k - e);
            assert(s0.skip(e as int).skip(k - e) =~= s0.skip(k));
        }
        self.q.push_back(v);
        self.cur_bytes = self.cur_bytes + cost;
        Ok(())
    }
}

/// `s` is what remains of `full` after dropping items from its front.
pub open spec fn suffix_of<A>(s: Seq<A>, full: Seq<A>) -> bool {
    s.len() <= full.len() && s == full.skip(full.len() - s.len())
}

/// Pushing `m` after evicting `e` items from the front of a suffix of
/// `full` leaves a suffix of `full` followed by `m`.
pub proof fn lemma_suffix_push<A>(q: Seq<A>, full: Seq<A>, e: int, m: A)
    requires
        suffix_of(q, full),
        0 <= e <= q.len(),
    ensures
        suffix_of(q.skip(e).push(m), full.push(m)),
{
    let q2 = q.skip(e).push(m);
    let f2 = full.push(m);
    assert(q2.len() <= f2.len());
    assert(q2 =~= f2.skip(f2.len() - q2.len()));
}

/// A sequence is a suffix of itself.
pub proof fn lemma_suffix_refl<A>(s: Seq<A>)
    ensures
        suffix_of(s, s),
{
    assert(s =~= s.skip(0));
}

/// Dropping the front of a nonempty suffix of `full` leaves a suffix of
/// `full`.
pub proof fn lemma_suffix_drop_first<A>(q: Seq<A>, full: Seq<A>)
    requires
        suffix_of(q, full),
        q.len() > 0,
    ensures
        suffix_of(q.drop_first(), full),
{
    assert(q.drop_first() =~= full.skip(full.len() - (q.len() - 1)));
}

/// A suffix of `q` followed by `m`, where `q` is a suffix of `full`, is a
/// suffix of `full` followed by `m`.
pub proof fn lemma_suffix_trans_push<A>(q2: Seq<A>, q: Seq<A>, full: Seq<A>, m: A)
    requires
        suffix_of(q, full),
        suffix_of(q2, q.push(m)),
    ensures
        suffix_of(q2, full.push(m)),
{
    let f2 = full.push(m);
    let k = full.len() - q.len();
    assert(q.push(m) =~= f2.skip(k));
    assert(q2 =~= f2.skip(f2.len() - q2.len()));
}

/// A suffix of `q` followed by `x`, where `q` is a suffix of `full`, is a
/// suffix of `full` followed by `x`.
pub proof fn lemma_suffix_trans_append<A>(c: Seq<A>, b: Seq<A>, full: Seq<A>, x: Seq<A>)
    requires
        suffix_of(b, full),
        suffix_of(c, b + x),
    ensures
        suffix_of(c, full + x),
{
    let f2 = full + x;
    let k = full.len() - b.len();
    assert(b + x =~= f2.skip(k));
    assert(c =~= f2.skip(f2.len() - c.len()));
}

} // verus!
