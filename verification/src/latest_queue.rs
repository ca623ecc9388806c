//! A queue of fixed capacity that keeps the newest values.

use vstd::prelude::*;

verus! {

/// How many pushes ago the sequence number `sequence` was handed out, when
/// `next` is the number that the next push gets. Sequence numbers wrap, so
/// the distance is taken round the circle of the 16-bit numbers.
pub open spec fn age(next: u16, sequence: u16) -> int {
    if next >= sequence {
        next - sequence
    } else {
        next - sequence + 0x10000
    }
}

/// The index, among the first `upto` of `entries`, of the entry whose
/// sequence number is the oldest; the first such index where several are
/// equally old.
pub open spec fn oldest_among<T>(entries: Seq<(u16, T)>, next: u16, upto: int) -> int
    decreases upto,
{
    if upto <= 1 {
        0
    } else {
        let best = oldest_among(entries, next, upto - 1);
        if age(next, entries[upto - 1].0) > age(next, entries[best].0) {
            upto - 1
        } else {
            best
        }
    }
}

/// The storage slot that the push number `push` goes to in a queue of
/// `capacity` entries.
pub open spec fn slot(push: int, capacity: nat) -> int {
    push % (capacity as int)
}

/// The sequence number that the push number `push` gets.
pub open spec fn sequence_of(push: int) -> u16 {
    (push % 0x10000) as u16
}

/// A queue as a value: the entries in storage order, the sequence number of
/// the next push, the capacity, and every value pushed since the queue was
/// last empty, in the order of the pushes.
pub struct QueueModel<T> {
    pub entries: Seq<(u16, T)>,
    pub next: u16,
    pub capacity: nat,
    pub history: Seq<T>,
}

impl<T> QueueModel<T> {
    /// The queue of `capacity` entries that holds nothing.
    pub open spec fn empty(capacity: nat) -> Self {
        QueueModel { entries: Seq::empty(), next: 0, capacity, history: Seq::empty() }
    }

    /// The index of the entry that the next push replaces, once the queue is
    /// full.
    pub open spec fn oldest(self) -> int {
        oldest_among(self.entries, self.next, self.entries.len() as int)
    }

    /// The queue after `value` was pushed: appended while there is room, in
    /// the place of the oldest entry afterwards.
    pub open spec fn push(self, value: T) -> Self {
        QueueModel {
            entries: if self.entries.len() < self.capacity {
                self.entries.push((self.next, value))
            } else {
                self.entries.update(self.oldest(), (self.next, value))
            },
            next: if self.next == 0xFFFF {
                0u16
            } else {
                (self.next + 1) as u16
            },
            capacity: self.capacity,
            history: self.history.push(value),
        }
    }

    /// The queue after all of `values` were pushed, in their order.
    pub open spec fn push_all(self, values: Seq<T>) -> Self
        decreases values.len(),
    {
        if values.len() == 0 {
            self
        } else {
            self.push_all(values.drop_last()).push(values.last())
        }
    }

    /// The queue after it was emptied: the sequence numbers start again.
    pub open spec fn clear(self) -> Self {
        Self::empty(self.capacity)
    }

    /// The values that the queue holds, in the order in which they were
    /// pushed.
    pub open spec fn retained(self) -> Seq<T> {
        self.history.subrange(self.history.len() - self.entries.len(), self.history.len() as int)
    }

    /// The queue holds the latest pushes, as many as it has room for, each
    /// in its slot and under its sequence number.
    pub open spec fn wf(self) -> bool {
        &&& 0 < self.capacity <= 0xFFFF
        &&& self.entries.len() <= self.capacity
        &&& self.entries.len() <= self.history.len()
        &&& self.entries.len() < self.capacity ==> self.entries.len() == self.history.len()
        &&& self.next == sequence_of(self.history.len() as int)
        &&& forall|push: int|
            self.history.len() - self.entries.len() <= push < self.history.len()
                ==> self.entries[slot(push, self.capacity)] == (
                sequence_of(push),
                #[trigger] self.history[push],
            )
    }
}

proof fn lemma_age_of_push(total: int, push: int)
    requires
        0 <= push < total,
        total - push < 0x10000,
    ensures
        age(sequence_of(total), sequence_of(push)) == total - push,
{
    let m = 0x10000int;
    vstd::arithmetic::div_mod::lemma_fundamental_div_mod(total, m);
    vstd::arithmetic::div_mod::lemma_fundamental_div_mod(push, m);
    vstd::arithmetic::div_mod::lemma_mod_bound(total, m);
    vstd::arithmetic::div_mod::lemma_mod_bound(push, m);
    let qt = total / m;
    let qp = push / m;
    let rt = total % m;
    let rp = push % m;
    assert(total - push == m * (qt - qp) + (rt - rp)) by (nonlinear_arith)
        requires
            total == m * qt + rt,
            push == m * qp + rp,
    ;
    if rt >= rp {
        assert(qt - qp == 0) by (nonlinear_arith)
            requires
                total - push == m * (qt - qp) + (rt - rp),
                0 <= rt - rp < m,
                0 < total - push < m,
                m == 0x10000,
        ;
    } else {
        assert(qt - qp == 1) by (nonlinear_arith)
            requires
                total - push == m * (qt - qp) + (rt - rp),
                -m < rt - rp < 0,
                0 < total - push < m,
                m == 0x10000,
        ;
    }
}

proof fn lemma_slot_of_window(first: int, capacity: nat, index: int) -> (push: int)
    requires
        0 <= first,
        0 < capacity,
        0 <= index < capacity,
    ensures
        first <= push < first + capacity,
        slot(push, capacity) == index,
{
    let c = capacity as int;
    let r = (index - first) % c;
    vstd::arithmetic::div_mod::lemma_mod_bound(index - first, c);
    vstd::arithmetic::div_mod::lemma_fundamental_div_mod(index - first, c);
    let q = (index - first) / c;
    assert(first + r == c * (-q) + index) by (nonlinear_arith)
        requires
            index - first == c * q + r,
    ;
    vstd::arithmetic::div_mod::lemma_fundamental_div_mod_converse(first + r, c, -q, index);
    first + r
}

proof fn lemma_slots_differ(a: int, b: int, capacity: nat)
    requires
        0 <= a < b,
        b - a < capacity,
    ensures
        slot(a, capacity) != slot(b, capacity),
{
    let c = capacity as int;
    vstd::arithmetic::div_mod::lemma_fundamental_div_mod(a, c);
    vstd::arithmetic::div_mod::lemma_fundamental_div_mod(b, c);
    if a % c == b % c {
        let qa = a / c;
        let qb = b / c;
        assert(b - a == c * (qb - qa)) by (nonlinear_arith)
            requires
                a == c * qa + a % c,
                b == c * qb + b % c,
                a % c == b % c,
        ;
        assert(false) by (nonlinear_arith)
            requires
                b - a == c * (qb - qa),
                0 < b - a < c,
        ;
    }
}

proof fn lemma_oldest_among<T>(entries: Seq<(u16, T)>, next: u16, upto: int)
    requires
        1 <= upto <= entries.len(),
    ensures
        0 <= oldest_among(entries, next, upto) < upto,
        forall|j: int|
            0 <= j < upto ==> age(next, (#[trigger] entries[j]).0) <= age(
                next,
                entries[oldest_among(entries, next, upto)].0,
            ),
    decreases upto,
{
    if upto > 1 {
        lemma_oldest_among(entries, next, upto - 1);
    }
}

impl<T> QueueModel<T> {
    /// In a full queue the entry that the next push replaces is the one that
    /// was pushed first of those that the queue holds.
    pub proof fn lemma_oldest_is_first_retained(self)
        requires
            self.wf(),
            self.entries.len() == self.capacity,
        ensures
            self.oldest() == slot(self.history.len() - self.capacity, self.capacity),
            self.entries[self.oldest()].1 == self.retained()[0],
    {
        let total = self.history.len() as int;
        let c = self.capacity;
        let first = total - c;
        lemma_oldest_among(self.entries, self.next, c as int);
        let k = self.oldest();
        let first_slot = slot(first, c);
        vstd::arithmetic::div_mod::lemma_mod_bound(first, c as int);
        assert(self.entries[first_slot] == (sequence_of(first), self.history[first]));
        lemma_age_of_push(total, first);
        let push = lemma_slot_of_window(first, c, k);
        assert(self.entries[k] == (sequence_of(push), self.history[push]));
        lemma_age_of_push(total, push);
        assert(age(self.next, self.entries[first_slot].0) <= age(self.next, self.entries[k].0));
        assert(push == first);
    }

    /// A push keeps the queue well formed.
    pub proof fn lemma_push_wf(self, value: T)
        requires
            self.wf(),
        ensures
            self.push(value).wf(),
    {
        let after = self.push(value);
        let total = self.history.len() as int;
        let c = self.capacity;
        let m = 0x10000int;
        vstd::arithmetic::div_mod::lemma_fundamental_div_mod(total, m);
        vstd::arithmetic::div_mod::lemma_mod_bound(total, m);
        if self.next == 0xFFFF {
            vstd::arithmetic::div_mod::lemma_fundamental_div_mod_converse(
                total + 1,
                m,
                total / m + 1,
                0,
            );
        } else {
            vstd::arithmetic::div_mod::lemma_fundamental_div_mod_converse(
                total + 1,
                m,
                total / m,
                total % m + 1,
            );
        }
        assert(after.next == sequence_of(total + 1));
        if self.entries.len() < c {
            assert forall|push: int|
                after.history.len() - after.entries.len() <= push < after.history.len() implies after.entries[slot(
                push,
                c,
            )] == (sequence_of(push), #[trigger] after.history[push]) by {
                vstd::arithmetic::div_mod::lemma_small_mod(push as nat, c);
                if push < total {
                    assert(self.entries[slot(push, c)] == (sequence_of(push), self.history[push]));
                }
            }
        } else {
            self.lemma_oldest_is_first_retained();
            let first = total - c;
            vstd::arithmetic::div_mod::lemma_mod_bound(first, c as int);
            vstd::arithmetic::div_mod::lemma_fundamental_div_mod(first, c as int);
            let q = first / (c as int);
            let r = first % (c as int);
            assert(total == (q + 1) * (c as int) + r) by (nonlinear_arith)
                requires
                    first == (c as int) * q + r,
                    total == first + c,
            ;
            vstd::arithmetic::div_mod::lemma_fundamental_div_mod_converse(
                total,
                c as int,
                q + 1,
                r,
            );
            assert(slot(total, c) == slot(first, c));
            assert forall|push: int|
                after.history.len() - after.entries.len() <= push < after.history.len() implies after.entries[slot(
                push,
                c,
            )] == (sequence_of(push), #[trigger] after.history[push]) by {
                if push < total {
                    lemma_slots_differ(push, total, c);
                    assert(self.entries[slot(push, c)] == (sequence_of(push), self.history[push]));
                }
            }
        }
    }

    /// After a push the queue holds what it held before, less the value
    /// pushed first where it was full, and the new value as the latest.
    pub proof fn lemma_push_retains_latest(self, value: T)
        requires
            self.wf(),
        ensures
            self.push(value).retained() == if self.entries.len() < self.capacity {
                self.retained().push(value)
            } else {
                self.retained().skip(1).push(value)
            },
            self.entries.len() < self.capacity ==> self.push(value).entries == self.entries.push(
                (self.next, value),
            ),
    {
        if self.entries.len() < self.capacity {
            assert(self.push(value).retained() =~= self.retained().push(value));
        } else {
            self.lemma_oldest_is_first_retained();
            vstd::arithmetic::div_mod::lemma_mod_bound(
                self.history.len() - self.capacity,
                self.capacity as int,
            );
            assert(self.push(value).retained() =~= self.retained().skip(1).push(value));
        }
    }

    /// Whatever is pushed onto an empty queue, and however much of it, the
    /// queue then holds the values pushed last, as many as it has room for,
    /// and each of them in the slot of its push.
    pub proof fn lemma_holds_latest_pushes(capacity: nat, values: Seq<T>)
        requires
            0 < capacity <= 0xFFFF,
        ensures
            Self::empty(capacity).push_all(values).wf(),
            Self::empty(capacity).push_all(values).capacity == capacity,
            Self::empty(capacity).push_all(values).history == values,
            Self::empty(capacity).push_all(values).retained() == if values.len() <= capacity {
                values
            } else {
                values.subrange(values.len() - capacity, values.len() as int)
            },
        decreases values.len(),
    {
        let start = Self::empty(capacity);
        if values.len() == 0 {
            assert(start.retained() =~= values);
            assert(start.history =~= values);
            vstd::arithmetic::div_mod::lemma_small_mod(0, 0x10000);
        } else {
            let before = start.push_all(values.drop_last());
            Self::lemma_holds_latest_pushes(capacity, values.drop_last());
            before.lemma_push_wf(values.last());
            let after = before.push(values.last());
            assert(values.drop_last().push(values.last()) =~= values);
            assert(after.history == values);
            assert(after.wf());
            if values.len() <= capacity {
                assert(after.entries.len() == values.len());
            } else {
                assert(after.entries.len() == capacity);
            }
            assert(after.retained() =~= if values.len() <= capacity {
                values
            } else {
                values.subrange(values.len() - capacity, values.len() as int)
            });
        }
    }

    /// `value` stands in one of the queue's entries.
    pub open spec fn stores(self, value: T) -> bool {
        exists|i: int| 0 <= i < self.entries.len() && (#[trigger] self.entries[i]).1 == value
    }

    /// `value` is one of the values that the queue retains.
    pub open spec fn retains(self, value: T) -> bool {
        exists|k: int| 0 <= k < self.retained().len() && #[trigger] self.retained()[k] == value
    }

    /// The entries of the queue are the values that it retains, no more and
    /// no less: every retained value stands in an entry, and every entry
    /// holds a retained value.
    pub proof fn lemma_entries_are_the_retained(self)
        requires
            self.wf(),
        ensures
            self.entries.len() == self.retained().len(),
            forall|k: int|
                0 <= k < self.retained().len() ==> self.stores(#[trigger] self.retained()[k]),
            forall|i: int|
                0 <= i < self.entries.len() ==> self.retains((#[trigger] self.entries[i]).1),
    {
        let total = self.history.len() as int;
        let held = self.entries.len() as int;
        let first = total - held;
        assert forall|k: int| 0 <= k < self.retained().len() implies self.stores(
            #[trigger] self.retained()[k],
        ) by {
            let push = first + k;
            let i = slot(push, self.capacity);
            vstd::arithmetic::div_mod::lemma_mod_bound(push, self.capacity as int);
            if held < self.capacity {
                vstd::arithmetic::div_mod::lemma_small_mod(push as nat, self.capacity);
            }
            assert(self.entries[i] == (sequence_of(push), self.history[push]));
        }
        assert forall|i: int| 0 <= i < self.entries.len() implies self.retains(
            (#[trigger] self.entries[i]).1,
        ) by {
            let push = if held < self.capacity {
                vstd::arithmetic::div_mod::lemma_small_mod(i as nat, self.capacity);
                i
            } else {
                lemma_slot_of_window(first, self.capacity, i)
            };
            assert(self.entries[slot(push, self.capacity)] == (
                sequence_of(push),
                self.history[push],
            ));
            assert(self.retained()[push - first] == self.history[push]);
        }
    }

    /// A queue that was emptied and then pushed onto once holds that one
    /// value, under the first sequence number.
    pub proof fn lemma_first_push_after_clear(self, value: T)
        requires
            0 < self.capacity,
        ensures
            self.clear().push(value).entries == seq![(0u16, value)],
    {
        assert(self.clear().push(value).entries =~= seq![(0u16, value)]);
    }
}

/// A queue of fixed capacity that keeps the newest `N` values pushed onto
/// it. Each value is stored with a sequence number, which counts the pushes
/// and wraps.
pub struct LatestQueue<T, const N: usize> {
    inner: Vec<(u16, T)>,
    next: u16,
    history: Ghost<Seq<T>>,
}

impl<T, const N: usize> View for LatestQueue<T, N> {
    type V = QueueModel<T>;

    closed spec fn view(&self) -> QueueModel<T> {
        QueueModel {
            entries: self.inner@,
            next: self.next,
            capacity: N as nat,
            history: self.history@,
        }
    }
}

impl<T, const N: usize> LatestQueue<T, N> {
    /// An empty queue. The capacity has to be at least one, and less than
    /// the number of sequence numbers, so that no two entries share one.
    pub fn new() -> (queue: Self)
        requires
            0 < N <= 0xFFFF,
        ensures
            queue@ == QueueModel::<T>::empty(N as nat),
            queue@.wf(),
    {
        proof {
            vstd::arithmetic::div_mod::lemma_small_mod(0, 0x10000);
        }
        Self { inner: Vec::new(), next: 0, history: Ghost(Seq::empty()) }
    }

    /// Stores `val` under the next sequence number: in a new entry while the
    /// queue has room, in the place of the oldest entry once it is full.
    pub fn push(&mut self, val: T)
        requires
            old(self)@.wf(),
        ensures
            final(self)@ == old(self)@.push(val),
            final(self)@.wf(),
    {
        proof {
            self@.lemma_push_wf(val);
        }
        let len: usize = self.inner.len();
        let ghost before = self@;
        self.history = Ghost(self.history@.push(val));
        if len < N {
            self.inner.push((self.next, val));
        } else {
            // Find the entry that was pushed the longest ago and replace it
            let mut target: usize = 0;
            let mut i: usize = 1;
            while i < len
                invariant
                    1 <= i <= len,
                    len == self.inner@.len(),
                    target == oldest_among(self.inner@, self.next, i as int),
                    target < i,
                decreases len - i,
            {
                proof {
                    lemma_oldest_among(self.inner@, self.next, i as int);
                }
                let candidate: u16 = self.next.wrapping_sub(self.inner[i].0);
                let best: u16 = self.next.wrapping_sub(self.inner[target].0);
                if candidate > best {
                    target = i;
                }
                i += 1;
            }
            self.inner[target] = (self.next, val);
        }
        self.next = self.next.wrapping_add(1);
        assert(self@.entries =~= before.push(val).entries);
    }

    /// Empties the queue. The sequence numbers start again.
    pub fn clear(&mut self)
        requires
            old(self)@.wf(),
        ensures
            final(self)@ == old(self)@.clear(),
            final(self)@.wf(),
    {
        proof {
            vstd::arithmetic::div_mod::lemma_small_mod(0, 0x10000);
        }
        self.inner.clear();
        self.next = 0;
        self.history = Ghost(Seq::empty());
    }

    /// The number of entries that the queue holds.
    pub fn len(&self) -> (len: usize)
        ensures
            len == self@.entries.len(),
    {
        self.inner.len()
    }

    /// The number of entries that the queue has room for, which is `N`.
    pub fn capacity(&self) -> (capacity: usize)
        ensures
            capacity == N,
            capacity == self@.capacity,
    {
        N
    }

    /// The capacity of a queue is the `N` of its type.
    pub proof fn lemma_capacity(&self)
        ensures
            self@.capacity == N,
    {
    }

    /// The entries that the queue holds, each with its sequence number, in
    /// storage order.
    pub fn entries(&self) -> (entries: &[(u16, T)])
        ensures
            entries@ == self@.entries,
    {
        self.inner.as_slice()
    }
}

/// Hands on the value of a result that holds one. The error of a result
/// that holds none is pushed onto `errors`, to be reported later.
pub fn try_or_log<T, E, const N: usize>(result: Result<T, E>, errors: &mut LatestQueue<E, N>) -> (value:
    Option<T>)
    requires
        old(errors)@.wf(),
    ensures
        final(errors)@.wf(),
        match result {
            Ok(held) => value == Some(held) && final(errors)@ == old(errors)@,
            Err(error) => value is None && final(errors)@ == old(errors)@.push(error),
        },
{
    match result {
        Ok(val) => Some(val),
        Err(e) => {
            errors.push(e);
            None
        },
    }
}

} // verus!
