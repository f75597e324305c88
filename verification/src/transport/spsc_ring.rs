//! Lossless single-producer/single-consumer ring for telemetry.
//!
//! Telemetry is the one channel where dropping a sample is wrong: replay,
//! paired A/B, and every fidelity comparison depend on having *every* step. So
//! this queue is lossless below capacity, and when it does overflow it says so
//! -- a silently truncated recording would invalidate a comparison without
//! anyone noticing, which is worse than losing the session.
//!
//! The two cursors only ever count up. `slot_to_write` and `slot_to_read` turn
//! a pair of them into a slot or a refusal, and are all that the two ends of a
//! ring shared between threads have to agree on: each end moves its own cursor
//! only, and what it sees of the other's may be out of date. `Ring` is the same
//! queue with both ends in one place.

use core::marker::PhantomData;

use vstd::arithmetic::div_mod::*;
use vstd::arithmetic::power2::*;
use vstd::prelude::*;

verus! {

/// Why a push was rejected.
#[derive(Clone, Copy, PartialEq, Eq, Structural, Debug)]
pub enum PushError {
    /// The consumer is not keeping up. Recorded as a fault, never ignored.
    Full,
}

/// Where the producer may write, given its own cursor and the consumer's as it
/// last saw it.
pub fn slot_to_write(head: u64, tail: u64, capacity: usize) -> (slot: Result<usize, PushError>)
    requires
        tail <= head,
        capacity > 0,
    ensures
        match slot {
            Ok(index) => head - tail < capacity && index == head as int % capacity as int && index
                < capacity,
            Err(PushError::Full) => head - tail >= capacity,
        },
{
    if head - tail >= capacity as u64 {
        return Err(PushError::Full);
    }
    proof {
        lemma_mod_bound(head as int, capacity as int);
    }
    Ok((head % (capacity as u64)) as usize)
}

/// Where the consumer may read, given its own cursor and the producer's as it
/// last saw it.
pub fn slot_to_read(tail: u64, head: u64, capacity: usize) -> (slot: Option<usize>)
    requires
        tail <= head,
        capacity > 0,
    ensures
        match slot {
            Some(index) => tail < head && index == tail as int % capacity as int && index
                < capacity,
            None => tail == head,
        },
{
    if tail == head {
        return None;
    }
    proof {
        lemma_mod_bound(tail as int, capacity as int);
    }
    Some((tail % (capacity as u64)) as usize)
}

/// Two cursors less than a lap apart never share a slot.
pub proof fn lemma_slots_differ(a: int, b: int, capacity: int)
    requires
        a < b < a + capacity,
    ensures
        a % capacity != b % capacity,
{
    if a % capacity == b % capacity {
        lemma_fundamental_div_mod(a, capacity);
        lemma_fundamental_div_mod(b, capacity);
        let qa = a / capacity;
        let qb = b / capacity;
        assert(b - a == capacity * (qb - qa)) by (nonlinear_arith)
            requires
                a == capacity * qa + a % capacity,
                b == capacity * qb + b % capacity,
                a % capacity == b % capacity,
        ;
        assert(qb - qa >= 1 || qb - qa <= 0);
        assert(false) by (nonlinear_arith)
            requires
                b - a == capacity * (qb - qa),
                0 < b - a < capacity,
        ;
    }
}

/// The ends never collide. A producer that saw a possibly outdated `seen_tail`
/// and was given a slot writes where no unread item lies, and a consumer that
/// saw a possibly outdated `seen_head` reads where the producer is not writing.
pub proof fn law_the_ends_never_collide(
    head: int,
    tail: int,
    seen_tail: int,
    seen_head: int,
    capacity: int,
    unread: int,
)
    requires
        0 <= seen_tail <= tail <= seen_head <= head,
        head - seen_tail < capacity,
        tail <= unread < head,
    ensures
        head % capacity != unread % capacity,
        tail < seen_head ==> tail % capacity != head % capacity,
{
    lemma_slots_differ(unread, head, capacity);
    if tail < seen_head {
        lemma_slots_differ(tail, head, capacity);
    }
}

/// The smallest power of two that is at least `n`.
pub open spec fn rounded_up(n: int, power: int) -> bool {
    &&& n <= power
    &&& exists|k: nat| power == #[trigger] pow2(k)
    &&& forall|k: nat| #[trigger] pow2(k) >= n ==> pow2(k) >= power
}

/// The right to push. There is one per ring.
pub struct Producer<T> {
    marker: PhantomData<T>,
}

/// The right to pop. There is one per ring.
pub struct Consumer<T> {
    marker: PhantomData<T>,
}

/// The storage of a ring, and its cursors.
pub struct Ring<T> {
    slots: Vec<T>,
    head: u64,
    tail: u64,
    overflows: u64,
}

impl<T> View for Ring<T> {
    type V = Seq<T>;

    /// The items waiting, oldest first.
    closed spec fn view(&self) -> Seq<T> {
        Seq::new(
            (self.head - self.tail) as nat,
            |i: int| self.slots@[(self.tail + i) % self.slots@.len() as int],
        )
    }
}

impl<T> Ring<T> {
    pub closed spec fn size(&self) -> nat {
        self.slots@.len()
    }

    /// Items pushed since the ring was made.
    pub closed spec fn pushed(&self) -> nat {
        self.head as nat
    }

    /// Pushes rejected for lack of space.
    pub closed spec fn rejected(&self) -> nat {
        self.overflows as nat
    }

    /// The consumer is never ahead of the producer, nor a lap behind it.
    pub closed spec fn well_formed(&self) -> bool {
        &&& self.slots@.len() > 0
        &&& self.tail <= self.head
        &&& self.head - self.tail <= self.slots@.len()
    }

    /// The cursors can take one more push.
    pub open spec fn countable(&self) -> bool {
        self.pushed() < u64::MAX && self.rejected() < u64::MAX
    }
}

/// How many slots a ring of some capacity has: a power of two, and at least two.
pub fn ring_size(capacity: usize) -> (size: usize)
    requires
        capacity <= usize::MAX / 2,
    ensures
        rounded_up(
            if capacity < 2 {
                2
            } else {
                capacity as int
            },
            size as int,
        ),
        size >= 2,
{
    let wanted: usize = if capacity < 2 {
        2
    } else {
        capacity
    };
    let mut size: usize = 2;
    let mut k: Ghost<nat> = Ghost(1);
    proof {
        lemma2_to64();
        assert forall|j: nat| #[trigger] pow2(j) < 2 implies j < 1 by {
            if j >= 1 {
                lemma_pow2_unfold(j);
                lemma_pow2_pos((j - 1) as nat);
            }
        }
    }
    while size < wanted
        invariant
            2 <= wanted <= usize::MAX / 2 || wanted == 2,
            size == pow2(k@),
            size >= 2,
            forall|j: nat| #[trigger] pow2(j) < size ==> pow2(j) < wanted,
        decreases if size < wanted {
            wanted - size
        } else {
            0
        },
    {
        proof {
            lemma_pow2_unfold(k@ + 1);
            assert forall|j: nat| #[trigger] pow2(j) < 2 * size implies pow2(j) < wanted by {
                if pow2(j) > size {
                    if j <= k@ {
                        if j < k@ {
                            lemma_pow2_strictly_increases(j, k@);
                        }
                    } else {
                        lemma_pow2_unfold(k@ + 1);
                        if j > k@ + 1 {
                            lemma_pow2_strictly_increases(k@ + 1, j);
                        }
                    }
                }
            }
        }
        size = size * 2;
        k = Ghost(k@ + 1);
    }
    proof {
        assert forall|j: nat| #[trigger] pow2(j) >= wanted implies pow2(j) >= size by {}
        assert(size == pow2(k@));
    }
    size
}

/// Build a ring with `capacity` rounded up to a power of two, and at least two.
///
/// The whole buffer is allocated here, before the loop starts, because
/// allocating during a step is unbounded work.
pub fn channel<T: Copy + Default>(capacity: usize) -> (ends: (Producer<T>, Consumer<T>, Ring<T>))
    requires
        capacity <= usize::MAX / 2,
    ensures
        ends.2.well_formed(),
        ends.2@ == Seq::<T>::empty(),
        rounded_up(
            if capacity < 2 {
                2
            } else {
                capacity as int
            },
            ends.2.size() as int,
        ),
        ends.2.pushed() == 0,
        ends.2.rejected() == 0,
{
    let size: usize = ring_size(capacity);
    let mut slots: Vec<T> = Vec::with_capacity(size);
    let mut i: usize = 0;
    while i < size
        invariant
            i <= size,
            slots@.len() == i,
        decreases size - i,
    {
        slots.push(T::default());
        i += 1;
    }
    let ring: Ring<T> = Ring { slots, head: 0, tail: 0, overflows: 0 };
    proof {
        assert(ring@ =~= Seq::<T>::empty());
    }
    (Producer { marker: PhantomData }, Consumer { marker: PhantomData }, ring)
}

impl<T: Copy> Producer<T> {
    /// Append an item, or refuse and count the refusal.
    pub fn push(&self, ring: &mut Ring<T>, value: T) -> (done: Result<(), PushError>)
        requires
            old(ring).well_formed(),
            old(ring).countable(),
        ensures
            final(ring).well_formed(),
            final(ring).size() == old(ring).size(),
            if old(ring)@.len() < old(ring).size() {
                &&& done is Ok
                &&& final(ring)@ == old(ring)@.push(value)
                &&& final(ring).pushed() == old(ring).pushed() + 1
                &&& final(ring).rejected() == old(ring).rejected()
            } else {
                &&& done == Err::<(), PushError>(PushError::Full)
                &&& final(ring)@ == old(ring)@
                &&& final(ring).pushed() == old(ring).pushed()
                &&& final(ring).rejected() == old(ring).rejected() + 1
            },
    {
        match slot_to_write(ring.head, ring.tail, ring.slots.len()) {
            Err(error) => {
                ring.overflows += 1;
                assert(ring@ =~= old(ring)@);
                Err(error)
            },
            Ok(index) => {
                ring.slots.set(index, value);
                ring.head += 1;
                proof {
                    let n = ring.slots@.len() as int;
                    assert forall|i: int| 0 <= i < old(ring)@.len() implies #[trigger] ring@[i]
                        == old(ring)@[i] by {
                        lemma_slots_differ(old(ring).tail + i, old(ring).head as int, n);
                        lemma_mod_bound(old(ring).tail + i, n);
                    }
                    assert(ring@ =~= old(ring)@.push(value));
                }
                Ok(())
            },
        }
    }

    /// Number of pushes rejected for lack of space. Non-zero invalidates a
    /// recording, and is surfaced as `fault_flags::TELEMETRY_OVERFLOW`.
    pub fn overflows(&self, ring: &Ring<T>) -> (count: u64)
        ensures
            count == ring.rejected(),
    {
        ring.overflows
    }

    pub fn len(&self, ring: &Ring<T>) -> (count: usize)
        requires
            ring.well_formed(),
        ensures
            count == ring@.len(),
    {
        assert(ring.slots.len() == ring.slots@.len());
        (ring.head - ring.tail) as usize
    }

    pub fn is_empty(&self, ring: &Ring<T>) -> (answer: bool)
        requires
            ring.well_formed(),
        ensures
            answer == (ring@.len() == 0),
    {
        self.len(ring) == 0
    }

    pub fn capacity(&self, ring: &Ring<T>) -> (capacity: usize)
        ensures
            capacity == ring.size(),
    {
        ring.slots.len()
    }
}

impl<T: Copy> Consumer<T> {
    /// Take the oldest item.
    pub fn pop(&self, ring: &mut Ring<T>) -> (value: Option<T>)
        requires
            old(ring).well_formed(),
        ensures
            final(ring).well_formed(),
            final(ring).size() == old(ring).size(),
            final(ring).pushed() == old(ring).pushed(),
            final(ring).rejected() == old(ring).rejected(),
            match value {
                Some(item) => old(ring)@.len() > 0 && item == old(ring)@[0] && final(ring)@
                    == old(ring)@.skip(1),
                None => old(ring)@.len() == 0 && final(ring)@ == old(ring)@,
            },
    {
        match slot_to_read(ring.tail, ring.head, ring.slots.len()) {
            None => {
                assert(ring@ =~= old(ring)@);
                None
            },
            Some(index) => {
                let value: T = ring.slots[index];
                ring.tail += 1;
                assert(ring@ =~= old(ring)@.skip(1));
                Some(value)
            },
        }
    }

    /// Drain up to `limit` items into `out`, returning how many moved.
    pub fn drain_into(&self, ring: &mut Ring<T>, out: &mut Vec<T>, limit: usize) -> (moved: usize)
        requires
            old(ring).well_formed(),
        ensures
            final(ring).well_formed(),
            final(ring).size() == old(ring).size(),
            final(ring).pushed() == old(ring).pushed(),
            final(ring).rejected() == old(ring).rejected(),
            moved == if old(ring)@.len() < limit {
                old(ring)@.len() as int
            } else {
                limit as int
            },
            final(out)@ == old(out)@ + old(ring)@.take(moved as int),
            final(ring)@ == old(ring)@.skip(moved as int),
    {
        let mut moved: usize = 0;
        assert(out@ =~= old(out)@ + old(ring)@.take(0));
        assert(ring@ =~= old(ring)@.skip(0));
        while moved < limit
            invariant
                ring.well_formed(),
                ring.size() == old(ring).size(),
                ring.pushed() == old(ring).pushed(),
                ring.rejected() == old(ring).rejected(),
                moved <= limit,
                moved <= old(ring)@.len(),
                out@ == old(out)@ + old(ring)@.take(moved as int),
                ring@ == old(ring)@.skip(moved as int),
            decreases limit - moved,
        {
            match self.pop(ring) {
                Some(value) => {
                    out.push(value);
                    moved += 1;
                    assert(out@ =~= old(out)@ + old(ring)@.take(moved as int));
                    assert(ring@ =~= old(ring)@.skip(moved as int));
                },
                None => {
                    return moved;
                },
            }
        }
        moved
    }

    pub fn overflows(&self, ring: &Ring<T>) -> (count: u64)
        ensures
            count == ring.rejected(),
    {
        ring.overflows
    }

    pub fn len(&self, ring: &Ring<T>) -> (count: usize)
        requires
            ring.well_formed(),
        ensures
            count == ring@.len(),
    {
        assert(ring.slots.len() == ring.slots@.len());
        (ring.head - ring.tail) as usize
    }

    pub fn is_empty(&self, ring: &Ring<T>) -> (answer: bool)
        requires
            ring.well_formed(),
        ensures
            answer == (ring@.len() == 0),
    {
        self.len(ring) == 0
    }
}

// --- laws -----------------------------------------------------------------------

/// Something done to a ring.
pub enum Act<T> {
    Push(T),
    Pop,
}

/// What has become of a ring of `size` slots, and of everything pushed at it.
pub struct Ledger<T> {
    /// What waits in the ring.
    pub waiting: Seq<T>,
    /// What was accepted, in the order it was pushed.
    pub accepted: Seq<T>,
    /// What was popped, in the order it came out.
    pub popped: Seq<T>,
    pub rejected: nat,
    pub tried: nat,
}

/// The books after some acts on an empty ring: a push is accepted when there is
/// room and counted when there is not, a pop takes the oldest.
pub open spec fn kept<T>(size: nat, acts: Seq<Act<T>>) -> Ledger<T>
    decreases acts.len(),
{
    if acts.len() == 0 {
        Ledger {
            waiting: Seq::empty(),
            accepted: Seq::empty(),
            popped: Seq::empty(),
            rejected: 0,
            tried: 0,
        }
    } else {
        let before = kept(size, acts.drop_last());
        match acts.last() {
            Act::Push(value) => if before.waiting.len() < size {
                Ledger {
                    waiting: before.waiting.push(value),
                    accepted: before.accepted.push(value),
                    tried: before.tried + 1,
                    ..before
                }
            } else {
                Ledger { rejected: before.rejected + 1, tried: before.tried + 1, ..before }
            },
            Act::Pop => if before.waiting.len() > 0 {
                Ledger {
                    waiting: before.waiting.skip(1),
                    popped: before.popped.push(before.waiting[0]),
                    ..before
                }
            } else {
                before
            },
        }
    }
}

/// The ring is lossless and keeps order: whatever is done to it, what came out,
/// followed by what waits, is exactly what was accepted; every push was either
/// accepted or counted as rejected; and no more ever waits than there are slots.
pub proof fn law_nothing_is_lost_or_reordered<T>(size: nat, acts: Seq<Act<T>>)
    ensures
        ({
            let books = kept(size, acts);
            &&& books.popped + books.waiting == books.accepted
            &&& books.accepted.len() + books.rejected == books.tried
            &&& books.waiting.len() <= size
        }),
    decreases acts.len(),
{
    if acts.len() > 0 {
        law_nothing_is_lost_or_reordered(size, acts.drop_last());
        let before = kept(size, acts.drop_last());
        let after = kept(size, acts);
        assert(after.popped + after.waiting =~= after.accepted);
    } else {
        let books = kept(size, acts);
        assert(books.popped + books.waiting =~= books.accepted);
    }
}

} // verus!
