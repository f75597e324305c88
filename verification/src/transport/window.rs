//! What a reader sees of a segment that somebody else may be writing.
//!
//! Every look goes through a [`Window`], which keeps them in order. What a reader
//! says of the frame it found is said of the looks it took.

use vstd::prelude::*;

use crate::generated::frames::Frame;

verus! {

/// One look at a segment.
pub enum Look<T> {
    /// The sequence number was this.
    Sequence(u64),
    /// The payload, word by word, was this.
    Payload(T),
}

/// A segment to be looked at, and the looks taken so far.
pub struct Window<T, S, P> {
    sequence: S,
    payload: P,
    looks: Ghost<Seq<Look<T>>>,
}

impl<T: Frame, S: Fn() -> u64, P: Fn() -> T> Window<T, S, P> {
    /// Every look taken, in order.
    pub closed spec fn looks(self) -> Seq<Look<T>> {
        self.looks@
    }

    /// How the sequence number is looked at.
    pub closed spec fn numbers(self) -> S {
        self.sequence
    }

    /// How the payload is looked at.
    pub closed spec fn frames(self) -> P {
        self.payload
    }

    /// `look` is what was there to be seen.
    pub open spec fn vouches(self, look: Look<T>) -> bool {
        match look {
            Look::Sequence(at) => call_ensures(self.numbers(), (), at),
            Look::Payload(value) => call_ensures(self.frames(), (), value),
        }
    }

    /// Every look from `start` on is vouched for.
    pub open spec fn vouches_from(self, start: int) -> bool {
        forall|k: int|
            start <= k < self.looks().len() ==> self.vouches(#[trigger] self.looks()[k])
    }

    /// Both can be looked at.
    pub open spec fn clear(self) -> bool {
        &&& call_requires(self.numbers(), ())
        &&& call_requires(self.frames(), ())
    }

    /// `sequence` looks at the sequence number, and `payload` at the frame.
    pub fn new(sequence: S, payload: P) -> (window: Self)
        ensures
            window.looks() == Seq::<Look<T>>::empty(),
            window.numbers() == sequence,
            window.frames() == payload,
    {
        Window { sequence, payload, looks: Ghost(Seq::empty()) }
    }

    /// Look at the sequence number.
    pub fn sequence(&mut self) -> (at: u64)
        requires
            old(self).clear(),
        ensures
            final(self).looks() == old(self).looks().push(Look::Sequence(at)),
            final(self).numbers() == old(self).numbers(),
            final(self).frames() == old(self).frames(),
            call_ensures(old(self).numbers(), (), at),
    {
        let at: u64 = (self.sequence)();
        self.looks = Ghost(self.looks@.push(Look::Sequence(at)));
        at
    }

    /// Look at the payload.
    pub fn payload(&mut self) -> (value: T)
        requires
            old(self).clear(),
        ensures
            final(self).looks() == old(self).looks().push(Look::Payload(value)),
            final(self).numbers() == old(self).numbers(),
            final(self).frames() == old(self).frames(),
            call_ensures(old(self).frames(), (), value),
    {
        let value: T = (self.payload)();
        self.looks = Ghost(self.looks@.push(Look::Payload(value)));
        value
    }
}

} // verus!
