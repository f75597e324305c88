//! Wait-free latest-value transport.
//!
//! Three of the four channels want the *newest* value, not a backlog: the plant
//! wants the driver's current input, the view wants the current state, and the
//! wheel wants the current torque. A queue would be actively wrong for all
//! three -- it converts a dropped sample, which is harmless, into added latency,
//! which is not.
//!
//! A seqlock gives that with no mutex on the real-time path. The writer never
//! blocks and never waits for a reader. A reader that races the writer sees an
//! odd sequence number or a changed one and retries, so it can never observe a
//! half-written frame.
//!
//! The layout is fixed because the view decodes the same bytes:
//!
//! ```text
//!   0..8   magic         u64  identifies a segment of this kernel
//!   8..16  layout_hash   u64  schema fingerprint; mismatch means refuse to attach
//!  16..24  payload_size  u64  bytes of payload that follow the header
//!  24..32  sequence      u64  even = stable, odd = write in progress
//!  32..    payload
//! ```

use core::marker::PhantomData;

use vstd::arithmetic::div_mod::*;
use vstd::prelude::*;

use crate::generated::frames;
use crate::generated::frames::Frame;
use crate::sys::SysError;
use crate::text;
use crate::text::{count_text, word_text};
use crate::transport::window::{Look, Window};

verus! {

/// "BOBDIL01" little-endian.
pub const SEGMENT_MAGIC: u64 = 0x3130_4c49_4442_4f42;

pub const HEADER_SIZE: usize = 32;

pub const OFFSET_MAGIC: usize = 0;

pub const OFFSET_LAYOUT: usize = 8;

pub const OFFSET_PAYLOAD_SIZE: usize = 16;

pub const OFFSET_SEQUENCE: usize = 24;

/// How often a reader on the hot path tries: enough for any real writer, but
/// still bounded.
pub const LATEST_ATTEMPTS: u32 = 64;

/// A reader refused to attach, or the segment could not be had.
#[allow(inconsistent_fields)]
#[derive(Clone, Copy, Debug)]
pub enum SeqlockError {
    Sys(SysError),
    BadMagic { found: u64 },
    LayoutMismatch { expected: u64, found: u64 },
    SizeMismatch { expected: usize, found: usize },
}

impl SeqlockError {
    pub open spec fn explained(self) -> Seq<char> {
        match self {
            SeqlockError::Sys(error) => error.explained(),
            SeqlockError::BadMagic { found } => "not a BobDil segment (magic "@ + text::word(found)
                + ")"@,
            SeqlockError::LayoutMismatch { expected, found } =>
            "schema mismatch: segment was written by layout "@ + text::word(found)
                + ", this build expects "@ + text::word(expected)
                + ". Rebuild both sides from the same schema."@,
            SeqlockError::SizeMismatch { expected, found } =>
            "payload size mismatch: expected "@ + text::decimal(expected as nat)
                + ", segment holds "@ + text::decimal(found as nat),
        }
    }

    pub fn message(&self) -> (message: String)
        ensures
            message@ == self.explained(),
    {
        match self {
            SeqlockError::Sys(error) => error.message(),
            SeqlockError::BadMagic { found } => {
                let mut message: String = "not a BobDil segment (magic ".to_owned();
                message.append(word_text(*found).as_str());
                message.append(")");
                message
            },
            SeqlockError::LayoutMismatch { expected, found } => {
                let mut message: String =
                    "schema mismatch: segment was written by layout ".to_owned();
                message.append(word_text(*found).as_str());
                message.append(", this build expects ");
                message.append(word_text(*expected).as_str());
                message.append(". Rebuild both sides from the same schema.");
                message
            },
            SeqlockError::SizeMismatch { expected, found } => {
                let mut message: String = "payload size mismatch: expected ".to_owned();
                message.append(count_text(*expected as u64).as_str());
                message.append(", segment holds ");
                message.append(count_text(*found as u64).as_str());
                message
            },
        }
    }
}

/// The part of a header that never changes once it has been stamped.
#[derive(Clone, Copy, PartialEq, Eq, Structural, Debug)]
pub struct Header {
    pub magic: u64,
    pub layout_hash: u64,
    pub payload_size: usize,
}

/// What a reader and a writer share, apart from the header: the memory as it is
/// at one moment.
pub ghost struct Memory {
    pub sequence: u64,
    pub payload: Seq<u64>,
}

/// A segment in ordinary memory.
#[derive(Debug)]
pub struct Segment {
    pub header: Header,
    pub sequence: u64,
    pub payload: Vec<u64>,
}

impl Segment {
    pub open spec fn memory(self) -> Memory {
        Memory { sequence: self.sequence, payload: self.payload@ }
    }

    /// The frame that lies in the segment.
    pub fn load<T: Frame>(&self) -> (frame: T)
        requires
            self.payload@.len() == T::size(),
        ensures
            frames::words(frame) == self.payload@,
    {
        let frame: T = T::from_words(&self.payload, 0);
        assert(frames::words(frame) =~= self.payload@);
        frame
    }
}

/// A number up by one, wrapping.
pub open spec fn bumped(sequence: u64) -> u64 {
    if sequence == u64::MAX {
        0
    } else {
        (sequence + 1) as u64
    }
}

/// The memory `steps` steps into publishing `value`: one step to mark the frame
/// as being written, one for each word, and one to mark it stable again.
pub open spec fn midway<T: Frame>(before: Memory, value: T, steps: int) -> Memory {
    Memory {
        sequence: if steps <= 0 {
            before.sequence
        } else if steps <= T::size() + 1 {
            bumped(before.sequence)
        } else {
            bumped(bumped(before.sequence))
        },
        payload: Seq::new(
            T::size(),
            |i: int|
                if i + 2 <= steps {
                    value.word(i)
                } else {
                    before.payload[i]
                },
        ),
    }
}

/// The memory once `value` has been published whole.
pub open spec fn published<T: Frame>(before: Memory, value: T) -> Memory {
    midway(before, value, T::size() as int + 2)
}

/// Bytes in a segment that carries one frame.
pub fn segment_bytes<T: Frame>() -> (bytes: usize)
    ensures
        bytes == HEADER_SIZE + 8 * T::size(),
{
    HEADER_SIZE + 8 * T::field_count()
}

/// The header of a segment that carries frames of this kind, laid out this way.
pub open spec fn stamped<T: Frame>(layout_hash: u64) -> Header {
    Header { magic: SEGMENT_MAGIC, layout_hash, payload_size: (8 * T::size()) as usize }
}

/// The single writer for one segment.
#[derive(Debug)]
pub struct SeqlockWriter<T: Frame> {
    name: String,
    sequence: u64,
    marker: PhantomData<T>,
}

impl<T: Frame> SeqlockWriter<T> {
    /// The segment's name.
    pub closed spec fn title(self) -> Seq<char> {
        self.name@
    }

    /// The sequence number last stored.
    pub closed spec fn position(self) -> u64 {
        self.sequence
    }

    /// The writer of a new segment, and the segment: a stamped header and a
    /// zeroed first frame.
    pub fn create(name: &str, layout_hash: u64) -> (made: (Self, Segment))
        ensures
            made.0.title() == name@,
            made.0.position() == 0,
            made.1.header == stamped::<T>(layout_hash),
            made.1.sequence == 0,
            made.1.payload@ == Seq::new(T::size(), |i: int| 0u64),
    {
        let mut payload: Vec<u64> = Vec::new();
        let count: usize = T::field_count();
        let mut i: usize = 0;
        while i < count
            invariant
                i <= count,
                payload@ == Seq::new(i as nat, |j: int| 0u64),
            decreases count - i,
        {
            payload.push(0);
            i += 1;
        }
        (
            SeqlockWriter { name: name.to_owned(), sequence: 0, marker: PhantomData },
            Segment {
                header: Header { magic: SEGMENT_MAGIC, layout_hash, payload_size: 8 * count },
                sequence: 0,
                payload,
            },
        )
    }

    /// The number to store before the first word of a frame, or after its last:
    /// odd while a write is in progress, even when the frame is stable again.
    pub fn advance(&mut self) -> (sequence: u64)
        ensures
            sequence == bumped(old(self).position()),
            final(self).position() == sequence,
            final(self).title() == old(self).title(),
    {
        self.sequence = self.sequence.wrapping_add(1);
        self.sequence
    }

    /// Publish a frame. Wait-free: no allocation, no blocking.
    pub fn publish(&mut self, segment: &mut Segment, value: &T)
        requires
            old(segment).sequence == old(self).position(),
            old(segment).payload@.len() == T::size(),
        ensures
            final(segment).memory() == published(old(segment).memory(), *value),
            final(segment).payload@ == frames::words(*value),
            final(segment).header == old(segment).header,
            final(self).position() == final(segment).sequence,
            final(self).title() == old(self).title(),
    {
        let ghost before = segment.memory();
        segment.sequence = self.advance();
        assert(segment.payload@ =~= midway(before, *value, 1).payload);
        let count: usize = T::field_count();
        let mut i: usize = 0;
        while i < count
            invariant
                i <= count,
                count == T::size(),
                segment.memory() == midway(before, *value, i + 1),
                segment.header == old(segment).header,
                self.position() == bumped(before.sequence),
                self.title() == old(self).title(),
            decreases count - i,
        {
            segment.payload.set(i, value.field(i));
            i += 1;
            assert(segment.payload@ =~= midway(before, *value, i + 1).payload);
        }
        segment.sequence = self.advance();
        assert(segment.payload@ =~= published(before, *value).payload);
        assert(segment.payload@ =~= frames::words(*value));
    }

    pub fn name(&self) -> (name: &str)
        ensures
            name@ == self.title(),
    {
        self.name.as_str()
    }

    pub fn sequence(&self) -> (sequence: u64)
        ensures
            sequence == self.position(),
    {
        self.sequence
    }
}

/// Whether what was read between two looks at the sequence number may be
/// believed.
pub open spec fn believable(before: u64, after: u64) -> bool {
    before % 2 == 0 && after == before
}

/// Whether to believe what was read between two looks at the sequence number.
pub fn accepts(before: u64, after: u64) -> (ok: bool)
    ensures
        ok == believable(before, after),
{
    before % 2 == 0 && after == before
}

/// The last three looks were the sequence number, `at`, the payload, `value`, and
/// the sequence number once more, unchanged, and they may be believed.
pub open spec fn seen_whole<T>(looks: Seq<Look<T>>, value: T, at: u64) -> bool {
    let n = looks.len() as int;
    &&& n >= 3
    &&& looks[n - 3] == Look::<T>::Sequence(at)
    &&& looks[n - 2] == Look::Payload(value)
    &&& looks[n - 1] == Look::<T>::Sequence(at)
    &&& believable(at, at)
}

/// `looks` are those of `attempts` attempts, none of which could be believed: an
/// odd number is as far as an attempt goes, and a payload is always followed by
/// another look at the number.
pub open spec fn refused<T>(looks: Seq<Look<T>>, attempts: nat) -> bool
    decreases attempts,
{
    let n = looks.len() as int;
    if attempts == 0 {
        n == 0
    } else {
        ||| n >= 1 && (looks[n - 1] matches Look::Sequence(at) && at % 2 != 0) && refused(
            looks.take(n - 1),
            (attempts - 1) as nat,
        )
        ||| n >= 3 && (looks[n - 3] matches Look::Sequence(before) && before % 2 == 0 && looks[n
            - 2] is Payload && (looks[n - 1] matches Look::Sequence(after) && !believable(
            before,
            after,
        ))) && refused(looks.take(n - 3), (attempts - 1) as nat)
    }
}

/// What the looks at a segment come to: a frame that may be believed, behind fewer
/// attempts than there were to spend, or all of them spent.
pub open spec fn looked<T>(
    looks: Seq<Look<T>>,
    max_attempts: u32,
    frame: Option<(T, u64)>,
) -> bool {
    match frame {
        Some((value, at)) => seen_whole(looks, value, at) && exists|attempts: nat|
            attempts < max_attempts && #[trigger] refused(looks.take(looks.len() - 3), attempts),
        None => refused(looks, max_attempts as nat),
    }
}

/// One of possibly many readers of a segment.
#[derive(Debug)]
pub struct SeqlockReader<T: Frame> {
    marker: PhantomData<T>,
}

impl<T: Frame> SeqlockReader<T> {
    /// A reader of a segment with this header, verified before any byte of the
    /// payload is trusted.
    pub fn attach(header: &Header, layout_hash: u64) -> (reader: Result<Self, SeqlockError>)
        ensures
            match reader {
                Ok(_) => *header == stamped::<T>(layout_hash),
                Err(error) => *header != stamped::<T>(layout_hash) && error == if header.magic != SEGMENT_MAGIC {
                    SeqlockError::BadMagic { found: header.magic }
                } else if header.layout_hash != layout_hash {
                    SeqlockError::LayoutMismatch {
                        expected: layout_hash,
                        found: header.layout_hash,
                    }
                } else {
                    SeqlockError::SizeMismatch {
                        expected: (8 * T::size()) as usize,
                        found: header.payload_size,
                    }
                },
            },
    {
        let expected: usize = 8 * T::field_count();
        if header.magic != SEGMENT_MAGIC {
            return Err(SeqlockError::BadMagic { found: header.magic });
        }
        if header.layout_hash != layout_hash {
            return Err(
                SeqlockError::LayoutMismatch { expected: layout_hash, found: header.layout_hash },
            );
        }
        if header.payload_size != expected {
            return Err(SeqlockError::SizeMismatch { expected, found: header.payload_size });
        }
        Ok(SeqlockReader { marker: PhantomData })
    }

    /// Read the newest stable frame, retrying while the writer is mid-update.
    ///
    /// Returns `None` after `max_attempts` -- a reader must never spin forever
    /// on a writer that has died mid-frame.
    pub fn read<S: Fn() -> u64, P: Fn() -> T>(
        &self,
        window: &mut Window<T, S, P>,
        max_attempts: u32,
    ) -> (frame: Option<(T, u64)>)
        requires
            old(window).clear(),
        ensures
            final(window).numbers() == old(window).numbers(),
            final(window).frames() == old(window).frames(),
            // The looks taken here are the ones that decide.
            final(window).looks().len() >= old(window).looks().len(),
            final(window).looks().take(old(window).looks().len() as int) == old(window).looks(),
            looked(
                final(window).looks().skip(old(window).looks().len() as int),
                max_attempts,
                frame,
            ),
            frame matches Some((value, at)) ==> seen_whole(final(window).looks(), value, at),
            // Everything that was seen was there to be seen.
            final(window).vouches_from(old(window).looks().len() as int),
            frame matches Some((value, _)) ==> call_ensures(old(window).frames(), (), value),
            frame matches Some((_, at)) ==> call_ensures(old(window).numbers(), (), at),
            // A writer at rest is always read.
            forall|at: u64|
                at % 2 == 0 && max_attempts > 0 && (forall|seen: u64|
                    call_ensures(old(window).numbers(), (), seen) ==> seen == at) ==> (
                #[trigger] believable(at, at) && (frame matches Some(found) && found.1 == at)),
            // One that died in the middle of a frame never is.
            (forall|seen: u64| #[trigger]
                call_ensures(old(window).numbers(), (), seen) ==> seen % 2 != 0) ==> frame is None,
    {
        let mut attempt: u32 = 0;
        let ghost first = window.looks();
        let ghost start = first.len() as int;
        let ghost mut last_before: u64 = 0;
        let ghost mut last_after: u64 = 0;
        assert(window.looks().take(start) =~= first);
        assert(window.looks().skip(start) =~= Seq::empty());
        while attempt < max_attempts
            invariant
                attempt <= max_attempts,
                window.clear(),
                window.numbers() == old(window).numbers(),
                window.frames() == old(window).frames(),
                first == old(window).looks(),
                start == first.len(),
                window.looks().len() >= start,
                window.looks().take(start) == first,
                window.vouches_from(start),
                refused(window.looks().skip(start), attempt as nat),
                attempt > 0 ==> call_ensures(window.numbers(), (), last_before) && call_ensures(
                    window.numbers(),
                    (),
                    last_after,
                ) && !believable(last_before, last_after),
            decreases max_attempts - attempt,
        {
            let ghost earlier = window.looks();
            let before: u64 = window.sequence();
            proof {
                last_before = before;
                last_after = before;
                let now = window.looks();
                assert(now.take(start) =~= earlier.take(start));
                assert(now.skip(start).take(now.skip(start).len() - 1) =~= earlier.skip(start));
            }
            if before % 2 == 0 {
                let value: T = window.payload();
                let after: u64 = window.sequence();
                proof {
                    last_after = after;
                    let now = window.looks();
                    assert(now.take(start) =~= earlier.take(start));
                    assert(now.skip(start).take(now.skip(start).len() - 3) =~= earlier.skip(start));
                }
                if accepts(before, after) {
                    return Some((value, before));
                }
            }
            attempt += 1;
        }
        None
    }

    /// Read with a retry budget generous enough for any real writer, but still
    /// bounded. Callers on the hot path use this.
    pub fn read_latest<S: Fn() -> u64, P: Fn() -> T>(&self, window: &mut Window<T, S, P>) -> (frame:
        Option<(T, u64)>)
        requires
            old(window).clear(),
        ensures
            final(window).numbers() == old(window).numbers(),
            final(window).frames() == old(window).frames(),
            final(window).looks().len() >= old(window).looks().len(),
            final(window).looks().take(old(window).looks().len() as int) == old(window).looks(),
            looked(
                final(window).looks().skip(old(window).looks().len() as int),
                LATEST_ATTEMPTS,
                frame,
            ),
            frame matches Some((value, at)) ==> seen_whole(final(window).looks(), value, at),
            // Everything that was seen was there to be seen.
            final(window).vouches_from(old(window).looks().len() as int),
            frame matches Some((value, _)) ==> call_ensures(old(window).frames(), (), value),
            frame matches Some((_, at)) ==> call_ensures(old(window).numbers(), (), at),
            forall|at: u64|
                at % 2 == 0 && (forall|seen: u64|
                    call_ensures(old(window).numbers(), (), seen) ==> seen == at) ==> (
                #[trigger] believable(at, at) && (frame matches Some(found) && found.1 == at)),
            (forall|seen: u64| #[trigger]
                call_ensures(old(window).numbers(), (), seen) ==> seen % 2 != 0) ==> frame is None,
    {
        self.read(window, LATEST_ATTEMPTS)
    }
}

// --- what holds of a writer and a reader at once --------------------------------------

/// A stable frame, after `count` publishes.
pub open spec fn stable<T: Frame>(frame: T, count: int) -> Memory {
    Memory { sequence: (2 * count) as u64, payload: frames::words(frame) }
}

/// The memory after `time` steps of a writer that publishes `history` in turn,
/// the first of which was there from the start.
pub open spec fn at<T: Frame>(history: Seq<T>, time: int) -> Memory {
    let lap = T::size() as int + 2;
    midway(
        stable(history[time / lap], time / lap),
        history[time / lap + 1],
        time % lap,
    )
}

/// One publish leaves a stable frame behind: the steps of the next one start
/// where those of the last one ended.
pub proof fn law_a_publish_completes<T: Frame>(frame: T, next: T, count: int)
    requires
        0 <= count,
        2 * count + 2 <= u64::MAX,
    ensures
        published(stable(frame, count), next) == stable(next, count + 1),
{
    assert(published(stable(frame, count), next).payload =~= frames::words(next));
}

/// How often each of two sorts of look was taken.
pub open spec fn payloads<T>(looks: Seq<Look<T>>) -> nat
    decreases looks.len(),
{
    if looks.len() == 0 {
        0
    } else {
        payloads(looks.drop_last()) + if looks.last() is Payload {
            1nat
        } else {
            0nat
        }
    }
}

/// A writer that died cannot hang a reader: the payload is looked at no more often
/// than there are attempts.
pub proof fn law_a_reader_gives_up<T>(
    looks: Seq<Look<T>>,
    max_attempts: u32,
    frame: Option<(T, u64)>,
)
    requires
        looked(looks, max_attempts, frame),
    ensures
        payloads(looks) <= max_attempts,
        max_attempts == 0 ==> frame is None && looks.len() == 0,
{
    match frame {
        Some((value, at)) => {
            let n = looks.len() as int;
            let attempts = choose|attempts: nat|
                attempts < max_attempts && #[trigger] refused(looks.take(n - 3), attempts);
            lemma_refusals_are_counted(looks.take(n - 3), attempts);
            lemma_three_looks(looks);
        },
        None => {
            lemma_refusals_are_counted(looks, max_attempts as nat);
        },
    }
}

/// Three more looks, the middle one at the payload.
proof fn lemma_three_looks<T>(looks: Seq<Look<T>>)
    requires
        looks.len() >= 3,
        looks[looks.len() - 1] is Sequence,
        looks[looks.len() - 3] is Sequence,
    ensures
        payloads(looks) <= payloads(looks.take(looks.len() - 3)) + 1,
{
    let n = looks.len() as int;
    assert(looks.drop_last().drop_last().drop_last() =~= looks.take(n - 3));
    assert(looks.drop_last().drop_last().last() == looks[n - 3]);
    reveal_with_fuel(payloads, 4);
}

proof fn lemma_refusals_are_counted<T>(looks: Seq<Look<T>>, attempts: nat)
    requires
        refused(looks, attempts),
    ensures
        payloads(looks) <= attempts,
    decreases attempts,
{
    let n = looks.len() as int;
    if attempts > 0 {
        let fewer = (attempts - 1) as nat;
        if n >= 1 && (looks[n - 1] matches Look::Sequence(at) && at % 2 != 0) && refused(
            looks.take(n - 1),
            fewer,
        ) {
            lemma_refusals_are_counted(looks.take(n - 1), fewer);
            assert(looks.drop_last() =~= looks.take(n - 1));
        } else {
            lemma_refusals_are_counted(looks.take(n - 3), fewer);
            lemma_three_looks(looks);
        }
    }
}

/// A reader never observes a torn frame. Let the looks that `read` took be true of
/// what a writer did to the memory meanwhile: the sequence number as it was at
/// `start`, each word of the payload as it was at some later moment, and the
/// sequence number again as it was at `end`. Then the frame that `read` returned is
/// one published frame, whole, and the newest one there was when it looked.
pub proof fn law_no_torn_frame<T: Frame>(
    history: Seq<T>,
    looks: Seq<Look<T>>,
    value: T,
    number: u64,
    start: int,
    moments: spec_fn(int) -> int,
    end: int,
)
    requires
        seen_whole(looks, value, number),
        0 <= start <= end,
        forall|i: int| 0 <= i < T::size() ==> start <= #[trigger] moments(i) <= end,
        end / (T::size() as int + 2) + 1 < history.len(),
        2 * history.len() <= u64::MAX,
        looks[looks.len() - 3] == Look::<T>::Sequence(at(history, start).sequence),
        forall|i: int|
            0 <= i < T::size() ==> #[trigger] value.word(i) == at(history, moments(i)).payload[i],
        looks[looks.len() - 1] == Look::<T>::Sequence(at(history, end).sequence),
    ensures
        value == history[number as int / 2],
        number as int / 2 == start / (T::size() as int + 2),
{
    let lap = T::size() as int + 2;
    lemma_fundamental_div_mod(start, lap);
    lemma_fundamental_div_mod(end, lap);
    lemma_mod_bound(start, lap);
    lemma_mod_bound(end, lap);
    lemma_div_is_ordered(start, end, lap);
    lemma_div_pos_is_pos(start, lap);
    lemma_div_pos_is_pos(end, lap);
    let first = start / lap;
    let last = end / lap;
    assert(start % lap == 0);
    assert(end % lap == 0);
    assert(first == last);
    assert(start == end);
    assert forall|i: int| 0 <= i < T::size() implies #[trigger] value.word(i)
        == history[first].word(i) by {
        assert(moments(i) == start);
    }
    value.words_decide(history[first]);
}

/// A reader attaches to what its own writer made, and refuses what a writer with
/// another schema made: the two agree on the layout, or they do not talk.
pub proof fn law_only_the_same_schema_attaches<T: Frame>(written: u64, expected: u64)
    ensures
        stamped::<T>(written) == stamped::<T>(expected) <==> written == expected,
{
    assert(stamped::<T>(written).layout_hash == written);
    assert(stamped::<T>(expected).layout_hash == expected);
}

/// A reader sees the newest frame, never a backlog: whatever was published
/// before, the last frame is the one that lies in the segment.
pub proof fn law_the_newest_frame_is_read<T: Frame>(before: Memory, older: T, newest: T)
    ensures
        published(published(before, older), newest).payload == frames::words(newest),
{
    assert(published(published(before, older), newest).payload =~= frames::words(newest));
}

} // verus!
