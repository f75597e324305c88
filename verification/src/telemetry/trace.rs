//! The round-trip span trace: what it writes, and what refuses to read it.
//!
//! `metrics` answers "how long did the step take". This answers where the time
//! goes between the driver's hand and the driver's hand -- because a step that
//! costs 200 us inside a loop handing the wheel a 5 ms old torque is a rig that
//! feels rubber-banded while every published number looks healthy.
//!
//! Two producers write here, the step thread and the device thread, and their
//! records interleave in time, so the file is a stream of tagged records rather
//! than two arrays. The tag is what lets one drain thread serialise both without
//! either producer knowing the other exists.

use vstd::prelude::*;

use crate::generated::frames;
use crate::generated::frames::{Frame, TraceDevice, TraceStep, LAYOUT_HASH, LAYOUT_REVISION};
use crate::scalar::Scalar;
use crate::text;
use crate::text::{count_text, word_text};
use crate::wire;
use crate::wire::{put, put_frame, put_words, read_frame, read_word};

verus! {

/// "BDTRC001" little-endian.
pub const TRACE_MAGIC: u64 = 0x3130_3043_5254_4442;

/// Bytes before the first record.
pub const HEADER_SIZE: usize = 128;

/// Record tags. A whole word each, so every record stays aligned to eight bytes.
pub const KIND_STEP: u64 = 1;

pub const KIND_DEVICE: u64 = 2;

/// Bytes of a step record behind its tag.
pub const STEP_SIZE: usize = 80;

/// Bytes of a device record behind its tag.
pub const DEVICE_SIZE: usize = 40;

/// What a trace is of. Enough to tell two traces apart, and no more: a trace is
/// a measurement of *this machine* and is never comparable across boxes, so it
/// deliberately does not carry the provenance a recording does.
#[derive(Clone, Copy, PartialEq, Eq, Structural, Debug)]
pub struct TraceMeta {
    pub step_dt: Scalar,
    pub kernel_id: u64,
    pub build_hash: u64,
}

impl Default for TraceMeta {
    fn default() -> (meta: Self)
        ensures
            meta == (TraceMeta { step_dt: 0, kernel_id: 0, build_hash: 0 }),
    {
        TraceMeta { step_dt: 0, kernel_id: 0, build_hash: 0 }
    }
}

/// What either producer has to say.
#[derive(Clone, Copy, PartialEq, Eq, Structural, Debug)]
pub enum Record {
    Step(TraceStep),
    Device(TraceDevice),
}

// --- the file -------------------------------------------------------------------------

/// The words of a header.
pub open spec fn header(meta: TraceMeta) -> Seq<u64> {
    seq![
        TRACE_MAGIC,
        LAYOUT_HASH,
        LAYOUT_REVISION,
        80u64,
        40u64,
        meta.step_dt,
        meta.kernel_id,
        meta.build_hash,
        0u64,
        0u64,
        0u64,
        0u64,
        0u64,
        0u64,
        0u64,
        0u64,
    ]
}

/// The words of a record, tag first.
pub open spec fn record_words(record: Record) -> Seq<u64> {
    match record {
        Record::Step(step) => seq![KIND_STEP] + frames::words(step),
        Record::Device(device) => seq![KIND_DEVICE] + frames::words(device),
    }
}

/// The words of records in a row.
pub open spec fn body(log: Seq<Record>) -> Seq<u64>
    decreases log.len(),
{
    if log.len() == 0 {
        Seq::empty()
    } else {
        body(log.drop_last()) + record_words(log.last())
    }
}

/// The bytes of a whole trace.
pub open spec fn file(meta: TraceMeta, log: Seq<Record>) -> Seq<u8> {
    wire::packed(header(meta) + body(log))
}

/// What the step thread said, in order.
pub open spec fn steps_of(log: Seq<Record>) -> Seq<TraceStep>
    decreases log.len(),
{
    if log.len() == 0 {
        Seq::empty()
    } else {
        match log.last() {
            Record::Step(step) => steps_of(log.drop_last()).push(step),
            Record::Device(_) => steps_of(log.drop_last()),
        }
    }
}

/// What the device thread said, in order.
pub open spec fn devices_of(log: Seq<Record>) -> Seq<TraceDevice>
    decreases log.len(),
{
    if log.len() == 0 {
        Seq::empty()
    } else {
        match log.last() {
            Record::Step(_) => devices_of(log.drop_last()),
            Record::Device(device) => devices_of(log.drop_last()).push(device),
        }
    }
}

// --- writing --------------------------------------------------------------------------

fn header_words(meta: &TraceMeta) -> (words: Vec<u64>)
    ensures
        words@ == header(*meta),
{
    let mut words: Vec<u64> = Vec::new();
    words.push(TRACE_MAGIC);
    words.push(LAYOUT_HASH);
    words.push(LAYOUT_REVISION);
    words.push(STEP_SIZE as u64);
    words.push(DEVICE_SIZE as u64);
    words.push(meta.step_dt);
    words.push(meta.kernel_id);
    words.push(meta.build_hash);
    let mut i: usize = 8;
    while i < 16
        invariant
            8 <= i <= 16,
            words@ =~= header(*meta).take(i as int),
        decreases 16 - i,
    {
        words.push(0);
        i += 1;
    }
    words
}

/// Turns span records into the bytes of a trace. Bytes wait here until they are
/// taken; what has been taken and what is waiting is at every moment the whole
/// file so far.
pub struct TraceWriter {
    pending: Vec<u8>,
    steps: u64,
    devices: u64,
    taken: Ghost<Seq<u8>>,
    log: Ghost<Seq<Record>>,
    meta: Ghost<TraceMeta>,
}

impl TraceWriter {
    /// Every byte of the file so far.
    pub closed spec fn written(self) -> Seq<u8> {
        self.taken@ + self.pending@
    }

    /// The bytes that have left already.
    pub closed spec fn gone(self) -> Seq<u8> {
        self.taken@
    }

    /// The records written so far.
    pub closed spec fn log(self) -> Seq<Record> {
        self.log@
    }

    /// What the trace is of.
    pub closed spec fn subject(self) -> TraceMeta {
        self.meta@
    }

    pub closed spec fn well_formed(self) -> bool {
        &&& self.steps == steps_of(self.log@).len()
        &&& self.devices == devices_of(self.log@).len()
        &&& self.taken@ + self.pending@ == file(self.meta@, self.log@)
    }

    /// What makes the whole of it a trace.
    pub proof fn lemma_written(self)
        requires
            self.well_formed(),
        ensures
            self.written() == file(self.subject(), self.log()),
            self.gone().len() <= self.written().len(),
            self.gone() == self.written().take(self.gone().len() as int),
    {
        assert(self.gone() =~= self.written().take(self.gone().len() as int));
    }

    pub fn create(meta: &TraceMeta) -> (writer: Self)
        ensures
            writer.well_formed(),
            writer.subject() == *meta,
            writer.log() == Seq::<Record>::empty(),
            writer.gone() == Seq::<u8>::empty(),
    {
        let mut pending: Vec<u8> = Vec::new();
        put_words(&mut pending, &header_words(meta));
        proof {
            assert(header(*meta) + body(Seq::empty()) =~= header(*meta));
            assert(Seq::<u8>::empty() + pending@ =~= wire::packed(header(*meta)));
        }
        TraceWriter {
            pending,
            steps: 0,
            devices: 0,
            taken: Ghost(Seq::empty()),
            log: Ghost(Seq::empty()),
            meta: Ghost(*meta),
        }
    }

    proof fn lemma_appended(before: Self, record: Record, pending: Seq<u8>)
        requires
            before.taken@ + before.pending@ == file(before.meta@, before.log@),
            pending == before.pending@ + wire::packed(record_words(record)),
        ensures
            before.taken@ + pending == file(before.meta@, before.log@.push(record)),
    {
        let first = header(before.meta@) + body(before.log@);
        let more = record_words(record);
        let log = before.log@.push(record);
        assert(log.drop_last() =~= before.log@);
        wire::lemma_packed_sum(first, more);
        assert(header(before.meta@) + body(log) =~= first + more);
        assert(before.taken@ + pending =~= (before.taken@ + before.pending@) + wire::packed(more));
    }

    pub fn write_step(&mut self, record: &TraceStep)
        requires
            old(self).well_formed(),
            steps_of(old(self).log()).len() < u64::MAX,
        ensures
            final(self).well_formed(),
            final(self).subject() == old(self).subject(),
            final(self).log() == old(self).log().push(Record::Step(*record)),
            final(self).gone() == old(self).gone(),
    {
        put(&mut self.pending, KIND_STEP);
        put_frame(&mut self.pending, record);
        self.steps += 1;
        self.log = Ghost(self.log@.push(Record::Step(*record)));
        proof {
            let tag = seq![KIND_STEP];
            wire::lemma_packed_sum(tag, frames::words(*record));
            wire::lemma_packed_one(KIND_STEP);
            assert(self.pending@ =~= old(self).pending@ + wire::packed(
                record_words(Record::Step(*record)),
            ));
            Self::lemma_appended(*old(self), Record::Step(*record), self.pending@);
            assert(self.log@.drop_last() =~= old(self).log@);
        }
    }

    pub fn write_device(&mut self, record: &TraceDevice)
        requires
            old(self).well_formed(),
            devices_of(old(self).log()).len() < u64::MAX,
        ensures
            final(self).well_formed(),
            final(self).subject() == old(self).subject(),
            final(self).log() == old(self).log().push(Record::Device(*record)),
            final(self).gone() == old(self).gone(),
    {
        put(&mut self.pending, KIND_DEVICE);
        put_frame(&mut self.pending, record);
        self.devices += 1;
        self.log = Ghost(self.log@.push(Record::Device(*record)));
        proof {
            let tag = seq![KIND_DEVICE];
            wire::lemma_packed_sum(tag, frames::words(*record));
            wire::lemma_packed_one(KIND_DEVICE);
            assert(self.pending@ =~= old(self).pending@ + wire::packed(
                record_words(Record::Device(*record)),
            ));
            Self::lemma_appended(*old(self), Record::Device(*record), self.pending@);
            assert(self.log@.drop_last() =~= old(self).log@);
        }
    }

    pub fn counts(&self) -> (counts: (u64, u64))
        requires
            self.well_formed(),
        ensures
            counts.0 == steps_of(self.log()).len(),
            counts.1 == devices_of(self.log()).len(),
    {
        (self.steps, self.devices)
    }

    /// Take the bytes that are waiting, to put them behind those taken before.
    pub fn take(&mut self) -> (bytes: Vec<u8>)
        requires
            old(self).well_formed(),
        ensures
            final(self).well_formed(),
            final(self).subject() == old(self).subject(),
            final(self).log() == old(self).log(),
            old(self).gone() + bytes@ == old(self).written(),
            final(self).gone() == old(self).written(),
    {
        let mut bytes: Vec<u8> = Vec::new();
        std::mem::swap(&mut bytes, &mut self.pending);
        self.taken = Ghost(self.taken@ + bytes@);
        assert(self.taken@ + self.pending@ =~= old(self).taken@ + old(self).pending@);
        bytes
    }

    /// The last bytes of the file, and how many records of either sort it holds.
    pub fn finish(self) -> (end: (u64, u64, Vec<u8>))
        requires
            self.well_formed(),
        ensures
            end.0 == steps_of(self.log()).len(),
            end.1 == devices_of(self.log()).len(),
            self.gone() + end.2@ == file(self.subject(), self.log()),
    {
        (self.steps, self.devices, self.pending)
    }
}

// --- reading --------------------------------------------------------------------------

/// A trace this build refuses to read, and why.
#[derive(Debug)]
pub enum TraceError {
    /// The file could not be had, in the platform's words.
    Io { detail: String },
    BadMagic { found: u64 },
    LayoutMismatch { expected: u64, found: u64 },
    VersionMismatch { expected: u64, found: u64 },
    Truncated { at: usize },
    UnknownKind { kind: u64, at: usize },
}

impl TraceError {
    pub open spec fn explained(self) -> Seq<char> {
        match self {
            TraceError::Io { detail } => detail@,
            TraceError::BadMagic { found } => "not a BobDil trace (magic "@ + text::word(found)
                + ")"@,
            TraceError::LayoutMismatch { expected, found } =>
            "schema mismatch: trace was written by layout "@ + text::word(found)
                + ", this build expects "@ + text::word(expected)
                + ". Rebuild both sides from the same schema."@,
            TraceError::VersionMismatch { expected, found } =>
            "version mismatch: trace was written by version "@ + text::decimal(found as nat)
                + ", this build expects "@ + text::decimal(expected as nat) + "."@,
            TraceError::Truncated { at } => "trace ends mid-record at byte "@ + text::decimal(
                at as nat,
            ),
            TraceError::UnknownKind { kind, at } => "unknown record kind "@ + text::decimal(
                kind as nat,
            ) + " at byte "@ + text::decimal(at as nat),
        }
    }

    pub fn message(&self) -> (message: String)
        ensures
            message@ == self.explained(),
    {
        match self {
            TraceError::Io { detail } => detail.as_str().to_owned(),
            TraceError::BadMagic { found } => {
                let mut message: String = "not a BobDil trace (magic ".to_owned();
                message.append(word_text(*found).as_str());
                message.append(")");
                message
            },
            TraceError::LayoutMismatch { expected, found } => {
                let mut message: String = "schema mismatch: trace was written by layout ".to_owned();
                message.append(word_text(*found).as_str());
                message.append(", this build expects ");
                message.append(word_text(*expected).as_str());
                message.append(". Rebuild both sides from the same schema.");
                message
            },
            TraceError::VersionMismatch { expected, found } => {
                let mut message: String = "version mismatch: trace was written by version ".to_owned();
                message.append(count_text(*found).as_str());
                message.append(", this build expects ");
                message.append(count_text(*expected).as_str());
                message.append(".");
                message
            },
            TraceError::Truncated { at } => {
                let mut message: String = "trace ends mid-record at byte ".to_owned();
                message.append(count_text(*at as u64).as_str());
                message
            },
            TraceError::UnknownKind { kind, at } => {
                let mut message: String = "unknown record kind ".to_owned();
                message.append(count_text(*kind).as_str());
                message.append(" at byte ");
                message.append(count_text(*at as u64).as_str());
                message
            },
        }
    }
}

/// The step whose first word starts at byte `at`.
pub open spec fn step_at(bytes: Seq<u8>, at: int) -> TraceStep {
    TraceStep {
        step_index: wire::word_at(bytes, at),
        input_host_time_ns: wire::word_at(bytes, at + 8),
        input_sample_index: wire::word_at(bytes, at + 16),
        t_step_start: wire::word_at(bytes, at + 24),
        t_after_read: wire::word_at(bytes, at + 32),
        t_after_shape: wire::word_at(bytes, at + 40),
        t_after_plant: wire::word_at(bytes, at + 48),
        t_command_stamp: wire::word_at(bytes, at + 56),
        t_after_ffb: wire::word_at(bytes, at + 64),
        t_after_publish: wire::word_at(bytes, at + 72),
    }
}

/// The device record whose first word starts at byte `at`.
pub open spec fn device_at(bytes: Seq<u8>, at: int) -> TraceDevice {
    TraceDevice {
        command_host_time_ns: wire::word_at(bytes, at),
        t_pickup: wire::word_at(bytes, at + 8),
        t_after_apply: wire::word_at(bytes, at + 16),
        sample_index: wire::word_at(bytes, at + 24),
        flags: wire::word_at(bytes, at + 32),
    }
}

/// The records from byte `at` on, behind those read already, or what stops the
/// reading of them.
pub open spec fn scanned(bytes: Seq<u8>, at: int, log: Seq<Record>) -> Result<
    Seq<Record>,
    TraceError,
>
    decreases bytes.len() - at,
{
    if at >= bytes.len() {
        Ok(log)
    } else if at + 8 > bytes.len() {
        Err(TraceError::Truncated { at: at as usize })
    } else if wire::word_at(bytes, at) == KIND_STEP {
        if at + 8 + STEP_SIZE > bytes.len() {
            Err(TraceError::Truncated { at: (at + 8) as usize })
        } else {
            scanned(
                bytes,
                at + 8 + STEP_SIZE,
                log.push(Record::Step(step_at(bytes, at + 8))),
            )
        }
    } else if wire::word_at(bytes, at) == KIND_DEVICE {
        if at + 8 + DEVICE_SIZE > bytes.len() {
            Err(TraceError::Truncated { at: (at + 8) as usize })
        } else {
            scanned(
                bytes,
                at + 8 + DEVICE_SIZE,
                log.push(Record::Device(device_at(bytes, at + 8))),
            )
        }
    } else {
        Err(TraceError::UnknownKind { kind: wire::word_at(bytes, at), at: at as usize })
    }
}

/// What a file holds, or why it is refused.
pub open spec fn parsed(bytes: Seq<u8>) -> Result<Seq<Record>, TraceError> {
    if bytes.len() < HEADER_SIZE {
        Err(TraceError::Truncated { at: bytes.len() as usize })
    } else if wire::word_at(bytes, 0) != TRACE_MAGIC {
        Err(TraceError::BadMagic { found: wire::word_at(bytes, 0) })
    } else if wire::word_at(bytes, 8) != LAYOUT_HASH {
        Err(TraceError::LayoutMismatch { expected: LAYOUT_HASH, found: wire::word_at(bytes, 8) })
    } else if wire::word_at(bytes, 16) != LAYOUT_REVISION {
        Err(
            TraceError::VersionMismatch {
                expected: LAYOUT_REVISION,
                found: wire::word_at(bytes, 16),
            },
        )
    } else {
        scanned(bytes, HEADER_SIZE as int, Seq::empty())
    }
}

/// What the header of a file says.
pub open spec fn meta_of(bytes: Seq<u8>) -> TraceMeta {
    TraceMeta {
        step_dt: wire::word_at(bytes, 40),
        kernel_id: wire::word_at(bytes, 48),
        build_hash: wire::word_at(bytes, 56),
    }
}

/// A trace read back.
#[derive(Debug)]
pub struct TraceReader {
    pub meta: TraceMeta,
    pub steps: Vec<TraceStep>,
    pub devices: Vec<TraceDevice>,
}

impl TraceReader {
    /// Read a trace.
    ///
    /// The same refusal the shared-memory readers make, for the same reason: a
    /// trace decoded with the wrong field meanings is worse than no trace,
    /// because every number in it still looks plausible.
    pub fn open(bytes: &Vec<u8>) -> (reader: Result<Self, TraceError>)
        ensures
            match reader {
                Ok(found) => parsed(bytes@) matches Ok(log) && found.meta == meta_of(bytes@)
                    && found.steps@ == steps_of(log) && found.devices@ == devices_of(log),
                Err(why) => parsed(bytes@) == Err::<Seq<Record>, TraceError>(why),
            },
            reader matches Err(TraceError::BadMagic { .. }) <==> bytes@.len() >= HEADER_SIZE
                && wire::word_at(bytes@, 0) != TRACE_MAGIC,
            reader matches Err(TraceError::LayoutMismatch { .. }) <==> bytes@.len() >= HEADER_SIZE
                && wire::word_at(bytes@, 0) == TRACE_MAGIC && wire::word_at(bytes@, 8)
                != LAYOUT_HASH,
            reader matches Err(TraceError::VersionMismatch { .. }) <==> bytes@.len() >= HEADER_SIZE
                && wire::word_at(bytes@, 0) == TRACE_MAGIC && wire::word_at(bytes@, 8)
                == LAYOUT_HASH && wire::word_at(bytes@, 16) != LAYOUT_REVISION,
    {
        if bytes.len() < HEADER_SIZE {
            return Err(TraceError::Truncated { at: bytes.len() });
        }
        let magic: u64 = read_word(bytes, 0);
        if magic != TRACE_MAGIC {
            return Err(TraceError::BadMagic { found: magic });
        }
        let layout: u64 = read_word(bytes, 8);
        if layout != LAYOUT_HASH {
            return Err(TraceError::LayoutMismatch { expected: LAYOUT_HASH, found: layout });
        }
        let version: u64 = read_word(bytes, 16);
        if version != LAYOUT_REVISION {
            return Err(TraceError::VersionMismatch { expected: LAYOUT_REVISION, found: version });
        }
        let meta: TraceMeta = TraceMeta {
            step_dt: read_word(bytes, 40),
            kernel_id: read_word(bytes, 48),
            build_hash: read_word(bytes, 56),
        };
        let mut steps: Vec<TraceStep> = Vec::new();
        let mut devices: Vec<TraceDevice> = Vec::new();
        let mut log: Ghost<Seq<Record>> = Ghost(Seq::empty());
        let mut cursor: usize = HEADER_SIZE;
        while cursor < bytes.len()
            invariant
                HEADER_SIZE <= cursor <= bytes@.len(),
                steps@ == steps_of(log@),
                devices@ == devices_of(log@),
                parsed(bytes@) == scanned(bytes@, cursor as int, log@),
            decreases bytes@.len() - cursor,
        {
            assert(bytes.len() == bytes@.len());
            if bytes.len() - cursor < 8 {
                return Err(TraceError::Truncated { at: cursor });
            }
            let kind: u64 = read_word(bytes, cursor);
            let start: usize = cursor + 8;
            if kind == KIND_STEP {
                if bytes.len() - start < STEP_SIZE {
                    return Err(TraceError::Truncated { at: start });
                }
                let step: TraceStep = read_frame(bytes, start);
                proof {
                    let expected = step_at(bytes@, start as int);
                    assert forall|i: int| 0 <= i < TraceStep::size() implies #[trigger] step.word(i)
                        == expected.word(i) by {}
                    step.words_decide(expected);
                    let next = log@.push(Record::Step(step));
                    assert(next.drop_last() =~= log@);
                }
                steps.push(step);
                log = Ghost(log@.push(Record::Step(step)));
                cursor = start + STEP_SIZE;
            } else if kind == KIND_DEVICE {
                if bytes.len() - start < DEVICE_SIZE {
                    return Err(TraceError::Truncated { at: start });
                }
                let device: TraceDevice = read_frame(bytes, start);
                proof {
                    let expected = device_at(bytes@, start as int);
                    assert forall|i: int| 0 <= i < TraceDevice::size() implies #[trigger] device.word(
                        i,
                    ) == expected.word(i) by {}
                    device.words_decide(expected);
                    let next = log@.push(Record::Device(device));
                    assert(next.drop_last() =~= log@);
                }
                devices.push(device);
                log = Ghost(log@.push(Record::Device(device)));
                cursor = start + DEVICE_SIZE;
            } else {
                return Err(TraceError::UnknownKind { kind, at: cursor });
            }
        }
        Ok(TraceReader { meta, steps, devices })
    }
}

// --- laws -----------------------------------------------------------------------------

proof fn lemma_body_from_the_front(record: Record, rest: Seq<Record>)
    ensures
        body(seq![record] + rest) == record_words(record) + body(rest),
    decreases rest.len(),
{
    let log = seq![record] + rest;
    if rest.len() == 0 {
        assert(body(log.drop_last()) =~= Seq::empty());
        assert(body(log) =~= record_words(record) + body(rest));
    } else {
        lemma_body_from_the_front(record, rest.drop_last());
        assert(log.drop_last() =~= seq![record] + rest.drop_last());
        assert(body(log) =~= record_words(record) + body(rest));
    }
}

/// A step record is read from where it was written.
proof fn lemma_step_scanned(before: Seq<u8>, step: TraceStep, after: Seq<u8>, read: Seq<Record>)
    ensures
        ({
            let bytes = before + wire::packed(record_words(Record::Step(step))) + after;
            scanned(bytes, before.len() as int, read) == scanned(
                bytes,
                before.len() as int + 88,
                read.push(Record::Step(step)),
            )
        }),
        wire::packed(record_words(Record::Step(step))).len() == 88,
{
    let words = record_words(Record::Step(step));
    let bytes = before + wire::packed(words) + after;
    let start = before.len() as int;
    wire::lemma_packed_len(words);
    wire::lemma_word_of_packed(before, words, after, 0);
    let found = step_at(bytes, start + 8);
    assert forall|i: int| 0 <= i < TraceStep::size() implies #[trigger] found.word(i) == step.word(
        i,
    ) by {
        wire::lemma_word_of_packed(before, words, after, i + 1);
    }
    found.words_decide(step);
}

/// A device record is read from where it was written.
proof fn lemma_device_scanned(
    before: Seq<u8>,
    device: TraceDevice,
    after: Seq<u8>,
    read: Seq<Record>,
)
    ensures
        ({
            let bytes = before + wire::packed(record_words(Record::Device(device))) + after;
            scanned(bytes, before.len() as int, read) == scanned(
                bytes,
                before.len() as int + 48,
                read.push(Record::Device(device)),
            )
        }),
        wire::packed(record_words(Record::Device(device))).len() == 48,
{
    let words = record_words(Record::Device(device));
    let bytes = before + wire::packed(words) + after;
    let start = before.len() as int;
    wire::lemma_packed_len(words);
    wire::lemma_word_of_packed(before, words, after, 0);
    let found = device_at(bytes, start + 8);
    assert forall|i: int| 0 <= i < TraceDevice::size() implies #[trigger] found.word(i)
        == device.word(i) by {
        wire::lemma_word_of_packed(before, words, after, i + 1);
    }
    found.words_decide(device);
}

/// What was written behind `before` is read from there.
proof fn lemma_scanned(before: Seq<u8>, log: Seq<Record>, read: Seq<Record>)
    ensures
        scanned(before + wire::packed(body(log)), before.len() as int, read) == Ok::<
            Seq<Record>,
            TraceError,
        >(read + log),
    decreases log.len(),
{
    let bytes = before + wire::packed(body(log));
    if log.len() == 0 {
        assert(bytes =~= before);
        assert(read + log =~= read);
    } else {
        let record = log[0];
        let rest = log.skip(1);
        let words = record_words(record);
        assert(seq![record] + rest =~= log);
        lemma_body_from_the_front(record, rest);
        wire::lemma_packed_sum(words, body(rest));
        let after = wire::packed(body(rest));
        let so_far = before + wire::packed(words);
        assert(bytes =~= so_far + after);
        lemma_scanned(so_far, rest, read.push(record));
        assert(read.push(record) + rest =~= read + log);
        match record {
            Record::Step(step) => lemma_step_scanned(before, step, after, read),
            Record::Device(device) => lemma_device_scanned(before, device, after, read),
        }
    }
}

/// A trace reads back exactly, whatever the two producers said and however they
/// took turns.
pub proof fn law_a_trace_reads_back(meta: TraceMeta, log: Seq<Record>)
    ensures
        parsed(file(meta, log)) == Ok::<Seq<Record>, TraceError>(log),
        meta_of(file(meta, log)) == meta,
{
    let head = header(meta);
    let bytes = file(meta, log);
    let none = Seq::<u8>::empty();
    wire::lemma_packed_sum(head, body(log));
    wire::lemma_packed_len(head);
    let after = wire::packed(body(log));
    assert(bytes =~= none + wire::packed(head) + after);
    wire::lemma_word_of_packed(none, head, after, 0);
    wire::lemma_word_of_packed(none, head, after, 1);
    wire::lemma_word_of_packed(none, head, after, 2);
    wire::lemma_word_of_packed(none, head, after, 5);
    wire::lemma_word_of_packed(none, head, after, 6);
    wire::lemma_word_of_packed(none, head, after, 7);
    lemma_scanned(wire::packed(head), log, Seq::empty());
    assert(Seq::<Record>::empty() + log =~= log);
}

} // verus!
