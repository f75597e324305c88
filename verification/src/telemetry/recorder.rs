//! Telemetry recording, and the metadata that makes a recording reproducible.
//!
//! A recording is only useful if it can be replayed *exactly*, so the header
//! carries everything that determines the result: the schema layout, the step
//! size, the integrator, the kernel that produced it, and a hash of the vehicle
//! it was driving. A recording whose provenance cannot be established is worse
//! than no recording, because it will be compared against something it was never
//! comparable with.
//!
//! The file is packed frames behind a fixed header. Every field a driver's input
//! contained is echoed in the state frame, so this one file is both the
//! telemetry and the input script that reproduces it.

use vstd::prelude::*;

use crate::arith;
use crate::arith::{from_count, Operation};
use crate::generated::frames;
use crate::generated::frames::{Frame, VehicleState, LAYOUT_HASH, LAYOUT_REVISION};
use crate::scalar::Scalar;
use crate::text;
use crate::text::{join, page_text, word_text};
use crate::wire;
use crate::wire::{put_frame, put_words, read_frame, read_word};

verus! {

/// "BDTEL001" little-endian.
pub const TELEMETRY_MAGIC: u64 = 0x3130_304c_4554_4442;

/// Bytes before the first frame.
pub const HEADER_SIZE: usize = 128;

/// Bytes of one frame.
pub const FRAME_SIZE: usize = 264;

/// One millisecond.
pub const DEFAULT_STEP_DT: Scalar = 0x3f50_624d_d2f1_a9fc;

/// Everything that determines whether two recordings are comparable.
#[derive(Clone, Copy, PartialEq, Eq, Structural, Debug)]
pub struct SessionMeta {
    pub step_dt: Scalar,
    /// See `generated::frames::kernel_id`.
    pub kernel_id: u64,
    /// Number of derivative evaluations per step, so a timing comparison can be
    /// normalised by the work actually done.
    pub evaluations_per_step: u64,
    /// Hash of the vehicle definition the plant was built from. Two recordings
    /// with different values here are different cars, and diffing them says
    /// nothing about a setup change.
    pub vehicle_hash: u64,
    /// Hash of the kernel build, so a recording can be traced to its code.
    pub build_hash: u64,
}

impl Default for SessionMeta {
    fn default() -> (meta: Self)
        ensures
            meta == (SessionMeta {
                step_dt: DEFAULT_STEP_DT,
                kernel_id: 0,
                evaluations_per_step: 4,
                vehicle_hash: 0,
                build_hash: 0,
            }),
    {
        SessionMeta {
            step_dt: DEFAULT_STEP_DT,
            kernel_id: 0,
            evaluations_per_step: 4,
            vehicle_hash: 0,
            build_hash: 0,
        }
    }
}

// --- the file -------------------------------------------------------------------------

/// The words of a header.
pub open spec fn header(meta: SessionMeta) -> Seq<u64> {
    seq![
        TELEMETRY_MAGIC,
        LAYOUT_HASH,
        LAYOUT_REVISION,
        264u64,
        33u64,
        meta.step_dt,
        meta.kernel_id,
        meta.evaluations_per_step,
        meta.vehicle_hash,
        meta.build_hash,
        0u64,
        0u64,
        0u64,
        0u64,
        0u64,
        0u64,
    ]
}

/// The words of frames in a row.
pub open spec fn body(log: Seq<VehicleState>) -> Seq<u64>
    decreases log.len(),
{
    if log.len() == 0 {
        Seq::empty()
    } else {
        body(log.drop_last()) + frames::words(log.last())
    }
}

/// The bytes of a whole recording.
pub open spec fn file(meta: SessionMeta, log: Seq<VehicleState>) -> Seq<u8> {
    wire::packed(header(meta) + body(log))
}

/// The bytes of a recording are one this build can read.
pub open spec fn readable(bytes: Seq<u8>) -> bool {
    &&& bytes.len() >= HEADER_SIZE
    &&& wire::word_at(bytes, 0) == TELEMETRY_MAGIC
    &&& wire::word_at(bytes, 8) == LAYOUT_HASH
}

/// Why a file is refused.
pub open spec fn refusal(bytes: Seq<u8>) -> Seq<char> {
    if bytes.len() < HEADER_SIZE {
        "file is shorter than a telemetry header"@
    } else if wire::word_at(bytes, 0) != TELEMETRY_MAGIC {
        "not a BobDil telemetry file"@
    } else {
        "recording was written by schema layout "@ + text::word(wire::word_at(bytes, 8))
            + ", this build expects "@ + text::word(LAYOUT_HASH)
    }
}

/// What the header of a file says.
pub open spec fn meta_of(bytes: Seq<u8>) -> SessionMeta {
    SessionMeta {
        step_dt: wire::word_at(bytes, 40),
        kernel_id: wire::word_at(bytes, 48),
        evaluations_per_step: wire::word_at(bytes, 56),
        vehicle_hash: wire::word_at(bytes, 64),
        build_hash: wire::word_at(bytes, 72),
    }
}

/// How many whole frames follow the header. A frame cut short at the end of a
/// file is not one.
pub open spec fn frame_count(bytes: Seq<u8>) -> nat {
    ((bytes.len() - HEADER_SIZE) / FRAME_SIZE as int) as nat
}

/// `frame` lies in the file as its frame number `k`.
pub open spec fn lies_at(frame: VehicleState, bytes: Seq<u8>, k: int) -> bool {
    forall|i: int|
        0 <= i < 33 ==> #[trigger] frame.word(i) == wire::word_at(
            bytes,
            HEADER_SIZE + FRAME_SIZE * k + 8 * i,
        )
}

// --- writing --------------------------------------------------------------------------

fn header_words(meta: &SessionMeta) -> (words: Vec<u64>)
    ensures
        words@ == header(*meta),
{
    let mut words: Vec<u64> = Vec::new();
    words.push(TELEMETRY_MAGIC);
    words.push(LAYOUT_HASH);
    words.push(LAYOUT_REVISION);
    words.push(FRAME_SIZE as u64);
    words.push(VehicleState::field_count() as u64);
    words.push(meta.step_dt);
    words.push(meta.kernel_id);
    words.push(meta.evaluations_per_step);
    words.push(meta.vehicle_hash);
    words.push(meta.build_hash);
    let mut i: usize = 10;
    while i < 16
        invariant
            10 <= i <= 16,
            words@ =~= header(*meta).take(i as int),
        decreases 16 - i,
    {
        words.push(0);
        i += 1;
    }
    words
}

/// Turns frames into the bytes of a recording. Bytes wait here until they are
/// taken; what has been taken and what is waiting is at every moment the whole
/// file so far.
pub struct TelemetryRecorder {
    pending: Vec<u8>,
    frames: u64,
    taken: Ghost<Seq<u8>>,
    log: Ghost<Seq<VehicleState>>,
    meta: Ghost<SessionMeta>,
}

impl TelemetryRecorder {
    /// Every byte of the file so far.
    pub closed spec fn written(self) -> Seq<u8> {
        self.taken@ + self.pending@
    }

    /// The bytes that have left already.
    pub closed spec fn gone(self) -> Seq<u8> {
        self.taken@
    }

    /// The frames recorded so far.
    pub closed spec fn log(self) -> Seq<VehicleState> {
        self.log@
    }

    /// What the recording is of.
    pub closed spec fn subject(self) -> SessionMeta {
        self.meta@
    }

    pub closed spec fn well_formed(self) -> bool {
        self.frames == self.log@.len() && self.taken@ + self.pending@ == file(self.meta@, self.log@)
    }

    /// What makes the whole of it a recording.
    pub proof fn lemma_written(self)
        requires
            self.well_formed(),
        ensures
            self.written() == file(self.subject(), self.log()),
            self.log().len() <= u64::MAX,
            self.gone().len() <= self.written().len(),
            self.gone() == self.written().take(self.gone().len() as int),
    {
        assert(self.gone() =~= self.written().take(self.gone().len() as int));
    }

    pub fn create(meta: &SessionMeta) -> (recorder: Self)
        ensures
            recorder.well_formed(),
            recorder.subject() == *meta,
            recorder.log() == Seq::<VehicleState>::empty(),
            recorder.gone() == Seq::<u8>::empty(),
    {
        let mut pending: Vec<u8> = Vec::new();
        put_words(&mut pending, &header_words(meta));
        proof {
            assert(header(*meta) + body(Seq::empty()) =~= header(*meta));
            assert(Seq::<u8>::empty() + pending@ =~= wire::packed(header(*meta)));
        }
        TelemetryRecorder {
            pending,
            frames: 0,
            taken: Ghost(Seq::empty()),
            log: Ghost(Seq::empty()),
            meta: Ghost(*meta),
        }
    }

    pub fn write(&mut self, state: &VehicleState)
        requires
            old(self).well_formed(),
            old(self).log().len() < u64::MAX,
        ensures
            final(self).well_formed(),
            final(self).subject() == old(self).subject(),
            final(self).log() == old(self).log().push(*state),
            final(self).gone() == old(self).gone(),
    {
        put_frame(&mut self.pending, state);
        self.frames += 1;
        let ghost log = self.log@.push(*state);
        self.log = Ghost(log);
        proof {
            let first = header(self.meta@) + body(old(self).log@);
            let more = frames::words(*state);
            assert(log.drop_last() =~= old(self).log@);
            wire::lemma_packed_sum(first, more);
            assert(header(self.meta@) + body(log) =~= first + more);
            assert(self.taken@ + self.pending@ =~= (old(self).taken@ + old(self).pending@)
                + wire::packed(more));
        }
    }

    pub fn frames(&self) -> (frames: u64)
        requires
            self.well_formed(),
        ensures
            frames == self.log().len(),
    {
        self.frames
    }

    /// Take the bytes that are waiting, to put them behind those taken before.
    pub fn take(&mut self) -> (bytes: Vec<u8>)
        requires
            old(self).well_formed(),
        ensures
            final(self).well_formed(),
            final(self).subject() == old(self).subject(),
            final(self).log() == old(self).log(),
            old(self).gone() + bytes@ == old(self).written(),
            final(self).gone() == old(self).written(),
    {
        let mut bytes: Vec<u8> = Vec::new();
        std::mem::swap(&mut bytes, &mut self.pending);
        self.taken = Ghost(self.taken@ + bytes@);
        assert(self.taken@ + self.pending@ =~= old(self).taken@ + old(self).pending@);
        bytes
    }

    /// The last bytes of the file, and how many frames it holds.
    pub fn finish(self) -> (end: (u64, Vec<u8>))
        requires
            self.well_formed(),
        ensures
            end.0 == self.log().len(),
            self.gone() + end.1@ == file(self.subject(), self.log()),
    {
        (self.frames, self.pending)
    }
}

// --- reading --------------------------------------------------------------------------

/// A recording read back. Used by replay and by the offline comparison tools.
#[derive(Debug)]
pub struct TelemetryReader {
    pub meta: SessionMeta,
    pub frames: Vec<VehicleState>,
}

impl TelemetryReader {
    /// What the file holds is what was read of it.
    pub open spec fn tells(self, bytes: Seq<u8>) -> bool {
        &&& self.meta == meta_of(bytes)
        &&& self.frames@.len() == frame_count(bytes)
        &&& forall|k: int|
            0 <= k < self.frames@.len() ==> #[trigger] lies_at(self.frames@[k], bytes, k)
    }

    /// Read a recording. A foreign file is refused rather than misread.
    pub fn open(bytes: &Vec<u8>) -> (reader: Result<Self, String>)
        ensures
            match reader {
                Ok(found) => readable(bytes@) && found.tells(bytes@),
                Err(why) => !readable(bytes@) && why@ == refusal(bytes@),
            },
    {
        if bytes.len() < HEADER_SIZE {
            return Err("file is shorter than a telemetry header".to_owned());
        }
        if read_word(bytes, 0) != TELEMETRY_MAGIC {
            return Err("not a BobDil telemetry file".to_owned());
        }
        let layout: u64 = read_word(bytes, 8);
        if layout != LAYOUT_HASH {
            let mut why: String = "recording was written by schema layout ".to_owned();
            why.append(word_text(layout).as_str());
            why.append(", this build expects ");
            why.append(word_text(LAYOUT_HASH).as_str());
            return Err(why);
        }
        let meta: SessionMeta = SessionMeta {
            step_dt: read_word(bytes, 40),
            kernel_id: read_word(bytes, 48),
            evaluations_per_step: read_word(bytes, 56),
            vehicle_hash: read_word(bytes, 64),
            build_hash: read_word(bytes, 72),
        };
        let mut frames: Vec<VehicleState> = Vec::new();
        let count: usize = (bytes.len() - HEADER_SIZE) / FRAME_SIZE;
        let mut k: usize = 0;
        let mut at: usize = HEADER_SIZE;
        while k < count
            invariant
                k <= count,
                count == frame_count(bytes@),
                bytes@.len() >= HEADER_SIZE,
                HEADER_SIZE + FRAME_SIZE * count <= bytes@.len(),
                at == HEADER_SIZE + FRAME_SIZE * k,
                frames@.len() == k,
                forall|j: int| 0 <= j < k ==> #[trigger] lies_at(frames@[j], bytes@, j),
            decreases count - k,
        {
            assert(bytes.len() == bytes@.len());
            let frame: VehicleState = read_frame(bytes, at);
            frames.push(frame);
            assert(lies_at(frame, bytes@, k as int));
            at = at + FRAME_SIZE;
            k += 1;
        }
        Ok(TelemetryReader { meta, frames })
    }

    /// A cell of the table: a value with nine decimals.
    pub open spec fn cell<F: Fn(Operation) -> Scalar, P: Fn(Scalar, usize) -> String>(
        unit: &F,
        print: &P,
        frame: VehicleState,
        index: int,
    ) -> Seq<char> {
        text::printed(
            *print,
            if VehicleState::real_valued(index) {
                frame.word(index)
            } else {
                from_count(unit, frame.word(index))
            },
            9,
        )
    }

    /// A line of the table.
    pub open spec fn row<F: Fn(Operation) -> Scalar, P: Fn(Scalar, usize) -> String>(
        unit: &F,
        print: &P,
        frame: VehicleState,
    ) -> Seq<char> {
        text::joined(Seq::new(33, |i: int| Self::cell(unit, print, frame, i)), ","@)
    }

    /// The first line of the table.
    pub open spec fn columns() -> Seq<char> {
        text::joined(Seq::new(33, |i: int| VehicleState::name_of(i)), ","@)
    }

    /// The whole table.
    pub open spec fn table<F: Fn(Operation) -> Scalar, P: Fn(Scalar, usize) -> String>(
        self,
        unit: &F,
        print: &P,
    ) -> Seq<char> {
        text::page(
            seq![Self::columns()] + Seq::new(
                self.frames@.len(),
                |k: int| Self::row(unit, print, self.frames@[k]),
            ),
        )
    }

    fn row_text<F: Fn(Operation) -> Scalar, P: Fn(Scalar, usize) -> String>(
        unit: &F,
        print: &P,
        frame: &VehicleState,
    ) -> (line: String)
        requires
            arith::functional(*unit),
            text::prints(*print),
        ensures
            line@ == Self::row(unit, print, *frame),
    {
        let mut cells: Vec<String> = Vec::new();
        let mut i: usize = 0;
        while i < 33
            invariant
                i <= 33,
                arith::functional(*unit),
                text::prints(*print),
                text::views(cells@) =~= Seq::new(
                    i as nat,
                    |j: int| Self::cell(unit, print, *frame, j),
                ),
            decreases 33 - i,
        {
            let word: u64 = frame.field(i);
            let value: Scalar = if VehicleState::is_real_valued(i) {
                word
            } else {
                from_count(unit, word)
            };
            let cell: String = print(value, 9);
            proof {
                text::lemma_views_push(cells@, cell);
            }
            cells.push(cell);
            i += 1;
        }
        join(&cells, ",")
    }

    /// The recording as comma-separated text, for anything that would rather not
    /// read a binary format. Column names come from the schema, so they cannot
    /// drift.
    pub fn write_csv<F: Fn(Operation) -> Scalar, P: Fn(Scalar, usize) -> String>(
        &self,
        unit: &F,
        print: &P,
    ) -> (table: String)
        requires
            arith::functional(*unit),
            text::prints(*print),
        ensures
            table@ == self.table(unit, print),
    {
        let mut names: Vec<String> = Vec::new();
        let mut i: usize = 0;
        while i < 33
            invariant
                i <= 33,
                text::views(names@) =~= Seq::new(i as nat, |j: int| VehicleState::name_of(j)),
            decreases 33 - i,
        {
            let name: String = VehicleState::field_name(i).to_owned();
            proof {
                text::lemma_views_push(names@, name);
            }
            names.push(name);
            i += 1;
        }
        let mut lines: Vec<String> = Vec::new();
        lines.push(join(&names, ","));
        let mut k: usize = 0;
        while k < self.frames.len()
            invariant
                k <= self.frames@.len(),
                arith::functional(*unit),
                text::prints(*print),
                text::views(lines@) =~= seq![Self::columns()] + Seq::new(
                    k as nat,
                    |j: int| Self::row(unit, print, self.frames@[j]),
                ),
            decreases self.frames@.len() - k,
        {
            let line: String = Self::row_text(unit, print, &self.frames[k]);
            proof {
                text::lemma_views_push(lines@, line);
            }
            lines.push(line);
            k += 1;
        }
        page_text(&lines)
    }
}

// --- laws -----------------------------------------------------------------------------

proof fn lemma_body(log: Seq<VehicleState>)
    ensures
        body(log).len() == 33 * log.len(),
        forall|k: int, i: int|
            0 <= k < log.len() && 0 <= i < 33 ==> body(log)[33 * k + i] == (#[trigger] log[k]).word(
                i,
            ) && #[trigger] log[k].word(i) == log[k].word(i),
    decreases log.len(),
{
    if log.len() > 0 {
        lemma_body(log.drop_last());
        assert forall|k: int, i: int| 0 <= k < log.len() && 0 <= i < 33 implies body(log)[33 * k + i]
            == (#[trigger] log[k]).word(i) && #[trigger] log[k].word(i) == log[k].word(i) by {
            if k < log.len() - 1 {
                assert(log.drop_last()[k].word(i) == log[k].word(i));
            }
        }
    }
}

/// A recording reads back exactly, bit for bit, whatever it is of, and whatever
/// was left of a frame that was being written when the session ended.
pub proof fn law_a_recording_reads_back(
    meta: SessionMeta,
    log: Seq<VehicleState>,
    torn: Seq<u8>,
    reader: TelemetryReader,
)
    requires
        torn.len() < FRAME_SIZE,
        reader.tells(file(meta, log) + torn),
    ensures
        readable(file(meta, log) + torn),
        reader.meta == meta,
        reader.frames@ == log,
{
    let words = header(meta) + body(log);
    let bytes = file(meta, log) + torn;
    let none = Seq::<u8>::empty();
    lemma_body(log);
    wire::lemma_packed_len(words);
    assert(bytes =~= none + wire::packed(words) + torn);
    wire::lemma_word_of_packed(none, words, torn, 0);
    wire::lemma_word_of_packed(none, words, torn, 1);
    wire::lemma_word_of_packed(none, words, torn, 5);
    wire::lemma_word_of_packed(none, words, torn, 6);
    wire::lemma_word_of_packed(none, words, torn, 7);
    wire::lemma_word_of_packed(none, words, torn, 8);
    wire::lemma_word_of_packed(none, words, torn, 9);
    assert(bytes.len() == HEADER_SIZE + FRAME_SIZE * log.len() + torn.len());
    assert forall|k: int| 0 <= k < log.len() implies reader.frames@[k] == log[k] by {
        let frame = reader.frames@[k];
        assert(lies_at(frame, bytes, k));
        assert forall|i: int| 0 <= i < 33 implies #[trigger] frame.word(i) == log[k].word(i) by {
            wire::lemma_word_of_packed(none, words, torn, 16 + 33 * k + i);
            assert(words[16 + 33 * k + i] == body(log)[33 * k + i]);
        }
        frame.words_decide(log[k]);
    }
    assert(reader.frames@ =~= log);
}

/// A file written by another schema is never misread, whatever follows.
pub proof fn law_another_schema_is_refused(words: Seq<u64>, rest: Seq<u8>)
    requires
        words.len() >= 2,
        words[1] != LAYOUT_HASH,
    ensures
        !readable(wire::packed(words) + rest),
{
    let none = Seq::<u8>::empty();
    assert(none + wire::packed(words) + rest =~= wire::packed(words) + rest);
    wire::lemma_word_of_packed(none, words, rest, 1);
}

} // verus!
