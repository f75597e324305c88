//! Recording, and what drains it to disk.
//!
//! Telemetry is the one channel where losing a sample is a defect rather than
//! an optimisation: replay, paired A/B and every fidelity comparison need every
//! step. The step thread pushes into a lossless ring and never touches a file;
//! whoever drains it turns frames into bytes here.

use vstd::prelude::*;

use crate::generated::frames::{TraceDevice, TraceStep, VehicleState};
use crate::text;
use crate::text::count_text;
use crate::transport::spsc_ring::{Consumer, Ring};

pub mod recorder;
pub mod trace;

pub use recorder::{SessionMeta, TelemetryReader, TelemetryRecorder};
use trace::{Record, TraceMeta, TraceWriter};

verus! {

/// How many items one pass takes out of a ring.
pub const BATCH: usize = 4096;

/// How long to wait when there is nothing to drain [ms]. Waking 200 times a
/// second is far more than enough to keep a deep ring from filling.
pub const IDLE_MS: u64 = 5;

#[derive(Clone, Copy, PartialEq, Eq, Structural, Debug)]
pub struct TelemetryStats {
    pub frames_written: u64,
    pub write_errors: u64,
    /// Non-zero means the recording has holes and cannot be used for a
    /// comparison. Reported, never silently tolerated.
    pub dropped: u64,
}

impl Default for TelemetryStats {
    fn default() -> (stats: Self)
        ensures
            stats == (TelemetryStats { frames_written: 0, write_errors: 0, dropped: 0 }),
    {
        TelemetryStats { frames_written: 0, write_errors: 0, dropped: 0 }
    }
}

#[derive(Clone, Copy, PartialEq, Eq, Structural, Debug)]
pub struct TraceStats {
    pub steps_written: u64,
    pub devices_written: u64,
    pub write_errors: u64,
    /// Non-zero means the trace has holes. A trace with holes still says
    /// something useful -- unlike a recording, it is not replayed -- but the
    /// count is reported so a percentile is never quoted off a partial trace.
    pub dropped: u64,
}

impl Default for TraceStats {
    fn default() -> (stats: Self)
        ensures
            stats == (TraceStats {
                steps_written: 0,
                devices_written: 0,
                write_errors: 0,
                dropped: 0,
            }),
    {
        TraceStats { steps_written: 0, devices_written: 0, write_errors: 0, dropped: 0 }
    }
}

/// What to do after a pass.
#[derive(Clone, Copy, PartialEq, Eq, Structural, Debug)]
pub enum Pass {
    /// Something moved: there may be more.
    Again,
    /// Nothing to do for now.
    Idle,
    /// Nothing left, and nothing more to come.
    Finish,
}

/// What to do after a pass that moved `moved` items. A ring is never left with
/// something in it: being told to stop only counts once it is empty.
pub fn after_pass(moved: usize, stop: bool, empty: bool) -> (pass: Pass)
    ensures
        pass == if moved > 0 {
            Pass::Again
        } else if stop && empty {
            Pass::Finish
        } else {
            Pass::Idle
        },
{
    if moved > 0 {
        Pass::Again
    } else if stop && empty {
        Pass::Finish
    } else {
        Pass::Idle
    }
}

// --- recordings -----------------------------------------------------------------------

/// Put a batch of frames into a recording.
pub fn record(
    recorder: &mut TelemetryRecorder,
    batch: &Vec<VehicleState>,
    dropped: u64,
    stats: &mut TelemetryStats,
)
    requires
        old(recorder).well_formed(),
        old(recorder).log().len() + batch@.len() <= u64::MAX,
        old(stats).frames_written + batch@.len() <= u64::MAX,
    ensures
        final(recorder).well_formed(),
        final(recorder).subject() == old(recorder).subject(),
        final(recorder).gone() == old(recorder).gone(),
        final(recorder).log() == old(recorder).log() + batch@,
        final(stats).frames_written == old(stats).frames_written + batch@.len(),
        final(stats).write_errors == old(stats).write_errors,
        final(stats).dropped == dropped,
{
    let mut i: usize = 0;
    assert(recorder.log() =~= old(recorder).log() + batch@.take(0));
    while i < batch.len()
        invariant
            i <= batch@.len(),
            recorder.well_formed(),
            recorder.subject() == old(recorder).subject(),
            recorder.gone() == old(recorder).gone(),
            old(recorder).log().len() + batch@.len() <= u64::MAX,
            old(stats).frames_written + batch@.len() <= u64::MAX,
            recorder.log() == old(recorder).log() + batch@.take(i as int),
            stats.frames_written == old(stats).frames_written + i,
            stats.write_errors == old(stats).write_errors,
        decreases batch@.len() - i,
    {
        recorder.write(&batch[i]);
        stats.frames_written += 1;
        i += 1;
        assert(recorder.log() =~= old(recorder).log() + batch@.take(i as int));
    }
    assert(batch@.take(batch@.len() as int) =~= batch@);
    stats.dropped = dropped;
}

/// Take back a batch of `frames` that the disk refused: it counts as errors, and
/// not as written.
pub fn refuse(stats: &mut TelemetryStats, frames: u64)
    requires
        old(stats).frames_written >= frames,
        old(stats).write_errors + frames <= u64::MAX,
    ensures
        *final(stats) == (TelemetryStats {
            frames_written: (old(stats).frames_written - frames) as u64,
            write_errors: (old(stats).write_errors + frames) as u64,
            dropped: old(stats).dropped,
        }),
{
    stats.frames_written -= frames;
    stats.write_errors += frames;
}

/// Drain a ring that nobody pushes into any more, and finish the recording.
pub fn run(
    consumer: &Consumer<VehicleState>,
    ring: &mut Ring<VehicleState>,
    meta: &SessionMeta,
    stats: &mut TelemetryStats,
) -> (bytes: Vec<u8>)
    requires
        old(ring).well_formed(),
        old(ring)@.len() <= u64::MAX,
        old(stats).frames_written + old(ring)@.len() <= u64::MAX,
    ensures
        bytes@ == recorder::file(*meta, old(ring)@),
        final(ring).well_formed(),
        final(ring)@ == Seq::<VehicleState>::empty(),
        final(ring).rejected() == old(ring).rejected(),
        final(stats).frames_written == old(stats).frames_written + old(ring)@.len(),
        final(stats).write_errors == old(stats).write_errors,
        final(stats).dropped == old(ring).rejected(),
{
    let mut writer: TelemetryRecorder = TelemetryRecorder::create(meta);
    let mut pass: Pass = Pass::Again;
    assert(writer.log() + ring@ =~= old(ring)@);
    while !matches!(pass, Pass::Finish)
        invariant
            ring.well_formed(),
            ring.rejected() == old(ring).rejected(),
            writer.well_formed(),
            writer.subject() == *meta,
            writer.gone() == Seq::<u8>::empty(),
            writer.log() + ring@ == old(ring)@,
            old(ring)@.len() <= u64::MAX,
            old(stats).frames_written + old(ring)@.len() <= u64::MAX,
            stats.frames_written == old(stats).frames_written + writer.log().len(),
            stats.write_errors == old(stats).write_errors,
            pass is Finish ==> ring@.len() == 0 && stats.dropped == old(ring).rejected(),
        decreases ring@.len(), (if pass is Finish {
            0int
        } else {
            1int
        }),
    {
        let mut batch: Vec<VehicleState> = Vec::new();
        let ghost waiting = ring@;
        let ghost log = writer.log();
        let moved: usize = consumer.drain_into(ring, &mut batch, BATCH);
        assert(batch@ =~= waiting.take(moved as int));
        record(&mut writer, &batch, consumer.overflows(ring), stats);
        assert(writer.log() + ring@ =~= log + waiting);
        pass = after_pass(moved, true, consumer.is_empty(ring));
    }
    assert(ring@ =~= Seq::empty());
    assert(writer.log() =~= old(ring)@);
    let bytes: Vec<u8> = writer.finish().1;
    assert(Seq::<u8>::empty() + bytes@ =~= bytes@);
    bytes
}

/// What to say once a recording is closed: nothing, unless it has holes.
pub fn closing(frames: u64, dropped: u64) -> (line: Option<String>)
    ensures
        match line {
            Some(text) => dropped > 0 && text@ == "telemetry: WROTE "@ + text::decimal(
                frames as nat,
            ) + " frames but DROPPED "@ + text::decimal(dropped as nat)
                + ". This recording has holes and must not be used for a comparison."@,
            None => dropped == 0,
        },
{
    if dropped > 0 {
        let mut line: String = "telemetry: WROTE ".to_owned();
        line.append(count_text(frames).as_str());
        line.append(" frames but DROPPED ");
        line.append(count_text(dropped).as_str());
        line.append(". This recording has holes and must not be used for a comparison.");
        Some(line)
    } else {
        None
    }
}

// --- traces ---------------------------------------------------------------------------

/// What one pass moves out of a ring that holds `waiting` items.
pub open spec fn taken(waiting: nat) -> int {
    if waiting < BATCH {
        waiting as int
    } else {
        BATCH as int
    }
}

/// What one pass puts into a trace: first the steps, then the device records.
pub open spec fn passed(steps: Seq<TraceStep>, devices: Seq<TraceDevice>) -> Seq<Record> {
    Seq::new(steps.len(), |i: int| Record::Step(steps[i])) + Seq::new(
        devices.len(),
        |i: int| Record::Device(devices[i]),
    )
}

/// What passes put into a trace until both rings are empty.
pub open spec fn interleaved(steps: Seq<TraceStep>, devices: Seq<TraceDevice>) -> Seq<Record>
    decreases steps.len() + devices.len(),
{
    if steps.len() == 0 && devices.len() == 0 {
        Seq::empty()
    } else {
        let s = taken(steps.len());
        let d = taken(devices.len());
        passed(steps.take(s), devices.take(d)) + interleaved(steps.skip(s), devices.skip(d))
    }
}

/// Put a batch of either sort of record into a trace.
pub fn record_trace(
    writer: &mut TraceWriter,
    steps: &Vec<TraceStep>,
    devices: &Vec<TraceDevice>,
    dropped: u64,
    stats: &mut TraceStats,
)
    requires
        old(writer).well_formed(),
        trace::steps_of(old(writer).log()).len() + steps@.len() <= u64::MAX,
        trace::devices_of(old(writer).log()).len() + devices@.len() <= u64::MAX,
        old(stats).steps_written + steps@.len() <= u64::MAX,
        old(stats).devices_written + devices@.len() <= u64::MAX,
    ensures
        final(writer).well_formed(),
        final(writer).subject() == old(writer).subject(),
        final(writer).gone() == old(writer).gone(),
        final(writer).log() == old(writer).log() + passed(steps@, devices@),
        trace::steps_of(final(writer).log()) == trace::steps_of(old(writer).log()) + steps@,
        trace::devices_of(final(writer).log()) == trace::devices_of(old(writer).log()) + devices@,
        final(stats).steps_written == old(stats).steps_written + steps@.len(),
        final(stats).devices_written == old(stats).devices_written + devices@.len(),
        final(stats).write_errors == old(stats).write_errors,
        final(stats).dropped == dropped,
{
    let ghost log = writer.log();
    let ghost none = Seq::<TraceDevice>::empty();
    let mut i: usize = 0;
    proof {
        assert(log + passed(steps@.take(0), none) =~= log);
        assert(trace::steps_of(log) + steps@.take(0) =~= trace::steps_of(log));
    }
    while i < steps.len()
        invariant
            i <= steps@.len(),
            none == Seq::<TraceDevice>::empty(),
            log == old(writer).log(),
            writer.well_formed(),
            writer.subject() == old(writer).subject(),
            writer.gone() == old(writer).gone(),
            trace::steps_of(log).len() + steps@.len() <= u64::MAX,
            old(stats).steps_written + steps@.len() <= u64::MAX,
            writer.log() == log + passed(steps@.take(i as int), none),
            trace::steps_of(writer.log()) == trace::steps_of(log) + steps@.take(i as int),
            trace::devices_of(writer.log()) == trace::devices_of(log),
            stats.steps_written == old(stats).steps_written + i,
            stats.devices_written == old(stats).devices_written,
            stats.write_errors == old(stats).write_errors,
        decreases steps@.len() - i,
    {
        let ghost before = writer.log();
        writer.write_step(&steps[i]);
        stats.steps_written += 1;
        i += 1;
        proof {
            assert(writer.log().drop_last() =~= before);
            assert(writer.log() =~= log + passed(steps@.take(i as int), none));
            assert(trace::steps_of(writer.log()) =~= trace::steps_of(log) + steps@.take(i as int));
        }
    }
    assert(steps@.take(steps@.len() as int) =~= steps@);
    let mut k: usize = 0;
    proof {
        assert(devices@.take(0) =~= none);
        assert(trace::devices_of(log) + devices@.take(0) =~= trace::devices_of(log));
    }
    while k < devices.len()
        invariant
            k <= devices@.len(),
            log == old(writer).log(),
            writer.well_formed(),
            writer.subject() == old(writer).subject(),
            writer.gone() == old(writer).gone(),
            trace::devices_of(log).len() + devices@.len() <= u64::MAX,
            old(stats).devices_written + devices@.len() <= u64::MAX,
            writer.log() == log + passed(steps@, devices@.take(k as int)),
            trace::steps_of(writer.log()) == trace::steps_of(log) + steps@,
            trace::devices_of(writer.log()) == trace::devices_of(log) + devices@.take(k as int),
            stats.steps_written == old(stats).steps_written + steps@.len(),
            stats.devices_written == old(stats).devices_written + k,
            stats.write_errors == old(stats).write_errors,
        decreases devices@.len() - k,
    {
        let ghost before = writer.log();
        writer.write_device(&devices[k]);
        stats.devices_written += 1;
        k += 1;
        proof {
            assert(writer.log().drop_last() =~= before);
            assert(writer.log() =~= log + passed(steps@, devices@.take(k as int)));
            assert(trace::devices_of(writer.log()) =~= trace::devices_of(log) + devices@.take(
                k as int,
            ));
        }
    }
    assert(devices@.take(devices@.len() as int) =~= devices@);
    stats.dropped = dropped;
}

/// Take back a batch of records that the disk refused: they count as errors, and
/// not as written.
pub fn refuse_trace(stats: &mut TraceStats, steps: u64, devices: u64)
    requires
        old(stats).steps_written >= steps,
        old(stats).devices_written >= devices,
        old(stats).write_errors + steps + devices <= u64::MAX,
    ensures
        *final(stats) == (TraceStats {
            steps_written: (old(stats).steps_written - steps) as u64,
            devices_written: (old(stats).devices_written - devices) as u64,
            write_errors: (old(stats).write_errors + steps + devices) as u64,
            dropped: old(stats).dropped,
        }),
{
    stats.steps_written -= steps;
    stats.devices_written -= devices;
    stats.write_errors += steps + devices;
}

/// Drain both trace rings, which nobody pushes into any more, into one trace.
///
/// Two consumers rather than one because a ring has a single producer, and the
/// step thread and the device thread are two threads. Serialising them here is
/// what lets neither of them know the other exists.
pub fn run_trace(
    step_end: &Consumer<TraceStep>,
    steps: &mut Ring<TraceStep>,
    device_end: &Consumer<TraceDevice>,
    devices: &mut Ring<TraceDevice>,
    meta: &TraceMeta,
    stats: &mut TraceStats,
) -> (bytes: Vec<u8>)
    requires
        old(steps).well_formed(),
        old(devices).well_formed(),
        old(steps)@.len() + old(devices)@.len() <= u64::MAX,
        old(stats).steps_written + old(steps)@.len() <= u64::MAX,
        old(stats).devices_written + old(devices)@.len() <= u64::MAX,
        old(steps).rejected() + old(devices).rejected() <= u64::MAX,
    ensures
        bytes@ == trace::file(*meta, interleaved(old(steps)@, old(devices)@)),
        final(steps).well_formed(),
        final(devices).well_formed(),
        final(steps)@ == Seq::<TraceStep>::empty(),
        final(devices)@ == Seq::<TraceDevice>::empty(),
        final(stats).steps_written == old(stats).steps_written + old(steps)@.len(),
        final(stats).devices_written == old(stats).devices_written + old(devices)@.len(),
        final(stats).write_errors == old(stats).write_errors,
        final(stats).dropped == old(steps).rejected() + old(devices).rejected(),
{
    let mut writer: TraceWriter = TraceWriter::create(meta);
    let mut pass: Pass = Pass::Again;
    proof {
        assert(writer.log() + interleaved(steps@, devices@) =~= interleaved(steps@, devices@));
        assert(trace::steps_of(writer.log()) + steps@ =~= steps@);
        assert(trace::devices_of(writer.log()) + devices@ =~= devices@);
    }
    while !matches!(pass, Pass::Finish)
        invariant
            steps.well_formed(),
            devices.well_formed(),
            steps.rejected() == old(steps).rejected(),
            devices.rejected() == old(devices).rejected(),
            old(steps).rejected() + old(devices).rejected() <= u64::MAX,
            old(steps)@.len() + old(devices)@.len() <= u64::MAX,
            old(stats).steps_written + old(steps)@.len() <= u64::MAX,
            old(stats).devices_written + old(devices)@.len() <= u64::MAX,
            writer.well_formed(),
            writer.subject() == *meta,
            writer.gone() == Seq::<u8>::empty(),
            writer.log() + interleaved(steps@, devices@) == interleaved(
                old(steps)@,
                old(devices)@,
            ),
            trace::steps_of(writer.log()) + steps@ == old(steps)@,
            trace::devices_of(writer.log()) + devices@ == old(devices)@,
            stats.steps_written == old(stats).steps_written + trace::steps_of(writer.log()).len(),
            stats.devices_written == old(stats).devices_written + trace::devices_of(
                writer.log(),
            ).len(),
            stats.write_errors == old(stats).write_errors,
            pass is Finish ==> steps@.len() == 0 && devices@.len() == 0 && stats.dropped == old(
                steps,
            ).rejected() + old(devices).rejected(),
        decreases steps@.len() + devices@.len(), (if pass is Finish {
            0int
        } else {
            1int
        }),
    {
        let mut step_batch: Vec<TraceStep> = Vec::new();
        let mut device_batch: Vec<TraceDevice> = Vec::new();
        let ghost s = steps@;
        let ghost d = devices@;
        let ghost log = writer.log();
        let moved_steps: usize = step_end.drain_into(steps, &mut step_batch, BATCH);
        let moved_devices: usize = device_end.drain_into(devices, &mut device_batch, BATCH);
        proof {
            assert(step_batch@ =~= s.take(moved_steps as int));
            assert(device_batch@ =~= d.take(moved_devices as int));
            assert(trace::steps_of(log).len() + s.len() == old(steps)@.len());
            assert(trace::devices_of(log).len() + d.len() == old(devices)@.len());
        }
        record_trace(
            &mut writer,
            &step_batch,
            &device_batch,
            step_end.overflows(steps) + device_end.overflows(devices),
            stats,
        );
        proof {
            if s.len() == 0 && d.len() == 0 {
                assert(passed(step_batch@, device_batch@) =~= Seq::empty());
                assert(steps@ =~= s && devices@ =~= d);
                assert(writer.log() =~= log);
            } else {
                assert(writer.log() + interleaved(steps@, devices@) =~= log + interleaved(s, d));
            }
            assert(trace::steps_of(writer.log()) + steps@ =~= trace::steps_of(log) + s);
            assert(trace::devices_of(writer.log()) + devices@ =~= trace::devices_of(log) + d);
        }
        pass = after_pass(
            moved_steps + moved_devices,
            true,
            step_end.is_empty(steps) && device_end.is_empty(devices),
        );
    }
    proof {
        assert(steps@ =~= Seq::empty());
        assert(devices@ =~= Seq::empty());
        assert(writer.log() =~= interleaved(old(steps)@, old(devices)@));
    }
    let bytes: Vec<u8> = writer.finish().2;
    assert(Seq::<u8>::empty() + bytes@ =~= bytes@);
    bytes
}

proof fn lemma_parted(left: Seq<Record>, right: Seq<Record>)
    ensures
        trace::steps_of(left + right) == trace::steps_of(left) + trace::steps_of(right),
        trace::devices_of(left + right) == trace::devices_of(left) + trace::devices_of(right),
    decreases right.len(),
{
    if right.len() == 0 {
        assert(left + right =~= left);
        assert(trace::steps_of(left) + trace::steps_of(right) =~= trace::steps_of(left));
        assert(trace::devices_of(left) + trace::devices_of(right) =~= trace::devices_of(left));
    } else {
        lemma_parted(left, right.drop_last());
        assert((left + right).drop_last() =~= left + right.drop_last());
        assert(trace::steps_of(left + right) =~= trace::steps_of(left) + trace::steps_of(right));
        assert(trace::devices_of(left + right) =~= trace::devices_of(left) + trace::devices_of(
            right,
        ));
    }
}

proof fn lemma_passed(steps: Seq<TraceStep>, devices: Seq<TraceDevice>)
    ensures
        trace::steps_of(passed(steps, devices)) == steps,
        trace::devices_of(passed(steps, devices)) == devices,
    decreases steps.len() + devices.len(),
{
    let log = passed(steps, devices);
    if devices.len() > 0 {
        lemma_passed(steps, devices.drop_last());
        assert(log.drop_last() =~= passed(steps, devices.drop_last()));
        assert(trace::devices_of(log) =~= devices);
    } else if steps.len() > 0 {
        lemma_passed(steps.drop_last(), devices);
        assert(log.drop_last() =~= passed(steps.drop_last(), devices));
        assert(trace::steps_of(log) =~= steps);
        assert(trace::devices_of(log) =~= devices);
    } else {
        assert(trace::steps_of(log) =~= steps);
        assert(trace::devices_of(log) =~= devices);
    }
}

/// However the two producers' records are interleaved on the way into a trace,
/// nothing of either is lost, and each keeps its order.
pub proof fn law_neither_producer_loses_a_record(steps: Seq<TraceStep>, devices: Seq<TraceDevice>)
    ensures
        trace::steps_of(interleaved(steps, devices)) == steps,
        trace::devices_of(interleaved(steps, devices)) == devices,
    decreases steps.len() + devices.len(),
{
    if steps.len() == 0 && devices.len() == 0 {
        assert(trace::steps_of(interleaved(steps, devices)) =~= steps);
        assert(trace::devices_of(interleaved(steps, devices)) =~= devices);
    } else {
        let s = taken(steps.len());
        let d = taken(devices.len());
        law_neither_producer_loses_a_record(steps.skip(s), devices.skip(d));
        lemma_passed(steps.take(s), devices.take(d));
        lemma_parted(
            passed(steps.take(s), devices.take(d)),
            interleaved(steps.skip(s), devices.skip(d)),
        );
        assert(steps.take(s) + steps.skip(s) =~= steps);
        assert(devices.take(d) + devices.skip(d) =~= devices);
    }
}

} // verus!
