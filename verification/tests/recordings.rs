//! Telemetry and trace files.

use bobdil_kernel::arith::{Operation, NAN};
use bobdil_kernel::generated::frames::{
    Frame, TraceDevice, TraceStep, VehicleState, LAYOUT_HASH, LAYOUT_REVISION,
};
use bobdil_kernel::telemetry::recorder::HEADER_SIZE;
use bobdil_kernel::telemetry::trace::{
    self, TraceError, TraceMeta, TraceReader, TraceWriter, KIND_DEVICE, KIND_STEP, TRACE_MAGIC,
};
use bobdil_kernel::telemetry::{
    after_pass, closing, refuse, refuse_trace, run, run_trace, Pass, SessionMeta, TelemetryReader,
    TelemetryRecorder, TelemetryStats, TraceStats,
};
use bobdil_kernel::text::SHORTEST;
use bobdil_kernel::transport::ring_channel;
use bobdil_kernel::wire::{put, read_word};

fn bits(x: f64) -> u64 {
    if x.is_nan() {
        NAN
    } else {
        x.to_bits()
    }
}

fn float(x: u64) -> f64 {
    f64::from_bits(x)
}

/// The platform's own arithmetic, with one word for every NaN.
fn host(operation: Operation) -> u64 {
    bits(match operation {
        Operation::Count(n) => n as f64,
        Operation::WideCount(n) => n as f64,
        Operation::Add(a, b) => float(a) + float(b),
        Operation::Sub(a, b) => float(a) - float(b),
        Operation::Mul(a, b) => float(a) * float(b),
        Operation::Div(a, b) => float(a) / float(b),
        Operation::Rem(a, b) => float(a) % float(b),
        Operation::Power(a, b) => float(a).powf(float(b)),
        Operation::Root(a) => float(a).sqrt(),
        Operation::Sine(a) => float(a).sin(),
        Operation::Cosine(a) => float(a).cos(),
        Operation::Tangent(a) => float(a).tan(),
        Operation::ArcTangent(a) => float(a).atan(),
        Operation::HyperbolicTangent(a) => float(a).tanh(),
    })
}

fn show(x: u64, decimals: usize) -> String {
    if decimals == SHORTEST {
        format!("{}", float(x))
    } else {
        format!("{:.*}", decimals, float(x))
    }
}

fn word(bytes: &[u8], index: usize) -> u64 {
    u64::from_le_bytes(bytes[index * 8..index * 8 + 8].try_into().unwrap())
}

#[test]
fn a_recording_round_trips_exactly() {
    let meta = SessionMeta {
        step_dt: bits(1e-3),
        kernel_id: 1,
        vehicle_hash: 0xDEAD,
        ..Default::default()
    };
    let mut recorder = TelemetryRecorder::create(&meta);
    for step in 0..500u64 {
        recorder.write(&VehicleState {
            step_index: step,
            sim_time: bits(step as f64 * 1e-3),
            vehicle_speed: bits(step as f64 * 0.1),
            handwheel_torque: bits(-(step as f64) * 0.01),
            ..Default::default()
        });
    }
    let (frames, bytes) = recorder.finish();
    assert_eq!(frames, 500);

    let read = TelemetryReader::open(&bytes).unwrap();
    assert_eq!(read.frames.len(), 500);
    assert_eq!(read.meta.vehicle_hash, 0xDEAD);
    assert_eq!(float(read.meta.step_dt), 1e-3);
    // Bit-exact, not approximately: replay determinism depends on it.
    assert_eq!(float(read.frames[499].vehicle_speed), 499.0 * 0.1);
    assert_eq!(read.frames[123].step_index, 123);
}

#[test]
fn a_foreign_file_is_refused_rather_than_misread() {
    assert!(TelemetryReader::open(&vec![0u8; 512]).is_err());
}

#[test]
fn csv_columns_come_from_the_schema() {
    let mut recorder = TelemetryRecorder::create(&SessionMeta::default());
    recorder.write(&VehicleState {
        vehicle_speed: bits(12.5),
        step_index: 7,
        ..Default::default()
    });
    let bytes = recorder.finish().1;
    let text = TelemetryReader::open(&bytes)
        .unwrap()
        .write_csv(&host, &show);
    let header = text.lines().next().unwrap();
    assert!(header.starts_with("sim_time,step_index,host_time_ns"));
    assert!(header.contains("handwheel_torque"));
    let row: Vec<&str> = text.lines().nth(1).unwrap().split(',').collect();
    assert_eq!(row.len(), 33);
    assert_eq!(row[1], "7.000000000");
    assert_eq!(row[6], "12.500000000");
}

#[test]
fn a_refused_recording_says_why() {
    assert_eq!(
        TelemetryReader::open(&vec![0u8; 8]).unwrap_err(),
        "file is shorter than a telemetry header"
    );
    assert_eq!(
        TelemetryReader::open(&vec![0u8; 128]).unwrap_err(),
        "not a BobDil telemetry file"
    );
    let mut bytes = TelemetryRecorder::create(&SessionMeta::default()).finish().1;
    bytes[8..16].copy_from_slice(&0x1234u64.to_le_bytes());
    assert_eq!(
        TelemetryReader::open(&bytes).unwrap_err(),
        format!(
            "recording was written by schema layout {:#018x}, this build expects {:#018x}",
            0x1234, LAYOUT_HASH
        )
    );
}

#[test]
fn a_torn_last_frame_is_left_out() {
    let mut recorder = TelemetryRecorder::create(&SessionMeta::default());
    for step in 0..3 {
        recorder.write(&VehicleState {
            step_index: step,
            ..Default::default()
        });
    }
    let mut bytes = recorder.finish().1;
    bytes.truncate(bytes.len() - 1);
    let read = TelemetryReader::open(&bytes).unwrap();
    assert_eq!(read.frames.len(), 2);
    assert_eq!(read.frames[1].step_index, 1);
}

#[test]
fn bytes_taken_early_are_part_of_the_same_file() {
    let mut whole = TelemetryRecorder::create(&SessionMeta::default());
    let mut parts = TelemetryRecorder::create(&SessionMeta::default());
    let mut file = parts.take();
    for step in 0..4 {
        let frame = VehicleState {
            step_index: step,
            ..Default::default()
        };
        whole.write(&frame);
        parts.write(&frame);
        if step == 2 {
            file.append(&mut parts.take());
        }
    }
    assert_eq!(parts.frames(), 4);
    file.append(&mut parts.finish().1);
    assert_eq!(file, whole.finish().1);
}

#[test]
fn a_header_is_laid_out_as_documented() {
    let meta = SessionMeta {
        step_dt: bits(0.5),
        kernel_id: 6,
        evaluations_per_step: 7,
        vehicle_hash: 8,
        build_hash: 9,
    };
    let bytes = TelemetryRecorder::create(&meta).finish().1;
    assert_eq!(bytes.len(), HEADER_SIZE);
    assert_eq!(&bytes[..8], b"BDTEL001");
    assert_eq!(word(&bytes, 1), LAYOUT_HASH);
    assert_eq!(word(&bytes, 2), LAYOUT_REVISION);
    assert_eq!(word(&bytes, 3), 264);
    assert_eq!(word(&bytes, 4), 33);
    assert_eq!(word(&bytes, 5), bits(0.5));
    assert_eq!((6..10).map(|i| word(&bytes, i)).collect::<Vec<_>>(), vec![6, 7, 8, 9]);
    assert_eq!((10..16).map(|i| word(&bytes, i)).sum::<u64>(), 0);
}

#[test]
fn a_drained_ring_becomes_a_recording() {
    let (tx, rx, mut ring) = ring_channel::<VehicleState>(8);
    for step in 0..9 {
        let _ = tx.push(
            &mut ring,
            VehicleState {
                step_index: step,
                ..Default::default()
            },
        );
    }
    let mut stats = TelemetryStats::default();
    let bytes = run(&rx, &mut ring, &SessionMeta::default(), &mut stats);
    assert_eq!(stats.frames_written, 8);
    assert_eq!(stats.dropped, 1);
    assert_eq!(stats.write_errors, 0);
    let read = TelemetryReader::open(&bytes).unwrap();
    assert_eq!(read.frames.len(), 8);
    assert!(read.frames.iter().enumerate().all(|(i, f)| f.step_index == i as u64));
    assert!(closing(8, 1).unwrap().contains("WROTE 8 frames but DROPPED 1"));
    assert!(closing(8, 0).is_none());
}

#[test]
fn what_the_disk_refused_counts_as_errors() {
    let mut stats = TelemetryStats {
        frames_written: 20,
        write_errors: 1,
        dropped: 3,
    };
    refuse(&mut stats, 8);
    assert_eq!((stats.frames_written, stats.write_errors, stats.dropped), (12, 9, 3));
    let mut stats = TraceStats {
        steps_written: 7,
        devices_written: 5,
        write_errors: 0,
        dropped: 2,
    };
    refuse_trace(&mut stats, 4, 5);
    assert_eq!((stats.steps_written, stats.devices_written), (3, 0));
    assert_eq!((stats.write_errors, stats.dropped), (9, 2));
}

#[test]
fn a_drain_ends_only_when_it_is_told_to_and_empty() {
    assert_eq!(after_pass(3, true, true), Pass::Again);
    assert_eq!(after_pass(0, true, false), Pass::Idle);
    assert_eq!(after_pass(0, false, true), Pass::Idle);
    assert_eq!(after_pass(0, true, true), Pass::Finish);
}

#[test]
fn words_are_written_least_significant_byte_first() {
    let mut bytes = vec![9];
    put(&mut bytes, 0x0102_0304_0506_0708);
    assert_eq!(bytes, vec![9, 8, 7, 6, 5, 4, 3, 2, 1]);
    assert_eq!(read_word(&bytes, 1), 0x0102_0304_0506_0708);
}

// --- traces ----------------------------------------------------------------------------------

#[test]
fn the_drain_thread_writes_both_producers_and_stops_when_told() {
    let (step_tx, step_rx, mut steps) = ring_channel::<TraceStep>(64);
    let (device_tx, device_rx, mut devices) = ring_channel::<TraceDevice>(64);
    let mut stats = TraceStats::default();

    for index in 0..3 {
        step_tx
            .push(
                &mut steps,
                TraceStep {
                    step_index: index,
                    ..Default::default()
                },
            )
            .unwrap();
    }
    device_tx.push(&mut devices, TraceDevice::default()).unwrap();

    let bytes = run_trace(
        &step_rx,
        &mut steps,
        &device_rx,
        &mut devices,
        &TraceMeta::default(),
        &mut stats,
    );

    assert_eq!(stats.steps_written, 3);
    assert_eq!(stats.devices_written, 1);
    assert_eq!(stats.write_errors, 0);
    assert_eq!(stats.dropped, 0);

    let expected = trace::HEADER_SIZE
        + 3 * (8 + 8 * TraceStep::field_count())
        + (8 + 8 * TraceDevice::field_count());
    assert_eq!(bytes.len(), expected);
}

#[test]
fn a_written_trace_starts_with_its_magic_and_this_builds_layout() {
    let writer = TraceWriter::create(&TraceMeta::default());
    let (_, _, bytes) = writer.finish();

    assert_eq!(
        bytes.len(),
        trace::HEADER_SIZE,
        "a trace with no records is a header"
    );
    assert_eq!(word(&bytes, 0), TRACE_MAGIC);
    assert_eq!(word(&bytes, 1), LAYOUT_HASH);
    assert_eq!(word(&bytes, 2), LAYOUT_REVISION);
}

#[test]
fn each_record_is_tagged_so_two_producers_can_interleave() {
    let mut writer = TraceWriter::create(&TraceMeta::default());
    writer.write_step(&TraceStep {
        step_index: 7,
        ..Default::default()
    });
    writer.write_device(&TraceDevice {
        sample_index: 9,
        ..Default::default()
    });
    assert_eq!(writer.counts(), (1, 1));
    let (steps, devices, bytes) = writer.finish();

    assert_eq!((steps, devices), (1, 1));

    let step_tag = trace::HEADER_SIZE / 8;
    assert_eq!(word(&bytes, step_tag), KIND_STEP);
    assert_eq!(word(&bytes, step_tag + 1), 7, "step_index is the first field");

    let device_tag = step_tag + 1 + TraceStep::field_count();
    assert_eq!(word(&bytes, device_tag), KIND_DEVICE);
    assert_eq!(
        word(&bytes, device_tag + 4),
        9,
        "sample_index is the fourth field of TraceDevice"
    );
}

fn mixed() -> Vec<u8> {
    let mut writer = TraceWriter::create(&TraceMeta {
        step_dt: bits(2e-3),
        kernel_id: 3,
        build_hash: 4,
    });
    for index in 0..4u64 {
        writer.write_device(&TraceDevice {
            t_pickup: 10 * index,
            flags: 1,
            ..Default::default()
        });
        writer.write_step(&TraceStep {
            step_index: index,
            t_after_publish: 100 + index,
            ..Default::default()
        });
    }
    writer.finish().2
}

#[test]
fn a_trace_reads_back_each_producer_in_order() {
    let read = TraceReader::open(&mixed()).unwrap();
    assert_eq!(float(read.meta.step_dt), 2e-3);
    assert_eq!((read.meta.kernel_id, read.meta.build_hash), (3, 4));
    let steps: Vec<u64> = read.steps.iter().map(|s| s.t_after_publish).collect();
    assert_eq!(steps, vec![100, 101, 102, 103]);
    let devices: Vec<u64> = read.devices.iter().map(|d| d.t_pickup).collect();
    assert_eq!(devices, vec![0, 10, 20, 30]);
}

#[test]
fn a_broken_trace_is_refused_with_its_place() {
    let bytes = mixed();
    assert_eq!(
        TraceReader::open(&bytes[..100].to_vec()).unwrap_err().message(),
        "trace ends mid-record at byte 100"
    );
    // Cut inside a tag, and inside a record.
    assert_eq!(
        TraceReader::open(&bytes[..132].to_vec()).unwrap_err().message(),
        "trace ends mid-record at byte 128"
    );
    assert_eq!(
        TraceReader::open(&bytes[..140].to_vec()).unwrap_err().message(),
        "trace ends mid-record at byte 136"
    );
    let mut unknown = bytes.clone();
    unknown[128] = 99;
    assert_eq!(
        TraceReader::open(&unknown).unwrap_err().message(),
        "unknown record kind 99 at byte 128"
    );
    let mut foreign = bytes.clone();
    foreign[..8].copy_from_slice(&0xABCu64.to_le_bytes());
    assert_eq!(
        TraceReader::open(&foreign).unwrap_err().message(),
        "not a BobDil trace (magic 0x0000000000000abc)"
    );
    let mut outdated = bytes.clone();
    outdated[16..24].copy_from_slice(&9u64.to_le_bytes());
    assert!(matches!(
        TraceReader::open(&outdated),
        Err(TraceError::VersionMismatch {
            expected: LAYOUT_REVISION,
            found: 9
        })
    ));
    assert_eq!(
        TraceReader::open(&outdated).unwrap_err().message(),
        format!("version mismatch: trace was written by version 9, this build expects {LAYOUT_REVISION}.")
    );
    let mut other = bytes;
    other[8..16].copy_from_slice(&5u64.to_le_bytes());
    assert!(matches!(
        TraceReader::open(&other),
        Err(TraceError::LayoutMismatch {
            expected: LAYOUT_HASH,
            found: 5
        })
    ));
    assert_eq!(
        TraceError::Io {
            detail: "no such file".to_string()
        }
        .message(),
        "no such file"
    );
}
