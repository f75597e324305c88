//! Seqlocks and rings.

use bobdil_kernel::generated::frames::{FieldCount, FieldIndex, Frame, TraceDevice, TraceStep};
use bobdil_kernel::sys::SysError;
use bobdil_kernel::transport::seqlock::{accepts, segment_bytes, Header, Segment, SEGMENT_MAGIC};
use bobdil_kernel::transport::spsc_ring::{channel, slot_to_read, slot_to_write};
use bobdil_kernel::transport::window::Window;
use bobdil_kernel::transport::{PushError, SeqlockError, SeqlockReader, SeqlockWriter};
use std::cell::Cell;


/// Four words that should always agree.
#[derive(Clone, Copy, Debug, PartialEq, Default)]
struct Quad {
    a: u64,
    b: u64,
    c: u64,
    d: u64,
}

impl Frame for Quad {
    fn size() -> FieldCount {
        unreachable!()
    }

    fn word(self, _index: FieldIndex) -> u64 {
        unreachable!()
    }

    fn words_decide(self, _other: Self) {
        unreachable!()
    }

    fn field_count() -> usize {
        4
    }

    fn field(&self, index: usize) -> u64 {
        [self.a, self.b, self.c, self.d][index]
    }

    fn from_words(words: &Vec<u64>, start: usize) -> Self {
        Quad {
            a: words[start],
            b: words[start + 1],
            c: words[start + 2],
            d: words[start + 3],
        }
    }
}

fn latest(reader: &SeqlockReader<Quad>, segment: &Segment) -> Option<(Quad, u64)> {
    let mut window = Window::new(|| segment.sequence, || segment.load::<Quad>());
    reader.read_latest(&mut window)
}

#[test]
fn publishes_and_reads_back() {
    let (mut writer, mut segment) = SeqlockWriter::<Quad>::create("roundtrip", 0xABCD);
    let reader = SeqlockReader::<Quad>::attach(&segment.header, 0xABCD).unwrap();
    writer.publish(&mut segment, &Quad { a: 1, b: 2, c: 3, d: 4 });
    let (frame, seq) = latest(&reader, &segment).unwrap();
    assert_eq!(frame, Quad { a: 1, b: 2, c: 3, d: 4 });
    assert_eq!(seq, 2);
}

#[test]
fn refuses_a_segment_written_by_a_different_schema() {
    let (_writer, segment) = SeqlockWriter::<Quad>::create("layout", 0x1111);
    match SeqlockReader::<Quad>::attach(&segment.header, 0x2222) {
        Err(err) => assert!(
            matches!(err, SeqlockError::LayoutMismatch { .. }),
            "{}",
            err.message()
        ),
        Ok(_) => panic!("a reader must refuse a segment written by a different schema"),
    }
}

#[test]
fn readers_see_the_newest_frame_not_a_backlog() {
    let (mut writer, mut segment) = SeqlockWriter::<Quad>::create("latest", 3);
    let reader = SeqlockReader::<Quad>::attach(&segment.header, 3).unwrap();
    for i in 0..100 {
        writer.publish(&mut segment, &Quad { a: i, b: i, c: i, d: i });
    }
    let (frame, _) = latest(&reader, &segment).unwrap();
    assert_eq!(
        frame.a, 99,
        "a seqlock must yield the newest value, never a queue"
    );
}

/// A writer that moves one word at a time while the reader looks: the reader
/// believes nothing that mixes two frames.
#[test]
fn a_frame_that_changes_under_the_reader_is_read_again() {
    let reader = SeqlockReader::<Quad>::attach(
        &Header {
            magic: SEGMENT_MAGIC,
            layout_hash: 7,
            payload_size: 32,
        },
        7,
    )
    .unwrap();
    // Every look sees the writer one step further on: an odd number, four words
    // and an even number for each frame.
    let time = Cell::new(0u64);
    let sequence = || {
        let now = time.get();
        time.set(now + 1);
        let (frame, step) = (now / 6, now % 6);
        if step == 0 {
            2 * frame
        } else {
            2 * frame + 1
        }
    };
    let payload = || {
        let now = time.get();
        time.set(now + 4);
        Quad {
            a: now / 6,
            b: (now + 1) / 6,
            c: (now + 2) / 6,
            d: (now + 3) / 6,
        }
    };
    assert!(reader.read(&mut Window::new(sequence, payload), 64).is_none());
}

#[test]
fn a_writer_that_died_mid_frame_is_given_up_on() {
    let (_writer, segment) = SeqlockWriter::<Quad>::create("dead", 1);
    let reader = SeqlockReader::<Quad>::attach(&segment.header, 1).unwrap();
    let looks = Cell::new(0u32);
    let mut window = Window::new(
        || {
            looks.set(looks.get() + 1);
            3
        },
        || Quad::default(),
    );
    let frame = reader.read(&mut window, 5);
    assert!(frame.is_none());
    assert_eq!(looks.get(), 5);
}

#[test]
fn a_new_segment_holds_a_zeroed_frame() {
    let (writer, segment) = SeqlockWriter::<Quad>::create("fresh", 1);
    assert_eq!(writer.name(), "fresh");
    assert_eq!(writer.sequence(), 0);
    let reader = SeqlockReader::<Quad>::attach(&segment.header, 1).unwrap();
    assert_eq!(latest(&reader, &segment).unwrap(), (Quad::default(), 0));
    assert_eq!(segment_bytes::<Quad>(), 64);
}

#[test]
fn every_refusal_to_attach_says_why() {
    let good = Header {
        magic: SEGMENT_MAGIC,
        layout_hash: 0x1,
        payload_size: 32,
    };
    let magic = SeqlockReader::<Quad>::attach(&Header { magic: 0xBAD, ..good }, 1).unwrap_err();
    assert_eq!(
        magic.message(),
        "not a BobDil segment (magic 0x0000000000000bad)"
    );
    let layout = SeqlockReader::<Quad>::attach(&good, 2).unwrap_err();
    assert_eq!(
        layout.message(),
        "schema mismatch: segment was written by layout 0x0000000000000001, this build expects \
         0x0000000000000002. Rebuild both sides from the same schema."
    );
    let size =
        SeqlockReader::<Quad>::attach(&Header { payload_size: 40, ..good }, 1).unwrap_err();
    assert_eq!(
        size.message(),
        "payload size mismatch: expected 32, segment holds 40"
    );
    let sys = SeqlockError::Sys(SysError {
        call: "shm_open",
        errno: 13,
    });
    assert_eq!(sys.message(), "shm_open failed (errno 13)");
}

#[test]
fn sequence_numbers_wrap() {
    let (mut writer, _segment) = SeqlockWriter::<Quad>::create("wrap", 1);
    assert_eq!(writer.advance(), 1);
    assert_eq!(writer.advance(), 2);
}

// --- rings -----------------------------------------------------------------------------------

#[test]
fn is_lossless_below_capacity() {
    let (tx, rx, mut ring) = channel::<u64>(1024);
    for i in 0..1000 {
        tx.push(&mut ring, i).expect("below capacity");
    }
    let mut out = Vec::new();
    rx.drain_into(&mut ring, &mut out, 10_000);
    assert_eq!(out, (0..1000).collect::<Vec<_>>());
    assert_eq!(tx.overflows(&ring), 0);
}

#[test]
fn overflow_is_reported_never_silent() {
    let (tx, _rx, mut ring) = channel::<u64>(4);
    for i in 0..4 {
        tx.push(&mut ring, i).unwrap();
    }
    assert_eq!(tx.push(&mut ring, 99), Err(PushError::Full));
    assert_eq!(tx.push(&mut ring, 100), Err(PushError::Full));
    assert_eq!(
        tx.overflows(&ring),
        2,
        "every rejected push must be counted"
    );
}

#[test]
fn a_ring_goes_round() {
    let (tx, rx, mut ring) = channel::<u64>(3);
    assert_eq!(tx.capacity(&ring), 4);
    for i in 0..50 {
        tx.push(&mut ring, i).unwrap();
        tx.push(&mut ring, i + 1000).unwrap();
        assert_eq!(tx.len(&ring), 2);
        assert_eq!(rx.pop(&mut ring), Some(i));
        assert_eq!(rx.pop(&mut ring), Some(i + 1000));
        assert_eq!(rx.pop(&mut ring), None);
        assert!(rx.is_empty(&ring) && tx.is_empty(&ring));
    }
}

#[test]
fn a_drain_stops_at_its_limit() {
    let (tx, rx, mut ring) = channel::<u64>(8);
    for i in 0..6 {
        tx.push(&mut ring, i).unwrap();
    }
    let mut out = vec![77];
    assert_eq!(rx.drain_into(&mut ring, &mut out, 4), 4);
    assert_eq!(out, vec![77, 0, 1, 2, 3]);
    assert_eq!(rx.len(&ring), 2);
    assert_eq!(rx.overflows(&ring), 0);
}

#[test]
fn a_slot_is_given_only_where_there_is_one() {
    assert_eq!(slot_to_write(9, 6, 4), Ok(1));
    assert_eq!(slot_to_write(10, 6, 4), Err(PushError::Full));
    assert_eq!(slot_to_read(6, 9, 4), Some(2));
    assert_eq!(slot_to_read(9, 9, 4), None);
}

#[test]
fn trace_frames_have_the_size_the_file_says() {
    assert_eq!(TraceStep::field_count() * 8, 80);
    assert_eq!(TraceDevice::field_count() * 8, 40);
}

#[test]
fn a_frame_is_believed_only_between_two_equal_even_numbers() {
    assert!(accepts(4, 4));
    assert!(!accepts(4, 6));
    assert!(!accepts(5, 5));
    assert!(!accepts(u64::MAX, 0));
}

/// The number moves on between the first look and the second, once: the first frame
/// is not believed, and the next one is.
#[test]
fn the_second_look_is_what_decides() {
    let (_writer, segment) = SeqlockWriter::<Quad>::create("twice", 1);
    let reader = SeqlockReader::<Quad>::attach(&segment.header, 1).unwrap();
    let looks = Cell::new(0u64);
    let payloads = Cell::new(0u64);
    let mut window = Window::new(
        || {
            looks.set(looks.get() + 1);
            if looks.get() == 1 {
                8
            } else {
                10
            }
        },
        || {
            payloads.set(payloads.get() + 1);
            Quad { a: payloads.get(), ..Quad::default() }
        },
    );
    let (frame, at) = reader.read(&mut window, 5).unwrap();
    assert_eq!((frame.a, at), (2, 10));
    assert_eq!((looks.get(), payloads.get()), (4, 2));
    assert!(reader.read(&mut window, 0).is_none());
    assert_eq!(looks.get(), 4);
}
