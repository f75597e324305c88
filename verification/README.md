# bobdil-kernel

The soft-real-time plant kernel of a driver-in-the-loop simulator: a vehicle
stepped at 1 kHz, and the path by which its reaction torque reaches a steering
wheel that is strong enough to hurt. Written in Rust and proved with Verus.

## Layout

- `src/` is the library. Everything in it is verified.
  - `scalar`, `arith`: doubles as bit patterns, and arithmetic through a unit that
    the host supplies. Laws about rounding are stated of any unit that rounds the
    four basic operations to nearest.
  - `text`, `wire`: the characters of messages and the bytes of files.
  - `generated`: the frames that cross a boundary.
  - `io`: calibration, steering shaping, the feedback chain, the watchdogs, the
    device loop. The functions that the device loop calls are held beside the device,
    with a ghost log of what each of them answered and when.
  - `plant`: the plant boundary, the fixed-step integrators, the built-in car, the
    conversation with an FMU, and the ladder that chooses between them. What an
    integrator costs is counted, in ghost state, evaluation by evaluation.
  - `transport`: the seqlock and the ring.
  - `telemetry`, `replay`: recordings, traces, and running a recording again.
  - `rig`: a clock, a plant and the lines out of a loop, each with a ghost log of
    when it was used, so that contracts can speak of the order of effects.
  - `loop_runner`: the step loop.
  - `sys`, `config`, `cli`: the platform's answers, the settings, the command line.
- `app/` is the program around it: clocks, threads, shared memory, shared
  libraries, the wheel, files.
- `tests/` runs the library with the machine's own doubles.

## What is proved

Each function states what it returns for every input it takes. Where a promise
spans several calls it is a `law_` of its own. Among them:

- no frame, however extreme, puts more torque on the wheel than the limit, through
  a whole session (`loop_runner::law_a_session_starts_guarded`,
  `loop_runner::law_a_session_keeps_its_limit`);
- a diverged plant is silenced in that very step, and stays silenced until an
  operator acknowledges it (`io::ffb::law_divergence_is_silenced_at_once`,
  `io::watchdog::law_a_cut_is_final`);
- a stalled loop goes slack, and the self-test finds it slack
  (`io::watchdog::law_a_stall_goes_slack`,
  `cli::selftest::law_the_self_test_clears`);
- whatever the device loop was told last, the device was told to let go
  (`io::hid::law_the_last_word_is_zero`);
- what a reader accepts is a frame that was written whole, and a reader whose
  writer died gives up (`transport::seqlock::law_no_torn_frame`,
  `transport::seqlock::law_a_reader_gives_up`);
- the spans of a step are in order
  (`loop_runner::law_spans_are_in_order`);
- a recording reads back bit for bit
  (`telemetry::recorder::law_a_recording_reads_back`);
- a session can be replayed to the last bit (`replay::law_a_session_replays`);
- the largest sample is never under-reported, and the order of samples does not
  matter (`metrics::law_the_whole_is_never_under_reported`,
  `metrics::law_the_order_of_samples_does_not_matter`);
- the car in a mirror moves as its mirror image
  (`plant::reduced::mirror::law_the_car_moves_as_its_mirror_image`,
  `plant::reduced::mirror::law_but_for_rounding_the_car_has_no_side`).

Arithmetic on doubles is the host's. Of its trigonometry nothing is claimed beyond
that equal arguments give equal results; the laws on the mirror ask that a unit
treat both signs alike.
