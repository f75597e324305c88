//! The command line, the self-test, and what the platform is asked for.

use bobdil_kernel::arith::{Operation, NAN};
use bobdil_kernel::cli::report::{
    bench_gate, bench_heading, bench_plan, bench_verdict, info, jitter_histogram, replay_config,
    replay_file, replay_heading, replay_plant, replay_setup, replay_verdict, replay_written,
};
use bobdil_kernel::cli::selftest::{selftest, verdict, Check};
use bobdil_kernel::cli::{parse, verb, Args, Parsed, Verb, USAGE};
use bobdil_kernel::io::device::{NullDevice, RawInput};
use bobdil_kernel::plant::integrator::Method;
use bobdil_kernel::replay::ReplayOutcome;
use bobdil_kernel::rig::Timer;
use bobdil_kernel::sys::clock::{
    measure_sleep_jitter_ns, nanoseconds, sleep_until_precise, timespec, wait_for, woken, Timespec,
    Wait, Woken,
};
use bobdil_kernel::sys::dylib::DylibError;
use bobdil_kernel::sys::sched::{
    cpu_mask, harden_current_thread, lock_memory, may_lock_future, memlock_limit, online_cpus,
    request_fifo, suggested_rt_cpu, MemoryLock, RtStatus,
};
use bobdil_kernel::sys::shm::{shm_path, SharedRegion};
use bobdil_kernel::sys::{check, SysError};
use bobdil_kernel::telemetry::{SessionMeta, TelemetryReader};
use bobdil_kernel::text::SHORTEST;
use bobdil_kernel::VERSION;
use std::cell::Cell;

fn bits(x: f64) -> u64 {
    if x.is_nan() {
        NAN
    } else {
        x.to_bits()
    }
}

fn float(x: u64) -> f64 {
    f64::from_bits(x)
}

/// The platform's own arithmetic, with one word for every NaN.
fn host(operation: Operation) -> u64 {
    bits(match operation {
        Operation::Count(n) => n as f64,
        Operation::WideCount(n) => n as f64,
        Operation::Add(a, b) => float(a) + float(b),
        Operation::Sub(a, b) => float(a) - float(b),
        Operation::Mul(a, b) => float(a) * float(b),
        Operation::Div(a, b) => float(a) / float(b),
        Operation::Rem(a, b) => float(a) % float(b),
        Operation::Power(a, b) => float(a).powf(float(b)),
        Operation::Root(a) => float(a).sqrt(),
        Operation::Sine(a) => float(a).sin(),
        Operation::Cosine(a) => float(a).cos(),
        Operation::Tangent(a) => float(a).tan(),
        Operation::ArcTangent(a) => float(a).atan(),
        Operation::HyperbolicTangent(a) => float(a).tanh(),
    })
}

fn show(x: u64, decimals: usize) -> String {
    if decimals == SHORTEST {
        format!("{}", float(x))
    } else {
        format!("{:.*}", decimals, float(x))
    }
}

fn numeral(text: &str) -> Option<u64> {
    text.parse::<f64>().ok().map(bits)
}

fn line(words: &[&str]) -> Parsed {
    let words: Vec<String> = words.iter().map(|w| w.to_string()).collect();
    parse(&words, 8, &numeral, &show)
}

fn ready(words: &[&str]) -> Args {
    match line(words) {
        Parsed::Ready(args) => args,
        other => panic!("expected settings, got {other:?}"),
    }
}

fn wrong(words: &[&str]) -> String {
    match line(words) {
        Parsed::Wrong(why) => why,
        other => panic!("expected a complaint, got {other:?}"),
    }
}

#[test]
fn no_arguments_means_help() {
    let args = ready(&[]);
    assert_eq!(args.command, "help");
    assert_eq!(args.steps, 60_000);
    assert_eq!(args.config.rt_cpu, Some(7));
}

#[test]
fn every_option_lands_where_it_belongs() {
    let args = ready(&[
        "run",
        "--plant", "dir",
        "--dt", "0.002",
        "--method", "euler",
        "--substeps", "3",
        "--duration", "5",
        "--speed", "12.5",
        "--telemetry", "a.bdt",
        "--trace", "a.bdtrace",
        "--torque-limit", "4",
        "--ffb-gain", "0.5",
        "--cpu", "2",
        "--no-realtime",
        "--steps", "99",
        "--file", "in",
        "--out", "out",
        "--tunable", "brake_bias=0.5",
        "--tunable", "diff_preload=10",
    ]);
    assert_eq!(args.command, "run");
    assert_eq!(args.config.plant_dir.as_deref(), Some("dir"));
    assert_eq!(float(args.config.step_dt), 0.002);
    assert_eq!(args.config.method, Method::Euler);
    assert_eq!(args.config.substeps, 3);
    assert_eq!(args.config.duration_s.map(float), Some(5.0));
    assert_eq!(float(args.config.initial_speed), 12.5);
    assert_eq!(args.config.telemetry_path.as_deref(), Some("a.bdt"));
    assert_eq!(args.config.trace_path.as_deref(), Some("a.bdtrace"));
    assert_eq!(float(args.config.ffb_torque_limit), 4.0);
    assert_eq!(float(args.config.ffb_gain), 0.5);
    assert_eq!(args.config.rt_cpu, Some(2));
    assert!(!args.config.request_realtime);
    assert_eq!(args.steps, 99);
    assert_eq!(args.file.as_deref(), Some("in"));
    assert_eq!(args.out.as_deref(), Some("out"));
    assert_eq!(args.tunables.len(), 2);
    assert_eq!(args.tunables[1].spec_row.name, "diff_preload");
    let config = replay_config(args, 0xC0FFEE);
    assert_eq!(config.vehicle_hash, 0xC0FFEE);
    assert_eq!(float(config.initial.speed), 12.5);
    assert_eq!(config.tunables.len(), 2);
}

#[test]
fn every_complaint_about_a_command_line() {
    assert_eq!(wrong(&["run", "--fast"]), "unknown option --fast");
    assert_eq!(wrong(&["run", "--dt"]), "--dt needs a value");
    assert_eq!(wrong(&["run", "--dt", "x"]), "--dt must be a number");
    assert_eq!(wrong(&["run", "--method", "heun"]), "unknown method heun");
    assert_eq!(wrong(&["run", "--substeps", "-1"]), "--substeps must be an integer");
    assert_eq!(wrong(&["run", "--duration", ""]), "--duration must be a number");
    assert_eq!(wrong(&["run", "--speed", "fast"]), "--speed must be a number");
    assert_eq!(wrong(&["run", "--torque-limit", "?"]), "--torque-limit must be a number");
    assert_eq!(wrong(&["run", "--ffb-gain", "?"]), "--ffb-gain must be a number");
    assert_eq!(wrong(&["run", "--cpu", "1.5"]), "--cpu must be an integer");
    assert_eq!(
        wrong(&["bench", "--steps", "18446744073709551616"]),
        "--steps must be an integer"
    );
    assert!(wrong(&["replay", "--tunable", "x"]).contains("expects name=value"));
    assert!(matches!(line(&["run", "--help"]), Parsed::Help));
    assert!(matches!(line(&["run", "-h", "--bad"]), Parsed::Help));
}

#[test]
fn verbs_are_known_by_name() {
    assert_eq!(verb("run").unwrap(), Verb::Run);
    assert_eq!(verb("bench").unwrap(), Verb::Bench);
    assert_eq!(verb("selftest").unwrap(), Verb::Selftest);
    assert_eq!(verb("devices").unwrap(), Verb::Devices);
    assert_eq!(verb("replay").unwrap(), Verb::Replay);
    assert_eq!(verb("info").unwrap(), Verb::Info);
    assert_eq!(verb("-h").unwrap(), Verb::Help);
    assert_eq!(verb("fly").unwrap_err(), format!("unknown command fly\n\n{USAGE}"));
}

#[test]
fn the_self_test_clears_this_machine() {
    let device: NullDevice<fn(u64) -> RawInput> = NullDevice::new();
    let checks = selftest(&host, &show, device);
    let lines: Vec<String> = checks.iter().map(|c| c.line()).collect();
    assert_eq!(lines[0], "  [PASS] NaN plant output -> zero torque in one step -- 0 N.m");
    assert_eq!(
        lines[1],
        "  [PASS] torque clamp holds against extreme input -- worst 5.000 N.m"
    );
    assert!(
        lines[2].starts_with("  [PASS] stalled loop ramps torque to zero within 100 ms -- zero at"),
        "{}",
        lines[2]
    );
    assert_eq!(lines[3], "  [PASS] device is left at zero torque on shutdown");
    assert_eq!(lines[4], "  [PASS] a 20 ms old command is rejected as stale");
    assert_eq!(
        verdict(&checks).unwrap(),
        "all safety checks passed. The rig is cleared for a driver."
    );
}

#[test]
fn a_failed_check_grounds_the_rig() {
    let checks = vec![
        Check { name: "one", passed: false, detail: String::new() },
        Check { name: "two", passed: true, detail: String::new() },
        Check { name: "three", passed: false, detail: "bad".to_string() },
    ];
    assert_eq!(checks[2].line(), "  [FAIL] three -- bad");
    assert_eq!(
        verdict(&checks).unwrap_err(),
        "2 SAFETY CHECK(S) FAILED: one, three. DO NOT let anyone drive this build."
    );
}

#[test]
fn info_describes_the_build_and_the_machine() {
    let page = info(8, false);
    let lines: Vec<&str> = page.lines().collect();
    assert_eq!(lines[0], format!("bobdil-kernel {VERSION}"));
    assert!(lines[1].starts_with("schema layout hash  0x"));
    assert_eq!(
        lines[2],
        "frames              driver_input 72 B, vehicle_state 264 B, ffb_command 40 B"
    );
    assert_eq!(
        lines[3],
        "segments            /dev/shm/bobdil_driver_input, /dev/shm/bobdil_vehicle_state, \
         /dev/shm/bobdil_ffb_command"
    );
    assert_eq!(lines[4], "cpus online         8");
    assert_eq!(lines[5], "suggested rt cpu    Some(7)");
    assert_eq!(lines[6], "sdl3 backend        not compiled in");
    assert!(info(1, true).contains("suggested rt cpu    None"));
}

#[test]
fn a_benchmark_says_what_it_measures() {
    let bare = RtStatus { memlock_limit_bytes: 8 * 1024 * 1024, ..Default::default() };
    let heading = bench_heading(&host, &show, 4, &bare);
    assert!(heading.contains("machine     4 cpus online"));
    assert!(heading.contains("RLIMIT_MEMLOCK is 8 MB"));
    assert!(heading.ends_with("dominated by the OS, not by the plant.\n"));
    assert_eq!(
        bench_plan(&host, &show, bits(1e-3), Method::Rk4, 2, 50),
        "\nprobing at dt=1.000 ms, Rk4 (8 evaluations/step), 50 steps"
    );
    assert_eq!(
        bench_gate(&host, &show, 500_000, bits(1e-3)),
        "\ngate: p99.9 <= 500 us (half the 1.0 ms budget, leaving room for OS jitter)"
    );
    assert!(bench_verdict(false, true).is_ok());
    assert_eq!(bench_verdict(true, true).unwrap_err(), "a kernel did not clear its gate");
    assert!(bench_verdict(false, false).is_err());
    let jitter = jitter_histogram(&vec![-5, 2_000, 7_000]);
    assert_eq!(jitter.count(), 3);
    assert_eq!(jitter.max_ns(), 7_000);
}

#[test]
fn a_replay_reports_what_it_did() {
    assert_eq!(replay_file(&None).unwrap_err(), "replay needs --file <recording>");
    assert_eq!(replay_file(&Some("x".to_string())).unwrap(), "x");
    let recording = TelemetryReader {
        meta: SessionMeta { kernel_id: 2, ..Default::default() },
        frames: Vec::new(),
    };
    assert_eq!(
        replay_heading(&show, "lap.bdt", &recording),
        "replaying lap.bdt (0 frames, dt=0.001000 s, kernel id 2)"
    );
    let tunables =
        ready(&["replay", "--tunable", "brake_bias=0.5", "--tunable", "diff_preload=7"]).tunables;
    assert_eq!(
        replay_setup(&show, &tunables).unwrap(),
        "setup      brake_bias=0.5, diff_preload=7"
    );
    assert!(replay_setup(&show, &Vec::new()).is_none());
    let outcome = ReplayOutcome {
        frames: Vec::new(),
        final_state: Vec::new(),
        kernel_name: "Reduced14Dof".to_string(),
        kernel_id: 2,
        deterministic: true,
    };
    assert_eq!(replay_plant(&outcome), "plant      Reduced14Dof (0 frames)");
    assert!(replay_verdict(true).unwrap().contains("bit-identical"));
    assert!(replay_verdict(false).unwrap_err().contains("not deterministic"));
    assert_eq!(replay_written(3, "b.bdt"), "wrote      3 frames to b.bdt");
}

// --- the platform ------------------------------------------------------------------------------

#[test]
fn a_failed_call_carries_its_errno() {
    assert!(check("mlockall", 0, 12).is_ok());
    let error = check("mlockall", -1, 12).unwrap_err();
    assert_eq!(error.message(), "mlockall failed (errno 12)");
}

#[test]
fn a_deadline_is_split_for_the_platform() {
    assert_eq!(
        timespec(3_000_000_007),
        Timespec { seconds: 3, nanoseconds: 7 }
    );
    assert_eq!(nanoseconds(3, 7), 3_000_000_007);
    assert!(matches!(woken(0), Woken::Due));
    assert!(matches!(woken(4), Woken::Early));
    assert!(matches!(
        woken(22),
        Woken::Failed { error: SysError { call: "clock_nanosleep", errno: 22 } }
    ));
}

#[test]
fn the_last_stretch_is_spun() {
    assert_eq!(wait_for(1_000, 100, 10, false), Wait::Sleep { until_ns: 900 });
    assert_eq!(wait_for(1_000, 100, 10, true), Wait::Spin);
    assert_eq!(wait_for(1_000, 100, 950, false), Wait::Spin);
    assert_eq!(wait_for(1_000, 100, 1_000, false), Wait::Done);
    let now = Cell::new(0u64);
    let slept = Cell::new(0u64);
    let clock = || {
        now.set(now.get() + 7);
        now.get()
    };
    let sleep = |until: u64| {
        slept.set(until);
        now.set(until + 3);
        Ok(())
    };
    assert!(sleep_until_precise(&mut Timer::new(clock, sleep), 1_000, 100, 10_000).unwrap());
    assert_eq!(slept.get(), 900);
    assert!(now.get() >= 1_000);
    let broken = |_until: u64| Err(SysError { call: "clock_nanosleep", errno: 22 });
    now.set(0);
    assert_eq!(
        sleep_until_precise(&mut Timer::new(clock, broken), 1_000, 100, 10)
            .unwrap_err()
            .errno,
        22
    );
}

#[test]
fn sleep_jitter_is_measured_against_the_deadline_asked_for() {
    let now = Cell::new(0u64);
    let clock = || now.get();
    let sleep = |until: u64| {
        now.set(until + 40);
        Ok(())
    };
    let mut timer = Timer::new(clock, sleep);
    assert_eq!(measure_sleep_jitter_ns(&mut timer, 3, 1_000), vec![40, 40, 40]);
}

#[test]
fn hardening_reports_what_was_granted() {
    assert_eq!(suggested_rt_cpu(8), Some(7));
    assert_eq!(suggested_rt_cpu(1), None);
    assert_eq!(online_cpus(-1), 1);
    assert_eq!(online_cpus(16), 16);
    assert_eq!(request_fifo(99, 10, 0).unwrap(), 89);
    assert_eq!(request_fifo(5, 10, 0).unwrap(), 1);
    assert_eq!(request_fifo(-1, 10, 38).unwrap_err().errno, 38);
    assert_eq!(memlock_limit(None, true), 0);
    assert_eq!(memlock_limit(Some((8, 64)), true), 64);
    assert_eq!(memlock_limit(Some((8, 64)), false), 8);
    assert!(!may_lock_future(8 * 1024 * 1024));
    assert_eq!(lock_memory(1 << 30, true, true).0, MemoryLock::CurrentAndFuture);
    assert_eq!(lock_memory(8 << 20, true, true).0, MemoryLock::Current);
    assert_eq!(lock_memory(8 << 20, true, false), (MemoryLock::Pageable, 8 << 20));
    let refused = SysError { call: "sched_setaffinity", errno: 22 };
    let status = harden_current_thread(Some(3), Err(refused), Ok(89), MemoryLock::Current, 5);
    assert_eq!(status.pinned_cpu, None);
    assert_eq!(status.fifo_priority, Some(89));
    assert!(!status.is_hardened());
    assert_eq!(status.describe(), "SCHED_FIFO(89), unpinned, mlock(current)");
    let full = harden_current_thread(Some(3), Ok(()), Ok(89), MemoryLock::CurrentAndFuture, 5);
    assert!(full.is_hardened());
    assert!(full.advice(&host, &show).is_empty());
    assert_eq!(RtStatus::default().advice(&host, &show).len(), 3);
    let unpinned = RtStatus { pinned_cpu: None, ..full };
    assert!(!unpinned.is_hardened());
    let advice = unpinned.advice(&host, &show);
    assert_eq!(advice.len(), 1);
    assert!(advice[0].contains("--cpu"), "{advice:?}");
    assert_eq!(
        RtStatus::default().describe(),
        "SCHED_OTHER (unprivileged: expect a longer jitter tail), unpinned, pageable"
    );
}

#[test]
fn a_mask_holds_one_cpu() {
    let mask = cpu_mask(10).unwrap();
    assert_eq!(mask.len(), 128);
    assert_eq!(mask[1], 4);
    assert_eq!(mask.iter().map(|b| *b as u32).sum::<u32>(), 4);
    assert_eq!(cpu_mask(1024).unwrap_err().errno, 22);
}

#[test]
fn segments_are_rooted_and_unlinked_by_their_owner() {
    assert_eq!(shm_path("a").unwrap(), "/a");
    assert_eq!(shm_path("/a").unwrap(), "/a");
    assert_eq!(shm_path("").unwrap(), "/");
    assert_eq!(shm_path("a\0b").unwrap_err().errno, 22);
    let owned = SharedRegion::create("seg", 64);
    assert_eq!(owned.len(), 64);
    assert_eq!(owned.name(), "seg");
    assert!(!owned.is_empty());
    assert_eq!(owned.unlinks().as_deref(), Some("/seg"));
    assert!(SharedRegion::attach("seg", 0).is_empty());
    assert!(SharedRegion::attach("seg", 0).unlinks().is_none());
}

#[test]
fn a_library_that_does_not_load_says_why() {
    assert_eq!(DylibError::path("x").message(), "path is not a C string: x");
    assert_eq!(DylibError::open("x.so", "gone").message(), "dlopen(x.so): gone");
    assert_eq!(DylibError::name("f").message(), "bad symbol name: f");
    assert_eq!(DylibError::symbol("f", "x.so", "no").message(), "dlsym(f) in x.so: no");
}
