//! The command line around the loop.
//!
//! Five verbs, each of which answers one question:
//!
//!   run       drive the rig
//!   bench     can this machine hold the deadline?
//!   selftest  is the safety path intact? -- run this before anyone drives
//!   devices   what hardware is connected, and what can it actually do?
//!   replay    reproduce a recording exactly

use vstd::prelude::*;

use crate::config::KernelConfig;
use crate::plant::integrator::Method;
use crate::replay;
use crate::replay::TunableSetting;
use crate::scalar::Scalar;
use crate::text;
use crate::text::{read_count, same_text};

pub mod report;
pub mod selftest;

verus! {

/// What `help` prints.
pub const USAGE: &'static str =
    "bobdil-kernel -- BobDil soft-real-time plant kernel\n\nUSAGE:\n    bobdil-kernel <COMMAND> [OPTIONS]\n\nCOMMANDS:\n    run         Drive the rig.\n    bench       Measure step time against the deadline gate (Phase 0).\n    selftest    Exercise the force-feedback safety path. Run before driving.\n    devices     List connected devices and the cues they can actually deliver.\n    replay      Re-run a recording and check it reproduces exactly.\n    info        Print schema, build and machine information.\n\nOPTIONS:\n    --plant <DIR>        Unpacked FMI 2.0 Model Exchange FMU directory.\n                         Omit to use the built-in reduced-order kernel.\n    --dt <SECONDS>       Fixed step (default 0.001).\n    --method <NAME>      euler | midpoint | rk4 (default rk4).\n    --substeps <N>       Integrator substeps per step (default 1).\n    --duration <SECONDS> Stop after this long. Omit to run until interrupted.\n    --speed <M/S>        Initial vehicle speed (default 0, a standing start).\n    --telemetry <PATH>   Record every step to this file.\n    --trace <PATH>       Record where each round trip spends its time.\n    --torque-limit <NM>  Absolute feedback clamp (default 8). Set this below\n                         your wheel's capability BEFORE anyone drives.\n    --ffb-gain <G>       Feedback gain, 0 to silence the wheel (default 1).\n    --cpu <N>            Pin the step thread to this CPU.\n    --no-realtime        Do not request SCHED_FIFO or pin.\n    --steps <N>          bench only: how many steps to run.\n    --file <PATH>        replay only: the recording to reproduce.\n    --out <PATH>         replay only: write the replayed telemetry here, so it\n                         can be diffed against another setup's replay.\n    --tunable <K=V>      replay only, repeatable: apply a setup change before\n                         replaying. This is the B side of a paired A/B.\n";

/// How many steps a benchmark takes unless it is told otherwise.
pub const BENCH_STEPS: u64 = 60_000;

/// What was asked for.
#[derive(Debug)]
pub struct Args {
    pub command: String,
    pub config: KernelConfig,
    pub steps: u64,
    pub file: Option<String>,
    pub out: Option<String>,
    pub tunables: Vec<TunableSetting>,
}

/// What a command line comes to.
#[derive(Debug)]
pub enum Parsed {
    Ready(Args),
    /// Somebody wants to know what there is.
    Help,
    Wrong(String),
}

/// What a command line can change, as values.
pub ghost struct Settings {
    pub command: Seq<char>,
    pub plant_dir: Option<Seq<char>>,
    pub step_dt: Scalar,
    pub method: Method,
    pub substeps: int,
    pub duration_s: Option<Scalar>,
    pub initial_speed: Scalar,
    pub telemetry_path: Option<Seq<char>>,
    pub trace_path: Option<Seq<char>>,
    pub torque_limit: Scalar,
    pub ffb_gain: Scalar,
    pub rt_cpu: Option<int>,
    pub request_realtime: bool,
    pub steps: int,
    pub file: Option<Seq<char>>,
    pub out: Option<Seq<char>>,
    pub tunables: Seq<(int, Scalar)>,
}

/// The characters of a text, if there is one.
pub open spec fn said(text: Option<String>) -> Option<Seq<char>> {
    match text {
        Some(found) => Some(found@),
        None => None,
    }
}

impl Args {
    pub open spec fn settings(self) -> Settings {
        Settings {
            command: self.command@,
            plant_dir: said(self.config.plant_dir),
            step_dt: self.config.step_dt,
            method: self.config.method,
            substeps: self.config.substeps as int,
            duration_s: self.config.duration_s,
            initial_speed: self.config.initial_speed,
            telemetry_path: said(self.config.telemetry_path),
            trace_path: said(self.config.trace_path),
            torque_limit: self.config.ffb_torque_limit,
            ffb_gain: self.config.ffb_gain,
            rt_cpu: match self.config.rt_cpu {
                Some(cpu) => Some(cpu as int),
                None => None,
            },
            request_realtime: self.config.request_realtime,
            steps: self.steps as int,
            file: said(self.file),
            out: said(self.out),
            tunables: Seq::new(
                self.tunables@.len(),
                |i: int| (self.tunables@[i].spec_row.id as int, self.tunables@[i].value),
            ),
        }
    }

    /// What no option changes is as it always is.
    pub open spec fn rest_is_standard(self) -> bool {
        &&& self.config.spin_ns == 120_000
        &&& self.config.overrun_policy == crate::config::OverrunPolicy::DegradeAndReport
        &&& self.config.watchdog_miss_limit == 5
        &&& self.config.telemetry_capacity == 65_536
        &&& self.config.trace_capacity == 65_536
        &&& forall|i: int|
            0 <= i < self.tunables@.len() ==> replay::is_row(
                (#[trigger] self.tunables@[i]).spec_row,
                self.tunables@[i].spec_row.id as int,
            )
    }
}

/// What a command line without options comes to.
pub open spec fn unchanged(command: Seq<char>, cpus: usize) -> Settings {
    Settings {
        command,
        plant_dir: None,
        step_dt: crate::telemetry::recorder::DEFAULT_STEP_DT,
        method: Method::Rk4,
        substeps: 1,
        duration_s: None,
        initial_speed: crate::scalar::ZERO,
        telemetry_path: None,
        trace_path: None,
        torque_limit: crate::config::DEFAULT_TORQUE_LIMIT,
        ffb_gain: crate::scalar::ONE,
        rt_cpu: if cpus >= 2 {
            Some(cpus - 1)
        } else {
            None
        },
        request_realtime: true,
        steps: BENCH_STEPS as int,
        file: None,
        out: None,
        tunables: Seq::empty(),
    }
}

/// The option wants a value behind it.
pub open spec fn takes_value(flag: Seq<char>) -> bool {
    ||| flag == "--plant"@
    ||| flag == "--dt"@
    ||| flag == "--method"@
    ||| flag == "--substeps"@
    ||| flag == "--duration"@
    ||| flag == "--speed"@
    ||| flag == "--telemetry"@
    ||| flag == "--trace"@
    ||| flag == "--torque-limit"@
    ||| flag == "--ffb-gain"@
    ||| flag == "--cpu"@
    ||| flag == "--steps"@
    ||| flag == "--file"@
    ||| flag == "--out"@
    ||| flag == "--tunable"@
}

/// A real value, or the complaint that there is none.
pub open spec fn amount<R: Fn(&str) -> Option<Scalar>>(
    read: R,
    value: Seq<char>,
    complaint: Seq<char>,
) -> Result<Scalar, Seq<char>> {
    match text::numeral(read, value) {
        Some(x) => Ok(x),
        None => Err(complaint),
    }
}

/// A whole number, or the complaint that there is none.
pub open spec fn whole(value: Seq<char>, max: int, complaint: Seq<char>) -> Result<int, Seq<char>> {
    match text::unsigned(value, 10, max) {
        Some(n) => Ok(n),
        None => Err(complaint),
    }
}

/// The settings once an option has its value.
pub open spec fn assigned<R: Fn(&str) -> Option<Scalar>, P: Fn(Scalar, usize) -> String>(
    read: R,
    print: P,
    s: Settings,
    flag: Seq<char>,
    value: Seq<char>,
) -> Result<Settings, Seq<char>> {
    if flag == "--plant"@ {
        Ok(Settings { plant_dir: Some(value), ..s })
    } else if flag == "--dt"@ {
        match amount(read, value, "--dt must be a number"@) {
            Ok(x) => Ok(Settings { step_dt: x, ..s }),
            Err(why) => Err(why),
        }
    } else if flag == "--method"@ {
        match Method::named(value) {
            Some(method) => Ok(Settings { method, ..s }),
            None => Err("unknown method "@ + value),
        }
    } else if flag == "--substeps"@ {
        match whole(value, usize::MAX as int, "--substeps must be an integer"@) {
            Ok(n) => Ok(Settings { substeps: n, ..s }),
            Err(why) => Err(why),
        }
    } else if flag == "--duration"@ {
        match amount(read, value, "--duration must be a number"@) {
            Ok(x) => Ok(Settings { duration_s: Some(x), ..s }),
            Err(why) => Err(why),
        }
    } else if flag == "--speed"@ {
        match amount(read, value, "--speed must be a number"@) {
            Ok(x) => Ok(Settings { initial_speed: x, ..s }),
            Err(why) => Err(why),
        }
    } else if flag == "--telemetry"@ {
        Ok(Settings { telemetry_path: Some(value), ..s })
    } else if flag == "--trace"@ {
        Ok(Settings { trace_path: Some(value), ..s })
    } else if flag == "--torque-limit"@ {
        match amount(read, value, "--torque-limit must be a number"@) {
            Ok(x) => Ok(Settings { torque_limit: x, ..s }),
            Err(why) => Err(why),
        }
    } else if flag == "--ffb-gain"@ {
        match amount(read, value, "--ffb-gain must be a number"@) {
            Ok(x) => Ok(Settings { ffb_gain: x, ..s }),
            Err(why) => Err(why),
        }
    } else if flag == "--cpu"@ {
        match whole(value, usize::MAX as int, "--cpu must be an integer"@) {
            Ok(n) => Ok(Settings { rt_cpu: Some(n), ..s }),
            Err(why) => Err(why),
        }
    } else if flag == "--steps"@ {
        match whole(value, u64::MAX as int, "--steps must be an integer"@) {
            Ok(n) => Ok(Settings { steps: n, ..s }),
            Err(why) => Err(why),
        }
    } else if flag == "--file"@ {
        Ok(Settings { file: Some(value), ..s })
    } else if flag == "--out"@ {
        Ok(Settings { out: Some(value), ..s })
    } else {
        match replay::setting(read, print, value) {
            Ok(found) => Ok(Settings { tunables: s.tunables.push(found), ..s }),
            Err(why) => Err(why),
        }
    }
}

/// What a command line comes to, as values.
pub ghost enum Meaning {
    Ready { settings: Settings },
    Help,
    Wrong { why: Seq<char> },
}

/// What the words from `at` on make of the settings so far.
pub open spec fn options<R: Fn(&str) -> Option<Scalar>, P: Fn(Scalar, usize) -> String>(
    read: R,
    print: P,
    s: Settings,
    words: Seq<Seq<char>>,
    at: int,
) -> Meaning
    decreases words.len() - at,
{
    if at >= words.len() {
        Meaning::Ready { settings: s }
    } else if words[at] == "--no-realtime"@ {
        options(read, print, Settings { request_realtime: false, ..s }, words, at + 1)
    } else if words[at] == "-h"@ || words[at] == "--help"@ {
        Meaning::Help
    } else if !takes_value(words[at]) {
        Meaning::Wrong { why: "unknown option "@ + words[at] }
    } else if at + 1 >= words.len() {
        Meaning::Wrong { why: words[at] + " needs a value"@ }
    } else {
        match assigned(read, print, s, words[at], words[at + 1]) {
            Ok(next) => options(read, print, next, words, at + 2),
            Err(why) => Meaning::Wrong { why },
        }
    }
}

/// What a command line comes to. The first word is the verb, `help` if there is
/// none.
pub open spec fn meaning<R: Fn(&str) -> Option<Scalar>, P: Fn(Scalar, usize) -> String>(
    read: R,
    print: P,
    words: Seq<Seq<char>>,
    cpus: usize,
) -> Meaning {
    if words.len() == 0 {
        Meaning::Ready { settings: unchanged("help"@, cpus) }
    } else {
        options(read, print, unchanged(words[0], cpus), words, 1)
    }
}

fn wants_value(flag: &str) -> (answer: bool)
    ensures
        answer == takes_value(flag@),
{
    same_text(flag, "--plant") || same_text(flag, "--dt") || same_text(flag, "--method")
        || same_text(flag, "--substeps") || same_text(flag, "--duration") || same_text(
        flag,
        "--speed",
    ) || same_text(flag, "--telemetry") || same_text(flag, "--trace") || same_text(
        flag,
        "--torque-limit",
    ) || same_text(flag, "--ffb-gain") || same_text(flag, "--cpu") || same_text(flag, "--steps")
        || same_text(flag, "--file") || same_text(flag, "--out") || same_text(flag, "--tunable")
}

fn number<R: Fn(&str) -> Option<Scalar>>(read: &R, value: &str, complaint: &str) -> (x: Result<
    Scalar,
    String,
>)
    requires
        text::reads(*read),
    ensures
        match x {
            Ok(found) => amount(*read, value@, complaint@) == Ok::<Scalar, Seq<char>>(found),
            Err(why) => amount(*read, value@, complaint@) == Err::<Scalar, Seq<char>>(why@),
        },
{
    match read(value) {
        Some(x) => Ok(x),
        None => Err(complaint.to_owned()),
    }
}

fn count(value: &str, max: u64, complaint: &str) -> (n: Result<u64, String>)
    ensures
        match n {
            Ok(found) => whole(value@, max as int, complaint@) == Ok::<int, Seq<char>>(
                found as int,
            ),
            Err(why) => whole(value@, max as int, complaint@) == Err::<int, Seq<char>>(why@),
        },
{
    match read_count(value, max) {
        Some(n) => Ok(n),
        None => Err(complaint.to_owned()),
    }
}

impl Args {
    /// Give an option its value. Nothing changes when the value is refused.
    fn assign<R: Fn(&str) -> Option<Scalar>, P: Fn(Scalar, usize) -> String>(
        &mut self,
        read: &R,
        print: &P,
        flag: &str,
        value: &str,
    ) -> (done: Result<(), String>)
        requires
            text::reads(*read),
            text::prints(*print),
            takes_value(flag@),
            old(self).rest_is_standard(),
        ensures
            final(self).rest_is_standard(),
            match done {
                Ok(_) => assigned(*read, *print, old(self).settings(), flag@, value@) == Ok::<
                    Settings,
                    Seq<char>,
                >(final(self).settings()),
                Err(why) => assigned(*read, *print, old(self).settings(), flag@, value@) == Err::<
                    Settings,
                    Seq<char>,
                >(why@),
            },
    {
        assert(usize::MAX <= u64::MAX);
        if same_text(flag, "--plant") {
            self.config.plant_dir = Some(value.to_owned());
        } else if same_text(flag, "--dt") {
            match number(read, value, "--dt must be a number") {
                Ok(x) => {
                    self.config.step_dt = x;
                },
                Err(why) => {
                    return Err(why);
                },
            }
        } else if same_text(flag, "--method") {
            match Method::parse(value) {
                Some(method) => {
                    self.config.method = method;
                },
                None => {
                    let mut why: String = "unknown method ".to_owned();
                    why.append(value);
                    return Err(why);
                },
            }
        } else if same_text(flag, "--substeps") {
            match count(value, usize::MAX as u64, "--substeps must be an integer") {
                Ok(n) => {
                    self.config.substeps = n as usize;
                },
                Err(why) => {
                    return Err(why);
                },
            }
        } else if same_text(flag, "--duration") {
            match number(read, value, "--duration must be a number") {
                Ok(x) => {
                    self.config.duration_s = Some(x);
                },
                Err(why) => {
                    return Err(why);
                },
            }
        } else if same_text(flag, "--speed") {
            match number(read, value, "--speed must be a number") {
                Ok(x) => {
                    self.config.initial_speed = x;
                },
                Err(why) => {
                    return Err(why);
                },
            }
        } else if same_text(flag, "--telemetry") {
            self.config.telemetry_path = Some(value.to_owned());
        } else if same_text(flag, "--trace") {
            self.config.trace_path = Some(value.to_owned());
        } else if same_text(flag, "--torque-limit") {
            match number(read, value, "--torque-limit must be a number") {
                Ok(x) => {
                    self.config.ffb_torque_limit = x;
                },
                Err(why) => {
                    return Err(why);
                },
            }
        } else if same_text(flag, "--ffb-gain") {
            match number(read, value, "--ffb-gain must be a number") {
                Ok(x) => {
                    self.config.ffb_gain = x;
                },
                Err(why) => {
                    return Err(why);
                },
            }
        } else if same_text(flag, "--cpu") {
            match count(value, usize::MAX as u64, "--cpu must be an integer") {
                Ok(n) => {
                    self.config.rt_cpu = Some(n as usize);
                },
                Err(why) => {
                    return Err(why);
                },
            }
        } else if same_text(flag, "--steps") {
            match count(value, u64::MAX, "--steps must be an integer") {
                Ok(n) => {
                    self.steps = n;
                },
                Err(why) => {
                    return Err(why);
                },
            }
        } else if same_text(flag, "--file") {
            self.file = Some(value.to_owned());
        } else if same_text(flag, "--out") {
            self.out = Some(value.to_owned());
        } else {
            match TunableSetting::parse(value, read, print) {
                Ok(setting) => {
                    self.tunables.push(setting);
                },
                Err(why) => {
                    return Err(why);
                },
            }
        }
        proof {
            let expected = assigned(*read, *print, old(self).settings(), flag@, value@);
            assert(expected is Ok);
            assert(expected->Ok_0.tunables =~= self.settings().tunables);
        }
        Ok(())
    }
}

/// Take a command line apart. `words` is the line without the program's name.
pub fn parse<R: Fn(&str) -> Option<Scalar>, P: Fn(Scalar, usize) -> String>(
    words: &Vec<String>,
    cpus: usize,
    read: &R,
    print: &P,
) -> (parsed: Parsed)
    requires
        text::reads(*read),
        text::prints(*print),
    ensures
        match parsed {
            Parsed::Ready(args) => args.rest_is_standard() && meaning(
                *read,
                *print,
                text::views(words@),
                cpus,
            ) == (Meaning::Ready { settings: args.settings() }),
            Parsed::Help => meaning(*read, *print, text::views(words@), cpus) is Help,
            Parsed::Wrong(why) => meaning(*read, *print, text::views(words@), cpus)
                == (Meaning::Wrong { why: why@ }),
        },
{
    let command: String = if words.len() > 0 {
        words[0].as_str().to_owned()
    } else {
        "help".to_owned()
    };
    let mut args: Args = Args {
        command,
        config: KernelConfig::standard(cpus),
        steps: BENCH_STEPS,
        file: None,
        out: None,
        tunables: Vec::new(),
    };
    let ghost all = text::views(words@);
    assert(args.settings().tunables =~= Seq::empty());
    assert(args.settings() == unchanged(args.command@, cpus));
    if words.len() == 0 {
        return Parsed::Ready(args);
    }
    let mut at: usize = 1;
    while at < words.len()
        invariant
            1 <= at <= words@.len(),
            all == text::views(words@),
            text::reads(*read),
            text::prints(*print),
            args.rest_is_standard(),
            meaning(*read, *print, all, cpus) == options(
                *read,
                *print,
                args.settings(),
                all,
                at as int,
            ),
        decreases words@.len() - at,
    {
        let flag: &str = words[at].as_str();
        assert(all[at as int] == flag@);
        if same_text(flag, "--no-realtime") {
            let ghost before = args.settings();
            args.config.request_realtime = false;
            assert(args.settings().tunables =~= before.tunables);
            at += 1;
        } else if same_text(flag, "-h") || same_text(flag, "--help") {
            return Parsed::Help;
        } else if !wants_value(flag) {
            let mut why: String = "unknown option ".to_owned();
            why.append(flag);
            return Parsed::Wrong(why);
        } else if words.len() - at < 2 {
            let mut why: String = flag.to_owned();
            why.append(" needs a value");
            return Parsed::Wrong(why);
        } else {
            let value: &str = words[at + 1].as_str();
            assert(all[at + 1] == value@);
            match args.assign(read, print, flag, value) {
                Ok(_) => {},
                Err(why) => {
                    return Parsed::Wrong(why);
                },
            }
            at += 2;
        }
    }
    Parsed::Ready(args)
}

/// What the program can be asked to do.
#[derive(Clone, Copy, PartialEq, Eq, Structural, Debug)]
pub enum Verb {
    Run,
    Bench,
    Selftest,
    Devices,
    Replay,
    Info,
    Help,
}

/// The verb a word stands for.
pub open spec fn verb_of(word: Seq<char>) -> Option<Verb> {
    if word == "run"@ {
        Some(Verb::Run)
    } else if word == "bench"@ {
        Some(Verb::Bench)
    } else if word == "selftest"@ {
        Some(Verb::Selftest)
    } else if word == "devices"@ {
        Some(Verb::Devices)
    } else if word == "replay"@ {
        Some(Verb::Replay)
    } else if word == "info"@ {
        Some(Verb::Info)
    } else if word == "help"@ || word == "--help"@ || word == "-h"@ {
        Some(Verb::Help)
    } else {
        None
    }
}

/// The verb a word stands for, or the complaint that it is none.
pub fn verb(word: &str) -> (verb: Result<Verb, String>)
    ensures
        match verb {
            Ok(found) => verb_of(word@) == Some(found),
            Err(why) => verb_of(word@) is None && why@ == "unknown command "@ + word@ + "\n\n"@
                + USAGE@,
        },
{
    if same_text(word, "run") {
        Ok(Verb::Run)
    } else if same_text(word, "bench") {
        Ok(Verb::Bench)
    } else if same_text(word, "selftest") {
        Ok(Verb::Selftest)
    } else if same_text(word, "devices") {
        Ok(Verb::Devices)
    } else if same_text(word, "replay") {
        Ok(Verb::Replay)
    } else if same_text(word, "info") {
        Ok(Verb::Info)
    } else if same_text(word, "help") || same_text(word, "--help") || same_text(word, "-h") {
        Ok(Verb::Help)
    } else {
        let mut why: String = "unknown command ".to_owned();
        why.append(word);
        why.append("\n\n");
        why.append(USAGE);
        Err(why)
    }
}

} // verus!
