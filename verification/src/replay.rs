//! Re-run a recording against a plant, deterministically.
//!
//! This is the mechanism paired A/B is built on. The claim it has to support is
//! narrow and strong: *the same recorded inputs, applied to two setups, produce
//! outputs whose every difference is attributable to the setup.* Nothing else
//! about the second run may vary -- not the step size, not the integrator, not
//! the initial conditions, and not the pose arithmetic, which is why that lives
//! in `pose` and is shared with the live loop rather than written twice.
//!
//! Two things are deliberately absent, and their absence is the guarantee:
//!
//! * **No clock.** Wall time is not an input to the physics, so removing it
//!   removes the only source of run-to-run variation.
//! * **No device.** No wheel is opened and no torque is produced. A replay must
//!   never be able to move a wheel nobody is holding.
//!
//! Every replay verifies its own determinism by running twice and comparing.
//! That is cheap next to the replay itself, and a comparison made on a plant
//! that turned out to be non-deterministic is worse than no comparison, because
//! it still looks like a result.

use vstd::prelude::*;

use crate::arith;
use crate::arith::{plus, Operation};
use crate::generated::frames;
use crate::generated::frames::{
    tunable, DriverInput, Frame, TunableSpec, VehicleState, TUNABLE_COUNT,
};
use crate::loop_runner;
use crate::loop_runner::{Moment, Turn, Wires};
use crate::plant;
use crate::plant::integrator::Method;
use crate::plant::{InitialConditions, KernelCaps, PlantKernel};
use crate::pose::Pose;
use crate::scalar;
use crate::scalar::{is_at_most, Scalar, ZERO};
use crate::telemetry::recorder;
use crate::telemetry::{SessionMeta, TelemetryReader, TelemetryRecorder};
use crate::text;
use crate::text::{count_text, find, join, letters, quote, spell, spells, trim, word_text};

verus! {

// --- a change of setup ----------------------------------------------------------------

/// One `name=value` setup change, resolved against the schema's tunable table.
#[derive(Clone, Copy, Debug)]
pub struct TunableSetting {
    pub spec_row: TunableSpec,
    pub value: Scalar,
}

/// `row` is the tunable with this id.
pub open spec fn is_row(row: TunableSpec, id: int) -> bool {
    &&& 0 <= id < TUNABLE_COUNT
    &&& row.id == id
    &&& row.name@ == frames::tunable_name(id)
    &&& row.min == frames::tunable_min(id)
    &&& row.max == frames::tunable_max(id)
}

/// The names in the table, as an error lists them.
pub open spec fn known_names() -> Seq<char> {
    "["@ + text::joined(
        Seq::new(TUNABLE_COUNT as nat, |i: int| text::quoted(frames::tunable_name(i))),
        ", "@,
    ) + "]"@
}

/// The name in `name=value`.
pub open spec fn name_in(text: Seq<char>) -> Seq<char> {
    text::trimmed(text.take(text::position(text, '=')))
}

/// The value in `name=value`, as it was written.
pub open spec fn raw_in(text: Seq<char>) -> Seq<char> {
    text.skip(text::position(text, '=') + 1)
}

/// There is a value behind a name.
pub open spec fn is_assignment(text: Seq<char>) -> bool {
    text::position(text, '=') < text.len()
}

/// The id of the tunable with this name, if some tunable has it.
pub open spec fn id_of(name: Seq<char>, from: int) -> Option<int>
    decreases TUNABLE_COUNT - from,
{
    if from >= TUNABLE_COUNT {
        None
    } else if frames::tunable_name(from) == name {
        Some(from)
    } else {
        id_of(name, from + 1)
    }
}

/// The value lies in the schema's range.
pub open spec fn in_range(id: int, value: Scalar) -> bool {
    scalar::le(frames::tunable_min(id), value) && scalar::le(value, frames::tunable_max(id))
}

/// The tunable a `name=value` text changes and what to, or why it is refused.
pub open spec fn setting<R: Fn(&str) -> Option<Scalar>, P: Fn(Scalar, usize) -> String>(
    read: R,
    print: P,
    text: Seq<char>,
) -> Result<(int, Scalar), Seq<char>> {
    let name = name_in(text);
    if !is_assignment(text) {
        Err("--tunable expects name=value, got "@ + text::quoted(text))
    } else {
        match id_of(name, 0) {
            None => Err(
                "no tunable named "@ + text::quoted(name) + "; the schema defines "@
                    + known_names(),
            ),
            Some(id) => match text::numeral(read, text::trimmed(raw_in(text))) {
                None => Err(name + ": "@ + text::quoted(raw_in(text)) + " is not a number"@),
                Some(value) => if in_range(id, value) {
                    Ok((id, value))
                } else {
                    Err(
                        name + "="@ + text::printed(print, value, text::SHORTEST)
                            + " is outside the schema's range ["@ + text::printed(
                            print,
                            frames::tunable_min(id),
                            text::SHORTEST,
                        ) + ", "@ + text::printed(
                            print,
                            frames::tunable_max(id),
                            text::SHORTEST,
                        ) + "]"@,
                    )
                },
            },
        }
    }
}

fn known_names_text() -> (line: String)
    ensures
        line@ == known_names(),
{
    let mut names: Vec<String> = Vec::new();
    let mut id: u32 = 0;
    while id < TUNABLE_COUNT
        invariant
            id <= TUNABLE_COUNT,
            text::views(names@) =~= Seq::new(
                id as nat,
                |i: int| text::quoted(frames::tunable_name(i)),
            ),
        decreases TUNABLE_COUNT - id,
    {
        let name: String = quote(tunable(id).name);
        proof {
            text::lemma_views_push(names@, name);
        }
        names.push(name);
        id += 1;
    }
    let mut line: String = "[".to_owned();
    line.append(join(&names, ", ").as_str());
    line.append("]");
    line
}

impl TunableSetting {
    /// Parse `name=value`, checking the name and the range against the schema.
    ///
    /// Range-checked here rather than at apply time so a typo in an A/B script
    /// fails before either side runs -- half an A/B is not a result.
    pub fn parse<R: Fn(&str) -> Option<Scalar>, P: Fn(Scalar, usize) -> String>(
        input: &str,
        read: &R,
        print: &P,
    ) -> (setting: Result<Self, String>)
        requires
            text::reads(*read),
            text::prints(*print),
        ensures
            match setting {
                Ok(found) => {
                    &&& is_row(found.spec_row, found.spec_row.id as int)
                    &&& self::setting(*read, *print, input@) == Ok::<(int, Scalar), Seq<char>>(
                        (found.spec_row.id as int, found.value),
                    )
                },
                Err(why) => self::setting(*read, *print, input@) == Err::<
                    (int, Scalar),
                    Seq<char>,
                >(why@),
            },
    {
        let chars: Vec<char> = letters(input);
        let len: usize = chars.len();
        let at: usize = find(&chars, 0, len, '=');
        assert(chars@.subrange(0, len as int) =~= input@);
        if at == len {
            let mut why: String = "--tunable expects name=value, got ".to_owned();
            why.append(quote(input).as_str());
            return Err(why);
        }
        let bounds: (usize, usize) = trim(&chars, 0, at);
        let name: String = spell(&chars, bounds.0, bounds.1);
        let raw: String = spell(&chars, at + 1, len);
        proof {
            assert(chars@.subrange(0, at as int) =~= input@.take(at as int));
            assert(chars@.subrange(at + 1, len as int) =~= input@.skip(at + 1));
        }
        let mut id: u32 = 0;
        while id < TUNABLE_COUNT && !spells(&chars, bounds.0, bounds.1, tunable(id).name)
            invariant
                id <= TUNABLE_COUNT,
                bounds.0 <= bounds.1 <= chars@.len(),
                name@ == chars@.subrange(bounds.0 as int, bounds.1 as int),
                id_of(name@, 0) == id_of(name@, id as int),
            decreases TUNABLE_COUNT - id,
        {
            id += 1;
        }
        if id == TUNABLE_COUNT {
            let mut why: String = "no tunable named ".to_owned();
            why.append(quote(name.as_str()).as_str());
            why.append("; the schema defines ");
            why.append(known_names_text().as_str());
            return Err(why);
        }
        let row: TunableSpec = tunable(id);
        assert(id_of(name@, 0) == Some(id as int));
        let inner: (usize, usize) = trim(&chars, at + 1, len);
        let number: String = spell(&chars, inner.0, inner.1);
        let value: Scalar = match read(number.as_str()) {
            Some(value) => value,
            None => {
                let mut why: String = name;
                why.append(": ");
                why.append(quote(raw.as_str()).as_str());
                why.append(" is not a number");
                return Err(why);
            },
        };
        assert(is_row(row, row.id as int));
        if !(is_at_most(row.min, value) && is_at_most(value, row.max)) {
            let mut why: String = name;
            why.append("=");
            why.append(print(value, text::SHORTEST).as_str());
            why.append(" is outside the schema's range [");
            why.append(print(row.min, text::SHORTEST).as_str());
            why.append(", ");
            why.append(print(row.max, text::SHORTEST).as_str());
            why.append("]");
            return Err(why);
        }
        Ok(TunableSetting { spec_row: row, value })
    }

    pub open spec fn described<P: Fn(Scalar, usize) -> String>(self, print: P) -> Seq<char> {
        self.spec_row.name@ + "="@ + text::printed(print, self.value, text::SHORTEST)
    }

    pub fn describe<P: Fn(Scalar, usize) -> String>(&self, print: &P) -> (line: String)
        requires
            text::prints(*print),
        ensures
            line@ == self.described(*print),
    {
        let mut line: String = self.spec_row.name.to_owned();
        line.append("=");
        line.append(print(self.value, text::SHORTEST).as_str());
        line
    }
}

// --- what is replayed -----------------------------------------------------------------

/// Everything that decides what a replay produces.
#[derive(Debug)]
pub struct ReplayConfig {
    /// Unpacked FMU directory, or `None` for the built-in reduced kernel.
    pub plant_dir: Option<String>,
    pub method: Method,
    pub substeps: usize,
    pub initial: InitialConditions,
    pub tunables: Vec<TunableSetting>,
    /// Hash of the vehicle definition the plant is built from, 0 for the built-in
    /// car.
    pub vehicle_hash: u64,
}

impl Default for ReplayConfig {
    fn default() -> (config: Self)
        ensures
            config.plant_dir is None,
            config.method == Method::Rk4,
            config.substeps == 1,
            config.initial == InitialConditions::rest(),
            config.tunables@.len() == 0,
            config.vehicle_hash == 0,
    {
        ReplayConfig {
            plant_dir: None,
            method: Method::Rk4,
            substeps: 1,
            initial: InitialConditions::default(),
            tunables: Vec::new(),
            vehicle_hash: 0,
        }
    }
}

#[derive(Debug)]
pub struct ReplayOutcome {
    pub frames: Vec<VehicleState>,
    pub final_state: Vec<Scalar>,
    pub kernel_name: String,
    pub kernel_id: u64,
    /// True when a second identical run reproduced the first exactly.
    pub deterministic: bool,
}

/// What the driver did, and nothing else of a recorded frame.
///
/// Every other field is an *output* of the run being replayed, and feeding any
/// of it back would make this a copy rather than a reproduction.
pub open spec fn command(recorded: VehicleState) -> DriverInput {
    DriverInput {
        steering_angle_command: recorded.steering_angle_command,
        accelerator_pedal_command: recorded.accelerator_pedal_command,
        brake_pedal_command: recorded.brake_pedal_command,
        ..DriverInput::zero()
    }
}

/// The machine with the first `n` changes of setup made, if it took them all.
pub open spec fn tuned<K: PlantKernel>(
    machine: K::Machine,
    settings: Seq<TunableSetting>,
    n: nat,
) -> Option<K::Machine>
    decreases n,
{
    if n == 0 {
        Some(machine)
    } else {
        match tuned::<K>(machine, settings, (n - 1) as nat) {
            None => None,
            Some(before) => {
                let after = K::retuned(
                    before,
                    settings[n - 1].spec_row.id,
                    settings[n - 1].value,
                );
                if after.1 {
                    Some(after.0)
                } else {
                    None
                }
            },
        }
    }
}

/// Where a replay stands.
pub ghost struct Track<M> {
    pub machine: M,
    pub pose: Pose,
    pub sim_time: Scalar,
    /// No step has failed so far.
    pub alive: bool,
}

/// What step `k` gives.
pub open spec fn given<K: PlantKernel, F: Fn(Operation) -> Scalar>(
    unit: &F,
    start: K::Machine,
    recorded: Seq<VehicleState>,
    dt: Scalar,
    k: nat,
) -> Option<VehicleState> {
    K::advanced(track::<K, F>(unit, start, recorded, dt, k).machine, command(recorded[k as int]), dt).1
}

/// Where a replay stands after `n` frames.
pub open spec fn track<K: PlantKernel, F: Fn(Operation) -> Scalar>(
    unit: &F,
    start: K::Machine,
    recorded: Seq<VehicleState>,
    dt: Scalar,
    n: nat,
) -> Track<K::Machine>
    decreases n,
{
    if n == 0 {
        Track { machine: start, pose: Pose::origin(), sim_time: ZERO, alive: true }
    } else {
        let before = track::<K, F>(unit, start, recorded, dt, (n - 1) as nat);
        let step = K::advanced(before.machine, command(recorded[n - 1]), dt);
        match step.1 {
            None => Track { machine: step.0, alive: false, ..before },
            Some(state) => Track {
                machine: step.0,
                pose: before.pose.advanced(unit, state, dt),
                sim_time: plus(unit, before.sim_time, dt),
                alive: before.alive,
            },
        }
    }
}

/// Frame `k` of a replay.
///
/// `host_time_ns`, `rtf`, `step_time_us` and `deadline_misses` stay as the plant
/// left them. They describe the machine a run happened on, not the run.
pub open spec fn replayed<K: PlantKernel, F: Fn(Operation) -> Scalar>(
    unit: &F,
    start: K::Machine,
    recorded: Seq<VehicleState>,
    dt: Scalar,
    id: u64,
    k: int,
) -> VehicleState {
    let after = track::<K, F>(unit, start, recorded, dt, (k + 1) as nat);
    let state = given::<K, F>(unit, start, recorded, dt, k as nat)->0;
    VehicleState {
        sim_time: after.sim_time,
        step_index: (k + 1) as u64,
        kernel_id: id,
        ..after.pose.placed(state)
    }
}

/// The machine a replay starts from: reset first, and then set up. A reset
/// restores the compiled-in parameter values, so tuning before it would be
/// silently undone -- and an A/B whose B side quietly reverted to A is the worst
/// failure available here, because both sides then agree.
pub open spec fn prepared<K: PlantKernel>(machine: K::Machine, config: ReplayConfig) -> Option<
    K::Machine,
> {
    let fresh = K::restarted(machine, config.initial);
    if fresh.1 {
        tuned::<K>(fresh.0, config.tunables@, config.tunables@.len())
    } else {
        None
    }
}

/// The whole recording can be replayed from here.
pub open spec fn playable<K: PlantKernel, F: Fn(Operation) -> Scalar>(
    machine: K::Machine,
    unit: &F,
    config: ReplayConfig,
    recording: TelemetryReader,
) -> bool {
    match prepared::<K>(machine, config) {
        None => false,
        Some(start) => track::<K, F>(
            unit,
            start,
            recording.frames@,
            recording.meta.step_dt,
            recording.frames@.len(),
        ).alive,
    }
}

/// The frames of a replay from here.
pub open spec fn frames_of<K: PlantKernel, F: Fn(Operation) -> Scalar>(
    machine: K::Machine,
    unit: &F,
    config: ReplayConfig,
    recording: TelemetryReader,
) -> Seq<VehicleState> {
    Seq::new(
        recording.frames@.len(),
        |k: int|
            replayed::<K, F>(
                unit,
                prepared::<K>(machine, config)->0,
                recording.frames@,
                recording.meta.step_dt,
                K::description(machine).id,
                k,
            ),
    )
}

/// The continuous states at the end of a replay from here.
pub open spec fn states_of<K: PlantKernel, F: Fn(Operation) -> Scalar>(
    machine: K::Machine,
    unit: &F,
    config: ReplayConfig,
    recording: TelemetryReader,
) -> Seq<Scalar> {
    K::states(
        track::<K, F>(
            unit,
            prepared::<K>(machine, config)->0,
            recording.frames@,
            recording.meta.step_dt,
            recording.frames@.len(),
        ).machine,
    )
}

/// `outcome` is what a replay from `machine` gives.
pub open spec fn reproduces<K: PlantKernel, F: Fn(Operation) -> Scalar>(
    outcome: ReplayOutcome,
    machine: K::Machine,
    unit: &F,
    config: ReplayConfig,
    recording: TelemetryReader,
) -> bool {
    &&& playable::<K, F>(machine, unit, config, recording)
    &&& outcome.frames@ == frames_of::<K, F>(machine, unit, config, recording)
    &&& outcome.final_state@ == states_of::<K, F>(machine, unit, config, recording)
    &&& outcome.kernel_name@ == K::description(machine).name
    &&& outcome.kernel_id == K::description(machine).id
}

/// Setting `i` is the one the plant refuses.
pub open spec fn refuses<K: PlantKernel>(
    machine: K::Machine,
    settings: Seq<TunableSetting>,
    i: int,
) -> bool {
    &&& 0 <= i < settings.len()
    &&& tuned::<K>(machine, settings, i as nat) is Some
    &&& tuned::<K>(machine, settings, (i + 1) as nat) is None
}

/// The step at which a replay from `start` breaks off.
pub open spec fn breaks_at<K: PlantKernel, F: Fn(Operation) -> Scalar>(
    unit: &F,
    start: K::Machine,
    recorded: Seq<VehicleState>,
    dt: Scalar,
    k: int,
) -> bool {
    &&& 0 <= k < recorded.len()
    &&& track::<K, F>(unit, start, recorded, dt, k as nat).alive
    &&& given::<K, F>(unit, start, recorded, dt, k as nat) is None
}

/// `why` is what a replay that came to nothing says: what the plant said, of the
/// reset, of the first setting it refused and which one that was, or of the step
/// that failed.
pub open spec fn complains<
    K: PlantKernel,
    F: Fn(Operation) -> Scalar,
    P: Fn(Scalar, usize) -> String,
>(
    why: Seq<char>,
    machine: K::Machine,
    unit: &F,
    config: ReplayConfig,
    recording: TelemetryReader,
    print: P,
) -> bool {
    let fresh = K::restarted(machine, config.initial);
    let settings = config.tunables@;
    let dt = recording.meta.step_dt;
    if !fresh.1 {
        why == K::reset_fault(machine, config.initial).explained(print)
    } else {
        match prepared::<K>(machine, config) {
            None => exists|i: int| #[trigger]
                refuses::<K>(fresh.0, settings, i) && why == settings[i].described(print) + ": "@
                    + K::tuning_fault(
                    tuned::<K>(fresh.0, settings, i as nat)->0,
                    settings[i].spec_row.id,
                    settings[i].value,
                ).explained(print),
            Some(start) => exists|k: int| #[trigger]
                breaks_at::<K, F>(unit, start, recording.frames@, dt, k) && why == K::step_fault(
                    track::<K, F>(unit, start, recording.frames@, dt, k as nat).machine,
                    command(recording.frames@[k]),
                    dt,
                ).explained(print),
        }
    }
}

// --- provenance -----------------------------------------------------------------------

/// The number of derivative evaluations a step takes.
pub open spec fn work(config: ReplayConfig) -> int {
    config.method.cost() * config.substeps
}

/// A recording is comparable with what this configuration makes of the kernel `id`:
/// it was made by the same kernel, with the same integrator, of the same vehicle.
pub open spec fn comparable(meta: SessionMeta, config: ReplayConfig, id: u64) -> bool {
    &&& meta.kernel_id == id
    &&& meta.evaluations_per_step == work(config)
    &&& meta.vehicle_hash == config.vehicle_hash
}

/// Why a recording is not comparable.
pub open spec fn objection(meta: SessionMeta, config: ReplayConfig, id: u64) -> Seq<char> {
    if meta.kernel_id != id {
        "not comparable: recorded by kernel id "@ + text::decimal(meta.kernel_id as nat)
            + ", this plant is kernel id "@ + text::decimal(id as nat)
    } else if meta.evaluations_per_step != work(config) {
        "not comparable: recorded with "@ + text::decimal(meta.evaluations_per_step as nat)
            + " evaluations per step, this integrator is another"@
    } else {
        "not comparable: recorded with vehicle "@ + text::word(meta.vehicle_hash)
            + ", this vehicle is "@ + text::word(config.vehicle_hash)
    }
}

/// Check everything a recording's header says of how it came about, before a step
/// of it is replayed. The layout was checked when it was opened, and the step size
/// is the one it is replayed at.
///
/// A recording whose provenance cannot be established is worse than no recording,
/// because it will be compared against something it was never comparable with.
pub fn check_provenance(meta: &SessionMeta, config: &ReplayConfig, id: u64) -> (verdict: Result<
    (),
    String,
>)
    ensures
        match verdict {
            Ok(_) => comparable(*meta, *config, id),
            Err(why) => !comparable(*meta, *config, id) && why@ == objection(*meta, *config, id),
        },
{
    if meta.kernel_id != id {
        let mut why: String = "not comparable: recorded by kernel id ".to_owned();
        why.append(count_text(meta.kernel_id).as_str());
        why.append(", this plant is kernel id ");
        why.append(count_text(id).as_str());
        return Err(why);
    }
    let evaluations: usize = config.method.evaluations();
    assert(evaluations * config.substeps <= 4 * usize::MAX && evaluations * config.substeps
        == work(*config)) by (nonlinear_arith)
        requires
            evaluations <= 4,
            0 <= config.substeps <= usize::MAX,
            evaluations == config.method.cost(),
            work(*config) == config.method.cost() * config.substeps,
    ;
    if meta.evaluations_per_step as u128 != evaluations as u128 * config.substeps as u128 {
        let mut why: String = "not comparable: recorded with ".to_owned();
        why.append(count_text(meta.evaluations_per_step).as_str());
        why.append(" evaluations per step, this integrator is another");
        return Err(why);
    }
    if meta.vehicle_hash != config.vehicle_hash {
        let mut why: String = "not comparable: recorded with vehicle ".to_owned();
        why.append(word_text(meta.vehicle_hash).as_str());
        why.append(", this vehicle is ");
        why.append(word_text(config.vehicle_hash).as_str());
        return Err(why);
    }
    Ok(())
}

fn copied(states: &Vec<Scalar>) -> (copy: Vec<Scalar>)
    ensures
        copy@ == states@,
{
    let mut copy: Vec<Scalar> = Vec::new();
    let mut i: usize = 0;
    while i < states.len()
        invariant
            i <= states@.len(),
            copy@ == states@.take(i as int),
        decreases states@.len() - i,
    {
        copy.push(states[i]);
        i += 1;
        assert(copy@ =~= states@.take(i as int));
    }
    assert(states@.take(states@.len() as int) =~= states@);
    copy
}

/// Replay `recording` once.
pub fn run_once<K: PlantKernel, F: Fn(Operation) -> Scalar, P: Fn(Scalar, usize) -> String>(
    plant: K,
    unit: &F,
    config: &ReplayConfig,
    recording: &TelemetryReader,
    print: &P,
) -> (outcome: Result<ReplayOutcome, String>)
    requires
        plant.well_formed(),
        K::lasts(plant.machine(), recording.frames@.len()),
        arith::functional(*unit),
        text::prints(*print),
    ensures
        match outcome {
            Ok(run) => reproduces::<K, F>(run, plant.machine(), unit, *config, *recording)
                && run.deterministic,
            Err(why) => !playable::<K, F>(plant.machine(), unit, *config, *recording)
                && complains::<K, F, P>(
                why@,
                plant.machine(),
                unit,
                *config,
                *recording,
                *print,
            ),
        },
{
    let ghost machine = plant.machine();
    let ghost total = recording.frames@.len();
    let mut kernel: K = plant;
    let caps: KernelCaps = kernel.capabilities();
    let dt: Scalar = recording.meta.step_dt;
    proof {
        K::lasting(machine, DriverInput::zero(), dt, config.initial, 0, ZERO, total);
        K::lasting_less(machine, total, 0);
    }
    match kernel.reset(&config.initial) {
        Ok(_) => {},
        Err(error) => {
            return Err(error.message(print));
        },
    }
    let ghost fresh = kernel.machine();
    let mut i: usize = 0;
    while i < config.tunables.len()
        invariant
            i <= config.tunables@.len(),
            kernel.well_formed(),
            text::prints(*print),
            machine == plant.machine(),
            total == recording.frames@.len(),
            K::lasts(kernel.machine(), total),
            fresh == K::restarted(machine, config.initial).0,
            K::restarted(machine, config.initial).1,
            tuned::<K>(fresh, config.tunables@, i as nat) == Some(kernel.machine()),
        decreases config.tunables@.len() - i,
    {
        let setting: TunableSetting = config.tunables[i];
        proof {
            K::lasting(
                kernel.machine(),
                DriverInput::zero(),
                dt,
                config.initial,
                setting.spec_row.id,
                setting.value,
                total,
            );
            K::lasting_less(kernel.machine(), total, 0);
        }
        match kernel.set_tunable(setting.spec_row.id, setting.value) {
            Ok(_) => {},
            Err(error) => {
                proof {
                    lemma_tuning_stops::<K>(
                        fresh,
                        config.tunables@,
                        (i + 1) as nat,
                        config.tunables@.len(),
                    );
                }
                let mut why: String = setting.describe(print);
                why.append(": ");
                why.append(error.message(print).as_str());
                assert(refuses::<K>(fresh, config.tunables@, i as int));
                return Err(why);
            },
        }
        i += 1;
    }
    let ghost start = kernel.machine();
    let mut pose: Pose = Pose::default();
    let mut frames: Vec<VehicleState> = Vec::new();
    let mut sim_time: Scalar = ZERO;
    let mut index: usize = 0;
    while index < recording.frames.len()
        invariant
            index <= recording.frames@.len(),
            total == recording.frames@.len(),
            machine == plant.machine(),
            dt == recording.meta.step_dt,
            kernel.well_formed(),
            arith::functional(*unit),
            text::prints(*print),
            K::lasts(kernel.machine(), (total - index) as nat),
            prepared::<K>(machine, *config) == Some(start),
            caps.described() == K::description(machine),
            track::<K, F>(unit, start, recording.frames@, dt, index as nat) == (Track {
                machine: kernel.machine(),
                pose,
                sim_time,
                alive: true,
            }),
            frames@ == frames_of::<K, F>(machine, unit, *config, *recording).take(index as int),
        decreases recording.frames@.len() - index,
    {
        let recorded: VehicleState = recording.frames[index];
        let mut input: DriverInput = DriverInput::default();
        input.steering_angle_command = recorded.steering_angle_command;
        input.accelerator_pedal_command = recorded.accelerator_pedal_command;
        input.brake_pedal_command = recorded.brake_pedal_command;
        assert(input == command(recorded));
        proof {
            K::lasting(
                kernel.machine(),
                input,
                dt,
                config.initial,
                0,
                ZERO,
                (total - index) as nat,
            );
            K::lasting_less(kernel.machine(), (total - index) as nat, 1);
        }
        let mut state: VehicleState = match kernel.step(&input, dt) {
            Ok(state) => state,
            Err(error) => {
                proof {
                    lemma_dead_stays_dead::<K, F>(
                        unit,
                        start,
                        recording.frames@,
                        dt,
                        (index + 1) as nat,
                        total,
                    );
                    assert(breaks_at::<K, F>(unit, start, recording.frames@, dt, index as int));
                }
                return Err(error.message(print));
            },
        };
        sim_time = plus(unit, sim_time, dt);
        pose.advance(unit, &state, dt);
        pose.apply(&mut state);
        state.sim_time = sim_time;
        state.step_index = index as u64 + 1;
        state.kernel_id = caps.id;
        frames.push(state);
        proof {
            let all = frames_of::<K, F>(machine, unit, *config, *recording);
            assert(state == all[index as int]);
            assert(frames@ =~= all.take(index + 1));
        }
        index += 1;
    }
    proof {
        let all = frames_of::<K, F>(machine, unit, *config, *recording);
        assert(all.take(total as int) =~= all);
    }
    Ok(
        ReplayOutcome {
            final_state: copied(kernel.state_vector()),
            frames,
            kernel_name: caps.name,
            kernel_id: caps.id,
            deterministic: true,
        },
    )
}

proof fn lemma_tuning_stops<K: PlantKernel>(
    machine: K::Machine,
    settings: Seq<TunableSetting>,
    at: nat,
    n: nat,
)
    requires
        at <= n,
        tuned::<K>(machine, settings, at) is None,
    ensures
        tuned::<K>(machine, settings, n) is None,
    decreases n,
{
    if at < n {
        lemma_tuning_stops::<K>(machine, settings, at, (n - 1) as nat);
    }
}

proof fn lemma_dead_stays_dead<K: PlantKernel, F: Fn(Operation) -> Scalar>(
    unit: &F,
    start: K::Machine,
    recorded: Seq<VehicleState>,
    dt: Scalar,
    at: nat,
    n: nat,
)
    requires
        at <= n,
        !track::<K, F>(unit, start, recorded, dt, at).alive,
    ensures
        !track::<K, F>(unit, start, recorded, dt, n).alive,
    decreases n,
{
    if at < n {
        lemma_dead_stays_dead::<K, F>(unit, start, recorded, dt, at, (n - 1) as nat);
    }
}

/// Bit-for-bit comparison of two frames, over every field.
///
/// Compares the raw bits rather than the values, so two NaNs count as the same
/// frame. A replay that produced NaN twice is reproducible -- broken, but
/// reproducible -- and calling that non-deterministic points at the wrong bug.
pub fn frames_identical(a: &VehicleState, b: &VehicleState) -> (answer: bool)
    ensures
        answer == (*a == *b),
{
    let mut index: usize = 0;
    while index < VehicleState::field_count()
        invariant
            index <= VehicleState::size(),
            forall|i: int| 0 <= i < index ==> #[trigger] a.word(i) == b.word(i),
        decreases VehicleState::size() - index,
    {
        if a.field(index) != b.field(index) {
            return false;
        }
        index += 1;
    }
    proof {
        a.words_decide(*b);
    }
    true
}

fn states_equal(a: &Vec<Scalar>, b: &Vec<Scalar>) -> (answer: bool)
    ensures
        answer == (a@ == b@),
{
    if a.len() != b.len() {
        return false;
    }
    let mut i: usize = 0;
    while i < a.len()
        invariant
            i <= a@.len(),
            a@.len() == b@.len(),
            forall|j: int| 0 <= j < i ==> a@[j] == b@[j],
        decreases a@.len() - i,
    {
        if a[i] != b[i] {
            return false;
        }
        i += 1;
    }
    assert(a@ =~= b@);
    true
}

fn runs_equal(a: &Vec<VehicleState>, b: &Vec<VehicleState>) -> (answer: bool)
    ensures
        answer == (a@ == b@),
{
    if a.len() != b.len() {
        return false;
    }
    let mut i: usize = 0;
    while i < a.len()
        invariant
            i <= a@.len(),
            a@.len() == b@.len(),
            forall|j: int| 0 <= j < i ==> a@[j] == b@[j],
        decreases a@.len() - i,
    {
        if !frames_identical(&a[i], &b[i]) {
            return false;
        }
        i += 1;
    }
    assert(a@ =~= b@);
    true
}

/// Replay `recording` on two plants built alike, and return the second run with
/// the word on whether they agree, bit for bit. A recording that is not comparable
/// with them is refused before a step is taken.
pub fn replay<K: PlantKernel, F: Fn(Operation) -> Scalar, P: Fn(Scalar, usize) -> String>(
    first: K,
    second: K,
    unit: &F,
    config: &ReplayConfig,
    recording: &TelemetryReader,
    print: &P,
) -> (outcome: Result<ReplayOutcome, String>)
    requires
        first.well_formed(),
        second.well_formed(),
        K::lasts(first.machine(), recording.frames@.len()),
        K::lasts(second.machine(), recording.frames@.len()),
        arith::functional(*unit),
        text::prints(*print),
    ensures
        ({
            let here = K::description(first.machine()).id;
            let there = K::description(second.machine()).id;
            match outcome {
                Ok(run) => {
                    &&& comparable(recording.meta, *config, here)
                    &&& comparable(recording.meta, *config, there)
                    &&& playable::<K, F>(first.machine(), unit, *config, *recording)
                    &&& reproduces::<K, F>(run, second.machine(), unit, *config, *recording)
                    &&& run.deterministic == (states_of::<K, F>(
                        first.machine(),
                        unit,
                        *config,
                        *recording,
                    ) == states_of::<K, F>(second.machine(), unit, *config, *recording)
                        && frames_of::<K, F>(first.machine(), unit, *config, *recording)
                        == frames_of::<K, F>(second.machine(), unit, *config, *recording))
                },
                Err(why) => if !comparable(recording.meta, *config, here) {
                    why@ == objection(recording.meta, *config, here)
                } else if !comparable(recording.meta, *config, there) {
                    why@ == objection(recording.meta, *config, there)
                } else if !playable::<K, F>(first.machine(), unit, *config, *recording) {
                    // The first run that fails is the one that is heard of.
                    complains::<K, F, P>(
                        why@,
                        first.machine(),
                        unit,
                        *config,
                        *recording,
                        *print,
                    )
                } else {
                    !playable::<K, F>(second.machine(), unit, *config, *recording)
                        && complains::<K, F, P>(
                        why@,
                        second.machine(),
                        unit,
                        *config,
                        *recording,
                        *print,
                    )
                },
            }
        }),
{
    match check_provenance(&recording.meta, config, first.capabilities().id) {
        Ok(_) => {},
        Err(why) => {
            return Err(why);
        },
    }
    match check_provenance(&recording.meta, config, second.capabilities().id) {
        Ok(_) => {},
        Err(why) => {
            return Err(why);
        },
    }
    let earlier: ReplayOutcome = match run_once(first, unit, config, recording, print) {
        Ok(run) => run,
        Err(why) => {
            return Err(why);
        },
    };
    let mut later: ReplayOutcome = match run_once(second, unit, config, recording, print) {
        Ok(run) => run,
        Err(why) => {
            return Err(why);
        },
    };
    later.deterministic = states_equal(&earlier.final_state, &later.final_state) && runs_equal(
        &earlier.frames,
        &later.frames,
    );
    Ok(later)
}

/// A replay as the bytes of a telemetry file that replays exactly like a
/// recording, and how many frames it holds.
pub fn write(outcome: &ReplayOutcome, meta: &SessionMeta) -> (file: (u64, Vec<u8>))
    ensures
        file.0 == outcome.frames@.len(),
        file.1@ == recorder::file(*meta, outcome.frames@),
{
    let mut sink: TelemetryRecorder = TelemetryRecorder::create(meta);
    let mut i: usize = 0;
    assert(outcome.frames@.take(0) =~= Seq::empty());
    while i < outcome.frames.len()
        invariant
            i <= outcome.frames@.len(),
            sink.well_formed(),
            sink.subject() == *meta,
            sink.gone() == Seq::<u8>::empty(),
            sink.log() == outcome.frames@.take(i as int),
        decreases outcome.frames@.len() - i,
    {
        assert(outcome.frames.len() == outcome.frames@.len());
        sink.write(&outcome.frames[i]);
        i += 1;
        assert(sink.log() =~= outcome.frames@.take(i as int));
    }
    assert(outcome.frames@.take(outcome.frames@.len() as int) =~= outcome.frames@);
    let end: (u64, Vec<u8>) = sink.finish();
    assert(Seq::<u8>::empty() + end.1@ =~= end.1@);
    end
}

// --- laws -----------------------------------------------------------------------------

/// A replay is deterministic: two plants that stand alike give the same frames
/// and end in the same state, so that the comparison says so.
pub proof fn law_a_replay_is_reproducible<K: PlantKernel, F: Fn(Operation) -> Scalar>(
    first: K::Machine,
    second: K::Machine,
    unit: &F,
    config: ReplayConfig,
    recording: TelemetryReader,
)
    requires
        first == second,
    ensures
        states_of::<K, F>(first, unit, config, recording) == states_of::<K, F>(
            second,
            unit,
            config,
            recording,
        ),
        frames_of::<K, F>(first, unit, config, recording) == frames_of::<K, F>(
            second,
            unit,
            config,
            recording,
        ),
{
}

/// Nothing but the driver's commands is taken from a recording: two recordings
/// of the same commands at the same step size replay alike, whatever else they
/// hold.
pub proof fn law_only_the_commands_count<K: PlantKernel, F: Fn(Operation) -> Scalar>(
    unit: &F,
    start: K::Machine,
    one: Seq<VehicleState>,
    other: Seq<VehicleState>,
    dt: Scalar,
    n: nat,
)
    requires
        n <= one.len(),
        n <= other.len(),
        forall|k: int|
            0 <= k < n ==> {
                &&& (#[trigger] one[k]).steering_angle_command == other[k].steering_angle_command
                &&& one[k].accelerator_pedal_command == other[k].accelerator_pedal_command
                &&& one[k].brake_pedal_command == other[k].brake_pedal_command
            },
    ensures
        track::<K, F>(unit, start, one, dt, n) == track::<K, F>(unit, start, other, dt, n),
        forall|k: nat|
            k < n ==> #[trigger] given::<K, F>(unit, start, one, dt, k) == given::<K, F>(
                unit,
                start,
                other,
                dt,
                k,
            ),
    decreases n,
{
    if n > 0 {
        law_only_the_commands_count::<K, F>(unit, start, one, other, dt, (n - 1) as nat);
        assert(command(one[n - 1]) == command(other[n - 1]));
        assert forall|k: nat| k < n implies #[trigger] given::<K, F>(unit, start, one, dt, k)
            == given::<K, F>(unit, start, other, dt, k) by {
            if k == n - 1 {
            }
        }
    }
}

/// A replayed frame is about the drive and not about the machine it was computed
/// on: it repeats the commands of the frame it replays, is numbered in turn, and
/// every field that describes a machine is zero.
pub proof fn law_a_replayed_frame_is_about_the_drive<
    K: PlantKernel,
    F: Fn(Operation) -> Scalar,
>(
    unit: &F,
    start: K::Machine,
    recorded: Seq<VehicleState>,
    dt: Scalar,
    id: u64,
    k: int,
)
    requires
        0 <= k < recorded.len() <= u64::MAX,
        track::<K, F>(unit, start, recorded, dt, recorded.len()).alive,
    ensures
        ({
            let frame = replayed::<K, F>(unit, start, recorded, dt, id, k);
            &&& plant::repeats(frame, command(recorded[k]))
            &&& frame.step_index == k + 1
            &&& frame.kernel_id == id
        }),
{
    if !track::<K, F>(unit, start, recorded, dt, (k + 1) as nat).alive {
        lemma_dead_stays_dead::<K, F>(unit, start, recorded, dt, (k + 1) as nat, recorded.len());
    }
    K::repeating(
        track::<K, F>(unit, start, recorded, dt, k as nat).machine,
        command(recorded[k]),
        dt,
    );
}

/// A replay of a replay is the same replay: what a run writes out replays, from
/// the same start and at the same step size, into the same frames.
pub proof fn law_a_replay_replays<K: PlantKernel, F: Fn(Operation) -> Scalar>(
    unit: &F,
    start: K::Machine,
    recorded: Seq<VehicleState>,
    again: Seq<VehicleState>,
    dt: Scalar,
    id: u64,
    n: nat,
)
    requires
        n <= recorded.len(),
        again.len() == n,
        forall|k: int|
            0 <= k < n ==> #[trigger] again[k] == replayed::<K, F>(unit, start, recorded, dt, id, k),
        track::<K, F>(unit, start, recorded, dt, n).alive,
    ensures
        forall|k: int|
            0 <= k < n ==> #[trigger] replayed::<K, F>(unit, start, again, dt, id, k) == again[k],
{
    assert forall|k: int| 0 <= k < n implies {
        &&& (#[trigger] recorded[k]).steering_angle_command == again[k].steering_angle_command
        &&& recorded[k].accelerator_pedal_command == again[k].accelerator_pedal_command
        &&& recorded[k].brake_pedal_command == again[k].brake_pedal_command
    } by {
        if !track::<K, F>(unit, start, recorded, dt, (k + 1) as nat).alive {
            lemma_dead_stays_dead::<K, F>(unit, start, recorded, dt, (k + 1) as nat, n);
        }
        assert(given::<K, F>(unit, start, recorded, dt, k as nat) is Some);
        K::repeating(
            track::<K, F>(unit, start, recorded, dt, k as nat).machine,
            command(recorded[k]),
            dt,
        );
    }
    assert forall|k: int| 0 <= k < n implies #[trigger] replayed::<K, F>(
        unit,
        start,
        again,
        dt,
        id,
        k,
    ) == again[k] by {
        law_only_the_commands_count::<K, F>(unit, start, recorded, again, dt, (k + 1) as nat);
    }
}

/// The frames a session published, in order.
pub open spec fn driven(turns: Seq<Turn>) -> Seq<VehicleState> {
    Seq::new(turns.len(), |i: int| turns[i].state)
}

/// Two frames of the same drive: they agree on everything but what describes the
/// machine and the wheel a run happened on, and how its steps are numbered.
pub open spec fn same_drive(live: VehicleState, replayed: VehicleState) -> bool {
    live == VehicleState {
        sim_time: live.sim_time,
        step_index: live.step_index,
        host_time_ns: live.host_time_ns,
        ffb_torque_nm: live.ffb_torque_nm,
        kernel_id: live.kernel_id,
        deadline_misses: live.deadline_misses,
        fault_flags: live.fault_flags,
        rtf: live.rtf,
        step_time_us: live.step_time_us,
        step_time_p99_us: live.step_time_p99_us,
        ..replayed
    }
}

/// A replay of a session's frames keeps step with the session.
proof fn lemma_replay_keeps_step<
    K: PlantKernel,
    F: Fn(Operation) -> Scalar,
    P: Fn(Scalar, usize) -> String,
>(
    wires: Wires<F, P>,
    story: Seq<Moment<K::Machine>>,
    turns: Seq<Turn>,
    n: int,
)
    requires
        wires.tells::<K>(story, turns),
        story[0].session.pose == Pose::origin(),
        story[0].session.sim_time == ZERO,
        0 <= n <= turns.len(),
    ensures
        ({
            let at = track::<K, F>(
                &wires.unit,
                story[0].machine,
                driven(turns),
                story[0].session.dt,
                n as nat,
            );
            &&& at.machine == story[n].machine
            &&& at.pose == story[n].session.pose
            &&& at.sim_time == story[n].session.sim_time
            &&& at.alive
        }),
    decreases n,
{
    if n > 0 {
        lemma_replay_keeps_step::<K, F, P>(wires, story, turns, n - 1);
        loop_runner::lemma_along_a_run::<K, F, P>(wires, story, turns, n - 1);
        let before = story[n - 1];
        let turn = turns[n - 1];
        assert(wires.turns::<K>(before, turn, story[n - 1 + 1]));
        let fed = before.session.given(&wires.unit, turn.input);
        let stepped = K::advanced(before.machine, fed, before.session.dt);
        assert(stepped.1 is Some);
        K::repeating(before.machine, fed, before.session.dt);
        assert(command(driven(turns)[n - 1]) == plant::asked(fed));
        assert(K::advanced(before.machine, plant::asked(fed), before.session.dt) == stepped);
    }
}

/// A drive can be replayed: fed nothing but the frames a session published, a
/// plant that starts where the session's did takes the same course, frame by
/// frame, to the last bit.
pub proof fn law_a_session_replays<
    K: PlantKernel,
    F: Fn(Operation) -> Scalar,
    P: Fn(Scalar, usize) -> String,
>(
    wires: Wires<F, P>,
    story: Seq<Moment<K::Machine>>,
    turns: Seq<Turn>,
    id: u64,
    k: int,
)
    requires
        wires.tells::<K>(story, turns),
        story[0].session.pose == Pose::origin(),
        story[0].session.sim_time == ZERO,
        0 <= k < turns.len(),
    ensures
        track::<K, F>(
            &wires.unit,
            story[0].machine,
            driven(turns),
            story[0].session.dt,
            turns.len(),
        ).alive,
        same_drive(
            turns[k].state,
            replayed::<K, F>(
                &wires.unit,
                story[0].machine,
                driven(turns),
                story[0].session.dt,
                id,
                k,
            ),
        ),
{
    lemma_replay_keeps_step::<K, F, P>(wires, story, turns, turns.len() as int);
    lemma_replay_keeps_step::<K, F, P>(wires, story, turns, k);
    lemma_replay_keeps_step::<K, F, P>(wires, story, turns, k + 1);
    loop_runner::lemma_along_a_run::<K, F, P>(wires, story, turns, k);
    let before = story[k];
    let turn = turns[k];
    assert(wires.turns::<K>(before, turn, story[k + 1]));
    let fed = before.session.given(&wires.unit, turn.input);
    let stepped = K::advanced(before.machine, fed, before.session.dt);
    K::repeating(before.machine, fed, before.session.dt);
    assert(command(driven(turns)[k]) == plant::asked(fed));
    assert(K::advanced(before.machine, plant::asked(fed), before.session.dt) == stepped);
}

} // verus!
