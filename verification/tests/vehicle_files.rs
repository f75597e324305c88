//! Manifests of compiled vehicle models, and the protocol they are driven by.

use bobdil_kernel::generated::frames::{
    vehicle_state_fmi_signal, DriverInput, Frame, VehicleState, FMI_SIGNAL_COUNT,
};
use bobdil_kernel::plant::fmi2::{
    crossed_event_indicator, status_name, status_ok, STATUS_DISCARD, STATUS_OK, STATUS_WARNING,
};
use bobdil_kernel::plant::fmu_me::{join_path, read_outputs, write_field, PlantManifest};
use bobdil_kernel::plant::PlantError;


const SAMPLE: &str = "\
# written by session/bobdil/vehicle_build.py
model_identifier=BobLib_Experiments_Standards_VehicleFMI
guid={abc-123}
library=binaries/linux64/VehicleFMI.so
resources=resources
states=412
event_indicators=88
vehicle_hash=0xfeedface
vref:steeringAngleCommand=17
vref:acceleratorPedalCommand=18
vref:brakePedalCommand=19
vref:handwheelTorque=204
vref:accY=207
tunable:0=990
";

/// Relative paths start in a working directory of our own.
fn resolve(path: &str) -> String {
    if path.starts_with('/') {
        path.to_string()
    } else {
        format!("/work/{path}")
    }
}

fn parsed(text: &str, base: &str) -> Result<PlantManifest, String> {
    PlantManifest::parse(text, base, &resolve)
}

#[test]
fn a_relative_resources_path_becomes_an_absolute_uri() {
    let manifest = parsed(SAMPLE, "/tmp/fmu").unwrap();
    assert_eq!(manifest.resource_uri, "file:///tmp/fmu/resources");
}

#[test]
fn the_uri_follows_the_directory_the_fmu_was_found_in() {
    // The defect this guards: a manifest written in the container recorded
    // /workspace/... and the host loaded it verbatim, pointing fmi2Instantiate
    // at a directory that does not exist.
    let manifest = parsed(SAMPLE, "/home/a/build/x").unwrap();
    assert_eq!(manifest.resource_uri, "file:///home/a/build/x/resources");
}

#[test]
fn a_relative_plant_directory_still_yields_an_absolute_uri() {
    // `file://build/x/resources` parses `build` as the authority and hands
    // the FMU `/x/resources`. The real vehicle failed exactly this way.
    let manifest = parsed(SAMPLE, "build/x").unwrap();
    assert!(
        manifest.resource_uri.starts_with("file:///"),
        "{}",
        manifest.resource_uri
    );
    assert!(manifest.resource_uri.ends_with("/build/x/resources"));
}

#[test]
fn an_already_absolute_uri_is_left_alone() {
    let text = SAMPLE.replace(
        "resources=resources",
        "resources=file:///elsewhere/resources",
    );
    let manifest = parsed(&text, "/tmp/fmu").unwrap();
    assert_eq!(manifest.resource_uri, "file:///elsewhere/resources");
}

#[test]
fn a_path_with_a_space_is_percent_encoded() {
    let manifest = parsed(SAMPLE, "/home/My Cars/fmu").unwrap();
    assert_eq!(
        manifest.resource_uri,
        "file:///home/My%20Cars/fmu/resources"
    );
}

#[test]
fn a_manifest_resolves_inputs_outputs_and_tunables() {
    let manifest = parsed(SAMPLE, "/tmp/fmu").unwrap();
    assert_eq!(
        manifest.model_identifier,
        "BobLib_Experiments_Standards_VehicleFMI"
    );
    assert_eq!(manifest.continuous_states, 412);
    assert_eq!(manifest.event_indicators, 88);
    assert_eq!(manifest.vehicle_hash, 0xfeed_face);
    assert_eq!(manifest.library, "/tmp/fmu/binaries/linux64/VehicleFMI.so");
    assert_eq!(manifest.value_reference("steeringAngleCommand"), Some(17));
    assert_eq!(manifest.value_reference("handwheelTorque"), Some(204));
    assert_eq!(manifest.tunables.get(&0), Some(&990));
}

#[test]
fn a_manifest_without_states_is_rejected() {
    let text = SAMPLE.replace("states=412", "states=0");
    let error = parsed(&text, "/tmp").unwrap_err();
    assert!(error.contains("zero continuous states"), "{error}");
}

#[test]
fn a_manifest_without_a_model_identifier_is_rejected() {
    let text = SAMPLE.replace(
        "model_identifier=BobLib_Experiments_Standards_VehicleFMI\n",
        "",
    );
    assert!(parsed(&text, "/tmp").is_err());
}

#[test]
fn comments_and_blank_lines_are_ignored() {
    let text = format!("\n\n# a comment\n{SAMPLE}\n\n");
    assert!(parsed(&text, "/tmp").is_ok());
}

#[test]
fn a_line_that_says_nothing_changes_nothing() {
    let plain = parsed(SAMPLE, "/tmp").unwrap();
    let spaced = parsed(&SAMPLE.replace('\n', "\n   \n  # states=3\n"), "/tmp").unwrap();
    assert_eq!(spaced.model_identifier, plain.model_identifier);
    assert_eq!(spaced.continuous_states, 412);
    assert_eq!(spaced.resource_uri, plain.resource_uri);
    assert_eq!(spaced.value_references, plain.value_references);
    assert_eq!(spaced.tunables, plain.tunables);
    assert_eq!(spaced.vehicle_hash, plain.vehicle_hash);
}

/// The field writer and the generated field reader must agree, or an FMU
/// output would land in the wrong place with no error anywhere.
#[test]
fn every_fmi_backed_field_can_be_written_and_read_back() {
    for slot in 0..FMI_SIGNAL_COUNT {
        let (name, index) = vehicle_state_fmi_signal(slot);
        let mut state = VehicleState::default();
        write_field(&mut state, index, 42.5f64.to_bits());
        assert_eq!(
            f64::from_bits(state.field(index)),
            42.5,
            "{name} (field {index}) is not wired into write_field"
        );
    }
}

#[test]
fn a_malformed_line_is_refused_with_its_number() {
    let error = parsed("model_identifier\n", "/tmp").unwrap_err();
    assert!(error.contains('1'), "{error}");
}

#[test]
fn a_manifest_must_name_every_input() {
    let complete = parsed(SAMPLE, "/tmp").unwrap();
    assert_eq!(complete.input_references().unwrap(), vec![17, 18, 19]);
    let text = SAMPLE.replace("vref:brakePedalCommand=19\n", "");
    let partial = parsed(&text, "/tmp").unwrap();
    assert!(matches!(
        partial.input_references(),
        Err(PlantError::Load { .. })
    ));
}

#[test]
fn outputs_land_in_the_fields_they_are_named_for() {
    let manifest = parsed(SAMPLE, "/tmp").unwrap();
    let references = manifest.output_references();
    assert_eq!(references.len(), 2);
    let values: Vec<u64> = references.iter().map(|(r, _)| (*r as f64).to_bits()).collect();
    let state = read_outputs(
        1.5f64.to_bits(),
        9,
        &DriverInput::default(),
        1,
        &references,
        &values,
    );
    assert_eq!(f64::from_bits(state.handwheel_torque), 204.0);
    assert_eq!(f64::from_bits(state.acc_y), 207.0);
    assert_eq!(f64::from_bits(state.sim_time), 1.5);
    assert_eq!(state.step_index, 9);
}

#[test]
fn a_tunable_that_is_not_mapped_is_refused() {
    let manifest = parsed(SAMPLE, "/tmp").unwrap();
    assert_eq!(manifest.tunable_reference(0, 1000.0f64.to_bits()).unwrap(), 990);
    assert!(manifest.tunable_reference(1, 1000.0f64.to_bits()).is_err());
    assert!(manifest.tunable_reference(0, (-1.0f64).to_bits()).is_err());
    assert!(manifest.tunable_reference(77, 0).is_err());
}

#[test]
fn paths_are_joined_unless_they_are_absolute() {
    assert_eq!(join_path("/a", "b"), "/a/b");
    assert_eq!(join_path("/a/", "b"), "/a/b");
    assert_eq!(join_path("/a", "/b"), "/b");
    assert_eq!(join_path("", "b"), "b");
}

#[test]
fn a_warning_is_not_a_failure() {
    assert!(status_ok(STATUS_OK));
    assert!(status_ok(STATUS_WARNING));
    assert!(!status_ok(STATUS_DISCARD));
    assert_eq!(status_name(STATUS_DISCARD), "discard");
}

#[test]
fn an_indicator_that_changes_sign_is_an_event() {
    let one = 1.0f64.to_bits();
    let minus = (-1.0f64).to_bits();
    assert!(crossed_event_indicator(&vec![one], &vec![minus]));
    assert!(!crossed_event_indicator(&vec![one, minus], &vec![one, minus]));
}
