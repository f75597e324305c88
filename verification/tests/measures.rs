//! Step times, the realtime factor, and dead reckoning.

use bobdil_kernel::arith::{Operation, NAN};
use bobdil_kernel::generated::frames::VehicleState;
use bobdil_kernel::metrics::{RealtimeFactor, StepTimeHistogram};
use bobdil_kernel::pose::Pose;
use bobdil_kernel::text::SHORTEST;

fn bits(x: f64) -> u64 {
    if x.is_nan() {
        NAN
    } else {
        x.to_bits()
    }
}

fn float(x: u64) -> f64 {
    f64::from_bits(x)
}

/// The platform's own arithmetic, with one word for every NaN.
fn host(operation: Operation) -> u64 {
    bits(match operation {
        Operation::Count(n) => n as f64,
        Operation::WideCount(n) => n as f64,
        Operation::Add(a, b) => float(a) + float(b),
        Operation::Sub(a, b) => float(a) - float(b),
        Operation::Mul(a, b) => float(a) * float(b),
        Operation::Div(a, b) => float(a) / float(b),
        Operation::Rem(a, b) => float(a) % float(b),
        Operation::Power(a, b) => float(a).powf(float(b)),
        Operation::Root(a) => float(a).sqrt(),
        Operation::Sine(a) => float(a).sin(),
        Operation::Cosine(a) => float(a).cos(),
        Operation::Tangent(a) => float(a).tan(),
        Operation::ArcTangent(a) => float(a).atan(),
        Operation::HyperbolicTangent(a) => float(a).tanh(),
    })
}

fn show(x: u64, decimals: usize) -> String {
    if decimals == SHORTEST {
        format!("{}", float(x))
    } else {
        format!("{:.*}", decimals, float(x))
    }
}

#[test]
fn percentiles_track_a_known_distribution() {
    let mut histogram = StepTimeHistogram::new(2_000_000, 1_000);
    for _ in 0..990 {
        histogram.record(100_000); // 100 us
    }
    for _ in 0..10 {
        histogram.record(900_000); // 900 us
    }
    assert_eq!(histogram.count(), 1000);
    assert!(histogram.percentile_ns(&host, bits(0.50)) <= 101_000);
    assert!(histogram.percentile_ns(&host, bits(0.999)) >= 900_000);
    assert_eq!(histogram.max_ns(), 900_000);
}

/// A tail that runs off the end of the histogram must never be reported as
/// smaller than it was. Under-reporting the tail is the one failure mode
/// that would make the timing gate meaningless.
#[test]
fn a_tail_past_the_histogram_range_is_not_under_reported() {
    let mut histogram = StepTimeHistogram::new(500_000, 1_000);
    for _ in 0..999 {
        histogram.record(50_000);
    }
    histogram.record(40_000_000); // a 40 ms stall
    assert_eq!(histogram.max_ns(), 40_000_000);
    assert_eq!(
        histogram.percentile_ns(&host, bits(1.0)),
        40_000_000,
        "the worst case must survive falling outside the histogram"
    );
}

#[test]
fn an_empty_histogram_reports_zero_rather_than_dividing_by_zero() {
    let histogram = StepTimeHistogram::new(1_000_000, 1_000);
    assert_eq!(histogram.percentile_ns(&host, bits(0.99)), 0);
    assert_eq!(float(histogram.mean_ns(&host)), 0.0);
}

#[test]
fn realtime_factor_detects_a_loop_running_at_half_speed() {
    let mut rtf = RealtimeFactor::new(1_000_000_000);
    rtf.start(0, bits(0.0));
    // One second of wall clock in which the plant advanced half a second.
    let value = float(rtf.update(&host, 1_000_000_000, bits(0.5)));
    assert!((value - 0.5).abs() < 1e-9, "expected 0.5, got {value}");
}

#[test]
fn realtime_factor_is_one_when_the_loop_keeps_up() {
    let mut rtf = RealtimeFactor::new(1_000_000_000);
    rtf.start(0, bits(0.0));
    let value = float(rtf.update(&host, 1_000_000_000, bits(1.0)));
    assert!((value - 1.0).abs() < 1e-9);
}

#[test]
fn a_summary_is_one_line_in_microseconds() {
    let mut histogram = StepTimeHistogram::new(1_000_000, 1_000);
    histogram.record(10_500);
    histogram.record(19_500);
    assert_eq!(
        histogram.summary_us(&host, &show),
        "n=2 mean=15.0 p50=11.0 p99=20.0 p99.9=20.0 max=19.5 us"
    );
    histogram.reset();
    assert_eq!(histogram.count(), 0);
    assert_eq!(histogram.max_ns(), 0);
}

// --- pose ----------------------------------------------------------------------------------

fn frame(vel_x: f64, vel_y: f64, yaw_vel: f64) -> VehicleState {
    VehicleState {
        vel_x: bits(vel_x),
        vel_y: bits(vel_y),
        yaw_vel: bits(yaw_vel),
        ..Default::default()
    }
}

#[test]
fn straight_ahead_advances_x_only() {
    let mut pose = Pose::default();
    for _ in 0..1000 {
        pose.advance(&host, &frame(10.0, 0.0, 0.0), bits(1e-3));
    }
    assert!((float(pose.x) - 10.0).abs() < 1e-9);
    assert!(float(pose.y).abs() < 1e-12);
    assert_eq!(float(pose.yaw), 0.0);
}

#[test]
fn a_constant_yaw_rate_closes_a_circle() {
    // 10 m/s at 1 rad/s is a 10 m radius circle; one full turn takes 2*pi s.
    let mut pose = Pose::default();
    // dt derived from the step count, not the other way round: a truncated
    // count leaves the circle a fraction of a step short, and the test then
    // measures the truncation rather than the integrator.
    let steps = 62_832;
    let dt = std::f64::consts::TAU / steps as f64;
    for _ in 0..steps {
        pose.advance(&host, &frame(10.0, 0.0, 1.0), bits(dt));
    }
    // First-order integration of a circle leaves a small radial error; it
    // must be small, and it must not be a drift in the heading.
    assert!(float(pose.x).hypot(float(pose.y)) < 0.05, "closed to {:?}", pose);
    assert!((float(pose.yaw) - std::f64::consts::TAU).abs() < 1e-6);
}

#[test]
fn lateral_velocity_moves_the_car_sideways_in_the_world_frame() {
    let mut pose = Pose {
        yaw: bits(std::f64::consts::FRAC_PI_2),
        ..Default::default()
    };
    pose.advance(&host, &frame(0.0, 1.0, 0.0), bits(1.0));
    // Heading is +90 degrees, so body +y points at world -x.
    assert!((float(pose.x) + 1.0).abs() < 1e-12);
    assert!(float(pose.y).abs() < 1e-12);
}

#[test]
fn apply_writes_every_pose_field_into_the_frame() {
    let pose = Pose {
        x: bits(1.0),
        y: bits(2.0),
        yaw: bits(3.0),
    };
    let mut state = VehicleState::default();
    pose.apply(&mut state);
    assert_eq!(
        (float(state.pos_x), float(state.pos_y), float(state.yaw)),
        (1.0, 2.0, 3.0)
    );
}

#[test]
fn the_lowest_quantile_is_that_of_a_sample() {
    let mut histogram = StepTimeHistogram::new(1_000_000, 1_000);
    histogram.record(5_500);
    assert_eq!(histogram.percentile_ns(&host, bits(0.0)), 6_000);
    assert_eq!(histogram.percentile_ns(&host, bits(1.0)), 6_000);
    histogram.record(100);
    assert_eq!(histogram.percentile_ns(&host, bits(0.0)), 1_000);
}

#[test]
fn the_whole_is_never_below_the_largest_sample() {
    let mut histogram = StepTimeHistogram::new(10_000, 1_000);
    for sample in [2_500, 9_999, 400, 9_999] {
        histogram.record(sample);
    }
    assert_eq!(histogram.percentile_ns(&host, bits(1.0)), 10_000);
    histogram.record(10_001);
    assert_eq!(histogram.percentile_ns(&host, bits(1.0)), 10_001);
    assert_eq!(histogram.max_ns(), 10_001);
}

#[test]
fn the_order_of_samples_does_not_matter() {
    let samples = [700u64, 12_000, 3_300, 3_300, 95_000, 41];
    let mut one = StepTimeHistogram::new(20_000, 1_000);
    let mut other = StepTimeHistogram::new(20_000, 1_000);
    for sample in samples {
        one.record(sample);
    }
    for sample in samples.iter().rev() {
        other.record(*sample);
    }
    assert_eq!(one.count(), other.count());
    assert_eq!(one.max_ns(), other.max_ns());
    assert_eq!(one.mean_ns(&host), other.mean_ns(&host));
    for quantile in [0.0, 0.3, 0.5, 0.9, 1.0] {
        assert_eq!(
            one.percentile_ns(&host, bits(quantile)),
            other.percentile_ns(&host, bits(quantile))
        );
    }
}
