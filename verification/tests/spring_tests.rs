use iconimation::spring::{AnimatedValue, AnimatedValueType, Spring};
use iconimation::spring2cubic::{cubic_approximation, num_frames};
use iconimation::fixed::FX_ONE;

const FRAME_RATE: i64 = 60_000_000;

fn time_of(frame: i64) -> i64 {
    // frame / 60 seconds, in micro-seconds
    frame * FX_ONE / 60
}

#[test]
fn from_zero_to_100() {
    let spring = Spring::expressive_spatial();

    // 60fps, run until complete or 5s
    let mut animated_value = AnimatedValue::new(0, 100 * FX_ONE, AnimatedValueType::Scale);
    let mut frame_values = Vec::new();
    for frame in 0..300i64 {
        animated_value = spring.update(time_of(frame), animated_value);
        frame_values.push(animated_value);
        if animated_value.is_at_equilibrium() {
            break;
        }
    }

    assert!(frame_values.len() < 50, "Should finish within 50 frames");
    let max = frame_values.iter().map(|v| v.value).max().unwrap();
    assert!(max > 100 * FX_ONE, "Should overshoot");
    assert_eq!(frame_values.first().unwrap().value, 0, "Should start at the beginning");
    let end = frame_values.last().unwrap().value;
    assert!((end - 100 * FX_ONE).abs() < 1000, "Should end very near the end");
}

#[test]
fn presets_settle_within_the_cap() {
    // Equilibrium is reached within five simulated seconds for every preset,
    // even across a travel of a million units.
    let presets = [
        Spring::standard(),
        Spring::smooth_spatial(),
        Spring::smooth_non_spatial(),
        Spring::expressive_spatial(),
        Spring::expressive_non_spatial(),
    ];
    let kinds = [
        AnimatedValueType::Position,
        AnimatedValueType::Rotation,
        AnimatedValueType::Scale,
    ];
    for spring in presets {
        for kind in kinds {
            let animation = AnimatedValue::new(0, 1_000_000 * FX_ONE, kind);
            let n = num_frames(FRAME_RATE, animation, spring).unwrap();
            assert!(n <= 300, "preset should settle quickly, took {n}");
        }
    }
}

#[test]
fn hand_tuned_expansion_scales_to_the_settling_frame() {
    let spring = Spring::expressive_spatial();
    let animation = AnimatedValue::new(0, 100 * FX_ONE, AnimatedValueType::Scale);
    let cubics = cubic_approximation(FRAME_RATE, animation, spring).unwrap();
    assert_eq!(cubics.len(), 2, "the expressive template has two segments");
    let frames = num_frames(FRAME_RATE, animation, spring).unwrap();
    // The template x axis ends at 42 frames and is scaled to the settling frame.
    assert_eq!(cubics[1].p3.x, 42_000_000 * frames / 42);
    // y is mapped 0..100 onto 0..100 here, so the final value is the target.
    assert_eq!(cubics[1].p3.y, 100 * FX_ONE);
    assert_eq!(cubics[0].p0.x, 0);
    assert_eq!(cubics[0].p0.y, 0);
}

#[test]
fn unknown_spring_has_no_hand_tuned_curve() {
    let odd = Spring::new(2 * FX_ONE, 380 * FX_ONE).unwrap();
    let animation = AnimatedValue::new(0, 100 * FX_ONE, AnimatedValueType::Scale);
    assert!(matches!(
        cubic_approximation(FRAME_RATE, animation, odd),
        Err(iconimation::error::CubicApproximationError::UnrecognizedSpring)
    ));
}

#[test]
fn negative_damping_is_refused() {
    assert!(matches!(
        Spring::new(-1, 380 * FX_ONE),
        Err(iconimation::error::SpringBuildError::InvalidDamping)
    ));
}
