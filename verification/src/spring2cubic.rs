//! Cubic easing segments for spring motion: hand-tuned curves per preset,
//! scaled onto the frame span that the simulated spring needs to settle.

use vstd::prelude::*;
use crate::error::CubicApproximationError;
use crate::fixed::{FX_ONE, clamped, spec_sub, spec_mul_div, spec_div, fx_sub, fx_mul_div, fx_div};
use crate::geom::{Point, CubicBez};
use crate::spring::{Spring, AnimatedValue, spec_update, spec_at_equilibrium};

verus! {

/// The hard time cap of the simulation, in micro-seconds.
pub const TIME_LIMIT: i64 = 5_000_000;

/// The cap on the frame rate a simulation accepts, in micro-units (1000 fps).
pub const MAX_FRAME_RATE: i64 = 1_000_000_000;

/// The hand-tuned curve of a recognized preset: x spans frames up to the
/// frame of equilibrium, y runs 0 to 100.
#[verifier::opaque]
pub open spec fn spec_handwritten_cubic(spring: Spring) -> Option<Seq<CubicBez>> {
    if spring == Spring::standard() {
        Some(
            seq![
                CubicBez {
                    p0: Point { x: 0i64, y: 0i64 },
                    p1: Point { x: 13_000_000i64, y: 100_000_000i64 },
                    p2: Point { x: 0i64, y: 100_000_000i64 },
                    p3: Point { x: 43_000_000i64, y: 100_000_000i64 },
                },
            ],
        )
    } else if spring == Spring::smooth_spatial() {
        Some(
            seq![
                CubicBez {
                    p0: Point { x: 0i64, y: 0i64 },
                    p1: Point { x: 20_000_000i64, y: 100_000_000i64 },
                    p2: Point { x: 0i64, y: 100_000_000i64 },
                    p3: Point { x: 61_000_000i64, y: 100_000_000i64 },
                },
            ],
        )
    } else if spring == Spring::expressive_spatial() {
        Some(
            seq![
                CubicBez {
                    p0: Point { x: 0i64, y: 0i64 },
                    p1: Point { x: 5_000_000i64, y: 15_000_000i64 },
                    p2: Point { x: 3_000_000i64, y: 101_540_000i64 },
                    p3: Point { x: 15_500_000i64, y: 101_540_000i64 },
                },
                CubicBez {
                    p0: Point { x: 15_500_000i64, y: 101_540_000i64 },
                    p1: Point { x: 21_000_000i64, y: 101_540_000i64 },
                    p2: Point { x: 21_000_000i64, y: 99_000_000i64 },
                    p3: Point { x: 42_000_000i64, y: 100_000_000i64 },
                },
            ],
        )
    } else {
        None
    }
}

/// Hand-written curves per preset, x in frames to equilibrium, y in 0..100.
pub fn handwritten_cubic(spring: Spring) -> (r: Result<Vec<CubicBez>, CubicApproximationError>)
    ensures
        match r {
            Ok(cs) => spec_handwritten_cubic(spring) == Some(cs@),
            Err(e) => spec_handwritten_cubic(spring) is None && e
                == CubicApproximationError::UnrecognizedSpring,
        },
{
    proof {
        reveal(spec_handwritten_cubic);
    }
    // Several presets share one shape with `standard`.
    if spring == Spring::standard() {
        let mut v: Vec<CubicBez> = Vec::new();
        v.push(
            CubicBez {
                p0: Point { x: 0, y: 0 },
                p1: Point { x: 13_000_000, y: 100_000_000 },
                p2: Point { x: 0, y: 100_000_000 },
                p3: Point { x: 43_000_000, y: 100_000_000 },
            },
        );
        proof {
            assert(v@ =~= spec_handwritten_cubic(spring).unwrap());
        }
        Ok(v)
    } else if spring == Spring::smooth_spatial() {
        let mut v: Vec<CubicBez> = Vec::new();
        v.push(
            CubicBez {
                p0: Point { x: 0, y: 0 },
                p1: Point { x: 20_000_000, y: 100_000_000 },
                p2: Point { x: 0, y: 100_000_000 },
                p3: Point { x: 61_000_000, y: 100_000_000 },
            },
        );
        proof {
            assert(v@ =~= spec_handwritten_cubic(spring).unwrap());
        }
        Ok(v)
    } else if spring == Spring::expressive_spatial() {
        let mut v: Vec<CubicBez> = Vec::new();
        v.push(
            CubicBez {
                p0: Point { x: 0, y: 0 },
                p1: Point { x: 5_000_000, y: 15_000_000 },
                p2: Point { x: 3_000_000, y: 101_540_000 },
                p3: Point { x: 15_500_000, y: 101_540_000 },
            },
        );
        v.push(
            CubicBez {
                p0: Point { x: 15_500_000, y: 101_540_000 },
                p1: Point { x: 21_000_000, y: 101_540_000 },
                p2: Point { x: 21_000_000, y: 99_000_000 },
                p3: Point { x: 42_000_000, y: 100_000_000 },
            },
        );
        proof {
            assert(v@ =~= spec_handwritten_cubic(spring).unwrap());
        }
        Ok(v)
    } else {
        Err(CubicApproximationError::UnrecognizedSpring)
    }
}

/// The simulation time of a frame counter, in micro-seconds.
pub open spec fn spec_time_of_frame(frame: int, frame_rate: int) -> int {
    spec_div(spec_mul_div(frame, FX_ONE as int, 1), frame_rate)
}

fn time_of_frame(frame: i64, frame_rate: i64) -> (t: i64)
    ensures
        t as int == spec_time_of_frame(frame as int, frame_rate as int),
{
    fx_div(fx_mul_div(frame, FX_ONE, 1), frame_rate)
}

/// The simulation, still unsettled, passed the time cap at frame `fe`.
pub open spec fn ran_too_long_at(s: Spring, a: AnimatedValue, frame_rate: int, fe: int) -> bool {
    &&& 0 <= fe
    &&& spec_time_of_frame(fe, frame_rate) > TIME_LIMIT as int
    &&& forall|m: int| 0 <= m <= fe ==> !sim_settled(s, a, frame_rate, m)
    &&& forall|m: int| 0 <= m < fe ==> spec_time_of_frame(m, frame_rate) <= TIME_LIMIT as int
}

/// Whether the simulation is settled after `m` whole frames.
pub open spec fn sim_settled(s: Spring, a: AnimatedValue, frame_rate: int, m: int) -> bool {
    spec_at_equilibrium(spec_sim(s, a, frame_rate, m as nat))
}

/// The simulated state after `n` whole frames at the given rate.
pub open spec fn spec_sim(s: Spring, a: AnimatedValue, frame_rate: int, n: nat) -> AnimatedValue
    decreases n,
{
    if n == 0 {
        a
    } else {
        spec_update(
            s,
            spec_time_of_frame(n - 1, frame_rate),
            spec_sim(s, a, frame_rate, (n - 1) as nat),
        )
    }
}

/// Runs the animation to equilibrium and counts the frames it takes; fails
/// once the simulated clock passes the five-second cap.
#[verifier::loop_isolation(false)]
#[verifier::rlimit(100)]
pub fn num_frames(frame_rate: i64, animation: AnimatedValue, spring: Spring) -> (r: Result<
    i64,
    CubicApproximationError,
>)
    requires
        0 < frame_rate <= MAX_FRAME_RATE,
    ensures
        match r {
            Ok(n) => {
                &&& 0 <= n
                &&& sim_settled(spring, animation, frame_rate as int, n as int)
                &&& forall|m: int| 0 <= m < n ==> !sim_settled(spring, animation, frame_rate as int, m)
                &&& forall|m: int|
                    0 <= m < n ==> spec_time_of_frame(m, frame_rate as int) <= TIME_LIMIT as int
            },
            Err(e) => {
                &&& e == CubicApproximationError::RanTooLong
                &&& exists|fe: int|
                    #[trigger] ran_too_long_at(spring, animation, frame_rate as int, fe)
            },
        },
{
    let mut animated_value = animation;
    let mut frame: i64 = 0;
    while frame <= 5001
        invariant
            0 <= frame <= 5002,
            animated_value == spec_sim(spring, animation, frame_rate as int, frame as nat),
            forall|m: int| 0 <= m < frame ==> !sim_settled(spring, animation, frame_rate as int, m),
            forall|m: int|
                0 <= m < frame ==> spec_time_of_frame(m, frame_rate as int) <= TIME_LIMIT as int,
        decreases 5002 - frame,
    {
        if animated_value.is_at_equilibrium() {
            return Ok(frame);
        }
        let time = time_of_frame(frame, frame_rate);
        if time > TIME_LIMIT {
            proof {
                assert(!sim_settled(spring, animation, frame_rate as int, frame as int));
                assert(spec_time_of_frame(frame as int, frame_rate as int) > TIME_LIMIT as int);
                assert forall|m: int| 0 <= m <= frame as int implies !sim_settled(
                    spring,
                    animation,
                    frame_rate as int,
                    m,
                ) by {}
                assert(ran_too_long_at(spring, animation, frame_rate as int, frame as int));
            }
            return Err(CubicApproximationError::RanTooLong);
        }
        animated_value = spring.update(time, animated_value);
        frame = frame + 1;
    }
    // At 1000 fps at most, frame 5001 already passes the five-second cap, so
    // the loop cannot run out.
    proof {
        assert(frame == 5002);
        assert(!sim_settled(spring, animation, frame_rate as int, 5001)
            && spec_time_of_frame(5001, frame_rate as int) <= TIME_LIMIT as int);
        lemma_time_exceeds(frame_rate as int);
        assert(false);
    }
    Err(CubicApproximationError::RanTooLong)
}

/// At any accepted frame rate, frame 5001 lies beyond the time cap.
proof fn lemma_time_exceeds(frame_rate: int)
    requires
        0 < frame_rate <= MAX_FRAME_RATE as int,
    ensures
        spec_time_of_frame(5001, frame_rate) > TIME_LIMIT as int,
{
    let fm = spec_mul_div(5001, FX_ONE as int, 1);
    assert(fm == 5_001_000_000int);
    assert(spec_time_of_frame(5001, frame_rate) == clamped(
        (5_001_000_000int * FX_ONE as int) / frame_rate,
    ));
    vstd::arithmetic::div_mod::lemma_div_is_ordered_by_denominator(
        5_001_000_000_000_000int,
        frame_rate,
        MAX_FRAME_RATE as int,
    );
    assert(5_001_000_000_000_000int / MAX_FRAME_RATE as int == 5_001_000int);
}

/// The cubic segments are the recognized preset's template scaled onto the
/// simulated frame span: the simulation settles first at frame `n`, the
/// template's x axis is scaled to cover those `n` frames, and its y axis is
/// mapped from `0..100` onto the animated value's travel.
#[verifier::opaque]
pub open spec fn cubics_approximate(
    cs: Seq<CubicBez>,
    spring: Spring,
    animation: AnimatedValue,
    frame_rate: int,
) -> bool {
    exists|n: int|
        #![trigger sim_settled(spring, animation, frame_rate, n)]
        {
            let template = spec_handwritten_cubic(spring).unwrap();
            &&& 0 <= n
            &&& sim_settled(spring, animation, frame_rate, n)
            &&& forall|m: int| 0 <= m < n ==> !sim_settled(spring, animation, frame_rate, m)
            &&& cs.len() == template.len()
            &&& forall|i: int|
                0 <= i < template.len() ==> cs[i] == spec_scale_cubic(
                    #[trigger] template[i],
                    spec_mul_div(n, FX_ONE as int, 1),
                    template.last().p3.x as int,
                    animation.value as int,
                    animation.final_value as int,
                )
        }
}

/// One template cubic point carried onto the target frame span and value
/// range: x scaled by `frames / end_x`, y affinely mapped from `0..100` to
/// `from..to`.
pub open spec fn spec_scale_point(p: Point, frames_fx: int, end_x: int, from: int, to: int) -> Point
    recommends
        end_x > 0,
{
    Point {
        x: spec_mul_div(p.x as int, frames_fx, end_x) as i64,
        y: clamped(
            spec_mul_div(p.y as int, spec_sub(to, from), 100_000_000) + from,
        ) as i64,
    }
}

pub open spec fn spec_scale_cubic(
    c: CubicBez,
    frames_fx: int,
    end_x: int,
    from: int,
    to: int,
) -> CubicBez {
    CubicBez {
        p0: spec_scale_point(c.p0, frames_fx, end_x, from, to),
        p1: spec_scale_point(c.p1, frames_fx, end_x, from, to),
        p2: spec_scale_point(c.p2, frames_fx, end_x, from, to),
        p3: spec_scale_point(c.p3, frames_fx, end_x, from, to),
    }
}

fn scale_point(p: Point, frames_fx: i64, end_x: i64, from: i64, to: i64) -> (r: Point)
    requires
        end_x > 0,
    ensures
        r == spec_scale_point(p, frames_fx as int, end_x as int, from as int, to as int),
{
    let x = fx_mul_div(p.x, frames_fx, end_x);
    let y = crate::fixed::fx_add(fx_mul_div(p.y, fx_sub(to, from), 100_000_000), from);
    Point { x, y }
}

/// Creates cubics approximating a spring animation: the preset's hand-tuned
/// curve, scaled so its x span covers the frames the simulation needs and its
/// y range covers the animated value's travel.
pub fn cubic_approximation(frame_rate: i64, animation: AnimatedValue, spring: Spring) -> (r: Result<
    Vec<CubicBez>,
    CubicApproximationError,
>)
    requires
        0 < frame_rate <= MAX_FRAME_RATE,
    ensures
        match r {
            Ok(cs) => spec_handwritten_cubic(spring) is Some && cubics_approximate(
                cs@,
                spring,
                animation,
                frame_rate as int,
            ),
            Err(e) => (e == CubicApproximationError::UnrecognizedSpring
                && spec_handwritten_cubic(spring) is None) || (e
                == CubicApproximationError::RanTooLong && spec_handwritten_cubic(spring) is Some
                && exists|fe: int|
                #[trigger] ran_too_long_at(spring, animation, frame_rate as int, fe)),
        },
{
    proof {
        reveal(cubics_approximate);
        reveal(spec_handwritten_cubic);
    }
    let handwritten_curve = match handwritten_cubic(spring) {
        Ok(c) => c,
        Err(e) => {
            return Err(e);
        },
    };
    let nf = match num_frames(frame_rate, animation, spring) {
        Ok(n) => n,
        Err(e) => {
            return Err(e);
        },
    };
    let frames_fx = fx_mul_div(nf, FX_ONE, 1);
    let end_x = handwritten_curve[handwritten_curve.len() - 1].p3.x;
    proof {
        assert(end_x > 0);
    }
    let mut out: Vec<CubicBez> = Vec::new();
    let ghost template = handwritten_curve@;
    let mut i: usize = 0;
    while i < handwritten_curve.len()
        invariant
            i <= template.len(),
            template == handwritten_curve@,
            end_x == template.last().p3.x,
            end_x > 0,
            out@.len() == i,
            forall|k: int|
                0 <= k < i ==> out@[k] == spec_scale_cubic(
                    #[trigger] template[k],
                    frames_fx as int,
                    end_x as int,
                    animation.value as int,
                    animation.final_value as int,
                ),
        decreases template.len() - i,
    {
        let c = handwritten_curve[i];
        let scaled = CubicBez {
            p0: scale_point(c.p0, frames_fx, end_x, animation.value, animation.final_value),
            p1: scale_point(c.p1, frames_fx, end_x, animation.value, animation.final_value),
            p2: scale_point(c.p2, frames_fx, end_x, animation.value, animation.final_value),
            p3: scale_point(c.p3, frames_fx, end_x, animation.value, animation.final_value),
        };
        out.push(scaled);
        i = i + 1;
    }
    Ok(out)
}

} // verus!
