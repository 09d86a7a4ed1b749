//! An intermediate model of simple animation that can be lowered to a
//! playback format: a y-down, frame-indexed tree of groups and shapes with
//! translate/scale/rotate keyframes per group.

use vstd::prelude::*;
use crate::fixed::{FX_ONE, spec_mul_div, fx_mul_div};
use crate::geom::{
    Point, BezPath, Affine, starts_with_move, path_els_bounded, count_moves, spec_apply_el,
    font_to_scene, spec_y_up_to_y_down, spec_upem_box, spec_affine_det,
};
use crate::keyframed::{Keyframe, Keyframed};
use crate::spring::Spring;
use crate::command::{Command, spec_nv};

verus! {

/// The default total length of an animation: 60 frames, in micro-frames.
pub const DEFAULT_FRAMES: i64 = 60_000_000;

/// The default frame rate, in micro-units.
pub const DEFAULT_FRAME_RATE: i64 = 60_000_000;

/// A single distinct animation in a rectangular space starting at (0,0) and
/// extending to (width, height), y-down. Timing is expressed in frames.
pub struct Animation {
    pub width: i64,
    pub height: i64,
    pub frames: i64,
    pub frame_rate: i64,
    pub root: Group,
    pub src_to_dest_units: Affine,
}

/// A set of groups or shapes that animate as one. Only a group permits
/// transform-based animation and a fill; transforms pivot on `center`.
pub struct Group {
    pub children: Vec<Element>,
    pub center: Point,
    pub fill: Option<(u8, u8, u8)>,
    pub translate: Keyframed<Point>,
    pub scale: Keyframed<(i64, i64)>,
    pub rotate: Keyframed<i64>,
}

pub enum Element {
    Group(Group),
    Shape(Keyframed<BezPath>),
}

/// A well-formed shape: a keyframed series of paths, each starting with a
/// `MoveTo` and staying within coordinate bounds.
pub open spec fn shape_wf(s: Keyframed<BezPath>) -> bool {
    &&& s.wf()
    &&& forall|i: int|
        0 <= i < s.keyframes@.len() ==> starts_with_move(
            (#[trigger] s.keyframes@[i]).value.els@,
        ) && path_els_bounded(s.keyframes@[i].value.els@)
}

pub open spec fn element_wf(e: Element) -> bool
    decreases e,
{
    match e {
        Element::Group(g) => group_wf(g),
        Element::Shape(s) => shape_wf(s),
    }
}

pub open spec fn group_wf(g: Group) -> bool
    decreases g,
{
    &&& g.translate.wf()
    &&& g.scale.wf()
    &&& g.rotate.wf()
    &&& forall|i: int| 0 <= i < g.children@.len() ==> element_wf(#[trigger] g.children@[i])
}

/// A group with no children, centered at the origin, untransformed: position
/// zero, scale 100 percent, rotation zero, each as a single keyframe.
impl Default for Group {
    fn default() -> (g: Group)
        ensures
            group_wf(g),
            g.children@.len() == 0,
            g.center == (Point { x: 0i64, y: 0i64 }),
            g.fill is None,
            g.translate.keyframes@.len() == 1,
            g.translate.keyframes@[0] == (Keyframe { frame: 0i64, value: Point { x: 0i64, y: 0i64 } }),
            g.translate.spring is None,
            g.scale.keyframes@.len() == 1,
            g.scale.keyframes@[0] == (Keyframe { frame: 0i64, value: (100_000_000i64, 100_000_000i64) }),
            g.scale.spring is None,
            g.rotate.keyframes@.len() == 1,
            g.rotate.keyframes@[0] == (Keyframe { frame: 0i64, value: 0i64 }),
            g.rotate.spring is None,
    {
        Group {
            children: Vec::new(),
            center: Point { x: 0, y: 0 },
            fill: Option::None,
            translate: Keyframed::new(0, Point { x: 0, y: 0 }, Option::None),
            scale: Keyframed::new(0, (100_000_000, 100_000_000), Option::None),
            rotate: Keyframed::new(0, 0, Option::None),
        }
    }
}

/// One fifth of the animation span: the stagger interval of parts motion.
pub open spec fn spec_step(start: int, end: int) -> int {
    spec_mul_div(end - start, 1, 5)
}

/// Keyframes suitable for a group's rotation: from 0 to 360 degrees across
/// two stagger intervals, offset by the group's index.
pub fn twirl(spring: Option<Spring>, start: i64, end: i64, nth_group: usize) -> (kf: Keyframed<i64>)
    requires
        start < end,
        5 <= end - start <= 1_000_000_000_000,
        nth_group <= 1_000_000,
    ensures
        kf.wf(),
        kf.spring == spring,
        kf.keyframes@.len() == 2,
        kf.keyframes@[0].frame as int == spec_mul_div(spec_step(start as int, end as int), nth_group as int, 1),
        kf.keyframes@[0].value == 0i64,
        kf.keyframes@[1].frame as int == spec_mul_div(spec_step(start as int, end as int), nth_group as int + 2, 1),
        kf.keyframes@[1].value == 360_000_000i64,
{
    let step = step_of(start, end);
    let t0 = fx_mul_div(step, nth_group as i64, 1);
    let t1 = fx_mul_div(step, nth_group as i64 + 2, 1);
    proof {
        lemma_stagger_ascending(step as int, nth_group as int);
    }
    let mut keyframes: Vec<Keyframe<i64>> = Vec::new();
    keyframes.push(Keyframe { frame: t0, value: 0 });
    keyframes.push(Keyframe { frame: t1, value: 360_000_000 });
    Keyframed { keyframes, spring }
}

/// Keyframes suitable for a group's scale: a pulse from 100 to 150 percent
/// and back, staggered by the group's index.
pub fn pulse(spring: Option<Spring>, start: i64, end: i64, nth_group: usize) -> (kf: Keyframed<
    (i64, i64),
>)
    requires
        start < end,
        5 <= end - start <= 1_000_000_000_000,
        nth_group <= 1_000_000,
    ensures
        kf.wf(),
        kf.spring == spring,
        kf.keyframes@.len() == 3,
        kf.keyframes@[0].frame as int == spec_mul_div(spec_step(start as int, end as int), nth_group as int, 1),
        kf.keyframes@[0].value == (100_000_000i64, 100_000_000i64),
        kf.keyframes@[1].frame as int == spec_mul_div(spec_step(start as int, end as int), nth_group as int + 1, 1),
        kf.keyframes@[1].value == (150_000_000i64, 150_000_000i64),
        kf.keyframes@[2].frame as int == spec_mul_div(spec_step(start as int, end as int), nth_group as int + 2, 1),
        kf.keyframes@[2].value == (100_000_000i64, 100_000_000i64),
{
    let step = step_of(start, end);
    let t0 = fx_mul_div(step, nth_group as i64, 1);
    let t1 = fx_mul_div(step, nth_group as i64 + 1, 1);
    let t2 = fx_mul_div(step, nth_group as i64 + 2, 1);
    proof {
        lemma_stagger_ascending(step as int, nth_group as int);
    }
    let mut keyframes: Vec<Keyframe<(i64, i64)>> = Vec::new();
    keyframes.push(Keyframe { frame: t0, value: (100_000_000, 100_000_000) });
    keyframes.push(Keyframe { frame: t1, value: (150_000_000, 150_000_000) });
    keyframes.push(Keyframe { frame: t2, value: (100_000_000, 100_000_000) });
    Keyframed { keyframes, spring }
}

fn step_of(start: i64, end: i64) -> (step: i64)
    requires
        start < end,
        5 <= end - start <= 1_000_000_000_000,
    ensures
        step as int == spec_step(start as int, end as int),
        1 <= step <= 200_000_000_000,
{
    let span = end - start;
    proof {
        vstd::arithmetic::div_mod::lemma_div_is_ordered(5, span as int, 5);
        vstd::arithmetic::div_mod::lemma_div_is_ordered(
            span as int,
            1_000_000_000_000,
            5,
        );
        crate::fixed::lemma_tdiv_bounds(span as int, 5);
    }
    fx_mul_div(span, 1, 5)
}

/// The staggered frames strictly increase with the multiplier.
proof fn lemma_stagger_ascending(step: int, nth: int)
    requires
        1 <= step <= 200_000_000_000,
        0 <= nth <= 1_000_000,
    ensures
        spec_mul_div(step, nth, 1) < spec_mul_div(step, nth + 1, 1) < spec_mul_div(
            step,
            nth + 2,
            1,
        ),
{
    assert(0 <= step * nth <= 200_000_000_000_000_000int && step * nth + step == step * (nth + 1)
        && step * (nth + 1) + step == step * (nth + 2) && step * (nth + 2)
        <= 400_000_000_000_000_000int) by (nonlinear_arith)
        requires
            1 <= step <= 200_000_000_000,
            0 <= nth <= 1_000_000,
    ;
    crate::fixed::lemma_tdiv_bounds(step * nth, 1);
    vstd::arithmetic::div_mod::lemma_div_basics_1(step * nth);
    vstd::arithmetic::div_mod::lemma_div_basics_1(step * (nth + 1));
    vstd::arithmetic::div_mod::lemma_div_basics_1(step * (nth + 2));
}

/// Keyframes rotating from 0 to a terminal angle across two stagger
/// intervals: the twirl with a chosen end angle.
pub fn rotate_keyframes(spring: Option<Spring>, start: i64, end: i64, degrees: i64) -> (kf: Keyframed<i64>)
    requires
        start < end,
        5 <= end - start <= 1_000_000_000_000,
    ensures
        kf.wf(),
        kf.spring == spring,
        kf.keyframes@.len() == 2,
        kf.keyframes@[0].frame as int == spec_mul_div(spec_step(start as int, end as int), 0, 1),
        kf.keyframes@[0].value == 0i64,
        kf.keyframes@[1].frame as int == spec_mul_div(spec_step(start as int, end as int), 2, 1),
        kf.keyframes@[1].value == degrees,
{
    let step = step_of(start, end);
    let t0 = fx_mul_div(step, 0, 1);
    let t1 = fx_mul_div(step, 2, 1);
    proof {
        lemma_stagger_ascending(step as int, 0);
    }
    let mut keyframes: Vec<Keyframe<i64>> = Vec::new();
    keyframes.push(Keyframe { frame: t0, value: 0 });
    keyframes.push(Keyframe { frame: t1, value: degrees });
    Keyframed { keyframes, spring }
}

/// Keyframes scaling from one percentage to another across the whole span.
pub fn scale_keyframes(spring: Option<Spring>, frames: i64, from: i64, to: i64) -> (kf: Keyframed<
    (i64, i64),
>)
    requires
        frames > 0,
    ensures
        kf.wf(),
        kf.spring == spring,
        kf.keyframes@.len() == 2,
        kf.keyframes@[0] == (Keyframe { frame: 0i64, value: (from, from) }),
        kf.keyframes@[1] == (Keyframe { frame: frames, value: (to, to) }),
{
    let mut keyframes: Vec<Keyframe<(i64, i64)>> = Vec::new();
    keyframes.push(Keyframe { frame: 0, value: (from, from) });
    keyframes.push(Keyframe { frame: frames, value: (to, to) });
    Keyframed { keyframes, spring }
}

impl Keyframed<BezPath> {
    /// The shape series of a glyph: its outline carried into scene
    /// coordinates, keyed at frame 0 and — when a second outline exists — at
    /// the last frame. The series carries the default spring tag.
    pub fn for_glyph(last_frame: i64, src_to_dest_units: Affine, start: &BezPath, end: Option<&BezPath>) -> (kf: Keyframed<BezPath>)
        requires
            last_frame > 0,
            starts_with_move(start.els@),
            end is Some ==> starts_with_move(end.unwrap().els@),
        ensures
            shape_wf(kf),
            kf.spring == Some(Spring::expressive_non_spatial()),
            kf.keyframes@.len() == (if end is Some { 2int } else { 1int }),
            kf.keyframes@[0].frame == 0i64,
            kf.keyframes@[0].value.els@ == start.els@.map_values(
                |e: crate::geom::PathEl| spec_apply_el(src_to_dest_units, e),
            ),
            end is Some ==> kf.keyframes@[1].frame == last_frame
                && kf.keyframes@[1].value.els@ == end.unwrap().els@.map_values(
                |e: crate::geom::PathEl| spec_apply_el(src_to_dest_units, e),
            ),
    {
        let first = start.transformed(src_to_dest_units);
        proof {
            crate::geom::lemma_transformed_bounded(src_to_dest_units, start.els@);
        }
        let mut result = Keyframed::new(0, first, Some(Spring::expressive_non_spatial()));
        match end {
            Some(e) => {
                let second = e.transformed(src_to_dest_units);
                proof {
                    crate::geom::lemma_transformed_bounded(src_to_dest_units, e.els@);
                }
                result.push(Keyframe { frame: last_frame, value: second });
            },
            _ => {},
        }
        result
    }
}


/// The plan asks for piece-wise animation.
pub open spec fn plan_is_parts(c: Command) -> bool {
    c is TwirlParts || c is PulseParts
}

impl Group {
    /// Applies the plan's transform-based animation: whole-glyph plans set a
    /// transform on this group; parts plans first regroup the flat shape
    /// children into perceptual parts and stagger each part's transform.
    #[verifier::loop_isolation(false)]
    #[verifier::rlimit(100)]
    #[verifier::spinoff_prover]
    pub fn animate(self, frames: i64, plan: &Command) -> (out: Group)
        requires
            group_wf(self),
            5 <= frames <= 1_000_000_000_000,
            plan_is_parts(*plan) ==> self.children@.len() <= 1000 && (forall|i: int|
                0 <= i < self.children@.len() ==> (#[trigger] self.children@[i]) is Shape) && (
            forall|i: int, j: int|
                0 <= i < self.children@.len() && 0 <= j
                    < (self.children@[i]->Shape_0).keyframes@.len() ==> count_moves(
                    (#[trigger] (self.children@[i]->Shape_0).keyframes@[j]).value.els@,
                ) == count_moves((self.children@[i]->Shape_0).keyframes@[0].value.els@) && (
                self.children@[i]->Shape_0).keyframes@[j].value.els@.len() <= 10_000) && (forall|
                i: int,
            |
                0 <= i < self.children@.len() ==> count_moves(
                    ((#[trigger] self.children@[i])->Shape_0).keyframes@[0].value.els@,
                ) <= 100),
        ensures
            group_wf(out),
            out.center == self.center,
            out.fill == self.fill,
            plan is NoMotion ==> out == self,
            (plan is TwirlWhole || plan is RotateDegrees) ==> out.children == self.children
                && out.scale == self.scale && out.translate == self.translate,
            plan is TwirlWhole ==> out.rotate.keyframes@.len() == 2 && out.rotate.spring
                == spec_nv(*plan).spring && out.rotate.keyframes@[0].frame == 0i64
                && out.rotate.keyframes@[0].value == 0i64 && out.rotate.keyframes@[1].frame as int
                == spec_mul_div(spec_step(0, frames as int), 2, 1) && out.rotate.keyframes@[1].value
                == 360_000_000i64,
            plan matches Command::RotateDegrees(_, d) ==> out.rotate.keyframes@.len() == 2
                && out.rotate.spring == spec_nv(*plan).spring && out.rotate.keyframes@[0].frame
                == 0i64 && out.rotate.keyframes@[0].value == 0i64 && out.rotate.keyframes@[1].frame as int
                == spec_mul_div(spec_step(0, frames as int), 2, 1) && out.rotate.keyframes@[1].value
                == d,
            plan is PulseWhole ==> out.children == self.children && out.rotate == self.rotate
                && out.translate == self.translate && out.scale.keyframes@.len() == 3
                && out.scale.spring == spec_nv(*plan).spring && out.scale.keyframes@[0].frame
                == 0i64 && out.scale.keyframes@[0].value == (100_000_000i64, 100_000_000i64)
                && out.scale.keyframes@[1].frame as int == spec_mul_div(
                spec_step(0, frames as int),
                1,
                1,
            ) && out.scale.keyframes@[1].value == (150_000_000i64, 150_000_000i64)
                && out.scale.keyframes@[2].frame as int == spec_mul_div(
                spec_step(0, frames as int),
                2,
                1,
            ) && out.scale.keyframes@[2].value == (100_000_000i64, 100_000_000i64),
            plan matches Command::ScaleFromTo(_, a, b) ==> out.children == self.children
                && out.rotate == self.rotate && out.translate == self.translate
                && out.scale.keyframes@.len() == 2 && out.scale.spring == spec_nv(*plan).spring
                && out.scale.keyframes@[0].frame == 0i64 && out.scale.keyframes@[0].value.0 == a
                && out.scale.keyframes@[0].value.1 == a && out.scale.keyframes@[1].frame == frames
                && out.scale.keyframes@[1].value.0 == b && out.scale.keyframes@[1].value.1 == b,
            plan_is_parts(*plan) ==> exists|
                shapes: Seq<Keyframed<BezPath>>,
                subs: Seq<Keyframed<BezPath>>,
                order: Seq<usize>,
                idx: Seq<Seq<usize>>,
                base: Seq<Group>,
            |
                #![trigger crate::grouping::spec_part_grouping(shapes, subs, order, idx, base)]
                {
                    &&& shapes.len() == self.children@.len()
                    &&& (forall|i: int|
                        0 <= i < shapes.len() ==> crate::grouping::series_model(#[trigger] shapes[i])
                            == crate::grouping::series_model(self.children@[i]->Shape_0))
                    &&& crate::grouping::spec_part_grouping(shapes, subs, order, idx, base)
                    &&& out.children@.len() == base.len()
                    &&& (forall|g: int|
                        0 <= g < base.len() ==> {
                            let og = (#[trigger] out.children@[g])->Group_0;
                            &&& out.children@[g] is Group
                            &&& og.children == base[g].children
                            &&& og.center == base[g].center
                            &&& og.fill == base[g].fill
                            &&& og.translate == base[g].translate
                            &&& (plan is TwirlParts ==> og.scale == base[g].scale)
                            &&& (plan is PulseParts ==> og.rotate == base[g].rotate)
                        })
                },
            plan is TwirlParts ==> out.rotate == self.rotate && out.scale == self.scale
                && out.translate == self.translate && (forall|g: int|
                0 <= g < out.children@.len() ==> (#[trigger] out.children@[g]) is Group) && (forall|
                g: int,
            |
                0 <= g < out.children@.len() ==> {
                    let rot = ((#[trigger] out.children@[g])->Group_0).rotate;
                    &&& rot.keyframes@.len() == 2
                    &&& rot.spring == spec_nv(*plan).spring
                    &&& rot.keyframes@[0].frame as int == spec_mul_div(
                        spec_step(0, frames as int),
                        g,
                        1,
                    )
                    &&& rot.keyframes@[0].value == 0i64
                    &&& rot.keyframes@[1].frame as int == spec_mul_div(
                        spec_step(0, frames as int),
                        g + 2,
                        1,
                    )
                    &&& rot.keyframes@[1].value == 360_000_000i64
                }),
            plan is PulseParts ==> out.rotate == self.rotate && out.scale == self.scale
                && out.translate == self.translate && (forall|g: int|
                0 <= g < out.children@.len() ==> (#[trigger] out.children@[g]) is Group) && (forall|
                g: int,
            |
                0 <= g < out.children@.len() ==> {
                    let sc = ((#[trigger] out.children@[g])->Group_0).scale;
                    &&& sc.keyframes@.len() == 3
                    &&& sc.spring == spec_nv(*plan).spring
                    &&& sc.keyframes@[0].frame as int == spec_mul_div(
                        spec_step(0, frames as int),
                        g,
                        1,
                    )
                    &&& sc.keyframes@[0].value == (100_000_000i64, 100_000_000i64)
                    &&& sc.keyframes@[1].frame as int == spec_mul_div(
                        spec_step(0, frames as int),
                        g + 1,
                        1,
                    )
                    &&& sc.keyframes@[1].value == (150_000_000i64, 150_000_000i64)
                    &&& sc.keyframes@[2].frame as int == spec_mul_div(
                        spec_step(0, frames as int),
                        g + 2,
                        1,
                    )
                    &&& sc.keyframes@[2].value == (100_000_000i64, 100_000_000i64)
                }),
    {
        let spring = plan.spring();
        match plan {
            Command::NoMotion(..) => self,
            Command::TwirlWhole(..) => {
                let rotate = twirl(spring, 0, frames, 0);
                Group { rotate, ..self }
            },
            Command::RotateDegrees(_, d) => {
                let rotate = rotate_keyframes(spring, 0, frames, *d);
                Group { rotate, ..self }
            },
            Command::PulseWhole(..) => {
                let scale = pulse(spring, 0, frames, 0);
                Group { scale, ..self }
            },
            Command::ScaleFromTo(_, a, b) => {
                let scale = scale_keyframes(spring, frames, *a, *b);
                Group { scale, ..self }
            },
            Command::TwirlParts(..) => {
                let children = twirl_part_children(&self.children, frames, spring);
                Group { children, ..self }
            },
            Command::PulseParts(..) => {
                let children = pulse_part_children(&self.children, frames, spring);
                Group { children, ..self }
            },
        }
    }
}

/// Regroups flat shape children into part groups and staggers each group's
/// rotation by its index.
#[verifier::loop_isolation(false)]
#[verifier::rlimit(100)]
#[verifier::spinoff_prover]
fn twirl_part_children(children: &Vec<Element>, frames: i64, spring: Option<Spring>) -> (out: Vec<
    Element,
>)
    requires
        children@.len() <= 1000,
        forall|i: int| 0 <= i < children@.len() ==> (#[trigger] children@[i]) is Shape,
        forall|i: int| 0 <= i < children@.len() ==> element_wf(#[trigger] children@[i]),
        forall|i: int, j: int|
            0 <= i < children@.len() && 0 <= j < (children@[i]->Shape_0).keyframes@.len()
                ==> count_moves(
                (#[trigger] (children@[i]->Shape_0).keyframes@[j]).value.els@,
            ) == count_moves((children@[i]->Shape_0).keyframes@[0].value.els@) && (children@[i]
                ->Shape_0).keyframes@[j].value.els@.len() <= 10_000,
        forall|i: int|
            0 <= i < children@.len() ==> count_moves(
                ((#[trigger] children@[i])->Shape_0).keyframes@[0].value.els@,
            ) <= 100,
        5 <= frames <= 1_000_000_000_000,
    ensures
        forall|g: int| 0 <= g < out@.len() ==> (#[trigger] out@[g]) is Group && element_wf(out@[g]),
        exists|
            shapes: Seq<Keyframed<BezPath>>,
            subs: Seq<Keyframed<BezPath>>,
            order: Seq<usize>,
            idx: Seq<Seq<usize>>,
            base: Seq<Group>,
        |
            #![trigger crate::grouping::spec_part_grouping(shapes, subs, order, idx, base)]
            {
                &&& shapes.len() == children@.len()
                &&& (forall|i: int|
                    0 <= i < shapes.len() ==> crate::grouping::series_model(#[trigger] shapes[i])
                        == crate::grouping::series_model(children@[i]->Shape_0))
                &&& crate::grouping::spec_part_grouping(shapes, subs, order, idx, base)
                &&& out@.len() == base.len()
                &&& (forall|g: int|
                    0 <= g < base.len() ==> {
                        let og = (#[trigger] out@[g])->Group_0;
                        &&& out@[g] is Group
                        &&& og.children == base[g].children
                        &&& og.center == base[g].center
                        &&& og.fill == base[g].fill
                        &&& og.translate == base[g].translate
                        &&& og.scale == base[g].scale
                    })
            },
        forall|g: int|
            0 <= g < out@.len() ==> {
                let rot = ((#[trigger] out@[g])->Group_0).rotate;
                &&& rot.keyframes@.len() == 2
                &&& rot.spring == spring
                &&& rot.keyframes@[0].frame as int == spec_mul_div(
                    spec_step(0, frames as int),
                    g,
                    1,
                )
                &&& rot.keyframes@[0].value == 0i64
                &&& rot.keyframes@[1].frame as int == spec_mul_div(
                    spec_step(0, frames as int),
                    g + 2,
                    1,
                )
                &&& rot.keyframes@[1].value == 360_000_000i64
            },
{
    let shapes = elements_to_shapes(children);
    let ghost shapes_v = shapes@;
    let parts = crate::grouping::group_parts(shapes);
    let ghost parts0 = parts@;
    proof {
        lemma_models_match(shapes_v, children@);
    }
    let mut out: Vec<Element> = Vec::new();
    let mut rest = parts;
    let mut g: usize = 0;
    while rest.len() > 0
        invariant
            g + rest@.len() <= crate::grouping::MAX_SUBPATHS,
            out@.len() == g,
            g + rest@.len() == parts0.len(),
            rest@ == parts0.skip(g as int),
            forall|q: int|
                0 <= q < g ==> {
                    let og = (#[trigger] out@[q])->Group_0;
                    &&& og.children == parts0[q].children
                    &&& og.center == parts0[q].center
                    &&& og.fill == parts0[q].fill
                    &&& og.translate == parts0[q].translate
                    &&& og.scale == parts0[q].scale
                },
            forall|q: int| 0 <= q < rest@.len() ==> group_wf(#[trigger] rest@[q]),
            forall|q: int|
                0 <= q < g ==> (#[trigger] out@[q]) is Group && element_wf(out@[q]),
            forall|q: int|
                0 <= q < g ==> {
                    let rot = ((#[trigger] out@[q])->Group_0).rotate;
                    &&& rot.keyframes@.len() == 2
                    &&& rot.spring == spring
                    &&& rot.keyframes@[0].frame as int == spec_mul_div(
                        spec_step(0, frames as int),
                        q,
                        1,
                    )
                    &&& rot.keyframes@[0].value == 0i64
                    &&& rot.keyframes@[1].frame as int == spec_mul_div(
                        spec_step(0, frames as int),
                        q + 2,
                        1,
                    )
                    &&& rot.keyframes@[1].value == 360_000_000i64
                },
        decreases rest@.len(),
    {
        proof {
            assert(parts0.skip(g as int)[0] == parts0[g as int]);
            assert(parts0.skip(g as int).drop_first() =~= parts0.skip(g + 1));
        }
        let mut part = rest.remove(0);
        part.rotate = twirl(spring, 0, frames, g);
        let ghost partg = part;
        out.push(Element::Group(part));
        proof {
            assert(out@[g as int] == Element::Group(partg));
            assert((out@[g as int]->Group_0).rotate == partg.rotate);
        }
        g = g + 1;
    }
    proof {
        assert(parts0.skip(parts0.len() as int).len() == 0);
        let (subs, order, idx): (Seq<Keyframed<BezPath>>, Seq<usize>, Seq<Seq<usize>>) = choose|
            subs: Seq<Keyframed<BezPath>>,
            order: Seq<usize>,
            idx: Seq<Seq<usize>>,
        | #[trigger] crate::grouping::spec_part_grouping(shapes_v, subs, order, idx, parts0);
        assert(crate::grouping::spec_part_grouping(shapes_v, subs, order, idx, parts0));
    }
    out
}

/// Regroups flat shape children into part groups and staggers each group's
/// scale pulse by its index.
#[verifier::loop_isolation(false)]
#[verifier::rlimit(100)]
#[verifier::spinoff_prover]
fn pulse_part_children(children: &Vec<Element>, frames: i64, spring: Option<Spring>) -> (out: Vec<
    Element,
>)
    requires
        children@.len() <= 1000,
        forall|i: int| 0 <= i < children@.len() ==> (#[trigger] children@[i]) is Shape,
        forall|i: int| 0 <= i < children@.len() ==> element_wf(#[trigger] children@[i]),
        forall|i: int, j: int|
            0 <= i < children@.len() && 0 <= j < (children@[i]->Shape_0).keyframes@.len()
                ==> count_moves(
                (#[trigger] (children@[i]->Shape_0).keyframes@[j]).value.els@,
            ) == count_moves((children@[i]->Shape_0).keyframes@[0].value.els@) && (children@[i]
                ->Shape_0).keyframes@[j].value.els@.len() <= 10_000,
        forall|i: int|
            0 <= i < children@.len() ==> count_moves(
                ((#[trigger] children@[i])->Shape_0).keyframes@[0].value.els@,
            ) <= 100,
        5 <= frames <= 1_000_000_000_000,
    ensures
        forall|g: int| 0 <= g < out@.len() ==> (#[trigger] out@[g]) is Group && element_wf(out@[g]),
        exists|
            shapes: Seq<Keyframed<BezPath>>,
            subs: Seq<Keyframed<BezPath>>,
            order: Seq<usize>,
            idx: Seq<Seq<usize>>,
            base: Seq<Group>,
        |
            #![trigger crate::grouping::spec_part_grouping(shapes, subs, order, idx, base)]
            {
                &&& shapes.len() == children@.len()
                &&& (forall|i: int|
                    0 <= i < shapes.len() ==> crate::grouping::series_model(#[trigger] shapes[i])
                        == crate::grouping::series_model(children@[i]->Shape_0))
                &&& crate::grouping::spec_part_grouping(shapes, subs, order, idx, base)
                &&& out@.len() == base.len()
                &&& (forall|g: int|
                    0 <= g < base.len() ==> {
                        let og = (#[trigger] out@[g])->Group_0;
                        &&& out@[g] is Group
                        &&& og.children == base[g].children
                        &&& og.center == base[g].center
                        &&& og.fill == base[g].fill
                        &&& og.translate == base[g].translate
                        &&& og.rotate == base[g].rotate
                    })
            },
        forall|g: int|
            0 <= g < out@.len() ==> {
                let sc = ((#[trigger] out@[g])->Group_0).scale;
                &&& sc.keyframes@.len() == 3
                &&& sc.spring == spring
                &&& sc.keyframes@[0].frame as int == spec_mul_div(
                    spec_step(0, frames as int),
                    g,
                    1,
                )
                &&& sc.keyframes@[0].value == (100_000_000i64, 100_000_000i64)
                &&& sc.keyframes@[1].frame as int == spec_mul_div(
                    spec_step(0, frames as int),
                    g + 1,
                    1,
                )
                &&& sc.keyframes@[1].value == (150_000_000i64, 150_000_000i64)
                &&& sc.keyframes@[2].frame as int == spec_mul_div(
                    spec_step(0, frames as int),
                    g + 2,
                    1,
                )
                &&& sc.keyframes@[2].value == (100_000_000i64, 100_000_000i64)
            },
{
    let shapes = elements_to_shapes(children);
    let ghost shapes_v = shapes@;
    let parts = crate::grouping::group_parts(shapes);
    let ghost parts0 = parts@;
    proof {
        lemma_models_match(shapes_v, children@);
    }
    let mut out: Vec<Element> = Vec::new();
    let mut rest = parts;
    let mut g: usize = 0;
    while rest.len() > 0
        invariant
            g + rest@.len() <= crate::grouping::MAX_SUBPATHS,
            out@.len() == g,
            g + rest@.len() == parts0.len(),
            rest@ == parts0.skip(g as int),
            forall|q: int|
                0 <= q < g ==> {
                    let og = (#[trigger] out@[q])->Group_0;
                    &&& og.children == parts0[q].children
                    &&& og.center == parts0[q].center
                    &&& og.fill == parts0[q].fill
                    &&& og.translate == parts0[q].translate
                    &&& og.rotate == parts0[q].rotate
                },
            forall|q: int| 0 <= q < rest@.len() ==> group_wf(#[trigger] rest@[q]),
            forall|q: int|
                0 <= q < g ==> (#[trigger] out@[q]) is Group && element_wf(out@[q]),
            forall|q: int|
                0 <= q < g ==> {
                    let sc = ((#[trigger] out@[q])->Group_0).scale;
                    &&& sc.keyframes@.len() == 3
                    &&& sc.spring == spring
                    &&& sc.keyframes@[0].frame as int == spec_mul_div(
                        spec_step(0, frames as int),
                        q,
                        1,
                    )
                    &&& sc.keyframes@[0].value == (100_000_000i64, 100_000_000i64)
                    &&& sc.keyframes@[1].frame as int == spec_mul_div(
                        spec_step(0, frames as int),
                        q + 1,
                        1,
                    )
                    &&& sc.keyframes@[1].value == (150_000_000i64, 150_000_000i64)
                    &&& sc.keyframes@[2].frame as int == spec_mul_div(
                        spec_step(0, frames as int),
                        q + 2,
                        1,
                    )
                    &&& sc.keyframes@[2].value == (100_000_000i64, 100_000_000i64)
                },
        decreases rest@.len(),
    {
        proof {
            assert(parts0.skip(g as int)[0] == parts0[g as int]);
            assert(parts0.skip(g as int).drop_first() =~= parts0.skip(g + 1));
        }
        let mut part = rest.remove(0);
        part.scale = pulse(spring, 0, frames, g);
        let ghost partg = part;
        out.push(Element::Group(part));
        proof {
            assert(out@[g as int] == Element::Group(partg));
            assert((out@[g as int]->Group_0).scale == partg.scale);
        }
        g = g + 1;
    }
    proof {
        assert(parts0.skip(parts0.len() as int).len() == 0);
        let (subs, order, idx): (Seq<Keyframed<BezPath>>, Seq<usize>, Seq<Seq<usize>>) = choose|
            subs: Seq<Keyframed<BezPath>>,
            order: Seq<usize>,
            idx: Seq<Seq<usize>>,
        | #[trigger] crate::grouping::spec_part_grouping(shapes_v, subs, order, idx, parts0);
        assert(crate::grouping::spec_part_grouping(shapes_v, subs, order, idx, parts0));
    }
    out
}

/// The copied shapes carry the children's observable series.
proof fn lemma_models_match(shapes_v: Seq<Keyframed<BezPath>>, children: Seq<Element>)
    requires
        shapes_v.len() == children.len(),
        forall|i: int|
            0 <= i < shapes_v.len() ==> (#[trigger] shapes_v[i]).keyframes@.len() == (children[i]
                ->Shape_0).keyframes@.len() && (forall|j: int|
                0 <= j < shapes_v[i].keyframes@.len() ==> (#[trigger] shapes_v[i].keyframes@[
                j]).value.els@ == (children[i]->Shape_0).keyframes@[j].value.els@ && shapes_v[
                i].keyframes@[j].frame == (children[i]->Shape_0).keyframes@[j].frame),
    ensures
        forall|i: int|
            0 <= i < shapes_v.len() ==> crate::grouping::series_model(#[trigger] shapes_v[i])
                == crate::grouping::series_model(children[i]->Shape_0),
{
    assert forall|i: int|
        0 <= i < shapes_v.len() implies crate::grouping::series_model(#[trigger] shapes_v[i])
        == crate::grouping::series_model(children[i]->Shape_0) by {
        let a = crate::grouping::series_model(shapes_v[i]);
        let b = crate::grouping::series_model(children[i]->Shape_0);
        assert forall|k: int| 0 <= k < a.len() implies a[k] == b[k] by {
            assert(shapes_v[i].keyframes@[k].frame == (children[i]->Shape_0).keyframes@[k].frame);
            assert(shapes_v[i].keyframes@[k].value.els@ == (children[i]
                ->Shape_0).keyframes@[k].value.els@);
        }
        assert(a =~= b);
    }
}

/// Copies out the shape children of a flat group.
#[verifier::loop_isolation(false)]
fn elements_to_shapes(children: &Vec<Element>) -> (shapes: Vec<Keyframed<BezPath>>)
    requires
        forall|i: int| 0 <= i < children@.len() ==> (#[trigger] children@[i]) is Shape,
        forall|i: int| 0 <= i < children@.len() ==> element_wf(#[trigger] children@[i]),
    ensures
        shapes@.len() == children@.len(),
        forall|i: int|
            0 <= i < shapes@.len() ==> shape_wf(#[trigger] shapes@[i]) && shapes@[i].keyframes@.len()
                == (children@[i]->Shape_0).keyframes@.len() && shapes@[i].spring == (children@[i]
                ->Shape_0).spring && (forall|j: int|
                0 <= j < shapes@[i].keyframes@.len() ==> (#[trigger] shapes@[i].keyframes@[
                j]).value.els@ == (children@[i]->Shape_0).keyframes@[j].value.els@ && shapes@[
                i].keyframes@[j].frame == (children@[i]->Shape_0).keyframes@[j].frame),
{
    let mut shapes: Vec<Keyframed<BezPath>> = Vec::new();
    let mut i: usize = 0;
    while i < children.len()
        invariant
            i <= children@.len(),
            forall|q: int| 0 <= q < children@.len() ==> (#[trigger] children@[q]) is Shape,
            forall|q: int| 0 <= q < children@.len() ==> element_wf(#[trigger] children@[q]),
            shapes@.len() == i,
            forall|q: int|
                0 <= q < i ==> shape_wf(#[trigger] shapes@[q]) && shapes@[q].keyframes@.len() == (
                children@[q]->Shape_0).keyframes@.len() && shapes@[q].spring == (children@[q]
                ->Shape_0).spring && (forall|j: int|
                    0 <= j < shapes@[q].keyframes@.len() ==> (#[trigger] shapes@[q].keyframes@[
                    j]).value.els@ == (children@[q]->Shape_0).keyframes@[j].value.els@ && shapes@[
                    q].keyframes@[j].frame == (children@[q]->Shape_0).keyframes@[j].frame),
        decreases children@.len() - i,
    {
        match &children[i] {
            Element::Shape(s) => {
                let dup = s.duplicate();
                proof {
                    assert(shape_wf(children@[i as int]->Shape_0));
                    assert forall|a: int, b: int|
                        0 <= a < b < dup.keyframes@.len() implies dup.keyframes@[a].frame
                        < dup.keyframes@[b].frame by {
                        crate::keyframed::lemma_ascending_at(
                            (children@[i as int]->Shape_0).keyframes@,
                            a,
                            b,
                        );
                    }
                }
                shapes.push(dup);
            },
            _ => {
                proof {
                    assert(false);
                }
            },
        }
        i = i + 1;
    }
    shapes
}

impl Animation {
    /// Rigs an animation for an icon-font glyph: the em-square scene, the
    /// glyph's outline as the root group's one shape, and the plan's motion
    /// applied. The font-to-scene transform has a negative determinant.
    pub fn of_icon(plan: &Command, upem: u32, start: &BezPath, end: Option<&BezPath>) -> (anim: Animation)
        requires
            upem > 0,
            starts_with_move(start.els@),
            start.els@.len() <= 10_000,
            count_moves(start.els@) <= 100,
            end is Some ==> starts_with_move(end.unwrap().els@) && end.unwrap().els@.len()
                <= 10_000,
            plan_is_parts(*plan) && end is Some ==> count_moves(end.unwrap().els@) == count_moves(
                start.els@,
            ),
        ensures
            anim.width as int == upem as int * FX_ONE as int,
            anim.height as int == upem as int * FX_ONE as int,
            anim.frames == DEFAULT_FRAMES,
            anim.frame_rate == DEFAULT_FRAME_RATE,
            anim.src_to_dest_units == spec_y_up_to_y_down(
                spec_upem_box(upem as int),
                spec_upem_box(upem as int),
            ),
            spec_affine_det(anim.src_to_dest_units) < 0,
            group_wf(anim.root),
            anim.root.center == (Point {
                x: (upem as int * FX_ONE as int / 2) as i64,
                y: (upem as int * FX_ONE as int / 2) as i64,
            }),
            !plan_is_parts(*plan) ==> anim.root.children@.len() == 1 && anim.root.children@[0]
                is Shape && {
                let shape = anim.root.children@[0]->Shape_0;
                &&& shape.spring == Some(Spring::expressive_non_spatial())
                &&& shape.keyframes@.len() == (if end is Some { 2int } else { 1int })
                &&& shape.keyframes@[0].frame == 0i64
                &&& shape.keyframes@[0].value.els@ == start.els@.map_values(
                    |e: crate::geom::PathEl| spec_apply_el(anim.src_to_dest_units, e),
                )
                &&& (end is Some ==> shape.keyframes@[1].frame == DEFAULT_FRAMES
                    && shape.keyframes@[1].value.els@ == end.unwrap().els@.map_values(
                    |e: crate::geom::PathEl| spec_apply_el(anim.src_to_dest_units, e),
                ))
            },
            plan is NoMotion ==> anim.root.rotate.keyframes@.len() == 1
                && anim.root.scale.keyframes@.len() == 1,
            plan is TwirlWhole ==> anim.root.rotate.keyframes@.len() == 2
                && anim.root.rotate.spring == spec_nv(*plan).spring
                && anim.root.rotate.keyframes@[0].frame == 0i64
                && anim.root.rotate.keyframes@[0].value == 0i64
                && anim.root.rotate.keyframes@[1].frame as int == spec_mul_div(
                spec_step(0, DEFAULT_FRAMES as int),
                2,
                1,
            ) && anim.root.rotate.keyframes@[1].value == 360_000_000i64,
            plan matches Command::RotateDegrees(_, d) ==> anim.root.rotate.keyframes@.len() == 2
                && anim.root.rotate.spring == spec_nv(*plan).spring
                && anim.root.rotate.keyframes@[1].frame as int == spec_mul_div(
                spec_step(0, DEFAULT_FRAMES as int),
                2,
                1,
            ) && anim.root.rotate.keyframes@[1].value == d,
            plan is PulseWhole ==> anim.root.scale.keyframes@.len() == 3
                && anim.root.scale.spring == spec_nv(*plan).spring
                && anim.root.scale.keyframes@[0].frame == 0i64
                && anim.root.scale.keyframes@[1].frame as int == spec_mul_div(
                spec_step(0, DEFAULT_FRAMES as int),
                1,
                1,
            ) && anim.root.scale.keyframes@[2].frame as int == spec_mul_div(
                spec_step(0, DEFAULT_FRAMES as int),
                2,
                1,
            ),
            plan matches Command::ScaleFromTo(_, a, b) ==> anim.root.scale.keyframes@.len() == 2
                && anim.root.scale.keyframes@[0].frame == 0i64
                && anim.root.scale.keyframes@[0].value.0 == a
                && anim.root.scale.keyframes@[0].value.1 == a
                && anim.root.scale.keyframes@[1].frame == DEFAULT_FRAMES
                && anim.root.scale.keyframes@[1].value.0 == b
                && anim.root.scale.keyframes@[1].value.1 == b,
            plan is TwirlParts ==> (forall|g: int|
                0 <= g < anim.root.children@.len() ==> (#[trigger] anim.root.children@[g])
                    is Group) && (forall|g: int|
                0 <= g < anim.root.children@.len() ==> {
                    let rot = ((#[trigger] anim.root.children@[g])->Group_0).rotate;
                    &&& rot.keyframes@.len() == 2
                    &&& rot.spring == spec_nv(*plan).spring
                    &&& rot.keyframes@[0].frame as int == spec_mul_div(
                        spec_step(0, DEFAULT_FRAMES as int),
                        g,
                        1,
                    )
                    &&& rot.keyframes@[1].frame as int == spec_mul_div(
                        spec_step(0, DEFAULT_FRAMES as int),
                        g + 2,
                        1,
                    )
                }),
            plan is PulseParts ==> (forall|g: int|
                0 <= g < anim.root.children@.len() ==> (#[trigger] anim.root.children@[g])
                    is Group) && (forall|g: int|
                0 <= g < anim.root.children@.len() ==> {
                    let sc = ((#[trigger] anim.root.children@[g])->Group_0).scale;
                    &&& sc.keyframes@.len() == 3
                    &&& sc.spring == spec_nv(*plan).spring
                    &&& sc.keyframes@[0].frame as int == spec_mul_div(
                        spec_step(0, DEFAULT_FRAMES as int),
                        g,
                        1,
                    )
                    &&& sc.keyframes@[1].frame as int == spec_mul_div(
                        spec_step(0, DEFAULT_FRAMES as int),
                        g + 1,
                        1,
                    )
                    &&& sc.keyframes@[2].frame as int == spec_mul_div(
                        spec_step(0, DEFAULT_FRAMES as int),
                        g + 2,
                        1,
                    )
                }),
    {
        let src_to_dest_units = font_to_scene(upem);
        let upem_fx: i64 = (upem as i64) * FX_ONE;
        let shape = Keyframed::<BezPath>::for_glyph(DEFAULT_FRAMES, src_to_dest_units, start, end);
        proof {
            crate::geom::lemma_count_moves_map(src_to_dest_units, start.els@);
            if end is Some {
                crate::geom::lemma_count_moves_map(src_to_dest_units, end.unwrap().els@);
            }
        }
        let mut root = Group::default();
        root.center = Point { x: upem_fx / 2, y: upem_fx / 2 };
        let mut children: Vec<Element> = Vec::new();
        children.push(Element::Shape(shape));
        root.children = children;
        let root = root.animate(DEFAULT_FRAMES, plan);
        Animation {
            width: upem_fx,
            height: upem_fx,
            frames: DEFAULT_FRAMES,
            frame_rate: DEFAULT_FRAME_RATE,
            root,
            src_to_dest_units,
        }
    }
}


/// Every shape in the tree keeps its paths under the winding-analysis cap.
pub open spec fn element_els_small(e: Element) -> bool
    decreases e,
{
    match e {
        Element::Group(g) => group_els_small(g),
        Element::Shape(s) => forall|i: int|
            0 <= i < s.keyframes@.len() ==> (#[trigger] s.keyframes@[i]).value.els@.len() <= 10_000,
    }
}

pub open spec fn group_els_small(g: Group) -> bool
    decreases g,
{
    forall|i: int| 0 <= i < g.children@.len() ==> element_els_small(#[trigger] g.children@[i])
}

} // verus!
