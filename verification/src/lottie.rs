//! Lowering the scene graph to a Lottie document: one shape layer holding
//! one root group; groups carry their shapes, then a fill, then a transform
//! anchored at the group center; animated properties carry cubic eases.
//!
//! The types here mirror the subset of the Lottie schema the pipeline emits;
//! serialization to JSON lives outside the crate.

use vstd::prelude::*;
use crate::fixed::{
    FX_ONE, spec_add, spec_sub, spec_mul_div, spec_div, fx_add, fx_sub, fx_mul_div, fx_div,
};
use crate::geom::{Point, BezPath, PathEl, CubicBez, spec_op_kinds, is_subpath};
use crate::keyframed::{Keyframe, Keyframed};

verus! {

/// A 2-D control point of a cubic ease, in micro-units of the unit square.
#[derive(Clone, Copy, Debug, PartialEq, Eq, Structural)]
pub struct ControlPoint2d {
    pub x: i64,
    pub y: i64,
}

/// The easing between two keyframes: the incoming and outgoing control
/// points of a cubic over the unit square.
#[derive(Clone, Copy, Debug, PartialEq, Eq, Structural)]
pub struct BezierEase {
    pub in_value: ControlPoint2d,
    pub out_value: ControlPoint2d,
}

/// The default ease between keyframes: out (0.4, 0), in (0.6, 1).
pub open spec fn spec_default_ease() -> BezierEase {
    BezierEase {
        in_value: ControlPoint2d { x: 600_000i64, y: 1_000_000i64 },
        out_value: ControlPoint2d { x: 400_000i64, y: 0i64 },
    }
}

pub fn default_ease() -> (e: BezierEase)
    ensures
        e == spec_default_ease(),
{
    BezierEase {
        in_value: ControlPoint2d { x: 600_000, y: 1_000_000 },
        out_value: ControlPoint2d { x: 400_000, y: 0 },
    }
}

/// A cubic normalized to the unit square by moving its start to the origin
/// and scaling each axis by the span; the ease keeps the two control points.
pub open spec fn spec_ease_of_cubic(bez: CubicBez) -> BezierEase {
    if bez.p0 == (Point { x: 0i64, y: 0i64 }) && bez.p3 == (Point {
        x: FX_ONE as i64,
        y: FX_ONE as i64,
    }) {
        BezierEase {
            in_value: ControlPoint2d { x: bez.p2.x, y: bez.p2.y },
            out_value: ControlPoint2d { x: bez.p1.x, y: bez.p1.y },
        }
    } else {
        let sx = spec_sub(bez.p3.x as int, bez.p0.x as int);
        let sy = spec_sub(bez.p3.y as int, bez.p0.y as int);
        BezierEase {
            in_value: ControlPoint2d {
                x: spec_div(spec_sub(bez.p2.x as int, bez.p0.x as int), sx) as i64,
                y: spec_div(spec_sub(bez.p2.y as int, bez.p0.y as int), sy) as i64,
            },
            out_value: ControlPoint2d {
                x: spec_div(spec_sub(bez.p1.x as int, bez.p0.x as int), sx) as i64,
                y: spec_div(spec_sub(bez.p1.y as int, bez.p0.y as int), sy) as i64,
            },
        }
    }
}

/// Normalizes a cubic to the unit square and takes its control points as the
/// ease: the point coming in to the end, and the one going out of the start.
pub fn to_lottie_ease(bez: CubicBez) -> (e: BezierEase)
    ensures
        e == spec_ease_of_cubic(bez),
{
    if bez.p0.x == 0 && bez.p0.y == 0 && bez.p3.x == FX_ONE && bez.p3.y == FX_ONE {
        BezierEase {
            in_value: ControlPoint2d { x: bez.p2.x, y: bez.p2.y },
            out_value: ControlPoint2d { x: bez.p1.x, y: bez.p1.y },
        }
    } else {
        let sx = fx_sub(bez.p3.x, bez.p0.x);
        let sy = fx_sub(bez.p3.y, bez.p0.y);
        BezierEase {
            in_value: ControlPoint2d {
                x: fx_div(fx_sub(bez.p2.x, bez.p0.x), sx),
                y: fx_div(fx_sub(bez.p2.y, bez.p0.y), sy),
            },
            out_value: ControlPoint2d {
                x: fx_div(fx_sub(bez.p1.x, bez.p0.x), sx),
                y: fx_div(fx_sub(bez.p1.y, bez.p0.y), sy),
            },
        }
    }
}

/// A Lottie b-spline: absolute on-curve vertices with relative incoming and
/// outgoing control handles.
#[derive(Clone, Debug)]
pub struct ShapeValue {
    pub vertices: Vec<Point>,
    pub in_point: Vec<Point>,
    pub out_point: Vec<Point>,
    pub closed: Option<bool>,
}

/// The spline state as ghost sequences.
pub struct ShapeValueModel {
    pub vertices: Seq<Point>,
    pub in_point: Seq<Point>,
    pub out_point: Seq<Point>,
    pub closed: Option<bool>,
}

/// One third and two thirds of a coordinate, truncated.
pub open spec fn spec_third(x: int) -> int {
    spec_mul_div(x, 1, 3)
}

pub open spec fn spec_two_thirds(x: int) -> int {
    spec_mul_div(x, 2, 3)
}

/// Appends one cubic with absolute control points to the spline: the
/// outgoing handle of the last vertex and the incoming handle of the new one
/// become relative offsets.
pub open spec fn spec_add_cubic(m: ShapeValueModel, c0: Point, c1: Point, end: Point) -> ShapeValueModel
    recommends
        m.vertices.len() > 0,
        m.out_point.len() == m.vertices.len(),
        m.in_point.len() == m.vertices.len(),
{
    let start = m.vertices.last();
    ShapeValueModel {
        vertices: m.vertices.push(end),
        out_point: m.out_point.update(
            m.out_point.len() - 1,
            Point {
                x: spec_sub(c0.x as int, start.x as int) as i64,
                y: spec_sub(c0.y as int, start.y as int) as i64,
            },
        ).push(Point { x: 0i64, y: 0i64 }),
        in_point: m.in_point.push(
            Point {
                x: spec_sub(c1.x as int, end.x as int) as i64,
                y: spec_sub(c1.y as int, end.y as int) as i64,
            },
        ),
        closed: m.closed,
    }
}

/// One path element folded into the spline: lines are cubics with zero
/// handles, quadratics are elevated to cubics by the one-third/two-thirds
/// rule, and a close marks the spline closed.
pub open spec fn spec_shape_el(m: ShapeValueModel, e: PathEl) -> ShapeValueModel {
    let last = if m.vertices.len() > 0 {
        m.vertices.last()
    } else {
        Point { x: 0i64, y: 0i64 }
    };
    match e {
        PathEl::MoveTo(p) => ShapeValueModel {
            vertices: m.vertices.push(p),
            out_point: m.out_point.push(Point { x: 0i64, y: 0i64 }),
            in_point: m.in_point.push(Point { x: 0i64, y: 0i64 }),
            closed: m.closed,
        },
        PathEl::LineTo(p) => spec_add_cubic(m, last, p, p),
        PathEl::QuadTo(c, p) => {
            let c0 = Point {
                x: spec_add(spec_third(last.x as int), spec_two_thirds(c.x as int)) as i64,
                y: spec_add(spec_third(last.y as int), spec_two_thirds(c.y as int)) as i64,
            };
            let c1 = Point {
                x: spec_add(spec_two_thirds(c.x as int), spec_third(p.x as int)) as i64,
                y: spec_add(spec_two_thirds(c.y as int), spec_third(p.y as int)) as i64,
            };
            spec_add_cubic(m, c0, c1, p)
        },
        PathEl::CurveTo(c0, c1, p) => spec_add_cubic(m, c0, c1, p),
        PathEl::ClosePath => ShapeValueModel { closed: Some(true), ..m },
    }
}

pub open spec fn spec_shape_fold(els: Seq<PathEl>, m: ShapeValueModel) -> ShapeValueModel
    decreases els.len(),
{
    if els.len() == 0 {
        m
    } else {
        spec_shape_fold(els.drop_first(), spec_shape_el(m, els[0]))
    }
}

/// The spline a subpath encodes to: the fold over its elements, then — when
/// no close was seen — closed exactly when the last vertex equals the first.
pub open spec fn spec_shape_value(els: Seq<PathEl>) -> ShapeValueModel {
    let m0 = ShapeValueModel {
        vertices: Seq::empty(),
        in_point: Seq::empty(),
        out_point: Seq::empty(),
        closed: Option::None,
    };
    let m = spec_shape_fold(els, m0);
    if m.closed is None {
        ShapeValueModel {
            closed: Some(
                m.vertices.len() > 0 && m.vertices.last() == m.vertices[0] || m.vertices.len()
                    == 0,
            ),
            ..m
        }
    } else {
        m
    }
}

/// The invariant the fold keeps: one handle pair per vertex.
pub open spec fn shape_model_wf(m: ShapeValueModel) -> bool {
    m.out_point.len() == m.vertices.len() && m.in_point.len() == m.vertices.len()
}

proof fn lemma_shape_el_wf(m: ShapeValueModel, e: PathEl)
    requires
        shape_model_wf(m),
        !(e is MoveTo) ==> m.vertices.len() > 0,
    ensures
        shape_model_wf(spec_shape_el(m, e)),
{
}

/// Encodes a subpath as a Lottie spline.
#[verifier::loop_isolation(false)]
pub fn create_shapevalue(subpath: &BezPath) -> (sv: ShapeValue)
    requires
        is_subpath(subpath.els@),
    ensures
        ({
            let m = spec_shape_value(subpath.els@);
            sv.vertices@ == m.vertices && sv.in_point@ == m.in_point && sv.out_point@
                == m.out_point && sv.closed == m.closed
        }),
{
    let mut vertices: Vec<Point> = Vec::new();
    let mut in_point: Vec<Point> = Vec::new();
    let mut out_point: Vec<Point> = Vec::new();
    let mut closed: Option<bool> = Option::None;
    let ghost m0 = ShapeValueModel {
        vertices: Seq::empty(),
        in_point: Seq::empty(),
        out_point: Seq::empty(),
        closed: Option::None,
    };
    let mut i: usize = 0;
    while i < subpath.els.len()
        invariant
            i <= subpath.els@.len(),
            ({
                let m = spec_shape_fold(subpath.els@.take(i as int), m0);
                vertices@ == m.vertices && in_point@ == m.in_point && out_point@ == m.out_point
                    && closed == m.closed && shape_model_wf(m)
            }),
            i > 0 ==> vertices@.len() > 0,
        decreases subpath.els@.len() - i,
    {
        let ghost m_pre = spec_shape_fold(subpath.els@.take(i as int), m0);
        let e = subpath.els[i];
        proof {
            if i == 0 {
                assert(subpath.els@[0] is MoveTo);
            }
            lemma_shape_el_wf(m_pre, e);
            lemma_shape_fold_snoc(subpath.els@, i as int, m0);
        }
        match e {
            PathEl::MoveTo(p) => {
                vertices.push(p);
                out_point.push(Point { x: 0, y: 0 });
                in_point.push(Point { x: 0, y: 0 });
            },
            PathEl::LineTo(p) => {
                let last = vertices[vertices.len() - 1];
                add_cubic(&mut vertices, &mut in_point, &mut out_point, last, p, p);
            },
            PathEl::QuadTo(c, p) => {
                let last = vertices[vertices.len() - 1];
                let c0 = Point {
                    x: fx_add(fx_mul_div(last.x, 1, 3), fx_mul_div(c.x, 2, 3)),
                    y: fx_add(fx_mul_div(last.y, 1, 3), fx_mul_div(c.y, 2, 3)),
                };
                let c1 = Point {
                    x: fx_add(fx_mul_div(c.x, 2, 3), fx_mul_div(p.x, 1, 3)),
                    y: fx_add(fx_mul_div(c.y, 2, 3), fx_mul_div(p.y, 1, 3)),
                };
                add_cubic(&mut vertices, &mut in_point, &mut out_point, c0, c1, p);
            },
            PathEl::CurveTo(c0, c1, p) => {
                add_cubic(&mut vertices, &mut in_point, &mut out_point, c0, c1, p);
            },
            PathEl::ClosePath => {
                closed = Some(true);
            },
        }
        i = i + 1;
    }
    proof {
        assert(subpath.els@.take(subpath.els@.len() as int) =~= subpath.els@);
    }
    if closed.is_none() {
        let c = if vertices.len() == 0 {
            true
        } else {
            let first = vertices[0];
            let last = vertices[vertices.len() - 1];
            first.x == last.x && first.y == last.y
        };
        closed = Some(c);
    }
    ShapeValue { vertices, in_point, out_point, closed }
}

proof fn lemma_shape_fold_snoc(els: Seq<PathEl>, i: int, m0: ShapeValueModel)
    requires
        0 <= i < els.len(),
    ensures
        spec_shape_fold(els.take(i + 1), m0) == spec_shape_el(
            spec_shape_fold(els.take(i), m0),
            els[i],
        ),
    decreases i,
{
    if i == 0 {
        assert(els.take(1).len() == 1 && els.take(1)[0] == els[0]);
        assert(els.take(1).drop_first() =~= Seq::<PathEl>::empty());
        assert(els.take(0).len() == 0);
        assert(spec_shape_fold(els.take(1), m0) == spec_shape_fold(
            els.take(1).drop_first(),
            spec_shape_el(m0, els[0]),
        ));
    } else {
        let head = els[0];
        let rest = els.drop_first();
        assert(els.take(i + 1).drop_first() =~= rest.take(i));
        assert(els.take(i).drop_first() =~= rest.take(i - 1));
        assert(els.take(i + 1)[0] == head && els.take(i)[0] == head);
        lemma_shape_fold_snoc(rest, i - 1, spec_shape_el(m0, head));
        assert(rest[i - 1] == els[i]);
        assert(spec_shape_fold(els.take(i + 1), m0) == spec_shape_fold(
            rest.take(i),
            spec_shape_el(m0, head),
        ));
        assert(spec_shape_fold(els.take(i), m0) == spec_shape_fold(
            rest.take(i - 1),
            spec_shape_el(m0, head),
        ));
    }
}

/// Appends one cubic, turning absolute control points into the relative
/// outgoing and incoming handles.
fn add_cubic(
    vertices: &mut Vec<Point>,
    in_point: &mut Vec<Point>,
    out_point: &mut Vec<Point>,
    c0: Point,
    c1: Point,
    end: Point,
)
    requires
        old(vertices)@.len() > 0,
        old(out_point)@.len() == old(vertices)@.len(),
        old(in_point)@.len() == old(vertices)@.len(),
    ensures
        ({
            let m = spec_add_cubic(
                ShapeValueModel {
                    vertices: old(vertices)@,
                    in_point: old(in_point)@,
                    out_point: old(out_point)@,
                    closed: Option::None,
                },
                c0,
                c1,
                end,
            );
            final(vertices)@ == m.vertices && final(in_point)@ == m.in_point && final(out_point)@
                == m.out_point
        }),
{
    let start = vertices[vertices.len() - 1];
    let i = vertices.len() - 1;
    out_point.set(
        i,
        Point { x: fx_sub(c0.x, start.x), y: fx_sub(c0.y, start.y) },
    );
    out_point.push(Point { x: 0, y: 0 });
    in_point.push(Point { x: fx_sub(c1.x, end.x), y: fx_sub(c1.y, end.y) });
    vertices.push(end);
}

/// Elevating a quadratic to a cubic leaves the curve pointwise unchanged:
/// for every rational parameter `tn / td` of the segment, the cubic whose
/// control points are `(p0 + 2 c) / 3` and `(2 c + p1) / 3` takes the value
/// of the quadratic. Stated per coordinate with denominators cleared, so the
/// thirds and the parameter powers are exact integers: the left side is
/// three times `td^3` times the cubic, the right side three times `td^3`
/// times the quadratic.
#[verifier::rlimit(100)]
pub proof fn lemma_quad_cubic_identity(p0: int, c: int, p1: int, tn: int, td: int)
    requires
        td > 0,
        0 <= tn <= td,
    ensures
        ({
            let u = td - tn;
            (u * u * u) * (3 * p0) + (3 * (u * u) * tn) * (p0 + 2 * c) + (3 * u * (tn * tn)) * (2
                * c + p1) + (tn * tn * tn) * (3 * p1) == 3 * td * ((u * u) * p0 + (2 * u * tn) * c
                + (tn * tn) * p1)
        }),
{
    let u = td - tn;
    let a = u * u * u;
    let b = 3 * (u * u) * tn;
    let d = 3 * u * (tn * tn);
    let e2 = tn * tn * tn;
    // Distribute each weight over its control-point sum.
    assert(a * (3 * p0) == (3 * a) * p0) by (nonlinear_arith);
    assert(b * (p0 + 2 * c) == b * p0 + (2 * b) * c) by (nonlinear_arith);
    assert(d * (2 * c + p1) == (2 * d) * c + d * p1) by (nonlinear_arith);
    assert(e2 * (3 * p1) == (3 * e2) * p1) by (nonlinear_arith);
    // Collect the coefficients of each control point.
    assert((3 * a) * p0 + b * p0 == (3 * a + b) * p0) by (nonlinear_arith);
    assert((2 * b) * c + (2 * d) * c == (2 * b + 2 * d) * c) by (nonlinear_arith);
    assert(d * p1 + (3 * e2) * p1 == (d + 3 * e2) * p1) by (nonlinear_arith);
    // Each collected coefficient factors through td = u + tn.
    assert(3 * a + b == 3 * (td * (u * u))) by (nonlinear_arith)
        requires
            u == td - tn,
            a == u * u * u,
            b == 3 * (u * u) * tn,
    ;
    assert(2 * b + 2 * d == 3 * (td * (2 * u * tn))) by (nonlinear_arith)
        requires
            u == td - tn,
            b == 3 * (u * u) * tn,
            d == 3 * u * (tn * tn),
    ;
    assert(d + 3 * e2 == 3 * (td * (tn * tn))) by (nonlinear_arith)
        requires
            u == td - tn,
            d == 3 * u * (tn * tn),
            e2 == tn * tn * tn,
    ;
    // And the right side distributes into exactly those pieces.
    let pa = (u * u) * p0;
    let pb = (2 * u * tn) * c;
    let pc = (tn * tn) * p1;
    assert(3 * td * (pa + pb + pc) == 3 * (td * pa) + 3 * (td * pb) + 3 * (td * pc))
        by (nonlinear_arith);
    assert(3 * (td * pa) == (3 * (td * (u * u))) * p0) by (nonlinear_arith)
        requires
            pa == (u * u) * p0,
    ;
    assert(3 * (td * pb) == (3 * (td * (2 * u * tn))) * c) by (nonlinear_arith)
        requires
            pb == (2 * u * tn) * c,
    ;
    assert(3 * (td * pc) == (3 * (td * (tn * tn))) * p1) by (nonlinear_arith)
        requires
            pc == (tn * tn) * p1,
    ;
}


// --- the document model ---

/// A solid fill; the color is this library's 0..255 triple, carried to the
/// serializer which rescales it to unit range.
#[derive(Clone, Copy, Debug, PartialEq, Eq)]
pub struct Fill {
    pub color: Option<(u8, u8, u8)>,
}

/// One keyframe of a multi-dimensional property.
#[derive(Clone, Debug)]
pub struct MultiDimensionalKeyframe {
    pub start_time: i64,
    pub start_value: Vec<i64>,
    pub bezier: Option<BezierEase>,
}

/// A property value: fixed, or a keyframe list.
#[derive(Clone, Debug)]
pub enum LottieValue {
    Fixed(Vec<i64>),
    Animated(Vec<MultiDimensionalKeyframe>),
}

#[derive(Clone, Debug)]
pub struct LottieProperty {
    pub animated: bool,
    pub value: LottieValue,
}

/// The transform item of a group: anchor and position sit on the group
/// center so rotation and scale pivot there.
#[derive(Clone, Debug)]
pub struct LottieTransform {
    pub anchor_point: Vec<i64>,
    pub position: LottieProperty,
    pub scale: LottieProperty,
    pub rotation: LottieProperty,
}

/// One keyframe of an animated subpath: the full shape values at an instant.
#[derive(Clone, Debug)]
pub struct ShapeKeyframe {
    pub start_time: i64,
    pub start_value: Vec<ShapeValue>,
    pub bezier: Option<BezierEase>,
}

#[derive(Clone, Debug)]
pub enum SubPathValue {
    Fixed(ShapeValue),
    Animated(Vec<ShapeKeyframe>),
}

/// A Lottie subpath: its spline, and a winding direction tag (1 clockwise,
/// 3 counter-clockwise).
#[derive(Clone, Debug)]
pub struct SubPath {
    pub vertices: SubPathValue,
    pub direction: Option<i64>,
}

pub enum AnyShape {
    Group(LottieGroup),
    Shape(SubPath),
    Fill(Fill),
    Transform(LottieTransform),
}

pub struct LottieGroup {
    pub items: Vec<AnyShape>,
}

pub struct ShapeLayer {
    pub in_point: i64,
    pub out_point: i64,
    pub shapes: Vec<AnyShape>,
}

/// The document: timing, canvas size, and the layers.
pub struct Lottie {
    pub in_point: i64,
    pub out_point: i64,
    pub frame_rate: i64,
    pub width: i64,
    pub height: i64,
    pub layers: Vec<ShapeLayer>,
}

// --- interpolation compatibility ---

/// Two paths interpolate exactly when their operation-kind sequences agree.
pub fn paths_compatible(a: &BezPath, b: &BezPath) -> (r: bool)
    ensures
        r == (spec_op_kinds(a.els@) == spec_op_kinds(b.els@)),
{
    let ka = a.path_commands();
    let kb = b.path_commands();
    if ka.len() != kb.len() {
        proof {
            assert(spec_op_kinds(a.els@).len() != spec_op_kinds(b.els@).len());
        }
        return false;
    }
    let mut i: usize = 0;
    while i < ka.len()
        invariant
            i <= ka@.len(),
            ka@.len() == kb@.len(),
            ka@ == spec_op_kinds(a.els@),
            kb@ == spec_op_kinds(b.els@),
            forall|j: int| 0 <= j < i ==> ka@[j] == kb@[j],
        decreases ka@.len() - i,
    {
        if ka[i] != kb[i] {
            proof {
                assert(ka@[i as int] != kb@[i as int]);
                assert(ka@ != kb@);
            }
            return false;
        }
        i = i + 1;
    }
    proof {
        assert(ka@ =~= kb@);
    }
    true
}

// --- spring expansion of scalar keyframes ---


/// The spring state that carries one keyframe pair: start value, zero
/// velocity, the pair's end as the target.
pub open spec fn spec_pair_animation(
    v1: i64,
    v2: i64,
    vt: crate::spring::AnimatedValueType,
) -> crate::spring::AnimatedValue {
    crate::spring::AnimatedValue {
        value: v1,
        value_type: vt,
        velocity: 0i64,
        final_value: v2,
        time: 0i64,
    }
}

/// The keyframes after appending the first `n` cubics of one pair: each
/// cubic advances the frame by its x-span and lands on its end value.
pub open spec fn spec_ks_plus_cubics(ks0: Seq<Keyframe<i64>>, cs: Seq<CubicBez>, n: int) -> Seq<
    Keyframe<i64>,
>
    decreases n,
{
    if n <= 0 {
        ks0
    } else {
        let prev = spec_ks_plus_cubics(ks0, cs, n - 1);
        prev.push(
            Keyframe {
                frame: spec_add(
                    prev.last().frame as int,
                    spec_sub(cs[n - 1].p3.x as int, cs[n - 1].p0.x as int),
                ) as i64,
                value: cs[n - 1].p3.y,
            },
        )
    }
}

/// The eases after appending the first `n` cubics of one pair.
pub open spec fn spec_eases_plus_cubics(es0: Seq<BezierEase>, cs: Seq<CubicBez>, n: int) -> Seq<
    BezierEase,
>
    decreases n,
{
    if n <= 0 {
        es0
    } else {
        spec_eases_plus_cubics(es0, cs, n - 1).push(spec_ease_of_cubic(cs[n - 1]))
    }
}

/// The keyframes after expanding the first `w` pairs.
pub open spec fn spec_ks_after_pairs(
    first: Keyframe<i64>,
    css: Seq<Seq<CubicBez>>,
    w: int,
) -> Seq<Keyframe<i64>>
    decreases w,
{
    if w <= 0 {
        seq![first]
    } else {
        spec_ks_plus_cubics(
            spec_ks_after_pairs(first, css, w - 1),
            css[w - 1],
            css[w - 1].len() as int,
        )
    }
}

pub open spec fn spec_eases_after_pairs(css: Seq<Seq<CubicBez>>, w: int) -> Seq<BezierEase>
    decreases w,
{
    if w <= 0 {
        seq![spec_default_ease()]
    } else {
        spec_eases_plus_cubics(
            spec_eases_after_pairs(css, w - 1),
            css[w - 1],
            css[w - 1].len() as int,
        )
    }
}

/// The spring-expansion law: for each consecutive keyframe pair there are
/// cubic segments that approximate the spring between its values, and the
/// output keyframes and eases are the first keyframe followed by each
/// cubic's endpoint, frames advanced by the cubic's x-span, eased by that
/// cubic.
pub open spec fn spec_spring_expanded(
    keyframes: Seq<Keyframe<i64>>,
    vt: crate::spring::AnimatedValueType,
    spring: crate::spring::Spring,
    frame_rate: int,
    css: Seq<Seq<CubicBez>>,
    ks: Seq<Keyframe<i64>>,
    eases: Seq<BezierEase>,
) -> bool {
    &&& css.len() == keyframes.len() - 1
    &&& forall|w: int|
        0 <= w < css.len() ==> crate::spring2cubic::cubics_approximate(
            #[trigger] css[w],
            spring,
            spec_pair_animation(keyframes[w].value, keyframes[w + 1].value, vt),
            frame_rate,
        )
    &&& ks == spec_ks_after_pairs(keyframes[0], css, css.len() as int)
    &&& eases == spec_eases_after_pairs(css, css.len() as int)
}

/// Why a spring expansion failed: some consecutive pair either has no
/// hand-tuned template for the spring, or its simulation passed the time
/// cap unsettled.
pub open spec fn spec_expansion_failed(
    keyframes: Seq<Keyframe<i64>>,
    vt: crate::spring::AnimatedValueType,
    spring: crate::spring::Spring,
    frame_rate: int,
    e: crate::error::CubicApproximationError,
) -> bool {
    exists|w: int|
        #![trigger keyframes[w]]
        0 <= w < keyframes.len() - 1 && ((e
            == crate::error::CubicApproximationError::UnrecognizedSpring
            && crate::spring2cubic::spec_handwritten_cubic(spring) is None) || (e
            == crate::error::CubicApproximationError::RanTooLong && exists|fe: int|
            #[trigger] crate::spring2cubic::ran_too_long_at(
                spring,
                spec_pair_animation(keyframes[w].value, keyframes[w + 1].value, vt),
                frame_rate,
                fe,
            )))
}

/// Expands a scalar keyframe series: with a spring tag and at least two
/// keyframes, each consecutive pair is replaced by the spring's cubic
/// segments; each cubic's endpoint becomes a keyframe and the cubic its
/// ease. Without a spring the keyframes stand with the default ease.
#[verifier::rlimit(100)]
#[verifier::spinoff_prover]
pub fn scalar_motion(
    keyframes: &Vec<Keyframe<i64>>,
    spring: Option<crate::spring::Spring>,
    frame_rate: i64,
    value_type: crate::spring::AnimatedValueType,
) -> (r: Result<(Vec<Keyframe<i64>>, Vec<BezierEase>), crate::error::CubicApproximationError>)
    requires
        0 < frame_rate <= crate::spring2cubic::MAX_FRAME_RATE,
        keyframes@.len() >= 1,
    ensures
        match r {
            Ok((ks, eases)) => {
                &&& eases@.len() == ks@.len()
                &&& ks@.len() >= 1
                &&& ks@[0] == keyframes@[0]
                &&& eases@[0] == spec_default_ease()
                &&& ((spring is None || keyframes@.len() == 1) ==> ks@ == keyframes@ && (forall|
                    i: int,
                |
                    0 <= i < eases@.len() ==> (#[trigger] eases@[i]) == spec_default_ease()))
                &&& (spring is Some && keyframes@.len() > 1 ==> exists|css: Seq<Seq<CubicBez>>|
                    #[trigger] spec_spring_expanded(
                        keyframes@,
                        value_type,
                        spring.unwrap(),
                        frame_rate as int,
                        css,
                        ks@,
                        eases@,
                    ))
            },
            Err(e) => spring is Some && keyframes@.len() > 1 && spec_expansion_failed(
                keyframes@,
                value_type,
                spring.unwrap(),
                frame_rate as int,
                e,
            ),
        },
{
    let spr = match spring {
        Some(s) if keyframes.len() > 1 => s,
        _ => {
            let mut ks: Vec<Keyframe<i64>> = Vec::new();
            let mut eases: Vec<BezierEase> = Vec::new();
            let mut i: usize = 0;
            while i < keyframes.len()
                invariant
                    i <= keyframes@.len(),
                    keyframes@.len() >= 1,
                    ks@ == keyframes@.take(i as int),
                    eases@.len() == i,
                    forall|j: int| 0 <= j < i ==> (#[trigger] eases@[j]) == spec_default_ease(),
                decreases keyframes@.len() - i,
            {
                ks.push(Keyframe { frame: keyframes[i].frame, value: keyframes[i].value });
                eases.push(default_ease());
                proof {
                    assert(keyframes@.take(i as int).push(keyframes@[i as int]) =~= keyframes@.take(
                        i + 1,
                    ));
                    assert(ks@[i as int] == keyframes@[i as int]);
                }
                i = i + 1;
            }
            proof {
                assert(keyframes@.take(keyframes@.len() as int) =~= keyframes@);
            }
            return Ok((ks, eases));
        },
    };
    let mut new_keyframes: Vec<Keyframe<i64>> = Vec::new();
    new_keyframes.push(Keyframe { frame: keyframes[0].frame, value: keyframes[0].value });
    let mut eases: Vec<BezierEase> = Vec::new();
    eases.push(default_ease());
    let ghost mut css: Seq<Seq<CubicBez>> = Seq::empty();
    proof {
        assert(new_keyframes@ =~= spec_ks_after_pairs(keyframes@[0], css, 0));
        assert(eases@ =~= spec_eases_after_pairs(css, 0));
    }
    let mut w: usize = 0;
    while w < keyframes.len() - 1
        invariant
            w + 1 <= keyframes@.len(),
            keyframes@.len() >= 2,
            0 < frame_rate <= crate::spring2cubic::MAX_FRAME_RATE,
            spring is Some,
            spring.unwrap() == spr,
            new_keyframes@.len() >= 1,
            eases@.len() == new_keyframes@.len(),
            new_keyframes@[0] == keyframes@[0],
            eases@[0] == spec_default_ease(),
            css.len() == w,
            forall|w2: int|
                0 <= w2 < css.len() ==> crate::spring2cubic::cubics_approximate(
                    #[trigger] css[w2],
                    spr,
                    spec_pair_animation(keyframes@[w2].value, keyframes@[w2 + 1].value, value_type),
                    frame_rate as int,
                ),
            new_keyframes@ == spec_ks_after_pairs(keyframes@[0], css, css.len() as int),
            eases@ == spec_eases_after_pairs(css, css.len() as int),
        decreases keyframes@.len() - w,
    {
        let v1 = keyframes[w].value;
        let v2 = keyframes[w + 1].value;
        let animation = crate::spring::AnimatedValue::new(v1, v2, value_type);
        let cubics = match crate::spring2cubic::cubic_approximation(frame_rate, animation, spr) {
            Ok(cs) => cs,
            Err(e) => {
                proof {
                    assert(animation == spec_pair_animation(
                        keyframes@[w as int].value,
                        keyframes@[w as int + 1].value,
                        value_type,
                    ));
                    assert(spec_expansion_failed(
                        keyframes@,
                        value_type,
                        spr,
                        frame_rate as int,
                        e,
                    )) by {
                        assert(0 <= (w as int) && (w as int) < keyframes@.len() - 1);
                        assert(keyframes@[w as int] == keyframes@[w as int]);
                    }
                }
                return Err(e);
            },
        };
        let ghost ks_entry = new_keyframes@;
        let ghost es_entry = eases@;
        let mut ci: usize = 0;
        while ci < cubics.len()
            invariant
                ci <= cubics@.len(),
                keyframes@.len() >= 2,
                new_keyframes@.len() >= 1,
                eases@.len() == new_keyframes@.len(),
                new_keyframes@[0] == keyframes@[0],
                eases@[0] == spec_default_ease(),
                new_keyframes@ == spec_ks_plus_cubics(ks_entry, cubics@, ci as int),
                eases@ == spec_eases_plus_cubics(es_entry, cubics@, ci as int),
            decreases cubics@.len() - ci,
        {
            let cubic = cubics[ci];
            let frame_offset = fx_sub(cubic.p3.x, cubic.p0.x);
            let last_frame = new_keyframes[new_keyframes.len() - 1].frame;
            let frame = fx_add(last_frame, frame_offset);
            new_keyframes.push(Keyframe { frame, value: cubic.p3.y });
            eases.push(to_lottie_ease(cubic));
            ci = ci + 1;
        }
        proof {
            let cssn = css.push(cubics@);
            assert(cssn[w as int] == cubics@);
            assert(cssn.len() as int - 1 == w as int);
            assert forall|w2: int|
                0 <= w2 < cssn.len() implies crate::spring2cubic::cubics_approximate(
                #[trigger] cssn[w2],
                spr,
                spec_pair_animation(keyframes@[w2].value, keyframes@[w2 + 1].value, value_type),
                frame_rate as int,
            ) by {
                if w2 < w {
                    assert(cssn[w2] == css[w2]);
                }
            }
            lemma_pairs_prefix(keyframes@[0], css, cubics@);
            css = cssn;
        }
        w = w + 1;
    }
    proof {
        assert(css.len() as int == keyframes@.len() - 1);
        assert(spec_spring_expanded(
            keyframes@,
            value_type,
            spr,
            frame_rate as int,
            css,
            new_keyframes@,
            eases@,
        ));
    }
    Ok((new_keyframes, eases))
}

/// Expanding one more pair folds its cubics onto the accumulated series.
proof fn lemma_pairs_prefix(first: Keyframe<i64>, css: Seq<Seq<CubicBez>>, cs: Seq<CubicBez>)
    ensures
        spec_ks_after_pairs(first, css.push(cs), css.len() as int + 1) == spec_ks_plus_cubics(
            spec_ks_after_pairs(first, css, css.len() as int),
            cs,
            cs.len() as int,
        ),
        spec_eases_after_pairs(css.push(cs), css.len() as int + 1) == spec_eases_plus_cubics(
            spec_eases_after_pairs(css, css.len() as int),
            cs,
            cs.len() as int,
        ),
{
    lemma_pairs_unchanged(first, css, cs, css.len() as int);
    assert(css.push(cs)[css.len() as int] == cs);
}

/// Earlier pairs are indifferent to a later appended pair.
proof fn lemma_pairs_unchanged(
    first: Keyframe<i64>,
    css: Seq<Seq<CubicBez>>,
    cs: Seq<CubicBez>,
    w: int,
)
    requires
        w <= css.len(),
    ensures
        spec_ks_after_pairs(first, css.push(cs), w) == spec_ks_after_pairs(first, css, w),
        spec_eases_after_pairs(css.push(cs), w) == spec_eases_after_pairs(css, w),
    decreases w,
{
    if w > 0 {
        lemma_pairs_unchanged(first, css, cs, w - 1);
        assert(css.push(cs)[w - 1] == css[w - 1]);
    }
}


// --- lowering the scene graph ---

/// All pair values of a scale or position series are uniform, so a scalar
/// spring can drive them.
fn pairs_uniform(keyframes: &Vec<Keyframe<(i64, i64)>>) -> (r: bool)
    ensures
        r == (forall|i: int|
            0 <= i < keyframes@.len() ==> (#[trigger] keyframes@[i]).value.0
                == keyframes@[i].value.1),
{
    let mut i: usize = 0;
    while i < keyframes.len()
        invariant
            i <= keyframes@.len(),
            forall|j: int|
                0 <= j < i ==> (#[trigger] keyframes@[j]).value.0 == keyframes@[j].value.1,
        decreases keyframes@.len() - i,
    {
        if keyframes[i].value.0 != keyframes[i].value.1 {
            return false;
        }
        i = i + 1;
    }
    true
}


/// The multi-dimensional keyframes mirror a scalar series one to one:
/// same times, the value as a singleton vector, the ease attached.
pub open spec fn spec_mdk_scalar(
    mks: Seq<MultiDimensionalKeyframe>,
    sks: Seq<Keyframe<i64>>,
    ses: Seq<BezierEase>,
) -> bool {
    &&& mks.len() == sks.len()
    &&& ses.len() == sks.len()
    &&& forall|i: int|
        0 <= i < mks.len() ==> (#[trigger] mks[i]).start_time == sks[i].frame && mks[i].start_value@
            =~= seq![sks[i].value] && mks[i].bezier == Some(ses[i])
}

/// As `spec_mdk_scalar`, with the scalar value doubled into a pair.
pub open spec fn spec_mdk_pair(
    mks: Seq<MultiDimensionalKeyframe>,
    sks: Seq<Keyframe<i64>>,
    ses: Seq<BezierEase>,
) -> bool {
    &&& mks.len() == sks.len()
    &&& ses.len() == sks.len()
    &&& forall|i: int|
        0 <= i < mks.len() ==> (#[trigger] mks[i]).start_time == sks[i].frame && mks[i].start_value@
            =~= seq![sks[i].value, sks[i].value] && mks[i].bezier == Some(ses[i])
}

/// The scale series read as a scalar: the first component of every pair.
pub open spec fn spec_scale_scalar(ks: Seq<Keyframe<(i64, i64)>>) -> Seq<Keyframe<i64>> {
    ks.map_values(|k: Keyframe<(i64, i64)>| Keyframe { frame: k.frame, value: k.value.0 })
}

/// A scalar series expanded under a spring tag, wrapped for triggers.
pub open spec fn spec_expanded_scalar_mdk(
    keyframes: Seq<Keyframe<i64>>,
    vt: crate::spring::AnimatedValueType,
    spring: crate::spring::Spring,
    frame_rate: int,
    mks: Seq<MultiDimensionalKeyframe>,
    pair: bool,
) -> bool {
    exists|sks: Seq<Keyframe<i64>>, ses: Seq<BezierEase>, css: Seq<Seq<CubicBez>>|
        #![trigger spec_spring_expanded(keyframes, vt, spring, frame_rate, css, sks, ses)]
        spec_spring_expanded(keyframes, vt, spring, frame_rate, css, sks, ses) && (if pair {
            spec_mdk_pair(mks, sks, ses)
        } else {
            spec_mdk_scalar(mks, sks, ses)
        })
}

/// Why lowering this group's transform can fail: one of its spring-tagged
/// scalar series could not be expanded.
pub open spec fn spec_transform_failure(
    group: crate::ir::Group,
    frame_rate: int,
    e: crate::error::CubicApproximationError,
) -> bool {
    ||| (group.rotate.spring is Some && group.rotate.keyframes@.len() > 1
        && spec_expansion_failed(
        group.rotate.keyframes@,
        crate::spring::AnimatedValueType::Rotation,
        group.rotate.spring.unwrap(),
        frame_rate,
        e,
    ))
    ||| (group.scale.spring is Some && group.scale.keyframes@.len() > 1 && (forall|i: int|
        0 <= i < group.scale.keyframes@.len() ==> (#[trigger] group.scale.keyframes@[i]).value.0
            == group.scale.keyframes@[i].value.1) && spec_expansion_failed(
        spec_scale_scalar(group.scale.keyframes@),
        crate::spring::AnimatedValueType::Scale,
        group.scale.spring.unwrap(),
        frame_rate,
        e,
    ))
}

/// The transform item of a group: anchor and position both sit on the
/// center, and each keyframed series becomes a fixed or animated property.
/// A spring tag on a uniform scalar series is expanded into cubic segments;
/// non-scalar series fall through to the default ease.
#[verifier::loop_isolation(false)]
pub fn to_lottie_transform(group: &crate::ir::Group, frame_rate: i64) -> (r: Result<
    LottieTransform,
    crate::error::CubicApproximationError,
>)
    requires
        crate::ir::group_wf(*group),
        0 < frame_rate <= crate::spring2cubic::MAX_FRAME_RATE,
    ensures
        match r {
            Ok(t) => {
                &&& t.anchor_point@ == seq![group.center.x, group.center.y]
                &&& t.rotation.animated == (group.rotate.keyframes@.len() > 1)
                &&& (group.rotate.keyframes@.len() == 1 ==> t.rotation.value is Fixed
                    && (t.rotation.value->Fixed_0)@ == seq![group.rotate.keyframes@[0].value])
                &&& (group.rotate.keyframes@.len() > 1 ==> t.rotation.value is Animated && {
                    let mks = (t.rotation.value->Animated_0)@;
                    if group.rotate.spring is Some {
                        spec_expanded_scalar_mdk(
                            group.rotate.keyframes@,
                            crate::spring::AnimatedValueType::Rotation,
                            group.rotate.spring.unwrap(),
                            frame_rate as int,
                            mks,
                            false,
                        )
                    } else {
                        spec_mdk_scalar(
                            mks,
                            group.rotate.keyframes@,
                            Seq::new(group.rotate.keyframes@.len(), |i: int| spec_default_ease()),
                        )
                    }
                })
                &&& t.scale.animated == (group.scale.keyframes@.len() > 1)
                &&& (group.scale.keyframes@.len() == 1 ==> t.scale.value is Fixed && (
                t.scale.value->Fixed_0)@ == seq![
                    group.scale.keyframes@[0].value.0,
                    group.scale.keyframes@[0].value.1,
                ])
                &&& (group.scale.keyframes@.len() > 1 ==> t.scale.value is Animated && {
                    let mks = (t.scale.value->Animated_0)@;
                    if group.scale.spring is Some && (forall|i: int|
                        0 <= i < group.scale.keyframes@.len() ==> (
                        #[trigger] group.scale.keyframes@[i]).value.0
                            == group.scale.keyframes@[i].value.1) {
                        spec_expanded_scalar_mdk(
                            spec_scale_scalar(group.scale.keyframes@),
                            crate::spring::AnimatedValueType::Scale,
                            group.scale.spring.unwrap(),
                            frame_rate as int,
                            mks,
                            true,
                        )
                    } else {
                        mks.len() == group.scale.keyframes@.len() && forall|i: int|
                            0 <= i < mks.len() ==> (#[trigger] mks[i]).start_time
                                == group.scale.keyframes@[i].frame && mks[i].start_value@ =~= seq![
                                group.scale.keyframes@[i].value.0,
                                group.scale.keyframes@[i].value.1,
                            ] && mks[i].bezier == Some(spec_default_ease())
                    }
                })
                &&& t.position.animated == (group.translate.keyframes@.len() > 1)
                &&& (group.translate.keyframes@.len() == 1 ==> t.position.value is Fixed && (
                t.position.value->Fixed_0)@ == seq![
                    crate::fixed::spec_add(
                        group.center.x as int,
                        group.translate.keyframes@[0].value.x as int,
                    ) as i64,
                    crate::fixed::spec_add(
                        group.center.y as int,
                        group.translate.keyframes@[0].value.y as int,
                    ) as i64,
                ])
                &&& (group.translate.keyframes@.len() > 1 ==> t.position.value is Animated && {
                    let mks = (t.position.value->Animated_0)@;
                    mks.len() == group.translate.keyframes@.len() && forall|i: int|
                        0 <= i < mks.len() ==> (#[trigger] mks[i]).start_time
                            == group.translate.keyframes@[i].frame && mks[i].start_value@ =~= seq![
                            crate::fixed::spec_add(
                                group.center.x as int,
                                group.translate.keyframes@[i].value.x as int,
                            ) as i64,
                            crate::fixed::spec_add(
                                group.center.y as int,
                                group.translate.keyframes@[i].value.y as int,
                            ) as i64,
                        ] && mks[i].bezier == Some(spec_default_ease())
                })
            },
            Err(e) => spec_transform_failure(*group, frame_rate as int, e),
        },
{
    // Rotation: a scalar series, spring-expandable.
    let rotation: LottieProperty = if group.rotate.keyframes.len() > 1 {
        let (ks, eases) = match scalar_motion(
            &group.rotate.keyframes,
            group.rotate.spring,
            frame_rate,
            crate::spring::AnimatedValueType::Rotation,
        ) {
            Ok(p) => p,
            Err(e) => {
                return Err(e);
            },
        };
        let mut frames: Vec<MultiDimensionalKeyframe> = Vec::new();
        let mut i: usize = 0;
        while i < ks.len()
            invariant
                i <= ks@.len(),
                eases@.len() == ks@.len(),
                frames@.len() == i,
                forall|j: int|
                    0 <= j < i ==> (#[trigger] frames@[j]).start_time == ks@[j].frame && frames@[
                    j].start_value@ =~= seq![ks@[j].value] && frames@[j].bezier == Some(eases@[j]),
            decreases ks@.len() - i,
        {
            let mut value: Vec<i64> = Vec::new();
            value.push(ks[i].value);
            frames.push(
                MultiDimensionalKeyframe {
                    start_time: ks[i].frame,
                    start_value: value,
                    bezier: Some(eases[i]),
                },
            );
            i = i + 1;
        }
        proof {
            assert(spec_mdk_scalar(frames@, ks@, eases@));
            if group.rotate.spring is Some {
                let css = choose|css: Seq<Seq<CubicBez>>|
                    #[trigger] spec_spring_expanded(
                        group.rotate.keyframes@,
                        crate::spring::AnimatedValueType::Rotation,
                        group.rotate.spring.unwrap(),
                        frame_rate as int,
                        css,
                        ks@,
                        eases@,
                    );
                assert(spec_expanded_scalar_mdk(
                    group.rotate.keyframes@,
                    crate::spring::AnimatedValueType::Rotation,
                    group.rotate.spring.unwrap(),
                    frame_rate as int,
                    frames@,
                    false,
                ));
            } else {
                assert(spec_mdk_scalar(
                    frames@,
                    group.rotate.keyframes@,
                    Seq::new(group.rotate.keyframes@.len(), |i2: int| spec_default_ease()),
                )) by {
                    assert(ks@ =~= group.rotate.keyframes@);
                    assert forall|j: int|
                        0 <= j < frames@.len() implies (#[trigger] frames@[j]).bezier == Some(
                        Seq::new(group.rotate.keyframes@.len(), |i2: int| spec_default_ease())[j],
                    ) by {
                        assert(eases@[j] == spec_default_ease());
                    }
                }
            }
        }
        LottieProperty { animated: true, value: LottieValue::Animated(frames) }
    } else {
        let mut v: Vec<i64> = Vec::new();
        v.push(group.rotate.earliest().value);
        proof {
            assert(v@ =~= seq![group.rotate.keyframes@[0].value]);
        }
        LottieProperty { animated: false, value: LottieValue::Fixed(v) }
    };
    // Scale: a percent pair; uniform pairs may carry a spring.
    let scale: LottieProperty = if group.scale.keyframes.len() > 1 {
        let uniform = pairs_uniform(&group.scale.keyframes);
        if group.scale.spring.is_some() && uniform {
            let mut scalar: Vec<Keyframe<i64>> = Vec::new();
            let mut i: usize = 0;
            while i < group.scale.keyframes.len()
                invariant
                    i <= group.scale.keyframes@.len(),
                    scalar@.len() == i,
                    forall|j: int|
                        0 <= j < i ==> (#[trigger] scalar@[j]).frame == group.scale.keyframes@[
                        j].frame && scalar@[j].value == group.scale.keyframes@[j].value.0,
                decreases group.scale.keyframes@.len() - i,
            {
                scalar.push(
                    Keyframe {
                        frame: group.scale.keyframes[i].frame,
                        value: group.scale.keyframes[i].value.0,
                    },
                );
                i = i + 1;
            }
            proof {
                assert(scalar@ =~= spec_scale_scalar(group.scale.keyframes@));
                assert(scalar@.len() >= 1);
            }
            let (ks, eases) = match scalar_motion(
                &scalar,
                group.scale.spring,
                frame_rate,
                crate::spring::AnimatedValueType::Scale,
            ) {
                Ok(p) => p,
                Err(e) => {
                    proof {
                        assert(spec_expansion_failed(
                            spec_scale_scalar(group.scale.keyframes@),
                            crate::spring::AnimatedValueType::Scale,
                            group.scale.spring.unwrap(),
                            frame_rate as int,
                            e,
                        ));
                    }
                    return Err(e);
                },
            };
            let mut frames: Vec<MultiDimensionalKeyframe> = Vec::new();
            let mut i2: usize = 0;
            while i2 < ks.len()
                invariant
                    i2 <= ks@.len(),
                    eases@.len() == ks@.len(),
                    frames@.len() == i2,
                    forall|j: int|
                        0 <= j < i2 ==> (#[trigger] frames@[j]).start_time == ks@[j].frame
                            && frames@[j].start_value@ =~= seq![ks@[j].value, ks@[j].value]
                            && frames@[j].bezier == Some(eases@[j]),
                decreases ks@.len() - i2,
            {
                let mut value: Vec<i64> = Vec::new();
                value.push(ks[i2].value);
                value.push(ks[i2].value);
                frames.push(
                    MultiDimensionalKeyframe {
                        start_time: ks[i2].frame,
                        start_value: value,
                        bezier: Some(eases[i2]),
                    },
                );
                i2 = i2 + 1;
            }
            proof {
                assert(spec_mdk_pair(frames@, ks@, eases@));
                let css = choose|css: Seq<Seq<CubicBez>>|
                    #[trigger] spec_spring_expanded(
                        scalar@,
                        crate::spring::AnimatedValueType::Scale,
                        group.scale.spring.unwrap(),
                        frame_rate as int,
                        css,
                        ks@,
                        eases@,
                    );
                assert(spec_spring_expanded(
                    spec_scale_scalar(group.scale.keyframes@),
                    crate::spring::AnimatedValueType::Scale,
                    group.scale.spring.unwrap(),
                    frame_rate as int,
                    css,
                    ks@,
                    eases@,
                ));
                assert(spec_expanded_scalar_mdk(
                    spec_scale_scalar(group.scale.keyframes@),
                    crate::spring::AnimatedValueType::Scale,
                    group.scale.spring.unwrap(),
                    frame_rate as int,
                    frames@,
                    true,
                ));
            }
            LottieProperty { animated: true, value: LottieValue::Animated(frames) }
        } else {
            let mut frames: Vec<MultiDimensionalKeyframe> = Vec::new();
            let mut i: usize = 0;
            while i < group.scale.keyframes.len()
                invariant
                    i <= group.scale.keyframes@.len(),
                    frames@.len() == i,
                    forall|j: int|
                        0 <= j < i ==> (#[trigger] frames@[j]).start_time
                            == group.scale.keyframes@[j].frame && frames@[j].start_value@ =~= seq![
                            group.scale.keyframes@[j].value.0,
                            group.scale.keyframes@[j].value.1,
                        ] && frames@[j].bezier == Some(spec_default_ease()),
                decreases group.scale.keyframes@.len() - i,
            {
                let kf = &group.scale.keyframes[i];
                let mut value: Vec<i64> = Vec::new();
                value.push(kf.value.0);
                value.push(kf.value.1);
                frames.push(
                    MultiDimensionalKeyframe {
                        start_time: kf.frame,
                        start_value: value,
                        bezier: Some(default_ease()),
                    },
                );
                i = i + 1;
            }
            LottieProperty { animated: true, value: LottieValue::Animated(frames) }
        }
    } else {
        let mut v: Vec<i64> = Vec::new();
        let kf = group.scale.earliest();
        v.push(kf.value.0);
        v.push(kf.value.1);
        proof {
            assert(v@ =~= seq![
                group.scale.keyframes@[0].value.0,
                group.scale.keyframes@[0].value.1,
            ]);
        }
        LottieProperty { animated: false, value: LottieValue::Fixed(v) }
    };
    // Position: the center plus the translation, default eases.
    let position: LottieProperty = if group.translate.keyframes.len() > 1 {
        let mut frames: Vec<MultiDimensionalKeyframe> = Vec::new();
        let mut i: usize = 0;
        while i < group.translate.keyframes.len()
            invariant
                i <= group.translate.keyframes@.len(),
                frames@.len() == i,
                forall|j: int|
                    0 <= j < i ==> (#[trigger] frames@[j]).start_time == group.translate.keyframes@[
                    j].frame && frames@[j].start_value@ =~= seq![
                        crate::fixed::spec_add(
                            group.center.x as int,
                            group.translate.keyframes@[j].value.x as int,
                        ) as i64,
                        crate::fixed::spec_add(
                            group.center.y as int,
                            group.translate.keyframes@[j].value.y as int,
                        ) as i64,
                    ] && frames@[j].bezier == Some(spec_default_ease()),
            decreases group.translate.keyframes@.len() - i,
        {
            let kf = &group.translate.keyframes[i];
            let mut value: Vec<i64> = Vec::new();
            value.push(fx_add(group.center.x, kf.value.x));
            value.push(fx_add(group.center.y, kf.value.y));
            frames.push(
                MultiDimensionalKeyframe {
                    start_time: kf.frame,
                    start_value: value,
                    bezier: Some(default_ease()),
                },
            );
            i = i + 1;
        }
        LottieProperty { animated: true, value: LottieValue::Animated(frames) }
    } else {
        let kf = group.translate.earliest();
        let mut v: Vec<i64> = Vec::new();
        v.push(fx_add(group.center.x, kf.value.x));
        v.push(fx_add(group.center.y, kf.value.y));
        proof {
            assert(v@ =~= seq![
                crate::fixed::spec_add(
                    group.center.x as int,
                    group.translate.keyframes@[0].value.x as int,
                ) as i64,
                crate::fixed::spec_add(
                    group.center.y as int,
                    group.translate.keyframes@[0].value.y as int,
                ) as i64,
            ]);
        }
        LottieProperty { animated: false, value: LottieValue::Fixed(v) }
    };
    let mut anchor_point: Vec<i64> = Vec::new();
    anchor_point.push(group.center.x);
    anchor_point.push(group.center.y);
    proof {
        assert(anchor_point@ =~= seq![group.center.x, group.center.y]);
    }
    Ok(LottieTransform { anchor_point, position, scale, rotation })
}

/// Lowers a shape series: a static shape becomes one fixed subpath per
/// subpath of its path; an animated one must be interpolation compatible —
/// every keyframe sharing the earliest one's operation-kind sequence — and
/// becomes one subpath whose vertices animate. Shape morphs take the default
/// ease; a spring tag is not scalar and falls through to it.
#[verifier::loop_isolation(false)]
/// A Lottie spline equals a shape model, field for field.
pub open spec fn shape_value_is(sv: ShapeValue, m: ShapeValueModel) -> bool {
    &&& sv.vertices@ == m.vertices
    &&& sv.in_point@ == m.in_point
    &&& sv.out_point@ == m.out_point
    &&& sv.closed == m.closed
}

/// The splines encode exactly the subpaths of one path: some split of it
/// into subpaths matches them one for one.
pub open spec fn spec_subpath_values(els: Seq<PathEl>, vals: Seq<ShapeValue>) -> bool {
    exists|parts: Seq<Seq<PathEl>>|
        #![trigger parts.len()]
        {
            &&& parts.flatten() == els
            &&& (forall|k: int| 0 <= k < parts.len() ==> is_subpath(#[trigger] parts[k]))
            &&& vals.len() == parts.len()
            &&& (forall|k: int|
                0 <= k < vals.len() ==> shape_value_is(
                    #[trigger] vals[k],
                    spec_shape_value(parts[k]),
                ))
        }
}

/// The static lowering of one path: one `SubPath` per subpath, its spline
/// the subpath's encoding, its direction by the sign of twice the signed
/// area of the flattened subpath.
pub open spec fn spec_static_subs(els: Seq<PathEl>, subs: Seq<SubPath>) -> bool {
    exists|parts: Seq<Seq<PathEl>>|
        #![trigger parts.len()]
        {
            &&& parts.flatten() == els
            &&& (forall|k: int| 0 <= k < parts.len() ==> is_subpath(#[trigger] parts[k]))
            &&& subs.len() == parts.len()
            &&& (forall|k: int|
                0 <= k < subs.len() ==> ((#[trigger] subs[k]).vertices matches SubPathValue::Fixed(
                    sv,
                ) && shape_value_is(sv, spec_shape_value(parts[k])) && subs[k].direction == Some(
                    (if crate::winding::spec_area2(crate::winding::spec_flatten(parts[k])) > 0 {
                        1i64
                    } else {
                        3i64
                    }),
                )))
        }
}

pub fn to_lottie_subpath(shape: &Keyframed<BezPath>) -> (r: Result<
    Vec<SubPath>,
    crate::error::LottieError,
>)
    requires
        crate::ir::shape_wf(*shape),
        forall|i: int|
            0 <= i < shape.keyframes@.len() ==> (#[trigger] shape.keyframes@[i]).value.els@.len()
                <= crate::grouping::MAX_SUBPATH_ELS,
    ensures
        match r {
            Ok(subs) => (forall|i: int|
                0 <= i < shape.keyframes@.len() ==> spec_op_kinds(
                    (#[trigger] shape.keyframes@[i]).value.els@,
                ) == spec_op_kinds(shape.keyframes@[0].value.els@)) && (shape.keyframes@.len() < 2
                ==> subs@.len() == crate::geom::count_moves(shape.keyframes@[0].value.els@)
                    && spec_static_subs(shape.keyframes@[0].value.els@, subs@)) && (
            shape.keyframes@.len() >= 2 ==> subs@.len() == 1 && subs@[0].vertices is Animated && (
            subs@[0].vertices->Animated_0)@.len() == shape.keyframes@.len() && (forall|i: int|
                0 <= i < (subs@[0].vertices->Animated_0)@.len() ==> (#[trigger] (subs@[
                0].vertices->Animated_0)@[i]).start_time == shape.keyframes@[i].frame
                    && spec_subpath_values(
                    shape.keyframes@[i].value.els@,
                    (subs@[0].vertices->Animated_0)@[i].start_value@,
                ))),
            Err(e) => e is IncompatiblePaths && exists|i: int|
                0 <= i < shape.keyframes@.len() && spec_op_kinds(
                    (#[trigger] shape.keyframes@[i]).value.els@,
                ) != spec_op_kinds(shape.keyframes@[0].value.els@),
        },
{
    if shape.keyframes.len() < 2 {
        let parts = shape.earliest().value.subpaths();
        proof {
            crate::geom::lemma_split_count(
                parts@.map_values(|p: BezPath| p.els@),
                shape.keyframes@[0].value.els@,
            );
        }
        let mut subs: Vec<SubPath> = Vec::new();
        let mut i: usize = 0;
        while i < parts.len()
            invariant
                i <= parts@.len(),
                subs@.len() == i,
                forall|k: int| 0 <= k < parts@.len() ==> is_subpath((#[trigger] parts@[k]).els@),
                forall|k: int|
                    0 <= k < i ==> ((#[trigger] subs@[k]).vertices matches SubPathValue::Fixed(
                        sv,
                    ) && shape_value_is(sv, spec_shape_value(parts@[k].els@))
                        && subs@[k].direction == Some(
                        (if crate::winding::spec_area2(
                            crate::winding::spec_flatten(parts@[k].els@),
                        ) > 0 {
                            1i64
                        } else {
                            3i64
                        }),
                    )),
            decreases parts@.len() - i,
        {
            let pts = crate::winding::flatten_subpath(&parts[i]);
            let direction: i64 = if crate::winding::area2(&pts) > 0 {
                1
            } else {
                3
            };
            let sv = create_shapevalue(&parts[i]);
            subs.push(SubPath { vertices: SubPathValue::Fixed(sv), direction: Some(direction) });
            i = i + 1;
        }
        proof {
            let pm = parts@.map_values(|p: BezPath| p.els@);
            assert(pm.len() == parts@.len());
            assert(pm.flatten() == shape.keyframes@[0].value.els@);
            assert(forall|k: int| 0 <= k < pm.len() ==> #[trigger] pm[k] == parts@[k].els@);
            assert(spec_static_subs(shape.keyframes@[0].value.els@, subs@));
        }
        return Ok(subs);
    }
    // Animated: every keyframe must share the earliest kind sequence.
    let mut i: usize = 0;
    while i < shape.keyframes.len()
        invariant
            i <= shape.keyframes@.len(),
            forall|j: int|
                0 <= j < i ==> spec_op_kinds((#[trigger] shape.keyframes@[j]).value.els@)
                    == spec_op_kinds(shape.keyframes@[0].value.els@),
        decreases shape.keyframes@.len() - i,
    {
        if !paths_compatible(&shape.keyframes[0].value, &shape.keyframes[i].value) {
            return Err(crate::error::LottieError::IncompatiblePaths(shape.duplicate()));
        }
        i = i + 1;
    }
    let mut keyframes: Vec<ShapeKeyframe> = Vec::new();
    let mut i2: usize = 0;
    while i2 < shape.keyframes.len()
        invariant
            i2 <= shape.keyframes@.len(),
            crate::ir::shape_wf(*shape),
            keyframes@.len() == i2,
            forall|j: int|
                0 <= j < i2 ==> (#[trigger] keyframes@[j]).start_time == shape.keyframes@[j].frame
                    && spec_subpath_values(
                    shape.keyframes@[j].value.els@,
                    keyframes@[j].start_value@,
                ),
        decreases shape.keyframes@.len() - i2,
    {
        proof {
            assert(crate::geom::starts_with_move(shape.keyframes@[i2 as int].value.els@));
        }
        let parts = shape.keyframes[i2].value.subpaths();
        let mut values: Vec<ShapeValue> = Vec::new();
        let mut p: usize = 0;
        while p < parts.len()
            invariant
                p <= parts@.len(),
                values@.len() == p,
                forall|k: int| 0 <= k < parts@.len() ==> is_subpath((#[trigger] parts@[k]).els@),
                forall|k: int|
                    0 <= k < p ==> shape_value_is(
                        #[trigger] values@[k],
                        spec_shape_value(parts@[k].els@),
                    ),
            decreases parts@.len() - p,
        {
            values.push(create_shapevalue(&parts[p]));
            p = p + 1;
        }
        proof {
            let pm = parts@.map_values(|q: BezPath| q.els@);
            assert(pm.len() == parts@.len());
            assert(pm.flatten() == shape.keyframes@[i2 as int].value.els@);
            assert(forall|k: int| 0 <= k < pm.len() ==> #[trigger] pm[k] == parts@[k].els@);
            assert(spec_subpath_values(shape.keyframes@[i2 as int].value.els@, values@));
        }
        keyframes.push(
            ShapeKeyframe {
                start_time: shape.keyframes[i2].frame,
                start_value: values,
                bezier: Some(default_ease()),
            },
        );
        i2 = i2 + 1;
    }
    let mut subs: Vec<SubPath> = Vec::new();
    subs.push(SubPath { vertices: SubPathValue::Animated(keyframes), direction: Option::None });
    Ok(subs)
}


/// A shape whose keyframes disagree in operation-kind sequence: the one
/// condition under which lowering rejects it.
pub open spec fn shape_incompatible(s: Keyframed<BezPath>) -> bool {
    s.keyframes@.len() >= 2 && exists|i: int|
        0 <= i < s.keyframes@.len() && spec_op_kinds((#[trigger] s.keyframes@[i]).value.els@)
            != spec_op_kinds(s.keyframes@[0].value.els@)
}

/// Some shape in the tree is interpolation-incompatible.
pub open spec fn element_has_incompatible(e: crate::ir::Element) -> bool
    decreases e,
{
    match e {
        crate::ir::Element::Group(g) => group_has_incompatible(g),
        crate::ir::Element::Shape(s) => shape_incompatible(s),
    }
}

pub open spec fn group_has_incompatible(g: crate::ir::Group) -> bool
    decreases g,
{
    exists|c: int|
        0 <= c < g.children@.len() && element_has_incompatible(#[trigger] g.children@[c])
}

/// Some group in the tree has a spring-tagged series that fails to expand
/// with this error.
pub open spec fn element_expansion_failure(
    e: crate::ir::Element,
    frame_rate: int,
    ce: crate::error::CubicApproximationError,
) -> bool
    decreases e,
{
    match e {
        crate::ir::Element::Group(g) => group_expansion_failure(g, frame_rate, ce),
        crate::ir::Element::Shape(..) => false,
    }
}

pub open spec fn group_expansion_failure(
    g: crate::ir::Group,
    frame_rate: int,
    ce: crate::error::CubicApproximationError,
) -> bool
    decreases g,
{
    ||| spec_transform_failure(g, frame_rate, ce)
    ||| exists|c: int|
        0 <= c < g.children@.len() && element_expansion_failure(
            #[trigger] g.children@[c],
            frame_rate,
            ce,
        )
}


/// How many Lottie items one lowered child contributes: a nested group is
/// one item; a static shape one subpath per `MoveTo`; an animated shape one.
pub open spec fn spec_child_items(e: crate::ir::Element) -> int {
    match e {
        crate::ir::Element::Group(..) => 1,
        crate::ir::Element::Shape(sh) => if sh.keyframes@.len() < 2 {
            crate::geom::count_moves(sh.keyframes@[0].value.els@)
        } else {
            1
        },
    }
}

/// The item offset where child `c` starts.
pub open spec fn spec_items_before(children: Seq<crate::ir::Element>, c: int) -> int
    decreases c,
{
    if c <= 0 {
        0
    } else {
        spec_items_before(children, c - 1) + spec_child_items(children[c - 1])
    }
}

/// Item offsets never decrease along the children.
proof fn lemma_items_before_mono(children: Seq<crate::ir::Element>, a: int, b: int)
    requires
        0 <= a <= b,
    ensures
        spec_items_before(children, a) <= spec_items_before(children, b),
    decreases b - a,
{
    if a < b {
        lemma_items_before_mono(children, a, b - 1);
        match children[b - 1] {
            crate::ir::Element::Group(..) => {},
            crate::ir::Element::Shape(sh) => {
                crate::grouping::lemma_count_moves_nonneg(sh.keyframes@[0].value.els@);
            },
        }
    }
}

/// One animated subpath carries every keyframe of its shape: the frame
/// stamps agree and each instant's splines encode that instant's subpaths.
pub open spec fn spec_animated_sub(
    sh: crate::keyframed::Keyframed<BezPath>,
    sp: SubPath,
) -> bool {
    &&& sp.vertices is Animated
    &&& (sp.vertices->Animated_0)@.len() == sh.keyframes@.len()
    &&& (forall|i: int|
        0 <= i < sh.keyframes@.len() ==> (#[trigger] (sp.vertices->Animated_0)@[i]).start_time
            == sh.keyframes@[i].frame && spec_subpath_values(
            sh.keyframes@[i].value.els@,
            (sp.vertices->Animated_0)@[i].start_value@,
        ))
}

/// The items one shape child occupies from `off` on: static shapes one
/// `SubPath` per subpath as `spec_static_subs` lays them out, animated
/// shapes one `SubPath` holding every keyframe.
pub open spec fn spec_shape_child_at(
    items: Seq<AnyShape>,
    off: int,
    sh: crate::keyframed::Keyframed<BezPath>,
) -> bool {
    let cnt = spec_child_items(crate::ir::Element::Shape(sh));
    &&& (forall|k: int| 0 <= k < cnt ==> (#[trigger] items[off + k]) is Shape)
    &&& (sh.keyframes@.len() < 2 ==> spec_static_subs(
        sh.keyframes@[0].value.els@,
        Seq::new(cnt as nat, |k: int| items[off + k]->Shape_0),
    ))
    &&& (sh.keyframes@.len() >= 2 ==> spec_animated_sub(sh, items[off]->Shape_0))
}

/// The lowered items mirror the children in order: each child group's item
/// sits at its offset and recursively mirrors that group; each shape child's
/// subpaths sit at its offset.
pub open spec fn lottie_children_lowered(
    children: Seq<crate::ir::Element>,
    frame_rate: int,
    items: Seq<AnyShape>,
) -> bool
    decreases children,
{
    &&& items.len() == spec_items_before(children, children.len() as int)
    &&& (forall|c: int|
        0 <= c < children.len() && (#[trigger] children[c]) is Group ==> items[spec_items_before(
            children,
            c,
        )] is Group && lottie_child_at(children[c], items[spec_items_before(children, c)], frame_rate))
    &&& (forall|c: int|
        0 <= c < children.len() && (#[trigger] children[c]) is Shape ==> spec_shape_child_at(
            items,
            spec_items_before(children, c),
            children[c]->Shape_0,
        ))
}

/// The recursion step, split out so each level decreases on the element.
pub open spec fn lottie_child_at(e: crate::ir::Element, a: AnyShape, frame_rate: int) -> bool
    decreases e,
{
    match (e, a) {
        (crate::ir::Element::Group(g), AnyShape::Group(lg)) => lottie_group_rel(g, lg, frame_rate),
        _ => false,
    }
}

/// A lowered group holds its lowered children in order, then its fill, then
/// its center-anchored transform.
pub open spec fn lottie_group_rel(g: crate::ir::Group, lg: LottieGroup, frame_rate: int) -> bool
    decreases g,
{
    &&& lg.items@.len() == spec_items_before(g.children@, g.children@.len() as int) + 2
    &&& lg.items@[lg.items@.len() - 2] is Fill
    &&& (lg.items@[lg.items@.len() - 2]->Fill_0).color == g.fill
    &&& lg.items@[lg.items@.len() - 1] is Transform
    &&& (lg.items@[lg.items@.len() - 1]->Transform_0).anchor_point@ == seq![
        g.center.x,
        g.center.y,
    ]
    &&& lottie_children_lowered(g.children@, frame_rate, lg.items@.take(lg.items@.len() - 2))
}

/// What holds of the item list after the first `c` children are lowered.
pub open spec fn lottie_loop_inv(
    children: Seq<crate::ir::Element>,
    frame_rate: int,
    items: Seq<AnyShape>,
    c: int,
) -> bool {
    &&& items.len() == spec_items_before(children, c)
    &&& (forall|c2: int|
        0 <= c2 < c && (#[trigger] children[c2]) is Group ==> items[spec_items_before(
            children,
            c2,
        )] is Group && lottie_child_at(children[c2], items[spec_items_before(children, c2)], frame_rate))
    &&& (forall|c2: int|
        0 <= c2 < c && (#[trigger] children[c2]) is Shape ==> spec_shape_child_at(
            items,
            spec_items_before(children, c2),
            children[c2]->Shape_0,
        ))
}

/// Appending child `c`'s lowered items keeps the invariant.
#[verifier::rlimit(100)]
#[verifier::spinoff_prover]
proof fn lemma_lottie_inv_step(
    children: Seq<crate::ir::Element>,
    frame_rate: int,
    before: Seq<AnyShape>,
    after: Seq<AnyShape>,
    c: int,
)
    requires
        0 <= c < children.len(),
        lottie_loop_inv(children, frame_rate, before, c),
        after.len() == before.len() + spec_child_items(children[c]),
        forall|x: int| 0 <= x < before.len() ==> #[trigger] after[x] == before[x],
        children[c] is Group ==> after[before.len() as int] is Group && lottie_child_at(
            children[c],
            after[before.len() as int],
            frame_rate,
        ),
        children[c] is Shape ==> spec_shape_child_at(
            after,
            before.len() as int,
            children[c]->Shape_0,
        ),
    ensures
        lottie_loop_inv(children, frame_rate, after, c + 1),
{
    assert(spec_items_before(children, c + 1) == spec_items_before(children, c)
        + spec_child_items(children[c]));
    assert forall|c2: int|
        0 <= c2 < c + 1 && (#[trigger] children[c2]) is Group implies after[spec_items_before(
        children,
        c2,
    )] is Group && lottie_child_at(
        children[c2],
        after[spec_items_before(children, c2)],
        frame_rate,
    ) by {
        if c2 < c {
            lemma_items_before_mono(children, 0, c2);
            lemma_items_before_mono(children, c2 + 1, c);
            assert(spec_items_before(children, c2 + 1) == spec_items_before(children, c2) + 1);
            assert(0 <= spec_items_before(children, c2) < before.len());
            assert(after[spec_items_before(children, c2)] == before[spec_items_before(
                children,
                c2,
            )]);
        }
    }
    assert forall|c2: int|
        0 <= c2 < c + 1 && (#[trigger] children[c2]) is Shape implies spec_shape_child_at(
        after,
        spec_items_before(children, c2),
        children[c2]->Shape_0,
    ) by {
        if c2 < c {
            lemma_items_before_mono(children, 0, c2);
            lemma_items_before_mono(children, c2 + 1, c);
            let off2 = spec_items_before(children, c2);
            let sh2 = children[c2]->Shape_0;
            let cnt2 = spec_child_items(children[c2]);
            assert(spec_items_before(children, c2 + 1) == off2 + cnt2);
            assert(0 <= off2 && off2 + cnt2 <= before.len());
            assert(forall|k: int|
                0 <= k < cnt2 ==> #[trigger] after[off2 + k] == before[off2 + k]);
            assert(spec_shape_child_at(after, off2, sh2)) by {
                if sh2.keyframes@.len() < 2 {
                    crate::grouping::lemma_count_moves_nonneg(sh2.keyframes@[0].value.els@);
                    assert(cnt2 >= 0);
                    let sa = Seq::new(cnt2 as nat, |q: int| after[off2 + q]->Shape_0);
                    let sb = Seq::new(cnt2 as nat, |q: int| before[off2 + q]->Shape_0);
                    assert forall|k: int| 0 <= k < cnt2 implies #[trigger] sa[k] == sb[k] by {
                        assert(after[off2 + k] == before[off2 + k]);
                    }
                    assert(sa =~= sb);
                }
            }
        }
    }
}

/// Lowers a group: the lowered children first, then a fill (the group's
/// color, when it has one), then the transform — the order Lottie players
/// expect.
#[verifier::loop_isolation(false)]
#[verifier::rlimit(100)]
#[verifier::spinoff_prover]
pub fn to_lottie_group(group: &crate::ir::Group, frame_rate: i64) -> (r: Result<
    LottieGroup,
    crate::error::LottieError,
>)
    requires
        crate::ir::group_wf(*group),
        0 < frame_rate <= crate::spring2cubic::MAX_FRAME_RATE,
        crate::ir::group_els_small(*group),
    ensures
        match r {
            Ok(lg) => {
                &&& lg.items@.len() >= 2
                &&& lg.items@.len() == spec_items_before(
                    group.children@,
                    group.children@.len() as int,
                ) + 2
                &&& lg.items@[lg.items@.len() - 2] is Fill && (lg.items@[lg.items@.len()
                    - 2]->Fill_0).color == group.fill
                &&& lg.items@[lg.items@.len() - 1] is Transform && (lg.items@[lg.items@.len()
                    - 1]->Transform_0).anchor_point@ == seq![group.center.x, group.center.y]
                &&& lottie_children_lowered(
                    group.children@,
                    frame_rate as int,
                    lg.items@.take(lg.items@.len() - 2),
                )
            },
            Err(e) => match e {
                crate::error::LottieError::IncompatiblePaths(..) => group_has_incompatible(*group),
                crate::error::LottieError::CubicApproximation(ce) => group_expansion_failure(
                    *group,
                    frame_rate as int,
                    ce,
                ),
            },
        },
    decreases *group,
{
    let mut items: Vec<AnyShape> = Vec::new();
    let mut c: usize = 0;
    while c < group.children.len()
        invariant
            c <= group.children@.len(),
            lottie_loop_inv(group.children@, frame_rate as int, items@, c as int),
        decreases group.children@.len() - c,
    {
        let ghost items_pre = items@;
        proof {
            assert(crate::ir::element_wf(group.children@[c as int]));
            assert(crate::ir::element_els_small(group.children@[c as int]));
        }
        match &group.children[c] {
            crate::ir::Element::Group(g) => {
                let lg = match to_lottie_group(g, frame_rate) {
                    Ok(lg) => lg,
                    Err(e) => {
                        proof {
                            match &e {
                                crate::error::LottieError::IncompatiblePaths(..) => {
                                    assert(element_has_incompatible(
                                        group.children@[c as int],
                                    ));
                                },
                                crate::error::LottieError::CubicApproximation(ce) => {
                                    assert(element_expansion_failure(
                                        group.children@[c as int],
                                        frame_rate as int,
                                        *ce,
                                    ));
                                },
                            }
                        }
                        return Err(e);
                    },
                };
                proof {
                    assert(lottie_group_rel(*g, lg, frame_rate as int));
                }
                items.push(AnyShape::Group(lg));
                proof {
                    assert(items@[items_pre.len() as int] == AnyShape::Group(lg));
                    assert(lottie_child_at(
                        group.children@[c as int],
                        items@[items_pre.len() as int],
                        frame_rate as int,
                    ));
                }
            },
            crate::ir::Element::Shape(s) => {
                let subs = match to_lottie_subpath(s) {
                    Ok(subs) => subs,
                    Err(e) => {
                        proof {
                            assert(shape_incompatible(*s));
                            assert(element_has_incompatible(group.children@[c as int]));
                        }
                        return Err(e);
                    },
                };
                proof {
                    assert(subs@.len() == spec_child_items(group.children@[c as int]));
                }
                let ghost items_at = items@.len() as int;
                let ghost subs0 = subs@;
                let mut rest = subs;
                while rest.len() > 0
                    invariant
                        items@.len() + rest@.len() == items_at + spec_child_items(
                            group.children@[c as int],
                        ),
                        items@.len() >= items_at,
                        rest@ =~= subs0.skip(items@.len() - items_at),
                        forall|x: int| 0 <= x < items_at ==> #[trigger] items@[x] == items_pre[x],
                        forall|k: int|
                            0 <= k < items@.len() - items_at ==> #[trigger] items@[items_at + k]
                                == AnyShape::Shape(subs0[k]),
                    decreases rest@.len(),
                {
                    let ghost moved = items@.len() - items_at;
                    let sp = rest.remove(0);
                    proof {
                        assert(sp == subs0[moved]);
                        assert(rest@ =~= subs0.skip(moved + 1));
                    }
                    items.push(AnyShape::Shape(sp));
                }
                proof {
                    let off = items_pre.len() as int;
                    let sh = group.children@[c as int]->Shape_0;
                    let cnt = spec_child_items(group.children@[c as int]);
                    assert(off == items_at);
                    assert(spec_shape_child_at(items@, off, sh)) by {
                        assert(forall|k: int|
                            0 <= k < cnt ==> #[trigger] items@[off + k] == AnyShape::Shape(
                                subs0[k],
                            ));
                        if sh.keyframes@.len() < 2 {
                            assert(Seq::new(cnt as nat, |k: int| items@[off + k]->Shape_0)
                                =~= subs0);
                            assert(spec_static_subs(sh.keyframes@[0].value.els@, subs0));
                        } else {
                            assert(cnt == 1 && subs0.len() == 1);
                            assert(items@[items_at + 0] == AnyShape::Shape(subs0[0]));
                            assert(off == items_at);
                            assert(items@[off]->Shape_0 == subs0[0]);
                            assert(spec_animated_sub(sh, subs0[0]));
                        }
                    }
                }
            },
        }
        proof {
            assert(items@.len() == items_pre.len() + spec_child_items(group.children@[c as int]));
            assert(forall|x: int|
                0 <= x < items_pre.len() ==> #[trigger] items@[x] == items_pre[x]);
            lemma_lottie_inv_step(
                group.children@,
                frame_rate as int,
                items_pre,
                items@,
                c as int,
            );
        }
        c = c + 1;
    }
    let ghost children_items = items@;
    items.push(AnyShape::Fill(Fill { color: group.fill }));
    let transform = match to_lottie_transform(group, frame_rate) {
        Ok(t) => t,
        Err(e) => {
            proof {
                assert(group_expansion_failure(*group, frame_rate as int, e));
            }
            return Err(crate::error::LottieError::CubicApproximation(e));
        },
    };
    items.push(AnyShape::Transform(transform));
    proof {
        assert(items@.take(items@.len() - 2) =~= children_items);
        assert(lottie_children_lowered(group.children@, frame_rate as int, children_items));
    }
    Ok(LottieGroup { items })
}

/// Lowers the scene graph to a Lottie document: one shape layer holding one
/// root group, whose last two items are its fill and its center-anchored
/// transform.
pub fn lower_to_lottie(animation: &crate::ir::Animation) -> (r: Result<
    Lottie,
    crate::error::LottieError,
>)
    requires
        crate::ir::group_wf(animation.root),
        0 < animation.frame_rate <= crate::spring2cubic::MAX_FRAME_RATE,
        crate::ir::group_els_small(animation.root),
    ensures
        match r {
            Ok(l) => {
                &&& l.in_point == 0
                &&& l.out_point == animation.frames
                &&& l.frame_rate == animation.frame_rate
                &&& l.width == animation.width
                &&& l.height == animation.height
                &&& l.layers@.len() == 1
                &&& l.layers@[0].shapes@.len() == 1
                &&& l.layers@[0].shapes@[0] is Group
                &&& (l.layers@[0].shapes@[0]->Group_0).items@.len() >= 2
                &&& ({
                    let g = l.layers@[0].shapes@[0]->Group_0;
                    &&& g.items@[g.items@.len() - 2] is Fill
                    &&& (g.items@[g.items@.len() - 2]->Fill_0).color == animation.root.fill
                    &&& g.items@[g.items@.len() - 1] is Transform
                    &&& (g.items@[g.items@.len() - 1]->Transform_0).anchor_point@ == seq![
                        animation.root.center.x,
                        animation.root.center.y,
                    ]
                })
                &&& lottie_group_rel(
                    animation.root,
                    l.layers@[0].shapes@[0]->Group_0,
                    animation.frame_rate as int,
                )
            },
            Err(e) => match e {
                crate::error::LottieError::IncompatiblePaths(..) => group_has_incompatible(
                    animation.root,
                ),
                crate::error::LottieError::CubicApproximation(ce) => group_expansion_failure(
                    animation.root,
                    animation.frame_rate as int,
                    ce,
                ),
            },
        },
{
    let root_group = match to_lottie_group(&animation.root, animation.frame_rate) {
        Ok(g) => g,
        Err(e) => {
            return Err(e);
        },
    };
    let mut shapes: Vec<AnyShape> = Vec::new();
    shapes.push(AnyShape::Group(root_group));
    let mut layers: Vec<ShapeLayer> = Vec::new();
    layers.push(ShapeLayer { in_point: 0, out_point: animation.frames, shapes });
    Ok(
        Lottie {
            in_point: 0,
            out_point: animation.frames,
            frame_rate: animation.frame_rate,
            width: animation.width,
            height: animation.height,
            layers,
        },
    )
}

} // verus!
