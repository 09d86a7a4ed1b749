//! Plane geometry over fixed-point coordinates: points, rectangles, cubic
//! bezier paths, their bounding boxes, subpath decomposition and the
//! path-operation kind sequences that decide interpolation compatibility.

use vstd::prelude::*;
use crate::fixed::{fx_add, fx_sub, fx_neg, fx_mul, fx_div, spec_add, spec_sub, spec_mul, spec_div, clamped, tdiv, FX_ONE};

verus! {

#[derive(Clone, Copy, Debug, PartialEq, Eq, Structural)]
pub struct Point {
    pub x: i64,
    pub y: i64,
}

impl Point {
    pub fn new(x: i64, y: i64) -> (p: Point)
        ensures
            p == (Point { x, y }),
    {
        Point { x, y }
    }
}

/// An axis-aligned rectangle; well-formed when `x0 <= x1` and `y0 <= y1`.
#[derive(Clone, Copy, Debug, PartialEq, Eq, Structural)]
pub struct Rect {
    pub x0: i64,
    pub y0: i64,
    pub x1: i64,
    pub y1: i64,
}

pub open spec fn rect_wf(r: Rect) -> bool {
    r.x0 <= r.x1 && r.y0 <= r.y1
}

/// `inner` lies fully inside `outer`.
pub open spec fn rect_contains(outer: Rect, inner: Rect) -> bool {
    outer.x0 <= inner.x0 && inner.x1 <= outer.x1 && outer.y0 <= inner.y0 && inner.y1 <= outer.y1
}

pub open spec fn spec_rect_union(a: Rect, b: Rect) -> Rect {
    Rect {
        x0: if a.x0 <= b.x0 { a.x0 } else { b.x0 },
        y0: if a.y0 <= b.y0 { a.y0 } else { b.y0 },
        x1: if a.x1 >= b.x1 { a.x1 } else { b.x1 },
        y1: if a.y1 >= b.y1 { a.y1 } else { b.y1 },
    }
}

/// Area of a rectangle in fixed-point units (width times height).
pub open spec fn spec_rect_area(r: Rect) -> int {
    spec_mul(r.x1 - r.x0, r.y1 - r.y0)
}

/// Coordinates within the saturation bound of fixed-point arithmetic.
pub open spec fn rect_bounded(r: Rect) -> bool {
    &&& -(crate::fixed::FX_LIMIT as int) <= r.x0 <= crate::fixed::FX_LIMIT as int
    &&& -(crate::fixed::FX_LIMIT as int) <= r.y0 <= crate::fixed::FX_LIMIT as int
    &&& -(crate::fixed::FX_LIMIT as int) <= r.x1 <= crate::fixed::FX_LIMIT as int
    &&& -(crate::fixed::FX_LIMIT as int) <= r.y1 <= crate::fixed::FX_LIMIT as int
}

/// Midpoint of a rectangle.
pub open spec fn spec_rect_center(r: Rect) -> Point
    recommends
        rect_wf(r),
{
    Point {
        x: (r.x0 + (r.x1 - r.x0) / 2) as i64,
        y: (r.y0 + (r.y1 - r.y0) / 2) as i64,
    }
}

impl Rect {
    pub fn union(self, other: Rect) -> (r: Rect)
        ensures
            r == spec_rect_union(self, other),
    {
        Rect {
            x0: if self.x0 <= other.x0 { self.x0 } else { other.x0 },
            y0: if self.y0 <= other.y0 { self.y0 } else { other.y0 },
            x1: if self.x1 >= other.x1 { self.x1 } else { other.x1 },
            y1: if self.y1 >= other.y1 { self.y1 } else { other.y1 },
        }
    }

    pub fn contains_rect(self, inner: Rect) -> (b: bool)
        ensures
            b == rect_contains(self, inner),
    {
        self.x0 <= inner.x0 && inner.x1 <= self.x1 && self.y0 <= inner.y0 && inner.y1 <= self.y1
    }

    pub fn area(self) -> (a: i64)
        requires
            rect_wf(self),
            rect_bounded(self),
        ensures
            a as int == spec_rect_area(self),
    {
        let w = self.x1 - self.x0;
        let h = self.y1 - self.y0;
        fx_mul(w, h)
    }

    pub fn center(self) -> (p: Point)
        requires
            rect_wf(self),
            rect_bounded(self),
        ensures
            p == spec_rect_center(self),
    {
        Point { x: self.x0 + (self.x1 - self.x0) / 2, y: self.y0 + (self.y1 - self.y0) / 2 }
    }
}

/// One drawing operation of a bezier path.
#[derive(Clone, Copy, Debug, PartialEq, Eq, Structural)]
pub enum PathEl {
    MoveTo(Point),
    LineTo(Point),
    QuadTo(Point, Point),
    CurveTo(Point, Point, Point),
    ClosePath,
}

/// The kind of a path operation, forgetting its coordinates.
#[derive(Clone, Copy, Debug, PartialEq, Eq, Structural)]
pub enum OpKind {
    Move,
    Line,
    Quad,
    Curve,
    Close,
}

pub open spec fn spec_op_kind(e: PathEl) -> OpKind {
    match e {
        PathEl::MoveTo(..) => OpKind::Move,
        PathEl::LineTo(..) => OpKind::Line,
        PathEl::QuadTo(..) => OpKind::Quad,
        PathEl::CurveTo(..) => OpKind::Curve,
        PathEl::ClosePath => OpKind::Close,
    }
}

/// The kind sequence of a path; two paths interpolate iff these are equal.
pub open spec fn spec_op_kinds(els: Seq<PathEl>) -> Seq<OpKind> {
    els.map_values(|e: PathEl| spec_op_kind(e))
}

/// An ordered sequence of path operations over fixed-point points.
#[derive(Clone, Debug)]
pub struct BezPath {
    pub els: Vec<PathEl>,
}

/// A path either is empty or begins with a `MoveTo`.
pub open spec fn starts_with_move(els: Seq<PathEl>) -> bool {
    els.len() > 0 ==> els[0] is MoveTo
}

/// A subpath: begins with a `MoveTo` and contains no further one.
pub open spec fn is_subpath(els: Seq<PathEl>) -> bool {
    &&& els.len() > 0
    &&& els[0] is MoveTo
    &&& forall|i: int| 1 <= i < els.len() ==> !(#[trigger] els[i] is MoveTo)
}

impl BezPath {
    pub fn new() -> (p: BezPath)
        ensures
            p.els@ == Seq::<PathEl>::empty(),
    {
        BezPath { els: Vec::new() }
    }

    pub fn len(&self) -> (n: usize)
        ensures
            n == self.els@.len(),
    {
        self.els.len()
    }

    /// Lists the operation kinds used by the path, in order.
    ///
    /// Paths with the same kind sequence are interpolation compatible.
    pub fn path_commands(&self) -> (kinds: Vec<OpKind>)
        ensures
            kinds@ == spec_op_kinds(self.els@),
    {
        let mut kinds: Vec<OpKind> = Vec::new();
        let mut i: usize = 0;
        while i < self.els.len()
            invariant
                i <= self.els@.len(),
                kinds@ == spec_op_kinds(self.els@.take(i as int)),
            decreases self.els@.len() - i,
        {
            let k = match self.els[i] {
                PathEl::MoveTo(..) => OpKind::Move,
                PathEl::LineTo(..) => OpKind::Line,
                PathEl::QuadTo(..) => OpKind::Quad,
                PathEl::CurveTo(..) => OpKind::Curve,
                PathEl::ClosePath => OpKind::Close,
            };
            kinds.push(k);
            proof {
                assert(self.els@.take(i + 1).map_values(|e: PathEl| spec_op_kind(e))
                    =~= self.els@.take(i as int).map_values(|e: PathEl| spec_op_kind(e)).push(
                    spec_op_kind(self.els@[i as int])));
            }
            i = i + 1;
        }
        proof {
            assert(self.els@.take(self.els@.len() as int) =~= self.els@);
        }
        kinds
    }

    /// Splits the path into its subpaths, each a maximal run beginning with a
    /// `MoveTo`. The concatenation of the parts is the original path.
    pub fn subpaths(&self) -> (parts: Vec<BezPath>)
        requires
            starts_with_move(self.els@),
        ensures
            parts@.map_values(|p: BezPath| p.els@).flatten() == self.els@,
            forall|k: int| 0 <= k < parts@.len() ==> is_subpath(#[trigger] parts@[k].els@),
    {
        let ghost full = self.els@;
        let mut parts: Vec<BezPath> = Vec::new();
        let mut cur: Vec<PathEl> = Vec::new();
        let mut i: usize = 0;
        while i < self.els.len()
            invariant
                i <= full.len(),
                full == self.els@,
                starts_with_move(full),
                parts@.map_values(|p: BezPath| p.els@).flatten() + cur@ == full.take(i as int),
                forall|k: int| 0 <= k < parts@.len() ==> is_subpath(#[trigger] parts@[k].els@),
                cur@.len() > 0 ==> is_subpath(cur@),
                i > 0 ==> cur@.len() > 0,
            decreases full.len() - i,
        {
            let e = self.els[i];
            let is_move = match e {
                PathEl::MoveTo(..) => true,
                _ => false,
            };
            if is_move && cur.len() > 0 {
                let done = BezPath { els: cur };
                proof {
                    assert(parts@.push(done).map_values(|p: BezPath| p.els@) =~= parts@.map_values(
                        |p: BezPath| p.els@).push(done.els@));
                    parts@.map_values(|p: BezPath| p.els@).lemma_flatten_push(done.els@);
                }
                parts.push(done);
                cur = Vec::new();
            }
            cur.push(e);
            proof {
                assert(full.take(i as int).push(full[i as int]) =~= full.take(i + 1));
            }
            i = i + 1;
        }
        if cur.len() > 0 {
            let done = BezPath { els: cur };
            proof {
                assert(parts@.push(done).map_values(|p: BezPath| p.els@) =~= parts@.map_values(
                    |p: BezPath| p.els@).push(done.els@));
                parts@.map_values(|p: BezPath| p.els@).lemma_flatten_push(done.els@);
            }
            parts.push(done);
        }
        proof {
            assert(full.take(full.len() as int) =~= full);
        }
        parts
    }
}

/// Grows a rectangle to cover every control point of one path element.
pub open spec fn bbox_grow(r: Rect, e: PathEl) -> Rect {
    match e {
        PathEl::MoveTo(p) => spec_rect_union(r, Rect { x0: p.x, y0: p.y, x1: p.x, y1: p.y }),
        PathEl::LineTo(p) => spec_rect_union(r, Rect { x0: p.x, y0: p.y, x1: p.x, y1: p.y }),
        PathEl::QuadTo(c, p) => spec_rect_union(
            spec_rect_union(r, Rect { x0: c.x, y0: c.y, x1: c.x, y1: c.y }),
            Rect { x0: p.x, y0: p.y, x1: p.x, y1: p.y },
        ),
        PathEl::CurveTo(c0, c1, p) => spec_rect_union(
            spec_rect_union(
                spec_rect_union(r, Rect { x0: c0.x, y0: c0.y, x1: c0.x, y1: c0.y }),
                Rect { x0: c1.x, y0: c1.y, x1: c1.x, y1: c1.y },
            ),
            Rect { x0: p.x, y0: p.y, x1: p.x, y1: p.y },
        ),
        PathEl::ClosePath => r,
    }
}

pub open spec fn bbox_fold(els: Seq<PathEl>, acc: Rect) -> Rect
    decreases els.len(),
{
    if els.len() == 0 {
        acc
    } else {
        bbox_fold(els.drop_first(), bbox_grow(acc, els[0]))
    }
}

/// The control-point bounding box of a path. The path must start with a
/// `MoveTo`, whose anchor seeds the box.
pub open spec fn spec_bbox(els: Seq<PathEl>) -> Rect
    recommends
        els.len() > 0,
        starts_with_move(els),
{
    let p = els[0]->MoveTo_0;
    bbox_fold(els, Rect { x0: p.x, y0: p.y, x1: p.x, y1: p.y })
}

proof fn lemma_bbox_grow_wf(r: Rect, e: PathEl)
    requires
        rect_wf(r),
    ensures
        rect_wf(bbox_grow(r, e)),
        rect_contains(bbox_grow(r, e), r),
{
}

proof fn lemma_bbox_fold_wf(els: Seq<PathEl>, acc: Rect)
    requires
        rect_wf(acc),
    ensures
        rect_wf(bbox_fold(els, acc)),
        rect_contains(bbox_fold(els, acc), acc),
    decreases els.len(),
{
    if els.len() > 0 {
        lemma_bbox_grow_wf(acc, els[0]);
        lemma_bbox_fold_wf(els.drop_first(), bbox_grow(acc, els[0]));
    }
}

impl BezPath {
    fn grow_point(r: Rect, p: Point) -> (out: Rect)
        ensures
            out == spec_rect_union(r, Rect { x0: p.x, y0: p.y, x1: p.x, y1: p.y }),
    {
        Rect {
            x0: if r.x0 <= p.x { r.x0 } else { p.x },
            y0: if r.y0 <= p.y { r.y0 } else { p.y },
            x1: if r.x1 >= p.x { r.x1 } else { p.x },
            y1: if r.y1 >= p.y { r.y1 } else { p.y },
        }
    }

    /// Bounding box of every control point of the path.
    pub fn bounding_box(&self) -> (r: Rect)
        requires
            self.els@.len() > 0,
            starts_with_move(self.els@),
        ensures
            r == spec_bbox(self.els@),
            rect_wf(r),
    {
        let p0 = match self.els[0] {
            PathEl::MoveTo(p) => p,
            _ => Point { x: 0, y: 0 },
        };
        let mut acc = Rect { x0: p0.x, y0: p0.y, x1: p0.x, y1: p0.y };
        let ghost init = acc;
        proof {
            assert(self.els@.skip(0) =~= self.els@);
        }
        let mut i: usize = 0;
        while i < self.els.len()
            invariant
                i <= self.els@.len(),
                rect_wf(acc),
                bbox_fold(self.els@.skip(i as int), acc) == bbox_fold(self.els@, init),
            decreases self.els@.len() - i,
        {
            let e = self.els[i];
            acc = match e {
                PathEl::MoveTo(p) => Self::grow_point(acc, p),
                PathEl::LineTo(p) => Self::grow_point(acc, p),
                PathEl::QuadTo(c, p) => Self::grow_point(Self::grow_point(acc, c), p),
                PathEl::CurveTo(c0, c1, p) => Self::grow_point(
                    Self::grow_point(Self::grow_point(acc, c0), c1),
                    p,
                ),
                PathEl::ClosePath => acc,
            };
            proof {
                assert(self.els@.skip(i as int).drop_first() =~= self.els@.skip(i + 1));
                lemma_bbox_grow_wf(acc, e);
            }
            i = i + 1;
        }
        proof {
            assert(self.els@.skip(self.els@.len() as int) =~= Seq::<PathEl>::empty());
        }
        acc
    }
}


/// A cubic bezier segment over fixed-point points.
#[derive(Clone, Copy, Debug, PartialEq, Eq, Structural)]
pub struct CubicBez {
    pub p0: Point,
    pub p1: Point,
    pub p2: Point,
    pub p3: Point,
}

impl CubicBez {
    pub fn new(p0: Point, p1: Point, p2: Point, p3: Point) -> (c: CubicBez)
        ensures
            c == (CubicBez { p0, p1, p2, p3 }),
    {
        CubicBez { p0, p1, p2, p3 }
    }
}


/// An affine map `(x, y) -> (xx*x + xy*y + dx, yx*x + yy*y + dy)` over
/// fixed-point coefficients.
#[derive(Clone, Copy, Debug, PartialEq, Eq, Structural)]
pub struct Affine {
    pub xx: i64,
    pub xy: i64,
    pub yx: i64,
    pub yy: i64,
    pub dx: i64,
    pub dy: i64,
}

/// The determinant of the linear part, in squared micro-units.
pub open spec fn spec_affine_det(a: Affine) -> int {
    a.xx as int * a.yy as int - a.xy as int * a.yx as int
}

/// The affine that maps a y-up box onto a y-down box: scale to the target
/// size, flip the y axis, and line the boxes up.
pub open spec fn spec_y_up_to_y_down(font_box: Rect, dest_box: Rect) -> Affine {
    let sx = spec_div(dest_box.x1 - dest_box.x0, font_box.x1 - font_box.x0);
    let sy = spec_div(dest_box.y1 - dest_box.y0, font_box.y1 - font_box.y0);
    Affine {
        xx: sx as i64,
        xy: 0i64,
        yx: 0i64,
        yy: clamped(-sy) as i64,
        dx: spec_sub(dest_box.x0 as int, spec_mul(sx, font_box.x0 as int)) as i64,
        dy: spec_add(dest_box.y0 as int, spec_mul(sy, font_box.y1 as int)) as i64,
    }
}

/// Builds the font-to-scene transform between a y-up source box and a y-down
/// destination box.
pub fn y_up_to_y_down(font_box: Rect, dest_box: Rect) -> (a: Affine)
    requires
        rect_wf(font_box),
        rect_wf(dest_box),
        rect_bounded(font_box),
        rect_bounded(dest_box),
        font_box.x0 < font_box.x1,
        font_box.y0 < font_box.y1,
    ensures
        a == spec_y_up_to_y_down(font_box, dest_box),
{
    let sx = fx_div(dest_box.x1 - dest_box.x0, font_box.x1 - font_box.x0);
    let sy = fx_div(dest_box.y1 - dest_box.y0, font_box.y1 - font_box.y0);
    Affine {
        xx: sx,
        xy: 0,
        yx: 0,
        yy: fx_neg(sy),
        dx: fx_sub(dest_box.x0, fx_mul(sx, font_box.x0)),
        dy: fx_add(dest_box.y0, fx_mul(sy, font_box.y1)),
    }
}

/// The em square `[0, upem] x [0, upem]` in micro-units.
pub open spec fn spec_upem_box(upem: int) -> Rect {
    Rect { x0: 0i64, y0: 0i64, x1: (upem * FX_ONE as int) as i64, y1: (upem * FX_ONE as int) as i64 }
}

/// The font-to-scene transform of the pipeline: the em square, y-up, onto an
/// equal-sized y-down scene box. Its determinant is strictly negative.
pub fn font_to_scene(upem: u32) -> (a: Affine)
    requires
        upem > 0,
    ensures
        a == spec_y_up_to_y_down(spec_upem_box(upem as int), spec_upem_box(upem as int)),
        spec_affine_det(a) < 0,
{
    let w: i64 = (upem as i64) * FX_ONE;
    let b = Rect { x0: 0, y0: 0, x1: w, y1: w };
    let a = y_up_to_y_down(b, b);
    proof {
        lemma_font_to_scene_det(upem as int);
    }
    a
}

/// The font-to-scene affine has strictly negative determinant for every
/// nonzero em size: mapping a y-up square onto the equal y-down square scales
/// by exactly one and flips the y axis.
pub proof fn lemma_font_to_scene_det(upem: int)
    requires
        0 < upem <= 0xFFFF_FFFFint,
    ensures
        spec_affine_det(spec_y_up_to_y_down(spec_upem_box(upem), spec_upem_box(upem))) < 0,
        spec_y_up_to_y_down(spec_upem_box(upem), spec_upem_box(upem)).xx == FX_ONE,
        spec_y_up_to_y_down(spec_upem_box(upem), spec_upem_box(upem)).yy == -FX_ONE,
{
    let w = upem * FX_ONE as int;
    assert(0 < w <= 0xFFFF_FFFFint * 1_000_000int);
    let b = spec_upem_box(upem);
    assert(b.x0 == 0 && b.y0 == 0 && b.x1 as int == w && b.y1 as int == w);
    vstd::arithmetic::div_mod::lemma_div_multiples_vanish(FX_ONE as int, w);
    assert((w * FX_ONE as int) / w == FX_ONE as int);
    assert(tdiv(w * FX_ONE as int, w) == FX_ONE as int);
    assert(spec_div(w, w) == FX_ONE as int);
    let a = spec_y_up_to_y_down(b, b);
    assert(a.xx == FX_ONE && a.yy == -FX_ONE && a.xy == 0 && a.yx == 0);
    assert(spec_affine_det(a) == FX_ONE as int * -(FX_ONE as int));
}

/// One point carried through an affine map.
pub open spec fn spec_apply_point(a: Affine, p: Point) -> Point {
    Point {
        x: spec_add(
            spec_add(spec_mul(a.xx as int, p.x as int), spec_mul(a.xy as int, p.y as int)),
            a.dx as int,
        ) as i64,
        y: spec_add(
            spec_add(spec_mul(a.yx as int, p.x as int), spec_mul(a.yy as int, p.y as int)),
            a.dy as int,
        ) as i64,
    }
}

pub fn apply_point(a: Affine, p: Point) -> (r: Point)
    ensures
        r == spec_apply_point(a, p),
{
    Point {
        x: fx_add(fx_add(fx_mul(a.xx, p.x), fx_mul(a.xy, p.y)), a.dx),
        y: fx_add(fx_add(fx_mul(a.yx, p.x), fx_mul(a.yy, p.y)), a.dy),
    }
}

/// One path element carried through an affine map.
pub open spec fn spec_apply_el(a: Affine, e: PathEl) -> PathEl {
    match e {
        PathEl::MoveTo(p) => PathEl::MoveTo(spec_apply_point(a, p)),
        PathEl::LineTo(p) => PathEl::LineTo(spec_apply_point(a, p)),
        PathEl::QuadTo(c, p) => PathEl::QuadTo(spec_apply_point(a, c), spec_apply_point(a, p)),
        PathEl::CurveTo(c0, c1, p) => PathEl::CurveTo(
            spec_apply_point(a, c0),
            spec_apply_point(a, c1),
            spec_apply_point(a, p),
        ),
        PathEl::ClosePath => PathEl::ClosePath,
    }
}

impl BezPath {
    /// The path with every coordinate carried through the map; the operation
    /// kinds are untouched.
    pub fn transformed(&self, a: Affine) -> (r: BezPath)
        ensures
            r.els@ == self.els@.map_values(|e: PathEl| spec_apply_el(a, e)),
            spec_op_kinds(r.els@) == spec_op_kinds(self.els@),
    {
        let mut els: Vec<PathEl> = Vec::new();
        let mut i: usize = 0;
        while i < self.els.len()
            invariant
                i <= self.els@.len(),
                els@ == self.els@.take(i as int).map_values(|e: PathEl| spec_apply_el(a, e)),
            decreases self.els@.len() - i,
        {
            let e = match self.els[i] {
                PathEl::MoveTo(p) => PathEl::MoveTo(apply_point(a, p)),
                PathEl::LineTo(p) => PathEl::LineTo(apply_point(a, p)),
                PathEl::QuadTo(c, p) => PathEl::QuadTo(apply_point(a, c), apply_point(a, p)),
                PathEl::CurveTo(c0, c1, p) => PathEl::CurveTo(
                    apply_point(a, c0),
                    apply_point(a, c1),
                    apply_point(a, p),
                ),
                PathEl::ClosePath => PathEl::ClosePath,
            };
            els.push(e);
            proof {
                assert(self.els@.take(i + 1).map_values(|e: PathEl| spec_apply_el(a, e))
                    =~= self.els@.take(i as int).map_values(|e: PathEl| spec_apply_el(a, e)).push(
                    spec_apply_el(a, self.els@[i as int])));
            }
            i = i + 1;
        }
        proof {
            assert(self.els@.take(self.els@.len() as int) =~= self.els@);
        }
        let r = BezPath { els };
        proof {
            assert(spec_op_kinds(r.els@) =~= spec_op_kinds(self.els@));
        }
        r
    }
}


/// Every coordinate of one path element within the saturation bound.
pub open spec fn el_bounded(e: PathEl) -> bool {
    match e {
        PathEl::MoveTo(p) => pt_in_bound(p),
        PathEl::LineTo(p) => pt_in_bound(p),
        PathEl::QuadTo(c, p) => pt_in_bound(c) && pt_in_bound(p),
        PathEl::CurveTo(c0, c1, p) => pt_in_bound(c0) && pt_in_bound(c1) && pt_in_bound(p),
        PathEl::ClosePath => true,
    }
}

pub open spec fn pt_in_bound(p: Point) -> bool {
    &&& -(crate::fixed::FX_LIMIT as int) <= p.x as int <= crate::fixed::FX_LIMIT as int
    &&& -(crate::fixed::FX_LIMIT as int) <= p.y as int <= crate::fixed::FX_LIMIT as int
}

/// Every coordinate of the path within the saturation bound.
pub open spec fn path_els_bounded(els: Seq<PathEl>) -> bool {
    forall|i: int| 0 <= i < els.len() ==> el_bounded(#[trigger] els[i])
}

/// How many `MoveTo` operations the path holds; each starts one subpath.
pub open spec fn count_moves(els: Seq<PathEl>) -> int
    decreases els.len(),
{
    if els.len() == 0 {
        0
    } else {
        (if els[0] is MoveTo {
            1int
        } else {
            0int
        }) + count_moves(els.drop_first())
    }
}

/// Move counting distributes over concatenation.
pub proof fn lemma_count_moves_concat(a: Seq<PathEl>, b: Seq<PathEl>)
    ensures
        count_moves(a + b) == count_moves(a) + count_moves(b),
    decreases a.len(),
{
    if a.len() == 0 {
        assert(a + b =~= b);
    } else {
        assert((a + b).drop_first() =~= a.drop_first() + b);
        assert((a + b)[0] == a[0]);
        lemma_count_moves_concat(a.drop_first(), b);
    }
}

/// A subpath holds exactly one `MoveTo`.
pub proof fn lemma_subpath_one_move(els: Seq<PathEl>)
    requires
        is_subpath(els),
    ensures
        count_moves(els) == 1,
{
    lemma_no_moves(els.drop_first());
}

proof fn lemma_no_moves(els: Seq<PathEl>)
    requires
        forall|i: int| 0 <= i < els.len() ==> !(#[trigger] els[i] is MoveTo),
    ensures
        count_moves(els) == 0,
    decreases els.len(),
{
    if els.len() > 0 {
        lemma_no_moves(els.drop_first());
    }
}

/// A list of subpaths that concatenates to `els` has exactly as many parts as
/// `els` has `MoveTo` operations.
pub proof fn lemma_split_count(parts: Seq<Seq<PathEl>>, els: Seq<PathEl>)
    requires
        parts.flatten() == els,
        forall|k: int| 0 <= k < parts.len() ==> is_subpath(#[trigger] parts[k]),
    ensures
        parts.len() == count_moves(els),
    decreases parts.len(),
{
    if parts.len() == 0 {
        assert(parts.flatten() =~= Seq::<PathEl>::empty());
    } else {
        assert(parts.flatten() == parts[0] + parts.drop_first().flatten());
        lemma_count_moves_concat(parts[0], parts.drop_first().flatten());
        lemma_subpath_one_move(parts[0]);
        lemma_split_count(parts.drop_first(), parts.drop_first().flatten());
    }
}

/// An element of a flattened part stands somewhere in the concatenation.
pub proof fn lemma_flatten_member(parts: Seq<Seq<PathEl>>, k: int, l: int)
    requires
        0 <= k < parts.len(),
        0 <= l < parts[k].len(),
    ensures
        parts.flatten().contains(parts[k][l]),
    decreases k,
{
    assert(parts.flatten() == parts[0] + parts.drop_first().flatten());
    if k == 0 {
        assert((parts[0] + parts.drop_first().flatten())[l] == parts[k][l]);
    } else {
        lemma_flatten_member(parts.drop_first(), k - 1, l);
        let f = parts.drop_first().flatten();
        let w = choose|w: int| 0 <= w < f.len() && f[w] == parts[k][l];
        assert((parts[0] + f)[parts[0].len() + w] == parts[k][l]);
    }
}

impl BezPath {
    /// A structural copy of the path.
    pub fn duplicate(&self) -> (r: BezPath)
        ensures
            r.els@ == self.els@,
    {
        let mut els: Vec<PathEl> = Vec::new();
        let mut i: usize = 0;
        while i < self.els.len()
            invariant
                i <= self.els@.len(),
                els@ == self.els@.take(i as int),
            decreases self.els@.len() - i,
        {
            els.push(self.els[i]);
            proof {
                assert(self.els@.take(i as int).push(self.els@[i as int]) =~= self.els@.take(
                    i + 1,
                ));
            }
            i = i + 1;
        }
        proof {
            assert(self.els@.take(self.els@.len() as int) =~= self.els@);
        }
        BezPath { els }
    }
}


/// Every coordinate that comes out of an affine map is saturated, so a
/// transformed path is bounded.
pub proof fn lemma_transformed_bounded(a: Affine, els: Seq<PathEl>)
    ensures
        path_els_bounded(els.map_values(|e: PathEl| spec_apply_el(a, e))),
{
    let mapped = els.map_values(|e: PathEl| spec_apply_el(a, e));
    assert forall|i: int| 0 <= i < mapped.len() implies el_bounded(#[trigger] mapped[i]) by {
        let e = els[i];
        assert(mapped[i] == spec_apply_el(a, e));
        match e {
            PathEl::MoveTo(p) => {
                assert(pt_in_bound(spec_apply_point(a, p)));
            },
            PathEl::LineTo(p) => {
                assert(pt_in_bound(spec_apply_point(a, p)));
            },
            PathEl::QuadTo(c, p) => {
                assert(pt_in_bound(spec_apply_point(a, c)));
                assert(pt_in_bound(spec_apply_point(a, p)));
            },
            PathEl::CurveTo(c0, c1, p) => {
                assert(pt_in_bound(spec_apply_point(a, c0)));
                assert(pt_in_bound(spec_apply_point(a, c1)));
                assert(pt_in_bound(spec_apply_point(a, p)));
            },
            PathEl::ClosePath => {},
        }
    }
}


/// Growing a bounding box by bounded elements keeps it within bounds.
proof fn lemma_bbox_fold_bounded(els: Seq<PathEl>, acc: Rect)
    requires
        rect_bounded(acc),
        forall|i: int| 0 <= i < els.len() ==> el_bounded(#[trigger] els[i]),
    ensures
        rect_bounded(bbox_fold(els, acc)),
    decreases els.len(),
{
    if els.len() > 0 {
        assert(el_bounded(els[0]));
        assert(forall|i: int|
            0 <= i < els.drop_first().len() ==> el_bounded(#[trigger] els.drop_first()[i]));
        lemma_bbox_fold_bounded(els.drop_first(), bbox_grow(acc, els[0]));
    }
}

/// The bounding box of a bounded path is bounded.
pub proof fn lemma_bbox_bounded(els: Seq<PathEl>)
    requires
        els.len() > 0,
        starts_with_move(els),
        path_els_bounded(els),
    ensures
        rect_bounded(spec_bbox(els)),
{
    assert(el_bounded(els[0]));
    let p = els[0]->MoveTo_0;
    lemma_bbox_fold_bounded(els, Rect { x0: p.x, y0: p.y, x1: p.x, y1: p.y });
}


/// An affine map changes no operation kinds, so it changes no `MoveTo` count.
pub proof fn lemma_count_moves_map(a: Affine, els: Seq<PathEl>)
    ensures
        count_moves(els.map_values(|e: PathEl| spec_apply_el(a, e))) == count_moves(els),
    decreases els.len(),
{
    let mapped = els.map_values(|e: PathEl| spec_apply_el(a, e));
    if els.len() > 0 {
        assert(mapped.drop_first() =~= els.drop_first().map_values(
            |e: PathEl| spec_apply_el(a, e),
        ));
        assert(mapped[0] == spec_apply_el(a, els[0]));
        assert(mapped[0] is MoveTo <==> els[0] is MoveTo);
        lemma_count_moves_map(a, els.drop_first());
    } else {
        assert(mapped.len() == 0);
    }
}

} // verus!
