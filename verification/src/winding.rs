//! Nonzero-fill winding analysis: subpaths are flattened to polylines at
//! fixed sample counts, and a winding number at a probe point decides which
//! subpaths are filled and which cut holes.

use vstd::prelude::*;
use crate::fixed::{fx_add, fx_sub, fx_mul, fx_mul_div, spec_add, spec_sub, spec_mul, spec_mul_div, FX_LIMIT};
use crate::geom::{Point, PathEl, BezPath, is_subpath};

verus! {

/// A point of the quadratic `p0, c, p1` at parameter `k / 8`, each term
/// rounded separately.
pub open spec fn spec_quad_sample(p0: Point, c: Point, p1: Point, k: int) -> Point {
    let u = 8 - k;
    let w0 = u * u;
    let w1 = 2 * u * k;
    let w2 = k * k;
    Point {
        x: spec_add(
            spec_add(
                spec_mul_div(p0.x as int, w0, 64),
                spec_mul_div(c.x as int, w1, 64),
            ),
            spec_mul_div(p1.x as int, w2, 64),
        ) as i64,
        y: spec_add(
            spec_add(
                spec_mul_div(p0.y as int, w0, 64),
                spec_mul_div(c.y as int, w1, 64),
            ),
            spec_mul_div(p1.y as int, w2, 64),
        ) as i64,
    }
}

/// A point of the cubic `p0, c0, c1, p1` at parameter `k / 8`.
pub open spec fn spec_cubic_sample(p0: Point, c0: Point, c1: Point, p1: Point, k: int) -> Point {
    let u = 8 - k;
    let w0 = u * u * u;
    let w1 = 3 * (u * u) * k;
    let w2 = 3 * u * (k * k);
    let w3 = k * k * k;
    Point {
        x: spec_add(
            spec_add(
                spec_add(
                    spec_mul_div(p0.x as int, w0, 512),
                    spec_mul_div(c0.x as int, w1, 512),
                ),
                spec_mul_div(c1.x as int, w2, 512),
            ),
            spec_mul_div(p1.x as int, w3, 512),
        ) as i64,
        y: spec_add(
            spec_add(
                spec_add(
                    spec_mul_div(p0.y as int, w0, 512),
                    spec_mul_div(c0.y as int, w1, 512),
                ),
                spec_mul_div(c1.y as int, w2, 512),
            ),
            spec_mul_div(p1.y as int, w3, 512),
        ) as i64,
    }
}

/// The polyline points one element contributes, walking from `cur`.
pub open spec fn spec_el_samples(cur: Point, e: PathEl) -> Seq<Point> {
    match e {
        PathEl::MoveTo(p) => seq![p],
        PathEl::LineTo(p) => seq![p],
        PathEl::QuadTo(c, p) => Seq::new(8, |k: int| spec_quad_sample(cur, c, p, k + 1)),
        PathEl::CurveTo(c0, c1, p) => Seq::new(8, |k: int| spec_cubic_sample(cur, c0, c1, p, k + 1)),
        PathEl::ClosePath => Seq::empty(),
    }
}

/// Where the pen rests after drawing one element from `cur`.
pub open spec fn spec_el_end(cur: Point, e: PathEl) -> Point {
    match e {
        PathEl::MoveTo(p) => p,
        PathEl::LineTo(p) => p,
        PathEl::QuadTo(c, p) => p,
        PathEl::CurveTo(c0, c1, p) => p,
        PathEl::ClosePath => cur,
    }
}

pub open spec fn spec_flatten_from(cur: Point, els: Seq<PathEl>) -> Seq<Point>
    decreases els.len(),
{
    if els.len() == 0 {
        Seq::empty()
    } else {
        spec_el_samples(cur, els[0]) + spec_flatten_from(
            spec_el_end(cur, els[0]),
            els.drop_first(),
        )
    }
}

/// A subpath flattened to a closed polyline: the anchor, then the samples of
/// every element. The closing edge back to the first point is implicit.
pub open spec fn spec_flatten(els: Seq<PathEl>) -> Seq<Point>
    recommends
        is_subpath(els),
{
    let anchor = els[0]->MoveTo_0;
    seq![anchor] + spec_flatten_from(anchor, els.drop_first())
}

fn quad_sample(p0: Point, c: Point, p1: Point, k: i64) -> (r: Point)
    requires
        0 <= k <= 8,
    ensures
        r == spec_quad_sample(p0, c, p1, k as int),
{
    proof {
        assert(0 <= (8 - k as int) * (8 - k as int) <= 64 && 0 <= 2 * (8 - k as int) * (k as int)
            <= 32 && 0 <= (k as int) * (k as int) <= 64) by (nonlinear_arith)
            requires
                0 <= k as int <= 8,
        ;
    }
    let u = 8 - k;
    let w0 = u * u;
    let w1 = 2 * u * k;
    let w2 = k * k;
    Point {
        x: fx_add(
            fx_add(fx_mul_div(p0.x, w0, 64), fx_mul_div(c.x, w1, 64)),
            fx_mul_div(p1.x, w2, 64),
        ),
        y: fx_add(
            fx_add(fx_mul_div(p0.y, w0, 64), fx_mul_div(c.y, w1, 64)),
            fx_mul_div(p1.y, w2, 64),
        ),
    }
}

fn cubic_sample(p0: Point, c0: Point, c1: Point, p1: Point, k: i64) -> (r: Point)
    requires
        0 <= k <= 8,
    ensures
        r == spec_cubic_sample(p0, c0, c1, p1, k as int),
{
    proof {
        assert(0 <= (8 - k as int) * (8 - k as int) <= 64 && 0 <= (k as int) * (k as int) <= 64
            && 0 <= (8 - k as int) * (8 - k as int) * (8 - k as int) <= 512 && 0 <= 3 * ((8
            - k as int) * (8 - k as int)) * (k as int) <= 768 && 0 <= 3 * (8 - k as int) * ((
        k as int) * (k as int)) <= 768 && 0 <= (k as int) * (k as int) * (k as int) <= 512)
            by (nonlinear_arith)
            requires
                0 <= k as int <= 8,
        ;
    }
    let u = 8 - k;
    let w0 = u * u * u;
    let w1 = 3 * (u * u) * k;
    let w2 = 3 * u * (k * k);
    let w3 = k * k * k;
    Point {
        x: fx_add(
            fx_add(
                fx_add(fx_mul_div(p0.x, w0, 512), fx_mul_div(c0.x, w1, 512)),
                fx_mul_div(c1.x, w2, 512),
            ),
            fx_mul_div(p1.x, w3, 512),
        ),
        y: fx_add(
            fx_add(
                fx_add(fx_mul_div(p0.y, w0, 512), fx_mul_div(c0.y, w1, 512)),
                fx_mul_div(c1.y, w2, 512),
            ),
            fx_mul_div(p1.y, w3, 512),
        ),
    }
}

/// Flattens a subpath into its closed polyline.
#[verifier::loop_isolation(false)]
pub fn flatten_subpath(path: &BezPath) -> (pts: Vec<Point>)
    requires
        is_subpath(path.els@),
    ensures
        pts@ == spec_flatten(path.els@),
        pts@.len() > 0,
{
    let anchor = match path.els[0] {
        PathEl::MoveTo(p) => p,
        _ => Point { x: 0, y: 0 },
    };
    let mut pts: Vec<Point> = Vec::new();
    pts.push(anchor);
    let mut cur = anchor;
    let ghost tail = path.els@.drop_first();
    let mut i: usize = 1;
    while i < path.els.len()
        invariant
            1 <= i <= path.els@.len(),
            tail == path.els@.drop_first(),
            pts@ == seq![anchor] + spec_flatten_from(anchor, tail.take(i - 1)),
            cur == spec_walk_end(anchor, tail.take(i - 1)),
        decreases path.els@.len() - i,
    {
        let e = path.els[i];
        match e {
            PathEl::MoveTo(p) => {
                pts.push(p);
                cur = p;
            },
            PathEl::LineTo(p) => {
                pts.push(p);
                cur = p;
            },
            PathEl::QuadTo(c, p) => {
                let mut k: i64 = 1;
                while k <= 8
                    invariant
                        1 <= k <= 9,
                        pts@ == seq![anchor] + spec_flatten_from(anchor, tail.take(i - 1)) + Seq::new(
                            (k - 1) as nat,
                            |j: int| spec_quad_sample(cur, c, p, j + 1),
                        ),
                    decreases 9 - k,
                {
                    pts.push(quad_sample(cur, c, p, k));
                    proof {
                        assert(Seq::new((k - 1) as nat, |j: int| spec_quad_sample(cur, c, p, j + 1)).push(
                            spec_quad_sample(cur, c, p, (k - 1) + 1),
                        ) =~= Seq::new(k as nat, |j: int| spec_quad_sample(cur, c, p, j + 1)));
                    }
                    k = k + 1;
                }
                proof {
                    assert(Seq::new(8, |j: int| spec_quad_sample(cur, c, p, j + 1))
                        =~= spec_el_samples(cur, e));
                }
                cur = p;
            },
            PathEl::CurveTo(c0, c1, p) => {
                let mut k: i64 = 1;
                while k <= 8
                    invariant
                        1 <= k <= 9,
                        pts@ == seq![anchor] + spec_flatten_from(anchor, tail.take(i - 1)) + Seq::new(
                            (k - 1) as nat,
                            |j: int| spec_cubic_sample(cur, c0, c1, p, j + 1),
                        ),
                    decreases 9 - k,
                {
                    pts.push(cubic_sample(cur, c0, c1, p, k));
                    proof {
                        assert(Seq::new(
                            (k - 1) as nat,
                            |j: int| spec_cubic_sample(cur, c0, c1, p, j + 1),
                        ).push(spec_cubic_sample(cur, c0, c1, p, (k - 1) + 1)) =~= Seq::new(
                            k as nat,
                            |j: int| spec_cubic_sample(cur, c0, c1, p, j + 1),
                        ));
                    }
                    k = k + 1;
                }
                proof {
                    assert(Seq::new(8, |j: int| spec_cubic_sample(cur, c0, c1, p, j + 1))
                        =~= spec_el_samples(cur, e));
                }
                cur = p;
            },
            PathEl::ClosePath => {
                proof {
                    assert(spec_el_samples(cur, e) =~= Seq::<Point>::empty());
                }
            },
        }
        proof {
            lemma_flatten_from_snoc(anchor, tail, i - 1);
            lemma_walk_end_snoc(anchor, tail, i - 1);
            assert(pts@ =~= seq![anchor] + spec_flatten_from(anchor, tail.take(i as int)));
        }
        i = i + 1;
    }
    proof {
        assert(tail.take(tail.len() as int) =~= tail);
    }
    pts
}

/// Where the pen rests after a run of elements from `cur`.
pub open spec fn spec_walk_end(cur: Point, els: Seq<PathEl>) -> Point
    decreases els.len(),
{
    if els.len() == 0 {
        cur
    } else {
        spec_walk_end(spec_el_end(cur, els[0]), els.drop_first())
    }
}

proof fn lemma_flatten_from_snoc(cur: Point, els: Seq<PathEl>, n: int)
    requires
        0 <= n < els.len(),
    ensures
        spec_flatten_from(cur, els.take(n + 1)) == spec_flatten_from(cur, els.take(n))
            + spec_el_samples(spec_walk_end(cur, els.take(n)), els[n]),
    decreases n,
{
    if n == 0 {
        assert(els.take(1).len() == 1 && els.take(1)[0] == els[0]);
        assert(els.take(1).drop_first() =~= Seq::<PathEl>::empty());
        assert(els.take(0).len() == 0);
        assert(spec_flatten_from(cur, els.take(1)) == spec_el_samples(cur, els[0])
            + spec_flatten_from(spec_el_end(cur, els[0]), els.take(1).drop_first()));
        assert(spec_flatten_from(cur, els.take(1)) =~= spec_el_samples(cur, els[0]));
        assert(spec_flatten_from(cur, els.take(0)) + spec_el_samples(cur, els[0])
            =~= spec_el_samples(cur, els[0]));
        assert(spec_walk_end(cur, els.take(0)) == cur);
    } else {
        let head = els[0];
        let rest = els.drop_first();
        assert(els.take(n + 1).drop_first() =~= rest.take(n));
        assert(els.take(n).drop_first() =~= rest.take(n - 1));
        assert(els.take(n + 1)[0] == head && els.take(n)[0] == head);
        lemma_flatten_from_snoc(spec_el_end(cur, head), rest, n - 1);
        assert(rest[n - 1] == els[n]);
        lemma_walk_end_take(cur, els, n);
        assert(spec_flatten_from(cur, els.take(n + 1)) == spec_el_samples(cur, head)
            + spec_flatten_from(spec_el_end(cur, head), rest.take(n)));
        assert(spec_flatten_from(cur, els.take(n)) == spec_el_samples(cur, head)
            + spec_flatten_from(spec_el_end(cur, head), rest.take(n - 1)));
        assert(spec_el_samples(cur, head) + (spec_flatten_from(
            spec_el_end(cur, head),
            rest.take(n - 1),
        ) + spec_el_samples(spec_walk_end(spec_el_end(cur, head), rest.take(n - 1)), els[n]))
            =~= spec_el_samples(cur, head) + spec_flatten_from(
            spec_el_end(cur, head),
            rest.take(n - 1),
        ) + spec_el_samples(spec_walk_end(cur, els.take(n)), els[n]));
    }
}

proof fn lemma_walk_end_snoc(cur: Point, els: Seq<PathEl>, n: int)
    requires
        0 <= n < els.len(),
    ensures
        spec_walk_end(cur, els.take(n + 1)) == spec_el_end(
            spec_walk_end(cur, els.take(n)),
            els[n],
        ),
    decreases n,
{
    if n == 0 {
        assert(els.take(1).len() == 1 && els.take(1)[0] == els[0]);
        assert(els.take(1).drop_first() =~= Seq::<PathEl>::empty());
        assert(els.take(0).len() == 0);
        assert(spec_walk_end(cur, els.take(1)) == spec_walk_end(
            spec_el_end(cur, els[0]),
            els.take(1).drop_first(),
        ));
    } else {
        let head = els[0];
        let rest = els.drop_first();
        assert(els.take(n + 1).drop_first() =~= rest.take(n));
        assert(els.take(n).drop_first() =~= rest.take(n - 1));
        assert(els.take(n + 1)[0] == head && els.take(n)[0] == head);
        lemma_walk_end_snoc(spec_el_end(cur, head), rest, n - 1);
        assert(rest[n - 1] == els[n]);
        assert(spec_walk_end(cur, els.take(n + 1)) == spec_walk_end(
            spec_el_end(cur, head),
            rest.take(n),
        ));
        assert(spec_walk_end(cur, els.take(n)) == spec_walk_end(
            spec_el_end(cur, head),
            rest.take(n - 1),
        ));
    }
}

proof fn lemma_walk_end_take(cur: Point, els: Seq<PathEl>, n: int)
    requires
        0 < n <= els.len(),
    ensures
        spec_walk_end(cur, els.take(n)) == spec_walk_end(
            spec_el_end(cur, els[0]),
            els.drop_first().take(n - 1),
        ),
{
    assert(els.take(n)[0] == els[0]);
    assert(els.take(n).drop_first() =~= els.drop_first().take(n - 1));
}


// --- winding numbers ---

/// All coordinates within the fixed-point saturation bound.
pub open spec fn pt_bounded(p: Point) -> bool {
    &&& -(FX_LIMIT as int) <= p.x as int <= FX_LIMIT as int
    &&& -(FX_LIMIT as int) <= p.y as int <= FX_LIMIT as int
}

pub open spec fn pts_bounded(pts: Seq<Point>) -> bool {
    forall|i: int| 0 <= i < pts.len() ==> pt_bounded(#[trigger] pts[i])
}

/// The cross product of `b - a` with `p - a`: positive when `p` lies left of
/// the directed edge.
pub open spec fn spec_edge_cross(a: Point, b: Point, p: Point) -> int {
    (b.x - a.x) * (p.y - a.y) - (b.y - a.y) * (p.x - a.x)
}

/// The signed crossing of the directed edge `a -> b` with the leftward ray of
/// the probe: `+1` for an upward crossing left of the probe ray, `-1` for a
/// downward one.
pub open spec fn spec_edge_contrib(a: Point, b: Point, p: Point) -> int {
    if a.y <= p.y < b.y && spec_edge_cross(a, b, p) > 0 {
        1
    } else if b.y <= p.y < a.y && spec_edge_cross(a, b, p) < 0 {
        -1
    } else {
        0
    }
}

/// The crossings of the consecutive (non-closing) edges of a polyline.
pub open spec fn spec_chain_sum(pts: Seq<Point>, p: Point) -> int
    decreases pts.len(),
{
    if pts.len() < 2 {
        0
    } else {
        spec_edge_contrib(pts[0], pts[1], p) + spec_chain_sum(pts.drop_first(), p)
    }
}

/// The winding number of the closed polyline around `p`: all consecutive
/// edges plus the closing edge.
pub open spec fn spec_winding(pts: Seq<Point>, p: Point) -> int {
    if pts.len() < 2 {
        0
    } else {
        spec_chain_sum(pts, p) + spec_edge_contrib(pts.last(), pts[0], p)
    }
}

fn edge_contrib(a: Point, b: Point, p: Point) -> (c: i64)
    requires
        pt_bounded(a),
        pt_bounded(b),
        pt_bounded(p),
    ensures
        c as int == spec_edge_contrib(a, b, p),
{
    proof {
        assert((b.x as int - a.x as int) * (p.y as int - a.y as int)
            <= 4_000_000_000_000_000_000_000_000_000_000_000_000int && (b.x as int - a.x as int) * (
        p.y as int - a.y as int) >= -4_000_000_000_000_000_000_000_000_000_000_000_000int && (
        b.y as int - a.y as int) * (p.x as int - a.x as int)
            <= 4_000_000_000_000_000_000_000_000_000_000_000_000int && (b.y as int - a.y as int) * (
        p.x as int - a.x as int) >= -4_000_000_000_000_000_000_000_000_000_000_000_000int)
            by (nonlinear_arith)
            requires
                -2_000_000_000_000_000_000int <= b.x as int - a.x as int
                    <= 2_000_000_000_000_000_000int,
                -2_000_000_000_000_000_000int <= p.y as int - a.y as int
                    <= 2_000_000_000_000_000_000int,
                -2_000_000_000_000_000_000int <= b.y as int - a.y as int
                    <= 2_000_000_000_000_000_000int,
                -2_000_000_000_000_000_000int <= p.x as int - a.x as int
                    <= 2_000_000_000_000_000_000int,
        ;
    }
    let cross: i128 = (b.x as i128 - a.x as i128) * (p.y as i128 - a.y as i128) - (b.y as i128
        - a.y as i128) * (p.x as i128 - a.x as i128);
    if a.y <= p.y && p.y < b.y && cross > 0 {
        1
    } else if b.y <= p.y && p.y < a.y && cross < 0 {
        -1
    } else {
        0
    }
}

/// The winding number of a closed polyline around a probe point.
#[verifier::loop_isolation(false)]
pub fn winding(pts: &Vec<Point>, p: Point) -> (w: i64)
    requires
        pts_bounded(pts@),
        pt_bounded(p),
        pts@.len() <= 1_000_000_000,
    ensures
        w as int == spec_winding(pts@, p),
{
    if pts.len() < 2 {
        return 0;
    }
    proof {
        assert(pts@.skip(0) =~= pts@);
    }
    let mut acc: i64 = 0;
    let mut i: usize = 0;
    while i + 1 < pts.len()
        invariant
            i + 1 <= pts@.len(),
            acc as int == spec_chain_sum(pts@, p) - spec_chain_sum(pts@.skip(i as int), p),
            -(i as int) <= acc as int <= i as int,
        decreases pts@.len() - i,
    {
        proof {
            assert(pts@.skip(i as int).drop_first() =~= pts@.skip(i + 1));
            assert(pts@.skip(i as int)[0] == pts@[i as int] && pts@.skip(i as int)[1] == pts@[i
                + 1]);
            lemma_chain_sum_bound(pts@.skip(i as int), p);
            lemma_chain_sum_bound(pts@.skip(i + 1), p);
            lemma_chain_sum_bound(pts@, p);
        }
        acc = acc + edge_contrib(pts[i], pts[i + 1], p);
        i = i + 1;
    }
    proof {
        assert(pts@.skip(i as int).len() < 2);
        assert(spec_chain_sum(pts@.skip(i as int), p) == 0);
    }
    acc + edge_contrib(pts[pts.len() - 1], pts[0], p)
}

/// A chain of crossings is bounded by the number of edges.
proof fn lemma_chain_sum_bound(pts: Seq<Point>, p: Point)
    ensures
        -pts.len() <= spec_chain_sum(pts, p) <= pts.len(),
    decreases pts.len(),
{
    if pts.len() >= 2 {
        lemma_chain_sum_bound(pts.drop_first(), p);
    }
}

/// The winding numbers of many polylines summed at one probe: the nonzero
/// fill rule counts every subpath.
pub open spec fn spec_winding_total(polys: Seq<Seq<Point>>, p: Point) -> int
    decreases polys.len(),
{
    if polys.len() == 0 {
        0
    } else {
        spec_winding(polys[0], p) + spec_winding_total(polys.drop_first(), p)
    }
}

#[verifier::loop_isolation(false)]
pub fn winding_total(polys: &Vec<Vec<Point>>, p: Point) -> (w: i64)
    requires
        forall|j: int| 0 <= j < polys@.len() ==> pts_bounded(#[trigger] polys@[j]@),
        forall|j: int| 0 <= j < polys@.len() ==> (#[trigger] polys@[j]@).len() <= 1_000_000_000,
        polys@.len() <= 1_000_000,
        pt_bounded(p),
    ensures
        w as int == spec_winding_total(polys@.map_values(|v: Vec<Point>| v@), p),
{
    let ghost ps = polys@.map_values(|v: Vec<Point>| v@);
    proof {
        assert(ps.skip(0) =~= ps);
    }
    let mut acc: i64 = 0;
    let mut j: usize = 0;
    while j < polys.len()
        invariant
            j <= polys@.len(),
            acc as int == spec_winding_total(ps, p) - spec_winding_total(ps.skip(j as int), p),
            -(j as int) * 1_000_000_001 <= acc as int <= (j as int) * 1_000_000_001,
        decreases polys@.len() - j,
    {
        proof {
            assert(ps.skip(j as int).drop_first() =~= ps.skip(j + 1));
            assert(ps.skip(j as int)[0] == ps[j as int] && ps[j as int] == polys@[j as int]@);
            lemma_winding_bound(ps[j as int], p);
            lemma_winding_total_bound(ps.skip(j as int), p);
            lemma_winding_total_bound(ps.skip(j + 1), p);
            lemma_winding_total_bound(ps, p);
            assert((j as int) * 1_000_000_001 + 1_000_000_001 == (j + 1) * 1_000_000_001)
                by (nonlinear_arith);
            assert((j as int + 1) * 1_000_000_001 <= 1_000_001int * 1_000_000_001)
                by (nonlinear_arith)
                requires
                    0 <= j as int + 1 <= 1_000_001int,
            ;
        }
        let w = winding(&polys[j], p);
        acc = acc + w;
        j = j + 1;
    }
    proof {
        assert(ps.skip(polys@.len() as int).len() == 0);
    }
    acc
}

/// A winding number is bounded by one more than the edge count.
proof fn lemma_winding_bound(pts: Seq<Point>, p: Point)
    ensures
        -(pts.len() + 1) <= spec_winding(pts, p) <= pts.len() + 1,
{
    lemma_chain_sum_bound(pts, p);
}

proof fn lemma_winding_total_bound(polys: Seq<Seq<Point>>, p: Point)
    requires
        forall|j: int| 0 <= j < polys.len() ==> (#[trigger] polys[j]).len() <= 1_000_000_000,
    ensures
        -polys.len() * 1_000_000_001 <= spec_winding_total(polys, p) <= polys.len() * 1_000_000_001,
    decreases polys.len(),
{
    if polys.len() == 0 {
    } else {
        lemma_winding_bound(polys[0], p);
        assert(forall|j: int|
            0 <= j < polys.drop_first().len() ==> (#[trigger] polys.drop_first()[j]).len()
                <= 1_000_000_000);
        lemma_winding_total_bound(polys.drop_first(), p);
        assert((polys.len() as int) * 1_000_000_001 == (polys.len() - 1) * 1_000_000_001
            + 1_000_000_001) by (nonlinear_arith);
    }
}

// --- signed area ---

/// The shoelace accumulation over the first `i` non-closing edges, in
/// saturating micro-units.
pub open spec fn spec_area2_acc(pts: Seq<Point>, i: int) -> int
    decreases i,
{
    if i <= 0 {
        0
    } else {
        spec_add(
            spec_area2_acc(pts, i - 1),
            spec_sub(
                spec_mul(pts[i - 1].x as int, pts[i].y as int),
                spec_mul(pts[i].x as int, pts[i - 1].y as int),
            ),
        )
    }
}

/// Twice the signed area of the closed polyline, in saturating micro-units:
/// the shoelace sum over all edges, the closing edge last.
pub open spec fn spec_area2(pts: Seq<Point>) -> int {
    if pts.len() < 2 {
        0
    } else {
        spec_add(
            spec_area2_acc(pts, pts.len() - 1),
            spec_sub(
                spec_mul(pts.last().x as int, pts[0].y as int),
                spec_mul(pts[0].x as int, pts.last().y as int),
            ),
        )
    }
}

/// Twice the signed area of the closed polyline.
#[verifier::loop_isolation(false)]
pub fn area2(pts: &Vec<Point>) -> (a: i64)
    ensures
        a as int == spec_area2(pts@),
{
    if pts.len() < 2 {
        return 0;
    }
    let mut acc: i64 = 0;
    let mut i: usize = 0;
    while i + 1 < pts.len()
        invariant
            i + 1 <= pts@.len(),
            pts@.len() >= 2,
            acc as int == spec_area2_acc(pts@, i as int),
        decreases pts@.len() - i,
    {
        acc = fx_add(acc, fx_sub(fx_mul(pts[i].x, pts[i + 1].y), fx_mul(pts[i + 1].x, pts[i].y)));
        i = i + 1;
    }
    fx_add(
        acc,
        fx_sub(fx_mul(pts[pts.len() - 1].x, pts[0].y), fx_mul(pts[0].x, pts[pts.len() - 1].y)),
    )
}


// --- probe points ---

/// The probe offsets tried around the anchor, in order: zero first, then
/// one-thousandth-of-a-unit nudges.
pub open spec fn spec_probe_offset(i: int) -> (int, int) {
    if i == 0 {
        (0, 0)
    } else if i == 1 {
        (0, 1000)
    } else if i == 2 {
        (0, -1000)
    } else if i == 3 {
        (1000, 0)
    } else if i == 4 {
        (1000, 1000)
    } else if i == 5 {
        (1000, -1000)
    } else if i == 6 {
        (-1000, 0)
    } else if i == 7 {
        (-1000, 1000)
    } else {
        (-1000, -1000)
    }
}

pub open spec fn spec_probe_candidate(anchor: Point, i: int) -> Point {
    Point {
        x: spec_add(anchor.x as int, spec_probe_offset(i).0) as i64,
        y: spec_add(anchor.y as int, spec_probe_offset(i).1) as i64,
    }
}

/// The first probe near the anchor that the polyline winds around, trying
/// offsets from index `i` on.
pub open spec fn spec_probe_from(pts: Seq<Point>, anchor: Point, i: int) -> Option<Point>
    decreases 9 - i,
{
    if i < 0 || i >= 9 {
        None
    } else {
        let c = spec_probe_candidate(anchor, i);
        if spec_winding(pts, c) != 0 {
            Some(c)
        } else {
            spec_probe_from(pts, anchor, i + 1)
        }
    }
}

/// A point contained in the subpath under the nonzero rule: the anchor of its
/// `MoveTo`, nudged by up to a thousandth of a unit if need be.
pub open spec fn spec_contained_point(pts: Seq<Point>, anchor: Point) -> Option<Point> {
    spec_probe_from(pts, anchor, 0)
}

/// Finds a probe point that the polyline winds around.
#[verifier::loop_isolation(false)]
pub fn contained_point(pts: &Vec<Point>, anchor: Point) -> (r: Option<Point>)
    requires
        pts_bounded(pts@),
        pt_bounded(anchor),
        pts@.len() <= 1_000_000_000,
    ensures
        r == spec_contained_point(pts@, anchor),
{
    let mut i: i64 = 0;
    while i < 9
        invariant
            0 <= i <= 9,
            spec_probe_from(pts@, anchor, i as int) == spec_contained_point(pts@, anchor),
        decreases 9 - i,
    {
        let (dx, dy): (i64, i64) = if i == 0 {
            (0, 0)
        } else if i == 1 {
            (0, 1000)
        } else if i == 2 {
            (0, -1000)
        } else if i == 3 {
            (1000, 0)
        } else if i == 4 {
            (1000, 1000)
        } else if i == 5 {
            (1000, -1000)
        } else if i == 6 {
            (-1000, 0)
        } else if i == 7 {
            (-1000, 1000)
        } else {
            (-1000, -1000)
        };
        let c = Point { x: fx_add(anchor.x, dx), y: fx_add(anchor.y, dy) };
        proof {
            assert(c == spec_probe_candidate(anchor, i as int));
        }
        if winding(pts, c) != 0 {
            return Some(c);
        }
        i = i + 1;
    }
    None
}

// --- winding independence under reversal ---

/// Reversing a directed edge negates its crossing contribution.
proof fn lemma_contrib_reverse(a: Point, b: Point, p: Point)
    ensures
        spec_edge_contrib(b, a, p) == -spec_edge_contrib(a, b, p),
{
    assert((a.x as int - b.x as int) * (p.y as int - b.y as int) - (a.y as int - b.y as int) * (
    p.x as int - b.x as int) == -((b.x as int - a.x as int) * (p.y as int - a.y as int) - (
    b.y as int - a.y as int) * (p.x as int - a.x as int))) by (nonlinear_arith);
}

/// The chain sum taken from the right: dropping the last point removes the
/// last edge.
proof fn lemma_chain_sum_snoc(pts: Seq<Point>, p: Point)
    requires
        pts.len() >= 2,
    ensures
        spec_chain_sum(pts, p) == spec_chain_sum(pts.drop_last(), p) + spec_edge_contrib(
            pts[pts.len() - 2],
            pts[pts.len() - 1],
            p,
        ),
    decreases pts.len(),
{
    if pts.len() == 2 {
        assert(pts.drop_last().len() == 1);
        assert(pts.drop_first().len() == 1);
        assert(spec_chain_sum(pts, p) == spec_edge_contrib(pts[0], pts[1], p) + spec_chain_sum(
            pts.drop_first(),
            p,
        ));
        assert(spec_chain_sum(pts.drop_first(), p) == 0);
        assert(spec_chain_sum(pts.drop_last(), p) == 0);
        assert(spec_chain_sum(pts, p) == spec_chain_sum(pts.drop_last(), p) + spec_edge_contrib(
            pts[pts.len() - 2],
            pts[pts.len() - 1],
            p,
        ));
    } else {
        lemma_chain_sum_snoc(pts.drop_first(), p);
        assert(pts.drop_first().drop_last() =~= pts.drop_last().drop_first());
        assert(pts.drop_last()[0] == pts[0] && pts.drop_last()[1] == pts[1]);
        assert(pts.drop_first()[pts.len() - 3] == pts[pts.len() - 2]);
        assert(pts.drop_first()[pts.len() - 2] == pts[pts.len() - 1]);
        assert(pts.drop_last().len() >= 2);
        assert(spec_chain_sum(pts, p) == spec_edge_contrib(pts[0], pts[1], p) + spec_chain_sum(
            pts.drop_first(),
            p,
        ));
        assert(spec_chain_sum(pts.drop_last(), p) == spec_edge_contrib(
            pts.drop_last()[0],
            pts.drop_last()[1],
            p,
        ) + spec_chain_sum(pts.drop_last().drop_first(), p));
        assert(spec_chain_sum(pts.drop_first(), p) == spec_chain_sum(
            pts.drop_first().drop_last(),
            p,
        ) + spec_edge_contrib(pts[pts.len() - 2], pts[pts.len() - 1], p));
        assert(spec_chain_sum(pts.drop_first().drop_last(), p) == spec_chain_sum(
            pts.drop_last().drop_first(),
            p,
        ));
        assert(spec_chain_sum(pts, p) == spec_chain_sum(pts.drop_last(), p) + spec_edge_contrib(
            pts[pts.len() - 2],
            pts[pts.len() - 1],
            p,
        ));
    }
}

/// Reversing a polyline negates the sum of its consecutive crossings.
proof fn lemma_chain_sum_reverse(pts: Seq<Point>, p: Point)
    ensures
        spec_chain_sum(pts.reverse(), p) == -spec_chain_sum(pts, p),
    decreases pts.len(),
{
    if pts.len() < 2 {
    } else {
        let rev = pts.reverse();
        assert(rev[0] == pts[pts.len() - 1] && rev[1] == pts[pts.len() - 2]);
        assert(rev.drop_first() =~= pts.drop_last().reverse());
        lemma_chain_sum_reverse(pts.drop_last(), p);
        lemma_contrib_reverse(pts[pts.len() - 2], pts[pts.len() - 1], p);
        lemma_chain_sum_snoc(pts, p);
    }
}

/// Winding independence of direction: reversing a subpath's polyline negates
/// its winding number at every probe point.
pub proof fn lemma_winding_reverse(pts: Seq<Point>, p: Point)
    ensures
        spec_winding(pts.reverse(), p) == -spec_winding(pts, p),
{
    if pts.len() < 2 {
        assert(pts.reverse().len() < 2);
    } else {
        let rev = pts.reverse();
        lemma_chain_sum_reverse(pts, p);
        assert(rev.last() == pts[0] && rev[0] == pts[pts.len() - 1]);
        lemma_contrib_reverse(pts[pts.len() - 1], pts[0], p);
    }
}

/// Replacing one polyline shifts the total winding by the difference of the
/// old and new members.
proof fn lemma_winding_total_update(polys: Seq<Seq<Point>>, h: int, v: Seq<Point>, p: Point)
    requires
        0 <= h < polys.len(),
    ensures
        spec_winding_total(polys.update(h, v), p) == spec_winding_total(polys, p) - spec_winding(
            polys[h],
            p,
        ) + spec_winding(v, p),
    decreases polys.len(),
{
    if h == 0 {
        assert(polys.update(0, v).drop_first() =~= polys.drop_first());
        assert(polys.update(0, v)[0] == v);
    } else {
        assert(polys.update(h, v).drop_first() =~= polys.drop_first().update(h - 1, v));
        assert(polys.update(h, v)[0] == polys[0]);
        lemma_winding_total_update(polys.drop_first(), h - 1, v, p);
        assert(polys.drop_first()[h - 1] == polys[h]);
    }
}

/// Winding independence (nonzero rule): reversing a pure hole subpath — one
/// whose own winding at the probe is zero — leaves the total winding at that
/// probe unchanged, so the filledness classification there is unchanged.
pub proof fn lemma_filledness_winding_independent(polys: Seq<Seq<Point>>, h: int, p: Point)
    requires
        0 <= h < polys.len(),
        spec_winding(polys[h], p) == 0,
    ensures
        spec_winding_total(polys.update(h, polys[h].reverse()), p) == spec_winding_total(polys, p),
        (spec_winding_total(polys.update(h, polys[h].reverse()), p) != 0) == (spec_winding_total(
            polys,
            p,
        ) != 0),
{
    lemma_winding_reverse(polys[h], p);
    lemma_winding_total_update(polys, h, polys[h].reverse(), p);
}

} // verus!