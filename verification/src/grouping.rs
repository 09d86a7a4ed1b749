//! Piece-wise animation wants to animate "parts" as the eye perceives them:
//! a filled region together with the holes cut out of it. Subpaths are
//! classified by a nonzero-fill winding analysis, ordered filled-first and
//! smaller-first, and each hole joins the first filled subpath whose bounding
//! box fully contains its own.

use vstd::prelude::*;
use crate::geom::{
    Point, Rect, BezPath, PathEl, is_subpath, starts_with_move, path_els_bounded, el_bounded,
    count_moves, rect_contains, rect_wf, rect_bounded, spec_bbox, spec_rect_union,
    spec_rect_center, spec_rect_area, lemma_split_count, lemma_flatten_member,
};
use crate::keyframed::{Keyframe, Keyframed, lemma_ascending_at};
use crate::winding::{
    spec_flatten, flatten_subpath, spec_winding_total, winding_total, spec_contained_point,
    contained_point, pts_bounded, pt_bounded,
};

verus! {

/// The polyline of each subpath is capped so winding sums stay small.
pub const MAX_SUBPATH_ELS: usize = 10_000;

/// The number of subpaths a grouping run accepts.
pub const MAX_SUBPATHS: usize = 100_000;

impl Keyframed<BezPath> {
    /// A structural copy of the series.
    pub fn duplicate(&self) -> (r: Keyframed<BezPath>)
        ensures
            r.spring == self.spring,
            r.keyframes@.len() == self.keyframes@.len(),
            forall|i: int|
                0 <= i < self.keyframes@.len() ==> (#[trigger] r.keyframes@[i]).frame
                    == self.keyframes@[i].frame && r.keyframes@[i].value.els@
                    == self.keyframes@[i].value.els@,
    {
        let mut keyframes: Vec<Keyframe<BezPath>> = Vec::new();
        let mut i: usize = 0;
        while i < self.keyframes.len()
            invariant
                i <= self.keyframes@.len(),
                keyframes@.len() == i,
                forall|j: int|
                    0 <= j < i ==> (#[trigger] keyframes@[j]).frame == self.keyframes@[j].frame
                        && keyframes@[j].value.els@ == self.keyframes@[j].value.els@,
            decreases self.keyframes@.len() - i,
        {
            let kf = &self.keyframes[i];
            keyframes.push(Keyframe { frame: kf.frame, value: kf.value.duplicate() });
            i = i + 1;
        }
        Keyframed { keyframes, spring: self.spring }
    }

    /// Splits a shape series into one series per subpath: each keyframe's
    /// path is split, and corresponding pieces are zipped back together under
    /// the same frames. Requires every keyframe to hold as many subpaths as
    /// the earliest one, which interpolation compatibility guarantees.
    #[verifier::loop_isolation(false)]
    pub fn subpaths(&self) -> (parts: Vec<Keyframed<BezPath>>)
        requires
            crate::ir::shape_wf(*self),
            forall|i: int|
                0 <= i < self.keyframes@.len() ==> count_moves(
                    (#[trigger] self.keyframes@[i]).value.els@,
                ) == count_moves(self.keyframes@[0].value.els@),
        ensures
            parts@.len() == count_moves(self.keyframes@[0].value.els@),
            forall|j: int|
                0 <= j < parts@.len() ==> crate::ir::shape_wf(#[trigger] parts@[j])
                    && parts@[j].spring is None && parts@[j].keyframes@.len()
                    == self.keyframes@.len(),
            forall|j: int, i: int|
                0 <= j < parts@.len() && 0 <= i < self.keyframes@.len() ==> (#[trigger] parts@[
                j].keyframes@[i]).frame == self.keyframes@[i].frame && is_subpath(
                    parts@[j].keyframes@[i].value.els@,
                ),
            forall|i: int|
                0 <= i < self.keyframes@.len() ==> Seq::new(
                    parts@.len(),
                    |j: int| parts@[j].keyframes@[i].value.els@,
                ).flatten() == (#[trigger] self.keyframes@[i]).value.els@,
    {
        let ghost n_moves = count_moves(self.keyframes@[0].value.els@);
        // Split every keyframe's path.
        let mut split: Vec<Vec<BezPath>> = Vec::new();
        let mut i: usize = 0;
        while i < self.keyframes.len()
            invariant
                i <= self.keyframes@.len(),
                split@.len() == i,
                forall|a: int|
                    0 <= a < i ==> (#[trigger] split@[a]@).map_values(
                        |p: BezPath| p.els@,
                    ).flatten() == self.keyframes@[a].value.els@,
                forall|a: int, b: int|
                    0 <= a < i && 0 <= b < split@[a]@.len() ==> is_subpath(
                        (#[trigger] split@[a]@[b]).els@,
                    ),
                forall|a: int| 0 <= a < i ==> (#[trigger] split@[a]@).len() == n_moves,
            decreases self.keyframes@.len() - i,
        {
            let ps = self.keyframes[i].value.subpaths();
            proof {
                lemma_split_count(ps@.map_values(|p: BezPath| p.els@), self.keyframes@[i as int].value.els@);
            }
            split.push(ps);
            proof {
                assert forall|b: int|
                    0 <= b < split@[i as int]@.len() implies is_subpath(
                    (#[trigger] split@[i as int]@[b]).els@,
                ) by {
                    assert(split@[i as int]@[b] == ps@[b]);
                    assert(ps@.map_values(|p: BezPath| p.els@)[b] == ps@[b].els@);
                }
            }
            i = i + 1;
        }
        // Zip the pieces by index.
        let n = if self.keyframes.len() > 0 {
            split[0].len()
        } else {
            0
        };
        proof {
            assert(n as int == n_moves);
        }
        let mut parts: Vec<Keyframed<BezPath>> = Vec::new();
        let mut j: usize = 0;
        while j < n
            invariant
                j <= n,
                n as int == n_moves,
                split@.len() == self.keyframes@.len(),
                parts@.len() == j,
                forall|a: int|
                    0 <= a < split@.len() ==> (#[trigger] split@[a]@).map_values(
                        |p: BezPath| p.els@,
                    ).flatten() == self.keyframes@[a].value.els@,
                forall|a: int, b: int|
                    0 <= a < split@.len() && 0 <= b < split@[a]@.len() ==> is_subpath(
                        (#[trigger] split@[a]@[b]).els@,
                    ),
                forall|a: int| 0 <= a < split@.len() ==> (#[trigger] split@[a]@).len() == n_moves,
                forall|q: int|
                    0 <= q < j ==> crate::ir::shape_wf(#[trigger] parts@[q]) && parts@[q].spring
                        is None && parts@[q].keyframes@.len() == self.keyframes@.len(),
                forall|q: int, i2: int|
                    0 <= q < j && 0 <= i2 < self.keyframes@.len() ==> (#[trigger] parts@[
                    q].keyframes@[i2]).frame == self.keyframes@[i2].frame && parts@[
                    q].keyframes@[i2].value.els@ == split@[i2]@[q].els@,
            decreases n - j,
        {
            let mut ks: Vec<Keyframe<BezPath>> = Vec::new();
            let mut i2: usize = 0;
            while i2 < self.keyframes.len()
                invariant
                    i2 <= self.keyframes@.len(),
                    j < n,
                    n as int == n_moves,
                    split@.len() == self.keyframes@.len(),
                    forall|a: int| 0 <= a < split@.len() ==> (#[trigger] split@[a]@).len() == n_moves,
                    ks@.len() == i2,
                    forall|b: int|
                        0 <= b < i2 ==> (#[trigger] ks@[b]).frame == self.keyframes@[b].frame
                            && ks@[b].value.els@ == split@[b]@[j as int].els@,
                decreases self.keyframes@.len() - i2,
            {
                ks.push(
                    Keyframe {
                        frame: self.keyframes[i2].frame,
                        value: split[i2][j].duplicate(),
                    },
                );
                i2 = i2 + 1;
            }
            let part = Keyframed { keyframes: ks, spring: Option::None };
            proof {
                assert forall|a: int, b: int|
                    0 <= a < b < part.keyframes@.len() implies part.keyframes@[a].frame
                    < part.keyframes@[b].frame by {
                    lemma_ascending_at(self.keyframes@, a, b);
                }
                assert forall|b: int|
                    0 <= b < part.keyframes@.len() implies starts_with_move(
                    (#[trigger] part.keyframes@[b]).value.els@,
                ) && path_els_bounded(part.keyframes@[b].value.els@) by {
                    assert(is_subpath(split@[b]@[j as int].els@));
                    lemma_subpath_of_bounded(
                        split@[b]@.map_values(|p: BezPath| p.els@),
                        self.keyframes@[b].value.els@,
                        j as int,
                    );
                }
            }
            parts.push(part);
            j = j + 1;
        }
        proof {
            assert forall|i3: int|
                0 <= i3 < self.keyframes@.len() implies Seq::new(
                parts@.len(),
                |j2: int| parts@[j2].keyframes@[i3].value.els@,
            ).flatten() == (#[trigger] self.keyframes@[i3]).value.els@ by {
                assert(Seq::new(parts@.len(), |j2: int| parts@[j2].keyframes@[i3].value.els@)
                    =~= split@[i3]@.map_values(|p: BezPath| p.els@));
            }
        }
        parts
    }
}

/// A piece of a split of a bounded path is itself bounded: each of its
/// elements stands in the concatenation.
proof fn lemma_subpath_of_bounded(parts: Seq<Seq<PathEl>>, els: Seq<PathEl>, j: int)
    requires
        parts.flatten() == els,
        path_els_bounded(els),
        0 <= j < parts.len(),
    ensures
        path_els_bounded(parts[j]),
{
    assert forall|l: int| 0 <= l < parts[j].len() implies el_bounded(#[trigger] parts[j][l]) by {
        lemma_flatten_member(parts, j, l);
        let w = choose|w: int| 0 <= w < els.len() && els[w] == parts[j][l];
        assert(el_bounded(els[w]));
    }
}

/// Whether the subpath with polyline `own` and anchor `anchor` is filled
/// under the nonzero rule, probing near the anchor and summing the winding
/// of every subpath's polyline.
pub open spec fn spec_filled(polys: Seq<Seq<Point>>, own: Seq<Point>, anchor: Point) -> bool {
    match spec_contained_point(own, anchor) {
        Option::Some(p) => spec_winding_total(polys, p) != 0,
        Option::None => false,
    }
}

/// The anchor of a subpath: where its `MoveTo` starts.
pub open spec fn spec_anchor(els: Seq<PathEl>) -> Point
    recommends
        is_subpath(els),
{
    els[0]->MoveTo_0
}

/// Classifies each subpath as filled or unfilled: probe a point inside it,
/// then sum the winding numbers of all subpaths there.
#[verifier::loop_isolation(false)]
pub fn classify_filled(subs: &Vec<BezPath>) -> (filled: Vec<bool>)
    requires
        subs@.len() <= MAX_SUBPATHS,
        forall|i: int|
            0 <= i < subs@.len() ==> is_subpath((#[trigger] subs@[i]).els@) && path_els_bounded(
                subs@[i].els@,
            ) && subs@[i].els@.len() <= MAX_SUBPATH_ELS,
    ensures
        filled@.len() == subs@.len(),
        forall|i: int|
            0 <= i < subs@.len() ==> filled@[i] == spec_filled(
                subs@.map_values(|p: BezPath| spec_flatten(p.els@)),
                spec_flatten((#[trigger] subs@[i]).els@),
                spec_anchor(subs@[i].els@),
            ),
{
    let ghost polys_spec = subs@.map_values(|p: BezPath| spec_flatten(p.els@));
    let mut polys: Vec<Vec<Point>> = Vec::new();
    let mut i: usize = 0;
    while i < subs.len()
        invariant
            i <= subs@.len(),
            polys@.len() == i,
            forall|a: int| 0 <= a < i ==> (#[trigger] polys@[a])@ == polys_spec[a],
        decreases subs@.len() - i,
    {
        let pts = flatten_subpath(&subs[i]);
        polys.push(pts);
        i = i + 1;
    }
    proof {
        assert forall|a: int| 0 <= a < polys@.len() implies pts_bounded(
            (#[trigger] polys@[a])@,
        ) && (polys@[a])@.len() <= 1_000_000_000 by {
            lemma_flatten_bounded_len(subs@[a].els@);
        }
    }
    let mut filled: Vec<bool> = Vec::new();
    let mut i2: usize = 0;
    while i2 < subs.len()
        invariant
            i2 <= subs@.len(),
            polys@.len() == subs@.len(),
            forall|a: int| 0 <= a < subs@.len() ==> (#[trigger] polys@[a])@ == polys_spec[a],
            forall|a: int|
                0 <= a < subs@.len() ==> pts_bounded((#[trigger] polys@[a])@) && (polys@[a])@.len()
                    <= 1_000_000_000,
            filled@.len() == i2,
            forall|a: int|
                0 <= a < i2 ==> filled@[a] == spec_filled(
                    polys_spec,
                    spec_flatten((#[trigger] subs@[a]).els@),
                    spec_anchor(subs@[a].els@),
                ),
        decreases subs@.len() - i2,
    {
        let anchor = match subs[i2].els[0] {
            PathEl::MoveTo(p) => p,
            _ => Point { x: 0, y: 0 },
        };
        proof {
            assert(el_bounded(subs@[i2 as int].els@[0]));
        }
        let is_filled = match contained_point(&polys[i2], anchor) {
            Some(probe) => {
                proof {
                    lemma_probe_bounded(polys@[i2 as int]@, anchor);
                }
                winding_total(&polys, probe) != 0
            },
            _ => false,
        };
        proof {
            assert(polys@.map_values(|v: Vec<Point>| v@) =~= polys_spec);
        }
        filled.push(is_filled);
        i2 = i2 + 1;
    }
    filled
}

/// A probe returned by the search is one of nine saturating nudges of the
/// anchor, hence bounded.
proof fn lemma_probe_bounded(pts: Seq<Point>, anchor: Point)
    ensures
        spec_contained_point(pts, anchor) is Some ==> pt_bounded(
            spec_contained_point(pts, anchor).unwrap(),
        ),
{
    lemma_probe_from_bounded(pts, anchor, 0);
}

proof fn lemma_probe_from_bounded(pts: Seq<Point>, anchor: Point, i: int)
    ensures
        crate::winding::spec_probe_from(pts, anchor, i) is Some ==> pt_bounded(
            crate::winding::spec_probe_from(pts, anchor, i).unwrap(),
        ),
    decreases 9 - i,
{
    if 0 <= i < 9 {
        lemma_probe_from_bounded(pts, anchor, i + 1);
    }
}

/// A flattened subpath has bounded coordinates and at most `1 + 8 n` points.
proof fn lemma_flatten_bounded_len(els: Seq<PathEl>)
    requires
        is_subpath(els),
        path_els_bounded(els),
        els.len() <= MAX_SUBPATH_ELS,
    ensures
        pts_bounded(spec_flatten(els)),
        spec_flatten(els).len() <= 1 + 8 * els.len(),
{
    assert(el_bounded(els[0]));
    lemma_flatten_from_bounded_len(els[0]->MoveTo_0, els.drop_first(), els);
    assert(spec_flatten(els) == seq![els[0]->MoveTo_0] + crate::winding::spec_flatten_from(
        els[0]->MoveTo_0,
        els.drop_first(),
    ));
    assert forall|i: int| 0 <= i < spec_flatten(els).len() implies pt_bounded(
        #[trigger] spec_flatten(els)[i],
    ) by {
        if i > 0 {
            assert(spec_flatten(els)[i] == crate::winding::spec_flatten_from(
                els[0]->MoveTo_0,
                els.drop_first(),
            )[i - 1]);
        }
    }
}

/// Points produced while flattening a run of bounded elements are bounded,
/// and each element yields at most 8 of them.
proof fn lemma_flatten_from_bounded_len(cur: Point, els: Seq<PathEl>, whole: Seq<PathEl>)
    requires
        forall|i: int| 0 <= i < els.len() ==> el_bounded(#[trigger] els[i]),
    ensures
        pts_bounded(crate::winding::spec_flatten_from(cur, els)),
        crate::winding::spec_flatten_from(cur, els).len() <= 8 * els.len(),
    decreases els.len(),
{
    if els.len() > 0 {
        let head = els[0];
        let samples = crate::winding::spec_el_samples(cur, head);
        assert(el_bounded(head));
        assert forall|k: int| 0 <= k < samples.len() implies pt_bounded(#[trigger] samples[k]) by {
            match head {
                PathEl::MoveTo(p) => {},
                PathEl::LineTo(p) => {},
                PathEl::QuadTo(c, p) => {
                    assert(samples[k] == crate::winding::spec_quad_sample(cur, c, p, k + 1));
                },
                PathEl::CurveTo(c0, c1, p) => {
                    assert(samples[k] == crate::winding::spec_cubic_sample(cur, c0, c1, p, k + 1));
                },
                PathEl::ClosePath => {},
            }
        }
        assert(forall|i: int|
            0 <= i < els.drop_first().len() ==> el_bounded(#[trigger] els.drop_first()[i]));
        lemma_flatten_from_bounded_len(crate::winding::spec_el_end(cur, head), els.drop_first(), whole);
        assert(samples.len() <= 8);
    }
}


// --- ordering: filled before unfilled, smaller boxes first ---

/// Subpath `a` (filledness, box area) sorts no later than `b`.
pub open spec fn grouping_le(fa: bool, aa: int, fb: bool, ab: int) -> bool {
    if fa != fb {
        fa
    } else {
        aa <= ab
    }
}

/// Filled subpaths occupy a prefix of the order.
pub open spec fn filled_prefix(order: Seq<usize>, filled: Seq<bool>) -> bool {
    forall|a: int, b: int|
        0 <= a < b < order.len() && filled[order[b] as int] ==> filled[order[a] as int]
}

/// Subpath `o` sorts no later than subpath `s`.
fn comes_before(filled: &Vec<bool>, areas: &Vec<i64>, o: usize, s: usize) -> (b: bool)
    requires
        filled@.len() == areas@.len(),
        o < filled@.len(),
        s < filled@.len(),
    ensures
        b == grouping_le(
            filled@[o as int],
            areas@[o as int] as int,
            filled@[s as int],
            areas@[s as int] as int,
        ),
{
    if filled[o] != filled[s] {
        filled[o]
    } else {
        areas[o] <= areas[s]
    }
}

/// Orders the subpath indices: filled ahead of unfilled, smaller bounding
/// boxes before larger ones.
#[verifier::loop_isolation(false)]
pub fn sort_for_grouping(filled: &Vec<bool>, areas: &Vec<i64>) -> (order: Vec<usize>)
    requires
        filled@.len() == areas@.len(),
    ensures
        order@.len() == filled@.len(),
        forall|k: int| 0 <= k < order@.len() ==> (#[trigger] order@[k]) < filled@.len(),
        order@.no_duplicates(),
        forall|a: int, b: int|
            0 <= a < b < order@.len() ==> grouping_le(
                filled@[order@[a] as int],
                areas@[order@[a] as int] as int,
                filled@[order@[b] as int],
                areas@[order@[b] as int] as int,
            ),
        filled_prefix(order@, filled@),
{
    let n = filled.len();
    let mut order: Vec<usize> = Vec::new();
    let mut s: usize = 0;
    while s < n
        invariant
            s <= n,
            n == filled@.len(),
            order@.len() == s,
            forall|k: int| 0 <= k < order@.len() ==> (#[trigger] order@[k]) < s,
            order@.no_duplicates(),
            forall|k: usize| k < s ==> order@.contains(k),
            forall|a: int, b: int|
                0 <= a < b < order@.len() ==> grouping_le(
                    filled@[order@[a] as int],
                    areas@[order@[a] as int] as int,
                    filled@[order@[b] as int],
                    areas@[order@[b] as int] as int,
                ),
        decreases n - s,
    {
        // Find the insertion point that keeps the order sorted.
        let mut pos: usize = 0;
        while pos < order.len() && comes_before(filled, areas, order[pos], s)
            invariant
                pos <= order@.len(),
                s < n,
                forall|k: int|
                    0 <= k < pos ==> grouping_le(
                        filled@[order@[k] as int],
                        areas@[order@[k] as int] as int,
                        filled@[s as int],
                        areas@[s as int] as int,
                    ),
            decreases order@.len() - pos,
        {
            pos = pos + 1;
        }
        let ghost order_before = order@;
        order.insert(pos, s);
        proof {
            assert(order@ == order_before.insert(pos as int, s));
            assert forall|k: int| 0 <= k < order@.len() implies (#[trigger] order@[k]) < s + 1 by {
                if k < pos {
                    assert(order@[k] == order_before[k]);
                } else if k > pos {
                    assert(order@[k] == order_before[k - 1]);
                }
            }
            assert forall|k: usize| k < s + 1 implies order@.contains(k) by {
                if k < s {
                    assert(order_before.contains(k));
                    let w = choose|w: int| 0 <= w < order_before.len() && order_before[w] == k;
                    if w < pos {
                        assert(order@[w] == k);
                    } else {
                        assert(order@[w + 1] == k);
                    }
                } else {
                    assert(order@[pos as int] == s);
                }
            }
            assert forall|a: int, b: int|
                0 <= a < b < order@.len() implies order@[a] != order@[b] by {
                let a0 = if a < pos {
                    a
                } else {
                    a - 1
                };
                let b0 = if b < pos {
                    b
                } else {
                    b - 1
                };
                if a == pos {
                    assert(order@[b] == order_before[b - 1] && order_before[b - 1] < s);
                } else if b == pos {
                    assert(order@[a] == order_before[a0] && order_before[a0] < s);
                } else {
                    assert(order@[a] == order_before[a0] && order@[b] == order_before[b0]);
                }
            }
            if pos < order_before.len() {
                // The scan stopped because the element at `pos` does not come
                // before the inserted one, so the inserted one comes first.
                assert(!grouping_le(
                    filled@[order_before[pos as int] as int],
                    areas@[order_before[pos as int] as int] as int,
                    filled@[s as int],
                    areas@[s as int] as int,
                ));
                assert(grouping_le(
                    filled@[s as int],
                    areas@[s as int] as int,
                    filled@[order_before[pos as int] as int],
                    areas@[order_before[pos as int] as int] as int,
                ));
            }
            assert forall|a: int, b: int|
                0 <= a < b < order@.len() implies grouping_le(
                filled@[order@[a] as int],
                areas@[order@[a] as int] as int,
                filled@[order@[b] as int],
                areas@[order@[b] as int] as int,
            ) by {
                let a0 = if a < pos {
                    a
                } else {
                    a - 1
                };
                let b0 = if b < pos {
                    b
                } else {
                    b - 1
                };
                if a == pos {
                    assert(order@[b] == order_before[b - 1]);
                    assert(b - 1 >= pos);
                    if b - 1 > pos {
                        assert(grouping_le(
                            filled@[order_before[pos as int] as int],
                            areas@[order_before[pos as int] as int] as int,
                            filled@[order_before[b - 1] as int],
                            areas@[order_before[b - 1] as int] as int,
                        ));
                    }
                } else if b == pos {
                    assert(order@[a] == order_before[a]);
                } else {
                    assert(order@[a] == order_before[a0] && order@[b] == order_before[b0]);
                    if a0 < b0 {
                    } else {
                        assert(a0 == b0);
                        assert(a < pos && b > pos);
                        assert(false);
                    }
                }
            }
        }
        s = s + 1;
    }
    proof {
        assert(forall|k: int| 0 <= k < order@.len() ==> (#[trigger] order@[k]) < n);
        assert forall|a: int, b: int|
            0 <= a < b < order@.len() && filled@[order@[b] as int] implies filled@[order@[a] as int]
            by {
            assert(grouping_le(
                filled@[order@[a] as int],
                areas@[order@[a] as int] as int,
                filled@[order@[b] as int],
                areas@[order@[b] as int] as int,
            ));
        }
    }
    order
}


// --- the partition itself ---

/// The total number of subpaths placed into groups.
pub open spec fn spec_size_sum(groups: Seq<Seq<usize>>) -> int
    decreases groups.len(),
{
    if groups.len() == 0 {
        0
    } else {
        groups[0].len() + spec_size_sum(groups.drop_first())
    }
}

proof fn lemma_size_sum_push(groups: Seq<Seq<usize>>, v: Seq<usize>)
    ensures
        spec_size_sum(groups.push(v)) == spec_size_sum(groups) + v.len(),
    decreases groups.len(),
{
    assert(spec_size_sum(groups.push(v)) == groups.push(v)[0].len() + spec_size_sum(
        groups.push(v).drop_first(),
    ));
    if groups.len() == 0 {
        assert(groups.push(v).drop_first() =~= Seq::<Seq<usize>>::empty());
        assert(groups.push(v)[0] == v);
        assert(spec_size_sum(Seq::<Seq<usize>>::empty()) == 0);
    } else {
        assert(groups.push(v).drop_first() =~= groups.drop_first().push(v));
        assert(groups.push(v)[0] == groups[0]);
        lemma_size_sum_push(groups.drop_first(), v);
        assert(spec_size_sum(groups) == groups[0].len() + spec_size_sum(groups.drop_first()));
    }
}

proof fn lemma_size_sum_update(groups: Seq<Seq<usize>>, g: int, v: Seq<usize>)
    requires
        0 <= g < groups.len(),
    ensures
        spec_size_sum(groups.update(g, v)) == spec_size_sum(groups) - groups[g].len() + v.len(),
    decreases groups.len(),
{
    if g == 0 {
        assert(groups.update(0, v).drop_first() =~= groups.drop_first());
        assert(groups.update(0, v)[0] == v);
    } else {
        assert(groups.update(g, v).drop_first() =~= groups.drop_first().update(g - 1, v));
        assert(groups.update(g, v)[0] == groups[0]);
        lemma_size_sum_update(groups.drop_first(), g - 1, v);
        assert(groups.drop_first()[g - 1] == groups[g]);
    }
}

/// Clusters the ordered subpaths: each filled subpath starts a new group;
/// each unfilled subpath joins the first group whose filled leader's bounding
/// box fully contains its own, or is dropped when none does.
///
/// The partition property: group leaders are exactly the filled subpaths, in
/// order; every other member is unfilled, contained in its leader's box and
/// in no earlier leader's box; no subpath lands twice; and at most as many
/// subpaths land as came in.
#[verifier::loop_isolation(false)]
#[verifier::rlimit(100)]
pub fn assign_groups(order: &Vec<usize>, filled: &Vec<bool>, rects: &Vec<Rect>) -> (groups: Vec<
    Vec<usize>,
>)
    requires
        filled@.len() == rects@.len(),
        order@.len() == filled@.len(),
        order@.len() <= MAX_SUBPATHS,
        forall|k: int| 0 <= k < order@.len() ==> (#[trigger] order@[k]) < filled@.len(),
        order@.no_duplicates(),
        filled_prefix(order@, filled@),
    ensures
        groups@.len() <= order@.len(),
        forall|g: int|
            0 <= g < groups@.len() ==> (#[trigger] groups@[g])@.len() >= 1 && groups@[g]@[0]
                == order@[g],
        forall|k: int|
            0 <= k < order@.len() ==> (filled@[(#[trigger] order@[k]) as int] <==> k
                < groups@.len()),
        forall|g: int, m: int|
            0 <= g < groups@.len() && 1 <= m < groups@[g]@.len() ==> {
                let s = (#[trigger] groups@[g]@[m]) as int;
                &&& s < filled@.len()
                &&& !filled@[s]
                &&& rect_contains(rects@[groups@[g]@[0] as int], rects@[s])
                &&& forall|g2: int|
                    0 <= g2 < g ==> !rect_contains(rects@[(#[trigger] groups@[g2])@[0] as int], rects@[s])
            },
        forall|g1: int, m1: int, g2: int, m2: int|
            0 <= g1 < groups@.len() && 0 <= m1 < groups@[g1]@.len() && 0 <= g2 < groups@.len() && 0
                <= m2 < groups@[g2]@.len() && (g1 != g2 || m1 != m2) ==> (#[trigger] groups@[
            g1]@[m1]) != (#[trigger] groups@[g2]@[m2]),
        spec_size_sum(groups@.map_values(|v: Vec<usize>| v@)) <= order@.len(),
        forall|k: int|
            #![trigger order@[k]]
            groups@.len() <= k < order@.len() && (exists|g: int|
                0 <= g < groups@.len() && rect_contains(
                    rects@[(#[trigger] groups@[g])@[0] as int],
                    rects@[order@[k] as int],
                )) ==> exists|g: int, m: int|
                0 <= g < groups@.len() && 1 <= m < groups@[g]@.len() && (#[trigger] groups@[g]@[m])
                    == order@[k],
{
    let n = order.len();
    let mut groups: Vec<Vec<usize>> = Vec::new();
    let mut total: usize = 0;
    let mut k: usize = 0;
    while k < n
        invariant
            k <= n,
            n == order@.len(),
            groups@.len() <= k,
            total as int == spec_size_sum(groups@.map_values(|v: Vec<usize>| v@)),
            total <= k,
            forall|g: int|
                0 <= g < groups@.len() ==> (#[trigger] groups@[g])@.len() >= 1 && groups@[g]@[0]
                    == order@[g],
            forall|j: int|
                0 <= j < k ==> (filled@[(#[trigger] order@[j]) as int] <==> j < groups@.len()),
            forall|g: int, m: int|
                0 <= g < groups@.len() && 1 <= m < groups@[g]@.len() ==> {
                    let s = (#[trigger] groups@[g]@[m]) as int;
                    &&& s < filled@.len()
                    &&& !filled@[s]
                    &&& rect_contains(rects@[groups@[g]@[0] as int], rects@[s])
                    &&& forall|g2: int|
                        0 <= g2 < g ==> !rect_contains(
                            rects@[(#[trigger] groups@[g2])@[0] as int],
                            rects@[s],
                        )
                },
            forall|g: int, m: int|
                0 <= g < groups@.len() && 0 <= m < groups@[g]@.len() ==> exists|j: int|
                    0 <= j < k && (#[trigger] groups@[g]@[m]) == order@[j],
            forall|g1: int, m1: int, g2: int, m2: int|
                0 <= g1 < groups@.len() && 0 <= m1 < groups@[g1]@.len() && 0 <= g2 < groups@.len()
                    && 0 <= m2 < groups@[g2]@.len() && (g1 != g2 || m1 != m2) ==> (
                #[trigger] groups@[g1]@[m1]) != (#[trigger] groups@[g2]@[m2]),
            forall|j: int|
                #![trigger order@[j]]
                groups@.len() <= j < k && (exists|g: int|
                    0 <= g < groups@.len() && rect_contains(
                        rects@[(#[trigger] groups@[g])@[0] as int],
                        rects@[order@[j] as int],
                    )) ==> exists|g: int, m: int|
                    0 <= g < groups@.len() && 1 <= m < groups@[g]@.len() && (#[trigger] groups@[
                    g]@[m]) == order@[j],
        decreases n - k,
    {
        let s = order[k];
        let ghost groups_before = groups@;
        if filled[s] {
            // A filled subpath starts a new group. The order is filled-first,
            // so no unfilled subpath has been processed yet.
            proof {
                // The order is filled-first, so no unfilled subpath has come
                // earlier and one group exists per processed position.
                if groups@.len() < k {
                    let j = groups@.len() as int;
                    assert(!filled@[order@[j] as int]);
                    assert(filled@[order@[k as int] as int] ==> filled@[order@[j] as int]);
                    assert(false);
                }
                assert(groups_before.len() == k);
            }
            let mut fresh: Vec<usize> = Vec::new();
            fresh.push(s);
            proof {
                lemma_size_sum_push(
                    groups_before.map_values(|v: Vec<usize>| v@),
                    fresh@,
                );
            }
            groups.push(fresh);
            total = total + 1;
            proof {
                assert(groups@.map_values(|v: Vec<usize>| v@) =~= groups_before.map_values(
                    |v: Vec<usize>| v@,
                ).push(seq![s]));
            }
        } else {
            // Seek the first group whose leader's box contains this one.
            let mut g: usize = 0;
            let mut placed = false;
            while g < groups.len() && !placed
                invariant
                    g <= groups@.len(),
                    k < n,
                    s == order@[k as int],
                    !placed ==> forall|g2: int|
                        0 <= g2 < g ==> !rect_contains(
                            rects@[(#[trigger] groups@[g2])@[0] as int],
                            rects@[s as int],
                        ),
                    placed ==> g > 0 && g - 1 < groups_before.len() && groups@.len()
                        == groups_before.len() && groups@.map_values(|v: Vec<usize>| v@)
                        == groups_before.map_values(|v: Vec<usize>| v@).update(
                        g - 1,
                        groups_before[g - 1]@.push(s),
                    ) && rect_contains(
                        rects@[groups_before[g - 1]@[0] as int],
                        rects@[s as int],
                    ) && (forall|g2: int|
                        0 <= g2 < g - 1 ==> !rect_contains(
                            rects@[(#[trigger] groups_before[g2])@[0] as int],
                            rects@[s as int],
                        )),
                    !placed ==> groups@ == groups_before,
                decreases groups@.len() - g,
            {
                let leader = groups[g][0];
                if rects[leader].contains_rect(rects[s]) {
                    let mut grown = groups.remove(g);
                    grown.push(s);
                    groups.insert(g, grown);
                    proof {
                        assert(groups@.map_values(|v: Vec<usize>| v@)
                            =~= groups_before.map_values(|v: Vec<usize>| v@).update(
                            g as int,
                            groups_before[g as int]@.push(s),
                        ));
                    }
                    placed = true;
                }
                g = g + 1;
            }
            proof {
                if placed {
                    let gi = g - 1;
                    lemma_size_sum_update(
                        groups_before.map_values(|v: Vec<usize>| v@),
                        gi,
                        groups_before[gi]@.push(s),
                    );
                    assert(groups@.map_values(|v: Vec<usize>| v@) =~= groups_before.map_values(
                        |v: Vec<usize>| v@,
                    ).update(gi, groups_before[gi]@.push(s)));
                }
            }
            if placed {
                total = total + 1;
            }
            proof {
                // The new member, if placed, is distinct from everything already
                // placed: it is a fresh position of a duplicate-free order.
                if placed {
                    let gi = g as int - 1;
                    let mapped_before = groups_before.map_values(|v: Vec<usize>| v@);
                    let mapped_post = groups@.map_values(|v: Vec<usize>| v@);
                    assert(mapped_post == mapped_before.update(gi, groups_before[gi]@.push(s)));
                    assert forall|g1: int, m1: int, g2: int, m2: int|
                        0 <= g1 < groups@.len() && 0 <= m1 < groups@[g1]@.len() && 0 <= g2
                            < groups@.len() && 0 <= m2 < groups@[g2]@.len() && (g1 != g2 || m1
                            != m2) implies (#[trigger] groups@[g1]@[m1]) != (#[trigger] groups@[
                        g2]@[m2]) by {
                        assert(mapped_post[g1] == groups@[g1]@ && mapped_post[g2] == groups@[g2]@);
                        assert(groups@[g1]@ == if g1 == gi {
                            groups_before[g1]@.push(s)
                        } else {
                            groups_before[g1]@
                        });
                        assert(groups@[g2]@ == if g2 == gi {
                            groups_before[g2]@.push(s)
                        } else {
                            groups_before[g2]@
                        });
                        let new1 = g1 == gi && m1 == groups@[g1]@.len() - 1;
                        let new2 = g2 == gi && m2 == groups@[g2]@.len() - 1;
                        if new1 && !new2 {
                            assert(groups@[g1]@[m1] == s && s == order@[k as int]);
                            assert(groups@[g2]@[m2] == groups_before[g2]@[m2]);
                            assert(exists|j: int|
                                0 <= j < k && (#[trigger] groups_before[g2]@[m2]) == order@[j]);
                            let j = choose|j: int|
                                0 <= j < k && groups_before[g2]@[m2] == order@[j];
                            assert(0 <= j < k < order@.len());
                            assert(order@[j] != order@[k as int]);
                        } else if new2 && !new1 {
                            assert(groups@[g2]@[m2] == s && s == order@[k as int]);
                            assert(groups@[g1]@[m1] == groups_before[g1]@[m1]);
                            assert(exists|j: int|
                                0 <= j < k && (#[trigger] groups_before[g1]@[m1]) == order@[j]);
                            let j = choose|j: int|
                                0 <= j < k && groups_before[g1]@[m1] == order@[j];
                            assert(0 <= j < k < order@.len());
                            assert(order@[j] != order@[k as int]);
                        } else if !new1 && !new2 {
                            assert(groups@[g1]@[m1] == groups_before[g1]@[m1]);
                            assert(groups@[g2]@[m2] == groups_before[g2]@[m2]);
                        }
                    }
                    assert forall|g3: int|
                        0 <= g3 < groups@.len() implies (#[trigger] groups@[g3])@.len() >= 1
                        && groups@[g3]@[0] == order@[g3] by {
                        assert(mapped_post[g3] == groups@[g3]@);
                        assert(groups@[g3]@ == if g3 == gi {
                            groups_before[g3]@.push(s)
                        } else {
                            groups_before[g3]@
                        });
                        assert(groups_before[g3]@[0] == order@[g3]);
                    }
                    assert forall|g3: int, m: int|
                        0 <= g3 < groups@.len() && 1 <= m < groups@[g3]@.len() implies {
                        let s2 = (#[trigger] groups@[g3]@[m]) as int;
                        &&& s2 < filled@.len()
                        &&& !filled@[s2]
                        &&& rect_contains(rects@[groups@[g3]@[0] as int], rects@[s2])
                        &&& forall|g2: int|
                            0 <= g2 < g3 ==> !rect_contains(
                                rects@[(#[trigger] groups@[g2])@[0] as int],
                                rects@[s2],
                            )
                    } by {
                        assert(mapped_post[g3] == groups@[g3]@);
                        assert(groups@[g3]@ == if g3 == gi {
                            groups_before[g3]@.push(s)
                        } else {
                            groups_before[g3]@
                        });
                        let s2 = groups@[g3]@[m] as int;
                        if g3 == gi && m == groups@[g3]@.len() - 1 {
                            assert(s2 == s as int);
                            assert(groups@[g3]@[0] == groups_before[g3]@[0]);
                            assert forall|g2: int|
                                0 <= g2 < g3 implies !rect_contains(
                                rects@[(#[trigger] groups@[g2])@[0] as int],
                                rects@[s2],
                            ) by {
                                assert(mapped_post[g2] == groups@[g2]@);
                                assert(groups@[g2]@ == groups_before[g2]@);
                                assert(!rect_contains(
                                    rects@[groups_before[g2]@[0] as int],
                                    rects@[s as int],
                                ));
                            }
                        } else {
                            assert(groups@[g3]@[m] == groups_before[g3]@[m]);
                            assert(groups@[g3]@[0] == groups_before[g3]@[0]);
                            assert forall|g2: int|
                                0 <= g2 < g3 implies !rect_contains(
                                rects@[(#[trigger] groups@[g2])@[0] as int],
                                rects@[s2],
                            ) by {
                                assert(mapped_post[g2] == groups@[g2]@);
                                assert(groups@[g2]@[0] == groups_before[g2]@[0]);
                                assert(!rect_contains(
                                    rects@[groups_before[g2]@[0] as int],
                                    rects@[s2],
                                ));
                            }
                        }
                    }
                    assert forall|g3: int, m: int|
                        0 <= g3 < groups@.len() && 0 <= m < groups@[g3]@.len() implies exists|
                        j: int,
                    |
                        0 <= j < k + 1 && (#[trigger] groups@[g3]@[m]) == order@[j] by {
                        assert(mapped_post[g3] == groups@[g3]@);
                        if g3 == gi && m == groups@[g3]@.len() - 1 {
                            assert(groups@[g3]@[m] == order@[k as int]);
                        } else {
                            assert(groups@[g3]@[m] == groups_before[g3]@[m]);
                            let j = choose|j: int|
                                0 <= j < k && (#[trigger] groups_before[g3]@[m]) == order@[j];
                            assert(0 <= j < k + 1 && groups@[g3]@[m] == order@[j]);
                        }
                    }
                } else {
                    assert(groups@ == groups_before);
                }
                assert forall|j: int|
                    #![trigger order@[j]]
                    groups@.len() <= j < k + 1 && (exists|ga: int|
                        0 <= ga < groups@.len() && rect_contains(
                            rects@[(#[trigger] groups@[ga])@[0] as int],
                            rects@[order@[j] as int],
                        )) implies exists|ga: int, m: int|
                    0 <= ga < groups@.len() && 1 <= m < groups@[ga]@.len() && (#[trigger] groups@[
                    ga]@[m]) == order@[j] by {
                    if placed {
                        let gi = g as int - 1;
                        let mapped_before = groups_before.map_values(|v: Vec<usize>| v@);
                        let mapped_post = groups@.map_values(|v: Vec<usize>| v@);
                        assert(mapped_post == mapped_before.update(
                            gi,
                            groups_before[gi]@.push(s),
                        ));
                        if j == k {
                            let m = groups@[gi]@.len() - 1;
                            assert(mapped_post[gi] == groups@[gi]@);
                            assert(groups@[gi]@ == groups_before[gi]@.push(s));
                            assert(groups_before[gi]@.len() >= 1);
                            assert(1 <= m < groups@[gi]@.len());
                            assert(groups@[gi]@[m] == s && s == order@[k as int]);
                        } else {
                            // An old position: the leaders did not change, so
                            // the container found among them stood before too.
                            let ga = choose|ga: int|
                                0 <= ga < groups@.len() && rect_contains(
                                    rects@[(#[trigger] groups@[ga])@[0] as int],
                                    rects@[order@[j] as int],
                                );
                            assert(mapped_post[ga] == groups@[ga]@);
                            assert(groups@[ga]@[0] == groups_before[ga]@[0]);
                            assert(rect_contains(
                                rects@[groups_before[ga]@[0] as int],
                                rects@[order@[j] as int],
                            ));
                            assert(exists|g2: int, m2: int|
                                0 <= g2 < groups_before.len() && 1 <= m2 < groups_before[g2]@.len()
                                    && (#[trigger] groups_before[g2]@[m2]) == order@[j]);
                            let (g2, m2): (int, int) = choose|g2: int, m2: int|
                                0 <= g2 < groups_before.len() && 1 <= m2 < groups_before[g2]@.len()
                                    && (#[trigger] groups_before[g2]@[m2]) == order@[j];
                            assert(mapped_post[g2] == groups@[g2]@);
                            assert(groups@[g2]@[m2] == groups_before[g2]@[m2]);
                            assert(1 <= m2 < groups@[g2]@.len());
                        }
                    } else {
                        if j == k {
                            let ga = choose|ga: int|
                                0 <= ga < groups@.len() && rect_contains(
                                    rects@[(#[trigger] groups@[ga])@[0] as int],
                                    rects@[order@[j] as int],
                                );
                            assert(!rect_contains(
                                rects@[groups@[ga]@[0] as int],
                                rects@[s as int],
                            ));
                            assert(false);
                        }
                    }
                }
            }
        }
        k = k + 1;
    }
    groups
}



// --- the part-grouping law ---

/// The observable content of a shape series: per keyframe, its frame and its
/// path elements.
pub open spec fn series_model(s: Keyframed<BezPath>) -> Seq<(i64, Seq<PathEl>)> {
    s.keyframes@.map_values(|k: Keyframe<BezPath>| (k.frame, k.value.els@))
}

/// How many subpaths the first `i` shapes flatten to.
pub open spec fn spec_subs_before(shapes: Seq<Keyframed<BezPath>>, i: int) -> int
    decreases i,
{
    if i <= 0 {
        0
    } else {
        spec_subs_before(shapes, i - 1) + count_moves(shapes[i - 1].keyframes@[0].value.els@)
    }
}

/// `subs[off ..]` starts with the subpath split of `shape`: one series per
/// `MoveTo`, same frames, no spring tag, and each keyframe's pieces
/// concatenating back to that keyframe's path.
pub open spec fn spec_block_of(
    shape: Keyframed<BezPath>,
    subs: Seq<Keyframed<BezPath>>,
    off: int,
) -> bool {
    let cnt = count_moves(shape.keyframes@[0].value.els@);
    &&& forall|j: int|
        0 <= j < cnt ==> (#[trigger] subs[off + j]).spring is None && subs[off
            + j].keyframes@.len() == shape.keyframes@.len()
    &&& forall|j: int, k: int|
        0 <= j < cnt && 0 <= k < shape.keyframes@.len() ==> (#[trigger] subs[off
            + j].keyframes@[k]).frame == shape.keyframes@[k].frame && is_subpath(
            subs[off + j].keyframes@[k].value.els@,
        )
    &&& forall|k: int|
        0 <= k < shape.keyframes@.len() ==> Seq::new(
            cnt as nat,
            |j: int| subs[off + j].keyframes@[k].value.els@,
        ).flatten() == (#[trigger] shape.keyframes@[k]).value.els@
}

/// `subs` is exactly the concatenation of every shape's subpath split.
pub open spec fn spec_flattening(
    shapes: Seq<Keyframed<BezPath>>,
    subs: Seq<Keyframed<BezPath>>,
) -> bool {
    &&& subs.len() == spec_subs_before(shapes, shapes.len() as int)
    &&& forall|i: int|
        0 <= i < shapes.len() ==> spec_block_of(
            #[trigger] shapes[i],
            subs,
            spec_subs_before(shapes, i),
        )
}

/// The earliest-keyframe path of each flattened subpath.
pub open spec fn spec_sub_els(subs: Seq<Keyframed<BezPath>>, s: int) -> Seq<PathEl> {
    subs[s].keyframes@[0].value.els@
}

/// Filledness of subpath `s` among `subs`, decided on the earliest keyframes.
pub open spec fn spec_sub_filled(subs: Seq<Keyframed<BezPath>>, s: int) -> bool {
    spec_filled(
        subs.map_values(|x: Keyframed<BezPath>| spec_flatten(x.keyframes@[0].value.els@)),
        spec_flatten(spec_sub_els(subs, s)),
        spec_anchor(spec_sub_els(subs, s)),
    )
}

/// The order is a permutation of the subpaths, filled before unfilled and
/// smaller boxes first.
pub open spec fn spec_order_ok(order: Seq<usize>, filled: Seq<bool>, areas: Seq<int>) -> bool {
    &&& order.len() == filled.len()
    &&& forall|k: int| 0 <= k < order.len() ==> ((#[trigger] order[k]) as int) < filled.len()
    &&& order.no_duplicates()
    &&& forall|a: int, b: int|
        0 <= a < b < order.len() ==> grouping_le(
            filled[order[a] as int],
            areas[order[a] as int],
            filled[order[b] as int],
            areas[order[b] as int],
        )
}

/// The partition law over subpath indices, as `assign_groups` establishes
/// it: leaders are exactly the filled subpaths in order; every other member
/// is unfilled, inside its leader's box and in no earlier leader's box; no
/// subpath lands twice; at most as many land as came in; and an unfilled
/// subpath is dropped only when no leader's box contains its own.
pub open spec fn spec_assignment_ok(
    order: Seq<usize>,
    filled: Seq<bool>,
    rects: Seq<Rect>,
    idx: Seq<Seq<usize>>,
) -> bool {
    &&& idx.len() <= order.len()
    &&& forall|g: int| 0 <= g < idx.len() ==> (#[trigger] idx[g]).len() >= 1 && idx[g][0] == order[g]
    &&& forall|k: int|
        0 <= k < order.len() ==> (filled[(#[trigger] order[k]) as int] <==> k < idx.len())
    &&& forall|g: int, m: int|
        0 <= g < idx.len() && 1 <= m < idx[g].len() ==> {
            let s = (#[trigger] idx[g][m]) as int;
            &&& s < filled.len()
            &&& !filled[s]
            &&& rect_contains(rects[idx[g][0] as int], rects[s])
            &&& forall|g2: int|
                0 <= g2 < g ==> !rect_contains(rects[(#[trigger] idx[g2])[0] as int], rects[s])
        }
    &&& forall|g1: int, m1: int, g2: int, m2: int|
        0 <= g1 < idx.len() && 0 <= m1 < idx[g1].len() && 0 <= g2 < idx.len() && 0 <= m2
            < idx[g2].len() && (g1 != g2 || m1 != m2) ==> (#[trigger] idx[g1][m1]) != (
        #[trigger] idx[g2][m2])
    &&& spec_size_sum(idx) <= order.len()
    &&& forall|k: int|
        #![trigger order[k]]
        idx.len() <= k < order.len() && (exists|g: int|
            0 <= g < idx.len() && rect_contains(
                rects[(#[trigger] idx[g])[0] as int],
                rects[order[k] as int],
            )) ==> exists|g: int, m: int|
            0 <= g < idx.len() && 1 <= m < idx[g].len() && (#[trigger] idx[g][m]) == order[k]
}

/// The running union of the members' boxes, as the assembly loop folds it.
pub open spec fn spec_union_upto(rects: Seq<Rect>, members: Seq<usize>, m: int) -> Rect
    decreases m,
{
    if m <= 0 {
        rects[members[0] as int]
    } else {
        spec_rect_union(spec_union_upto(rects, members, m - 1), rects[members[m - 1] as int])
    }
}

/// Each index group became one scene-graph group: its members' series as
/// shape children in order, the rotating palette fill, the union-box center,
/// and untouched default transforms.
pub open spec fn spec_assembled(
    groups: Seq<crate::ir::Group>,
    idx: Seq<Seq<usize>>,
    subs: Seq<Keyframed<BezPath>>,
    rects: Seq<Rect>,
) -> bool {
    &&& groups.len() == idx.len()
    &&& forall|g: int|
        0 <= g < groups.len() ==> {
            let grp = #[trigger] groups[g];
            &&& grp.children@.len() == idx[g].len()
            &&& grp.fill == Some(crate::spec_nth_group_color(g))
            &&& grp.center == spec_rect_center(spec_union_upto(rects, idx[g], idx[g].len() as int))
            &&& grp.translate.keyframes@.len() == 1
            &&& grp.translate.keyframes@[0] == (Keyframe {
                frame: 0i64,
                value: Point { x: 0i64, y: 0i64 },
            })
            &&& grp.translate.spring is None
            &&& grp.scale.keyframes@.len() == 1
            &&& grp.scale.keyframes@[0] == (Keyframe {
                frame: 0i64,
                value: (100_000_000i64, 100_000_000i64),
            })
            &&& grp.scale.spring is None
            &&& grp.rotate.keyframes@.len() == 1
            &&& grp.rotate.keyframes@[0] == (Keyframe { frame: 0i64, value: 0i64 })
            &&& grp.rotate.spring is None
            &&& forall|m: int|
                0 <= m < idx[g].len() ==> (#[trigger] grp.children@[m]) is Shape && series_model(
                    grp.children@[m]->Shape_0,
                ) == series_model(subs[idx[g][m] as int]) && (grp.children@[m]->Shape_0).spring
                    == subs[idx[g][m] as int].spring
        }
}

/// The whole part-grouping law: the input shapes flatten to `subs`; `order`
/// sorts the subpaths filled-first and smaller-box-first; `idx` partitions
/// them as `spec_assignment_ok` says, with filledness decided by the nonzero
/// winding rule on the earliest keyframes; and `groups` assembles the
/// partition. The output is pinned up to the order of equal-area boxes.
pub open spec fn spec_part_grouping(
    shapes: Seq<Keyframed<BezPath>>,
    subs: Seq<Keyframed<BezPath>>,
    order: Seq<usize>,
    idx: Seq<Seq<usize>>,
    groups: Seq<crate::ir::Group>,
) -> bool {
    let filled = Seq::new(subs.len(), |s: int| spec_sub_filled(subs, s));
    let rects = Seq::new(subs.len(), |s: int| spec_bbox(spec_sub_els(subs, s)));
    let areas = Seq::new(subs.len(), |s: int| spec_rect_area(spec_bbox(spec_sub_els(subs, s))));
    &&& spec_flattening(shapes, subs)
    &&& spec_order_ok(order, filled, areas)
    &&& spec_assignment_ok(order, filled, rects, idx)
    &&& spec_assembled(groups, idx, subs, rects)
}

// --- assembling the part groups ---

/// A subpath count is never negative.
pub proof fn lemma_count_moves_nonneg(els: Seq<PathEl>)
    ensures
        count_moves(els) >= 0,
    decreases els.len(),
{
    if els.len() > 0 {
        lemma_count_moves_nonneg(els.drop_first());
    }
}

/// Offsets of later shapes lie at or beyond those of earlier ones.
proof fn lemma_subs_before_mono(shapes: Seq<Keyframed<BezPath>>, a: int, b: int)
    requires
        0 <= a <= b,
    ensures
        spec_subs_before(shapes, a) <= spec_subs_before(shapes, b),
    decreases b - a,
{
    if a < b {
        lemma_subs_before_mono(shapes, a, b - 1);
        if 0 <= b - 1 < shapes.len() {
            lemma_count_moves_nonneg(shapes[b - 1].keyframes@[0].value.els@);
        } else {
            lemma_count_moves_nonneg(shapes[b - 1].keyframes@[0].value.els@);
        }
    }
}

/// A block that fits inside the sequence survives appending one element.
proof fn lemma_block_of_extend(
    shape: Keyframed<BezPath>,
    subs: Seq<Keyframed<BezPath>>,
    x: Keyframed<BezPath>,
    off: int,
)
    requires
        spec_block_of(shape, subs, off),
        0 <= off,
        off + count_moves(shape.keyframes@[0].value.els@) <= subs.len(),
    ensures
        spec_block_of(shape, subs.push(x), off),
{
    lemma_count_moves_nonneg(shape.keyframes@[0].value.els@);
    let cnt = count_moves(shape.keyframes@[0].value.els@);
    let grown = subs.push(x);
    assert forall|j: int| 0 <= j < cnt implies #[trigger] grown[off + j] == subs[off + j] by {
        assert(off + j < subs.len());
    }
    assert forall|k: int|
        0 <= k < shape.keyframes@.len() implies Seq::new(
        cnt as nat,
        |j: int| grown[off + j].keyframes@[k].value.els@,
    ).flatten() == (#[trigger] shape.keyframes@[k]).value.els@ by {
        let lhs = Seq::new(cnt as nat, |j: int| grown[off + j].keyframes@[k].value.els@);
        let rhs = Seq::new(cnt as nat, |j: int| subs[off + j].keyframes@[k].value.els@);
        assert forall|j: int| 0 <= j < cnt implies lhs[j] == rhs[j] by {
            assert(grown[off + j] == subs[off + j]);
        }
        assert(lhs =~= rhs);
    }
}

/// The pushed copies of a split reproduce the shape's block in the combined
/// sequence.
proof fn lemma_block_from_parts(
    shape: Keyframed<BezPath>,
    parts: Seq<Keyframed<BezPath>>,
    subs: Seq<Keyframed<BezPath>>,
    off: int,
)
    requires
        0 <= off,
        subs.len() == off + parts.len(),
        parts.len() == count_moves(shape.keyframes@[0].value.els@),
        forall|j: int|
            0 <= j < parts.len() ==> (#[trigger] parts[j]).spring is None && parts[j].keyframes@.len()
                == shape.keyframes@.len(),
        forall|j: int, k: int|
            0 <= j < parts.len() && 0 <= k < shape.keyframes@.len() ==> (#[trigger] parts[
            j].keyframes@[k]).frame == shape.keyframes@[k].frame && is_subpath(
                parts[j].keyframes@[k].value.els@,
            ),
        forall|k: int|
            0 <= k < shape.keyframes@.len() ==> Seq::new(
                parts.len(),
                |j: int| parts[j].keyframes@[k].value.els@,
            ).flatten() == (#[trigger] shape.keyframes@[k]).value.els@,
        forall|j: int|
            0 <= j < parts.len() ==> (#[trigger] subs[off + j]).spring == parts[j].spring && subs[
            off + j].keyframes@.len() == parts[j].keyframes@.len(),
        forall|j: int, k: int|
            0 <= j < parts.len() && 0 <= k < parts[j].keyframes@.len() ==> (#[trigger] subs[off
                + j].keyframes@[k]).frame == parts[j].keyframes@[k].frame && subs[off
                + j].keyframes@[k].value.els@ == parts[j].keyframes@[k].value.els@,
    ensures
        spec_block_of(shape, subs, off),
{
    let cnt = count_moves(shape.keyframes@[0].value.els@);
    assert forall|k: int|
        0 <= k < shape.keyframes@.len() implies Seq::new(
        cnt as nat,
        |j: int| subs[off + j].keyframes@[k].value.els@,
    ).flatten() == (#[trigger] shape.keyframes@[k]).value.els@ by {
        let lhs = Seq::new(cnt as nat, |j: int| subs[off + j].keyframes@[k].value.els@);
        let rhs = Seq::new(parts.len(), |j: int| parts[j].keyframes@[k].value.els@);
        assert forall|j: int| 0 <= j < cnt implies lhs[j] == rhs[j] by {
            assert(subs[off + j].keyframes@[k].value.els@ == parts[j].keyframes@[k].value.els@);
        }
        assert(lhs =~= rhs);
    }
}

/// Flattens every shape into its subpath series, in order.
#[verifier::loop_isolation(false)]
#[verifier::rlimit(100)]
fn flatten_all(shapes: &Vec<crate::keyframed::Keyframed<BezPath>>) -> (subs: Vec<
    crate::keyframed::Keyframed<BezPath>,
>)
    requires
        shapes@.len() <= 1000,
        forall|i: int| 0 <= i < shapes@.len() ==> crate::ir::shape_wf(#[trigger] shapes@[i]),
        forall|i: int, j: int|
            0 <= i < shapes@.len() && 0 <= j < shapes@[i].keyframes@.len() ==> count_moves(
                (#[trigger] shapes@[i].keyframes@[j]).value.els@,
            ) == count_moves(shapes@[i].keyframes@[0].value.els@) && shapes@[i].keyframes@[
            j].value.els@.len() <= MAX_SUBPATH_ELS,
        forall|i: int|
            0 <= i < shapes@.len() ==> count_moves((#[trigger] shapes@[i]).keyframes@[0].value.els@)
                <= 100,
    ensures
        spec_flattening(shapes@, subs@),
        subs@.len() <= MAX_SUBPATHS,
        forall|q: int|
            0 <= q < subs@.len() ==> crate::ir::shape_wf(#[trigger] subs@[q]) && subs@[q].keyframes@.len()
                >= 1 && is_subpath(subs@[q].keyframes@[0].value.els@) && subs@[q].keyframes@[
            0].value.els@.len() <= MAX_SUBPATH_ELS,
{
    let mut subs: Vec<crate::keyframed::Keyframed<BezPath>> = Vec::new();
    let mut i: usize = 0;
    while i < shapes.len()
        invariant
            i <= shapes@.len(),
            subs@.len() <= i * 100,
            subs@.len() == spec_subs_before(shapes@, i as int),
            forall|a: int|
                0 <= a < i ==> spec_block_of(
                    #[trigger] shapes@[a],
                    subs@,
                    spec_subs_before(shapes@, a),
                ),
            forall|q: int|
                0 <= q < subs@.len() ==> crate::ir::shape_wf(#[trigger] subs@[q]) && subs@[q].keyframes@.len()
                    >= 1 && is_subpath(subs@[q].keyframes@[0].value.els@) && subs@[q].keyframes@[
                0].value.els@.len() <= MAX_SUBPATH_ELS,
        decreases shapes@.len() - i,
    {
        let parts = shapes[i].subpaths();
        proof {
            assert forall|j: int|
                0 <= j < parts@.len() implies (#[trigger] parts@[j]).keyframes@[0].value.els@.len()
                <= MAX_SUBPATH_ELS by {
                let pieces = Seq::new(parts@.len(), |j2: int| parts@[j2].keyframes@[0].value.els@);
                assert(pieces.flatten() == shapes@[i as int].keyframes@[0].value.els@);
                pieces.lemma_flatten_length_ge_single_element_length(j);
                pieces.lemma_flatten_and_flatten_alt_are_equivalent();
                assert(pieces[j] == parts@[j].keyframes@[0].value.els@);
            }
        }
        let ghost off = subs@.len() as int;
        let mut p: usize = 0;
        while p < parts.len()
            invariant
                p <= parts@.len(),
                i < shapes@.len(),
                parts@.len() <= 100,
                off == spec_subs_before(shapes@, i as int),
                off >= 0,
                subs@.len() == off + p,
                forall|a: int|
                    0 <= a < i ==> spec_block_of(
                        #[trigger] shapes@[a],
                        subs@,
                        spec_subs_before(shapes@, a),
                    ),
                forall|j: int|
                    0 <= j < parts@.len() ==> crate::ir::shape_wf(#[trigger] parts@[j])
                        && parts@[j].keyframes@.len() >= 1 && is_subpath(
                        parts@[j].keyframes@[0].value.els@,
                    ) && parts@[j].keyframes@[0].value.els@.len() <= MAX_SUBPATH_ELS,
                forall|j: int|
                    0 <= j < p ==> (#[trigger] subs@[off + j]).spring == parts@[j].spring && subs@[
                    off + j].keyframes@.len() == parts@[j].keyframes@.len(),
                forall|j: int, k: int|
                    0 <= j < p && 0 <= k < parts@[j].keyframes@.len() ==> (#[trigger] subs@[off
                        + j].keyframes@[k]).frame == parts@[j].keyframes@[k].frame && subs@[off
                        + j].keyframes@[k].value.els@ == parts@[j].keyframes@[k].value.els@,
                forall|q: int|
                    0 <= q < subs@.len() ==> crate::ir::shape_wf(#[trigger] subs@[q]) && subs@[q].keyframes@.len()
                        >= 1 && is_subpath(subs@[q].keyframes@[0].value.els@) && subs@[q].keyframes@[
                    0].value.els@.len() <= MAX_SUBPATH_ELS,
            decreases parts@.len() - p,
        {
            let dup = parts[p].duplicate();
            proof {
                assert(crate::ir::shape_wf(parts@[p as int]));
                assert forall|a2: int, b2: int|
                    0 <= a2 < b2 < dup.keyframes@.len() implies dup.keyframes@[a2].frame
                    < dup.keyframes@[b2].frame by {
                    lemma_ascending_at(parts@[p as int].keyframes@, a2, b2);
                }
            }
            let ghost subs_before = subs@;
            subs.push(dup);
            proof {
                // Earlier blocks are untouched by the push.
                assert(subs@ =~= subs_before.push(dup));
                assert forall|a: int|
                    0 <= a < i implies spec_block_of(
                    #[trigger] shapes@[a],
                    subs@,
                    spec_subs_before(shapes@, a),
                ) by {
                    lemma_count_moves_nonneg(shapes@[a].keyframes@[0].value.els@);
                    lemma_subs_before_mono(shapes@, 0, a);
                    lemma_subs_before_mono(shapes@, a + 1, i as int);
                    assert(spec_subs_before(shapes@, a + 1) == spec_subs_before(shapes@, a)
                        + count_moves(shapes@[a].keyframes@[0].value.els@));
                    assert(spec_subs_before(shapes@, a) + count_moves(
                        shapes@[a].keyframes@[0].value.els@,
                    ) <= subs_before.len());
                    lemma_block_of_extend(shapes@[a], subs_before, dup, spec_subs_before(shapes@, a));
                }
            }
            p = p + 1;
        }
        proof {
            // The pushed copies reproduce the split of this shape.
            let cnt = count_moves(shapes@[i as int].keyframes@[0].value.els@);
            assert(parts@.len() == cnt);
            lemma_block_from_parts(shapes@[i as int], parts@, subs@, off);
            assert(spec_subs_before(shapes@, i + 1) == off + cnt);
        }
        i = i + 1;
    }
    subs
}

/// Assembles one scene-graph group per index group: the members' series as
/// shape children, the palette fill, the union-box center, default
/// transforms.
#[verifier::loop_isolation(false)]
#[verifier::rlimit(100)]
fn assemble_groups(
    subs: &Vec<crate::keyframed::Keyframed<BezPath>>,
    rects: &Vec<Rect>,
    idx_groups: &Vec<Vec<usize>>,
) -> (groups: Vec<crate::ir::Group>)
    requires
        subs@.len() == rects@.len(),
        forall|a: int|
            0 <= a < subs@.len() ==> crate::ir::shape_wf(#[trigger] subs@[a]) && subs@[a].keyframes@.len()
                >= 1,
        forall|a: int|
            0 <= a < rects@.len() ==> rect_wf(#[trigger] rects@[a]) && rect_bounded(rects@[a]),
        forall|g2: int| 0 <= g2 < idx_groups@.len() ==> (#[trigger] idx_groups@[g2])@.len() >= 1,
        forall|g2: int, m: int|
            0 <= g2 < idx_groups@.len() && 0 <= m < idx_groups@[g2]@.len() ==> ((
            #[trigger] idx_groups@[g2]@[m]) as int) < subs@.len(),
    ensures
        groups@.len() == idx_groups@.len(),
        spec_assembled(groups@, idx_groups@.map_values(|v: Vec<usize>| v@), subs@, rects@),
        forall|g: int|
            0 <= g < groups@.len() ==> crate::ir::group_wf(#[trigger] groups@[g])
                && groups@[g].children@.len() >= 1 && (forall|c: int|
                0 <= c < groups@[g].children@.len() ==> (#[trigger] groups@[g].children@[c])
                    is Shape),
{
    let mut groups: Vec<crate::ir::Group> = Vec::new();
    let ghost idxm = idx_groups@.map_values(|v: Vec<usize>| v@);
    let mut g: usize = 0;
    while g < idx_groups.len()
        invariant
            g <= idx_groups@.len(),
            idxm == idx_groups@.map_values(|v: Vec<usize>| v@),
            groups@.len() == g,
            forall|g2: int|
                0 <= g2 < g ==> crate::ir::group_wf(#[trigger] groups@[g2]) && groups@[g2].children@.len()
                    >= 1 && (forall|c: int|
                    0 <= c < groups@[g2].children@.len() ==> (#[trigger] groups@[g2].children@[c])
                        is Shape),
            spec_assembled(groups@, idxm.take(g as int), subs@, rects@),
        decreases idx_groups@.len() - g,
    {
        let members = &idx_groups[g];
        let mut children: Vec<crate::ir::Element> = Vec::new();
        let mut agg = rects[members[0]];
        let mut m: usize = 0;
        while m < members.len()
            invariant
                m <= members@.len(),
                members@.len() >= 1,
                members@ == idxm[g as int],
                g < idx_groups@.len(),
                rect_wf(agg),
                rect_bounded(agg),
                agg == spec_union_upto(rects@, members@, m as int),
                children@.len() == m,
                forall|c: int|
                    0 <= c < children@.len() ==> (#[trigger] children@[c]) is Shape
                        && crate::ir::element_wf(children@[c]),
                forall|c: int|
                    0 <= c < children@.len() ==> series_model(
                        (#[trigger] children@[c])->Shape_0,
                    ) == series_model(subs@[members@[c] as int]) && (children@[c]->Shape_0).spring
                        == subs@[members@[c] as int].spring,
            decreases members@.len() - m,
        {
            let s = members[m];
            let dup = subs[s].duplicate();
            proof {
                assert(crate::ir::shape_wf(subs@[s as int]));
                assert forall|a2: int, b2: int|
                    0 <= a2 < b2 < dup.keyframes@.len() implies dup.keyframes@[a2].frame
                    < dup.keyframes@[b2].frame by {
                    lemma_ascending_at(subs@[s as int].keyframes@, a2, b2);
                }
                assert(series_model(dup) =~= series_model(subs@[s as int]));
            }
            children.push(crate::ir::Element::Shape(dup));
            agg = agg.union(rects[s]);
            m = m + 1;
        }
        let mut group = crate::ir::Group::default();
        group.children = children;
        group.center = agg.center();
        group.fill = Some(crate::nth_group_color(g));
        let ghost groupg = group;
        groups.push(group);
        proof {
            assert(idxm.take(g + 1).drop_last() =~= idxm.take(g as int));
            assert(idxm.take(g + 1)[g as int] == idxm[g as int]);
            assert(groups@[g as int] == groupg);
        }
        g = g + 1;
    }
    proof {
        assert(idxm.take(idxm.len() as int) =~= idxm);
    }
    groups
}

/// Splits the shapes into subpaths, classifies and orders them, and builds
/// one group per filled subpath: the filled subpath first, the holes whose
/// boxes it contains after it, a rotating palette fill, and the box-union
/// center. With N flattened subpaths, at most N land in groups, every filled
/// subpath leads exactly one group, every unfilled subpath joins at most one
/// — the first filled leader whose box contains its own — and the rest are
/// dropped. The law is `spec_part_grouping`, witnessed by the flattened
/// subpaths, the sorted order and the index partition.
#[verifier::loop_isolation(false)]
#[verifier::rlimit(100)]
pub fn group_parts(shapes: Vec<crate::keyframed::Keyframed<BezPath>>) -> (groups: Vec<
    crate::ir::Group,
>)
    requires
        shapes@.len() <= 1000,
        forall|i: int| 0 <= i < shapes@.len() ==> crate::ir::shape_wf(#[trigger] shapes@[i]),
        forall|i: int, j: int|
            0 <= i < shapes@.len() && 0 <= j < shapes@[i].keyframes@.len() ==> count_moves(
                (#[trigger] shapes@[i].keyframes@[j]).value.els@,
            ) == count_moves(shapes@[i].keyframes@[0].value.els@) && shapes@[i].keyframes@[
            j].value.els@.len() <= MAX_SUBPATH_ELS,
        forall|i: int|
            0 <= i < shapes@.len() ==> count_moves((#[trigger] shapes@[i]).keyframes@[0].value.els@)
                <= 100,
    ensures
        groups@.len() <= MAX_SUBPATHS,
        forall|g: int|
            0 <= g < groups@.len() ==> crate::ir::group_wf(#[trigger] groups@[g]) && groups@[g].fill
                == Some(crate::spec_nth_group_color(g)) && groups@[g].children@.len() >= 1 && (
            forall|c: int|
                0 <= c < groups@[g].children@.len() ==> (#[trigger] groups@[g].children@[c])
                    is Shape),
        forall|g: int|
            0 <= g < groups@.len() ==> (#[trigger] groups@[g]).rotate.wf()
                && groups@[g].rotate.keyframes@.len() == 1 && groups@[g].scale.keyframes@.len() == 1
                && groups@[g].translate.keyframes@.len() == 1,
        exists|subs: Seq<crate::keyframed::Keyframed<BezPath>>, order: Seq<usize>, idx: Seq<
            Seq<usize>,
        >| #[trigger] spec_part_grouping(shapes@, subs, order, idx, groups@),
{
    let subs = flatten_all(&shapes);
    // Decide filledness and boxes on the earliest keyframes.
    let mut paths: Vec<BezPath> = Vec::new();
    let mut rects: Vec<Rect> = Vec::new();
    let mut areas: Vec<i64> = Vec::new();
    let mut q: usize = 0;
    while q < subs.len()
        invariant
            q <= subs@.len(),
            subs@.len() <= MAX_SUBPATHS,
            forall|a: int|
                0 <= a < subs@.len() ==> crate::ir::shape_wf(#[trigger] subs@[a]) && subs@[a].keyframes@.len()
                    >= 1 && is_subpath(subs@[a].keyframes@[0].value.els@) && subs@[a].keyframes@[
                0].value.els@.len() <= MAX_SUBPATH_ELS,
            paths@.len() == q,
            rects@.len() == q,
            areas@.len() == q,
            forall|a: int| 0 <= a < q ==> (#[trigger] paths@[a]).els@ == spec_sub_els(subs@, a),
            forall|a: int|
                0 <= a < q ==> is_subpath((#[trigger] paths@[a]).els@) && path_els_bounded(
                    paths@[a].els@,
                ) && paths@[a].els@.len() <= MAX_SUBPATH_ELS,
            forall|a: int|
                0 <= a < q ==> rect_wf(#[trigger] rects@[a]) && rect_bounded(rects@[a]) && rects@[a]
                    == spec_bbox(spec_sub_els(subs@, a)),
            forall|a: int|
                0 <= a < q ==> (#[trigger] areas@[a]) as int == spec_rect_area(
                    spec_bbox(spec_sub_els(subs@, a)),
                ),
        decreases subs@.len() - q,
    {
        let path = subs[q].earliest().value.duplicate();
        proof {
            crate::geom::lemma_bbox_bounded(path.els@);
        }
        let r = path.bounding_box();
        let a = r.area();
        paths.push(path);
        rects.push(r);
        areas.push(a);
        q = q + 1;
    }
    let filled = classify_filled(&paths);
    let order = sort_for_grouping(&filled, &areas);
    let idx_groups = assign_groups(&order, &filled, &rects);
    let groups = assemble_groups(&subs, &rects, &idx_groups);
    proof {
        let idxm = idx_groups@.map_values(|v: Vec<usize>| v@);
        // Repackage the partition clauses over the mapped index groups.
        assert(spec_assignment_ok(order@, filled@, rects@, idxm)) by {
            assert(forall|g: int| 0 <= g < idxm.len() ==> #[trigger] idxm[g] == idx_groups@[g]@);
            assert forall|g: int|
                0 <= g < idxm.len() implies (#[trigger] idxm[g]).len() >= 1 && idxm[g][0]
                == order@[g] by {
                assert(idx_groups@[g]@.len() >= 1 && idx_groups@[g]@[0] == order@[g]);
            }
            assert forall|g: int, m: int|
                0 <= g < idxm.len() && 1 <= m < idxm[g].len() implies {
                let s = (#[trigger] idxm[g][m]) as int;
                &&& s < filled@.len()
                &&& !filled@[s]
                &&& rect_contains(rects@[idxm[g][0] as int], rects@[s])
                &&& forall|g2: int|
                    0 <= g2 < g ==> !rect_contains(
                        rects@[(#[trigger] idxm[g2])[0] as int],
                        rects@[s],
                    )
            } by {
                let s = idxm[g][m] as int;
                assert(idx_groups@[g]@[m] as int == s);
                assert forall|g2: int|
                    0 <= g2 < g implies !rect_contains(
                    rects@[(#[trigger] idxm[g2])[0] as int],
                    rects@[s],
                ) by {
                    assert(idxm[g2] == idx_groups@[g2]@);
                    assert(!rect_contains(rects@[idx_groups@[g2]@[0] as int], rects@[s]));
                }
            }
            assert forall|k: int|
                #![trigger order@[k]]
                idxm.len() <= k < order@.len() && (exists|ga: int|
                    0 <= ga < idxm.len() && rect_contains(
                        rects@[(#[trigger] idxm[ga])[0] as int],
                        rects@[order@[k] as int],
                    )) implies exists|ga: int, m: int|
                0 <= ga < idxm.len() && 1 <= m < idxm[ga].len() && (#[trigger] idxm[ga][m])
                    == order@[k] by {
                let ga = choose|ga: int|
                    0 <= ga < idxm.len() && rect_contains(
                        rects@[(#[trigger] idxm[ga])[0] as int],
                        rects@[order@[k] as int],
                    );
                assert(rect_contains(rects@[idx_groups@[ga]@[0] as int], rects@[order@[k] as int]));
                assert(exists|g2: int, m2: int|
                    0 <= g2 < idx_groups@.len() && 1 <= m2 < idx_groups@[g2]@.len() && (
                    #[trigger] idx_groups@[g2]@[m2]) == order@[k]);
                let (g2, m2): (int, int) = choose|g2: int, m2: int|
                    0 <= g2 < idx_groups@.len() && 1 <= m2 < idx_groups@[g2]@.len() && (
                    #[trigger] idx_groups@[g2]@[m2]) == order@[k];
                assert(idxm[g2][m2] == order@[k]);
            }
        }
        assert forall|a: int|
            0 <= a < subs@.len() implies (#[trigger] filled@[a]) == spec_filled(
            paths@.map_values(|p: BezPath| spec_flatten(p.els@)),
            spec_flatten(paths@[a].els@),
            spec_anchor(paths@[a].els@),
        ) by {
            assert(0 <= a < paths@.len());
        }
        lemma_part_grouping_holds(
            shapes@,
            subs@,
            paths@,
            rects@,
            areas@,
            filled@,
            order@,
            idxm,
            groups@,
        );
    }
    groups
}

/// Glues the stage results into the packaged law.
#[verifier::rlimit(100)]
proof fn lemma_part_grouping_holds(
    shapes: Seq<crate::keyframed::Keyframed<BezPath>>,
    subs: Seq<crate::keyframed::Keyframed<BezPath>>,
    paths: Seq<BezPath>,
    rects: Seq<Rect>,
    areas: Seq<i64>,
    filled: Seq<bool>,
    order: Seq<usize>,
    idx: Seq<Seq<usize>>,
    groups: Seq<crate::ir::Group>,
)
    requires
        spec_flattening(shapes, subs),
        paths.len() == subs.len(),
        rects.len() == subs.len(),
        areas.len() == subs.len(),
        filled.len() == subs.len(),
        forall|a: int| 0 <= a < subs.len() ==> (#[trigger] paths[a]).els@ == spec_sub_els(subs, a),
        forall|a: int|
            0 <= a < subs.len() ==> (#[trigger] rects[a]) == spec_bbox(spec_sub_els(subs, a)),
        forall|a: int|
            0 <= a < subs.len() ==> ((#[trigger] areas[a]) as int) == spec_rect_area(
                spec_bbox(spec_sub_els(subs, a)),
            ),
        forall|a: int|
            0 <= a < subs.len() ==> (#[trigger] filled[a]) == spec_filled(
                paths.map_values(|p: BezPath| spec_flatten(p.els@)),
                spec_flatten(paths[a].els@),
                spec_anchor(paths[a].els@),
            ),
        order.len() == filled.len(),
        forall|k: int| 0 <= k < order.len() ==> ((#[trigger] order[k]) as int) < filled.len(),
        order.no_duplicates(),
        forall|a: int, b: int|
            0 <= a < b < order.len() ==> grouping_le(
                filled[order[a] as int],
                areas[order[a] as int] as int,
                filled[order[b] as int],
                areas[order[b] as int] as int,
            ),
        spec_assignment_ok(order, filled, rects, idx),
        spec_assembled(groups, idx, subs, rects),
    ensures
        spec_part_grouping(shapes, subs, order, idx, groups),
{
    let fills = Seq::new(subs.len(), |s: int| spec_sub_filled(subs, s));
    let boxes = Seq::new(subs.len(), |s: int| spec_bbox(spec_sub_els(subs, s)));
    let sizes = Seq::new(subs.len(), |s: int| spec_rect_area(spec_bbox(spec_sub_els(subs, s))));
    assert(paths.map_values(|p: BezPath| spec_flatten(p.els@)) =~= subs.map_values(
        |x: crate::keyframed::Keyframed<BezPath>| spec_flatten(x.keyframes@[0].value.els@),
    ));
    assert forall|s2: int| 0 <= s2 < subs.len() implies (#[trigger] filled[s2]) == spec_sub_filled(
        subs,
        s2,
    ) by {
        assert(paths[s2].els@ == spec_sub_els(subs, s2));
    }
    assert(filled =~= fills);
    assert(rects =~= boxes);
    assert forall|a: int, b: int|
        0 <= a < b < order.len() implies grouping_le(
        fills[order[a] as int],
        sizes[order[a] as int],
        fills[order[b] as int],
        sizes[order[b] as int],
    ) by {
        assert(grouping_le(
            filled[order[a] as int],
            areas[order[a] as int] as int,
            filled[order[b] as int],
            areas[order[b] as int] as int,
        ));
        assert(sizes[order[a] as int] == areas[order[a] as int] as int);
        assert(sizes[order[b] as int] == areas[order[b] as int] as int);
    }
    assert(spec_order_ok(order, fills, sizes));
    assert(spec_assignment_ok(order, fills, boxes, idx));
    assert(spec_assembled(groups, idx, subs, boxes));
}

/// Folding box unions over equal rectangle sequences gives equal results.
proof fn lemma_union_upto_congruent(a: Seq<Rect>, b: Seq<Rect>, members: Seq<usize>, m: int)
    requires
        a =~= b,
    ensures
        spec_union_upto(a, members, m) == spec_union_upto(b, members, m),
    decreases m,
{
    if m > 0 {
        lemma_union_upto_congruent(a, b, members, m - 1);
    }
}

} // verus!
