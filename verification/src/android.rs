//! Lowering a static snapshot of the scene graph to an Android Vector
//! Drawable: nested groups with paths carrying the first-frame outline as
//! SVG path data. Adjacent paths of one group are concatenated, because AVD
//! paths do not punch holes in each other the way Lottie subpaths within a
//! group do. Animated states are not emitted.

use vstd::prelude::*;
use vstd::string::{StrSliceExecFns, StringExecFns};
use crate::error::AndroidError;
use crate::fixed::{FX_ONE, fx_mul_div};
use crate::geom::{Point, BezPath, PathEl};

verus! {

/// An in-memory Android Vector Drawable, limited to what icon animation
/// needs; `to_avd_xml` writes the single-file representation.
pub struct AnimatedVectorDrawable {
    pub width: i64,
    pub height: i64,
    pub drawable: AvdGroup,
}

pub enum AvdElement {
    Group(AvdGroup),
    Path(AvdPath),
}

pub struct AvdGroup {
    pub children: Vec<AvdElement>,
}

/// A filled path: a hex fill color and SVG path data.
pub struct AvdPath {
    pub fill: String,
    pub data: String,
}

/// The digit character of one decimal digit.
pub open spec fn spec_digit_char(d: int) -> char {
    if d == 0 {
        '0'
    } else if d == 1 {
        '1'
    } else if d == 2 {
        '2'
    } else if d == 3 {
        '3'
    } else if d == 4 {
        '4'
    } else if d == 5 {
        '5'
    } else if d == 6 {
        '6'
    } else if d == 7 {
        '7'
    } else if d == 8 {
        '8'
    } else {
        '9'
    }
}

/// The decimal digits of a nonnegative number, most significant first.
pub open spec fn spec_decimal(n: int) -> Seq<char>
    decreases n,
{
    if n < 10 {
        seq![spec_digit_char(n)]
    } else {
        spec_decimal(n / 10).push(spec_digit_char(n % 10))
    }
}

fn digit_char(d: u64) -> (c: char)
    requires
        d < 10,
    ensures
        c == spec_digit_char(d as int),
{
    if d == 0 {
        '0'
    } else if d == 1 {
        '1'
    } else if d == 2 {
        '2'
    } else if d == 3 {
        '3'
    } else if d == 4 {
        '4'
    } else if d == 5 {
        '5'
    } else if d == 6 {
        '6'
    } else if d == 7 {
        '7'
    } else if d == 8 {
        '8'
    } else {
        '9'
    }
}

/// Writes a nonnegative number in decimal.
pub fn fmt_u64(n: u64) -> (r: String)
    ensures
        r@ == spec_decimal(n as int),
    decreases n,
{
    if n < 10 {
        let mut s = String::new();
        crate::push_char(&mut s, digit_char(n));
        proof {
            assert(s@ =~= spec_decimal(n as int));
        }
        s
    } else {
        let mut s = fmt_u64(n / 10);
        crate::push_char(&mut s, digit_char(n % 10));
        s
    }
}

/// Writes a signed number in decimal.
pub fn fmt_i64(n: i64) -> (r: String)
    ensures
        n >= 0 ==> r@ == spec_decimal(n as int),
        n < 0 ==> r@ == seq!['-'].add(spec_decimal(-(n as int))),
{
    if n >= 0 {
        fmt_u64(n as u64)
    } else {
        let mut s = String::new();
        crate::push_char(&mut s, '-');
        let mag: u64 = if n == i64::MIN {
            9_223_372_036_854_775_808u64
        } else {
            (-n) as u64
        };
        let digits = fmt_u64(mag);
        s.append(digits.as_str());
        proof {
            assert(s@ =~= seq!['-'].add(spec_decimal(-(n as int))));
        }
        s
    }
}



/// The lower-case hex character of one digit.
pub open spec fn spec_hex_char(d: int) -> char {
    if d < 10 {
        spec_digit_char(d)
    } else if d == 10 {
        'a'
    } else if d == 11 {
        'b'
    } else if d == 12 {
        'c'
    } else if d == 13 {
        'd'
    } else if d == 14 {
        'e'
    } else {
        'f'
    }
}

/// One byte as two lower-case hex characters.
pub open spec fn spec_hex_byte(b: int) -> Seq<char> {
    seq![spec_hex_char(b / 16), spec_hex_char(b % 16)]
}

/// A fill color as `#rrggbb`; black when the group carries none.
pub open spec fn spec_fill_hex(color: Option<(u8, u8, u8)>) -> Seq<char> {
    let (r, g, b): (u8, u8, u8) = if color is Some {
        color.unwrap()
    } else {
        (0u8, 0u8, 0u8)
    };
    seq!['#'] + spec_hex_byte(r as int) + spec_hex_byte(g as int) + spec_hex_byte(b as int)
}

/// The first position at or after `c` that is not a shape: the end of a run
/// of adjacent shape children.
#[verifier::opaque]
pub open spec fn spec_run_end(children: Seq<crate::ir::Element>, c: int) -> int
    decreases children.len() - c,
{
    if c < 0 || c >= children.len() || !(children[c] is Shape) {
        c
    } else {
        spec_run_end(children, c + 1)
    }
}

/// The concatenated earliest-keyframe path data of the run `[c, e)`.
#[verifier::opaque]
pub open spec fn spec_run_data(children: Seq<crate::ir::Element>, c: int, e: int) -> Seq<char>
    decreases e - c,
{
    if c < 0 || c >= e || e > children.len() {
        Seq::empty()
    } else {
        let els = (children[c]->Shape_0).keyframes@[0].value.els@;
        spec_svg_text(els, els.len() as int) + spec_run_data(children, c + 1, e)
    }
}

/// How many drawable elements the children lower to: one per child group,
/// one per maximal run of adjacent shapes.
#[verifier::opaque]
pub open spec fn spec_avd_count(children: Seq<crate::ir::Element>, c: int) -> int
    decreases children.len() + 1 - c,
{
    if c < 0 || c >= children.len() {
        0
    } else if children[c] is Group {
        1 + spec_avd_count(children, c + 1)
    } else {
        let e = spec_run_end(children, c);
        1 + spec_avd_count(
            children,
            if c < e && e <= children.len() {
                e
            } else {
                c + 1
            },
        )
    }
}

/// The drawable position where child `c`'s element starts, walking runs.
pub open spec fn spec_avd_pos(children: Seq<crate::ir::Element>, c: int) -> int {
    spec_avd_count(children, 0) - spec_avd_count(children, c)
}


/// Bounds of a shape run: it covers only shapes and stops at a non-shape.
proof fn lemma_run_end_bounds(children: Seq<crate::ir::Element>, c: int)
    requires
        0 <= c <= children.len(),
    ensures
        c <= spec_run_end(children, c) <= children.len(),
        forall|q: int| c <= q < spec_run_end(children, c) ==> (#[trigger] children[q]) is Shape,
        spec_run_end(children, c) < children.len() ==> !(children[spec_run_end(children, c)]
            is Shape),
    decreases children.len() - c,
{
    reveal(spec_run_end);
    if c < children.len() && children[c] is Shape {
        lemma_run_end_bounds(children, c + 1);
    }
}

/// A run of shapes up to a boundary pins its end.
proof fn lemma_run_end_pinned(children: Seq<crate::ir::Element>, c: int, e: int)
    requires
        0 <= c <= e <= children.len(),
        forall|q: int| c <= q < e ==> (#[trigger] children[q]) is Shape,
        e == children.len() || !(children[e] is Shape),
    ensures
        spec_run_end(children, c) == e,
    decreases e - c,
{
    reveal(spec_run_end);
    if c < e {
        lemma_run_end_pinned(children, c + 1, e);
    }
}

/// Appending one more shape extends the run's concatenated data.
proof fn lemma_run_data_snoc(children: Seq<crate::ir::Element>, c: int, e: int)
    requires
        0 <= c <= e < children.len(),
        children[e] is Shape,
    ensures
        spec_run_data(children, c, e + 1) == spec_run_data(children, c, e) + {
            let els = (children[e]->Shape_0).keyframes@[0].value.els@;
            spec_svg_text(els, els.len() as int)
        },
    decreases e - c,
{
    reveal(spec_run_data);
    if c < e {
        lemma_run_data_snoc(children, c + 1, e);
    } else {
        let els = (children[e]->Shape_0).keyframes@[0].value.els@;
        assert(spec_run_data(children, e + 1, e + 1) =~= Seq::<char>::empty());
        assert(spec_run_data(children, c, e) =~= Seq::<char>::empty());
        assert(spec_run_data(children, c, e + 1) =~= spec_svg_text(els, els.len() as int));
    }
}

/// Passing a child group moves the drawable position ahead by one.
proof fn lemma_pos_step_group(children: Seq<crate::ir::Element>, i: int)
    requires
        0 <= i < children.len(),
        children[i] is Group,
    ensures
        spec_avd_pos(children, i + 1) == spec_avd_pos(children, i) + 1,
{
    reveal(spec_avd_count);
}

/// Passing a whole shape run moves the drawable position ahead by one.
proof fn lemma_pos_after_run(children: Seq<crate::ir::Element>, rs: int)
    requires
        0 <= rs < children.len(),
        children[rs] is Shape,
    ensures
        spec_avd_pos(children, spec_run_end(children, rs)) == spec_avd_pos(children, rs) + 1,
{
    reveal(spec_avd_count);
    reveal(spec_run_end);
    lemma_run_end_bounds(children, rs);
    let e = spec_run_end(children, rs);
    assert(spec_run_end(children, rs) == spec_run_end(children, rs + 1));
    assert(e >= rs + 1);
    assert(spec_avd_count(children, rs) == 1 + spec_avd_count(children, e));
}

/// The lowered drawable mirrors the scene-graph group: child groups recurse
/// in order; each maximal run of adjacent shapes becomes one path whose data
/// concatenates the run's earliest-keyframe SVG text, filled with the
/// group's color in hex.
pub open spec fn avd_group_lowered(g: crate::ir::Group, a: AvdGroup) -> bool
    decreases g,
{
    avd_children_lowered(g.children@, g.fill, a.children@)
}

pub open spec fn avd_children_lowered(
    children: Seq<crate::ir::Element>,
    fill: Option<(u8, u8, u8)>,
    out: Seq<AvdElement>,
) -> bool
    decreases children,
{
    &&& out.len() == spec_avd_count(children, 0)
    &&& forall|c: int|
        0 <= c < children.len() && (#[trigger] children[c]) is Group ==> out[spec_avd_pos(
            children,
            c,
        )] is Group && avd_group_lowered_at(children[c], out[spec_avd_pos(children, c)])
    &&& forall|c: int|
        0 <= c < children.len() && (#[trigger] children[c]) is Shape && (c == 0 || !(children[c
            - 1] is Shape)) ==> {
            let o = spec_avd_pos(children, c);
            &&& out[o] is Path
            &&& (out[o]->Path_0).fill@ == spec_fill_hex(fill)
            &&& (out[o]->Path_0).data@ == spec_run_data(children, c, spec_run_end(children, c))
        }
}

/// The recursion step, split out so each level decreases on the element.
pub open spec fn avd_group_lowered_at(e: crate::ir::Element, a: AvdElement) -> bool
    decreases e,
{
    match (e, a) {
        (crate::ir::Element::Group(g), AvdElement::Group(ag)) => avd_children_lowered(
            g.children@,
            g.fill,
            ag.children@,
        ),
        _ => false,
    }
}

/// A micro-unit coordinate as text: whole scene units in decimal, with a
/// leading minus for negative values.
pub open spec fn spec_coord_text(x: i64) -> Seq<char> {
    let u = crate::fixed::spec_mul_div(x as int, 1, FX_ONE as int);
    if u >= 0 {
        spec_decimal(u)
    } else {
        seq!['-'].add(spec_decimal(-u))
    }
}

pub open spec fn spec_point_text(p: Point) -> Seq<char> {
    spec_coord_text(p.x) + seq![' '] + spec_coord_text(p.y)
}

/// The SVG path-data text of one element.
pub open spec fn spec_el_text(e: PathEl) -> Seq<char> {
    match e {
        PathEl::MoveTo(p) => seq!['M'] + spec_point_text(p),
        PathEl::LineTo(p) => seq!['L'] + spec_point_text(p),
        PathEl::QuadTo(c, p) => seq!['Q'] + spec_point_text(c) + seq![' '] + spec_point_text(p),
        PathEl::CurveTo(c0, c1, p) => seq!['C'] + spec_point_text(c0) + seq![' ']
            + spec_point_text(c1) + seq![' '] + spec_point_text(p),
        PathEl::ClosePath => seq!['Z'],
    }
}

/// The path-data text of the first `i` elements.
pub open spec fn spec_svg_text(els: Seq<PathEl>, i: int) -> Seq<char>
    decreases i,
{
    if i <= 0 {
        Seq::empty()
    } else {
        spec_svg_text(els, i - 1) + spec_el_text(els[i - 1])
    }
}

/// A micro-unit coordinate rounded to whole scene units for path data.
fn coord_units(x: i64) -> (r: i64)
    ensures
        r as int == crate::fixed::spec_mul_div(x as int, 1, FX_ONE as int),
{
    fx_mul_div(x, 1, FX_ONE)
}

fn push_coord(data: &mut String, x: i64)
    ensures
        final(data)@ == old(data)@ + spec_coord_text(x),
{
    let units = coord_units(x);
    let t = fmt_i64(units);
    data.append(t.as_str());
}

fn push_point(data: &mut String, p: Point)
    ensures
        final(data)@ == old(data)@ + spec_point_text(p),
{
    push_coord(data, p.x);
    data.append(" ");
    proof {
        reveal_strlit(" ");
    }
    push_coord(data, p.y);
    proof {
        assert(data@ =~= old(data)@ + spec_point_text(p));
    }
}

/// Serializes a path as SVG path data, coordinates in whole scene units.
#[verifier::loop_isolation(false)]
pub fn to_svg_data(path: &BezPath) -> (d: String)
    ensures
        d@ == spec_svg_text(path.els@, path.els@.len() as int),
{
    let mut data = String::new();
    let mut i: usize = 0;
    while i < path.els.len()
        invariant
            i <= path.els@.len(),
            data@ == spec_svg_text(path.els@, i as int),
        decreases path.els@.len() - i,
    {
        proof {
            reveal_strlit("M");
            reveal_strlit("L");
            reveal_strlit("Q");
            reveal_strlit("C");
            reveal_strlit("Z");
            reveal_strlit(" ");
        }
        match path.els[i] {
            PathEl::MoveTo(p) => {
                data.append("M");
                push_point(&mut data, p);
            },
            PathEl::LineTo(p) => {
                data.append("L");
                push_point(&mut data, p);
            },
            PathEl::QuadTo(c, p) => {
                data.append("Q");
                push_point(&mut data, c);
                data.append(" ");
                push_point(&mut data, p);
            },
            PathEl::CurveTo(c0, c1, p) => {
                data.append("C");
                push_point(&mut data, c0);
                data.append(" ");
                push_point(&mut data, c1);
                data.append(" ");
                push_point(&mut data, p);
            },
            PathEl::ClosePath => {
                data.append("Z");
            },
        }
        proof {
            assert(data@ =~= spec_svg_text(path.els@, i as int) + spec_el_text(
                path.els@[i as int],
            ));
        }
        i = i + 1;
    }
    data
}

/// A fill color as `#rrggbb`.
fn fill_hex(color: Option<(u8, u8, u8)>) -> (s: String)
    ensures
        s@ == spec_fill_hex(color),
{
    let (r, g, b) = match color {
        Some(c) => c,
        _ => (0u8, 0u8, 0u8),
    };
    let mut s = String::new();
    crate::push_char(&mut s, '#');
    push_hex_byte(&mut s, r);
    push_hex_byte(&mut s, g);
    push_hex_byte(&mut s, b);
    proof {
        assert(s@ =~= spec_fill_hex(color));
    }
    s
}

fn push_hex_byte(s: &mut String, b: u8)
    ensures
        final(s)@ == old(s)@ + spec_hex_byte(b as int),
{
    crate::push_char(s, hex_digit((b / 16) as u64));
    crate::push_char(s, hex_digit((b % 16) as u64));
    proof {
        assert(s@ =~= old(s)@ + spec_hex_byte(b as int));
    }
}

fn hex_digit(d: u64) -> (c: char)
    requires
        d < 16,
    ensures
        c == spec_hex_char(d as int),
{
    if d < 10 {
        digit_char(d)
    } else if d == 10 {
        'a'
    } else if d == 11 {
        'b'
    } else if d == 12 {
        'c'
    } else if d == 13 {
        'd'
    } else if d == 14 {
        'e'
    } else {
        'f'
    }
}

/// What holds of the output after the first `i` children are lowered:
/// at a run boundary the output length equals the drawable position of `i`
/// and a preceding child group left a group last; inside a run the last
/// element is the path accumulating the run since `run_start`. Lowered
/// child groups and completed runs sit at their drawable positions.
pub open spec fn avd_loop_inv(
    cs: Seq<crate::ir::Element>,
    fill: Option<(u8, u8, u8)>,
    out: Seq<AvdElement>,
    i: int,
    run_start: int,
) -> bool {
    &&& 0 <= i <= cs.len()
    &&& ((i == 0 || !(cs[i - 1] is Shape)) ==> {
        &&& out.len() == spec_avd_pos(cs, i)
        &&& (i > 0 ==> out.len() > 0 && out.last() is Group)
    })
    &&& ((i > 0 && cs[i - 1] is Shape) ==> {
        &&& 0 <= run_start < i
        &&& cs[run_start] is Shape
        &&& (run_start == 0 || !(cs[run_start - 1] is Shape))
        &&& (forall|q: int| run_start <= q < i ==> (#[trigger] cs[q]) is Shape)
        &&& out.len() == spec_avd_pos(cs, run_start) + 1
        &&& out.last() is Path
        &&& (out.last()->Path_0).fill@ == spec_fill_hex(fill)
        &&& (out.last()->Path_0).data@ == spec_run_data(cs, run_start, i)
        &&& (forall|c: int|
            0 <= c < i && ((#[trigger] cs[c]) is Group || (cs[c] is Shape && (c == 0 || !(cs[c
                - 1] is Shape)) && spec_run_end(cs, c) <= i)) ==> c <= run_start && (c
                < run_start ==> spec_avd_pos(cs, c) < (out.len() - 1)))
    })
    &&& (forall|c: int|
        0 <= c < i && (#[trigger] cs[c]) is Group ==> {
            let o = spec_avd_pos(cs, c);
            &&& 0 <= o < out.len()
            &&& out[o] is Group
            &&& avd_group_lowered_at(cs[c], out[o])
        })
    &&& (forall|c: int|
        0 <= c < i && (#[trigger] cs[c]) is Shape && (c == 0 || !(cs[c - 1] is Shape))
            && spec_run_end(cs, c) <= i ==> {
            let o = spec_avd_pos(cs, c);
            &&& 0 <= o < out.len()
            &&& out[o] is Path
            &&& (out[o]->Path_0).fill@ == spec_fill_hex(fill)
            &&& (out[o]->Path_0).data@ == spec_run_data(cs, c, spec_run_end(cs, c))
        })
}

/// Appends one lowered child group, keeping the loop invariant.
#[verifier::rlimit(100)]
#[verifier::spinoff_prover]
fn avd_push_group_child(
    children: &mut Vec<AvdElement>,
    lowered: AvdGroup,
    cs: Ghost<Seq<crate::ir::Element>>,
    fill: Ghost<Option<(u8, u8, u8)>>,
    i: Ghost<int>,
    run_start: Ghost<int>,
)
    requires
        avd_loop_inv(cs@, fill@, old(children)@, i@, run_start@),
        0 <= i@ < cs@.len(),
        cs@[i@] is Group,
        avd_group_lowered(cs@[i@]->Group_0, lowered),
    ensures
        avd_loop_inv(cs@, fill@, final(children)@, i@ + 1, run_start@),
{
    let ghost at_boundary = i@ == 0 || !(cs@[i@ - 1] is Shape);
    proof {
        if !at_boundary {
            // The group closes the current shape run at `i`.
            lemma_run_end_pinned(cs@, run_start@, i@);
            lemma_pos_after_run(cs@, run_start@);
            assert(old(children)@.len() == spec_avd_pos(cs@, i@));
        }
    }
    let ghost before = children@;
    children.push(AvdElement::Group(lowered));
    proof {
        lemma_pos_step_group(cs@, i@);
        assert(children@[spec_avd_pos(cs@, i@)] is Group);
        assert(avd_group_lowered_at(cs@[i@], children@[spec_avd_pos(cs@, i@)]));
        assert forall|c: int| 0 <= c < i@ + 1 && (#[trigger] cs@[c]) is Group implies {
            let o = spec_avd_pos(cs@, c);
            &&& 0 <= o < children@.len()
            &&& children@[o] is Group
            &&& avd_group_lowered_at(cs@[c], children@[o])
        } by {
            if c < i@ {
                assert(children@[spec_avd_pos(cs@, c)] == before[spec_avd_pos(cs@, c)]);
            }
        }
        assert forall|c: int|
            0 <= c < i@ + 1 && (#[trigger] cs@[c]) is Shape && (c == 0 || !(cs@[c - 1] is Shape))
                && spec_run_end(cs@, c) <= i@ + 1 implies {
            let o = spec_avd_pos(cs@, c);
            &&& 0 <= o < children@.len()
            &&& children@[o] is Path
            &&& (children@[o]->Path_0).fill@ == spec_fill_hex(fill@)
            &&& (children@[o]->Path_0).data@ == spec_run_data(cs@, c, spec_run_end(cs@, c))
        } by {
            lemma_run_end_bounds(cs@, c);
            assert(spec_run_end(cs@, c) <= i@);
            if !at_boundary && c == run_start@ {
                assert(spec_run_end(cs@, c) == i@);
                assert(spec_avd_pos(cs@, c) == before.len() - 1);
            }
            assert(spec_avd_pos(cs@, c) < before.len());
            assert(children@[spec_avd_pos(cs@, c)] == before[spec_avd_pos(cs@, c)]);
        }
    }
}

/// Glues one more shape's path data onto the open run's path, keeping the
/// loop invariant.
#[verifier::rlimit(100)]
#[verifier::spinoff_prover]
fn avd_glue_shape_child(
    children: &mut Vec<AvdElement>,
    d: String,
    fill: Ghost<Option<(u8, u8, u8)>>,
    cs: Ghost<Seq<crate::ir::Element>>,
    i: Ghost<int>,
    run_start: Ghost<int>,
)
    requires
        avd_loop_inv(cs@, fill@, old(children)@, i@, run_start@),
        0 < i@ < cs@.len(),
        cs@[i@] is Shape,
        cs@[i@ - 1] is Shape,
        d@ == ({
            let els = (cs@[i@]->Shape_0).keyframes@[0].value.els@;
            spec_svg_text(els, els.len() as int)
        }),
    ensures
        avd_loop_inv(cs@, fill@, final(children)@, i@ + 1, run_start@),
{
    let last = children.len() - 1;
    let ghost before = children@;
    let mut el = children.remove(last);
    match &mut el {
        AvdElement::Path(p) => {
            p.data.append(d.as_str());
        },
        _ => {},
    }
    children.push(el);
    proof {
        lemma_run_data_snoc(cs@, run_start@, i@);
        assert(children@.len() == before.len());
        assert(children@.last() is Path);
        assert((children@.last()->Path_0).data@ == spec_run_data(cs@, run_start@, i@ + 1));
        assert forall|x: int|
            0 <= x < before.len() - 1 implies #[trigger] children@[x] == before[x] by {}
        assert forall|c: int| 0 <= c < i@ + 1 && (#[trigger] cs@[c]) is Group implies {
            let o = spec_avd_pos(cs@, c);
            &&& 0 <= o < children@.len()
            &&& children@[o] is Group
            &&& avd_group_lowered_at(cs@[c], children@[o])
        } by {
            assert(c < run_start@);
            assert(spec_avd_pos(cs@, c) < before.len() - 1);
            assert(children@[spec_avd_pos(cs@, c)] == before[spec_avd_pos(cs@, c)]);
        }
        assert forall|c: int|
            0 <= c < i@ + 1 && (#[trigger] cs@[c]) is Shape && (c == 0 || !(cs@[c - 1]
                is Shape)) && spec_run_end(cs@, c) <= i@ + 1 implies {
            let o = spec_avd_pos(cs@, c);
            &&& 0 <= o < children@.len()
            &&& children@[o] is Path
            &&& (children@[o]->Path_0).fill@ == spec_fill_hex(fill@)
            &&& (children@[o]->Path_0).data@ == spec_run_data(cs@, c, spec_run_end(cs@, c))
        } by {
            lemma_run_end_bounds(cs@, c);
            if c < i@ && spec_run_end(cs@, c) <= i@ {
                assert(c < run_start@);
                assert(spec_avd_pos(cs@, c) < before.len() - 1);
                assert(children@[spec_avd_pos(cs@, c)] == before[spec_avd_pos(cs@, c)]);
            } else {
                // Only the current run can first close at `i + 1`.
                assert(c <= run_start@) by {
                    if c > run_start@ {
                        assert(cs@[c - 1] is Shape);
                    }
                }
                assert(c == run_start@) by {
                    if c < run_start@ {
                        assert(run_start@ - 1 < spec_run_end(cs@, c));
                        assert(cs@[run_start@ - 1] is Shape);
                    }
                }
                lemma_run_end_pinned(cs@, run_start@, i@ + 1);
                assert(spec_avd_pos(cs@, c) == children@.len() - 1);
            }
        }
        assert forall|c: int|
            0 <= c < i@ + 1 && ((#[trigger] cs@[c]) is Group || (cs@[c] is Shape && (c == 0
                || !(cs@[c - 1] is Shape)) && spec_run_end(cs@, c) <= i@ + 1)) implies c
            <= run_start@ && (c < run_start@ ==> spec_avd_pos(cs@, c) < (children@.len()
            - 1)) by {
            if c > run_start@ {
                assert(cs@[c - 1] is Shape);
            }
            if c < run_start@ && cs@[c] is Shape && spec_run_end(cs@, c) <= i@ + 1 {
                lemma_run_end_bounds(cs@, c);
                if spec_run_end(cs@, c) > i@ {
                    assert(cs@[i@] is Shape && spec_run_end(cs@, c) == i@ + 1);
                    assert(run_start@ - 1 < i@ + 1);
                    assert(cs@[run_start@ - 1] is Shape);
                }
            }
        }
    }
}

/// Starts a new run: appends a fresh path holding one shape's data, keeping
/// the loop invariant with the run now beginning at `i`.
#[verifier::rlimit(100)]
#[verifier::spinoff_prover]
fn avd_start_shape_child(
    children: &mut Vec<AvdElement>,
    d: String,
    fill: Option<(u8, u8, u8)>,
    cs: Ghost<Seq<crate::ir::Element>>,
    i: Ghost<int>,
    run_start: Ghost<int>,
)
    requires
        avd_loop_inv(cs@, fill, old(children)@, i@, run_start@),
        0 <= i@ < cs@.len(),
        cs@[i@] is Shape,
        i@ == 0 || !(cs@[i@ - 1] is Shape),
        d@ == ({
            let els = (cs@[i@]->Shape_0).keyframes@[0].value.els@;
            spec_svg_text(els, els.len() as int)
        }),
    ensures
        avd_loop_inv(cs@, fill, final(children)@, i@ + 1, i@),
{
    let ghost before = children@;
    children.push(AvdElement::Path(AvdPath { fill: fill_hex(fill), data: d }));
    proof {
        reveal_with_fuel(spec_run_data, 3);
        assert(spec_run_data(cs@, i@, i@ + 1) =~= {
            let els = (cs@[i@]->Shape_0).keyframes@[0].value.els@;
            spec_svg_text(els, els.len() as int)
        });
        assert(children@.last() is Path);
        assert((children@.last()->Path_0).data@ == spec_run_data(cs@, i@, i@ + 1));
        assert forall|c: int| 0 <= c < i@ + 1 && (#[trigger] cs@[c]) is Group implies {
            let o = spec_avd_pos(cs@, c);
            &&& 0 <= o < children@.len()
            &&& children@[o] is Group
            &&& avd_group_lowered_at(cs@[c], children@[o])
        } by {
            assert(children@[spec_avd_pos(cs@, c)] == before[spec_avd_pos(cs@, c)]);
        }
        assert forall|c: int|
            0 <= c < i@ + 1 && (#[trigger] cs@[c]) is Shape && (c == 0 || !(cs@[c - 1]
                is Shape)) && spec_run_end(cs@, c) <= i@ + 1 implies {
            let o = spec_avd_pos(cs@, c);
            &&& 0 <= o < children@.len()
            &&& children@[o] is Path
            &&& (children@[o]->Path_0).fill@ == spec_fill_hex(fill)
            &&& (children@[o]->Path_0).data@ == spec_run_data(cs@, c, spec_run_end(cs@, c))
        } by {
            lemma_run_end_bounds(cs@, c);
            if c < i@ {
                assert(spec_run_end(cs@, c) <= i@);
                assert(spec_avd_pos(cs@, c) < before.len());
                assert(children@[spec_avd_pos(cs@, c)] == before[spec_avd_pos(cs@, c)]);
            } else {
                lemma_run_end_pinned(cs@, i@, i@ + 1);
                assert(spec_avd_pos(cs@, c) == before.len() as int);
            }
        }
        assert forall|c: int|
            0 <= c < i@ + 1 && ((#[trigger] cs@[c]) is Group || (cs@[c] is Shape && (c == 0
                || !(cs@[c - 1] is Shape)) && spec_run_end(cs@, c) <= i@ + 1)) implies c <= i@
            && (c < i@ ==> spec_avd_pos(cs@, c) < (children@.len() - 1)) by {
            if c < i@ {
                if cs@[c] is Shape && spec_run_end(cs@, c) > i@ {
                    lemma_run_end_bounds(cs@, c);
                    assert(cs@[i@ - 1] is Shape);
                }
                assert(spec_avd_pos(cs@, c) < before.len());
            }
        }
    }
}

/// A finished pass over all children makes the output a lowering of them.
proof fn lemma_avd_inv_final(
    cs: Seq<crate::ir::Element>,
    fill: Option<(u8, u8, u8)>,
    out: Seq<AvdElement>,
    run_start: int,
)
    requires
        avd_loop_inv(cs, fill, out, cs.len() as int, run_start),
    ensures
        avd_children_lowered(cs, fill, out),
{
    reveal(spec_avd_count);
    if cs.len() > 0 && cs[cs.len() - 1] is Shape {
        lemma_run_end_pinned(cs, run_start, cs.len() as int);
        lemma_pos_after_run(cs, run_start);
        assert(spec_avd_count(cs, cs.len() as int) == 0);
        assert(out.len() == spec_avd_count(cs, 0));
    } else {
        assert(spec_avd_count(cs, cs.len() as int) == 0);
        assert(out.len() == spec_avd_count(cs, 0));
    }
    assert forall|c: int|
        0 <= c < cs.len() && (#[trigger] cs[c]) is Shape && (c == 0 || !(cs[c - 1] is Shape))
            implies {
        let o = spec_avd_pos(cs, c);
        &&& out[o] is Path
        &&& (out[o]->Path_0).fill@ == spec_fill_hex(fill)
        &&& (out[o]->Path_0).data@ == spec_run_data(cs, c, spec_run_end(cs, c))
    } by {
        lemma_run_end_bounds(cs, c);
    }
}

/// Lowers one scene-graph group: child groups recurse; each shape's
/// first-frame path becomes path data, and adjacent shapes glue into one
/// `AvdPath` so cutouts still cut. The result mirrors the group as
/// `avd_group_lowered` states.
fn to_avd_group(group: &crate::ir::Group) -> (g: AvdGroup)
    requires
        crate::ir::group_wf(*group),
    ensures
        avd_group_lowered(*group, g),
    decreases *group,
{
    let ghost cs = group.children@;
    let mut children: Vec<AvdElement> = Vec::new();
    let ghost mut run_start: int = 0;
    let mut i: usize = 0;
    while i < group.children.len()
        invariant
            i <= cs.len(),
            cs == group.children@,
            crate::ir::group_wf(*group),
            avd_loop_inv(cs, group.fill, children@, i as int, run_start),
        decreases cs.len() - i,
    {
        proof {
            assert(crate::ir::element_wf(cs[i as int]));
        }
        match &group.children[i] {
            crate::ir::Element::Group(sub) => {
                let lowered = to_avd_group(sub);
                avd_push_group_child(
                    &mut children,
                    lowered,
                    Ghost(cs),
                    Ghost(group.fill),
                    Ghost(i as int),
                    Ghost(run_start),
                );
            },
            crate::ir::Element::Shape(sh) => {
                let d = to_svg_data(&sh.earliest().value);
                let glue = children.len() > 0 && is_path(&children[children.len() - 1]);
                proof {
                    // The last element tells boundary from mid-run apart.
                    assert(glue <==> (i > 0 && cs[i - 1] is Shape));
                }
                if glue {
                    avd_glue_shape_child(
                        &mut children,
                        d,
                        Ghost(group.fill),
                        Ghost(cs),
                        Ghost(i as int),
                        Ghost(run_start),
                    );
                } else {
                    avd_start_shape_child(
                        &mut children,
                        d,
                        group.fill,
                        Ghost(cs),
                        Ghost(i as int),
                        Ghost(run_start),
                    );
                    proof {
                        run_start = i as int;
                    }
                }
            },
        }
        i = i + 1;
    }
    proof {
        lemma_avd_inv_final(cs, group.fill, children@, run_start);
    }
    AvdGroup { children }
}

fn is_path(e: &AvdElement) -> (r: bool)
    ensures
        r == (e is Path),
{
    match e {
        AvdElement::Path(..) => true,
        _ => false,
    }
}

/// Lowers a static snapshot of the scene graph to an Android Vector
/// Drawable sized by the scene box.
pub fn lower_to_avd(animation: &crate::ir::Animation) -> (r: Result<
    AnimatedVectorDrawable,
    AndroidError,
>)
    requires
        crate::ir::group_wf(animation.root),
    ensures
        r is Ok,
        r matches Ok(avd) ==> avd.width == animation.width && avd.height == animation.height
            && avd_group_lowered(animation.root, avd.drawable),
{
    Ok(
        AnimatedVectorDrawable {
            width: animation.width,
            height: animation.height,
            drawable: to_avd_group(&animation.root),
        },
    )
}

/// `n` spaces.
pub open spec fn spec_indent(n: int) -> Seq<char>
    decreases n,
{
    if n <= 0 {
        Seq::empty()
    } else {
        spec_indent(n - 1) + " "@
    }
}

/// One attribute line: indented four past the element's own indent.
pub open spec fn spec_attr_text(depth: int, content: Seq<char>) -> Seq<char> {
    spec_indent(depth * 2 + 4) + content
}

/// The attribute lines up to index `i`, a newline between consecutive ones.
pub open spec fn spec_attrs_upto(depth: int, attrs: Seq<Seq<char>>, i: int) -> Seq<char>
    decreases i,
{
    if i <= 0 {
        Seq::empty()
    } else {
        spec_attrs_upto(depth, attrs, i - 1) + spec_attr_text(depth, attrs[i - 1]) + (if i
            < attrs.len() {
            "\n"@
        } else {
            Seq::empty()
        })
    }
}

/// An opening tag with its attribute lines.
pub open spec fn spec_start_el_text(depth: int, name: Seq<char>, attrs: Seq<Seq<char>>) -> Seq<
    char,
> {
    spec_indent(depth * 2) + "<"@ + name + (if attrs.len() > 0 {
        "\n"@
    } else {
        Seq::empty()
    }) + spec_attrs_upto(depth, attrs, attrs.len() as int) + ">\n"@
}

/// A closing tag.
pub open spec fn spec_end_el_text(depth: int, name: Seq<char>) -> Seq<char> {
    spec_indent(depth * 2) + "</"@ + name + ">\n"@
}

/// The XML text one drawable element writes at `depth`.
pub open spec fn spec_element_xml(e: AvdElement, depth: int) -> Seq<char>
    decreases e,
{
    match e {
        AvdElement::Group(g) => spec_group_xml(g, depth),
        AvdElement::Path(p) => spec_indent(depth * 2) + "<path\n"@ + spec_attr_text(
            depth,
            "android:fillColor=\""@,
        ) + p.fill@ + "\"\n"@ + spec_attr_text(depth, "android:pathData=\""@) + p.data@
            + "\">\n"@ + spec_indent(depth * 2) + "</path>\n"@,
    }
}

/// The XML text of the first `i` children, written one level deeper.
pub open spec fn spec_children_xml(children: Seq<AvdElement>, depth: int, i: int) -> Seq<char>
    decreases children, i,
{
    if i <= 0 || i > children.len() {
        Seq::empty()
    } else {
        spec_children_xml(children, depth, i - 1) + spec_element_xml(children[i - 1], depth)
    }
}

/// The XML text of one group: a `group` element holding its children, left
/// empty past the depth cap.
pub open spec fn spec_group_xml(g: AvdGroup, depth: int) -> Seq<char>
    decreases g,
{
    spec_start_el_text(depth, "group"@, Seq::empty()) + (if depth < 99_999 {
        spec_children_xml(g.children@, depth + 1, g.children@.len() as int)
    } else {
        Seq::empty()
    }) + spec_end_el_text(depth, "group"@)
}

/// The whole document: the `animated-vector` wrapper, the `aapt:attr`
/// holding the `vector` sized by the scene box in whole units, and the
/// lowered drawable tree.
pub open spec fn spec_avd_xml(a: AnimatedVectorDrawable) -> Seq<char> {
    spec_start_el_text(
        0,
        "animated-vector"@,
        Seq::empty().push("xmlns:android=\"http://schemas.android.com/apk/res/android\""@).push(
            "xmlns:aapt=\"http://schemas.android.com/aapt\""@,
        ),
    ) + spec_start_el_text(1, "aapt:attr name=\"android:drawable\""@, Seq::empty())
        + spec_start_el_text(
        2,
        "vector"@,
        Seq::empty().push("android:width=\"24dp\""@).push("android:height=\"24dp\""@).push(
            "android:viewportWidth=\""@ + spec_coord_text(a.width) + "\""@,
        ).push("android:viewportHeight=\""@ + spec_coord_text(a.height) + "\""@),
    ) + spec_group_xml(a.drawable, 3) + spec_end_el_text(2, "vector"@) + spec_end_el_text(
        1,
        "aapt:attr"@,
    ) + spec_end_el_text(0, "animated-vector"@)
}

fn start_el(xml: &mut String, depth: u64, name: &str, attrs: &Vec<String>)
    requires
        depth <= 100_000,
    ensures
        final(xml)@ == old(xml)@ + spec_start_el_text(
            depth as int,
            name@,
            attrs@.map_values(|a: String| a@),
        ),
{
    let ghost base = xml@;
    let ghost av = attrs@.map_values(|a: String| a@);
    push_indent(xml, depth * 2);
    xml.append("<");
    xml.append(name);
    if attrs.len() > 0 {
        xml.append("\n");
    }
    let ghost head = xml@;
    proof {
        assert(spec_attrs_upto(depth as int, av, 0) =~= Seq::<char>::empty());
        assert(xml@ =~= head + spec_attrs_upto(depth as int, av, 0));
    }
    let mut i: usize = 0;
    while i < attrs.len()
        invariant
            depth <= 100_000,
            i <= attrs.len(),
            av == attrs@.map_values(|a: String| a@),
            xml@ == head + spec_attrs_upto(depth as int, av, i as int),
        decreases attrs@.len() - i,
    {
        write_attr(xml, depth, attrs[i].as_str());
        if i + 1 < attrs.len() {
            xml.append("\n");
            proof {
                assert(av[i as int] == attrs@[i as int]@);
                assert(xml@ =~= head + spec_attrs_upto(depth as int, av, i + 1));
            }
        } else {
            proof {
                assert(av[i as int] == attrs@[i as int]@);
                assert(xml@ =~= head + spec_attrs_upto(depth as int, av, i + 1));
            }
        }
        i = i + 1;
    }
    xml.append(">\n");
    proof {
        assert(final(xml)@ =~= base + spec_start_el_text(depth as int, name@, av));
    }
}

fn end_el(xml: &mut String, depth: u64, name: &str)
    requires
        depth <= 100_000,
    ensures
        final(xml)@ == old(xml)@ + spec_end_el_text(depth as int, name@),
{
    let ghost base = xml@;
    push_indent(xml, depth * 2);
    xml.append("</");
    xml.append(name);
    xml.append(">\n");
    proof {
        assert(final(xml)@ =~= base + spec_end_el_text(depth as int, name@));
    }
}

fn write_attr(xml: &mut String, depth: u64, content: &str)
    requires
        depth <= 100_000,
    ensures
        final(xml)@ == old(xml)@ + spec_attr_text(depth as int, content@),
{
    let ghost base = xml@;
    push_indent(xml, depth * 2 + 4);
    xml.append(content);
    proof {
        assert(final(xml)@ =~= base + spec_attr_text(depth as int, content@));
    }
}

fn push_indent(xml: &mut String, n: u64)
    requires
        n <= 1_000_000,
    ensures
        final(xml)@ == old(xml)@ + spec_indent(n as int),
{
    let ghost base = xml@;
    proof {
        assert(xml@ =~= base + spec_indent(0));
    }
    let mut i: u64 = 0;
    while i < n
        invariant
            i <= n,
            xml@ == base + spec_indent(i as int),
        decreases n - i,
    {
        xml.append(" ");
        proof {
            assert(xml@ =~= base + spec_indent(i + 1));
        }
        i = i + 1;
    }
}

impl AvdElement {
    fn write_inner_xml(&self, xml: &mut String, depth: u64)
        requires
            depth <= 100_000,
        ensures
            final(xml)@ == old(xml)@ + spec_element_xml(*self, depth as int),
        decreases *self,
    {
        let ghost base = xml@;
        match self {
            AvdElement::Group(g) => {
                g.write_inner_xml(xml, depth);
            },
            AvdElement::Path(p) => {
                push_indent(xml, depth * 2);
                xml.append("<path\n");
                write_attr(xml, depth, "android:fillColor=\"");
                xml.append(p.fill.as_str());
                xml.append("\"\n");
                write_attr(xml, depth, "android:pathData=\"");
                xml.append(p.data.as_str());
                xml.append("\">\n");
                push_indent(xml, depth * 2);
                xml.append("</path>\n");
                proof {
                    assert(final(xml)@ =~= base + spec_element_xml(*self, depth as int));
                }
            },
        }
    }
}

impl AvdGroup {
    fn write_inner_xml(&self, xml: &mut String, depth: u64)
        requires
            depth <= 100_000,
        ensures
            final(xml)@ == old(xml)@ + spec_group_xml(*self, depth as int),
        decreases *self,
    {
        let ghost base = xml@;
        let empty: Vec<String> = Vec::new();
        start_el(xml, depth, "group", &empty);
        proof {
            assert(empty@.map_values(|a: String| a@) =~= Seq::<Seq<char>>::empty());
        }
        let ghost head = xml@;
        proof {
            assert(spec_children_xml(self.children@, depth + 1, 0) =~= Seq::<char>::empty());
            assert(xml@ =~= head + spec_children_xml(self.children@, depth + 1, 0));
        }
        let mut i: usize = 0;
        while i < self.children.len()
            invariant
                depth <= 100_000,
                i <= self.children@.len(),
                depth < 99_999 ==> xml@ == head + spec_children_xml(
                    self.children@,
                    depth + 1,
                    i as int,
                ),
                depth >= 99_999 ==> xml@ == head,
            decreases self.children@.len() - i,
        {
            if depth < 99_999 {
                self.children[i].write_inner_xml(xml, depth + 1);
                proof {
                    assert(xml@ =~= head + spec_children_xml(self.children@, depth + 1, i + 1));
                }
            }
            i = i + 1;
        }
        end_el(xml, depth, "group");
        proof {
            assert(final(xml)@ =~= base + spec_group_xml(*self, depth as int));
        }
    }
}

impl AnimatedVectorDrawable {
    /// Writes the drawable as single-file XML: the `animated-vector` wrapper,
    /// the `aapt:attr` holding the `vector`, and the nested groups and paths,
    /// exactly the text `spec_avd_xml` lays out.
    #[verifier::rlimit(100)]
    #[verifier::spinoff_prover]
    pub fn to_avd_xml(&self) -> (r: Result<String, AndroidError>)
        ensures
            r matches Ok(x) && x@ == spec_avd_xml(*self),
    {
        let mut xml = String::new();
        proof {
            assert(xml@ =~= Seq::<char>::empty());
        }
        let mut attrs: Vec<String> = Vec::new();
        attrs.push(str_owned("xmlns:android=\"http://schemas.android.com/apk/res/android\""));
        attrs.push(str_owned("xmlns:aapt=\"http://schemas.android.com/aapt\""));
        proof {
            assert(attrs@.map_values(|a: String| a@) =~= Seq::empty().push(
                "xmlns:android=\"http://schemas.android.com/apk/res/android\""@,
            ).push("xmlns:aapt=\"http://schemas.android.com/aapt\""@));
        }
        start_el(&mut xml, 0, "animated-vector", &attrs);
        let empty: Vec<String> = Vec::new();
        proof {
            assert(empty@.map_values(|a: String| a@) =~= Seq::<Seq<char>>::empty());
        }
        start_el(&mut xml, 1, "aapt:attr name=\"android:drawable\"", &empty);
        let mut vattrs: Vec<String> = Vec::new();
        vattrs.push(str_owned("android:width=\"24dp\""));
        vattrs.push(str_owned("android:height=\"24dp\""));
        let mut vw = str_owned("android:viewportWidth=\"");
        let w = fmt_i64(fx_mul_div(self.width, 1, FX_ONE));
        vw.append(w.as_str());
        vw.append("\"");
        proof {
            assert(vw@ =~= "android:viewportWidth=\""@ + spec_coord_text(self.width) + "\""@);
        }
        vattrs.push(vw);
        let mut vh = str_owned("android:viewportHeight=\"");
        let h = fmt_i64(fx_mul_div(self.height, 1, FX_ONE));
        vh.append(h.as_str());
        vh.append("\"");
        proof {
            assert(vh@ =~= "android:viewportHeight=\""@ + spec_coord_text(self.height) + "\""@);
        }
        vattrs.push(vh);
        proof {
            assert(vattrs@.map_values(|a: String| a@) =~= Seq::empty().push(
                "android:width=\"24dp\""@,
            ).push("android:height=\"24dp\""@).push(
                "android:viewportWidth=\""@ + spec_coord_text(self.width) + "\""@,
            ).push("android:viewportHeight=\""@ + spec_coord_text(self.height) + "\""@));
        }
        start_el(&mut xml, 2, "vector", &vattrs);
        self.drawable.write_inner_xml(&mut xml, 3);
        end_el(&mut xml, 2, "vector");
        end_el(&mut xml, 1, "aapt:attr");
        end_el(&mut xml, 0, "animated-vector");
        proof {
            assert(xml@ =~= spec_avd_xml(*self));
        }
        Ok(xml)
    }
}

fn str_owned(s: &str) -> (r: String)
    ensures
        r@ == s@,
{
    let r: String = s.to_owned();
    r
}

} // verus!
