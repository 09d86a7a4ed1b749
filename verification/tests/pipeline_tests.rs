use iconimation::command::Command;
use iconimation::error::LottieError;
use iconimation::fixed::FX_ONE;
use iconimation::geom::{font_to_scene, BezPath, PathEl, Point};
use iconimation::ir::{Animation, Element, DEFAULT_FRAMES};
use iconimation::keyframed::Keyframed;
use iconimation::lottie::{
    lower_to_lottie, paths_compatible, create_shapevalue, AnyShape, LottieValue, SubPathValue,
};
use iconimation::android::lower_to_avd;
use iconimation::winding::{flatten_subpath, winding};
use iconimation::error::AnimationError;
use iconimation::error::IconNameError;
use iconimation::ligate::{icon_name_to_gid, Ligature, LigatureSet, LigatureSubtable};

fn pt(x: i64, y: i64) -> Point {
    Point { x: x * FX_ONE, y: y * FX_ONE }
}

/// An axis-aligned square subpath between two corners, one winding per call
/// order of the corners.
fn square(a: i64, b: i64, flip: bool) -> Vec<PathEl> {
    if !flip {
        vec![
            PathEl::MoveTo(pt(a, a)),
            PathEl::LineTo(pt(b, a)),
            PathEl::LineTo(pt(b, b)),
            PathEl::LineTo(pt(a, b)),
            PathEl::ClosePath,
        ]
    } else {
        vec![
            PathEl::MoveTo(pt(a, a)),
            PathEl::LineTo(pt(a, b)),
            PathEl::LineTo(pt(b, b)),
            PathEl::LineTo(pt(b, a)),
            PathEl::ClosePath,
        ]
    }
}

fn path_of(els: Vec<PathEl>) -> BezPath {
    BezPath { els }
}

#[test]
fn transform_flips_y_and_keeps_scale() {
    let a = font_to_scene(960);
    assert_eq!(a.xx, FX_ONE);
    assert_eq!(a.yy, -FX_ONE);
    assert_eq!(a.xy, 0);
    assert_eq!(a.yx, 0);
    let det = (a.xx as i128) * (a.yy as i128) - (a.xy as i128) * (a.yx as i128);
    assert!(det < 0);
}

#[test]
fn keyframes_sort_and_reject_duplicates() {
    let kf = Keyframed::<i64>::try_from_pairs(vec![(20, 7), (10, 3)]).unwrap();
    assert_eq!(kf.keyframes.len(), 2);
    assert_eq!(kf.keyframes[0].frame, 10);
    assert_eq!(kf.keyframes[0].value, 3);
    assert_eq!(kf.keyframes[1].frame, 20);
    assert_eq!(kf.keyframes[1].value, 7);
    assert!(matches!(
        Keyframed::<i64>::try_from_pairs(vec![(10, 1), (10, 2)]),
        Err(AnimationError::MultipleValuesForFrame(10))
    ));
    assert!(matches!(
        Keyframed::<i64>::try_from_pairs(Vec::<(i64, i64)>::new()),
        Err(AnimationError::NoKeyframes)
    ));
}

#[test]
fn winding_flips_under_reversal() {
    let fwd = path_of(square(100, 900, false));
    let rev = path_of(square(100, 900, true));
    let probe = pt(500, 500);
    let wf = winding(&flatten_subpath(&fwd), probe);
    let wr = winding(&flatten_subpath(&rev), probe);
    assert!(wf != 0);
    assert_eq!(wf, -wr);
}

#[test]
fn compatibility_is_kind_equality() {
    let a = path_of(square(0, 10, false));
    let b = path_of(square(5, 25, true));
    assert!(paths_compatible(&a, &b));
    let mut extra = square(0, 10, false);
    extra.insert(4, PathEl::LineTo(pt(0, 5)));
    let c = path_of(extra);
    assert!(!paths_compatible(&a, &c));
    let mut curved = square(0, 10, false);
    curved[1] = PathEl::QuadTo(pt(5, 0), pt(10, 0));
    assert!(!paths_compatible(&a, &path_of(curved)));
}

#[test]
fn quadratic_elevation_uses_exact_thirds() {
    // A degenerate quadratic with the control on the segment elevates to a
    // cubic whose handles sit at one third and two thirds of the chord.
    let els = vec![
        PathEl::MoveTo(Point { x: 0, y: 0 }),
        PathEl::QuadTo(Point { x: 300 * FX_ONE, y: 0 }, Point { x: 600 * FX_ONE, y: 0 }),
    ];
    let sv = create_shapevalue(&path_of(els));
    assert_eq!(sv.vertices.len(), 2);
    assert_eq!(sv.vertices[1], Point { x: 600 * FX_ONE, y: 0 });
    assert_eq!(sv.out_point[0], Point { x: 200 * FX_ONE, y: 0 });
    assert_eq!(sv.in_point[1], Point { x: -200 * FX_ONE, y: 0 });
}

#[test]
fn twirl_whole_sets_the_root_rotation() {
    let cmd = Command::parse("Animate settings: twirl-whole").unwrap();
    let path = path_of(square(100, 900, false));
    let anim = Animation::of_icon(&cmd, 1000, &path, None);
    assert_eq!(anim.frames, DEFAULT_FRAMES);
    let ks = &anim.root.rotate.keyframes;
    assert_eq!(ks.len(), 2);
    assert_eq!((ks[0].frame, ks[0].value), (0, 0));
    assert_eq!((ks[1].frame, ks[1].value), (24_000_000, 360_000_000));
}

#[test]
fn pulse_parts_staggers_two_groups() {
    let cmd = Command::parse("Animate check_circle: pulse").unwrap();
    let mut els = square(100, 900, false);
    els.extend(square(300, 700, true));
    els.extend(square(450, 550, false));
    let path = path_of(els);
    let anim = Animation::of_icon(&cmd, 1000, &path, None);
    assert_eq!(anim.root.children.len(), 2, "ring-and-dot should make two parts");
    for (i, child) in anim.root.children.iter().enumerate() {
        let g = match child {
            Element::Group(g) => g,
            _ => panic!("parts should be groups"),
        };
        let frames: Vec<i64> = g.scale.keyframes.iter().map(|k| k.frame).collect();
        let base = 12_000_000 * i as i64;
        assert_eq!(frames, vec![base, base + 12_000_000, base + 24_000_000]);
    }
    // The ring group holds the filled ring and its cutout; the dot is alone.
    let sizes: Vec<usize> = anim
        .root
        .children
        .iter()
        .map(|c| match c {
            Element::Group(g) => g.children.len(),
            _ => 0,
        })
        .collect();
    let mut sorted = sizes.clone();
    sorted.sort();
    assert_eq!(sorted, vec![1, 2]);
}

#[test]
fn lottie_group_ends_with_fill_then_transform() {
    let cmd = Command::parse("Animate an_icon: none").unwrap();
    let path = path_of(square(100, 900, false));
    let anim = Animation::of_icon(&cmd, 1000, &path, None);
    let lottie = lower_to_lottie(&anim).unwrap();
    assert_eq!(lottie.layers.len(), 1);
    assert_eq!(lottie.layers[0].shapes.len(), 1);
    let group = match &lottie.layers[0].shapes[0] {
        AnyShape::Group(g) => g,
        _ => panic!("the one shape should be the root group"),
    };
    let n = group.items.len();
    assert!(n >= 2);
    assert!(matches!(group.items[n - 2], AnyShape::Fill(..)));
    assert!(matches!(group.items[n - 1], AnyShape::Transform(..)));
}

#[test]
fn rotation_with_spring_expands_to_template_segments() {
    let cmd =
        Command::parse("Animate settings: rotate 360 degrees using expressive-spatial").unwrap();
    let path = path_of(square(100, 900, false));
    let anim = Animation::of_icon(&cmd, 1000, &path, None);
    let lottie = lower_to_lottie(&anim).unwrap();
    let group = match &lottie.layers[0].shapes[0] {
        AnyShape::Group(g) => g,
        _ => panic!("root group"),
    };
    let transform = match group.items.last().unwrap() {
        AnyShape::Transform(t) => t,
        _ => panic!("transform last"),
    };
    assert!(transform.rotation.animated);
    let ks = match &transform.rotation.value {
        LottieValue::Animated(ks) => ks,
        _ => panic!("animated rotation"),
    };
    // One original keyframe plus one per expressive template segment.
    assert_eq!(ks.len(), 3);
    assert_eq!(ks[0].start_time, 0);
    assert_eq!(ks[2].start_value[0], 360_000_000);
    // The expanded segments carry their own eases, not the default.
    let default_in = iconimation::lottie::default_ease().in_value;
    assert!(ks[1].bezier.unwrap().in_value != default_in || ks[2].bezier.unwrap().in_value != default_in);
}

#[test]
fn variation_animates_a_single_compatible_subpath() {
    let cmd = Command::parse("Animate an_icon: vary FILL:0 to FILL:1").unwrap();
    let start = path_of(square(100, 900, false));
    let end = path_of(square(150, 850, false));
    let anim = Animation::of_icon(&cmd, 1000, &start, Some(&end));
    let shape = match &anim.root.children[0] {
        Element::Shape(s) => s,
        _ => panic!("one shape child"),
    };
    assert_eq!(shape.keyframes.len(), 2);
    assert_eq!(shape.keyframes[0].frame, 0);
    assert_eq!(shape.keyframes[1].frame, DEFAULT_FRAMES);
    let lottie = lower_to_lottie(&anim).unwrap();
    let group = match &lottie.layers[0].shapes[0] {
        AnyShape::Group(g) => g,
        _ => panic!("root group"),
    };
    let sub = match &group.items[0] {
        AnyShape::Shape(s) => s,
        _ => panic!("the glyph subpath comes first"),
    };
    let ks = match &sub.vertices {
        SubPathValue::Animated(ks) => ks,
        _ => panic!("animated vertices"),
    };
    assert_eq!(ks.len(), 2);
    assert_eq!(ks[0].start_time, 0);
    assert_eq!(ks[1].start_time, DEFAULT_FRAMES);
}

#[test]
fn incompatible_paths_fail_lottie_but_not_avd() {
    let cmd = Command::parse("Animate an_icon: vary FILL:0 to FILL:1").unwrap();
    let start = path_of(square(100, 900, false));
    let mut bent = square(100, 900, false);
    bent[1] = PathEl::QuadTo(pt(500, 100), pt(900, 100));
    let end = path_of(bent);
    let anim = Animation::of_icon(&cmd, 1000, &start, Some(&end));
    assert!(matches!(lower_to_lottie(&anim), Err(LottieError::IncompatiblePaths(..))));
    let avd = lower_to_avd(&anim).unwrap();
    assert_eq!(avd.width, 1000 * FX_ONE);
    let xml = avd.to_avd_xml().unwrap();
    assert!(xml.starts_with("<animated-vector"));
    assert!(xml.contains("android:viewportWidth=\"1000\""));
    assert!(xml.contains("android:pathData=\"M"));
}

#[test]
fn name_resolution_walks_the_ligature_tables() {
    let charmap: Vec<(u32, u32)> =
        vec![(99, 10), (97, 11), (98, 12), (0xE5CA, 77)];
    let subtable = LigatureSubtable {
        coverage: vec![10],
        sets: vec![LigatureSet {
            ligatures: vec![
                Ligature { components: vec![11], glyph: 50 },
                Ligature { components: vec![11, 12], glyph: 51 },
            ],
        }],
    };
    let tables = vec![subtable];
    assert_eq!(icon_name_to_gid(&charmap, &tables, "cab"), Ok(51));
    assert_eq!(icon_name_to_gid(&charmap, &tables, "ca"), Ok(50));
    assert_eq!(icon_name_to_gid(&charmap, &tables, "0xE5CA"), Ok(77));
    assert!(matches!(
        icon_name_to_gid(&charmap, &tables, "cb"),
        Err(IconNameError::NoLigature(..))
    ));
    assert!(matches!(
        icon_name_to_gid(&charmap, &tables, "cq"),
        Err(IconNameError::UnmappedCharError('q'))
    ));
    assert!(matches!(
        icon_name_to_gid(&charmap, &tables, "0x1234"),
        Err(IconNameError::UnmappedCodepoint(0x1234))
    ));
    assert!(matches!(
        icon_name_to_gid(&charmap, &tables, "0xZZ"),
        Err(IconNameError::InvalidCodepoint(..))
    ));
}

#[test]
fn group_colors_rotate_through_the_palette() {
    assert_eq!(iconimation::nth_group_color(0), (0xEF, 0x53, 0x50));
    assert_eq!(iconimation::nth_group_color(9), (0xEF, 0x53, 0x50));
    assert_eq!(iconimation::nth_group_color(2), (0xAB, 0x47, 0xBC));
}

#[test]
fn ligature_resolution_takes_the_first_match() {
    let charmap: Vec<(u32, u32)> = vec![(120, 1), (121, 2)];
    // Two subtables both hold a ligature for "xy": the first one wins.
    let early = LigatureSubtable {
        coverage: vec![1],
        sets: vec![LigatureSet {
            ligatures: vec![
                Ligature { components: vec![2], glyph: 50 },
                Ligature { components: vec![2], glyph: 51 },
            ],
        }],
    };
    let late = LigatureSubtable {
        coverage: vec![1],
        sets: vec![LigatureSet {
            ligatures: vec![Ligature { components: vec![2], glyph: 60 }],
        }],
    };
    let got = icon_name_to_gid(&charmap, &vec![early, late], "xy").unwrap();
    assert_eq!(got, 50);
}
