use iconimation::command::{Command, NameAndVariation};
use iconimation::error::Error;
use iconimation::spring::Spring;

fn nv(c: &Command) -> &NameAndVariation {
    match c {
        Command::NoMotion(nv) => nv,
        Command::RotateDegrees(nv, ..) => nv,
        Command::ScaleFromTo(nv, ..) => nv,
        Command::PulseWhole(nv) => nv,
        Command::PulseParts(nv) => nv,
        Command::TwirlWhole(nv) => nv,
        Command::TwirlParts(nv) => nv,
    }
}

#[test]
fn parse_rotate_with_spring() {
    let cmd = Command::parse("Animate settings: rotate 360 degrees using expressive-spatial")
        .unwrap();
    match &cmd {
        Command::RotateDegrees(_, d) => assert_eq!(*d, 360_000_000),
        _ => panic!("expected rotate"),
    }
    assert_eq!(nv(&cmd).icon_name, "settings");
    assert_eq!(nv(&cmd).spring, Some(Spring::expressive_spatial()));
    assert!(nv(&cmd).vary_from.is_none());
    assert!(nv(&cmd).vary_to.is_none());
}

#[test]
fn parse_scale() {
    let cmd = Command::parse("Animate check_circle: scale 0 to 100").unwrap();
    match &cmd {
        Command::ScaleFromTo(_, a, b) => {
            assert_eq!(*a, 0);
            assert_eq!(*b, 100_000_000);
        }
        _ => panic!("expected scale"),
    }
    assert_eq!(nv(&cmd).icon_name, "check_circle");
    assert!(nv(&cmd).spring.is_none());
}

#[test]
fn parse_pulse() {
    let cmd = Command::parse("Animate close: pulse").unwrap();
    assert!(matches!(cmd, Command::PulseParts(..)));
    assert_eq!(nv(&cmd).icon_name, "close");
}

#[test]
fn parse_rotate_with_variation() {
    let cmd = Command::parse(
        "Animate settings: rotate 360 degrees using smooth-spatial vary blah:99 to blah:101",
    )
    .unwrap();
    match &cmd {
        Command::RotateDegrees(_, d) => assert_eq!(*d, 360_000_000),
        _ => panic!("expected rotate"),
    }
    assert_eq!(nv(&cmd).spring, Some(Spring::smooth_spatial()));
    assert_eq!(nv(&cmd).vary_from.as_deref(), Some("blah:99"));
    assert_eq!(nv(&cmd).vary_to.as_deref(), Some("blah:101"));
}

#[test]
fn parse_minimal_twirl() {
    let cmd = Command::parse("Animate an_icon: twirl-whole").unwrap();
    assert!(matches!(cmd, Command::TwirlWhole(..)));
    assert_eq!(nv(&cmd).icon_name, "an_icon");
}

#[test]
fn parse_only_variation() {
    let cmd = Command::parse("Animate an_icon: vary FILL:0 to FILL:1").unwrap();
    assert!(matches!(cmd, Command::NoMotion(..)));
    assert_eq!(nv(&cmd).vary_from.as_deref(), Some("FILL:0"));
    assert_eq!(nv(&cmd).vary_to.as_deref(), Some("FILL:1"));
}

#[test]
fn parse_scale_with_variation_and_spring() {
    let cmd = Command::parse("Animate check_circle: scale 0 to 100 using expressive-spatial vary wght:400,FILL:1 to wght:700,FILL:0")
        .unwrap();
    match &cmd {
        Command::ScaleFromTo(_, a, b) => {
            assert_eq!(*a, 0);
            assert_eq!(*b, 100_000_000);
        }
        _ => panic!("expected scale"),
    }
    assert_eq!(nv(&cmd).icon_name, "check_circle");
    assert_eq!(nv(&cmd).spring, Some(Spring::expressive_spatial()));
    assert_eq!(nv(&cmd).vary_from.as_deref(), Some("wght:400,FILL:1"));
    assert_eq!(nv(&cmd).vary_to.as_deref(), Some("wght:700,FILL:0"));
}

#[test]
fn parse_pulse_with_variation_and_spring() {
    let cmd =
        Command::parse("Animate close: pulse using standard vary FILL:0 to FILL:1").unwrap();
    assert!(matches!(cmd, Command::PulseParts(..)));
    assert_eq!(nv(&cmd).icon_name, "close");
    assert_eq!(nv(&cmd).spring, Some(Spring::standard()));
    assert_eq!(nv(&cmd).vary_from.as_deref(), Some("FILL:0"));
    assert_eq!(nv(&cmd).vary_to.as_deref(), Some("FILL:1"));
}

#[test]
fn unknown_spring_fails_at_parse() {
    let r = Command::parse("Animate x: rotate 90 degrees using fancy");
    assert!(matches!(r, Err(Error::UnrecognizedSpring)));
}

#[test]
fn unknown_command_fails() {
    assert!(matches!(
        Command::parse("Animate x: wiggle"),
        Err(Error::UnrecognizedCommand)
    ));
    assert!(matches!(
        Command::parse("Render x: none"),
        Err(Error::UnrecognizedCommand)
    ));
}

#[test]
fn variation_parses_locations() {
    let cmd = Command::parse("Animate an_icon: vary FILL:0,wght:400 to FILL:1,wght:700.5").unwrap();
    let (from, to) = cmd.variation().unwrap();
    let fill = u32::from_be_bytes(*b"FILL");
    let wght = u32::from_be_bytes(*b"wght");
    assert_eq!(from, vec![(fill, 0), (wght, 400_000_000)]);
    assert_eq!(to, vec![(fill, 1_000_000), (wght, 700_500_000)]);
}

#[test]
fn variation_rejects_bad_tags_and_numbers() {
    let cmd = Command::parse("Animate an_icon: vary FULLL:1 to FULLL:2").unwrap();
    assert!(matches!(cmd.variation(), Err(Error::InvalidTag)));
    let cmd = Command::parse("Animate an_icon: vary FILL:x to FILL:1").unwrap();
    assert!(matches!(cmd.variation(), Err(Error::InvalidF64)));
    let cmd = Command::parse("Animate an_icon: vary FILL to FILL:1").unwrap();
    assert!(matches!(cmd.variation(), Err(Error::InvalidLocation)));
}

#[test]
fn parse_location_reads_exact_micro_values() {
    let v = iconimation::command::parse_location("wght:400,FILL:-0.5").unwrap();
    assert_eq!(v.len(), 2);
    let wght = (b'w' as u32) << 24 | (b'g' as u32) << 16 | (b'h' as u32) << 8 | (b't' as u32);
    let fill = (b'F' as u32) << 24 | (b'I' as u32) << 16 | (b'L' as u32) << 8 | (b'L' as u32);
    assert_eq!(v[0], (wght, 400_000_000));
    assert_eq!(v[1], (fill, -500_000));
    let one = iconimation::command::parse_location("slnt:+12.25").unwrap();
    assert_eq!(one, vec![((b's' as u32) << 24 | (b'l' as u32) << 16 | (b'n' as u32) << 8
        | (b't' as u32), 12_250_000)]);
}

#[test]
fn parse_location_rejects_malformed_pieces() {
    assert!(iconimation::command::parse_location("").is_err());
    assert!(iconimation::command::parse_location("wght:400,").is_err());
    assert!(iconimation::command::parse_location("wg:400").is_err());
    assert!(iconimation::command::parse_location("wght:4.0.0").is_err());
    assert!(iconimation::command::parse_location("wght:400:500").is_err());
}
