//! Compile a glyph of a variable icon font into an animated vector artifact.
//!
//! The pipeline resolves an icon name to a glyph, extracts its outline as a
//! cubic-bezier path in scene coordinates, optionally splits the outline into
//! perceptual parts by a fill-winding analysis, builds a keyframed
//! intermediate scene graph, synthesizes motion curves (optionally from a
//! damped-spring simulation), and lowers the graph to a Lottie document or an
//! Android Vector Drawable.
//!
//! All quantities are fixed-point micro-units (see [`fixed`]); font table
//! decoding, file handling and JSON/XML serialization live outside this crate
//! and exchange plain values with it.

pub mod android;
pub mod animator;
pub mod command;
pub mod error;
pub mod fixed;
pub mod ir;
pub mod geom;
pub mod grouping;
pub mod keyframed;
pub mod ligate;
pub mod lottie;
pub mod spring;
pub mod winding;
pub mod spring2cubic;

use vstd::prelude::*;

verus! {

/// Relies on `String::push`: appends one character to the string.
#[verifier::external_body]
pub(crate) fn push_char(s: &mut String, c: char)
    ensures
        final(s)@ == old(s)@.push(c),
{
    s.push(c);
}

/// The palette color assigned to the `n`-th part group.
pub open spec fn spec_nth_group_color(n: int) -> (u8, u8, u8) {
    let i = n % 9;
    if i == 0 {
        (0xEF, 0x53, 0x50)
    } else if i == 1 {
        (0xEC, 0x40, 0x7A)
    } else if i == 2 {
        (0xAB, 0x47, 0xBC)
    } else if i == 3 {
        (0xE5, 0x39, 0x35)
    } else if i == 4 {
        (0xD8, 0x1B, 0x60)
    } else if i == 5 {
        (0x8E, 0x24, 0xAA)
    } else if i == 6 {
        (0xC6, 0x28, 0x28)
    } else if i == 7 {
        (0xAD, 0x14, 0x57)
    } else {
        (0x6A, 0x1B, 0x9A)
    }
}

/// Rotating debug palette: the fill given to the `n`-th part group.
pub fn nth_group_color(n: usize) -> (rgb: (u8, u8, u8))
    ensures
        rgb == spec_nth_group_color(n as int),
{
    let i = n % 9;
    if i == 0 {
        (0xEF, 0x53, 0x50)
    } else if i == 1 {
        (0xEC, 0x40, 0x7A)
    } else if i == 2 {
        (0xAB, 0x47, 0xBC)
    } else if i == 3 {
        (0xE5, 0x39, 0x35)
    } else if i == 4 {
        (0xD8, 0x1B, 0x60)
    } else if i == 5 {
        (0x8E, 0x24, 0xAA)
    } else if i == 6 {
        (0xC6, 0x28, 0x28)
    } else if i == 7 {
        (0xAD, 0x14, 0x57)
    } else {
        (0x6A, 0x1B, 0x9A)
    }
}

} // verus!
