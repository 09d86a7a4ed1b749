//! Error types surfaced at the component boundaries of the pipeline.

use vstd::prelude::*;
use crate::geom::BezPath;
use crate::keyframed::Keyframed;

verus! {

/// Errors of command parsing and animation planning.
#[derive(Debug, Clone, PartialEq, Eq)]
pub enum Error {
    /// The requested glyph has no outline.
    NoOutline(u32),
    /// Resolving the icon name failed.
    IconNameError(IconNameError),
    /// A `vary` clause is not a csv of `tag:value` pairs.
    InvalidLocation,
    /// An axis tag is not four ASCII characters.
    InvalidTag,
    /// A numeric field of the command does not parse.
    InvalidF64,
    /// The command matches no rule of the grammar.
    UnrecognizedCommand,
    /// The `using` clause names no known spring preset.
    UnrecognizedSpring,
}

/// Errors of spring construction.
#[derive(Debug, Clone, PartialEq, Eq, Structural)]
pub enum SpringBuildError {
    /// Damping must be `>= 0`.
    InvalidDamping,
}

/// Errors of icon-name to glyph resolution.
#[derive(Debug, Clone, PartialEq, Eq)]
pub enum IconNameError {
    /// No character mapping for this character.
    UnmappedCharError(char),
    /// The icon name resolved to zero glyph ids.
    NoGlyphIds(String),
    /// No ligature substitution produces a glyph for this name.
    NoLigature(String),
    /// A codepoint written as hex digits did not parse.
    InvalidCodepoint(String),
    /// The codepoint has no character mapping.
    UnmappedCodepoint(u32),
}

/// Errors of building the intermediate scene graph.
#[derive(Debug, Clone, PartialEq, Eq, Structural)]
pub enum AnimationError {
    /// A keyframed series must have at least one keyframe.
    NoKeyframes,
    /// Two keyframes share one frame number (carried in micro-frames).
    MultipleValuesForFrame(i64),
}

/// Errors of lowering the scene graph to a Lottie document.
#[derive(Debug, Clone)]
pub enum LottieError {
    /// The keyframes of a shape do not share one path-operation kind sequence.
    IncompatiblePaths(Keyframed<BezPath>),
    /// Expanding a spring into cubic segments failed.
    CubicApproximation(crate::error::CubicApproximationError),
}

/// Errors of lowering the scene graph to an Android Vector Drawable.
#[derive(Debug, Clone, PartialEq, Eq, Structural)]
pub enum AndroidError {
    /// A coordinate left the range the serializer can format.
    UnformattableValue,
}

/// Errors of approximating a spring by cubic easing segments.
#[derive(Debug, Clone, PartialEq, Eq, Structural)]
pub enum CubicApproximationError {
    /// Only the named presets carry a hand-tuned curve.
    UnrecognizedSpring,
    /// The spring did not reach equilibrium within the time cap.
    RanTooLong,
}

} // verus!
