//! Enumerations of the renderer's configuration.

use vstd::prelude::*;

verus! {

/// How shadow maps are filtered.
#[derive(PartialEq, Eq, Structural, Debug, Clone, Copy)]
pub enum ShadowFilteringMethod {
    /// Hardware 2x2: fast but poor quality.
    Hardware2x2,
    /// Ignacio Castano's filter with 9 samples, as good as a 5x5 kernel.
    Castano13,
}

/// How the floor is drawn.
#[derive(PartialEq, Eq, Structural, Debug, Clone, Copy)]
pub enum FloorType {
    Solid,
    Grid,
}

/// The texture of the floor.
#[derive(PartialEq, Eq, Structural, Debug, Clone, Copy)]
pub enum FloorTexture {
    /// No texture (named `none` in configuration files).
    Untextured,
    Checkerboard,
}

/// How much is logged.
#[derive(PartialEq, Eq, Structural, Debug, Clone, Copy)]
pub enum LogLevel {
    Off,
    Error,
    Warn,
    Info,
    Debug,
    Trace,
}

} // verus!
