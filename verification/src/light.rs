//! Kinds of light sources.
use vstd::prelude::*;

verus! {

/// The kind of a light source.
#[derive(Debug, Clone, Copy, PartialEq, Eq, Structural)]
pub enum LightType {
    Directional,
    Point,
    Spot,
}

} // verus!
