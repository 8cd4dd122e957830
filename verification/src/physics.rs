//! The default physics backend.

use vstd::prelude::*;

verus! {

/// Default kinematic backend with circle-vs-shape push-out collision.
/// Deterministic: no randomness, fixed iteration order. Its integration
/// step works in floating point and is provided by the application.
#[derive(Clone, Copy, Debug, Default)]
pub struct SimplePhysics;

} // verus!
