//! The explainer of a discard ranking; what it writes weighs expected values.
use vstd::prelude::*;

verus! {

/// Writes why the best discard of a ranking is best.
///
/// The type holds no state. The ranking it explains is ordered by expected
/// values, which are floating point, so the wording is done by methods that
/// the application layer gives this type.
pub struct Explainer;

} // verus!
