//! Persisted editor state.
use vstd::prelude::*;

verus! {

/// State whose change invalidates the path tracer's accumulated image.
///
/// By default no change does.
pub trait ShouldResetPathTracer {
    fn should_reset_path_tracer(&self, other: &Self) -> (r: bool)
        default_ensures
            !r,
    {
        false
    }
}

} // verus!
