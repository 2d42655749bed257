//! The create-routine request surface.

use vstd::prelude::*;

verus! {

/// Form body of the create-routine request.
pub struct CreateRoutineRequest {
    pub title: String,
    pub color: String,
}

} // verus!
