//! The toggle-entry request surface.

use vstd::prelude::*;

verus! {

/// Form body of the toggle request: which routine, which day.
pub struct ToggleEntryRequest {
    pub date: i64,
    pub routine_id: String,
}

} // verus!
