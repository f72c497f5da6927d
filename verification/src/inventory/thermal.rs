//! Schema of `thermal/thermal.toml`: the model caveats. (The cooling
//! constants are fractional and live with the binary.)

use vstd::prelude::*;

verus! {

/// Model caveats.
#[derive(Debug, Clone)]
pub struct Assumptions {
    /// Free-form caveat note.
    pub note: String,
}

} // verus!
