//! Defaults of the daemon's MCP tools.

use vstd::prelude::*;

verus! {

/// Maximum age, in days, of memory facts that a garbage-collection pass keeps by default.
pub fn default_max_age_days() -> (days: u64)
    ensures
        days == 90,
{
    90
}

} // verus!
