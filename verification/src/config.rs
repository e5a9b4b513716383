//! Player configuration, persisted as a flat record with named fields by the
//! same external snapshot store that persists games.

use vstd::prelude::*;

verus! {

/// The configuration record. It is its own snapshot shape: one named integer
/// field, read and written whole by the external store.
#[derive(Clone, Copy, Debug, PartialEq, Eq, Structural)]
pub struct Config {
    pub test_int: i32,
}

} // verus!
