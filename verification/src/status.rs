//! Result codes of the C interface.

use vstd::prelude::*;

verus! {

/// The call did what it was asked to.
pub const STATUS_OK: i32 = 0;

/// The arguments do not describe a supported call.
pub const STATUS_INVALID_ARGUMENT: i32 = -1;

/// The device or its executor failed.
pub const STATUS_EXECUTION_ERROR: i32 = -3;

} // verus!
