//! Limits, fees and the names of the contract's basic types.
use vstd::prelude::*;

verus! {

/// Longest title a project may have, in bytes.
pub const MAX_TITLE_LENGTH: usize = 100;

/// Gas attached to the callback that settles a reward transfer.
pub const DEFAULT_GAS_FEE: Gas = 20_000_000_000_000;

/// One NEAR in yoctoNEAR.
pub const NEAR_DECIMAL: Balance = 1_000_000_000_000_000_000_000_000;

/// Identifier of a project.
pub type ProjectId = String;

/// Identifier of an account.
pub type AccountId = String;

/// An amount of yoctoNEAR.
pub type Balance = u128;

/// Gas units.
pub type Gas = u64;

/// Nanoseconds since the Unix epoch.
pub type Timestamp = u64;

/// A span of nanoseconds.
pub type Duration = u64;

} // verus!
