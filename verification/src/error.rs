//! The failure conditions the core can surface.

use vstd::prelude::*;

verus! {

/// Every failure a core operation can report. All conditions are local,
/// synchronous and deterministic; a caller either validates inputs first or
/// handles the value immediately.
#[derive(Clone, Copy, Debug, PartialEq, Eq, Structural)]
pub enum PhysError {
    /// A vector was divided by the zero scalar.
    InvalidOperation,
    /// A particle's mass was set to zero or negative through the normal mass
    /// setter; infinite mass has its own construction path.
    InvalidMass,
    /// A registration to remove does not exist in the registry.
    NotFound,
}

} // verus!
