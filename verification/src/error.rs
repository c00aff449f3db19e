//! Error kinds reported by the library.

use vstd::prelude::*;
use crate::coords::BlockCoords;

verus! {

/// The failure taxonomy of the analysis.
///
/// `MalformedInput` covers corrupt container or tree bytes; decoding assumes
/// well-formed data and gives up on anything else. `InconsistentTopology`
/// means the track walker found no valid continuation at the recorded
/// coordinates, which signals bad input data rather than a recoverable edge
/// case. `SearchLimitExceeded` is returned when a walk or an exploration runs
/// past its step budget, which can only happen when the scanned network
/// violates the tool's structural assumptions (for example a rail loop that
/// reaches no station or switch).
#[derive(Debug, Clone, Copy, PartialEq, Eq, Structural)]
pub enum Error {
    MalformedInput,
    InconsistentTopology(BlockCoords),
    SearchLimitExceeded,
}

} // verus!
