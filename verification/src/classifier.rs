use vstd::prelude::*;

use crate::transport::Outcome;

verus! {

/// The liveness classification derived from one transport outcome.
#[derive(Clone, Copy, Debug, PartialEq, Eq, Structural)]
pub enum Classification {
    /// The device answered: the payload is not fatal.
    Stable,
    /// The device stayed silent within the timeout: taken as crash evidence.
    Crashed,
}

/// The classification depends on the outcome's variant alone, never on the
/// content of a response.
pub open spec fn classify_spec(outcome: Outcome) -> Classification {
    match outcome {
        Outcome::Responded(_) => Classification::Stable,
        Outcome::Silent => Classification::Crashed,
    }
}

/// Map a transport outcome to a liveness classification: any response, whatever its
/// bytes, is `Stable`; silence is `Crashed`, unconditionally. This is a
/// deliberate heuristic with no confirmation retry: a device that is merely
/// slow is indistinguishable from one that crashed.
pub fn classify(outcome: &Outcome) -> (c: Classification)
    ensures
        c == classify_spec(*outcome),
        c is Stable <==> outcome is Responded,
        c is Crashed <==> outcome is Silent,
{
    match outcome {
        Outcome::Responded(_) => Classification::Stable,
        Outcome::Silent => Classification::Crashed,
    }
}

} // verus!
