use vstd::prelude::*;

verus! {

/// Relies on rand::random_range: a value drawn uniformly from `0..n`.
/// The range must be non-empty, since rand panics on an empty range.
#[verifier::external_body]
pub(crate) fn random_index(n: usize) -> (r: usize)
    requires
        n > 0,
    ensures
        r < n,
{
    rand::random_range(0..n)
}

/// Relies on rand::random: a uniformly distributed boolean (a fair coin).
/// Nothing can be promised of a random value.
#[verifier::external_body]
pub(crate) fn coin_flip() -> (r: bool) {
    rand::random::<bool>()
}

/// Relies on rand::random: a uniformly distributed byte.
/// Nothing can be promised of a random value.
#[verifier::external_body]
pub(crate) fn random_octet() -> (r: u8) {
    rand::random::<u8>()
}

/// How many rejected samples the padding draw tolerates before it falls back.
const REJECTION_BOUND: usize = 4096;

/// A uniformly random byte that is not the carriage-return terminator:
/// samples are rejected and redrawn while they equal 0x0D. The redraw loop
/// is bounded so that termination can be shown; drawing 0x0D this many times
/// in a row has probability 256^-4096, and only then does the draw fall back
/// to a fixed byte.
pub(crate) fn random_payload_byte() -> (r: u8)
    ensures
        r != 13u8,
{
    let mut attempts: usize = 0;
    while attempts < REJECTION_BOUND
        invariant
            attempts <= REJECTION_BOUND,
        decreases REJECTION_BOUND - attempts,
    {
        let b = random_octet();
        if b != 13 {
            return b;
        }
        attempts += 1;
    }
    0
}

} // verus!
