use vstd::prelude::*;

verus! {

/// The failure taxonomy of the fuzzer.
///
/// Setup-time failures (`ResourceError`, `DeviceNotFound`, `OpenError`) are
/// fatal to the surrounding program; `PersistenceError` during a fuzz run is
/// fatal too, since crash evidence must never be dropped silently.
/// `DecodeError` is recovered locally during replay: the offending log line is
/// skipped. Transport-level read or write failures are never surfaced as
/// errors; they fold into the `Silent` outcome.
#[derive(Clone, Copy, Debug, PartialEq, Eq, Structural)]
pub enum FuzzError {
    /// The word-list resource could not be read.
    ResourceError,
    /// The word-list resource holds no lines.
    EmptyResource,
    /// No enumerated device matches the requested identifier.
    DeviceNotFound,
    /// A matching device exists but could not be opened.
    OpenError,
    /// The crash log could not be written.
    PersistenceError,
    /// A crash-log line is not a well-formed escape encoding.
    DecodeError,
    /// There is no crash log to replay from.
    NoLogFound,
}

} // verus!
