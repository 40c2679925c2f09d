use vstd::prelude::*;

use crate::classifier::{classify, Classification};
use crate::codec::escape_seq;
use crate::crash_log::CrashLog;
use crate::transport::Outcome;

verus! {

/// What one fuzz session did.
#[derive(Clone, Copy, Debug, PartialEq, Eq)]
pub struct FuzzReport {
    /// How many generate/send/classify iterations ran.
    pub iterations: usize,
    /// The position of the command whose outcome classified as crashed,
    /// if one did.
    pub crashed: Option<usize>,
}

/// The fuzz loop's single-state machine, run over a schedule of commands and
/// the outcome each send produced: every iteration classifies one outcome;
/// a stable classification re-enters the loop, and the first crashed classification records
/// the command in the crash log and terminates — the loop has no other exit.
pub fn run_fuzz(commands: &Vec<Vec<u8>>, outcomes: &Vec<Outcome>, log: &mut CrashLog) -> (r:
    FuzzReport)
    requires
        commands@.len() == outcomes@.len(),
    ensures
        match r.crashed {
            Some(k) => {
                &&& k < commands@.len()
                &&& r.iterations == k + 1
                &&& outcomes@[k as int] is Silent
                &&& forall|j: int| 0 <= j < k ==> outcomes@[j] is Responded
                &&& final(log)@ == old(log)@.push(escape_seq(commands@[k as int]@))
            },
            None => {
                &&& r.iterations == commands@.len()
                &&& forall|j: int| 0 <= j < outcomes@.len() ==> outcomes@[j] is Responded
                &&& final(log)@ == old(log)@
            },
        },
{
    let n = commands.len();
    let mut i: usize = 0;
    while i < n
        invariant
            i <= n,
            n == commands@.len(),
            outcomes@.len() == n,
            forall|j: int| 0 <= j < i ==> outcomes@[j] is Responded,
            log@ == old(log)@,
        decreases n - i,
    {
        let classification = classify(&outcomes[i]);
        match classification {
            Classification::Stable => {
                i += 1;
            },
            Classification::Crashed => {
                let _ = log.record(&commands[i]);
                return FuzzReport { iterations: i + 1, crashed: Some(i) };
            },
        }
    }
    FuzzReport { iterations: n, crashed: None }
}

} // verus!
