use vstd::prelude::*;

use crate::classifier::{classify, Classification};
use crate::codec::{decodable, unescape, unescape_seq};
use crate::errors::FuzzError;
use crate::transport::Outcome;

verus! {

/// What a replay session concluded.
#[derive(Debug, PartialEq, Eq)]
pub enum ReplayFinding {
    /// The first decodable log line whose replayed outcome classified as
    /// crashed, with its decoded command: the confirmed reproducer.
    Reproduced { line_index: usize, command: Vec<u8> },
    /// Every decodable line now classifies as stable.
    NoneReproduced,
}

/// The result of one replay session.
#[derive(Debug, PartialEq, Eq)]
pub struct ReplayReport {
    pub finding: ReplayFinding,
    /// How many transport sends the session performed.
    pub sends: usize,
}

/// How many of the first `i` log lines decode, and so how many sends replay
/// performs before it reaches line `i`.
pub open spec fn sends_before(lines: Seq<Vec<u8>>, i: int) -> int
    decreases i,
{
    if i <= 0 {
        0
    } else {
        sends_before(lines, i - 1) + if decodable(lines[i - 1]@) {
            1int
        } else {
            0int
        }
    }
}

proof fn lemma_sends_before_bounds(lines: Seq<Vec<u8>>, i: int, j: int)
    requires
        0 <= i <= j,
    ensures
        0 <= sends_before(lines, i) <= sends_before(lines, j) <= j,
    decreases j,
{
    if j > 0 {
        if i == j {
            lemma_sends_before_bounds(lines, i - 1, j - 1);
        } else {
            lemma_sends_before_bounds(lines, i, j - 1);
        }
    }
}

/// Whether a replay report is the correct report for the given log lines,
/// when the `k`-th send of the session came back with outcome `outcomes[k]`:
/// the session walks the lines in file order, skips the ones that fail to
/// decode, sends each decoded command, and stops at the first whose outcome
/// classifies as crashed — lines after the reproducer are never sent.
pub open spec fn replay_report_correct(
    lines: Seq<Vec<u8>>,
    outcomes: Seq<Outcome>,
    report: ReplayReport,
) -> bool {
    match report.finding {
        ReplayFinding::Reproduced { line_index, command } => {
            &&& line_index < lines.len()
            &&& decodable(lines[line_index as int]@)
            &&& unescape_seq(lines[line_index as int]@) == Some(command@)
            &&& outcomes[sends_before(lines, line_index as int)] is Silent
            &&& forall|j: int|
                0 <= j < line_index && decodable(lines[j]@) ==> outcomes[sends_before(
                    lines,
                    j,
                )] is Responded
            &&& report.sends == sends_before(lines, line_index as int) + 1
        },
        ReplayFinding::NoneReproduced => {
            &&& forall|j: int|
                0 <= j < lines.len() && decodable(lines[j]@) ==> outcomes[sends_before(
                    lines,
                    j,
                )] is Responded
            &&& report.sends == sends_before(lines, lines.len() as int)
        },
    }
}

/// Replay the crash log against a schedule of transport outcomes. With no
/// log at all the session fails with `NoLogFound` and performs no transport
/// activity; otherwise it reads the lines in file order, skips every line
/// that fails to decode, and reports the first decoded line whose outcome
/// classifies as crashed, or that none reproduced.
#[verifier::loop_isolation(false)]
pub fn run_replay(log: Option<&Vec<Vec<u8>>>, outcomes: &Vec<Outcome>) -> (r: Result<
    ReplayReport,
    FuzzError,
>)
    requires
        log matches Some(lines) ==> outcomes@.len() >= sends_before(
            lines@,
            lines@.len() as int,
        ),
    ensures
        log is None <==> r is Err,
        r matches Err(e) ==> e == FuzzError::NoLogFound,
        match (log, r) {
            (Some(lines), Ok(report)) => replay_report_correct(lines@, outcomes@, report),
            _ => true,
        },
{
    let lines = match log {
        None => {
            return Err(FuzzError::NoLogFound);
        },
        Some(lines) => lines,
    };
    let n = lines.len();
    let mut sends: usize = 0;
    let mut i: usize = 0;
    while i < n
        invariant
            i <= n,
            n == lines@.len(),
            outcomes@.len() >= sends_before(lines@, n as int),
            sends == sends_before(lines@, i as int),
            0 <= sends_before(lines@, i as int) <= i,
            forall|j: int|
                0 <= j < i && decodable(lines@[j]@) ==> outcomes@[sends_before(
                    lines@,
                    j,
                )] is Responded,
        decreases n - i,
    {
        match unescape(&lines[i]) {
            Err(_) => {
                proof {
                    assert(sends_before(lines@, i as int + 1) == sends_before(lines@, i as int));
                }
                i += 1;
            },
            Ok(command) => {
                proof {
                    assert(sends_before(lines@, i as int + 1) == sends_before(lines@, i as int)
                        + 1);
                    lemma_sends_before_bounds(lines@, i as int + 1, n as int);
                }
                let classification = classify(&outcomes[sends]);
                match classification {
                    Classification::Crashed => {
                        return Ok(
                            ReplayReport {
                                finding: ReplayFinding::Reproduced { line_index: i, command },
                                sends: sends + 1,
                            },
                        );
                    },
                    Classification::Stable => {
                        sends += 1;
                        i += 1;
                    },
                }
            },
        }
    }
    Ok(ReplayReport { finding: ReplayFinding::NoneReproduced, sends })
}

} // verus!
