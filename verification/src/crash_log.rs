use vstd::prelude::*;

use crate::codec::{escape, escape_seq};

verus! {

/// The append-only record of crash-triggering commands.
///
/// Each entry is one escape-encoded line; append is the only mutation — no
/// deduplication, no rotation, no truncation. The log models the persisted
/// file: the caller owns the backing file, creates it lazily on the first
/// record and mirrors every appended line to it, so one process is the one
/// writer by construction.
pub struct CrashLog {
    lines: Vec<Vec<u8>>,
}

impl View for CrashLog {
    type V = Seq<Seq<u8>>;

    closed spec fn view(&self) -> Seq<Seq<u8>> {
        self.lines.deep_view()
    }
}

impl CrashLog {
    /// An empty log: nothing has crashed yet.
    pub fn new() -> (r: CrashLog)
        ensures
            r@ == Seq::<Seq<u8>>::empty(),
    {
        let log = CrashLog { lines: Vec::new() };
        proof {
            assert(log@ =~= Seq::<Seq<u8>>::empty());
        }
        log
    }

    /// Rebuild the in-memory model from lines read back from the persisted
    /// file.
    pub fn from_lines(lines: Vec<Vec<u8>>) -> (r: CrashLog)
        ensures
            r@ == lines.deep_view(),
    {
        CrashLog { lines }
    }

    /// How many lines the log holds.
    pub fn len(&self) -> (n: usize)
        ensures
            n == self@.len(),
    {
        self.lines.len()
    }

    /// The encoded line at position `i`, in append order.
    pub fn line_at(&self, i: usize) -> (line: &Vec<u8>)
        requires
            i < self@.len(),
        ensures
            line@ == self@[i as int],
    {
        &self.lines[i]
    }

    /// Append the escape-encoded rendering of a crash-triggering command.
    /// Returns a copy of the appended line so that the caller can mirror it
    /// to the persisted file.
    pub fn record(&mut self, command: &Vec<u8>) -> (line: Vec<u8>)
        ensures
            final(self)@ == old(self)@.push(escape_seq(command@)),
            line@ == escape_seq(command@),
    {
        let line = escape(command);
        let stored = escape(command);
        self.lines.push(stored);
        proof {
            assert(self@ =~~= old(self)@.push(escape_seq(command@)));
        }
        line
    }
}

} // verus!
