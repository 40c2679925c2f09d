use vstd::prelude::*;

verus! {

/// What one send of a command over the serial transport produced.
///
/// A successful read, even a partial one, yields `Responded` with the 64-byte
/// read window (the unread tail stays at its zeroed default); a read error or
/// timeout yields `Silent`. Reading fewer than 64 bytes is deliberately not
/// distinguished from reading all 64.
#[derive(Clone, Copy, Debug, PartialEq, Eq)]
pub enum Outcome {
    /// The device answered within the timeout; the payload is the read window.
    Responded([u8; 64]),
    /// Nothing arrived within the timeout, or the read failed.
    Silent,
}

/// Wire format of one request: the command bytes followed by a single
/// trailing carriage-return terminator.
pub open spec fn framed(command: Seq<u8>) -> Seq<u8> {
    command + seq![13u8]
}

/// Build the exact byte string that goes out on the wire for `command`.
pub fn frame_command(command: &Vec<u8>) -> (r: Vec<u8>)
    ensures
        r@ == framed(command@),
{
    let mut out = command.clone();
    proof {
        assert(out@ =~= command@);
    }
    out.push(13u8);
    out
}

} // verus!
