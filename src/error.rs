//! The errors of a session.

use vstd::prelude::*;

verus! {

/// `std::io::Error`, carried unopened in `Error::IO`.
#[verifier::external_type_specification]
#[verifier::external_body]
pub struct ExIoError(std::io::Error);

/// Why a session or a delivery attempt stopped.
#[derive(Debug)]
pub enum Error {
    /// The channel failed to read or write.
    IO(std::io::Error),
    /// A write took fewer bytes than it was given: the amount given, the amount written.
    WriteAll(usize, usize),
    /// The peer closed the channel in the middle of a line.
    ConnClosed,
    /// A bounded loop ran out of turns.
    Timeout,
    /// The peer asked to end the session.
    Quit,
    /// The peer asked to upgrade the transport.
    StartTls,
    /// The transport could not be upgraded.
    FailedToStartTls,
    /// The peer broke the protocol.
    String(String),
}

/// Checks the byte counts of a line write: `written` of the text's
/// `requested` bytes, then `term_written` of the two terminator bytes.
pub fn check_written(requested: usize, written: usize, term_written: usize) -> (r: Result<(), Error>)
    ensures
        written < requested ==> (r matches Err(Error::WriteAll(a, b)) && a == requested && b
            == written),
        written >= requested && term_written < 2 ==> (r matches Err(Error::WriteAll(a, b)) && a
            == 2 && b == term_written),
        written >= requested && term_written >= 2 ==> r is Ok,
{
    if written < requested {
        return Err(Error::WriteAll(requested, written));
    }
    if term_written < 2 {
        return Err(Error::WriteAll(2, term_written));
    }
    Ok(())
}

} // verus!
