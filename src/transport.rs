//! The read-ahead buffer of a line transport: bytes received but not yet
//! taken as a CRLF-terminated line.

use vstd::prelude::*;
use vstd::utf8::{decode_utf8, valid_utf8};
use crate::error::Error;

verus! {

/// The number of reads that one line may take.
pub const MAX_READS: u32 = 100;

/// The text that `String::from_utf8_lossy` makes of some bytes.
pub uninterp spec fn lossy_text(b: Seq<u8>) -> Seq<char>;

/// Relies on `String::from_utf8_lossy`: the text of the bytes, with invalid
/// sequences replaced; bytes that are valid UTF-8 decode as they are.
#[verifier::external_body]
fn decode_lossy(b: &[u8]) -> (r: String)
    ensures
        r@ == lossy_text(b@),
        valid_utf8(b@) ==> r@ == decode_utf8(b@),
{
    String::from_utf8_lossy(b).into_owned()
}

/// A carriage return and a line feed stand at `i` in `b`.
pub open spec fn crlf_at(b: Seq<u8>, i: int) -> bool {
    0 <= i && i + 1 < b.len() && b[i] == 13u8 && b[i + 1] == 10u8
}

/// `b` holds a CRLF.
pub open spec fn has_crlf(b: Seq<u8>) -> bool {
    exists|i: int| crlf_at(b, i)
}

/// The first CRLF of `b` stands at `i`.
pub open spec fn first_crlf(b: Seq<u8>, i: int) -> bool {
    crlf_at(b, i) && forall|j: int| 0 <= j < i ==> !crlf_at(b, j)
}

/// The bytes of the first line of `b`, if `b` holds a complete line.
pub open spec fn next_line(b: Seq<u8>) -> Option<Seq<u8>> {
    if has_crlf(b) {
        Some(b.subrange(0, choose|i: int| first_crlf(b, i)))
    } else {
        None
    }
}

/// A CRLF stands at one place at most as the first.
pub proof fn lemma_first_crlf_unique(b: Seq<u8>, i: int, j: int)
    requires
        first_crlf(b, i),
        first_crlf(b, j),
    ensures
        i == j,
{
}

/// A buffer that holds a CRLF has a first one.
pub proof fn lemma_first_crlf_exists(b: Seq<u8>, k: int)
    requires
        crlf_at(b, k),
    ensures
        exists|i: int| first_crlf(b, i),
    decreases k,
{
    if exists|j: int| 0 <= j < k && crlf_at(b, j) {
        let j = choose|j: int| 0 <= j < k && crlf_at(b, j);
        lemma_first_crlf_exists(b, j);
    } else {
        assert(first_crlf(b, k));
    }
}

/// Bytes received before an upgrade never reach a line read after it: for
/// the buffer `after` that an upgrade gives, the next line after the bytes
/// `received` since then is the first line of `received` alone, and a part
/// of it, whatever the buffer before the upgrade held.
pub proof fn lemma_upgrade_discards_pending(after: LineBuffer, received: Seq<u8>)
    requires
        after.pending() == Seq::<u8>::empty(),
    ensures
        next_line(after.pending() + received) == next_line(received),
        next_line(received) matches Some(l) ==> received.subrange(0, l.len() as int) == l,
{
    assert(after.pending() + received =~= received);
    if has_crlf(received) {
        let k = choose|k: int| crlf_at(received, k);
        lemma_first_crlf_exists(received, k);
        let i = choose|i: int| first_crlf(received, i);
        assert(received.subrange(0, i).len() == i);
        assert(received.subrange(0, i) =~= received.subrange(0, i).subrange(0, i));
    }
}

/// What the buffer says when asked for a line.
#[derive(Debug)]
pub enum ReadStep {
    /// A complete line, its terminator taken off.
    Line(String),
    /// No complete line yet: read more bytes and feed them.
    Fill,
    /// The line took its number of reads.
    Timeout,
}

pub struct LineBuffer {
    buf: Vec<u8>,
    reads: u32,
}

impl LineBuffer {
    /// The bytes received but not yet taken.
    pub closed spec fn pending(&self) -> Seq<u8> {
        self.buf@
    }

    /// The reads made for the line being read.
    pub closed spec fn reads(&self) -> nat {
        self.reads as nat
    }

    pub fn new() -> (r: LineBuffer)
        ensures
            r.pending() == Seq::<u8>::empty(),
            r.reads() == 0,
    {
        LineBuffer { buf: Vec::new(), reads: 0 }
    }

    /// The buffer of the transport that replaces this one on an upgrade:
    /// what was pending is dropped.
    pub fn upgraded(self) -> (r: LineBuffer)
        ensures
            r.pending() == Seq::<u8>::empty(),
            r.reads() == 0,
    {
        LineBuffer::new()
    }

    /// Adds the bytes of one read; a read of no bytes means that the peer
    /// closed the channel.
    pub fn feed(&mut self, chunk: &[u8]) -> (r: Result<(), Error>)
        ensures
            chunk@.len() == 0 ==> (r matches Err(Error::ConnClosed) && *final(self) == *old(self)),
            chunk@.len() > 0 ==> {
                &&& r is Ok
                &&& final(self).pending() == old(self).pending() + chunk@
                &&& final(self).reads() == old(self).reads()
            },
    {
        if chunk.len() == 0 {
            return Err(Error::ConnClosed);
        }
        let ghost b = self.buf@;
        let mut i: usize = 0;
        while i < chunk.len()
            invariant
                i <= chunk@.len(),
                self.buf@ == b + chunk@.subrange(0, i as int),
                self.reads == old(self).reads,
            decreases chunk.len() - i,
        {
            self.buf.push(chunk[i]);
            i = i + 1;
            proof {
                assert(self.buf@ =~= b + chunk@.subrange(0, i as int));
            }
        }
        proof {
            assert(chunk@.subrange(0, i as int) =~= chunk@);
        }
        Ok(())
    }

    /// Takes the next complete line, or says whether to read more bytes.
    pub fn poll(&mut self) -> (r: ReadStep)
        ensures
            next_line(old(self).pending()) matches Some(line) ==> {
                &&& r matches ReadStep::Line(l) && l@ == lossy_text(line) && (valid_utf8(line)
                    ==> l@ == decode_utf8(line))
                &&& final(self).pending() == old(self).pending().skip(line.len() + 2int)
                &&& final(self).reads() == 0
            },
            !has_crlf(old(self).pending()) && old(self).reads() >= MAX_READS ==> {
                &&& r is Timeout
                &&& *final(self) == *old(self)
            },
            !has_crlf(old(self).pending()) && old(self).reads() < MAX_READS ==> {
                &&& r is Fill
                &&& final(self).pending() == old(self).pending()
                &&& final(self).reads() == old(self).reads() + 1
            },
    {
        let n = self.buf.len();
        let mut i: usize = 0;
        while i < n
            invariant
                i <= n == self.buf@.len(),
                self.buf@ == old(self).pending(),
                *self == *old(self),
                forall|j: int| 0 <= j < i ==> !crlf_at(self.buf@, j),
            decreases n - i,
        {
            if i + 1 < n && self.buf[i] == 13u8 && self.buf[i + 1] == 10u8 {
                let ghost b = self.buf@;
                let mut rest = self.buf.split_off(i + 2);
                let _terminator = self.buf.split_off(i);
                std::mem::swap(&mut self.buf, &mut rest);
                let line = decode_lossy(rest.as_slice());
                self.reads = 0;
                proof {
                    assert(first_crlf(b, i as int));
                    let k = choose|k: int| first_crlf(b, k);
                    lemma_first_crlf_unique(b, i as int, k);
                    assert(rest@ =~= b.subrange(0, i as int));
                    assert(self.buf@ =~= b.skip(i + 2));
                }
                return ReadStep::Line(line);
            }
            i = i + 1;
        }
        proof {
            assert forall|j: int| !crlf_at(self.buf@, j) by {
                if 0 <= j && j + 1 < n {
                    assert(j < i);
                }
                if !(0 <= j && j + 1 < n) {
                    assert(!crlf_at(self.buf@, j));
                }
            }
        }
        if self.reads >= MAX_READS {
            return ReadStep::Timeout;
        }
        self.reads = self.reads + 1;
        ReadStep::Fill
    }
}

} // verus!
