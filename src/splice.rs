//! Decisions of the bidirectional copy between two duplex byte streams.
use vstd::prelude::*;
use crate::model::PortType;

verus! {

/// Size of the buffer each direction reads into.
pub const BUFFER_SIZE: usize = 65536;

/// Idle limit, in milliseconds, of a read on a copy that involves a UDP carrier.
pub const UDP_IDLE_TIMEOUT_MS: u64 = 10_000;

/// One of the two streams of a copy.
#[derive(Clone, Copy, Debug, PartialEq, Eq, Structural)]
pub enum Side {
    First,
    Second,
}

pub open spec fn other(s: Side) -> Side {
    match s {
        Side::First => Side::Second,
        Side::Second => Side::First,
    }
}

/// How a read on one side ended.
#[derive(Clone, Copy, Debug, PartialEq, Eq, Structural)]
pub enum ReadOutcome {
    /// This many bytes were read into the front of the buffer.
    Data(usize),
    /// The read failed.
    Failed,
    /// No byte came within the idle limit.
    IdleTimeout,
}

/// What the copy does next.
#[derive(Clone, Copy, Debug, PartialEq, Eq, Structural)]
pub enum Step {
    /// Write the first `len` bytes of the buffer just read, in full, to side `to`.
    Write { to: Side, len: usize },
    /// Shut both streams down; the copy is over.
    ShutdownBoth,
}

/// The step that follows a read on side `from` into a buffer of `buf_len` bytes.
pub open spec fn after_read_spec(from: Side, outcome: ReadOutcome, buf_len: nat) -> Step {
    match outcome {
        ReadOutcome::Data(n) => if 0 < n <= buf_len {
            Step::Write { to: other(from), len: n }
        } else {
            Step::ShutdownBoth
        },
        _ => Step::ShutdownBoth,
    }
}

/// The step after a read on side `from` into a buffer of `buf_len` bytes: the bytes read
/// go to the other side, unchanged and in full; end of stream (a read of zero bytes), a
/// failure or an idle timeout ends the copy.
pub fn after_read(from: Side, outcome: ReadOutcome, buf_len: usize) -> (r: Step)
    ensures
        r == after_read_spec(from, outcome, buf_len as nat),
{
    match outcome {
        ReadOutcome::Data(n) => {
            if n > 0 && n <= buf_len {
                let to = match from {
                    Side::First => Side::Second,
                    Side::Second => Side::First,
                };
                Step::Write { to, len: n }
            } else {
                Step::ShutdownBoth
            }
        },
        _ => Step::ShutdownBoth,
    }
}

/// The step after a write: a failed write ends the copy.
pub fn after_write(ok: bool) -> (r: Option<Step>)
    ensures
        ok ==> r is None,
        !ok ==> r == Some(Step::ShutdownBoth),
{
    if ok {
        None
    } else {
        Some(Step::ShutdownBoth)
    }
}

/// The idle limit of the reads of a copy between carriers `a` and `b`: UDP carriers have
/// one, TCP carriers rely on end of stream.
pub fn idle_timeout_ms(a: PortType, b: PortType) -> (r: Option<u64>)
    ensures
        r is Some <==> a == PortType::Udp || b == PortType::Udp,
        r matches Some(ms) ==> ms == UDP_IDLE_TIMEOUT_MS,
{
    if a == PortType::Udp || b == PortType::Udp {
        Some(UDP_IDLE_TIMEOUT_MS)
    } else {
        None
    }
}

/// The bytes that the writes of a copy deliver to one side, for the successive reads
/// `reads` on the other side (each a buffer and the count the read returned), up to the
/// first read that ends the copy.
pub open spec fn delivered(reads: Seq<(Seq<u8>, usize)>) -> Seq<u8>
    decreases reads.len(),
{
    if reads.len() == 0 {
        Seq::empty()
    } else {
        let (buf, n) = reads[0];
        match after_read_spec(Side::First, ReadOutcome::Data(n), buf.len()) {
            Step::Write { len, .. } => buf.take(len as int) + delivered(reads.skip(1)),
            Step::ShutdownBoth => Seq::empty(),
        }
    }
}

/// The bytes that the reads `reads` return, up to the first end of stream.
pub open spec fn received(reads: Seq<(Seq<u8>, usize)>) -> Seq<u8>
    decreases reads.len(),
{
    if reads.len() == 0 {
        Seq::empty()
    } else {
        let (buf, n) = reads[0];
        if n == 0 || n > buf.len() {
            Seq::empty()
        } else {
            buf.take(n as int) + received(reads.skip(1))
        }
    }
}


/// Byte transparency: what a copy writes to one side is exactly what it read from the
/// other, in order, up to the end of stream.
pub proof fn lemma_byte_transparency(reads: Seq<(Seq<u8>, usize)>)
    ensures
        delivered(reads) == received(reads),
    decreases reads.len(),
{
    if reads.len() > 0 {
        lemma_byte_transparency(reads.skip(1));
    }
}

} // verus!
