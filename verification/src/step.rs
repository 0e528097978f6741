//! The sender's and consumer's decisions as pure functions of the cursor
//! values.
//!
//! The verified [`crate::ring::RingBuffer`] acts on these decisions
//! directly.  A deployment that maps the ring into several processes makes
//! the same calls with the cursor values it loads from the shared header,
//! so the protocol choices live here, once, with exact contracts.

use vstd::prelude::*;

verus! {

/// What a producer should do next, given the cursors it read under the
/// header lock.
#[derive(Clone, Copy, Debug, PartialEq, Eq, Structural)]
pub enum SendStep {
    /// Write the frame at this position and advance `write` past it.
    WriteAt(u32),
    /// Write a wrap sentinel at this position, reset `write` to the start
    /// of the ring, and reconsider.
    WrapAt(u32),
    /// No room yet: wait for the consumer to advance `read`.
    Wait,
}

/// What the consumer should do next, given the cursors and the size prefix
/// decoded at `read`.
#[derive(Clone, Copy, Debug, PartialEq, Eq, Structural)]
pub enum RecvStep {
    /// Nothing unreceived: wait or give up.
    Empty,
    /// A value frame: its payload spans this half-open byte range.
    Frame(u32, u32),
    /// A wrap sentinel: reset `read` to the start of the ring and
    /// reconsider.
    WrapReset,
    /// A zero size prefix while the writer is at or ahead of the reader:
    /// the region was corrupted by something outside the protocol.
    Corrupt,
}

/// The producer's eligibility rule.  `beginning` is the offset of the
/// first ring byte, `len` the whole region's size, and `size` the encoded
/// size of the message; the frame needs `size + 8` bytes of contiguous
/// room, keeping four bytes past every frame free for a later sentinel.
/// In wait-until-empty mode the producer only proceeds on an empty ring.
pub open spec fn send_step_spec(
    beginning: int,
    len: int,
    read: int,
    write: int,
    size: int,
    when_empty: bool,
) -> SendStep {
    if write == read || (write > read && !when_empty) {
        if write + size + 8 <= len {
            SendStep::WriteAt(write as u32)
        } else if read != beginning {
            SendStep::WrapAt(write as u32)
        } else {
            SendStep::Wait
        }
    } else if write + size + 8 <= read && !when_empty {
        SendStep::WriteAt(write as u32)
    } else {
        SendStep::Wait
    }
}

/// Decides the producer's next move; see [`send_step_spec`].
pub fn send_step(
    beginning: u32,
    len: u32,
    read: u32,
    write: u32,
    size: u32,
    when_empty: bool,
) -> (r: SendStep)
    ensures
        r == send_step_spec(
            beginning as int,
            len as int,
            read as int,
            write as int,
            size as int,
            when_empty,
        ),
{
    let needed: u64 = size as u64 + 8;
    if write == read || (write > read && !when_empty) {
        if write as u64 + needed <= len as u64 {
            SendStep::WriteAt(write)
        } else if read != beginning {
            SendStep::WrapAt(write)
        } else {
            SendStep::Wait
        }
    } else if write as u64 + needed <= read as u64 && !when_empty {
        SendStep::WriteAt(write)
    } else {
        SendStep::Wait
    }
}

/// The consumer's rule for one decoded size prefix: equal cursors mean an
/// empty ring; a positive size is a value frame; a zero size is the wrap
/// sentinel when the writer is behind the reader and corruption otherwise.
pub open spec fn recv_step_spec(read: int, write: int, size: int) -> RecvStep {
    if read == write {
        RecvStep::Empty
    } else if size > 0 {
        RecvStep::Frame((read + 4) as u32, (read + 4 + size) as u32)
    } else if write < read {
        RecvStep::WrapReset
    } else {
        RecvStep::Corrupt
    }
}

/// Decides the consumer's next move; see [`recv_step_spec`].
pub fn recv_step(read: u32, write: u32, size: u32) -> (r: RecvStep)
    requires
        read + 4 + size <= u32::MAX,
    ensures
        r == recv_step_spec(read as int, write as int, size as int),
{
    if read == write {
        RecvStep::Empty
    } else if size > 0 {
        RecvStep::Frame(read + 4, read + 4 + size)
    } else if write < read {
        RecvStep::WrapReset
    } else {
        RecvStep::Corrupt
    }
}

} // verus!
