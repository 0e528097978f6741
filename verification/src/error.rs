//! The error values the channel can hand back.

use vstd::prelude::*;

verus! {

/// The caller attempted to receive a second message through a zero-copy
/// context, which may deliver at most one message over its lifetime.
#[derive(Clone, Copy, Debug, PartialEq, Eq, Structural)]
pub struct AlreadyReceived;

/// The caller attempted to send a message of zero encoded size, which the
/// framing cannot represent.
#[derive(Clone, Copy, Debug, PartialEq, Eq, Structural)]
pub struct ZeroSizedMessage;

/// The caller attempted to send a message whose encoded size can never fit
/// in the ring: a frame needs its size plus eight bytes of room.
#[derive(Clone, Copy, Debug, PartialEq, Eq, Structural)]
pub struct MessageTooLarge;

/// Why a send was rejected outright (as opposed to finding no room yet).
#[derive(Clone, Copy, Debug, PartialEq, Eq, Structural)]
pub enum SendError {
    ZeroSized(ZeroSizedMessage),
    TooLarge(MessageTooLarge),
}

} // verus!
