//! The zero-copy receive discipline.
//!
//! A [`ZeroCopyContext`] takes the ring from the consumer for the
//! duration of one borrowed receive.  It may decode at most one message;
//! the read cursor is not advanced at decode time but only when the
//! context is released, so the decoded bytes stay valid — a producer
//! cannot overwrite them — until the borrow ends.  Releasing the context
//! hands the ring back, acknowledging the message if one was decoded.

use crate::error::AlreadyReceived;
use crate::ring::RingBuffer;
use vstd::prelude::*;

verus! {

/// A scoped borrow of the ring for one deferred-acknowledge receive.
pub struct ZeroCopyContext {
    ring: RingBuffer,
    position: Option<u32>,
}

impl View for ZeroCopyContext {
    type V = Seq<Seq<u8>>;

    closed spec fn view(&self) -> Seq<Seq<u8>> {
        self.ring@
    }
}

impl ZeroCopyContext {
    /// Whether this context has already delivered its one message.
    pub closed spec fn used(self) -> bool {
        self.position is Some
    }

    /// The usable ring size in bytes.
    pub closed spec fn capacity(self) -> int {
        self.ring.capacity()
    }

    /// The ring is well formed and, once a message has been decoded, the
    /// stashed cursor position is exactly the end of its frame.
    pub closed spec fn wf(self) -> bool {
        &&& self.ring.wf()
        &&& self.position matches Some(p) ==> self@.len() > 0 && self.ring.head_ready() && p
            == self.ring.head_next()
    }

    /// Decodes the head message, remembering — but not yet applying — the
    /// cursor advance that will acknowledge it.  A second call fails with
    /// [`AlreadyReceived`] and changes nothing, the deferred advance
    /// included.
    pub fn try_recv(&mut self) -> (r: Result<Option<Vec<u8>>, AlreadyReceived>)
        requires
            old(self).wf(),
        ensures
            final(self).wf(),
            final(self)@ == old(self)@,
            final(self).capacity() == old(self).capacity(),
            r is Err <==> old(self).used(),
            r is Err ==> *final(self) == *old(self),
            r matches Ok(Some(v)) ==> v@ == old(self)@[0] && final(self).used(),
            r == Ok::<Option<Vec<u8>>, AlreadyReceived>(None) ==> old(self)@.len() == 0
                && !final(self).used(),
            r is Ok && old(self)@.len() > 0 ==> r matches Ok(Some(_)),
    {
        if self.position.is_some() {
            return Err(AlreadyReceived);
        }
        match self.ring.peek() {
            None => Ok(None),
            Some((v, p)) => {
                self.position = Some(p);
                Ok(Some(v))
            },
        }
    }

    /// Ends the borrow and hands the ring back.  If a message was decoded,
    /// its frame is acknowledged now: `read` moves past it and the message
    /// leaves the queue; otherwise the ring returns untouched.
    pub fn release(self) -> (r: RingBuffer)
        requires
            self.wf(),
        ensures
            r.wf(),
            r.capacity() == self.capacity(),
            self.used() ==> r@ == self@.drop_first(),
            !self.used() ==> r@ == self@,
    {
        let ZeroCopyContext { ring, position } = self;
        match position {
            None => ring,
            Some(p) => {
                let mut ring = ring;
                ring.seek(p);
                ring
            },
        }
    }
}

impl RingBuffer {
    /// Borrows this ring for one zero-copy receive; see
    /// [`ZeroCopyContext`].
    pub fn zero_copy_context(self) -> (r: ZeroCopyContext)
        requires
            self.wf(),
        ensures
            r.wf(),
            r@ == self@,
            r.capacity() == self.capacity(),
            !r.used(),
    {
        ZeroCopyContext { ring: self, position: None }
    }
}

} // verus!
