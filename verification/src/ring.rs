//! The verified ring buffer protocol.
//!
//! A [`RingBuffer`] models the shared region of the channel: a byte buffer
//! whose first [`BEGINNING`] bytes stand for the header that precedes the
//! ring in the mapped layout, a `read` cursor owned by the single consumer,
//! and a `write` cursor advanced by producers.  Frames are laid out as a
//! four-byte little-endian size followed by the payload; a size of zero is
//! the wrap sentinel that sends the consumer back to [`BEGINNING`].
//!
//! The abstract state (the view) is the queue of messages sent but not yet
//! received.  Well-formedness ties the queue to the bytes: the frames of
//! the queued messages tile the region between the cursors, either directly
//! (`read <= write`) or split around a wrap sentinel (`write < read`).

use crate::codec;
use crate::codec::le_bytes;
use crate::error::{MessageTooLarge, SendError, ZeroSizedMessage};
use crate::step;
use crate::step::SendStep;
use vstd::prelude::*;

verus! {

/// The offset of the first ring byte: the bytes below it stand for the
/// header (cursors and synchronization state) of the mapped region.
pub const BEGINNING: u32 = 8;

/// Whether the frames encoding `msgs`, laid end to end, exactly tile
/// `buf[pos..end]`.
pub open spec fn frames_from(buf: Seq<u8>, pos: int, end: int, msgs: Seq<Seq<u8>>) -> bool
    decreases msgs.len(),
{
    if msgs.len() == 0 {
        pos == end
    } else {
        let m = msgs[0];
        &&& 1 <= m.len()
        &&& pos + 4 + m.len() <= end
        &&& buf.subrange(pos, pos + 4) == le_bytes(m.len() as u32)
        &&& buf.subrange(pos + 4, pos + 4 + m.len()) == m
        &&& frames_from(buf, pos + 4 + m.len(), end, msgs.drop_first())
    }
}

/// Frame tilings only depend on the bytes they cover.
pub proof fn lemma_frames_unchanged(b1: Seq<u8>, b2: Seq<u8>, pos: int, end: int, msgs: Seq<
    Seq<u8>,
>)
    requires
        frames_from(b1, pos, end, msgs),
        0 <= pos,
        end <= b1.len(),
        end <= b2.len(),
        forall|i: int| pos <= i < end ==> b1[i] == b2[i],
    ensures
        frames_from(b2, pos, end, msgs),
    decreases msgs.len(),
{
    if msgs.len() != 0 {
        let m = msgs[0];
        assert(b2.subrange(pos, pos + 4) =~= b1.subrange(pos, pos + 4));
        assert(b2.subrange(pos + 4, pos + 4 + m.len()) =~= b1.subrange(pos + 4, pos + 4 + m.len()));
        lemma_frames_unchanged(b1, b2, pos + 4 + m.len(), end, msgs.drop_first());
    }
}

/// A tiling never runs backwards: its start is at or before its end.
pub proof fn lemma_frames_bounds(buf: Seq<u8>, pos: int, end: int, msgs: Seq<Seq<u8>>)
    requires
        frames_from(buf, pos, end, msgs),
    ensures
        pos <= end,
{
    // Either the tiling is empty and the ends meet, or the head frame's
    // extent already lies between them; the case split unfolds the
    // definition.
    if msgs.len() == 0 {
    }
}

/// Appending one frame after a tiling extends it by one message.
pub proof fn lemma_frames_append(buf: Seq<u8>, pos: int, end: int, msgs: Seq<Seq<u8>>, m: Seq<u8>)
    requires
        frames_from(buf, pos, end, msgs),
        1 <= m.len(),
        m.len() <= u32::MAX,
        buf.subrange(end, end + 4) == le_bytes(m.len() as u32),
        buf.subrange(end + 4, end + 4 + m.len()) == m,
    ensures
        frames_from(buf, pos, end + 4 + m.len(), msgs.push(m)),
    decreases msgs.len(),
{
    if msgs.len() == 0 {
        assert(msgs.push(m)[0] == m);
        assert(msgs.push(m).drop_first() =~= Seq::<Seq<u8>>::empty());
        assert(frames_from(buf, end + 4 + m.len(), end + 4 + m.len(), msgs.push(m).drop_first()));
        assert(pos == end);
        assert(buf.subrange(pos, pos + 4) == le_bytes(msgs.push(m)[0].len() as u32));
        assert(buf.subrange(pos + 4, pos + 4 + m.len()) == msgs.push(m)[0]);
    } else {
        lemma_frames_append(buf, pos + 4 + msgs[0].len(), end, msgs.drop_first(), m);
        assert(msgs.push(m).drop_first() =~= msgs.drop_first().push(m));
        assert(msgs.push(m)[0] == msgs[0]);
        assert(frames_from(
            buf,
            pos + 4 + msgs.push(m)[0].len(),
            end + 4 + m.len(),
            msgs.push(m).drop_first(),
        ));
    }
}

/// How a send can end: accepted into the ring, or asked to retry once the
/// consumer has freed room.
#[derive(Clone, Copy, Debug, PartialEq, Eq, Structural)]
pub enum SendStatus {
    Sent,
    WouldBlock,
}

/// The shared ring: buffer bytes, the two cursors, and the ghost queue of
/// unreceived messages together with the witnesses that place them.
///
/// `split` and `sentinel` matter only while the ring is wrapped
/// (`write < read`): the first `split` queued messages still sit between
/// `read` and the wrap sentinel at `sentinel`; the rest have already been
/// rewritten at the start of the ring.
pub struct RingBuffer {
    buf: Vec<u8>,
    read: u32,
    write: u32,
    pending: Ghost<Seq<Seq<u8>>>,
    split: Ghost<int>,
    sentinel: Ghost<int>,
}

impl View for RingBuffer {
    type V = Seq<Seq<u8>>;

    closed spec fn view(&self) -> Seq<Seq<u8>> {
        self.pending@
    }
}

impl RingBuffer {
    /// The usable ring size in bytes.
    pub closed spec fn capacity(self) -> int {
        self.buf@.len() - BEGINNING
    }

    /// The total mapped size: header stand-in plus ring capacity.
    pub open spec fn region_len(self) -> int {
        BEGINNING + self.capacity()
    }

    /// The consumer's cursor: where the next frame will be read.
    pub closed spec fn read_pos(self) -> int {
        self.read as int
    }

    /// The producers' cursor: where the next frame will be written.
    pub closed spec fn write_pos(self) -> int {
        self.write as int
    }

    /// Whether the next queued message's frame starts at `read` (always
    /// true except while the head of the queue lies beyond a wrap sentinel
    /// not yet traversed).
    pub closed spec fn head_ready(self) -> bool {
        self.read <= self.write || self.split@ >= 1
    }

    /// The cursor position just past the head message's frame.
    pub closed spec fn head_next(self) -> int {
        self.read + 4 + self@[0].len()
    }

    /// Well-formedness: cursors in bounds, queued messages individually
    /// representable, and the frames of the queue tiling the used part of
    /// the ring, wrapped or not.
    pub closed spec fn wf(self) -> bool {
        let len = self.buf@.len() as int;
        &&& len <= u32::MAX
        &&& BEGINNING <= self.read <= len
        &&& BEGINNING <= self.write <= len
        &&& (self.write + 4 <= len || self.write == BEGINNING)
        &&& forall|i: int|
            0 <= i < self.pending@.len() ==> 1 <= (#[trigger] self.pending@[i]).len()
                && self.pending@[i].len() + 8 <= len - BEGINNING
        &&& if self.read <= self.write {
            frames_from(self.buf@, self.read as int, self.write as int, self.pending@)
        } else {
            &&& 0 <= self.split@ <= self.pending@.len()
            &&& self.read <= self.sentinel@
            &&& self.sentinel@ + 4 <= len
            &&& frames_from(
                self.buf@,
                self.read as int,
                self.sentinel@,
                self.pending@.take(self.split@),
            )
            &&& self.buf@.subrange(self.sentinel@, self.sentinel@ + 4) == le_bytes(0)
            &&& frames_from(
                self.buf@,
                BEGINNING as int,
                self.write as int,
                self.pending@.skip(self.split@),
            )
        }
    }

    /// Creates an empty ring with the given usable capacity.
    pub fn new(capacity: u32) -> (r: RingBuffer)
        requires
            capacity <= u32::MAX - BEGINNING,
        ensures
            r.wf(),
            r@ == Seq::<Seq<u8>>::empty(),
            r.capacity() == capacity,
            r.read_pos() == BEGINNING,
            r.write_pos() == BEGINNING,
    {
        let len: usize = BEGINNING as usize + capacity as usize;
        let mut buf: Vec<u8> = Vec::new();
        let mut i: usize = 0;
        while i < len
            invariant
                0 <= i <= len,
                buf@.len() == i,
            decreases len - i,
        {
            buf.push(0);
            i += 1;
        }
        RingBuffer {
            buf,
            read: BEGINNING,
            write: BEGINNING,
            pending: Ghost(Seq::empty()),
            split: Ghost(0),
            sentinel: Ghost(0),
        }
    }

    /// The usable ring size in bytes.
    pub fn capacity_bytes(&self) -> (c: u32)
        requires
            self.wf(),
        ensures
            c == self.capacity(),
    {
        (self.buf.len() - BEGINNING as usize) as u32
    }

    /// What a send of `size` encoded bytes does to this ring: the first
    /// decision taken on the current cursors and, after a wrap, the second
    /// one.  A producer that must wait retries when the consumer moves
    /// `read`.
    pub open spec fn send_outcome(self, size: int, when_empty: bool) -> SendStatus {
        match step::send_step_spec(
            BEGINNING as int,
            self.region_len(),
            self.read_pos(),
            self.write_pos(),
            size,
            when_empty,
        ) {
            SendStep::WriteAt(_) => SendStatus::Sent,
            SendStep::Wait => SendStatus::WouldBlock,
            SendStep::WrapAt(_) => match step::send_step_spec(
                BEGINNING as int,
                self.region_len(),
                self.read_pos(),
                BEGINNING as int,
                size,
                when_empty,
            ) {
                SendStep::WriteAt(_) => SendStatus::Sent,
                _ => SendStatus::WouldBlock,
            },
        }
    }

    /// Commits one frame at `at` (which must be the write cursor) and
    /// advances `write` past it.
    fn write_frame(&mut self, at: u32, msg: &[u8])
        requires
            old(self).wf(),
            1 <= msg@.len(),
            msg@.len() + 8 <= old(self).capacity(),
            at == old(self).write_pos(),
            old(self).read_pos() <= old(self).write_pos() ==> at + msg@.len() + 8 <= old(
                self,
            ).region_len(),
            old(self).write_pos() < old(self).read_pos() ==> at + msg@.len() + 8 <= old(
                self,
            ).read_pos(),
        ensures
            final(self).wf(),
            final(self)@ == old(self)@.push(msg@),
            final(self).read_pos() == old(self).read_pos(),
            final(self).capacity() == old(self).capacity(),
            final(self).write_pos() == at + 4 + msg@.len(),
    {
        let ghost b0 = self.buf@;
        let size: u32 = msg.len() as u32;
        codec::write_le32(&mut self.buf, at as usize, size);
        let ghost b_mid = self.buf@;
        codec::write_bytes(&mut self.buf, at as usize + 4, msg);
        let ghost b1 = self.buf@;
        self.write = at + 4 + size;
        proof {
            self.pending@ = old(self).pending@.push(msg@);
        }
        proof {
            let atn = at as int;
            let m = msg@;
            let len = b1.len() as int;
            let pend = old(self).pending@;
            assert(forall|i: int|
                0 <= i < len && !(atn <= i < atn + 4 + m.len()) ==> b1[i] == b0[i]);
            assert(b1.subrange(atn, atn + 4) =~= b_mid.subrange(atn, atn + 4));
            assert(b1.subrange(atn, atn + 4) == le_bytes(m.len() as u32));
            assert(b1.subrange(atn + 4, atn + 4 + m.len()) == m);
            assert(forall|i: int|
                0 <= i < self.pending@.len() ==> 1 <= (#[trigger] self.pending@[i]).len()
                    && self.pending@[i].len() + 8 <= len - BEGINNING) by {
                assert(forall|i: int|
                    0 <= i < pend.len() ==> self.pending@[i] == (#[trigger] pend[i]));
                assert(self.pending@[pend.len() as int] == m);
            }
            if old(self).read <= old(self).write {
                lemma_frames_unchanged(b0, b1, old(self).read as int, atn, pend);
                lemma_frames_append(b1, old(self).read as int, atn, pend, m);
            } else {
                let split = old(self).split@;
                let sent = old(self).sentinel@;
                lemma_frames_unchanged(
                    b0,
                    b1,
                    old(self).read as int,
                    sent,
                    pend.take(split),
                );
                assert(b1.subrange(sent, sent + 4) =~= b0.subrange(sent, sent + 4));
                lemma_frames_unchanged(b0, b1, BEGINNING as int, atn, pend.skip(split));
                lemma_frames_append(b1, BEGINNING as int, atn, pend.skip(split), m);
                assert(self.pending@.take(split) =~= pend.take(split));
                assert(self.pending@.skip(split) =~= pend.skip(split).push(m));
            }
        }
    }

    /// One bounded pass of the producer algorithm: decide, wrap at most
    /// once, and either commit the frame or report that the producer must
    /// wait for the consumer.
    fn send_impl(&mut self, msg: &[u8], when_empty: bool) -> (r: Result<SendStatus, SendError>)
        requires
            old(self).wf(),
        ensures
            final(self).wf(),
            final(self).capacity() == old(self).capacity(),
            final(self).read_pos() == old(self).read_pos(),
            (msg@.len() == 0) <==> r == Err::<SendStatus, SendError>(SendError::ZeroSized(ZeroSizedMessage)),
            (msg@.len() > 0 && msg@.len() + 8 > old(self).capacity()) <==> r == Err::<SendStatus, SendError>(
                SendError::TooLarge(MessageTooLarge),
            ),
            r is Err ==> *final(self) == *old(self),
            (1 <= msg@.len() && msg@.len() + 8 <= old(self).capacity()) ==> r == Ok::<SendStatus, SendError>(
                old(self).send_outcome(msg@.len() as int, when_empty),
            ),
            r == Ok::<SendStatus, SendError>(SendStatus::Sent) ==> final(self)@ == old(self)@.push(msg@),
            r == Ok::<SendStatus, SendError>(SendStatus::WouldBlock) ==> final(self)@ == old(self)@,
            when_empty && r == Ok::<SendStatus, SendError>(SendStatus::Sent) ==> old(self)@.len() == 0 && old(
                self,
            ).read_pos() == old(self).write_pos(),
    {
        let msg_len: usize = msg.len();
        if msg_len == 0 {
            return Err(SendError::ZeroSized(ZeroSizedMessage));
        }
        let len_usize: usize = self.buf.len();
        let cap: usize = len_usize - BEGINNING as usize;
        if cap < 8 || msg_len > cap - 8 {
            return Err(SendError::TooLarge(MessageTooLarge));
        }
        let size: u32 = msg_len as u32;
        let len32: u32 = len_usize as u32;
        let first = step::send_step(BEGINNING, len32, self.read, self.write, size, when_empty);
        match first {
            SendStep::WriteAt(at) => {
                proof {
                    // In wait-until-empty mode a frame is only ever
                    // placed on a ring whose cursors coincide.
                    if when_empty {
                        assert(old(self).read == old(self).write);
                    }
                }
                self.write_frame(at, msg);
                Ok(SendStatus::Sent)
            },
            SendStep::Wait => Ok(SendStatus::WouldBlock),
            SendStep::WrapAt(at) => {
                proof {
                    // A wrap is only chosen in the forward state with the
                    // consumer away from the ring start, so there is room
                    // for the sentinel past the last committed frame.
                    assert(old(self).read != BEGINNING);
                    assert(old(self).read <= old(self).write);
                    assert(old(self).write != BEGINNING);
                    assert(at as int + 4 <= old(self).region_len());
                }
                let ghost b0 = self.buf@;
                codec::write_le32(&mut self.buf, at as usize, 0);
                proof {
                    self.split@ = old(self).pending@.len() as int;
                    self.sentinel@ = at as int;
                }
                self.write = BEGINNING;
                proof {
                    let ghost b1 = self.buf@;
                    let pend = old(self).pending@;
                    lemma_frames_unchanged(b0, b1, old(self).read as int, at as int, pend);
                    assert(pend.take(pend.len() as int) =~= pend);
                    assert(pend.skip(pend.len() as int) =~= Seq::<Seq<u8>>::empty());
                    assert(self.wf());
                }
                let second = step::send_step(
                    BEGINNING,
                    len32,
                    self.read,
                    self.write,
                    size,
                    when_empty,
                );
                match second {
                    SendStep::WriteAt(at2) => {
                        self.write_frame(at2, msg);
                        Ok(SendStatus::Sent)
                    },
                    SendStep::Wait => Ok(SendStatus::WouldBlock),
                    SendStep::WrapAt(_) => {
                        proof {
                            // With `write` back at the ring start the
                            // decision never wraps again.
                            assert(false);
                        }
                        Ok(SendStatus::WouldBlock)
                    },
                }
            },
        }
    }

    /// Sends `msg`, reporting `WouldBlock` when the frame does not fit
    /// until the consumer frees room.  The message must encode to at least
    /// one byte and to at most the capacity less eight bytes of framing
    /// margin; anything else is rejected outright, with the ring left
    /// untouched.
    pub fn send(&mut self, msg: &[u8]) -> (r: Result<SendStatus, SendError>)
        requires
            old(self).wf(),
        ensures
            final(self).wf(),
            final(self).capacity() == old(self).capacity(),
            final(self).read_pos() == old(self).read_pos(),
            (msg@.len() == 0) <==> r == Err::<SendStatus, SendError>(SendError::ZeroSized(ZeroSizedMessage)),
            (msg@.len() > 0 && msg@.len() + 8 > old(self).capacity()) <==> r == Err::<SendStatus, SendError>(
                SendError::TooLarge(MessageTooLarge),
            ),
            r is Err ==> *final(self) == *old(self),
            (1 <= msg@.len() && msg@.len() + 8 <= old(self).capacity()) ==> r == Ok::<SendStatus, SendError>(
                old(self).send_outcome(msg@.len() as int, false),
            ),
            r == Ok::<SendStatus, SendError>(SendStatus::Sent) ==> final(self)@ == old(self)@.push(msg@),
            r == Ok::<SendStatus, SendError>(SendStatus::WouldBlock) ==> final(self)@ == old(self)@,
            // An empty ring with enough room past `write` accepts at once.
            (1 <= msg@.len() && msg@.len() + 8 <= old(self).capacity() && old(self).read_pos()
                == old(self).write_pos() && old(self).write_pos() + msg@.len() + 8 <= old(
                self,
            ).region_len()) ==> r == Ok::<SendStatus, SendError>(SendStatus::Sent),
    {
        self.send_impl(msg, false)
    }

    /// Sends `msg` only if the consumer has fully drained the ring;
    /// otherwise reports `WouldBlock` so the producer can retry once the
    /// consumer catches up.  Size rejection is as for [`Self::send`].
    pub fn send_when_empty(&mut self, msg: &[u8]) -> (r: Result<SendStatus, SendError>)
        requires
            old(self).wf(),
        ensures
            final(self).wf(),
            final(self).capacity() == old(self).capacity(),
            final(self).read_pos() == old(self).read_pos(),
            (msg@.len() == 0) <==> r == Err::<SendStatus, SendError>(SendError::ZeroSized(ZeroSizedMessage)),
            (msg@.len() > 0 && msg@.len() + 8 > old(self).capacity()) <==> r == Err::<SendStatus, SendError>(
                SendError::TooLarge(MessageTooLarge),
            ),
            r is Err ==> *final(self) == *old(self),
            (1 <= msg@.len() && msg@.len() + 8 <= old(self).capacity()) ==> r == Ok::<SendStatus, SendError>(
                old(self).send_outcome(msg@.len() as int, true),
            ),
            r == Ok::<SendStatus, SendError>(SendStatus::Sent) ==> final(self)@ == old(self)@.push(msg@),
            r == Ok::<SendStatus, SendError>(SendStatus::WouldBlock) ==> final(self)@ == old(self)@,
            // Acceptance certifies that the ring was drained at the
            // moment the producer looked.
            r == Ok::<SendStatus, SendError>(SendStatus::Sent) ==> old(self)@.len() == 0 && old(self).read_pos() == old(
                self,
            ).write_pos(),
    {
        self.send_impl(msg, true)
    }

    /// Decodes the frame at `read`, which must hold the head of the
    /// queue, and reports where the cursor will go once the message is
    /// acknowledged.
    fn read_head(&self) -> (r: (Vec<u8>, u32))
        requires
            self.wf(),
            self@.len() > 0,
            self.head_ready(),
        ensures
            r.0@ == self@[0],
            r.1 == self.head_next(),
            self.head_next() <= self.region_len(),
    {
        proof {
            if self.read <= self.write {
                assert(frames_from(self.buf@, self.read as int, self.write as int, self.pending@));
            } else {
                let tk = self.pending@.take(self.split@);
                assert(tk.len() == self.split@);
                assert(tk[0] == self.pending@[0]);
                assert(frames_from(self.buf@, self.read as int, self.sentinel@, tk));
            }
        }
        let size = codec::read_le32(&self.buf, self.read as usize);
        proof {
            codec::lemma_le_bytes_injective(size, self@[0].len() as u32);
        }
        let v = codec::read_bytes(&self.buf, self.read as usize + 4, size as usize);
        (v, self.read + 4 + size)
    }

    /// The consumer's decode step: finds the head message without
    /// acknowledging it, traversing (and thereby consuming) a wrap
    /// sentinel if one sits at `read`.  `read` moves only for that reset,
    /// back to [`BEGINNING`], and at most once per call.
    pub(crate) fn peek(&mut self) -> (r: Option<(Vec<u8>, u32)>)
        requires
            old(self).wf(),
        ensures
            final(self).wf(),
            final(self)@ == old(self)@,
            final(self).capacity() == old(self).capacity(),
            final(self).write_pos() == old(self).write_pos(),
            r is Some <==> old(self)@.len() > 0,
            r is None ==> final(self).read_pos() == final(self).write_pos(),
            r matches Some(vp) ==> vp.0@ == old(self)@[0] && final(self)@.len() > 0 && final(self).head_ready() && vp.1 == final(self).head_next(),
            final(self).read_pos() == old(self).read_pos() || (old(self).write_pos() < old(
                self,
            ).read_pos() && final(self).read_pos() == BEGINNING),
            old(self).read_pos() <= old(self).write_pos() ==> final(self).read_pos() == old(
                self,
            ).read_pos(),
    {
        if self.read == self.write {
            proof {
                lemma_frames_bounds(
                    self.buf@,
                    self.read as int,
                    self.write as int,
                    self.pending@,
                );
                if self.pending@.len() != 0 {
                    assert(false);
                }
            }
            return None;
        }
        proof {
            if self.read > self.write && self.split@ == 0 {
                assert(self.pending@.take(0) =~= Seq::<Seq<u8>>::empty());
                assert(self.read == self.sentinel@);
            }
            if self.read < self.write {
                assert(self.pending@.len() != 0);
            }
        }
        let size = codec::read_le32(&self.buf, self.read as usize);
        if size == 0 {
            if self.write < self.read {
                proof {
                    // A zero prefix at `read` while wrapped is the
                    // sentinel itself: any queued head frame would carry a
                    // nonzero size.
                    if self.split@ >= 1 {
                        let tk = self.pending@.take(self.split@);
                        assert(tk[0] == self.pending@[0]);
                        codec::lemma_le_bytes_injective(0, self.pending@[0].len() as u32);
                        assert(false);
                    }
                    assert(self.read == self.sentinel@);
                }
                self.read = BEGINNING;
                proof {
                    assert(self.pending@.skip(0) =~= self.pending@);
                    assert(self.wf());
                }
                if self.read == self.write {
                    proof {
                        lemma_frames_bounds(
                            self.buf@,
                            self.read as int,
                            self.write as int,
                            self.pending@,
                        );
                        if self.pending@.len() != 0 {
                            assert(false);
                        }
                    }
                    return None;
                }
                proof {
                    assert(self.pending@.len() != 0);
                }
                let (v, p) = self.read_head();
                Some((v, p))
            } else {
                proof {
                    // A zero prefix with the writer ahead would be
                    // corruption; a well-formed ring never decodes one.
                    codec::lemma_le_bytes_injective(0, self.pending@[0].len() as u32);
                    assert(false);
                }
                None
            }
        } else {
            proof {
                if self.read > self.write && self.split@ == 0 {
                    codec::lemma_le_bytes_injective(size, 0);
                    assert(false);
                }
            }
            let (v, p) = self.read_head();
            Some((v, p))
        }
    }

    /// Acknowledges the head message: moves `read` to `position`, the end
    /// of its frame, dequeuing it.
    pub(crate) fn seek(&mut self, position: u32)
        requires
            old(self).wf(),
            old(self)@.len() > 0,
            old(self).head_ready(),
            position == old(self).head_next(),
        ensures
            final(self).wf(),
            final(self)@ == old(self)@.drop_first(),
            final(self).capacity() == old(self).capacity(),
            final(self).write_pos() == old(self).write_pos(),
            final(self).read_pos() == position,
    {
        proof {
            if old(self).read <= old(self).write {
                assert(frames_from(self.buf@, self.read as int, self.write as int, self.pending@));
            } else {
                let tk = self.pending@.take(self.split@);
                assert(tk[0] == self.pending@[0]);
                assert(frames_from(self.buf@, self.read as int, self.sentinel@, tk));
            }
        }
        self.read = position;
        proof {
            self.pending@ = old(self).pending@.drop_first();
            if old(self).write < old(self).read {
                self.split@ = old(self).split@ - 1;
            }
        }
        proof {
            let pend = old(self).pending@;
            let m0 = pend[0];
            assert(forall|i: int|
                0 <= i < self.pending@.len() ==> 1 <= (#[trigger] self.pending@[i]).len()
                    && self.pending@[i].len() + 8 <= self.buf@.len() - BEGINNING) by {
                assert(forall|i: int|
                    0 <= i < self.pending@.len() ==> self.pending@[i] == (#[trigger] pend[i + 1]));
            }
            if old(self).read <= old(self).write {
                assert(frames_from(
                    self.buf@,
                    self.read as int,
                    self.write as int,
                    self.pending@,
                ));
            } else {
                let split = old(self).split@;
                let tk = pend.take(split);
                assert(frames_from(self.buf@, self.read as int, self.sentinel@, tk.drop_first()));
                assert(self.pending@.take(split - 1) =~= tk.drop_first());
                assert(self.pending@.skip(split - 1) =~= pend.skip(split));
                lemma_frames_bounds(self.buf@, self.read as int, self.sentinel@, tk.drop_first());
            }
        }
    }

    /// Receives the head message by copy: decodes it, then acknowledges
    /// it by advancing `read` past its frame (resetting `read` to
    /// [`BEGINNING`] first when a wrap sentinel is traversed).  Returns
    /// `None`, with the queue untouched and the cursors equal, when
    /// nothing is unreceived.
    pub fn try_recv(&mut self) -> (r: Option<Vec<u8>>)
        requires
            old(self).wf(),
        ensures
            final(self).wf(),
            final(self).capacity() == old(self).capacity(),
            final(self).write_pos() == old(self).write_pos(),
            r is Some <==> old(self)@.len() > 0,
            r matches Some(v) ==> v@ == old(self)@[0] && final(self)@ == old(self)@.drop_first(),
            r is None ==> final(self)@ == old(self)@ && final(self).read_pos() == final(self).write_pos(),
            r matches Some(v) ==> (final(self).read_pos() == old(self).read_pos() + 4 + v@.len()
                || (old(self).write_pos() < old(self).read_pos() && final(self).read_pos()
                    == BEGINNING + 4 + v@.len())),
            // A receive that drains an unwrapped ring leaves both cursors
            // at the consumed frame's end.
            r is Some && final(self)@.len() == 0 && old(self).read_pos() <= old(self).write_pos()
                ==> final(self).read_pos() == final(self).write_pos(),
    {
        match self.peek() {
            None => None,
            Some((v, p)) => {
                self.seek(p);
                Some(v)
            },
        }
    }
}

/// Both cursors always lie between the start of the ring and the end of
/// the region.
pub proof fn lemma_cursors_in_bounds(r: &RingBuffer)
    requires
        r.wf(),
    ensures
        BEGINNING <= r.read_pos() <= BEGINNING + r.capacity(),
        BEGINNING <= r.write_pos() <= BEGINNING + r.capacity(),
{
}

/// The cursors coincide exactly when nothing unreceived remains; a wrap
/// sentinel the consumer has not yet traversed counts as unreceived
/// content, and while one is pending the ring is wrapped (`write < read`).
pub proof fn lemma_empty_iff_cursors_equal(r: &RingBuffer)
    requires
        r.wf(),
    ensures
        (r.read_pos() == r.write_pos()) <==> (r@.len() == 0 && r.read_pos() <= r.write_pos()),
{
}

/// Every message in flight was accepted under the size rule: its encoded
/// size plus the eight bytes of framing margin fits the capacity.
pub proof fn lemma_pending_sizes(r: &RingBuffer)
    requires
        r.wf(),
    ensures
        forall|i: int|
            0 <= i < r@.len() ==> 1 <= (#[trigger] r@[i]).len() && r@[i].len() + 8 <= r.capacity(),
{
}

/// Sends enqueue at the tail and receives dequeue at the head: after a
/// send of `m` against queue `q`, the oldest messages are still `q`'s, in
/// `q`'s order, and `m` is the newest.
pub proof fn lemma_fifo_order(q: Seq<Seq<u8>>, m: Seq<u8>)
    ensures
        q.push(m).len() == q.len() + 1,
        q.push(m)[q.len() as int] == m,
        forall|i: int| 0 <= i < q.len() ==> q.push(m)[i] == q[i],
{
}

/// Round trip: a message sent on an idle channel is exactly what the next
/// receive dequeues, and the channel is idle again afterwards.
pub proof fn lemma_send_recv_round_trip(q: Seq<Seq<u8>>, m: Seq<u8>)
    requires
        q.len() == 0,
    ensures
        q.push(m).first() == m,
        q.push(m).drop_first() == q,
{
    assert(q.push(m).drop_first() =~= q);
}

} // verus!
