//! One connection of the multiplexer: the read buffer that reassembles
//! frames from arbitrarily chunked input, the queue of encoded outbound
//! frames awaiting a writable socket, and the write-interest flag.
//!
//! The host process performs the socket I/O: it feeds every received chunk
//! to [`Connection::receive_bytes`], drains complete messages with
//! [`Connection::drain_messages`], writes [`Connection::writable_bytes`]
//! to the socket and reports the count back via
//! [`Connection::mark_written`].

use crate::wire_protocol::error::WireError;
use crate::wire_protocol::frames::{
    front_bad, front_incomplete, front_ready, spec_frames, spec_front_len, spec_rest, MIN_FRAME_LEN,
};
use crate::wire_protocol::message::{
    spec_decodes_to, spec_message_bytes, spec_message_len, spec_parse, Message,
};
use crate::codec::read_u32;
use vstd::prelude::*;

verus! {

/// True when a complete frame decodes to a message: it parses and both its
/// strings are valid UTF-8.
pub open spec fn frame_decodes(f: Seq<u8>) -> bool {
    spec_parse(f) matches Some(p) && vstd::utf8::valid_utf8(p.target)
        && vstd::utf8::valid_utf8(p.origin)
}

/// Number of leading frames that all decode.
pub open spec fn frames_decode_prefix(frames: Seq<Seq<u8>>) -> int
    decreases frames.len(),
{
    if frames.len() == 0 {
        0
    } else if frame_decodes(frames[0]) {
        1 + frames_decode_prefix(frames.drop_first())
    } else {
        0
    }
}

/// Prepending frames that all decode shifts the decode prefix by their
/// count.
proof fn lemma_decode_prefix_concat(a: Seq<Seq<u8>>, b: Seq<Seq<u8>>)
    requires
        forall|i: int| 0 <= i < a.len() ==> frame_decodes(#[trigger] a[i]),
    ensures
        frames_decode_prefix(a + b) == a.len() + frames_decode_prefix(b),
    decreases a.len(),
{
    if a.len() == 0 {
        assert(a + b =~= b);
    } else {
        assert((a + b)[0] == a[0]);
        assert((a + b).drop_first() =~= a.drop_first() + b);
        lemma_decode_prefix_concat(a.drop_first(), b);
    }
}

/// A message's frame fits the `u32` length prefix and, appended to the
/// queued bytes, still fits one buffer.
pub open spec fn message_fits(queue: Seq<u8>, message: Message) -> bool {
    spec_message_len(message) <= u32::MAX && queue.len() + spec_message_len(message) <= usize::MAX
}

/// One step of draining the read buffer.
pub enum FrameStep {
    /// No complete frame is buffered; wait for more bytes.
    Pending,
    /// The stream is corrupt; the connection must be torn down.
    Corrupt,
    /// One complete frame decoded.
    Message(Message),
}

/// Per-socket state: reassembly buffer, outbound queue, write interest.
pub struct Connection {
    token: usize,
    read_buf: Vec<u8>,
    write_buf: Vec<u8>,
    want_write: bool,
}

impl Connection {
    /// The token this connection is registered under.
    pub closed spec fn spec_token(&self) -> usize {
        self.token
    }

    /// Bytes received but not yet cut into complete frames.
    pub closed spec fn read_buffer(&self) -> Seq<u8> {
        self.read_buf@
    }

    /// Encoded frames (concatenated) not yet flushed to the socket.
    pub closed spec fn write_queue(&self) -> Seq<u8> {
        self.write_buf@
    }

    /// Whether the connection is registered for writable events.
    pub closed spec fn wants_write(&self) -> bool {
        self.want_write
    }

    /// A fresh connection under `token`: empty buffers, no write interest.
    pub fn new(token: usize) -> (r: Connection)
        ensures
            r.spec_token() == token,
            r.read_buffer() == Seq::<u8>::empty(),
            r.write_queue() == Seq::<u8>::empty(),
            !r.wants_write(),
    {
        Connection { token, read_buf: Vec::new(), write_buf: Vec::new(), want_write: false }
    }

    /// The token this connection is registered under.
    pub fn token(&self) -> (r: usize)
        ensures
            r == self.spec_token(),
    {
        self.token
    }

    /// Whether the connection is registered for writable events.
    pub fn write_interest(&self) -> (r: bool)
        ensures
            r == self.wants_write(),
    {
        self.want_write
    }

    /// Number of bytes currently held in the read buffer.
    pub fn buffered_len(&self) -> (r: usize)
        ensures
            r == self.read_buffer().len(),
    {
        self.read_buf.len()
    }

    /// Appends one received chunk to the read buffer; partial frames
    /// persist here across readiness events.
    pub fn receive_bytes(&mut self, chunk: &[u8])
        requires
            old(self).read_buffer().len() + chunk@.len() <= usize::MAX,
        ensures
            final(self).read_buffer() == old(self).read_buffer() + chunk@,
            final(self).write_queue() == old(self).write_queue(),
            final(self).wants_write() == old(self).wants_write(),
            final(self).spec_token() == old(self).spec_token(),
    {
        self.read_buf.extend_from_slice(chunk);
    }

    /// Cuts and decodes the frame at the front of the read buffer, if one
    /// is complete: a buffer whose front is incomplete waits, one whose
    /// front declares an impossible length or fails to decode is corrupt.
    pub fn next_message(&mut self) -> (r: FrameStep)
        ensures
            final(self).write_queue() == old(self).write_queue(),
            final(self).wants_write() == old(self).wants_write(),
            final(self).spec_token() == old(self).spec_token(),
            front_incomplete(old(self).read_buffer()) ==> r is Pending && final(self).read_buffer()
                == old(self).read_buffer(),
            front_bad(old(self).read_buffer()) ==> r is Corrupt && final(self).read_buffer()
                == old(self).read_buffer(),
            front_ready(old(self).read_buffer()) ==> {
                let b = old(self).read_buffer();
                let f = b.subrange(0, spec_front_len(b));
                &&& final(self).read_buffer() == b.subrange(spec_front_len(b), b.len() as int)
                &&& (frame_decodes(f) ==> (r matches FrameStep::Message(m) && spec_parse(f)
                    matches Some(p) && spec_decodes_to(p, m)))
                &&& (!frame_decodes(f) ==> r is Corrupt)
            },
    {
        let total = match read_u32(self.read_buf.as_slice(), 0) {
            Some(t) => t,
            None => {
                return FrameStep::Pending;
            },
        };
        if total < MIN_FRAME_LEN {
            return FrameStep::Corrupt;
        }
        if total as usize > self.read_buf.len() {
            return FrameStep::Pending;
        }
        let mut frame = self.read_buf.split_off(total as usize);
        core::mem::swap(&mut self.read_buf, &mut frame);
        match Message::read(frame.as_slice()) {
            Ok(m) => FrameStep::Message(m),
            Err(_) => FrameStep::Corrupt,
        }
    }

    /// Drains every complete frame of the read buffer, in wire order.
    ///
    /// Returns the decoded messages and a corruption flag. Decoding stops
    /// at the first frame that does not decode, or at a front whose
    /// declared length no suffix could complete; either raises the flag,
    /// telling the caller to tear the connection down. With a clean
    /// buffer the flag is false and exactly the buffer's complete frames
    /// come back, the incomplete tail staying buffered.
    pub fn drain_messages(&mut self) -> (r: (Vec<Message>, bool))
        ensures
            final(self).write_queue() == old(self).write_queue(),
            final(self).wants_write() == old(self).wants_write(),
            final(self).spec_token() == old(self).spec_token(),
            ({
                let frames = spec_frames(old(self).read_buffer());
                let k = frames_decode_prefix(frames);
                &&& r.0@.len() == k
                &&& forall|i: int|
                    0 <= i < k ==> (spec_parse(#[trigger] frames[i]) matches Some(p)
                        && spec_decodes_to(p, r.0@[i]))
                &&& r.1 == (k < frames.len() || front_bad(spec_rest(old(self).read_buffer())))
                &&& !r.1 ==> final(self).read_buffer() == spec_rest(old(self).read_buffer())
            }),
    {
        let ghost orig = self.read_buffer();
        let mut msgs: Vec<Message> = Vec::new();
        loop
            invariant
                self.write_queue() == old(self).write_queue(),
                self.wants_write() == old(self).wants_write(),
                self.spec_token() == old(self).spec_token(),
                orig == old(self).read_buffer(),
                spec_frames(orig) =~= spec_frames(orig).subrange(0, msgs@.len() as int)
                    + spec_frames(self.read_buffer()),
                msgs@.len() <= spec_frames(orig).len(),
                forall|i: int|
                    0 <= i < msgs@.len() ==> frame_decodes(#[trigger] spec_frames(orig)[i]),
                forall|i: int|
                    0 <= i < msgs@.len() ==> (spec_parse(#[trigger] spec_frames(orig)[i])
                        matches Some(p) && spec_decodes_to(p, msgs@[i])),
                spec_rest(self.read_buffer()) == spec_rest(orig),
            decreases self.read_buffer().len() + 1,
        {
            let ghost buf_before = self.read_buffer();
            let step = self.next_message();
            match step {
                FrameStep::Pending => {
                    proof {
                        assert(spec_frames(buf_before) =~= Seq::<Seq<u8>>::empty());
                        lemma_decode_prefix_concat(
                            spec_frames(orig).subrange(0, msgs@.len() as int),
                            spec_frames(buf_before),
                        );
                        assert(spec_frames(orig).subrange(0, msgs@.len() as int) + spec_frames(
                            buf_before,
                        ) =~= spec_frames(orig).subrange(0, msgs@.len() as int));
                        assert(frames_decode_prefix(spec_frames(orig)) == msgs@.len());
                    }
                    return (msgs, false);
                },
                FrameStep::Corrupt => {
                    proof {
                        if front_bad(buf_before) {
                            assert(spec_frames(buf_before) =~= Seq::<Seq<u8>>::empty());
                            lemma_decode_prefix_concat(
                                spec_frames(orig).subrange(0, msgs@.len() as int),
                                spec_frames(buf_before),
                            );
                        } else {
                            let f = buf_before.subrange(0, spec_front_len(buf_before));
                            assert(front_ready(buf_before));
                            assert(!frame_decodes(f));
                            assert(spec_frames(buf_before)[0] == f);
                            lemma_decode_prefix_concat(
                                spec_frames(orig).subrange(0, msgs@.len() as int),
                                spec_frames(buf_before),
                            );
                            assert(frames_decode_prefix(spec_frames(buf_before)) == 0);
                            assert(frames_decode_prefix(spec_frames(orig)) == msgs@.len());
                            assert(spec_frames(orig).len() > msgs@.len());
                        }
                    }
                    return (msgs, true);
                },
                FrameStep::Message(m) => {
                    proof {
                        let fl = spec_front_len(buf_before);
                        let f = buf_before.subrange(0, fl);
                        assert(front_ready(buf_before));
                        assert(frame_decodes(f));
                        assert(spec_frames(buf_before) == seq![f] + spec_frames(
                            self.read_buffer(),
                        ));
                        assert(spec_frames(orig)[msgs@.len() as int] == f);
                        assert(spec_frames(orig).subrange(0, msgs@.len() as int + 1) =~= spec_frames(
                            orig,
                        ).subrange(0, msgs@.len() as int) + seq![f]);
                        assert(spec_frames(orig) =~= spec_frames(orig).subrange(
                            0,
                            msgs@.len() as int + 1,
                        ) + spec_frames(self.read_buffer()));
                    }
                    msgs.push(m);
                },
            }
        }
    }

    /// Encodes `message` and appends it to the outbound queue, registering
    /// write interest; a frame too large for the `u32` length prefix is
    /// refused and nothing changes.
    pub fn enqueue(&mut self, message: &Message) -> (r: Result<(), WireError>)
        ensures
            final(self).read_buffer() == old(self).read_buffer(),
            final(self).spec_token() == old(self).spec_token(),
            message_fits(old(self).write_queue(), *message) ==> {
                &&& r is Ok
                &&& final(self).write_queue() == old(self).write_queue() + spec_message_bytes(
                    *message,
                )
                &&& final(self).wants_write()
            },
            !message_fits(old(self).write_queue(), *message) ==> {
                &&& r == Err::<(), WireError>(WireError::FrameTooLarge)
                &&& final(self).write_queue() == old(self).write_queue()
                &&& final(self).wants_write() == old(self).wants_write()
            },
    {
        match message.encode() {
            Some(mut bytes) => {
                if usize::MAX - self.write_buf.len() >= bytes.len() {
                    self.write_buf.append(&mut bytes);
                    self.want_write = true;
                    Ok(())
                } else {
                    Err(WireError::FrameTooLarge)
                }
            },
            None => Err(WireError::FrameTooLarge),
        }
    }

    /// The queued outbound bytes still awaiting the socket.
    pub fn writable_bytes(&self) -> (r: &[u8])
        ensures
            r@ == self.write_queue(),
    {
        self.write_buf.as_slice()
    }

    /// Records that the socket accepted `written` bytes of the queue
    /// (counts beyond the queue are clamped): the flushed prefix leaves
    /// the queue, and write interest stays registered exactly while bytes
    /// remain — a drained connection withdraws it rather than spin on a
    /// perpetually writable socket.
    pub fn mark_written(&mut self, written: usize)
        ensures
            final(self).read_buffer() == old(self).read_buffer(),
            final(self).spec_token() == old(self).spec_token(),
            ({
                let k = if written <= old(self).write_queue().len() {
                    written as int
                } else {
                    old(self).write_queue().len() as int
                };
                final(self).write_queue() == old(self).write_queue().subrange(
                    k,
                    old(self).write_queue().len() as int,
                )
            }),
            final(self).wants_write() == (final(self).write_queue().len() > 0),
    {
        let k = if written <= self.write_buf.len() {
            written
        } else {
            self.write_buf.len()
        };
        let mut rest = self.write_buf.split_off(k);
        core::mem::swap(&mut self.write_buf, &mut rest);
        self.want_write = self.write_buf.len() > 0;
    }
}

} // verus!
