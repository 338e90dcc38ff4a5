//! The frame stream: an accumulation buffer in front of the parser, driven
//! one step at a time by whoever owns the chunk source.
//!
//! The driver asks `poll_decode` for the next item. When it answers
//! `NeedInput`, the driver pulls a chunk from its source and hands it over
//! with `push_chunk`, or reports the source's end (`on_end`) or failure
//! (`on_error`), after which the stream yields nothing more.

use vstd::prelude::*;
use crate::buffer::{bytes_of, buf_extend, buf_len, buf_new};
use crate::parser::{OreProtocol, ProtocolState};
use crate::wire::{
    encode, encode_all, fits, frames, header_of, lemma_encode_all_push, lemma_frames_after_encoding,
    lemma_be16_of_header, lemma_header_of_be16,
};

verus! {

/// What the driver should do next.
#[derive(Debug)]
pub enum StreamItem {
    /// A complete frame: its payload holds the decoded bytes.
    Frame(OreProtocol),
    /// The buffered bytes hold no complete frame: pull the next chunk.
    NeedInput,
    /// The source has ended or failed: the sequence is over.
    Finished,
}

/// Decoding state of one byte stream: the unconsumed bytes, the parser, and
/// whether the source is done.
pub struct OreStream {
    buffer: bytes::BytesMut,
    protocol: OreProtocol,
    finished: bool,
    received: Ghost<Seq<u8>>,
    emitted: Ghost<Seq<Seq<u8>>>,
}

impl OreStream {
    /// Every byte handed to the stream so far, in order.
    pub closed spec fn received(&self) -> Seq<u8> {
        self.received@
    }

    /// The payloads of the frames yielded so far, in order.
    pub closed spec fn emitted(&self) -> Seq<Seq<u8>> {
        self.emitted@
    }

    /// The bytes of the frame in progress: its header if already parsed,
    /// then what is buffered.
    pub closed spec fn pending(&self) -> Seq<u8> {
        match self.protocol.state {
            ProtocolState::WaitHeader => bytes_of(self.buffer),
            ProtocolState::WaitPayload => header_of(self.protocol.payload_size) + bytes_of(self.buffer),
        }
    }

    /// The bytes received and not yet consumed by the parser.
    pub closed spec fn buffered(&self) -> Seq<u8> {
        bytes_of(self.buffer)
    }

    /// The source has ended or failed.
    pub closed spec fn is_finished(&self) -> bool {
        self.finished
    }

    /// What was received is exactly what was yielded, re-encoded, followed
    /// by the frame in progress.
    pub closed spec fn wf(&self) -> bool {
        &&& self.protocol.payload.is_none()
        &&& fits(self.emitted@)
        &&& self.received@ == encode_all(self.emitted@) + self.pending()
    }

    /// A stream that has received nothing.
    pub fn new() -> (r: Self)
        ensures
            r.wf(),
            !r.is_finished(),
            r.received() == Seq::<u8>::empty(),
            r.emitted() == Seq::<Seq<u8>>::empty(),
            r.pending() == Seq::<u8>::empty(),
            r.buffered() == Seq::<u8>::empty(),
    {
        OreStream {
            buffer: buf_new(),
            protocol: OreProtocol::new(),
            finished: false,
            received: Ghost(Seq::empty()),
            emitted: Ghost(Seq::empty()),
        }
    }
    /// The frames yielded so far are the first frames of everything
    /// received, and the frame in progress decodes to the rest.
    pub proof fn lemma_emitted_prefix(&self)
        requires
            self.wf(),
        ensures
            frames(self.received()) == self.emitted() + frames(self.pending()),
    {
        lemma_frames_after_encoding(self.emitted@, self.pending());
    }

    /// The number of bytes received and not yet consumed by the parser.
    pub fn buffered_len(&self) -> (r: usize)
        ensures
            r == self.buffered().len(),
    {
        buf_len(&self.buffer)
    }

    /// Fragmentation does not matter: two streams that received the same
    /// bytes, however they were cut into chunks, have yielded the same frames
    /// once each has decoded all it could.
    pub proof fn lemma_fragmentation_invariance(a: &Self, b: &Self)
        requires
            a.wf(),
            b.wf(),
            a.received() == b.received(),
            frames(a.pending()).len() == 0,
            frames(b.pending()).len() == 0,
        ensures
            a.emitted() == b.emitted(),
    {
        a.lemma_emitted_prefix();
        b.lemma_emitted_prefix();
        assert(a.emitted() =~= a.emitted() + frames(a.pending()));
        assert(b.emitted() =~= b.emitted() + frames(b.pending()));
    }

    /// Appends a chunk from the source at the tail of the buffer. A finished
    /// stream ignores it.
    pub fn push_chunk(&mut self, chunk: &[u8])
        requires
            old(self).wf(),
            old(self).buffered().len() + chunk@.len() <= isize::MAX,
        ensures
            final(self).wf(),
            old(self).is_finished() ==> *final(self) == *old(self),
            !old(self).is_finished() ==> {
                &&& !final(self).is_finished()
                &&& final(self).received() == old(self).received() + chunk@
                &&& final(self).emitted() == old(self).emitted()
                &&& final(self).pending() == old(self).pending() + chunk@
                &&& final(self).buffered() == old(self).buffered() + chunk@
            },
    {
        if self.finished {
            return;
        }
        buf_extend(&mut self.buffer, chunk);
        self.received = Ghost(self.received@ + chunk@);
        proof {
            assert(self.pending() =~= old(self).pending() + chunk@);
            assert(self.received@ =~= encode_all(self.emitted@) + self.pending());
        }
    }

    /// Decodes the next frame from the buffered bytes, if they hold a
    /// complete one, and resets the parser for the frame after it.
    pub fn poll_decode(&mut self) -> (r: StreamItem)
        requires
            old(self).wf(),
        ensures
            final(self).wf(),
            final(self).received() == old(self).received(),
            final(self).is_finished() == old(self).is_finished(),
            final(self).buffered().len() <= old(self).buffered().len(),
            old(self).is_finished() ==> r is Finished && *final(self) == *old(self),
            !old(self).is_finished() && frames(old(self).pending()).len() == 0 ==> {
                &&& r is NeedInput
                &&& final(self).pending() == old(self).pending()
                &&& final(self).emitted() == old(self).emitted()
                &&& final(self).emitted() == frames(final(self).received())
            },
            !old(self).is_finished() && frames(old(self).pending()).len() > 0 ==> {
                let p = frames(old(self).pending())[0];
                &&& r matches StreamItem::Frame(f)
                &&& f.payload matches Some(b) && bytes_of(b) == p
                &&& f.payload_size == p.len()
                &&& f.state == ProtocolState::WaitPayload
                &&& final(self).emitted() == old(self).emitted().push(p)
                &&& final(self).pending() == old(self).pending().subrange(
                    2 + p.len() as int,
                    old(self).pending().len() as int,
                )
                &&& frames(final(self).pending()) == frames(old(self).pending()).drop_first()
            },
    {
        if self.finished {
            return StreamItem::Finished;
        }
        proof {
            self.lemma_emitted_prefix();
        }
        let ghost pend = self.pending();
        match self.protocol.state {
            ProtocolState::WaitHeader => {
                let ghost b = bytes_of(self.buffer);
                match self.protocol.parse_fixed_header(&mut self.buffer) {
                    Err(_) => {
                        return StreamItem::NeedInput;
                    },
                    Ok(()) => {
                        proof {
                            lemma_header_of_be16(b[0], b[1]);
                            assert(self.pending() =~= pend);
                        }
                    },
                }
            },
            ProtocolState::WaitPayload => {},
        }
        let ghost b = bytes_of(self.buffer);
        let ghost n = self.protocol.payload_size as int;
        proof {
            lemma_be16_of_header(self.protocol.payload_size);
            assert(pend[0] == header_of(self.protocol.payload_size)[0]);
            assert(pend[1] == header_of(self.protocol.payload_size)[1]);
        }
        match self.protocol.parse_payload(&mut self.buffer) {
            Err(_) => {
                proof {
                    assert(frames(pend).len() == 0);
                }
                StreamItem::NeedInput
            },
            Ok(()) => {
                let payload = self.protocol.payload.take();
                let frame = OreProtocol {
                    payload_size: self.protocol.payload_size,
                    state: ProtocolState::WaitPayload,
                    payload,
                };
                self.protocol = OreProtocol::new();
                proof {
                    let p = pend.subrange(2, 2 + n);
                    assert(p =~= b.subrange(0, n));
                    assert(frames(pend) == seq![p] + frames(pend.subrange(2 + n, pend.len() as int)));
                    assert(self.pending() =~= pend.subrange(2 + n, pend.len() as int));
                    assert(frames(pend).drop_first() =~= frames(self.pending()));
                    lemma_encode_all_push(self.emitted@, p);
                    assert(encode(p) =~= pend.subrange(0, 2 + n));
                    self.emitted = Ghost(self.emitted@.push(p));
                    assert(self.received@ =~= encode_all(self.emitted@) + self.pending());
                }
                StreamItem::Frame(frame)
            },
        }
    }

    /// The source failed: the stream yields nothing more.
    pub fn on_error(&mut self)
        requires
            old(self).wf(),
        ensures
            final(self).wf(),
            final(self).is_finished(),
            final(self).received() == old(self).received(),
            final(self).emitted() == old(self).emitted(),
            final(self).buffered() == old(self).buffered(),
    {
        self.finished = true;
    }

    /// The source ended: the stream yields nothing more, and the bytes of an
    /// incomplete last frame, if any, are dropped without being reported.
    pub fn on_end(&mut self)
        requires
            old(self).wf(),
        ensures
            final(self).wf(),
            final(self).is_finished(),
            final(self).received() == old(self).received(),
            final(self).emitted() == old(self).emitted(),
            final(self).buffered() == old(self).buffered(),
    {
        self.finished = true;
    }
}

} // verus!
