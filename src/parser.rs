//! The frame parser: a two-state machine that reads a frame's header and
//! then its payload from the head of a byte buffer.

use vstd::prelude::*;
use crate::buffer::{bytes_of, buf_advance, buf_byte, buf_len, buf_split_to};

verus! {

/// Not enough bytes are buffered for the current decode step; retry after
/// appending more input.
#[derive(Debug, Clone, Copy, PartialEq, Eq)]
pub struct OreErrorInsufficient;

impl OreErrorInsufficient {
    /// A human-readable description of the error.
    pub fn message(&self) -> (r: String)
        ensures
            r@ == "insufficient bufffer"@,
    {
        let r = String::from_str("insufficient bufffer");
        proof { reveal_strlit("insufficient bufffer"); }
        r
    }
}

/// The phase of the parser.
#[derive(Debug, Clone, Copy, PartialEq, Eq)]
pub enum ProtocolState {
    /// Expecting the two header bytes.
    WaitHeader,
    /// The payload length is known; expecting that many bytes.
    WaitPayload,
}

impl Default for ProtocolState {
    /// A parser starts by waiting for a header.
    fn default() -> (r: Self)
        ensures
            r == ProtocolState::WaitHeader,
    {
        ProtocolState::WaitHeader
    }
}

/// Parsing state of one frame: its announced payload length, the current
/// phase and, once decoded, the payload.
#[derive(Debug)]
pub struct OreProtocol {
    pub payload_size: u16,
    pub state: ProtocolState,
    pub payload: Option<bytes::BytesMut>,
}

impl Default for OreProtocol {
    /// The same fresh parser as `new`.
    fn default() -> (r: Self)
        ensures
            r.state == ProtocolState::WaitHeader,
            r.payload.is_none(),
            r.payload_size == 0,
    {
        OreProtocol::new()
    }
}

/// The payload length announced by header bytes `hi`, `lo` (big-endian).
pub open spec fn be16(hi: u8, lo: u8) -> nat {
    hi as nat * 256 + lo as nat
}

impl OreProtocol {
    /// A fresh parser waiting for a header.
    pub fn new() -> (r: Self)
        ensures
            r.state == ProtocolState::WaitHeader,
            r.payload.is_none(),
            r.payload_size == 0,
    {
        OreProtocol { payload_size: 0, state: ProtocolState::WaitHeader, payload: None }
    }

    /// Reads the two-byte big-endian header from the head of `buf` and moves
    /// to `WaitPayload`. With fewer than two bytes buffered nothing changes.
    pub fn parse_fixed_header(&mut self, buf: &mut bytes::BytesMut) -> (r: Result<(), OreErrorInsufficient>)
        ensures
            bytes_of(*old(buf)).len() < 2 <==> r.is_err(),
            r.is_err() ==> *final(self) == *old(self) && *final(buf) == *old(buf),
            r.is_ok() ==> {
                &&& final(self).payload_size == be16(bytes_of(*old(buf))[0], bytes_of(*old(buf))[1])
                &&& final(self).state == ProtocolState::WaitPayload
                &&& final(self).payload == old(self).payload
                &&& bytes_of(*final(buf)) == bytes_of(*old(buf)).subrange(2, bytes_of(*old(buf)).len() as int)
            },
    {
        if buf_len(buf) < 2 {
            return Err(OreErrorInsufficient);
        }
        let hi = buf_byte(buf, 0);
        let lo = buf_byte(buf, 1);
        self.payload_size = (hi as u16) * 256 + lo as u16;
        self.state = ProtocolState::WaitPayload;
        buf_advance(buf, 2);
        Ok(())
    }

    /// Moves the announced number of payload bytes from the head of `buf`
    /// into `payload`. With fewer bytes buffered nothing changes.
    pub fn parse_payload(&mut self, buf: &mut bytes::BytesMut) -> (r: Result<(), OreErrorInsufficient>)
        ensures
            bytes_of(*old(buf)).len() < old(self).payload_size <==> r.is_err(),
            r.is_err() ==> *final(self) == *old(self) && *final(buf) == *old(buf),
            r.is_ok() ==> {
                &&& final(self).payload is Some
                &&& bytes_of(final(self).payload->Some_0)
                    == bytes_of(*old(buf)).subrange(0, old(self).payload_size as int)
                &&& final(self).state == old(self).state
                &&& final(self).payload_size == old(self).payload_size
                &&& bytes_of(*final(buf)) == bytes_of(*old(buf)).subrange(
                    old(self).payload_size as int,
                    bytes_of(*old(buf)).len() as int,
                )
            },
    {
        let n = self.payload_size as usize;
        if buf_len(buf) < n {
            return Err(OreErrorInsufficient);
        }
        self.payload = Some(buf_split_to(buf, n));
        Ok(())
    }
}

} // verus!
