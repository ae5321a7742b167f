//! AMS frames: a header and its payload, with or without the prefix that TCP needs.
use vstd::prelude::*;

use crate::ams::{AmsHeader, AmsHeaderView, ADS_STATE_RESPONSE};
use crate::dispatcher::low32;
use crate::error::{outcome, AdsError, AdsErrorView};
use crate::text::{dec, with_number};
use crate::wire::{copy_range, le16, le32, put_slice, put_u16, put_u32, u16_at, u32_at};

verus! {

broadcast use crate::wire::group_wire;

#[derive(Debug)]
pub struct AmsFrame {
    pub header: AmsHeader,
    pub payload: Vec<u8>,
}

pub struct AmsFrameView {
    pub header: AmsHeaderView,
    pub payload: Seq<u8>,
}

impl View for AmsFrame {
    type V = AmsFrameView;

    open spec fn view(&self) -> AmsFrameView {
        AmsFrameView { header: self.header@, payload: self.payload@ }
    }
}

/// The bytes behind the six-byte TCP prefix: a command, here 0, and their length modulo 2^32.
pub open spec fn prefixed(command: u16, bytes: Seq<u8>) -> Seq<u8> {
    le16(command) + le32(low32(bytes.len() as int)) + bytes
}

impl AmsFrameView {
    pub open spec fn read(s: Seq<u8>) -> Result<AmsFrameView, AdsErrorView> {
        if s.len() < 32 {
            Err(AdsErrorView::ParseError("AMS frame too short: "@ + dec(s.len()) + " bytes (minimum 32)"@))
        } else {
            Ok(AmsFrameView { header: AmsHeaderView::read(s), payload: s.skip(32) })
        }
    }

    pub open spec fn bytes(self) -> Seq<u8> {
        self.header.bytes() + self.payload
    }

    /// The answer to this frame: addresses swapped, command and invoke id kept.
    pub open spec fn answer(self, payload: Seq<u8>) -> AmsFrameView {
        AmsFrameView { header: self.header.answer(0, low32(payload.len() as int)), payload }
    }
}

/// A frame read from its own bytes is the frame.
pub proof fn law_frame_read_of_bytes(f: AmsFrameView)
    requires
        f.header.valid(),
    ensures
        AmsFrameView::read(f.bytes()) == Ok::<AmsFrameView, AdsErrorView>(f),
{
    crate::ams::law_header_read_of_bytes(f.header, f.payload);
    assert(f.bytes().skip(32) =~= f.payload);
}

/// The bytes of a frame that was read are those it was read from.
pub proof fn law_frame_bytes_of_read(s: Seq<u8>)
    requires
        s.len() >= 32,
    ensures
        AmsFrameView::read(s) matches Ok(f) && f.bytes() == s,
{
    crate::ams::law_header_bytes_of_read(s);
    assert(s.take(32) + s.skip(32) =~= s);
    assert(s.subrange(0, 32) =~= s.take(32));
}

/// The TCP prefix gives the command and the length of what follows, and comes off again.
pub proof fn law_prefix_reads_back(command: u16, bytes: Seq<u8>)
    requires
        bytes.len() <= u32::MAX,
    ensures
        u16_at(prefixed(command, bytes), 0) == command,
        u32_at(prefixed(command, bytes), 2) == bytes.len(),
        prefixed(command, bytes).skip(6) == bytes,
{
    let s = prefixed(command, bytes);
    let n = bytes.len() as u32;
    crate::wire::law_le16_read(command);
    crate::wire::law_le32_read(n);
    assert(s.subrange(0, 2) =~= le16(command));
    assert(s.subrange(2, 6) =~= le32(n));
    crate::wire::lemma_window(s, 0, 2, 0);
    crate::wire::lemma_window(s, 2, 6, 0);
    assert(s.skip(6) =~= bytes);
}

/// Puts the six-byte TCP prefix before `bytes`.
pub fn with_prefix(command: u16, bytes: &[u8]) -> (r: Vec<u8>)
    ensures
        r@ == prefixed(command, bytes@),
{
    let mut r: Vec<u8> = Vec::new();
    put_u16(&mut r, command);
    put_u32(&mut r, (bytes.len() as u64 % 0x1_0000_0000) as u32);
    put_slice(&mut r, bytes);
    assert(r@ =~= prefixed(command, bytes@));
    r
}

impl AmsFrame {
    /// Reads a frame without prefix.
    pub fn decode(bytes: &[u8]) -> (r: Result<Self, AdsError>)
        ensures
            outcome(r) == AmsFrameView::read(bytes@),
    {
        if bytes.len() < 32 {
            return Err(
                AdsError::ParseError(with_number("AMS frame too short: ", bytes.len() as u64, " bytes (minimum 32)")),
            );
        }
        let header = AmsHeader::parse(bytes)?;
        let payload = copy_range(bytes, 32, bytes.len());
        assert(payload@ =~= bytes@.skip(32));
        Ok(AmsFrame { header, payload })
    }

    pub fn encode(&self) -> (r: Vec<u8>)
        ensures
            r@ == self@.bytes(),
    {
        let mut r = self.header.serialize();
        put_slice(&mut r, &self.payload);
        r
    }

    /// The bytes of the frame behind the TCP prefix.
    pub fn encode_with_tcp_header(&self) -> (r: Vec<u8>)
        ensures
            r@ == prefixed(0, self@.bytes()),
    {
        with_prefix(0, &self.encode())
    }

    /// The answer to this frame.
    pub fn build_response(&self, payload: Vec<u8>) -> (r: Self)
        ensures
            r@ == self@.answer(payload@),
    {
        AmsFrame {
            header: AmsHeader {
                target_net_id: self.header.source_net_id,
                target_port: self.header.source_port,
                source_net_id: self.header.target_net_id,
                source_port: self.header.target_port,
                command_id: self.header.command_id,
                state_flags: ADS_STATE_RESPONSE,
                data_length: (payload.len() as u64 % 0x1_0000_0000) as u32,
                error_code: 0,
                invoke_id: self.header.invoke_id,
            },
            payload,
        }
    }
}

} // verus!
