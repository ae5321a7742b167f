//! Reading from a PLC over AMS/TCP: requests, replies, and the discovery of symbols.
use vstd::prelude::*;

use crate::ams::{
    AmsHeader, AmsHeaderView, AmsNetId, AmsTcpFrame, AmsTcpFrameView, AmsTcpHeader, ADS_CMD_READ,
    ADS_STATE_REQUEST, ADS_STATE_RESPONSE,
};
use crate::dispatcher::low32;
use crate::error::{outcome, AdsError, AdsErrorView};
use crate::symbol::{
    entries_from, entry_views, parse_symbol_table, AdsSymbolEntry, AdsSymbolUploadInfo, SymbolEntryView,
    ADSIGRP_SYM_UPLOAD, ADSIGRP_SYM_UPLOADINFO,
};
use crate::text::{hex, push_padded_hex, zero_padded};
use crate::wire::{copy_range, get_u32, le32, put_slice, put_u32, u32_at};

verus! {

broadcast use crate::wire::group_wire;

/// What an ADS read asks for.
#[derive(Debug, Clone, Copy, PartialEq, Eq, Structural)]
pub struct AdsReadRequest {
    pub index_group: u32,
    pub index_offset: u32,
    pub read_length: u32,
}

impl View for AdsReadRequest {
    type V = AdsReadRequest;

    open spec fn view(&self) -> AdsReadRequest {
        *self
    }
}

impl AdsReadRequest {
    pub open spec fn read(s: Seq<u8>) -> Result<AdsReadRequest, AdsErrorView> {
        if s.len() < 12 {
            Err(AdsErrorView::IncompleteMessage { expected: 12, got: s.len() as int })
        } else {
            Ok(
                AdsReadRequest {
                    index_group: u32_at(s, 0),
                    index_offset: u32_at(s, 4),
                    read_length: u32_at(s, 8),
                },
            )
        }
    }

    pub open spec fn bytes(self) -> Seq<u8> {
        le32(self.index_group) + le32(self.index_offset) + le32(self.read_length)
    }

    pub fn serialize(&self) -> (r: Vec<u8>)
        ensures
            r@ == self.bytes(),
    {
        let mut buf: Vec<u8> = Vec::new();
        put_u32(&mut buf, self.index_group);
        put_u32(&mut buf, self.index_offset);
        put_u32(&mut buf, self.read_length);
        assert(buf@ =~= self.bytes());
        buf
    }

    pub fn parse(data: &[u8]) -> (r: Result<Self, AdsError>)
        ensures
            outcome(r) == AdsReadRequest::read(data@),
    {
        if data.len() < 12 {
            return Err(AdsError::IncompleteMessage { expected: 12, got: data.len() as u64 });
        }
        Ok(
            AdsReadRequest {
                index_group: get_u32(data, 0),
                index_offset: get_u32(data, 4),
                read_length: get_u32(data, 8),
            },
        )
    }
}

/// A read request read from its own bytes is the request, whatever stands behind them.
pub proof fn law_read_request_reads_back(q: AdsReadRequest, after: Seq<u8>)
    ensures
        AdsReadRequest::read(q.bytes() + after) == Ok::<AdsReadRequest, AdsErrorView>(q),
{
    let s = q.bytes() + after;
    crate::wire::law_le32_read(q.index_group);
    crate::wire::law_le32_read(q.index_offset);
    crate::wire::law_le32_read(q.read_length);
    assert(s.subrange(0, 4) =~= le32(q.index_group));
    assert(s.subrange(4, 8) =~= le32(q.index_offset));
    assert(s.subrange(8, 12) =~= le32(q.read_length));
    crate::wire::lemma_window(s, 0, 4, 0);
    crate::wire::lemma_window(s, 4, 8, 0);
    crate::wire::lemma_window(s, 8, 12, 0);
}

/// The result code of an ADS read, and the data that was read.
#[derive(Debug, PartialEq, Eq)]
pub struct AdsReadResponse {
    pub result: u32,
    pub data: Vec<u8>,
}

pub struct ReadResponseView {
    pub result: u32,
    pub data: Seq<u8>,
}

impl View for AdsReadResponse {
    type V = ReadResponseView;

    open spec fn view(&self) -> ReadResponseView {
        ReadResponseView { result: self.result, data: self.data@ }
    }
}

impl ReadResponseView {
    pub open spec fn read(s: Seq<u8>) -> Result<ReadResponseView, AdsErrorView> {
        if s.len() < 8 {
            Err(AdsErrorView::IncompleteMessage { expected: 8, got: s.len() as int })
        } else if s.len() < 8 + u32_at(s, 4) {
            Err(AdsErrorView::IncompleteMessage { expected: 8 + u32_at(s, 4), got: s.len() as int })
        } else {
            Ok(ReadResponseView { result: u32_at(s, 0), data: s.subrange(8, 8 + u32_at(s, 4)) })
        }
    }

    pub open spec fn bytes(self) -> Seq<u8> {
        le32(self.result) + le32(low32(self.data.len() as int)) + self.data
    }
}

/// A read response read from its own bytes is the response, whatever stands behind them.
pub proof fn law_read_response_reads_back(p: ReadResponseView, after: Seq<u8>)
    requires
        p.data.len() <= u32::MAX,
    ensures
        ReadResponseView::read(p.bytes() + after) == Ok::<ReadResponseView, AdsErrorView>(p),
{
    let s = p.bytes() + after;
    let n = p.data.len() as u32;
    crate::wire::law_le32_read(p.result);
    crate::wire::law_le32_read(n);
    assert(s.subrange(0, 4) =~= le32(p.result));
    assert(s.subrange(4, 8) =~= le32(n));
    crate::wire::lemma_window(s, 0, 4, 0);
    crate::wire::lemma_window(s, 4, 8, 0);
    assert(s.subrange(8, 8 + n) =~= p.data);
}

impl AdsReadResponse {
    pub fn parse(data: &[u8]) -> (r: Result<Self, AdsError>)
        ensures
            outcome(r) == ReadResponseView::read(data@),
    {
        if data.len() < 8 {
            return Err(AdsError::IncompleteMessage { expected: 8, got: data.len() as u64 });
        }
        let read_length: u32 = get_u32(data, 4);
        if ((data.len() - 8) as u64) < read_length as u64 {
            return Err(
                AdsError::IncompleteMessage { expected: 8 + read_length as u64, got: data.len() as u64 },
            );
        }
        Ok(AdsReadResponse { result: get_u32(data, 0), data: copy_range(data, 8, 8 + read_length as usize) })
    }

    pub fn serialize(&self) -> (r: Vec<u8>)
        ensures
            r@ == self@.bytes(),
    {
        let mut buf: Vec<u8> = Vec::new();
        put_u32(&mut buf, self.result);
        put_u32(&mut buf, (self.data.len() as u64 % 0x1_0000_0000) as u32);
        put_slice(&mut buf, &self.data);
        assert(buf@ =~= self@.bytes());
        buf
    }
}

/// The frame of a read request.
pub open spec fn read_request_frame(
    source_net_id: Seq<u8>,
    source_port: u16,
    target_net_id: Seq<u8>,
    target_port: u16,
    request: AdsReadRequest,
    invoke_id: u32,
) -> AmsTcpFrameView {
    AmsTcpFrameView {
        tcp_header: AmsTcpHeader { reserved: 0, data_length: 44 },
        ams_header: AmsHeaderView {
            target_net_id,
            target_port,
            source_net_id,
            source_port,
            command_id: ADS_CMD_READ,
            state_flags: ADS_STATE_REQUEST,
            data_length: 12,
            error_code: 0,
            invoke_id,
        },
        payload: request.bytes(),
    }
}

/// Builds the frame of a read request.
pub fn build_read_request_frame(
    source_net_id: AmsNetId,
    source_port: u16,
    target_net_id: AmsNetId,
    target_port: u16,
    index_group: u32,
    index_offset: u32,
    read_length: u32,
    invoke_id: u32,
) -> (r: AmsTcpFrame)
    ensures
        r@ == read_request_frame(
            source_net_id@,
            source_port,
            target_net_id@,
            target_port,
            (AdsReadRequest { index_group, index_offset, read_length }),
            invoke_id,
        ),
{
    let request = AdsReadRequest { index_group, index_offset, read_length };
    AmsTcpFrame {
        tcp_header: AmsTcpHeader { reserved: 0, data_length: 44 },
        ams_header: AmsHeader {
            target_net_id,
            target_port,
            source_net_id,
            source_port,
            command_id: ADS_CMD_READ,
            state_flags: ADS_STATE_REQUEST,
            data_length: 12,
            error_code: 0,
            invoke_id,
        },
        payload: request.serialize(),
    }
}

/// Builds the frame that answers a read request.
pub fn build_read_response_frame(request: &AmsTcpFrame, result_code: u32, data: &[u8]) -> (r: AmsTcpFrame)
    requires
        data@.len() + 40 <= u32::MAX,
    ensures
        r@ == request@.answer(0, (ReadResponseView { result: result_code, data: data@ }).bytes()),
{
    let response = AdsReadResponse { result: result_code, data: copy_range(data, 0, data.len()) };
    assert(response.data@ =~= data@);
    let payload = response.serialize();
    request.make_response(0, payload)
}

/// A number as `0x` and eight digits.
pub open spec fn hex32(n: u32) -> Seq<char> {
    "0x"@ + zero_padded(hex(n as nat), 8)
}

/// What a reply, without its TCP prefix, says.
pub open spec fn reply_outcome(s: Seq<u8>) -> Result<ReadResponseView, AdsErrorView> {
    if s.len() < 32 {
        Err(AdsErrorView::IncompleteMessage { expected: 32, got: s.len() as int })
    } else {
        let h = AmsHeaderView::read(s);
        if h.state_flags != ADS_STATE_RESPONSE {
            Err(
                AdsErrorView::ParseError(
                    "expected response state flags 0x0005, got 0x"@ + zero_padded(hex(h.state_flags as nat), 4),
                ),
            )
        } else if h.error_code != 0 {
            Err(AdsErrorView::ParseError("ADS error code: "@ + hex32(h.error_code)))
        } else {
            ReadResponseView::read(s.skip(32))
        }
    }
}

/// What a reply to a request for the symbol counts says.
pub open spec fn info_outcome(s: Seq<u8>) -> Result<AdsSymbolUploadInfo, AdsErrorView> {
    match reply_outcome(s) {
        Err(e) => Err(e),
        Ok(p) => if p.result != 0 {
            Err(AdsErrorView::ParseError("ADS READ error for symbol info: "@ + hex32(p.result)))
        } else {
            AdsSymbolUploadInfo::read(p.data)
        },
    }
}

/// What a reply to a request for the symbol table says.
pub open spec fn table_outcome(s: Seq<u8>) -> Result<Seq<SymbolEntryView>, AdsErrorView> {
    match reply_outcome(s) {
        Err(e) => Err(e),
        Ok(p) => if p.result != 0 {
            Err(AdsErrorView::ParseError("ADS READ error for symbol table: "@ + hex32(p.result)))
        } else {
            entries_from(p.data, 0, Seq::empty())
        },
    }
}

/// A read that is answered gives the data and the result code of the answer.
pub proof fn law_answered_read_gives_the_data(request: AmsTcpFrameView, result: u32, data: Seq<u8>)
    requires
        request.ams_header.valid(),
        data.len() + 40 <= u32::MAX,
    ensures
        ({
            let p = ReadResponseView { result, data };
            reply_outcome(request.answer(0, p.bytes()).bytes().skip(6)) == Ok::<ReadResponseView, AdsErrorView>(p)
        }),
{
    let p = ReadResponseView { result, data };
    let f = request.answer(0, p.bytes());
    assert(p.bytes().len() == 8 + data.len());
    let tail = f.ams_header.bytes() + f.payload;
    assert(f.bytes().skip(6) =~= tail);
    crate::ams::law_header_read_of_bytes(f.ams_header, f.payload);
    assert(tail.skip(32) =~= f.payload);
    law_read_response_reads_back(p, Seq::empty());
    assert(p.bytes() + Seq::<u8>::empty() =~= p.bytes());
}

/// What is asked for is what the other side reads.
pub proof fn law_read_request_arrives(
    source_net_id: Seq<u8>,
    source_port: u16,
    target_net_id: Seq<u8>,
    target_port: u16,
    request: AdsReadRequest,
    invoke_id: u32,
)
    requires
        source_net_id.len() == 6,
        target_net_id.len() == 6,
    ensures
        ({
            let f = read_request_frame(
                source_net_id,
                source_port,
                target_net_id,
                target_port,
                request,
                invoke_id,
            );
            &&& AmsTcpFrameView::read(f.bytes()) == Ok::<AmsTcpFrameView, AdsErrorView>(f)
            &&& AdsReadRequest::read(f.payload) == Ok::<AdsReadRequest, AdsErrorView>(request)
        }),
{
    let f = read_request_frame(source_net_id, source_port, target_net_id, target_port, request, invoke_id);
    assert(f.payload.len() == 12);
    crate::ams::law_tcp_frame_read_of_bytes(f);
    law_read_request_reads_back(request, Seq::empty());
    assert(request.bytes() + Seq::<u8>::empty() =~= request.bytes());
}

/// One side of a connection to a PLC: the addresses, and the invoke id of the next request.
#[derive(Debug)]
pub struct AdsClient {
    pub source_net_id: AmsNetId,
    pub source_port: u16,
    pub target_net_id: AmsNetId,
    pub target_port: u16,
    pub invoke_id: u32,
}

fn hex_message(prefix: &str, n: u32) -> (r: String)
    ensures
        r@ == prefix@ + hex32(n),
{
    let mut r = prefix.to_string();
    r.append("0x");
    push_padded_hex(&mut r, n as u64, 8);
    assert(r@ =~= prefix@ + hex32(n));
    r
}

impl AdsClient {
    /// The bytes of a read request, and the client with the next invoke id.
    pub open spec fn asked(self, request: AdsReadRequest) -> Seq<u8> {
        read_request_frame(
            self.source_net_id@,
            self.source_port,
            self.target_net_id@,
            self.target_port,
            request,
            self.invoke_id,
        ).bytes()
    }

    /// The client after a request: invoke ids count up and wrap around.
    pub open spec fn next(self) -> AdsClient {
        AdsClient { invoke_id: low32(self.invoke_id + 1), ..self }
    }

    pub fn new(source_net_id: AmsNetId, source_port: u16, target_net_id: AmsNetId, target_port: u16) -> (r: Self)
        ensures
            r == (AdsClient { source_net_id, source_port, target_net_id, target_port, invoke_id: 1 }),
    {
        AdsClient { source_net_id, source_port, target_net_id, target_port, invoke_id: 1 }
    }

    /// The bytes to send for a read.
    pub fn begin_read(&mut self, index_group: u32, index_offset: u32, read_length: u32) -> (r: Vec<u8>)
        ensures
            r@ == old(self).asked((AdsReadRequest { index_group, index_offset, read_length })),
            *final(self) == old(self).next(),
    {
        let invoke_id: u32 = self.invoke_id;
        self.invoke_id = self.invoke_id.wrapping_add(1);
        build_read_request_frame(
            self.source_net_id,
            self.source_port,
            self.target_net_id,
            self.target_port,
            index_group,
            index_offset,
            read_length,
            invoke_id,
        ).serialize()
    }

    /// How many bytes follow the six-byte prefix of a reply.
    pub fn reply_length(prefix: &[u8]) -> (r: Result<u32, AdsError>)
        ensures
            match AmsTcpHeader::read(prefix@) {
                Ok(h) => r == Ok::<u32, AdsError>(h.data_length),
                Err(e) => r matches Err(x) && x@ == e,
            },
    {
        match AmsTcpHeader::parse(prefix) {
            Ok(h) => Ok(h.data_length),
            Err(e) => Err(e),
        }
    }

    /// Reads a reply without its prefix.
    pub fn read_reply(rest: &[u8]) -> (r: Result<AdsReadResponse, AdsError>)
        ensures
            outcome(r) == reply_outcome(rest@),
    {
        if rest.len() < 32 {
            return Err(AdsError::IncompleteMessage { expected: 32, got: rest.len() as u64 });
        }
        let header = AmsHeader::parse(rest)?;
        if header.state_flags != ADS_STATE_RESPONSE {
            let mut message = String::from_str("expected response state flags 0x0005, got 0x");
            push_padded_hex(&mut message, header.state_flags as u64, 4);
            return Err(AdsError::ParseError(message));
        }
        if header.error_code != 0 {
            return Err(AdsError::ParseError(hex_message("ADS error code: ", header.error_code)));
        }
        let body = vstd::slice::slice_subrange(rest, 32, rest.len());
        assert(body@ =~= rest@.skip(32));
        AdsReadResponse::parse(body)
    }

    /// The bytes to send for the symbol counts.
    pub fn begin_symbol_info(&mut self) -> (r: Vec<u8>)
        ensures
            r@ == old(self).asked(
                (AdsReadRequest { index_group: ADSIGRP_SYM_UPLOADINFO, index_offset: 0, read_length: 8 }),
            ),
            *final(self) == old(self).next(),
    {
        self.begin_read(ADSIGRP_SYM_UPLOADINFO, 0, 8)
    }

    /// The symbol counts in a reply.
    pub fn read_symbol_info(rest: &[u8]) -> (r: Result<AdsSymbolUploadInfo, AdsError>)
        ensures
            outcome(r) == info_outcome(rest@),
    {
        let response = match AdsClient::read_reply(rest) {
            Ok(p) => p,
            Err(e) => {
                return Err(e);
            },
        };
        if response.result != 0 {
            return Err(
                AdsError::ParseError(hex_message("ADS READ error for symbol info: ", response.result)),
            );
        }
        AdsSymbolUploadInfo::parse(&response.data)
    }

    /// The bytes to send for the whole symbol table.
    pub fn begin_symbol_table(&mut self, info: &AdsSymbolUploadInfo) -> (r: Vec<u8>)
        ensures
            r@ == old(self).asked(
                (AdsReadRequest {
                    index_group: ADSIGRP_SYM_UPLOAD,
                    index_offset: 0,
                    read_length: info.symbol_size,
                }),
            ),
            *final(self) == old(self).next(),
    {
        self.begin_read(ADSIGRP_SYM_UPLOAD, 0, info.symbol_size)
    }

    /// The symbol table in a reply.
    pub fn read_symbol_table(rest: &[u8]) -> (r: Result<Vec<AdsSymbolEntry>, AdsError>)
        ensures
            match r {
                Ok(v) => table_outcome(rest@) == Ok::<Seq<SymbolEntryView>, AdsErrorView>(entry_views(v@)),
                Err(e) => table_outcome(rest@) == Err::<Seq<SymbolEntryView>, AdsErrorView>(e@),
            },
    {
        let response = match AdsClient::read_reply(rest) {
            Ok(p) => p,
            Err(e) => {
                return Err(e);
            },
        };
        if response.result != 0 {
            return Err(
                AdsError::ParseError(hex_message("ADS READ error for symbol table: ", response.result)),
            );
        }
        parse_symbol_table(&response.data)
    }
}

} // verus!
