//! Where each field of headers, requests and answers stands, and what is read of bytes that are
//! cut short or report an error.
use vstd::prelude::*;
use vstd::utf8::{encode_utf8, encode_utf8_decode_utf8, encode_utf8_valid_utf8};

use crate::ads_client::{
    info_outcome, law_read_request_arrives, reply_outcome, table_outcome, AdsClient, AdsReadRequest, ReadResponseView,
};
use crate::ams::{
    header_outcome, law_header_read_of_bytes, AdsWriteRequestView, AmsHeaderView, AmsTcpFrame, AmsTcpFrameView,
    AmsTcpHeader,
};
use crate::client::browse::{info_of, UploadInfo};
use crate::client::error::{told, ClientError, ClientErrorView};
use crate::client::read_data;
use crate::diagnostics::viewed;
use crate::diagnostics_poller_laws::law_first_zero;
use crate::dispatcher::DispatcherError;
use crate::encoding::lemma_dword_read;
use crate::error::{outcome, AdsError, AdsErrorView};
use crate::frame::AmsFrameView;
use crate::models::{LogLevel, SpanKind, SpanStatusCode};
use crate::protocol::{hex_id, unset, AdsSpanEntry};
use crate::reader::{took, BytesReader, Step};
use crate::symbol::{
    entries_from, entry_at, law_table_reads_back, null_terminated, table_bytes, AdsSymbolUploadInfo, SymbolEntryView,
};
use crate::text::{dec, hex, zero_padded};
use crate::text_laws::{hex_value, is_hex, law_hex_reads_back, law_padded_hex_reads_back};
use crate::time::{filetime, Timestamp};
use crate::transport::mqtt::CertificateError;
use crate::value_laws::{law_double_words_are_little_endian, law_words_are_little_endian, little_endian};
use crate::wire::{le16, le32, u32_at, zero_from};

verus! {

broadcast use crate::wire::group_wire;

// Layouts.

/// A header takes 32 bytes: the target's Net ID and port, the source's, the command, the state
/// flags, the length, the error and the invoke id, in this order and each number low byte first.
pub proof fn law_header_layout(h: AmsHeaderView)
    requires
        h.valid(),
    ensures
        ({
            let s = h.bytes();
            &&& s.len() == 32
            &&& s.subrange(0, 6) == h.target_net_id
            &&& s.subrange(6, 8) == little_endian(h.target_port as int, 2)
            &&& s.subrange(8, 14) == h.source_net_id
            &&& s.subrange(14, 16) == little_endian(h.source_port as int, 2)
            &&& s.subrange(16, 18) == little_endian(h.command_id as int, 2)
            &&& s.subrange(18, 20) == little_endian(h.state_flags as int, 2)
            &&& s.subrange(20, 24) == little_endian(h.data_length as int, 4)
            &&& s.subrange(24, 28) == little_endian(h.error_code as int, 4)
            &&& s.subrange(28, 32) == little_endian(h.invoke_id as int, 4)
        }),
{
    let s = h.bytes();
    law_words_are_little_endian(h.target_port);
    law_words_are_little_endian(h.source_port);
    law_words_are_little_endian(h.command_id);
    law_words_are_little_endian(h.state_flags);
    law_double_words_are_little_endian(h.data_length);
    law_double_words_are_little_endian(h.error_code);
    law_double_words_are_little_endian(h.invoke_id);
    assert(s.subrange(0, 6) =~= h.target_net_id);
    assert(s.subrange(6, 8) =~= le16(h.target_port));
    assert(s.subrange(8, 14) =~= h.source_net_id);
    assert(s.subrange(14, 16) =~= le16(h.source_port));
    assert(s.subrange(16, 18) =~= le16(h.command_id));
    assert(s.subrange(18, 20) =~= le16(h.state_flags));
    assert(s.subrange(20, 24) =~= le32(h.data_length));
    assert(s.subrange(24, 28) =~= le32(h.error_code));
    assert(s.subrange(28, 32) =~= le32(h.invoke_id));
}

/// A TCP prefix takes six bytes: two reserved ones and the length. A frame is its prefix, its
/// header and its payload.
pub proof fn law_prefix_layout(h: AmsTcpHeader, f: AmsTcpFrameView)
    ensures
        h.bytes() == little_endian(h.reserved as int, 2) + little_endian(h.data_length as int, 4),
        f.bytes() == f.tcp_header.bytes() + f.ams_header.bytes() + f.payload,
{
    law_words_are_little_endian(h.reserved);
    law_double_words_are_little_endian(h.data_length);
}

/// Requests and answers are sequences of four-byte numbers, low byte first, and data: a read has
/// its place and its length, a write its place, the length of its data and the data, an answer to
/// a read its result, the length of its data and the data.
pub proof fn law_request_layouts(q: AdsReadRequest, w: AdsWriteRequestView, p: ReadResponseView, i: AdsSymbolUploadInfo)
    requires
        w.data.len() <= u32::MAX,
        p.data.len() <= u32::MAX,
    ensures
        q.bytes() == little_endian(q.index_group as int, 4) + little_endian(q.index_offset as int, 4) + little_endian(
            q.read_length as int,
            4,
        ),
        w.bytes() == little_endian(w.index_group as int, 4) + little_endian(w.index_offset as int, 4) + little_endian(
            w.data.len() as int,
            4,
        ) + w.data,
        p.bytes() == little_endian(p.result as int, 4) + little_endian(p.data.len() as int, 4) + p.data,
        i.bytes() == little_endian(i.symbol_count as int, 4) + little_endian(i.symbol_size as int, 4),
{
    law_double_words_are_little_endian(q.index_group);
    law_double_words_are_little_endian(q.index_offset);
    law_double_words_are_little_endian(q.read_length);
    law_double_words_are_little_endian(w.index_group);
    law_double_words_are_little_endian(w.index_offset);
    law_double_words_are_little_endian(w.data.len() as u32);
    law_double_words_are_little_endian(p.result);
    law_double_words_are_little_endian(p.data.len() as u32);
    law_double_words_are_little_endian(i.symbol_count);
    law_double_words_are_little_endian(i.symbol_size);
}

/// The entry of a symbol has its whole length, its place, size, type and flags in four bytes each,
/// the lengths of its three texts in two bytes each, and the texts with a zero behind each.
pub proof fn law_symbol_layout(e: SymbolEntryView)
    requires
        e.writable(),
    ensures
        ({
            let name = encode_utf8(e.name);
            let kind = encode_utf8(e.data_type_name);
            let comment = encode_utf8(e.comment);
            let numbers = little_endian((33 + name.len() + kind.len() + comment.len()) as int, 4) + little_endian(
                e.index_group as int,
                4,
            ) + little_endian(e.index_offset as int, 4) + little_endian(e.size as int, 4) + little_endian(
                e.data_type as int,
                4,
            ) + little_endian(e.flags as int, 4) + little_endian(name.len() as int, 2) + little_endian(
                kind.len() as int,
                2,
            ) + little_endian(comment.len() as int, 2);
            e.bytes() == numbers + name.push(0) + kind.push(0) + comment.push(0)
        }),
{
    let name = encode_utf8(e.name);
    let kind = encode_utf8(e.data_type_name);
    let comment = encode_utf8(e.comment);
    reveal(SymbolEntryView::header);
    law_double_words_are_little_endian((33 + name.len() + kind.len() + comment.len()) as u32);
    law_double_words_are_little_endian(e.index_group);
    law_double_words_are_little_endian(e.index_offset);
    law_double_words_are_little_endian(e.size);
    law_double_words_are_little_endian(e.data_type);
    law_double_words_are_little_endian(e.flags);
    law_words_are_little_endian(name.len() as u16);
    law_words_are_little_endian(kind.len() as u16);
    law_words_are_little_endian(comment.len() as u16);
}

/// The announcement of an upload is six numbers: how many symbols, types and others there are, and
/// how many bytes each of these take.
pub proof fn law_upload_announcements_read_back(info: UploadInfo, after: Seq<u8>, short: Seq<u8>)
    ensures
        info_of(
            le32(info.symbol_count) + le32(info.symbol_length) + le32(info.datatype_count) + le32(info.datatype_length)
                + le32(info.extra_count) + le32(info.extra_length) + after,
        ) == Ok::<UploadInfo, ClientErrorView>(info),
        short.len() < 24 ==> info_of(short) == Err::<UploadInfo, ClientErrorView>(
            ClientErrorView::Decode("upload_info: need 24 bytes, got "@ + dec(short.len())),
        ),
{
    let s = le32(info.symbol_count) + le32(info.symbol_length) + le32(info.datatype_count) + le32(info.datatype_length)
        + le32(info.extra_count) + le32(info.extra_length) + after;
    assert(s.subrange(0, 4) =~= le32(info.symbol_count));
    assert(s.subrange(4, 8) =~= le32(info.symbol_length));
    assert(s.subrange(8, 12) =~= le32(info.datatype_count));
    assert(s.subrange(12, 16) =~= le32(info.datatype_length));
    assert(s.subrange(16, 20) =~= le32(info.extra_count));
    assert(s.subrange(20, 24) =~= le32(info.extra_length));
    lemma_dword_read(s, 0, info.symbol_count);
    lemma_dword_read(s, 4, info.symbol_length);
    lemma_dword_read(s, 8, info.datatype_count);
    lemma_dword_read(s, 12, info.datatype_length);
    lemma_dword_read(s, 16, info.extra_count);
    lemma_dword_read(s, 20, info.extra_length);
}

// What is cut short.

/// A header, a prefix, a request or an answer whose fixed part is cut short is not read; neither
/// is one that holds less data than it says.
pub proof fn law_cut_messages_are_not_read(s: Seq<u8>, a: u32, b: u32, n: u32, data: Seq<u8>)
    ensures
        s.len() < 32 ==> header_outcome(s) is Err && AmsFrameView::read(s) is Err,
        s.len() >= 32 ==> header_outcome(s) is Ok && AmsFrameView::read(s) is Ok,
        s.len() < 6 ==> AmsTcpHeader::read(s) == Err::<AmsTcpHeader, AdsErrorView>(
            AdsErrorView::IncompleteMessage { expected: 6, got: s.len() as int },
        ),
        s.len() < 12 ==> AdsReadRequest::read(s) == Err::<AdsReadRequest, AdsErrorView>(
            AdsErrorView::IncompleteMessage { expected: 12, got: s.len() as int },
        ),
        s.len() < 12 ==> AdsWriteRequestView::read(s) is Err,
        s.len() < 8 ==> ReadResponseView::read(s) == Err::<ReadResponseView, AdsErrorView>(
            AdsErrorView::IncompleteMessage { expected: 8, got: s.len() as int },
        ),
        s.len() < 8 ==> AdsSymbolUploadInfo::read(s) == Err::<AdsSymbolUploadInfo, AdsErrorView>(
            AdsErrorView::IncompleteMessage { expected: 8, got: s.len() as int },
        ),
        s.len() < 38 ==> AmsTcpFrameView::read(s) == Err::<AmsTcpFrameView, AdsErrorView>(
            AdsErrorView::IncompleteMessage { expected: 38, got: s.len() as int },
        ),
        data.len() < n ==> AdsWriteRequestView::read(le32(a) + le32(b) + le32(n) + data) is Err,
        data.len() < n ==> ReadResponseView::read(le32(a) + le32(n) + data) == Err::<ReadResponseView, AdsErrorView>(
            AdsErrorView::IncompleteMessage { expected: 8 + n, got: 8 + data.len() as int },
        ),
{
    let w = le32(a) + le32(b) + le32(n) + data;
    assert(w.subrange(8, 12) =~= le32(n));
    lemma_dword_read(w, 8, n);
    let p = le32(a) + le32(n) + data;
    assert(p.subrange(4, 8) =~= le32(n));
    lemma_dword_read(p, 4, n);
}

/// A frame that announces more bytes than it has is not read.
pub proof fn law_cut_frames_are_not_read(f: AmsTcpFrameView)
    requires
        f.ams_header.valid(),
        f.tcp_header.data_length > 32 + f.payload.len(),
    ensures
        AmsTcpFrameView::read(f.bytes()) == Err::<AmsTcpFrameView, AdsErrorView>(
            AdsErrorView::IncompleteMessage {
                expected: 6 + f.tcp_header.data_length,
                got: 38 + f.payload.len() as int,
            },
        ),
{
    let s = f.bytes();
    assert(s.subrange(2, 6) =~= le32(f.tcp_header.data_length));
    lemma_dword_read(s, 2, f.tcp_header.data_length);
}

/// Only a write has a write request: the one in its payload.
pub proof fn law_only_writes_have_write_requests(f: AmsTcpFrameView, w: AdsWriteRequestView, after: Seq<u8>)
    requires
        w.data.len() <= u32::MAX,
        f.payload == w.bytes() + after,
    ensures
        f.ams_header.command_id == 3 ==> AmsTcpFrame::write_request_spec(f) == Ok::<AdsWriteRequestView, AdsErrorView>(w),
        f.ams_header.command_id != 3 ==> AmsTcpFrame::write_request_spec(f) == Err::<AdsWriteRequestView, AdsErrorView>(
            AdsErrorView::ParseError("Expected Write command (3), got "@ + dec(f.ams_header.command_id as nat)),
        ),
{
    crate::ams::law_write_request_read_of_bytes(w, after);
}

// Answers to the client.

/// An answer that is no response, or that reports an error, gives nothing but an error that says
/// so; and one that is cut short is incomplete.
pub proof fn law_bad_replies_are_errors(h: AmsHeaderView, p: ReadResponseView, short: Seq<u8>)
    requires
        h.valid(),
    ensures
        ({
            let s = h.bytes() + p.bytes();
            &&& h.state_flags != 5 ==> reply_outcome(s) == Err::<ReadResponseView, AdsErrorView>(
                AdsErrorView::ParseError(
                    "expected response state flags 0x0005, got 0x"@ + zero_padded(hex(h.state_flags as nat), 4),
                ),
            )
            &&& h.state_flags == 5 && h.error_code != 0 ==> reply_outcome(s) == Err::<ReadResponseView, AdsErrorView>(
                AdsErrorView::ParseError("ADS error code: "@ + ("0x"@ + zero_padded(hex(h.error_code as nat), 8))),
            )
            &&& h.state_flags == 5 && h.error_code == 0 && p.data.len() <= u32::MAX ==> reply_outcome(s) == Ok::<
                ReadResponseView,
                AdsErrorView,
            >(p)
        }),
        short.len() < 32 ==> reply_outcome(short) == Err::<ReadResponseView, AdsErrorView>(
            AdsErrorView::IncompleteMessage { expected: 32, got: short.len() as int },
        ),
{
    let s = h.bytes() + p.bytes();
    law_header_read_of_bytes(h, p.bytes());
    assert(h.bytes().len() == 32);
    assert(s.skip(32) =~= p.bytes());
    if p.data.len() <= u32::MAX {
        crate::ads_client::law_read_response_reads_back(p, Seq::empty());
        assert(p.bytes() + Seq::<u8>::empty() =~= p.bytes());
    }
}

/// The symbol counts and the symbol table that a reply carries are read back; a result other than
/// zero is an error.
pub proof fn law_symbol_replies_read_back(
    h: AmsHeaderView,
    info: AdsSymbolUploadInfo,
    entries: Seq<SymbolEntryView>,
    result: u32,
)
    requires
        h.valid(),
        h.state_flags == 5,
        h.error_code == 0,
        forall|i: int| 0 <= i < entries.len() ==> (#[trigger] entries[i]).writable(),
        table_bytes(entries).len() <= u32::MAX,
    ensures
        ({
            let counts = h.bytes() + (ReadResponseView { result, data: info.bytes() }).bytes();
            let table = h.bytes() + (ReadResponseView { result, data: table_bytes(entries) }).bytes();
            &&& result == 0 ==> info_outcome(counts) == Ok::<AdsSymbolUploadInfo, AdsErrorView>(info)
            &&& result == 0 ==> table_outcome(table) == Ok::<Seq<SymbolEntryView>, AdsErrorView>(entries)
            &&& result != 0 ==> info_outcome(counts) == Err::<AdsSymbolUploadInfo, AdsErrorView>(
                AdsErrorView::ParseError(
                    "ADS READ error for symbol info: "@ + ("0x"@ + zero_padded(hex(result as nat), 8)),
                ),
            )
            &&& result != 0 ==> table_outcome(table) == Err::<Seq<SymbolEntryView>, AdsErrorView>(
                AdsErrorView::ParseError(
                    "ADS READ error for symbol table: "@ + ("0x"@ + zero_padded(hex(result as nat), 8)),
                ),
            )
        }),
{
    law_bad_replies_are_errors(h, ReadResponseView { result, data: info.bytes() }, Seq::empty());
    law_bad_replies_are_errors(h, ReadResponseView { result, data: table_bytes(entries) }, Seq::empty());
    assert(info.bytes().len() == 8);
    crate::symbol::law_upload_info_reads_back(info, Seq::empty());
    assert(info.bytes() + Seq::<u8>::empty() =~= info.bytes());
    law_table_reads_back(entries, Seq::empty());
    assert(table_bytes(entries) + Seq::<u8>::empty() =~= table_bytes(entries));
}

/// What a client asks for arrives as it was asked: from its own address to the PLC's, as a read
/// request under its next invoke id; the ids count up by one.
pub proof fn law_client_requests_arrive(c: AdsClient, q: AdsReadRequest)
    ensures
        AmsTcpFrameView::read(c.asked(q)) matches Ok(f) && {
            &&& f.ams_header.target_net_id == c.target_net_id@
            &&& f.ams_header.target_port == c.target_port
            &&& f.ams_header.source_net_id == c.source_net_id@
            &&& f.ams_header.source_port == c.source_port
            &&& f.ams_header.command_id == 2
            &&& f.ams_header.state_flags == 4
            &&& f.ams_header.error_code == 0
            &&& f.ams_header.data_length == 12
            &&& f.ams_header.invoke_id == c.invoke_id
            &&& f.tcp_header.reserved == 0
            &&& f.tcp_header.data_length == 44
            &&& AdsReadRequest::read(f.payload) == Ok::<AdsReadRequest, AdsErrorView>(q)
        },
        c.next().invoke_id == (c.invoke_id + 1) % 0x1_0000_0000,
        c.next().source_net_id == c.source_net_id,
        c.next().source_port == c.source_port,
        c.next().target_net_id == c.target_net_id,
        c.next().target_port == c.target_port,
{
    law_read_request_arrives(c.source_net_id@, c.source_port, c.target_net_id@, c.target_port, q, c.invoke_id);
}

/// The body of a read response that reports an error, or holds less than it says, gives no data.
pub proof fn law_bad_read_bodies_are_errors(result: u32, n: u32, data: Seq<u8>, short: Seq<u8>)
    ensures
        result != 0 ==> read_data(le32(result) + le32(n) + data) == Err::<Seq<u8>, ClientErrorView>(
            ClientErrorView::Ads("ADS read returned error 0x"@ + hex(result as nat)),
        ),
        result == 0 && data.len() < n ==> read_data(le32(result) + le32(n) + data) == Err::<Seq<u8>, ClientErrorView>(
            ClientErrorView::Decode(
                "ADS read payload truncated: declared "@ + dec(n as nat) + " bytes, got "@ + dec(data.len()),
            ),
        ),
        short.len() < 8 ==> read_data(short) == Err::<Seq<u8>, ClientErrorView>(
            ClientErrorView::Decode("ADS read response too short: "@ + dec(short.len()) + " bytes"@),
        ),
{
    let s = le32(result) + le32(n) + data;
    assert(s.subrange(0, 4) =~= le32(result));
    assert(s.subrange(4, 8) =~= le32(n));
    lemma_dword_read(s, 0, result);
    lemma_dword_read(s, 4, n);
}

// Levels, kinds and states.

/// Levels are numbered from zero by their severity, and no other byte is a level.
pub proof fn law_levels_are_numbered(b: u8)
    ensures
        LogLevel::of(b) == Some(LogLevel::Trace) <==> b == 0,
        LogLevel::of(b) == Some(LogLevel::Debug) <==> b == 1,
        LogLevel::of(b) == Some(LogLevel::Info) <==> b == 2,
        LogLevel::of(b) == Some(LogLevel::Warn) <==> b == 3,
        LogLevel::of(b) == Some(LogLevel::Error) <==> b == 4,
        LogLevel::of(b) == Some(LogLevel::Fatal) <==> b == 5,
        LogLevel::of(b) is None <==> b > 5,
{
}

/// The kinds and states of spans are numbered from zero, and no other byte is one.
pub proof fn law_span_kinds_are_numbered(b: u8)
    ensures
        SpanKind::of(b) == Some(SpanKind::Internal) <==> b == 0,
        SpanKind::of(b) == Some(SpanKind::Server) <==> b == 1,
        SpanKind::of(b) == Some(SpanKind::Client) <==> b == 2,
        SpanKind::of(b) == Some(SpanKind::Producer) <==> b == 3,
        SpanKind::of(b) == Some(SpanKind::Consumer) <==> b == 4,
        SpanKind::of(b) is None <==> b > 4,
        SpanStatusCode::of(b) == Some(SpanStatusCode::Unset) <==> b == 0,
        SpanStatusCode::of(b) == Some(SpanStatusCode::Okay) <==> b == 1,
        SpanStatusCode::of(b) == Some(SpanStatusCode::Error) <==> b == 2,
        SpanStatusCode::of(b) is None <==> b > 2,
{
}

/// A clock that is not set tells a time before 1970; the present stands for it.
pub proof fn law_unset_clocks_tell_the_present(ticks: u64, now: Timestamp)
    ensures
        ticks < 116_444_736_000_000_000 ==> filetime(ticks, now) == now,
        ticks == 116_444_736_000_000_000 ==> filetime(ticks, now) == (Timestamp { secs: 0, nanos: 0 }),
{
}

/// An id is written with two digits for each byte, and these read back as the byte.
pub proof fn law_ids_are_hexadecimal(b: Seq<u8>, i: int)
    requires
        0 <= i < b.len(),
    ensures
        hex_id(b).len() == 2 * b.len(),
        hex_value(hex_id(b).subrange(2 * i, 2 * i + 2)) == b[i],
        is_hex(hex_id(b)[2 * i]) && is_hex(hex_id(b)[2 * i + 1]),
    decreases b.len(),
{
    let front = b.drop_last();
    let n = b.last() as nat;
    let last = zero_padded(hex(n), 2);
    lemma_two_digits(b.last());
    if front.len() == 0 {
        assert(hex_id(front) =~= Seq::empty());
    } else {
        law_ids_are_hexadecimal(front, if i < front.len() { i } else { 0 });
    }
    if i < front.len() {
        assert(hex_id(b).subrange(2 * i, 2 * i + 2) =~= hex_id(front).subrange(2 * i, 2 * i + 2));
    } else {
        assert(hex_id(b).subrange(2 * i, 2 * i + 2) =~= last);
    }
}

proof fn lemma_two_digits(b: u8)
    ensures
        zero_padded(hex(b as nat), 2).len() == 2,
        hex_value(zero_padded(hex(b as nat), 2)) == b,
        is_hex(zero_padded(hex(b as nat), 2)[0]),
        is_hex(zero_padded(hex(b as nat), 2)[1]),
{
    law_padded_hex_reads_back(b as nat, 2);
    law_hex_reads_back(b as nat);
    if b >= 16 {
        assert(hex(b as nat / 16).len() == 1);
    }
}

/// A span shows its ids in hexadecimal. A span without a parent, whose parent's id is all zeros,
/// shows none.
pub proof fn law_spans_show_their_ids(e: AdsSpanEntry, trace: String, span: String, parent: String)
    requires
        call_ensures(AdsSpanEntry::trace_id_hex, (&e,), trace),
        call_ensures(AdsSpanEntry::span_id_hex, (&e,), span),
        call_ensures(AdsSpanEntry::parent_span_id_hex, (&e,), parent),
    ensures
        trace@ == hex_id(e.trace_id@),
        span@ == hex_id(e.span_id@),
        trace@.len() == 32,
        span@.len() == 16,
        (forall|i: int| 0 <= i < 8 ==> #[trigger] e.parent_span_id@[i] == 0) ==> parent@.len() == 0,
        !(forall|i: int| 0 <= i < 8 ==> #[trigger] e.parent_span_id@[i] == 0) ==> parent@ == hex_id(e.parent_span_id@)
            && parent@.len() == 16,
{
    law_ids_are_hexadecimal(e.trace_id@, 0);
    law_ids_are_hexadecimal(e.span_id@, 0);
    law_ids_are_hexadecimal(e.parent_span_id@, 0);
    assert(unset(e.parent_span_id@) <==> forall|i: int| 0 <= i < 8 ==> #[trigger] e.parent_span_id@[i] == 0);
}

// Errors.

/// Each error of the protocol says what went wrong, with its particulars.
pub proof fn law_protocol_errors_are_told(e: AdsError, text: String)
    requires
        call_ensures(AdsError::to_string, (&e,), text),
    ensures
        text@ == (match e {
            AdsError::InvalidVersion(v) => "Invalid protocol version: "@ + dec(v as nat),
            AdsError::IncompleteMessage { expected, got } => "Incomplete message: expected "@ + dec(expected as nat)
                + ", got "@ + dec(got as nat),
            AdsError::InvalidStringEncoding(s) => "Invalid string encoding: "@ + s@,
            AdsError::InvalidTimestamp(s) => "Invalid timestamp: "@ + s@,
            AdsError::BufferError(s) => "Buffer error: "@ + s@,
            AdsError::ParseError(s) => "Parse error: "@ + s@,
            AdsError::IoError(s) => "IO error: "@ + s@,
            AdsError::ConversionError(s) => "Conversion error: "@ + s@,
        }),
{
}

/// Each error of the client says what went wrong, with its particulars.
pub proof fn law_client_errors_are_told(e: ClientError, text: String)
    requires
        call_ensures(ClientError::to_string, (&e,), text),
    ensures
        text@ == (match e {
            ClientError::Ads(s) => "ads protocol error: "@ + s@,
            ClientError::SymbolNotFound(s) => "symbol not found: "@ + s@,
            ClientError::Decode(s) => "decode error: "@ + s@,
            ClientError::UnknownTarget(s) => "target not configured: "@ + s@,
            ClientError::Io(s) => "io error: "@ + s@,
        }),
{
}

/// Each error of the dispatcher says what went wrong, with its particulars.
pub proof fn law_dispatcher_errors_are_told(e: DispatcherError, text: String)
    requires
        call_ensures(DispatcherError::to_string, (&e,), text),
    ensures
        e matches DispatcherError::NoRoute(id) ==> text@ == "no route for AMS Net ID "@ + crate::ams::dotted(id@),
        e matches DispatcherError::TransportNotAttached(kind) ==> text@ == "transport '"@ + (match kind {
            crate::dispatcher::TransportKind::Mqtt => "Mqtt"@,
            crate::dispatcher::TransportKind::Tcp => "Tcp"@,
        }) + "' not attached"@,
        e matches DispatcherError::Timeout(d) ==> text@ == "request timed out after "@ + crate::time::duration_debug(
            d.secs,
            d.nanos,
        ),
        e is Closed ==> text@ == "response channel closed — dispatcher shut down"@,
        e matches DispatcherError::Ads(inner) ==> text@ == "ads protocol error: "@ + inner@.message(),
        e matches DispatcherError::Mqtt(s) ==> text@ == "mqtt error: "@ + s@,
{
}

/// Each error of the certificates says what went wrong, with its particulars.
pub proof fn law_certificate_errors_are_told(e: CertificateError, text: String)
    requires
        call_ensures(CertificateError::to_string, (&e,), text),
    ensures
        text@ == (match e {
            CertificateError::ReadError { path, source } => "Failed to read certificate file "@ + path@ + ": "@
                + source@,
            CertificateError::InvalidFormat(s) => "Invalid certificate format: "@ + s@,
        }),
{
}

// Answers of frames.

/// The answer to a frame goes from its target to its source, keeps its command and invoke id, is
/// marked as a response, and carries the error and the data that it is made with.
pub proof fn law_answers_go_back(f: AmsTcpFrameView, g: AmsFrameView, error_code: u32, data: Seq<u8>)
    requires
        data.len() + 32 <= u32::MAX,
    ensures
        ({
            let a = f.answer(error_code, data);
            &&& a.ams_header.target_net_id == f.ams_header.source_net_id
            &&& a.ams_header.target_port == f.ams_header.source_port
            &&& a.ams_header.source_net_id == f.ams_header.target_net_id
            &&& a.ams_header.source_port == f.ams_header.target_port
            &&& a.ams_header.command_id == f.ams_header.command_id
            &&& a.ams_header.invoke_id == f.ams_header.invoke_id
            &&& a.ams_header.state_flags == 5
            &&& a.ams_header.error_code == error_code
            &&& a.ams_header.data_length == data.len()
            &&& a.tcp_header.reserved == 0
            &&& a.tcp_header.data_length == 32 + data.len()
            &&& a.payload == data
        }),
        ({
            let a = g.answer(data);
            &&& a.header.target_net_id == g.header.source_net_id
            &&& a.header.target_port == g.header.source_port
            &&& a.header.source_net_id == g.header.target_net_id
            &&& a.header.source_port == g.header.target_port
            &&& a.header.command_id == g.header.command_id
            &&& a.header.invoke_id == g.header.invoke_id
            &&& a.header.state_flags == 5
            &&& a.header.error_code == 0
            &&& a.header.data_length == data.len()
            &&& a.payload == data
        }),
{
}

// Symbol tables.

/// The text of a field ends at its first zero, whatever stands behind that; a field without a zero
/// is text to its end.
pub proof fn law_fields_end_at_a_zero(t: Seq<char>, rest: Seq<u8>)
    requires
        forall|i: int| 0 <= i < encode_utf8(t).len() ==> #[trigger] encode_utf8(t)[i] != 0,
    ensures
        null_terminated(encode_utf8(t).push(0) + rest) == Ok::<Seq<char>, AdsErrorView>(t),
        null_terminated(encode_utf8(t)) == Ok::<Seq<char>, AdsErrorView>(t),
{
    let b = encode_utf8(t);
    encode_utf8_valid_utf8(t);
    encode_utf8_decode_utf8(t);
    let s = b.push(0) + rest;
    let z = zero_from(s, 0);
    law_first_zero(s, 0);
    assert(s[b.len() as int] == 0);
    if z < b.len() {
        assert(s[z] == b[z]);
    }
    assert(s.take(z) =~= b);
    law_first_zero(b, 0);
    assert(zero_from(b, 0) == b.len()) by {
        if zero_from(b, 0) < b.len() {
            assert(b[zero_from(b, 0)] == 0);
        }
    }
    assert(b.take(b.len() as int) =~= b);
}

/// A table goes on where an entry says that it ends, whatever stands there within the entry. An
/// entry that says that it has no length is an error, and fewer than four bytes at the end are
/// passed over.
pub proof fn law_entries_say_where_they_end(s: Seq<u8>, p: int, found: Seq<SymbolEntryView>)
    requires
        0 <= p <= s.len(),
    ensures
        s.len() < p + 4 ==> entries_from(s, p, found) == Ok::<Seq<SymbolEntryView>, AdsErrorView>(found),
        s.len() >= p + 4 ==> match entry_at(s, p) {
            Err(e) => entries_from(s, p, found) == Err::<Seq<SymbolEntryView>, AdsErrorView>(e),
            Ok((entry, length)) => {
                &&& length == u32_at(s, p)
                &&& length > 0 ==> entries_from(s, p, found) == entries_from(s, p + length, found.push(entry))
                &&& length == 0 ==> entries_from(s, p, found) == Err::<Seq<SymbolEntryView>, AdsErrorView>(
                    AdsErrorView::ParseError("symbol entry with zero length"@),
                )
            },
        },
{
}

// Results.

/// What is said of a result is said of the value or the error that it holds.
pub proof fn law_results_show_what_they_hold<T: View>(v: T, e: AdsError, c: ClientError)
    ensures
        outcome(Ok::<T, AdsError>(v)) == Ok::<T::V, AdsErrorView>(v@),
        outcome(Err::<T, AdsError>(e)) == Err::<T::V, AdsErrorView>(e@),
        told(Ok::<T, ClientError>(v)) == Ok::<T::V, ClientErrorView>(v@),
        told(Err::<T, ClientError>(c)) == Err::<T::V, ClientErrorView>(c@),
        viewed(Some(v)) == Some(v@),
        viewed(None::<T>) == None::<T::V>,
        e@ == (match e {
            AdsError::InvalidVersion(n) => AdsErrorView::InvalidVersion(n),
            AdsError::IncompleteMessage { expected, got } => AdsErrorView::IncompleteMessage {
                expected: expected as int,
                got: got as int,
            },
            AdsError::InvalidStringEncoding(s) => AdsErrorView::InvalidStringEncoding(s@),
            AdsError::InvalidTimestamp(s) => AdsErrorView::InvalidTimestamp(s@),
            AdsError::BufferError(s) => AdsErrorView::BufferError(s@),
            AdsError::ParseError(s) => AdsErrorView::ParseError(s@),
            AdsError::IoError(s) => AdsErrorView::IoError(s@),
            AdsError::ConversionError(s) => AdsErrorView::ConversionError(s@),
        }),
        c@ == (match c {
            ClientError::Ads(s) => ClientErrorView::Ads(s@),
            ClientError::SymbolNotFound(s) => ClientErrorView::SymbolNotFound(s@),
            ClientError::Decode(s) => ClientErrorView::Decode(s@),
            ClientError::UnknownTarget(s) => ClientErrorView::UnknownTarget(s@),
            ClientError::Io(s) => ClientErrorView::Io(s@),
        }),
{
}

/// A cursor that takes a step gives the step's value or error and stands where the step ends, over
/// the same bytes.
pub proof fn law_cursors_follow_their_steps<T: View>(
    before: BytesReader,
    after: BytesReader,
    r: Result<T, AdsError>,
    step: Step<T::V>,
)
    requires
        took(before, after, r, step),
    ensures
        r matches Ok(v) ==> step.0 == Ok::<T::V, AdsErrorView>(v@),
        r matches Err(e) ==> step.0 == Err::<T::V, AdsErrorView>(e@),
        after.pos == step.1,
        after.data == before.data,
{
}

} // verus!
