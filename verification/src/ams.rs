//! AMS addresses, headers and AMS/TCP frames.
use vstd::prelude::*;

use crate::error::{outcome, AdsError, AdsErrorView};
use crate::keymap::MapKey;
use crate::text::{chars_of, dec, numbered, octet, parse_octet, pieces, push_dec, split_pieces, text_of, with_number};
use crate::wire::{
    copy_range, get_array6, get_u16, get_u32, le16, le32, law_le16_read, law_le16_write, law_le32_read, law_le32_write,
    put_slice, put_u16, put_u32, u16_at, u32_at,
};

verus! {

broadcast use crate::wire::group_wire;

pub const AMS_TCP_PORT: u16 = 48898;

pub const ADS_CMD_READ_DEVICE_INFO: u16 = 1;

pub const ADS_CMD_READ: u16 = 2;

pub const ADS_CMD_WRITE: u16 = 3;

pub const ADS_CMD_READ_STATE: u16 = 4;

pub const ADS_CMD_WRITE_CONTROL: u16 = 5;

pub const ADS_CMD_ADD_NOTIFICATION: u16 = 6;

pub const ADS_CMD_DEL_NOTIFICATION: u16 = 7;

pub const ADS_CMD_NOTIFICATION: u16 = 8;

pub const ADS_CMD_READ_WRITE: u16 = 9;

pub const ADS_STATE_REQUEST: u16 = 0x0004;

pub const ADS_STATE_RESPONSE: u16 = 0x0005;

pub const ADS_LOG_PORT: u16 = 16150;

/// ADS result code: the device does not support the service.
pub const ADSERR_DEVICE_SRVNOTSUPP: u32 = 0x0701;

/// An AMS Net ID: six octets, written `192.168.1.100.1.1`.
#[derive(Debug, Clone, Copy, PartialEq, Eq, Hash)]
pub struct AmsNetId(pub [u8; 6]);

impl View for AmsNetId {
    type V = Seq<u8>;

    open spec fn view(&self) -> Seq<u8> {
        self.0@
    }
}

/// The octets that the first `n` pieces write, or the first piece that writes none.
pub open spec fn octets(parts: Seq<Seq<char>>, n: nat) -> Result<Seq<u8>, Seq<char>>
    decreases n,
{
    if n == 0 {
        Ok(Seq::<u8>::empty())
    } else {
        match octets(parts, (n - 1) as nat) {
            Err(bad) => Err(bad),
            Ok(done) => match octet(parts[n - 1]) {
                Some(b) => Ok(done.push(b)),
                None => Err(parts[n - 1]),
            },
        }
    }
}

/// The Net ID that `s` writes.
pub open spec fn net_id_of(s: Seq<char>) -> Result<Seq<u8>, AdsErrorView> {
    let parts = pieces(s, '.');
    if parts.len() != 6 {
        Err(AdsErrorView::ParseError("Invalid AMS Net ID format: expected 6 parts, got "@ + dec(parts.len())))
    } else {
        match octets(parts, 6) {
            Ok(b) => Ok(b),
            Err(bad) => Err(AdsErrorView::ParseError("Invalid AMS Net ID octet: "@ + bad)),
        }
    }
}

/// The octets in decimal with dots between them.
pub open spec fn dotted(b: Seq<u8>) -> Seq<char>
    decreases b.len(),
{
    if b.len() == 0 {
        Seq::<char>::empty()
    } else if b.len() == 1 {
        dec(b[0] as nat)
    } else {
        dotted(b.drop_last()) + seq!['.'] + dec(b.last() as nat)
    }
}

/// The text of octets splits at its dots into the numerals of the octets.
proof fn lemma_dotted_pieces(b: Seq<u8>)
    requires
        b.len() > 0,
    ensures
        pieces(dotted(b), '.') == Seq::new(b.len(), |i: int| dec(b[i] as nat)),
    decreases b.len(),
{
    let last = dec(b.last() as nat);
    crate::text::law_dec_reads_back(b.last() as nat);
    assert forall|i: int| 0 <= i < last.len() implies #[trigger] last[i] != '.' by {
        assert(crate::text::is_decimal(last[i]));
    }
    if b.len() == 1 {
        crate::text::lemma_pieces_append(Seq::empty(), last, '.');
        assert(Seq::<char>::empty() + last =~= last);
        assert(dotted(b) =~= last);
    } else {
        let front = b.drop_last();
        lemma_dotted_pieces(front);
        let head = dotted(front).push('.');
        assert(head.drop_last() =~= dotted(front));
        assert(pieces(head, '.') == pieces(dotted(front), '.').push(Seq::<char>::empty()));
        assert(dotted(b) =~= head + last);
        crate::text::lemma_pieces_append(head, last, '.');
        assert(Seq::<char>::empty() + last =~= last);
        assert(pieces(dotted(b), '.') =~= pieces(dotted(front), '.').push(last));
    }
    assert(pieces(dotted(b), '.') =~= Seq::new(b.len(), |i: int| dec(b[i] as nat)));
}

proof fn lemma_octets_of_numerals(b: Seq<u8>, n: nat)
    requires
        n <= b.len(),
    ensures
        octets(Seq::new(b.len(), |i: int| dec(b[i] as nat)), n) == Ok::<Seq<u8>, Seq<char>>(b.take(n as int)),
    decreases n,
{
    if n > 0 {
        lemma_octets_of_numerals(b, (n - 1) as nat);
        crate::text::law_octet_reads_back(b[n - 1]);
        assert(b.take(n as int) =~= b.take(n - 1).push(b[n - 1]));
    } else {
        assert(b.take(0) =~= Seq::<u8>::empty());
    }
}

/// The text of a Net ID is read as the Net ID.
pub proof fn law_net_id_reads_back(b: Seq<u8>)
    requires
        b.len() == 6,
    ensures
        net_id_of(dotted(b)) == Ok::<Seq<u8>, AdsErrorView>(b),
{
    lemma_dotted_pieces(b);
    lemma_octets_of_numerals(b, 6);
    assert(b.take(6) =~= b);
}

/// The text of octets is made of digits and dots.
pub proof fn lemma_dotted_chars(b: Seq<u8>, i: int)
    requires
        0 <= i < dotted(b).len(),
    ensures
        dotted(b)[i] == '.' || crate::text::is_decimal(dotted(b)[i]),
    decreases b.len(),
{
    if b.len() > 0 {
        crate::text::law_dec_reads_back(b.last() as nat);
        let last = dec(b.last() as nat);
        if b.len() == 1 {
            assert(dec(b[0] as nat) == last);
            assert(crate::text::is_decimal(last[i]));
        } else {
            let front = dotted(b.drop_last());
            if i < front.len() {
                lemma_dotted_chars(b.drop_last(), i);
            } else if i > front.len() {
                assert(crate::text::is_decimal(last[i - front.len() - 1]));
            }
        }
    }
}

impl AmsNetId {
    pub fn from_bytes(bytes: [u8; 6]) -> (r: Self)
        ensures
            r.0 == bytes,
    {
        AmsNetId(bytes)
    }

    /// Reads the form `192.168.1.100.1.1`.
    pub fn from_str_ref(s: &str) -> (r: Result<Self, AdsError>)
        ensures
            outcome(r) == net_id_of(s@),
    {
        let chars = chars_of(s);
        let parts = split_pieces(&chars, '.');
        let ghost model = parts@.map_values(|p: Vec<char>| p@);
        if parts.len() != 6 {
            return Err(
                AdsError::ParseError(
                    numbered("Invalid AMS Net ID format: expected 6 parts, got ", parts.len() as u64),
                ),
            );
        }
        let mut bytes: [u8; 6] = [0, 0, 0, 0, 0, 0];
        let mut i: usize = 0;
        assert(bytes@.take(0) =~= Seq::<u8>::empty());
        while i < 6
            invariant
                i <= 6,
                parts@.len() == 6,
                model == parts@.map_values(|p: Vec<char>| p@),
                model == pieces(s@, '.'),
                octets(model, i as nat) == Ok::<Seq<u8>, Seq<char>>(bytes@.take(i as int)),
            decreases 6 - i,
        {
            match parse_octet(&parts[i]) {
                Some(b) => {
                    let ghost before = bytes@.take(i as int);
                    bytes[i] = b;
                    assert(bytes@.take(i + 1) =~= before.push(b));
                },
                None => {
                    proof {
                        reveal_with_fuel(octets, 7);
                    }
                    return Err(
                        AdsError::ParseError(
                            String::from_str("Invalid AMS Net ID octet: ").concat(&text_of(&parts[i])),
                        ),
                    );
                },
            }
            i = i + 1;
        }
        assert(bytes@.take(6) =~= bytes@);
        Ok(AmsNetId(bytes))
    }

    pub fn bytes(&self) -> (r: &[u8; 6])
        ensures
            r@ == self@,
    {
        &self.0
    }

    pub fn to_string(&self) -> (r: String)
        ensures
            r@ == dotted(self@),
    {
        let mut r = String::new();
        let mut i: usize = 0;
        assert(self@.take(0) =~= Seq::<u8>::empty());
        while i < 6
            invariant
                i <= 6,
                r@ == dotted(self@.take(i as int)),
            decreases 6 - i,
        {
            if i > 0 {
                r.append(".");
            }
            push_dec(&mut r, self.0[i] as u64);
            proof {
                reveal_strlit(".");
                assert("."@ =~= seq!['.']);
                assert(self@.take(i + 1).drop_last() =~= self@.take(i as int));
                assert(self@.take(i + 1).last() == self.0[i as int]);
                assert(r@ =~= dotted(self@.take(i + 1)));
            }
            i = i + 1;
        }
        assert(self@.take(6) =~= self@);
        r
    }
}

impl MapKey for AmsNetId {
    fn same(&self, other: &Self) -> (b: bool) {
        let mut i: usize = 0;
        while i < 6
            invariant
                i <= 6,
                self@.take(i as int) =~= other@.take(i as int),
            decreases 6 - i,
        {
            if self.0[i] != other.0[i] {
                return false;
            }
            i = i + 1;
            assert(self@.take(i as int) =~= other@.take(i as int));
        }
        assert(self@.take(6) =~= self@);
        assert(other@.take(6) =~= other@);
        true
    }
}

impl std::str::FromStr for AmsNetId {
    type Err = AdsError;

    fn from_str(s: &str) -> Result<Self, AdsError> {
        AmsNetId::from_str_ref(s)
    }
}

/// An AMS header: 32 bytes before every ADS payload.
#[derive(Debug, Clone, Copy)]
pub struct AmsHeader {
    pub target_net_id: AmsNetId,
    pub target_port: u16,
    pub source_net_id: AmsNetId,
    pub source_port: u16,
    pub command_id: u16,
    pub state_flags: u16,
    pub data_length: u32,
    pub error_code: u32,
    pub invoke_id: u32,
}

/// The fields of an [`AmsHeader`], with the Net IDs as octet sequences.
pub struct AmsHeaderView {
    pub target_net_id: Seq<u8>,
    pub target_port: u16,
    pub source_net_id: Seq<u8>,
    pub source_port: u16,
    pub command_id: u16,
    pub state_flags: u16,
    pub data_length: u32,
    pub error_code: u32,
    pub invoke_id: u32,
}

impl View for AmsHeader {
    type V = AmsHeaderView;

    open spec fn view(&self) -> AmsHeaderView {
        AmsHeaderView {
            target_net_id: self.target_net_id@,
            target_port: self.target_port,
            source_net_id: self.source_net_id@,
            source_port: self.source_port,
            command_id: self.command_id,
            state_flags: self.state_flags,
            data_length: self.data_length,
            error_code: self.error_code,
            invoke_id: self.invoke_id,
        }
    }
}

impl AmsHeaderView {
    /// The header that the first 32 bytes of `s` hold.
    pub open spec fn read(s: Seq<u8>) -> AmsHeaderView {
        AmsHeaderView {
            target_net_id: s.subrange(0, 6),
            target_port: u16_at(s, 6),
            source_net_id: s.subrange(8, 14),
            source_port: u16_at(s, 14),
            command_id: u16_at(s, 16),
            state_flags: u16_at(s, 18),
            data_length: u32_at(s, 20),
            error_code: u32_at(s, 24),
            invoke_id: u32_at(s, 28),
        }
    }

    /// The 32 bytes of the header.
    pub open spec fn bytes(self) -> Seq<u8> {
        self.target_net_id + le16(self.target_port) + self.source_net_id + le16(self.source_port) + le16(
            self.command_id,
        ) + le16(self.state_flags) + le32(self.data_length) + le32(self.error_code) + le32(self.invoke_id)
    }

    /// Both Net IDs have their six octets.
    pub open spec fn valid(self) -> bool {
        self.target_net_id.len() == 6 && self.source_net_id.len() == 6
    }

    /// The header that answers this one: addresses swapped, command and invoke id kept.
    pub open spec fn answer(self, error_code: u32, data_length: u32) -> AmsHeaderView {
        AmsHeaderView {
            target_net_id: self.source_net_id,
            target_port: self.source_port,
            source_net_id: self.target_net_id,
            source_port: self.target_port,
            command_id: self.command_id,
            state_flags: ADS_STATE_RESPONSE,
            data_length,
            error_code,
            invoke_id: self.invoke_id,
        }
    }
}

/// A header read from its own bytes, whatever follows them, is the header.
pub proof fn law_header_read_of_bytes(h: AmsHeaderView, rest: Seq<u8>)
    requires
        h.valid(),
    ensures
        h.bytes().len() == 32,
        AmsHeaderView::read(h.bytes() + rest) == h,
{
    let s = h.bytes() + rest;
    law_le16_read(h.target_port);
    law_le16_read(h.source_port);
    law_le16_read(h.command_id);
    law_le16_read(h.state_flags);
    law_le32_read(h.data_length);
    law_le32_read(h.error_code);
    law_le32_read(h.invoke_id);
    assert(s.subrange(0, 6) =~= h.target_net_id);
    assert(s.subrange(8, 14) =~= h.source_net_id);
    assert(s.subrange(6, 8) =~= le16(h.target_port));
    assert(s.subrange(14, 16) =~= le16(h.source_port));
    assert(s.subrange(16, 18) =~= le16(h.command_id));
    assert(s.subrange(18, 20) =~= le16(h.state_flags));
    assert(s.subrange(20, 24) =~= le32(h.data_length));
    assert(s.subrange(24, 28) =~= le32(h.error_code));
    assert(s.subrange(28, 32) =~= le32(h.invoke_id));
    crate::wire::lemma_window(s, 6, 8, 0);
    crate::wire::lemma_window(s, 14, 16, 0);
    crate::wire::lemma_window(s, 16, 18, 0);
    crate::wire::lemma_window(s, 18, 20, 0);
    crate::wire::lemma_window(s, 20, 24, 0);
    crate::wire::lemma_window(s, 24, 28, 0);
    crate::wire::lemma_window(s, 28, 32, 0);
}

/// The bytes of a header read from a buffer are the buffer's first 32 bytes.
pub proof fn law_header_bytes_of_read(s: Seq<u8>)
    requires
        s.len() >= 32,
    ensures
        AmsHeaderView::read(s).valid(),
        AmsHeaderView::read(s).bytes() == s.subrange(0, 32),
{
    law_le16_write(s, 6);
    law_le16_write(s, 14);
    law_le16_write(s, 16);
    law_le16_write(s, 18);
    law_le32_write(s, 20);
    law_le32_write(s, 24);
    law_le32_write(s, 28);
    let h = AmsHeaderView::read(s);
    assert(h.bytes() =~= s.subrange(0, 6) + s.subrange(6, 8) + s.subrange(8, 14) + s.subrange(14, 16) + s.subrange(
        16,
        18,
    ) + s.subrange(18, 20) + s.subrange(20, 24) + s.subrange(24, 28) + s.subrange(28, 32));
    assert(h.bytes() =~= s.subrange(0, 32));
}

/// Answering an answer gives the addresses of the request back.
pub proof fn law_answer_returns_to_sender(h: AmsHeaderView, e1: u32, n1: u32, e2: u32, n2: u32)
    ensures
        h.answer(e1, n1).target_net_id == h.source_net_id,
        h.answer(e1, n1).target_port == h.source_port,
        h.answer(e1, n1).answer(e2, n2).target_net_id == h.target_net_id,
        h.answer(e1, n1).answer(e2, n2).target_port == h.target_port,
        h.answer(e1, n1).invoke_id == h.invoke_id,
        h.answer(e1, n1).command_id == h.command_id,
{
}

impl AmsHeader {
    /// Reads a header from the first 32 bytes of `data`.
    pub fn parse(data: &[u8]) -> (r: Result<Self, AdsError>)
        ensures
            outcome(r) == header_outcome(data@),
    {
        if data.len() < 32 {
            return Err(AdsError::ParseError(with_number("AMS header too short: ", data.len() as u64, " bytes")));
        }
        Ok(
            AmsHeader {
                target_net_id: AmsNetId(get_array6(data, 0)),
                target_port: get_u16(data, 6),
                source_net_id: AmsNetId(get_array6(data, 8)),
                source_port: get_u16(data, 14),
                command_id: get_u16(data, 16),
                state_flags: get_u16(data, 18),
                data_length: get_u32(data, 20),
                error_code: get_u32(data, 24),
                invoke_id: get_u32(data, 28),
            },
        )
    }

    /// The 32 bytes of the header.
    pub fn serialize(&self) -> (r: Vec<u8>)
        ensures
            r@ == self@.bytes(),
            r@.len() == 32,
    {
        let mut buf: Vec<u8> = Vec::with_capacity(32);
        put_slice(&mut buf, &self.target_net_id.0);
        put_u16(&mut buf, self.target_port);
        put_slice(&mut buf, &self.source_net_id.0);
        put_u16(&mut buf, self.source_port);
        put_u16(&mut buf, self.command_id);
        put_u16(&mut buf, self.state_flags);
        put_u32(&mut buf, self.data_length);
        put_u32(&mut buf, self.error_code);
        put_u32(&mut buf, self.invoke_id);
        assert(buf@ =~= self@.bytes());
        buf
    }

    /// The header of a response that carries a 4-byte result.
    pub fn make_response(&self, error_code: u32) -> (r: Self)
        ensures
            r@ == self@.answer(error_code, 4),
    {
        AmsHeader {
            target_net_id: self.source_net_id,
            target_port: self.source_port,
            source_net_id: self.target_net_id,
            source_port: self.target_port,
            command_id: self.command_id,
            state_flags: ADS_STATE_RESPONSE,
            data_length: 4,
            error_code,
            invoke_id: self.invoke_id,
        }
    }
}

/// What reading a header from `s` gives.
pub open spec fn header_outcome(s: Seq<u8>) -> Result<AmsHeaderView, AdsErrorView> {
    if s.len() < 32 {
        Err(AdsErrorView::ParseError("AMS header too short: "@ + dec(s.len()) + " bytes"@))
    } else {
        Ok(AmsHeaderView::read(s))
    }
}

/// An ADS write request: where to write, and what.
#[derive(Debug)]
pub struct AdsWriteRequest {
    pub index_group: u32,
    pub index_offset: u32,
    pub data: Vec<u8>,
}

pub struct AdsWriteRequestView {
    pub index_group: u32,
    pub index_offset: u32,
    pub data: Seq<u8>,
}

impl View for AdsWriteRequest {
    type V = AdsWriteRequestView;

    open spec fn view(&self) -> AdsWriteRequestView {
        AdsWriteRequestView { index_group: self.index_group, index_offset: self.index_offset, data: self.data@ }
    }
}

impl AdsWriteRequestView {
    /// What reading a write request from `s` gives.
    pub open spec fn read(s: Seq<u8>) -> Result<AdsWriteRequestView, AdsErrorView> {
        if s.len() < 12 {
            Err(AdsErrorView::ParseError("ADS Write request too short: "@ + dec(s.len()) + " bytes"@))
        } else if s.len() < 12 + u32_at(s, 8) {
            Err(
                AdsErrorView::ParseError(
                    "ADS Write data incomplete: expected "@ + dec(u32_at(s, 8) as nat) + " bytes"@,
                ),
            )
        } else {
            Ok(
                AdsWriteRequestView {
                    index_group: u32_at(s, 0),
                    index_offset: u32_at(s, 4),
                    data: s.subrange(12, 12 + u32_at(s, 8)),
                },
            )
        }
    }

    pub open spec fn bytes(self) -> Seq<u8> {
        le32(self.index_group) + le32(self.index_offset) + le32(self.data.len() as u32) + self.data
    }
}

/// A write request read from its own bytes is the request, whatever stands behind them.
pub proof fn law_write_request_read_of_bytes(w: AdsWriteRequestView, after: Seq<u8>)
    requires
        w.data.len() <= u32::MAX,
    ensures
        AdsWriteRequestView::read(w.bytes() + after) == Ok::<AdsWriteRequestView, AdsErrorView>(w),
{
    let s = w.bytes() + after;
    law_le32_read(w.index_group);
    law_le32_read(w.index_offset);
    law_le32_read(w.data.len() as u32);
    assert(s.subrange(0, 4) =~= le32(w.index_group));
    assert(s.subrange(4, 8) =~= le32(w.index_offset));
    assert(s.subrange(8, 12) =~= le32(w.data.len() as u32));
    crate::wire::lemma_window(s, 0, 4, 0);
    crate::wire::lemma_window(s, 4, 8, 0);
    crate::wire::lemma_window(s, 8, 12, 0);
    assert(s.subrange(12, 12 + w.data.len() as int) =~= w.data);
}

impl AdsWriteRequest {
    /// Reads a write request from the bytes after an AMS header.
    pub fn parse(data: &[u8]) -> (r: Result<Self, AdsError>)
        ensures
            outcome(r) == AdsWriteRequestView::read(data@),
    {
        if data.len() < 12 {
            return Err(
                AdsError::ParseError(with_number("ADS Write request too short: ", data.len() as u64, " bytes")),
            );
        }
        let write_length: u32 = get_u32(data, 8);
        if ((data.len() - 12) as u64) < write_length as u64 {
            return Err(
                AdsError::ParseError(
                    with_number("ADS Write data incomplete: expected ", write_length as u64, " bytes"),
                ),
            );
        }
        Ok(
            AdsWriteRequest {
                index_group: get_u32(data, 0),
                index_offset: get_u32(data, 4),
                data: copy_range(data, 12, 12 + write_length as usize),
            },
        )
    }

    pub fn serialize(&self) -> (r: Vec<u8>)
        ensures
            r@ == self@.bytes(),
    {
        let mut buf: Vec<u8> = Vec::new();
        put_u32(&mut buf, self.index_group);
        put_u32(&mut buf, self.index_offset);
        put_u32(&mut buf, self.data.len() as u32);
        put_slice(&mut buf, &self.data);
        assert(buf@ =~= self@.bytes());
        buf
    }
}

/// The six bytes before an AMS header on TCP.
#[derive(Debug, Clone, Copy)]
pub struct AmsTcpHeader {
    pub reserved: u16,
    pub data_length: u32,
}

impl View for AmsTcpHeader {
    type V = AmsTcpHeader;

    open spec fn view(&self) -> AmsTcpHeader {
        *self
    }
}

impl AmsTcpHeader {
    /// What reading a TCP prefix from `s` gives.
    pub open spec fn read(s: Seq<u8>) -> Result<AmsTcpHeader, AdsErrorView> {
        if s.len() < 6 {
            Err(AdsErrorView::IncompleteMessage { expected: 6, got: s.len() as int })
        } else {
            Ok(AmsTcpHeader { reserved: u16_at(s, 0), data_length: u32_at(s, 2) })
        }
    }

    pub open spec fn bytes(self) -> Seq<u8> {
        le16(self.reserved) + le32(self.data_length)
    }

    pub fn parse(data: &[u8]) -> (r: Result<Self, AdsError>)
        ensures
            outcome(r) == AmsTcpHeader::read(data@),
    {
        if data.len() < 6 {
            return Err(AdsError::IncompleteMessage { expected: 6, got: data.len() as u64 });
        }
        Ok(AmsTcpHeader { reserved: get_u16(data, 0), data_length: get_u32(data, 2) })
    }

    pub fn serialize(&self) -> (r: Vec<u8>)
        ensures
            r@ == self.bytes(),
    {
        let mut result: Vec<u8> = Vec::with_capacity(6);
        put_u16(&mut result, self.reserved);
        put_u32(&mut result, self.data_length);
        assert(result@ =~= self.bytes());
        result
    }
}

/// A TCP prefix read from its own bytes, whatever follows them, is the prefix.
pub proof fn law_tcp_header_read_of_bytes(h: AmsTcpHeader, rest: Seq<u8>)
    ensures
        AmsTcpHeader::read(h.bytes() + rest) == Ok::<AmsTcpHeader, AdsErrorView>(h),
{
    let s = h.bytes() + rest;
    law_le16_read(h.reserved);
    law_le32_read(h.data_length);
    assert(s.subrange(0, 2) =~= le16(h.reserved));
    assert(s.subrange(2, 6) =~= le32(h.data_length));
    crate::wire::lemma_window(s, 0, 2, 0);
    crate::wire::lemma_window(s, 2, 6, 0);
}

/// A complete AMS/TCP frame: prefix, AMS header, payload.
#[derive(Debug)]
pub struct AmsTcpFrame {
    pub tcp_header: AmsTcpHeader,
    pub ams_header: AmsHeader,
    pub payload: Vec<u8>,
}

pub struct AmsTcpFrameView {
    pub tcp_header: AmsTcpHeader,
    pub ams_header: AmsHeaderView,
    pub payload: Seq<u8>,
}

impl View for AmsTcpFrame {
    type V = AmsTcpFrameView;

    open spec fn view(&self) -> AmsTcpFrameView {
        AmsTcpFrameView { tcp_header: self.tcp_header, ams_header: self.ams_header@, payload: self.payload@ }
    }
}

impl AmsTcpFrameView {
    /// What reading a frame from `s` gives. The payload is all that follows the headers.
    pub open spec fn read(s: Seq<u8>) -> Result<AmsTcpFrameView, AdsErrorView> {
        if s.len() < 38 {
            Err(AdsErrorView::IncompleteMessage { expected: 38, got: s.len() as int })
        } else if s.len() < 6 + u32_at(s, 2) {
            Err(AdsErrorView::IncompleteMessage { expected: 6 + u32_at(s, 2), got: s.len() as int })
        } else {
            Ok(
                AmsTcpFrameView {
                    tcp_header: AmsTcpHeader { reserved: u16_at(s, 0), data_length: u32_at(s, 2) },
                    ams_header: AmsHeaderView::read(s.skip(6)),
                    payload: s.skip(38),
                },
            )
        }
    }

    pub open spec fn bytes(self) -> Seq<u8> {
        self.tcp_header.bytes() + self.ams_header.bytes() + self.payload
    }

    /// The frame that answers this one with `data`.
    pub open spec fn answer(self, error_code: u32, data: Seq<u8>) -> AmsTcpFrameView {
        AmsTcpFrameView {
            tcp_header: AmsTcpHeader { reserved: 0, data_length: (32 + data.len()) as u32 },
            ams_header: self.ams_header.answer(error_code, data.len() as u32),
            payload: data,
        }
    }
}

/// A frame whose prefix announces no more than it holds is read back from its bytes.
pub proof fn law_tcp_frame_read_of_bytes(f: AmsTcpFrameView)
    requires
        f.ams_header.valid(),
        f.tcp_header.data_length <= 32 + f.payload.len(),
    ensures
        AmsTcpFrameView::read(f.bytes()) == Ok::<AmsTcpFrameView, AdsErrorView>(f),
{
    let s = f.bytes();
    let tail = f.ams_header.bytes() + f.payload;
    assert(f.ams_header.bytes().len() == 32 && AmsHeaderView::read(tail) == f.ams_header) by {
        law_header_read_of_bytes(f.ams_header, f.payload);
    }
    assert(s =~= f.tcp_header.bytes() + tail);
    assert(AmsTcpHeader::read(s) == Ok::<AmsTcpHeader, AdsErrorView>(f.tcp_header)) by {
        law_tcp_header_read_of_bytes(f.tcp_header, tail);
    }
    assert(f.tcp_header.bytes().len() == 6);
    assert(s.skip(6) =~= tail);
    assert(s.skip(38) =~= f.payload);
}

/// A request is answered on the wire with a frame that reads back: to the sender, with the
/// request's command and invoke id, and with the data that was handed over.
pub proof fn law_answer_frame_reads_back(f: AmsTcpFrameView, error_code: u32, data: Seq<u8>)
    requires
        f.ams_header.valid(),
        data.len() + 32 <= u32::MAX,
    ensures
        AmsTcpFrameView::read(f.answer(error_code, data).bytes()) == Ok::<AmsTcpFrameView, AdsErrorView>(
            f.answer(error_code, data),
        ),
{
    law_tcp_frame_read_of_bytes(f.answer(error_code, data));
}

impl AmsTcpFrame {
    pub fn parse(data: &[u8]) -> (r: Result<Self, AdsError>)
        ensures
            outcome(r) == AmsTcpFrameView::read(data@),
    {
        if data.len() < 38 {
            return Err(AdsError::IncompleteMessage { expected: 38, got: data.len() as u64 });
        }
        let tcp_header = AmsTcpHeader { reserved: get_u16(data, 0), data_length: get_u32(data, 2) };
        let rest = vstd::slice::slice_subrange(data, 6, data.len());
        assert(rest@ =~= data@.skip(6));
        let ams_header = AmsHeader::parse(rest)?;
        let expected_total: u64 = 6 + tcp_header.data_length as u64;
        if (data.len() as u64) < expected_total {
            return Err(AdsError::IncompleteMessage { expected: expected_total, got: data.len() as u64 });
        }
        let payload = copy_range(data, 38, data.len());
        assert(payload@ =~= data@.skip(38));
        Ok(AmsTcpFrame { tcp_header, ams_header, payload })
    }

    /// The response frame for this request.
    pub fn make_response(&self, error_code: u32, response_data: Vec<u8>) -> (r: Self)
        requires
            response_data@.len() + 32 <= u32::MAX,
        ensures
            r@ == self@.answer(error_code, response_data@),
    {
        let response_data_length: u32 = response_data.len() as u32;
        let mut response_ams = self.ams_header.make_response(error_code);
        response_ams.data_length = response_data_length;
        AmsTcpFrame {
            tcp_header: AmsTcpHeader { reserved: 0, data_length: 32 + response_data_length },
            ams_header: response_ams,
            payload: response_data,
        }
    }

    pub fn serialize(&self) -> (r: Vec<u8>)
        ensures
            r@ == self@.bytes(),
    {
        let mut result: Vec<u8> = self.tcp_header.serialize();
        put_slice(&mut result, &self.ams_header.serialize());
        put_slice(&mut result, &self.payload);
        result
    }

    /// What [`AmsTcpFrame::extract_write_request`] gives.
    pub open spec fn write_request_spec(f: AmsTcpFrameView) -> Result<AdsWriteRequestView, AdsErrorView> {
        if f.ams_header.command_id != ADS_CMD_WRITE {
            Err(
                AdsErrorView::ParseError(
                    "Expected Write command (3), got "@ + dec(f.ams_header.command_id as nat),
                ),
            )
        } else {
            AdsWriteRequestView::read(f.payload)
        }
    }

    /// The write request in the payload, if the frame is a write.
    pub fn extract_write_request(&self) -> (r: Result<AdsWriteRequest, AdsError>)
        ensures
            outcome(r) == AmsTcpFrame::write_request_spec(self@),
    {
        if self.ams_header.command_id != ADS_CMD_WRITE {
            return Err(
                AdsError::ParseError(
                    numbered("Expected Write command (3), got ", self.ams_header.command_id as u64),
                ),
            );
        }
        AdsWriteRequest::parse(&self.payload)
    }
}

} // verus!
