//! A client of PLCs: browsing their symbols, reading them, and being notified of changes.
use vstd::prelude::*;

use crate::ads_client::AdsReadRequest;
use crate::ams::{AmsNetId, ADS_CMD_READ};
use crate::client::error::{told, ClientError, ClientErrorView};
use crate::dispatcher::{
    begun, finished, AmsDispatcher, Awaited, DispatcherErrorView, DispatcherView, OutgoingRequest,
    OutgoingRequestView,
};
use crate::models::{Lreal, MetricValue, Real};
use crate::text::{
    chars_of, dec, hex, is_text, push_dec, push_hex, trim_chars, trimmed_text, upper, upper_chars,
};
use crate::time::Duration;
use crate::widen::{widen, widened};
use crate::wire::{
    copy_range, get_u16, get_u32, get_u64, signed16, signed32, signed64, signed8, to_signed16, to_signed32, to_signed64, to_signed8,
    u16_at, u32_at, u64_at,
};

pub mod browse;
pub mod cache;
pub mod error;
pub mod metric_laws;
pub mod notify;
pub mod notify_wire;
pub mod poll;
pub mod scalar_laws;
pub mod tree_laws;
pub mod upload_laws;

verus! {

/// A scalar of a PLC.
#[derive(Debug, Clone, Copy, PartialEq, Eq, Structural)]
pub enum PlcValue {
    Bool(bool),
    I64(i64),
    U64(u64),
    F64(Lreal),
}

impl View for PlcValue {
    type V = PlcValue;

    open spec fn view(&self) -> PlcValue {
        *self
    }
}

impl PlcValue {
    /// The number that it is as a metric: `TRUE` counts as one, `FALSE` as zero.
    pub open spec fn number(self) -> MetricValue {
        match self {
            PlcValue::Bool(b) => MetricValue::Unsigned(if b { 1 } else { 0 }),
            PlcValue::I64(v) => MetricValue::Signed(v),
            PlcValue::U64(v) => MetricValue::Unsigned(v),
            PlcValue::F64(v) => MetricValue::Lreal(v),
        }
    }

    pub fn as_metric_value(self) -> (r: MetricValue)
        ensures
            r == self.number(),
    {
        match self {
            PlcValue::Bool(b) => MetricValue::Unsigned(if b { 1 } else { 0 }),
            PlcValue::I64(v) => MetricValue::Signed(v),
            PlcValue::U64(v) => MetricValue::Unsigned(v),
            PlcValue::F64(v) => MetricValue::Lreal(v),
        }
    }
}

/// Where a symbol is, and what it is.
#[derive(Debug)]
pub struct SymbolMeta {
    pub size: u32,
    pub data_type_name: String,
    pub index_group: u32,
    pub index_offset: u32,
}

pub struct SymbolMetaView {
    pub size: u32,
    pub data_type_name: Seq<char>,
    pub index_group: u32,
    pub index_offset: u32,
}

impl View for SymbolMeta {
    type V = SymbolMetaView;

    open spec fn view(&self) -> SymbolMetaView {
        SymbolMetaView {
            size: self.size,
            data_type_name: self.data_type_name@,
            index_group: self.index_group,
            index_offset: self.index_offset,
        }
    }
}

impl Clone for SymbolMeta {
    fn clone(&self) -> (r: Self)
        ensures
            r@ == self@,
    {
        SymbolMeta {
            size: self.size,
            data_type_name: self.data_type_name.clone(),
            index_group: self.index_group,
            index_offset: self.index_offset,
        }
    }
}

impl SymbolMetaView {
    /// The body of the read request for the symbol.
    pub open spec fn request(self) -> Seq<u8> {
        (AdsReadRequest { index_group: self.index_group, index_offset: self.index_offset, read_length: self.size }).bytes()
    }
}

/// The scalar of an IEC type in some bytes; nothing if the type is not a scalar or the bytes are
/// too few. White space around the name of the type, and the case of its letters, do not matter.
pub open spec fn scalar(data_type_name: Seq<char>, s: Seq<u8>) -> Option<PlcValue> {
    let t = upper(trimmed_text(data_type_name));
    if t == "BOOL"@ && s.len() >= 1 {
        Some(PlcValue::Bool(s[0] != 0))
    } else if t == "SINT"@ && s.len() >= 1 {
        Some(PlcValue::I64(signed8(s[0]) as i64))
    } else if (t == "USINT"@ || t == "BYTE"@) && s.len() >= 1 {
        Some(PlcValue::U64(s[0] as u64))
    } else if t == "INT"@ && s.len() >= 2 {
        Some(PlcValue::I64(signed16(u16_at(s, 0)) as i64))
    } else if (t == "UINT"@ || t == "WORD"@) && s.len() >= 2 {
        Some(PlcValue::U64(u16_at(s, 0) as u64))
    } else if t == "DINT"@ && s.len() >= 4 {
        Some(PlcValue::I64(signed32(u32_at(s, 0)) as i64))
    } else if (t == "UDINT"@ || t == "DWORD"@) && s.len() >= 4 {
        Some(PlcValue::U64(u32_at(s, 0) as u64))
    } else if t == "LINT"@ && s.len() >= 8 {
        Some(PlcValue::I64(signed64(u64_at(s, 0))))
    } else if (t == "ULINT"@ || t == "LWORD"@) && s.len() >= 8 {
        Some(PlcValue::U64(u64_at(s, 0)))
    } else if t == "REAL"@ && s.len() >= 4 {
        Some(PlcValue::F64(widened(Real(u32_at(s, 0)))))
    } else if t == "LREAL"@ && s.len() >= 8 {
        Some(PlcValue::F64(Lreal(u64_at(s, 0))))
    } else {
        None
    }
}

/// Decodes the scalar of an IEC type.
pub fn decode_scalar(data_type_name: &str, bytes: &[u8]) -> (r: Option<PlcValue>)
    ensures
        r == scalar(data_type_name@, bytes@),
{
    let name = chars_of(data_type_name);
    let t = upper_chars(trim_chars(&name));
    let n: usize = bytes.len();
    if is_text(&t, "BOOL") && n >= 1 {
        Some(PlcValue::Bool(bytes[0] != 0))
    } else if is_text(&t, "SINT") && n >= 1 {
        Some(PlcValue::I64(to_signed8(bytes[0]) as i64))
    } else if (is_text(&t, "USINT") || is_text(&t, "BYTE")) && n >= 1 {
        Some(PlcValue::U64(bytes[0] as u64))
    } else if is_text(&t, "INT") && n >= 2 {
        Some(PlcValue::I64(to_signed16(get_u16(bytes, 0)) as i64))
    } else if (is_text(&t, "UINT") || is_text(&t, "WORD")) && n >= 2 {
        Some(PlcValue::U64(get_u16(bytes, 0) as u64))
    } else if is_text(&t, "DINT") && n >= 4 {
        Some(PlcValue::I64(to_signed32(get_u32(bytes, 0)) as i64))
    } else if (is_text(&t, "UDINT") || is_text(&t, "DWORD")) && n >= 4 {
        Some(PlcValue::U64(get_u32(bytes, 0) as u64))
    } else if is_text(&t, "LINT") && n >= 8 {
        Some(PlcValue::I64(to_signed64(get_u64(bytes, 0))))
    } else if (is_text(&t, "ULINT") || is_text(&t, "LWORD")) && n >= 8 {
        Some(PlcValue::U64(get_u64(bytes, 0)))
    } else if is_text(&t, "REAL") && n >= 4 {
        Some(PlcValue::F64(widen(Real(get_u32(bytes, 0)))))
    } else if is_text(&t, "LREAL") && n >= 8 {
        Some(PlcValue::F64(Lreal(get_u64(bytes, 0))))
    } else {
        None
    }
}

/// What the bytes that were read of a symbol mean.
pub open spec fn read_outcome(meta: SymbolMetaView, raw: Result<Seq<u8>, ClientErrorView>) -> Result<
    PlcValue,
    ClientErrorView,
> {
    match raw {
        Err(e) => Err(e),
        Ok(s) => match scalar(meta.data_type_name, s) {
            Some(v) => Ok(v),
            None => Err(
                ClientErrorView::Decode(
                    "unsupported scalar type '"@ + meta.data_type_name + "' (size "@ + dec(meta.size as nat) + ")"@,
                ),
            ),
        },
    }
}

/// Decodes the bytes that were read of a symbol.
pub fn decode_read(meta: &SymbolMeta, raw: Result<Vec<u8>, ClientError>) -> (r: Result<PlcValue, ClientError>)
    ensures
        told(r) == read_outcome(meta@, told(raw)),
{
    let bytes = match raw {
        Ok(bytes) => bytes,
        Err(e) => {
            return Err(e);
        },
    };
    match decode_scalar(&meta.data_type_name, &bytes) {
        Some(v) => Ok(v),
        None => {
            let mut m = String::from_str("unsupported scalar type '").concat(&meta.data_type_name);
            m.append("' (size ");
            push_dec(&mut m, meta.size as u64);
            m.append(")");
            Err(ClientError::Decode(m))
        },
    }
}

/// Reads the symbols of a PLC.
pub trait SymbolReader {
    /// The bytes of a symbol.
    fn read_raw(&self, meta: &SymbolMeta) -> (r: Result<Vec<u8>, ClientError>);

    /// The value of a symbol: its bytes, decoded.
    fn read_value(&self, meta: &SymbolMeta) -> (r: Result<PlcValue, ClientError>)
        default_ensures
            exists|raw: Result<Vec<u8>, ClientError>| #[trigger]
                call_ensures(Self::read_raw, (self, meta), raw) && told(r) == read_outcome(meta@, told(raw)),
    {
        let raw = self.read_raw(meta);
        decode_read(meta, raw)
    }
}

/// The data in the body of a read response.
pub open spec fn read_data(s: Seq<u8>) -> Result<Seq<u8>, ClientErrorView> {
    if s.len() < 8 {
        Err(ClientErrorView::Decode("ADS read response too short: "@ + dec(s.len()) + " bytes"@))
    } else if u32_at(s, 0) != 0 {
        Err(ClientErrorView::Ads("ADS read returned error 0x"@ + hex(u32_at(s, 0) as nat)))
    } else if s.len() - 8 < u32_at(s, 4) {
        Err(
            ClientErrorView::Decode(
                "ADS read payload truncated: declared "@ + dec(u32_at(s, 4) as nat) + " bytes, got "@ + dec(
                    (s.len() - 8) as nat,
                ),
            ),
        )
    } else {
        Ok(s.subrange(8, 8 + u32_at(s, 4)))
    }
}

/// Reads the data in the body of a read response.
pub fn decode_read_response(raw: &[u8]) -> (r: Result<Vec<u8>, ClientError>)
    ensures
        told(r) == read_data(raw@),
{
    if raw.len() < 8 {
        return Err(
            ClientError::Decode(
                crate::text::with_number("ADS read response too short: ", raw.len() as u64, " bytes"),
            ),
        );
    }
    let result_code: u32 = get_u32(raw, 0);
    if result_code != 0 {
        let mut m = String::from_str("ADS read returned error 0x");
        push_hex(&mut m, result_code as u64);
        return Err(ClientError::Ads(m));
    }
    let declared: u32 = get_u32(raw, 4);
    let got: u64 = (raw.len() - 8) as u64;
    if got < declared as u64 {
        let mut m = crate::text::with_number(
            "ADS read payload truncated: declared ",
            declared as u64,
            " bytes, got ",
        );
        push_dec(&mut m, got);
        return Err(ClientError::Decode(m));
    }
    Ok(copy_range(raw, 8, 8 + declared as usize))
}

/// Reads the symbols of one port of one PLC through a dispatcher.
#[derive(Debug, Clone, Copy)]
pub struct DispatcherClient {
    pub target_net_id: AmsNetId,
    pub target_port: u16,
    pub request_timeout: Duration,
}

/// A request, or why there is none, as the client tells it.
pub open spec fn begun_read(r: Result<OutgoingRequestView, DispatcherErrorView>) -> Result<
    OutgoingRequestView,
    ClientErrorView,
> {
    match r {
        Ok(o) => Ok(o),
        Err(e) => Err(ClientErrorView::Ads(e.message())),
    }
}

/// The data of a response, or why there is none, as the client tells it.
pub open spec fn finished_read(r: Result<Seq<u8>, DispatcherErrorView>) -> Result<Seq<u8>, ClientErrorView> {
    match r {
        Ok(s) => read_data(s),
        Err(e) => Err(ClientErrorView::Ads(e.message())),
    }
}

impl DispatcherClient {
    /// A client that waits five seconds for a response.
    pub fn new(target_net_id: AmsNetId, target_port: u16) -> (r: Self)
        ensures
            r == (DispatcherClient {
                target_net_id,
                target_port,
                request_timeout: (Duration { secs: 5, nanos: 0 }),
            }),
    {
        DispatcherClient { target_net_id, target_port, request_timeout: Duration::from_secs(5) }
    }

    pub fn with_request_timeout(self, timeout: Duration) -> (r: Self)
        ensures
            r == (DispatcherClient { request_timeout: timeout, ..self }),
    {
        DispatcherClient { request_timeout: timeout, ..self }
    }

    pub fn target_net_id(&self) -> (r: AmsNetId)
        ensures
            r == self.target_net_id,
    {
        self.target_net_id
    }

    pub fn target_port(&self) -> (r: u16)
        ensures
            r == self.target_port,
    {
        self.target_port
    }

    pub fn request_timeout(&self) -> (r: Duration)
        ensures
            r == self.request_timeout,
    {
        self.request_timeout
    }

    /// The body of the read request for a symbol.
    pub fn read_request(meta: &SymbolMeta) -> (r: Vec<u8>)
        ensures
            r@ == meta@.request(),
    {
        let request = AdsReadRequest {
            index_group: meta.index_group,
            index_offset: meta.index_offset,
            read_length: meta.size,
        };
        request.serialize()
    }

    /// Starts to read a symbol.
    pub fn begin_read(&self, dispatcher: &mut AmsDispatcher, meta: &SymbolMeta) -> (r: Result<
        OutgoingRequest,
        ClientError,
    >)
        ensures
            ({
                let (d, o) = begun(
                    old(dispatcher)@,
                    self.target_net_id@,
                    self.target_port,
                    ADS_CMD_READ,
                    meta@.request(),
                );
                final(dispatcher)@ == d && told(r) == begun_read(o)
            }),
    {
        let request = DispatcherClient::read_request(meta);
        match dispatcher.begin_request(self.target_net_id, self.target_port, ADS_CMD_READ, &request) {
            Ok(o) => Ok(o),
            Err(e) => Err(ClientError::Ads(e.to_string())),
        }
    }

    /// Ends the reading of a symbol: gives its bytes, or why there are none.
    pub fn finish_read(&self, dispatcher: &mut AmsDispatcher, invoke_id: u32, awaited: Awaited) -> (r: Result<
        Vec<u8>,
        ClientError,
    >)
        requires
            awaited matches Awaited::TimedOut(d) ==> d.nanos < 1_000_000_000,
        ensures
            told(r) == finished_read(finished(awaited)),
            awaited is Response ==> final(dispatcher)@ == old(dispatcher)@,
            !(awaited is Response) ==> final(dispatcher)@ == (DispatcherView {
                pending: old(dispatcher)@.pending.remove(invoke_id),
                ..old(dispatcher)@
            }),
    {
        match dispatcher.finish_request(invoke_id, awaited) {
            Ok(raw) => decode_read_response(&raw),
            Err(e) => Err(ClientError::Ads(e.to_string())),
        }
    }
}

/// What a read response carries is what the client reads out of it, whatever stands behind it.
pub proof fn law_read_response_gives_its_data(data: Seq<u8>, after: Seq<u8>)
    requires
        data.len() <= u32::MAX,
    ensures
        read_data((crate::ads_client::ReadResponseView { result: 0, data }).bytes() + after) == Ok::<
            Seq<u8>,
            ClientErrorView,
        >(data),
{
    let p = crate::ads_client::ReadResponseView { result: 0, data };
    crate::ads_client::law_read_response_reads_back(p, after);
    broadcast use crate::wire::group_wire;

    assert(p.bytes().len() == 8 + data.len());
}

} // verus!
