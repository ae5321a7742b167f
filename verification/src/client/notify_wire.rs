//! Subscriptions and notifications on the wire.
use vstd::prelude::*;

use crate::ams::{
    AmsHeader, AmsNetId, ADS_CMD_ADD_NOTIFICATION, ADS_CMD_DEL_NOTIFICATION, ADS_CMD_NOTIFICATION,
};
use crate::client::error::{told, ClientError, ClientErrorView};
use crate::client::notify::{sample_views, DispatchBatch, NotifAttrs, NotifHandle};
use crate::client::{begun_read, DispatcherClient, SymbolMeta, SymbolMetaView};
use crate::dispatcher::{begun, finished, AmsDispatcher, Awaited, DispatcherView, OutgoingRequest};
use crate::text::{dec, hex, push_hex};
use crate::time::Duration;
use crate::wire::{copy_range, get_u32, le32, put_slice, put_u32, u32_at};

verus! {

broadcast use crate::wire::group_wire;

/// The body of a subscription request: where the symbol is, its size, and how it is subscribed to.
pub open spec fn subscribe_request(attrs: NotifAttrs, meta: SymbolMetaView) -> Seq<u8> {
    meta.request() + attrs.tail()
}

/// The handle in the body of the reply to a subscription request.
pub open spec fn subscribe_reply(s: Seq<u8>) -> Result<u32, ClientErrorView> {
    if s.len() < 8 {
        Err(ClientErrorView::Decode("ADS AddNotification response too short: "@ + dec(s.len()) + " bytes"@))
    } else if u32_at(s, 0) != 0 {
        Err(ClientErrorView::Ads("ADS AddNotification returned error 0x"@ + hex(u32_at(s, 0) as nat)))
    } else {
        Ok(u32_at(s, 4))
    }
}

/// What the body of the reply to the end of a subscription says.
pub open spec fn unsubscribe_reply(s: Seq<u8>) -> Result<(), ClientErrorView> {
    if s.len() < 4 {
        Err(ClientErrorView::Decode("ADS DelNotification response too short: "@ + dec(s.len()) + " bytes"@))
    } else if u32_at(s, 0) != 0 {
        Err(ClientErrorView::Ads("ADS DelNotification returned error 0x"@ + hex(u32_at(s, 0) as nat)))
    } else {
        Ok(())
    }
}

fn error_message(prefix: &str, code: u32) -> (r: String)
    ensures
        r@ == prefix@ + hex(code as nat),
{
    let mut m = prefix.to_string();
    push_hex(&mut m, code as u64);
    m
}

/// Writes the body of a subscription request.
pub fn encode_subscribe(attrs: &NotifAttrs, meta: &SymbolMeta) -> (r: Vec<u8>)
    ensures
        r@ == subscribe_request(*attrs, meta@),
{
    let mut r = DispatcherClient::read_request(meta);
    put_slice(&mut r, &attrs.serialize_tail());
    r
}

/// Reads the reply to a subscription request.
pub fn decode_subscribe_reply(raw: &[u8]) -> (r: Result<NotifHandle, ClientError>)
    ensures
        told(r) == subscribe_reply(raw@),
{
    if raw.len() < 8 {
        return Err(
            ClientError::Decode(
                crate::text::with_number(
                    "ADS AddNotification response too short: ",
                    raw.len() as u64,
                    " bytes",
                ),
            ),
        );
    }
    let result: u32 = get_u32(raw, 0);
    if result != 0 {
        return Err(ClientError::Ads(error_message("ADS AddNotification returned error 0x", result)));
    }
    Ok(get_u32(raw, 4))
}

/// Reads the reply to the end of a subscription.
pub fn decode_unsubscribe_reply(raw: &[u8]) -> (r: Result<(), ClientError>)
    ensures
        match r {
            Ok(_) => unsubscribe_reply(raw@) is Ok,
            Err(e) => unsubscribe_reply(raw@) == Err::<(), ClientErrorView>(e@),
        },
{
    if raw.len() < 4 {
        return Err(
            ClientError::Decode(
                crate::text::with_number(
                    "ADS DelNotification response too short: ",
                    raw.len() as u64,
                    " bytes",
                ),
            ),
        );
    }
    let result: u32 = get_u32(raw, 0);
    if result != 0 {
        return Err(ClientError::Ads(error_message("ADS DelNotification returned error 0x", result)));
    }
    Ok(())
}

/// Subscribes to the symbols of one port of one PLC through a dispatcher.
#[derive(Debug, Clone, Copy)]
pub struct DispatcherNotificationBackend {
    pub target_net_id: AmsNetId,
    pub target_port: u16,
    pub request_timeout: Duration,
}

impl DispatcherNotificationBackend {
    pub fn new(target_net_id: AmsNetId, target_port: u16, request_timeout: Duration) -> (r: Self)
        ensures
            r == (DispatcherNotificationBackend { target_net_id, target_port, request_timeout }),
    {
        DispatcherNotificationBackend { target_net_id, target_port, request_timeout }
    }

    /// Starts to subscribe to a symbol.
    pub fn begin_subscribe(&self, dispatcher: &mut AmsDispatcher, attrs: &NotifAttrs, meta: &SymbolMeta) -> (r: Result<
        OutgoingRequest,
        ClientError,
    >)
        ensures
            ({
                let (d, o) = begun(
                    old(dispatcher)@,
                    self.target_net_id@,
                    self.target_port,
                    ADS_CMD_ADD_NOTIFICATION,
                    subscribe_request(*attrs, meta@),
                );
                final(dispatcher)@ == d && told(r) == begun_read(o)
            }),
    {
        let request = encode_subscribe(attrs, meta);
        match dispatcher.begin_request(self.target_net_id, self.target_port, ADS_CMD_ADD_NOTIFICATION, &request) {
            Ok(o) => Ok(o),
            Err(e) => Err(ClientError::Ads(e.to_string())),
        }
    }

    /// Ends the request of a subscription: gives its handle, or why there is none.
    pub fn finish_subscribe(&self, dispatcher: &mut AmsDispatcher, invoke_id: u32, awaited: Awaited) -> (r: Result<
        NotifHandle,
        ClientError,
    >)
        requires
            awaited matches Awaited::TimedOut(d) ==> d.nanos < 1_000_000_000,
        ensures
            told(r) == (match finished(awaited) {
                Ok(s) => subscribe_reply(s),
                Err(e) => Err(ClientErrorView::Ads(e.message())),
            }),
            awaited is Response ==> final(dispatcher)@ == old(dispatcher)@,
            !(awaited is Response) ==> final(dispatcher)@ == (DispatcherView {
                pending: old(dispatcher)@.pending.remove(invoke_id),
                ..old(dispatcher)@
            }),
    {
        match dispatcher.finish_request(invoke_id, awaited) {
            Ok(raw) => decode_subscribe_reply(&raw),
            Err(e) => Err(ClientError::Ads(e.to_string())),
        }
    }

    /// Starts to end a subscription.
    pub fn begin_unsubscribe(&self, dispatcher: &mut AmsDispatcher, handle: NotifHandle) -> (r: Result<
        OutgoingRequest,
        ClientError,
    >)
        ensures
            ({
                let (d, o) = begun(
                    old(dispatcher)@,
                    self.target_net_id@,
                    self.target_port,
                    ADS_CMD_DEL_NOTIFICATION,
                    le32(handle),
                );
                final(dispatcher)@ == d && told(r) == begun_read(o)
            }),
    {
        let mut request: Vec<u8> = Vec::new();
        put_u32(&mut request, handle);
        assert(request@ =~= le32(handle));
        match dispatcher.begin_request(self.target_net_id, self.target_port, ADS_CMD_DEL_NOTIFICATION, &request) {
            Ok(o) => Ok(o),
            Err(e) => Err(ClientError::Ads(e.to_string())),
        }
    }

    /// Ends the request for the end of a subscription.
    pub fn finish_unsubscribe(&self, dispatcher: &mut AmsDispatcher, invoke_id: u32, awaited: Awaited) -> (r: Result<
        (),
        ClientError,
    >)
        requires
            awaited matches Awaited::TimedOut(d) ==> d.nanos < 1_000_000_000,
        ensures
            (match r {
                Ok(_) => Ok(()),
                Err(e) => Err(e@),
            }) == (match finished(awaited) {
                Ok(s) => unsubscribe_reply(s),
                Err(e) => Err(ClientErrorView::Ads(e.message())),
            }),
            awaited is Response ==> final(dispatcher)@ == old(dispatcher)@,
            !(awaited is Response) ==> final(dispatcher)@ == (DispatcherView {
                pending: old(dispatcher)@.pending.remove(invoke_id),
                ..old(dispatcher)@
            }),
    {
        match dispatcher.finish_request(invoke_id, awaited) {
            Ok(raw) => decode_unsubscribe_reply(&raw),
            Err(e) => Err(ClientError::Ads(e.to_string())),
        }
    }
}

/// Up to `n` samples from `pos` on, after those found before, and where reading stopped. It stops
/// where there is no room for the header of a sample, and behind a header that announces more
/// bytes than there are.
pub open spec fn samples_after(s: Seq<u8>, pos: int, n: nat, found: Seq<(u32, Seq<u8>)>) -> (
    Seq<(u32, Seq<u8>)>,
    int,
)
    decreases n,
{
    let size = u32_at(s, pos + 4) as int;
    if n == 0 || s.len() < pos + 8 {
        (found, pos)
    } else if s.len() < pos + 8 + size {
        (found, pos + 8)
    } else {
        samples_after(
            s,
            pos + 8 + size,
            (n - 1) as nat,
            found.push((u32_at(s, pos), s.subrange(pos + 8, pos + 8 + size))),
        )
    }
}

/// The samples of up to `n` stamps from `pos` on, after those found before. A stamp is a time of
/// eight bytes, the number of its samples, and the samples.
pub open spec fn stamps_after(s: Seq<u8>, pos: int, n: nat, found: Seq<(u32, Seq<u8>)>) -> Seq<(u32, Seq<u8>)>
    decreases n,
{
    if n == 0 || s.len() < pos + 12 {
        found
    } else {
        let (more, end) = samples_after(s, pos + 12, u32_at(s, pos + 8) as nat, found);
        stamps_after(s, end, (n - 1) as nat, more)
    }
}

/// The samples in the body of a notification: its length, the number of stamps, and the stamps.
pub open spec fn notification_samples(s: Seq<u8>) -> Seq<(u32, Seq<u8>)> {
    if s.len() < 8 {
        Seq::empty()
    } else {
        stamps_after(s, 8, u32_at(s, 4) as nat, Seq::empty())
    }
}

/// Reads the samples of one stamp; gives where reading stopped.
fn read_samples(data: &[u8], pos: usize, n: u32, out: &mut Vec<(NotifHandle, Vec<u8>)>) -> (r: usize)
    requires
        pos <= data@.len(),
    ensures
        r <= data@.len(),
        (sample_views(final(out)@), r as int) == samples_after(data@, pos as int, n as nat, sample_views(old(out)@)),
{
    let ghost all = samples_after(data@, pos as int, n as nat, sample_views(out@));
    let mut offset: usize = pos;
    let mut left: u32 = n;
    while left > 0 && data.len() - offset >= 8
        invariant
            offset <= data@.len(),
            samples_after(data@, offset as int, left as nat, sample_views(out@)) == all,
            all == samples_after(data@, pos as int, n as nat, sample_views(old(out)@)),
        decreases left,
    {
        let handle: u32 = get_u32(data, offset);
        let size: u32 = get_u32(data, offset + 4);
        offset = offset + 8;
        if ((data.len() - offset) as u64) < size as u64 {
            return offset;
        }
        let ghost before = sample_views(out@);
        let bytes = copy_range(data, offset, offset + size as usize);
        let ghost sample = (handle, bytes@);
        out.push((handle, bytes));
        assert(sample_views(out@) =~= before.push(sample));
        offset = offset + size as usize;
        left = left - 1;
    }
    offset
}

/// Reads the samples in the body of a notification.
pub fn parse_notification_payload(data: &[u8]) -> (r: Vec<(NotifHandle, Vec<u8>)>)
    ensures
        sample_views(r@) == notification_samples(data@),
{
    let mut out: Vec<(NotifHandle, Vec<u8>)> = Vec::new();
    assert(sample_views(out@) =~= Seq::empty());
    if data.len() < 8 {
        return out;
    }
    let ghost all = notification_samples(data@);
    let mut left: u32 = get_u32(data, 4);
    let mut offset: usize = 8;
    while left > 0 && data.len() - offset >= 12
        invariant
            offset <= data@.len(),
            stamps_after(data@, offset as int, left as nat, sample_views(out@)) == all,
        decreases left,
    {
        let n: u32 = get_u32(data, offset + 8);
        offset = read_samples(data, offset + 12, n, &mut out);
        left = left - 1;
    }
    out
}

/// Picks the notifications out of the frames that are not responses.
#[derive(Debug, Clone, Copy)]
pub struct NotificationSink;

impl NotificationSink {
    /// The samples that a frame brings; nothing if it is no notification or has none.
    pub fn extract(&self, header: &AmsHeader, payload: &[u8]) -> (r: Option<DispatchBatch>)
        ensures
            match r {
                Some(b) => header.command_id == ADS_CMD_NOTIFICATION && b@ == notification_samples(payload@)
                    && b@.len() > 0,
                None => header.command_id != ADS_CMD_NOTIFICATION || notification_samples(payload@).len() == 0,
            },
    {
        if header.command_id != ADS_CMD_NOTIFICATION {
            return None;
        }
        let samples = parse_notification_payload(payload);
        if samples.len() == 0 {
            assert(sample_views(samples@).len() == 0);
            None
        } else {
            Some(DispatchBatch { samples })
        }
    }
}

/// A sample as a PLC writes it.
pub open spec fn sample_bytes(x: (u32, Seq<u8>)) -> Seq<u8> {
    le32(x.0) + le32(x.1.len() as u32) + x.1
}

/// Samples as a PLC writes them.
pub open spec fn samples_bytes(samples: Seq<(u32, Seq<u8>)>) -> Seq<u8>
    decreases samples.len(),
{
    if samples.len() == 0 {
        Seq::empty()
    } else {
        samples_bytes(samples.drop_last()) + sample_bytes(samples.last())
    }
}

/// The samples of a moment.
pub struct Stamp {
    pub time: Seq<u8>,
    pub samples: Seq<(u32, Seq<u8>)>,
}

impl Stamp {
    /// The time has eight bytes, and the counts fit their fields.
    pub open spec fn valid(self) -> bool {
        &&& self.time.len() == 8
        &&& self.samples.len() <= u32::MAX
        &&& forall|i: int| 0 <= i < self.samples.len() ==> (#[trigger] self.samples[i]).1.len() <= u32::MAX
    }

    /// The stamp as a PLC writes it.
    pub open spec fn bytes(self) -> Seq<u8> {
        self.time + le32(self.samples.len() as u32) + samples_bytes(self.samples)
    }
}

/// Stamps as a PLC writes them.
pub open spec fn stamps_bytes(stamps: Seq<Stamp>) -> Seq<u8>
    decreases stamps.len(),
{
    if stamps.len() == 0 {
        Seq::empty()
    } else {
        stamps_bytes(stamps.drop_last()) + stamps.last().bytes()
    }
}

/// The samples of all stamps, in order.
pub open spec fn all_samples(stamps: Seq<Stamp>) -> Seq<(u32, Seq<u8>)>
    decreases stamps.len(),
{
    if stamps.len() == 0 {
        Seq::empty()
    } else {
        all_samples(stamps.drop_last()) + stamps.last().samples
    }
}

/// All samples that a PLC writes into a notification come out of it, in order, whatever stands
/// behind it.
pub proof fn law_notification_reads_back(total: u32, stamps: Seq<Stamp>, after: Seq<u8>)
    requires
        stamps.len() <= u32::MAX,
        forall|i: int| 0 <= i < stamps.len() ==> (#[trigger] stamps[i]).valid(),
    ensures
        notification_samples(le32(total) + le32(stamps.len() as u32) + stamps_bytes(stamps) + after) == all_samples(
            stamps,
        ),
{
    let n = stamps.len() as u32;
    let s = le32(total) + le32(n) + stamps_bytes(stamps) + after;
    crate::wire::law_le32_read(n);
    assert(s.subrange(4, 8) =~= le32(n));
    crate::wire::lemma_window(s, 4, 8, 0);
    assert(s.subrange(8, 8 + stamps_bytes(stamps).len() as int) =~= stamps_bytes(stamps));
    lemma_stamps_rest(s, stamps, 0);
    assert(stamps.take(0) =~= Seq::empty());
}

/// With the first `k` stamps read, the rest of them follow.
proof fn lemma_stamps_rest(s: Seq<u8>, stamps: Seq<Stamp>, k: int)
    requires
        0 <= k <= stamps.len(),
        forall|i: int| 0 <= i < stamps.len() ==> (#[trigger] stamps[i]).valid(),
        s.len() >= 8 + stamps_bytes(stamps).len(),
        s.subrange(8, 8 + stamps_bytes(stamps).len() as int) == stamps_bytes(stamps),
    ensures
        stamps_after(
            s,
            8 + stamps_bytes(stamps.take(k)).len() as int,
            (stamps.len() - k) as nat,
            all_samples(stamps.take(k)),
        ) == all_samples(stamps),
    decreases stamps.len() - k,
{
    if k == stamps.len() {
        assert(stamps.take(k) =~= stamps);
    } else {
        let t = stamps[k];
        let pos = 8 + stamps_bytes(stamps.take(k)).len() as int;
        let found = all_samples(stamps.take(k));
        assert(stamps.take(k + 1).drop_last() =~= stamps.take(k));
        assert(stamps.take(k + 1).last() == t);
        lemma_stamps_prefix(stamps, k + 1);
        let end = pos + t.bytes().len();
        assert(stamps_bytes(stamps.take(k + 1)).len() == end - 8);
        assert(s.subrange(pos, end) =~= t.bytes()) by {
            let head = stamps_bytes(stamps).take(end - 8);
            assert(s.subrange(pos, end) =~= head.subrange(pos - 8, end - 8));
            assert((stamps_bytes(stamps.take(k)) + t.bytes()).subrange(pos - 8, end - 8) =~= t.bytes());
        }
        let n = t.samples.len() as u32;
        assert(s.subrange(pos + 8, pos + 12) =~= le32(n)) by {
            assert(s.subrange(pos + 8, pos + 12) =~= s.subrange(pos, end).subrange(8, 12));
            assert(t.bytes().subrange(8, 12) =~= le32(n));
        }
        crate::wire::law_le32_read(n);
        crate::wire::lemma_window(s, pos + 8, pos + 12, 0);
        assert(s.subrange(pos + 12, end) =~= samples_bytes(t.samples)) by {
            assert(s.subrange(pos + 12, end) =~= s.subrange(pos, end).subrange(12, end - pos));
            assert(t.bytes().subrange(12, end - pos) =~= samples_bytes(t.samples));
        }
        lemma_samples_rest(s, pos + 12, t.samples, 0, found);
        assert(t.samples.take(0) =~= Seq::empty());
        assert(found + t.samples.take(0) =~= found);
        lemma_stamps_rest(s, stamps, k + 1);
    }
}

proof fn lemma_stamps_prefix(stamps: Seq<Stamp>, k: int)
    requires
        0 <= k <= stamps.len(),
    ensures
        stamps_bytes(stamps.take(k)).len() <= stamps_bytes(stamps).len(),
        stamps_bytes(stamps).take(stamps_bytes(stamps.take(k)).len() as int) == stamps_bytes(stamps.take(k)),
    decreases stamps.len(),
{
    if k == stamps.len() {
        assert(stamps.take(k) =~= stamps);
        assert(stamps_bytes(stamps).take(stamps_bytes(stamps).len() as int) =~= stamps_bytes(stamps));
    } else {
        let front = stamps.drop_last();
        lemma_stamps_prefix(front, k);
        assert(front.take(k) =~= stamps.take(k));
        let n = stamps_bytes(stamps.take(k)).len() as int;
        assert(stamps_bytes(stamps).take(n) =~= stamps_bytes(front).take(n));
    }
}

/// With the first `k` samples of a stamp read, the rest of them follow.
proof fn lemma_samples_rest(s: Seq<u8>, pos: int, samples: Seq<(u32, Seq<u8>)>, k: int, found: Seq<(u32, Seq<u8>)>)
    requires
        0 <= k <= samples.len(),
        0 <= pos,
        forall|i: int| 0 <= i < samples.len() ==> (#[trigger] samples[i]).1.len() <= u32::MAX,
        pos + samples_bytes(samples).len() <= s.len(),
        s.subrange(pos, pos + samples_bytes(samples).len()) == samples_bytes(samples),
    ensures
        samples_after(
            s,
            pos + samples_bytes(samples.take(k)).len() as int,
            (samples.len() - k) as nat,
            found + samples.take(k),
        ) == (found + samples, pos + samples_bytes(samples).len() as int),
    decreases samples.len() - k,
{
    if k == samples.len() {
        assert(samples.take(k) =~= samples);
    } else {
        let x = samples[k];
        let at = pos + samples_bytes(samples.take(k)).len() as int;
        assert(samples.take(k + 1).drop_last() =~= samples.take(k));
        assert(samples.take(k + 1).last() == x);
        lemma_samples_prefix(samples, k + 1);
        let end = at + sample_bytes(x).len();
        assert(s.subrange(at, end) =~= sample_bytes(x)) by {
            let head = samples_bytes(samples).take(end - pos);
            assert(s.subrange(at, end) =~= head.subrange(at - pos, end - pos));
            assert((samples_bytes(samples.take(k)) + sample_bytes(x)).subrange(at - pos, end - pos) =~= sample_bytes(
                x,
            ));
        }
        let n = x.1.len() as u32;
        assert(s.subrange(at, at + 4) =~= le32(x.0)) by {
            assert(s.subrange(at, at + 4) =~= s.subrange(at, end).subrange(0, 4));
            assert(sample_bytes(x).subrange(0, 4) =~= le32(x.0));
        }
        assert(s.subrange(at + 4, at + 8) =~= le32(n)) by {
            assert(s.subrange(at + 4, at + 8) =~= s.subrange(at, end).subrange(4, 8));
            assert(sample_bytes(x).subrange(4, 8) =~= le32(n));
        }
        assert(s.subrange(at + 8, end) =~= x.1) by {
            assert(s.subrange(at + 8, end) =~= s.subrange(at, end).subrange(8, end - at));
            assert(sample_bytes(x).subrange(8, end - at) =~= x.1);
        }
        crate::wire::law_le32_read(x.0);
        crate::wire::law_le32_read(n);
        crate::wire::lemma_window(s, at, at + 4, 0);
        crate::wire::lemma_window(s, at + 4, at + 8, 0);
        assert((found + samples.take(k)).push(x) =~= found + samples.take(k + 1));
        lemma_samples_rest(s, pos, samples, k + 1, found);
    }
}

proof fn lemma_samples_prefix(samples: Seq<(u32, Seq<u8>)>, k: int)
    requires
        0 <= k <= samples.len(),
    ensures
        samples_bytes(samples.take(k)).len() <= samples_bytes(samples).len(),
        samples_bytes(samples).take(samples_bytes(samples.take(k)).len() as int) == samples_bytes(samples.take(k)),
    decreases samples.len(),
{
    if k == samples.len() {
        assert(samples.take(k) =~= samples);
        assert(samples_bytes(samples).take(samples_bytes(samples).len() as int) =~= samples_bytes(samples));
    } else {
        let front = samples.drop_last();
        lemma_samples_prefix(front, k);
        assert(front.take(k) =~= samples.take(k));
        let n = samples_bytes(samples.take(k)).len() as int;
        assert(samples_bytes(samples).take(n) =~= samples_bytes(front).take(n));
    }
}

} // verus!
