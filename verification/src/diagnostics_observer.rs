//! Pairs the requests and responses of diagnostic polls that pass by.
use vstd::prelude::*;

use crate::ams::{AmsHeader, AmsHeaderView, AmsNetId, ADS_CMD_READ};
use crate::diagnostics::{
    decode_request, decode_response, decode_write_from_request, request_of, response_of, viewed, write_of, DiagEvent,
    DiagEventView, PendingRequest, ADS_STATE_RESPONSE_MASK,
};
use crate::keymap::{kept, KeyMap, MapKey};
use crate::time::Tick;

verus! {

/// How long a request waits for its response: 30 s.
pub const PENDING_TTL_NANOS: u64 = 30_000_000_000;

/// From so many waiting requests on, stale ones are dropped before another is kept.
pub const MAX_PENDING: usize = 8_192;

/// How often stale requests are dropped: every 10 s.
pub const GC_INTERVAL_NANOS: u64 = 10_000_000_000;

/// What pairs a request with its response: the target and source of the request and its invoke
/// id.
#[derive(Debug)]
pub struct CorrelationKey {
    pub target: AmsNetId,
    pub source: AmsNetId,
    pub invoke_id: u32,
}

pub type CorrelationKeyView = (Seq<u8>, Seq<u8>, u32);

impl View for CorrelationKey {
    type V = CorrelationKeyView;

    open spec fn view(&self) -> CorrelationKeyView {
        (self.target@, self.source@, self.invoke_id)
    }
}

impl MapKey for CorrelationKey {
    fn same(&self, other: &Self) -> (b: bool) {
        self.invoke_id == other.invoke_id && self.target.same(&other.target) && self.source.same(&other.source)
    }
}

/// A request that waits, and since when.
#[derive(Debug, Clone, Copy)]
pub struct PendingEntry {
    pub req: PendingRequest,
    pub inserted: Tick,
}

impl View for PendingEntry {
    type V = PendingEntry;

    open spec fn view(&self) -> PendingEntry {
        *self
    }
}

#[derive(Debug)]
pub struct DiagnosticsObserver {
    pending: KeyMap<CorrelationKey, PendingEntry>,
    last_gc: Tick,
}

pub struct ObserverView {
    pub pending: Map<CorrelationKeyView, PendingEntry>,
    pub last_gc: Tick,
}

impl View for DiagnosticsObserver {
    type V = ObserverView;

    closed spec fn view(&self) -> ObserverView {
        ObserverView { pending: self.pending@, last_gc: self.last_gc }
    }
}

/// The entry has not waited too long.
pub open spec fn fresh(e: PendingEntry, now: Tick) -> bool {
    now.nanos <= e.inserted.nanos + PENDING_TTL_NANOS
}

/// The observer without its stale entries.
pub open spec fn swept(o: ObserverView, now: Tick) -> ObserverView {
    ObserverView {
        pending: kept(o.pending, |k: CorrelationKeyView, e: PendingEntry| fresh(e, now)),
        last_gc: now,
    }
}

/// The observer after the periodic sweep, if it is due.
pub open spec fn maybe_swept(o: ObserverView, now: Tick) -> ObserverView {
    if now.nanos < o.last_gc.nanos + GC_INTERVAL_NANOS { o } else { swept(o, now) }
}

/// A request is kept until its response comes.
pub open spec fn remembered(o: ObserverView, h: AmsHeaderView, req: PendingRequest, now: Tick) -> ObserverView {
    let room = if o.pending.dom().len() >= MAX_PENDING { swept(o, now) } else { o };
    ObserverView {
        pending: room.pending.insert(
            (h.target_net_id, h.source_net_id, h.invoke_id),
            PendingEntry { req, inserted: now },
        ),
        ..room
    }
}

/// What a frame gives, and the observer after it.
pub open spec fn fed(o: ObserverView, h: AmsHeaderView, p: Seq<u8>, now: Tick) -> (ObserverView, Option<DiagEventView>) {
    let o = maybe_swept(o, now);
    let key = (h.source_net_id, h.target_net_id, h.invoke_id);
    if h.state_flags & ADS_STATE_RESPONSE_MASK == 0 {
        match (write_of(h, p), request_of(h, p)) {
            (Some(e), _) => (o, Some(e)),
            (None, Some((_, req))) => (remembered(o, h, req, now), None),
            (None, None) => (o, None),
        }
    } else if o.pending.dom().contains(key) {
        (ObserverView { pending: o.pending.remove(key), ..o }, response_of(h, p, o.pending[key].req))
    } else {
        (o, None)
    }
}

/// `answer` answers `h`: the Net IDs are swapped, the invoke id is kept, and it is a response.
pub open spec fn answers(answer: AmsHeaderView, h: AmsHeaderView) -> bool {
    &&& answer.source_net_id == h.target_net_id
    &&& answer.target_net_id == h.source_net_id
    &&& answer.invoke_id == h.invoke_id
    &&& answer.state_flags & ADS_STATE_RESPONSE_MASK != 0
}

/// A followed read and its answer within 30 s give what the answer says of the read, and the
/// read waits no longer.
pub proof fn law_read_and_answer_are_paired(
    o: ObserverView,
    h: AmsHeaderView,
    p: Seq<u8>,
    asked: Tick,
    answer: AmsHeaderView,
    q: Seq<u8>,
    answered: Tick,
)
    requires
        h.command_id == ADS_CMD_READ,
        request_of(h, p) is Some,
        answers(answer, h),
        asked.nanos <= answered.nanos <= asked.nanos + PENDING_TTL_NANOS,
    ensures
        fed(o, h, p, asked).1 is None,
        request_of(h, p) matches Some((_, req)) && fed(fed(o, h, p, asked).0, answer, q, answered).1 == response_of(
            answer,
            q,
            req,
        ),
        !fed(fed(o, h, p, asked).0, answer, q, answered).0.pending.dom().contains(
            (h.target_net_id, h.source_net_id, h.invoke_id),
        ),
{
    assert(4u16 & 1u16 == 0) by (bit_vector);
}

/// An answer to nothing that waits gives nothing.
pub proof fn law_unasked_answers_are_ignored(o: ObserverView, h: AmsHeaderView, p: Seq<u8>, now: Tick)
    requires
        h.state_flags & ADS_STATE_RESPONSE_MASK != 0,
        !o.pending.dom().contains((h.source_net_id, h.target_net_id, h.invoke_id)),
    ensures
        fed(o, h, p, now).1 is None,
{
}

/// After a sweep nothing stale waits, and everything fresh still does.
pub proof fn law_sweep_drops_the_stale(o: ObserverView, now: Tick, key: CorrelationKeyView)
    ensures
        swept(o, now).pending.dom().contains(key) <==> o.pending.dom().contains(key) && fresh(o.pending[key], now),
        swept(o, now).pending.dom().contains(key) ==> swept(o, now).pending[key] == o.pending[key],
{
}

fn is_fresh(e: &PendingEntry, now: Tick) -> (r: bool)
    ensures
        r == fresh(*e, now),
{
    now.since(e.inserted) <= PENDING_TTL_NANOS
}

impl DiagnosticsObserver {
    /// An observer that starts at `now`.
    pub fn new(now: Tick) -> (r: Self)
        ensures
            r@ == (ObserverView { pending: Map::empty(), last_gc: now }),
    {
        DiagnosticsObserver { pending: KeyMap::new(), last_gc: now }
    }

    /// The number of requests that wait.
    pub fn pending_len(&self) -> (r: usize)
        ensures
            r == self@.pending.dom().len(),
    {
        self.pending.len()
    }

    /// Takes in one frame.
    pub fn feed(&mut self, header: &AmsHeader, payload: &[u8], now: Tick) -> (r: Option<DiagEvent>)
        ensures
            (final(self)@, viewed(r)) == fed(old(self)@, header@, payload@, now),
    {
        self.maybe_gc(now);
        if header.state_flags & ADS_STATE_RESPONSE_MASK == 0 {
            match decode_write_from_request(header, payload) {
                Some(e) => {
                    return Some(e);
                },
                None => {},
            }
            match decode_request(header, payload) {
                Some((invoke_id, req)) => {
                    if self.pending.len() >= MAX_PENDING {
                        self.gc_now(now);
                    }
                    self.pending.insert(
                        CorrelationKey { target: header.target_net_id, source: header.source_net_id, invoke_id },
                        PendingEntry { req, inserted: now },
                    );
                },
                None => {},
            }
            return None;
        }
        let key = CorrelationKey {
            target: header.source_net_id,
            source: header.target_net_id,
            invoke_id: header.invoke_id,
        };
        match self.pending.remove(&key) {
            Some(entry) => decode_response(header, payload, &entry.req),
            None => {
                assert(self@.pending =~= maybe_swept(old(self)@, now).pending);
                None
            },
        }
    }

    fn maybe_gc(&mut self, now: Tick)
        ensures
            final(self)@ == maybe_swept(old(self)@, now),
    {
        if now.since(self.last_gc) < GC_INTERVAL_NANOS {
            return;
        }
        self.gc_now(now);
    }

    /// Drops the stale entries.
    pub fn gc_now(&mut self, now: Tick)
        ensures
            final(self)@ == swept(old(self)@, now),
    {
        let ghost keep = |k: CorrelationKeyView, e: PendingEntry| fresh(e, now);
        let is_kept = |k: &CorrelationKey, e: &PendingEntry| -> (b: bool)
            ensures
                b == keep(k@, e@),
            { is_fresh(e, now) };
        self.pending.retain(is_kept, Ghost(keep));
        self.last_gc = now;
    }
}

impl Default for DiagnosticsObserver {
    fn default() -> (r: Self)
        ensures
            r@ == (ObserverView { pending: Map::empty(), last_gc: (Tick { nanos: 0 }) }),
    {
        Self::new(Tick { nanos: 0 })
    }
}

} // verus!
