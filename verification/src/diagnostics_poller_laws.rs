//! What the poller asks of its targets, and how its polls find their answers.
use vstd::prelude::*;
use vstd::utf8::{encode_utf8, encode_utf8_decode_utf8, encode_utf8_valid_utf8};

use crate::ams::{law_header_read_of_bytes, net_id_of, AmsHeaderView};
use crate::diagnostics::{request_of, response_of, DiagEventView, PendingRequest};
use crate::diagnostics_observer::{fed, CorrelationKeyView, ObserverView, PendingEntry};
use crate::diagnostics_poller::{
    answered, asked_names, device_name, discovery, lowest, nth_id, polls_of, request_header, seeded, suspended, ticked,
    watched, PlannedPollView, PollerView, TargetConfigView,
};
use crate::encoding::lemma_dword_read;
use crate::error::AdsErrorView;
use crate::text::trimmed_text;
use crate::time::Tick;
use crate::topics::{ams_topic, answer_topic, info_topic};
use crate::wire::{le32, u32_at, zero_from};

verus! {

broadcast use crate::wire::group_wire;

// The observer.

/// A request that waits goes on waiting, unchanged, whatever other frame comes by within 30 s.
pub proof fn law_other_frames_do_not_disturb(
    o: ObserverView,
    key: CorrelationKeyView,
    h: AmsHeaderView,
    p: Seq<u8>,
    now: Tick,
)
    requires
        o.pending.dom().contains(key),
        now.nanos <= o.pending[key].inserted.nanos + 30_000_000_000,
        key != (h.target_net_id, h.source_net_id, h.invoke_id),
        key != (h.source_net_id, h.target_net_id, h.invoke_id),
    ensures
        fed(o, h, p, now).0.pending.dom().contains(key),
        fed(o, h, p, now).0.pending[key] == o.pending[key],
{
}

/// A request that is followed waits from now on, with what it asked for. A write that resets the
/// counter waits for nothing: it is known at once.
pub proof fn law_followed_requests_wait(o: ObserverView, h: AmsHeaderView, p: Seq<u8>, now: Tick)
    requires
        h.state_flags == 4,
    ensures
        h.command_id == 2 ==> (request_of(h, p) matches Some((id, req)) ==> {
            let key = (h.target_net_id, h.source_net_id, h.invoke_id);
            &&& fed(o, h, p, now).1 is None
            &&& fed(o, h, p, now).0.pending.dom().contains(key)
            &&& fed(o, h, p, now).0.pending[key] == (PendingEntry { req, inserted: now })
        }),
        h.command_id == 3 && request_of(h, p) is Some ==> fed(o, h, p, now).1 == Some(DiagEventView::ExceedReset),
        h.command_id == 3 || request_of(h, p) is None ==> fed(o, h, p, now).0.pending.dom().subset_of(o.pending.dom()),
{
    assert(4u16 & 1u16 == 0) by (bit_vector);
}

/// A request that has waited for more than 30 s is forgotten by the first frame that comes ten
/// seconds or more after the last clearing.
pub proof fn law_stale_requests_are_forgotten(
    o: ObserverView,
    key: CorrelationKeyView,
    h: AmsHeaderView,
    p: Seq<u8>,
    now: Tick,
)
    requires
        o.pending.dom().contains(key),
        now.nanos > o.pending[key].inserted.nanos + 30_000_000_000,
        now.nanos >= o.last_gc.nanos + 10_000_000_000,
        key != (h.target_net_id, h.source_net_id, h.invoke_id),
    ensures
        !fed(o, h, p, now).0.pending.dom().contains(key),
        fed(o, h, p, now).0.last_gc == now,
        key == (h.source_net_id, h.target_net_id, h.invoke_id) && h.state_flags & 1 != 0 ==> fed(o, h, p, now).1 is None,
{
}

// The polls.

/// The port for system polls is the lowest of the tasks' ports; the other one where there are none.
pub proof fn law_lowest_port(ports: Seq<u16>, other: u16)
    ensures
        ports.len() == 0 ==> lowest(ports, other) == other,
        ports.len() > 0 ==> ports.contains(lowest(ports, other)),
        forall|i: int| 0 <= i < ports.len() ==> lowest(ports, other) <= #[trigger] ports[i],
    decreases ports.len(),
{
    if ports.len() > 0 {
        let front = ports.drop_last();
        law_lowest_port(front, other);
        assert(ports.last() == ports[ports.len() - 1]);
        if front.len() > 0 && lowest(ports, other) == lowest(front, other) {
            let i = choose|i: int| 0 <= i < front.len() && front[i] == lowest(front, other);
            assert(ports[i] == lowest(front, other));
        }
        assert forall|i: int| 0 <= i < ports.len() implies lowest(ports, other) <= #[trigger] ports[i] by {
            if i < front.len() {
                assert(front[i] == ports[i]);
            }
        }
    }
}

/// The place of the first poll of a task among the polls of its target.
pub open spec fn first_task(t: TargetConfigView) -> int {
    (if t.exceed_counter { 1int } else { 0 }) + (if t.rt_usage { 1int } else { 0 })
}

/// A target that is polled for its exceed counter is asked for it at the lowest of its tasks'
/// ports; one that is polled for its usage is asked for it at its realtime port; and each task is
/// asked at its own port, in order.
pub proof fn law_polls_ask_for_what_is_switched_on(t: TargetConfigView, source: Seq<u8>, first: u32, i: int)
    ensures
        ({
            let all = polls_of(t, source, first);
            &&& all.len() == first_task(t) + t.task_ports.len()
            &&& t.exceed_counter ==> {
                &&& all[0].target_port == lowest(t.task_ports, t.rt_port)
                &&& all[0].index_group == 0xF200
                &&& all[0].index_offset == 0x100
                &&& all[0].read_size == 4
            }
            &&& t.rt_usage ==> {
                let usage = all[first_task(t) - 1];
                &&& usage.target_port == t.rt_port
                &&& usage.index_group == 1
                &&& usage.index_offset == 15
                &&& usage.read_size == 24
            }
            &&& 0 <= i < t.task_ports.len() ==> {
                let task = all[first_task(t) + i];
                &&& task.target_port == t.task_ports[i]
                &&& task.index_group == 0xF200
                &&& task.index_offset == 0
                &&& task.read_size == 16
            }
            &&& 0 <= i < all.len() ==> all[i].target_net_id == t.net_id && all[i].invoke_id == (first + i)
                % 0x1_0000_0000
        }),
{
}

/// The frame of a poll is a read request from port 30001 of the poller to the port polled, for as
/// many bytes as the poll says.
pub proof fn law_polls_are_read_requests(t: TargetConfigView, source: Seq<u8>, first: u32, i: int)
    requires
        0 <= i < polls_of(t, source, first).len(),
        t.net_id.len() == 6,
        source.len() == 6,
    ensures
        ({
            let p = polls_of(t, source, first)[i];
            let h = AmsHeaderView::read(p.frame);
            let b = p.frame.skip(32);
            &&& p.frame.len() == 44
            &&& h == (AmsHeaderView {
                target_net_id: t.net_id,
                target_port: p.target_port,
                source_net_id: source,
                source_port: 30001,
                command_id: 2,
                state_flags: 4,
                data_length: 12,
                error_code: 0,
                invoke_id: p.invoke_id,
            })
            &&& u32_at(b, 0) == p.index_group
            &&& u32_at(b, 4) == p.index_offset
            &&& u32_at(b, 8) == p.read_size
        }),
{
    let p = polls_of(t, source, first)[i];
    let h = request_header(source, 30001, t.net_id, p.target_port, 2, 12, p.invoke_id);
    let b = le32(p.index_group) + le32(p.index_offset) + le32(p.read_size);
    assert(p.frame == h.bytes() + b);
    law_header_read_of_bytes(h, b);
    assert(h.bytes().len() == 32);
    assert(p.frame.skip(32) =~= b);
    assert(b.subrange(0, 4) =~= le32(p.index_group));
    assert(b.subrange(4, 8) =~= le32(p.index_offset));
    assert(b.subrange(8, 12) =~= le32(p.read_size));
    lemma_dword_read(b, 0, p.index_group);
    lemma_dword_read(b, 4, p.index_offset);
    lemma_dword_read(b, 8, p.read_size);
}

/// What a poll waits for.
pub open spec fn awaited_read(p: PlannedPollView) -> PendingRequest {
    PendingRequest {
        command_id: 2,
        index_group: p.index_group,
        index_offset: p.index_offset,
        size: p.read_size,
        target_port: p.target_port,
    }
}

/// Under which key a poll waits.
pub open spec fn poll_key(p: PlannedPollView, source: Seq<u8>) -> CorrelationKeyView {
    (p.target_net_id, source, p.invoke_id)
}

proof fn lemma_poll_is_followed(t: TargetConfigView, source: Seq<u8>, first: u32, i: int)
    requires
        0 <= i < polls_of(t, source, first).len(),
        t.net_id.len() == 6,
        source.len() == 6,
    ensures
        ({
            let p = polls_of(t, source, first)[i];
            request_of(AmsHeaderView::read(p.frame), p.frame.skip(32)) == Some((p.invoke_id, awaited_read(p)))
        }),
{
    law_polls_are_read_requests(t, source, first, i);
    law_polls_ask_for_what_is_switched_on(t, source, first, i - first_task(t));
}

/// The polls that went out wait.
proof fn lemma_polls_wait(o: ObserverView, t: TargetConfigView, source: Seq<u8>, first: u32, n: int, i: int, now: Tick)
    requires
        0 <= i < n <= polls_of(t, source, first).len() <= 0x1_0000_0000,
        t.net_id.len() == 6,
        source.len() == 6,
    ensures
        ({
            let all = polls_of(t, source, first);
            let w = watched(o, all.take(n), now);
            let key = poll_key(all[i], source);
            &&& w.pending.dom().contains(key)
            &&& w.pending[key] == (PendingEntry { req: awaited_read(all[i]), inserted: now })
        }),
    decreases n,
{
    let all = polls_of(t, source, first);
    let last = all[n - 1];
    let front = all.take(n - 1);
    assert(all.take(n).drop_last() =~= front);
    assert(all.take(n).last() == last);
    let before = watched(o, front, now);
    law_polls_are_read_requests(t, source, first, n - 1);
    lemma_poll_is_followed(t, source, first, n - 1);
    let h = AmsHeaderView::read(last.frame);
    law_polls_ask_for_what_is_switched_on(t, source, first, n - 1);
    if i == n - 1 {
        law_followed_requests_wait(before, h, last.frame.skip(32), now);
    } else {
        lemma_polls_wait(o, t, source, first, n - 1, i, now);
        law_polls_ask_for_what_is_switched_on(t, source, first, i);
        assert(all[i].invoke_id != last.invoke_id);
        law_other_frames_do_not_disturb(before, poll_key(all[i], source), h, last.frame.skip(32), now);
    }
}

/// Each poll of a tick goes to the topic of its target, in order; the invoke ids move on by one
/// each. A poll that is answered within 30 s gives what the answer says of what that very poll
/// asked for, with the target's Net ID.
pub proof fn law_polls_find_their_answers(
    p: PollerView,
    t: TargetConfigView,
    now: Tick,
    i: int,
    error_code: u32,
    data_length: u32,
    body: Seq<u8>,
    later: Tick,
)
    requires
        t.net_id.len() == 6,
        p.local_net_id.len() == 6,
        !suspended(p, t.net_id, now),
        0 <= i < polls_of(t, p.local_net_id, p.invoke_counter).len() <= 0x1_0000_0000,
        now.nanos <= later.nanos <= now.nanos + 30_000_000_000,
    ensures
        ({
            let all = polls_of(t, p.local_net_id, p.invoke_counter);
            let (after, out) = ticked(p, t, now);
            let asked = AmsHeaderView::read(out[i].frame);
            let answer = asked.answer(error_code, data_length);
            &&& out.len() == all.len()
            &&& out[i].topic == ams_topic(p.topic_prefix, t.net_id)
            &&& out[i].frame == all[i].frame
            &&& after.invoke_counter == (p.invoke_counter + all.len()) % 0x1_0000_0000
            &&& answered(after, answer.bytes() + body, later).1 == (match response_of(
                answer,
                body,
                awaited_read(all[i]),
            ) {
                Some(e) => Some((t.net_id, e)),
                None => None,
            })
        }),
{
    let source = p.local_net_id;
    let all = polls_of(t, source, p.invoke_counter);
    let (after, out) = ticked(p, t, now);
    law_polls_are_read_requests(t, source, p.invoke_counter, i);
    law_polls_ask_for_what_is_switched_on(t, source, p.invoke_counter, i);
    assert(all.take(all.len() as int) =~= all);
    lemma_polls_wait(p.observer, t, source, p.invoke_counter, all.len() as int, i, now);
    let asked = AmsHeaderView::read(out[i].frame);
    let answer = asked.answer(error_code, data_length);
    law_header_read_of_bytes(answer, body);
    assert(answer.bytes().len() == 32);
    assert((answer.bytes() + body).skip(32) =~= body);
    assert(5u16 & 1u16 == 1) by (bit_vector);
    assert(answer.state_flags == 5);
}

// Names.

/// The first zero ends a text; without one it goes to the end.
pub proof fn law_first_zero(s: Seq<u8>, from: int)
    requires
        0 <= from <= s.len(),
    ensures
        from <= zero_from(s, from) <= s.len(),
        zero_from(s, from) < s.len() ==> s[zero_from(s, from)] == 0,
        forall|i: int| from <= i < zero_from(s, from) ==> #[trigger] s[i] != 0,
    decreases s.len() - from,
{
    if from < s.len() && s[from] != 0 {
        law_first_zero(s, from + 1);
    }
}

/// A name of up to sixteen bytes, filled up with zeros, reads back without the white space around
/// it, whatever stands between it and the result and behind it. A result other than zero, or a
/// body that is too short, gives no name.
pub proof fn law_device_names_read_back(name: Seq<char>, version: Seq<u8>, after: Seq<u8>, result: u32, short: Seq<u8>)
    requires
        encode_utf8(name).len() <= 16,
        forall|i: int| 0 <= i < encode_utf8(name).len() ==> #[trigger] encode_utf8(name)[i] != 0,
        version.len() == 4,
    ensures
        ({
            let field = encode_utf8(name) + Seq::new((16 - encode_utf8(name).len()) as nat, |i: int| 0u8);
            let body = le32(result) + version + field + after;
            &&& result == 0 && trimmed_text(name).len() > 0 ==> device_name(body) == Some(trimmed_text(name))
            &&& result != 0 || trimmed_text(name).len() == 0 ==> device_name(body) is None
        }),
        short.len() < 24 ==> device_name(short) is None,
{
    let b = encode_utf8(name);
    let field = b + Seq::new((16 - b.len()) as nat, |i: int| 0u8);
    let body = le32(result) + version + field + after;
    assert(body.subrange(0, 4) =~= le32(result));
    lemma_dword_read(body, 0, result);
    assert(body.subrange(8, 24) =~= field);
    law_first_zero(field, 0);
    let z = zero_from(field, 0);
    if z < b.len() {
        assert(field[z] == b[z]);
    }
    if z > b.len() {
        assert(field[b.len() as int] == 0);
    }
    assert(field.take(z) =~= b);
    encode_utf8_valid_utf8(name);
    encode_utf8_decode_utf8(name);
}

/// Each task of a target is asked for its name: from port 30001 of the poller to the task's own
/// port, on the target's topic. The answer to that very request names that very task.
pub proof fn law_tasks_are_named_by_their_answers(p: PollerView, t: TargetConfigView, i: int, body: Seq<u8>, now: Tick)
    requires
        t.net_id.len() == 6,
        p.local_net_id.len() == 6,
        0 <= i < t.task_ports.len() <= 0x1_0000_0000,
    ensures
        ({
            let out = discovery(p, t);
            let asked = AmsHeaderView::read(out[i].frame);
            let waiting = PollerView { pending_device_info: asked_names(p, t, t.task_ports.len()), ..p };
            let after = answered(waiting, asked.answer(0, 24).bytes() + body, now);
            &&& out.len() == t.task_ports.len()
            &&& out[i].topic == ams_topic(p.topic_prefix, t.net_id)
            &&& asked == (AmsHeaderView {
                target_net_id: t.net_id,
                target_port: t.task_ports[i],
                source_net_id: p.local_net_id,
                source_port: 30001,
                command_id: 1,
                state_flags: 4,
                data_length: 0,
                error_code: 0,
                invoke_id: nth_id(p.invoke_counter, i),
            })
            &&& out[i].frame.len() == 32
            &&& after.1 is None
            &&& !after.0.pending_device_info.dom().contains(asked.invoke_id)
            &&& after.0.task_names == (match device_name(body) {
                Some(name) => p.task_names.insert((t.net_id, t.task_ports[i]), name),
                None => p.task_names,
            })
        }),
{
    let h = request_header(p.local_net_id, 30001, t.net_id, t.task_ports[i], 1, 0, nth_id(p.invoke_counter, i));
    let out = discovery(p, t);
    assert(out[i].frame == h.bytes());
    law_header_read_of_bytes(h, Seq::empty());
    assert(h.bytes() + Seq::<u8>::empty() =~= h.bytes());
    let answer = h.answer(0, 24);
    law_header_read_of_bytes(answer, body);
    assert(answer.bytes().len() == 32);
    assert((answer.bytes() + body).skip(32) =~= body);
    lemma_asked(p, t, t.task_ports.len(), i);
}

proof fn lemma_asked(p: PollerView, t: TargetConfigView, n: nat, i: int)
    requires
        0 <= i < n <= t.task_ports.len() <= 0x1_0000_0000,
    ensures
        asked_names(p, t, n).dom().contains(nth_id(p.invoke_counter, i)),
        asked_names(p, t, n)[nth_id(p.invoke_counter, i)] == (t.net_id, t.task_ports[i]),
    decreases n,
{
    if i < n - 1 {
        lemma_asked(p, t, (n - 1) as nat, i);
        assert(nth_id(p.invoke_counter, i) != nth_id(p.invoke_counter, n - 1));
    }
}

/// The names that are known at the start are those of the settings; of two targets with the same
/// Net ID the later one's count.
pub proof fn law_settings_name_tasks(targets: Seq<TargetConfigView>, i: int, port: u16, key: (Seq<u8>, u16))
    ensures
        0 <= i < targets.len() && targets[i].task_names.dom().contains(port) && (forall|j: int|
            i < j < targets.len() ==> (#[trigger] targets[j]).net_id != targets[i].net_id) ==> {
            &&& seeded(targets).dom().contains((targets[i].net_id, port))
            &&& seeded(targets)[(targets[i].net_id, port)] == targets[i].task_names[port]
        },
        seeded(targets).dom().contains(key) ==> exists|j: int|
            0 <= j < targets.len() && (#[trigger] targets[j]).net_id == key.0 && targets[j].task_names.dom().contains(
                key.1,
            ),
    decreases targets.len(),
{
    if targets.len() > 0 {
        let front = targets.drop_last();
        let last = targets[targets.len() - 1];
        assert(targets.last() == last);
        assert(forall|j: int| 0 <= j < front.len() ==> #[trigger] front[j] == targets[j]);
        law_settings_name_tasks(front, i, port, key);
        if 0 <= i < front.len() && targets[i].task_names.dom().contains(port) && (forall|j: int|
            i < j < targets.len() ==> (#[trigger] targets[j]).net_id != targets[i].net_id) {
            assert(last.net_id != targets[i].net_id);
            assert forall|j: int| i < j < front.len() implies (#[trigger] front[j]).net_id != front[i].net_id by {
                assert(front[j] == targets[j]);
            }
        }
        if seeded(front).dom().contains(key) {
            let j = choose|j: int|
                0 <= j < front.len() && (#[trigger] front[j]).net_id == key.0 && front[j].task_names.dom().contains(key.1);
            assert(targets[j] == front[j]);
        }
    }
}

// Topics.

/// A topic names its Net ID between the prefix and what the topic is for.
pub proof fn law_topics_name_their_net_id(prefix: Seq<char>, id: Seq<u8>)
    requires
        id.len() == 6,
    ensures
        ({
            let start = prefix.len() + 1;
            let a = ams_topic(prefix, id);
            let b = answer_topic(prefix, id);
            let c = info_topic(prefix, id);
            &&& a.take(start as int) == prefix.push('/')
            &&& b.take(start as int) == prefix.push('/')
            &&& c.take(start as int) == prefix.push('/')
            &&& net_id_of(a.subrange(start as int, a.len() - 4)) == Ok::<Seq<u8>, AdsErrorView>(id)
            &&& net_id_of(b.subrange(start as int, b.len() - 8)) == Ok::<Seq<u8>, AdsErrorView>(id)
            &&& net_id_of(c.subrange(start as int, c.len() - 5)) == Ok::<Seq<u8>, AdsErrorView>(id)
            &&& a.skip(a.len() - 4) == "/ams"@
            &&& b.skip(b.len() - 8) == "/ams/res"@
            &&& c.skip(c.len() - 5) == "/info"@
        }),
{
    reveal_strlit("/");
    reveal_strlit("/ams");
    reveal_strlit("/ams/res");
    reveal_strlit("/info");
    crate::ams::law_net_id_reads_back(id);
    let text = crate::ams::dotted(id);
    let start = prefix.len() + 1;
    let a = ams_topic(prefix, id);
    let b = answer_topic(prefix, id);
    let c = info_topic(prefix, id);
    assert(a.take(start as int) =~= prefix.push('/'));
    assert(b.take(start as int) =~= prefix.push('/'));
    assert(c.take(start as int) =~= prefix.push('/'));
    assert(a.subrange(start as int, a.len() - 4) =~= text);
    assert(b.subrange(start as int, b.len() - 8) =~= text);
    assert(c.subrange(start as int, c.len() - 5) =~= text);
    assert(a.skip(a.len() - 4) =~= "/ams"@);
    assert(b.skip(b.len() - 8) =~= "/ams/res"@);
    assert(c.skip(c.len() - 5) =~= "/info"@);
}

/// A frame that is too short for a header, or that is for another Net ID, changes nothing and says
/// nothing; nor does a name that nobody asked for.
pub proof fn law_other_frames_are_ignored(p: PollerView, s: Seq<u8>, now: Tick)
    requires
        s.len() < 32 || AmsHeaderView::read(s).target_net_id != p.local_net_id || (AmsHeaderView::read(s).command_id == 1
            && !p.pending_device_info.dom().contains(AmsHeaderView::read(s).invoke_id)),
    ensures
        answered(p, s, now) == (p, None::<(Seq<u8>, DiagEventView)>),
{
}

/// Where 8192 requests or more wait, those that have waited for more than 30 s are forgotten before
/// another waits.
pub proof fn law_full_observers_forget_the_stale(
    o: ObserverView,
    key: CorrelationKeyView,
    h: AmsHeaderView,
    p: Seq<u8>,
    now: Tick,
)
    requires
        h.state_flags == 4,
        h.command_id == 2,
        request_of(h, p) is Some,
        o.pending.dom().len() >= 8192,
        now.nanos < o.last_gc.nanos + 10_000_000_000,
        o.pending.dom().contains(key),
        key != (h.target_net_id, h.source_net_id, h.invoke_id),
    ensures
        fed(o, h, p, now).0.pending.dom().contains(key) <==> now.nanos <= o.pending[key].inserted.nanos + 30_000_000_000,
{
    assert(4u16 & 1u16 == 0) by (bit_vector);
}

} // verus!
