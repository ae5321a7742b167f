//! What the dispatcher and the transports do with requests, answers and announcements.
use vstd::prelude::*;
use vstd::utf8::{encode_utf8, encode_utf8_decode_utf8, encode_utf8_valid_utf8, is_ascii_chars_encode_utf8};

use crate::ads_client::ReadResponseView;
use crate::ams::{dotted, law_header_read_of_bytes, net_id_of, octets, AmsHeaderView};
use crate::client::error::ClientErrorView;
use crate::client::{begun_read, finished_read};
use crate::dispatcher::{
    begun, command_frame, finished, info_online, law_info_topic_names_its_net_id, net_id_in, received, Awaited,
    DispatcherErrorView, DispatcherView, InboundView, OutgoingRequestView, ResponseFrame,
    ResponseFrameView, TransportKind,
};
use crate::encoding::{lemma_dword_read, lemma_word_read};
use crate::error::AdsErrorView;
use crate::frame::prefixed;
use crate::router::{dispatched, AdsRouterView, DispatchedView};
use crate::text::{char_from, dec, ends_with, has_text, hex, lower, octet, pieces, stands_at, zero_padded};
use crate::time::Timestamp;
use crate::topics::{ams_topic, answer_topic, info_filter};
use crate::transport::local_router::{connect_header, router_step, RouterState};
use crate::transport::mqtt::{
    announcement, broker_step, mqtt_step, BrokerActionView, BrokerEventView, CertificateErrorView, MqttTransportView,
};
use crate::transport::tcp::{discovery_packet, tcp_step, HandledView, TcpState};
use crate::wire::{le16, le32, u16_at, u32_at};

verus! {

broadcast use crate::wire::group_wire;

// Net IDs.

proof fn lemma_octets(parts: Seq<Seq<char>>, n: nat)
    ensures
        octets(parts, n) is Ok <==> forall|i: int| 0 <= i < n ==> octet(#[trigger] parts[i]) is Some,
        octets(parts, n) matches Ok(b) ==> b.len() == n && forall|i: int|
            0 <= i < n ==> octet(#[trigger] parts[i]) == Some(b[i]),
    decreases n,
{
    if n > 0 {
        lemma_octets(parts, (n - 1) as nat);
        if octets(parts, n) is Err && octets(parts, (n - 1) as nat) is Ok {
            assert(octet(parts[n - 1]) is None);
        }
    }
}

/// A text writes a Net ID exactly if it has six parts between its dots and each writes an octet;
/// the Net ID is then made of these.
pub proof fn law_net_ids_have_six_octets(s: Seq<char>)
    ensures
        net_id_of(s) is Ok <==> pieces(s, '.').len() == 6 && forall|i: int|
            0 <= i < 6 ==> octet(#[trigger] pieces(s, '.')[i]) is Some,
        net_id_of(s) matches Ok(b) ==> b.len() == 6 && forall|i: int|
            0 <= i < 6 ==> octet(#[trigger] pieces(s, '.')[i]) == Some(b[i]),
        net_id_of(s) matches Err(e) ==> e is ParseError,
{
    lemma_octets(pieces(s, '.'), 6);
}

// Requests.

/// A request goes out exactly if its target has a route over MQTT and MQTT is attached. Without a
/// route nothing changes; without a transport an invoke id is used up. The reason says which.
pub proof fn law_requests_need_a_route(d: DispatcherView, target: Seq<u8>, port: u16, cmd: u16, payload: Seq<u8>)
    ensures
        ({
            let (after, r) = begun(d, target, port, cmd, payload);
            let routed = d.routes.dom().contains(target);
            &&& r is Ok <==> routed && d.routes[target] == TransportKind::Mqtt && d.mqtt is Some
            &&& !routed ==> after == d && r == Err::<OutgoingRequestView, DispatcherErrorView>(
                DispatcherErrorView::NoRoute(target),
            )
            &&& routed && r is Err ==> r == Err::<OutgoingRequestView, DispatcherErrorView>(
                DispatcherErrorView::TransportNotAttached(d.routes[target]),
            )
            &&& routed ==> after.invoke_counter == (d.invoke_counter + 1) % 0x1_0000_0000
            &&& routed && r is Err ==> after.pending == d.pending.remove(d.invoke_counter)
            &&& after.routes == d.routes
            &&& after.mqtt == d.mqtt
            &&& after.source_net_id == d.source_net_id
            &&& after.source_port == d.source_port
        }),
{
}

/// A request that goes out waits under its invoke id for its target, and goes to the target's
/// topic. Its frame is prefixed by two zeros and its length. The other requests go on waiting.
pub proof fn law_requests_wait(
    d: DispatcherView,
    target: Seq<u8>,
    port: u16,
    cmd: u16,
    payload: Seq<u8>,
    other: u32,
)
    requires
        begun(d, target, port, cmd, payload).1 is Ok,
        payload.len() + 32 <= u32::MAX,
        d.source_net_id.len() == 6,
        target.len() == 6,
    ensures
        ({
            let (after, r) = begun(d, target, port, cmd, payload);
            let out = r->Ok_0;
            &&& out.invoke_id == d.invoke_counter
            &&& d.mqtt matches Some(prefix) && out.topic == ams_topic(prefix, target)
            &&& after.pending.dom().contains(out.invoke_id)
            &&& after.pending[out.invoke_id] == target
            &&& other != out.invoke_id ==> after.pending.dom().contains(other) == d.pending.dom().contains(other)
            &&& other != out.invoke_id && d.pending.dom().contains(other) ==> after.pending[other] == d.pending[other]
            &&& out.frame.len() == 38 + payload.len()
            &&& u16_at(out.frame, 0) == 0
            &&& u32_at(out.frame, 2) == 32 + payload.len()
        }),
{
    let out = begun(d, target, port, cmd, payload).1->Ok_0;
    let n = (32 + payload.len()) as u32;
    assert(out.frame.subrange(2, 6) =~= le32(n));
    lemma_dword_read(out.frame, 2, n);
}

/// A response without an error gives its payload; one with an error names the error and who sent
/// it; and where there is none, the reason is told.
pub proof fn law_ends_of_waiting_are_told(f: ResponseFrame, reason: String, d: crate::time::Duration)
    ensures
        f.header.error_code == 0 ==> finished(Awaited::Response(f)) == Ok::<Seq<u8>, DispatcherErrorView>(f.payload@),
        f.header.error_code != 0 ==> finished(Awaited::Response(f)) == Err::<Seq<u8>, DispatcherErrorView>(
            DispatcherErrorView::Ads(
                AdsErrorView::BufferError(
                    "ADS error 0x"@ + hex(f.header.error_code as nat) + " from "@ + dotted(f.header.source_net_id@),
                ),
            ),
        ),
        finished(Awaited::Unsent(reason)) == Err::<Seq<u8>, DispatcherErrorView>(DispatcherErrorView::Mqtt(reason@)),
        finished(Awaited::Closed) == Err::<Seq<u8>, DispatcherErrorView>(DispatcherErrorView::Closed),
        finished(Awaited::TimedOut(d)) == Err::<Seq<u8>, DispatcherErrorView>(DispatcherErrorView::Timeout(d)),
{
}

/// A symbol whose read is answered without an error is given the bytes that the answer carries.
pub proof fn law_reads_end_with_their_data(f: ResponseFrame, data: Seq<u8>, after: Seq<u8>)
    requires
        f.header.error_code == 0,
        data.len() <= u32::MAX,
        f.payload@ == (ReadResponseView { result: 0, data }).bytes() + after,
    ensures
        finished_read(finished(Awaited::Response(f))) == Ok::<Seq<u8>, ClientErrorView>(data),
{
    crate::client::law_read_response_gives_its_data(data, after);
}

/// A topic for frames.
pub open spec fn frame_topic(topic: Seq<char>) -> bool {
    ends_with(topic, "/ams"@) || ends_with(topic, "/ams/res"@)
}

proof fn lemma_frame_topic(topic: Seq<char>)
    requires
        frame_topic(topic),
    ensures
        !ends_with(topic, "/info"@),
{
    reveal_strlit("/info");
    reveal_strlit("/ams");
    reveal_strlit("/ams/res");
    if ends_with(topic, "/info"@) {
        let last = topic.len() - 1;
        assert(topic.skip(topic.len() - 5)[4] == topic[last]);
        if ends_with(topic, "/ams"@) {
            assert(topic.skip(topic.len() - 4)[3] == topic[last]);
        } else {
            assert(topic.skip(topic.len() - 8)[7] == topic[last]);
        }
    }
}

/// A frame that comes in is read as it was written. One that is no response is a request, and
/// changes nothing. A response resolves the request that waits under its invoke id, and no other;
/// one that nothing waits for is ignored.
pub proof fn law_frames_come_in_as_written(
    d: DispatcherView,
    topic: Seq<char>,
    h: AmsHeaderView,
    payload: Seq<u8>,
    prefix: Seq<char>,
    other: u32,
)
    requires
        frame_topic(topic),
        h.valid(),
    ensures
        ({
            let (after, got) = received(d, topic, command_frame(h, payload), prefix);
            let frame = ResponseFrameView { header: h, payload };
            &&& h.state_flags & 1 == 0 ==> after == d && got == InboundView::Request(frame)
            &&& h.state_flags & 1 != 0 && d.pending.dom().contains(h.invoke_id) ==> {
                &&& got == InboundView::Response(frame)
                &&& !after.pending.dom().contains(h.invoke_id)
                &&& other != h.invoke_id ==> after.pending.dom().contains(other) == d.pending.dom().contains(other)
                &&& after.routes == d.routes
            }
            &&& h.state_flags & 1 != 0 && !d.pending.dom().contains(h.invoke_id) ==> after == d && got
                == InboundView::Ignored
        }),
{
    lemma_frame_topic(topic);
    let s = command_frame(h, payload);
    assert(h.bytes().len() == 32);
    assert(s.skip(6) =~= h.bytes() + payload);
    law_header_read_of_bytes(h, payload);
    assert(s.skip(6).skip(32) =~= payload);
}

/// A message that is too short for a frame, and one on any other topic, is ignored.
pub proof fn law_other_messages_are_ignored(d: DispatcherView, topic: Seq<char>, s: Seq<u8>, prefix: Seq<char>)
    requires
        !ends_with(topic, "/info"@),
        s.len() < 38 || !frame_topic(topic),
    ensures
        received(d, topic, s, prefix) == (d, InboundView::Ignored),
{
}

// Announcements.

/// A document that says `true` where it tells whether its sender is online, in whatever case of
/// letters, announces it. One that says `false` there and nowhere `true` revokes it. Any other
/// says nothing.
pub proof fn law_documents_tell_who_is_online(before: Seq<char>, mark: Seq<char>, after: Seq<char>, other: Seq<char>)
    ensures
        lower(mark) == ">true</online>"@ ==> info_online(encode_utf8(before + mark + after)) == Some(true),
        lower(mark) == ">false</online>"@ && !has_text(lower(before + mark + after), ">true</online>"@) ==> info_online(
            encode_utf8(before + mark + after),
        ) == Some(false),
        !has_text(lower(other), ">true</online>"@) && !has_text(lower(other), ">false</online>"@) ==> info_online(
            encode_utf8(other),
        ) is None,
{
    let text = before + mark + after;
    encode_utf8_valid_utf8(text);
    encode_utf8_decode_utf8(text);
    encode_utf8_valid_utf8(other);
    encode_utf8_decode_utf8(other);
    assert(lower(text).subrange(before.len() as int, before.len() as int + mark.len()) =~= lower(mark));
    if lower(mark) == ">true</online>"@ {
        assert(mark.len() == lower(mark).len());
        assert(stands_at(lower(text), ">true</online>"@, before.len() as int));
    }
    if lower(mark) == ">false</online>"@ {
        assert(mark.len() == lower(mark).len());
        assert(stands_at(lower(text), ">false</online>"@, before.len() as int));
    }
}

/// The service announces itself once it is connected, and whoever hears the announcement can ask
/// it over MQTT from then on.
pub proof fn law_announcements_are_understood(
    prefix: Seq<char>,
    net_id: Seq<u8>,
    r: AdsRouterView,
    d: DispatcherView,
    now: Timestamp,
)
    requires
        net_id.len() == 6,
    ensures
        broker_step(prefix, net_id, r, BrokerEventView::Connected, now) matches (
            after,
            BrokerActionView::Announce { topic, document },
            None,
        ) && after == r && {
            let (heard, got) = received(d, topic, encode_utf8(document), prefix);
            &&& got == InboundView::Routed
            &&& heard.routes == d.routes.insert(net_id, TransportKind::Mqtt)
            &&& heard.pending == d.pending
        },
{
    law_info_topic_names_its_net_id(prefix, net_id);
    let text = announcement();
    reveal_strlit(
        "<info><online name=\"tc-otel\" unidirectional=\"true\" osVersion=\"0.0.0\" osPlatform=\"0\">true</online></info>",
    );
    reveal_strlit(">true</online>");
    let at = text.len() - 7 - 14;
    let mark = text.subrange(at, at + 14);
    assert(text =~= text.take(at) + mark + text.skip(at + 14));
    assert(lower(mark) =~= ">true</online>"@);
    law_documents_tell_who_is_online(text.take(at), mark, text.skip(at + 14), text);
}

/// A frame of a whole header is handed to the router, and the router's answer goes to the answer
/// topic of the sender. A shorter one changes nothing. The settings never change.
pub proof fn law_published_frames_are_routed(t: MqttTransportView, net_id: Seq<u8>, s: Seq<u8>, now: Timestamp)
    ensures
        ({
            let (after, p) = mqtt_step(t, s, now);
            let (r, action, d) = broker_step(t.topic_prefix, net_id, t.router, BrokerEventView::Frame(s), now);
            &&& after.topic_prefix == t.topic_prefix
            &&& after.local_net_id == t.local_net_id
            &&& after.router == r
            &&& p.dispatched == d
            &&& s.len() < 32 ==> {
                &&& r == t.router
                &&& action is Wait
                &&& d is None
                &&& p.out is None
            }
            &&& s.len() >= 32 ==> {
                &&& r == dispatched(t.router, s, now).0
                &&& d == Some(dispatched(t.router, s, now).1)
                &&& action matches BrokerActionView::Answer(out) && p.out == Some(out) && {
                    &&& dispatched(t.router, s, now).1.response == Some(out.frame)
                    &&& out.topic == answer_topic(t.topic_prefix, AmsHeaderView::read(s).source_net_id)
                }
            }
        }),
{
    if s.len() >= 32 {
        crate::router::law_every_frame_is_answered(t.router, s, now);
    }
}

/// A failure of the connection ends the transport with an error that tells the reason; whatever
/// else happens, it waits.
pub proof fn law_failures_are_told(
    prefix: Seq<char>,
    net_id: Seq<u8>,
    r: AdsRouterView,
    reason: Seq<char>,
    path: Seq<char>,
    now: Timestamp,
)
    ensures
        broker_step(prefix, net_id, r, BrokerEventView::Failed(reason), now) == (
            r,
            BrokerActionView::Stop(AdsErrorView::BufferError("MQTT error: "@ + reason)),
            None::<DispatchedView>,
        ),
        broker_step(prefix, net_id, r, BrokerEventView::SubscribeFailed(reason), now) == (
            r,
            BrokerActionView::Stop(AdsErrorView::BufferError("Failed to subscribe to MQTT: "@ + reason)),
            None::<DispatchedView>,
        ),
        broker_step(
            prefix,
            net_id,
            r,
            BrokerEventView::TlsFailed(CertificateErrorView::InvalidFormat(reason)),
            now,
        ) == (
            r,
            BrokerActionView::Stop(
                AdsErrorView::BufferError("TLS configuration error: "@ + ("Invalid certificate format: "@ + reason)),
            ),
            None::<DispatchedView>,
        ),
        broker_step(
            prefix,
            net_id,
            r,
            BrokerEventView::TlsFailed(CertificateErrorView::ReadError { path, source: reason }),
            now,
        ) == (
            r,
            BrokerActionView::Stop(
                AdsErrorView::BufferError(
                    "TLS configuration error: "@ + ("Failed to read certificate file "@ + path + ": "@ + reason),
                ),
            ),
            None::<DispatchedView>,
        ),
        broker_step(prefix, net_id, r, BrokerEventView::Other, now) == (
            r,
            BrokerActionView::Wait,
            None::<DispatchedView>,
        ),
{
}

// TCP.

proof fn lemma_prefix(command: u16, n: u32)
    ensures
        (le16(command) + le32(n)).len() == 6,
        u16_at(le16(command) + le32(n), 0) == command,
        u32_at(le16(command) + le32(n), 2) == n,
{
    let s = le16(command) + le32(n);
    assert(s.subrange(0, 2) =~= le16(command));
    assert(s.subrange(2, 6) =~= le32(n));
    lemma_word_read(s, 0, command);
    lemma_dword_read(s, 2, n);
}

/// A connection waits for six bytes: a command, which is zero, and the length of the frame, which
/// is neither zero nor more than 16 MiB. Anything else drops the connection.
pub proof fn law_prefixes_are_checked(r: AdsRouterView, command: u16, n: u32, now: Timestamp)
    ensures
        ({
            let (next, after, handled) = tcp_step(TcpState::Prefix, r, le16(command) + le32(n), now);
            &&& TcpState::Prefix.wants() == 6
            &&& after == r
            &&& handled == HandledView::nothing()
            &&& if command == 0 && 0 < n <= 16 * 1024 * 1024 {
                next == TcpState::Body(n) && next.wants() == n
            } else {
                next == TcpState::Closed
            }
        }),
{
    lemma_prefix(command, n);
}

/// Once dropped, a connection stays so. A frame that is too short for a header is skipped. A whole
/// frame leads to what the router makes of it, and its answer goes back behind a prefix.
pub proof fn law_connections_take_frames(r: AdsRouterView, n: u32, s: Seq<u8>, now: Timestamp)
    ensures
        tcp_step(TcpState::Closed, r, s, now) == (TcpState::Closed, r, HandledView::nothing()),
        s.len() < 32 ==> tcp_step(TcpState::Body(n), r, s, now) == (TcpState::Prefix, r, HandledView::nothing()),
        s.len() >= 32 ==> ({
            let (next, after, handled) = tcp_step(TcpState::Body(n), r, s, now);
            &&& next == TcpState::Prefix
            &&& after == dispatched(r, s, now).0
            &&& handled.dispatched == Some(dispatched(r, s, now).1)
            &&& handled.reply matches Some(reply) && dispatched(r, s, now).1.response matches Some(answer) && reply
                == prefixed(0, answer)
        }),
        HandledView::nothing().reply is None,
        HandledView::nothing().dispatched is None,
{
    if s.len() >= 32 {
        crate::router::law_every_frame_is_answered(r, s, now);
    }
}

/// A discovery is answered with the service's Net ID, the AMS/TCP port 48898 and the name
/// `tc-otel-rust`, filled up with zeros.
pub proof fn law_discoveries_are_answered(net_id: Seq<u8>)
    requires
        net_id.len() == 6,
    ensures
        ({
            let s = discovery_packet(net_id);
            &&& s.len() == 32
            &&& u32_at(s, 0) == 0x7114_6603
            &&& u32_at(s, 4) == 24
            &&& s.subrange(8, 14) == net_id
            &&& u16_at(s, 14) == 48898
            &&& s.subrange(16, 28) == encode_utf8("tc-otel-rust"@)
            &&& s.subrange(28, 32) == seq![0u8, 0, 0, 0]
        }),
{
    let s = discovery_packet(net_id);
    assert(s.subrange(4, 8) =~= le32(24));
    assert(s.subrange(14, 16) =~= le16(48898));
    lemma_dword_read(s, 4, 24);
    lemma_word_read(s, 14, 48898);
    assert(s.subrange(8, 14) =~= net_id);
    reveal_strlit("tc-otel-rust");
    is_ascii_chars_encode_utf8("tc-otel-rust"@);
    assert(s.subrange(16, 28) =~= encode_utf8("tc-otel-rust"@));
    assert(s.subrange(28, 32) =~= seq![0u8, 0, 0, 0]);
}

// The router of the same machine.

/// The client waits for six bytes: a command and the length of what follows. An empty frame is
/// passed over, and one of more than 16 MiB ends the connection.
pub proof fn law_router_prefixes_are_checked(r: AdsRouterView, command: u16, n: u32, now: Timestamp)
    ensures
        ({
            let (next, after, handled) = router_step(RouterState::Prefix, r, le16(command) + le32(n), now);
            &&& RouterState::Prefix.wants() == 6
            &&& after == r
            &&& handled == HandledView::nothing()
            &&& next == (if n > 16 * 1024 * 1024 {
                RouterState::Closed
            } else if n == 0 {
                RouterState::Prefix
            } else {
                RouterState::Body { command, len: n }
            })
            &&& 0 < n <= 16 * 1024 * 1024 ==> next.wants() == n
        }),
{
    lemma_prefix(command, n);
}

/// Only frames of ADS, whose command is zero, are taken: each as on a connection of the service's
/// own. Other frames are passed over.
pub proof fn law_router_frames_are_taken(r: AdsRouterView, command: u16, n: u32, s: Seq<u8>, now: Timestamp)
    ensures
        ({
            let (next, after, handled) = router_step(RouterState::Body { command, len: n }, r, s, now);
            let (_, own_after, own) = tcp_step(TcpState::Body(n), r, s, now);
            &&& next == RouterState::Prefix
            &&& command == 0 ==> after == own_after && handled == own
            &&& command != 0 ==> after == r && handled == HandledView::nothing()
        }),
        router_step(RouterState::Closed, r, s, now) == (RouterState::Closed, r, HandledView::nothing()),
{
}

/// The answer to a registration is one of the same command with at least eight bytes; any other is
/// an error.
pub proof fn law_registrations_are_checked(command: u16, n: u32)
    ensures
        command == 0x1000 && n >= 8 ==> connect_header(le16(command) + le32(n)) == Ok::<u32, AdsErrorView>(n),
        command != 0x1000 ==> connect_header(le16(command) + le32(n)) == Err::<u32, AdsErrorView>(
            AdsErrorView::BufferError(
                "PortConnect: unexpected response cmd 0x"@ + zero_padded(hex(command as nat), 4),
            ),
        ),
        command == 0x1000 && n < 8 ==> connect_header(le16(command) + le32(n)) == Err::<u32, AdsErrorView>(
            AdsErrorView::BufferError("PortConnect: short response ("@ + dec(n as nat) + " bytes)"@),
        ),
{
    lemma_prefix(command, n);
}

// Topics.

/// A topic names the Net ID between its prefix and the next slash, whatever follows. One that does
/// not start with the prefix and a slash, or has no further slash, names none.
pub proof fn law_topics_are_read_behind_their_prefix(prefix: Seq<char>, id: Seq<u8>, rest: Seq<char>, topic: Seq<char>)
    requires
        id.len() == 6,
    ensures
        net_id_in(prefix + seq!['/'] + dotted(id) + seq!['/'] + rest, prefix) == Some(id),
        topic.len() <= prefix.len() || topic.take(prefix.len() as int + 1) != prefix.push('/') ==> net_id_in(
            topic,
            prefix,
        ) is None,
        (forall|i: int| prefix.len() < i < topic.len() ==> #[trigger] topic[i] != '/') ==> net_id_in(topic, prefix) is None,
{
    let text = dotted(id);
    let s = prefix + seq!['/'] + text + seq!['/'] + rest;
    let from = prefix.len() as int + 1;
    assert(s.take(prefix.len() as int) =~= prefix);
    assert forall|i: int| from <= i < from + text.len() implies #[trigger] s[i] != '/' by {
        crate::ams::lemma_dotted_chars(id, i - from);
        assert(s[i] == text[i - from]);
    }
    assert(s[from + text.len()] == '/');
    crate::text_laws::law_first_place(s, '/', from);
    let at = char_from(s, '/', from);
    assert(at == from + text.len()) by {
        if at < from + text.len() {
            assert(s[at] != '/');
        }
    }
    assert(s.subrange(from, at) =~= text);
    crate::ams::law_net_id_reads_back(id);
    if net_id_in(topic, prefix) is Some {
        assert(topic.take(prefix.len() as int + 1) =~= prefix.push('/')) by {
            assert forall|i: int| 0 <= i < prefix.len() implies topic[i] == prefix[i] by {
                assert(topic.take(prefix.len() as int)[i] == topic[i]);
            }
        }
        crate::text_laws::law_first_place(topic, '/', from);
        assert(topic[char_from(topic, '/', from)] == '/');
    }
}

/// A client tells why a request could not be made or was not answered, in the dispatcher's words.
pub proof fn law_clients_tell_why(o: OutgoingRequestView, e: DispatcherErrorView)
    ensures
        begun_read(Ok(o)) == Ok::<OutgoingRequestView, ClientErrorView>(o),
        begun_read(Err(e)) == Err::<OutgoingRequestView, ClientErrorView>(ClientErrorView::Ads(e.message())),
        finished_read(Err(e)) == Err::<Seq<u8>, ClientErrorView>(ClientErrorView::Ads(e.message())),
{
}

/// Announcements of all Net IDs under a prefix are subscribed to by a plus in place of the Net ID.
pub proof fn law_all_announcements_are_heard(prefix: Seq<char>)
    ensures
        info_filter(prefix) == prefix + seq!['/', '+', '/', 'i', 'n', 'f', 'o'],
{
    reveal_strlit("/+/info");
    assert(info_filter(prefix) =~= prefix + seq!['/', '+', '/', 'i', 'n', 'f', 'o']);
}

} // verus!
