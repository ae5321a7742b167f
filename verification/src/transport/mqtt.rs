//! ADS-over-MQTT: the topics of the service, and what it does with each frame.
use vstd::prelude::*;

use crate::ams::{AmsHeaderView, AmsNetId};
use crate::diagnostics::viewed;
use crate::error::{AdsError, AdsErrorView};
use crate::registry::TaskRegistry;
use crate::router::{dispatched, AdsRouter, AdsRouterView, Dispatched, DispatchedView};
use crate::time::Timestamp;
use crate::topics::{
    ams_topic, answer_topic, info_topic, make_ams_topic, make_answer_topic, make_info_topic, Outgoing, OutgoingView,
};
use crate::transport::AmsTransport;
use crate::wire::get_array6;

verus! {

/// Why certificates could not be used.
#[derive(Debug, PartialEq, Eq)]
pub enum CertificateError {
    ReadError { path: String, source: String },
    InvalidFormat(String),
}

pub enum CertificateErrorView {
    ReadError { path: Seq<char>, source: Seq<char> },
    InvalidFormat(Seq<char>),
}

impl View for CertificateError {
    type V = CertificateErrorView;

    open spec fn view(&self) -> CertificateErrorView {
        match *self {
            CertificateError::ReadError { path, source } => {
                CertificateErrorView::ReadError { path: path@, source: source@ }
            },
            CertificateError::InvalidFormat(s) => CertificateErrorView::InvalidFormat(s@),
        }
    }
}

impl CertificateErrorView {
    /// The message shown for the error.
    pub open spec fn message(self) -> Seq<char> {
        match self {
            CertificateErrorView::ReadError { path, source } => "Failed to read certificate file "@ + path + ": "@
                + source,
            CertificateErrorView::InvalidFormat(s) => "Invalid certificate format: "@ + s,
        }
    }
}

impl CertificateError {
    pub fn to_string(&self) -> (r: String)
        ensures
            r@ == self@.message(),
    {
        match self {
            CertificateError::ReadError { path, source } => String::from_str(
                "Failed to read certificate file ",
            ).concat(path).concat(": ").concat(source),
            CertificateError::InvalidFormat(s) => String::from_str("Invalid certificate format: ").concat(s),
        }
    }
}

/// The certificate files of a TLS connection.
#[derive(Debug)]
pub struct MqttTlsConfig {
    pub ca_cert_path: String,
    pub client_cert_path: Option<String>,
    pub client_key_path: Option<String>,
    pub insecure_skip_verify: bool,
}

impl MqttTlsConfig {
    /// The files of the client's certificate and key, where both are given.
    pub fn client_files(&self) -> (r: Option<(&String, &String)>)
        ensures
            match r {
                Some((cert, key)) => self.client_cert_path == Some(*cert) && self.client_key_path == Some(*key),
                None => self.client_cert_path is None || self.client_key_path is None,
            },
    {
        match (&self.client_cert_path, &self.client_key_path) {
            (Some(cert), Some(key)) => Some((cert, key)),
            _ => None,
        }
    }
}

/// The document that announces the service.
pub open spec fn announcement() -> Seq<char> {
    "<info><online name=\"tc-otel\" unidirectional=\"true\" osVersion=\"0.0.0\" osPlatform=\"0\">true</online></info>"@
}

/// The settings of the transport.
#[derive(Debug)]
pub struct MqttTransportConfig {
    pub broker_host: String,
    pub broker_port: u16,
    pub client_id: String,
    pub topic_prefix: String,
    pub local_net_id: AmsNetId,
    pub username: Option<String>,
    pub password: Option<String>,
    pub tls: Option<MqttTlsConfig>,
}

impl MqttTransportConfig {
    /// The credentials, where both parts are given.
    pub fn credentials(&self) -> (r: Option<(&String, &String)>)
        ensures
            match r {
                Some((user, pass)) => self.username == Some(*user) && self.password == Some(*pass),
                None => self.username is None || self.password is None,
            },
    {
        match (&self.username, &self.password) {
            (Some(user), Some(pass)) => Some((user, pass)),
            _ => None,
        }
    }

    /// The topic on which frames for the service come.
    pub fn subscribe_topic(&self) -> (r: String)
        ensures
            r@ == ams_topic(self.topic_prefix@, self.local_net_id@),
    {
        make_ams_topic(&self.topic_prefix, &self.local_net_id)
    }

    /// What is published once the broker accepts the connection: topic and document.
    pub fn on_connected(&self) -> (r: (String, String))
        ensures
            r.0@ == info_topic(self.topic_prefix@, self.local_net_id@),
            r.1@ == announcement(),
    {
        (
            make_info_topic(&self.topic_prefix, &self.local_net_id),
            String::from_str(
                "<info><online name=\"tc-otel\" unidirectional=\"true\" osVersion=\"0.0.0\" osPlatform=\"0\">true</online></info>",
            ),
        )
    }
}

/// The transport: its settings and the router behind it.
pub struct MqttAmsTransport {
    pub config: MqttTransportConfig,
    pub router: AdsRouter,
}

pub struct MqttTransportView {
    pub topic_prefix: Seq<char>,
    pub local_net_id: Seq<u8>,
    pub router: AdsRouterView,
}

impl View for MqttAmsTransport {
    type V = MqttTransportView;

    open spec fn view(&self) -> MqttTransportView {
        MqttTransportView {
            topic_prefix: self.config.topic_prefix@,
            local_net_id: self.config.local_net_id@,
            router: self.router@,
        }
    }
}

/// What comes of a frame from the broker: what is published, and what the frame led to.
pub struct Published {
    pub out: Option<Outgoing>,
    pub dispatched: Option<Dispatched>,
}

pub struct PublishedView {
    pub out: Option<OutgoingView>,
    pub dispatched: Option<DispatchedView>,
}

impl View for Published {
    type V = PublishedView;

    open spec fn view(&self) -> PublishedView {
        PublishedView { out: viewed(self.out), dispatched: viewed(self.dispatched) }
    }
}

/// What a frame from the broker leads to at a router: its answer goes to the answer topic of
/// its sender. A frame too short for a header leads to nothing.
pub open spec fn publish_step(prefix: Seq<char>, r: AdsRouterView, s: Seq<u8>, now: Timestamp) -> (
    AdsRouterView,
    PublishedView,
) {
    if s.len() < 32 {
        (r, PublishedView { out: None, dispatched: None })
    } else {
        let (after, d) = dispatched(r, s, now);
        (
            after,
            PublishedView {
                out: match d.response {
                    Some(frame) => Some(
                        OutgoingView { topic: answer_topic(prefix, AmsHeaderView::read(s).source_net_id), frame },
                    ),
                    None => None,
                },
                dispatched: Some(d),
            },
        )
    }
}

/// What a frame from the broker leads to at a transport.
pub open spec fn mqtt_step(t: MqttTransportView, s: Seq<u8>, now: Timestamp) -> (MqttTransportView, PublishedView) {
    let (after, published) = publish_step(t.topic_prefix, t.router, s, now);
    (MqttTransportView { router: after, ..t }, published)
}

/// Every frame with a whole header is answered on the topic of its sender.
pub proof fn law_frames_are_answered_to_their_sender(t: MqttTransportView, s: Seq<u8>, now: Timestamp)
    requires
        s.len() >= 32,
    ensures
        mqtt_step(t, s, now).1.out matches Some(out) && out.topic == answer_topic(t.topic_prefix, s.subrange(8, 14)),
{
    crate::router::law_every_frame_is_answered(t.router, s, now);
}

/// Takes in a frame from the broker for a router that several transports share.
pub fn handle_publish(topic_prefix: &str, router: &mut AdsRouter, payload: &[u8], now: Timestamp) -> (r: Published)
    ensures
        (final(router)@, r@) == publish_step(topic_prefix@, old(router)@, payload@, now),
{
    match router.dispatch_at(payload, now) {
        Ok(d) => {
            let source = AmsNetId::from_bytes(get_array6(payload, 8));
            let out = match &d.response {
                Some(response) => {
                    let mut frame: Vec<u8> = Vec::new();
                    crate::wire::put_slice(&mut frame, response);
                    assert(frame@ =~= response@);
                    Some(Outgoing { topic: make_answer_topic(topic_prefix, &source), frame })
                },
                None => None,
            };
            Published { out, dispatched: Some(d) }
        },
        Err(_) => Published { out: None, dispatched: None },
    }
}

/// What the connection to the broker brings.
#[derive(Debug)]
pub enum BrokerEvent {
    /// The certificates could not be used.
    TlsFailed(CertificateError),
    /// The subscription could not be made.
    SubscribeFailed(String),
    /// The broker accepted the connection.
    Connected,
    /// A frame was published on the topic of the service.
    Frame(Vec<u8>),
    /// Anything that asks for no action.
    Other,
    /// The connection failed.
    Failed(String),
}

pub enum BrokerEventView {
    TlsFailed(CertificateErrorView),
    SubscribeFailed(Seq<char>),
    Connected,
    Frame(Seq<u8>),
    Other,
    Failed(Seq<char>),
}

impl View for BrokerEvent {
    type V = BrokerEventView;

    open spec fn view(&self) -> BrokerEventView {
        match *self {
            BrokerEvent::TlsFailed(e) => BrokerEventView::TlsFailed(e@),
            BrokerEvent::SubscribeFailed(e) => BrokerEventView::SubscribeFailed(e@),
            BrokerEvent::Connected => BrokerEventView::Connected,
            BrokerEvent::Frame(payload) => BrokerEventView::Frame(payload@),
            BrokerEvent::Other => BrokerEventView::Other,
            BrokerEvent::Failed(e) => BrokerEventView::Failed(e@),
        }
    }
}

/// What the service does about it.
#[derive(Debug)]
pub enum BrokerAction {
    Wait,
    /// Publish the document, which the broker keeps for those who come later.
    Announce { topic: String, document: String },
    /// Publish the frame.
    Answer(Outgoing),
    /// End with the error.
    Stop(AdsError),
}

pub enum BrokerActionView {
    Wait,
    Announce { topic: Seq<char>, document: Seq<char> },
    Answer(OutgoingView),
    Stop(AdsErrorView),
}

impl View for BrokerAction {
    type V = BrokerActionView;

    open spec fn view(&self) -> BrokerActionView {
        match *self {
            BrokerAction::Wait => BrokerActionView::Wait,
            BrokerAction::Announce { topic, document } => {
                BrokerActionView::Announce { topic: topic@, document: document@ }
            },
            BrokerAction::Answer(out) => BrokerActionView::Answer(out@),
            BrokerAction::Stop(e) => BrokerActionView::Stop(e@),
        }
    }
}

/// What an event leads to: what the router knows after it, what is done, and what was dispatched.
pub open spec fn broker_step(
    prefix: Seq<char>,
    net_id: Seq<u8>,
    r: AdsRouterView,
    event: BrokerEventView,
    now: Timestamp,
) -> (AdsRouterView, BrokerActionView, Option<DispatchedView>) {
    match event {
        BrokerEventView::TlsFailed(e) => (
            r,
            BrokerActionView::Stop(AdsErrorView::BufferError("TLS configuration error: "@ + e.message())),
            None,
        ),
        BrokerEventView::SubscribeFailed(e) => (
            r,
            BrokerActionView::Stop(AdsErrorView::BufferError("Failed to subscribe to MQTT: "@ + e)),
            None,
        ),
        BrokerEventView::Connected => (
            r,
            BrokerActionView::Announce { topic: info_topic(prefix, net_id), document: announcement() },
            None,
        ),
        BrokerEventView::Frame(s) => {
            let (after, published) = publish_step(prefix, r, s, now);
            (
                after,
                match published.out {
                    Some(out) => BrokerActionView::Answer(out),
                    None => BrokerActionView::Wait,
                },
                published.dispatched,
            )
        },
        BrokerEventView::Other => (r, BrokerActionView::Wait, None),
        BrokerEventView::Failed(e) => (
            r,
            BrokerActionView::Stop(AdsErrorView::BufferError("MQTT error: "@ + e)),
            None,
        ),
    }
}

/// No frame ends the transport, whatever it holds: only failures of the connection do.
pub proof fn law_no_frame_ends_the_transport(
    prefix: Seq<char>,
    net_id: Seq<u8>,
    r: AdsRouterView,
    event: BrokerEventView,
    now: Timestamp,
)
    ensures
        broker_step(prefix, net_id, r, event, now).1 is Stop <==> event is TlsFailed || event is SubscribeFailed
            || event is Failed,
{
}

/// Takes in an event of the connection.
pub fn on_event(config: &MqttTransportConfig, router: &mut AdsRouter, event: BrokerEvent, now: Timestamp) -> (r: (
    BrokerAction,
    Option<Dispatched>,
))
    ensures
        (final(router)@, r.0@, viewed(r.1)) == broker_step(
            config.topic_prefix@,
            config.local_net_id@,
            old(router)@,
            event@,
            now,
        ),
{
    match event {
        BrokerEvent::TlsFailed(e) => {
            let text = String::from_str("TLS configuration error: ").concat(&e.to_string());
            (BrokerAction::Stop(AdsError::BufferError(text)), None)
        },
        BrokerEvent::SubscribeFailed(e) => {
            let text = String::from_str("Failed to subscribe to MQTT: ").concat(&e);
            (BrokerAction::Stop(AdsError::BufferError(text)), None)
        },
        BrokerEvent::Connected => {
            let (topic, document) = config.on_connected();
            (BrokerAction::Announce { topic, document }, None)
        },
        BrokerEvent::Frame(payload) => {
            let published = handle_publish(&config.topic_prefix, router, &payload, now);
            match published.out {
                Some(out) => (BrokerAction::Answer(out), published.dispatched),
                None => (BrokerAction::Wait, published.dispatched),
            }
        },
        BrokerEvent::Other => (BrokerAction::Wait, None),
        BrokerEvent::Failed(e) => {
            let text = String::from_str("MQTT error: ").concat(&e);
            (BrokerAction::Stop(AdsError::BufferError(text)), None)
        },
    }
}

impl MqttAmsTransport {
    pub fn new(config: MqttTransportConfig, router: AdsRouter) -> (r: Self)
        ensures
            r.config == config,
            r.router == router,
    {
        MqttAmsTransport { config, router }
    }

    pub fn task_registry(&self) -> (r: &TaskRegistry)
        ensures
            r@ == self@.router.tasks,
    {
        self.router.registry()
    }

    /// Takes in a frame from the broker.
    pub fn on_publish(&mut self, payload: &[u8], now: Timestamp) -> (r: Published)
        ensures
            (final(self)@, r@) == mqtt_step(old(self)@, payload@, now),
            final(self).config == old(self).config,
    {
        handle_publish(&self.config.topic_prefix, &mut self.router, payload, now)
    }
}

impl AmsTransport for MqttAmsTransport {
    open spec fn net_id(&self) -> Seq<u8> {
        self@.local_net_id
    }

    fn local_net_id(&self) -> (r: AmsNetId) {
        self.config.local_net_id
    }

    /// Answers go where their requests came from, so there is nothing to send.
    fn send(&self, _dest: AmsNetId, _frame: Vec<u8>) -> (r: Result<(), AdsError>)
        ensures
            r is Ok,
    {
        Ok(())
    }
}

} // verus!
