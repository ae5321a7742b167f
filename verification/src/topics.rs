//! The MQTT topics of ADS-over-MQTT.
use vstd::prelude::*;

use crate::ams::{dotted, AmsNetId};

verus! {

/// Where the frames for a Net ID go: `prefix/id/ams`.
pub open spec fn ams_topic(prefix: Seq<char>, net_id: Seq<u8>) -> Seq<char> {
    prefix + "/"@ + dotted(net_id) + "/ams"@
}

/// Where the answers for a Net ID go: `prefix/id/ams/res`.
pub open spec fn answer_topic(prefix: Seq<char>, net_id: Seq<u8>) -> Seq<char> {
    prefix + "/"@ + dotted(net_id) + "/ams/res"@
}

/// Where a Net ID announces itself: `prefix/id/info`.
pub open spec fn info_topic(prefix: Seq<char>, net_id: Seq<u8>) -> Seq<char> {
    prefix + "/"@ + dotted(net_id) + "/info"@
}

/// Where all Net IDs announce themselves: `prefix/+/info`.
pub open spec fn info_filter(prefix: Seq<char>) -> Seq<char> {
    prefix + "/+/info"@
}

fn topic(prefix: &str, net_id: &AmsNetId, end: &str) -> (r: String)
    ensures
        r@ == prefix@ + "/"@ + dotted(net_id@) + end@,
{
    let mut r = prefix.to_string();
    r.append("/");
    r.append(&net_id.to_string());
    r.append(end);
    r
}

pub fn make_ams_topic(prefix: &str, net_id: &AmsNetId) -> (r: String)
    ensures
        r@ == ams_topic(prefix@, net_id@),
{
    topic(prefix, net_id, "/ams")
}

pub fn make_answer_topic(prefix: &str, net_id: &AmsNetId) -> (r: String)
    ensures
        r@ == answer_topic(prefix@, net_id@),
{
    topic(prefix, net_id, "/ams/res")
}

pub fn make_info_topic(prefix: &str, net_id: &AmsNetId) -> (r: String)
    ensures
        r@ == info_topic(prefix@, net_id@),
{
    topic(prefix, net_id, "/info")
}

pub fn make_info_filter(prefix: &str) -> (r: String)
    ensures
        r@ == info_filter(prefix@),
{
    prefix.to_string().concat("/+/info")
}

/// A message that goes out.
#[derive(Debug)]
pub struct Outgoing {
    pub topic: String,
    pub frame: Vec<u8>,
}

pub struct OutgoingView {
    pub topic: Seq<char>,
    pub frame: Seq<u8>,
}

impl View for Outgoing {
    type V = OutgoingView;

    open spec fn view(&self) -> OutgoingView {
        OutgoingView { topic: self.topic@, frame: self.frame@ }
    }
}

} // verus!
