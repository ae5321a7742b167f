//! The transports that bring AMS frames: what they do with each frame, and what they send.
use vstd::prelude::*;

use crate::ams::AmsNetId;
use crate::error::AdsError;

pub mod local_router;
pub mod mqtt;
pub mod tcp;

verus! {

/// The longest frame that a transport takes: 16 MiB.
pub const MAX_FRAME_LEN: u32 = 16_777_216;

/// What all transports have.
pub trait AmsTransport {
    /// The Net ID of the service on this transport.
    spec fn net_id(&self) -> Seq<u8>;

    fn local_net_id(&self) -> (r: AmsNetId)
        ensures
            r@ == self.net_id(),
    ;

    /// Sends a frame that answers no request.
    fn send(&self, dest: AmsNetId, frame: Vec<u8>) -> (r: Result<(), AdsError>);
}

} // verus!
