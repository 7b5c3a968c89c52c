//! What the socket workers and the swarm workers share.

use vstd::prelude::*;

use crate::address::CanonicalSocketAddr;
use crate::protocol::{AnnounceRequest, ScrapeRequest};
use crate::response::{AnnounceResponse, ScrapeResponse};

verus! {

/// Tells the requests of one socket worker apart.
#[derive(Copy, Clone, Debug, Eq, PartialEq, Hash, Structural)]
pub struct RequestId(pub u64);

/// The index of a socket worker among those that take responses.
#[derive(Copy, Clone, Debug, Eq, PartialEq, Structural)]
pub struct ConsumerId(pub usize);

/// What a socket worker sends to a swarm worker.
#[derive(Debug)]
pub enum ChannelRequest {
    Announce {
        request_id: RequestId,
        response_consumer_id: ConsumerId,
        request: AnnounceRequest,
        peer_addr: CanonicalSocketAddr,
    },
    Scrape {
        request_id: RequestId,
        response_consumer_id: ConsumerId,
        request: ScrapeRequest,
        peer_addr: CanonicalSocketAddr,
    },
}

/// What a swarm worker sends back.
#[derive(Debug)]
pub enum ChannelResponse {
    Announce { request_id: RequestId, response: AnnounceResponse },
    Scrape { request_id: RequestId, response: ScrapeResponse },
}

/// The request that a response answers.
pub open spec fn answered_request(response: ChannelResponse) -> RequestId {
    match response {
        ChannelResponse::Announce { request_id, .. } => request_id,
        ChannelResponse::Scrape { request_id, .. } => request_id,
    }
}

impl ChannelResponse {
    /// The request that this response answers.
    pub fn request_id(&self) -> (request_id: RequestId)
        ensures
            request_id == answered_request(*self),
    {
        match self {
            ChannelResponse::Announce { request_id, .. } => *request_id,
            ChannelResponse::Scrape { request_id, .. } => *request_id,
        }
    }
}

/// A second after the start of the server until which something is valid.
#[derive(Copy, Clone, Debug, Eq, PartialEq, Structural)]
pub struct ValidUntil(pub u32);

impl View for ValidUntil {
    type V = nat;

    open spec fn view(&self) -> nat {
        self.0 as nat
    }
}

/// The second until which something is valid that is valid for `offset_seconds` from
/// `now` on.
pub open spec fn end_of_validity(now: nat, offset_seconds: nat) -> nat {
    now + offset_seconds
}

/// Whether something that is valid until a second is valid at another.
pub open spec fn is_valid_at(valid_until: nat, now: nat) -> bool {
    now < valid_until
}

impl ValidUntil {
    /// What is valid for `offset_seconds` from now on, where `now` is the number
    /// of seconds since the start of the server, if the clock gives one.
    pub fn new(now: Option<u32>, offset_seconds: u32) -> (result: Option<Self>)
        requires
            now matches Some(now) ==> now + offset_seconds <= u32::MAX,
        ensures
            now matches Some(now) ==> (result matches Some(valid_until) && valid_until.0
                == end_of_validity(now as nat, offset_seconds as nat)),
            match (now, result) {
                (Some(now), Some(valid_until)) => valid_until@ == now + offset_seconds,
                (None, None) => true,
                _ => false,
            },
    {
        match now {
            Some(now) => Some(ValidUntil(now + offset_seconds)),
            None => None,
        }
    }

    /// Whether it is still valid at `now`.
    pub fn valid(&self, now: u32) -> (result: bool)
        ensures
            result == (self@ > now),
            result == is_valid_at(self.0 as nat, now as nat),
    {
        self.0 > now
    }
}

/// What is valid for a number of seconds is valid in each of these seconds and in none
/// after them.
pub proof fn validity_lasts_for_its_seconds(now: nat, offset_seconds: nat, elapsed: nat)
    ensures
        is_valid_at(end_of_validity(now, offset_seconds), now + elapsed) <==> elapsed
            < offset_seconds,
{
}

/// A response answers the request whose identifier it bears, whatever it says.
pub proof fn responses_name_their_requests(
    request_id: RequestId,
    announce: AnnounceResponse,
    scrape: ScrapeResponse,
)
    ensures
        answered_request(ChannelResponse::Announce { request_id, response: announce })
            == request_id,
        answered_request(ChannelResponse::Scrape { request_id, response: scrape }) == request_id,
{
}

} // verus!
