//! The WebSocket relay between a client and an upstream endpoint, as
//! decisions: what to do with each message or end of stream, and when to
//! move to another endpoint.
use crate::config::{derived_ws_url, EndpointView};
use crate::health::pool::ChainPool;
use crate::health::state::bumped;
use crate::metrics::ChainMetrics;
use vstd::prelude::*;
use vstd::string::*;

verus! {

/// What arrived on either side of a relayed connection.
#[derive(Debug, Clone, Copy, PartialEq, Eq, Structural)]
pub enum RelayEvent {
    /// A client message; `is_close` for a close frame.
    FromClient { is_close: bool },
    /// The client stream failed.
    ClientError,
    /// The client stream ended.
    ClientEnded,
    /// An upstream message; `is_close` for a close frame.
    FromUpstream { is_close: bool },
    /// The upstream stream failed.
    UpstreamError,
    /// The upstream stream ended.
    UpstreamEnded,
}

/// What the relay does about an event.
#[derive(Debug, Clone, Copy, PartialEq, Eq, Structural)]
pub enum RelayAction {
    /// Pass the message on to the upstream; stop when that fails.
    ToUpstream,
    /// Pass the client's close frame on to the upstream, then stop.
    CloseUpstream,
    /// Pass the message on to the client; stop when that fails.
    ToClient,
    /// Move to another endpoint; when none can be reached, stop, first
    /// sending the client a close frame if `close_client` holds.
    Reconnect { close_client: bool },
    /// Stop relaying.
    Stop,
}

/// The action for an event, and whether it counts as a relayed message.
pub open spec fn relay_decision(e: RelayEvent) -> (RelayAction, bool) {
    match e {
        RelayEvent::FromClient { is_close } => if is_close {
            (RelayAction::CloseUpstream, false)
        } else {
            (RelayAction::ToUpstream, true)
        },
        RelayEvent::ClientError => (RelayAction::Stop, false),
        RelayEvent::ClientEnded => (RelayAction::Stop, false),
        RelayEvent::FromUpstream { is_close } => if is_close {
            (RelayAction::Reconnect { close_client: true }, false)
        } else {
            (RelayAction::ToClient, true)
        },
        RelayEvent::UpstreamError => (RelayAction::Reconnect { close_client: true }, false),
        RelayEvent::UpstreamEnded => (RelayAction::Reconnect { close_client: false }, false),
    }
}

/// Decides what to do about an event of a relayed connection, counting each
/// message passed on (close frames are not counted).
pub fn relay_step(event: RelayEvent, metrics: &mut ChainMetrics) -> (r: RelayAction)
    ensures
        r == relay_decision(event).0,
        relay_decision(event).1 ==> *final(metrics) == (ChainMetrics {
            ws_messages_relayed: bumped(old(metrics).ws_messages_relayed, 1),
            ..*old(metrics)
        }),
        !relay_decision(event).1 ==> *final(metrics) == *old(metrics),
{
    match event {
        RelayEvent::FromClient { is_close } => {
            if is_close {
                RelayAction::CloseUpstream
            } else {
                metrics.record_ws_message_relayed();
                RelayAction::ToUpstream
            }
        },
        RelayEvent::ClientError => RelayAction::Stop,
        RelayEvent::ClientEnded => RelayAction::Stop,
        RelayEvent::FromUpstream { is_close } => {
            if is_close {
                RelayAction::Reconnect { close_client: true }
            } else {
                metrics.record_ws_message_relayed();
                RelayAction::ToClient
            }
        },
        RelayEvent::UpstreamError => RelayAction::Reconnect { close_client: true },
        RelayEvent::UpstreamEnded => RelayAction::Reconnect { close_client: false },
    }
}

/// The WebSocket URL of a chosen endpoint: its configured one, else one
/// derived from its HTTP URL.
pub open spec fn ws_url_of(e: EndpointView) -> Option<Seq<char>> {
    match e.ws_url {
        Some(ws) => Some(ws@),
        None => derived_ws_url(e.url),
    }
}

/// The endpoint and WebSocket URL a relay connects to, from the endpoint
/// chosen by the pool: none when no endpoint was chosen or it has no
/// WebSocket URL.
pub fn ws_target(pool: &ChainPool, choice: Option<(usize, String)>) -> (r: Option<(usize, String)>)
    requires
        choice matches Some((i, _)) ==> i < pool@.len(),
    ensures
        match choice {
            None => r is None,
            Some((i, _)) => match ws_url_of(pool@.endpoints[i as int]) {
                Some(u) => r matches Some((j, s)) && j == i && s@ == u,
                None => r is None,
            },
        },
{
    match choice {
        None => None,
        Some((i, _)) => {
            let endpoints = pool.endpoints();
            assert(endpoints.deep_view()[i as int] == endpoints@[i as int].view());
            match endpoints[i].effective_ws_url() {
                Some(url) => Some((i, url)),
                None => None,
            }
        },
    }
}

/// The notification a client gets after its relay moved to another
/// endpoint.
pub open spec fn reconnect_notice() -> Seq<char> {
    "{\"jsonrpc\":\"2.0\",\"method\":\"turbine_reconnected\",\"params\":{\"reason\":\"upstream_disconnect\"}}"@
}

/// Records a successful move to another endpoint and gives the text of the
/// notification for the client.
pub fn reconnected(metrics: &mut ChainMetrics) -> (r: String)
    ensures
        r@ == reconnect_notice(),
        *final(metrics) == (ChainMetrics {
            ws_reconnections: bumped(old(metrics).ws_reconnections, 1),
            ..*old(metrics)
        }),
{
    metrics.record_ws_reconnection();
    String::from_str(
        "{\"jsonrpc\":\"2.0\",\"method\":\"turbine_reconnected\",\"params\":{\"reason\":\"upstream_disconnect\"}}",
    )
}

} // verus!
