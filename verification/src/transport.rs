//! Which flow a connection takes, and where a device is reached.

use vstd::prelude::*;

use crate::error::AppError;
use crate::net::SockAddr;
use crate::pairing::{is_error_frame, Refusal};
use crate::protocol::{error_frame, wire_debug, Wire};
use crate::registry::Registry;
use crate::state::{DiscoveredDevice, PeerRecord};

verus! {

/// The flow a connection starts, chosen by its first frame.
#[derive(Debug)]
pub enum Flow {
    /// A `PairRequest`: the pairing responder takes over.
    Pairing(Wire),
    /// A `SessionInit`: an encrypted session is served.
    Session(Wire),
}

/// Every connection starts with one plaintext frame that selects the flow:
/// pairing or an encrypted session. Anything else is answered with a
/// `bad_request` error frame and ends the connection.
pub fn route_first_frame(first: Wire) -> (r: Result<Flow, Refusal>)
    ensures
        match first {
            Wire::PairRequest { .. } => r == Ok::<Flow, Refusal>(Flow::Pairing(first)),
            Wire::SessionInit { .. } => r == Ok::<Flow, Refusal>(Flow::Session(first)),
            _ => r matches Err(f) && is_error_frame(f.frame, "bad_request"@, "unexpected first frame"@)
                && f.error is Protocol,
        },
{
    match first {
        Wire::PairRequest { .. } => Ok(Flow::Pairing(first)),
        Wire::SessionInit { .. } => Ok(Flow::Session(first)),
        other => {
            let mut m = String::from_str("unexpected first frame ");
            m.append(wire_debug(&other).as_str());
            let frame = error_frame("bad_request", String::from_str("unexpected first frame"));
            proof {
                reveal_strlit("unexpected first frame");
            }
            Err(Refusal { frame: Some(frame), error: AppError::Protocol(m) })
        },
    }
}

/// Where a device is reached at time `now_ms`: its live mDNS address when
/// it was seen recently and has one, else the address it was last reached
/// at as a paired device.
pub open spec fn spec_resolve_peer_addr(
    peers: Map<Seq<char>, PeerRecord>,
    discovered: Map<Seq<char>, DiscoveredDevice>,
    device_id: Seq<char>,
    now_ms: u64,
) -> Option<SockAddr> {
    if discovered.dom().contains(device_id) && !discovered[device_id].spec_is_stale(now_ms)
        && discovered[device_id].spec_best_addr() is Some {
        discovered[device_id].spec_best_addr()
    } else if peers.dom().contains(device_id) {
        peers[device_id].last_seen_addr
    } else {
        None
    }
}

/// Current address for a device: live mDNS data first, last known address
/// otherwise.
pub fn resolve_peer_addr(
    peers: &Registry<PeerRecord>,
    discovered: &Registry<DiscoveredDevice>,
    device_id: &str,
    now_ms: u64,
) -> (a: Option<SockAddr>)
    requires
        peers.wf(),
        discovered.wf(),
    ensures
        a == spec_resolve_peer_addr(peers@, discovered@, device_id@, now_ms),
        discovered@.dom().contains(device_id@) && !discovered@[device_id@].spec_is_stale(now_ms)
            && discovered@[device_id@].spec_best_addr() is Some ==> a == discovered@[device_id@].spec_best_addr(),
{
    if let Some(d) = discovered.get(device_id) {
        if !d.is_stale(now_ms) {
            if let Some(addr) = d.best_addr() {
                return Some(addr);
            }
        }
    }
    match peers.get(device_id) {
        Some(p) => p.last_seen_addr,
        None => None,
    }
}

/// A device is reached where discovery sees it now: when it is in the
/// discovered table, not stale, and has an address, that live address is
/// used whatever its pairing record stores; otherwise the address it was
/// last reached at as a paired device; and an unknown device has none.
pub proof fn law_live_address_first(
    peers: Map<Seq<char>, PeerRecord>,
    discovered: Map<Seq<char>, DiscoveredDevice>,
    device_id: Seq<char>,
    now_ms: u64,
)
    ensures
        discovered.dom().contains(device_id) && !discovered[device_id].spec_is_stale(now_ms)
            && discovered[device_id].spec_best_addr() is Some
            ==> spec_resolve_peer_addr(peers, discovered, device_id, now_ms) == discovered[device_id].spec_best_addr(),
        !(discovered.dom().contains(device_id) && !discovered[device_id].spec_is_stale(now_ms)
            && discovered[device_id].spec_best_addr() is Some) && peers.dom().contains(device_id)
            ==> spec_resolve_peer_addr(peers, discovered, device_id, now_ms) == peers[device_id].last_seen_addr,
        !discovered.dom().contains(device_id) && !peers.dom().contains(device_id)
            ==> spec_resolve_peer_addr(peers, discovered, device_id, now_ms) is None,
        spec_resolve_peer_addr(peers, discovered, device_id, now_ms) matches Some(a) ==> (
            (discovered.dom().contains(device_id) && discovered[device_id].spec_best_addr() == Some(a))
            || (peers.dom().contains(device_id) && peers[device_id].last_seen_addr == Some(a))),
{
}

} // verus!
