//! Encrypted sessions between paired devices: one connection per send.
//!
//! The client opens with `SessionInit` and a fresh salt, the server answers
//! `SessionAck` with its own; both derive the per-connection key from the
//! pairing key and the two salts. These functions decide each step; the I/O
//! layer reads and writes the frames.

use vstd::prelude::*;

use crate::crypto::{derive_session_key, fresh_bytes, no_randomness, spec_session_key};
use crate::identity::{hex_lower, lemma_hex_lower_digits};
use crate::error::AppError;
use crate::pairing::{is_error_frame, Refusal};
use crate::protocol::{
    b64d_array, b64e, base64_decode, base64_encode, error_frame, plain_debug, wire_debug, Plain, Wire,
    FEATURE_FILES, MAX_TEXT_BYTES, PROTO_VERSION,
};
use crate::registry::Registry;
use crate::state::{DiscoveredDevice, Direction, HistoryItem, PeerRecord, SendResult};
use crate::text::{chars_of, str_eq, string_of};

verus! {

/// The target that designates every paired device.
pub const ALL_TARGETS: &'static str = "all";

/// What [`resolve_targets`] returns: every paired device for "all" (in table
/// order), else the one device with that id; no device is an error.
pub open spec fn resolve_targets_result(peers: Registry<PeerRecord>, target: Seq<char>, r: Result<Vec<PeerRecord>, AppError>) -> bool {
    if target == ALL_TARGETS@ {
        match r {
            Ok(v) => v@.len() == peers.spec_len() > 0 && forall|i: int| 0 <= i < v@.len() ==> #[trigger] v@[i] == peers.value_at(i),
            Err(e) => peers.spec_len() == 0 && e.is_msg("No paired devices yet"@),
        }
    } else {
        match r {
            Ok(v) => peers@.dom().contains(target) && v@ == seq![peers@[target]],
            Err(e) => !peers@.dom().contains(target) && e.is_msg("This device is not paired"@),
        }
    }
}

/// The paired devices `target` designates: one device id, or "all".
pub fn resolve_targets(peers: &Registry<PeerRecord>, target: &str) -> (r: Result<Vec<PeerRecord>, AppError>)
    requires
        peers.wf(),
    ensures
        resolve_targets_result(*peers, target@, r),
{
    if str_eq(target, ALL_TARGETS) {
        let n = peers.len();
        let mut out: Vec<PeerRecord> = Vec::new();
        let mut i: usize = 0;
        while i < n
            invariant
                n == peers.spec_len(),
                i <= n,
                out@.len() == i,
                forall|k: int| 0 <= k < i ==> #[trigger] out@[k] == peers.value_at(k),
            decreases n - i,
        {
            let (_, p) = peers.at(i);
            out.push(p.copy());
            i = i + 1;
        }
        if n == 0 {
            return Err(AppError::msg("No paired devices yet"));
        }
        Ok(out)
    } else {
        match peers.get(target) {
            Some(p) => {
                let mut out: Vec<PeerRecord> = Vec::new();
                out.push(p.copy());
                assert(out@ =~= seq![peers@[target@]]);
                Ok(out)
            },
            None => Err(AppError::msg("This device is not paired")),
        }
    }
}

/// History label for a send: "All paired devices", or the device's name.
pub fn target_label(target: &str, targets: &Vec<PeerRecord>) -> (s: String)
    requires
        target@ == ALL_TARGETS@ || targets@.len() > 0,
    ensures
        s@ == if target@ == ALL_TARGETS@ { "All paired devices"@ } else { targets@[0].name@ },
{
    if str_eq(target, ALL_TARGETS) {
        String::from_str("All paired devices")
    } else {
        targets[0].name.clone()
    }
}

/// The version-4 UUID made of 16 bytes `b`, in its hyphenated lower-case
/// form: the high nibble of byte 6 set to 4 (the version) and the two high
/// bits of byte 8 to `10` (the variant), then the bytes in hex in groups of
/// 4, 2, 2, 2 and 6 bytes joined by hyphens.
pub open spec fn uuid_v4_text(b: Seq<u8>) -> Seq<char> {
    let c = b.update(6, (b[6] & 0x0f) | 0x40).update(8, (b[8] & 0x3f) | 0x80);
    hex_lower(c.subrange(0, 4)) + seq!['-'] + hex_lower(c.subrange(4, 6)) + seq!['-']
        + hex_lower(c.subrange(6, 8)) + seq!['-'] + hex_lower(c.subrange(8, 10)) + seq!['-']
        + hex_lower(c.subrange(10, 16))
}

/// The hyphenated text of the random UUID made of `bytes`.
///
/// Calls `uuid::Builder::from_random_bytes` (which sets the version and
/// variant bits) and formats the UUID with `to_string`, which writes the
/// lower-case hyphenated form: [`uuid_v4_text`].
#[verifier::external_body]
fn uuid_from_random(bytes: [u8; 16]) -> (s: String)
    ensures
        s@ == uuid_v4_text(bytes@),
{
    uuid::Builder::from_random_bytes(bytes).into_uuid().to_string()
}

/// A fresh item id: a random (version 4) UUID in its hyphenated form, 36
/// characters; fails when the system has no randomness.
pub fn new_item_id() -> (r: Result<String, AppError>)
    ensures
        match r {
            Ok(id) => id@.len() == 36 && exists|b: Seq<u8>| b.len() == 16 && id@ == #[trigger] uuid_v4_text(b),
            Err(e) => no_randomness(e),
        },
{
    let bytes: [u8; 16] = fresh_bytes()?;
    let id = uuid_from_random(bytes);
    proof {
        let b = bytes@;
        let c = b.update(6, (b[6] & 0x0f) | 0x40).update(8, (b[8] & 0x3f) | 0x80);
        lemma_hex_lower_digits(c.subrange(0, 4));
        lemma_hex_lower_digits(c.subrange(4, 6));
        lemma_hex_lower_digits(c.subrange(6, 8));
        lemma_hex_lower_digits(c.subrange(8, 10));
        lemma_hex_lower_digits(c.subrange(10, 16));
    }
    Ok(id)
}

/// The history item of a text sent to `target` at `ts_ms`, under a fresh
/// id; it counts as sent until the results say otherwise.
pub fn sent_item(target: String, targets: &Vec<PeerRecord>, text: String, ts_ms: i64) -> (r: Result<HistoryItem, AppError>)
    requires
        target@ == ALL_TARGETS@ || targets@.len() > 0,
    ensures
        match r {
            Ok(item) => {
                &&& item.id@.len() == 36
                &&& item.direction == Direction::Sent
                &&& item.peer_name@ == if target@ == ALL_TARGETS@ { "All paired devices"@ } else { targets@[0].name@ }
                &&& item.peer_id == target
                &&& item.text == text
                &&& item.ts_ms == ts_ms
                &&& item.ok
                &&& item.file is None
            },
            Err(e) => no_randomness(e),
        },
{
    let id = new_item_id()?;
    let peer_name = target_label(target.as_str(), targets);
    Ok(HistoryItem {
        id,
        direction: Direction::Sent,
        peer_id: target,
        peer_name,
        text,
        ts_ms,
        ok: true,
        file: None,
    })
}

/// Whether every device received the item.
pub open spec fn all_ok(results: Seq<SendResult>) -> bool {
    forall|i: int| 0 <= i < results.len() ==> #[trigger] results[i].ok
}

/// The history item of a send, marked successful when every device got it.
pub fn record_sent(item: HistoryItem, results: &Vec<SendResult>) -> (r: HistoryItem)
    ensures
        r == (HistoryItem { ok: all_ok(results@), ..item }),
{
    let n = results.len();
    let mut ok = true;
    let mut i: usize = 0;
    while i < n
        invariant
            n == results@.len(),
            i <= n,
            ok == forall|k: int| 0 <= k < i ==> #[trigger] results@[k].ok,
        decreases n - i,
    {
        ok = ok && results[i].ok;
        i = i + 1;
    }
    HistoryItem { ok, ..item }
}

/// How one device fared: success, or the error's message.
pub fn send_result(device_id: String, outcome: &Result<(), AppError>) -> (r: SendResult)
    ensures
        r.device_id == device_id,
        r.ok == outcome is Ok,
        match outcome {
            Ok(()) => r.error is None,
            Err(e) => r.error matches Some(m) && m@ == e.spec_message(),
        },
{
    match outcome {
        Ok(()) => SendResult { device_id, ok: true, error: None },
        Err(e) => SendResult { device_id, ok: false, error: Some(e.message()) },
    }
}

/// The client's opening frame: who it is, its salt and its listening port.
pub fn session_init(my_id: &str, salt_c: &[u8; 32], port: u16) -> (w: Wire)
    ensures
        w matches Wire::SessionInit { v, device_id, salt, port: p } && v == PROTO_VERSION
            && device_id@ == my_id@ && salt@ == base64_encode(salt_c@) && p == port,
{
    Wire::SessionInit { v: PROTO_VERSION, device_id: String::from_str(my_id), salt: b64e(salt_c), port }
}

/// An open, keyed session to one peer, without its connection.
pub struct SessionKeys {
    pub key: [u8; 32],
    /// What the other device announced it supports (client side only).
    pub features: Vec<String>,
}

/// How opening a session failed.
pub struct OpenFailure {
    pub error: AppError,
    /// The peer no longer knows us: forget the pairing here too.
    pub forget_peer: bool,
}

/// The client accepts `resp` as the answer of `peer` to its salt `salt_c`,
/// and keys the session with `s`: the peer's id, its salt decoded, the
/// session key from the pairing key and both salts, its features kept.
pub open spec fn ack_accepted(peer: PeerRecord, salt_c: Seq<u8>, resp: Wire, s: SessionKeys) -> bool {
    resp matches Wire::SessionAck { device_id, salt, features } && device_id@ == peer.device_id@
        && (crate::pairing::decoded32(salt@) matches Some(ss)
        && s.key@ == spec_session_key(peer.pairing_key@, salt_c, ss)) && s.features == features
}

/// Client, on the server's answer to `SessionInit`: the session key from the
/// pairing key and both salts. If the peer no longer recognizes us, the local
/// pairing is to be dropped as well.
pub fn on_session_ack(peer: &PeerRecord, salt_c: &[u8; 32], resp: Wire) -> (r: Result<SessionKeys, OpenFailure>)
    ensures
        match r {
            Ok(s) => ack_accepted(*peer, salt_c@, resp, s),
            Err(f) => match resp {
                Wire::SessionAck { device_id, salt, .. } => !f.forget_peer && if device_id@ != peer.device_id@ {
                    f.error.is_protocol_msg("responder identity mismatch"@)
                } else {
                    crate::pairing::decoded32(salt@) is None && f.error is Protocol
                },
                Wire::Error { code, msg } => if code@ == "unknown_peer"@ {
                    f.forget_peer && f.error.is_msg("The other device removed this pairing. Pair again."@)
                } else {
                    !f.forget_peer && (f.error matches AppError::Remote { code: c, msg: m } && c@ == code@ && m@ == msg@)
                },
                _ => !f.forget_peer && f.error is Protocol,
            },
        },
{
    match resp {
        Wire::SessionAck { device_id, salt, features } => {
            if !str_eq(device_id.as_str(), peer.device_id.as_str()) {
                return Err(OpenFailure { error: AppError::protocol("responder identity mismatch"), forget_peer: false });
            }
            let salt_s: [u8; 32] = match b64d_array(salt.as_str()) {
                Ok(a) => a,
                Err(e) => return Err(OpenFailure { error: e, forget_peer: false }),
            };
            let key = derive_session_key(&peer.pairing_key, salt_c, &salt_s);
            Ok(SessionKeys { key, features })
        },
        Wire::Error { code, msg } => {
            if str_eq(code.as_str(), "unknown_peer") {
                Err(OpenFailure {
                    error: AppError::msg("The other device removed this pairing. Pair again."),
                    forget_peer: true,
                })
            } else {
                Err(OpenFailure { error: AppError::Remote { code, msg }, forget_peer: false })
            }
        },
        other => {
            let mut m = String::from_str("expected SessionAck, got ");
            m.append(wire_debug(&other).as_str());
            Err(OpenFailure { error: AppError::Protocol(m), forget_peer: false })
        },
    }
}

/// Whether a decrypted payload is the `Ack` for `id`.
pub fn check_ack(plain: Plain, id: &str) -> (r: Result<(), AppError>)
    ensures
        match r {
            Ok(()) => plain matches Plain::Ack { id: a } && a@ == id@,
            Err(e) => !(plain matches Plain::Ack { id: a } && a@ == id@) && e is Protocol,
        },
{
    match plain {
        Plain::Ack { id: acked } => {
            if str_eq(acked.as_str(), id) {
                return Ok(());
            }
            let mut m = String::from_str("expected Ack, got ");
            m.append(plain_debug(&Plain::Ack { id: acked }).as_str());
            Err(AppError::Protocol(m))
        },
        other => {
            let mut m = String::from_str("expected Ack, got ");
            m.append(plain_debug(&other).as_str());
            Err(AppError::Protocol(m))
        },
    }
}

/// The server side of an accepted `SessionInit`.
pub struct ServedSession {
    pub peer: PeerRecord,
    pub key: [u8; 32],
    /// The client's listening port.
    pub port: u16,
    /// The `SessionAck` to send.
    pub ack: Wire,
}

/// The server serves `first` as `s`: a `SessionInit` of this protocol
/// version from a paired device, whose salt decodes; the answer names this
/// device, announces file support and carries a fresh 32-byte salt, and the
/// key comes from the pairing key and both salts.
pub open spec fn served(first: Wire, peers: Map<Seq<char>, PeerRecord>, my_id: Seq<char>, s: ServedSession) -> bool {
    first matches Wire::SessionInit { v, device_id, salt, port } && {
        &&& v == PROTO_VERSION
        &&& peers.dom().contains(device_id@)
        &&& s.peer == peers[device_id@]
        &&& s.port == port
        &&& crate::pairing::decoded32(salt@) matches Some(sc)
        &&& s.ack matches Wire::SessionAck { device_id: me, salt: ss, features } && {
            &&& me@ == my_id
            &&& features@.len() == 1 && features@[0]@ == FEATURE_FILES@
            &&& exists|salt_s: Seq<u8>| salt_s.len() == 32 && ss@ == base64_encode(salt_s)
                && base64_decode(ss@) == Some(salt_s)
                && #[trigger] spec_session_key(s.peer.pairing_key@, sc, salt_s) == s.key@
        }
    }
}

/// Server, on a connection whose first frame is `SessionInit`: the client
/// must speak this protocol version and be paired; the answer carries a
/// fresh salt and announces file support.
pub fn serve_handshake(first: Wire, peers: &Registry<PeerRecord>, my_id: &str) -> (r: Result<ServedSession, Refusal>)
    requires
        peers.wf(),
    ensures
        match r {
            Ok(s) => served(first, peers@, my_id@, s),
            Err(f) => match first {
                Wire::SessionInit { v, device_id, salt, .. } => if v != PROTO_VERSION {
                    is_error_frame(f.frame, "version"@, "unsupported protocol version"@)
                        && f.error.is_protocol_msg("version mismatch"@)
                } else if !peers@.dom().contains(device_id@) {
                    is_error_frame(f.frame, "unknown_peer"@, "not paired"@) && f.error is UnknownPeer
                } else {
                    f.frame is None && (crate::pairing::decoded32(salt@) is None && f.error is Protocol
                        || crate::pairing::decoded32(salt@) is Some && no_randomness(f.error))
                },
                _ => f.frame is None && f.error.is_protocol_msg("expected SessionInit"@),
            },
        },
{
    match first {
        Wire::SessionInit { v, device_id, salt, port } => {
            if v != PROTO_VERSION {
                return Err(Refusal {
                    frame: Some(error_frame("version", String::from_str("unsupported protocol version"))),
                    error: AppError::protocol("version mismatch"),
                });
            }
            let peer = match peers.get(device_id.as_str()) {
                Some(p) => p.copy(),
                None => return Err(Refusal {
                    frame: Some(error_frame("unknown_peer", String::from_str("not paired"))),
                    error: AppError::UnknownPeer,
                }),
            };
            let salt_c: [u8; 32] = match b64d_array(salt.as_str()) {
                Ok(a) => a,
                Err(e) => return Err(Refusal { frame: None, error: e }),
            };
            let salt_s: [u8; 32] = match fresh_bytes() {
                Ok(b) => b,
                Err(e) => return Err(Refusal { frame: None, error: e }),
            };
            let mut features: Vec<String> = Vec::new();
            features.push(String::from_str(FEATURE_FILES));
            let ack = Wire::SessionAck { device_id: String::from_str(my_id), salt: b64e(&salt_s), features };
            let key = derive_session_key(&peer.pairing_key, &salt_c, &salt_s);
            Ok(ServedSession { peer, key, port, ack })
        },
        _ => Err(Refusal { frame: None, error: AppError::protocol("expected SessionInit") }),
    }
}

/// What the server does with one decrypted payload.
pub enum ServeStep {
    /// Clipboard text within limits: acknowledge `id` and deliver the text.
    Text { id: String, text: String },
    /// A file is announced: receive it.
    File { id: String, name: String, size: u64, mime: String },
    /// The peer removed the pairing: forget it and close.
    Forget,
    /// Keep-alive: wait for the next frame.
    Continue,
    /// Tell the peer why, then close with a protocol error.
    Reject { code: String, msg: String },
    /// Close with this error.
    Fail(AppError),
}

/// The server's decision for one decrypted payload.
pub fn serve_step(plain: Plain) -> (s: ServeStep)
    ensures
        match plain {
            Plain::Clipboard { id, text, .. } => if vstd::utf8::encode_utf8(text@).len() > MAX_TEXT_BYTES {
                s matches ServeStep::Reject { code, msg } && code@ == "too_large"@ && msg@ == "text too large"@
            } else {
                s matches ServeStep::Text { id: i, text: t } && i == id && t == text
            },
            Plain::FileStart { id, name, size, mime, .. } => s matches ServeStep::File { id: i, name: n, size: z, mime: m }
                && i == id && n == name && z == size && m == mime,
            Plain::Unpair => s is Forget,
            Plain::Ping => s is Continue,
            _ => s matches ServeStep::Fail(e) && e is Protocol,
        },
{
    match plain {
        Plain::Clipboard { id, text, .. } => {
            if text.as_str().as_bytes().len() > MAX_TEXT_BYTES {
                ServeStep::Reject { code: String::from_str("too_large"), msg: String::from_str("text too large") }
            } else {
                ServeStep::Text { id, text }
            }
        },
        Plain::FileStart { id, name, size, mime, .. } => ServeStep::File { id, name, size, mime },
        Plain::Unpair => ServeStep::Forget,
        Plain::Ping => ServeStep::Continue,
        other => {
            let mut m = String::from_str("unexpected payload ");
            m.append(plain_debug(&other).as_str());
            ServeStep::Fail(AppError::Protocol(m))
        },
    }
}

/// The peer's current name when discovery sees it, else the name stored at pairing.
pub fn display_name(discovered: &Registry<DiscoveredDevice>, peer: &PeerRecord) -> (name: String)
    requires
        discovered.wf(),
    ensures
        name@ == if discovered@.dom().contains(peer.device_id@) {
            discovered@[peer.device_id@].name@
        } else {
            peer.name@
        },
{
    match discovered.get(peer.device_id.as_str()) {
        Some(d) => d.name.clone(),
        None => peer.name.clone(),
    }
}

/// The first `n` characters of `s`.
fn take_chars(s: &str, n: usize) -> (r: String)
    ensures
        r@ == s@.take(if n <= s@.len() { n as int } else { s@.len() as int }),
{
    let v = chars_of(s);
    let k = if n <= v.len() { n } else { v.len() };
    string_of(&crate::text::sub_chars(&v, 0, k))
}

/// What to do with a received item: write its text to the clipboard (files
/// stay files), and the notification to show, if any.
pub struct Delivery {
    pub write_clipboard: bool,
    pub notification: Option<(String, String)>,
}

/// The delivery of a received item under the user's settings: the
/// notification reads "Received from {peer}" over the file name, or the
/// first 120 characters of the text.
pub fn delivery(item: &HistoryItem, write_received_to_clipboard: bool, notify_on_receive: bool) -> (d: Delivery)
    ensures
        d.write_clipboard == (write_received_to_clipboard && item.file is None),
        notify_on_receive <==> d.notification is Some,
        d.notification matches Some((title, body)) ==> {
            &&& title@ == "Received from "@ + item.peer_name@
            &&& body@ == match item.file {
                Some(f) => f.name@,
                None => item.text@.take(if 120 <= item.text@.len() { 120 } else { item.text@.len() as int }),
            }
        },
{
    let notification = if notify_on_receive {
        let mut title = String::from_str("Received from ");
        title.append(item.peer_name.as_str());
        let body = match &item.file {
            Some(f) => f.name.clone(),
            None => take_chars(item.text.as_str(), 120),
        };
        Some((title, body))
    } else {
        None
    };
    Delivery { write_clipboard: write_received_to_clipboard && item.file.is_none(), notification }
}

/// Both ends of a session derive the same key: when a client that holds
/// the pairing key the server stored for it opens a session with salt
/// `salt_c` and accepts the server's answer, its key is the server's.
pub proof fn law_session_keys_agree(
    client_view: PeerRecord,
    salt_c: Seq<u8>,
    first: Wire,
    peers: Map<Seq<char>, PeerRecord>,
    my_id: Seq<char>,
    s: ServedSession,
    keys: SessionKeys,
)
    requires
        first matches Wire::SessionInit { salt, .. } && crate::pairing::decoded32(salt@) == Some(salt_c),
        served(first, peers, my_id, s),
        client_view.pairing_key == s.peer.pairing_key,
        ack_accepted(client_view, salt_c, s.ack, keys),
    ensures
        keys.key@ == s.key@,
{
}

} // verus!
