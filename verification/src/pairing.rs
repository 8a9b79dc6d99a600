//! Pairing: X25519 key agreement bound to Ed25519 identities, verified by a
//! 6-digit short authentication string (SAS) that both users compare, or by a
//! one-time token read from a QR code.
//!
//! ```text
//! A (initiator)                              B (responder)
//! PairRequest  { id_pk_A, commit(eph_A, nonce_A) }  -->
//!                                       <--  PairResponse { id_pk_B, eph_B, nonce_B }
//! PairReveal   { eph_A, nonce_A, sig_A(T) }          -->   (B checks commit + sig)
//!                                       <--  PairSig { sig_B(T) }   (A checks sig)
//! both derive pairing_key + SAS, show SAS, then exchange Enc(PairAck) with pairing_key
//! ```
//!
//! Each step of both sides is a function from what arrived to what to send
//! next; the I/O layer moves the frames.

use vstd::prelude::*;

use crate::crypto::{
    sha256_digest,
    commit, derive_pairing, pairing_transcript, fresh_bytes, no_randomness, spec_commit, spec_pairing_key,
    spec_pairing_transcript, spec_sas, x25519_diffie_hellman, x25519_public, x25519_public_key,
    x25519_shared, PairingMaterial,
};
use crate::identity::{
    device_id_from_pk, ed25519_public, hex_encode, hex_lower, is_hex_digit, lemma_hex_lower_digits, lemma_hex_roundtrip, ed25519_signature, ed25519_verify_strict, hex_decode,
    hex_decode_spec, spec_device_id, verify, ed25519_neutral_point, Identity,
};
use crate::registry::Registry;
use crate::protocol::{Plain, b64d_array, b64e, base64_decode, base64_encode, error_frame, plain_debug, wire_debug, Wire, PROTO_VERSION};
use crate::state::{DiscoveredDevice, PairedVia, PeerRecord};
use crate::net::{dotted, push_dotted, IpAddress, SockAddr};
use crate::transport::{resolve_peer_addr, spec_resolve_peer_addr};
use crate::error::AppError;
use crate::text::{decimal, free_of, lemma_decimal_digits, lemma_split_on_join, lemma_split_on_nonempty, lemma_split_on_whole, lemma_split_once_at, push_decimal, chars_of, split_chars, split_on, split_once, split_once_chars, str_eq, string_of, strip_prefix_chars, views};
use vstd::utf8::encode_utf8;

verus! {

/// How long a displayed QR token stays valid, in milliseconds.
pub const QR_TOKEN_TTL_MS: u64 = 300000;

/// The scheme and path of a pairing QR code.
pub const QR_PREFIX: &'static str = "nearclip://pair?";

/// Which side of the handshake this device plays.
#[derive(PartialEq, Eq, Structural, Clone, Copy, Debug)]
pub enum Role {
    Initiator,
    Responder,
}

/// The recorded pairing method: QR only when the token was actually
/// verified; a QR attempt that fell back to the code comparison counts as
/// by-address.
pub open spec fn spec_paired_via(intent: PairedVia, verified_by_qr: bool) -> PairedVia {
    if verified_by_qr {
        PairedVia::Qr
    } else if intent == PairedVia::Qr {
        PairedVia::Address
    } else {
        intent
    }
}

/// The recorded pairing method: QR only when the token was actually
/// verified; a QR attempt that fell back to the code comparison counts as
/// by-address.
pub fn paired_via(intent: PairedVia, verified_by_qr: bool) -> (v: PairedVia)
    ensures
        v == spec_paired_via(intent, verified_by_qr),
{
    match (verified_by_qr, intent) {
        (true, _) => PairedVia::Qr,
        (false, PairedVia::Qr) => PairedVia::Address,
        (false, other) => other,
    }
}

/// One-time secret embedded in the QR code a desktop displays. Presenting it
/// proves the initiator saw the screen, so neither side needs to compare a code.
#[derive(Debug)]
pub struct PairToken {
    pub value: String,
    /// When it was created, in milliseconds of a monotonic clock.
    pub created_ms: u64,
}

/// Whether `token` is still fresh at `now_ms`.
pub open spec fn token_fresh(token: PairToken, now_ms: u64) -> bool {
    (if now_ms >= token.created_ms { now_ms - token.created_ms } else { 0 }) < QR_TOKEN_TTL_MS
}

/// What [`take_token`] does: accept a matching fresh token and consume it,
/// or leave the slot as it was.
pub open spec fn take_token_post(before: Option<PairToken>, after: Option<PairToken>, presented: Seq<char>, now_ms: u64, valid: bool) -> bool {
    &&& valid == (before matches Some(t) && t.value@ == presented && token_fresh(t, now_ms))
    &&& valid ==> after is None
    &&& !valid ==> after == before
}

/// Consumes the displayed token if `presented` matches and it is still fresh.
pub fn take_token(slot: &mut Option<PairToken>, presented: &str, now_ms: u64) -> (valid: bool)
    ensures
        take_token_post(*old(slot), *final(slot), presented@, now_ms, valid),
{
    let valid = match slot {
        Some(t) => {
            let elapsed = if now_ms >= t.created_ms { now_ms - t.created_ms } else { 0 };
            str_eq(t.value.as_str(), presented) && elapsed < QR_TOKEN_TTL_MS
        },
        None => false,
    };
    if valid {
        *slot = None;
    }
    valid
}

/// A token is accepted at most once: once a presentation was accepted, any
/// later presentation, of any text at any time, is refused.
pub proof fn law_token_single_use(
    s0: Option<PairToken>,
    s1: Option<PairToken>,
    s2: Option<PairToken>,
    first: Seq<char>,
    second: Seq<char>,
    t1: u64,
    t2: u64,
    v2: bool,
)
    requires
        take_token_post(s0, s1, first, t1, true),
        take_token_post(s1, s2, second, t2, v2),
    ensures
        !v2,
{
}

/// What the initiator learned from a scanned QR code: the displayed device's
/// identity key and the one-time token that proves the screen was seen.
#[derive(Debug)]
pub struct QrAuth {
    pub pk: [u8; 32],
    pub token: String,
}

/// What a scanned QR code tells us about the device that displayed it: the
/// socket addresses among its address entries, its id and its key and
/// token.
#[derive(Debug)]
pub struct QrTarget {
    pub addrs: Vec<SockAddr>,
    pub id: String,
    pub auth: QrAuth,
}

/// The fields read from a QR query so far.
pub struct QrFields {
    pub addrs: Seq<Seq<char>>,
    pub id: Option<Seq<char>>,
    pub pk: Option<Seq<u8>>,
    pub token: Option<Seq<char>>,
}

/// A 32-byte key written in hex, or `None`.
pub open spec fn hex_key(v: Seq<char>) -> Option<Seq<u8>> {
    match hex_decode_spec(encode_utf8(v)) {
        Some(b) => if b.len() == 32 { Some(b) } else { None },
        None => None,
    }
}

/// Reads one `key=value` item of the query; later items override earlier
/// ones, unknown keys and items without `=` are ignored.
pub open spec fn apply_field(f: QrFields, kv: Seq<char>) -> QrFields {
    match split_once(kv, '=') {
        Some((k, v)) => if k == "a"@ {
            QrFields { addrs: split_on(v, ','), ..f }
        } else if k == "id"@ {
            QrFields { id: Some(v), ..f }
        } else if k == "pk"@ {
            QrFields { pk: hex_key(v), ..f }
        } else if k == "t"@ {
            QrFields { token: Some(v), ..f }
        } else {
            f
        },
        None => f,
    }
}

/// The fields of a whole query, its items read in order.
pub open spec fn scan_fields(items: Seq<Seq<char>>) -> QrFields
    decreases items.len(),
{
    if items.len() == 0 {
        QrFields { addrs: Seq::empty(), id: None, pk: None, token: None }
    } else {
        apply_field(scan_fields(items.drop_last()), items.last())
    }
}

/// Whether `payload` starts with the pairing scheme.
pub open spec fn qr_has_scheme(payload: Seq<char>) -> bool {
    let p = QR_PREFIX@;
    p.len() <= payload.len() && payload.subrange(0, p.len() as int) == p
}

/// The address entries of a payload as written: the comma-separated parts
/// of its last `a=` item; none without the pairing scheme.
pub open spec fn qr_entries(payload: Seq<char>) -> Seq<Seq<char>> {
    if qr_has_scheme(payload) {
        qr_fields(payload).addrs
    } else {
        Seq::empty()
    }
}

/// The socket addresses among parsed address entries, in order (entries
/// that are no socket address are skipped).
pub open spec fn parsed_addrs(parsed: Seq<Option<SockAddr>>) -> Seq<SockAddr>
    decreases parsed.len(),
{
    if parsed.len() == 0 {
        Seq::empty()
    } else {
        match parsed.last() {
            Some(a) => parsed_addrs(parsed.drop_last()).push(a),
            None => parsed_addrs(parsed.drop_last()),
        }
    }
}

/// What [`parse_qr`] accepts, given what each address entry parsed to: the
/// pairing scheme, at least one entry that is a socket address, an id, a
/// 32-byte key whose device id is that id, and a token.
pub open spec fn qr_accepts(payload: Seq<char>, parsed: Seq<Option<SockAddr>>) -> bool {
    &&& qr_has_scheme(payload)
    &&& {
        let f = qr_fields(payload);
        &&& parsed_addrs(parsed).len() > 0
        &&& f.id is Some
        &&& f.pk is Some
        &&& f.token is Some
        &&& spec_device_id(f.pk->0) == f.id->0
    }
}

/// The fields of an accepted payload.
pub open spec fn qr_fields(payload: Seq<char>) -> QrFields {
    scan_fields(split_on(payload.subrange(QR_PREFIX@.len() as int, payload.len() as int), '&'))
}

/// The spec view of an optional character vector.
pub open spec fn opt_view(o: Option<Vec<char>>) -> Option<Seq<char>> {
    match o {
        Some(v) => Some(v@),
        None => None,
    }
}

/// Whether a character vector spells `lit`.
fn chars_are(v: &Vec<char>, lit: &str) -> (b: bool)
    ensures
        b == (v@ == lit@),
{
    str_eq(string_of(v).as_str(), lit)
}

/// A 32-byte key written in hex, or `None`.
fn parse_hex_key(v: &Vec<char>) -> (r: Option<[u8; 32]>)
    ensures
        match r {
            Some(k) => hex_key(v@) == Some(k@),
            None => hex_key(v@) is None,
        },
{
    let s = string_of(v);
    match hex_decode(s.as_str()) {
        Some(b) => if b.len() == 32 {
            let k: [u8; 32] = crate::bytes::array_from(b.as_slice(), 0);
            assert(b@.subrange(0, 32) =~= b@);
            Some(k)
        } else {
            None
        },
        None => None,
    }
}

/// The fields of a query: its `&`-separated items read in order.
fn read_query(query: &Vec<char>) -> (r: (Vec<Vec<char>>, Option<Vec<char>>, Option<[u8; 32]>, Option<Vec<char>>))
    ensures
        ({
            let f = scan_fields(split_on(query@, '&'));
            &&& views(r.0@) == f.addrs
            &&& opt_view(r.1) == f.id
            &&& (match r.2 { Some(k) => Some(k@), None => None }) == f.pk
            &&& opt_view(r.3) == f.token
        }),
{
    let items = split_chars(query, '&');
    let ghost item_views = views(items@);
    let mut addrs: Vec<Vec<char>> = Vec::new();
    let mut id: Option<Vec<char>> = None;
    let mut pk: Option<[u8; 32]> = None;
    let mut token: Option<Vec<char>> = None;
    let n = items.len();
    let mut i: usize = 0;
    while i < n
        invariant
            n == items@.len(),
            item_views == views(items@),
            item_views == split_on(query@, '&'),
            i <= n,
            ({
                let f = scan_fields(item_views.take(i as int));
                &&& views(addrs@) == f.addrs
                &&& opt_view(id) == f.id
                &&& (match pk { Some(k) => Some(k@), None => None }) == f.pk
                &&& opt_view(token) == f.token
            }),
        decreases n - i,
    {
        proof {
            assert(item_views.take(i + 1).drop_last() =~= item_views.take(i as int));
            assert(item_views.take(i + 1).last() == items@[i as int]@);
        }
        match split_once_chars(&items[i], '=') {
            Some((k, v)) => {
                if chars_are(&k, "a") {
                    addrs = split_chars(&v, ',');
                } else if chars_are(&k, "id") {
                    id = Some(v);
                } else if chars_are(&k, "pk") {
                    pk = parse_hex_key(&v);
                } else if chars_are(&k, "t") {
                    token = Some(v);
                }
            },
            None => {},
        }
        i = i + 1;
    }
    proof {
        assert(item_views.take(n as int) =~= item_views);
    }
    (addrs, id, pk, token)
}

/// The query of a payload that starts with the pairing scheme.
fn qr_query(payload: &str) -> (r: Option<Vec<char>>)
    ensures
        match r {
            Some(q) => qr_has_scheme(payload@) && q@ == payload@.subrange(QR_PREFIX@.len() as int, payload@.len() as int),
            None => !qr_has_scheme(payload@),
        },
{
    let chars = chars_of(payload);
    let prefix = chars_of(QR_PREFIX);
    strip_prefix_chars(&chars, &prefix)
}

/// The address entries of a scanned payload, as written: each is to be
/// read as a socket address before the payload is handed to [`parse_qr`].
pub fn qr_address_entries(payload: &str) -> (r: Vec<String>)
    ensures
        r@.len() == qr_entries(payload@).len(),
        forall|i: int| 0 <= i < r@.len() ==> #[trigger] r@[i]@ == qr_entries(payload@)[i],
{
    let mut out: Vec<String> = Vec::new();
    let query = match qr_query(payload) {
        Some(q) => q,
        None => return out,
    };
    let (addrs, _, _, _) = read_query(&query);
    let m = addrs.len();
    let mut j: usize = 0;
    while j < m
        invariant
            m == addrs@.len(),
            views(addrs@) == qr_entries(payload@),
            j <= m,
            out@.len() == j,
            forall|k: int| 0 <= k < j ==> #[trigger] out@[k]@ == addrs@[k]@,
        decreases m - j,
    {
        out.push(string_of(&addrs[j]));
        j = j + 1;
    }
    out
}

/// The socket addresses among parsed address entries, in order.
fn usable_addrs(parsed: &Vec<Option<SockAddr>>) -> (r: Vec<SockAddr>)
    ensures
        r@ == parsed_addrs(parsed@),
{
    let mut out: Vec<SockAddr> = Vec::new();
    let n = parsed.len();
    let mut i: usize = 0;
    while i < n
        invariant
            n == parsed@.len(),
            i <= n,
            out@ == parsed_addrs(parsed@.take(i as int)),
        decreases n - i,
    {
        proof {
            assert(parsed@.take(i + 1).drop_last() =~= parsed@.take(i as int));
            assert(parsed@.take(i + 1).last() == parsed@[i as int]);
        }
        match parsed[i] {
            Some(a) => out.push(a),
            None => {},
        }
        i = i + 1;
    }
    assert(parsed@.take(n as int) =~= parsed@);
    out
}

/// Phone side of QR pairing: reads the payload of a scanned code. `parsed`
/// holds, for each of its address entries in order (see
/// [`qr_address_entries`]), the socket address the entry reads as, or
/// `None`; the code is refused when none does.
pub fn parse_qr(payload: &str, parsed: &Vec<Option<SockAddr>>) -> (r: Result<QrTarget, AppError>)
    requires
        parsed@.len() == qr_entries(payload@).len(),
    ensures
        match r {
            Ok(t) => {
                let f = qr_fields(payload@);
                &&& qr_accepts(payload@, parsed@)
                &&& t.addrs@ == parsed_addrs(parsed@)
                &&& t.id@ == f.id->0
                &&& f.pk == Some(t.auth.pk@)
                &&& t.auth.token@ == f.token->0
            },
            Err(e) => !qr_accepts(payload@, parsed@) && if qr_has_scheme(payload@) {
                e.is_msg("This pairing code is incomplete or damaged"@)
            } else {
                e.is_msg("This is not a NearClip pairing code"@)
            },
        },
{
    let query = match qr_query(payload) {
        Some(q) => q,
        None => return Err(AppError::msg("This is not a NearClip pairing code")),
    };
    let (_, id, pk, token) = read_query(&query);
    let bad = AppError::msg("This pairing code is incomplete or damaged");
    let addrs = usable_addrs(parsed);
    if addrs.len() == 0 {
        return Err(bad);
    }
    let id = match id {
        Some(v) => string_of(&v),
        None => return Err(bad),
    };
    let pk = match pk {
        Some(k) => k,
        None => return Err(bad),
    };
    let token = match token {
        Some(v) => string_of(&v),
        None => return Err(bad),
    };
    if !str_eq(device_id_from_pk(&pk).as_str(), id.as_str()) {
        return Err(bad);
    }
    Ok(QrTarget { addrs, id, auth: QrAuth { pk, token } })
}

/// One side's fresh contribution to a handshake: an X25519 ephemeral key
/// pair and a nonce.
pub struct EphemeralOffer {
    pub secret: [u8; 32],
    pub public: [u8; 32],
    pub nonce: [u8; 32],
}

impl EphemeralOffer {
    /// The public key belongs to the secret, and agrees with every other
    /// secret's public key (X25519 key agreement).
    pub open spec fn wf(&self) -> bool {
        &&& self.public@ == x25519_public(self.secret@)
        &&& forall|other: Seq<u8>|
            other.len() == 32 ==> #[trigger] x25519_shared(other, self.public@) == x25519_shared(
                self.secret@,
                x25519_public(other),
            )
    }

    /// A fresh ephemeral key pair and nonce; fails when the system has no
    /// randomness.
    pub fn fresh() -> (r: Result<EphemeralOffer, AppError>)
        ensures
            match r {
                Ok(o) => o.wf(),
                Err(e) => no_randomness(e),
            },
    {
        let secret: [u8; 32] = fresh_bytes()?;
        let public = x25519_public_key(&secret);
        let nonce: [u8; 32] = fresh_bytes()?;
        Ok(EphemeralOffer { secret, public, nonce })
    }
}

/// Why a handshake step stops: the frame to send the peer first, if any,
/// and the local error.
#[derive(Debug)]
pub struct Refusal {
    pub frame: Option<Wire>,
    pub error: AppError,
}

/// `f` is an error frame with this code and message.
pub open spec fn is_error_frame(f: Option<Wire>, code: Seq<char>, msg: Seq<char>) -> bool {
    f matches Some(Wire::Error { code: c, msg: m }) && c@ == code && m@ == msg
}

/// "{msg} ({code})": how a peer's error frame is reported during pairing.
pub open spec fn peer_error_text(code: Seq<char>, msg: Seq<char>) -> Seq<char> {
    msg + " ("@ + code + ")"@
}

/// The error for a peer's error frame.
fn peer_error(code: &String, msg: &String) -> (e: AppError)
    ensures
        e.is_msg(peer_error_text(code@, msg@)),
{
    let mut m = msg.clone();
    m.append(" (");
    m.append(code.as_str());
    m.append(")");
    AppError::Msg(m)
}

/// The error for a frame of the wrong kind: "expected {what}, got {frame:?}".
fn unexpected(what: &str, other: &Wire) -> (e: AppError)
    ensures
        e is Protocol,
{
    let mut m = String::from_str("expected ");
    m.append(what);
    m.append(", got ");
    m.append(wire_debug(other).as_str());
    AppError::Protocol(m)
}

/// The initiator's first frame: its identity and a commitment to its
/// ephemeral key.
pub fn pair_request(
    identity: &Identity,
    my_name: String,
    offer: &EphemeralOffer,
    port: u16,
    token: Option<String>,
    via: PairedVia,
) -> (w: Wire)
    ensures
        w matches Wire::PairRequest { v, device_id, name, id_pk, commit: c, port: p, token: t, via: vi } && {
            &&& v == PROTO_VERSION
            &&& device_id@ == identity.id()
            &&& name == my_name
            &&& id_pk@ == base64_encode(ed25519_public(identity.seed()))
            &&& c@ == base64_encode(spec_commit(offer.public@, offer.nonce@))
            &&& p == port
            &&& t == token
            &&& vi == Some(via)
        },
{
    let my_pk = identity.public_key();
    Wire::PairRequest {
        v: PROTO_VERSION,
        device_id: identity.device_id().clone(),
        name: my_name,
        id_pk: b64e(&my_pk),
        commit: b64e(&commit(&offer.public, &offer.nonce)),
        port,
        token,
        via: Some(via),
    }
}

/// The initiator after `PairResponse`: what it learned and the transcript
/// both sides sign.
pub struct InitiatorPending {
    pub peer_id: String,
    pub peer_name: String,
    pub peer_pk: [u8; 32],
    pub eph_b: [u8; 32],
    pub nonce_b: [u8; 32],
    pub token_ok: bool,
    pub transcript: Vec<u8>,
}

/// A base64 field that must hold 32 bytes.
pub open spec fn decoded32(t: Seq<char>) -> Option<Seq<u8>> {
    match base64_decode(t) {
        Some(b) => if b.len() == 32 { Some(b) } else { None },
        None => None,
    }
}

/// A base64 field that must hold 64 bytes.
pub open spec fn decoded64(t: Seq<char>) -> Option<Seq<u8>> {
    match base64_decode(t) {
        Some(b) => if b.len() == 64 { Some(b) } else { None },
        None => None,
    }
}

/// The initiator's checks on the responder: the id it expected (known from
/// discovery or the QR code), the id that belongs to the responder's key,
/// and the key the QR code showed.
pub open spec fn responder_checks(expected_id: Option<Seq<char>>, peer_id: Seq<char>, peer_pk: Seq<u8>, qr_pk: Option<Seq<u8>>) -> bool {
    &&& (expected_id matches Some(id) ==> id == peer_id)
    &&& spec_device_id(peer_pk) == peer_id
    &&& (qr_pk matches Some(k) ==> k == peer_pk)
}

/// Initiator, on the responder's answer: checks who answered, then signs the
/// transcript and returns the `PairReveal` to send.
pub fn on_pair_response(
    identity: &Identity,
    offer: &EphemeralOffer,
    resp: Wire,
    expected_id: Option<&str>,
    qr_pk: Option<&[u8; 32]>,
) -> (r: Result<(InitiatorPending, Wire), AppError>)
    ensures
        match r {
            Ok((p, reveal)) => resp matches Wire::PairResponse { device_id, name, id_pk, eph, nonce, token_ok } && {
                &&& p.peer_id == device_id
                &&& p.peer_name == name
                &&& p.token_ok == token_ok
                &&& base64_decode(id_pk@) == Some(p.peer_pk@)
                &&& base64_decode(eph@) == Some(p.eph_b@)
                &&& base64_decode(nonce@) == Some(p.nonce_b@)
                &&& responder_checks(
                    match expected_id { Some(x) => Some(x@), None => None },
                    device_id@,
                    p.peer_pk@,
                    match qr_pk { Some(k) => Some(k@), None => None },
                )
                &&& p.transcript@ == spec_pairing_transcript(ed25519_public(identity.seed()), offer.public@, offer.nonce@, p.peer_pk@, p.eph_b@, p.nonce_b@)
                &&& reveal matches Wire::PairReveal { eph: re, nonce: rn, sig: rs } && {
                    &&& re@ == base64_encode(offer.public@)
                    &&& rn@ == base64_encode(offer.nonce@)
                    &&& rs@ == base64_encode(ed25519_signature(identity.seed(), p.transcript@))
                }
                &&& ed25519_signature(identity.seed(), p.transcript@).subrange(0, 32) != ed25519_neutral_point()
                    ==> ed25519_verify_strict(ed25519_public(identity.seed()), p.transcript@, ed25519_signature(identity.seed(), p.transcript@))
            },
            Err(e) => match resp {
                Wire::PairResponse { device_id, id_pk, eph, nonce, .. } =>
                    match (decoded32(id_pk@), decoded32(eph@), decoded32(nonce@)) {
                        (Some(pk), Some(_), Some(_)) => e is Crypto && !responder_checks(
                            match expected_id { Some(x) => Some(x@), None => None },
                            device_id@,
                            pk,
                            match qr_pk { Some(k) => Some(k@), None => None },
                        ),
                        _ => e is Protocol,
                    },
                Wire::Error { code, msg } => e.is_msg(peer_error_text(code@, msg@)),
                _ => e is Protocol,
            },
        },
{
    match resp {
        Wire::PairResponse { device_id, name, id_pk, eph, nonce, token_ok } => {
            let peer_pk: [u8; 32] = b64d_array(id_pk.as_str())?;
            let eph_b: [u8; 32] = b64d_array(eph.as_str())?;
            let nonce_b: [u8; 32] = b64d_array(nonce.as_str())?;
            let expected_ok = match expected_id {
                Some(x) => str_eq(x, device_id.as_str()),
                None => true,
            };
            let qr_ok = match qr_pk {
                Some(k) => crate::bytes::bytes_eq(k, &peer_pk),
                None => true,
            };
            if !expected_ok || !str_eq(device_id_from_pk(&peer_pk).as_str(), device_id.as_str()) || !qr_ok {
                return Err(AppError::Crypto);
            }
            let my_pk = identity.public_key();
            let transcript = pairing_transcript(&my_pk, &offer.public, &offer.nonce, &peer_pk, &eph_b, &nonce_b);
            let sig_a = identity.sign(transcript.as_slice());
            let reveal = Wire::PairReveal { eph: b64e(&offer.public), nonce: b64e(&offer.nonce), sig: b64e(&sig_a) };
            Ok((InitiatorPending { peer_id: device_id, peer_name: name, peer_pk, eph_b, nonce_b, token_ok, transcript }, reveal))
        },
        Wire::Error { code, msg } => Err(peer_error(&code, &msg)),
        other => Err(unexpected("PairResponse", &other)),
    }
}

/// Initiator, on the responder's signature: checks it over the transcript
/// and derives the pairing key and SAS from its ephemeral secret and the
/// responder's ephemeral key.
pub fn on_pair_sig(pending: &InitiatorPending, offer: &EphemeralOffer, msg: Wire) -> (r: Result<PairingMaterial, AppError>)
    ensures
        match r {
            Ok(m) => msg matches Wire::PairSig { sig } && base64_decode(sig@) matches Some(sb)
                && ed25519_verify_strict(pending.peer_pk@, pending.transcript@, sb)
                && m.pairing_key@ == spec_pairing_key(x25519_shared(offer.secret@, pending.eph_b@), pending.transcript@)
                && m.sas@ == spec_sas(x25519_shared(offer.secret@, pending.eph_b@), pending.transcript@),
            Err(e) => match msg {
                Wire::PairSig { sig } => match base64_decode(sig@) {
                    Some(sb) => sb.len() != 64 && e is Protocol
                        || sb.len() == 64 && !ed25519_verify_strict(pending.peer_pk@, pending.transcript@, sb) && e is Crypto,
                    None => e is Protocol,
                },
                Wire::Error { code, msg } => e.is_msg(peer_error_text(code@, msg@)),
                _ => e is Protocol,
            },
        },
{
    match msg {
        Wire::PairSig { sig } => {
            let sig_b: [u8; 64] = b64d_array(sig.as_str())?;
            verify(&pending.peer_pk, pending.transcript.as_slice(), &sig_b)?;
            let shared = x25519_diffie_hellman(&offer.secret, &pending.eph_b);
            Ok(derive_pairing(&shared, pending.transcript.as_slice()))
        },
        Wire::Error { code, msg } => Err(peer_error(&code, &msg)),
        other => Err(unexpected("PairSig", &other)),
    }
}

/// A valid `PairRequest`, as the responder keeps it.
pub struct PairRequestInfo {
    pub peer_id: String,
    pub peer_name: String,
    pub peer_pk: [u8; 32],
    pub commit_a: [u8; 32],
    pub peer_port: u16,
    pub token: Option<String>,
    pub via: Option<PairedVia>,
}

/// Responder, on the first frame of a connection: a `PairRequest` of this
/// protocol version whose device id belongs to its identity key. Checked
/// before the user is asked anything.
pub fn check_pair_request(first: Wire) -> (r: Result<PairRequestInfo, Refusal>)
    ensures
        match r {
            Ok(info) => first matches Wire::PairRequest { v, device_id, name, id_pk, commit: c, port, token, via } && {
                &&& v == PROTO_VERSION
                &&& info.peer_id == device_id
                &&& info.peer_name == name
                &&& decoded32(id_pk@) == Some(info.peer_pk@)
                &&& decoded32(c@) == Some(info.commit_a@)
                &&& spec_device_id(info.peer_pk@) == device_id@
                &&& info.peer_port == port
                &&& info.token == token
                &&& info.via == via
            },
            Err(f) => match first {
                Wire::PairRequest { v, device_id, id_pk, commit: c, .. } => if v != PROTO_VERSION {
                    is_error_frame(f.frame, "version"@, "unsupported protocol version"@)
                        && f.error.is_protocol_msg("version mismatch"@)
                } else {
                    !(decoded32(id_pk@) matches Some(pk) && decoded32(c@) is Some && spec_device_id(pk) == device_id@)
                        && is_error_frame(f.frame, "identity"@, "device id does not match key"@)
                        && f.error is Crypto
                },
                _ => f.frame is None && f.error.is_protocol_msg("expected PairRequest"@),
            },
        },
{
    match first {
        Wire::PairRequest { v, device_id, name, id_pk, commit: c, port, token, via } => {
            if v != PROTO_VERSION {
                return Err(Refusal {
                    frame: Some(error_frame("version", String::from_str("unsupported protocol version"))),
                    error: AppError::protocol("version mismatch"),
                });
            }
            let peer_pk = b64d_array::<32>(id_pk.as_str());
            let commit_a = b64d_array::<32>(c.as_str());
            match (peer_pk, commit_a) {
                (Ok(pk), Ok(ca)) => {
                    if str_eq(device_id_from_pk(&pk).as_str(), device_id.as_str()) {
                        return Ok(PairRequestInfo {
                            peer_id: device_id,
                            peer_name: name,
                            peer_pk: pk,
                            commit_a: ca,
                            peer_port: port,
                            token,
                            via,
                        });
                    }
                },
                _ => {},
            }
            Err(Refusal {
                frame: Some(error_frame("identity", String::from_str("device id does not match key"))),
                error: AppError::Crypto,
            })
        },
        _ => Err(Refusal { frame: None, error: AppError::protocol("expected PairRequest") }),
    }
}

/// The responder's answer: its identity and its ephemeral key and nonce.
pub fn pair_response(identity: &Identity, my_name: String, offer: &EphemeralOffer, token_ok: bool) -> (w: Wire)
    ensures
        w matches Wire::PairResponse { device_id, name, id_pk, eph, nonce, token_ok: t } && {
            &&& device_id@ == identity.id()
            &&& name == my_name
            &&& id_pk@ == base64_encode(ed25519_public(identity.seed()))
            &&& eph@ == base64_encode(offer.public@)
            &&& nonce@ == base64_encode(offer.nonce@)
            &&& t == token_ok
        },
{
    let my_pk = identity.public_key();
    Wire::PairResponse {
        device_id: identity.device_id().clone(),
        name: my_name,
        id_pk: b64e(&my_pk),
        eph: b64e(&offer.public),
        nonce: b64e(&offer.nonce),
        token_ok,
    }
}

/// What the responder learned from `PairReveal`.
pub struct ResponderDone {
    pub eph_a: [u8; 32],
    pub nonce_a: [u8; 32],
    pub transcript: Vec<u8>,
    pub material: PairingMaterial,
    /// The `PairSig` to send.
    pub reply: Wire,
}

/// Responder, on the initiator's reveal: the revealed key must match the
/// commitment and the signature the transcript; then it signs the
/// transcript itself and derives the pairing key and SAS.
pub fn on_pair_reveal(
    identity: &Identity,
    offer: &EphemeralOffer,
    peer_pk: &[u8; 32],
    commit_a: &[u8; 32],
    msg: Wire,
) -> (r: Result<ResponderDone, Refusal>)
    ensures
        match r {
            Ok(d) => msg matches Wire::PairReveal { eph, nonce, sig } && base64_decode(sig@) matches Some(sa) && {
                &&& base64_decode(eph@) == Some(d.eph_a@)
                &&& base64_decode(nonce@) == Some(d.nonce_a@)
                &&& spec_commit(d.eph_a@, d.nonce_a@) == commit_a@
                &&& d.transcript@ == spec_pairing_transcript(peer_pk@, d.eph_a@, d.nonce_a@, ed25519_public(identity.seed()), offer.public@, offer.nonce@)
                &&& ed25519_verify_strict(peer_pk@, d.transcript@, sa)
                &&& d.reply matches Wire::PairSig { sig: s } && s@ == base64_encode(ed25519_signature(identity.seed(), d.transcript@))
                &&& ed25519_signature(identity.seed(), d.transcript@).subrange(0, 32) != ed25519_neutral_point()
                    ==> ed25519_verify_strict(ed25519_public(identity.seed()), d.transcript@, ed25519_signature(identity.seed(), d.transcript@))
                &&& d.material.pairing_key@ == spec_pairing_key(x25519_shared(offer.secret@, d.eph_a@), d.transcript@)
                &&& d.material.sas@ == spec_sas(x25519_shared(offer.secret@, d.eph_a@), d.transcript@)
            },
            Err(f) => match msg {
                Wire::PairReveal { eph, nonce, sig } => match (decoded32(eph@), decoded32(nonce@), decoded64(sig@)) {
                    (Some(ea), Some(na), Some(sa)) => if spec_commit(ea, na) != commit_a@ {
                        is_error_frame(f.frame, "commit"@, "commitment mismatch"@) && f.error is Crypto
                    } else {
                        !ed25519_verify_strict(
                            peer_pk@,
                            spec_pairing_transcript(peer_pk@, ea, na, ed25519_public(identity.seed()), offer.public@, offer.nonce@),
                            sa,
                        ) && is_error_frame(f.frame, "signature"@, "bad signature"@) && f.error is Crypto
                    },
                    _ => f.frame is None && f.error is Protocol,
                },
                Wire::Error { code, msg } => f.frame is None && f.error.is_msg(peer_error_text(code@, msg@)),
                _ => f.frame is None && f.error is Protocol,
            },
        },
{
    match msg {
        Wire::PairReveal { eph, nonce, sig } => {
            let eph_a: [u8; 32] = match b64d_array(eph.as_str()) {
                Ok(a) => a,
                Err(e) => return Err(Refusal { frame: None, error: e }),
            };
            let nonce_a: [u8; 32] = match b64d_array(nonce.as_str()) {
                Ok(a) => a,
                Err(e) => return Err(Refusal { frame: None, error: e }),
            };
            let sig_a: [u8; 64] = match b64d_array(sig.as_str()) {
                Ok(a) => a,
                Err(e) => return Err(Refusal { frame: None, error: e }),
            };
            if !crate::bytes::bytes_eq(&commit(&eph_a, &nonce_a), commit_a) {
                return Err(Refusal {
                    frame: Some(error_frame("commit", String::from_str("commitment mismatch"))),
                    error: AppError::Crypto,
                });
            }
            let my_pk = identity.public_key();
            let transcript = pairing_transcript(peer_pk, &eph_a, &nonce_a, &my_pk, &offer.public, &offer.nonce);
            if verify(peer_pk, transcript.as_slice(), &sig_a).is_err() {
                return Err(Refusal {
                    frame: Some(error_frame("signature", String::from_str("bad signature"))),
                    error: AppError::Crypto,
                });
            }
            let sig_b = identity.sign(transcript.as_slice());
            let reply = Wire::PairSig { sig: b64e(&sig_b) };
            let shared = x25519_diffie_hellman(&offer.secret, &eph_a);
            let material = derive_pairing(&shared, transcript.as_slice());
            Ok(ResponderDone { eph_a, nonce_a, transcript, material, reply })
        },
        Wire::Error { code, msg } => Err(Refusal { frame: None, error: peer_error(&code, &msg) }),
        other => Err(Refusal { frame: None, error: unexpected("PairReveal", &other) }),
    }
}

/// An undisturbed handshake ends with the same pairing key and the same SAS
/// on both sides: when each side received exactly the keys and nonces the
/// other sent, both transcripts are equal and both shared secrets agree.
pub proof fn law_handshake_agreement(
    offer_a: EphemeralOffer,
    offer_b: EphemeralOffer,
    pk_a: Seq<u8>,
    pk_b: Seq<u8>,
    transcript_a: Seq<u8>,
    transcript_b: Seq<u8>,
    eph_b_seen_by_a: Seq<u8>,
    nonce_b_seen_by_a: Seq<u8>,
    eph_a_seen_by_b: Seq<u8>,
    nonce_a_seen_by_b: Seq<u8>,
)
    requires
        offer_a.wf(),
        offer_b.wf(),
        eph_b_seen_by_a == offer_b.public@,
        nonce_b_seen_by_a == offer_b.nonce@,
        eph_a_seen_by_b == offer_a.public@,
        nonce_a_seen_by_b == offer_a.nonce@,
        transcript_a == spec_pairing_transcript(pk_a, offer_a.public@, offer_a.nonce@, pk_b, eph_b_seen_by_a, nonce_b_seen_by_a),
        transcript_b == spec_pairing_transcript(pk_a, eph_a_seen_by_b, nonce_a_seen_by_b, pk_b, offer_b.public@, offer_b.nonce@),
    ensures
        transcript_a == transcript_b,
        spec_pairing_key(x25519_shared(offer_a.secret@, eph_b_seen_by_a), transcript_a)
            == spec_pairing_key(x25519_shared(offer_b.secret@, eph_a_seen_by_b), transcript_b),
        spec_sas(x25519_shared(offer_a.secret@, eph_b_seen_by_a), transcript_a)
            == spec_sas(x25519_shared(offer_b.secret@, eph_a_seen_by_b), transcript_b),
{
    assert(offer_a.secret@.len() == 32);
    assert(x25519_shared(offer_a.secret@, offer_b.public@) == x25519_shared(offer_b.secret@, x25519_public(offer_a.secret@)));
}

/// The confirmation phase: each user's decision, as it becomes known. Each
/// side sends its encrypted `PairAck` as soon as its user decides, and waits
/// for the other side's.
pub struct ConfirmPhase {
    pub local: Option<bool>,
    pub remote: Option<bool>,
}

impl ConfirmPhase {
    /// Nobody has decided yet.
    pub fn new() -> (c: ConfirmPhase)
        ensures
            c.local is None && c.remote is None,
    {
        ConfirmPhase { local: None, remote: None }
    }

    /// The pairing completes once both decided; it succeeds only when both accepted.
    pub fn outcome(&self) -> (r: Option<Result<(), AppError>>)
        ensures
            match r {
                Some(Ok(())) => self.local == Some(true) && self.remote == Some(true),
                Some(Err(e)) => self.local is Some && self.remote is Some
                    && !(self.local == Some(true) && self.remote == Some(true)) && e is PairingRejected,
                None => self.local is None || self.remote is None,
            },
    {
        match (self.local, self.remote) {
            (Some(l), Some(r)) => if l && r {
                Some(Ok(()))
            } else {
                Some(Err(AppError::PairingRejected))
            },
            _ => None,
        }
    }

    /// The local user decided (`None`: the decision channel closed, which
    /// counts as declining). Returns the decision to send to the peer as a
    /// `PairAck`, and the end of the phase when the user declined.
    pub fn on_local(&mut self, decision: Option<bool>) -> (r: (bool, Option<Result<(), AppError>>))
        requires
            old(self).local is None,
        ensures
            r.0 == (decision == Some(true)),
            final(self).local == Some(r.0),
            final(self).remote == old(self).remote,
            match r.1 {
                Some(Err(e)) => !r.0 && e is PairingRejected,
                Some(Ok(())) => false,
                None => r.0,
            },
    {
        let accepted = match decision {
            Some(b) => b,
            None => false,
        };
        self.local = Some(accepted);
        if !accepted {
            return (accepted, Some(Err(AppError::PairingRejected)));
        }
        (accepted, None)
    }

    /// The peer's decrypted payload arrived: its `PairAck`, or anything else,
    /// which ends the phase with a protocol error.
    pub fn on_remote(&mut self, plain: Plain) -> (r: Option<Result<(), AppError>>)
        requires
            old(self).remote is None,
        ensures
            final(self).local == old(self).local,
            match plain {
                Plain::PairAck { accepted } => final(self).remote == Some(accepted) && if accepted {
                    r is None
                } else {
                    r matches Some(Err(e)) && e is PairingRejected
                },
                _ => final(self).remote is None && (r matches Some(Err(e)) && e is Protocol),
            },
    {
        match plain {
            Plain::PairAck { accepted } => {
                self.remote = Some(accepted);
                if !accepted {
                    return Some(Err(AppError::PairingRejected));
                }
                None
            },
            other => {
                let mut m = String::from_str("expected PairAck, got ");
                m.append(plain_debug(&other).as_str());
                Some(Err(AppError::Protocol(m)))
            },
        }
    }
}

#[verifier::external_type_specification]
#[verifier::external_body]
#[verifier::reject_recursive_types(T)]
pub struct ExSender<T>(tokio::sync::mpsc::Sender<T>);

/// A user's decision on a pairing in progress, addressed to the channel of
/// the flow waiting for it.
pub struct Decision<'a> {
    pub confirm_tx: &'a tokio::sync::mpsc::Sender<bool>,
    pub accepted: bool,
}

/// Offers a decision to the pairing flow waiting for it.
///
/// Calls `tokio::sync::mpsc::Sender::try_send` on the decision's channel with
/// its `accepted` value; whether it is taken depends on the channel (full,
/// or its receiver gone), so nothing is claimed of the outcome.
#[verifier::external_body]
fn offer_decision(d: Decision) -> bool {
    d.confirm_tx.try_send(d.accepted).is_ok()
}

/// A pairing in progress, as the UI sees it.
pub struct PairingHandle {
    pub peer_name: String,
    pub code: Option<String>,
    pub confirm_tx: tokio::sync::mpsc::Sender<bool>,
}

/// Registers a new pairing under `key`, unless one is already running there.
pub fn register_pairing(pairings: &mut Registry<PairingHandle>, key: String, handle: PairingHandle) -> (r: Result<(), AppError>)
    requires
        old(pairings).wf(),
    ensures
        final(pairings).wf(),
        match r {
            Ok(()) => !old(pairings)@.dom().contains(key@) && final(pairings)@ == old(pairings)@.insert(key@, handle),
            Err(e) => old(pairings)@.dom().contains(key@) && final(pairings)@ == old(pairings)@
                && e.is_msg("A pairing with this device is already in progress"@),
        },
{
    if pairings.contains_key(key.as_str()) {
        return Err(AppError::msg("A pairing with this device is already in progress"));
    }
    pairings.insert(key, handle);
    Ok(())
}

/// Responder: registers the pairing a valid request opened, unless one with
/// that device is already running; then the peer is told it is busy.
pub fn admit_request(pairings: &mut Registry<PairingHandle>, peer_id: String, handle: PairingHandle) -> (r: Result<(), Refusal>)
    requires
        old(pairings).wf(),
    ensures
        final(pairings).wf(),
        match r {
            Ok(()) => !old(pairings)@.dom().contains(peer_id@) && final(pairings)@ == old(pairings)@.insert(peer_id@, handle),
            Err(f) => old(pairings)@.dom().contains(peer_id@) && final(pairings)@ == old(pairings)@
                && is_error_frame(f.frame, "busy"@, "pairing already in progress"@)
                && f.error.is_msg("pairing already in progress"@),
        },
{
    if pairings.contains_key(peer_id.as_str()) {
        proof {
            reveal_strlit("pairing already in progress");
        }
        return Err(Refusal {
            frame: Some(error_frame("busy", String::from_str("pairing already in progress"))),
            error: AppError::msg("pairing already in progress"),
        });
    }
    pairings.insert(peer_id, handle);
    Ok(())
}

/// Moves an in-flight pairing handle from a provisional key (typed address)
/// to the peer's real device id, so `confirm` finds it under the id the UI
/// has. Refuses to clobber another pairing already running under that id.
pub fn rekey(pairings: &mut Registry<PairingHandle>, from: &str, to: &str) -> (r: Result<(), AppError>)
    requires
        old(pairings).wf(),
    ensures
        final(pairings).wf(),
        match r {
            Ok(()) => !old(pairings)@.dom().contains(to@) && final(pairings)@ == if old(pairings)@.dom().contains(from@) {
                old(pairings)@.remove(from@).insert(to@, old(pairings)@[from@])
            } else {
                old(pairings)@
            },
            Err(e) => old(pairings)@.dom().contains(to@) && final(pairings)@ == old(pairings)@
                && e.is_msg("A pairing with this device is already in progress"@),
        },
{
    if pairings.contains_key(to) {
        return Err(AppError::msg("A pairing with this device is already in progress"));
    }
    match pairings.remove(from) {
        Some(handle) => pairings.insert(String::from_str(to), handle),
        None => {},
    }
    Ok(())
}

/// The decision to pass on to the pairing with `device_id`: `accepted`,
/// addressed to the channel of that pairing's handle.
pub fn decision_for<'a>(pairings: &'a Registry<PairingHandle>, device_id: &str, accepted: bool) -> (r: Result<Decision<'a>, AppError>)
    requires
        pairings.wf(),
    ensures
        match r {
            Ok(d) => pairings@.dom().contains(device_id@)
                && *d.confirm_tx == pairings@[device_id@].confirm_tx
                && d.accepted == accepted,
            Err(e) => !pairings@.dom().contains(device_id@) && e.is_msg("No pairing in progress with this device"@),
        },
{
    match pairings.get(device_id) {
        Some(h) => Ok(Decision { confirm_tx: &h.confirm_tx, accepted }),
        None => Err(AppError::msg("No pairing in progress with this device")),
    }
}

/// Passes the user's decision to the pairing with `device_id` (called from
/// the UI once the codes were compared, or to cancel): the decision of
/// [`decision_for`] is offered to the pairing's channel.
pub fn confirm(pairings: &Registry<PairingHandle>, device_id: &str, accepted: bool) -> (r: Result<(), AppError>)
    requires
        pairings.wf(),
    ensures
        match r {
            Ok(()) => pairings@.dom().contains(device_id@),
            Err(e) => if pairings@.dom().contains(device_id@) {
                e.is_msg("Pairing already confirmed"@)
            } else {
                e.is_msg("No pairing in progress with this device"@)
            },
        },
{
    let d = decision_for(pairings, device_id, accepted)?;
    if offer_decision(d) {
        Ok(())
    } else {
        Err(AppError::msg("Pairing already confirmed"))
    }
}

/// Once the key material is derived: with a verified QR token both
/// identities are proven, so this side confirms on its own; otherwise the
/// code is published for the user to compare (its handle records the code
/// and the peer's name).
pub fn settle(
    pairings: &mut Registry<PairingHandle>,
    device_id: &str,
    peer_name: &str,
    sas: &str,
    verified_by_qr: bool,
) -> (r: Result<(), AppError>)
    requires
        old(pairings).wf(),
    ensures
        final(pairings).wf(),
        verified_by_qr ==> final(pairings)@ == old(pairings)@
            && (!old(pairings)@.dom().contains(device_id@) ==> (r matches Err(e) && e.is_msg("No pairing in progress with this device"@))),
        !verified_by_qr ==> r is Ok && final(pairings)@.dom() == old(pairings)@.dom() && (old(pairings)@.dom().contains(device_id@) ==> {
            let h = final(pairings)@[device_id@];
            &&& h.code matches Some(c) && c@ == sas@
            &&& h.peer_name@ == peer_name@
            &&& h.confirm_tx == old(pairings)@[device_id@].confirm_tx
        }),
        !verified_by_qr && !old(pairings)@.dom().contains(device_id@) ==> final(pairings)@ == old(pairings)@,
{
    if verified_by_qr {
        confirm(pairings, device_id, true)
    } else {
        publish_code(pairings, device_id, peer_name, sas);
        Ok(())
    }
}

/// Whether the initiator's pairing is proven by a QR token, so that no code
/// is compared: only when it presented a token and the responder accepted
/// it (a `token_ok` it did not ask for is not trusted).
pub fn initiator_verified_by_qr(presented_token: bool, pending: &InitiatorPending) -> (b: bool)
    ensures
        b == (presented_token && pending.token_ok),
{
    presented_token && pending.token_ok
}

/// The pairing the initiator saves once both users accepted: the
/// responder's id, name and identity key as checked on its answer, the
/// derived pairing key, when and where the responder was reached, and the
/// pairing method (QR only when its token was presented and accepted).
pub fn initiator_record(
    pending: &InitiatorPending,
    material: &PairingMaterial,
    presented_token: bool,
    intent: PairedVia,
    addr: SockAddr,
    now_ms: i64,
) -> (r: PeerRecord)
    ensures
        r.device_id@ == pending.peer_id@,
        r.name@ == pending.peer_name@,
        r.id_pk == pending.peer_pk,
        r.pairing_key == material.pairing_key,
        r.paired_at == now_ms,
        r.last_seen_addr == Some(addr),
        r.via == spec_paired_via(intent, presented_token && pending.token_ok),
{
    let verified = initiator_verified_by_qr(presented_token, pending);
    PeerRecord {
        device_id: pending.peer_id.clone(),
        name: pending.peer_name.clone(),
        id_pk: pending.peer_pk,
        pairing_key: material.pairing_key,
        paired_at: now_ms,
        last_seen_addr: Some(addr),
        via: paired_via(intent, verified),
    }
}

/// The pairing the responder saves once both users accepted: the
/// initiator's id, name and identity key from its checked request, the
/// derived pairing key, when it was paired and where the initiator listens,
/// and the pairing method it announced (by address when it announced none),
/// QR only when its token was valid here.
pub fn responder_record(
    info: &PairRequestInfo,
    material: &PairingMaterial,
    token_ok: bool,
    addr: SockAddr,
    now_ms: i64,
) -> (r: PeerRecord)
    ensures
        r.device_id@ == info.peer_id@,
        r.name@ == info.peer_name@,
        r.id_pk == info.peer_pk,
        r.pairing_key == material.pairing_key,
        r.paired_at == now_ms,
        r.last_seen_addr == Some(addr),
        r.via == spec_paired_via(
            match info.via { Some(v) => v, None => PairedVia::Address },
            token_ok,
        ),
{
    let intent = match info.via {
        Some(v) => v,
        None => PairedVia::default(),
    };
    PeerRecord {
        device_id: info.peer_id.clone(),
        name: info.peer_name.clone(),
        id_pk: info.peer_pk,
        pairing_key: material.pairing_key,
        paired_at: now_ms,
        last_seen_addr: Some(addr),
        via: paired_via(intent, token_ok),
    }
}

/// Records the code and the peer's name on the pairing's handle.
fn publish_code(pairings: &mut Registry<PairingHandle>, device_id: &str, peer_name: &str, code: &str)
    requires
        old(pairings).wf(),
    ensures
        final(pairings).wf(),
        final(pairings)@.dom() == old(pairings)@.dom(),
        old(pairings)@.dom().contains(device_id@) ==> {
            let h = final(pairings)@[device_id@];
            &&& h.code matches Some(c) && c@ == code@
            &&& h.peer_name@ == peer_name@
            &&& h.confirm_tx == old(pairings)@[device_id@].confirm_tx
        },
        !old(pairings)@.dom().contains(device_id@) ==> final(pairings)@ == old(pairings)@,
{
    match pairings.remove(device_id) {
        Some(h) => {
            let updated = PairingHandle {
                peer_name: String::from_str(peer_name),
                code: Some(String::from_str(code)),
                confirm_tx: h.confirm_tx,
            };
            pairings.insert(String::from_str(device_id), updated);
            assert(final(pairings)@.dom() =~= old(pairings)@.dom());
        },
        None => {},
    }
}

/// "ip:port" for an IPv4 address.
pub open spec fn addr_entry(ip: u32, port: u16) -> Seq<char> {
    dotted(ip) + seq![':'] + decimal(port as nat)
}

/// The addresses joined by commas, each with the port.
pub open spec fn addr_list(ips: Seq<u32>, port: u16) -> Seq<char>
    decreases ips.len(),
{
    if ips.len() == 0 {
        Seq::empty()
    } else if ips.len() == 1 {
        addr_entry(ips[0], port)
    } else {
        addr_list(ips.drop_last(), port) + seq![','] + addr_entry(ips.last(), port)
    }
}

/// The text of a pairing QR code: our addresses with the listening port,
/// our id, our public key in hex and the one-time token.
pub open spec fn spec_qr_payload(ips: Seq<u32>, port: u16, device_id: Seq<char>, pk_hex: Seq<char>, token: Seq<char>) -> Seq<char> {
    QR_PREFIX@ + "a="@ + addr_list(ips, port) + "&id="@ + device_id + "&pk="@ + pk_hex + "&t="@ + token
}

/// Appends "ip:port".
fn push_addr_entry(s: &mut String, ip: u32, port: u16)
    ensures
        final(s)@ == old(s)@ + addr_entry(ip, port),
{
    push_dotted(s, ip);
    s.push(':');
    push_decimal(s, port as u64);
    assert(final(s)@ =~= old(s)@ + addr_entry(ip, port));
}

/// The text of a pairing QR code.
pub fn qr_payload(ips: &Vec<u32>, port: u16, device_id: &str, pk_hex: &str, token: &str) -> (p: String)
    ensures
        p@ == spec_qr_payload(ips@, port, device_id@, pk_hex@, token@),
{
    let mut s = String::from_str(QR_PREFIX);
    s.append("a=");
    let ghost base = s@;
    let n = ips.len();
    let mut i: usize = 0;
    while i < n
        invariant
            n == ips@.len(),
            i <= n,
            s@ == base + addr_list(ips@.take(i as int), port),
        decreases n - i,
    {
        let ghost before = s@;
        if i > 0 {
            s.push(',');
        }
        push_addr_entry(&mut s, ips[i], port);
        i = i + 1;
        proof {
            let t = ips@.take(i as int);
            assert(t.drop_last() =~= ips@.take(i - 1));
            assert(t.last() == ips@[i - 1]);
            if i == 1 {
                assert(ips@.take(0) =~= Seq::<u32>::empty());
                assert(before =~= base);
            }
            assert(s@ =~= base + addr_list(t, port));
        }
    }
    assert(ips@.take(n as int) =~= ips@);
    s.append("&id=");
    s.append(device_id);
    s.append("&pk=");
    s.append(pk_hex);
    s.append("&t=");
    s.append(token);
    s
}

/// The SVG picture of the QR code holding `payload` (at least 240 by 240,
/// black on white), or the reason no code can hold it.
pub uninterp spec fn qr_svg(payload: Seq<char>) -> Result<Seq<char>, Seq<char>>;

/// Renders a QR code as SVG.
///
/// Calls `qrcode::QrCode::new` on the UTF-8 bytes of `payload`, then renders
/// it with the SVG renderer at a minimum of 240 by 240, dark `#000000` on
/// light `#ffffff`. The result is the named [`qr_svg`]; a `QrError` becomes
/// its message.
#[verifier::external_body]
fn render_qr_svg(payload: &str) -> (r: Result<String, String>)
    ensures
        match r {
            Ok(svg) => qr_svg(payload@) == Ok::<Seq<char>, Seq<char>>(svg@),
            Err(e) => qr_svg(payload@) == Err::<Seq<char>, Seq<char>>(e@),
        },
{
    match qrcode::QrCode::new(payload.as_bytes()) {
        Ok(code) => Ok(code.render::<qrcode::render::svg::Color>()
            .min_dimensions(240, 240)
            .dark_color(qrcode::render::svg::Color("#000000"))
            .light_color(qrcode::render::svg::Color("#ffffff"))
            .build()),
        Err(e) => Err(e.to_string()),
    }
}

/// A pairing QR code as the desktop shows it, and how long it stays valid.
#[derive(Debug)]
pub struct PairQr {
    pub svg: String,
    pub ttl_ms: u64,
}

/// What [`qr_offer`] returns for a payload: the picture of its code, or the
/// renderer's complaint; no address at all is refused first.
pub open spec fn qr_offer_result(ips: Seq<u32>, payload: Seq<char>, r: Result<PairQr, AppError>) -> bool {
    if ips.len() == 0 {
        r matches Err(e) && e.is_msg("No network address found. Connect to Wi-Fi first."@)
    } else {
        match qr_svg(payload) {
            Ok(svg) => r matches Ok(q) && q.svg@ == svg && q.ttl_ms == QR_TOKEN_TTL_MS,
            Err(m) => r matches Err(e) && e.is_msg("QR code: "@ + m),
        }
    }
}

/// The QR code offering a pairing with `identity` at `ips` and `port`,
/// secured by `token`.
pub fn qr_offer(ips: &Vec<u32>, port: u16, identity: &Identity, token: &str) -> (r: Result<PairQr, AppError>)
    ensures
        qr_offer_result(ips@, spec_qr_payload(ips@, port, identity.id(), hex_lower(ed25519_public(identity.seed())), token@), r),
{
    if ips.len() == 0 {
        return Err(AppError::msg("No network address found. Connect to Wi-Fi first."));
    }
    let pk_hex = hex_encode(&identity.public_key());
    let payload = qr_payload(ips, port, identity.device_id().as_str(), pk_hex.as_str(), token);
    match render_qr_svg(payload.as_str()) {
        Ok(svg) => Ok(PairQr { svg, ttl_ms: QR_TOKEN_TTL_MS }),
        Err(m) => {
            let mut msg = String::from_str("QR code: ");
            msg.append(m.as_str());
            Err(AppError::Msg(msg))
        },
    }
}

/// Desktop side of QR pairing: a fresh one-time token of 16 random bytes in
/// hex, created at `now_ms`, and the code offering it. The token is returned
/// to be kept until it is presented. Without an address, or when the system
/// has no randomness, no code is made.
pub fn create_qr(ips: &Vec<u32>, port: u16, identity: &Identity, now_ms: u64) -> (r: Result<(PairQr, PairToken), AppError>)
    ensures
        ips@.len() == 0 ==> (r matches Err(e) && e.is_msg("No network address found. Connect to Wi-Fi first."@)),
        (ips@.len() > 0 && (r matches Err(e) && no_randomness(e)))
        || exists|t: Seq<u8>| #![trigger hex_lower(t)] t.len() == 16 && match r {
            Ok((q, tok)) => tok.value@ == hex_lower(t) && tok.created_ms == now_ms
                && qr_offer_result(ips@, spec_qr_payload(ips@, port, identity.id(), hex_lower(ed25519_public(identity.seed())), hex_lower(t)), Ok(q)),
            Err(e) => qr_offer_result(ips@, spec_qr_payload(ips@, port, identity.id(), hex_lower(ed25519_public(identity.seed())), hex_lower(t)), Err(e)),
        },
{
    if ips.len() == 0 {
        proof {
            let t = Seq::new(16, |i: int| 0u8);
            assert(t.len() == 16 && hex_lower(t) == hex_lower(t));
        }
        return Err(AppError::msg("No network address found. Connect to Wi-Fi first."));
    }
    let t: [u8; 16] = fresh_bytes()?;
    let token = hex_encode(&t);
    match qr_offer(ips, port, identity, token.as_str()) {
        Ok(q) => Ok((q, PairToken { value: token, created_ms: now_ms })),
        Err(e) => Err(e),
    }
}

/// A device to pair with through discovery: where to reach it and the name
/// it announced ("Unknown device" when it is not in the discovered table).
pub fn start_target(
    peers: &Registry<PeerRecord>,
    discovered: &Registry<DiscoveredDevice>,
    device_id: &str,
    now_ms: u64,
) -> (r: Result<(SockAddr, String), AppError>)
    requires
        peers.wf(),
        discovered.wf(),
    ensures
        match spec_resolve_peer_addr(peers@, discovered@, device_id@, now_ms) {
            None => r matches Err(e) && e is DeviceUnavailable,
            Some(a) => r matches Ok((addr, name)) && addr == a && name@ == (
                if discovered@.dom().contains(device_id@) { discovered@[device_id@].name@ } else { "Unknown device"@ }),
        },
{
    let addr = match resolve_peer_addr(peers, discovered, device_id, now_ms) {
        Some(a) => a,
        None => return Err(AppError::DeviceUnavailable),
    };
    let name = match discovered.get(device_id) {
        Some(d) => d.name.clone(),
        None => String::from_str("Unknown device"),
    };
    Ok((addr, name))
}

/// A character of an address entry: a digit, a dot or a colon.
pub open spec fn addr_char(c: char) -> bool {
    ('0' <= c && c <= '9') || c == '.' || c == ':'
}

/// Every character of `s` is one of an address entry.
pub open spec fn addr_chars(s: Seq<char>) -> bool {
    forall|k: int| 0 <= k < s.len() ==> addr_char(#[trigger] s[k])
}

/// Address characters stay so when joined.
proof fn lemma_addr_chars_join(a: Seq<char>, b: Seq<char>)
    requires
        addr_chars(a),
        addr_chars(b),
    ensures
        addr_chars(a + b),
{
    assert forall|k: int| 0 <= k < (a + b).len() implies addr_char(#[trigger] (a + b)[k]) by {
        if k < a.len() {
            assert((a + b)[k] == a[k]);
        } else {
            assert((a + b)[k] == b[k - a.len()]);
        }
    }
}

/// Decimal text is made of address characters.
proof fn lemma_decimal_addr_chars(n: nat)
    ensures
        addr_chars(decimal(n)),
{
    lemma_decimal_digits(n);
}

/// An address entry holds only digits, dots and a colon.
proof fn lemma_addr_entry_chars(ip: u32, port: u16)
    ensures
        addr_chars(addr_entry(ip, port)),
{
    let dot = seq!['.'];
    let colon = seq![':'];
    assert(addr_chars(dot));
    assert(addr_chars(colon));
    lemma_decimal_addr_chars((ip / 0x100_0000) as nat);
    lemma_decimal_addr_chars(((ip / 0x1_0000) % 256) as nat);
    lemma_decimal_addr_chars(((ip / 0x100) % 256) as nat);
    lemma_decimal_addr_chars((ip % 256) as nat);
    lemma_decimal_addr_chars(port as nat);
    let d1 = decimal((ip / 0x100_0000) as nat);
    let d2 = decimal(((ip / 0x1_0000) % 256) as nat);
    let d3 = decimal(((ip / 0x100) % 256) as nat);
    let d4 = decimal((ip % 256) as nat);
    lemma_addr_chars_join(d1, dot);
    lemma_addr_chars_join(d1 + dot, d2);
    lemma_addr_chars_join(d1 + dot + d2, dot);
    lemma_addr_chars_join(d1 + dot + d2 + dot, d3);
    lemma_addr_chars_join(d1 + dot + d2 + dot + d3, dot);
    lemma_addr_chars_join(d1 + dot + d2 + dot + d3 + dot, d4);
    lemma_addr_chars_join(dotted(ip), colon);
    lemma_addr_chars_join(dotted(ip) + colon, decimal(port as nat));
}

/// The entries of a non-empty address list, split at the commas.
proof fn lemma_addr_list_split(ips: Seq<u32>, port: u16)
    requires
        ips.len() >= 1,
    ensures
        split_on(addr_list(ips, port), ',') == Seq::new(ips.len(), |i: int| addr_entry(ips[i], port)),
        free_of(addr_list(ips, port), '&'),
    decreases ips.len(),
{
    lemma_addr_entry_chars(ips.last(), port);
    let last = addr_entry(ips.last(), port);
    assert(free_of(last, ','));
    assert(free_of(last, '&'));
    if ips.len() == 1 {
        lemma_split_on_whole(last, ',');
        assert(split_on(addr_list(ips, port), ',') =~= Seq::new(ips.len(), |i: int| addr_entry(ips[i], port)));
    } else {
        let front = ips.drop_last();
        lemma_addr_list_split(front, port);
        lemma_split_on_join(addr_list(front, port), last, ',');
        lemma_split_on_whole(last, ',');
        assert(split_on(addr_list(ips, port), ',') =~= Seq::new(ips.len(), |i: int| addr_entry(ips[i], port)));
        let whole = addr_list(ips, port);
        let fl = addr_list(front, port);
        assert forall|k: int| 0 <= k < whole.len() implies #[trigger] whole[k] != '&' by {
            if k < fl.len() {
                assert(whole[k] == fl[k]);
            } else if k > fl.len() {
                assert(whole[k] == last[k - fl.len() - 1]);
            }
        }
    }
}

/// Hex text holds no `&`.
proof fn lemma_hex_free(b: Seq<u8>)
    ensures
        free_of(hex_lower(b), '&'),
{
    lemma_hex_lower_digits(b);
    assert forall|k: int| 0 <= k < hex_lower(b).len() implies #[trigger] hex_lower(b)[k] != '&' by {
        assert(is_hex_digit(hex_lower(b)[k]));
    }
}

/// `key=value` with a value free of `&` is free of `&` when the key is.
proof fn lemma_item_free(key: Seq<char>, v: Seq<char>)
    requires
        free_of(key, '&'),
        free_of(v, '&'),
    ensures
        free_of(key + seq!['='] + v, '&'),
{
    let s = key + seq!['='] + v;
    assert forall|k: int| 0 <= k < s.len() implies #[trigger] s[k] != '&' by {
        if k < key.len() {
            assert(s[k] == key[k]);
        } else if k > key.len() {
            assert(s[k] == v[k - key.len() - 1]);
        }
    }
}

/// When every entry is a socket address, those are the usable addresses,
/// in order.
proof fn lemma_parsed_all(parsed: Seq<Option<SockAddr>>, addrs: Seq<SockAddr>)
    requires
        parsed.len() == addrs.len(),
        forall|i: int| 0 <= i < parsed.len() ==> #[trigger] parsed[i] == Some(addrs[i]),
    ensures
        parsed_addrs(parsed) == addrs,
    decreases parsed.len(),
{
    if parsed.len() > 0 {
        lemma_parsed_all(parsed.drop_last(), addrs.drop_last());
        assert(parsed.last() == Some(addrs.last()));
        assert(addrs.drop_last().push(addrs.last()) =~= addrs);
    } else {
        assert(addrs =~= Seq::<SockAddr>::empty());
    }
}

/// The fields a QR code this device shows reads back as.
proof fn lemma_qr_fields_roundtrip(ips: Seq<u32>, port: u16, id: Seq<char>, pk: Seq<u8>, token: Seq<u8>)
    requires
        pk.len() == 32,
        id == spec_device_id(pk),
        ips.len() > 0,
    ensures
        qr_has_scheme(spec_qr_payload(ips, port, id, hex_lower(pk), hex_lower(token))),
        qr_fields(spec_qr_payload(ips, port, id, hex_lower(pk), hex_lower(token))).id == Some(id),
        qr_fields(spec_qr_payload(ips, port, id, hex_lower(pk), hex_lower(token))).pk == Some(pk),
        qr_fields(spec_qr_payload(ips, port, id, hex_lower(pk), hex_lower(token))).token == Some(hex_lower(token)),
        qr_fields(spec_qr_payload(ips, port, id, hex_lower(pk), hex_lower(token))).addrs
            == Seq::new(ips.len(), |i: int| addr_entry(ips[i], port)),
{
    reveal_strlit("a=");
    reveal_strlit("&id=");
    reveal_strlit("&pk=");
    reveal_strlit("&t=");
    reveal_strlit("a");
    reveal_strlit("id");
    reveal_strlit("pk");
    reveal_strlit("t");
    let pkh = hex_lower(pk);
    let tok = hex_lower(token);
    let list = addr_list(ips, port);
    let payload = spec_qr_payload(ips, port, id, pkh, tok);
    let p = QR_PREFIX@;
    let x1 = "a"@ + seq!['='] + list;
    let x2 = "id"@ + seq!['='] + id;
    let x3 = "pk"@ + seq!['='] + pkh;
    let x4 = "t"@ + seq!['='] + tok;
    let amp = seq!['&'];
    let query = payload.subrange(p.len() as int, payload.len() as int);
    assert(payload.subrange(0, p.len() as int) =~= p);
    assert(query =~= ((x1 + amp + x2) + amp + x3) + amp + x4);

    // No item holds a `&`.
    lemma_addr_list_split(ips, port);
    lemma_hex_free(sha256_digest(pk).subrange(0, 16));
    lemma_hex_free(pk);
    lemma_hex_free(token);
    assert(free_of("a"@, '&'));
    assert(free_of("id"@, '&'));
    assert(free_of("pk"@, '&'));
    assert(free_of("t"@, '&'));
    lemma_item_free("a"@, list);
    lemma_item_free("id"@, id);
    lemma_item_free("pk"@, pkh);
    lemma_item_free("t"@, tok);

    // The query splits into its four items.
    lemma_split_on_join(x1 + amp + x2 + amp + x3, x4, '&');
    lemma_split_on_join(x1 + amp + x2, x3, '&');
    lemma_split_on_join(x1, x2, '&');
    lemma_split_on_whole(x1, '&');
    lemma_split_on_whole(x2, '&');
    lemma_split_on_whole(x3, '&');
    lemma_split_on_whole(x4, '&');
    let items = seq![x1, x2, x3, x4];
    assert(split_on(query, '&') =~= items);

    // Each item sets its field.
    assert(free_of("a"@, '='));
    assert(free_of("id"@, '='));
    assert(free_of("pk"@, '='));
    assert(free_of("t"@, '='));
    lemma_split_once_at("a"@, list, '=');
    lemma_split_once_at("id"@, id, '=');
    lemma_split_once_at("pk"@, pkh, '=');
    lemma_split_once_at("t"@, tok, '=');
    lemma_hex_roundtrip(pk);
    assert(items.drop_last() =~= seq![x1, x2, x3]);
    assert(seq![x1, x2, x3].drop_last() =~= seq![x1, x2]);
    assert(seq![x1, x2].drop_last() =~= seq![x1]);
    assert(seq![x1].drop_last() =~= Seq::<Seq<char>>::empty());
    reveal_with_fuel(scan_fields, 5);
    let f0 = QrFields { addrs: Seq::empty(), id: None, pk: None, token: None };
    assert(scan_fields(seq![x1]) == apply_field(f0, x1));
    assert("id"@ != "a"@);
    assert("pk"@ != "a"@ && "pk"@ != "id"@);
    assert("t"@ != "a"@ && "t"@ != "id"@ && "t"@ != "pk"@);
    lemma_split_on_nonempty(list, ',');
}

/// A QR code this device shows reads back, on the scanning side, as this
/// device: its address entries are "ip:port" for each of its addresses and,
/// when each entry reads as that socket address, the code is accepted and
/// gives those addresses, its id, its key and the token.
pub proof fn law_qr_roundtrip(ips: Seq<u32>, port: u16, id: Seq<char>, pk: Seq<u8>, token: Seq<u8>, parsed: Seq<Option<SockAddr>>)
    requires
        pk.len() == 32,
        id == spec_device_id(pk),
        ips.len() > 0,
        parsed.len() == ips.len(),
        forall|i: int| 0 <= i < ips.len() ==> #[trigger] parsed[i] == Some(SockAddr { ip: IpAddress::V4(ips[i]), port }),
    ensures
        qr_entries(spec_qr_payload(ips, port, id, hex_lower(pk), hex_lower(token)))
            == Seq::new(ips.len(), |i: int| addr_entry(ips[i], port)),
        qr_accepts(spec_qr_payload(ips, port, id, hex_lower(pk), hex_lower(token)), parsed),
        parsed_addrs(parsed) == Seq::new(ips.len(), |i: int| SockAddr { ip: IpAddress::V4(ips[i]), port }),
        qr_fields(spec_qr_payload(ips, port, id, hex_lower(pk), hex_lower(token))).id == Some(id),
        qr_fields(spec_qr_payload(ips, port, id, hex_lower(pk), hex_lower(token))).pk == Some(pk),
        qr_fields(spec_qr_payload(ips, port, id, hex_lower(pk), hex_lower(token))).token == Some(hex_lower(token)),
{
    lemma_parsed_all(parsed, Seq::new(ips.len(), |i: int| SockAddr { ip: IpAddress::V4(ips[i]), port }));
    lemma_qr_fields_roundtrip(ips, port, id, pk, token);
}

} // verus!
