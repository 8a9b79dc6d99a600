//! Wire format: `u32` big-endian length prefix + body.
//!
//! Most bodies are UTF-8 JSON of a [`Wire`] value, with binary fields (keys,
//! nonces, signatures, ciphertext) as base64 strings. File data travels in
//! sealed binary frames instead: the length has its top bit set and the body
//! is `nonce || AES-256-GCM ciphertext`. Only devices that announced
//! [`FEATURE_FILES`] ever receive one.
//!
//! The library builds and checks frame bytes; turning JSON into values and
//! moving bytes over sockets is the I/O layer's part.

use vstd::prelude::*;

use crate::bytes::{append_bytes, array_from, sub_bytes};
use crate::crypto::{aes256gcm_open, aes256gcm_seal, no_randomness, open, open_result, seal, AES_GCM_P_MAX};
use crate::error::AppError;
use crate::state::PairedVia;
use crate::text::{decimal, push_decimal};

use base64::engine::general_purpose::STANDARD as B64;
use base64::Engine;

verus! {

pub const PROTO_VERSION: u8 = 1;

pub const DEFAULT_PORT: u16 = 47821;

pub const SERVICE_TYPE: &'static str = "_nearclip._tcp.local.";

/// Largest frame body, in bytes (2 MiB).
pub const MAX_FRAME: usize = 2097152;

/// Largest clipboard text, in bytes (1 MiB).
pub const MAX_TEXT_BYTES: usize = 1048576;

/// Largest file, in bytes (100 MiB).
pub const MAX_FILE_BYTES: u64 = 104857600;

/// Raw bytes per sealed file chunk.
pub const FILE_CHUNK_BYTES: usize = 524288;

/// Announced in `SessionAck` by devices that accept `FileStart`.
pub const FEATURE_FILES: &'static str = "files";

/// Top bit of the length prefix: the body is a sealed binary frame.
pub const BINARY_FRAME: u32 = 0x8000_0000;

/// Length of the nonce at the start of a sealed frame.
pub const NONCE_LEN: usize = 12;

/// Messages exchanged in JSON frames.
#[derive(Debug, PartialEq, Clone)]
pub enum Wire {
    PairRequest {
        v: u8,
        device_id: String,
        name: String,
        id_pk: String,
        commit: String,
        /// Sender's listening port, so the responder can reach it back later
        /// (the connection's source port is ephemeral). 0 = unknown.
        port: u16,
        /// One-time token read from the responder's QR code; lets both sides
        /// confirm without comparing a code.
        token: Option<String>,
        /// How the initiator found the responder, so both sides record the
        /// same pairing method.
        via: Option<PairedVia>,
    },
    PairResponse {
        device_id: String,
        name: String,
        id_pk: String,
        eph: String,
        nonce: String,
        /// True when the responder accepted `PairRequest::token`.
        token_ok: bool,
    },
    PairReveal { eph: String, nonce: String, sig: String },
    PairSig { sig: String },
    SessionInit {
        v: u8,
        device_id: String,
        salt: String,
        /// Sender's listening port (see `PairRequest::port`).
        port: u16,
    },
    SessionAck {
        device_id: String,
        salt: String,
        /// Optional capabilities, e.g. [`FEATURE_FILES`]. Absent from older
        /// devices, which only exchange text.
        features: Vec<String>,
    },
    /// Encrypted [`Plain`] payload: `n` = base64 nonce, `c` = base64 ciphertext.
    Enc { n: String, c: String },
    Error { code: String, msg: String },
}

/// Payloads carried encrypted inside [`Wire::Enc`].
#[derive(Debug, PartialEq, Clone)]
pub enum Plain {
    Clipboard { id: String, ts: i64, sender: String, text: String },
    Ack { id: String },
    /// Announces a file to a device that listed [`FEATURE_FILES`]. The receiver
    /// answers `Ack` when ready, then gets the bytes as sealed binary frames and
    /// a `FileEnd`, which it answers with `Ack` once the file is verified and saved.
    FileStart { id: String, ts: i64, sender: String, name: String, size: u64, mime: String },
    FileEnd {
        id: String,
        /// Base64 SHA-256 of the whole file.
        sha256: String,
    },
    PairAck { accepted: bool },
    /// The sender removed this pairing; the receiver should forget it too.
    Unpair,
    Ping,
}

/// A frame read off the connection.
#[derive(Debug)]
pub enum Frame {
    Wire(Wire),
    /// Body of a sealed binary frame, still encrypted: open it with [`open_sealed`].
    Sealed(Vec<u8>),
}

/// The digit of the standard base64 alphabet for `v < 64`: `A`-`Z`, `a`-`z`,
/// `0`-`9`, `+`, `/`.
pub open spec fn b64_digit(v: int) -> char {
    if v < 26 {
        ((v + 65) as u32) as char
    } else if v < 52 {
        ((v + 71) as u32) as char
    } else if v < 62 {
        ((v - 4) as u32) as char
    } else if v == 62 {
        '+'
    } else {
        '/'
    }
}

/// The standard base64 encoding (with padding) of `bytes`: each group of
/// three bytes becomes four digits of six bits each, high bits first; a
/// last group of one or two bytes is padded with zero bits and `=`.
pub open spec fn base64_encode(bytes: Seq<u8>) -> Seq<char>
    decreases bytes.len(),
{
    if bytes.len() == 0 {
        Seq::empty()
    } else if bytes.len() == 1 {
        let b0 = bytes[0] as int;
        seq![b64_digit(b0 / 4), b64_digit((b0 % 4) * 16), '=', '=']
    } else if bytes.len() == 2 {
        let (b0, b1) = (bytes[0] as int, bytes[1] as int);
        seq![b64_digit(b0 / 4), b64_digit((b0 % 4) * 16 + b1 / 16), b64_digit((b1 % 16) * 4), '=']
    } else {
        let (b0, b1, b2) = (bytes[0] as int, bytes[1] as int, bytes[2] as int);
        seq![b64_digit(b0 / 4), b64_digit((b0 % 4) * 16 + b1 / 16), b64_digit((b1 % 16) * 4 + b2 / 64), b64_digit(b2 % 64)]
            + base64_encode(bytes.subrange(3, bytes.len() as int))
    }
}

/// The bytes whose standard base64 encoding `text` is, or `None` when `text`
/// is not the canonical encoding of any bytes (a character outside the
/// alphabet, missing or extra padding, or nonzero bits in the padded last
/// group).
pub open spec fn base64_decode(text: Seq<char>) -> Option<Seq<u8>> {
    if exists|b: Seq<u8>| #[trigger] base64_encode(b) == text {
        Some(choose|b: Seq<u8>| #[trigger] base64_encode(b) == text)
    } else {
        None
    }
}

/// The code point of the digit for `v < 64`.
pub open spec fn b64_code(v: int) -> int {
    if v < 26 {
        v + 65
    } else if v < 52 {
        v + 71
    } else if v < 62 {
        v - 4
    } else if v == 62 {
        43
    } else {
        47
    }
}

/// A digit of the alphabet is never the padding `=`, and different values
/// have different digits.
proof fn lemma_b64_digit(x: int, y: int)
    requires
        0 <= x < 64,
        0 <= y < 64,
    ensures
        b64_digit(x) != '=',
        b64_digit(x) == b64_digit(y) ==> x == y,
{
    assert(b64_digit(x) as u32 == b64_code(x));
    assert(b64_digit(y) as u32 == b64_code(y));
    assert('=' as u32 == 61);
}

/// Three bytes are determined by their four digits.
proof fn lemma_b64_group(b0: u8, b1: u8, b2: u8, c0: u8, c1: u8, c2: u8)
    requires
        b0 / 4 == c0 / 4,
        (b0 % 4) * 16 + b1 / 16 == (c0 % 4) * 16 + c1 / 16,
        (b1 % 16) * 4 + b2 / 64 == (c1 % 16) * 4 + c2 / 64,
        b2 % 64 == c2 % 64,
    ensures
        b0 == c0 && b1 == c1 && b2 == c2,
{
    assert(b0 / 4 == c0 / 4 && (b0 % 4) * 16 + b1 / 16 == (c0 % 4) * 16 + c1 / 16
        && (b1 % 16) * 4 + b2 / 64 == (c1 % 16) * 4 + c2 / 64 && b2 % 64 == c2 % 64
        ==> b0 == c0 && b1 == c1 && b2 == c2) by (bit_vector);
}

/// Every character of an encoding is a digit or `=`, and the encoding has
/// four characters per started group of three bytes.
proof fn lemma_b64_shape(b: Seq<u8>)
    ensures
        base64_encode(b).len() == 4 * ((b.len() + 2) / 3),
        forall|i: int| 0 <= i < base64_encode(b).len() ==> #[trigger] base64_encode(b)[i] != '!',
    decreases b.len(),
{
    if b.len() >= 3 {
        let rest = b.subrange(3, b.len() as int);
        lemma_b64_shape(rest);
        let (b0, b1, b2) = (b[0] as int, b[1] as int, b[2] as int);
        let head = seq![b64_digit(b0 / 4), b64_digit((b0 % 4) * 16 + b1 / 16), b64_digit((b1 % 16) * 4 + b2 / 64), b64_digit(b2 % 64)];
        assert(base64_encode(b) == head + base64_encode(rest));
        assert forall|i: int| 0 <= i < base64_encode(b).len() implies #[trigger] base64_encode(b)[i] != '!' by {
            if i < 4 {
                assert(b64_digit(b0 / 4) as u32 == b64_code(b0 / 4));
                assert(b64_digit((b0 % 4) * 16 + b1 / 16) as u32 == b64_code((b0 % 4) * 16 + b1 / 16));
                assert(b64_digit((b1 % 16) * 4 + b2 / 64) as u32 == b64_code((b1 % 16) * 4 + b2 / 64));
                assert(b64_digit(b2 % 64) as u32 == b64_code(b2 % 64));
                assert('!' as u32 == 33);
            } else {
                assert(base64_encode(b)[i] == base64_encode(rest)[i - 4]);
            }
        }
    } else if b.len() == 2 {
        let (b0, b1) = (b[0] as int, b[1] as int);
        assert(b64_digit(b0 / 4) as u32 == b64_code(b0 / 4));
        assert(b64_digit((b0 % 4) * 16 + b1 / 16) as u32 == b64_code((b0 % 4) * 16 + b1 / 16));
        assert(b64_digit((b1 % 16) * 4) as u32 == b64_code((b1 % 16) * 4));
        assert('!' as u32 == 33);
    } else if b.len() == 1 {
        let b0 = b[0] as int;
        assert(b64_digit(b0 / 4) as u32 == b64_code(b0 / 4));
        assert(b64_digit((b0 % 4) * 16) as u32 == b64_code((b0 % 4) * 16));
        assert('!' as u32 == 33);
    }
}

/// Different bytes have different encodings.
proof fn lemma_b64_injective(b: Seq<u8>, c: Seq<u8>)
    requires
        base64_encode(b) == base64_encode(c),
    ensures
        b == c,
    decreases b.len(),
{
    lemma_b64_shape(b);
    lemma_b64_shape(c);
    let e = base64_encode(b);
    if b.len() == 0 || c.len() == 0 {
        assert(b.len() == 0 && c.len() == 0);
        assert(b =~= c);
    } else {
        let (b0, c0) = (b[0] as int, c[0] as int);
        lemma_b64_digit(b0 / 4, c0 / 4);
        assert(e[0] == b64_digit(b0 / 4) && e[0] == b64_digit(c0 / 4));
        if b.len() >= 3 && c.len() >= 3 {
            let (b1, b2, c1, c2) = (b[1] as int, b[2] as int, c[1] as int, c[2] as int);
            lemma_b64_digit((b0 % 4) * 16 + b1 / 16, (c0 % 4) * 16 + c1 / 16);
            lemma_b64_digit((b1 % 16) * 4 + b2 / 64, (c1 % 16) * 4 + c2 / 64);
            lemma_b64_digit(b2 % 64, c2 % 64);
            assert(e[1] == b64_digit((b0 % 4) * 16 + b1 / 16) && e[1] == b64_digit((c0 % 4) * 16 + c1 / 16));
            assert(e[2] == b64_digit((b1 % 16) * 4 + b2 / 64) && e[2] == b64_digit((c1 % 16) * 4 + c2 / 64));
            assert(e[3] == b64_digit(b2 % 64) && e[3] == b64_digit(c2 % 64));
            lemma_b64_group(b[0], b[1], b[2], c[0], c[1], c[2]);
            let br = b.subrange(3, b.len() as int);
            let cr = c.subrange(3, c.len() as int);
            assert(base64_encode(b).subrange(4, e.len() as int) =~= base64_encode(br));
            assert(base64_encode(c).subrange(4, e.len() as int) =~= base64_encode(cr));
            lemma_b64_injective(br, cr);
            assert(b =~= seq![b[0], b[1], b[2]] + br);
            assert(c =~= seq![c[0], c[1], c[2]] + cr);
        } else if b.len() >= 3 || c.len() >= 3 {
            // One encoding ends its first group with a digit, the other with `=`.
            let (l, s) = if b.len() >= 3 { (b, c) } else { (c, b) };
            assert(e.len() == 4);
            assert(l.len() == 3);
            let (l0, l1, l2) = (l[0] as int, l[1] as int, l[2] as int);
            lemma_b64_digit(l2 % 64, 0);
            assert(base64_encode(l)[3] == b64_digit(l2 % 64));
            assert(base64_encode(s)[3] == '=');
        } else if b.len() == 2 && c.len() == 2 {
            let (b1, c1) = (b[1] as int, c[1] as int);
            lemma_b64_digit((b0 % 4) * 16 + b1 / 16, (c0 % 4) * 16 + c1 / 16);
            lemma_b64_digit((b1 % 16) * 4, (c1 % 16) * 4);
            lemma_b64_group(b[0], b[1], 0, c[0], c[1], 0);
            assert(b =~= c);
        } else if b.len() == 1 && c.len() == 1 {
            lemma_b64_digit((b0 % 4) * 16, (c0 % 4) * 16);
            lemma_b64_group(b[0], 0, 0, c[0], 0, 0);
            assert(b =~= c);
        } else {
            // One encoding has a digit third, the other `=`.
            let (l, s) = if b.len() == 2 { (b, c) } else { (c, b) };
            let l1 = l[1] as int;
            lemma_b64_digit((l1 % 16) * 4, 0);
            assert(base64_encode(l)[2] == b64_digit((l1 % 16) * 4));
            assert(base64_encode(s)[2] == '=');
        }
    }
}

/// Base64 decoding accepts exactly the canonical encodings: a text decodes
/// to `b` when, and only when, it is the encoding of `b`; so encoding then
/// decoding gives the bytes back, and a text with a character outside the
/// alphabet (such as `!`) does not decode.
pub proof fn law_base64_canonical(text: Seq<char>, b: Seq<u8>)
    ensures
        base64_decode(text) == Some(b) <==> text == base64_encode(b),
        base64_decode(base64_encode(b)) == Some(b),
        text.contains('!') ==> base64_decode(text) is None,
{
    if text == base64_encode(b) {
        let c = choose|c: Seq<u8>| #[trigger] base64_encode(c) == text;
        lemma_b64_injective(c, b);
    }
    if base64_decode(text) is Some {
        let c = choose|c: Seq<u8>| #[trigger] base64_encode(c) == text;
        lemma_b64_shape(c);
        if text.contains('!') {
            let i = choose|i: int| 0 <= i < text.len() && text[i] == '!';
            assert(base64_encode(c)[i] != '!');
        }
    }
    let c = choose|c: Seq<u8>| #[trigger] base64_encode(c) == base64_encode(b);
    assert(base64_encode(b) == base64_encode(b));
    lemma_b64_injective(c, b);
}

/// Decoding into exactly `N` bytes succeeds exactly on the canonical
/// encoding of `N` bytes, and gives them back.
pub proof fn law_b64d_array_canonical<const N: usize>(s: Seq<char>, r: Result<[u8; N], AppError>)
    requires
        b64d_array_result::<N>(s, r),
    ensures
        r matches Ok(a) ==> s == base64_encode(a@),
        (exists|b: Seq<u8>| b.len() == N && #[trigger] base64_encode(b) == s) ==> (r matches Ok(a) && s == base64_encode(a@)),
        s.contains('!') ==> (r matches Err(e) && e.is_protocol_msg("invalid base64"@)),
{
    match r {
        Ok(a) => law_base64_canonical(s, a@),
        Err(_) => {},
    }
    if exists|b: Seq<u8>| b.len() == N && #[trigger] base64_encode(b) == s {
        let b = choose|b: Seq<u8>| b.len() == N && #[trigger] base64_encode(b) == s;
        law_base64_canonical(s, b);
    }
    law_base64_canonical(s, Seq::empty());
}

/// Standard base64 (with padding).
///
/// Calls `base64::engine::general_purpose::STANDARD.encode`, which writes
/// the standard alphabet with padding, as [`base64_encode`] states. The
/// length computation cannot overflow for a slice.
#[verifier::external_body]
fn base64_encode_text(bytes: &[u8]) -> (s: String)
    ensures
        s@ == base64_encode(bytes@),
{
    B64.encode(bytes)
}

/// Standard base64 (with padding); decoding it gives the bytes back.
pub fn b64e(bytes: &[u8]) -> (s: String)
    ensures
        s@ == base64_encode(bytes@),
        base64_decode(s@) == Some(bytes@),
{
    let s = base64_encode_text(bytes);
    proof {
        law_base64_canonical(s@, bytes@);
    }
    s
}

/// Standard base64 decoding.
///
/// Calls `STANDARD.decode`, whose configuration requires canonical padding
/// and refuses nonzero trailing bits: it gives bytes back exactly for the
/// canonical encoding of those bytes, [`base64_decode`]; the decoder's error
/// becomes `None`.
#[verifier::external_body]
fn base64_decode_bytes(s: &str) -> (r: Option<Vec<u8>>)
    ensures
        match r {
            Some(b) => base64_decode(s@) == Some(b@),
            None => base64_decode(s@) is None,
        },
{
    B64.decode(s).ok()
}

/// Decodes standard base64; malformed input is a protocol error.
pub fn b64d(s: &str) -> (r: Result<Vec<u8>, AppError>)
    ensures
        match r {
            Ok(b) => base64_decode(s@) == Some(b@),
            Err(e) => base64_decode(s@) is None && e.is_protocol_msg("invalid base64"@),
        },
{
    match base64_decode_bytes(s) {
        Some(b) => Ok(b),
        None => Err(AppError::protocol("invalid base64")),
    }
}

/// The detail of the error for a decoded value of the wrong length.
pub open spec fn expected_bytes_text(n: nat) -> Seq<char> {
    "expected "@ + decimal(n) + " bytes"@
}

/// What [`b64d_array`] returns for `s`.
pub open spec fn b64d_array_result<const N: usize>(s: Seq<char>, r: Result<[u8; N], AppError>) -> bool {
    match r {
        Ok(a) => base64_decode(s) == Some(a@),
        Err(e) => match base64_decode(s) {
            None => e.is_protocol_msg("invalid base64"@),
            Some(b) => b.len() != N && e.is_protocol_msg(expected_bytes_text(N as nat)),
        },
    }
}

/// Decodes standard base64 into exactly `N` bytes.
pub fn b64d_array<const N: usize>(s: &str) -> (r: Result<[u8; N], AppError>)
    ensures
        b64d_array_result::<N>(s@, r),
{
    let v = b64d(s)?;
    if v.len() != N {
        let mut m = String::from_str("expected ");
        push_decimal(&mut m, N as u64);
        m.append(" bytes");
        return Err(AppError::Protocol(m));
    }
    let a: [u8; N] = array_from(v.as_slice(), 0);
    assert(v@.subrange(0, N as int) =~= v@);
    Ok(a)
}

/// `v` as four big-endian bytes.
pub open spec fn u32_be_bytes(v: u32) -> Seq<u8> {
    seq![(v >> 24u32) as u8, (v >> 16u32) as u8, (v >> 8u32) as u8, v as u8]
}

/// The `u32` whose big-endian bytes are `b`.
pub open spec fn u32_from_be(b: Seq<u8>) -> u32 {
    ((b[0] as u32) << 24u32) | ((b[1] as u32) << 16u32) | ((b[2] as u32) << 8u32) | (b[3] as u32)
}

/// The length prefix of a frame whose body has `len` bytes.
pub open spec fn spec_header(len: usize, sealed: bool) -> Seq<u8> {
    u32_be_bytes(if sealed { (len as u32) | BINARY_FRAME } else { len as u32 })
}

/// `v` as four big-endian bytes (`u32::to_be_bytes`).
fn be_bytes(v: u32) -> (b: [u8; 4])
    ensures
        b@ == u32_be_bytes(v),
{
    let b = [(v >> 24u32) as u8, (v >> 16u32) as u8, (v >> 8u32) as u8, v as u8];
    assert(b@ =~= u32_be_bytes(v));
    b
}

/// The length prefix of a frame whose body has `len <= MAX_FRAME` bytes.
pub fn frame_header(len: usize, sealed: bool) -> (h: [u8; 4])
    requires
        len <= MAX_FRAME,
    ensures
        h@ == spec_header(len, sealed),
{
    let v: u32 = if sealed { (len as u32) | BINARY_FRAME } else { len as u32 };
    be_bytes(v)
}

/// A frame's prefix, decoded.
#[derive(Debug)]
pub struct FrameHeader {
    /// Body length in bytes.
    pub len: usize,
    /// Whether the body is a sealed binary frame.
    pub sealed: bool,
}

/// What [`parse_frame_header`] returns for the four prefix bytes.
pub open spec fn parse_header_result(b: Seq<u8>, r: Result<FrameHeader, AppError>) -> bool {
    let h = u32_from_be(b);
    let len = h & !BINARY_FRAME;
    match r {
        Ok(fh) => len as int <= MAX_FRAME && fh.len == len && fh.sealed == (h & BINARY_FRAME != 0),
        Err(e) => len as int > MAX_FRAME && e.is_protocol_msg("incoming frame too large"@),
    }
}

/// Decodes a frame's length prefix; bodies over [`MAX_FRAME`] are refused.
pub fn parse_frame_header(b: [u8; 4]) -> (r: Result<FrameHeader, AppError>)
    ensures
        parse_header_result(b@, r),
{
    let h: u32 = ((b[0] as u32) << 24u32) | ((b[1] as u32) << 16u32) | ((b[2] as u32) << 8u32) | (b[3] as u32);
    let len = h & !BINARY_FRAME;
    if len as usize > MAX_FRAME {
        return Err(AppError::protocol("incoming frame too large"));
    }
    Ok(FrameHeader { len: len as usize, sealed: h & BINARY_FRAME != 0 })
}

/// The bytes of a JSON frame: prefix then body.
pub open spec fn spec_json_frame(body: Seq<u8>) -> Seq<u8> {
    spec_header(body.len() as usize, false) + body
}

/// Frames a JSON body for writing; bodies over [`MAX_FRAME`] are refused.
pub fn json_frame(body: &[u8]) -> (r: Result<Vec<u8>, AppError>)
    ensures
        match r {
            Ok(f) => body@.len() <= MAX_FRAME && f@ == spec_json_frame(body@),
            Err(e) => body@.len() > MAX_FRAME && e.is_protocol_msg("frame too large"@),
        },
{
    if body.len() > MAX_FRAME {
        return Err(AppError::protocol("frame too large"));
    }
    let mut out: Vec<u8> = Vec::new();
    append_bytes(&mut out, &frame_header(body.len(), false));
    append_bytes(&mut out, body);
    Ok(out)
}

/// What [`sealed_frame`] returns for `key` and `bytes`.
pub open spec fn sealed_frame_result(key: Seq<u8>, bytes: Seq<u8>, r: Result<Vec<u8>, AppError>) -> bool {
    match r {
        Ok(f) => exists|nonce: Seq<u8>|
            #![trigger aes256gcm_seal(key, nonce, bytes)]
            {
                let ct = aes256gcm_seal(key, nonce, bytes);
                &&& nonce.len() == NONCE_LEN
                &&& NONCE_LEN + ct.len() <= MAX_FRAME
                &&& aes256gcm_open(key, nonce, ct) == Some(bytes)
                &&& f@ == spec_header((NONCE_LEN + ct.len()) as usize, true) + nonce + ct
            },
        Err(e) => no_randomness(e) || bytes.len() > AES_GCM_P_MAX && e is Crypto
            || bytes.len() + 16 + NONCE_LEN > MAX_FRAME && e.is_protocol_msg("frame too large"@),
    }
}

/// Encrypts `bytes` under `key` and frames them as one sealed binary frame:
/// prefix with the top bit set, then the nonce and the ciphertext.
pub fn sealed_frame(key: &[u8; 32], bytes: &[u8]) -> (r: Result<Vec<u8>, AppError>)
    ensures
        sealed_frame_result(key@, bytes@, r),
{
    let (nonce, ct) = seal(key, bytes)?;
    if ct.len() > MAX_FRAME - NONCE_LEN {
        return Err(AppError::protocol("frame too large"));
    }
    let len = NONCE_LEN + ct.len();
    let mut out: Vec<u8> = Vec::new();
    append_bytes(&mut out, &frame_header(len, true));
    append_bytes(&mut out, &nonce);
    append_bytes(&mut out, ct.as_slice());
    assert(out@ == spec_header(len, true) + nonce@ + ct@);
    Ok(out)
}

/// What [`open_sealed`] returns for a sealed frame's body.
pub open spec fn open_sealed_result(key: Seq<u8>, body: Seq<u8>, r: Result<Vec<u8>, AppError>) -> bool {
    if body.len() < NONCE_LEN {
        r matches Err(e) && e.is_protocol_msg("sealed frame too short"@)
    } else {
        open_result(key, body.subrange(0, NONCE_LEN as int), body.subrange(NONCE_LEN as int, body.len() as int), r)
    }
}

/// Decrypts the body of a sealed binary frame: `nonce || ciphertext`.
pub fn open_sealed(key: &[u8; 32], body: &[u8]) -> (r: Result<Vec<u8>, AppError>)
    ensures
        open_sealed_result(key@, body@, r),
{
    if body.len() < NONCE_LEN {
        return Err(AppError::protocol("sealed frame too short"));
    }
    let nonce: [u8; 12] = array_from(body, 0);
    let ct = sub_bytes(body, NONCE_LEN, body.len());
    open(key, &nonce, ct.as_slice())
}

/// What [`encrypt_plain`] returns for `key` and a JSON payload.
pub open spec fn encrypt_plain_result(key: Seq<u8>, plain_json: Seq<u8>, r: Result<Wire, AppError>) -> bool {
    match r {
        Ok(w) => w matches Wire::Enc { n, c } && exists|nonce: Seq<u8>|
            #![trigger aes256gcm_seal(key, nonce, plain_json)]
            {
                &&& nonce.len() == NONCE_LEN
                &&& base64_decode(n@) == Some(nonce)
                &&& n@ == base64_encode(nonce)
                &&& c@ == base64_encode(aes256gcm_seal(key, nonce, plain_json))
                &&& base64_decode(c@) == Some(aes256gcm_seal(key, nonce, plain_json))
                &&& aes256gcm_open(key, nonce, aes256gcm_seal(key, nonce, plain_json)) == Some(plain_json)
            },
        Err(e) => no_randomness(e) || plain_json.len() > AES_GCM_P_MAX && e is Crypto,
    }
}

/// Encrypts a serialized [`Plain`] payload into an `Enc` frame.
pub fn encrypt_plain(key: &[u8; 32], plain_json: &[u8]) -> (r: Result<Wire, AppError>)
    ensures
        encrypt_plain_result(key@, plain_json@, r),
{
    let (nonce, ct) = seal(key, plain_json)?;
    Ok(Wire::Enc { n: b64e(&nonce), c: b64e(ct.as_slice()) })
}

/// The `Debug` rendering of a frame, used in error details.
///
/// Formats with the derived `Debug` of [`Wire`]; nothing is claimed of the text.
#[verifier::external_body]
pub(crate) fn wire_debug(w: &Wire) -> String {
    format!("{w:?}")
}

/// The `Debug` rendering of a payload, used in error details.
///
/// Formats with the derived `Debug` of [`Plain`]; nothing is claimed of the text.
#[verifier::external_body]
pub(crate) fn plain_debug(p: &Plain) -> String {
    format!("{p:?}")
}

/// What [`decrypt_wire`] returns for `key` and a frame: the plaintext of an
/// `Enc` frame, the peer's error for an `Error` frame, else a protocol error.
pub open spec fn decrypt_wire_result(key: Seq<u8>, wire: Wire, r: Result<Vec<u8>, AppError>) -> bool {
    match wire {
        Wire::Enc { n, c } => match base64_decode(n@) {
            None => r matches Err(e) && e.is_protocol_msg("invalid base64"@),
            Some(nonce) => if nonce.len() != NONCE_LEN {
                r matches Err(e) && e.is_protocol_msg(expected_bytes_text(NONCE_LEN as nat))
            } else {
                match base64_decode(c@) {
                    None => r matches Err(e) && e.is_protocol_msg("invalid base64"@),
                    Some(ct) => open_result(key, nonce, ct, r),
                }
            },
        },
        Wire::Error { code, msg } => r matches Err(AppError::Remote { code: rc, msg: rm }) && rc@ == code@
            && rm@ == msg@,
        _ => r matches Err(AppError::Protocol(_)),
    }
}

/// Decrypts an `Enc` frame into the serialized [`Plain`] payload. An `Error`
/// frame becomes the peer's error; anything else is a protocol error.
pub fn decrypt_wire(key: &[u8; 32], wire: &Wire) -> (r: Result<Vec<u8>, AppError>)
    ensures
        decrypt_wire_result(key@, *wire, r),
{
    match wire {
        Wire::Enc { n, c } => {
            let nonce: [u8; 12] = match b64d_array(n.as_str()) {
                Ok(a) => a,
                Err(e) => return Err(e),
            };
            let ct = match b64d(c.as_str()) {
                Ok(b) => b,
                Err(e) => return Err(e),
            };
            open(key, &nonce, ct.as_slice())
        },
        Wire::Error { code, msg } => Err(AppError::Remote { code: code.clone(), msg: msg.clone() }),
        other => {
            let mut m = String::from_str("expected encrypted frame, got ");
            m.append(wire_debug(other).as_str());
            Err(AppError::Protocol(m))
        },
    }
}

/// A frame telling the peer why the exchange stops.
pub fn error_frame(code: &str, msg: String) -> (w: Wire)
    ensures
        w matches Wire::Error { code: c, msg: m } && c@ == code@ && m == msg,
{
    Wire::Error { code: String::from_str(code), msg }
}

/// A text-only reader accepts JSON frames and refuses sealed ones.
pub fn expect_wire(frame: Frame) -> (r: Result<Wire, AppError>)
    ensures
        match frame {
            Frame::Wire(w) => r matches Ok(x) && x == w,
            Frame::Sealed(_) => r matches Err(e) && e.is_protocol_msg("unexpected binary frame"@),
        },
{
    match frame {
        Frame::Wire(w) => Ok(w),
        Frame::Sealed(_) => Err(AppError::protocol("unexpected binary frame")),
    }
}

proof fn lemma_u32_be_roundtrip(v: u32)
    ensures
        u32_from_be(u32_be_bytes(v)) == v,
{
    let b0 = (v >> 24u32) as u8;
    let b1 = (v >> 16u32) as u8;
    let b2 = (v >> 8u32) as u8;
    let b3 = v as u8;
    assert(((b0 as u32) << 24u32) | ((b1 as u32) << 16u32) | ((b2 as u32) << 8u32) | (b3 as u32) == v)
        by (bit_vector)
        requires
            b0 == (v >> 24u32) as u8,
            b1 == (v >> 16u32) as u8,
            b2 == (v >> 8u32) as u8,
            b3 == v as u8,
    ;
    let s = u32_be_bytes(v);
    assert(s[0] == b0 && s[1] == b1 && s[2] == b2 && s[3] == b3);
}

/// A frame prefix decodes to the length and kind it was written with.
pub proof fn law_header_roundtrip(len: usize, sealed: bool, r: Result<FrameHeader, AppError>)
    requires
        len <= MAX_FRAME,
        parse_header_result(spec_header(len, sealed), r),
    ensures
        r matches Ok(fh) && fh.len == len && fh.sealed == sealed,
{
    let v: u32 = if sealed { (len as u32) | BINARY_FRAME } else { len as u32 };
    lemma_u32_be_roundtrip(v);
    let l = len as u32;
    assert(l <= 0x20_0000);
    assert((l | 0x8000_0000u32) & !0x8000_0000u32 == l && (l | 0x8000_0000u32) & 0x8000_0000u32 != 0)
        by (bit_vector)
        requires
            l <= 0x20_0000u32,
    ;
    assert(l & !0x8000_0000u32 == l && l & 0x8000_0000u32 == 0) by (bit_vector)
        requires
            l <= 0x20_0000u32,
    ;
}

/// Reading back a JSON frame: its first four bytes decode to the body's
/// length, not sealed, and the body follows.
pub proof fn law_json_frame_read(body: Seq<u8>, frame: Seq<u8>, r: Result<FrameHeader, AppError>)
    requires
        body.len() <= MAX_FRAME,
        frame == spec_json_frame(body),
        parse_header_result(frame.subrange(0, 4), r),
    ensures
        r matches Ok(fh) && fh.len == body.len() && !fh.sealed,
        frame.subrange(4, frame.len() as int) == body,
{
    assert(frame.subrange(0, 4) =~= spec_header(body.len() as usize, false));
    law_header_roundtrip(body.len() as usize, false, r);
    assert(frame.subrange(4, frame.len() as int) =~= body);
}

/// Reading back a sealed frame: its first four bytes decode to the length of
/// the rest, sealed, and opening the rest with the same key gives the bytes.
pub proof fn law_sealed_frame_read(
    key: Seq<u8>,
    bytes: Seq<u8>,
    framed: Result<Vec<u8>, AppError>,
    header: Result<FrameHeader, AppError>,
    opened: Result<Vec<u8>, AppError>,
)
    requires
        sealed_frame_result(key, bytes, framed),
        framed matches Ok(f) && parse_header_result(f@.subrange(0, 4), header)
            && open_sealed_result(key, f@.subrange(4, f@.len() as int), opened),
    ensures
        header matches Ok(fh) && fh.sealed && fh.len == framed->Ok_0@.len() - 4,
        opened matches Ok(p) && p@ == bytes,
{
    let f = framed->Ok_0@;
    let nonce = choose|nonce: Seq<u8>|
        #![trigger aes256gcm_seal(key, nonce, bytes)]
        {
            let ct = aes256gcm_seal(key, nonce, bytes);
            &&& nonce.len() == NONCE_LEN
            &&& NONCE_LEN + ct.len() <= MAX_FRAME
            &&& aes256gcm_open(key, nonce, ct) == Some(bytes)
            &&& f == spec_header((NONCE_LEN + ct.len()) as usize, true) + nonce + ct
        };
    let ct = aes256gcm_seal(key, nonce, bytes);
    let len = (NONCE_LEN + ct.len()) as usize;
    assert(f.subrange(0, 4) =~= spec_header(len, true));
    law_header_roundtrip(len, true, header);
    let rest = f.subrange(4, f.len() as int);
    assert(rest =~= nonce + ct);
    assert(rest.subrange(0, NONCE_LEN as int) =~= nonce);
    assert(rest.subrange(NONCE_LEN as int, rest.len() as int) =~= ct);
}

/// Decrypting what [`encrypt_plain`] produced, with the same key, gives the
/// payload back.
pub proof fn law_decrypt_after_encrypt(
    key: Seq<u8>,
    plain_json: Seq<u8>,
    wire: Result<Wire, AppError>,
    r: Result<Vec<u8>, AppError>,
)
    requires
        encrypt_plain_result(key, plain_json, wire),
        wire matches Ok(w) && decrypt_wire_result(key, w, r),
    ensures
        r matches Ok(p) && p@ == plain_json,
{
    let w = wire->Ok_0;
    let nonce = choose|nonce: Seq<u8>|
        #![trigger aes256gcm_seal(key, nonce, plain_json)]
        {
            &&& nonce.len() == NONCE_LEN
            &&& base64_decode(w->Enc_n@) == Some(nonce)
            &&& w->Enc_n@ == base64_encode(nonce)
            &&& w->Enc_c@ == base64_encode(aes256gcm_seal(key, nonce, plain_json))
            &&& base64_decode(w->Enc_c@) == Some(aes256gcm_seal(key, nonce, plain_json))
            &&& aes256gcm_open(key, nonce, aes256gcm_seal(key, nonce, plain_json)) == Some(plain_json)
        };
}

} // verus!
