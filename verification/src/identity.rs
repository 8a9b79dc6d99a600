//! Long-lived Ed25519 device identity.
//!
//! An identity is its 32-byte seed; the device id is the first 128 bits of
//! the SHA-256 of its public key, hex encoded. Keys and signatures come from
//! `ed25519-dalek`, hex from `hex`.

use vstd::prelude::*;

use crate::crypto::{sha256, sha256_digest};
use crate::error::AppError;
use crate::protocol::{b64e, base64_encode};
use crate::secrets::{key32_from_repr, key32_read, seal_bytes_result, seal_key32, KeyRepr, MasterKeySlot};
use crate::crypto::{fresh_bytes, no_randomness};
use vstd::string::StringSliceAdditionalSpecFns;
use vstd::utf8::{decode_utf8, encode_utf8, is_ascii_chars, is_ascii_chars_encode_utf8, valid_utf8};
use ed25519_dalek::Signer;

verus! {

/// The Ed25519 public key of a 32-byte seed.
pub uninterp spec fn ed25519_public(seed: Seq<u8>) -> Seq<u8>;

/// The Ed25519 signature of `msg` by the key of `seed`.
pub uninterp spec fn ed25519_signature(seed: Seq<u8>, msg: Seq<u8>) -> Seq<u8>;

/// Whether `sig` is a valid signature of `msg` under public key `pk`, as
/// `verify_strict` decides (the key must decode, small-order points and
/// non-canonical encodings are refused).
pub uninterp spec fn ed25519_verify_strict(pk: Seq<u8>, msg: Seq<u8>, sig: Seq<u8>) -> bool;

/// The public key of a seed.
///
/// Calls `SigningKey::from_bytes(seed).verifying_key().to_bytes()`; the
/// result is the named [`ed25519_public`].
#[verifier::external_body]
fn ed25519_public_key(seed: &[u8; 32]) -> (pk: [u8; 32])
    ensures
        pk@ == ed25519_public(seed@),
{
    ed25519_dalek::SigningKey::from_bytes(seed).verifying_key().to_bytes()
}

/// The encoding of the neutral point of the curve (y = 1): 1, then 31
/// zero bytes.
pub open spec fn ed25519_neutral_point() -> Seq<u8> {
    seq![1u8] + Seq::new(31, |i: int| 0u8)
}

/// Signs `msg` with the key of `seed`.
///
/// Calls `SigningKey::sign`; Ed25519 signing is deterministic, and the result
/// is the named [`ed25519_signature`]. The signature is `R || s` with
/// `R = [r]B` and `s = r + k·a` reduced mod the group order, so
/// `verify_strict` under the seed's own public key accepts it, unless `R`
/// is the neutral point (`r` a multiple of the group order, which
/// `verify_strict` refuses as a small-order point).
#[verifier::external_body]
fn ed25519_sign(seed: &[u8; 32], msg: &[u8]) -> (sig: [u8; 64])
    ensures
        sig@ == ed25519_signature(seed@, msg@),
        sig@.subrange(0, 32) != ed25519_neutral_point() ==> ed25519_verify_strict(ed25519_public(seed@), msg@, sig@),
{
    ed25519_dalek::SigningKey::from_bytes(seed).sign(msg).to_bytes()
}

/// Checks a signature.
///
/// Calls `VerifyingKey::from_bytes` (which fails for bytes that are not a
/// curve point) and `verify_strict` on `Signature::from_bytes(sig)`; the
/// outcome is the named [`ed25519_verify_strict`].
#[verifier::external_body]
fn ed25519_check(pk: &[u8; 32], msg: &[u8], sig: &[u8; 64]) -> (ok: bool)
    ensures
        ok == ed25519_verify_strict(pk@, msg@, sig@),
{
    match ed25519_dalek::VerifyingKey::from_bytes(pk) {
        Ok(vk) => vk.verify_strict(msg, &ed25519_dalek::Signature::from_bytes(sig)).is_ok(),
        Err(_) => false,
    }
}

/// The lower-case hex digit for `v < 16`.
pub open spec fn hex_digit(v: nat) -> char {
    if v < 10 { ((v + 48) as u32) as char } else { ((v + 87) as u32) as char }
}

/// Lower-case hex of `bytes`, two digits per byte.
pub open spec fn hex_lower(bytes: Seq<u8>) -> Seq<char>
    decreases bytes.len(),
{
    if bytes.len() == 0 {
        Seq::empty()
    } else {
        hex_lower(bytes.drop_last()) + seq![
            hex_digit((bytes.last() / 16) as nat),
            hex_digit((bytes.last() % 16) as nat),
        ]
    }
}

/// The value of a hex digit, either case.
pub open spec fn hex_value(b: u8) -> Option<u8> {
    if 48 <= b <= 57 {
        Some((b - 48) as u8)
    } else if 97 <= b <= 102 {
        Some((b - 87) as u8)
    } else if 65 <= b <= 70 {
        Some((b - 55) as u8)
    } else {
        None
    }
}

/// The bytes a hex text stands for: pairs of digits, either case; `None`
/// for an odd length or a non-digit.
pub open spec fn hex_decode_spec(text: Seq<u8>) -> Option<Seq<u8>>
    decreases text.len(),
{
    if text.len() == 0 {
        Some(Seq::empty())
    } else if text.len() == 1 {
        None
    } else {
        match (hex_decode_spec(text.subrange(0, text.len() - 2)), hex_value(text[text.len() - 2]), hex_value(text.last())) {
            (Some(front), Some(hi), Some(lo)) => Some(front.push((hi * 16 + lo) as u8)),
            _ => None,
        }
    }
}

/// A lower-case hex digit.
pub open spec fn is_hex_digit(c: char) -> bool {
    ('0' <= c && c <= '9') || ('a' <= c && c <= 'f')
}

/// The byte of an ASCII character.
pub open spec fn ascii_bytes(cs: Seq<char>) -> Seq<u8> {
    Seq::new(cs.len(), |i: int| cs[i] as u8)
}

/// The digit of a nibble is a hex digit, and reads back as the nibble.
proof fn lemma_hex_digit(v: nat)
    requires
        v < 16,
    ensures
        is_hex_digit(hex_digit(v)),
        hex_value(hex_digit(v) as u8) == Some(v as u8),
{
    if v < 10 {
        assert(hex_digit(v) as u32 == v + 48);
    } else {
        assert(hex_digit(v) as u32 == v + 87);
    }
}

/// Hex has two digits per byte, all lower-case hex digits.
pub proof fn lemma_hex_lower_digits(b: Seq<u8>)
    ensures
        hex_lower(b).len() == 2 * b.len(),
        forall|i: int| 0 <= i < hex_lower(b).len() ==> is_hex_digit(#[trigger] hex_lower(b)[i]),
    decreases b.len(),
{
    if b.len() > 0 {
        lemma_hex_lower_digits(b.drop_last());
        lemma_hex_digit((b.last() / 16) as nat);
        lemma_hex_digit((b.last() % 16) as nat);
        let front = hex_lower(b.drop_last());
        assert forall|i: int| 0 <= i < hex_lower(b).len() implies is_hex_digit(#[trigger] hex_lower(b)[i]) by {
            if i < front.len() {
                assert(hex_lower(b)[i] == front[i]);
            }
        }
    }
}

/// Hex decoding gives back the bytes that were hex encoded.
pub proof fn lemma_hex_roundtrip(b: Seq<u8>)
    ensures
        hex_decode_spec(encode_utf8(hex_lower(b))) == Some(b),
{
    lemma_hex_lower_digits(b);
    assert(is_ascii_chars(hex_lower(b)));
    is_ascii_chars_encode_utf8(hex_lower(b));
    assert(encode_utf8(hex_lower(b)) =~= ascii_bytes(hex_lower(b)));
    lemma_hex_decode_ascii(b);
}

/// [`lemma_hex_roundtrip`] on the bytes of the digits.
proof fn lemma_hex_decode_ascii(b: Seq<u8>)
    ensures
        hex_decode_spec(ascii_bytes(hex_lower(b))) == Some(b),
    decreases b.len(),
{
    if b.len() == 0 {
        assert(ascii_bytes(hex_lower(b)) =~= Seq::<u8>::empty());
    } else {
        let front = b.drop_last();
        let last = b.last();
        lemma_hex_decode_ascii(front);
        lemma_hex_lower_digits(front);
        lemma_hex_digit((last / 16) as nat);
        lemma_hex_digit((last % 16) as nat);
        let text = ascii_bytes(hex_lower(b));
        assert(text.subrange(0, text.len() - 2) =~= ascii_bytes(hex_lower(front)));
        assert(text[text.len() - 2] == hex_digit((last / 16) as nat) as u8);
        assert(text.last() == hex_digit((last % 16) as nat) as u8);
        assert(((last / 16) as u8 * 16 + (last % 16) as u8) as u8 == last);
        assert(front.push(last) =~= b);
    }
}

/// Lower-case hex.
///
/// Calls `hex::encode`, which writes each byte as two digits from
/// "0123456789abcdef", high nibble first.
#[verifier::external_body]
pub fn hex_encode(bytes: &[u8]) -> (s: String)
    ensures
        s@ == hex_lower(bytes@),
{
    hex::encode(bytes)
}

/// Hex decoding.
///
/// Calls `hex::decode` on the UTF-8 bytes of `s`: it refuses an odd length
/// and any byte that is not a digit of either case; errors become `None`.
#[verifier::external_body]
pub fn hex_decode(s: &str) -> (r: Option<Vec<u8>>)
    ensures
        match r {
            Some(b) => hex_decode_spec(s.spec_bytes()) == Some(b@),
            None => hex_decode_spec(s.spec_bytes()) is None,
        },
{
    hex::decode(s).ok()
}

/// The text of bytes decoded as UTF-8, invalid sequences replaced by U+FFFD.
pub uninterp spec fn utf8_lossy(bytes: Seq<u8>) -> Seq<char>;

/// `String::from_utf8_lossy`: valid UTF-8 decodes as is; invalid sequences
/// become U+FFFD.
#[verifier::external_body]
fn from_utf8_lossy(bytes: &[u8]) -> (s: String)
    ensures
        s@ == utf8_lossy(bytes@),
        valid_utf8(bytes@) ==> s@ == decode_utf8(bytes@),
{
    String::from_utf8_lossy(bytes).into_owned()
}

/// The device id of a public key: the first 16 bytes of its SHA-256, hex
/// encoded (32 characters).
pub open spec fn spec_device_id(pk: Seq<u8>) -> Seq<char> {
    hex_lower(sha256_digest(pk).subrange(0, 16))
}

/// 128-bit fingerprint of the Ed25519 public key, hex encoded (32 chars).
pub fn device_id_from_pk(pk: &[u8; 32]) -> (id: String)
    ensures
        id@ == spec_device_id(pk@),
{
    let d = sha256(pk);
    let first = crate::bytes::sub_bytes(&d, 0, 16);
    hex_encode(first.as_slice())
}

/// What [`verify`] returns: success exactly when `verify_strict` accepts.
pub fn verify(pk: &[u8; 32], msg: &[u8], sig: &[u8; 64]) -> (r: Result<(), AppError>)
    ensures
        match r {
            Ok(()) => ed25519_verify_strict(pk@, msg@, sig@),
            Err(e) => !ed25519_verify_strict(pk@, msg@, sig@) && e is Crypto,
        },
{
    if ed25519_check(pk, msg, sig) {
        Ok(())
    } else {
        Err(AppError::Crypto)
    }
}

/// `bytes` in groups of four, the last one shorter.
pub open spec fn chunks4(bytes: Seq<u8>) -> Seq<Seq<u8>>
    decreases bytes.len(),
{
    if bytes.len() <= 4 {
        if bytes.len() == 0 { Seq::empty() } else { seq![bytes] }
    } else {
        seq![bytes.subrange(0, 4)] + chunks4(bytes.subrange(4, bytes.len() as int))
    }
}

/// Texts joined with single spaces.
pub open spec fn join_spaces(parts: Seq<Seq<char>>) -> Seq<char>
    decreases parts.len(),
{
    if parts.len() == 0 {
        Seq::empty()
    } else if parts.len() == 1 {
        parts[0]
    } else {
        parts[0] + seq![' '] + join_spaces(parts.drop_first())
    }
}

/// The fingerprint of a device id: its UTF-8 bytes in groups of four, each
/// decoded (lossily), joined with spaces.
pub open spec fn spec_fingerprint(device_id: Seq<char>) -> Seq<char> {
    join_spaces(chunks4(vstd::utf8::encode_utf8(device_id)).map_values(|c: Seq<u8>| utf8_lossy(c)))
}

proof fn lemma_join_step(parts: Seq<Seq<char>>, i: int)
    requires
        0 <= i < parts.len(),
    ensures
        join_spaces(parts.subrange(i, parts.len() as int)) == if i == parts.len() - 1 {
            parts[i]
        } else {
            parts[i] + seq![' '] + join_spaces(parts.subrange(i + 1, parts.len() as int))
        },
{
    let t = parts.subrange(i, parts.len() as int);
    assert(t[0] == parts[i]);
    if i < parts.len() - 1 {
        assert(t.drop_first() =~= parts.subrange(i + 1, parts.len() as int));
    }
}

proof fn lemma_chunks4_len(bytes: Seq<u8>)
    ensures
        chunks4(bytes).len() == (bytes.len() + 3) / 4,
        forall|k: int| 0 <= k < chunks4(bytes).len() ==> #[trigger] chunks4(bytes)[k] == bytes.subrange(4 * k, if 4 * k + 4 <= bytes.len() { 4 * k + 4 } else { bytes.len() as int }),
    decreases bytes.len(),
{
    if bytes.len() > 4 {
        let rest = bytes.subrange(4, bytes.len() as int);
        lemma_chunks4_len(rest);
        assert forall|k: int| 0 <= k < chunks4(bytes).len() implies #[trigger] chunks4(bytes)[k] == bytes.subrange(4 * k, if 4 * k + 4 <= bytes.len() { 4 * k + 4 } else { bytes.len() as int }) by {
            if k > 0 {
                assert(chunks4(bytes)[k] == chunks4(rest)[k - 1]);
                let hi = if 4 * (k - 1) + 4 <= rest.len() { 4 * (k - 1) + 4 } else { rest.len() as int };
                assert(rest.subrange(4 * (k - 1), hi) =~= bytes.subrange(4 * k, hi + 4));
            }
        }
    }
}

/// The characters of `cs` in groups of four, the last one shorter.
pub open spec fn groups4(cs: Seq<char>) -> Seq<Seq<char>> {
    Seq::new(
        ((cs.len() + 3) / 4) as nat,
        |k: int| cs.subrange(4 * k, if 4 * k + 4 <= cs.len() { 4 * k + 4 } else { cs.len() as int }),
    )
}

/// Human-readable fingerprint: the device id grouped by four characters
/// (by four bytes, for an id that is not ASCII).
pub fn fingerprint_of(device_id: &str) -> (f: String)
    ensures
        f@ == spec_fingerprint(device_id@),
        is_ascii_chars(device_id@) ==> f@ == join_spaces(groups4(device_id@)),
{
    let bytes = device_id.as_bytes();
    let n = bytes.len();
    let ghost parts = chunks4(bytes@).map_values(|c: Seq<u8>| utf8_lossy(c));
    proof { lemma_chunks4_len(bytes@); }
    let nchunks = if n % 4 == 0 { n / 4 } else { n / 4 + 1 };
    let mut out = String::new();
    let mut k: usize = 0;
    while k < nchunks
        invariant
            n == bytes@.len(),
            nchunks == parts.len(),
            parts == chunks4(bytes@).map_values(|c: Seq<u8>| utf8_lossy(c)),
            chunks4(bytes@).len() == (n + 3) / 4,
            forall|j: int| 0 <= j < chunks4(bytes@).len() ==> #[trigger] chunks4(bytes@)[j] == bytes@.subrange(4 * j, if 4 * j + 4 <= n { 4 * j + 4 } else { n as int }),
            k <= nchunks,
            forall|j: int| 0 <= j < k ==> (valid_utf8(#[trigger] chunks4(bytes@)[j]) ==> parts[j] == decode_utf8(chunks4(bytes@)[j])),
            k == 0 ==> out@ == Seq::<char>::empty(),
            k > 0 ==> join_spaces(parts) == out@ + if k == nchunks { Seq::empty() } else { seq![' '] + join_spaces(parts.subrange(k as int, nchunks as int)) },
        decreases nchunks - k,
    {
        assert(4 * k <= n);
        let lo = 4 * k;
        let hi = if n - lo >= 4 { lo + 4 } else { n };
        let piece = crate::bytes::sub_bytes(bytes, lo, hi);
        let text = from_utf8_lossy(piece.as_slice());
        proof {
            assert(parts[k as int] == text@);
            assert(piece@ == chunks4(bytes@)[k as int]);
            lemma_join_step(parts, k as int);
            if k == 0 {
                assert(parts.subrange(0, nchunks as int) =~= parts);
            }
        }
        if k > 0 {
            out.push(' ');
        }
        out.append(text.as_str());
        k = k + 1;
        proof {
            if k < nchunks {
                lemma_join_step(parts, k as int);
            }
        }
    }
    proof {
        if nchunks == 0 {
            assert(parts.len() == 0);
        }
        if is_ascii_chars(device_id@) {
            lemma_ascii_groups(device_id@, parts);
        }
    }
    out
}

/// For an ASCII text, each group of four bytes of its UTF-8 is the UTF-8 of
/// the matching group of four characters, so decoding the byte groups gives
/// the character groups.
proof fn lemma_ascii_groups(cs: Seq<char>, parts: Seq<Seq<char>>)
    requires
        is_ascii_chars(cs),
        parts.len() == chunks4(encode_utf8(cs)).len(),
        forall|j: int| 0 <= j < parts.len() ==> (valid_utf8(#[trigger] chunks4(encode_utf8(cs))[j]) ==> parts[j] == decode_utf8(chunks4(encode_utf8(cs))[j])),
    ensures
        parts == groups4(cs),
{
    let bytes = encode_utf8(cs);
    is_ascii_chars_encode_utf8(cs);
    lemma_chunks4_len(bytes);
    let n = cs.len() as int;
    assert forall|j: int| 0 <= j < parts.len() implies #[trigger] parts[j] == groups4(cs)[j] by {
        let lo = 4 * j;
        let hi = if 4 * j + 4 <= n { 4 * j + 4 } else { n };
        let g = cs.subrange(lo, hi);
        assert(is_ascii_chars(g));
        is_ascii_chars_encode_utf8(g);
        assert forall|i: int| 0 <= i < g.len() implies encode_utf8(g)[i] == bytes.subrange(lo, hi)[i] by {
            assert(g[i] == cs[lo + i]);
            assert(g[i] as u8 == encode_utf8(g)[i]);
            assert(cs[lo + i] as u8 == bytes[lo + i]);
        }
        assert(encode_utf8(g) =~= bytes.subrange(lo, hi));
        vstd::utf8::encode_utf8_valid_utf8(g);
        vstd::utf8::encode_utf8_decode_utf8(g);
        assert(chunks4(bytes)[j] == bytes.subrange(lo, hi));
    }
    assert(parts =~= groups4(cs));
}

/// The identity seed as the store holds it.
pub enum StoredSeed {
    /// Nothing stored yet.
    Absent,
    /// A value that is no key field in any form; `sealed` tells whether it is
    /// a JSON object, the shape sealed seeds have.
    Unreadable { sealed: bool },
    /// A key field in one of its forms.
    Key(KeyRepr),
}

/// Whether the stored seed is already in sealed form (a JSON object).
pub open spec fn seed_is_sealed(stored: StoredSeed) -> bool {
    match stored {
        StoredSeed::Absent => false,
        StoredSeed::Unreadable { sealed } => sealed,
        StoredSeed::Key(rep) => rep is Sealed,
    }
}

/// A device identity: its Ed25519 seed and the id derived from the public key.
pub struct Identity {
    seed: [u8; 32],
    pub device_id: String,
}

impl Identity {
    /// The seed the identity was made from.
    pub closed spec fn seed(&self) -> Seq<u8> {
        self.seed@
    }

    /// The device id text.
    pub closed spec fn id(&self) -> Seq<char> {
        self.device_id@
    }

    /// The device id.
    pub fn device_id(&self) -> (r: &String)
        ensures
            r@ == self.id(),
    {
        &self.device_id
    }

    /// The id belongs to the key.
    pub open spec fn wf(&self) -> bool {
        self.id() == spec_device_id(ed25519_public(self.seed()))
    }

    /// The identity of a seed.
    pub fn from_seed(seed: [u8; 32]) -> (id: Identity)
        ensures
            id.seed() == seed@,
            id.wf(),
    {
        let pk = ed25519_public_key(&seed);
        Identity { seed, device_id: device_id_from_pk(&pk) }
    }

    /// The Ed25519 public key.
    pub fn public_key(&self) -> (pk: [u8; 32])
        ensures
            pk@ == ed25519_public(self.seed()),
    {
        ed25519_public_key(&self.seed)
    }

    /// The public key in base64.
    pub fn public_key_b64(&self) -> (s: String)
        ensures
            s@ == base64_encode(ed25519_public(self.seed())),
    {
        b64e(&self.public_key())
    }

    /// Signs `msg` with the identity key. The signature verifies under the
    /// identity's public key (unless its first half encodes the neutral
    /// point, which `verify_strict` refuses).
    pub fn sign(&self, msg: &[u8]) -> (sig: [u8; 64])
        ensures
            sig@ == ed25519_signature(self.seed(), msg@),
            sig@.subrange(0, 32) != ed25519_neutral_point() ==> ed25519_verify_strict(ed25519_public(self.seed()), msg@, sig@),
    {
        ed25519_sign(&self.seed, msg)
    }

    /// The identity kept in the store, or a new one. A seed that cannot be
    /// read is replaced by a new random one. Unless the stored value was
    /// sealed (a JSON object), the seed is returned sealed, to be written
    /// back; that fails only while the master key is unknown.
    pub fn load_or_create(slot: &MasterKeySlot, stored: StoredSeed) -> (r: Result<(Identity, Option<KeyRepr>), AppError>)
        ensures
            match r {
                Ok((id, save)) => {
                    &&& id.wf()
                    &&& (stored matches StoredSeed::Key(rep) && key32_read(slot.value(), rep) is Some)
                        ==> Some(id.seed()) == key32_read(slot.value(), stored->Key_0)
                    &&& (save is Some) == !seed_is_sealed(stored)
                    &&& (save matches Some(rep) ==> (rep matches KeyRepr::Sealed(sl)
                        && seal_bytes_result(slot.value(), id.seed(), Ok(sl))))
                },
                Err(e) => !seed_is_sealed(stored) && slot.value() is None && e.is_msg("secrets not initialized"@)
                    || no_randomness(e),
            },
    {
        let sealed = match &stored {
            StoredSeed::Absent => false,
            StoredSeed::Unreadable { sealed } => *sealed,
            StoredSeed::Key(rep) => match rep {
                KeyRepr::Sealed(_) => true,
                _ => false,
            },
        };
        let seed: [u8; 32] = match &stored {
            StoredSeed::Key(rep) => match key32_from_repr(slot, rep) {
                Ok(k) => k,
                Err(_) => fresh_bytes()?,
            },
            _ => fresh_bytes()?,
        };
        let save = if sealed {
            None
        } else {
            match seal_key32(slot, &seed) {
                Ok(rep) => Some(rep),
                Err(e) => return Err(e),
            }
        };
        Ok((Identity::from_seed(seed), save))
    }

    /// Human-readable fingerprint: device id grouped by four hex chars.
    pub fn fingerprint(&self) -> (f: String)
        ensures
            f@ == spec_fingerprint(self.id()),
            is_ascii_chars(self.id()) ==> f@ == join_spaces(groups4(self.id())),
    {
        fingerprint_of(self.device_id.as_str())
    }
}

} // verus!
