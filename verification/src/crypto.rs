//! Cryptographic building blocks of pairing and sessions.
//!
//! Pairing: X25519 on ephemeral keys, bound to the full transcript through
//! HKDF, yields a long-term pairing key and a 6-digit short authentication
//! string (SAS). Sessions: a per-connection key from the pairing key and two
//! fresh salts. Payloads: AES-256-GCM with random 96-bit nonces.
//!
//! The primitives themselves come from `sha2`, `hkdf`, `aes-gcm`, `getrandom`
//! and `x25519-dalek`; their results are named here and the logic around them
//! is verified against those names.

use vstd::prelude::*;

use crate::bytes::append_bytes;
use vstd::string::StringSliceAdditionalSpecFns;
use crate::error::AppError;
use crate::text::{digit, digit_char};

use aes_gcm::aead::{Aead, KeyInit};
use aes_gcm::{Aes256Gcm, Nonce};
use hkdf::Hkdf;
use sha2::{Digest, Sha256};
use x25519_dalek::{PublicKey, StaticSecret};

verus! {

/// Domain separator at the start of every pairing transcript.
pub const PAIR_TRANSCRIPT_PREFIX: &'static str = "nearclip-pair-v1";

/// HKDF label of the pairing key.
pub const INFO_PAIRING_KEY: &'static str = "nearclip pairing key v1";

/// HKDF label of the short authentication string.
pub const INFO_SAS: &'static str = "nearclip sas v1";

/// HKDF label of a session key.
pub const INFO_SESSION: &'static str = "nearclip session v1";

/// The largest plaintext AES-GCM accepts: 2^36 bytes.
pub const AES_GCM_P_MAX: u64 = 0x10_0000_0000;

/// The AES-GCM authentication tag length.
pub const AES_GCM_TAG_LEN: usize = 16;

} // verus!

verus! {

/// The SHA-256 digest of `data`.
pub uninterp spec fn sha256_digest(data: Seq<u8>) -> Seq<u8>;

/// HKDF-SHA256 (RFC 5869) output of `len` bytes for `salt`, input key
/// material `ikm` and label `info`.
pub uninterp spec fn hkdf_sha256(salt: Seq<u8>, ikm: Seq<u8>, info: Seq<u8>, len: nat) -> Seq<u8>;

/// AES-256-GCM ciphertext with its tag appended, for `key`, `nonce` and an
/// empty associated data.
pub uninterp spec fn aes256gcm_seal(key: Seq<u8>, nonce: Seq<u8>, plaintext: Seq<u8>) -> Seq<u8>;

/// AES-256-GCM decryption: the plaintext, or `None` when the tag does not
/// authenticate `ciphertext` under `key` and `nonce`.
pub uninterp spec fn aes256gcm_open(key: Seq<u8>, nonce: Seq<u8>, ciphertext: Seq<u8>) -> Option<Seq<u8>>;

/// The X25519 public key of a 32-byte secret (clamped as RFC 7748 says).
pub uninterp spec fn x25519_public(secret: Seq<u8>) -> Seq<u8>;

/// The X25519 shared secret of our 32-byte secret and the peer's public key.
pub uninterp spec fn x25519_shared(secret: Seq<u8>, peer_public: Seq<u8>) -> Seq<u8>;

/// `N` bytes from the operating system's random source, or `None` when it
/// has none to give.
///
/// Calls `getrandom::fill`, which reports any failure as an error. Nothing
/// is claimed of the bytes, nor of when the source fails.
#[verifier::external_body]
pub fn random_bytes<const N: usize>() -> Option<[u8; N]> {
    let mut buf = [0u8; N];
    match getrandom::fill(&mut buf) {
        Ok(()) => Some(buf),
        Err(_) => None,
    }
}

/// Whether `e` reports that the system's random source failed.
pub open spec fn no_randomness(e: AppError) -> bool {
    e.is_msg("OS randomness unavailable"@)
}

/// `N` fresh random bytes, or the error saying the system has none.
pub fn fresh_bytes<const N: usize>() -> (r: Result<[u8; N], AppError>)
    ensures
        r matches Err(e) ==> no_randomness(e),
{
    match random_bytes() {
        Some(b) => Ok(b),
        None => Err(AppError::msg("OS randomness unavailable")),
    }
}

/// The SHA-256 digest of `data`.
///
/// Calls `sha2::Sha256::digest`; its result is the named [`sha256_digest`].
#[verifier::external_body]
pub fn sha256(data: &[u8]) -> (d: [u8; 32])
    ensures
        d@ == sha256_digest(data@),
{
    let digest = Sha256::digest(data);
    let mut out = [0u8; 32];
    out.copy_from_slice(&digest);
    out
}

/// HKDF-SHA256: extract with `salt` from `ikm`, then expand `L` bytes for `info`.
///
/// Calls `hkdf::Hkdf::<Sha256>::new` and `expand`, which fails only for more
/// than 255 * 32 output bytes, a length `requires` rules out. The result is
/// the named [`hkdf_sha256`].
#[verifier::external_body]
fn hkdf_expand<const L: usize>(salt: &[u8], ikm: &[u8], info: &[u8]) -> (okm: [u8; L])
    requires
        L <= 255 * 32,
    ensures
        okm@ == hkdf_sha256(salt@, ikm@, info@, L as nat),
{
    let mut okm = [0u8; L];
    Hkdf::<Sha256>::new(Some(salt), ikm).expand(info, &mut okm).expect("valid HKDF length");
    okm
}

/// AES-256-GCM encryption with an empty associated data.
///
/// Calls `Aes256Gcm::encrypt`, which refuses plaintexts longer than 2^36
/// bytes and otherwise returns the ciphertext followed by its 16-byte tag:
/// the named [`aes256gcm_seal`]. As for any AEAD, decrypting that ciphertext
/// with the same key and nonce gives the plaintext back.
#[verifier::external_body]
fn aes256gcm_encrypt(key: &[u8; 32], nonce: &[u8; 12], plaintext: &[u8]) -> (ct: Option<Vec<u8>>)
    ensures
        ct is Some <==> plaintext@.len() <= AES_GCM_P_MAX,
        ct matches Some(c) ==> {
            &&& c@ == aes256gcm_seal(key@, nonce@, plaintext@)
            &&& c@.len() == plaintext@.len() + AES_GCM_TAG_LEN
            &&& aes256gcm_open(key@, nonce@, c@) == Some(plaintext@)
        },
{
    let cipher = Aes256Gcm::new_from_slice(key).ok()?;
    cipher.encrypt(&Nonce::from(*nonce), plaintext).ok()
}

/// AES-256-GCM decryption with an empty associated data.
///
/// Calls `Aes256Gcm::decrypt`; its result is the named [`aes256gcm_open`].
#[verifier::external_body]
fn aes256gcm_decrypt(key: &[u8; 32], nonce: &[u8; 12], ciphertext: &[u8]) -> (pt: Option<Vec<u8>>)
    ensures
        match pt {
            Some(p) => aes256gcm_open(key@, nonce@, ciphertext@) == Some(p@),
            None => aes256gcm_open(key@, nonce@, ciphertext@) is None,
        },
{
    let cipher = Aes256Gcm::new_from_slice(key).ok()?;
    cipher.decrypt(&Nonce::from(*nonce), ciphertext).ok()
}

/// The X25519 public key of a secret.
///
/// Calls `PublicKey::from(&StaticSecret::from(secret))`; the result is the
/// named [`x25519_public`]. Both scalars are clamped before multiplying the
/// base point, so combining it with any other secret agrees with combining
/// that secret's public key with this secret (the X25519 key agreement).
#[verifier::external_body]
pub fn x25519_public_key(secret: &[u8; 32]) -> (pk: [u8; 32])
    ensures
        pk@ == x25519_public(secret@),
        forall|other: Seq<u8>|
            other.len() == 32 ==> #[trigger] x25519_shared(other, pk@) == x25519_shared(
                secret@,
                x25519_public(other),
            ),
{
    PublicKey::from(&StaticSecret::from(*secret)).to_bytes()
}

/// The X25519 shared secret of our secret and the peer's public key.
///
/// Calls `StaticSecret::diffie_hellman`; the result is the named
/// [`x25519_shared`].
#[verifier::external_body]
pub fn x25519_diffie_hellman(secret: &[u8; 32], peer_public: &[u8; 32]) -> (shared: [u8; 32])
    ensures
        shared@ == x25519_shared(secret@, peer_public@),
{
    StaticSecret::from(*secret).diffie_hellman(&PublicKey::from(*peer_public)).to_bytes()
}

/// Commitment to the initiator's ephemeral key: `sha256(eph_pk || nonce)`.
pub open spec fn spec_commit(eph_pk: Seq<u8>, nonce: Seq<u8>) -> Seq<u8> {
    sha256_digest(eph_pk + nonce)
}

/// Commitment to the initiator's ephemeral key, sent before the responder
/// reveals its own contribution. Prevents an active MITM from grinding
/// ephemeral keys until both victims see the same SAS.
pub fn commit(eph_pk: &[u8; 32], nonce: &[u8; 32]) -> (c: [u8; 32])
    ensures
        c@ == spec_commit(eph_pk@, nonce@),
{
    let mut buf: Vec<u8> = Vec::with_capacity(64);
    append_bytes(&mut buf, eph_pk);
    append_bytes(&mut buf, nonce);
    sha256(&buf)
}

/// The pairing transcript: the prefix, then the initiator's (A) identity key,
/// ephemeral key and nonce, then the responder's (B).
pub open spec fn spec_pairing_transcript(
    id_pk_a: Seq<u8>,
    eph_a: Seq<u8>,
    nonce_a: Seq<u8>,
    id_pk_b: Seq<u8>,
    eph_b: Seq<u8>,
    nonce_b: Seq<u8>,
) -> Seq<u8> {
    PAIR_TRANSCRIPT_PREFIX.spec_bytes() + id_pk_a + eph_a + nonce_a + id_pk_b + eph_b + nonce_b
}

/// Builds the pairing transcript. Both sides must call this with the
/// initiator (A) parameters first and responder (B) parameters second.
pub fn pairing_transcript(
    id_pk_a: &[u8; 32],
    eph_a: &[u8; 32],
    nonce_a: &[u8; 32],
    id_pk_b: &[u8; 32],
    eph_b: &[u8; 32],
    nonce_b: &[u8; 32],
) -> (t: Vec<u8>)
    ensures
        t@ == spec_pairing_transcript(id_pk_a@, eph_a@, nonce_a@, id_pk_b@, eph_b@, nonce_b@),
{
    let mut t: Vec<u8> = Vec::new();
    append_bytes(&mut t, PAIR_TRANSCRIPT_PREFIX.as_bytes());
    append_bytes(&mut t, id_pk_a);
    append_bytes(&mut t, eph_a);
    append_bytes(&mut t, nonce_a);
    append_bytes(&mut t, id_pk_b);
    append_bytes(&mut t, eph_b);
    append_bytes(&mut t, nonce_b);
    t
}

/// The long-term key and the code both users compare.
#[derive(Debug)]
pub struct PairingMaterial {
    pub pairing_key: [u8; 32],
    /// Six decimal digits, zero-padded, e.g. "048391".
    pub sas: String,
}

/// Big-endian value of four bytes.
pub open spec fn be_u32(b: Seq<u8>) -> nat {
    (b[0] as nat) * 0x100_0000 + (b[1] as nat) * 0x1_0000 + (b[2] as nat) * 0x100 + (b[3] as nat)
}

/// `n` as exactly six decimal digits, zero-padded (`n < 1_000_000`).
pub open spec fn six_digits(n: nat) -> Seq<char> {
    seq![
        digit_char((n / 100000) % 10),
        digit_char((n / 10000) % 10),
        digit_char((n / 1000) % 10),
        digit_char((n / 100) % 10),
        digit_char((n / 10) % 10),
        digit_char(n % 10),
    ]
}

/// The SAS shown for four HKDF output bytes: their big-endian value modulo
/// one million, as six digits.
pub open spec fn spec_sas_text(b: Seq<u8>) -> Seq<char> {
    six_digits(be_u32(b) % 1_000_000)
}

/// The pairing key for a shared secret and a transcript.
pub open spec fn spec_pairing_key(shared: Seq<u8>, transcript: Seq<u8>) -> Seq<u8> {
    hkdf_sha256(sha256_digest(transcript), shared, INFO_PAIRING_KEY.spec_bytes(), 32)
}

/// The SAS for a shared secret and a transcript.
pub open spec fn spec_sas(shared: Seq<u8>, transcript: Seq<u8>) -> Seq<char> {
    spec_sas_text(hkdf_sha256(sha256_digest(transcript), shared, INFO_SAS.spec_bytes(), 4))
}

/// Whether `c` is an ASCII decimal digit.
pub open spec fn is_ascii_digit(c: char) -> bool {
    '0' <= c && c <= '9'
}

/// The six-digit code for the four bytes HKDF derived for it.
pub fn sas_from_bytes(b: [u8; 4]) -> (sas: String)
    ensures
        sas@ == spec_sas_text(b@),
        sas@.len() == 6,
        forall|i: int| 0 <= i < 6 ==> is_ascii_digit(#[trigger] sas@[i]),
{
    let n: u64 = (b[0] as u64) * 0x100_0000 + (b[1] as u64) * 0x1_0000 + (b[2] as u64) * 0x100
        + (b[3] as u64);
    let v: u64 = n % 1_000_000;
    let mut sas = String::new();
    sas.push(digit((v / 100000) % 10));
    sas.push(digit((v / 10000) % 10));
    sas.push(digit((v / 1000) % 10));
    sas.push(digit((v / 100) % 10));
    sas.push(digit((v / 10) % 10));
    sas.push(digit(v % 10));
    assert(sas@ =~= six_digits(v as nat));
    assert forall|i: int| 0 <= i < 6 implies is_ascii_digit(#[trigger] sas@[i]) by {
        let d: nat = if i == 0 { (v as nat / 100000) % 10 }
            else if i == 1 { (v as nat / 10000) % 10 }
            else if i == 2 { (v as nat / 1000) % 10 }
            else if i == 3 { (v as nat / 100) % 10 }
            else if i == 4 { (v as nat / 10) % 10 }
            else { v as nat % 10 };
        assert(sas@[i] == digit_char(d));
    }
    sas
}

/// Pairing key and SAS from the X25519 shared secret and the transcript.
pub fn derive_pairing(shared: &[u8; 32], transcript: &[u8]) -> (m: PairingMaterial)
    ensures
        m.pairing_key@ == spec_pairing_key(shared@, transcript@),
        m.sas@ == spec_sas(shared@, transcript@),
        m.pairing_key@ == hkdf_sha256(sha256_digest(transcript@), shared@, INFO_PAIRING_KEY.spec_bytes(), 32),
        m.sas@ == spec_sas_text(hkdf_sha256(sha256_digest(transcript@), shared@, INFO_SAS.spec_bytes(), 4)),
        m.sas@.len() == 6,
        forall|i: int| 0 <= i < 6 ==> is_ascii_digit(#[trigger] m.sas@[i]),
{
    let salt = sha256(transcript);
    let pairing_key: [u8; 32] = hkdf_expand(&salt, shared, INFO_PAIRING_KEY.as_bytes());
    let sas_bytes: [u8; 4] = hkdf_expand(&salt, shared, INFO_SAS.as_bytes());
    PairingMaterial { pairing_key, sas: sas_from_bytes(sas_bytes) }
}

/// The per-connection key for a pairing key and the two salts.
pub open spec fn spec_session_key(pairing_key: Seq<u8>, salt_a: Seq<u8>, salt_b: Seq<u8>) -> Seq<u8> {
    hkdf_sha256(salt_a + salt_b, pairing_key, INFO_SESSION.spec_bytes(), 32)
}

/// Derives the per-connection key: HKDF with the two salts, client's first.
pub fn derive_session_key(pairing_key: &[u8; 32], salt_a: &[u8; 32], salt_b: &[u8; 32]) -> (k: [u8; 32])
    ensures
        k@ == spec_session_key(pairing_key@, salt_a@, salt_b@),
        k@ == hkdf_sha256(salt_a@ + salt_b@, pairing_key@, INFO_SESSION.spec_bytes(), 32),
{
    let mut salt: Vec<u8> = Vec::with_capacity(64);
    append_bytes(&mut salt, salt_a);
    append_bytes(&mut salt, salt_b);
    hkdf_expand(&salt, pairing_key, INFO_SESSION.as_bytes())
}

/// The session key is HKDF-SHA256 of the pairing key, salted with the
/// client's salt followed by the server's, under the label
/// "nearclip session v1": both fresh salts bind it, each in its place.
pub proof fn law_session_key_binds_both_salts(pairing_key: Seq<u8>, salt_a: Seq<u8>, salt_b: Seq<u8>)
    ensures
        spec_session_key(pairing_key, salt_a, salt_b)
            == hkdf_sha256(salt_a + salt_b, pairing_key, INFO_SESSION.spec_bytes(), 32),
        (salt_a + salt_b).subrange(0, salt_a.len() as int) == salt_a,
        (salt_a + salt_b).subrange(salt_a.len() as int, (salt_a.len() + salt_b.len()) as int) == salt_b,
{
    assert((salt_a + salt_b).subrange(0, salt_a.len() as int) =~= salt_a);
    assert((salt_a + salt_b).subrange(salt_a.len() as int, (salt_a.len() + salt_b.len()) as int) =~= salt_b);
}

/// The pairing key and the SAS are both bound to the transcript the same
/// way: HKDF-SHA256 of the shared secret salted with the SHA-256 of the
/// transcript, the key 32 bytes under "nearclip pairing key v1" and the SAS
/// from 4 bytes under "nearclip sas v1".
pub proof fn law_pairing_binds_transcript(shared: Seq<u8>, transcript: Seq<u8>)
    ensures
        spec_pairing_key(shared, transcript)
            == hkdf_sha256(sha256_digest(transcript), shared, INFO_PAIRING_KEY.spec_bytes(), 32),
        spec_sas(shared, transcript)
            == spec_sas_text(hkdf_sha256(sha256_digest(transcript), shared, INFO_SAS.spec_bytes(), 4)),
{
}

/// The SAS for four bytes is six decimal digits whose value is the bytes'
/// big-endian number modulo one million.
pub proof fn law_sas_text(b: Seq<u8>)
    requires
        b.len() == 4,
    ensures
        spec_sas_text(b).len() == 6,
        forall|i: int| 0 <= i < 6 ==> '0' <= #[trigger] spec_sas_text(b)[i] <= '9',
        (spec_sas_text(b)[0] as int - 48) * 100000 + (spec_sas_text(b)[1] as int - 48) * 10000
            + (spec_sas_text(b)[2] as int - 48) * 1000 + (spec_sas_text(b)[3] as int - 48) * 100
            + (spec_sas_text(b)[4] as int - 48) * 10 + (spec_sas_text(b)[5] as int - 48)
            == ((b[0] as int) * 16777216 + (b[1] as int) * 65536 + (b[2] as int) * 256 + (b[3] as int)) % 1000000,
{
    let n: nat = be_u32(b) % 1_000_000;
    assert(n < 1000000);
    let t = spec_sas_text(b);
    let (d0, d1, d2, d3, d4, d5) = ((n / 100000) % 10, (n / 10000) % 10, (n / 1000) % 10, (n / 100) % 10, (n / 10) % 10, n % 10);
    assert(t[0] as int == d0 + 48 && t[1] as int == d1 + 48 && t[2] as int == d2 + 48);
    assert(t[3] as int == d3 + 48 && t[4] as int == d4 + 48 && t[5] as int == d5 + 48);
    assert(d0 * 100000 + d1 * 10000 + d2 * 1000 + d3 * 100 + d4 * 10 + d5 == n) by (nonlinear_arith)
        requires
            n < 1000000,
            d0 == (n / 100000) % 10,
            d1 == (n / 10000) % 10,
            d2 == (n / 1000) % 10,
            d3 == (n / 100) % 10,
            d4 == (n / 10) % 10,
            d5 == n % 10,
    ;
    assert forall|i: int| 0 <= i < 6 implies '0' <= #[trigger] t[i] <= '9' by {
        assert(t[i] as int >= 48 && t[i] as int <= 57);
    }
}

/// What [`seal`] returns for `key` and `plaintext`: a nonce and the matching
/// ciphertext, or `Crypto` when the plaintext is too long for AES-GCM.
pub open spec fn seal_result(key: Seq<u8>, plaintext: Seq<u8>, r: Result<([u8; 12], Vec<u8>), AppError>) -> bool {
    match r {
        Ok((nonce, ct)) => {
            &&& plaintext.len() <= AES_GCM_P_MAX
            &&& ct@ == aes256gcm_seal(key, nonce@, plaintext)
            &&& ct@.len() == plaintext.len() + AES_GCM_TAG_LEN
            &&& aes256gcm_open(key, nonce@, ct@) == Some(plaintext)
        },
        Err(e) => no_randomness(e) || plaintext.len() > AES_GCM_P_MAX && e is Crypto,
    }
}

/// Encrypts `plaintext` under `key` with a fresh random nonce; fails when the
/// system has no randomness or the plaintext is too long for AES-GCM.
pub fn seal(key: &[u8; 32], plaintext: &[u8]) -> (r: Result<([u8; 12], Vec<u8>), AppError>)
    ensures
        seal_result(key@, plaintext@, r),
{
    let nonce: [u8; 12] = fresh_bytes()?;
    match aes256gcm_encrypt(key, &nonce, plaintext) {
        Some(ct) => Ok((nonce, ct)),
        None => Err(AppError::Crypto),
    }
}

/// What [`open`] returns: the authenticated plaintext, or `Crypto`.
pub open spec fn open_result(key: Seq<u8>, nonce: Seq<u8>, ciphertext: Seq<u8>, r: Result<Vec<u8>, AppError>) -> bool {
    match r {
        Ok(p) => aes256gcm_open(key, nonce, ciphertext) == Some(p@),
        Err(e) => aes256gcm_open(key, nonce, ciphertext) is None && e is Crypto,
    }
}

/// Decrypts and authenticates `ciphertext`.
pub fn open(key: &[u8; 32], nonce: &[u8; 12], ciphertext: &[u8]) -> (r: Result<Vec<u8>, AppError>)
    ensures
        open_result(key@, nonce@, ciphertext@, r),
{
    match aes256gcm_decrypt(key, nonce, ciphertext) {
        Some(p) => Ok(p),
        None => Err(AppError::Crypto),
    }
}

/// Opening what [`seal`] produced, with the same key, gives the plaintext back.
pub proof fn law_open_after_seal(
    key: Seq<u8>,
    plaintext: Seq<u8>,
    sealed: Result<([u8; 12], Vec<u8>), AppError>,
    opened: Result<Vec<u8>, AppError>,
)
    requires
        seal_result(key, plaintext, sealed),
        sealed is Ok,
        open_result(key, sealed->Ok_0.0@, sealed->Ok_0.1@, opened),
    ensures
        opened matches Ok(p) && p@ == plaintext,
{
}

/// Both sides of a pairing derive the same pairing key and SAS: each combines
/// its own ephemeral secret with the other's public key, over the same
/// transcript.
pub proof fn law_both_sides_agree(secret_a: [u8; 32], secret_b: [u8; 32], pub_a: [u8; 32], pub_b: [u8; 32], transcript: Seq<u8>)
    requires
        pub_a@ == x25519_public(secret_a@),
        pub_b@ == x25519_public(secret_b@),
        forall|other: Seq<u8>|
            other.len() == 32 ==> #[trigger] x25519_shared(other, pub_a@) == x25519_shared(
                secret_a@,
                x25519_public(other),
            ),
    ensures
        spec_pairing_key(x25519_shared(secret_a@, pub_b@), transcript)
            == spec_pairing_key(x25519_shared(secret_b@, pub_a@), transcript),
        spec_sas(x25519_shared(secret_a@, pub_b@), transcript)
            == spec_sas(x25519_shared(secret_b@, pub_a@), transcript),
{
    assert(x25519_shared(secret_b@, pub_a@) == x25519_shared(secret_a@, x25519_public(secret_b@)));
}

} // verus!
