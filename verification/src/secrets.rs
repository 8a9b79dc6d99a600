//! Secrets at rest. One 32-byte master key seals the identity seed and every
//! pairing key inside the JSON store files, so those files hold no usable key
//! material. Where the master key is kept (the OS credential store, or a
//! private file) is the I/O layer's part; sealing and reading the stored
//! forms is here.

use vstd::prelude::*;

use crate::crypto::{aes256gcm_open, aes256gcm_seal, fresh_bytes, no_randomness, open, seal, AES_GCM_P_MAX};
use crate::error::AppError;
use crate::protocol::{b64d, b64d_array, b64d_array_result, b64e, base64_decode, base64_encode};
use crate::text::{chars_of, string_of, trim_chars, trim_ws};

verus! {

/// The master key, once it is known. It is set at most once.
pub struct MasterKeySlot {
    key: Option<[u8; 32]>,
}

impl MasterKeySlot {
    /// The key, if set.
    pub closed spec fn value(&self) -> Option<Seq<u8>> {
        match self.key {
            Some(k) => Some(k@),
            None => None,
        }
    }

    /// A slot with no key yet.
    pub fn new() -> (s: MasterKeySlot)
        ensures
            s.value() is None,
    {
        MasterKeySlot { key: None }
    }

    /// Sets the key unless one is already set; the first key stays.
    pub fn set(&mut self, key: [u8; 32])
        ensures
            final(self).value() == if old(self).value() is Some { old(self).value() } else { Some(key@) },
    {
        if self.key.is_none() {
            self.key = Some(key);
        }
    }
}

/// Sets a random master key unless one is already set (for tests); fails,
/// leaving the slot empty, when the system has no randomness.
pub fn init_for_tests(slot: &mut MasterKeySlot) -> (r: Result<(), AppError>)
    ensures
        old(slot).value() is Some ==> r is Ok && final(slot).value() == old(slot).value(),
        r is Ok ==> final(slot).value() is Some,
        r matches Err(e) ==> old(slot).value() is None && final(slot).value() is None && no_randomness(e),
{
    if slot.key.is_some() {
        return Ok(());
    }
    let key: [u8; 32] = fresh_bytes()?;
    slot.set(key);
    Ok(())
}

/// The master key; using secrets before it is loaded is an error.
pub fn master_key(slot: &MasterKeySlot) -> (r: Result<[u8; 32], AppError>)
    ensures
        match r {
            Ok(k) => slot.value() == Some(k@),
            Err(e) => slot.value() is None && e.is_msg("secrets not initialized"@),
        },
{
    match slot.key {
        Some(k) => Ok(k),
        None => Err(AppError::msg("secrets not initialized")),
    }
}

/// AES-256-GCM under the master key, in the same shape as the wire `Enc` frame.
pub struct Sealed {
    pub n: String,
    pub c: String,
}

/// What [`seal_bytes`] returns: `n` and `c` are the base64 nonce and
/// ciphertext of `plaintext` under the master key.
pub open spec fn seal_bytes_result(master: Option<Seq<u8>>, plaintext: Seq<u8>, r: Result<Sealed, AppError>) -> bool {
    match master {
        None => r matches Err(e) && e.is_msg("secrets not initialized"@),
        Some(key) => match r {
            Ok(s) => exists|nonce: Seq<u8>|
                #![trigger aes256gcm_seal(key, nonce, plaintext)]
                {
                    &&& nonce.len() == 12
                    &&& s.n@ == base64_encode(nonce)
                    &&& base64_decode(s.n@) == Some(nonce)
                    &&& s.c@ == base64_encode(aes256gcm_seal(key, nonce, plaintext))
                    &&& base64_decode(s.c@) == Some(aes256gcm_seal(key, nonce, plaintext))
                    &&& aes256gcm_open(key, nonce, aes256gcm_seal(key, nonce, plaintext)) == Some(plaintext)
                },
            Err(e) => no_randomness(e) || plaintext.len() > AES_GCM_P_MAX && e is Crypto,
        },
    }
}

/// Seals `plaintext` under the master key.
pub fn seal_bytes(slot: &MasterKeySlot, plaintext: &[u8]) -> (r: Result<Sealed, AppError>)
    ensures
        seal_bytes_result(slot.value(), plaintext@, r),
{
    let key = master_key(slot)?;
    let (nonce, ciphertext) = seal(&key, plaintext)?;
    Ok(Sealed { n: b64e(&nonce), c: b64e(ciphertext.as_slice()) })
}

/// The plaintext of a sealed value, when the master key is set, both
/// fields are valid base64, the nonce has 12 bytes and the ciphertext
/// authenticates.
pub open spec fn sealed_plaintext(master: Option<Seq<u8>>, n: Seq<char>, c: Seq<char>) -> Option<Seq<u8>> {
    match (master, base64_decode(n), base64_decode(c)) {
        (Some(key), Some(nonce), Some(ct)) => if nonce.len() == 12 {
            aes256gcm_open(key, nonce, ct)
        } else {
            None
        },
        _ => None,
    }
}

/// The error [`open_bytes`] reports when a sealed value does not open: the
/// first step that fails decides it.
pub open spec fn open_bytes_error(master: Option<Seq<u8>>, n: Seq<char>, c: Seq<char>, e: AppError) -> bool {
    match master {
        None => e.is_msg("secrets not initialized"@),
        Some(key) => match base64_decode(n) {
            None => e.is_protocol_msg("invalid base64"@),
            Some(nonce) => if nonce.len() != 12 {
                e.is_protocol_msg(crate::protocol::expected_bytes_text(12))
            } else {
                match base64_decode(c) {
                    None => e.is_protocol_msg("invalid base64"@),
                    Some(ct) => e is Crypto,
                }
            },
        },
    }
}

/// What [`open_bytes`] returns for a sealed value.
pub open spec fn open_bytes_result(master: Option<Seq<u8>>, n: Seq<char>, c: Seq<char>, r: Result<Vec<u8>, AppError>) -> bool {
    match r {
        Ok(p) => sealed_plaintext(master, n, c) == Some(p@),
        Err(e) => sealed_plaintext(master, n, c) is None && open_bytes_error(master, n, c, e),
    }
}

/// Opens a value sealed under the master key.
pub fn open_bytes(slot: &MasterKeySlot, sealed: &Sealed) -> (r: Result<Vec<u8>, AppError>)
    ensures
        open_bytes_result(slot.value(), sealed.n@, sealed.c@, r),
{
    let key = master_key(slot)?;
    let nonce: [u8; 12] = b64d_array(sealed.n.as_str())?;
    let ct = b64d(sealed.c.as_str())?;
    open(&key, &nonce, ct.as_slice())
}

/// A 32-byte key field as stored: sealed, or as older versions wrote it (a
/// plain byte array, or base64 for the identity seed).
pub enum KeyRepr {
    Sealed(Sealed),
    Plain([u8; 32]),
    Base64(String),
}

/// Writes a 32-byte key field: sealed under the master key.
pub fn seal_key32(slot: &MasterKeySlot, key: &[u8; 32]) -> (r: Result<KeyRepr, AppError>)
    ensures
        match r {
            Ok(KeyRepr::Sealed(s)) => seal_bytes_result(slot.value(), key@, Ok(s)),
            Ok(_) => false,
            Err(e) => slot.value() is None && e.is_msg("secrets not initialized"@)
                || slot.value() is Some && no_randomness(e),
        },
{
    match seal_bytes(slot, key) {
        Ok(s) => Ok(KeyRepr::Sealed(s)),
        Err(e) => Err(e),
    }
}

/// Reads a 32-byte key field in any of its stored forms.
pub fn key32_from_repr(slot: &MasterKeySlot, repr: &KeyRepr) -> (r: Result<[u8; 32], AppError>)
    ensures
        match repr {
            KeyRepr::Sealed(s) => match r {
                Ok(k) => sealed_plaintext(slot.value(), s.n@, s.c@) == Some(k@),
                Err(e) => match sealed_plaintext(slot.value(), s.n@, s.c@) {
                    None => open_bytes_error(slot.value(), s.n@, s.c@, e),
                    Some(p) => p.len() != 32 && e is Crypto,
                },
            },
            KeyRepr::Plain(k) => r == Ok::<[u8; 32], AppError>(*k),
            KeyRepr::Base64(t) => b64d_array_result::<32>(t@, r),
        },
        match r {
            Ok(k) => key32_read(slot.value(), *repr) == Some(k@),
            Err(_) => key32_read(slot.value(), *repr) is None,
        },
{
    match repr {
        KeyRepr::Sealed(s) => {
            let bytes = open_bytes(slot, s)?;
            if bytes.len() != 32 {
                return Err(AppError::Crypto);
            }
            let k: [u8; 32] = crate::bytes::array_from(bytes.as_slice(), 0);
            assert(bytes@.subrange(0, 32) =~= bytes@);
            Ok(k)
        },
        KeyRepr::Plain(k) => Ok(*k),
        KeyRepr::Base64(t) => b64d_array(t.as_str()),
    }
}

/// A key field written by [`seal_key32`] reads back as the same key.
pub proof fn law_key32_roundtrip(master: Seq<u8>, key: Seq<u8>, s: Sealed)
    requires
        key.len() == 32,
        seal_bytes_result(Some(master), key, Ok(s)),
    ensures
        sealed_plaintext(Some(master), s.n@, s.c@) == Some(key),
{
    let nonce = choose|nonce: Seq<u8>|
        #![trigger aes256gcm_seal(master, nonce, key)]
        {
            &&& nonce.len() == 12
            &&& s.n@ == base64_encode(nonce)
            &&& base64_decode(s.n@) == Some(nonce)
            &&& s.c@ == base64_encode(aes256gcm_seal(master, nonce, key))
            &&& base64_decode(s.c@) == Some(aes256gcm_seal(master, nonce, key))
            &&& aes256gcm_open(master, nonce, aes256gcm_seal(master, nonce, key)) == Some(key)
        };
}

/// The master key kept in a file: its text, trimmed, in base64.
pub fn key_from_file_text(text: &str) -> (r: Option<[u8; 32]>)
    ensures
        match r {
            Some(k) => base64_decode(trim_ws(text@)) == Some(k@),
            None => !(base64_decode(trim_ws(text@)) matches Some(b) && b.len() == 32),
        },
{
    let trimmed = string_of(&trim_chars(&chars_of(text)));
    match b64d_array::<32>(trimmed.as_str()) {
        Ok(k) => Some(k),
        Err(_) => None,
    }
}

/// The master key as the credential store returned it: exactly 32 bytes.
pub fn key_from_secret(secret: Vec<u8>) -> (r: Result<[u8; 32], AppError>)
    ensures
        match r {
            Ok(k) => secret@ == k@,
            Err(e) => secret@.len() != 32 && e is Crypto,
        },
{
    if secret.len() != 32 {
        return Err(AppError::Crypto);
    }
    let k: [u8; 32] = crate::bytes::array_from(secret.as_slice(), 0);
    assert(secret@.subrange(0, 32) =~= secret@);
    Ok(k)
}

/// The key a stored 32-byte key field holds, when it can be read: a sealed
/// field that opens to 32 bytes, a plain array, or base64 of 32 bytes.
pub open spec fn key32_read(master: Option<Seq<u8>>, repr: KeyRepr) -> Option<Seq<u8>> {
    match repr {
        KeyRepr::Sealed(s) => match sealed_plaintext(master, s.n@, s.c@) {
            Some(p) => if p.len() == 32 { Some(p) } else { None },
            None => None,
        },
        KeyRepr::Plain(k) => Some(k@),
        KeyRepr::Base64(t) => match base64_decode(t@) {
            Some(b) => if b.len() == 32 { Some(b) } else { None },
            None => None,
        },
    }
}

/// What the credential store answered when asked for the master key.
pub enum KeychainRead {
    /// The stored secret.
    Found(Vec<u8>),
    /// No entry yet.
    Missing,
    /// The system has no credential store at all (no default store, or the
    /// platform failed).
    Unavailable,
    /// Any other failure, such as access denied or a locked store.
    Failed(AppError),
}

/// Where the master key comes from.
pub enum MasterKeySource {
    /// The credential store held it.
    Stored([u8; 32]),
    /// A new key, to be stored in the credential store.
    Create([u8; 32]),
    /// No credential store: the key is kept in a file.
    File,
}

/// What to do with the credential store's answer. A secret that is not 32
/// bytes is an error, and so is any failure but a missing store: silently
/// switching to a file key would re-key and orphan every pairing.
pub fn master_key_source(read: KeychainRead) -> (r: Result<MasterKeySource, AppError>)
    ensures
        match read {
            KeychainRead::Found(secret) => match r {
                Ok(MasterKeySource::Stored(k)) => secret@ == k@,
                Ok(_) => false,
                Err(e) => secret@.len() != 32 && e is Crypto,
            },
            KeychainRead::Missing => (r matches Ok(MasterKeySource::Create(_))) || (r matches Err(e) && no_randomness(e)),
            KeychainRead::Unavailable => r matches Ok(MasterKeySource::File),
            KeychainRead::Failed(e) => r == Err::<MasterKeySource, AppError>(e),
        },
{
    match read {
        KeychainRead::Found(secret) => match key_from_secret(secret) {
            Ok(k) => Ok(MasterKeySource::Stored(k)),
            Err(e) => Err(e),
        },
        KeychainRead::Missing => match fresh_bytes() {
            Ok(k) => Ok(MasterKeySource::Create(k)),
            Err(e) => Err(e),
        },
        KeychainRead::Unavailable => Ok(MasterKeySource::File),
        KeychainRead::Failed(e) => Err(e),
    }
}

/// Whether the text of the key file holds a key: 32 bytes in base64,
/// surrounding white space aside.
pub open spec fn file_holds_key(text: Option<Seq<char>>) -> bool {
    text matches Some(t) && base64_decode(trim_ws(t)) matches Some(b) && b.len() == 32
}

/// The master key kept in a file: the key the file holds, else a new one
/// (to be written back); a new one cannot be made when the system has no
/// randomness.
pub fn file_key(text: Option<&str>) -> (r: Result<([u8; 32], bool), AppError>)
    ensures
        match r {
            Ok((k, false)) => file_holds_key(match text { Some(t) => Some(t@), None => None })
                && base64_decode(trim_ws(text->Some_0@)) == Some(k@),
            Ok((_, true)) => !file_holds_key(match text { Some(t) => Some(t@), None => None }),
            Err(e) => !file_holds_key(match text { Some(t) => Some(t@), None => None }) && no_randomness(e),
        },
{
    if let Some(t) = text {
        if let Some(k) = key_from_file_text(t) {
            return Ok((k, false));
        }
    }
    let k: [u8; 32] = fresh_bytes()?;
    Ok((k, true))
}

} // verus!
