use nearclip::crypto::{
    commit, derive_pairing, derive_session_key, open, pairing_transcript, random_bytes, sas_from_bytes, seal,
    sha256, x25519_diffie_hellman, x25519_public_key,
};

fn ecdh_pair() -> ([u8; 32], [u8; 32]) {
    let a: [u8; 32] = random_bytes().unwrap();
    let b: [u8; 32] = random_bytes().unwrap();
    let pa = x25519_public_key(&a);
    let pb = x25519_public_key(&b);
    (x25519_diffie_hellman(&a, &pb), x25519_diffie_hellman(&b, &pa))
}

#[test]
fn both_sides_derive_same_pairing_material() {
    let (shared_a, shared_b) = ecdh_pair();
    assert_eq!(shared_a, shared_b);
    let t = b"transcript";
    let ma = derive_pairing(&shared_a, t);
    let mb = derive_pairing(&shared_b, t);
    assert_eq!(ma.pairing_key, mb.pairing_key);
    assert_eq!(ma.sas, mb.sas);
    assert_eq!(ma.sas.len(), 6);
    assert!(ma.sas.chars().all(|c| c.is_ascii_digit()));
}

#[test]
fn different_transcript_gives_different_sas_and_key() {
    let (shared, _) = ecdh_pair();
    let m1 = derive_pairing(&shared, b"t1");
    let m2 = derive_pairing(&shared, b"t2");
    assert_ne!(m1.pairing_key, m2.pairing_key);
}

#[test]
fn mitm_with_two_shared_secrets_yields_different_keys() {
    let (shared_a, _) = ecdh_pair();
    let (shared_b, _) = ecdh_pair();
    let t = b"same transcript";
    assert_ne!(derive_pairing(&shared_a, t).pairing_key, derive_pairing(&shared_b, t).pairing_key);
}

#[test]
fn commit_mismatch_is_detectable() {
    let eph: [u8; 32] = random_bytes().unwrap();
    let nonce: [u8; 32] = random_bytes().unwrap();
    let other: [u8; 32] = random_bytes().unwrap();
    assert_eq!(commit(&eph, &nonce), commit(&eph, &nonce));
    assert_ne!(commit(&eph, &nonce), commit(&other, &nonce));
}

#[test]
fn seal_open_roundtrip_and_tamper_fails() {
    let key: [u8; 32] = random_bytes().unwrap();
    let (nonce, mut ct) = seal(&key, b"hello clipboard").unwrap();
    assert_eq!(open(&key, &nonce, &ct).unwrap(), b"hello clipboard");
    ct[0] ^= 0x01;
    assert!(open(&key, &nonce, &ct).is_err());
    let wrong: [u8; 32] = random_bytes().unwrap();
    ct[0] ^= 0x01;
    assert!(open(&wrong, &nonce, &ct).is_err());
}

#[test]
fn session_key_is_deterministic_and_salt_sensitive() {
    let pk: [u8; 32] = random_bytes().unwrap();
    let s1: [u8; 32] = random_bytes().unwrap();
    let s2: [u8; 32] = random_bytes().unwrap();
    assert_eq!(derive_session_key(&pk, &s1, &s2), derive_session_key(&pk, &s1, &s2));
    assert_ne!(derive_session_key(&pk, &s1, &s2), derive_session_key(&pk, &s2, &s1));
}

#[test]
fn sas_is_the_big_endian_number_mod_a_million_zero_padded() {
    assert_eq!(sas_from_bytes([0, 0, 0, 7]), "000007");
    assert_eq!(sas_from_bytes([0, 0x0f, 0x42, 0x40]), "000000");
    assert_eq!(sas_from_bytes([0xff, 0xff, 0xff, 0xff]), "967295");
    assert_eq!(sas_from_bytes([0x00, 0x01, 0xe2, 0x40]), "123456");
}

#[test]
fn sha256_of_abc_is_the_standard_digest() {
    let d = sha256(b"abc");
    assert_eq!(
        d,
        [
            0xba, 0x78, 0x16, 0xbf, 0x8f, 0x01, 0xcf, 0xea, 0x41, 0x41, 0x40, 0xde, 0x5d, 0xae, 0x22, 0x23, 0xb0,
            0x03, 0x61, 0xa3, 0x96, 0x17, 0x7a, 0x9c, 0xb4, 0x10, 0xff, 0x61, 0xf2, 0x00, 0x15, 0xad
        ]
    );
}

#[test]
fn commit_is_the_hash_of_key_then_nonce() {
    let eph = [1u8; 32];
    let nonce = [2u8; 32];
    let mut both = Vec::new();
    both.extend_from_slice(&eph);
    both.extend_from_slice(&nonce);
    assert_eq!(commit(&eph, &nonce), sha256(&both));
}

#[test]
fn transcript_is_prefix_then_the_six_values() {
    let parts: Vec<[u8; 32]> = (0u8..6).map(|i| [i; 32]).collect();
    let t = pairing_transcript(&parts[0], &parts[1], &parts[2], &parts[3], &parts[4], &parts[5]);
    assert_eq!(t.len(), b"nearclip-pair-v1".len() + 6 * 32);
    assert_eq!(&t[..16], b"nearclip-pair-v1");
    for (i, p) in parts.iter().enumerate() {
        assert_eq!(&t[16 + 32 * i..16 + 32 * (i + 1)], p);
    }
}

#[test]
fn open_of_garbage_is_a_crypto_error() {
    let key = [9u8; 32];
    let r = open(&key, &[0u8; 12], b"not a ciphertext at all");
    assert!(matches!(r, Err(nearclip::error::AppError::Crypto)));
}
