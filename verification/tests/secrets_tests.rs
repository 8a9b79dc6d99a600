use nearclip::crypto::random_bytes;
use nearclip::error::AppError;
use nearclip::protocol::b64e;
use nearclip::secrets::{
    file_key, init_for_tests, key32_from_repr, key_from_file_text, key_from_secret, master_key, master_key_source,
    open_bytes, seal_bytes, seal_key32, KeychainRead, KeyRepr, MasterKeySlot, MasterKeySource, Sealed,
};

#[test]
fn key32_field_roundtrips_sealed_and_rejects_tampering() {
    let mut slot = MasterKeySlot::new();
    init_for_tests(&mut slot).unwrap();
    let key: [u8; 32] = random_bytes().unwrap();
    let repr = seal_key32(&slot, &key).unwrap();
    let KeyRepr::Sealed(sealed) = repr else { panic!("a key field is written sealed") };
    assert!(!sealed.c.contains(&b64e(&key)));
    let back = key32_from_repr(&slot, &KeyRepr::Sealed(Sealed { n: sealed.n.clone(), c: sealed.c.clone() })).unwrap();
    assert_eq!(back, key);

    let tampered = KeyRepr::Sealed(Sealed { n: sealed.n, c: b64e(&[0u8; 48]) });
    assert!(key32_from_repr(&slot, &tampered).is_err());
}

#[test]
fn key32_field_reads_legacy_plain_formats() {
    let mut slot = MasterKeySlot::new();
    init_for_tests(&mut slot).unwrap();
    let key: [u8; 32] = random_bytes().unwrap();
    assert_eq!(key32_from_repr(&slot, &KeyRepr::Plain(key)).unwrap(), key);
    assert_eq!(key32_from_repr(&slot, &KeyRepr::Base64(b64e(&key))).unwrap(), key);
}

#[test]
fn the_master_key_is_set_once() {
    let mut slot = MasterKeySlot::new();
    match master_key(&slot) {
        Err(AppError::Msg(m)) => assert_eq!(m, "secrets not initialized"),
        other => panic!("unexpected {other:?}"),
    }
    slot.set([1u8; 32]);
    slot.set([2u8; 32]);
    assert_eq!(master_key(&slot).unwrap(), [1u8; 32]);
    init_for_tests(&mut slot).unwrap();
    assert_eq!(master_key(&slot).unwrap(), [1u8; 32]);
}

#[test]
fn sealing_needs_the_master_key() {
    let slot = MasterKeySlot::new();
    assert!(matches!(seal_bytes(&slot, b"x"), Err(AppError::Msg(_))));
    assert!(matches!(seal_key32(&slot, &[0u8; 32]), Err(AppError::Msg(_))));
}

#[test]
fn sealed_bytes_open_under_the_same_master_key_only() {
    let mut a = MasterKeySlot::new();
    init_for_tests(&mut a).unwrap();
    let s = seal_bytes(&a, b"secret").unwrap();
    assert_eq!(open_bytes(&a, &s).unwrap(), b"secret");
    let mut b = MasterKeySlot::new();
    b.set([7u8; 32]);
    assert!(matches!(open_bytes(&b, &s), Err(AppError::Crypto)));
    let short_key = seal_bytes(&a, &[1u8; 16]).unwrap();
    assert!(matches!(key32_from_repr(&a, &KeyRepr::Sealed(short_key)), Err(AppError::Crypto)));
}

#[test]
fn the_key_file_holds_trimmed_base64_of_32_bytes() {
    let key = [5u8; 32];
    let text = format!("  {}\n", b64e(&key));
    assert_eq!(key_from_file_text(&text), Some(key));
    assert_eq!(key_from_file_text(&b64e(&[5u8; 31])), None);
    assert_eq!(key_from_file_text("garbage"), None);
    assert_eq!(file_key(Some(&text)).unwrap(), (key, false));
    let (fresh, write) = file_key(Some("garbage")).unwrap();
    assert!(write);
    assert_ne!(fresh, [0u8; 32]);
    assert!(file_key(None).unwrap().1);
}

#[test]
fn the_credential_store_answer_decides_the_source() {
    assert!(matches!(master_key_source(KeychainRead::Found(vec![3u8; 32])), Ok(MasterKeySource::Stored(k)) if k == [3u8; 32]));
    assert!(matches!(master_key_source(KeychainRead::Found(vec![3u8; 31])), Err(AppError::Crypto)));
    assert!(matches!(master_key_source(KeychainRead::Missing), Ok(MasterKeySource::Create(_))));
    assert!(matches!(master_key_source(KeychainRead::Unavailable), Ok(MasterKeySource::File)));
    assert!(matches!(master_key_source(KeychainRead::Failed(AppError::Timeout)), Err(AppError::Timeout)));
    assert_eq!(key_from_secret(vec![9u8; 32]).unwrap(), [9u8; 32]);
}
