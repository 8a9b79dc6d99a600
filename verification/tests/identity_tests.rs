use nearclip::crypto::random_bytes;
use nearclip::identity::{device_id_from_pk, fingerprint_of, hex_decode, hex_encode, verify, Identity, StoredSeed};
use nearclip::protocol::b64e;
use nearclip::secrets::{init_for_tests, key32_from_repr, KeyRepr, MasterKeySlot};

#[test]
fn sign_verify_and_stable_device_id() {
    let seed: [u8; 32] = random_bytes().unwrap();
    let id1 = Identity::from_seed(seed);
    let id2 = Identity::from_seed(seed);
    assert_eq!(id1.device_id, id2.device_id);
    assert_eq!(id1.device_id.len(), 32);
    let sig = id1.sign(b"msg");
    assert!(verify(&id1.public_key(), b"msg", &sig).is_ok());
    assert!(verify(&id1.public_key(), b"other", &sig).is_err());
    assert_eq!(fingerprint_of("abcdefgh").as_str(), "abcd efgh");
}

#[test]
fn rfc8032_first_vector_public_key() {
    let seed: [u8; 32] = hex_decode("9d61b19deffd5a60ba844af492ec2cc44449c5697b326919703bac031cae7f60")
        .unwrap()
        .try_into()
        .unwrap();
    let id = Identity::from_seed(seed);
    assert_eq!(
        hex_encode(&id.public_key()),
        "d75a980182b10ab7d54bfed3c964073a0ee172f3daa62325af021a68f707511a"
    );
    assert_eq!(id.device_id, device_id_from_pk(&id.public_key()));
    assert_eq!(id.public_key_b64(), b64e(&id.public_key()));
}

#[test]
fn fingerprint_groups_by_four_and_keeps_a_short_tail() {
    assert_eq!(fingerprint_of(""), "");
    assert_eq!(fingerprint_of("abc"), "abc");
    assert_eq!(fingerprint_of("abcdefghij"), "abcd efgh ij");
    let id = Identity::from_seed([7u8; 32]);
    let f = id.fingerprint();
    assert_eq!(f.len(), 32 + 7);
    assert_eq!(f.replace(' ', ""), id.device_id);
}

#[test]
fn hex_decode_refuses_odd_length_and_non_digits() {
    assert_eq!(hex_decode("00ff").unwrap(), vec![0u8, 255]);
    assert_eq!(hex_decode("ABcd").unwrap(), vec![0xabu8, 0xcd]);
    assert!(hex_decode("abc").is_none());
    assert!(hex_decode("zz").is_none());
}

#[test]
fn a_new_identity_is_created_and_sealed_for_saving() {
    let mut slot = MasterKeySlot::new();
    init_for_tests(&mut slot).unwrap();
    let (id, save) = Identity::load_or_create(&slot, StoredSeed::Absent).unwrap();
    let repr = save.expect("a new seed is saved");
    assert!(matches!(repr, KeyRepr::Sealed(_)));
    let seed = key32_from_repr(&slot, &repr).unwrap();
    assert_eq!(Identity::from_seed(seed).device_id, id.device_id);
}

#[test]
fn a_stored_sealed_seed_is_kept_and_not_saved_again() {
    let mut slot = MasterKeySlot::new();
    init_for_tests(&mut slot).unwrap();
    let seed: [u8; 32] = random_bytes().unwrap();
    let sealed = nearclip::secrets::seal_key32(&slot, &seed).unwrap();
    let (id, save) = Identity::load_or_create(&slot, StoredSeed::Key(sealed)).unwrap();
    assert!(save.is_none());
    assert_eq!(id.device_id, Identity::from_seed(seed).device_id);
}

#[test]
fn a_legacy_base64_seed_is_kept_and_migrated() {
    let mut slot = MasterKeySlot::new();
    init_for_tests(&mut slot).unwrap();
    let seed: [u8; 32] = random_bytes().unwrap();
    let (id, save) = Identity::load_or_create(&slot, StoredSeed::Key(KeyRepr::Base64(b64e(&seed)))).unwrap();
    assert_eq!(id.device_id, Identity::from_seed(seed).device_id);
    let repr = save.expect("a legacy seed is saved sealed");
    assert_eq!(key32_from_repr(&slot, &repr).unwrap(), seed);
}

#[test]
fn an_unreadable_sealed_seed_gives_a_new_identity_left_unsaved() {
    let mut slot = MasterKeySlot::new();
    init_for_tests(&mut slot).unwrap();
    let (_, save) = Identity::load_or_create(&slot, StoredSeed::Unreadable { sealed: true }).unwrap();
    assert!(save.is_none());
    let (_, save) = Identity::load_or_create(&slot, StoredSeed::Unreadable { sealed: false }).unwrap();
    assert!(save.is_some());
}

#[test]
fn saving_a_seed_needs_the_master_key() {
    let slot = MasterKeySlot::new();
    let r = Identity::load_or_create(&slot, StoredSeed::Absent);
    match r {
        Err(e) => assert_eq!(e.message(), "secrets not initialized"),
        Ok(_) => panic!("expected an error"),
    }
}
