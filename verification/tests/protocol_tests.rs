use nearclip::crypto::random_bytes;
use nearclip::error::AppError;
use nearclip::protocol::{
    b64d, b64d_array, b64e, decrypt_wire, encrypt_plain, error_frame, expect_wire, frame_header, json_frame,
    open_sealed, parse_frame_header, sealed_frame, Frame, Wire, FILE_CHUNK_BYTES, MAX_FRAME,
};

const CLIPBOARD_JSON: &[u8] = br#"{"type":"clipboard","id":"1","ts":42,"sender":"dev","text":"hello"}"#;

#[test]
fn encrypt_decrypt_plain_roundtrip() {
    let key: [u8; 32] = random_bytes().unwrap();
    let wire = encrypt_plain(&key, CLIPBOARD_JSON).unwrap();
    assert_eq!(decrypt_wire(&key, &wire).unwrap(), CLIPBOARD_JSON);
    let other: [u8; 32] = random_bytes().unwrap();
    assert!(decrypt_wire(&other, &wire).is_err());
}

#[test]
fn an_error_frame_decrypts_to_the_peers_error() {
    let key = [1u8; 32];
    let r = decrypt_wire(&key, &error_frame("too_large", "big".to_string()));
    match r {
        Err(AppError::Remote { code, msg }) => {
            assert_eq!(code, "too_large");
            assert_eq!(msg, "big");
        },
        other => panic!("unexpected {other:?}"),
    }
    assert!(matches!(decrypt_wire(&key, &Wire::PairSig { sig: "x".into() }), Err(AppError::Protocol(_))));
}

#[test]
fn header_roundtrips_length_and_kind() {
    for (len, sealed) in [(0usize, false), (3, true), (MAX_FRAME, false), (MAX_FRAME, true), (70000, false)] {
        let h = parse_frame_header(frame_header(len, sealed)).unwrap();
        assert_eq!(h.len, len);
        assert_eq!(h.sealed, sealed);
    }
    assert_eq!(frame_header(258, false), [0, 0, 1, 2]);
    assert_eq!(frame_header(1, true), [0x80, 0, 0, 1]);
}

#[test]
fn oversize_header_is_refused() {
    let too_big = ((MAX_FRAME as u32) + 1).to_be_bytes();
    match parse_frame_header(too_big) {
        Err(AppError::Protocol(m)) => assert_eq!(m, "incoming frame too large"),
        other => panic!("unexpected {other:?}"),
    }
    let sealed_too_big = ((MAX_FRAME as u32 + 1) | 0x8000_0000).to_be_bytes();
    assert!(parse_frame_header(sealed_too_big).is_err());
}

#[test]
fn json_frame_is_prefix_then_body() {
    let f = json_frame(b"abc").unwrap();
    assert_eq!(f, vec![0, 0, 0, 3, b'a', b'b', b'c']);
    let big = vec![0u8; MAX_FRAME + 1];
    assert!(matches!(json_frame(&big), Err(AppError::Protocol(_))));
}

#[test]
fn sealed_frame_opens_with_its_key_only() {
    let key: [u8; 32] = random_bytes().unwrap();
    let data = vec![42u8; FILE_CHUNK_BYTES];
    let f = sealed_frame(&key, &data).unwrap();
    let h = parse_frame_header([f[0], f[1], f[2], f[3]]).unwrap();
    assert!(h.sealed);
    assert_eq!(h.len, f.len() - 4);
    let body = &f[4..];
    assert_eq!(open_sealed(&key, body).unwrap(), data);
    assert!(open_sealed(&random_bytes().unwrap(), body).is_err());
    match open_sealed(&key, &body[..5]) {
        Err(AppError::Protocol(m)) => assert_eq!(m, "sealed frame too short"),
        other => panic!("unexpected {other:?}"),
    }
}

#[test]
fn a_text_only_reader_refuses_sealed_frames() {
    assert!(matches!(expect_wire(Frame::Sealed(vec![1, 2, 3])), Err(AppError::Protocol(_))));
    let w = Wire::PairSig { sig: "x".into() };
    assert_eq!(expect_wire(Frame::Wire(w.clone())).unwrap(), w);
}

#[test]
fn base64_roundtrip_and_length_checks() {
    let bytes: [u8; 32] = random_bytes().unwrap();
    let text = b64e(&bytes);
    assert_eq!(b64d(&text).unwrap(), bytes.to_vec());
    assert_eq!(b64d_array::<32>(&text).unwrap(), bytes);
    match b64d_array::<16>(&text) {
        Err(AppError::Protocol(m)) => assert_eq!(m, "expected 16 bytes"),
        other => panic!("unexpected {other:?}"),
    }
    assert!(matches!(b64d("not base64!"), Err(AppError::Protocol(_))));
    assert_eq!(b64e(b"hi"), "aGk=");
}

#[test]
fn base64_uses_the_standard_alphabet_with_padding() {
    assert_eq!(b64e(b""), "");
    assert_eq!(b64e(b"hello"), "aGVsbG8=");
    assert_eq!(b64e(&[0xfb, 0xff]), "+/8=");
    assert_eq!(b64e(&[0, 0, 0]), "AAAA");
    assert_eq!(b64e(b"9"), "OQ==");
}

#[test]
fn only_canonical_base64_decodes() {
    assert_eq!(b64d_array::<4>("AAECAw==").unwrap(), [0, 1, 2, 3]);
    match b64d_array::<3>("AAECAw==") {
        Err(AppError::Protocol(m)) => assert_eq!(m, "expected 3 bytes"),
        other => panic!("unexpected {other:?}"),
    }
    for bad in ["!!!!", "AB==", "AA=", "AAECAw", " AAECAw=="] {
        match b64d_array::<4>(bad) {
            Err(AppError::Protocol(m)) => assert_eq!(m, "invalid base64"),
            other => panic!("unexpected {other:?} for {bad:?}"),
        }
    }
}
