use nearclip::crypto::sha256;
use nearclip::error::AppError;
use nearclip::protocol::{b64e, Plain, FILE_CHUNK_BYTES, MAX_FILE_BYTES};
use nearclip::state::{Direction, PairedVia, PeerRecord};
use nearclip::transfer::{
    candidate_name, clean_file_name, expect_file_end, new_transfer_id, opening_outcome, part_name, sent_file_item,
    split_extension, supports_files, too_large_message, unique_path, EndFailure, ReceiveProgress, SendProgress, MAX_NAME_CHARS,
};

#[test]
fn file_names_are_made_safe() {
    assert_eq!(clean_file_name("photo.jpg"), "photo.jpg");
    assert_eq!(clean_file_name("../../etc/passwd"), "passwd");
    assert_eq!(clean_file_name("C:\\Users\\me\\report.pdf"), "report.pdf");
    assert_eq!(clean_file_name(".hidden"), "hidden");
    assert_eq!(clean_file_name("a:b*c?.txt"), "a_b_c_.txt");
    assert_eq!(clean_file_name("  "), "file");
    assert_eq!(clean_file_name("dir/"), "file");
    let long = format!("{}.png", "x".repeat(300));
    let cleaned = clean_file_name(&long);
    assert_eq!(cleaned.chars().count(), MAX_NAME_CHARS);
    assert!(cleaned.ends_with(".png"));
}

#[test]
fn duplicate_names_get_a_counter() {
    let mut taken: Vec<String> = Vec::new();
    assert_eq!(unique_path(&taken, "a.txt"), "a.txt");
    taken.push("a.txt".to_string());
    assert_eq!(unique_path(&taken, "a.txt"), "a (2).txt");
    taken.push("a (2).txt".to_string());
    assert_eq!(unique_path(&taken, "a.txt"), "a (3).txt");
    assert_eq!(unique_path(&taken, "README"), "README");
}

#[test]
fn extensions_split_at_the_last_dot_when_short() {
    assert_eq!(split_extension("a.tar.gz"), ("a.tar".to_string(), ".gz".to_string()));
    assert_eq!(split_extension("README"), ("README".to_string(), String::new()));
    assert_eq!(split_extension(".bashrc"), (".bashrc".to_string(), String::new()));
    assert_eq!(split_extension("x.verylongextension"), ("x.verylongextension".to_string(), String::new()));
    assert_eq!(candidate_name("a.tar.gz", 12), "a.tar (12).gz");
}

#[test]
fn cleaning_keeps_control_characters_out() {
    assert_eq!(clean_file_name("a\u{0}b\n.txt"), "a_b_.txt");
    assert_eq!(clean_file_name("..."), "file");
    assert_eq!(clean_file_name("  spaced name.txt  "), "spaced name.txt");
}

#[test]
fn a_cleaned_name_never_starts_with_a_dot() {
    assert_eq!(clean_file_name(". .x"), "x");
    assert_eq!(clean_file_name(" . . .config "), "config");
    assert_eq!(clean_file_name("dir/.. ..hidden file"), "hidden file");
    assert_eq!(clean_file_name(". . ."), "file");
    assert_eq!(clean_file_name("\u{3000}.report.txt\u{2003}"), "report.txt");
    let long = format!(". {}.txt", "n".repeat(300));
    let cleaned = clean_file_name(&long);
    assert!(!cleaned.starts_with('.'));
    assert!(cleaned.ends_with(".txt"));
    assert_eq!(cleaned.chars().count(), 120);
}

#[test]
fn a_file_arrives_intact_across_several_chunks() {
    let data: Vec<u8> = (0..FILE_CHUNK_BYTES * 2 + 1234).map(|i| (i % 251) as u8).collect();
    let mut send = SendProgress::begin(data.len() as u64).unwrap();
    let mut recv = ReceiveProgress::begin(data.len() as u64).unwrap();
    let mut total_seen = 0;
    for piece in data.chunks(FILE_CHUNK_BYTES) {
        let (bytes, total) = send.chunk(&b64e(piece)).unwrap();
        assert_eq!(bytes, piece);
        total_seen += piece.len() as u64;
        assert_eq!(total, total_seen);
        recv.add(&bytes).unwrap();
    }
    let digest = send.finish().unwrap();
    assert_eq!(digest, sha256(&data));
    assert!(recv.check_end(&b64e(&digest)).is_ok());
}

#[test]
fn a_corrupt_file_is_rejected() {
    let data = vec![7u8; 4096];
    let mut recv = ReceiveProgress::begin(data.len() as u64).unwrap();
    recv.add(&data).unwrap();
    match recv.check_end(&b64e(&[0u8; 32])) {
        Err(EndFailure::Rejected(j)) => {
            assert_eq!(j.code, "corrupt");
            assert_eq!(j.msg, "file does not match its checksum");
        },
        other => panic!("unexpected {other:?}"),
    }
}

#[test]
fn a_short_file_is_rejected_and_bad_base64_fails() {
    let mut recv = ReceiveProgress::begin(10).unwrap();
    recv.add(&[1, 2, 3]).unwrap();
    assert!(matches!(recv.check_end(&b64e(&sha256(&[1, 2, 3]))), Err(EndFailure::Rejected(_))));
    let mut full = ReceiveProgress::begin(3).unwrap();
    full.add(&[1, 2, 3]).unwrap();
    assert!(matches!(full.check_end("%%%"), Err(EndFailure::Failed(AppError::Protocol(_)))));
}

#[test]
fn sizes_are_checked_on_both_sides() {
    assert_eq!(too_large_message(), "The file is too large (100 MB max)");
    match SendProgress::begin(0) {
        Err(AppError::Msg(m)) => assert_eq!(m, "The file is empty"),
        _ => panic!("an empty file is refused"),
    }
    match SendProgress::begin(MAX_FILE_BYTES + 1) {
        Err(AppError::Msg(m)) => assert_eq!(m, "The file is too large (100 MB max)"),
        _ => panic!("a large file is refused"),
    }
    match ReceiveProgress::begin(MAX_FILE_BYTES + 1) {
        Err(j) => assert_eq!((j.code.as_str(), j.msg.as_str()), ("too_large", "The file is too large (100 MB max)")),
        Ok(_) => panic!("a large file is refused"),
    }
    let mut recv = ReceiveProgress::begin(2).unwrap();
    match recv.add(&[1, 2, 3]) {
        Err(j) => assert_eq!(j.msg, "file larger than announced"),
        Ok(()) => panic!("more than announced is refused"),
    }
    let mut send = SendProgress::begin(2).unwrap();
    assert!(matches!(send.chunk(&b64e(&[1, 2, 3])), Err(AppError::Msg(m)) if m == "More data than the announced file size"));
    assert!(matches!(send.chunk(""), Err(AppError::Msg(m)) if m == "Invalid chunk size"));
    assert!(matches!(send.chunk("%"), Err(AppError::Protocol(_))));
    send.chunk(&b64e(&[1])).unwrap();
    assert!(matches!(send.finish(), Err(AppError::Msg(m)) if m == "The file was not sent completely"));
}

#[test]
fn outgoing_transfers_need_one_willing_device() {
    assert!(supports_files(&vec!["x".to_string(), "files".to_string()]));
    assert!(!supports_files(&vec![]));
    assert!(opening_outcome(&vec![Some("busy".to_string()), None]).is_ok());
    match opening_outcome(&vec![Some("first".to_string()), Some("second".to_string())]) {
        Err(AppError::Msg(m)) => assert_eq!(m, "first"),
        other => panic!("unexpected {other:?}"),
    }
    match opening_outcome(&vec![]) {
        Err(AppError::Msg(m)) => assert_eq!(m, ""),
        other => panic!("unexpected {other:?}"),
    }
}

#[test]
fn incoming_files_stream_into_a_hidden_part_file_until_their_end() {
    assert_eq!(part_name("t1"), ".t1.part");
    let end = Plain::FileEnd { id: "t1".into(), sha256: "abc=".into() };
    assert_eq!(expect_file_end(end.clone(), "t1").unwrap(), "abc=");
    assert!(matches!(expect_file_end(end, "t2"), Err(AppError::Protocol(_))));
    assert!(matches!(expect_file_end(Plain::Ping, "t1"), Err(AppError::Protocol(_))));
}

#[test]
fn a_sent_file_is_recorded_with_its_metadata() {
    let peer = PeerRecord {
        device_id: "d".into(),
        name: "Laptop".into(),
        id_pk: [0; 32],
        pairing_key: [0; 32],
        paired_at: 0,
        last_seen_addr: None,
        via: PairedVia::Qr,
    };
    let id = new_transfer_id().unwrap();
    assert_eq!(id.len(), 36);
    let item = sent_file_item(id.clone(), "d".into(), &vec![peer], "a.png".into(), 3, "image/png".into(), 9);
    assert_eq!(item.id, id);
    assert_eq!(item.direction, Direction::Sent);
    assert_eq!(item.peer_name, "Laptop");
    assert!(item.ok && item.text.is_empty());
    let f = item.file.unwrap();
    assert_eq!((f.name.as_str(), f.size, f.mime.as_str(), f.path), ("a.png", 3, "image/png", None));
}

#[test]
fn the_first_free_name_skips_every_taken_one() {
    let taken: Vec<String> = vec!["x", "x (2)", "x (3)", "other", "x (5)"].into_iter().map(String::from).collect();
    assert_eq!(unique_path(&taken, "x"), "x (4)");
    assert_eq!(unique_path(&taken, "y"), "y");
}

#[test]
fn transfer_ids_are_hyphenated_version_4_uuids() {
    let id = new_transfer_id().unwrap();
    let c: Vec<char> = id.chars().collect();
    assert_eq!(c.len(), 36);
    for i in [8, 13, 18, 23] {
        assert_eq!(c[i], '-');
    }
    assert_eq!(c[14], '4');
    assert!("89ab".contains(c[19]));
    assert!(c.iter().all(|ch| *ch == '-' || ch.is_ascii_hexdigit() && !ch.is_ascii_uppercase()));
    assert_ne!(id, new_transfer_id().unwrap());
}
