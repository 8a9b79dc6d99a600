use nearclip::crypto::random_bytes;
use nearclip::error::AppError;
use nearclip::identity::{hex_encode, Identity};
use nearclip::net::{IpAddress, SockAddr};
use nearclip::pairing::{
    check_pair_request, confirm, create_qr, on_pair_response, on_pair_reveal, on_pair_sig, pair_request,
    pair_response, paired_via, parse_qr, qr_address_entries, qr_payload, rekey, register_pairing, start_target, take_token,
    decision_for, initiator_record, initiator_verified_by_qr, responder_record,
    ConfirmPhase, EphemeralOffer, PairToken, PairingHandle, QR_PREFIX, QR_TOKEN_TTL_MS,
};
use nearclip::protocol::{b64e, decrypt_wire, encrypt_plain, Plain, Wire, PROTO_VERSION};
use nearclip::registry::Registry;
use nearclip::state::{DiscoveredDevice, PairedVia, PeerRecord};

const PAIR_ACK_ACCEPTED: &[u8] = br#"{"type":"pair_ack","accepted":true}"#;

/// An "a.b.c.d:port" entry as a socket address, as the app's parser reads it.
fn read_v4(s: &str) -> Option<SockAddr> {
    let (ip, port) = s.split_once(':')?;
    let port: u16 = port.parse().ok()?;
    let parts: Vec<&str> = ip.split('.').collect();
    if parts.len() != 4 {
        return None;
    }
    let mut bits: u32 = 0;
    for p in parts {
        let b: u8 = p.parse().ok()?;
        bits = (bits << 8) | b as u32;
    }
    Some(SockAddr { ip: IpAddress::V4(bits), port })
}

/// Each address entry of a payload, read as a socket address.
fn read_entries(payload: &str) -> Vec<Option<SockAddr>> {
    qr_address_entries(payload).iter().map(|e| read_v4(e)).collect()
}

/// Reads a scanned payload with its address entries parsed.
fn scan(payload: &str) -> Result<nearclip::pairing::QrTarget, AppError> {
    parse_qr(payload, &read_entries(payload))
}

#[test]
fn parse_qr_roundtrip_and_rejects_tampering() {
    let me = Identity::from_seed(random_bytes().unwrap());
    let pk = hex_encode(&me.public_key());
    let payload = format!("{QR_PREFIX}a=192.168.1.5:47821,10.0.0.2:47821&id={}&pk={pk}&t=abc123", me.device_id);
    let t = scan(&payload).unwrap();
    assert_eq!(t.addrs.len(), 2);
    assert_eq!(t.id, me.device_id);
    assert_eq!(t.auth.pk, me.public_key());
    assert_eq!(t.auth.token, "abc123");

    assert!(scan("https://example.com").is_err());
    let other = Identity::from_seed(random_bytes().unwrap());
    let forged = payload.replace(&me.device_id, &other.device_id);
    assert!(scan(&forged).is_err());
}

#[test]
fn parse_qr_reports_why_it_refuses() {
    let me = Identity::from_seed([3u8; 32]);
    let pk = hex_encode(&me.public_key());
    let missing_token = format!("{QR_PREFIX}a=10.0.0.2:47821&id={}&pk={pk}", me.device_id);
    match scan(&missing_token) {
        Err(AppError::Msg(m)) => assert_eq!(m, "This pairing code is incomplete or damaged"),
        other => panic!("unexpected {other:?}"),
    }
    match scan("nearclip://other?a=1") {
        Err(AppError::Msg(m)) => assert_eq!(m, "This is not a NearClip pairing code"),
        other => panic!("unexpected {other:?}"),
    }
    let short_key = format!("{QR_PREFIX}a=10.0.0.2:47821&id={}&pk=abcd&t=x", me.device_id);
    assert!(scan(&short_key).is_err());
}

#[test]
fn a_qr_code_without_a_usable_address_is_refused() {
    let me = Identity::from_seed([3u8; 32]);
    let pk = hex_encode(&me.public_key());
    for addrs in ["", "not-an-address", "10.0.0.2,localhost"] {
        let payload = format!("{QR_PREFIX}a={addrs}&id={}&pk={pk}&t=x", me.device_id);
        match scan(&payload) {
            Err(AppError::Msg(m)) => assert_eq!(m, "This pairing code is incomplete or damaged"),
            other => panic!("unexpected {other:?}"),
        }
    }
    let payload = format!("{QR_PREFIX}a=junk,10.0.0.2:47821&id={}&pk={pk}&t=x", me.device_id);
    assert_eq!(qr_address_entries(&payload), vec!["junk".to_string(), "10.0.0.2:47821".to_string()]);
    let t = scan(&payload).unwrap();
    assert_eq!(t.addrs, vec![SockAddr { ip: IpAddress::V4(0x0a00_0002), port: 47821 }]);
    assert!(qr_address_entries("https://example.com").is_empty());
}

#[test]
fn full_handshake_yields_same_key_and_sas() {
    let a = Identity::from_seed(random_bytes().unwrap());
    let b = Identity::from_seed(random_bytes().unwrap());

    let offer_a = EphemeralOffer::fresh().unwrap();
    let request = pair_request(&a, "A".to_string(), &offer_a, 0, None, PairedVia::Discovery);
    let info = check_pair_request(request).unwrap();
    assert_eq!(info.peer_id, a.device_id);

    let offer_b = EphemeralOffer::fresh().unwrap();
    let response = pair_response(&b, "B".to_string(), &offer_b, false);
    let (pending, reveal) = on_pair_response(&a, &offer_a, response, Some(b.device_id.as_str()), None).unwrap();
    assert_eq!(pending.peer_name, "B");

    let done = on_pair_reveal(&b, &offer_b, &info.peer_pk, &info.commit_a, reveal).unwrap();
    let ma = on_pair_sig(&pending, &offer_a, done.reply).unwrap();
    let mb = done.material;
    assert_eq!(ma.pairing_key, mb.pairing_key);
    assert_eq!(ma.sas, mb.sas);

    let wire = encrypt_plain(&ma.pairing_key, PAIR_ACK_ACCEPTED).unwrap();
    assert_eq!(decrypt_wire(&mb.pairing_key, &wire).unwrap(), PAIR_ACK_ACCEPTED);
}

#[test]
fn a_responder_other_than_the_expected_one_is_refused() {
    let a = Identity::from_seed(random_bytes().unwrap());
    let b = Identity::from_seed(random_bytes().unwrap());
    let offer_a = EphemeralOffer::fresh().unwrap();
    let offer_b = EphemeralOffer::fresh().unwrap();
    let response = pair_response(&b, "B".to_string(), &offer_b, false);
    let r = on_pair_response(&a, &offer_a, response, Some(a.device_id.as_str()), None);
    assert!(r.is_err());
}

#[test]
fn a_reveal_that_breaks_the_commitment_is_refused() {
    let a = Identity::from_seed(random_bytes().unwrap());
    let b = Identity::from_seed(random_bytes().unwrap());
    let offer_a = EphemeralOffer::fresh().unwrap();
    let info = check_pair_request(pair_request(&a, "A".to_string(), &offer_a, 0, None, PairedVia::Address)).unwrap();
    let offer_b = EphemeralOffer::fresh().unwrap();
    let response = pair_response(&b, "B".to_string(), &offer_b, false);
    let (_, reveal) = on_pair_response(&a, &offer_a, response, None, None).unwrap();
    let Wire::PairReveal { nonce, sig, .. } = reveal else { panic!("expected a reveal") };
    let swapped = Wire::PairReveal { eph: b64e(&EphemeralOffer::fresh().unwrap().public), nonce, sig };
    let refusal = on_pair_reveal(&b, &offer_b, &info.peer_pk, &info.commit_a, swapped).err().unwrap();
    assert!(matches!(refusal.error, AppError::Crypto));
    assert!(matches!(refusal.frame, Some(Wire::Error { .. })));
}

#[test]
fn a_pair_request_of_another_version_is_refused() {
    let a = Identity::from_seed(random_bytes().unwrap());
    let offer = EphemeralOffer::fresh().unwrap();
    let Wire::PairRequest { device_id, name, id_pk, commit, port, token, via, .. } =
        pair_request(&a, "A".to_string(), &offer, 7, None, PairedVia::Qr)
    else {
        panic!("expected a request")
    };
    let old = Wire::PairRequest { v: PROTO_VERSION + 1, device_id, name, id_pk, commit, port, token, via };
    let refusal = check_pair_request(old).err().unwrap();
    assert_eq!(refusal.frame, Some(Wire::Error { code: "version".into(), msg: "unsupported protocol version".into() }));
    assert!(matches!(refusal.error, AppError::Protocol(ref m) if m == "version mismatch"));
}

#[test]
fn the_recorded_method_is_qr_only_when_the_token_was_verified() {
    assert_eq!(paired_via(PairedVia::Qr, true), PairedVia::Qr);
    assert_eq!(paired_via(PairedVia::Discovery, true), PairedVia::Qr);
    assert_eq!(paired_via(PairedVia::Qr, false), PairedVia::Address);
    assert_eq!(paired_via(PairedVia::Discovery, false), PairedVia::Discovery);
    assert_eq!(paired_via(PairedVia::Address, false), PairedVia::Address);
}

#[test]
fn a_qr_token_is_accepted_once_and_only_while_fresh() {
    let mut slot = Some(PairToken { value: "tok".to_string(), created_ms: 1_000 });
    assert!(!take_token(&mut slot, "other", 1_001));
    assert!(slot.is_some());
    assert!(take_token(&mut slot, "tok", 1_000 + QR_TOKEN_TTL_MS - 1));
    assert!(slot.is_none());
    assert!(!take_token(&mut slot, "tok", 1_002));

    let mut stale = Some(PairToken { value: "tok".to_string(), created_ms: 1_000 });
    assert!(!take_token(&mut stale, "tok", 1_000 + QR_TOKEN_TTL_MS));
    assert!(stale.is_some());
}

#[test]
fn the_qr_payload_lists_addresses_identity_and_token() {
    let ips = vec![0xc0a8_0105u32, 0x0a00_0002];
    let p = qr_payload(&ips, 47821, "dev", "abcd", "tok");
    assert_eq!(p, "nearclip://pair?a=192.168.1.5:47821,10.0.0.2:47821&id=dev&pk=abcd&t=tok");
    assert_eq!(qr_payload(&vec![], 1, "d", "k", "t"), "nearclip://pair?a=&id=d&pk=k&t=t");
}

#[test]
fn a_created_qr_code_reads_back_as_this_device() {
    let me = Identity::from_seed(random_bytes().unwrap());
    let ips = vec![0xc0a8_0105u32];
    let (qr, token) = create_qr(&ips, 47821, &me, 5).unwrap();
    assert!(qr.svg.contains("<svg"));
    assert_eq!(qr.ttl_ms, QR_TOKEN_TTL_MS);
    assert_eq!(token.value.len(), 32);
    assert_eq!(token.created_ms, 5);
    let payload = qr_payload(&ips, 47821, &me.device_id, &hex_encode(&me.public_key()), &token.value);
    assert_eq!(qr_address_entries(&payload), vec!["192.168.1.5:47821".to_string()]);
    let t = scan(&payload).unwrap();
    assert_eq!(t.id, me.device_id);
    assert_eq!(t.auth.token, token.value);
    assert_eq!(t.addrs, vec![SockAddr { ip: IpAddress::V4(0xc0a8_0105), port: 47821 }]);
}

#[test]
fn without_an_address_no_qr_code_is_made() {
    let me = Identity::from_seed(random_bytes().unwrap());
    match create_qr(&vec![], 47821, &me, 0) {
        Err(AppError::Msg(m)) => assert_eq!(m, "No network address found. Connect to Wi-Fi first."),
        other => panic!("unexpected {other:?}"),
    }
}

#[test]
fn both_users_must_accept() {
    let mut c = ConfirmPhase::new();
    assert!(c.outcome().is_none());
    let (send, end) = c.on_local(Some(true));
    assert!(send && end.is_none());
    assert!(c.on_remote(Plain::PairAck { accepted: true }).is_none());
    assert!(matches!(c.outcome(), Some(Ok(()))));

    let mut d = ConfirmPhase::new();
    assert!(d.on_remote(Plain::PairAck { accepted: false }).is_some());
    let (send, end) = d.on_local(None);
    assert!(!send);
    assert!(matches!(end, Some(Err(AppError::PairingRejected))));
    assert!(matches!(d.outcome(), Some(Err(AppError::PairingRejected))));

    let mut e = ConfirmPhase::new();
    assert!(matches!(e.on_remote(Plain::Ping), Some(Err(AppError::Protocol(_)))));
}

fn handle() -> (PairingHandle, tokio::sync::mpsc::Receiver<bool>) {
    let (tx, rx) = tokio::sync::mpsc::channel(1);
    (PairingHandle { peer_name: "P".to_string(), code: None, confirm_tx: tx }, rx)
}

#[test]
fn one_pairing_per_device_and_one_decision_per_pairing() {
    let mut pairings: Registry<PairingHandle> = Registry::new();
    let (h1, mut rx1) = handle();
    assert!(register_pairing(&mut pairings, "10.0.0.2".to_string(), h1).is_ok());
    let (h2, _rx2) = handle();
    assert!(register_pairing(&mut pairings, "10.0.0.2".to_string(), h2).is_err());

    assert!(rekey(&mut pairings, "10.0.0.2", "dev-b").is_ok());
    assert!(!pairings.contains_key("10.0.0.2"));
    assert!(pairings.contains_key("dev-b"));

    assert!(confirm(&pairings, "dev-b", true).is_ok());
    assert_eq!(rx1.try_recv().ok(), Some(true));
    assert!(confirm(&pairings, "dev-b", true).is_ok());
    match confirm(&pairings, "dev-b", false) {
        Err(AppError::Msg(m)) => assert_eq!(m, "Pairing already confirmed"),
        other => panic!("unexpected {other:?}"),
    }
    match confirm(&pairings, "nobody", true) {
        Err(AppError::Msg(m)) => assert_eq!(m, "No pairing in progress with this device"),
        other => panic!("unexpected {other:?}"),
    }
}

fn peer(id: &str, addr: Option<SockAddr>) -> PeerRecord {
    PeerRecord {
        device_id: id.to_string(),
        name: "peer".to_string(),
        id_pk: [1; 32],
        pairing_key: [2; 32],
        paired_at: 0,
        last_seen_addr: addr,
        via: PairedVia::Discovery,
    }
}

#[test]
fn pairing_with_a_discovered_device_uses_its_live_address_and_name() {
    let mut peers: Registry<PeerRecord> = Registry::new();
    let mut discovered: Registry<DiscoveredDevice> = Registry::new();
    discovered.insert(
        "d1".to_string(),
        DiscoveredDevice { name: "Laptop".to_string(), addrs: vec![IpAddress::V4(0x0a00_0005)], port: 47821, last_seen_ms: 0 },
    );
    let (addr, name) = start_target(&peers, &discovered, "d1", 1_000).unwrap();
    assert_eq!(addr, SockAddr { ip: IpAddress::V4(0x0a00_0005), port: 47821 });
    assert_eq!(name, "Laptop");
    assert!(matches!(start_target(&peers, &discovered, "d2", 0), Err(AppError::DeviceUnavailable)));

    let known = SockAddr { ip: IpAddress::V4(0x0a00_0009), port: 5000 };
    peers.insert("d2".to_string(), peer("d2", Some(known)));
    let (addr, name) = start_target(&peers, &discovered, "d2", 0).unwrap();
    assert_eq!(addr, known);
    assert_eq!(name, "Unknown device");
}

#[test]
fn a_second_request_from_the_same_device_is_told_it_is_busy() {
    let mut pairings: Registry<PairingHandle> = Registry::new();
    let (h1, _rx1) = handle();
    assert!(nearclip::pairing::admit_request(&mut pairings, "dev".to_string(), h1).is_ok());
    let (h2, _rx2) = handle();
    let refusal = nearclip::pairing::admit_request(&mut pairings, "dev".to_string(), h2).err().unwrap();
    assert_eq!(refusal.frame, Some(Wire::Error { code: "busy".into(), msg: "pairing already in progress".into() }));
    assert!(matches!(refusal.error, AppError::Msg(ref m) if m == "pairing already in progress"));
}

#[test]
fn a_decision_goes_to_the_pairing_it_names() {
    let mut pairings: Registry<PairingHandle> = Registry::new();
    let (h, mut rx) = handle();
    register_pairing(&mut pairings, "dev-c".to_string(), h).unwrap();
    let d = decision_for(&pairings, "dev-c", false).unwrap();
    assert!(!d.accepted);
    assert!(d.confirm_tx.try_send(d.accepted).is_ok());
    assert_eq!(rx.try_recv().ok(), Some(false));
    match decision_for(&pairings, "nobody", true) {
        Err(AppError::Msg(m)) => assert_eq!(m, "No pairing in progress with this device"),
        Err(other) => panic!("unexpected {other:?}"),
        Ok(_) => panic!("a decision for no pairing"),
    }
}

fn pending(token_ok: bool) -> nearclip::pairing::InitiatorPending {
    nearclip::pairing::InitiatorPending {
        peer_id: "dev-r".to_string(),
        peer_name: "Responder".to_string(),
        peer_pk: [7; 32],
        eph_b: [8; 32],
        nonce_b: [9; 32],
        token_ok,
        transcript: vec![1, 2, 3],
    }
}

#[test]
fn only_a_presented_and_accepted_token_skips_the_code() {
    assert!(initiator_verified_by_qr(true, &pending(true)));
    assert!(!initiator_verified_by_qr(false, &pending(true)));
    assert!(!initiator_verified_by_qr(true, &pending(false)));
}

#[test]
fn the_initiator_saves_the_checked_responder() {
    let material = nearclip::crypto::PairingMaterial { pairing_key: [5; 32], sas: "123456".to_string() };
    let addr = SockAddr { ip: IpAddress::V4(0x0a00_0002), port: 47821 };
    let r = initiator_record(&pending(true), &material, true, PairedVia::Qr, addr, 77);
    assert_eq!(r.device_id, "dev-r");
    assert_eq!(r.name, "Responder");
    assert_eq!(r.id_pk, [7; 32]);
    assert_eq!(r.pairing_key, [5; 32]);
    assert_eq!(r.paired_at, 77);
    assert_eq!(r.last_seen_addr, Some(addr));
    assert_eq!(r.via, PairedVia::Qr);
    // A token the responder accepted but we never presented is not trusted.
    assert_eq!(initiator_record(&pending(true), &material, false, PairedVia::Address, addr, 0).via, PairedVia::Address);
    // A QR attempt that fell back to comparing codes counts as by address.
    assert_eq!(initiator_record(&pending(false), &material, true, PairedVia::Qr, addr, 0).via, PairedVia::Address);
    assert_eq!(initiator_record(&pending(false), &material, false, PairedVia::Discovery, addr, 0).via, PairedVia::Discovery);
}

#[test]
fn the_responder_saves_the_checked_initiator() {
    let info = nearclip::pairing::PairRequestInfo {
        peer_id: "dev-i".to_string(),
        peer_name: "Initiator".to_string(),
        peer_pk: [3; 32],
        commit_a: [4; 32],
        peer_port: 5000,
        token: None,
        via: None,
    };
    let material = nearclip::crypto::PairingMaterial { pairing_key: [6; 32], sas: "000001".to_string() };
    let addr = SockAddr { ip: IpAddress::V4(0xc0a8_0105), port: 5000 };
    let r = responder_record(&info, &material, false, addr, 9);
    assert_eq!(r.device_id, "dev-i");
    assert_eq!(r.name, "Initiator");
    assert_eq!(r.id_pk, [3; 32]);
    assert_eq!(r.pairing_key, [6; 32]);
    assert_eq!(r.paired_at, 9);
    assert_eq!(r.last_seen_addr, Some(addr));
    assert_eq!(r.via, PairedVia::Address);
    assert_eq!(responder_record(&info, &material, true, addr, 9).via, PairedVia::Qr);
}
