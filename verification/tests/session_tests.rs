use nearclip::crypto::{derive_session_key, random_bytes};
use nearclip::error::AppError;
use nearclip::protocol::{b64d_array, b64e, error_frame, Plain, Wire, PROTO_VERSION};
use nearclip::registry::Registry;
use nearclip::session::{
    check_ack, delivery, display_name, on_session_ack, record_sent, resolve_targets, send_result, serve_handshake,
    serve_step, session_init, target_label, ServeStep,
};
use nearclip::state::{DiscoveredDevice, Direction, FileMeta, HistoryItem, PairedVia, PeerRecord, SendResult};

fn peer(id: &str, name: &str) -> PeerRecord {
    PeerRecord {
        device_id: id.to_string(),
        name: name.to_string(),
        id_pk: [1; 32],
        pairing_key: [2; 32],
        paired_at: 0,
        last_seen_addr: None,
        via: PairedVia::Discovery,
    }
}

fn item(text: &str) -> HistoryItem {
    HistoryItem {
        id: "i1".to_string(),
        direction: Direction::Sent,
        peer_id: "all".to_string(),
        peer_name: "Laptop".to_string(),
        text: text.to_string(),
        ts_ms: 5,
        ok: false,
        file: None,
    }
}

#[test]
fn targets_are_one_device_or_all() {
    let mut peers: Registry<PeerRecord> = Registry::new();
    match resolve_targets(&peers, "all") {
        Err(AppError::Msg(m)) => assert_eq!(m, "No paired devices yet"),
        _ => panic!("no device to send to"),
    }
    peers.insert("a".to_string(), peer("a", "A"));
    peers.insert("b".to_string(), peer("b", "B"));
    let all = resolve_targets(&peers, "all").unwrap();
    assert_eq!(all.iter().map(|p| p.device_id.as_str()).collect::<Vec<_>>(), vec!["a", "b"]);
    let one = resolve_targets(&peers, "b").unwrap();
    assert_eq!(one.len(), 1);
    assert_eq!(one[0].name, "B");
    match resolve_targets(&peers, "c") {
        Err(AppError::Msg(m)) => assert_eq!(m, "This device is not paired"),
        _ => panic!("an unknown device is refused"),
    }
    assert_eq!(target_label("all", &all), "All paired devices");
    assert_eq!(target_label("b", &one), "B");
}

#[test]
fn a_send_succeeds_only_when_every_device_got_it() {
    let failed = send_result("b".to_string(), &Err(AppError::Timeout));
    assert!(!failed.ok);
    assert_eq!(failed.error.as_deref(), Some("Operation timed out"));
    let ok = send_result("a".to_string(), &Ok(()));
    assert!(ok.ok && ok.error.is_none());
    assert!(record_sent(item("x"), &vec![send_result("a".to_string(), &Ok(()))]).ok);
    assert!(!record_sent(item("x"), &vec![ok, failed]).ok);
    assert!(record_sent(item("x"), &Vec::<SendResult>::new()).ok);
}

#[test]
fn both_ends_of_a_session_derive_the_same_key() {
    let mut peers: Registry<PeerRecord> = Registry::new();
    peers.insert("client".to_string(), peer("client", "C"));
    let salt_c: [u8; 32] = random_bytes().unwrap();
    let init = session_init("client", &salt_c, 4000);
    let served = serve_handshake(init, &peers, "server").unwrap();
    assert_eq!(served.port, 4000);
    let client_view = peer("server", "S");
    let keys = on_session_ack(&client_view, &salt_c, served.ack.clone()).ok().unwrap();
    assert_eq!(keys.key, served.key);
    assert_eq!(keys.features, vec!["files".to_string()]);
    let Wire::SessionAck { salt, .. } = served.ack else { panic!("expected an ack") };
    let salt_s: [u8; 32] = b64d_array(&salt).unwrap();
    assert_eq!(served.key, derive_session_key(&[2; 32], &salt_c, &salt_s));
}

#[test]
fn sessions_with_strangers_are_refused() {
    let peers: Registry<PeerRecord> = Registry::new();
    let refusal = serve_handshake(session_init("x", &[0; 32], 1), &peers, "me").err().unwrap();
    assert_eq!(refusal.frame, Some(error_frame("unknown_peer", "not paired".to_string())));
    assert!(matches!(refusal.error, AppError::UnknownPeer));

    let old = Wire::SessionInit { v: PROTO_VERSION + 1, device_id: "x".into(), salt: b64e(&[0; 32]), port: 1 };
    let refusal = serve_handshake(old, &peers, "me").err().unwrap();
    assert!(matches!(refusal.error, AppError::Protocol(ref m) if m == "version mismatch"));

    let f = on_session_ack(&peer("a", "A"), &[0; 32], error_frame("unknown_peer", "not paired".into())).err().unwrap();
    assert!(f.forget_peer);
    let f = on_session_ack(&peer("a", "A"), &[0; 32], error_frame("busy", "later".into())).err().unwrap();
    assert!(!f.forget_peer);
    assert!(matches!(f.error, AppError::Remote { .. }));
    let wrong = Wire::SessionAck { device_id: "b".into(), salt: b64e(&[0; 32]), features: vec![] };
    let f = on_session_ack(&peer("a", "A"), &[0; 32], wrong).err().unwrap();
    assert!(matches!(f.error, AppError::Protocol(ref m) if m == "responder identity mismatch"));
}

#[test]
fn the_server_decides_per_payload() {
    let text = Plain::Clipboard { id: "1".into(), ts: 0, sender: "s".into(), text: "hi".into() };
    assert!(matches!(serve_step(text), ServeStep::Text { id, text } if id == "1" && text == "hi"));
    let big = Plain::Clipboard { id: "2".into(), ts: 0, sender: "s".into(), text: "x".repeat(1024 * 1024 + 1) };
    assert!(matches!(serve_step(big), ServeStep::Reject { code, msg } if code == "too_large" && msg == "text too large"));
    assert!(matches!(serve_step(Plain::Unpair), ServeStep::Forget));
    assert!(matches!(serve_step(Plain::Ping), ServeStep::Continue));
    assert!(matches!(serve_step(Plain::PairAck { accepted: true }), ServeStep::Fail(AppError::Protocol(_))));
    assert!(check_ack(Plain::Ack { id: "7".into() }, "7").is_ok());
    assert!(matches!(check_ack(Plain::Ack { id: "8".into() }, "7"), Err(AppError::Protocol(_))));
}

#[test]
fn received_items_are_delivered_per_settings() {
    let mut it = item(&"y".repeat(200));
    it.peer_name = "Phone".into();
    let d = delivery(&it, true, true);
    assert!(d.write_clipboard);
    let (title, body) = d.notification.unwrap();
    assert_eq!(title, "Received from Phone");
    assert_eq!(body.chars().count(), 120);
    it.file = Some(FileMeta { name: "a.png".into(), size: 3, mime: "image/png".into(), path: None });
    let d = delivery(&it, true, false);
    assert!(!d.write_clipboard);
    assert!(d.notification.is_none());
    assert_eq!(delivery(&it, false, true).notification.unwrap().1, "a.png");
}

#[test]
fn a_peer_is_shown_by_its_announced_name() {
    let mut discovered: Registry<DiscoveredDevice> = Registry::new();
    let p = peer("a", "Stored");
    assert_eq!(display_name(&discovered, &p), "Stored");
    discovered.insert("a".into(), DiscoveredDevice { name: "Live".into(), addrs: vec![], port: 1, last_seen_ms: 0 });
    assert_eq!(display_name(&discovered, &p), "Live");
}

#[test]
fn a_sent_text_is_recorded_under_a_fresh_id() {
    let a = nearclip::session::sent_item("all".into(), &vec![peer("a", "A")], "hi".into(), 3).unwrap();
    let b = nearclip::session::sent_item("a".into(), &vec![peer("a", "A")], "hi".into(), 3).unwrap();
    assert_ne!(a.id, b.id);
    assert_eq!(a.peer_name, "All paired devices");
    assert_eq!(b.peer_name, "A");
    assert_eq!((a.peer_id.as_str(), a.text.as_str(), a.ts_ms, a.ok), ("all", "hi", 3, true));
    assert!(a.file.is_none());
    assert_eq!(a.direction, Direction::Sent);
}
