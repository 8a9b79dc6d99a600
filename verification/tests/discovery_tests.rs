use nearclip::clipboard::{remember, ClipboardCmd, Watcher, SUPPRESSED_CAP};
use nearclip::commands::{
    autostart_action, check_send_text, clean_name, get_identity, get_listen_info, set_device_name, set_settings,
    toggle_auto_sync,
};
use nearclip::crypto::sha256;
use nearclip::discovery::{
    first_label_of, fullname, ipv4_addrs, on_removed, on_resolved, resolved_device, service_host, service_properties,
};
use nearclip::error::AppError;
use nearclip::identity::Identity;
use nearclip::net::IpAddress;
use nearclip::pairing::Refusal;
use nearclip::protocol::{error_frame, Wire};
use nearclip::registry::Registry;
use nearclip::state::{DiscoveredDevice, Settings};
use nearclip::transport::{route_first_frame, Flow};
use std::collections::VecDeque;

#[test]
fn this_device_announces_its_id_name_version_and_key() {
    let me = Identity::from_seed([4u8; 32]);
    assert_eq!(fullname(&me.device_id), format!("{}._nearclip._tcp.local.", me.device_id));
    assert_eq!(service_host(&me.device_id), format!("nearclip-{}.local.", &me.device_id[..8]));
    assert_eq!(service_host("0123456789"), "nearclip-01234567.local.");
    assert_eq!(service_host("\u{e9}\u{e9}\u{e9}\u{e9}rest"), "nearclip-\u{e9}\u{e9}\u{e9}\u{e9}.local.");
    let props = service_properties(&me, &"Desk".to_string());
    let keys: Vec<&str> = props.iter().map(|(k, _)| k.as_str()).collect();
    assert_eq!(keys, vec!["id", "name", "v", "pk"]);
    assert_eq!(props[0].1, me.device_id);
    assert_eq!(props[1].1, "Desk");
    assert_eq!(props[2].1, "1");
    assert_eq!(props[3].1, me.public_key_b64());
}

#[test]
fn announcements_become_discovered_devices() {
    let v4 = IpAddress::V4(0x0a00_0001);
    let v6 = IpAddress::V6(1);
    let r = resolved_device("me", None, Some(String::new()), "peer1._nearclip._tcp.local.", &vec![v6, v4], 9, 77);
    let (id, d) = r.unwrap();
    assert_eq!(id, "peer1");
    assert_eq!(d.name, "Unknown device");
    assert_eq!(d.addrs, vec![v4]);
    assert_eq!((d.port, d.last_seen_ms), (9, 77));
    assert!(resolved_device("me", Some("me".into()), None, "x", &vec![v4], 9, 0).is_none());
    assert!(resolved_device("me", Some("other".into()), None, "x", &vec![v6], 9, 0).is_none());
    let (id, d) = resolved_device("me", Some("other".into()), Some("Phone".into()), "x", &vec![v4], 9, 0).unwrap();
    assert_eq!((id.as_str(), d.name.as_str()), ("other", "Phone"));

    let mut table: Registry<DiscoveredDevice> = Registry::new();
    assert!(on_resolved(&mut table, "me", None, None, "peer1._nearclip._tcp.local.", &vec![v4], 9, 1));
    assert!(!on_resolved(&mut table, "me", None, None, "me._nearclip._tcp.local.", &vec![v4], 9, 1));
    assert_eq!(table.len(), 1);
    assert!(on_removed(&mut table, "peer1._nearclip._tcp.local."));
    assert!(!on_removed(&mut table, "peer1._nearclip._tcp.local."));
    assert_eq!(first_label_of("nodots"), "nodots");
    assert_eq!(first_label_of(".lead"), "");
    assert_eq!(ipv4_addrs(&vec![v6, v4, v6, v4]), vec![v4, v4]);
}

#[test]
fn a_connection_starts_with_pairing_or_a_session() {
    let req = Wire::PairRequest {
        v: 1,
        device_id: "a".into(),
        name: "A".into(),
        id_pk: String::new(),
        commit: String::new(),
        port: 0,
        token: None,
        via: None,
    };
    assert!(matches!(route_first_frame(req), Ok(Flow::Pairing(Wire::PairRequest { .. }))));
    let init = Wire::SessionInit { v: 1, device_id: "a".into(), salt: String::new(), port: 0 };
    assert!(matches!(route_first_frame(init), Ok(Flow::Session(Wire::SessionInit { .. }))));
    match route_first_frame(Wire::PairSig { sig: "x".into() }) {
        Err(Refusal { frame, error }) => {
            assert_eq!(frame, Some(error_frame("bad_request", "unexpected first frame".to_string())));
            assert!(matches!(error, AppError::Protocol(m) if m.starts_with("unexpected first frame ")));
        },
        other => panic!("unexpected {other:?}"),
    }
}

#[test]
fn the_watcher_sends_only_new_foreign_text() {
    let mut w = Watcher::new();
    assert!(w.on_poll(Some("first".into()), true, true).is_none());
    assert!(w.on_poll(Some("first".into()), true, true).is_none());
    assert_eq!(w.on_poll(Some("second".into()), true, true).as_deref(), Some("second"));
    assert!(w.on_poll(Some("   ".into()), true, true).is_none());
    assert!(w.on_poll(None, true, true).is_none());
    w.on_write(&"from peer".to_string());
    assert!(w.on_poll(Some("from peer".into()), true, true).is_none());
    assert!(w.on_poll(Some("third".into()), false, true).is_none());
    assert!(w.on_poll(Some("fourth".into()), true, false).is_none());
    assert!(w.on_poll(Some("x".repeat(1024 * 1024 + 1)), true, true).is_none());
    w.on_reset(Some("base".into()));
    assert_eq!(w.last_hash, Some(sha256(b"base")));
    w.on_reset(None);
    assert!(w.on_poll(Some("after reset".into()), true, true).is_none());
    let _ = ClipboardCmd::ResetBaseline;
}

#[test]
fn at_most_sixteen_written_texts_are_remembered() {
    let mut s: VecDeque<[u8; 32]> = VecDeque::new();
    for i in 0..20u8 {
        remember(&mut s, [i; 32]);
    }
    assert_eq!(s.len(), SUPPRESSED_CAP);
    assert_eq!(s[0], [4u8; 32]);
    remember(&mut s, [10u8; 32]);
    assert_eq!(s.len(), SUPPRESSED_CAP);
    assert_eq!(s[0], [4u8; 32]);
}

#[test]
fn names_and_texts_are_checked() {
    assert_eq!(clean_name("  Desk  ").unwrap(), "Desk");
    assert_eq!(clean_name(&"n".repeat(60)).unwrap().chars().count(), 48);
    assert!(matches!(clean_name("   "), Err(AppError::Msg(m)) if m == "Device name cannot be empty"));
    assert!(check_send_text("hi").is_ok());
    assert!(matches!(check_send_text(" \n"), Err(AppError::Msg(m)) if m == "Nothing to send"));
    assert!(matches!(check_send_text(&"x".repeat(1024 * 1024 + 1)), Err(AppError::Msg(m)) if m == "Text is too large (1 MB max)"));
}

#[test]
fn settings_changes_report_their_side_effects() {
    let mut s = Settings::named("Desk".into());
    let mut incoming = Settings::named("  Laptop ".into());
    incoming.auto_sync = true;
    incoming.discovery = true;
    let (current, change) = set_settings(&mut s, incoming).unwrap();
    assert_eq!(current.device_name, "Laptop");
    assert!(s.auto_sync && s.discovery);
    assert!(change.reset_clipboard_baseline);
    assert_eq!(change.discovery, Some(true));
    assert!(!change.re_announce);

    let mut renamed = Settings::named("Office".into());
    renamed.auto_sync = true;
    renamed.discovery = true;
    let (_, change) = set_settings(&mut s, renamed).unwrap();
    assert!(!change.reset_clipboard_baseline && change.discovery.is_none() && change.re_announce);
    assert!(set_settings(&mut s, Settings::named(" ".into())).is_err());
    assert_eq!(s.device_name, "Office");

    assert_eq!(set_device_name(&mut s, " Den ").unwrap().device_name, "Den");
    let (t, reset) = toggle_auto_sync(&mut s);
    assert!(!t.auto_sync && !reset);
    let (t, reset) = toggle_auto_sync(&mut s);
    assert!(t.auto_sync && reset);
    assert_eq!(autostart_action(true, false), Some(true));
    assert_eq!(autostart_action(false, true), Some(false));
    assert_eq!(autostart_action(true, true), None);
}

#[test]
fn identity_and_listen_views() {
    let me = Identity::from_seed([8u8; 32]);
    let s = Settings::named("Desk".into());
    let v = get_identity(&me, &s, "linux".into(), true);
    assert_eq!(v.device_id, me.device_id);
    assert_eq!(v.fingerprint, me.fingerprint());
    assert_eq!(v.public_key, me.public_key_b64());
    assert_eq!((v.name.as_str(), v.platform.as_str(), v.desktop), ("Desk", "linux", true));
    let info = get_listen_info(47821, &vec![0xc0a8_0105, 0x7f00_0001]);
    assert_eq!(info.port, 47821);
    assert_eq!(info.addrs, vec!["192.168.1.5".to_string(), "127.0.0.1".to_string()]);
}
