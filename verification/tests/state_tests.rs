use std::collections::VecDeque;

use nearclip::net::{best_addr, listen_addr, IpAddress, SockAddr};
use nearclip::registry::Registry;
use nearclip::state::{
    default_device_name, device_views, forget_peer, load_peers, persisted_history, push_history,
    remember_peer_addr, save_peer, timestamp_ms, DiscoveredDevice, Direction, HistoryItem, PairedVia, PeerRecord,
    Settings, HISTORY_CAP, HISTORY_PERSISTED,
};

fn peer(id: &str, name: &str, addr: Option<SockAddr>) -> PeerRecord {
    PeerRecord {
        device_id: id.to_string(),
        name: name.to_string(),
        id_pk: [1; 32],
        pairing_key: [2; 32],
        paired_at: 0,
        last_seen_addr: addr,
        via: PairedVia::Address,
    }
}

fn device(name: &str, addrs: Vec<IpAddress>, last_seen_ms: u64) -> DiscoveredDevice {
    DiscoveredDevice { name: name.to_string(), addrs, port: 47821, last_seen_ms }
}

fn entry(n: i64) -> HistoryItem {
    HistoryItem {
        id: n.to_string(),
        direction: Direction::Received,
        peer_id: "p".to_string(),
        peer_name: "P".to_string(),
        text: String::new(),
        ts_ms: n,
        ok: true,
        file: None,
    }
}

#[test]
fn defaults_are_quiet_and_named_after_the_host() {
    let s = Settings::defaults("linux");
    assert!(!s.device_name.is_empty());
    assert!(!s.auto_sync && !s.autostart && !s.discovery);
    assert!(s.write_received_to_clipboard && s.notify_on_receive && s.close_to_tray);
    assert_eq!(default_device_name(Some("studio.local".into())), "studio");
    assert_eq!(default_device_name(Some("a.local.local".into())), "a");
    assert_eq!(default_device_name(Some(".local".into())), "My device");
    assert_eq!(default_device_name(None), "My device");
    assert_eq!(PairedVia::default(), PairedVia::Address);
}

#[test]
fn history_keeps_the_newest_first_up_to_its_cap() {
    let mut h: VecDeque<HistoryItem> = VecDeque::new();
    for n in 0..(HISTORY_CAP as i64 + 5) {
        push_history(&mut h, entry(n));
    }
    assert_eq!(h.len(), HISTORY_CAP);
    assert_eq!(h[0].ts_ms, HISTORY_CAP as i64 + 4);
    assert_eq!(h[HISTORY_CAP - 1].ts_ms, 5);
    let saved = persisted_history(&h);
    assert_eq!(saved.len(), HISTORY_PERSISTED);
    assert_eq!(saved[0].ts_ms, h[0].ts_ms);
}

#[test]
fn peers_are_saved_forgotten_and_their_addresses_remembered() {
    let mut peers = load_peers(vec![peer("a", "old", None), peer("b", "B", None), peer("a", "new", None)]);
    assert_eq!(peers.len(), 2);
    assert_eq!(peers.get("a").unwrap().name, "new");
    let addr = SockAddr { ip: IpAddress::V4(0x0a00_0001), port: 1 };
    assert!(remember_peer_addr(&mut peers, "a", addr));
    assert!(!remember_peer_addr(&mut peers, "a", addr));
    assert!(!remember_peer_addr(&mut peers, "zz", addr));
    assert_eq!(peers.get("a").unwrap().last_seen_addr, Some(addr));
    save_peer(&mut peers, peer("c", "C", None));
    assert!(peers.contains_key("c"));
    assert_eq!(forget_peer(&mut peers, "b").unwrap().name, "B");
    assert!(forget_peer(&mut peers, "b").is_none());
    assert_eq!(peers.len(), 2);
}

#[test]
fn the_best_address_prefers_ipv4_then_routable_ipv6() {
    let link_local = IpAddress::V6(0xfe80_0000_0000_0000_0000_0000_0000_0001);
    let global = IpAddress::V6(0x2001_0db8_0000_0000_0000_0000_0000_0001);
    let v4 = IpAddress::V4(0xc0a8_0001);
    assert_eq!(best_addr(&vec![link_local, global, v4], 9), Some(SockAddr { ip: v4, port: 9 }));
    assert_eq!(best_addr(&vec![link_local, global], 9), Some(SockAddr { ip: global, port: 9 }));
    assert_eq!(best_addr(&vec![link_local], 9), Some(SockAddr { ip: link_local, port: 9 }));
    assert_eq!(best_addr(&vec![], 9), None);
    let conn = SockAddr { ip: v4, port: 51000 };
    assert_eq!(listen_addr(conn, 47821), SockAddr { ip: v4, port: 47821 });
    assert_eq!(listen_addr(conn, 0), conn);
}

#[test]
fn a_device_goes_stale_after_ninety_seconds() {
    let d = device("x", vec![], 1_000);
    assert!(!d.is_stale(1_000 + 90_999));
    assert!(d.is_stale(1_000 + 91_000));
    assert!(!d.is_stale(0));
}

#[test]
fn the_device_list_shows_paired_devices_first_then_by_name() {
    let mut peers: Registry<PeerRecord> = Registry::new();
    let mut discovered: Registry<DiscoveredDevice> = Registry::new();
    let stored = SockAddr { ip: IpAddress::V4(0x0a00_0063), port: 2 };
    peers.insert("p2".into(), peer("p2", "zeta", Some(stored)));
    peers.insert("p1".into(), peer("p1", "Alpha", None));
    discovered.insert("d1".into(), device("beta", vec![IpAddress::V4(0x0a00_0001)], 10_000));
    discovered.insert("d2".into(), device("Aardvark", vec![IpAddress::V4(0x0a00_0002)], 10_000));
    discovered.insert("d3".into(), device("gone", vec![], 0));
    discovered.insert("p2".into(), device("Zeta live", vec![IpAddress::V4(0x0a00_0003)], 10_000));
    let views = device_views(&peers, &discovered, 95_000);
    let names: Vec<&str> = views.iter().map(|v| v.name.as_str()).collect();
    assert_eq!(names, vec!["Alpha", "Zeta live", "Aardvark", "beta"]);
    assert!(views[0].paired && views[1].paired && !views[2].paired);
    assert_eq!(views[1].addr, Some(SockAddr { ip: IpAddress::V4(0x0a00_0003), port: 47821 }));
    assert_eq!(views[1].via, Some(PairedVia::Address));
    assert_eq!(views[0].addr, None);

    let later = device_views(&peers, &discovered, 200_000);
    assert_eq!(later.len(), 2);
    assert_eq!(later[1].name, "zeta");
    assert_eq!(later[1].addr, Some(stored));
}

#[test]
fn clock_readings_become_signed_milliseconds() {
    assert_eq!(timestamp_ms(Some(1_700_000_000_000)), 1_700_000_000_000);
    assert_eq!(timestamp_ms(None), 0);
    assert!(nearclip::state::now_ms() > 0);
}

#[test]
fn phones_get_a_recognizable_default_name() {
    assert_eq!(Settings::defaults("android").device_name, "Android phone");
    assert_eq!(Settings::defaults("ios").device_name, "iPhone");
    let desk = Settings::defaults("linux");
    assert!(!desk.device_name.is_empty());
    assert!(!desk.auto_sync && desk.close_to_tray);
}

#[test]
fn names_are_ordered_ignoring_case() {
    let peers: Registry<PeerRecord> = Registry::new();
    let mut discovered: Registry<DiscoveredDevice> = Registry::new();
    discovered.insert("b".into(), device("Banana", vec![], 0));
    discovered.insert("a".into(), device("apple", vec![], 0));
    discovered.insert("c".into(), device("\u{c9}clair", vec![], 0));
    let views = device_views(&peers, &discovered, 0);
    let names: Vec<&str> = views.iter().map(|v| v.name.as_str()).collect();
    assert_eq!(names, vec!["apple", "Banana", "\u{c9}clair"]);
    assert_eq!(views[0].addr, None);
}
