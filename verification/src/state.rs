//! Application data: settings, peers, discovered devices, history.

use vstd::prelude::*;

use crate::net::{best_addr, spec_best_ip, IpAddress, SockAddr};
use crate::text::{chars_of, string_of};
use crate::registry::Registry;
use std::collections::VecDeque;

verus! {

/// Most history items kept in memory.
pub const HISTORY_CAP: usize = 200;

/// Most history items written to disk.
pub const HISTORY_PERSISTED: usize = 100;

/// A discovered device not seen for longer than this is ignored.
pub const STALE_AFTER_SECS: u64 = 90;

/// User settings.
pub struct Settings {
    pub device_name: String,
    pub auto_sync: bool,
    pub write_received_to_clipboard: bool,
    pub notify_on_receive: bool,
    pub close_to_tray: bool,
    pub autostart: bool,
    /// mDNS discovery. Off by default: unreliable on many Wi-Fi networks.
    pub discovery: bool,
}

/// `s` without every trailing copy of `suffix` (`str::trim_end_matches`).
pub open spec fn trim_end_matches(s: Seq<char>, suffix: Seq<char>) -> Seq<char>
    decreases s.len(),
{
    if suffix.len() > 0 && s.len() >= suffix.len() && s.subrange(s.len() - suffix.len(), s.len() as int) == suffix {
        trim_end_matches(s.subrange(0, s.len() - suffix.len()), suffix)
    } else {
        s
    }
}

/// The device name derived from the host name: without its `.local`
/// suffixes, or "My device" when nothing is left or the host has no name.
pub open spec fn spec_default_device_name(host: Option<Seq<char>>) -> Seq<char> {
    match host {
        Some(h) => if trim_end_matches(h, ".local"@).len() > 0 {
            trim_end_matches(h, ".local"@)
        } else {
            "My device"@
        },
        None => "My device"@,
    }
}

/// Whether `s` ends with `suffix` (non-empty), checked on character vectors.
fn ends_with(s: &Vec<char>, len: usize, suffix: &Vec<char>) -> (b: bool)
    requires
        len <= s@.len(),
    ensures
        b == (suffix@.len() > 0 && len >= suffix@.len() && s@.subrange(len - suffix@.len(), len as int) == suffix@),
{
    let m = suffix.len();
    if m == 0 || len < m {
        return false;
    }
    let start = len - m;
    let mut i: usize = 0;
    while i < m
        invariant
            m == suffix@.len(),
            start + m == len <= s@.len(),
            i <= m,
            forall|k: int| 0 <= k < i ==> s@[start + k] == suffix@[k],
        decreases m - i,
    {
        if s[start + i] != suffix[i] {
            assert(s@.subrange(start as int, len as int)[i as int] != suffix@[i as int]);
            return false;
        }
        i = i + 1;
    }
    assert(s@.subrange(start as int, len as int) =~= suffix@);
    true
}

/// `str::trim_end_matches` on a character vector.
fn trim_end_matches_chars(s: &Vec<char>, suffix: &Vec<char>) -> (r: Vec<char>)
    ensures
        r@ == trim_end_matches(s@, suffix@),
{
    let mut len = s.len();
    assert(s@.subrange(0, len as int) =~= s@);
    while ends_with(s, len, suffix)
        invariant
            len <= s@.len(),
            trim_end_matches(s@, suffix@) == trim_end_matches(s@.subrange(0, len as int), suffix@),
        decreases len,
    {
        proof {
            let t = s@.subrange(0, len as int);
            assert(t.subrange(t.len() - suffix@.len(), t.len() as int) =~= s@.subrange(len - suffix@.len(), len as int));
            assert(t.subrange(0, t.len() - suffix@.len()) =~= s@.subrange(0, len - suffix@.len()));
        }
        len = len - suffix.len();
    }
    proof {
        let t = s@.subrange(0, len as int);
        if suffix@.len() > 0 && t.len() >= suffix@.len() {
            assert(t.subrange(t.len() - suffix@.len(), t.len() as int) =~= s@.subrange(len - suffix@.len(), len as int));
        }
    }
    crate::text::sub_chars(s, 0, len)
}

/// The device name derived from the host name: without its `.local`
/// suffixes, or "My device" when nothing is left or the host has no name.
pub fn default_device_name(host: Option<String>) -> (name: String)
    ensures
        name@ == spec_default_device_name(match host { Some(h) => Some(h@), None => None }),
{
    match host {
        Some(h) => {
            let chars = chars_of(h.as_str());
            let suffix = chars_of(".local");
            let trimmed = trim_end_matches_chars(&chars, &suffix);
            if trimmed.len() > 0 {
                string_of(&trimmed)
            } else {
                String::from_str("My device")
            }
        },
        None => String::from_str("My device"),
    }
}

/// The name of this computer.
///
/// Calls `hostname::get`; nothing is claimed of the result, which depends on
/// the machine. `None` when it fails or is not valid Unicode.
#[verifier::external_body]
fn host_name() -> Option<String> {
    hostname::get().ok().and_then(|h| h.into_string().ok())
}

impl Settings {
    /// Settings of a fresh install on the operating system `os` (as
    /// `std::env::consts::OS` names it): phones report "localhost" as their
    /// host name, so they get a recognizable name instead; other systems are
    /// named after the computer.
    pub fn defaults(os: &str) -> (s: Settings)
        ensures
            os@ == "android"@ ==> s.device_name@ == "Android phone"@,
            os@ == "ios"@ ==> s.device_name@ == "iPhone"@,
            os@ != "android"@ && os@ != "ios"@ ==> exists|host: Option<Seq<char>>|
                s.device_name@ == spec_default_device_name(host),
            s.device_name@.len() > 0,
            !s.auto_sync,
            s.write_received_to_clipboard,
            s.notify_on_receive,
            s.close_to_tray,
            !s.autostart,
            !s.discovery,
    {
        proof {
            reveal_strlit("Android phone");
            reveal_strlit("iPhone");
            reveal_strlit("android");
            reveal_strlit("ios");
            reveal_strlit("My device");
            assert("android"@.len() != "ios"@.len());
        }
        if crate::text::str_eq(os, "android") {
            Settings::named(String::from_str("Android phone"))
        } else if crate::text::str_eq(os, "ios") {
            Settings::named(String::from_str("iPhone"))
        } else {
            Settings::named(default_device_name(host_name()))
        }
    }

    /// Default settings under the given device name.
    pub fn named(device_name: String) -> (s: Settings)
        ensures
            s.device_name == device_name,
            !s.auto_sync,
            s.write_received_to_clipboard,
            s.notify_on_receive,
            s.close_to_tray,
            !s.autostart,
            !s.discovery,
    {
        Settings {
            device_name,
            auto_sync: false,
            write_received_to_clipboard: true,
            notify_on_receive: true,
            close_to_tray: true,
            autostart: false,
            discovery: false,
        }
    }

    /// A copy of these settings.
    pub fn copy(&self) -> (s: Settings)
        ensures
            s == *self,
    {
        Settings {
            device_name: self.device_name.clone(),
            auto_sync: self.auto_sync,
            write_received_to_clipboard: self.write_received_to_clipboard,
            notify_on_receive: self.notify_on_receive,
            close_to_tray: self.close_to_tray,
            autostart: self.autostart,
            discovery: self.discovery,
        }
    }
}

/// How a pairing was established; shown instead of an online/offline state.
#[derive(PartialEq, Eq, Structural, Clone, Copy, Debug)]
pub enum PairedVia {
    Discovery,
    Address,
    Qr,
}

impl PairedVia {
    /// The method recorded when none was given: by address.
    pub fn default() -> (v: PairedVia)
        ensures
            v == PairedVia::Address,
    {
        PairedVia::Address
    }
}

/// A paired device.
pub struct PeerRecord {
    pub device_id: String,
    pub name: String,
    pub id_pk: [u8; 32],
    pub pairing_key: [u8; 32],
    pub paired_at: i64,
    pub last_seen_addr: Option<SockAddr>,
    pub via: PairedVia,
}

impl PeerRecord {
    /// A copy of this record.
    pub fn copy(&self) -> (r: PeerRecord)
        ensures
            r == *self,
    {
        PeerRecord {
            device_id: self.device_id.clone(),
            name: self.name.clone(),
            id_pk: self.id_pk,
            pairing_key: self.pairing_key,
            paired_at: self.paired_at,
            last_seen_addr: self.last_seen_addr,
            via: self.via,
        }
    }
}

/// A device seen on the network through mDNS.
pub struct DiscoveredDevice {
    pub name: String,
    pub addrs: Vec<IpAddress>,
    pub port: u16,
    /// When it was last seen, in milliseconds of a monotonic clock.
    pub last_seen_ms: u64,
}

impl DiscoveredDevice {
    /// The address to reach it at: IPv4 first, then any non-link-local IPv6,
    /// then anything.
    pub open spec fn spec_best_addr(&self) -> Option<SockAddr> {
        match spec_best_ip(self.addrs@) {
            Some(ip) => Some(SockAddr { ip, port: self.port }),
            None => None,
        }
    }

    /// Prefer IPv4, then any non-link-local IPv6, then anything.
    pub fn best_addr(&self) -> (a: Option<SockAddr>)
        ensures
            a == self.spec_best_addr(),
    {
        best_addr(&self.addrs, self.port)
    }

    /// Not seen for more than [`STALE_AFTER_SECS`] whole seconds at time `now_ms`.
    pub open spec fn spec_is_stale(&self, now_ms: u64) -> bool {
        now_ms >= self.last_seen_ms && (now_ms - self.last_seen_ms) / 1000 > STALE_AFTER_SECS
    }

    /// Whether the device has not been seen for more than 90 seconds.
    pub fn is_stale(&self, now_ms: u64) -> (b: bool)
        ensures
            b == self.spec_is_stale(now_ms),
    {
        now_ms >= self.last_seen_ms && (now_ms - self.last_seen_ms) / 1000 > STALE_AFTER_SECS
    }
}

/// A device as the device list shows it.
pub struct DeviceView {
    pub device_id: String,
    pub name: String,
    pub paired: bool,
    pub addr: Option<SockAddr>,
    /// Set for paired devices only.
    pub via: Option<PairedVia>,
}

/// Whether an item was sent or received.
#[derive(PartialEq, Eq, Structural, Clone, Copy, Debug)]
pub enum Direction {
    Sent,
    Received,
}

/// A file that was sent or received.
pub struct FileMeta {
    pub name: String,
    pub size: u64,
    pub mime: String,
    /// Where a received file was saved.
    pub path: Option<String>,
}

/// One entry of the history.
pub struct HistoryItem {
    pub id: String,
    pub direction: Direction,
    pub peer_id: String,
    pub peer_name: String,
    pub text: String,
    pub ts_ms: i64,
    pub ok: bool,
    pub file: Option<FileMeta>,
}

impl HistoryItem {
    /// The item recorded for something received from `peer`.
    pub fn received(
        id: String,
        peer: &PeerRecord,
        peer_name: String,
        text: String,
        file: Option<FileMeta>,
        ts_ms: i64,
    ) -> (item: HistoryItem)
        ensures
            item == (HistoryItem {
                id,
                direction: Direction::Received,
                peer_id: peer.device_id,
                peer_name,
                text,
                ts_ms,
                ok: true,
                file,
            }),
    {
        HistoryItem {
            id,
            direction: Direction::Received,
            peer_id: peer.device_id.clone(),
            peer_name,
            text,
            ts_ms,
            ok: true,
            file,
        }
    }
}

/// How one device fared in a send.
pub struct SendResult {
    pub device_id: String,
    pub ok: bool,
    pub error: Option<String>,
}

impl FileMeta {
    /// A copy of this record.
    pub fn copy(&self) -> (r: FileMeta)
        ensures
            r == *self,
    {
        FileMeta {
            name: self.name.clone(),
            size: self.size,
            mime: self.mime.clone(),
            path: match &self.path {
                Some(p) => Some(p.clone()),
                None => None,
            },
        }
    }
}

impl HistoryItem {
    /// A copy of this item.
    pub fn copy(&self) -> (r: HistoryItem)
        ensures
            r == *self,
    {
        HistoryItem {
            id: self.id.clone(),
            direction: self.direction,
            peer_id: self.peer_id.clone(),
            peer_name: self.peer_name.clone(),
            text: self.text.clone(),
            ts_ms: self.ts_ms,
            ok: self.ok,
            file: match &self.file {
                Some(f) => Some(f.copy()),
                None => None,
            },
        }
    }
}

/// The history after recording `item`: newest first, at most
/// [`HISTORY_CAP`] items, the oldest dropped.
pub open spec fn spec_push_history(h: Seq<HistoryItem>, item: HistoryItem) -> Seq<HistoryItem> {
    let s = seq![item] + h;
    if s.len() > HISTORY_CAP {
        s.take(HISTORY_CAP as int)
    } else {
        s
    }
}

/// The history keeps the newest item first, never holds more than
/// [`HISTORY_CAP`] items, and keeps the earlier items in order behind it
/// until they fall off the end.
pub proof fn law_history_newest_first(h: Seq<HistoryItem>, item: HistoryItem)
    requires
        h.len() <= HISTORY_CAP,
    ensures
        spec_push_history(h, item)[0] == item,
        spec_push_history(h, item).len() == if h.len() < HISTORY_CAP { h.len() + 1 } else { HISTORY_CAP as nat },
        forall|i: int| 0 <= i < spec_push_history(h, item).len() - 1 ==> #[trigger] spec_push_history(h, item)[i + 1] == h[i],
{
    let s = seq![item] + h;
    assert forall|i: int| 0 <= i < spec_push_history(h, item).len() - 1 implies #[trigger] spec_push_history(h, item)[i + 1] == h[i] by {
        assert(s[i + 1] == h[i]);
    }
}

/// Records `item` at the front of the history, dropping the oldest items
/// beyond [`HISTORY_CAP`].
pub fn push_history(history: &mut VecDeque<HistoryItem>, item: HistoryItem)
    ensures
        final(history)@ == spec_push_history(old(history)@, item),
{
    let ghost full = seq![item] + old(history)@;
    history.push_front(item);
    assert(full.take(full.len() as int) =~= full);
    while history.len() > HISTORY_CAP
        invariant
            full.len() > HISTORY_CAP ==> history@.len() >= HISTORY_CAP,
            full.len() <= HISTORY_CAP ==> history@.len() == full.len(),
            history@.len() <= full.len(),
            history@ == full.take(history@.len() as int),
        decreases history@.len(),
    {
        history.pop_back();
    }
    assert(history@ =~= spec_push_history(old(history)@, item)) by {
        if full.len() <= HISTORY_CAP {
            assert(full.take(full.len() as int) =~= full);
        }
    }
}

/// The items written to disk: the newest [`HISTORY_PERSISTED`].
pub fn persisted_history(history: &VecDeque<HistoryItem>) -> (r: Vec<HistoryItem>)
    ensures
        r@ == history@.take(if history@.len() <= HISTORY_PERSISTED { history@.len() as int } else { HISTORY_PERSISTED as int }),
{
    let n = if history.len() <= HISTORY_PERSISTED { history.len() } else { HISTORY_PERSISTED };
    let mut r: Vec<HistoryItem> = Vec::new();
    let mut i: usize = 0;
    while i < n
        invariant
            n <= history@.len(),
            i <= n,
            r@ == history@.take(i as int),
        decreases n - i,
    {
        r.push(history[i].copy());
        i = i + 1;
        assert(r@ =~= history@.take(i as int));
    }
    r
}

/// Milliseconds since the Unix epoch on the system clock.
///
/// Calls `SystemTime::now().duration_since(UNIX_EPOCH)`; nothing is claimed
/// of the value, which depends on the clock. `None` when the clock is set
/// before the epoch.
#[verifier::external_body]
fn system_time_ms() -> Option<u128> {
    std::time::SystemTime::now().duration_since(std::time::UNIX_EPOCH).ok().map(|d| d.as_millis())
}

/// A timestamp from a reading of the system clock: its milliseconds as an
/// `i64` (wrapping, as `as` does), or 0 when the clock is before the epoch.
pub fn timestamp_ms(reading: Option<u128>) -> (t: i64)
    ensures
        t == match reading {
            Some(ms) => ms as i64,
            None => 0,
        },
{
    match reading {
        Some(ms) => ms as i64,
        None => 0,
    }
}

/// Milliseconds since the Unix epoch, 0 when the clock is before it.
pub fn now_ms() -> i64 {
    timestamp_ms(system_time_ms())
}

/// Stores a pairing, replacing an earlier one with the same device.
pub fn save_peer(peers: &mut Registry<PeerRecord>, peer: PeerRecord)
    requires
        old(peers).wf(),
    ensures
        final(peers).wf(),
        final(peers)@ == old(peers)@.insert(peer.device_id@, peer),
{
    let id = peer.device_id.clone();
    peers.insert(id, peer);
}

/// Removes a pairing; returns it when there was one (the caller then saves
/// the table and refreshes the device list).
pub fn forget_peer(peers: &mut Registry<PeerRecord>, device_id: &str) -> (r: Option<PeerRecord>)
    requires
        old(peers).wf(),
    ensures
        final(peers).wf(),
        final(peers)@ == old(peers)@.remove(device_id@),
        match r {
            Some(p) => old(peers)@.dom().contains(device_id@) && p == old(peers)@[device_id@],
            None => !old(peers)@.dom().contains(device_id@),
        },
{
    peers.remove(device_id)
}

/// Records where a paired device was last reached. Returns whether the
/// record changed (the caller then saves the table).
pub fn remember_peer_addr(peers: &mut Registry<PeerRecord>, device_id: &str, addr: SockAddr) -> (changed: bool)
    requires
        old(peers).wf(),
    ensures
        final(peers).wf(),
        changed == (old(peers)@.dom().contains(device_id@) && old(peers)@[device_id@].last_seen_addr != Some(addr)),
        final(peers)@ == if changed {
            old(peers)@.insert(device_id@, PeerRecord { last_seen_addr: Some(addr), ..old(peers)@[device_id@] })
        } else {
            old(peers)@
        },
{
    let current = match peers.get(device_id) {
        Some(p) => p.last_seen_addr,
        None => return false,
    };
    if current == Some(addr) {
        return false;
    }
    let mut p = match peers.remove(device_id) {
        Some(p) => p,
        None => return false,
    };
    p.last_seen_addr = Some(addr);
    peers.insert(String::from_str(device_id), p);
    assert(final(peers)@ =~= old(peers)@.insert(device_id@, PeerRecord { last_seen_addr: Some(addr), ..old(peers)@[device_id@] }));
    true
}

/// The peer table loaded from disk: one entry per device, a later record
/// replacing an earlier one with the same id.
pub open spec fn peers_map(list: Seq<PeerRecord>) -> Map<Seq<char>, PeerRecord>
    decreases list.len(),
{
    if list.len() == 0 {
        Map::empty()
    } else {
        peers_map(list.drop_last()).insert(list.last().device_id@, list.last())
    }
}

/// The peer table of a stored list of records.
pub fn load_peers(list: Vec<PeerRecord>) -> (peers: Registry<PeerRecord>)
    ensures
        peers.wf(),
        peers@ == peers_map(list@),
{
    let mut peers: Registry<PeerRecord> = Registry::new();
    let n = list.len();
    let mut i: usize = 0;
    assert(list@.take(0) =~= Seq::<PeerRecord>::empty());
    while i < n
        invariant
            n == list@.len(),
            i <= n,
            peers.wf(),
            peers@ == peers_map(list@.take(i as int)),
        decreases n - i,
    {
        let p = list[i].copy();
        let id = p.device_id.clone();
        peers.insert(id, p);
        assert(list@.take(i + 1).drop_last() =~= list@.take(i as int));
        i = i + 1;
    }
    assert(list@.take(n as int) =~= list@);
    peers
}

/// The text lower-cased by Unicode rules, as `str::to_lowercase` does it.
pub uninterp spec fn unicode_lowercase(s: Seq<char>) -> Seq<char>;

/// Lower-cases a name for sorting.
///
/// Calls `str::to_lowercase`; the result is the named [`unicode_lowercase`].
#[verifier::external_body]
fn lowercase(s: &str) -> (r: String)
    ensures
        r@ == unicode_lowercase(s@),
{
    s.to_lowercase()
}

/// Lexicographic order of texts, character by character (which is also the
/// byte order of their UTF-8).
pub open spec fn chars_le(a: Seq<char>, b: Seq<char>) -> bool
    decreases a.len(),
{
    if a.len() == 0 {
        true
    } else if b.len() == 0 {
        false
    } else if a[0] != b[0] {
        a[0] < b[0]
    } else {
        chars_le(a.drop_first(), b.drop_first())
    }
}

proof fn lemma_chars_le_total(a: Seq<char>, b: Seq<char>)
    ensures
        chars_le(a, b) || chars_le(b, a),
    decreases a.len(),
{
    if a.len() > 0 && b.len() > 0 && a[0] == b[0] {
        lemma_chars_le_total(a.drop_first(), b.drop_first());
    }
}

proof fn lemma_chars_le_trans(a: Seq<char>, b: Seq<char>, c: Seq<char>)
    requires
        chars_le(a, b),
        chars_le(b, c),
    ensures
        chars_le(a, c),
    decreases a.len(),
{
    if a.len() > 0 && b.len() > 0 && c.len() > 0 && a[0] == b[0] && b[0] == c[0] {
        lemma_chars_le_trans(a.drop_first(), b.drop_first(), c.drop_first());
    }
}

/// Whether `a <= b` in text order.
fn chars_le_exec(a: &Vec<char>, b: &Vec<char>) -> (r: bool)
    ensures
        r == chars_le(a@, b@),
{
    let mut i: usize = 0;
    proof {
        assert(a@.subrange(0, a@.len() as int) =~= a@);
        assert(b@.subrange(0, b@.len() as int) =~= b@);
    }
    while i < a.len() && i < b.len() && a[i] == b[i]
        invariant
            i <= a@.len(),
            i <= b@.len(),
            chars_le(a@, b@) == chars_le(a@.subrange(i as int, a@.len() as int), b@.subrange(i as int, b@.len() as int)),
        decreases a@.len() - i,
    {
        proof {
            let x = a@.subrange(i as int, a@.len() as int);
            let y = b@.subrange(i as int, b@.len() as int);
            assert(x.drop_first() =~= a@.subrange(i + 1, a@.len() as int));
            assert(y.drop_first() =~= b@.subrange(i + 1, b@.len() as int));
        }
        i = i + 1;
    }
    proof {
        assert(a@.subrange(0, a@.len() as int) =~= a@);
        assert(b@.subrange(0, b@.len() as int) =~= b@);
    }
    if i == a.len() {
        return true;
    }
    if i == b.len() {
        return false;
    }
    a[i] < b[i]
}

/// The device list order: paired devices first, then by name, ignoring case.
pub open spec fn view_before(a: DeviceView, b: DeviceView) -> bool {
    (a.paired && !b.paired) || (a.paired == b.paired && chars_le(unicode_lowercase(a.name@), unicode_lowercase(b.name@)))
}

/// `s` is in device list order.
pub open spec fn views_sorted(s: Seq<DeviceView>) -> bool {
    forall|i: int, j: int| 0 <= i < j < s.len() ==> view_before(#[trigger] s[i], #[trigger] s[j])
}

/// The entry of a paired device: its current name and address while
/// discovery sees it (and it is not stale), else those stored at pairing.
pub open spec fn paired_view(id: String, peer: PeerRecord, discovered: Registry<DiscoveredDevice>, now_ms: u64) -> DeviceView {
    let live = discovered@.dom().contains(id@) && !discovered@[id@].spec_is_stale(now_ms);
    DeviceView {
        device_id: id,
        name: if live { discovered@[id@].name } else { peer.name },
        paired: true,
        addr: if live && discovered@[id@].spec_best_addr() is Some {
            discovered@[id@].spec_best_addr()
        } else {
            peer.last_seen_addr
        },
        via: Some(peer.via),
    }
}

/// The entry of a discovered device that is not paired.
pub open spec fn unpaired_view(id: String, d: DiscoveredDevice) -> DeviceView {
    DeviceView { device_id: id, name: d.name, paired: false, addr: d.spec_best_addr(), via: None }
}

/// The discovered devices listed: not paired, not stale, in table order.
pub open spec fn discovered_views(entries: Seq<(String, DiscoveredDevice)>, peers: Registry<PeerRecord>, now_ms: u64) -> Seq<DeviceView>
    decreases entries.len(),
{
    if entries.len() == 0 {
        Seq::empty()
    } else {
        let (id, d) = entries.last();
        let rest = discovered_views(entries.drop_last(), peers, now_ms);
        if peers@.dom().contains(id@) || d.spec_is_stale(now_ms) {
            rest
        } else {
            rest.push(unpaired_view(id, d))
        }
    }
}

/// Every entry of the device list before sorting: each paired device, then
/// each other discovered device that is not stale.
pub open spec fn unsorted_views(peers: Registry<PeerRecord>, discovered: Registry<DiscoveredDevice>, now_ms: u64) -> Seq<DeviceView> {
    Seq::new(peers.spec_len(), |i: int| paired_view(peers.entries()[i].0, peers.entries()[i].1, discovered, now_ms))
        + discovered_views(discovered.entries(), peers, now_ms)
}

impl DeviceView {
    /// A copy of this entry.
    pub fn copy(&self) -> (r: DeviceView)
        ensures
            r == *self,
    {
        DeviceView {
            device_id: self.device_id.clone(),
            name: self.name.clone(),
            paired: self.paired,
            addr: self.addr,
            via: self.via,
        }
    }
}

proof fn lemma_view_before_total(a: DeviceView, b: DeviceView)
    ensures
        view_before(a, b) || view_before(b, a),
{
    lemma_chars_le_total(unicode_lowercase(a.name@), unicode_lowercase(b.name@));
}

proof fn lemma_view_before_trans(a: DeviceView, b: DeviceView, c: DeviceView)
    requires
        view_before(a, b),
        view_before(b, c),
    ensures
        view_before(a, c),
{
    if a.paired == b.paired && b.paired == c.paired {
        lemma_chars_le_trans(unicode_lowercase(a.name@), unicode_lowercase(b.name@), unicode_lowercase(c.name@));
    }
}

/// The entry of a paired device.
fn view_for_peer(id: &String, peer: &PeerRecord, discovered: &Registry<DiscoveredDevice>, now_ms: u64) -> (v: DeviceView)
    requires
        discovered.wf(),
    ensures
        v == paired_view(*id, *peer, *discovered, now_ms),
        v.device_id == *id && v.paired && v.via == Some(peer.via),
{
    let live = match discovered.get(id.as_str()) {
        Some(d) => if !d.is_stale(now_ms) { Some(d) } else { None },
        None => None,
    };
    let name = match live {
        Some(d) => d.name.clone(),
        None => peer.name.clone(),
    };
    let addr = match live {
        Some(d) => match d.best_addr() {
            Some(a) => Some(a),
            None => peer.last_seen_addr,
        },
        None => peer.last_seen_addr,
    };
    DeviceView { device_id: id.clone(), name, paired: true, addr, via: Some(peer.via) }
}

/// Whether `a` (with lower-cased name `ka`) may come before `b`.
fn before(a: &DeviceView, ka: &String, b: &DeviceView, kb: &String) -> (r: bool)
    requires
        ka@ == unicode_lowercase(a.name@),
        kb@ == unicode_lowercase(b.name@),
    ensures
        r == view_before(*a, *b),
{
    (a.paired && !b.paired) || (a.paired == b.paired && chars_le_exec(&chars_of(ka.as_str()), &chars_of(kb.as_str())))
}

/// The entries in device list order: a stable insertion sort.
fn sort_views(all: &Vec<DeviceView>) -> (out: Vec<DeviceView>)
    ensures
        out@.to_multiset() == all@.to_multiset(),
        views_sorted(out@),
{
    broadcast use vstd::seq_lib::to_multiset_build, vstd::seq_lib::to_multiset_insert;

    let mut out: Vec<DeviceView> = Vec::new();
    let mut keys: Vec<String> = Vec::new();
    let n = all.len();
    let mut k: usize = 0;
    assert(out@ =~= all@.take(0));
    while k < n
        invariant
            n == all@.len(),
            k <= n,
            out@.len() == keys@.len(),
            forall|q: int| 0 <= q < out@.len() ==> #[trigger] keys@[q]@ == unicode_lowercase(out@[q].name@),
            out@.to_multiset() == all@.take(k as int).to_multiset(),
            views_sorted(out@),
        decreases n - k,
    {
        let x = all[k].copy();
        let kx = lowercase(x.name.as_str());
        let m = out.len();
        let mut p: usize = 0;
        while p < m && before(&out[p], &keys[p], &x, &kx)
            invariant
                m == out@.len() == keys@.len(),
                p <= m,
                kx@ == unicode_lowercase(x.name@),
                forall|q: int| 0 <= q < out@.len() ==> #[trigger] keys@[q]@ == unicode_lowercase(out@[q].name@),
                forall|q: int| 0 <= q < p ==> view_before(#[trigger] out@[q], x),
            decreases m - p,
        {
            p = p + 1;
        }
        proof {
            if p < m {
                lemma_view_before_total(out@[p as int], x);
                assert forall|q: int| p <= q < m implies view_before(x, #[trigger] out@[q]) by {
                    if q > p {
                        lemma_view_before_trans(x, out@[p as int], out@[q]);
                    }
                }
            }
            assert(all@.take(k + 1) =~= all@.take(k as int).push(all@[k as int]));
        }
        let ghost before_out = out@;
        out.insert(p, x);
        keys.insert(p, kx);
        proof {
            assert(out@ == before_out.insert(p as int, x));
            vstd::seq_lib::to_multiset_insert(before_out, p as int, x);
            vstd::seq_lib::to_multiset_build(all@.take(k as int), all@[k as int]);
            assert forall|i: int, j: int| 0 <= i < j < out@.len() implies view_before(#[trigger] out@[i], #[trigger] out@[j]) by {
                if i < p && j < p {
                } else if i < p && j == p {
                } else if i < p && j > p {
                    assert(out@[j] == before_out[j - 1]);
                } else if i == p {
                    assert(out@[j] == before_out[j - 1]);
                } else {
                    assert(out@[i] == before_out[i - 1]);
                    assert(out@[j] == before_out[j - 1]);
                }
            }
            assert forall|q: int| 0 <= q < out@.len() implies #[trigger] keys@[q]@ == unicode_lowercase(out@[q].name@) by {
                if q < p {
                } else if q == p {
                } else {
                    assert(out@[q] == before_out[q - 1]);
                }
            }
        }
        k = k + 1;
    }
    proof {
        assert(all@.take(n as int) =~= all@);
    }
    out
}

/// The device list: paired devices first, then devices discovered on the
/// network (not stale, not paired); each group by name, ignoring case.
pub fn device_views(peers: &Registry<PeerRecord>, discovered: &Registry<DiscoveredDevice>, now_ms: u64) -> (out: Vec<DeviceView>)
    requires
        peers.wf(),
        discovered.wf(),
    ensures
        out@.to_multiset() == unsorted_views(*peers, *discovered, now_ms).to_multiset(),
        views_sorted(out@),
{
    let ghost paired_part = Seq::new(peers.spec_len(), |i: int| paired_view(peers.entries()[i].0, peers.entries()[i].1, *discovered, now_ms));
    proof {
        peers.lemma_entries();
        discovered.lemma_entries();
    }
    let mut all: Vec<DeviceView> = Vec::new();
    let np = peers.len();
    let mut i: usize = 0;
    while i < np
        invariant
            np == peers.spec_len(),
            peers.wf(),
            discovered.wf(),
            i <= np,
            paired_part.len() == np,
            paired_part == Seq::new(peers.spec_len(), |i: int| paired_view(peers.entries()[i].0, peers.entries()[i].1, *discovered, now_ms)),
            all@ == paired_part.take(i as int),
        decreases np - i,
    {
        let (id, p) = peers.at(i);
        let v = view_for_peer(id, p, discovered, now_ms);
        all.push(v);
        i = i + 1;
        assert(all@ =~= paired_part.take(i as int));
    }
    assert(paired_part.take(np as int) =~= paired_part);
    let nd = discovered.len();
    let mut j: usize = 0;
    assert(discovered.entries().take(0) =~= Seq::<(String, DiscoveredDevice)>::empty());
    while j < nd
        invariant
            nd == discovered.spec_len(),
            discovered.entries().len() == nd,
            peers.wf(),
            discovered.wf(),
            j <= nd,
            all@ == paired_part + discovered_views(discovered.entries().take(j as int), *peers, now_ms),
        decreases nd - j,
    {
        let (id, d) = discovered.at(j);
        proof {
            let t = discovered.entries().take(j + 1);
            assert(t.drop_last() =~= discovered.entries().take(j as int));
            assert(t.last() == discovered.entries()[j as int]);
        }
        if !peers.contains_key(id.as_str()) && !d.is_stale(now_ms) {
            let v = DeviceView { device_id: id.clone(), name: d.name.clone(), paired: false, addr: d.best_addr(), via: None };
            all.push(v);
            assert(all@ =~= paired_part + discovered_views(discovered.entries().take(j + 1), *peers, now_ms));
        }
        j = j + 1;
    }
    assert(discovered.entries().take(nd as int) =~= discovered.entries());
    sort_views(&all)
}

/// How an entry of the device list stands for a device: a paired device
/// with its [`paired_view`], or a discovered device that is neither paired
/// nor stale with its [`unpaired_view`].
pub open spec fn listed_entry(
    peers: Registry<PeerRecord>,
    discovered: Registry<DiscoveredDevice>,
    now_ms: u64,
    v: DeviceView,
) -> bool {
    let k = v.device_id@;
    if v.paired {
        &&& peers@.dom().contains(k)
        &&& v == paired_view(v.device_id, peers@[k], discovered, now_ms)
    } else {
        &&& discovered@.dom().contains(k)
        &&& !peers@.dom().contains(k)
        &&& !discovered@[k].spec_is_stale(now_ms)
        &&& v == unpaired_view(v.device_id, discovered@[k])
    }
}

/// No device id occurs twice.
pub open spec fn distinct_ids(s: Seq<DeviceView>) -> bool {
    forall|i: int, j: int| 0 <= i < j < s.len() ==> (#[trigger] s[i]).device_id@ != (#[trigger] s[j]).device_id@
}

/// `v` is the entry of one of `entries` that is neither paired nor stale.
pub open spec fn from_entry(entries: Seq<(String, DiscoveredDevice)>, peers: Registry<PeerRecord>, now_ms: u64, v: DeviceView) -> bool {
    exists|p: int| 0 <= p < entries.len()
        && v == unpaired_view(#[trigger] entries[p].0, entries[p].1)
        && !peers@.dom().contains(entries[p].0@)
        && !entries[p].1.spec_is_stale(now_ms)
}

/// Each unpaired entry comes from a discovered device neither paired nor stale.
proof fn lemma_discovered_members(entries: Seq<(String, DiscoveredDevice)>, peers: Registry<PeerRecord>, now_ms: u64)
    ensures
        forall|k: int| 0 <= k < discovered_views(entries, peers, now_ms).len()
            ==> from_entry(entries, peers, now_ms, #[trigger] discovered_views(entries, peers, now_ms)[k]),
    decreases entries.len(),
{
    if entries.len() > 0 {
        let front = entries.drop_last();
        lemma_discovered_members(front, peers, now_ms);
        let rest = discovered_views(front, peers, now_ms);
        let dv = discovered_views(entries, peers, now_ms);
        let n = entries.len() - 1;
        assert forall|k: int| 0 <= k < dv.len() implies from_entry(entries, peers, now_ms, #[trigger] dv[k]) by {
            if k < rest.len() {
                assert(dv[k] == rest[k]);
                assert(from_entry(front, peers, now_ms, rest[k]));
                let p = choose|p: int| 0 <= p < front.len()
                    && rest[k] == unpaired_view(#[trigger] front[p].0, front[p].1)
                    && !peers@.dom().contains(front[p].0@)
                    && !front[p].1.spec_is_stale(now_ms);
                assert(entries[p] == front[p]);
            } else {
                assert(entries[n] == entries.last());
            }
        }
    }
}

/// The unpaired entries of distinct devices have distinct ids.
proof fn lemma_discovered_distinct(entries: Seq<(String, DiscoveredDevice)>, peers: Registry<PeerRecord>, now_ms: u64)
    requires
        forall|i: int, j: int| 0 <= i < j < entries.len() ==> entries[i].0@ != entries[j].0@,
    ensures
        distinct_ids(discovered_views(entries, peers, now_ms)),
    decreases entries.len(),
{
    if entries.len() > 0 {
        let front = entries.drop_last();
        lemma_discovered_distinct(front, peers, now_ms);
        lemma_discovered_members(front, peers, now_ms);
        let rest = discovered_views(front, peers, now_ms);
        let dv = discovered_views(entries, peers, now_ms);
        let (id, d) = entries.last();
        let n = entries.len() - 1;
        if dv.len() > rest.len() {
            assert forall|k: int| 0 <= k < rest.len() implies (#[trigger] rest[k]).device_id@ != id@ by {
                assert(from_entry(front, peers, now_ms, rest[k]));
                let p = choose|p: int| 0 <= p < front.len()
                    && rest[k] == unpaired_view(#[trigger] front[p].0, front[p].1)
                    && !peers@.dom().contains(front[p].0@)
                    && !front[p].1.spec_is_stale(now_ms);
                assert(entries[p] == front[p]);
                assert(entries[n] == entries.last());
            }
            assert forall|i: int, j: int| 0 <= i < j < dv.len() implies (#[trigger] dv[i]).device_id@ != (#[trigger] dv[j]).device_id@ by {
                assert(dv[i] == rest[i]);
                if j < rest.len() {
                    assert(dv[j] == rest[j]);
                }
            }
        }
    }
}

/// Every discovered device neither paired nor stale has its entry.
proof fn lemma_discovered_covers(entries: Seq<(String, DiscoveredDevice)>, peers: Registry<PeerRecord>, now_ms: u64)
    ensures
        forall|p: int| 0 <= p < entries.len() && !peers@.dom().contains(#[trigger] entries[p].0@)
            && !entries[p].1.spec_is_stale(now_ms) ==> discovered_views(entries, peers, now_ms).contains(unpaired_view(entries[p].0, entries[p].1)),
    decreases entries.len(),
{
    if entries.len() > 0 {
        let front = entries.drop_last();
        lemma_discovered_covers(front, peers, now_ms);
        let rest = discovered_views(front, peers, now_ms);
        let dv = discovered_views(entries, peers, now_ms);
        let n = entries.len() - 1;
        assert forall|p: int| 0 <= p < entries.len() && !peers@.dom().contains(#[trigger] entries[p].0@)
            && !entries[p].1.spec_is_stale(now_ms) implies dv.contains(unpaired_view(entries[p].0, entries[p].1)) by {
            if p < n {
                assert(front[p] == entries[p]);
                let k = choose|k: int| 0 <= k < rest.len() && rest[k] == unpaired_view(front[p].0, front[p].1);
                assert(dv[k] == rest[k]);
            } else {
                assert(entries[p] == entries.last());
                assert(dv[rest.len() as int] == unpaired_view(entries[p].0, entries[p].1));
            }
        }
    }
}

/// The list before sorting: each entry stands for its device, no device
/// twice, every paired device and every fresh unpaired discovered device.
proof fn lemma_unsorted_views(peers: Registry<PeerRecord>, discovered: Registry<DiscoveredDevice>, now_ms: u64)
    requires
        peers.wf(),
        discovered.wf(),
    ensures
        ({
            let u = unsorted_views(peers, discovered, now_ms);
            &&& forall|k: int| 0 <= k < u.len() ==> listed_entry(peers, discovered, now_ms, #[trigger] u[k])
            &&& distinct_ids(u)
            &&& forall|k: Seq<char>| #[trigger] peers@.dom().contains(k) ==> exists|i: int| 0 <= i < u.len()
                && u[i].device_id@ == k && u[i].paired
            &&& forall|k: Seq<char>| #[trigger] discovered@.dom().contains(k) && !peers@.dom().contains(k)
                && !discovered@[k].spec_is_stale(now_ms) ==> exists|i: int| 0 <= i < u.len()
                && u[i].device_id@ == k && !u[i].paired
        }),
{
    peers.lemma_entries();
    discovered.lemma_entries();
    peers.law_entries_are_the_map();
    discovered.law_entries_are_the_map();
    let np = peers.spec_len() as int;
    let pe = peers.entries();
    let de = discovered.entries();
    let pp = Seq::new(peers.spec_len(), |i: int| paired_view(pe[i].0, pe[i].1, discovered, now_ms));
    assert forall|i: int, j: int| 0 <= i < j < de.len() implies de[i].0@ != de[j].0@ by {
        assert(de[i].0@ == discovered.key_at(i) && de[j].0@ == discovered.key_at(j));
    }
    lemma_discovered_members(de, peers, now_ms);
    lemma_discovered_distinct(de, peers, now_ms);
    lemma_discovered_covers(de, peers, now_ms);
    let dv = discovered_views(de, peers, now_ms);
    let u = unsorted_views(peers, discovered, now_ms);
    assert(u == pp + dv);
    assert forall|k: int| 0 <= k < u.len() implies listed_entry(peers, discovered, now_ms, #[trigger] u[k]) by {
        if k < np {
            assert(u[k] == pp[k]);
            assert(pe[k].0@ == peers.key_at(k) && pe[k].1 == peers.value_at(k));
        } else {
            assert(u[k] == dv[k - np]);
            assert(from_entry(de, peers, now_ms, dv[k - np]));
            let p = choose|p: int| 0 <= p < de.len() && dv[k - np] == unpaired_view(#[trigger] de[p].0, de[p].1)
                && !peers@.dom().contains(de[p].0@) && !de[p].1.spec_is_stale(now_ms);
            assert(de[p].0@ == discovered.key_at(p) && de[p].1 == discovered.value_at(p));
        }
    }
    assert forall|i: int, j: int| 0 <= i < j < u.len() implies (#[trigger] u[i]).device_id@ != (#[trigger] u[j]).device_id@ by {
        if j < np {
            assert(u[i] == pp[i] && u[j] == pp[j]);
            assert(pe[i].0@ == peers.key_at(i) && pe[j].0@ == peers.key_at(j));
        } else if i < np {
            assert(u[i] == pp[i] && u[j] == dv[j - np]);
            assert(pe[i].0@ == peers.key_at(i));
            assert(listed_entry(peers, discovered, now_ms, u[j]));
        } else {
            assert(u[i] == dv[i - np] && u[j] == dv[j - np]);
        }
    }
    assert forall|k: Seq<char>| #[trigger] peers@.dom().contains(k) implies exists|i: int| 0 <= i < u.len()
        && u[i].device_id@ == k && u[i].paired by {
        let i = choose|i: int| 0 <= i < peers.spec_len() && peers.key_at(i) == k;
        assert(u[i] == pp[i]);
    }
    assert forall|k: Seq<char>| #[trigger] discovered@.dom().contains(k) && !peers@.dom().contains(k)
        && !discovered@[k].spec_is_stale(now_ms) implies exists|i: int| 0 <= i < u.len()
        && u[i].device_id@ == k && !u[i].paired by {
        let p = choose|p: int| 0 <= p < discovered.spec_len() && discovered.key_at(p) == k;
        assert(de[p].0@ == k && de[p].1 == discovered@[k]);
        assert(!de[p].1.spec_is_stale(now_ms));
        assert(dv.contains(unpaired_view(de[p].0, de[p].1)));
        let q = choose|q: int| 0 <= q < dv.len() && dv[q] == unpaired_view(de[p].0, de[p].1);
        assert(u[np + q] == dv[q]);
    }
}

/// Two positions holding the same value count it twice.
proof fn lemma_count_two<A>(s: Seq<A>, i: int, j: int)
    requires
        0 <= i < j < s.len(),
        s[i] == s[j],
    ensures
        s.to_multiset().count(s[i]) >= 2,
{
    broadcast use vstd::multiset::group_multiset_axioms;
    vstd::seq_lib::to_multiset_remove(s, j);
    let r = s.remove(j);
    assert(r[i] == s[i]);
    vstd::seq_lib::to_multiset_contains(r, s[i]);
}

/// A value counted twice is held at a second position.
proof fn lemma_second_position<A>(s: Seq<A>, p: int)
    requires
        0 <= p < s.len(),
        s.to_multiset().count(s[p]) >= 2,
    ensures
        exists|q: int| 0 <= q < s.len() && q != p && s[q] == s[p],
{
    broadcast use vstd::multiset::group_multiset_axioms;
    vstd::seq_lib::to_multiset_remove(s, p);
    let r = s.remove(p);
    vstd::seq_lib::to_multiset_contains(r, s[p]);
    let k = choose|k: int| 0 <= k < r.len() && r[k] == s[p];
    if k < p {
        assert(s[k] == r[k]);
    } else {
        assert(s[k + 1] == r[k]);
    }
}

/// The device list, whatever its order: each entry stands for its device
/// (a paired device with its current name and address while discovery sees
/// it, else those stored at pairing, and its pairing method; a discovered
/// device that is neither paired nor stale with its announced name and best
/// address, and no method), no device appears twice, and every paired
/// device and every such discovered device appears.
pub proof fn law_device_list(
    peers: Registry<PeerRecord>,
    discovered: Registry<DiscoveredDevice>,
    now_ms: u64,
    list: Seq<DeviceView>,
)
    requires
        peers.wf(),
        discovered.wf(),
        list.to_multiset() == unsorted_views(peers, discovered, now_ms).to_multiset(),
    ensures
        forall|i: int| 0 <= i < list.len() ==> listed_entry(peers, discovered, now_ms, #[trigger] list[i]),
        forall|i: int| 0 <= i < list.len() ==> ((#[trigger] list[i]).via is Some <==> list[i].paired),
        forall|i: int| 0 <= i < list.len() && (#[trigger] list[i]).paired ==> {
            let k = list[i].device_id@;
            let live = discovered@.dom().contains(k) && !discovered@[k].spec_is_stale(now_ms);
            &&& peers@.dom().contains(k)
            &&& list[i].via == Some(peers@[k].via)
            &&& list[i].name == if live { discovered@[k].name } else { peers@[k].name }
            &&& list[i].addr == if live && discovered@[k].spec_best_addr() is Some {
                discovered@[k].spec_best_addr()
            } else {
                peers@[k].last_seen_addr
            }
        },
        forall|i: int| 0 <= i < list.len() && !(#[trigger] list[i]).paired ==> {
            let k = list[i].device_id@;
            &&& discovered@.dom().contains(k)
            &&& !peers@.dom().contains(k)
            &&& !discovered@[k].spec_is_stale(now_ms)
            &&& list[i].name == discovered@[k].name
            &&& list[i].addr == discovered@[k].spec_best_addr()
            &&& list[i].via is None
        },
        distinct_ids(list),
        forall|k: Seq<char>| #[trigger] peers@.dom().contains(k) ==> exists|i: int| 0 <= i < list.len()
            && list[i].device_id@ == k && list[i].paired,
        forall|k: Seq<char>| #[trigger] discovered@.dom().contains(k) && !peers@.dom().contains(k)
            && !discovered@[k].spec_is_stale(now_ms) ==> exists|i: int| 0 <= i < list.len()
            && list[i].device_id@ == k && !list[i].paired,
{
    lemma_unsorted_views(peers, discovered, now_ms);
    let u = unsorted_views(peers, discovered, now_ms);
    // Each entry of the list is an entry of `u`, and back.
    assert forall|i: int| 0 <= i < list.len() implies u.contains(#[trigger] list[i]) by {
        vstd::seq_lib::to_multiset_contains(list, list[i]);
        vstd::seq_lib::to_multiset_contains(u, list[i]);
        assert(list.contains(list[i]));
    }
    assert forall|k: int| 0 <= k < u.len() implies list.contains(#[trigger] u[k]) by {
        vstd::seq_lib::to_multiset_contains(list, u[k]);
        vstd::seq_lib::to_multiset_contains(u, u[k]);
        assert(u.contains(u[k]));
    }
    assert forall|i: int| 0 <= i < list.len() implies listed_entry(peers, discovered, now_ms, #[trigger] list[i]) by {
        assert(u.contains(list[i]));
    }
    assert forall|i: int| 0 <= i < list.len() implies ((#[trigger] list[i]).via is Some <==> list[i].paired) by {
        assert(listed_entry(peers, discovered, now_ms, list[i]));
    }
    assert forall|i: int| 0 <= i < list.len() && (#[trigger] list[i]).paired implies {
        let k = list[i].device_id@;
        let live = discovered@.dom().contains(k) && !discovered@[k].spec_is_stale(now_ms);
        &&& peers@.dom().contains(k)
        &&& list[i].via == Some(peers@[k].via)
        &&& list[i].name == if live { discovered@[k].name } else { peers@[k].name }
        &&& list[i].addr == if live && discovered@[k].spec_best_addr() is Some {
            discovered@[k].spec_best_addr()
        } else {
            peers@[k].last_seen_addr
        }
    } by {
        assert(listed_entry(peers, discovered, now_ms, list[i]));
    }
    assert forall|i: int| 0 <= i < list.len() && !(#[trigger] list[i]).paired implies {
        let k = list[i].device_id@;
        &&& discovered@.dom().contains(k)
        &&& !peers@.dom().contains(k)
        &&& !discovered@[k].spec_is_stale(now_ms)
        &&& list[i].name == discovered@[k].name
        &&& list[i].addr == discovered@[k].spec_best_addr()
        &&& list[i].via is None
    } by {
        assert(listed_entry(peers, discovered, now_ms, list[i]));
    }
    assert forall|i: int, j: int| 0 <= i < j < list.len() implies (#[trigger] list[i]).device_id@ != (#[trigger] list[j]).device_id@ by {
        assert(u.contains(list[i]));
        assert(u.contains(list[j]));
        let p = choose|p: int| 0 <= p < u.len() && u[p] == list[i];
        let q = choose|q: int| 0 <= q < u.len() && u[q] == list[j];
        if list[i].device_id@ == list[j].device_id@ {
            if p != q {
                if p < q {
                    assert(u[p].device_id@ != u[q].device_id@);
                } else {
                    assert(u[q].device_id@ != u[p].device_id@);
                }
            } else {
                lemma_count_two(list, i, j);
                lemma_second_position(u, p);
                let r = choose|r: int| 0 <= r < u.len() && r != p && u[r] == u[p];
                if p < r {
                    assert(u[p].device_id@ != u[r].device_id@);
                } else {
                    assert(u[r].device_id@ != u[p].device_id@);
                }
            }
        }
    }
    assert forall|k: Seq<char>| #[trigger] peers@.dom().contains(k) implies exists|i: int| 0 <= i < list.len()
        && list[i].device_id@ == k && list[i].paired by {
        let p = choose|p: int| 0 <= p < u.len() && u[p].device_id@ == k && u[p].paired;
        assert(list.contains(u[p]));
    }
    assert forall|k: Seq<char>| #[trigger] discovered@.dom().contains(k) && !peers@.dom().contains(k)
        && !discovered@[k].spec_is_stale(now_ms) implies exists|i: int| 0 <= i < list.len()
        && list[i].device_id@ == k && !list[i].paired by {
        let p = choose|p: int| 0 <= p < u.len() && u[p].device_id@ == k && !u[p].paired;
        assert(list.contains(u[p]));
    }
}

} // verus!
