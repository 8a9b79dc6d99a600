//! The rules behind the commands the frontend calls: names, settings
//! changes, what may be sent, and the views returned.

use vstd::prelude::*;
use vstd::string::StringSliceAdditionalSpecFns;

use crate::error::AppError;
use crate::identity::{spec_fingerprint, Identity};
use crate::protocol::{base64_encode, MAX_TEXT_BYTES};
use crate::state::Settings;
use crate::text::{chars_of, string_of, sub_chars, trim_chars, trim_ws};
use crate::identity::ed25519_public;
use crate::net::{dotted, push_dotted};

verus! {

/// Longest device name, in characters.
pub const MAX_NAME_LEN: usize = 48;

/// The device name as stored: trimmed, then cut to [`MAX_NAME_LEN`] characters.
pub open spec fn spec_clean_name(name: Seq<char>) -> Seq<char> {
    let t = trim_ws(name);
    t.take(if t.len() <= MAX_NAME_LEN { t.len() as int } else { MAX_NAME_LEN as int })
}

/// A device name as stored: trimmed and at most 48 characters; an empty
/// name is refused.
pub fn clean_name(name: &str) -> (r: Result<String, AppError>)
    ensures
        match r {
            Ok(n) => n@ == spec_clean_name(name@) && n@.len() > 0,
            Err(e) => spec_clean_name(name@).len() == 0 && e.is_msg("Device name cannot be empty"@),
        },
{
    let t = trim_chars(&chars_of(name));
    let k = if t.len() <= MAX_NAME_LEN { t.len() } else { MAX_NAME_LEN };
    let cut = sub_chars(&t, 0, k);
    if cut.len() == 0 {
        return Err(AppError::msg("Device name cannot be empty"));
    }
    Ok(string_of(&cut))
}

/// What may be sent as clipboard text: not blank, at most 1 MB of UTF-8.
pub fn check_send_text(text: &str) -> (r: Result<(), AppError>)
    ensures
        match r {
            Ok(()) => trim_ws(text@).len() > 0 && text.spec_bytes().len() <= MAX_TEXT_BYTES,
            Err(e) => if trim_ws(text@).len() == 0 {
                e.is_msg("Nothing to send"@)
            } else {
                text.spec_bytes().len() > MAX_TEXT_BYTES && e.is_msg("Text is too large (1 MB max)"@)
            },
        },
{
    if trim_chars(&chars_of(text)).len() == 0 {
        return Err(AppError::msg("Nothing to send"));
    }
    if text.as_bytes().len() > MAX_TEXT_BYTES {
        return Err(AppError::msg("Text is too large (1 MB max)"));
    }
    Ok(())
}

/// What else must happen after the settings changed.
pub struct SettingsChange {
    /// Auto-sync was just turned on: the current clipboard becomes the baseline.
    pub reset_clipboard_baseline: bool,
    /// Discovery was switched on or off.
    pub discovery: Option<bool>,
    /// Discovery stays as it was but the name changed: announce it again.
    pub re_announce: bool,
}

/// The effects of going from `previous` to `current` settings.
pub open spec fn spec_settings_change(previous: Settings, current: Settings) -> (bool, Option<bool>, bool) {
    (
        current.auto_sync && !previous.auto_sync,
        if current.discovery != previous.discovery { Some(current.discovery) } else { None },
        current.discovery == previous.discovery && current.device_name@ != previous.device_name@,
    )
}

/// What a settings change sets off: switching discovery on or off, in
/// either direction, reports its new value (and nothing when it stays);
/// turning auto-sync on, and only that, resets the clipboard baseline; a new
/// name is announced again only while discovery stays as it was.
pub proof fn law_settings_change(previous: Settings, current: Settings)
    ensures
        previous.discovery != current.discovery ==> spec_settings_change(previous, current).1 == Some(current.discovery),
        previous.discovery == current.discovery ==> spec_settings_change(previous, current).1 is None,
        !previous.discovery && current.discovery ==> spec_settings_change(previous, current).1 == Some(true),
        previous.discovery && !current.discovery ==> spec_settings_change(previous, current).1 == Some(false),
        spec_settings_change(previous, current).0 <==> (!previous.auto_sync && current.auto_sync),
        spec_settings_change(previous, current).2 <==> (previous.discovery == current.discovery
            && previous.device_name@ != current.device_name@),
{
}

/// Replaces the settings with `incoming`, its name cleaned; returns the new
/// settings and what else must happen. An empty name is refused and nothing
/// changes.
pub fn set_settings(settings: &mut Settings, incoming: Settings) -> (r: Result<(Settings, SettingsChange), AppError>)
    ensures
        match r {
            Ok((current, change)) => {
                &&& current == *final(settings)
                &&& current.device_name@ == spec_clean_name(incoming.device_name@)
                &&& current == (Settings { device_name: current.device_name, ..incoming })
                &&& (change.reset_clipboard_baseline, change.discovery, change.re_announce)
                    == spec_settings_change(*old(settings), current)
                &&& old(settings).discovery != current.discovery ==> change.discovery == Some(current.discovery)
                &&& old(settings).discovery == current.discovery ==> change.discovery is None
            },
            Err(e) => *final(settings) == *old(settings) && spec_clean_name(incoming.device_name@).len() == 0
                && e.is_msg("Device name cannot be empty"@),
        },
{
    let name = clean_name(incoming.device_name.as_str())?;
    let previous = settings.copy();
    *settings = Settings { device_name: name, ..incoming };
    let current = settings.copy();
    let discovery_changed = current.discovery != previous.discovery;
    let change = SettingsChange {
        reset_clipboard_baseline: current.auto_sync && !previous.auto_sync,
        discovery: if discovery_changed { Some(current.discovery) } else { None },
        re_announce: !discovery_changed && !crate::text::str_eq(current.device_name.as_str(), previous.device_name.as_str()),
    };
    Ok((current, change))
}

/// Renames this device; returns the new settings.
pub fn set_device_name(settings: &mut Settings, name: &str) -> (r: Result<Settings, AppError>)
    ensures
        match r {
            Ok(s) => s == *final(settings) && s.device_name@ == spec_clean_name(name@)
                && *final(settings) == (Settings { device_name: s.device_name, ..*old(settings) }),
            Err(e) => *final(settings) == *old(settings) && spec_clean_name(name@).len() == 0
                && e.is_msg("Device name cannot be empty"@),
        },
{
    let name = clean_name(name)?;
    settings.device_name = name;
    Ok(settings.copy())
}

/// How the OS autostart entry must change: enable, disable, or nothing.
pub fn autostart_action(wanted: bool, enabled: bool) -> (r: Option<bool>)
    ensures
        r == if wanted != enabled { Some(wanted) } else { None },
{
    if wanted && !enabled {
        Some(true)
    } else if !wanted && enabled {
        Some(false)
    } else {
        None
    }
}

/// This device as the settings page shows it.
pub struct IdentityView {
    pub device_id: String,
    pub name: String,
    pub fingerprint: String,
    pub public_key: String,
    /// The operating system: "macos", "windows", "linux", "android", "ios".
    pub platform: String,
    /// Tray, autostart, close-to-tray and clipboard auto-sync exist only on desktop.
    pub desktop: bool,
}

/// The identity view of this device.
pub fn get_identity(identity: &Identity, settings: &Settings, platform: String, desktop: bool) -> (v: IdentityView)
    ensures
        v.device_id@ == identity.id(),
        v.name == settings.device_name,
        v.fingerprint@ == spec_fingerprint(identity.id()),
        v.public_key@ == base64_encode(ed25519_public(identity.seed())),
        v.platform == platform,
        v.desktop == desktop,
{
    IdentityView {
        device_id: identity.device_id().clone(),
        name: settings.device_name.clone(),
        fingerprint: identity.fingerprint(),
        public_key: identity.public_key_b64(),
        platform,
        desktop,
    }
}

/// Where this device listens: the port and its IPv4 addresses.
pub struct ListenInfo {
    pub port: u16,
    pub addrs: Vec<String>,
}

/// The listening port and the dotted-quad text of each IPv4 address.
pub fn get_listen_info(port: u16, ips: &Vec<u32>) -> (info: ListenInfo)
    ensures
        info.port == port,
        info.addrs@.len() == ips@.len(),
        forall|i: int| 0 <= i < ips@.len() ==> #[trigger] info.addrs@[i]@ == dotted(ips@[i]),
{
    let mut addrs: Vec<String> = Vec::new();
    let n = ips.len();
    let mut i: usize = 0;
    while i < n
        invariant
            n == ips@.len(),
            i <= n,
            addrs@.len() == i,
            forall|k: int| 0 <= k < i ==> #[trigger] addrs@[k]@ == dotted(ips@[k]),
        decreases n - i,
    {
        let mut a = String::new();
        push_dotted(&mut a, ips[i]);
        assert(a@ =~= dotted(ips@[i as int]));
        addrs.push(a);
        i = i + 1;
    }
    ListenInfo { port, addrs }
}

/// The tray's auto-sync item was clicked: auto-sync flips. Returns the new
/// settings and whether the clipboard baseline must be reset (auto-sync was
/// just turned on).
pub fn toggle_auto_sync(settings: &mut Settings) -> (r: (Settings, bool))
    ensures
        *final(settings) == (Settings { auto_sync: !old(settings).auto_sync, ..*old(settings) }),
        r.0 == *final(settings),
        r.1 == final(settings).auto_sync,
{
    settings.auto_sync = !settings.auto_sync;
    let current = settings.copy();
    let reset = current.auto_sync;
    (current, reset)
}

} // verus!
