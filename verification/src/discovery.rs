//! What this device announces over mDNS/DNS-SD, and how announcements of
//! other devices become entries of the discovered table. The daemon that
//! sends and receives the packets is the caller's part.

use vstd::prelude::*;

use crate::identity::{ed25519_public, Identity};
use crate::net::IpAddress;
use crate::protocol::{base64_encode, PROTO_VERSION, SERVICE_TYPE};
use crate::registry::Registry;
use crate::state::DiscoveredDevice;
use crate::text::{chars_of, decimal, push_decimal, split_on, str_eq, string_of, sub_chars};
use crate::transfer::utf8_width;

verus! {

/// The mDNS instance name of a device: its id, a dot, then the service type.
pub open spec fn spec_fullname(device_id: Seq<char>) -> Seq<char> {
    device_id + seq!['.'] + SERVICE_TYPE@
}

/// The mDNS instance name of a device.
pub fn fullname(device_id: &str) -> (n: String)
    ensures
        n@ == spec_fullname(device_id@),
{
    let mut n = String::from_str(device_id);
    n.push('.');
    n.append(SERVICE_TYPE);
    n
}

/// The characters of `s` that make up its first `n` bytes of UTF-8, as far
/// as whole characters fit.
pub open spec fn byte_prefix(s: Seq<char>, n: nat) -> Seq<char>
    decreases s.len(),
{
    if s.len() == 0 || utf8_width(s[0]) > n {
        Seq::empty()
    } else {
        seq![s[0]] + byte_prefix(s.drop_first(), (n - utf8_width(s[0])) as nat)
    }
}

/// Whether a character boundary of `s` falls exactly `n` bytes in.
pub open spec fn boundary_at(s: Seq<char>, n: nat) -> bool
    decreases s.len(),
{
    if n == 0 {
        true
    } else if s.len() == 0 || utf8_width(s[0]) > n {
        false
    } else {
        boundary_at(s.drop_first(), (n - utf8_width(s[0])) as nat)
    }
}

/// The host name this device announces: `nearclip-`, the first eight bytes
/// of its id, then `.local.`.
pub open spec fn spec_service_host(device_id: Seq<char>) -> Seq<char> {
    "nearclip-"@ + byte_prefix(device_id, 8) + ".local."@
}

/// The mDNS host name of a device; its id must have a character boundary
/// eight bytes in (a device id is 32 hex digits).
pub fn service_host(device_id: &str) -> (h: String)
    requires
        boundary_at(device_id@, 8),
    ensures
        h@ == spec_service_host(device_id@),
{
    let s = chars_of(device_id);
    let ghost full = s@;
    let mut prefix: Vec<char> = Vec::new();
    let n = s.len();
    let mut left: usize = 8;
    let mut i: usize = 0;
    assert(full.skip(0) =~= full);
    while left > 0
        invariant
            s@ == full,
            n == s@.len(),
            i <= s@.len(),
            left <= 8,
            boundary_at(full.skip(i as int), left as nat),
            byte_prefix(full, 8) == prefix@ + byte_prefix(full.skip(i as int), left as nat),
        decreases left,
    {
        let ghost rest = full.skip(i as int);
        let ghost before = prefix@;
        let c = s[i];
        let w = crate::transfer::char_width(c);
        proof {
            assert(rest[0] == c);
            assert(rest.drop_first() =~= full.skip(i + 1));
        }
        prefix.push(c);
        left = left - w;
        i = i + 1;
        proof {
            let tail = byte_prefix(full.skip(i as int), left as nat);
            assert(before + (seq![c] + tail) =~= prefix@ + tail);
        }
    }
    assert(byte_prefix(full.skip(i as int), 0) =~= Seq::<char>::empty());
    assert(prefix@ + Seq::<char>::empty() =~= prefix@);
    let mut h = String::from_str("nearclip-");
    let p = string_of(&prefix);
    h.append(p.as_str());
    h.append(".local.");
    proof {
        reveal_strlit("nearclip-");
        reveal_strlit(".local.");
    }
    h
}

/// The TXT properties this device announces: its id, name, protocol version
/// and public key (base64), in that order.
pub fn service_properties(identity: &Identity, name: &String) -> (props: Vec<(String, String)>)
    ensures
        props@.len() == 4,
        props@[0].0@ == "id"@ && props@[0].1@ == identity.id(),
        props@[1].0@ == "name"@ && props@[1].1 == *name,
        props@[2].0@ == "v"@ && props@[2].1@ == decimal(PROTO_VERSION as nat),
        props@[3].0@ == "pk"@ && props@[3].1@ == base64_encode(ed25519_public(identity.seed())),
{
    let mut v = String::new();
    push_decimal(&mut v, PROTO_VERSION as u64);
    let mut props: Vec<(String, String)> = Vec::new();
    props.push((String::from_str("id"), identity.device_id().clone()));
    props.push((String::from_str("name"), name.clone()));
    props.push((String::from_str("v"), v));
    props.push((String::from_str("pk"), identity.public_key_b64()));
    props
}

/// The first dot-separated label of an instance name (all of it when it
/// holds no dot).
pub open spec fn first_label(fullname: Seq<char>) -> Seq<char> {
    split_on(fullname, '.')[0]
}

/// The first dot-separated label of an instance name.
pub fn first_label_of(fullname: &str) -> (l: String)
    ensures
        l@ == first_label(fullname@),
{
    let s = chars_of(fullname);
    let n = s.len();
    let mut i: usize = 0;
    while i < n && s[i] != '.'
        invariant
            n == s@.len(),
            i <= n,
            forall|k: int| 0 <= k < i ==> #[trigger] s@[k] != '.',
        decreases n - i,
    {
        i = i + 1;
    }
    if i == n {
        proof {
            crate::text::lemma_find_char_none(s@, '.');
            reveal_with_fuel(split_on, 2);
        }
        assert(s@.subrange(0, n as int) =~= s@);
    } else {
        proof {
            crate::text::lemma_find_char_at(s@, '.', i as int);
            reveal_with_fuel(split_on, 2);
        }
    }
    string_of(&sub_chars(&s, 0, i))
}

/// The IPv4 addresses among `addrs`, in order.
pub open spec fn ipv4_only(addrs: Seq<IpAddress>) -> Seq<IpAddress>
    decreases addrs.len(),
{
    if addrs.len() == 0 {
        Seq::empty()
    } else if addrs.last() is V4 {
        ipv4_only(addrs.drop_last()).push(addrs.last())
    } else {
        ipv4_only(addrs.drop_last())
    }
}

/// The IPv4 addresses among `addrs`, in order.
pub fn ipv4_addrs(addrs: &Vec<IpAddress>) -> (r: Vec<IpAddress>)
    ensures
        r@ == ipv4_only(addrs@),
{
    let mut r: Vec<IpAddress> = Vec::new();
    let mut i: usize = 0;
    while i < addrs.len()
        invariant
            i <= addrs@.len(),
            r@ == ipv4_only(addrs@.take(i as int)),
        decreases addrs@.len() - i,
    {
        let a = addrs[i];
        proof {
            assert(addrs@.take(i + 1).drop_last() =~= addrs@.take(i as int));
        }
        if a.is_ipv4() {
            r.push(a);
        }
        i = i + 1;
    }
    assert(addrs@.take(addrs@.len() as int) =~= addrs@);
    r
}

/// The characters of an optional text.
pub open spec fn opt_view(o: Option<String>) -> Option<Seq<char>> {
    match o {
        Some(s) => Some(s@),
        None => None,
    }
}

/// The id an announcement speaks for: its `id` property, else the first
/// label of its instance name.
pub open spec fn announced_id(txt_id: Option<Seq<char>>, fullname: Seq<char>) -> Seq<char> {
    match txt_id {
        Some(id) => id,
        None => first_label(fullname),
    }
}

/// The name an announcement gives: its non-empty `name` property, else
/// "Unknown device".
pub open spec fn announced_name(txt_name: Option<Seq<char>>) -> Seq<char> {
    match txt_name {
        Some(n) => if n.len() > 0 { n } else { "Unknown device"@ },
        None => "Unknown device"@,
    }
}

/// A resolved announcement as the discovered table keeps it: nothing for
/// this device itself or for a device without an IPv4 address; otherwise
/// its id and the device, seen at `now_ms`.
pub fn resolved_device(
    my_id: &str,
    txt_id: Option<String>,
    txt_name: Option<String>,
    fullname: &str,
    addrs: &Vec<IpAddress>,
    port: u16,
    now_ms: u64,
) -> (r: Option<(String, DiscoveredDevice)>)
    ensures
        match r {
            None => {
                let id = announced_id(opt_view(txt_id), fullname@);
                id == my_id@ || ipv4_only(addrs@).len() == 0
            },
            Some((id, d)) => {
                &&& id@ == announced_id(opt_view(txt_id), fullname@)
                &&& id@ != my_id@
                &&& d.name@ == announced_name(opt_view(txt_name))
                &&& d.addrs@ == ipv4_only(addrs@)
                &&& d.addrs@.len() > 0
                &&& d.port == port
                &&& d.last_seen_ms == now_ms
            },
        },
{
    let id = match txt_id {
        Some(t) => t,
        None => first_label_of(fullname),
    };
    if str_eq(id.as_str(), my_id) {
        return None;
    }
    let name = match txt_name {
        Some(n) => if chars_of(n.as_str()).len() > 0 {
            n
        } else {
            String::from_str("Unknown device")
        },
        None => String::from_str("Unknown device"),
    };
    let v4 = ipv4_addrs(addrs);
    if v4.len() == 0 {
        return None;
    }
    Some((id, DiscoveredDevice { name, addrs: v4, port, last_seen_ms: now_ms }))
}

/// Records a resolved announcement in the discovered table; returns whether
/// the table changed (and the device list must be sent again).
pub fn on_resolved(
    discovered: &mut Registry<DiscoveredDevice>,
    my_id: &str,
    txt_id: Option<String>,
    txt_name: Option<String>,
    fullname: &str,
    addrs: &Vec<IpAddress>,
    port: u16,
    now_ms: u64,
) -> (changed: bool)
    requires
        old(discovered).wf(),
    ensures
        final(discovered).wf(),
        match resolved_device_spec(my_id@, opt_view(txt_id), fullname@, addrs@) {
            None => !changed && *final(discovered) == *old(discovered),
            Some(id) => changed && final(discovered)@.dom() == old(discovered)@.dom().insert(id)
                && final(discovered)@.remove(id) == old(discovered)@.remove(id)
                && final(discovered)@[id].name@ == announced_name(opt_view(txt_name))
                && final(discovered)@[id].addrs@ == ipv4_only(addrs@)
                && final(discovered)@[id].port == port
                && final(discovered)@[id].last_seen_ms == now_ms,
        },
{
    match resolved_device(my_id, txt_id, txt_name, fullname, addrs, port, now_ms) {
        Some((id, d)) => {
            discovered.insert(id, d);
            true
        },
        None => false,
    }
}

/// The id under which a resolved announcement is recorded, if it is.
pub open spec fn resolved_device_spec(
    my_id: Seq<char>,
    txt_id: Option<Seq<char>>,
    fullname: Seq<char>,
    addrs: Seq<IpAddress>,
) -> Option<Seq<char>> {
    let id = announced_id(txt_id, fullname);
    if id == my_id || ipv4_only(addrs).len() == 0 {
        None
    } else {
        Some(id)
    }
}

/// A device left the network: its entry, named by the first label of
/// `fullname`, leaves the table. Returns whether there was one.
pub fn on_removed(discovered: &mut Registry<DiscoveredDevice>, fullname: &str) -> (changed: bool)
    requires
        old(discovered).wf(),
    ensures
        final(discovered).wf(),
        final(discovered)@ == old(discovered)@.remove(first_label(fullname@)),
        changed == old(discovered)@.dom().contains(first_label(fullname@)),
{
    let id = first_label_of(fullname);
    discovered.remove(id.as_str()).is_some()
}

} // verus!
