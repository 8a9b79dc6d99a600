//! What the clipboard watcher decides: which texts it keeps from echoing
//! back, and when a change it sees on the clipboard goes to the paired
//! devices. Reading and writing the clipboard itself is the caller's part.

use std::collections::VecDeque;

use vstd::prelude::*;
use vstd::utf8::encode_utf8;

use crate::crypto::{sha256, sha256_digest};
use crate::protocol::MAX_TEXT_BYTES;
use crate::text::{chars_of, trim_chars, trim_ws};

verus! {

/// How many written texts the watcher remembers, by hash.
pub const SUPPRESSED_CAP: usize = 16;

/// A request to the clipboard thread.
pub enum ClipboardCmd {
    /// Write text to the clipboard; the text is remembered so the watcher
    /// never echoes it back.
    Write(String),
    /// Take the current clipboard content as the new baseline (used when
    /// auto-sync turns on).
    ResetBaseline,
}

/// The remembered hashes after adding `h`: unchanged when `h` is already
/// there, otherwise `h` goes last and the oldest leaves once
/// [`SUPPRESSED_CAP`] are held.
pub open spec fn spec_remember(s: Seq<[u8; 32]>, h: [u8; 32]) -> Seq<[u8; 32]> {
    if s.contains(h) {
        s
    } else if s.len() >= SUPPRESSED_CAP {
        s.drop_first().push(h)
    } else {
        s.push(h)
    }
}

/// The hash under which a clipboard text is remembered.
pub open spec fn text_hash(text: Seq<char>) -> Seq<u8> {
    sha256_digest(encode_utf8(text))
}

/// Whether a clipboard text is one the watcher may send: not blank and at
/// most [`MAX_TEXT_BYTES`] of UTF-8.
pub open spec fn sendable(text: Seq<char>) -> bool {
    trim_ws(text).len() > 0 && encode_utf8(text).len() <= MAX_TEXT_BYTES
}

/// Whether a poll that read `text` sends it: a sendable text, different
/// from the one last seen (a first text only sets the baseline), not one
/// written here, while auto-sync is on and a device is paired.
pub open spec fn poll_sends(
    last: Option<[u8; 32]>,
    suppressed: Seq<[u8; 32]>,
    text: Seq<char>,
    auto_sync: bool,
    has_peers: bool,
) -> bool {
    &&& sendable(text)
    &&& last matches Some(p) && p@ != text_hash(text)
    &&& !(exists|h: [u8; 32]| suppressed.contains(h) && h@ == text_hash(text))
    &&& auto_sync
    &&& has_peers
}

/// A remembered hash stays remembered until [`SUPPRESSED_CAP`] newer ones
/// push it out, and the memory never grows beyond that.
pub proof fn law_remember_keeps_latest(s: Seq<[u8; 32]>, h: [u8; 32])
    requires
        s.len() <= SUPPRESSED_CAP,
    ensures
        spec_remember(s, h).contains(h),
        spec_remember(s, h).len() <= SUPPRESSED_CAP,
        forall|x: [u8; 32]| s.contains(x) && x != s[0] ==> spec_remember(s, h).contains(x),
{
    if !s.contains(h) {
        if s.len() >= SUPPRESSED_CAP {
            assert(s.drop_first().push(h)[s.len() - 1] == h);
            assert forall|x: [u8; 32]| s.contains(x) && x != s[0] implies spec_remember(s, h).contains(x) by {
                let i = choose|i: int| 0 <= i < s.len() && s[i] == x;
                assert(s.drop_first().push(h)[i - 1] == x);
            }
        } else {
            assert(s.push(h)[s.len() as int] == h);
            assert forall|x: [u8; 32]| s.contains(x) implies spec_remember(s, h).contains(x) by {
                let i = choose|i: int| 0 <= i < s.len() && s[i] == x;
                assert(s.push(h)[i] == x);
            }
        }
    }
}

/// Text written here is never echoed back: while its hash is remembered, a
/// poll that reads it sends nothing, whatever else holds.
pub proof fn law_no_echo(
    last: Option<[u8; 32]>,
    suppressed: Seq<[u8; 32]>,
    h: [u8; 32],
    text: Seq<char>,
    auto_sync: bool,
    has_peers: bool,
)
    requires
        suppressed.contains(h),
        h@ == text_hash(text),
    ensures
        !poll_sends(last, suppressed, text, auto_sync, has_peers),
{
}

/// The state of the clipboard watcher.
pub struct Watcher {
    /// Hash of the clipboard content last seen or written; `None` until a
    /// baseline is taken.
    pub last_hash: Option<[u8; 32]>,
    /// Hashes of the texts written here, oldest first.
    pub suppressed: VecDeque<[u8; 32]>,
}

/// Whether `h` is among `s`.
fn contains_hash(s: &VecDeque<[u8; 32]>, h: &[u8; 32]) -> (r: bool)
    ensures
        r == s@.contains(*h),
{
    let n = s.len();
    let mut i: usize = 0;
    while i < n
        invariant
            n == s@.len(),
            i <= n,
            forall|k: int| 0 <= k < i ==> s@[k] != *h,
        decreases n - i,
    {
        if crate::bytes::bytes_eq(&s[i], h) {
            assert(s@[i as int] =~= *h);
            return true;
        }
        i = i + 1;
    }
    false
}

/// Remembers `h`, forgetting the oldest hash when [`SUPPRESSED_CAP`] are
/// already held.
pub fn remember(suppressed: &mut VecDeque<[u8; 32]>, h: [u8; 32])
    requires
        old(suppressed)@.len() <= SUPPRESSED_CAP,
    ensures
        final(suppressed)@ == spec_remember(old(suppressed)@, h),
        final(suppressed)@.len() <= SUPPRESSED_CAP,
{
    if contains_hash(suppressed, &h) {
        return;
    }
    if suppressed.len() >= SUPPRESSED_CAP {
        suppressed.pop_front();
    }
    suppressed.push_back(h);
}

impl Watcher {
    /// The state before any baseline: nothing seen, nothing remembered.
    pub fn new() -> (w: Watcher)
        ensures
            w.last_hash is None,
            w.suppressed@.len() == 0,
    {
        Watcher { last_hash: None, suppressed: VecDeque::new() }
    }

    /// The well-formed states: at most [`SUPPRESSED_CAP`] hashes remembered.
    pub open spec fn wf(&self) -> bool {
        self.suppressed@.len() <= SUPPRESSED_CAP
    }

    /// A text is about to be written to the clipboard: it is remembered and
    /// becomes what was last seen.
    pub fn on_write(&mut self, text: &String)
        requires
            old(self).wf(),
        ensures
            final(self).wf(),
            final(self).last_hash matches Some(h) && h@ == text_hash(text@),
            final(self).suppressed@ == spec_remember(old(self).suppressed@, final(self).last_hash->0),
    {
        let h = sha256(text.as_str().as_bytes());
        remember(&mut self.suppressed, h);
        self.last_hash = Some(h);
    }

    /// The baseline is reset to what the clipboard holds now (`None` when it
    /// could not be read as text).
    pub fn on_reset(&mut self, current: Option<String>)
        requires
            old(self).wf(),
        ensures
            final(self).wf(),
            final(self).suppressed@ == old(self).suppressed@,
            match current {
                Some(t) => final(self).last_hash matches Some(h) && h@ == text_hash(t@),
                None => final(self).last_hash is None,
            },
    {
        self.last_hash = match current {
            Some(t) => Some(sha256(t.as_str().as_bytes())),
            None => None,
        };
    }

    /// One poll of the clipboard, which held `read` (`None` when it could
    /// not be read as text). Returns the text to send to all paired devices:
    /// a sendable text that differs from the last one seen, is not the first
    /// one seen, was not written here, while auto-sync is on and a device is
    /// paired.
    pub fn on_poll(&mut self, read: Option<String>, auto_sync: bool, has_peers: bool) -> (send: Option<String>)
        requires
            old(self).wf(),
        ensures
            final(self).wf(),
            final(self).suppressed@ == old(self).suppressed@,
            match read {
                None => send is None && final(self).last_hash == old(self).last_hash,
                Some(t) => {
                    &&& (send is Some) == poll_sends(old(self).last_hash, old(self).suppressed@, t@, auto_sync, has_peers)
                    &&& (send matches Some(s) ==> s == t)
                    &&& if sendable(t@) {
                        final(self).last_hash matches Some(h) && h@ == text_hash(t@)
                    } else {
                        final(self).last_hash == old(self).last_hash
                    }
                },
            },
    {
        match read {
            None => None,
            Some(text) => self.poll_text(text, auto_sync, has_peers),
        }
    }

    /// [`Watcher::on_poll`] once the clipboard was read as `text`.
    fn poll_text(&mut self, text: String, auto_sync: bool, has_peers: bool) -> (send: Option<String>)
        requires
            old(self).wf(),
        ensures
            final(self).wf(),
            final(self).suppressed@ == old(self).suppressed@,
            (send is Some) == poll_sends(old(self).last_hash, old(self).suppressed@, text@, auto_sync, has_peers),
            send matches Some(s) ==> s == text,
            if sendable(text@) {
                final(self).last_hash matches Some(h) && h@ == text_hash(text@)
            } else {
                final(self).last_hash == old(self).last_hash
            },
    {
        if trim_chars(&chars_of(text.as_str())).len() == 0 || text.as_str().as_bytes().len() > MAX_TEXT_BYTES {
            return None;
        }
        let h = sha256(text.as_str().as_bytes());
        let is_baseline = match &self.last_hash {
            Some(p) => {
                if crate::bytes::bytes_eq(p, &h) {
                    return None;
                }
                false
            },
            None => true,
        };
        self.last_hash = Some(h);
        proof {
            assert forall|x: [u8; 32]| self.suppressed@.contains(x) && x@ == text_hash(text@) implies x == h by {
                assert(x =~= h);
            }
        }
        if is_baseline || contains_hash(&self.suppressed, &h) {
            return None;
        }
        if !auto_sync || !has_peers {
            return None;
        }
        Some(text)
    }
}

} // verus!
