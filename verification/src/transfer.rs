//! File transfer rules: safe file names, size limits, chunk accounting and
//! checksums.
//!
//! Outgoing files are fed one chunk at a time and relayed to every target as
//! sealed binary frames; incoming files are checked against the size and
//! SHA-256 the sender announced before they are kept. Moving bytes over the
//! connections and on disk is the I/O layer's part.

use vstd::prelude::*;

use crate::error::AppError;
use crate::protocol::{Plain, FEATURE_FILES, FILE_CHUNK_BYTES, MAX_FILE_BYTES};
use crate::session::{new_item_id, target_label, uuid_v4_text, ALL_TARGETS};
use crate::crypto::no_randomness;
use crate::state::{Direction, FileMeta, HistoryItem, PeerRecord};
use crate::text::{
    chars_of, decimal, drop_leading, lemma_decimal_digits, lemma_decimal_injective, lemma_decimal_len, str_eq, drop_trailing, is_control_char, lemma_drop_leading_prefix, push_decimal,
    string_of, sub_chars, trim_chars, trim_ws, unicode_white_space,
};

verus! {

/// Longest file name kept, in characters.
pub const MAX_NAME_CHARS: usize = 120;

/// Longest extension kept apart when a name is shortened, in UTF-8 bytes
/// (the dot included).
pub const MAX_EXT_BYTES: usize = 10;

/// `/` and `\\` separate directories.
pub open spec fn is_path_sep(c: char) -> bool {
    c == '/' || c == '\\'
}

/// The part after the last path separator (all of `s` when there is none).
pub open spec fn last_segment(s: Seq<char>) -> Seq<char>
    decreases s.len(),
{
    if s.len() == 0 {
        s
    } else if is_path_sep(s.last()) {
        Seq::empty()
    } else {
        last_segment(s.drop_last()).push(s.last())
    }
}

/// Characters reserved in file names on some platform.
pub open spec fn is_reserved(c: char) -> bool {
    c == ':' || c == '*' || c == '?' || c == '"' || c == '<' || c == '>' || c == '|'
}

/// `c`, or `_` for a control or reserved character.
pub open spec fn safe_char(c: char) -> char {
    if is_control_char(c) || is_reserved(c) {
        '_'
    } else {
        c
    }
}

/// What may not lead a file name: dots and white space.
pub open spec fn dot_or_space() -> spec_fn(char) -> bool {
    |c: char| c == '.' || unicode_white_space(c)
}

/// The name before shortening: last path segment, unsafe characters
/// replaced, every leading dot and white space removed, and trailing white
/// space removed.
pub open spec fn spec_cleaned(name: Seq<char>) -> Seq<char> {
    trim_ws(drop_leading(last_segment(name).map_values(|c: char| safe_char(c)), dot_or_space()))
}

/// Bytes of `c` in UTF-8.
pub open spec fn utf8_width(c: char) -> nat {
    if (c as u32) < 0x80 {
        1
    } else if (c as u32) < 0x800 {
        2
    } else if (c as u32) < 0x10000 {
        3
    } else {
        4
    }
}

/// Bytes of `s` in UTF-8.
pub open spec fn utf8_len(s: Seq<char>) -> nat
    decreases s.len(),
{
    if s.len() == 0 {
        0
    } else {
        utf8_len(s.drop_last()) + utf8_width(s.last())
    }
}

/// Position of the last `.` in `s`, if any.
pub open spec fn last_dot(s: Seq<char>) -> Option<int>
    decreases s.len(),
{
    if s.len() == 0 {
        None
    } else if s.last() == '.' {
        Some(s.len() - 1)
    } else {
        last_dot(s.drop_last())
    }
}

/// "photo.jpg" -> ("photo", ".jpg"): the extension is the part from the last
/// dot, when that dot does not start the name and the part has at most ten
/// UTF-8 bytes; otherwise it is empty.
pub open spec fn split_ext(s: Seq<char>) -> (Seq<char>, Seq<char>) {
    match last_dot(s) {
        Some(i) => if i > 0 && utf8_len(s.subrange(i, s.len() as int)) <= MAX_EXT_BYTES {
            (s.subrange(0, i), s.subrange(i, s.len() as int))
        } else {
            (s, Seq::empty())
        },
        None => (s, Seq::empty()),
    }
}

/// A file name that is safe on every platform: no directories, no reserved
/// characters, no leading dots, and not too long (the extension is kept).
pub open spec fn spec_clean_file_name(name: Seq<char>) -> Seq<char> {
    let c = spec_cleaned(name);
    if c.len() == 0 {
        "file"@
    } else if c.len() <= MAX_NAME_CHARS {
        c
    } else {
        let (stem, ext) = split_ext(c);
        let keep: int = if ext.len() >= MAX_NAME_CHARS { 0 } else { MAX_NAME_CHARS - ext.len() };
        stem.take(if keep <= stem.len() { keep } else { stem.len() as int }) + ext
    }
}

proof fn lemma_last_segment_from(s: Seq<char>, j: int)
    requires
        0 <= j <= s.len(),
        j == 0 || is_path_sep(s[j - 1]),
        forall|k: int| j <= k < s.len() ==> !is_path_sep(#[trigger] s[k]),
    ensures
        last_segment(s) == s.subrange(j, s.len() as int),
    decreases s.len(),
{
    if s.len() == 0 {
        assert(s.subrange(j, 0) =~= s);
    } else if j == s.len() {
        assert(s.subrange(j, s.len() as int) =~= Seq::<char>::empty());
    } else {
        lemma_last_segment_from(s.drop_last(), j);
        assert(s.drop_last().subrange(j, s.len() - 1).push(s.last()) =~= s.subrange(j, s.len() as int));
    }
}

/// The characters after the last path separator.
fn last_segment_chars(v: &Vec<char>) -> (r: Vec<char>)
    ensures
        r@ == last_segment(v@),
{
    let n = v.len();
    let mut j: usize = n;
    while j > 0 && !(v[j - 1] == '/' || v[j - 1] == '\\')
        invariant
            n == v@.len(),
            j <= n,
            forall|k: int| j <= k < n ==> !is_path_sep(#[trigger] v@[k]),
        decreases j,
    {
        j = j - 1;
    }
    proof { lemma_last_segment_from(v@, j as int); }
    sub_chars(v, j, n)
}

/// `c`, or `_` for a control or reserved character.
fn safe(c: char) -> (r: char)
    ensures
        r == safe_char(c),
{
    if c.is_control() || c == ':' || c == '*' || c == '?' || c == '"' || c == '<' || c == '>' || c == '|' {
        '_'
    } else {
        c
    }
}

/// Every character made safe.
fn replace_unsafe(v: &Vec<char>) -> (r: Vec<char>)
    ensures
        r@ == v@.map_values(|c: char| safe_char(c)),
{
    let mut r: Vec<char> = Vec::new();
    let n = v.len();
    let mut i: usize = 0;
    while i < n
        invariant
            n == v@.len(),
            i <= n,
            r@ == v@.subrange(0, i as int).map_values(|c: char| safe_char(c)),
        decreases n - i,
    {
        r.push(safe(v[i]));
        i = i + 1;
        assert(r@ =~= v@.subrange(0, i as int).map_values(|c: char| safe_char(c)));
    }
    assert(v@.subrange(0, n as int) =~= v@);
    r
}

/// Without its leading dots and white space.
fn drop_leading_dots(v: &Vec<char>) -> (r: Vec<char>)
    ensures
        r@ == drop_leading(v@, dot_or_space()),
{
    let n = v.len();
    let mut i: usize = 0;
    while i < n && (v[i] == '.' || v[i].is_whitespace())
        invariant
            n == v@.len(),
            i <= n,
            forall|k: int| 0 <= k < i ==> v@[k] == '.' || unicode_white_space(v@[k]),
        decreases n - i,
    {
        i = i + 1;
    }
    proof {
        let p = dot_or_space();
        assert forall|k: int| 0 <= k < i implies #[trigger] p(v@[k]) by {}
        lemma_drop_leading_prefix(v@, p, i as int);
        let rest = v@.subrange(i as int, n as int);
        if rest.len() > 0 {
            assert(rest[0] == v@[i as int]);
        }
        assert(drop_leading(rest, p) == rest);
    }
    sub_chars(v, i, n)
}

/// Bytes of `c` in UTF-8.
pub(crate) fn char_width(c: char) -> (w: usize)
    ensures
        w == utf8_width(c),
{
    let u = c as u32;
    if u < 0x80 {
        1
    } else if u < 0x800 {
        2
    } else if u < 0x10000 {
        3
    } else {
        4
    }
}

proof fn lemma_utf8_len_split(s: Seq<char>, i: int)
    requires
        0 <= i < s.len(),
    ensures
        utf8_len(s.subrange(i, s.len() as int)) == utf8_width(s[i]) + utf8_len(s.subrange(i + 1, s.len() as int)),
    decreases s.len(),
{
    if i == s.len() - 1 {
        let t = s.subrange(i, s.len() as int);
        assert(t.drop_last() =~= Seq::<char>::empty());
        assert(s.subrange(i + 1, s.len() as int) =~= Seq::<char>::empty());
    } else {
        lemma_utf8_len_split(s.drop_last(), i);
        assert(s.subrange(i, s.len() as int).drop_last() =~= s.drop_last().subrange(i, s.len() - 1));
        assert(s.subrange(i + 1, s.len() as int).drop_last() =~= s.drop_last().subrange(i + 1, s.len() - 1));
    }
}

proof fn lemma_last_dot_at(s: Seq<char>, i: int)
    requires
        0 <= i < s.len(),
        s[i] == '.',
        forall|k: int| i < k < s.len() ==> #[trigger] s[k] != '.',
    ensures
        last_dot(s) == Some(i),
    decreases s.len(),
{
    if i < s.len() - 1 {
        lemma_last_dot_at(s.drop_last(), i);
    }
}

proof fn lemma_no_dot(s: Seq<char>)
    requires
        forall|k: int| 0 <= k < s.len() ==> #[trigger] s[k] != '.',
    ensures
        last_dot(s) is None,
    decreases s.len(),
{
    if s.len() > 0 {
        lemma_no_dot(s.drop_last());
    }
}

/// Where the extension starts in `v` (its length when there is none).
fn extension_start(v: &Vec<char>) -> (i: usize)
    ensures
        i <= v@.len(),
        split_ext(v@) == (v@.subrange(0, i as int), v@.subrange(i as int, v@.len() as int)),
{
    let n = v.len();
    let mut j: usize = n;
    while j > 0 && v[j - 1] != '.'
        invariant
            n == v@.len(),
            j <= n,
            forall|k: int| j <= k < n ==> #[trigger] v@[k] != '.',
        decreases j,
    {
        j = j - 1;
    }
    if j == 0 {
        proof {
            lemma_no_dot(v@);
            assert(v@.subrange(0, n as int) =~= v@);
            assert(v@.subrange(n as int, n as int) =~= Seq::<char>::empty());
        }
        return n;
    }
    let i = j - 1;
    proof { lemma_last_dot_at(v@, i as int); }
    if i == 0 {
        proof {
            assert(v@.subrange(0, n as int) =~= v@);
            assert(v@.subrange(n as int, n as int) =~= Seq::<char>::empty());
        }
        return n;
    }
    // UTF-8 length of v[i..], stopping once it exceeds the limit.
    let mut bytes: usize = 0;
    let mut k: usize = n;
    while k > i && bytes <= MAX_EXT_BYTES
        invariant
            n == v@.len(),
            i < k <= n || k == i,
            i < n,
            bytes <= MAX_EXT_BYTES + 4,
            bytes == utf8_len(v@.subrange(k as int, n as int)),
        decreases k,
    {
        k = k - 1;
        proof { lemma_utf8_len_split(v@, k as int); }
        bytes = bytes + char_width(v[k]);
    }
    proof {
        if k > i {
            // stopped early: the whole suffix is longer still
            lemma_utf8_len_mono(v@, i as int, k as int);
        }
    }
    if bytes <= MAX_EXT_BYTES {
        i
    } else {
        proof {
            assert(v@.subrange(0, n as int) =~= v@);
            assert(v@.subrange(n as int, n as int) =~= Seq::<char>::empty());
        }
        n
    }
}

proof fn lemma_utf8_len_mono(s: Seq<char>, i: int, k: int)
    requires
        0 <= i <= k <= s.len(),
    ensures
        utf8_len(s.subrange(i, s.len() as int)) >= utf8_len(s.subrange(k, s.len() as int)),
    decreases k - i,
{
    if i < k {
        lemma_utf8_len_split(s, i);
        lemma_utf8_len_mono(s, i + 1, k);
    }
}

/// "photo.jpg" -> ("photo", ".jpg"); names without an extension keep it empty.
pub fn split_extension(name: &str) -> (r: (String, String))
    ensures
        (r.0@, r.1@) == split_ext(name@),
{
    let v = chars_of(name);
    let i = extension_start(&v);
    (string_of(&sub_chars(&v, 0, i)), string_of(&sub_chars(&v, i, v.len())))
}

/// A file name that is safe on every platform: no directories, no reserved
/// characters, no leading dots, and not too long (the extension is kept).
pub fn clean_file_name(name: &str) -> (r: String)
    ensures
        r@ == spec_clean_file_name(name@),
{
    let chars = chars_of(name);
    let seg = last_segment_chars(&chars);
    let safe_chars = replace_unsafe(&seg);
    let t = drop_leading_dots(&safe_chars);
    let cleaned = trim_chars(&t);
    if cleaned.len() == 0 {
        return String::from_str("file");
    }
    if cleaned.len() <= MAX_NAME_CHARS {
        return string_of(&cleaned);
    }
    let i = extension_start(&cleaned);
    let ext_len = cleaned.len() - i;
    let keep: usize = if ext_len >= MAX_NAME_CHARS { 0 } else { MAX_NAME_CHARS - ext_len };
    let take = if keep <= i { keep } else { i };
    let mut out = sub_chars(&cleaned, 0, take);
    let ext = sub_chars(&cleaned, i, cleaned.len());
    let mut j: usize = 0;
    let ghost head = out@;
    while j < ext.len()
        invariant
            j <= ext@.len(),
            out@ == head + ext@.subrange(0, j as int),
        decreases ext@.len() - j,
    {
        out.push(ext[j]);
        j = j + 1;
        assert(out@ =~= head + ext@.subrange(0, j as int));
    }
    assert(ext@.subrange(0, ext@.len() as int) =~= ext@);
    assert(head =~= cleaned@.subrange(0, i as int).take(take as int));
    string_of(&out)
}

/// A character that may stand in a cleaned file name.
pub open spec fn allowed_in_name(c: char) -> bool {
    !is_path_sep(c) && !is_reserved(c) && !is_control_char(c)
}

/// Every character of `s` is allowed in a file name.
pub open spec fn all_allowed(s: Seq<char>) -> bool {
    forall|i: int| 0 <= i < s.len() ==> allowed_in_name(#[trigger] s[i])
}

proof fn lemma_last_segment_no_sep(s: Seq<char>)
    ensures
        forall|i: int| 0 <= i < last_segment(s).len() ==> !is_path_sep(#[trigger] last_segment(s)[i]),
    decreases s.len(),
{
    if s.len() > 0 && !is_path_sep(s.last()) {
        lemma_last_segment_no_sep(s.drop_last());
        let t = last_segment(s.drop_last());
        assert forall|i: int| 0 <= i < last_segment(s).len() implies !is_path_sep(#[trigger] last_segment(s)[i]) by {
            if i < t.len() {
                assert(last_segment(s)[i] == t[i]);
            }
        }
    }
}

proof fn lemma_drop_leading_suffix(s: Seq<char>, p: spec_fn(char) -> bool)
    ensures
        exists|i: int| 0 <= i <= s.len() && drop_leading(s, p) == #[trigger] s.subrange(i, s.len() as int),
    decreases s.len(),
{
    if s.len() > 0 && p(s[0]) {
        lemma_drop_leading_suffix(s.drop_first(), p);
        let i = choose|i: int| 0 <= i <= s.drop_first().len() && drop_leading(s.drop_first(), p) == #[trigger] s.drop_first().subrange(i, s.drop_first().len() as int);
        assert(s.drop_first().subrange(i, s.drop_first().len() as int) =~= s.subrange(i + 1, s.len() as int));
    } else {
        assert(s.subrange(0, s.len() as int) =~= s);
    }
}

proof fn lemma_drop_trailing_prefix(s: Seq<char>, p: spec_fn(char) -> bool)
    ensures
        exists|j: int| 0 <= j <= s.len() && drop_trailing(s, p) == #[trigger] s.subrange(0, j),
    decreases s.len(),
{
    if s.len() > 0 && p(s.last()) {
        lemma_drop_trailing_prefix(s.drop_last(), p);
        let j = choose|j: int| 0 <= j <= s.drop_last().len() && drop_trailing(s.drop_last(), p) == #[trigger] s.drop_last().subrange(0, j);
        assert(s.drop_last().subrange(0, j) =~= s.subrange(0, j));
    } else {
        assert(s.subrange(0, s.len() as int) =~= s);
    }
}

proof fn lemma_allowed_sub(s: Seq<char>, i: int, j: int)
    requires
        all_allowed(s),
        0 <= i <= j <= s.len(),
    ensures
        all_allowed(s.subrange(i, j)),
{
    assert forall|k: int| 0 <= k < s.subrange(i, j).len() implies allowed_in_name(#[trigger] s.subrange(i, j)[k]) by {
        assert(s.subrange(i, j)[k] == s[i + k]);
    }
}

proof fn lemma_allowed_trim(s: Seq<char>)
    requires
        all_allowed(s),
    ensures
        all_allowed(trim_ws(s)),
{
    let p = crate::text::white_space();
    lemma_drop_leading_suffix(s, p);
    let i = choose|i: int| 0 <= i <= s.len() && drop_leading(s, p) == #[trigger] s.subrange(i, s.len() as int);
    lemma_allowed_sub(s, i, s.len() as int);
    let t = drop_leading(s, p);
    lemma_drop_trailing_prefix(t, p);
    let j = choose|j: int| 0 <= j <= t.len() && drop_trailing(t, p) == #[trigger] t.subrange(0, j);
    lemma_allowed_sub(t, 0, j);
}

proof fn lemma_last_dot_range(s: Seq<char>)
    ensures
        last_dot(s) matches Some(i) ==> 0 <= i < s.len() && s[i] == '.',
    decreases s.len(),
{
    if s.len() > 0 && s.last() != '.' {
        lemma_last_dot_range(s.drop_last());
    }
}

proof fn lemma_utf8_len_at_least_len(s: Seq<char>)
    ensures
        utf8_len(s) >= s.len(),
    decreases s.len(),
{
    if s.len() > 0 {
        lemma_utf8_len_at_least_len(s.drop_last());
    }
}

/// A cleaned file name is never empty, has at most [`MAX_NAME_CHARS`]
/// characters, does not start with a dot, and holds no path separator,
/// reserved or control character.
pub proof fn law_clean_file_name_is_safe(name: Seq<char>)
    ensures
        spec_clean_file_name(name).len() > 0,
        spec_clean_file_name(name).len() <= MAX_NAME_CHARS,
        spec_cleaned(name).len() > MAX_NAME_CHARS ==> spec_clean_file_name(name).len() == MAX_NAME_CHARS,
        spec_clean_file_name(name)[0] != '.',
        all_allowed(spec_clean_file_name(name)),
{
    let seg = last_segment(name);
    lemma_last_segment_no_sep(name);
    let mapped = seg.map_values(|c: char| safe_char(c));
    assert(all_allowed(mapped)) by {
        assert forall|i: int| 0 <= i < mapped.len() implies allowed_in_name(#[trigger] mapped[i]) by {
            assert(!is_path_sep(seg[i]));
        }
    }
    let p = dot_or_space();
    lemma_drop_leading_suffix(mapped, p);
    let i = choose|i: int| 0 <= i <= mapped.len() && drop_leading(mapped, p) == #[trigger] mapped.subrange(i, mapped.len() as int);
    lemma_allowed_sub(mapped, i, mapped.len() as int);
    let t = drop_leading(mapped, p);
    lemma_allowed_trim(t);
    lemma_drop_leading_head(mapped, p);
    lemma_trim_keeps_head(t);
    let c = spec_cleaned(name);
    assert(c.len() > 0 ==> c[0] != '.');
    reveal_strlit("file");
    if c.len() > MAX_NAME_CHARS {
        let (stem, ext) = split_ext(c);
        lemma_last_dot_range(c);
        match last_dot(c) {
            Some(d) => if d > 0 && utf8_len(c.subrange(d, c.len() as int)) <= MAX_EXT_BYTES {
                lemma_utf8_len_at_least_len(c.subrange(d, c.len() as int));
                lemma_allowed_sub(c, 0, d);
                lemma_allowed_sub(c, d, c.len() as int);
            } else {},
            None => {},
        }
        assert(all_allowed(stem) && all_allowed(ext));
        assert(ext.len() <= MAX_EXT_BYTES);
        assert(stem.len() + ext.len() == c.len());
        assert(stem.len() > 0 && stem[0] == c[0]);
        let keep: int = MAX_NAME_CHARS - ext.len();
        let r = stem.take(keep) + ext;
        lemma_allowed_sub(stem, 0, keep);
        assert(r.len() == MAX_NAME_CHARS);
        assert(r[0] == stem[0]);
        assert forall|k: int| 0 <= k < r.len() implies allowed_in_name(#[trigger] r[k]) by {
            if k < keep {
                assert(r[k] == stem.take(keep)[k]);
            } else {
                assert(r[k] == ext[k - keep]);
            }
        }
    }
}

/// What is left after dropping the leading characters that satisfy `p`
/// does not start with one.
proof fn lemma_drop_leading_head(s: Seq<char>, p: spec_fn(char) -> bool)
    ensures
        drop_leading(s, p).len() > 0 ==> !p(drop_leading(s, p)[0]),
    decreases s.len(),
{
    if s.len() > 0 && p(s[0]) {
        lemma_drop_leading_head(s.drop_first(), p);
    }
}

/// Trimming a text that does not start with white space keeps its first
/// character.
proof fn lemma_trim_keeps_head(s: Seq<char>)
    requires
        s.len() > 0 ==> !unicode_white_space(s[0]),
    ensures
        trim_ws(s).len() > 0 ==> trim_ws(s)[0] == s[0],
{
    let w = crate::text::white_space();
    if s.len() > 0 {
        assert(!w(s[0]));
        assert(drop_leading(s, w) == s);
        lemma_drop_trailing_prefix(s, w);
    } else {
        assert(drop_leading(s, w) == s);
        lemma_drop_trailing_prefix(s, w);
    }
}

/// A running SHA-256 over the bytes of a file.
///
/// Holds a `sha2::Sha256`, whose type Verus cannot declare (its generic
/// arguments come from `typenum`); what it has absorbed is named by
/// [`sha256_absorbed`].
#[verifier::external_body]
pub struct FileHasher {
    inner: sha2::Sha256,
}

/// The bytes a running SHA-256 has absorbed so far.
pub uninterp spec fn sha256_absorbed(h: FileHasher) -> Seq<u8>;

/// A fresh running SHA-256.
///
/// Calls `Sha256::new`; it has absorbed nothing.
#[verifier::external_body]
fn hasher_new() -> (h: FileHasher)
    ensures
        sha256_absorbed(h) == Seq::<u8>::empty(),
{
    FileHasher { inner: <sha2::Sha256 as sha2::Digest>::new() }
}

/// Feeds bytes to a running SHA-256.
///
/// Calls `Sha256::update`; the bytes are appended to what it absorbed.
#[verifier::external_body]
fn hasher_update(h: &mut FileHasher, data: &[u8])
    ensures
        sha256_absorbed(*final(h)) == sha256_absorbed(*old(h)) + data@,
{
    sha2::Digest::update(&mut h.inner, data)
}

/// The digest of everything a running SHA-256 absorbed.
///
/// Calls `Sha256::finalize`; the digest is the SHA-256 of the absorbed bytes.
#[verifier::external_body]
fn hasher_finalize(h: FileHasher) -> (d: [u8; 32])
    ensures
        d@ == crate::crypto::sha256_digest(sha256_absorbed(h)),
{
    sha2::Digest::finalize(h.inner).into()
}

/// "The file is too large (100 MB max)".
pub open spec fn spec_too_large_message() -> Seq<char> {
    "The file is too large ("@ + decimal(MAX_FILE_BYTES as nat / (1024 * 1024)) + " MB max)"@
}

/// The message for a file over [`MAX_FILE_BYTES`].
pub fn too_large_message() -> (m: String)
    ensures
        m@ == spec_too_large_message(),
{
    let mut m = String::from_str("The file is too large (");
    push_decimal(&mut m, MAX_FILE_BYTES / (1024 * 1024));
    m.append(" MB max)");
    m
}

/// Why the receiving side stops a transfer: the error code and message it
/// sends to the peer.
#[derive(Debug)]
pub struct Reject {
    pub code: String,
    pub msg: String,
}

impl Reject {
    pub open spec fn is(self, code: Seq<char>, msg: Seq<char>) -> bool {
        self.code@ == code && self.msg@ == msg
    }
}

/// How an incoming file failed its final check.
#[derive(Debug)]
pub enum EndFailure {
    /// Tell the peer, then stop.
    Rejected(Reject),
    /// Stop without telling the peer.
    Failed(AppError),
}

/// What the final check of an incoming file returns for the bytes that
/// arrived, the announced size and the announced base64 checksum.
pub open spec fn end_result(data: Seq<u8>, size: nat, expected_b64: Seq<char>, r: Result<(), EndFailure>) -> bool {
    match r {
        Ok(()) => data.len() == size
            && crate::protocol::base64_decode(expected_b64) == Some(crate::crypto::sha256_digest(data)),
        Err(EndFailure::Rejected(j)) => j.is("corrupt"@, "file does not match its checksum"@) && (
            data.len() != size
            || (crate::protocol::base64_decode(expected_b64) matches Some(b)
                && b != crate::crypto::sha256_digest(data))),
        Err(EndFailure::Failed(e)) => data.len() == size
            && crate::protocol::base64_decode(expected_b64) is None
            && e.is_protocol_msg("invalid base64"@),
    }
}

/// A file relayed chunk by chunk arrives intact: when the receiver got
/// exactly the bytes the sender relayed, as many as announced, and the
/// checksum the sender ended with reaches it in base64, the receiver keeps
/// the file.
pub proof fn law_transfer_intact(
    sent: Seq<u8>,
    received: Seq<u8>,
    size: nat,
    expected_b64: Seq<char>,
    r: Result<(), EndFailure>,
)
    requires
        received == sent,
        sent.len() == size,
        crate::protocol::base64_decode(expected_b64) == Some(crate::crypto::sha256_digest(sent)),
        end_result(received, size, expected_b64, r),
    ensures
        r is Ok,
{
}

/// An outgoing file: how much was relayed and its running checksum.
pub struct SendProgress {
    size: u64,
    sent: u64,
    hasher: FileHasher,
    data: Ghost<Seq<u8>>,
}

impl SendProgress {
    /// The announced size.
    pub closed spec fn size(&self) -> u64 {
        self.size
    }

    /// Every byte relayed so far, in order.
    pub closed spec fn data(&self) -> Seq<u8> {
        self.data@
    }

    pub closed spec fn wf(&self) -> bool {
        &&& self.sent == self.data@.len()
        &&& self.sent <= self.size
        &&& 0 < self.size <= MAX_FILE_BYTES
        &&& sha256_absorbed(self.hasher) == self.data@
    }

    /// What a well-formed transfer keeps: no more bytes than announced, and
    /// an announced size between one byte and the largest file allowed.
    pub proof fn lemma_bounds(&self)
        requires
            self.wf(),
        ensures
            self.data().len() <= self.size(),
            0 < self.size() <= MAX_FILE_BYTES,
    {
    }

    /// Starts a transfer of `size` bytes; empty and oversized files are refused.
    pub fn begin(size: u64) -> (r: Result<SendProgress, AppError>)
        ensures
            match r {
                Ok(p) => 0 < size <= MAX_FILE_BYTES && p.wf() && p.size() == size && p.data() == Seq::<u8>::empty(),
                Err(e) => size == 0 && e.is_msg("The file is empty"@)
                    || size > MAX_FILE_BYTES && e.is_msg(spec_too_large_message()),
            },
    {
        if size == 0 {
            return Err(AppError::msg("The file is empty"));
        }
        if size > MAX_FILE_BYTES {
            return Err(AppError::Msg(too_large_message()));
        }
        Ok(SendProgress { size, sent: 0, hasher: hasher_new(), data: Ghost(Seq::empty()) })
    }

    /// Accounts one chunk (base64, as the frontend sends it) and returns the
    /// decoded bytes to relay, with the total sent so far.
    pub fn chunk(&mut self, data: &str) -> (r: Result<(Vec<u8>, u64), AppError>)
        requires
            old(self).wf(),
        ensures
            final(self).wf(),
            final(self).size() == old(self).size(),
            match r {
                Ok((bytes, total)) => {
                    &&& crate::protocol::base64_decode(data@) == Some(bytes@)
                    &&& 0 < bytes@.len() <= FILE_CHUNK_BYTES
                    &&& final(self).data() == old(self).data() + bytes@
                    &&& old(self).data().len() + bytes@.len() <= old(self).size()
                    &&& total == final(self).data().len()
                },
                Err(e) => final(self).data() == old(self).data() && match crate::protocol::base64_decode(data@) {
                    None => e.is_protocol_msg("invalid base64"@),
                    Some(b) => if b.len() == 0 || b.len() > FILE_CHUNK_BYTES {
                        e.is_msg("Invalid chunk size"@)
                    } else {
                        old(self).data().len() + b.len() > old(self).size()
                            && e.is_msg("More data than the announced file size"@)
                    },
                },
            },
    {
        let bytes = crate::protocol::b64d(data)?;
        if bytes.len() == 0 || bytes.len() > FILE_CHUNK_BYTES {
            return Err(AppError::msg("Invalid chunk size"));
        }
        if bytes.len() as u64 > self.size - self.sent {
            return Err(AppError::msg("More data than the announced file size"));
        }
        hasher_update(&mut self.hasher, bytes.as_slice());
        self.sent = self.sent + bytes.len() as u64;
        self.data = Ghost(self.data@ + bytes@);
        let total = self.sent;
        Ok((bytes, total))
    }

    /// Ends the transfer: the SHA-256 of the whole file, once every byte was sent.
    pub fn finish(self) -> (r: Result<[u8; 32], AppError>)
        requires
            self.wf(),
        ensures
            match r {
                Ok(d) => self.data().len() == self.size() && d@ == crate::crypto::sha256_digest(self.data()),
                Err(e) => self.data().len() != self.size() && e.is_msg("The file was not sent completely"@),
            },
    {
        if self.sent != self.size {
            return Err(AppError::msg("The file was not sent completely"));
        }
        Ok(hasher_finalize(self.hasher))
    }
}

/// An incoming file: how much arrived and its running checksum.
pub struct ReceiveProgress {
    size: u64,
    received: u64,
    hasher: FileHasher,
    data: Ghost<Seq<u8>>,
}

impl ReceiveProgress {
    /// The announced size.
    pub closed spec fn size(&self) -> u64 {
        self.size
    }

    /// Every byte accepted so far, in order.
    pub closed spec fn data(&self) -> Seq<u8> {
        self.data@
    }

    pub closed spec fn wf(&self) -> bool {
        &&& self.received == self.data@.len()
        &&& self.received <= self.size
        &&& 0 < self.size <= MAX_FILE_BYTES
        &&& sha256_absorbed(self.hasher) == self.data@
    }

    /// What a well-formed transfer keeps: no more bytes than announced, and
    /// an announced size between one byte and the largest file allowed.
    pub proof fn lemma_bounds(&self)
        requires
            self.wf(),
        ensures
            self.data().len() <= self.size(),
            0 < self.size() <= MAX_FILE_BYTES,
    {
    }

    /// Accepts an announced file of `size` bytes, or refuses it as too large
    /// (an empty file is refused the same way).
    pub fn begin(size: u64) -> (r: Result<ReceiveProgress, Reject>)
        ensures
            match r {
                Ok(p) => 0 < size <= MAX_FILE_BYTES && p.wf() && p.size() == size && p.data() == Seq::<u8>::empty(),
                Err(j) => (size == 0 || size > MAX_FILE_BYTES) && j.is("too_large"@, spec_too_large_message()),
            },
    {
        if size == 0 || size > MAX_FILE_BYTES {
            return Err(Reject { code: String::from_str("too_large"), msg: too_large_message() });
        }
        Ok(ReceiveProgress { size, received: 0, hasher: hasher_new(), data: Ghost(Seq::empty()) })
    }

    /// Accepts the bytes of one sealed frame, unless the file would grow
    /// past its announced size.
    pub fn add(&mut self, bytes: &[u8]) -> (r: Result<(), Reject>)
        requires
            old(self).wf(),
        ensures
            final(self).wf(),
            final(self).size() == old(self).size(),
            match r {
                Ok(()) => final(self).data() == old(self).data() + bytes@
                    && old(self).data().len() + bytes@.len() <= old(self).size(),
                Err(j) => old(self).data().len() + bytes@.len() > old(self).size()
                    && j.is("too_large"@, "file larger than announced"@),
            },
    {
        if bytes.len() as u64 > self.size - self.received {
            return Err(Reject {
                code: String::from_str("too_large"),
                msg: String::from_str("file larger than announced"),
            });
        }
        hasher_update(&mut self.hasher, bytes);
        self.received = self.received + bytes.len() as u64;
        self.data = Ghost(self.data@ + bytes@);
        Ok(())
    }

    /// The final check against the sender's `FileEnd`: every byte arrived and
    /// the base64 SHA-256 it announced is the file's.
    pub fn check_end(self, expected_b64: &str) -> (r: Result<(), EndFailure>)
        requires
            self.wf(),
        ensures
            end_result(self.data(), self.size() as nat, expected_b64@, r),
    {
        let corrupt = Reject {
            code: String::from_str("corrupt"),
            msg: String::from_str("file does not match its checksum"),
        };
        if self.received != self.size {
            return Err(EndFailure::Rejected(corrupt));
        }
        let expected = match crate::protocol::b64d(expected_b64) {
            Ok(b) => b,
            Err(e) => return Err(EndFailure::Failed(e)),
        };
        let digest = hasher_finalize(self.hasher);
        if !crate::bytes::bytes_eq(expected.as_slice(), &digest) {
            return Err(EndFailure::Rejected(corrupt));
        }
        Ok(())
    }
}

/// The `attempt`-th name tried for a received file: the name itself first,
/// then "stem (2).ext", "stem (3).ext", and so on.
pub open spec fn spec_candidate_name(name: Seq<char>, attempt: nat) -> Seq<char> {
    if attempt <= 1 {
        name
    } else {
        split_ext(name).0 + " ("@ + decimal(attempt) + ")"@ + split_ext(name).1
    }
}

/// The `attempt`-th name to try for a received file when earlier ones are
/// taken: `name`, then `stem (2)ext`, `stem (3)ext`, ...
pub fn candidate_name(name: &str, attempt: u64) -> (r: String)
    ensures
        r@ == spec_candidate_name(name@, attempt as nat),
{
    if attempt <= 1 {
        return String::from_str(name);
    }
    let (stem, ext) = split_extension(name);
    let mut r = stem;
    r.append(" (");
    push_decimal(&mut r, attempt);
    r.append(")");
    r.append(ext.as_str());
    r
}

/// Whether a device announced that it receives files.
pub fn supports_files(features: &Vec<String>) -> (b: bool)
    ensures
        b == exists|i: int| 0 <= i < features@.len() && #[trigger] features@[i]@ == FEATURE_FILES@,
{
    let n = features.len();
    let mut i: usize = 0;
    while i < n
        invariant
            n == features@.len(),
            i <= n,
            forall|k: int| 0 <= k < i ==> #[trigger] features@[k]@ != FEATURE_FILES@,
        decreases n - i,
    {
        if str_eq(features[i].as_str(), FEATURE_FILES) {
            return true;
        }
        i = i + 1;
    }
    false
}

/// The first failure among the devices of a transfer, if any.
pub open spec fn first_failure(outcomes: Seq<Option<String>>) -> Option<String>
    decreases outcomes.len(),
{
    if outcomes.len() == 0 {
        None
    } else if outcomes[0] is Some {
        outcomes[0]
    } else {
        first_failure(outcomes.drop_first())
    }
}

/// Whether every device of a transfer dropped out (`Some` is why).
pub open spec fn all_failed(outcomes: Seq<Option<String>>) -> bool {
    forall|i: int| 0 <= i < outcomes.len() ==> (#[trigger] outcomes[i]) is Some
}

/// After the file was announced to every target: it goes on while at least
/// one device took it; otherwise the first reason a device gave is the error
/// (empty when there was no target at all).
pub fn opening_outcome(outcomes: &Vec<Option<String>>) -> (r: Result<(), AppError>)
    ensures
        match r {
            Ok(()) => !all_failed(outcomes@),
            Err(e) => all_failed(outcomes@) && e is Msg && e->Msg_0@ == match first_failure(outcomes@) {
                Some(m) => m@,
                None => Seq::<char>::empty(),
            },
        },
{
    let n = outcomes.len();
    let mut i: usize = 0;
    let mut first: Option<String> = None;
    while i < n
        invariant
            n == outcomes@.len(),
            i <= n,
            forall|k: int| 0 <= k < i ==> (#[trigger] outcomes@[k]) is Some,
            match first {
                Some(m) => i > 0 && Some(m) == outcomes@[0],
                None => i == 0,
            },
        decreases n - i,
    {
        match &outcomes[i] {
            Some(m) => {
                if i == 0 {
                    first = Some(m.clone());
                }
            },
            None => return Ok(()),
        }
        i = i + 1;
    }
    let msg = match first {
        Some(m) => m,
        None => String::new(),
    };
    proof {
        if n > 0 {
            assert(outcomes@[0] is Some);
        }
    }
    Err(AppError::Msg(msg))
}

/// The hidden file an incoming file streams into: `.{id}.part`.
pub fn part_name(id: &str) -> (n: String)
    ensures
        n@ == seq!['.'] + id@ + ".part"@,
{
    let mut n = String::new();
    n.push('.');
    n.append(id);
    n.append(".part");
    n
}

/// During an incoming transfer, the payload must be the `FileEnd` of this
/// transfer; its base64 checksum is returned.
pub fn expect_file_end(plain: Plain, id: &str) -> (r: Result<String, AppError>)
    ensures
        match r {
            Ok(sum) => plain matches Plain::FileEnd { id: e, sha256 } && e@ == id@ && sum == sha256,
            Err(e) => !(plain matches Plain::FileEnd { id: e, .. } && e@ == id@) && e is Protocol,
        },
{
    match plain {
        Plain::FileEnd { id: end_id, sha256 } => {
            if str_eq(end_id.as_str(), id) {
                return Ok(sha256);
            }
            Err(AppError::protocol("unexpected payload during file transfer"))
        },
        _ => Err(AppError::protocol("unexpected payload during file transfer")),
    }
}

/// The history item of an outgoing file, under the transfer's id.
pub fn sent_file_item(
    id: String,
    target: String,
    targets: &Vec<PeerRecord>,
    name: String,
    size: u64,
    mime: String,
    ts_ms: i64,
) -> (item: HistoryItem)
    requires
        target@ == ALL_TARGETS@ || targets@.len() > 0,
    ensures
        item.id == id,
        item.direction == Direction::Sent,
        item.peer_name@ == if target@ == ALL_TARGETS@ { "All paired devices"@ } else { targets@[0].name@ },
        item.peer_id == target,
        item.text@ == Seq::<char>::empty(),
        item.ts_ms == ts_ms,
        item.ok,
        item.file == Some(FileMeta { name, size, mime, path: None }),
{
    let peer_name = target_label(target.as_str(), targets);
    HistoryItem {
        id,
        direction: Direction::Sent,
        peer_id: target,
        peer_name,
        text: String::new(),
        ts_ms,
        ok: true,
        file: Some(FileMeta { name, size, mime, path: None }),
    }
}

/// A fresh transfer id (a random UUID, hyphenated); fails when the system
/// has no randomness.
pub fn new_transfer_id() -> (r: Result<String, AppError>)
    ensures
        match r {
            Ok(id) => id@.len() == 36 && exists|b: Seq<u8>| b.len() == 16 && id@ == #[trigger] uuid_v4_text(b),
            Err(e) => no_randomness(e),
        },
{
    new_item_id()
}

/// The stem and the extension make up the name.
proof fn lemma_split_ext_parts(s: Seq<char>)
    ensures
        split_ext(s).0 + split_ext(s).1 == s,
{
    lemma_last_dot_range(s);
    match last_dot(s) {
        Some(i) => {
            if i > 0 && utf8_len(s.subrange(i, s.len() as int)) <= MAX_EXT_BYTES {
                assert(s.subrange(0, i) + s.subrange(i, s.len() as int) =~= s);
            } else {
                assert(s + Seq::<char>::empty() =~= s);
            }
        },
        None => {
            assert(s + Seq::<char>::empty() =~= s);
        },
    }
}

/// Different attempts give different names.
pub proof fn lemma_candidates_differ(name: Seq<char>, a: nat, b: nat)
    requires
        1 <= a,
        1 <= b,
        a != b,
    ensures
        spec_candidate_name(name, a) != spec_candidate_name(name, b),
{
    lemma_split_ext_parts(name);
    let stem = split_ext(name).0;
    let ext = split_ext(name).1;
    reveal_strlit(" (");
    reveal_strlit(")");
    let p = stem + " ("@;
    if a == 1 || b == 1 {
        let k = if a == 1 { b } else { a };
        lemma_decimal_len(k);
        assert(spec_candidate_name(name, k).len() == name.len() + 3 + decimal(k).len());
    } else {
        let da = decimal(a);
        let db = decimal(b);
        let ca = spec_candidate_name(name, a);
        let cb = spec_candidate_name(name, b);
        assert(ca =~= p + da + seq![')'] + ext);
        assert(cb =~= p + db + seq![')'] + ext);
        if ca == cb {
            lemma_decimal_digits(a);
            lemma_decimal_digits(b);
            if da.len() == db.len() {
                assert(da =~= ca.subrange(p.len() as int, (p.len() + da.len()) as int));
                assert(db =~= cb.subrange(p.len() as int, (p.len() + db.len()) as int));
                lemma_decimal_injective(a, b);
            } else if da.len() < db.len() {
                assert(ca[(p.len() + da.len()) as int] == ')');
                assert(cb[(p.len() + da.len()) as int] == db[da.len() as int]);
            } else {
                assert(cb[(p.len() + db.len()) as int] == ')');
                assert(ca[(p.len() + db.len()) as int] == da[db.len() as int]);
            }
        }
    }
}

/// The names of a list of texts.
pub open spec fn names_of(v: Seq<String>) -> Seq<Seq<char>> {
    v.map_values(|s: String| s@)
}

/// When the first `k` candidates are all taken, there are at least `k`
/// taken names.
proof fn lemma_pigeonhole(name: Seq<char>, taken: Seq<Seq<char>>, k: nat)
    requires
        forall|j: nat| 1 <= j <= k ==> taken.contains(#[trigger] spec_candidate_name(name, j)),
    ensures
        k <= taken.len(),
{
    let s = Seq::new(k, |i: int| spec_candidate_name(name, (i + 1) as nat));
    assert forall|i: int, j: int| 0 <= i < s.len() && 0 <= j < s.len() && i != j implies s[i] != s[j] by {
        lemma_candidates_differ(name, (i + 1) as nat, (j + 1) as nat);
    }
    assert(s.no_duplicates());
    s.unique_seq_to_set();
    assert forall|x: Seq<char>| s.to_set().contains(x) implies taken.to_set().contains(x) by {
        let i = choose|i: int| 0 <= i < s.len() && s[i] == x;
        assert(taken.contains(spec_candidate_name(name, (i + 1) as nat)));
    }
    taken.lemma_cardinality_of_set();
    vstd::set_lib::lemma_len_subset(s.to_set(), taken.to_set());
}

/// Whether `c` is among `taken`.
fn name_taken(taken: &Vec<String>, c: &str) -> (b: bool)
    ensures
        b == names_of(taken@).contains(c@),
{
    let n = taken.len();
    let mut i: usize = 0;
    while i < n
        invariant
            n == taken@.len(),
            i <= n,
            forall|k: int| 0 <= k < i ==> #[trigger] taken@[k]@ != c@,
        decreases n - i,
    {
        if str_eq(taken[i].as_str(), c) {
            assert(names_of(taken@)[i as int] == c@);
            return true;
        }
        i = i + 1;
    }
    assert forall|k: int| 0 <= k < names_of(taken@).len() implies names_of(taken@)[k] != c@ by {
        assert(names_of(taken@)[k] == taken@[k]@);
    }
    false
}

/// The name to save a received file under, given the names already in the
/// folder: the first of `name`, `stem (2)ext`, `stem (3)ext`, ... that is free.
pub fn unique_path(taken: &Vec<String>, name: &str) -> (r: String)
    requires
        taken@.len() < usize::MAX,
    ensures
        exists|k: nat| {
            &&& 1 <= k
            &&& r@ == spec_candidate_name(name@, k)
            &&& !names_of(taken@).contains(r@)
            &&& forall|j: nat| 1 <= j < k ==> names_of(taken@).contains(#[trigger] spec_candidate_name(name@, j))
        },
{
    let ghost names = names_of(taken@);
    let n = taken.len();
    let mut attempt: usize = 1;
    loop
        invariant
            names == names_of(taken@),
            n == taken@.len(),
            n < usize::MAX,
            1 <= attempt <= n + 1,
            forall|j: nat| 1 <= j < attempt ==> names.contains(#[trigger] spec_candidate_name(name@, j)),
        decreases n + 1 - attempt,
    {
        let c = candidate_name(name, attempt as u64);
        if !name_taken(taken, c.as_str()) {
            return c;
        }
        proof {
            assert forall|j: nat| 1 <= j <= attempt implies names.contains(#[trigger] spec_candidate_name(name@, j)) by {
                if j < attempt {
                }
            }
            lemma_pigeonhole(name@, names, attempt as nat);
        }
        attempt = attempt + 1;
    }
}

} // verus!
