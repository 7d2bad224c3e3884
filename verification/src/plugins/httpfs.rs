//! HTTP client filesystem: requests are written as files under `/requests/<id>/`, and
//! writing `send` to `/requests/<id>/trigger` executes them; responses appear under
//! `/responses/<id>/`, and GET responses are cached under `/cache/<key>/`.
//!
//! The network exchange itself is done by the caller: a trigger records the request as
//! pending, [`HttpFS::begin_request`] says what to send (or serves it from the cache),
//! and [`HttpFS::finish_request`] stores what came back.
use vstd::prelude::*;
use vstd::std_specs::hash::DefaultHasherAdditionalSpecFns;
use std::collections::hash_map::DefaultHasher;
use std::hash::Hasher;
use crate::error::{FSError, invalid_input_with, not_found_for, exists_for, is_dir_for, not_dir_for, denied_for};
use crate::filesystem::{ReadFS, WriteFS, DirFS, ChmodFS, FileSystem};
use crate::flags::{WriteFlags, has_bits};
use crate::metadata::{FileMetadata, MetaView, S_IFMT, S_IFDIR};
use crate::path::{
    Comp, comps, components, Component, same_text, path_key, path_key_of, parent_of, parent,
    comps_prefix, starts_with_path, has_prefix, push_path, push_onto,
};
use crate::plugins::{read_range, read_range_spec, read_args_ok, read_start, apply_write, write_spec};
use crate::plugins::kvfs::{new_file_meta, new_dir_meta, with_perm, text_prefix, under};
use crate::clock::{utc_now_millis, utc_now_secs};
use crate::strmap::{StrMap, lookup, pair_views, distinct_keys, as_map, lists_map};
use crate::text::{
    chars_of, string_of, hex_padded, u64_to_hex16, decimal, u64_to_decimal, bytes_of, concat_str, trim_spec, trim_chars, eq_ignore_case,
    eq_ignore_case_chars, parse_unsigned, parse_u64, split_char, split_chars, owned, trim_str,
};

verus! {

// ---------------------------------------------------------------------------
// Request ids and cache keys
// ---------------------------------------------------------------------------

/// The request id that a path under `/requests/<id>/...` names, or the message of the
/// invalid-input error for any other path.
pub open spec fn request_id_spec(path: Seq<char>) -> Result<Seq<char>, Seq<char>> {
    let cs = comps(path);
    if cs.len() < 3 || cs[0] != Comp::Root || cs[1] != Comp::Normal("requests"@) {
        Err("invalid request path"@)
    } else {
        match cs[2] {
            Comp::Normal(n) => Ok(n),
            _ => Err("invalid request ID"@),
        }
    }
}

/// Parse a request ID from a path like `/requests/req001/url`.
pub fn parse_request_id(path: &str) -> (r: Result<String, FSError>)
    ensures
        request_id_spec(path@) matches Ok(id) ==> (r matches Ok(s) && s@ == id),
        request_id_spec(path@) matches Err(m) ==> (r matches Err(e) && invalid_input_with(e, m)),
{
    let cs = components(path);
    proof {
        reveal_strlit("requests");
        reveal_strlit("invalid request path");
        reveal_strlit("invalid request ID");
    }
    if cs.len() < 3 {
        return Err(FSError::invalid_input("invalid request path"));
    }
    let first_ok = match &cs[0] {
        Component::RootDir => true,
        _ => false,
    };
    let second_ok = match &cs[1] {
        Component::Normal(n) => same_text(n.as_str(), "requests"),
        _ => false,
    };
    if !first_ok || !second_ok {
        proof {
            assert(comps(path@)[0] == cs@[0].model());
            assert(comps(path@)[1] == cs@[1].model());
        }
        return Err(FSError::invalid_input("invalid request path"));
    }
    proof {
        assert(comps(path@)[0] == cs@[0].model());
        assert(comps(path@)[1] == cs@[1].model());
        assert(comps(path@)[2] == cs@[2].model());
    }
    match &cs[2] {
        Component::Normal(n) => Ok(n.clone()),
        _ => Err(FSError::invalid_input("invalid request ID")),
    }
}

/// The cache key of a URL: the 64-bit `DefaultHasher` hash of the URL string (its bytes
/// followed by `0xff`, as `str` hashes itself), as 16 lower-case hexadecimal digits.
pub open spec fn cache_key_spec(url: Seq<char>) -> Seq<char> {
    hex_padded(
        DefaultHasher::spec_finish(seq![vstd::utf8::encode_utf8(url), seq![0xffu8]]) as nat,
        16,
    )
}

/// A lower-case hexadecimal digit.
pub open spec fn is_hex_digit(c: char) -> bool {
    ('0' <= c && c <= '9') || ('a' <= c && c <= 'f')
}

proof fn lemma_hex_padded_digits(n: nat, width: nat)
    ensures
        hex_padded(n, width).len() == width,
        forall|i: int| 0 <= i < width ==> is_hex_digit(#[trigger] hex_padded(n, width)[i]),
    decreases width,
{
    if width > 0 {
        lemma_hex_padded_digits(n / 16, (width - 1) as nat);
        let d = n % 16;
        let c = crate::text::digit_char(d);
        if d < 10 {
            assert(('0' as nat) + d <= ('9' as nat));
        } else {
            assert(('a' as nat) + (d - 10) <= ('f' as nat));
        }
        assert(is_hex_digit(c));
        let h = hex_padded(n, width);
        assert forall|i: int| 0 <= i < width implies is_hex_digit(#[trigger] h[i]) by {
            if i < width - 1 {
                assert(h[i] == hex_padded(n / 16, (width - 1) as nat)[i]);
            }
        }
    }
}

/// Every cache key is 16 lower-case hexadecimal digits, and the same URL always gives
/// the same key.
pub proof fn lemma_cache_key_shape(url: Seq<char>)
    ensures
        cache_key_spec(url).len() == 16,
        forall|i: int| 0 <= i < 16 ==> is_hex_digit(#[trigger] cache_key_spec(url)[i]),
{
    lemma_hex_padded_digits(
        DefaultHasher::spec_finish(seq![vstd::utf8::encode_utf8(url), seq![0xffu8]]) as nat,
        16,
    );
}

/// Compute a filesystem-safe cache key from a URL.
pub fn url_to_cache_key(url: &str) -> (r: String)
    ensures
        r@ == cache_key_spec(url@),
{
    let mut hasher = DefaultHasher::new();
    hasher.write(url.as_bytes());
    let mut tail: Vec<u8> = Vec::new();
    tail.push(0xffu8);
    hasher.write(tail.as_slice());
    proof {
        assert(tail@ =~= seq![0xffu8]);
        assert(hasher@ =~= seq![vstd::utf8::encode_utf8(url@), seq![0xffu8]]);
    }
    u64_to_hex16(hasher.finish())
}

// ---------------------------------------------------------------------------
// Cache-Control
// ---------------------------------------------------------------------------

/// Cache directive from a Cache-Control header.
#[derive(Clone, Debug)]
pub struct CacheDirective {
    /// Max age in seconds; `None` if not specified.
    pub max_age_secs: Option<u64>,
    /// True if `no-store` was present.
    pub no_store: bool,
}

/// The effect of one comma-separated part of a Cache-Control value on
/// `(max_age, no_store)`: `no-store` and `no-cache` in any ASCII case, and `max-age=N`
/// whose first eight characters match in any ASCII case and whose rest, trimmed, is an
/// unsigned number.
pub open spec fn directive_step(acc: (Option<u64>, bool), part: Seq<char>) -> (Option<u64>, bool) {
    let p = trim_spec(part);
    if eq_ignore_case(p, "no-store"@) {
        (acc.0, true)
    } else if eq_ignore_case(p, "no-cache"@) {
        (Some(0u64), acc.1)
    } else if p.len() >= 8 && eq_ignore_case(p.subrange(0, 8), "max-age="@) && parse_unsigned(
        trim_spec(p.subrange(8, p.len() as int)),
        u64::MAX as nat,
    ) is Some {
        (
            Some(
                parse_unsigned(trim_spec(p.subrange(8, p.len() as int)), u64::MAX as nat)->0 as u64,
            ),
            acc.1,
        )
    } else {
        acc
    }
}

/// The directive that a sequence of parts gives, from no max-age and no `no-store`.
pub open spec fn directive_of_parts(parts: Seq<Seq<char>>) -> (Option<u64>, bool)
    decreases parts.len(),
{
    if parts.len() == 0 {
        (None, false)
    } else {
        directive_step(directive_of_parts(parts.drop_last()), parts.last())
    }
}

/// The parts of a Cache-Control value: split at commas, each trimmed.
pub open spec fn cache_parts(value: Seq<char>) -> Seq<Seq<char>> {
    split_char(value, ',').map_values(|p: Seq<char>| trim_spec(p))
}

proof fn lemma_no_store_parts(parts: Seq<Seq<char>>)
    ensures
        directive_of_parts(parts).1 <==> exists|i: int| 0 <= i < parts.len() && eq_ignore_case(trim_spec(#[trigger] parts[i]), "no-store"@),
    decreases parts.len(),
{
    if parts.len() > 0 {
        let q = parts.drop_last();
        lemma_no_store_parts(q);
        if exists|i: int| 0 <= i < q.len() && eq_ignore_case(trim_spec(#[trigger] q[i]), "no-store"@) {
            let i = choose|i: int| 0 <= i < q.len() && eq_ignore_case(trim_spec(#[trigger] q[i]), "no-store"@);
            assert(parts[i] == q[i]);
        }
        if exists|i: int| 0 <= i < parts.len() && eq_ignore_case(trim_spec(#[trigger] parts[i]), "no-store"@) {
            let i = choose|i: int| 0 <= i < parts.len() && eq_ignore_case(trim_spec(#[trigger] parts[i]), "no-store"@);
            if i < q.len() {
                assert(parts[i] == q[i]);
            }
        }
    }
}

/// A Cache-Control value forbids storing exactly when one of its parts is `no-store`
/// (in any ASCII case, around white space).
pub proof fn lemma_no_store_anywhere(value: Seq<char>)
    ensures
        directive_spec(value).1 <==> exists|i: int| 0 <= i < cache_parts(value).len() && eq_ignore_case(#[trigger] cache_parts(value)[i], "no-store"@),
{
    let ps = split_char(value, ',');
    lemma_no_store_parts(ps);
    if exists|i: int| 0 <= i < ps.len() && eq_ignore_case(trim_spec(#[trigger] ps[i]), "no-store"@) {
        let i = choose|i: int| 0 <= i < ps.len() && eq_ignore_case(trim_spec(#[trigger] ps[i]), "no-store"@);
        assert(cache_parts(value)[i] == trim_spec(ps[i]));
    }
    if exists|i: int| 0 <= i < cache_parts(value).len() && eq_ignore_case(#[trigger] cache_parts(value)[i], "no-store"@) {
        let i = choose|i: int| 0 <= i < cache_parts(value).len() && eq_ignore_case(#[trigger] cache_parts(value)[i], "no-store"@);
        assert(cache_parts(value)[i] == trim_spec(ps[i]));
    }
}

/// A trailing `max-age=N` part (the name in any ASCII case, `N` a decimal number that fits
/// in 64 bits, around white space) sets the max-age to `N`, whatever came before it.
pub proof fn lemma_max_age_sets_ttl(value: Seq<char>, n: u64)
    requires
        cache_parts(value).last().len() >= 8,
        eq_ignore_case(cache_parts(value).last().subrange(0, 8), "max-age="@),
        parse_unsigned(trim_spec(cache_parts(value).last().subrange(8, cache_parts(value).last().len() as int)), u64::MAX as nat) == Some(n as nat),
    ensures
        directive_spec(value).0 == Some(n),
{
    reveal_strlit("no-cache");
    reveal_strlit("no-store");
    reveal_strlit("max-age=");
    let ps = split_char(value, ',');
    crate::text::lemma_split_char_len(value, ',');
    let p = trim_spec(ps.last());
    assert(cache_parts(value).last() == p);
    assert(p.subrange(0, 8)[0] == p[0]);
    assert(crate::text::ascii_lower(p[0]) == crate::text::ascii_lower('m'));
    assert(!eq_ignore_case(p, "no-store"@)) by {
        if eq_ignore_case(p, "no-store"@) {
            assert(crate::text::ascii_lower(p[0]) == crate::text::ascii_lower("no-store"@[0]));
        }
    }
    assert(!eq_ignore_case(p, "no-cache"@)) by {
        if eq_ignore_case(p, "no-cache"@) {
            assert(crate::text::ascii_lower(p[0]) == crate::text::ascii_lower("no-cache"@[0]));
        }
    }
}

/// A `no-cache` directive means a response may be kept but not served without asking
/// again: when the last part of a Cache-Control value is `no-cache` (in any ASCII case,
/// around white space), the directive's max-age is 0, whatever came before it.
pub proof fn lemma_no_cache_means_max_age_zero(value: Seq<char>)
    requires
        eq_ignore_case(cache_parts(value).last(), "no-cache"@),
    ensures
        directive_spec(value).0 == Some(0u64),
{
    reveal_strlit("no-cache");
    reveal_strlit("no-store");
    let ps = split_char(value, ',');
    crate::text::lemma_split_char_len(value, ',');
    let p = trim_spec(ps.last());
    assert(cache_parts(value).last() == p);
    assert(crate::text::ascii_lower(p[3]) == crate::text::ascii_lower('c'));
    assert(!eq_ignore_case(p, "no-store"@)) by {
        if eq_ignore_case(p, "no-store"@) {
            assert(crate::text::ascii_lower(p[3]) == crate::text::ascii_lower("no-store"@[3]));
        }
    }
}

/// The Cache-Control value of a header map: under `cache-control`, else under
/// `Cache-Control`, else empty. A header map is a list of name/value pairs in which a
/// later pair replaces an earlier one with the same name.
pub open spec fn cache_control_value(headers: Seq<(Seq<char>, Seq<char>)>) -> Seq<char> {
    match lookup(headers, "cache-control"@) {
        Some(v) => v,
        None => match lookup(headers, "Cache-Control"@) {
            Some(v) => v,
            None => Seq::empty(),
        },
    }
}

/// The value of the header `name` (the last pair with that name).
pub fn header_get<'a>(headers: &'a Vec<(String, String)>, name: &str) -> (r: Option<&'a String>)
    ensures
        match r {
            Some(v) => lookup(pair_views(headers@), name@) == Some(v@),
            None => lookup(pair_views(headers@), name@) is None,
        },
{
    let mut i: usize = headers.len();
    let ghost pv = pair_views(headers@);
    proof {
        assert(pv.subrange(0, i as int) =~= pv);
    }
    while i > 0
        invariant
            i <= headers@.len(),
            pv == pair_views(headers@),
            lookup(pv, name@) == lookup(pv.subrange(0, i as int), name@),
        decreases i,
    {
        proof {
            let t = pv.subrange(0, i as int);
            assert(t.drop_last() =~= pv.subrange(0, i - 1));
            assert(t.last() == (headers@[i - 1].0@, headers@[i - 1].1@));
        }
        if same_text(headers[i - 1].0.as_str(), name) {
            return Some(&headers[i - 1].1);
        }
        i = i - 1;
    }
    proof {
        assert(pv.subrange(0, 0) =~= Seq::<(Seq<char>, Seq<char>)>::empty());
    }
    None
}

/// The directive of a Cache-Control value.
pub open spec fn directive_spec(value: Seq<char>) -> (Option<u64>, bool) {
    directive_of_parts(split_char(value, ','))
}

fn lit_chars(s: &str) -> (r: Vec<char>)
    ensures
        r@ == s@,
{
    chars_of(s)
}

fn apply_part(max_age: &mut Option<u64>, no_store: &mut bool, part: &Vec<char>)
    ensures
        (*final(max_age), *final(no_store)) == directive_step((*old(max_age), *old(no_store)), part@),
{
    let p = trim_chars(part);
    let ns = lit_chars("no-store");
    let nc = lit_chars("no-cache");
    let ma = lit_chars("max-age=");
    proof {
        reveal_strlit("no-store");
        reveal_strlit("no-cache");
        reveal_strlit("max-age=");
    }
    if eq_ignore_case_chars(p.as_slice(), ns.as_slice()) {
        *no_store = true;
        return;
    }
    if eq_ignore_case_chars(p.as_slice(), nc.as_slice()) {
        *max_age = Some(0);
        return;
    }
    if p.len() >= 8 {
        let mut head: Vec<char> = Vec::new();
        let mut rest: Vec<char> = Vec::new();
        let mut i: usize = 0;
        while i < p.len()
            invariant
                p@.len() >= 8,
                i <= p@.len(),
                i <= 8 ==> head@ == p@.subrange(0, i as int) && rest@.len() == 0,
                i > 8 ==> head@ == p@.subrange(0, 8) && rest@ == p@.subrange(8, i as int),
            decreases p.len() - i,
        {
            if i < 8 {
                head.push(p[i]);
            } else {
                rest.push(p[i]);
            }
            i = i + 1;
            proof {
                if i <= 8 {
                    assert(head@ =~= p@.subrange(0, i as int));
                } else {
                    assert(rest@ =~= p@.subrange(8, i as int));
                }
            }
        }
        proof {
            if i == 8 {
                assert(p@.subrange(8, 8) =~= rest@);
            }
        }
        if eq_ignore_case_chars(head.as_slice(), ma.as_slice()) {
            let t = trim_chars(&rest);
            let text = string_of(t.as_slice());
            match parse_u64(text.as_str()) {
                Some(n) => {
                    *max_age = Some(n);
                },
                None => {},
            }
        }
    }
}

/// Parse the Cache-Control header of `headers` into a [`CacheDirective`].
pub fn parse_cache_control(headers: &Vec<(String, String)>) -> (r: CacheDirective)
    ensures
        (r.max_age_secs, r.no_store) == directive_spec(cache_control_value(pair_views(headers@))),
{
    proof {
        reveal_strlit("cache-control");
        reveal_strlit("Cache-Control");
    }
    let value: Vec<char> = match header_get(headers, "cache-control") {
        Some(v) => chars_of(v.as_str()),
        None => match header_get(headers, "Cache-Control") {
            Some(v) => chars_of(v.as_str()),
            None => Vec::new(),
        },
    };
    proof {
        if value@.len() == 0 {
            assert(value@ =~= cache_control_value(pair_views(headers@)));
        }
    }
    let parts = split_chars(&value, ',');
    let ghost ps = split_char(value@, ',');
    let mut max_age: Option<u64> = None;
    let mut no_store = false;
    let mut i: usize = 0;
    proof {
        assert(ps.subrange(0, 0) =~= Seq::<Seq<char>>::empty());
    }
    while i < parts.len()
        invariant
            i <= parts@.len(),
            parts@.len() == ps.len(),
            forall|k: int| 0 <= k < parts@.len() ==> #[trigger] parts@[k]@ == ps[k],
            (max_age, no_store) == directive_of_parts(ps.subrange(0, i as int)),
        decreases parts.len() - i,
    {
        apply_part(&mut max_age, &mut no_store, &parts[i]);
        proof {
            assert(ps.subrange(0, i + 1).drop_last() =~= ps.subrange(0, i as int));
            assert(parts@[i as int]@ == ps[i as int]);
        }
        i = i + 1;
    }
    proof {
        assert(ps.subrange(0, i as int) =~= ps);
    }
    CacheDirective { max_age_secs: max_age, no_store }
}

// ---------------------------------------------------------------------------
// JSON header maps
// ---------------------------------------------------------------------------

/// What `serde_json` makes of a JSON object of string values: its members, or the
/// text of the parse error.
pub uninterp spec fn json_string_map(text: Seq<char>) -> Result<Seq<(Seq<char>, Seq<char>)>, Seq<char>>;

/// The JSON text of an object with the given string members.
pub uninterp spec fn json_object_text(members: Seq<(Seq<char>, Seq<char>)>) -> Seq<char>;

/// A parse that succeeded and gives every name the value that `members` gives it (the
/// last one, for a name given twice).
pub open spec fn parses_to_members(parsed: Result<Seq<(Seq<char>, Seq<char>)>, Seq<char>>, members: Seq<(Seq<char>, Seq<char>)>) -> bool {
    parsed matches Ok(h) && forall|name: Seq<char>| #[trigger] lookup(h, name) == lookup(members, name)
}

/// The members, or the error text, as mathematical values.
pub open spec fn parsed_view(r: Result<Vec<(String, String)>, String>) -> Result<Seq<(Seq<char>, Seq<char>)>, Seq<char>> {
    match r {
        Ok(v) => Ok(pair_views(v@)),
        Err(m) => Err(m@),
    }
}

/// `serde_json::from_str` into a (sorted) map of strings, handed back as a list of
/// members; the result is named by [`json_string_map`].
#[verifier::external_body]
fn parse_json_string_map(text: &str) -> (r: Result<Vec<(String, String)>, String>)
    ensures
        parsed_view(r) == json_string_map(text@),
{
    match serde_json::from_str::<std::collections::BTreeMap<String, String>>(text) {
        Ok(m) => Ok(m.into_iter().collect()),
        Err(e) => Err(e.to_string()),
    }
}

/// `serde_json::to_string` of the members collected into a (sorted) map of strings,
/// named by [`json_object_text`]; a name given twice keeps its last value. Serializing a
/// map with string keys and string values cannot fail in serde_json, so the text always
/// comes back, and parsing it back into a map of strings gives each name the value it
/// was written with.
#[verifier::external_body]
fn json_text_of(members: &Vec<(String, String)>) -> (r: String)
    ensures
        r@ == json_object_text(pair_views(members@)),
        parses_to_members(json_string_map(r@), pair_views(members@)),
{
    let m: std::collections::BTreeMap<String, String> = members.iter().cloned().collect();
    serde_json::to_string(&m).unwrap_or_default()
}

// ---------------------------------------------------------------------------
// Entries
// ---------------------------------------------------------------------------

/// A file or directory: its bytes and its metadata.
pub struct FileEntry {
    pub data: Vec<u8>,
    pub metadata: FileMetadata,
}

/// The mathematical value of a [`FileEntry`].
pub struct EntryView {
    pub data: Seq<u8>,
    pub meta: MetaView,
}

impl View for FileEntry {
    type V = EntryView;

    open spec fn view(&self) -> EntryView {
        EntryView { data: self.data@, meta: self.metadata@ }
    }
}

/// A copy of a byte slice.
pub fn copy_bytes(v: &[u8]) -> (r: Vec<u8>)
    ensures
        r@ == v@,
{
    let mut out: Vec<u8> = Vec::new();
    let mut i: usize = 0;
    while i < v.len()
        invariant
            i <= v@.len(),
            out@ == v@.subrange(0, i as int),
        decreases v.len() - i,
    {
        out.push(v[i]);
        i = i + 1;
        proof {
            assert(out@ =~= v@.subrange(0, i as int));
        }
    }
    proof {
        assert(v@.subrange(0, i as int) =~= v@);
    }
    out
}

impl Clone for FileEntry {
    fn clone(&self) -> (r: Self)
        ensures
            r@ == self@,
    {
        FileEntry { data: copy_bytes(self.data.as_slice()), metadata: self.metadata.clone() }
    }
}

/// The type bits of `m` say directory.
pub open spec fn is_dir_meta(m: MetaView) -> bool {
    m.mode & S_IFMT == S_IFDIR
}

/// A directory entry just created at `path`.
pub open spec fn new_dir_entry(e: EntryView, path: Seq<char>) -> bool {
    e.data.len() == 0 && new_dir_meta(e.meta, path)
}

/// A file entry just created at `path` holding `data`, with `size` in its metadata.
pub open spec fn new_file_entry(e: EntryView, path: Seq<char>, data: Seq<u8>, size: u64) -> bool {
    e.data == data && new_file_meta(e.meta, path, size)
}

/// What checking a path's parent finds.
pub enum ParentCheck {
    Fine,
    Missing(Seq<char>),
    NotDir(Seq<char>),
}

/// The parent of `path`, unless it is the root, must exist and be a directory.
pub open spec fn parent_check(entries: Map<Seq<char>, EntryView>, path: Seq<char>) -> ParentCheck {
    match parent_of(path) {
        Some(p) => if p != "/"@ {
            if !entries.contains_key(path_key(p)) {
                ParentCheck::Missing(p)
            } else if !is_dir_meta(entries[path_key(p)].meta) {
                ParentCheck::NotDir(p)
            } else {
                ParentCheck::Fine
            }
        } else {
            ParentCheck::Fine
        },
        None => ParentCheck::Fine,
    }
}

/// The parent of `path` is one of the three top-level directories, where only the
/// filesystem itself creates files.
pub open spec fn in_reserved_dir(path: Seq<char>) -> bool {
    parent_of(path) matches Some(p) && (p == "/requests"@ || p == "/responses"@ || p == "/cache"@)
}

/// The parent of `path` is the root or a top-level directory, where directories may be
/// created.
pub open spec fn mkdir_parent_ok(path: Seq<char>) -> bool {
    parent_of(path) matches Some(p) ==> (p == "/"@ || p == "/requests"@ || p == "/responses"@
        || p == "/cache"@)
}

/// Writing `data` sends the request: it is UTF-8 whose trimmed text is `send`.
pub open spec fn is_send(data: Seq<u8>) -> bool {
    vstd::utf8::valid_utf8(data) && trim_spec(vstd::utf8::decode_utf8(data)) == "send"@
}

/// The last component of `path` is the name `trigger`.
pub open spec fn is_trigger_path(path: Seq<char>) -> bool {
    comps(path).len() > 0 && comps(path).last() == Comp::Normal("trigger"@)
}

/// `path` lies under `/responses/` (by components).
pub open spec fn in_responses(path: Seq<char>) -> bool {
    comps_prefix(comps("/responses/"@), comps(path))
}

/// What creating a file at a path finds.
pub enum CreateCheck {
    Fine,
    Missing(Seq<char>),
    NotDir(Seq<char>),
    Exists,
    Denied,
}

/// Creating a file needs its parent (see [`parent_check`]), no entry at the path, and a
/// parent that is not one of the top-level directories.
pub open spec fn create_check(entries: Map<Seq<char>, EntryView>, path: Seq<char>) -> CreateCheck {
    match parent_check(entries, path) {
        ParentCheck::Missing(p) => CreateCheck::Missing(p),
        ParentCheck::NotDir(p) => CreateCheck::NotDir(p),
        ParentCheck::Fine => if entries.contains_key(path_key(path)) {
            CreateCheck::Exists
        } else if in_reserved_dir(path) {
            CreateCheck::Denied
        } else {
            CreateCheck::Fine
        },
    }
}

/// `r` is the error that a failed creation check reports.
pub open spec fn create_error<T>(r: Result<T, FSError>, c: CreateCheck, path: Seq<char>) -> bool {
    match c {
        CreateCheck::Missing(p) => r matches Err(e) && not_found_for(e, p),
        CreateCheck::NotDir(p) => r matches Err(e) && not_dir_for(e, p),
        CreateCheck::Exists => r matches Err(e) && exists_for(e, path),
        CreateCheck::Denied => r matches Err(e) && denied_for(e, path),
        CreateCheck::Fine => false,
    }
}

/// The first normal-name component of `cs`.
pub open spec fn first_normal(cs: Seq<Comp>) -> Option<Seq<char>>
    decreases cs.len(),
{
    if cs.len() == 0 {
        None
    } else {
        match cs[0] {
            Comp::Normal(n) => Some(n),
            _ => first_normal(cs.drop_first()),
        }
    }
}

/// The name under which `key` shows in a listing of `prefix` (empty for the root): the
/// first normal component of what follows the prefix's components (of the whole key
/// when they are no prefix of its own), for keys whose text starts with the prefix.
pub open spec fn child_name(prefix: Seq<char>, key: Seq<char>) -> Option<Seq<char>> {
    if text_prefix(key, prefix) && key != prefix {
        let rel = if prefix.len() > 0 && comps_prefix(comps(prefix), comps(key)) {
            comps(key).skip(comps(prefix).len() as int)
        } else {
            comps(key)
        };
        first_normal(rel)
    } else {
        None
    }
}

/// The prefix that a listing of `path` matches keys against.
pub open spec fn listing_prefix(path: Seq<char>) -> Seq<char> {
    if path == "/"@ {
        Seq::empty()
    } else {
        path
    }
}

/// The path that a listed child gets.
pub open spec fn child_path(prefix: Seq<char>, name: Seq<char>) -> Seq<char> {
    if prefix.len() == 0 {
        push_path("/"@, name)
    } else {
        push_path(prefix, name)
    }
}

/// What a listing of `prefix` shows for the child `c` from the entry `e`: its metadata
/// under the child's path.
pub open spec fn http_shown(prefix: Seq<char>, c: Seq<char>, e: EntryView) -> MetaView {
    MetaView { path: child_path(prefix, c), ..e.meta }
}

/// `key` is the entry of the child `c` itself (not an entry further below it).
pub open spec fn is_child_entry(prefix: Seq<char>, key: Seq<char>, c: Seq<char>) -> bool {
    path_key(child_path(prefix, c)) == key
}

/// One pass of a listing over `entries` in order, from `start`: each entry whose child
/// name has not been seen (and, in the `own` pass, that is the child's own entry) shows
/// that child; with the set of names seen.
pub open spec fn http_pass(
    entries: Seq<(Seq<char>, EntryView)>,
    prefix: Seq<char>,
    own: bool,
    start: (Seq<MetaView>, Set<Seq<char>>),
) -> (Seq<MetaView>, Set<Seq<char>>)
    decreases entries.len(),
{
    if entries.len() == 0 {
        start
    } else {
        let (out, seen) = http_pass(entries.drop_last(), prefix, own, start);
        let e = entries.last();
        match child_name(prefix, e.0) {
            Some(c) => if seen.contains(c) || (own && !is_child_entry(prefix, e.0, c)) {
                (out, seen)
            } else {
                (out.push(http_shown(prefix, c, e.1)), seen.insert(c))
            },
            None => (out, seen),
        }
    }
}

/// A directory listing: first every child that has an entry of its own, with that
/// entry's metadata; then every other child name that some entry further below shows,
/// with the metadata of the first such entry; each name once.
pub open spec fn http_listing(entries: Seq<(Seq<char>, EntryView)>, prefix: Seq<char>) -> (Seq<MetaView>, Set<Seq<char>>) {
    http_pass(entries, prefix, false, http_pass(entries, prefix, true, (Seq::empty(), Set::empty())))
}

/// The names that one listing pass shows, in order (alongside [`http_pass`]).
pub open spec fn pass_names(
    entries: Seq<(Seq<char>, EntryView)>,
    prefix: Seq<char>,
    own: bool,
    start: (Seq<MetaView>, Set<Seq<char>>),
    names: Seq<Seq<char>>,
) -> Seq<Seq<char>>
    decreases entries.len(),
{
    if entries.len() == 0 {
        names
    } else {
        let rest = pass_names(entries.drop_last(), prefix, own, start, names);
        let seen = http_pass(entries.drop_last(), prefix, own, start).1;
        let e = entries.last();
        match child_name(prefix, e.0) {
            Some(c) => if seen.contains(c) || (own && !is_child_entry(prefix, e.0, c)) {
                rest
            } else {
                rest.push(c)
            },
            None => rest,
        }
    }
}

/// `v` lists the children of `prefix` in `m` under the names `ns`: each name once, each
/// shown from an entry of that child name, from the child's own entry when it has one;
/// every child name that an entry shows is listed.
pub open spec fn http_listed_by(ns: Seq<Seq<char>>, v: Seq<MetaView>, m: Map<Seq<char>, EntryView>, prefix: Seq<char>) -> bool {
    &&& ns.len() == v.len()
    &&& ns.no_duplicates()
    &&& forall|i: int| #![trigger ns[i]] 0 <= i < ns.len() ==> exists|k: Seq<char>| #[trigger] m.contains_key(k) && child_name(prefix, k) == Some(ns[i]) && v[i] == http_shown(prefix, ns[i], m[k])
    &&& forall|i: int| 0 <= i < ns.len() && m.contains_key(path_key(child_path(prefix, #[trigger] ns[i])))
        && child_name(prefix, path_key(child_path(prefix, ns[i]))) == Some(ns[i])
        ==> v[i] == http_shown(prefix, ns[i], m[path_key(child_path(prefix, ns[i]))])
    &&& forall|k: Seq<char>| #[trigger] m.contains_key(k) && child_name(prefix, k) is Some ==> ns.contains(child_name(prefix, k)->0)
}

/// `v` lists exactly the children of `prefix` in `m`, each once.
pub open spec fn http_shows(v: Seq<MetaView>, m: Map<Seq<char>, EntryView>, prefix: Seq<char>) -> bool {
    exists|ns: Seq<Seq<char>>| #[trigger] http_listed_by(ns, v, m, prefix)
}

proof fn lemma_pass(
    t: Seq<(Seq<char>, EntryView)>,
    prefix: Seq<char>,
    own: bool,
    start: (Seq<MetaView>, Set<Seq<char>>),
    ns0: Seq<Seq<char>>,
)
    requires
        start.0.len() == ns0.len(),
        ns0.no_duplicates(),
        start.1 == ns0.to_set(),
    ensures
        ({
            let r = http_pass(t, prefix, own, start);
            let ns = pass_names(t, prefix, own, start, ns0);
            &&& r.0.len() == ns.len()
            &&& ns.no_duplicates()
            &&& r.1 == ns.to_set()
            &&& ns.len() >= ns0.len()
            &&& forall|i: int| 0 <= i < ns0.len() ==> ns[i] == ns0[i] && #[trigger] r.0[i] == start.0[i]
            &&& forall|i: int| #![trigger ns[i]] ns0.len() <= i < ns.len() ==> exists|j: int| 0 <= j < t.len()
                && child_name(prefix, #[trigger] t[j].0) == Some(ns[i]) && r.0[i] == http_shown(prefix, ns[i], t[j].1)
                && (own ==> is_child_entry(prefix, t[j].0, ns[i]))
            &&& forall|j: int| 0 <= j < t.len() && #[trigger] child_name(prefix, t[j].0) is Some
                && (!own || is_child_entry(prefix, t[j].0, child_name(prefix, t[j].0)->0))
                ==> ns.contains(child_name(prefix, t[j].0)->0)
        }),
    decreases t.len(),
{
    if t.len() > 0 {
        let t0 = t.drop_last();
        lemma_pass(t0, prefix, own, start, ns0);
        let r0 = http_pass(t0, prefix, own, start);
        let n0 = pass_names(t0, prefix, own, start, ns0);
        let r = http_pass(t, prefix, own, start);
        let ns = pass_names(t, prefix, own, start, ns0);
        let e = t.last();
        let last = t.len() - 1;
        assert(t[last] == e);
        assert forall|j: int| 0 <= j < t0.len() implies #[trigger] t[j] == t0[j] by {}
        match child_name(prefix, e.0) {
            Some(c) => {
                if r0.1.contains(c) || (own && !is_child_entry(prefix, e.0, c)) {
                    assert(r == r0 && ns == n0);
                    assert forall|i: int| #![trigger ns[i]] ns0.len() <= i < ns.len() implies exists|j: int| 0 <= j < t.len()
                        && child_name(prefix, #[trigger] t[j].0) == Some(ns[i]) && r.0[i] == http_shown(prefix, ns[i], t[j].1)
                        && (own ==> is_child_entry(prefix, t[j].0, ns[i])) by {
                        let j = choose|j: int| 0 <= j < t0.len()
                            && child_name(prefix, #[trigger] t0[j].0) == Some(n0[i]) && r0.0[i] == http_shown(prefix, n0[i], t0[j].1)
                            && (own ==> is_child_entry(prefix, t0[j].0, n0[i]));
                        assert(t[j] == t0[j]);
                    }
                    assert forall|j: int| 0 <= j < t.len() && #[trigger] child_name(prefix, t[j].0) is Some
                        && (!own || is_child_entry(prefix, t[j].0, child_name(prefix, t[j].0)->0))
                        implies ns.contains(child_name(prefix, t[j].0)->0) by {
                        if j < t0.len() {
                            assert(t[j] == t0[j]);
                            assert(child_name(prefix, t0[j].0) is Some);
                        } else {
                            assert(j == last);
                            assert(r0.1.contains(c));
                            assert(n0.to_set().contains(c));
                        }
                    }
                } else {
                    assert(r == (r0.0.push(http_shown(prefix, c, e.1)), r0.1.insert(c)));
                    assert(ns == n0.push(c));
                    assert(!n0.to_set().contains(c));
                    assert(!n0.contains(c));
                    assert(ns.no_duplicates()) by {
                        assert forall|a: int, b: int| 0 <= a < ns.len() && 0 <= b < ns.len() && a != b implies ns[a] != ns[b] by {
                            if a < n0.len() && b < n0.len() {
                                assert(ns[a] == n0[a] && ns[b] == n0[b]);
                            } else if a < n0.len() {
                                assert(ns[a] == n0[a]);
                                assert(n0.contains(ns[a]));
                            } else if b < n0.len() {
                                assert(ns[b] == n0[b]);
                                assert(n0.contains(ns[b]));
                            }
                        }
                    }
                    assert(r.1 =~= ns.to_set()) by {
                        assert forall|x: Seq<char>| r.1.contains(x) <==> ns.to_set().contains(x) by {
                            if n0.contains(x) {
                                let q = choose|q: int| 0 <= q < n0.len() && n0[q] == x;
                                assert(ns[q] == x);
                            }
                            if x == c {
                                assert(ns[ns.len() - 1] == c);
                            }
                            if ns.contains(x) {
                                let q = choose|q: int| 0 <= q < ns.len() && ns[q] == x;
                                if q < n0.len() {
                                    assert(ns[q] == n0[q]);
                                    assert(n0.contains(x));
                                }
                            }
                        }
                    }
                    assert forall|i: int| 0 <= i < ns0.len() implies ns[i] == ns0[i] && #[trigger] r.0[i] == start.0[i] by {
                        assert(ns[i] == n0[i] && r.0[i] == r0.0[i]);
                    }
                    assert forall|i: int| #![trigger ns[i]] ns0.len() <= i < ns.len() implies exists|j: int| 0 <= j < t.len()
                        && child_name(prefix, #[trigger] t[j].0) == Some(ns[i]) && r.0[i] == http_shown(prefix, ns[i], t[j].1)
                        && (own ==> is_child_entry(prefix, t[j].0, ns[i])) by {
                        if i < n0.len() {
                            let j = choose|j: int| 0 <= j < t0.len()
                                && child_name(prefix, #[trigger] t0[j].0) == Some(n0[i]) && r0.0[i] == http_shown(prefix, n0[i], t0[j].1)
                                && (own ==> is_child_entry(prefix, t0[j].0, n0[i]));
                            assert(t[j] == t0[j]);
                            assert(ns[i] == n0[i] && r.0[i] == r0.0[i]);
                        } else {
                            assert(child_name(prefix, t[last].0) == Some(ns[i]));
                        }
                    }
                    assert forall|j: int| 0 <= j < t.len() && #[trigger] child_name(prefix, t[j].0) is Some
                        && (!own || is_child_entry(prefix, t[j].0, child_name(prefix, t[j].0)->0))
                        implies ns.contains(child_name(prefix, t[j].0)->0) by {
                        if j < t0.len() {
                            assert(t[j] == t0[j]);
                            assert(child_name(prefix, t0[j].0) is Some);
                            let x = child_name(prefix, t0[j].0)->0;
                            assert(n0.contains(x));
                            let q = choose|q: int| 0 <= q < n0.len() && n0[q] == x;
                            assert(ns[q] == x);
                        } else {
                            assert(ns[ns.len() - 1] == c);
                        }
                    }
                }
            },
            None => {
                assert(r == r0 && ns == n0);
                assert forall|i: int| #![trigger ns[i]] ns0.len() <= i < ns.len() implies exists|j: int| 0 <= j < t.len()
                    && child_name(prefix, #[trigger] t[j].0) == Some(ns[i]) && r.0[i] == http_shown(prefix, ns[i], t[j].1)
                    && (own ==> is_child_entry(prefix, t[j].0, ns[i])) by {
                    let j = choose|j: int| 0 <= j < t0.len()
                        && child_name(prefix, #[trigger] t0[j].0) == Some(n0[i]) && r0.0[i] == http_shown(prefix, n0[i], t0[j].1)
                        && (own ==> is_child_entry(prefix, t0[j].0, n0[i]));
                    assert(t[j] == t0[j]);
                }
                assert forall|j: int| 0 <= j < t.len() && #[trigger] child_name(prefix, t[j].0) is Some
                    && (!own || is_child_entry(prefix, t[j].0, child_name(prefix, t[j].0)->0))
                    implies ns.contains(child_name(prefix, t[j].0)->0) by {
                    if j < t0.len() {
                        assert(t[j] == t0[j]);
                        assert(child_name(prefix, t0[j].0) is Some);
                    }
                }
            },
        }
    } else {
        assert(ns0.to_set() =~= start.1);
    }
}

/// Listing a directory shows what it holds: over a listing order that holds each entry
/// once and, read as a map, is the entries, a listing of `prefix` shows every child name
/// once, each from an entry of that name, and a child that has an entry of its own with
/// that entry's metadata.
pub proof fn lemma_http_listing_shows(l: Seq<(Seq<char>, EntryView)>, m: Map<Seq<char>, EntryView>, prefix: Seq<char>)
    requires
        lists_map(l, m),
    ensures
        http_shows(http_listing(l, prefix).0, m, prefix),
{
    let s0 = (Seq::<MetaView>::empty(), Set::<Seq<char>>::empty());
    let e0 = Seq::<Seq<char>>::empty();
    assert(e0.to_set() =~= s0.1);
    lemma_pass(l, prefix, true, s0, e0);
    let r1 = http_pass(l, prefix, true, s0);
    let ns1 = pass_names(l, prefix, true, s0, e0);
    lemma_pass(l, prefix, false, r1, ns1);
    let r = http_pass(l, prefix, false, r1);
    let ns = pass_names(l, prefix, false, r1, ns1);
    let v = r.0;
    assert(http_listing(l, prefix) == r);
    assert forall|j: int| 0 <= j < l.len() implies m.contains_key(#[trigger] l[j].0) && m[l[j].0] == l[j].1 by {
        crate::strmap::lemma_lookup_at(l, j);
    }
    assert forall|i: int| #![trigger ns[i]] 0 <= i < ns.len() implies exists|k: Seq<char>| #[trigger] m.contains_key(k) && child_name(prefix, k) == Some(ns[i]) && v[i] == http_shown(prefix, ns[i], m[k]) by {
        if i < ns1.len() {
            assert(ns[i] == ns1[i] && v[i] == r1.0[i]);
            let j = choose|j: int| 0 <= j < l.len()
                && child_name(prefix, #[trigger] l[j].0) == Some(ns1[i]) && r1.0[i] == http_shown(prefix, ns1[i], l[j].1)
                && (true ==> is_child_entry(prefix, l[j].0, ns1[i]));
            assert(m.contains_key(l[j].0));
        } else {
            let j = choose|j: int| 0 <= j < l.len()
                && child_name(prefix, #[trigger] l[j].0) == Some(ns[i]) && v[i] == http_shown(prefix, ns[i], l[j].1)
                && (false ==> is_child_entry(prefix, l[j].0, ns[i]));
            assert(m.contains_key(l[j].0));
        }
    }
    assert forall|i: int| 0 <= i < ns.len() && m.contains_key(path_key(child_path(prefix, #[trigger] ns[i])))
        && child_name(prefix, path_key(child_path(prefix, ns[i]))) == Some(ns[i])
        implies v[i] == http_shown(prefix, ns[i], m[path_key(child_path(prefix, ns[i]))]) by {
        let kc = path_key(child_path(prefix, ns[i]));
        if i < ns1.len() {
            assert(ns[i] == ns1[i] && v[i] == r1.0[i]);
            let j = choose|j: int| 0 <= j < l.len()
                && child_name(prefix, #[trigger] l[j].0) == Some(ns1[i]) && r1.0[i] == http_shown(prefix, ns1[i], l[j].1)
                && (true ==> is_child_entry(prefix, l[j].0, ns1[i]));
            assert(l[j].0 == kc);
        } else {
            crate::strmap::lemma_lookup_some(l, kc);
            let jj = choose|jj: int| 0 <= jj < l.len() && l[jj].0 == kc && l[jj].1 == lookup(l, kc)->0;
            assert(child_name(prefix, l[jj].0) is Some);
            assert(is_child_entry(prefix, l[jj].0, child_name(prefix, l[jj].0)->0));
            assert(ns1.contains(ns[i]));
            let q = choose|q: int| 0 <= q < ns1.len() && ns1[q] == ns[i];
            assert(ns[q] == ns1[q]);
            assert(false);
        }
    }
    assert forall|k: Seq<char>| #[trigger] m.contains_key(k) && child_name(prefix, k) is Some implies ns.contains(child_name(prefix, k)->0) by {
        crate::strmap::lemma_lookup_some(l, k);
        let jj = choose|jj: int| 0 <= jj < l.len() && l[jj].0 == k && l[jj].1 == lookup(l, k)->0;
        assert(child_name(prefix, l[jj].0) is Some);
    }
    assert(http_listed_by(ns, v, m, prefix));
}

proof fn lemma_listing_is_entries(fs: &HttpFS)
    requires
        fs.files.wf(),
    ensures
        lists_map(fs.listing(), fs.entries()),
{
    let p = fs.files.pairs();
    let g = |e: (Seq<char>, FileEntry)| (e.0, e.1@);
    let l = fs.listing();
    assert(l == p.map_values(g));
    assert(distinct_keys(l)) by {
        assert forall|i: int, j: int| 0 <= i < l.len() && 0 <= j < l.len() && i != j implies l[i].0 != l[j].0 by {
            assert(l[i].0 == p[i].0 && l[j].0 == p[j].0);
        }
    }
    assert forall|k: Seq<char>| #[trigger] as_map(l).contains_key(k) == fs.entries().contains_key(k) && (as_map(l).contains_key(k) ==> as_map(l)[k] == fs.entries()[k]) by {
        crate::strmap::lemma_lookup_mapped(p, g, k);
    }
    assert(as_map(l) =~= fs.entries());
}

/// The names a list of names holds.
pub open spec fn names_set(v: Seq<String>) -> Set<Seq<char>> {
    Set::new(|x: Seq<char>| exists|j: int| 0 <= j < v.len() && #[trigger] v[j]@ == x)
}

/// `q` lies strictly below `path`.
pub open spec fn strictly_under(path: Seq<char>, q: Seq<char>) -> bool {
    under(path, q) && !under(q, path)
}

/// `content` cut or padded with zeros to `size` bytes.
pub open spec fn resized(content: Seq<u8>, size: u64) -> Seq<u8> {
    if size <= content.len() {
        content.subrange(0, size as int)
    } else {
        content + Seq::new((size - content.len()) as nat, |i: int| 0u8)
    }
}

/// The content after a plain write: padded with zeros up to the offset and extended
/// when appending or writing at or past the end (a negative offset appends); otherwise
/// the bytes from `offset` on are overwritten and the rest kept (see [`write_spec`]).
pub open spec fn http_write_spec(d: Seq<u8>, data: Seq<u8>, offset: i64, append: bool) -> Seq<u8> {
    if append || offset < 0 || offset >= d.len() {
        let end = read_start(offset);
        if end > d.len() {
            d + Seq::new((end - d.len()) as nat, |i: int| 0u8) + data
        } else {
            d + data
        }
    } else {
        write_spec(d, data, offset, false)
    }
}

pub open spec fn meta_views(v: Seq<FileMetadata>) -> Seq<MetaView> {
    Seq::new(v.len(), |i: int| v[i]@)
}

fn lit(s: &str) -> (r: String)
    ensures
        r@ == s@,
{
    owned(s)
}

/// Whether the last component of `path` is the name `trigger`.
fn ends_with_trigger(path: &str) -> (r: bool)
    ensures
        r == is_trigger_path(path@),
{
    let cs = components(path);
    proof {
        reveal_strlit("trigger");
    }
    if cs.len() == 0 {
        return false;
    }
    proof {
        assert(comps(path@).last() == cs@[cs@.len() - 1].model());
    }
    match &cs[cs.len() - 1] {
        Component::Normal(n) => same_text(n.as_str(), "trigger"),
        _ => false,
    }
}

/// Whether `data` is UTF-8 whose trimmed text is `send`.
fn is_send_exec(data: &[u8]) -> (r: bool)
    ensures
        r == is_send(data@),
{
    proof {
        reveal_strlit("send");
    }
    match crate::text::decode_utf8(data) {
        Some(s) => {
            let t = crate::text::trim_str(s.as_str());
            same_text(t.as_str(), "send")
        },
        None => false,
    }
}

/// The name under which `key` shows in a listing of `prefix`.
fn child_name_exec(prefix: &str, key: &str) -> (r: Option<String>)
    ensures
        match r {
            Some(n) => child_name(prefix@, key@) == Some(n@),
            None => child_name(prefix@, key@) is None,
        },
{
    if !has_prefix(key, prefix) || same_text(key, prefix) {
        return None;
    }
    let kc = components(key);
    let ghost cs = comps(key@);
    let mut i: usize = 0;
    if !prefix.is_empty() && starts_with_path(key, prefix) {
        i = components(prefix).len();
    }
    let ghost rel = cs.skip(i as int);
    proof {
        if !(prefix@.len() > 0 && comps_prefix(comps(prefix@), comps(key@))) {
            assert(rel =~= cs);
        }
        assert(child_name(prefix@, key@) == first_normal(rel));
    }
    while i < kc.len()
        invariant
            crate::path::comp_models(kc@) == cs,
            cs.len() == kc@.len(),
            i <= kc@.len(),
            first_normal(rel) == first_normal(cs.skip(i as int)),
            child_name(prefix@, key@) == first_normal(rel),
        decreases kc.len() - i,
    {
        proof {
            assert(cs.skip(i as int)[0] == kc@[i as int].model());
            assert(cs.skip(i as int).drop_first() =~= cs.skip(i + 1));
        }
        match &kc[i] {
            Component::Normal(n) => {
                proof {
                    assert(first_normal(cs.skip(i as int)) == Some(n@));
                }
                return Some(n.clone());
            },
            _ => {},
        }
        i = i + 1;
    }
    proof {
        assert(cs.skip(i as int) =~= Seq::<Comp>::empty());
    }
    None
}

/// HTTP client filesystem.
pub struct HttpFS {
    files: StrMap<FileEntry>,
    pending: Vec<String>,
}

impl HttpFS {
    #[verifier::type_invariant]
    spec fn inv(self) -> bool {
        self.files.wf()
    }

    /// The entries by key.
    pub closed spec fn entries(&self) -> Map<Seq<char>, EntryView> {
        self.files.map().map_values(|e: FileEntry| e@)
    }

    /// The entries in the order in which a directory listing visits them.
    pub closed spec fn listing(&self) -> Seq<(Seq<char>, EntryView)> {
        self.files.pairs().map_values(|e: (Seq<char>, FileEntry)| (e.0, e.1@))
    }

    /// The requests that triggers asked to send and that have not been taken yet, in
    /// the order in which they were asked for.
    pub closed spec fn pending_requests(&self) -> Seq<Seq<char>> {
        self.pending@.map_values(|s: String| s@)
    }

    fn take_files(&mut self) -> (r: StrMap<FileEntry>)
        ensures
            r.wf(),
            r == old(self).files,
            final(self).files.pairs() == Seq::<(Seq<char>, FileEntry)>::empty(),
            final(self).pending == old(self).pending,
    {
        proof {
            use_type_invariant(&*self);
        }
        let mut f: StrMap<FileEntry> = StrMap::new();
        std::mem::swap(&mut f, &mut self.files);
        f
    }

    fn put_files(&mut self, f: StrMap<FileEntry>)
        requires
            f.wf(),
        ensures
            final(self).files == f,
            final(self).pending == old(self).pending,
    {
        self.files = f;
    }

    /// Puts `entry` under the key of `path`.
    fn put_entry(&mut self, path: &str, entry: FileEntry)
        ensures
            final(self).entries() == old(self).entries().insert(path_key(path@), entry@),
            final(self).pending_requests() == old(self).pending_requests(),
    {
        let key = path_key_of(path);
        let mut f = self.take_files();
        f.insert(key, entry);
        self.put_files(f);
        proof {
            assert(self.entries() =~= old(self).entries().insert(path_key(path@), entry@));
        }
    }

    /// Puts a fresh directory at `path` under the key `key`.
    fn put_dir_at_key(&mut self, key: &str, path: &str)
        ensures
            final(self).entries() == old(self).entries().insert(key@, final(self).entries()[key@]),
            new_dir_entry(final(self).entries()[key@], path@),
            final(self).pending_requests() == old(self).pending_requests(),
    {
        let entry = FileEntry { data: Vec::new(), metadata: FileMetadata::directory(owned(path)) };
        let mut f = self.take_files();
        f.insert(owned(key), entry);
        self.put_files(f);
        proof {
            assert(self.entries() =~= old(self).entries().insert(key@, self.entries()[key@]));
        }
    }

    /// Puts a fresh directory at `path`.
    fn put_dir(&mut self, path: &str)
        ensures
            final(self).entries().dom() == old(self).entries().dom().insert(path_key(path@)),
            forall|k: Seq<char>| k != path_key(path@) && old(self).entries().contains_key(k) ==> #[trigger] final(self).entries()[k] == old(self).entries()[k],
            new_dir_entry(final(self).entries()[path_key(path@)], path@),
            final(self).pending_requests() == old(self).pending_requests(),
    {
        let entry = FileEntry { data: Vec::new(), metadata: FileMetadata::directory(owned(path)) };
        self.put_entry(path, entry);
    }

    /// Puts a fresh file at `path` holding `data`, with `size` in its metadata.
    fn put_file(&mut self, path: &str, data: Vec<u8>, size: u64)
        ensures
            final(self).entries().dom() == old(self).entries().dom().insert(path_key(path@)),
            forall|k: Seq<char>| k != path_key(path@) && old(self).entries().contains_key(k) ==> #[trigger] final(self).entries()[k] == old(self).entries()[k],
            new_file_entry(final(self).entries()[path_key(path@)], path@, data@, size),
            final(self).pending_requests() == old(self).pending_requests(),
    {
        let ghost d = data@;
        let entry = FileEntry { data, metadata: FileMetadata::file(owned(path), size) };
        self.put_entry(path, entry);
    }

    /// A filesystem with the directories `/`, `/requests`, `/responses` and `/cache`.
    pub fn new() -> (r: Self)
        ensures
            r.entries().dom() == set!["/"@, "/requests"@, "/responses"@, "/cache"@],
            new_dir_entry(r.entries()["/"@], "/"@),
            new_dir_entry(r.entries()["/requests"@], "/requests"@),
            new_dir_entry(r.entries()["/responses"@], "/responses"@),
            new_dir_entry(r.entries()["/cache"@], "/cache"@),
            r.pending_requests() == Seq::<Seq<char>>::empty(),
    {
        let mut fs = HttpFS { files: StrMap::new(), pending: Vec::new() };
        proof {
            assert(fs.entries() =~= Map::<Seq<char>, EntryView>::empty());
        }
        fs.init_directories();
        proof {
            assert(fs.entries().dom() =~= set!["/"@, "/requests"@, "/responses"@, "/cache"@]);
        }
        fs
    }

    /// Initialize the top-level directories.
    fn init_directories(&mut self)
        ensures
            final(self).entries().dom() == old(self).entries().dom().insert("/"@).insert("/requests"@).insert("/responses"@).insert("/cache"@),
            new_dir_entry(final(self).entries()["/"@], "/"@),
            new_dir_entry(final(self).entries()["/requests"@], "/requests"@),
            new_dir_entry(final(self).entries()["/responses"@], "/responses"@),
            new_dir_entry(final(self).entries()["/cache"@], "/cache"@),
            final(self).pending_requests() == old(self).pending_requests(),
    {
        self.put_dir_at_key("/", "/");
        self.put_dir_at_key("/requests", "/requests");
        self.put_dir_at_key("/responses", "/responses");
        self.put_dir_at_key("/cache", "/cache");
        proof {
            reveal_strlit("/");
            reveal_strlit("/requests");
            reveal_strlit("/responses");
            reveal_strlit("/cache");
        }
    }

    /// The entry at `path`, if any.
    fn entry_ref(&self, path: &str) -> (r: Option<&FileEntry>)
        ensures
            r is Some <==> self.entries().contains_key(path_key(path@)),
            r matches Some(e) ==> e@ == self.entries()[path_key(path@)],
    {
        proof {
            use_type_invariant(self);
        }
        let key = path_key_of(path);
        self.files.get(key.as_str())
    }

    /// A copy of the entry at `path`.
    pub fn get_entry(&self, path: &str) -> (r: Result<FileEntry, FSError>)
        ensures
            self.entries().contains_key(path_key(path@)) ==> (r matches Ok(e) && e@ == self.entries()[path_key(path@)]),
            !self.entries().contains_key(path_key(path@)) ==> (r matches Err(e) && not_found_for(e, path@)),
    {
        match self.entry_ref(path) {
            Some(e) => Ok(e.clone()),
            None => Err(FSError::not_found(path)),
        }
    }

    /// Checks that the parent of `path` (unless it is the root) exists and is a directory.
    pub fn ensure_parent_exists(&self, path: &str) -> (r: Result<(), FSError>)
        ensures
            parent_check(self.entries(), path@) is Fine ==> r is Ok,
            parent_check(self.entries(), path@) matches ParentCheck::Missing(p) ==> (r matches Err(e) && not_found_for(e, p)),
            parent_check(self.entries(), path@) matches ParentCheck::NotDir(p) ==> (r matches Err(e) && not_dir_for(e, p)),
    {
        proof {
            reveal_strlit("/");
        }
        match parent(path) {
            Some(p) => {
                if same_text(p.as_str(), "/") {
                    return Ok(());
                }
                match self.entry_ref(p.as_str()) {
                    None => Err(FSError::not_found(p.as_str())),
                    Some(e) => {
                        if !e.metadata.is_directory() {
                            Err(FSError::not_a_directory(p.as_str()))
                        } else {
                            Ok(())
                        }
                    },
                }
            },
            None => Ok(()),
        }
    }

    /// The bytes of the file at `path`.
    pub fn read_bytes_sync(&self, path: &str) -> (r: Result<Vec<u8>, FSError>)
        ensures
            !self.entries().contains_key(path_key(path@)) ==> (r matches Err(e) && not_found_for(e, path@)),
            self.entries().contains_key(path_key(path@)) && is_dir_meta(self.entries()[path_key(path@)].meta) ==> (r matches Err(e) && is_dir_for(e, path@)),
            self.entries().contains_key(path_key(path@)) && !is_dir_meta(self.entries()[path_key(path@)].meta) ==> (r matches Ok(v) && v@ == self.entries()[path_key(path@)].data),
    {
        match self.entry_ref(path) {
            None => Err(FSError::not_found(path)),
            Some(e) => {
                if e.metadata.is_directory() {
                    Err(FSError::is_directory(path))
                } else {
                    Ok(copy_bytes(e.data.as_slice()))
                }
            },
        }
    }

    /// The text of the file at `path`, which must be UTF-8.
    pub fn read_to_string_sync(&self, path: &str) -> (r: Result<String, FSError>)
        ensures
            !self.entries().contains_key(path_key(path@)) ==> (r matches Err(e) && not_found_for(e, path@)),
            self.entries().contains_key(path_key(path@)) && is_dir_meta(self.entries()[path_key(path@)].meta) ==> (r matches Err(e) && is_dir_for(e, path@)),
            self.entries().contains_key(path_key(path@)) && !is_dir_meta(self.entries()[path_key(path@)].meta) ==> {
                let d = self.entries()[path_key(path@)].data;
                &&& vstd::utf8::valid_utf8(d) ==> (r matches Ok(s) && s@ == vstd::utf8::decode_utf8(d))
                &&& !vstd::utf8::valid_utf8(d) ==> (r matches Err(e) && e is InvalidUtf8)
            },
    {
        let data = self.read_bytes_sync(path)?;
        match crate::error::string_from_utf8(data) {
            Ok(s) => Ok(s),
            Err(e) => Err(FSError::from_utf8_error(e)),
        }
    }

    /// Takes the oldest request that a trigger asked to send, if any.
    pub fn take_pending_request(&mut self) -> (r: Option<String>)
        ensures
            match r {
                Some(s) => old(self).pending_requests().len() > 0 && s@ == old(self).pending_requests()[0]
                    && final(self).pending_requests() == old(self).pending_requests().drop_first(),
                None => old(self).pending_requests().len() == 0 && final(self).pending_requests() == old(self).pending_requests(),
            },
            final(self).entries() == old(self).entries(),
    {
        proof {
            use_type_invariant(&*self);
        }
        if self.pending.len() == 0 {
            return None;
        }
        let ghost before = self.pending@;
        let mut queue: Vec<String> = Vec::new();
        std::mem::swap(&mut queue, &mut self.pending);
        let first = queue.remove(0);
        self.pending = queue;
        proof {
            assert(self.pending@.map_values(|s: String| s@) =~= before.map_values(|s: String| s@).drop_first());
        }
        Some(first)
    }
}

impl HttpFS {
    /// One pass of a listing of `prefix` (see [`http_pass`]): appends to `out` and `seen`.
    fn listing_pass(&self, prefix: &str, own: bool, out: &mut Vec<FileMetadata>, seen: &mut Vec<String>)
        ensures
            (meta_views(final(out)@), names_set(final(seen)@)) == http_pass(
                self.listing(),
                prefix@,
                own,
                (meta_views(old(out)@), names_set(old(seen)@)),
            ),
    {
        proof {
            use_type_invariant(self);
            reveal_strlit("/");
        }
        let ghost entries = self.listing();
        let ghost start = (meta_views(out@), names_set(seen@));
        let n = self.files.len();
        let mut i: usize = 0;
        proof {
            assert(entries.subrange(0, 0) =~= Seq::<(Seq<char>, EntryView)>::empty());
        }
        while i < n
            invariant
                i <= n,
                n == self.files.pairs().len(),
                entries == self.listing(),
                entries.len() == n,
                (meta_views(out@), names_set(seen@)) == http_pass(entries.subrange(0, i as int), prefix@, own, start),
            decreases n - i,
        {
            let (k, e) = self.files.entry_at(i);
            proof {
                let t = entries.subrange(0, i + 1);
                assert(t.drop_last() =~= entries.subrange(0, i as int));
                assert(t.last() == (k@, e@));
            }
            match child_name_exec(prefix, k.as_str()) {
                Some(c) => {
                    let mut found = false;
                    let mut j: usize = 0;
                    while j < seen.len()
                        invariant
                            j <= seen@.len(),
                            found <==> exists|q: int| 0 <= q < j && #[trigger] seen@[q]@ == c@,
                        decreases seen.len() - j,
                    {
                        if same_text(seen[j].as_str(), c.as_str()) {
                            found = true;
                        }
                        j = j + 1;
                    }
                    proof {
                        assert(found == names_set(seen@).contains(c@));
                    }
                    let mut child = if prefix.is_empty() {
                        lit("/")
                    } else {
                        owned(prefix)
                    };
                    push_onto(&mut child, c.as_str());
                    proof {
                        assert(child@ == child_path(prefix@, c@));
                    }
                    let skip = found || (own && !same_text(path_key_of(child.as_str()).as_str(), k.as_str()));
                    if !skip {
                        let mut m = e.metadata.clone();
                        m.path = child;
                        let ghost before = meta_views(out@);
                        let ghost old_seen = seen@;
                        let ghost cv = c@;
                        out.push(m);
                        seen.push(c);
                        proof {
                            assert(meta_views(out@) =~= before.push(http_shown(prefix@, cv, e@)));
                            assert(names_set(seen@) =~= names_set(old_seen).insert(cv)) by {
                                assert forall|x: Seq<char>| names_set(seen@).contains(x) <==> names_set(old_seen).insert(cv).contains(x) by {
                                    if names_set(old_seen).contains(x) {
                                        let q = choose|q: int| 0 <= q < old_seen.len() && #[trigger] old_seen[q]@ == x;
                                        assert(seen@[q] == old_seen[q]);
                                    }
                                    if x == cv {
                                        assert(seen@[seen@.len() - 1]@ == x);
                                    }
                                    if names_set(seen@).contains(x) {
                                        let q = choose|q: int| 0 <= q < seen@.len() && #[trigger] seen@[q]@ == x;
                                        if q < old_seen.len() {
                                            assert(seen@[q] == old_seen[q]);
                                        }
                                    }
                                }
                            }
                        }
                    }
                },
                None => {},
            }
            i = i + 1;
        }
        proof {
            assert(entries.subrange(0, n as int) =~= entries);
        }
    }
}

impl Default for HttpFS {
    fn default() -> (r: Self)
        ensures
            r.entries().dom() == set!["/"@, "/requests"@, "/responses"@, "/cache"@],
            r.pending_requests() == Seq::<Seq<char>>::empty(),
    {
        HttpFS::new()
    }
}

impl ReadFS for HttpFS {
    /// A read of a file must not overflow `offset + size`, nor end before the start of
    /// data it starts inside.
    open spec fn read_allowed(&self, path: Seq<char>, offset: i64, size: i64) -> bool {
        self.entries().contains_key(path_key(path)) && !is_dir_meta(self.entries()[path_key(path)].meta) ==> read_args_ok(
            offset,
            size,
            self.entries()[path_key(path)].data.len(),
        )
    }

    fn read(&self, path: &str, offset: i64, size: i64) -> (r: Result<Vec<u8>, FSError>)
        ensures
            !self.entries().contains_key(path_key(path@)) ==> (r matches Err(e) && not_found_for(e, path@)),
            self.entries().contains_key(path_key(path@)) && is_dir_meta(self.entries()[path_key(path@)].meta) ==> (r matches Err(e) && is_dir_for(e, path@)),
            self.entries().contains_key(path_key(path@)) && !is_dir_meta(self.entries()[path_key(path@)].meta) ==> (r matches Ok(v) && v@ == read_range_spec(self.entries()[path_key(path@)].data, offset, size)),
    {
        match self.entry_ref(path) {
            None => Err(FSError::not_found(path)),
            Some(e) => {
                if e.metadata.is_directory() {
                    Err(FSError::is_directory(path))
                } else {
                    Ok(read_range(e.data.as_slice(), offset, size))
                }
            },
        }
    }

    fn stat(&self, path: &str) -> (r: Result<FileMetadata, FSError>)
        ensures
            self.entries().contains_key(path_key(path@)) ==> (r matches Ok(m) && m@ == self.entries()[path_key(path@)].meta),
            !self.entries().contains_key(path_key(path@)) ==> (r matches Err(e) && not_found_for(e, path@)),
    {
        match self.entry_ref(path) {
            None => Err(FSError::not_found(path)),
            Some(e) => Ok(e.metadata.clone()),
        }
    }
}

impl WriteFS for HttpFS {
    /// A write must fit in memory: padding to the offset plus the data, and the old
    /// content plus the data.
    open spec fn write_allowed(&self, path: Seq<char>, data_len: nat, offset: i64, flags: WriteFlags) -> bool {
        self.entries().contains_key(path_key(path)) ==> read_start(offset) + data_len <= usize::MAX
            && self.entries()[path_key(path)].data.len() + data_len <= usize::MAX
    }

    fn create(&mut self, path: &str) -> (r: Result<(), FSError>)
        ensures
            create_check(old(self).entries(), path@) is Fine ==> r is Ok && final(self).entries() == old(self).entries().insert(path_key(path@), final(self).entries()[path_key(path@)])
                && new_file_entry(final(self).entries()[path_key(path@)], path@, Seq::empty(), 0),
            !(create_check(old(self).entries(), path@) is Fine) ==> create_error(r, create_check(old(self).entries(), path@), path@) && final(self).entries() == old(self).entries(),
            final(self).pending_requests() == old(self).pending_requests(),
    {
        self.ensure_parent_exists(path)?;
        if self.entry_ref(path).is_some() {
            return Err(FSError::already_exists(path));
        }
        proof {
            reveal_strlit("/requests");
            reveal_strlit("/responses");
            reveal_strlit("/cache");
        }
        match parent(path) {
            Some(p) => {
                if same_text(p.as_str(), "/requests") || same_text(p.as_str(), "/responses") || same_text(p.as_str(), "/cache") {
                    return Err(FSError::permission_denied(path));
                }
            },
            None => {},
        }
        self.put_file(path, Vec::new(), 0);
        proof {
            assert(self.entries() =~= old(self).entries().insert(path_key(path@), self.entries()[path_key(path@)]));
        }
        Ok(())
    }

    fn write(&mut self, path: &str, data: &[u8], offset: i64, flags: WriteFlags) -> (r: Result<u64, FSError>)
        ensures
            !old(self).entries().contains_key(path_key(path@)) ==> (r matches Err(e) && not_found_for(e, path@))
                && final(self).entries() == old(self).entries() && final(self).pending_requests() == old(self).pending_requests(),
            old(self).entries().contains_key(path_key(path@)) && is_dir_meta(old(self).entries()[path_key(path@)].meta) ==> (r matches Err(e) && is_dir_for(e, path@))
                && final(self).entries() == old(self).entries() && final(self).pending_requests() == old(self).pending_requests(),
            old(self).entries().contains_key(path_key(path@)) && !is_dir_meta(old(self).entries()[path_key(path@)].meta) ==> {
                let k = path_key(path@);
                let old_e = old(self).entries()[k];
                let new_e = final(self).entries()[k];
                let content = http_write_spec(old_e.data, data@, offset, has_bits(flags.spec_bits(), WriteFlags::APPEND));
                &&& is_trigger_path(path@) && is_send(data@) ==> r == Ok::<u64, FSError>(data@.len() as u64)
                    && final(self).entries() == old(self).entries()
                    && final(self).pending_requests() == match request_id_spec(path@) {
                        Ok(id) => old(self).pending_requests().push(id),
                        Err(_) => old(self).pending_requests(),
                    }
                &&& !(is_trigger_path(path@) && is_send(data@)) && in_responses(path@) ==> (r matches Err(e) && e is ReadOnly)
                    && final(self).entries() == old(self).entries() && final(self).pending_requests() == old(self).pending_requests()
                &&& !(is_trigger_path(path@) && is_send(data@)) && !in_responses(path@) ==> r == Ok::<u64, FSError>(data@.len() as u64)
                    && final(self).entries() == old(self).entries().insert(k, new_e)
                    && new_e.data == content
                    && new_e.meta == MetaView { size: content.len() as u64, modified: new_e.meta.modified, ..old_e.meta }
                    && new_e.meta.modified is Some
                    && final(self).pending_requests() == old(self).pending_requests()
            },
    {
        let entry = match self.entry_ref(path) {
            None => {
                return Err(FSError::not_found(path));
            },
            Some(e) => e,
        };
        if entry.metadata.is_directory() {
            return Err(FSError::is_directory(path));
        }
        if ends_with_trigger(path) && is_send_exec(data) {
            match parse_request_id(path) {
                Ok(id) => {
                    proof {
                        use_type_invariant(&*self);
                    }
                    let ghost before = self.pending@;
                    let mut queue: Vec<String> = Vec::new();
                    std::mem::swap(&mut queue, &mut self.pending);
                    queue.push(id);
                    self.pending = queue;
                    proof {
                        assert(self.pending@.map_values(|s: String| s@) =~= before.map_values(|s: String| s@).push(self.pending@.last()@));
                    }
                },
                Err(_) => {},
            }
            return Ok(data.len() as u64);
        }
        proof {
            reveal_strlit("/responses/");
        }
        if starts_with_path(path, "/responses/") {
            return Err(FSError::ReadOnly);
        }
        let append = flags.contains_append();
        let old_len = entry.data.len();
        let mut content: Vec<u8>;
        if append || offset < 0 || (offset as u64) >= (old_len as u64) {
            content = copy_bytes(entry.data.as_slice());
            let end: usize = if offset < 0 {
                0
            } else {
                offset as usize
            };
            while content.len() < end
                invariant
                    old_len == entry.data@.len(),
                    old_len <= content@.len(),
                    content@.len() <= end || content@.len() == old_len,
                    content@.subrange(0, old_len as int) == entry.data@,
                    forall|q: int| old_len <= q < content@.len() ==> content@[q] == 0u8,
                decreases end - content.len(),
            {
                content.push(0u8);
                proof {
                    assert(content@.subrange(0, old_len as int) =~= entry.data@);
                }
            }
            let ghost padded = content@;
            let mut i: usize = 0;
            while i < data.len()
                invariant
                    i <= data@.len(),
                    content@ == padded + data@.subrange(0, i as int),
                    padded.len() + data@.len() <= usize::MAX,
                decreases data.len() - i,
            {
                content.push(data[i]);
                i = i + 1;
                proof {
                    assert(content@ =~= padded + data@.subrange(0, i as int));
                }
            }
            proof {
                assert(data@.subrange(0, i as int) =~= data@);
                if end > old_len {
                    assert(padded =~= entry.data@ + Seq::new((end - old_len) as nat, |q: int| 0u8));
                } else {
                    assert(padded =~= entry.data@);
                }
            }
        } else {
            content = copy_bytes(entry.data.as_slice());
            apply_write(&mut content, data, offset, false);
        }
        let mut meta = entry.metadata.clone();
        meta.size = content.len() as u64;
        meta.modified = Some(utc_now_millis());
        self.put_entry(path, FileEntry { data: content, metadata: meta });
        Ok(data.len() as u64)
    }
}

impl ChmodFS for HttpFS {
    fn chmod(&mut self, path: &str, mode: u32) -> (r: Result<(), FSError>)
        ensures
            !old(self).entries().contains_key(path_key(path@)) ==> (r matches Err(e) && not_found_for(e, path@)) && final(self).entries() == old(self).entries(),
            old(self).entries().contains_key(path_key(path@)) ==> {
                let k = path_key(path@);
                let new_e = final(self).entries()[k];
                &&& r is Ok
                &&& final(self).entries() == old(self).entries().insert(k, new_e)
                &&& new_e.data == old(self).entries()[k].data
                &&& new_e.meta == MetaView { modified: new_e.meta.modified, ..with_perm(old(self).entries()[k].meta, mode) }
                &&& new_e.meta.modified is Some
            },
            final(self).pending_requests() == old(self).pending_requests(),
    {
        let e = match self.entry_ref(path) {
            None => {
                return Err(FSError::not_found(path));
            },
            Some(e) => e.clone(),
        };
        let mut e2 = e;
        e2.metadata.set_permissions(mode);
        e2.metadata.modified = Some(utc_now_millis());
        self.put_entry(path, e2);
        Ok(())
    }
}

impl DirFS for HttpFS {
    fn mkdir(&mut self, path: &str, perm: u32) -> (r: Result<(), FSError>)
        ensures
            !mkdir_parent_ok(path@) ==> (r matches Err(e) && denied_for(e, path@)) && final(self).entries() == old(self).entries(),
            mkdir_parent_ok(path@) && old(self).entries().contains_key(path_key(path@)) ==> (r matches Err(e) && exists_for(e, path@)) && final(self).entries() == old(self).entries(),
            mkdir_parent_ok(path@) && !old(self).entries().contains_key(path_key(path@)) ==> r is Ok
                && final(self).entries() == old(self).entries().insert(path_key(path@), final(self).entries()[path_key(path@)])
                && new_dir_entry(final(self).entries()[path_key(path@)], path@),
            final(self).pending_requests() == old(self).pending_requests(),
    {
        proof {
            reveal_strlit("/");
            reveal_strlit("/requests");
            reveal_strlit("/responses");
            reveal_strlit("/cache");
        }
        match parent(path) {
            Some(p) => {
                if !same_text(p.as_str(), "/") && !same_text(p.as_str(), "/requests") && !same_text(p.as_str(), "/responses") && !same_text(p.as_str(), "/cache") {
                    return Err(FSError::permission_denied(path));
                }
            },
            None => {},
        }
        if self.entry_ref(path).is_some() {
            return Err(FSError::already_exists(path));
        }
        self.put_dir(path);
        proof {
            assert(self.entries() =~= old(self).entries().insert(path_key(path@), self.entries()[path_key(path@)]));
        }
        Ok(())
    }

    fn read_dir(&self, path: &str) -> (r: Result<Vec<FileMetadata>, FSError>)
        ensures
            r matches Ok(v) && meta_views(v@) == http_listing(self.listing(), listing_prefix(path@)).0,
            lists_map(self.listing(), self.entries()),
            r matches Ok(v) && http_shows(meta_views(v@), self.entries(), listing_prefix(path@)),
    {
        proof {
            reveal_strlit("/");
            use_type_invariant(self);
            lemma_listing_is_entries(self);
            lemma_http_listing_shows(self.listing(), self.entries(), listing_prefix(path@));
        }
        let prefix: String = if same_text(path, "/") {
            String::new()
        } else {
            owned(path)
        };
        let mut out: Vec<FileMetadata> = Vec::new();
        let mut seen: Vec<String> = Vec::new();
        proof {
            assert(meta_views(out@) =~= Seq::<MetaView>::empty());
            assert(names_set(seen@) =~= Set::<Seq<char>>::empty());
        }
        self.listing_pass(prefix.as_str(), true, &mut out, &mut seen);
        self.listing_pass(prefix.as_str(), false, &mut out, &mut seen);
        Ok(out)
    }

    fn remove(&mut self, path: &str) -> (r: Result<(), FSError>)
        ensures
            !old(self).entries().contains_key(path_key(path@)) ==> (r matches Err(e) && not_found_for(e, path@)) && final(self).entries() == old(self).entries(),
            old(self).entries().contains_key(path_key(path@)) ==> if is_dir_meta(old(self).entries()[path_key(path@)].meta)
                && exists|q: Seq<char>| #[trigger] old(self).entries().contains_key(q) && strictly_under(path@, q) {
                (r matches Err(e) && e is DirectoryNotEmpty) && final(self).entries() == old(self).entries()
            } else {
                r is Ok && final(self).entries() == old(self).entries().remove(path_key(path@))
            },
            final(self).pending_requests() == old(self).pending_requests(),
    {
        let key = path_key_of(path);
        let is_dir = match self.entry_ref(path) {
            None => {
                return Err(FSError::not_found(path));
            },
            Some(e) => e.metadata.is_directory(),
        };
        proof {
            use_type_invariant(&*self);
        }
        let mut has_children = false;
        if is_dir {
            let n = self.files.len();
            let mut i: usize = 0;
            while i < n
                invariant
                    i <= n,
                    n == self.files.pairs().len(),
                    self.files.wf(),
                    has_children <==> exists|j: int| 0 <= j < i && strictly_under(path@, #[trigger] self.files.pairs()[j].0),
                decreases n - i,
            {
                let (q, _e) = self.files.entry_at(i);
                if starts_with_path(q.as_str(), path) && !starts_with_path(path, q.as_str()) {
                    has_children = true;
                }
                i = i + 1;
            }
        }
        proof {
            if has_children {
                let j = choose|j: int| 0 <= j < self.files.pairs().len() && strictly_under(path@, #[trigger] self.files.pairs()[j].0);
                crate::strmap::lemma_lookup_at(self.files.pairs(), j);
                assert(self.entries().contains_key(self.files.pairs()[j].0));
            } else if is_dir {
                assert forall|q: Seq<char>| #[trigger] self.entries().contains_key(q) implies !strictly_under(path@, q) by {
                    crate::strmap::lemma_lookup_some(self.files.pairs(), q);
                }
            }
        }
        if has_children {
            return Err(FSError::DirectoryNotEmpty);
        }
        let mut f = self.take_files();
        let _ = f.remove(key.as_str());
        self.put_files(f);
        proof {
            assert(self.entries() =~= old(self).entries().remove(path_key(path@)));
        }
        Ok(())
    }

    fn remove_all(&mut self, path: &str) -> (r: Result<(), FSError>)
        ensures
            !old(self).entries().contains_key(path_key(path@)) ==> (r matches Err(e) && not_found_for(e, path@)) && final(self).entries() == old(self).entries(),
            old(self).entries().contains_key(path_key(path@)) ==> r is Ok && final(self).entries() == old(self).entries().remove_keys(
                old(self).entries().dom().filter(|q: Seq<char>| strictly_under(path@, q)),
            ).remove(path_key(path@)),
            final(self).pending_requests() == old(self).pending_requests(),
    {
        if self.entry_ref(path).is_none() {
            return Err(FSError::not_found(path));
        }
        let mut f = self.take_files();
        let ghost f0 = f.map();
        let ghost gone = old(self).entries().dom().filter(|q: Seq<char>| strictly_under(path@, q));
        let mut keys: Vec<String> = Vec::new();
        let n = f.len();
        let mut i: usize = 0;
        while i < n
            invariant
                i <= n,
                n == f.pairs().len(),
                f.wf(),
                f.map() == f0,
                forall|j: int| 0 <= j < keys@.len() ==> strictly_under(path@, #[trigger] keys@[j]@) && f0.contains_key(keys@[j]@),
                forall|j: int| 0 <= j < i ==> strictly_under(path@, #[trigger] f.pairs()[j].0) ==> exists|q: int| 0 <= q < keys@.len() && keys@[q]@ == f.pairs()[j].0,
            decreases n - i,
        {
            let (k, _v) = f.entry_at(i);
            proof {
                crate::strmap::lemma_lookup_at(f.pairs(), i as int);
            }
            if starts_with_path(k.as_str(), path) && !starts_with_path(path, k.as_str()) {
                let ghost before = keys@;
                keys.push(k.clone());
                proof {
                    assert forall|j: int| 0 <= j < i + 1 && strictly_under(path@, #[trigger] f.pairs()[j].0) implies exists|q: int| 0 <= q < keys@.len() && keys@[q]@ == f.pairs()[j].0 by {
                        if j < i {
                            let q = choose|q: int| 0 <= q < before.len() && before[q]@ == f.pairs()[j].0;
                            assert(keys@[q] == before[q]);
                        } else {
                            assert(keys@[keys@.len() - 1]@ == f.pairs()[j].0);
                        }
                    }
                }
            }
            i = i + 1;
        }
        let ghost all = keys@;
        let mut j: usize = 0;
        while j < keys.len()
            invariant
                j <= keys@.len(),
                keys@ == all,
                f.wf(),
                forall|k: Seq<char>| #[trigger] f.map().contains_key(k) <==> f0.contains_key(k) && !(exists|q: int| 0 <= q < j && all[q]@ == k),
                forall|k: Seq<char>| #[trigger] f.map().contains_key(k) ==> f.map()[k] == f0[k],
            decreases keys.len() - j,
        {
            let _ = f.remove(keys[j].as_str());
            proof {
                assert forall|k: Seq<char>| #[trigger] f.map().contains_key(k) <==> f0.contains_key(k) && !(exists|q: int| 0 <= q < j + 1 && all[q]@ == k) by {
                    if exists|q: int| 0 <= q < j + 1 && all[q]@ == k {
                        let q = choose|q: int| 0 <= q < j + 1 && all[q]@ == k;
                        if q < j {
                        }
                    }
                }
            }
            j = j + 1;
        }
        self.put_files(f);
        proof {
            assert forall|k: Seq<char>| (exists|q: int| 0 <= q < all.len() && all[q]@ == k) <==> gone.contains(k) by {
                if gone.contains(k) {
                    crate::strmap::lemma_lookup_some(old(self).files.pairs(), k);
                }
            }
            assert(self.entries() =~= old(self).entries().remove_keys(gone));
        }
        let ghost below = self.entries();
        let key = path_key_of(path);
        let mut f = self.take_files();
        let _ = f.remove(key.as_str());
        self.put_files(f);
        proof {
            assert(self.entries() =~= below.remove(path_key(path@)));
        }
        Ok(())
    }

    fn rename(&mut self, old_path: &str, new_path: &str) -> (r: Result<(), FSError>)
        ensures
            ({
                let ko = path_key(old_path@);
                let kn = path_key(new_path@);
                let f = old(self).entries();
                &&& !f.contains_key(ko) ==> (r matches Err(e) && not_found_for(e, old_path@)) && final(self).entries() == f
                &&& f.contains_key(ko) && kn != ko && f.contains_key(kn) ==> (r matches Err(e) && exists_for(e, new_path@)) && final(self).entries() == f
                &&& f.contains_key(ko) && !(kn != ko && f.contains_key(kn)) ==> r is Ok && final(self).entries() == f.remove(ko).insert(
                    kn,
                    EntryView { data: f[ko].data, meta: MetaView { path: new_path@, ..f[ko].meta } },
                )
            }),
            final(self).pending_requests() == old(self).pending_requests(),
    {
        let ko = path_key_of(old_path);
        let kn = path_key_of(new_path);
        let mut f = self.take_files();
        let entry = match f.remove(ko.as_str()) {
            None => {
                self.put_files(f);
                proof {
                    assert(self.entries() =~= old(self).entries());
                }
                return Err(FSError::not_found(old_path));
            },
            Some(e) => e,
        };
        if f.contains_key(kn.as_str()) {
            f.insert(ko, entry);
            self.put_files(f);
            proof {
                assert(self.entries() =~= old(self).entries());
            }
            return Err(FSError::already_exists(new_path));
        }
        let mut moved = entry;
        moved.metadata.path = owned(new_path);
        f.insert(kn, moved);
        self.put_files(f);
        proof {
            let ko = path_key(old_path@);
            let kn = path_key(new_path@);
            let g = old(self).entries();
            assert(self.entries() =~= g.remove(ko).insert(kn, EntryView { data: g[ko].data, meta: MetaView { path: new_path@, ..g[ko].meta } }));
        }
        Ok(())
    }
}

impl FileSystem for HttpFS {
    fn truncate(&mut self, path: &str, size: u64) -> (r: Result<(), FSError>)
        ensures
            !old(self).entries().contains_key(path_key(path@)) ==> (r matches Err(e) && not_found_for(e, path@)) && final(self).entries() == old(self).entries(),
            old(self).entries().contains_key(path_key(path@)) && is_dir_meta(old(self).entries()[path_key(path@)].meta) ==> (r matches Err(e) && is_dir_for(e, path@)) && final(self).entries() == old(self).entries(),
            old(self).entries().contains_key(path_key(path@)) && !is_dir_meta(old(self).entries()[path_key(path@)].meta) ==> {
                let k = path_key(path@);
                let new_e = final(self).entries()[k];
                &&& r is Ok
                &&& final(self).entries() == old(self).entries().insert(k, new_e)
                &&& new_e.data == resized(old(self).entries()[k].data, size)
                &&& new_e.meta == MetaView { size, modified: new_e.meta.modified, ..old(self).entries()[k].meta }
                &&& new_e.meta.modified is Some
            },
            final(self).pending_requests() == old(self).pending_requests(),
    {
        let e = match self.entry_ref(path) {
            None => {
                return Err(FSError::not_found(path));
            },
            Some(e) => e,
        };
        if e.metadata.is_directory() {
            return Err(FSError::is_directory(path));
        }
        let ghost d = e.data@;
        let len = e.data.len();
        let mut data: Vec<u8> = Vec::new();
        if size < (len as u64) {
            let cut = size as usize;
            let mut i: usize = 0;
            while i < cut
                invariant
                    cut <= e.data@.len(),
                    i <= cut,
                    data@ == e.data@.subrange(0, i as int),
                decreases cut - i,
            {
                data.push(e.data[i]);
                i = i + 1;
                proof {
                    assert(data@ =~= e.data@.subrange(0, i as int));
                }
            }
        } else {
            data = copy_bytes(e.data.as_slice());
            while (data.len() as u64) < size
                invariant
                    d.len() <= data@.len(),
                    data@.subrange(0, d.len() as int) == d,
                    forall|q: int| d.len() <= q < data@.len() ==> data@[q] == 0u8,
                    data@.len() <= size || data@.len() == d.len(),
                decreases size - data.len() as u64,
            {
                data.push(0u8);
                proof {
                    assert(data@.subrange(0, d.len() as int) =~= d);
                }
            }
            proof {
                assert(data@ =~= d + Seq::new((size - d.len()) as nat, |q: int| 0u8));
            }
        }
        let mut meta = e.metadata.clone();
        meta.size = size;
        meta.modified = Some(utc_now_millis());
        self.put_entry(path, FileEntry { data, metadata: meta });
        Ok(())
    }

    fn touch(&mut self, path: &str) -> (r: Result<(), FSError>)
        ensures
            old(self).entries().contains_key(path_key(path@)) ==> {
                let k = path_key(path@);
                let new_e = final(self).entries()[k];
                &&& r is Ok
                &&& final(self).entries() == old(self).entries().insert(k, new_e)
                &&& new_e.data == old(self).entries()[k].data
                &&& new_e.meta == MetaView { accessed: new_e.meta.accessed, modified: new_e.meta.modified, ..old(self).entries()[k].meta }
                &&& new_e.meta.accessed is Some && new_e.meta.modified is Some
            },
            !old(self).entries().contains_key(path_key(path@)) && create_check(old(self).entries(), path@) is Fine ==> r is Ok
                && final(self).entries() == old(self).entries().insert(path_key(path@), final(self).entries()[path_key(path@)])
                && new_file_entry(final(self).entries()[path_key(path@)], path@, Seq::empty(), 0),
            !old(self).entries().contains_key(path_key(path@)) && !(create_check(old(self).entries(), path@) is Fine) ==> create_error(r, create_check(old(self).entries(), path@), path@)
                && final(self).entries() == old(self).entries(),
            final(self).pending_requests() == old(self).pending_requests(),
    {
        match self.entry_ref(path) {
            Some(e) => {
                let mut e2 = e.clone();
                e2.metadata.accessed = Some(utc_now_millis());
                e2.metadata.modified = Some(utc_now_millis());
                self.put_entry(path, e2);
                return Ok(());
            },
            None => {},
        }
        self.create(path)?;
        let e = match self.entry_ref(path) {
            Some(e) => e.clone(),
            None => {
                return Ok(());
            },
        };
        let mut e2 = e;
        e2.metadata.accessed = Some(utc_now_millis());
        e2.metadata.modified = Some(utc_now_millis());
        self.put_entry(path, e2);
        proof {
            assert(self.entries() =~= old(self).entries().insert(path_key(path@), self.entries()[path_key(path@)]));
        }
        Ok(())
    }
}

// ---------------------------------------------------------------------------
// Stored responses and the response cache
// ---------------------------------------------------------------------------

/// The text of the file at `path`: present, not a directory, and UTF-8.
pub open spec fn text_at(entries: Map<Seq<char>, EntryView>, path: Seq<char>) -> Option<Seq<char>> {
    if entries.contains_key(path_key(path)) && !is_dir_meta(entries[path_key(path)].meta)
        && vstd::utf8::valid_utf8(entries[path_key(path)].data) {
        Some(vstd::utf8::decode_utf8(entries[path_key(path)].data))
    } else {
        None
    }
}

/// The bytes of the file at `path`: present and not a directory.
pub open spec fn data_at(entries: Map<Seq<char>, EntryView>, path: Seq<char>) -> Option<Seq<u8>> {
    if entries.contains_key(path_key(path)) && !is_dir_meta(entries[path_key(path)].meta) {
        Some(entries[path_key(path)].data)
    } else {
        None
    }
}

/// The directory at `path` added when missing.
pub open spec fn dir_ensured(m: Map<Seq<char>, EntryView>, path: Seq<char>, e: EntryView) -> Map<Seq<char>, EntryView> {
    if m.contains_key(path_key(path)) {
        m
    } else {
        m.insert(path_key(path), e)
    }
}

/// The UTF-8 bytes of the decimal text of `n`.
pub open spec fn decimal_bytes(n: nat) -> Seq<u8> {
    vstd::utf8::encode_utf8(decimal(n))
}

/// A directory entry as created at `path` (for stating what a missing directory would
/// have been given).
pub open spec fn fresh_dir_view(path: Seq<char>) -> EntryView {
    EntryView {
        data: Seq::empty(),
        meta: MetaView {
            path,
            size: 0,
            mode: crate::metadata::dir_mode_spec(),
            created: Some(0),
            modified: Some(0),
            accessed: Some(0),
            is_symlink: false,
            symlink_target: None,
        },
    }
}

/// The directory of a stored response.
pub open spec fn response_dir(id: Seq<char>) -> Seq<char> {
    "/responses/"@ + id
}

/// After storing a response for request `id`: its directory when it was missing, and its
/// `status`, `headers.json` and `body` files, each written over what was there.
pub open spec fn response_stored(
    before: Map<Seq<char>, EntryView>,
    after: Map<Seq<char>, EntryView>,
    id: Seq<char>,
    status: u16,
    headers: Seq<(Seq<char>, Seq<char>)>,
    body: Seq<u8>,
    de: EntryView,
    se: EntryView,
    he: EntryView,
    be: EntryView,
) -> bool {
    let d = response_dir(id);
    let m2 = dir_ensured(before, d, de).insert(path_key(d + "/status"@), se);
    let json = vstd::utf8::encode_utf8(json_object_text(headers));
    &&& new_dir_entry(de, d)
    &&& new_file_entry(se, d + "/status"@, decimal_bytes(status as nat), decimal_bytes(status as nat).len() as u64)
    &&& new_file_entry(he, d + "/headers.json"@, json, json.len() as u64)
    &&& new_file_entry(be, d + "/body"@, body, body.len() as u64)
    &&& after == m2.insert(path_key(d + "/headers.json"@), he).insert(path_key(d + "/body"@), be)
}

/// Some response was stored as [`response_stored`] describes.
pub open spec fn stored_some(
    before: Map<Seq<char>, EntryView>,
    after: Map<Seq<char>, EntryView>,
    id: Seq<char>,
    status: u16,
    headers: Seq<(Seq<char>, Seq<char>)>,
    body: Seq<u8>,
) -> bool {
    exists|de: EntryView, se: EntryView, he: EntryView, be: EntryView| #[trigger] response_stored(
        before, after, id, status, headers, body, de, se, he, be)
}

/// The directory of a cache entry.
pub open spec fn cache_dir(key: Seq<char>) -> Seq<char> {
    "/cache/"@ + key
}

/// The ETag of a header map: under `etag`, else under `ETag`.
pub open spec fn etag_of(headers: Seq<(Seq<char>, Seq<char>)>) -> Option<Seq<char>> {
    match lookup(headers, "etag"@) {
        Some(v) => Some(v),
        None => lookup(headers, "ETag"@),
    }
}

/// After caching a response under `key`, expiring at `expiry` (seconds): the cache
/// directory when missing, its `status`, `headers.json`, `body` and `expiry` files and,
/// when the headers carry an ETag, its `etag` file. The recorded sizes of `status` and
/// `expiry` are fixed at 3 and 20.
pub open spec fn cache_stored(
    before: Map<Seq<char>, EntryView>,
    after: Map<Seq<char>, EntryView>,
    key: Seq<char>,
    status: u16,
    headers: Seq<(Seq<char>, Seq<char>)>,
    body: Seq<u8>,
    expiry: u64,
    de: EntryView,
    se: EntryView,
    he: EntryView,
    be: EntryView,
    xe: EntryView,
    te: EntryView,
) -> bool {
    let b = cache_dir(key);
    let m2 = dir_ensured(before, b, de).insert(path_key(push_path(b, "status"@)), se);
    let json = vstd::utf8::encode_utf8(json_object_text(headers));
    let m5 = m2.insert(path_key(push_path(b, "headers.json"@)), he).insert(
        path_key(push_path(b, "body"@)),
        be,
    ).insert(path_key(push_path(b, "expiry"@)), xe);
    &&& new_dir_entry(de, b)
    &&& new_file_entry(se, push_path(b, "status"@), decimal_bytes(status as nat), 3)
    &&& new_file_entry(he, push_path(b, "headers.json"@), json, json.len() as u64)
    &&& new_file_entry(be, push_path(b, "body"@), body, body.len() as u64)
    &&& new_file_entry(xe, push_path(b, "expiry"@), decimal_bytes(expiry as nat), 20)
    &&& match etag_of(headers) {
        Some(t) => new_file_entry(te, push_path(b, "etag"@), vstd::utf8::encode_utf8(t), vstd::utf8::encode_utf8(t).len() as u64)
            && after == m5.insert(path_key(push_path(b, "etag"@)), te),
        None => after == m5,
    }
}

/// Some cache entry was written as [`cache_stored`] describes.
pub open spec fn cached_some(
    before: Map<Seq<char>, EntryView>,
    after: Map<Seq<char>, EntryView>,
    key: Seq<char>,
    status: u16,
    headers: Seq<(Seq<char>, Seq<char>)>,
    body: Seq<u8>,
    expiry: u64,
) -> bool {
    exists|de: EntryView, se: EntryView, he: EntryView, be: EntryView, xe: EntryView, te: EntryView| #[trigger] cache_stored(
        before, after, key, status, headers, body, expiry, de, se, he, be, xe, te)
}

/// A number read from the text file at `path` (trimmed), no larger than `max`.
pub open spec fn number_at(entries: Map<Seq<char>, EntryView>, path: Seq<char>, max: nat) -> Option<nat> {
    match text_at(entries, path) {
        Some(t) => parse_unsigned(trim_spec(t), max),
        None => None,
    }
}

/// The members of the JSON file at `path`, when it parses.
pub open spec fn members_at(entries: Map<Seq<char>, EntryView>, path: Seq<char>) -> Option<Seq<(Seq<char>, Seq<char>)>> {
    match text_at(entries, path) {
        Some(t) => match json_string_map(t) {
            Ok(h) => Some(h),
            Err(_) => None,
        },
        None => None,
    }
}

/// Reading the cache under `key` at time `now` gave `r`: exactly what [`cached_spec`] gives.
pub open spec fn cache_read(entries: Map<Seq<char>, EntryView>, key: Seq<char>, now: i64, r: Option<(u16, Vec<(String, String)>, Vec<u8>)>) -> bool {
    match r {
        Some((st, h, b)) => cached_spec(entries, key, now) == Some((st, pair_views(h@), b@)),
        None => cached_spec(entries, key, now) is None,
    }
}

/// Caching a response under `key` with the clock reading `now` took the files from
/// `before` to `after` and gave `r`: when the expiry does not fit in 64 bits nothing
/// changes and nothing comes back; otherwise the entry is written as [`cached_some`]
/// says, reads back as a hit until it expires, and `Ok` comes back.
pub open spec fn cache_written(
    before: Map<Seq<char>, EntryView>,
    after: Map<Seq<char>, EntryView>,
    key: Seq<char>,
    status: u16,
    headers: Seq<(Seq<char>, Seq<char>)>,
    body: Seq<u8>,
    max_age: u64,
    now: i64,
    r: Option<Result<(), FSError>>,
) -> bool {
    if (now as u64) + max_age <= u64::MAX {
        r matches Some(res) && res is Ok
            && cached_some(before, after, key, status, headers, body, ((now as u64) + max_age) as u64)
            && forall|t: i64| t <= (((now as u64) + max_age) as u64) as i64 ==> #[trigger] cache_hit(after, key, t, status, headers, body)
    } else {
        r is None && after == before
    }
}

/// A cached response under `key` that has not expired at `now` (seconds): its status,
/// headers and body, when its files are all present and well formed.
pub open spec fn cached_spec(entries: Map<Seq<char>, EntryView>, key: Seq<char>, now: i64) -> Option<(u16, Seq<(Seq<char>, Seq<char>)>, Seq<u8>)> {
    let b = cache_dir(key);
    let x = number_at(entries, push_path(b, "expiry"@), u64::MAX as nat);
    let st = number_at(entries, push_path(b, "status"@), u16::MAX as nat);
    let h = members_at(entries, push_path(b, "headers.json"@));
    let body = data_at(entries, push_path(b, "body"@));
    if x is None || now > (x->0 as u64) as i64 || st is None || h is None || body is None {
        None
    } else {
        Some((st->0 as u16, h->0, body->0))
    }
}

/// A cache hit under `key` at `now`: the status and body stored, and headers that give
/// every name the value that `headers` gives it.
pub open spec fn cache_hit(
    entries: Map<Seq<char>, EntryView>,
    key: Seq<char>,
    now: i64,
    status: u16,
    headers: Seq<(Seq<char>, Seq<char>)>,
    body: Seq<u8>,
) -> bool {
    cached_spec(entries, key, now) matches Some((s, h, b)) && s == status && b == body
        && forall|name: Seq<char>| #[trigger] lookup(h, name) == lookup(headers, name)
}

proof fn lemma_plain_literal(n: Seq<char>)
    requires
        n.len() > 2,
        n[0] != '.',
        forall|i: int| 0 <= i < n.len() ==> n[i] != '/',
    ensures
        crate::path::plain_name(n),
{
    assert(!n.contains('/')) by {
        if n.contains('/') {
            let i = choose|i: int| 0 <= i < n.len() && n[i] == '/';
            assert(n[i] != '/');
        }
    }
}

proof fn lemma_file_not_dir(e: EntryView, path: Seq<char>, data: Seq<u8>, size: u64)
    requires
        new_file_entry(e, path, data, size),
    ensures
        !is_dir_meta(e.meta),
{
    assert(crate::metadata::file_mode_spec() & S_IFMT != S_IFDIR) by (bit_vector);
}

/// What a cache entry just stored reads back as: while it has not expired, the status,
/// the body and (by name) the headers it was stored with.
proof fn lemma_cache_read_back(
    before: Map<Seq<char>, EntryView>,
    after: Map<Seq<char>, EntryView>,
    key: Seq<char>,
    status: u16,
    headers: Seq<(Seq<char>, Seq<char>)>,
    body: Seq<u8>,
    expiry: u64,
    now: i64,
)
    requires
        cached_some(before, after, key, status, headers, body, expiry),
        parses_to_members(json_string_map(json_object_text(headers)), headers),
        now <= expiry as i64,
    ensures
        cache_hit(after, key, now, status, headers, body),
{
    let (de, se, he, be, xe, te) = choose|de: EntryView, se: EntryView, he: EntryView, be: EntryView, xe: EntryView, te: EntryView| #[trigger] cache_stored(
        before, after, key, status, headers, body, expiry, de, se, he, be, xe, te);
    reveal_strlit("/cache/");
    reveal_strlit("status");
    reveal_strlit("headers.json");
    reveal_strlit("body");
    reveal_strlit("expiry");
    reveal_strlit("etag");
    let b = cache_dir(key);
    assert(crate::path::has_root(b));
    lemma_plain_literal("status"@);
    lemma_plain_literal("headers.json"@);
    lemma_plain_literal("body"@);
    lemma_plain_literal("expiry"@);
    lemma_plain_literal("etag"@);
    let ks = path_key(push_path(b, "status"@));
    let kh = path_key(push_path(b, "headers.json"@));
    let kb = path_key(push_path(b, "body"@));
    let kx = path_key(push_path(b, "expiry"@));
    let kt = path_key(push_path(b, "etag"@));
    crate::path::lemma_push_plain_keys_differ(b, "status"@, "headers.json"@);
    crate::path::lemma_push_plain_keys_differ(b, "status"@, "body"@);
    crate::path::lemma_push_plain_keys_differ(b, "status"@, "expiry"@);
    crate::path::lemma_push_plain_keys_differ(b, "status"@, "etag"@);
    crate::path::lemma_push_plain_keys_differ(b, "headers.json"@, "body"@);
    crate::path::lemma_push_plain_keys_differ(b, "headers.json"@, "expiry"@);
    crate::path::lemma_push_plain_keys_differ(b, "headers.json"@, "etag"@);
    crate::path::lemma_push_plain_keys_differ(b, "body"@, "expiry"@);
    crate::path::lemma_push_plain_keys_differ(b, "body"@, "etag"@);
    crate::path::lemma_push_plain_keys_differ(b, "expiry"@, "etag"@);
    assert(after.contains_key(ks) && after[ks] == se);
    assert(after.contains_key(kh) && after[kh] == he);
    assert(after.contains_key(kb) && after[kb] == be);
    assert(after.contains_key(kx) && after[kx] == xe);
    lemma_file_not_dir(se, push_path(b, "status"@), decimal_bytes(status as nat), 3);
    lemma_file_not_dir(he, push_path(b, "headers.json"@), vstd::utf8::encode_utf8(json_object_text(headers)), he.meta.size);
    lemma_file_not_dir(be, push_path(b, "body"@), body, body.len() as u64);
    lemma_file_not_dir(xe, push_path(b, "expiry"@), decimal_bytes(expiry as nat), 20);
    broadcast use vstd::utf8::encode_utf8_valid_utf8, vstd::utf8::encode_utf8_decode_utf8;
    assert(text_at(after, push_path(b, "expiry"@)) == Some(decimal(expiry as nat)));
    assert(text_at(after, push_path(b, "status"@)) == Some(decimal(status as nat)));
    assert(text_at(after, push_path(b, "headers.json"@)) == Some(json_object_text(headers)));
    crate::text::lemma_decimal_parses(expiry as nat, u64::MAX as nat);
    crate::text::lemma_decimal_parses(status as nat, u16::MAX as nat);
    assert(number_at(after, push_path(b, "expiry"@), u64::MAX as nat) == Some(expiry as nat));
    assert(number_at(after, push_path(b, "status"@), u16::MAX as nat) == Some(status as nat));
    assert(data_at(after, push_path(b, "body"@)) == Some(body));
}

/// `s` without leading and trailing `"` characters (`str::trim_matches('"')`).
pub open spec fn trim_quotes(s: Seq<char>) -> Seq<char>
    decreases s.len(),
{
    if s.len() > 0 && s[0] == '"' {
        trim_quotes(s.drop_first())
    } else if s.len() > 0 && s.last() == '"' {
        trim_quotes(s.drop_last())
    } else {
        s
    }
}

fn trim_quotes_exec(s: &str) -> (r: String)
    ensures
        r@ == trim_quotes(s@),
{
    let c = chars_of(s);
    let mut i: usize = 0;
    let mut j: usize = c.len();
    proof {
        assert(c@.subrange(0, j as int) =~= c@);
    }
    while i < j && c[i] == '"'
        invariant
            i <= j <= c@.len(),
            j == c@.len(),
            trim_quotes(c@) == trim_quotes(c@.subrange(i as int, j as int)),
        decreases j - i,
    {
        proof {
            assert(c@.subrange(i as int, j as int).drop_first() =~= c@.subrange(i + 1, j as int));
        }
        i = i + 1;
    }
    while j > i && c[j - 1] == '"'
        invariant
            i <= j <= c@.len(),
            trim_quotes(c@) == trim_quotes(c@.subrange(i as int, j as int)),
            i < j ==> c@[i as int] != '"',
        decreases j,
    {
        proof {
            let t = c@.subrange(i as int, j as int);
            assert(t.drop_last() =~= c@.subrange(i as int, j - 1));
            if i == j - 1 {
            } else {
                assert(t[0] == c@[i as int]);
            }
        }
        j = j - 1;
    }
    let mut out: Vec<char> = Vec::new();
    let mut k: usize = i;
    while k < j
        invariant
            i <= k <= j,
            j <= c@.len(),
            out@ == c@.subrange(i as int, k as int),
        decreases j - k,
    {
        out.push(c[k]);
        k = k + 1;
        proof {
            assert(out@ =~= c@.subrange(i as int, k as int));
        }
    }
    proof {
        let t = c@.subrange(i as int, j as int);
        if t.len() > 0 {
            assert(t[0] == c@[i as int]);
            assert(t.last() == c@[j - 1]);
        }
    }
    string_of(out.as_slice())
}

/// What `str::to_uppercase` gives for a text (full Unicode case mapping).
pub uninterp spec fn upper_text(s: Seq<char>) -> Seq<char>;

/// `str::to_uppercase`; the result is named by [`upper_text`].
#[verifier::external_body]
fn to_upper(s: &str) -> (r: String)
    ensures
        r@ == upper_text(s@),
{
    s.to_uppercase()
}

/// The methods that can be sent.
pub open spec fn known_method(m: Seq<char>) -> bool {
    m == "GET"@ || m == "POST"@ || m == "PUT"@ || m == "DELETE"@ || m == "PATCH"@ || m == "HEAD"@
}

/// The methods that carry a body.
pub open spec fn body_method(m: Seq<char>) -> bool {
    m == "POST"@ || m == "PUT"@ || m == "PATCH"@
}

/// What to send for a request.
pub struct RequestPlan {
    /// The method, upper-cased.
    pub method: String,
    /// The URL (trimmed for GET).
    pub url: String,
    /// The request headers.
    pub headers: Vec<(String, String)>,
    /// The body, for POST, PUT and PATCH requests with a non-empty body.
    pub body: Option<Vec<u8>>,
    /// The `If-None-Match` value, for GET requests with a cached ETag.
    pub if_none_match: Option<String>,
    /// The cache key of a GET request's URL (empty otherwise).
    pub cache_key: String,
    /// Whether this is a GET request.
    pub is_get: bool,
}

/// The next step of executing a request.
pub enum RequestStep {
    /// The response was served from the cache and stored.
    Served,
    /// The request must be sent as planned.
    Send(RequestPlan),
}

/// The path of one of the files of request `id`.
pub open spec fn request_file(id: Seq<char>, name: Seq<char>) -> Seq<char> {
    "/requests/"@ + id + "/"@ + name
}

/// The members of a request's `headers.json`: none when the file cannot be read or is
/// empty, else what the parser makes of it.
pub open spec fn request_headers(entries: Map<Seq<char>, EntryView>, id: Seq<char>) -> Result<Seq<(Seq<char>, Seq<char>)>, Seq<char>> {
    match text_at(entries, request_file(id, "headers.json"@)) {
        Some(t) => if t.len() == 0 {
            Ok(Seq::empty())
        } else {
            json_string_map(t)
        },
        None => Ok(Seq::empty()),
    }
}

impl HttpFS {
    /// Stores a response for request `id` under `/responses/<id>/`.
    pub fn store_response_direct(&mut self, request_id: &str, status_code: u16, headers: &Vec<(String, String)>, body: Vec<u8>) -> (r: Result<(), FSError>)
        ensures
            r is Ok,
            stored_some(old(self).entries(), final(self).entries(), request_id@, status_code, pair_views(headers@), body@),
            final(self).pending_requests() == old(self).pending_requests(),
    {
        proof {
            reveal_strlit("/responses/");
            reveal_strlit("/status");
            reveal_strlit("/headers.json");
            reveal_strlit("/body");
        }
        let dir = concat_str("/responses/", request_id);
        let ghost m0 = self.entries();
        if self.entry_ref(dir.as_str()).is_none() {
            self.put_dir(dir.as_str());
        }
        let ghost m1 = self.entries();
        let ghost de = if m0.contains_key(path_key(dir@)) { fresh_dir_view(dir@) } else { m1[path_key(dir@)] };
        let status_path = concat_str(dir.as_str(), "/status");
        let status_data = bytes_of(u64_to_decimal(status_code as u64).as_str());
        let status_len = status_data.len();
        self.put_file(status_path.as_str(), status_data, status_len as u64);
        let ghost m2 = self.entries();
        let ghost se = m2[path_key(status_path@)];
        proof {
            if !m0.contains_key(path_key(dir@)) {
                assert(m1 =~= m0.insert(path_key(dir@), de));
            } else {
                assert(m1 =~= m0);
            }
            assert(m2 =~= dir_ensured(m0, dir@, de).insert(path_key(status_path@), se));
        }
        let headers_json = json_text_of(headers);
        let headers_path = concat_str(dir.as_str(), "/headers.json");
        let headers_data = bytes_of(headers_json.as_str());
        let headers_len = headers_data.len();
        self.put_file(headers_path.as_str(), headers_data, headers_len as u64);
        let ghost m3 = self.entries();
        let ghost he = m3[path_key(headers_path@)];
        let body_path = concat_str(dir.as_str(), "/body");
        let body_len = body.len();
        self.put_file(body_path.as_str(), body, body_len as u64);
        let ghost be = self.entries()[path_key(body_path@)];
        proof {
            assert(m3 =~= m2.insert(path_key(headers_path@), he));
            assert(self.entries() =~= m3.insert(path_key(body_path@), be));
            assert(response_stored(m0, self.entries(), request_id@, status_code, pair_views(headers@), body@, de, se, he, be));
        }
        Ok(())
    }
}

impl HttpFS {
    /// The text of the file at `path`, when it is a UTF-8 file.
    fn text_opt(&self, path: &str) -> (r: Option<String>)
        ensures
            match r {
                Some(t) => text_at(self.entries(), path@) == Some(t@),
                None => text_at(self.entries(), path@) is None,
            },
    {
        match self.read_to_string_sync(path) {
            Ok(t) => Some(t),
            Err(_) => None,
        }
    }

    /// The bytes of the file at `path`, when it is a file.
    fn data_opt(&self, path: &str) -> (r: Option<Vec<u8>>)
        ensures
            match r {
                Some(d) => data_at(self.entries(), path@) == Some(d@),
                None => data_at(self.entries(), path@) is None,
            },
    {
        match self.read_bytes_sync(path) {
            Ok(d) => Some(d),
            Err(_) => None,
        }
    }

    fn number_opt(&self, path: &str, wide: bool) -> (r: Option<u64>)
        ensures
            match r {
                Some(n) => number_at(self.entries(), path@, if wide { u64::MAX as nat } else { u16::MAX as nat }) == Some(n as nat),
                None => number_at(self.entries(), path@, if wide { u64::MAX as nat } else { u16::MAX as nat }) is None,
            },
    {
        match self.text_opt(path) {
            None => None,
            Some(t) => {
                let tt = trim_str(t.as_str());
                if wide {
                    parse_u64(tt.as_str())
                } else {
                    match crate::text::parse_u16(tt.as_str()) {
                        Some(n) => Some(n as u64),
                        None => None,
                    }
                }
            },
        }
    }

    /// The cached response under `cache_key`, if present and not expired at `now`
    /// (seconds since the epoch). Returns (status, headers, body).
    pub fn get_cached_response_at(&self, cache_key: &str, now: i64) -> (r: Option<(u16, Vec<(String, String)>, Vec<u8>)>)
        ensures
            match r {
                Some((st, h, b)) => cached_spec(self.entries(), cache_key@, now) == Some((st, pair_views(h@), b@)),
                None => cached_spec(self.entries(), cache_key@, now) is None,
            },
    {
        proof {
            reveal_strlit("/cache/");
        }
        let base = concat_str("/cache/", cache_key);
        let mut p = owned(base.as_str());
        push_onto(&mut p, "expiry");
        let expiry = match self.number_opt(p.as_str(), true) {
            Some(x) => x,
            None => {
                return None;
            },
        };
        if now > expiry as i64 {
            return None;
        }
        let mut p = owned(base.as_str());
        push_onto(&mut p, "status");
        let status = match self.number_opt(p.as_str(), false) {
            Some(x) => x,
            None => {
                return None;
            },
        };
        let mut p = owned(base.as_str());
        push_onto(&mut p, "headers.json");
        let headers = match self.text_opt(p.as_str()) {
            None => {
                return None;
            },
            Some(t) => match parse_json_string_map(t.as_str()) {
                Ok(h) => h,
                Err(_) => {
                    return None;
                },
            },
        };
        let mut p = owned(base.as_str());
        push_onto(&mut p, "body");
        let body = match self.data_opt(p.as_str()) {
            Some(b) => b,
            None => {
                return None;
            },
        };
        Some((status as u16, headers, body))
    }

    /// The cached response under `cache_key`, if present and not expired now.
    pub fn get_cached_response(&self, cache_key: &str) -> (r: Option<(u16, Vec<(String, String)>, Vec<u8>)>)
        ensures
            exists|now: i64| #[trigger] cache_read(self.entries(), cache_key@, now, r),
    {
        let now = utc_now_secs();
        let r = self.get_cached_response_at(cache_key, now);
        proof {
            assert(cache_read(self.entries(), cache_key@, now, r));
        }
        r
    }

    /// Caches a GET response under `cache_key`, expiring `max_age_secs` from now (see
    /// [`HttpFS::set_cached_response_at`]). When the expiry would not fit in 64 bits,
    /// nothing is done and `None` comes back.
    pub fn set_cached_response(&mut self, cache_key: &str, status_code: u16, headers: &Vec<(String, String)>, body: Vec<u8>, max_age_secs: u64) -> (r: Option<Result<(), FSError>>)
        ensures
            exists|now: i64| #[trigger] cache_written(
                old(self).entries(),
                final(self).entries(),
                cache_key@,
                status_code,
                pair_views(headers@),
                body@,
                max_age_secs,
                now,
                r,
            ),
            final(self).pending_requests() == old(self).pending_requests(),
    {
        let ghost before = self.entries();
        let now = utc_now_secs();
        if (now as u64) <= u64::MAX - max_age_secs {
            let res = self.set_cached_response_at(cache_key, status_code, headers, body, max_age_secs, now);
            proof {
                assert(cache_written(before, self.entries(), cache_key@, status_code, pair_views(headers@), body@, max_age_secs, now, Some(res)));
            }
            Some(res)
        } else {
            proof {
                assert(cache_written(before, self.entries(), cache_key@, status_code, pair_views(headers@), body@, max_age_secs, now, None));
            }
            None
        }
    }

    /// Caches a GET response under `cache_key`, expiring `max_age_secs` after `now`
    /// (seconds since the epoch).
    pub fn set_cached_response_at(&mut self, cache_key: &str, status_code: u16, headers: &Vec<(String, String)>, body: Vec<u8>, max_age_secs: u64, now: i64) -> (r: Result<(), FSError>)
        requires
            (now as u64) + max_age_secs <= u64::MAX,
        ensures
            r is Ok,
            cached_some(old(self).entries(), final(self).entries(), cache_key@, status_code, pair_views(headers@), body@, ((now as u64) + max_age_secs) as u64),
            forall|t: i64| t <= (((now as u64) + max_age_secs) as u64) as i64 ==> #[trigger] cache_hit(
                final(self).entries(),
                cache_key@,
                t,
                status_code,
                pair_views(headers@),
                body@,
            ),
            final(self).pending_requests() == old(self).pending_requests(),
    {
        proof {
            reveal_strlit("/cache/");
            reveal_strlit("etag");
            reveal_strlit("ETag");
        }
        let base = concat_str("/cache/", cache_key);
        let ghost m0 = self.entries();
        if self.entry_ref(base.as_str()).is_none() {
            self.put_dir(base.as_str());
        }
        let ghost m1 = self.entries();
        let ghost de = if m0.contains_key(path_key(base@)) { fresh_dir_view(base@) } else { m1[path_key(base@)] };
        let expiry_secs: u64 = (now as u64) + max_age_secs;
        let mut status_path = owned(base.as_str());
        push_onto(&mut status_path, "status");
        let status_data = bytes_of(u64_to_decimal(status_code as u64).as_str());
        self.put_file(status_path.as_str(), status_data, 3);
        let ghost m2 = self.entries();
        let ghost se = m2[path_key(status_path@)];
        proof {
            if !m0.contains_key(path_key(base@)) {
                assert(m1 =~= m0.insert(path_key(base@), de));
            } else {
                assert(m1 =~= m0);
            }
            assert(m2 =~= dir_ensured(m0, base@, de).insert(path_key(status_path@), se));
        }
        let headers_json = json_text_of(headers);
        let mut headers_path = owned(base.as_str());
        push_onto(&mut headers_path, "headers.json");
        let headers_data = bytes_of(headers_json.as_str());
        let headers_len = headers_data.len();
        self.put_file(headers_path.as_str(), headers_data, headers_len as u64);
        let ghost he = self.entries()[path_key(headers_path@)];
        let ghost m3 = self.entries();
        let mut body_path = owned(base.as_str());
        push_onto(&mut body_path, "body");
        let body_len = body.len();
        self.put_file(body_path.as_str(), body, body_len as u64);
        let ghost be = self.entries()[path_key(body_path@)];
        let ghost m4 = self.entries();
        let mut expiry_path = owned(base.as_str());
        push_onto(&mut expiry_path, "expiry");
        let expiry_data = bytes_of(u64_to_decimal(expiry_secs).as_str());
        self.put_file(expiry_path.as_str(), expiry_data, 20);
        let ghost xe = self.entries()[path_key(expiry_path@)];
        let ghost m5 = self.entries();
        proof {
            assert(m3 =~= m2.insert(path_key(headers_path@), he));
            assert(m4 =~= m3.insert(path_key(body_path@), be));
            assert(m5 =~= m4.insert(path_key(expiry_path@), xe));
        }
        let etag = match header_get(headers, "etag") {
            Some(t) => Some(t),
            None => header_get(headers, "ETag"),
        };
        match etag {
            Some(t) => {
                let mut etag_path = owned(base.as_str());
                push_onto(&mut etag_path, "etag");
                let etag_data = bytes_of(t.as_str());
                let etag_len = etag_data.len();
                self.put_file(etag_path.as_str(), etag_data, etag_len as u64);
                let ghost te = self.entries()[path_key(etag_path@)];
                proof {
                    assert(self.entries() =~= m5.insert(path_key(etag_path@), te));
                    assert(cache_stored(m0, self.entries(), cache_key@, status_code, pair_views(headers@), body@, expiry_secs, de, se, he, be, xe, te));
                }
            },
            None => {
                proof {
                    assert(cache_stored(m0, self.entries(), cache_key@, status_code, pair_views(headers@), body@, expiry_secs, de, se, he, be, xe, xe));
                }
            },
        }
        proof {
            assert forall|t: i64| t <= (expiry_secs as i64) implies #[trigger] cache_hit(
                self.entries(),
                cache_key@,
                t,
                status_code,
                pair_views(headers@),
                body@,
            ) by {
                lemma_cache_read_back(m0, self.entries(), cache_key@, status_code, pair_views(headers@), body@, expiry_secs, t);
            }
        }
        Ok(())
    }

    /// The cached ETag under `cache_key`.
    pub fn get_cached_etag(&self, cache_key: &str) -> (r: Option<String>)
        ensures
            match r {
                Some(t) => text_at(self.entries(), "/cache/"@ + cache_key@ + "/etag"@) == Some(t@),
                None => text_at(self.entries(), "/cache/"@ + cache_key@ + "/etag"@) is None,
            },
    {
        proof {
            reveal_strlit("/cache/");
            reveal_strlit("/etag");
        }
        let p = concat_str(concat_str("/cache/", cache_key).as_str(), "/etag");
        self.text_opt(p.as_str())
    }

    /// The cached body under `cache_key`.
    pub fn get_cached_body_only(&self, cache_key: &str) -> (r: Option<Vec<u8>>)
        ensures
            match r {
                Some(d) => data_at(self.entries(), "/cache/"@ + cache_key@ + "/body"@) == Some(d@),
                None => data_at(self.entries(), "/cache/"@ + cache_key@ + "/body"@) is None,
            },
    {
        proof {
            reveal_strlit("/cache/");
            reveal_strlit("/body");
        }
        let p = concat_str(concat_str("/cache/", cache_key).as_str(), "/body");
        self.data_opt(p.as_str())
    }
}

pub open spec fn cached_status(c: Option<(u16, Seq<(Seq<char>, Seq<char>)>, Seq<u8>)>) -> u16 {
    match c {
        Some((s, _h, _b)) => s,
        None => 0,
    }
}

pub open spec fn cached_headers(c: Option<(u16, Seq<(Seq<char>, Seq<char>)>, Seq<u8>)>) -> Seq<(Seq<char>, Seq<char>)> {
    match c {
        Some((_s, h, _b)) => h,
        None => Seq::empty(),
    }
}

pub open spec fn cached_body(c: Option<(u16, Seq<(Seq<char>, Seq<char>)>, Seq<u8>)>) -> Seq<u8> {
    match c {
        Some((_s, _h, b)) => b,
        None => Seq::empty(),
    }
}

/// The plan that a request's files give, once the method is known to be sendable.
pub open spec fn plan_matches(
    plan: RequestPlan,
    entries: Map<Seq<char>, EntryView>,
    id: Seq<char>,
    url: Seq<char>,
    method: Seq<char>,
    headers: Seq<(Seq<char>, Seq<char>)>,
) -> bool {
    let upper = upper_text(trim_spec(method));
    let is_get = upper == "GET"@;
    let body = match data_at(entries, request_file(id, "body"@)) {
        Some(b) => b,
        None => Seq::empty(),
    };
    let key = cache_key_spec(trim_spec(url));
    &&& plan.method@ == upper
    &&& plan.is_get == is_get
    &&& plan.url@ == if is_get { trim_spec(url) } else { url }
    &&& pair_views(plan.headers@) == headers
    &&& plan.cache_key@ == if is_get { key } else { Seq::empty() }
    &&& match plan.body {
        Some(b) => b@ == body && body.len() > 0 && body_method(upper),
        None => !(body.len() > 0 && body_method(upper)),
    }
    &&& match plan.if_none_match {
        Some(t) => is_get && exists|e: Seq<char>| text_at(entries, "/cache/"@ + key + "/etag"@) == Some(e) && t@ == trim_quotes(e),
        None => !is_get || text_at(entries, "/cache/"@ + key + "/etag"@) is None,
    }
}

/// A request whose method is POST, PUT or PATCH (in any case, around white space) is sent
/// with its body: when the request has a url, a method and headers that parse, and its
/// body file holds some bytes, beginning it plans to send exactly those bytes, with the
/// method upper-cased, and changes no file.
pub proof fn lemma_body_is_sent(
    m: Map<Seq<char>, EntryView>,
    after: Map<Seq<char>, EntryView>,
    id: Seq<char>,
    now: i64,
    r: Result<RequestStep, FSError>,
)
    requires
        request_begun(m, after, id, now, r),
        text_at(m, request_file(id, "url"@)) is Some,
        text_at(m, request_file(id, "method"@)) is Some,
        ({
            let u = upper_text(trim_spec(text_at(m, request_file(id, "method"@))->0));
            u == "POST"@ || u == "PUT"@ || u == "PATCH"@
        }),
        request_headers(m, id) is Ok,
        data_at(m, request_file(id, "body"@)) is Some,
        data_at(m, request_file(id, "body"@))->0.len() > 0,
    ensures
        r matches Ok(RequestStep::Send(plan)) && plan.body is Some
            && plan.body->0@ == data_at(m, request_file(id, "body"@))->0
            && plan.method@ == upper_text(trim_spec(text_at(m, request_file(id, "method"@))->0)),
        after == m,
{
    reveal_strlit("GET");
    reveal_strlit("POST");
    reveal_strlit("PUT");
    reveal_strlit("PATCH");
    reveal_strlit("DELETE");
    reveal_strlit("HEAD");
    let u = upper_text(trim_spec(text_at(m, request_file(id, "method"@))->0));
    assert(u != "GET"@) by {
        if u == "GET"@ {
            assert(u.len() == 3);
            if u == "PUT"@ {
                assert("GET"@[0] != "PUT"@[0]);
            }
        }
    }
    assert(known_method(u));
    assert(body_method(u));
}

/// A request with any other method, or with an empty or missing body file, is sent
/// without a body.
pub proof fn lemma_no_body_otherwise(
    m: Map<Seq<char>, EntryView>,
    after: Map<Seq<char>, EntryView>,
    id: Seq<char>,
    now: i64,
    r: Result<RequestStep, FSError>,
)
    requires
        request_begun(m, after, id, now, r),
        text_at(m, request_file(id, "url"@)) is Some,
        text_at(m, request_file(id, "method"@)) is Some,
        ({
            let u = upper_text(trim_spec(text_at(m, request_file(id, "method"@))->0));
            let b = data_at(m, request_file(id, "body"@));
            !(u == "POST"@ || u == "PUT"@ || u == "PATCH"@) || b is None || b->0.len() == 0
        }),
        r matches Ok(RequestStep::Send(_)),
    ensures
        r matches Ok(RequestStep::Send(plan)) && plan.body is None,
{
}

/// Beginning request `id` at time `now` took the files from `m` to `after` and gave
/// `r`: a request without url or method fails; a GET whose response is cached and
/// fresh is served from the cache (stored as its response); otherwise nothing changes
/// and the plan to send comes back, or the error for bad headers or an unknown method.
pub open spec fn request_begun(
    m: Map<Seq<char>, EntryView>,
    after: Map<Seq<char>, EntryView>,
    id: Seq<char>,
    now: i64,
    r: Result<RequestStep, FSError>,
) -> bool {
    let url = text_at(m, request_file(id, "url"@));
    let method = text_at(m, request_file(id, "method"@));
    &&& (url is None || method is None) ==> r is Err && after == m
    &&& url is Some && method is Some ==> {
        let upper = upper_text(trim_spec(method->0));
        let is_get = upper == "GET"@;
        let cached = cached_spec(m, cache_key_spec(trim_spec(url->0)), now);
        &&& is_get && cached is Some ==> (r matches Ok(RequestStep::Served))
            && stored_some(m, after, id, cached_status(cached), cached_headers(cached), cached_body(cached))
        &&& !(is_get && cached is Some) ==> after == m && match request_headers(m, id) {
            Err(msg) => r matches Err(e) && invalid_input_with(e, "invalid headers.json: "@ + msg),
            Ok(h) => if known_method(upper) {
                r matches Ok(RequestStep::Send(plan)) && plan_matches(plan, m, id, url->0, method->0, h)
            } else {
                r matches Err(e) && invalid_input_with(e, "unsupported HTTP method: "@ + method->0)
            },
        }
    }
}

impl HttpFS {
    /// Starts executing request `request_id` at time `now` (seconds since the epoch): a GET
    /// whose response is cached and fresh is served from the cache; otherwise says what
    /// to send.
    pub fn begin_request_at(&mut self, request_id: &str, now: i64) -> (r: Result<RequestStep, FSError>)
        ensures
            request_begun(old(self).entries(), final(self).entries(), request_id@, now, r),
            final(self).pending_requests() == old(self).pending_requests(),
    {
        proof {
            reveal_strlit("/requests/");
            reveal_strlit("/");
            reveal_strlit("url");
            reveal_strlit("method");
            reveal_strlit("headers.json");
            reveal_strlit("body");
            reveal_strlit("GET");
            reveal_strlit("POST");
            reveal_strlit("PUT");
            reveal_strlit("DELETE");
            reveal_strlit("PATCH");
            reveal_strlit("HEAD");
        }
        let dir = concat_str(concat_str("/requests/", request_id).as_str(), "/");
        let url_path = concat_str(dir.as_str(), "url");
        let method_path = concat_str(dir.as_str(), "method");
        let headers_path = concat_str(dir.as_str(), "headers.json");
        let body_path = concat_str(dir.as_str(), "body");
        proof {
            assert(url_path@ == request_file(request_id@, "url"@));
            assert(method_path@ == request_file(request_id@, "method"@));
            assert(headers_path@ == request_file(request_id@, "headers.json"@));
            assert(body_path@ == request_file(request_id@, "body"@));
        }
        let url = self.read_to_string_sync(url_path.as_str())?;
        let method = self.read_to_string_sync(method_path.as_str())?;
        let headers_json: String = match self.text_opt(headers_path.as_str()) {
            Some(t) => t,
            None => String::new(),
        };
        let body: Vec<u8> = match self.data_opt(body_path.as_str()) {
            Some(b) => b,
            None => Vec::new(),
        };
        let method_upper = to_upper(trim_str(method.as_str()).as_str());
        let is_get = same_text(method_upper.as_str(), "GET");
        let url_trimmed = trim_str(url.as_str());
        let cache_key: String = if is_get {
            url_to_cache_key(url_trimmed.as_str())
        } else {
            String::new()
        };
        if is_get {
            match self.get_cached_response_at(cache_key.as_str(), now) {
                Some((status_code, headers, hit_body)) => {
                    let ghost c = cached_spec(self.entries(), cache_key@, now);
                    proof {
                        assert(cached_status(c) == status_code);
                        assert(cached_headers(c) == pair_views(headers@));
                        assert(cached_body(c) == hit_body@);
                    }
                    let stored = self.store_response_direct(request_id, status_code, &headers, hit_body);
                    match stored {
                        Ok(()) => {
                            return Ok(RequestStep::Served);
                        },
                        Err(e) => {
                            return Err(e);
                        },
                    }
                },
                None => {},
            }
        }
        let headers: Vec<(String, String)> = if headers_json.as_str().is_empty() {
            let h: Vec<(String, String)> = Vec::new();
            proof {
                assert(pair_views(h@) =~= Seq::<(Seq<char>, Seq<char>)>::empty());
            }
            h
        } else {
            match parse_json_string_map(headers_json.as_str()) {
                Ok(h) => h,
                Err(m) => {
                    return Err(FSError::InvalidInput { message: concat_str("invalid headers.json: ", m.as_str()) });
                },
            }
        };
        let known = same_text(method_upper.as_str(), "GET") || same_text(method_upper.as_str(), "POST")
            || same_text(method_upper.as_str(), "PUT") || same_text(method_upper.as_str(), "DELETE")
            || same_text(method_upper.as_str(), "PATCH") || same_text(method_upper.as_str(), "HEAD");
        if !known {
            return Err(FSError::InvalidInput { message: concat_str("unsupported HTTP method: ", method.as_str()) });
        }
        let target = if is_get {
            url_trimmed
        } else {
            url
        };
        let if_none_match = if is_get {
            match self.get_cached_etag(cache_key.as_str()) {
                Some(t) => Some(trim_quotes_exec(t.as_str())),
                None => None,
            }
        } else {
            None
        };
        let with_body = body.len() > 0 && (same_text(method_upper.as_str(), "POST")
            || same_text(method_upper.as_str(), "PUT") || same_text(method_upper.as_str(), "PATCH"));
        let send_body = if with_body {
            Some(body)
        } else {
            None
        };
        proof {
            reveal_strlit("/cache/");
            reveal_strlit("/etag");
        }
        Ok(RequestStep::Send(RequestPlan {
            method: method_upper,
            url: target,
            headers,
            body: send_body,
            if_none_match,
            cache_key,
            is_get,
        }))
    }

    /// Starts executing request `request_id` now (see [`HttpFS::begin_request_at`]).
    pub fn begin_request(&mut self, request_id: &str) -> (r: Result<RequestStep, FSError>)
        ensures
            exists|now: i64| #[trigger] request_begun(old(self).entries(), final(self).entries(), request_id@, now, r),
            final(self).pending_requests() == old(self).pending_requests(),
    {
        let ghost before = self.entries();
        let now = utc_now_secs();
        let r = self.begin_request_at(request_id, now);
        proof {
            assert(request_begun(before, self.entries(), request_id@, now, r));
        }
        r
    }
}

/// How long a response is cached: GET responses with status 200 and no `no-store`, for
/// their max-age or 60 seconds.
pub open spec fn caching_ttl(is_get: bool, status: u16, headers: Seq<(Seq<char>, Seq<char>)>) -> Option<u64> {
    let d = directive_spec(cache_control_value(headers));
    if is_get && status == 200 && !d.1 {
        Some(
            match d.0 {
                Some(n) => n,
                None => 60u64,
            },
        )
    } else {
        None
    }
}

/// The body that a response is stored with: for a GET answered 304, the cached body
/// (or nothing); otherwise the body received.
pub open spec fn response_body_spec(entries: Map<Seq<char>, EntryView>, key: Seq<char>, is_get: bool, status: u16, body: Seq<u8>) -> Seq<u8> {
    if status == 304 && is_get {
        match data_at(entries, "/cache/"@ + key + "/body"@) {
            Some(b) => b,
            None => Seq::empty(),
        }
    } else {
        body
    }
}

/// After finishing a request: the response stored (reaching `mid`), then, when it is
/// cacheable, a cache entry written that reads back as a hit until it expires.
pub open spec fn finished(
    before: Map<Seq<char>, EntryView>,
    mid: Map<Seq<char>, EntryView>,
    after: Map<Seq<char>, EntryView>,
    id: Seq<char>,
    key: Seq<char>,
    is_get: bool,
    status: u16,
    headers: Seq<(Seq<char>, Seq<char>)>,
    body: Seq<u8>,
    now: i64,
) -> bool {
    &&& stored_some(before, mid, id, status, headers, body)
    &&& match caching_ttl(is_get, status, headers) {
        Some(ttl) => cached_some(mid, after, key, status, headers, body, ((now as u64) + ttl) as u64)
            && forall|t: i64| t <= (((now as u64) + ttl) as u64) as i64 ==> #[trigger] cache_hit(after, key, t, status, headers, body),
        None => after == mid,
    }
}

impl HttpFS {
    /// Whether the body of a response with `status` must be read (a GET answered 304
    /// takes the cached body instead).
    pub fn needs_body(plan: &RequestPlan, status_code: u16) -> (r: bool)
        ensures
            r == !(status_code == 304 && plan.is_get),
    {
        !(status_code == 304 && plan.is_get)
    }

    /// Finishes request `request_id` at time `now` (seconds since the epoch) with the
    /// response received: stores it under `/responses/<id>/` and caches a cacheable GET
    /// response.
    pub fn finish_request_at(&mut self, request_id: &str, plan: &RequestPlan, status_code: u16, headers: Vec<(String, String)>, body: Vec<u8>, now: i64) -> (r: Result<(), FSError>)
        requires
            caching_ttl(plan.is_get, status_code, pair_views(headers@)) matches Some(ttl) ==> (now as u64) + ttl <= u64::MAX,
        ensures
            r is Ok,
            exists|mid: Map<Seq<char>, EntryView>| #[trigger] finished(
                old(self).entries(),
                mid,
                final(self).entries(),
                request_id@,
                plan.cache_key@,
                plan.is_get,
                status_code,
                pair_views(headers@),
                response_body_spec(old(self).entries(), plan.cache_key@, plan.is_get, status_code, body@),
                now,
            ),
            final(self).pending_requests() == old(self).pending_requests(),
    {
        let ghost body0 = body@;
        let response_body: Vec<u8> = if status_code == 304 && plan.is_get {
            match self.get_cached_body_only(plan.cache_key.as_str()) {
                Some(b) => b,
                None => Vec::new(),
            }
        } else {
            body
        };
        let ghost before = self.entries();
        let ghost rb = response_body@;
        proof {
            assert(rb == response_body_spec(before, plan.cache_key@, plan.is_get, status_code, body0));
        }
        let _ = self.store_response_direct(request_id, status_code, &headers, copy_bytes(response_body.as_slice()));
        let ghost mid = self.entries();
        if plan.is_get && status_code == 200 {
            let directive = parse_cache_control(&headers);
            if !directive.no_store {
                let ttl: u64 = match directive.max_age_secs {
                    Some(n) => n,
                    None => 60,
                };
                let _ = self.set_cached_response_at(plan.cache_key.as_str(), status_code, &headers, response_body, ttl, now);
                proof {
                    assert(finished(before, mid, self.entries(), request_id@, plan.cache_key@, plan.is_get, status_code, pair_views(headers@), rb, now));
                }
                return Ok(());
            }
        }
        proof {
            assert(finished(before, mid, self.entries(), request_id@, plan.cache_key@, plan.is_get, status_code, pair_views(headers@), rb, now));
        }
        Ok(())
    }

    /// Finishes request `request_id` now (see [`HttpFS::finish_request_at`]). The time is
    /// read from the clock; when the expiry of a cacheable response would not fit in 64
    /// bits, nothing is done and `None` comes back.
    pub fn finish_request(&mut self, request_id: &str, plan: &RequestPlan, status_code: u16, headers: Vec<(String, String)>, body: Vec<u8>) -> (r: Option<Result<(), FSError>>)
        ensures
            exists|now: i64| #[trigger] request_finished(
                old(self).entries(),
                final(self).entries(),
                request_id@,
                *plan,
                status_code,
                pair_views(headers@),
                body@,
                now,
                r,
            ),
            final(self).pending_requests() == old(self).pending_requests(),
    {
        let ghost before = self.entries();
        let ghost hv = pair_views(headers@);
        let ghost bv = body@;
        let now = utc_now_secs();
        let fits = match caching_ttl_exec(plan.is_get, status_code, &headers) {
            Some(ttl) => (now as u64) <= u64::MAX - ttl,
            None => true,
        };
        if fits {
            let res = self.finish_request_at(request_id, plan, status_code, headers, body, now);
            proof {
                assert(request_finished(before, self.entries(), request_id@, *plan, status_code, hv, bv, now, Some(res)));
            }
            Some(res)
        } else {
            proof {
                assert(request_finished(before, self.entries(), request_id@, *plan, status_code, hv, bv, now, None));
            }
            None
        }
    }
}

fn caching_ttl_exec(is_get: bool, status_code: u16, headers: &Vec<(String, String)>) -> (r: Option<u64>)
    ensures
        r == caching_ttl(is_get, status_code, pair_views(headers@)),
{
    if is_get && status_code == 200 {
        let d = parse_cache_control(headers);
        if !d.no_store {
            return Some(match d.max_age_secs {
                Some(n) => n,
                None => 60,
            });
        }
    }
    None
}

/// The expiry of a response cached at `now` for `ttl` seconds fits in 64 bits.
pub open spec fn expiry_fits(now: i64, ttl: u64) -> bool {
    (now as u64) + ttl <= u64::MAX
}

/// Finishing request `id` with the clock reading `now` took the files from `before` to
/// `after` and gave `r`: when the expiry of a cacheable response does not fit in 64 bits,
/// nothing changes and nothing comes back; otherwise the request is finished as
/// [`finished`] says and `Ok` comes back.
pub open spec fn request_finished(
    before: Map<Seq<char>, EntryView>,
    after: Map<Seq<char>, EntryView>,
    id: Seq<char>,
    plan: RequestPlan,
    status: u16,
    headers: Seq<(Seq<char>, Seq<char>)>,
    body: Seq<u8>,
    now: i64,
    r: Option<Result<(), FSError>>,
) -> bool {
    let fits = match caching_ttl(plan.is_get, status, headers) {
        Some(ttl) => expiry_fits(now, ttl),
        None => true,
    };
    if fits {
        r matches Some(res) && res is Ok && exists|mid: Map<Seq<char>, EntryView>| #[trigger] finished(
            before,
            mid,
            after,
            id,
            plan.cache_key@,
            plan.is_get,
            status,
            headers,
            response_body_spec(before, plan.cache_key@, plan.is_get, status, body),
            now,
        )
    } else {
        r is None && after == before
    }
}

} // verus!
