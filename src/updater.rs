//! Update checking against the project's release feed: reading the few
//! string fields it needs out of the release document, comparing dotted
//! version numbers, and deciding what a check found.
use vstd::prelude::*;

use crate::text::{
    chars_of, ends_with, ends_with_at, find, find_from, is_digit, lemma_find_some_iff, occurs_in,
    skip_ws, skip_ws_from,
};

verus! {

/// `key` in double quotes, as it stands in a JSON document.
pub open spec fn quoted(key: Seq<char>) -> Seq<char> {
    seq!['"'] + key + seq!['"']
}

/// The value of the first `"key": "value"` pair of a JSON document, found
/// by text search: the first occurrence of the quoted key, then optional
/// white space, a colon, optional white space and a quoted string, which
/// ends at the next double quote (escapes are not decoded).
pub open spec fn json_string_value(json: Seq<char>, key: Seq<char>) -> Option<Seq<char>> {
    match find(json, quoted(key)) {
        None => None,
        Some(p) => {
            let a = skip_ws(json.skip(p + quoted(key).len()));
            if a.len() == 0 || a[0] != ':' {
                None
            } else {
                let b = skip_ws(a.skip(1));
                if b.len() == 0 || b[0] != '"' {
                    None
                } else {
                    let c = b.skip(1);
                    match find(c, seq!['"']) {
                        None => None,
                        Some(e) => Some(c.take(e)),
                    }
                }
            }
        },
    }
}

proof fn lemma_skip_skip(t: Seq<char>, a: int, n: int)
    requires
        0 <= a,
        0 <= n,
        a + n <= t.len(),
    ensures
        t.skip(a).skip(n) == t.skip(a + n),
{
    assert(t.skip(a).skip(n) =~= t.skip(a + n));
}

/// The characters `t[from..to]` as a string.
fn string_between(s: &str, t: &Vec<char>, from: usize, to: usize) -> (r: String)
    requires
        t@ == s@,
        from <= to <= t@.len(),
    ensures
        r@ == t@.subrange(from as int, to as int),
{
    String::from_str(s.substring_char(from, to))
}

/// Where the quoted string value at position `b` of `t` (white space
/// already skipped) ends: `Some((start, end))` of its contents.
fn quoted_value_at(t: &Vec<char>, b: usize) -> (r: Option<(usize, usize)>)
    requires
        b <= t@.len(),
    ensures
        ({
            let v = t@.skip(b as int);
            match r {
                Some((s, e)) => {
                    &&& v.len() > 0 && v[0] == '"'
                    &&& s == b + 1
                    &&& s <= e <= t@.len()
                    &&& find(v.skip(1), seq!['"']) == Some(e - s)
                    &&& v.skip(1).take(e - s) == t@.subrange(s as int, e as int)
                },
                None => v.len() == 0 || v[0] != '"' || find(v.skip(1), seq!['"']) is None,
            }
        }),
{
    if b >= t.len() || t[b] != '"' {
        return None;
    }
    let q = vec!['"'];
    proof {
        assert(q@ =~= seq!['"']);
        lemma_skip_skip(t@, b as int, 1);
    }
    match find_from(t, &q, b + 1) {
        None => None,
        Some(e) => {
            proof {
                crate::text::lemma_find_occurs(t@.skip(b + 1), q@);
                assert(t@.skip(b + 1).take(e - (b + 1)) =~= t@.subrange(b + 1, e as int));
            }
            Some((b + 1, e))
        },
    }
}

/// The value of the first `"key": "value"` pair of `json`, found by text
/// search without a full parser; `None` where the key is missing or not
/// followed by a string.
pub fn extract_json_string(json: &str, key: &str) -> (r: Option<String>)
    ensures
        match r {
            Some(v) => json_string_value(json@, key@) == Some(v@),
            None => json_string_value(json@, key@) is None,
        },
{
    let t = chars_of(json);
    let k = chars_of(key);
    let mut pat: Vec<char> = Vec::new();
    pat.push('"');
    let mut i: usize = 0;
    while i < k.len()
        invariant
            i <= k@.len(),
            pat@ == seq!['"'] + k@.take(i as int),
        decreases k@.len() - i,
    {
        pat.push(k[i]);
        proof {
            assert(pat@ =~= seq!['"'] + k@.take(i + 1));
        }
        i += 1;
    }
    pat.push('"');
    proof {
        assert(pat@ =~= quoted(key@));
        assert(t@.skip(0) =~= t@);
    }
    let p = match find_from(&t, &pat, 0) {
        None => return None,
        Some(p) => p,
    };
    proof {
        crate::text::lemma_find_occurs(t@.skip(0), pat@);
        assert(p + pat@.len() <= t@.len());
    }
    let n = t.len();
    let after = p + pat.len();
    let a = skip_ws_from(&t, after);
    if a >= n || t[a] != ':' {
        proof {
            if a < t@.len() {
                assert(t@.skip(a as int)[0] == t@[a as int]);
            }
        }
        return None;
    }
    proof {
        assert(t@.skip(a as int)[0] == t@[a as int]);
        lemma_skip_skip(t@, a as int, 1);
    }
    let b = skip_ws_from(&t, a + 1);
    match quoted_value_at(&t, b) {
        None => None,
        Some((s, e)) => Some(string_between(json, &t, s, e)),
    }
}

/// The key that names an asset's download address in a release document.
pub open spec fn asset_marker() -> Seq<char> {
    "browser_download_url"@
}

/// The first asset download address at or after position `from` of the
/// release document `json` that ends with `suffix`. Each occurrence of the
/// marker is read as `"browser_download_url": "address"`; the search gives
/// up where the marker is not followed by its closing quote and a colon,
/// and passes over an occurrence whose value is not a string or does not
/// end with `suffix`.
pub open spec fn asset_url_from(json: Seq<char>, suffix: Seq<char>, from: int) -> Option<Seq<char>>
    decreases json.len() - from,
{
    if from < 0 || from > json.len() {
        None
    } else {
        match find(json.skip(from), asset_marker()) {
            None => None,
            Some(p) => {
                let next = from + p + asset_marker().len();
                let a = skip_ws(json.skip(next));
                if next <= from || next > json.len() || a.len() == 0 || a[0] != '"' {
                    None
                } else {
                    let b = skip_ws(a.skip(1));
                    if b.len() == 0 || b[0] != ':' {
                        None
                    } else {
                        let c = skip_ws(b.skip(1));
                        let found = if c.len() > 0 && c[0] == '"' {
                            match find(c.skip(1), seq!['"']) {
                                Some(e) => if ends_with(c.skip(1).take(e), suffix) {
                                    Some(c.skip(1).take(e))
                                } else {
                                    None
                                },
                                None => None,
                            }
                        } else {
                            None
                        };
                        if found is Some {
                            found
                        } else {
                            asset_url_from(json, suffix, next)
                        }
                    }
                }
            },
        }
    }
}

/// The first asset download address of a release document that ends with
/// `suffix` (".exe", ".dmg"), found by text search.
pub fn extract_asset_download_url(json: &str, suffix: &str) -> (r: Option<String>)
    ensures
        match r {
            Some(v) => asset_url_from(json@, suffix@, 0) == Some(v@),
            None => asset_url_from(json@, suffix@, 0) is None,
        },
{
    let t = chars_of(json);
    let sfx = chars_of(suffix);
    let marker = chars_of("browser_download_url");
    proof {
        reveal_strlit("browser_download_url");
    }
    let n = t.len();
    let mut from: usize = 0;
    loop
        invariant
            n == t@.len(),
            from <= t@.len(),
            t@ == json@,
            sfx@ == suffix@,
            marker@ == asset_marker(),
            marker@.len() == 20,
            asset_url_from(t@, sfx@, 0) == asset_url_from(t@, sfx@, from as int),
        decreases t@.len() - from,
    {
        let p = match find_from(&t, &marker, from) {
            None => return None,
            Some(p) => p,
        };
        proof {
            crate::text::lemma_find_occurs(t@.skip(from as int), marker@);
            assert(p + marker@.len() <= t@.len());
        }
        let next = p + marker.len();
        let a = skip_ws_from(&t, next);
        if a >= n || t[a] != '"' {
            proof {
                if a < t@.len() {
                    assert(t@.skip(a as int)[0] == t@[a as int]);
                }
            }
            return None;
        }
        proof {
            assert(t@.skip(a as int)[0] == t@[a as int]);
            lemma_skip_skip(t@, a as int, 1);
        }
        let b = skip_ws_from(&t, a + 1);
        if b >= n || t[b] != ':' {
            proof {
                if b < t@.len() {
                    assert(t@.skip(b as int)[0] == t@[b as int]);
                }
            }
            return None;
        }
        proof {
            assert(t@.skip(b as int)[0] == t@[b as int]);
            lemma_skip_skip(t@, b as int, 1);
        }
        let c = skip_ws_from(&t, b + 1);
        if let Some((s, e)) = quoted_value_at(&t, c) {
            if ends_with_at(&t, s, e, &sfx) {
                return Some(string_between(json, &t, s, e));
            }
        }
        from = next;
    }
}

/// The first `.exe` asset download address of a release document.
pub fn extract_exe_download_url(json: &str) -> (r: Option<String>)
    ensures
        match r {
            Some(v) => asset_url_from(json@, ".exe"@, 0) == Some(v@),
            None => asset_url_from(json@, ".exe"@, 0) is None,
        },
{
    extract_asset_download_url(json, ".exe")
}

/// The pieces of `s` between dots, as `str::split('.')` gives them (an
/// empty text gives one empty piece).
pub open spec fn split_dots(s: Seq<char>) -> Seq<Seq<char>>
    decreases s.len(),
{
    if s.len() == 0 {
        seq![Seq::<char>::empty()]
    } else {
        let prev = split_dots(s.drop_last());
        if s.last() == '.' {
            prev.push(Seq::<char>::empty())
        } else {
            prev.update(prev.len() - 1, prev.last().push(s.last()))
        }
    }
}

/// The value of a sequence of decimal digits.
pub open spec fn digits_value(d: Seq<char>) -> nat
    decreases d.len(),
{
    if d.len() == 0 {
        0
    } else {
        digits_value(d.drop_last()) * 10 + ((d.last() as u32) - ('0' as u32)) as nat
    }
}

/// The digits of an unsigned number in text: an optional leading `+` is
/// dropped.
pub open spec fn unsigned_digits(s: Seq<char>) -> Seq<char> {
    if s.len() > 0 && s[0] == '+' {
        s.drop_first()
    } else {
        s
    }
}

/// What `str::parse::<u32>` makes of `s`: one or more decimal digits after
/// an optional `+`, whose value fits in a `u32`.
pub open spec fn parse_u32(s: Seq<char>) -> Option<u32> {
    let d = unsigned_digits(s);
    if d.len() > 0 && (forall|i: int| 0 <= i < d.len() ==> is_digit(#[trigger] d[i]))
        && digits_value(d) <= u32::MAX {
        Some(digits_value(d) as u32)
    } else {
        None
    }
}

/// The numbers of the pieces that parse, in order.
pub open spec fn parsed_parts(pieces: Seq<Seq<char>>) -> Seq<u32>
    decreases pieces.len(),
{
    if pieces.len() == 0 {
        Seq::empty()
    } else {
        let prev = parsed_parts(pieces.drop_last());
        match parse_u32(pieces.last()) {
            Some(v) => prev.push(v),
            None => prev,
        }
    }
}

/// The components of a dotted version number; a piece that is not a
/// number is left out.
pub open spec fn version_parts(v: Seq<char>) -> Seq<u32> {
    parsed_parts(split_dots(v))
}

/// Component `i` of a version, zero past its end.
pub open spec fn part_at(v: Seq<u32>, i: int) -> u32 {
    if 0 <= i < v.len() {
        v[i]
    } else {
        0
    }
}

/// True when `a` is newer than `b` from component `i` on: the first
/// component where they differ is larger in `a`.
pub open spec fn newer_from(a: Seq<u32>, b: Seq<u32>, i: int) -> bool
    decreases a.len() + b.len() - i,
{
    if i < 0 || (i >= a.len() && i >= b.len()) {
        false
    } else if part_at(a, i) > part_at(b, i) {
        true
    } else if part_at(a, i) < part_at(b, i) {
        false
    } else {
        newer_from(a, b, i + 1)
    }
}

/// True when the version `a` is newer than the version `b`.
pub open spec fn is_newer(a: Seq<char>, b: Seq<char>) -> bool {
    newer_from(version_parts(a), version_parts(b), 0)
}

/// The largest value that is not a `u32`; digit values are counted up to it.
const PARSE_CAP: u64 = 0x1_0000_0000;

/// The number written as the characters `t[from..to]`, as
/// `str::parse::<u32>` reads it.
fn parse_u32_at(t: &Vec<char>, from: usize, to: usize) -> (r: Option<u32>)
    requires
        from <= to <= t@.len(),
    ensures
        r == parse_u32(t@.subrange(from as int, to as int)),
{
    let ghost s = t@.subrange(from as int, to as int);
    let start = if from < to && t[from] == '+' { from + 1 } else { from };
    proof {
        if from < to && t@[from as int] == '+' {
            assert(unsigned_digits(s) =~= t@.subrange(start as int, to as int));
        } else {
            assert(unsigned_digits(s) =~= t@.subrange(start as int, to as int));
        }
    }
    if start >= to {
        return None;
    }
    let ghost d = t@.subrange(start as int, to as int);
    let mut acc: u64 = 0;
    let mut i: usize = start;
    while i < to
        invariant
            start <= i <= to <= t@.len(),
            d == t@.subrange(start as int, to as int),
            s == t@.subrange(from as int, to as int),
            unsigned_digits(s) == d,
            forall|k: int| start <= k < i ==> is_digit(#[trigger] t@[k]),
            acc as nat == if digits_value(t@.subrange(start as int, i as int)) < PARSE_CAP {
                digits_value(t@.subrange(start as int, i as int))
            } else {
                PARSE_CAP as nat
            },
        decreases to - i,
    {
        let c = t[i];
        if !(c >= '0' && c <= '9') {
            proof {
                assert(d[i - start] == c);
                assert(!is_digit(d[i - start]));
            }
            return None;
        }
        let digit = (c as u32 - '0' as u32) as u64;
        proof {
            let pre = t@.subrange(start as int, i as int);
            let nxt = t@.subrange(start as int, i + 1);
            assert(nxt.drop_last() =~= pre);
            assert(digits_value(nxt) == digits_value(pre) * 10 + digit);
            if digits_value(pre) >= PARSE_CAP {
                assert(digits_value(pre) * 10 + digit >= PARSE_CAP) by (nonlinear_arith)
                    requires
                        digits_value(pre) >= PARSE_CAP,
                ;
            }
        }
        acc = if acc >= PARSE_CAP {
            PARSE_CAP
        } else {
            let v = acc * 10 + digit;
            if v >= PARSE_CAP { PARSE_CAP } else { v }
        };
        i += 1;
    }
    proof {
        assert forall|k: int| 0 <= k < d.len() implies is_digit(#[trigger] d[k]) by {
            assert(d[k] == t@[start + k]);
        }
    }
    if acc >= PARSE_CAP {
        None
    } else {
        Some(acc as u32)
    }
}

/// The components of the dotted version number `v`.
fn version_parts_of(v: &str) -> (r: Vec<u32>)
    ensures
        r@ == version_parts(v@),
{
    let t = chars_of(v);
    let mut parts: Vec<u32> = Vec::new();
    let mut start: usize = 0;
    let mut i: usize = 0;
    while i < t.len()
        invariant
            start <= i <= t@.len(),
            t@ == v@,
            split_dots(t@.take(i as int)).len() >= 1,
            split_dots(t@.take(i as int)).last() == t@.subrange(start as int, i as int),
            parts@ == parsed_parts(split_dots(t@.take(i as int)).drop_last()),
        decreases t@.len() - i,
    {
        let ghost pieces = split_dots(t@.take(i as int));
        proof {
            assert(t@.take(i + 1).drop_last() =~= t@.take(i as int));
        }
        if t[i] == '.' {
            let piece = parse_u32_at(&t, start, i);
            if let Some(n) = piece {
                parts.push(n);
            }
            proof {
                let now = split_dots(t@.take(i + 1));
                assert(now =~= pieces.push(Seq::<char>::empty()));
                assert(now.drop_last() =~= pieces);
                assert(pieces.drop_last().push(pieces.last()) =~= pieces);
                assert(t@.subrange(i + 1, i + 1) =~= Seq::<char>::empty());
            }
            start = i + 1;
        } else {
            proof {
                let now = split_dots(t@.take(i + 1));
                assert(now.drop_last() =~= pieces.drop_last());
                assert(now.last() =~= t@.subrange(start as int, i + 1));
            }
        }
        i += 1;
    }
    let last = parse_u32_at(&t, start, t.len());
    if let Some(n) = last {
        parts.push(n);
    }
    proof {
        let pieces = split_dots(t@.take(i as int));
        assert(t@.take(i as int) =~= t@);
        assert(pieces.drop_last().push(pieces.last()) =~= pieces);
    }
    parts
}

/// Returns true if the dotted version `a` is newer than `b`: compared
/// component by component, missing components counting as zero, and pieces
/// that are not numbers left out.
pub fn version_newer(a: &str, b: &str) -> (r: bool)
    ensures
        r == is_newer(a@, b@),
{
    let va = version_parts_of(a);
    let vb = version_parts_of(b);
    let n = if va.len() > vb.len() { va.len() } else { vb.len() };
    let mut i: usize = 0;
    while i < n
        invariant
            n as int == if va@.len() > vb@.len() { va@.len() as int } else { vb@.len() as int },
            i <= n,
            va@ == version_parts(a@),
            vb@ == version_parts(b@),
            newer_from(va@, vb@, 0) == newer_from(va@, vb@, i as int),
        decreases n - i,
    {
        let ca = if i < va.len() { va[i] } else { 0 };
        let cb = if i < vb.len() { vb[i] } else { 0 };
        assert(part_at(va@, i as int) == ca && part_at(vb@, i as int) == cb);
        assert(!(i >= va@.len() && i >= vb@.len()));
        if ca > cb {
            return true;
        }
        if ca < cb {
            return false;
        }
        i += 1;
    }
    false
}

/// The version of this build.
pub const APP_VERSION: &'static str = "0.9.2";

/// The page that lists every release.
pub const RELEASES_URL: &'static str = "https://github.com/KDSPL/savemyeyes/releases";

/// Where the assets of a release are downloaded from, before the tag.
pub const DOWNLOAD_BASE: &'static str = "https://github.com/KDSPL/savemyeyes/releases/download/";

/// What an update check found.
#[derive(Clone, Debug)]
pub enum UpdateResult {
    NoUpdate,
    UpdateAvailable { version: String, url: String, download_url: String },
    Error(String),
}

/// What fetching the latest release document gave.
#[derive(Clone, Debug)]
pub enum FetchOutcome {
    /// The document, read in full.
    Body(String),
    /// The request failed, with the error's text.
    RequestFailed(String),
    /// The response could not be read, with the error's text.
    ReadFailed(String),
}

/// What an [`UpdateResult`] holds.
pub enum UpdateView {
    NoUpdate,
    Available { version: Seq<char>, url: Seq<char>, download_url: Seq<char> },
    Error(Seq<char>),
}

impl UpdateResult {
    pub open spec fn view(&self) -> UpdateView {
        match self {
            UpdateResult::NoUpdate => UpdateView::NoUpdate,
            UpdateResult::UpdateAvailable { version, url, download_url } => UpdateView::Available {
                version: version@,
                url: url@,
                download_url: download_url@,
            },
            UpdateResult::Error(m) => UpdateView::Error(m@),
        }
    }
}

/// `s` without its leading `v` characters, as `trim_start_matches('v')`.
pub open spec fn strip_v(s: Seq<char>) -> Seq<char>
    decreases s.len(),
{
    if s.len() > 0 && s[0] == 'v' {
        strip_v(s.drop_first())
    } else {
        s
    }
}

/// A request error that only says the release feed cannot be reached (no
/// release yet, or no network): it counts as no update.
pub open spec fn unreachable_error(m: Seq<char>) -> bool {
    occurs_in(m, "404"@) || occurs_in(m, "network"@) || occurs_in(m, "connect"@)
}

/// What the latest release document `body` means for a build at version
/// `current` that installs assets ending with `suffix`: an update when the
/// release's tag (without leading `v`s) is a newer version, with the
/// release page (or the releases list) and the first matching asset (or
/// the conventional asset address for the tag).
pub open spec fn release_decision(body: Seq<char>, current: Seq<char>, suffix: Seq<char>) -> UpdateView {
    let tag = match json_string_value(body, "tag_name"@) {
        Some(t) => t,
        None => Seq::empty(),
    };
    let page = match json_string_value(body, "html_url"@) {
        Some(u) => u,
        None => RELEASES_URL@,
    };
    let latest = strip_v(tag);
    let download = match asset_url_from(body, suffix, 0) {
        Some(u) => u,
        None => DOWNLOAD_BASE@ + tag + "/savemyeyes"@ + suffix,
    };
    if latest.len() > 0 && is_newer(latest, current) {
        UpdateView::Available { version: latest, url: page, download_url: download }
    } else {
        UpdateView::NoUpdate
    }
}

/// The result of an update check whose fetch gave `outcome`.
pub open spec fn check_decision(outcome: FetchOutcome, current: Seq<char>, suffix: Seq<char>) -> UpdateView {
    match outcome {
        FetchOutcome::Body(b) => release_decision(b@, current, suffix),
        FetchOutcome::RequestFailed(m) => if unreachable_error(m@) {
            UpdateView::NoUpdate
        } else {
            UpdateView::Error("Request failed: "@ + m@)
        },
        FetchOutcome::ReadFailed(m) => UpdateView::Error("Failed to read response: "@ + m@),
    }
}

/// True when `p` occurs in `m`.
fn mentions(m: &str, p: &str) -> (r: bool)
    ensures
        r == occurs_in(m@, p@),
{
    let t = chars_of(m);
    let q = chars_of(p);
    proof {
        assert(t@.skip(0) =~= t@);
        lemma_find_some_iff(t@, q@);
    }
    find_from(&t, &q, 0).is_some()
}

/// `a` followed by `b`.
fn joined(a: &str, b: &str) -> (r: String)
    ensures
        r@ == a@ + b@,
{
    let mut r = String::from_str(a);
    r.append(b);
    r
}

/// Decides what an update check found, from what fetching the latest
/// release document gave, the running version and the suffix of the asset
/// this platform installs. A request error that says the feed cannot be
/// reached counts as no update; any other failure is an error.
pub fn check_for_update(outcome: &FetchOutcome, current_version: &str, asset_suffix: &str) -> (r: UpdateResult)
    ensures
        r.view() == check_decision(*outcome, current_version@, asset_suffix@),
{
    match outcome {
        FetchOutcome::Body(body) => decide_release(body.as_str(), current_version, asset_suffix),
        FetchOutcome::RequestFailed(m) => {
            if mentions(m.as_str(), "404") || mentions(m.as_str(), "network") || mentions(
                m.as_str(),
                "connect",
            ) {
                UpdateResult::NoUpdate
            } else {
                UpdateResult::Error(joined("Request failed: ", m.as_str()))
            }
        },
        FetchOutcome::ReadFailed(m) => UpdateResult::Error(joined("Failed to read response: ", m.as_str())),
    }
}

/// Decides what the latest release document `body` means for a build at
/// `current_version` that installs assets ending with `asset_suffix`.
pub fn decide_release(body: &str, current_version: &str, asset_suffix: &str) -> (r: UpdateResult)
    ensures
        r.view() == release_decision(body@, current_version@, asset_suffix@),
{
    let tag = match extract_json_string(body, "tag_name") {
        Some(t) => t,
        None => String::new(),
    };
    let page = match extract_json_string(body, "html_url") {
        Some(u) => u,
        None => String::from_str(RELEASES_URL),
    };
    let tc = chars_of(tag.as_str());
    proof {
        assert(tc@.skip(0) =~= tc@);
    }
    let mut k: usize = 0;
    while k < tc.len() && tc[k] == 'v'
        invariant
            k <= tc@.len(),
            strip_v(tc@.skip(k as int)) == strip_v(tc@),
        decreases tc@.len() - k,
    {
        proof {
            assert(tc@.skip(k as int).drop_first() =~= tc@.skip(k + 1));
        }
        k += 1;
    }
    proof {
        if k < tc@.len() {
            assert(tc@.skip(k as int)[0] == tc@[k as int]);
        }
        assert(tc@.skip(k as int) =~= tc@.subrange(k as int, tc@.len() as int));
    }
    let latest = tag.as_str().substring_char(k, tc.len());
    if k >= tc.len() {
        return UpdateResult::NoUpdate;
    }
    let download = match extract_asset_download_url(body, asset_suffix) {
        Some(u) => u,
        None => {
            let mut d = String::from_str(DOWNLOAD_BASE);
            d.append(tag.as_str());
            d.append("/savemyeyes");
            d.append(asset_suffix);
            d
        },
    };
    if version_newer(latest, current_version) {
        UpdateResult::UpdateAvailable { version: String::from_str(latest), url: page, download_url: download }
    } else {
        UpdateResult::NoUpdate
    }
}

} // verus!
