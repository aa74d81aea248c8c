//! Validation of user-supplied post IDs, handles and post URLs.
use vstd::prelude::*;
use crate::error::{Error, Kind};
use crate::text::{all_digits, chars_of, decimal_u64, is_ascii_alphanumeric, lower, lower_char, parse_decimal, string_of_range};

verus! {

/// A positive decimal post ID of at most 20 digits that fits in 64 bits.
pub open spec fn is_post_id(s: Seq<char>) -> bool {
    &&& 1 <= s.len() <= 20
    &&& decimal_u64(s) matches Some(v) && v > 0
}

pub fn is_post_id_chars(v: &[char]) -> (b: bool)
    ensures
        b == is_post_id(v@),
{
    if v.len() == 0 || v.len() > 20 {
        return false;
    }
    match parse_decimal(v, 0, v.len()) {
        Some(n) => {
            assert(v@.subrange(0, v@.len() as int) == v@);
            n > 0
        },
        None => {
            assert(v@.subrange(0, v@.len() as int) == v@);
            false
        },
    }
}

pub fn id(value: &str) -> (r: Result<String, Error>)
    ensures
        match r {
            Ok(v) => is_post_id(value@) && v@ == value@,
            Err(e) => !is_post_id(value@) && e.kind == Kind::InvalidInput,
        },
{
    let chars = chars_of(value);
    if is_post_id_chars(&chars) {
        return Ok(value.to_owned());
    }
    Err(Error::new(Kind::InvalidInput, "Expected a positive decimal post ID (at most 20 digits)"))
}

pub open spec fn is_handle_char(c: char) -> bool {
    is_ascii_alphanumeric(c) || c == '_'
}

/// A handle body: 1 to 15 ASCII letters, digits or underscores.
pub open spec fn is_handle(s: Seq<char>) -> bool {
    &&& 1 <= s.len() <= 15
    &&& forall|i: int| 0 <= i < s.len() ==> #[trigger] is_handle_char(s[i])
}

/// The text with one leading `@` removed, if present.
pub open spec fn strip_at(s: Seq<char>) -> Seq<char> {
    if s.len() > 0 && s[0] == '@' {
        s.drop_first()
    } else {
        s
    }
}

pub fn is_handle_range(v: &[char], lo: usize) -> (b: bool)
    requires
        lo <= v@.len(),
    ensures
        b == is_handle(v@.subrange(lo as int, v@.len() as int)),
{
    let ghost t = v@.subrange(lo as int, v@.len() as int);
    let n = v.len() - lo;
    if n == 0 || n > 15 {
        return false;
    }
    let mut i: usize = lo;
    while i < v.len()
        invariant
            lo <= i <= v@.len(),
            t == v@.subrange(lo as int, v@.len() as int),
            forall|k: int| 0 <= k < i - lo ==> #[trigger] is_handle_char(t[k]),
        decreases v@.len() - i,
    {
        let c = v[i];
        assert(t[i - lo] == c);
        if !((c >= '0' && c <= '9') || (c >= 'a' && c <= 'z') || (c >= 'A' && c <= 'Z') || c == '_') {
            assert(!is_handle_char(t[i - lo]));
            return false;
        }
        i = i + 1;
    }
    true
}

pub fn handle(value: &str) -> (r: Result<String, Error>)
    ensures
        match r {
            Ok(h) => is_handle(strip_at(value@)) && h@ == strip_at(value@),
            Err(e) => !is_handle(strip_at(value@)) && e.kind == Kind::InvalidInput,
        },
{
    let chars = chars_of(value);
    let lo: usize = if chars.len() > 0 && chars[0] == '@' { 1 } else { 0 };
    assert(strip_at(value@) == chars@.subrange(lo as int, chars@.len() as int));
    if is_handle_range(&chars, lo) {
        return Ok(string_of_range(&chars, lo, chars.len()));
    }
    Err(Error::new(Kind::InvalidInput, "Invalid X handle"))
}

} // verus!

verus! {

/// A separator: `/` only, or any of `/`, `?`, `#`.
pub open spec fn is_sep(c: char, slash_only: bool) -> bool {
    c == '/' || (!slash_only && (c == '?' || c == '#'))
}

pub open spec fn first_sep(s: Seq<char>, slash_only: bool) -> nat
    decreases s.len(),
{
    if s.len() == 0 {
        0
    } else if is_sep(s[0], slash_only) {
        0
    } else {
        1 + first_sep(s.drop_first(), slash_only)
    }
}

pub proof fn lemma_first_sep(s: Seq<char>, slash_only: bool, n: int)
    requires
        0 <= n <= s.len(),
        forall|k: int| 0 <= k < n ==> !is_sep(#[trigger] s[k], slash_only),
        n == s.len() || is_sep(s[n], slash_only),
    ensures
        first_sep(s, slash_only) == n,
    decreases n,
{
    if n > 0 {
        assert forall|k: int| 0 <= k < n - 1 implies !is_sep(#[trigger] s.drop_first()[k], slash_only) by {
            assert(s.drop_first()[k] == s[k + 1]);
        }
        lemma_first_sep(s.drop_first(), slash_only, n - 1);
    }
}

/// The pieces between separators (`str::split`): a text without separators is one piece.
pub open spec fn split_by(s: Seq<char>, slash_only: bool) -> Seq<Seq<char>>
    decreases s.len(),
{
    let k = first_sep(s, slash_only);
    if k >= s.len() {
        seq![s]
    } else {
        seq![s.take(k as int)] + split_by(s.skip(k + 1 as int), slash_only)
    }
}

pub fn split_chars(v: &[char], slash_only: bool) -> (r: Vec<Vec<char>>)
    ensures
        r@.map_values(|x: Vec<char>| x@) == split_by(v@, slash_only),
{
    let mut segs: Vec<Vec<char>> = Vec::new();
    let mut cur: Vec<char> = Vec::new();
    let mut start: usize = 0;
    let mut i: usize = 0;
    assert(v@.skip(0) == v@);
    assert(segs@.map_values(|x: Vec<char>| x@) + split_by(v@, slash_only) == split_by(v@, slash_only));
    while i < v.len()
        invariant
            start <= i <= v@.len(),
            segs@.map_values(|x: Vec<char>| x@) + split_by(v@.skip(start as int), slash_only)
                == split_by(v@, slash_only),
            cur@ == v@.subrange(start as int, i as int),
            forall|k: int| start <= k < i ==> !is_sep(#[trigger] v@[k], slash_only),
        decreases v@.len() - i,
    {
        let c = v[i];
        if c == '/' || (!slash_only && (c == '?' || c == '#')) {
            let ghost w = v@.skip(start as int);
            proof {
                assert forall|k: int| 0 <= k < i - start implies !is_sep(#[trigger] w[k], slash_only) by {
                    assert(w[k] == v@[start + k]);
                }
                assert(w[i - start] == v@[i as int]);
                lemma_first_sep(w, slash_only, i - start);
                assert(w.take(i - start) == cur@);
                assert(w.skip(i - start + 1) == v@.skip(i + 1));
            }
            let ghost before = segs@.map_values(|x: Vec<char>| x@);
            segs.push(cur);
            assert(segs@.map_values(|x: Vec<char>| x@) == before.push(w.take(i - start)));
            assert(seq![w.take(i - start)] + split_by(v@.skip(i + 1), slash_only) == split_by(w, slash_only));
            assert(segs@.map_values(|x: Vec<char>| x@) + split_by(v@.skip(i + 1), slash_only)
                == before + split_by(w, slash_only));
            cur = Vec::new();
            start = i + 1;
            assert(cur@ == v@.subrange(start as int, (i + 1) as int));
        } else {
            cur.push(c);
            assert(cur@ == v@.subrange(start as int, (i + 1) as int));
        }
        i = i + 1;
    }
    let ghost w = v@.skip(start as int);
    proof {
        assert forall|k: int| 0 <= k < w.len() implies !is_sep(#[trigger] w[k], slash_only) by {
            assert(w[k] == v@[start + k]);
        }
        lemma_first_sep(w, slash_only, w.len() as int);
        assert(w == cur@);
    }
    let ghost before = segs@.map_values(|x: Vec<char>| x@);
    segs.push(cur);
    assert(segs@.map_values(|x: Vec<char>| x@) == before.push(w));
    assert(before + split_by(w, slash_only) == before.push(w));
    segs
}

/// ASCII lowercase of a text.
pub open spec fn lowered(s: Seq<char>) -> Seq<char> {
    s.map_values(|c: char| lower(c))
}

pub fn lower_chars(v: &[char]) -> (r: Vec<char>)
    ensures
        r@ == lowered(v@),
{
    let mut out: Vec<char> = Vec::new();
    let mut i: usize = 0;
    while i < v.len()
        invariant
            i <= v@.len(),
            out@ == lowered(v@.take(i as int)),
        decreases v@.len() - i,
    {
        out.push(lower_char(v[i]));
        i = i + 1;
        assert(out@ == lowered(v@.take(i as int)));
    }
    assert(v@.take(v@.len() as int) == v@);
    out
}

/// `.`, `..` or a percent-encoded spelling of them.
pub open spec fn is_dot_segment(s: Seq<char>) -> bool {
    let l = lowered(s);
    l == "."@ || l == ".."@ || l == "%2e"@ || l == "%2e%2e"@ || l == ".%2e"@ || l == "%2e."@
}

pub open spec fn has_dot_segment(v: Seq<char>) -> bool {
    exists|j: int| 0 <= j < split_by(v, false).len() && #[trigger] is_dot_segment(split_by(v, false)[j])
}

/// The text without its trailing slashes.
pub open spec fn trim_slashes(s: Seq<char>) -> Seq<char>
    decreases s.len(),
{
    if s.len() > 0 && s.last() == '/' {
        trim_slashes(s.drop_last())
    } else {
        s
    }
}

/// The parts of a parsed URL that decide whether it names a post.
pub struct UrlParts {
    pub scheme: String,
    pub host: Option<String>,
    pub username: String,
    pub password: Option<String>,
    pub port: Option<u16>,
    pub path: String,
}

/// The parts of a URL as plain values: scheme, host, user name, password, port, path.
pub type UrlPartsView = (Seq<char>, Option<Seq<char>>, Seq<char>, Option<Seq<char>>, Option<u16>, Seq<char>);

pub open spec fn url_parts_view(u: UrlParts) -> UrlPartsView {
    (
        u.scheme@,
        match u.host {
            Some(h) => Some(h@),
            None => None,
        },
        u.username@,
        match u.password {
            Some(p) => Some(p@),
            None => None,
        },
        u.port,
        u.path@,
    )
}

/// What `url::Url::parse` gives for a text (None when it rejects it).
pub uninterp spec fn url_parse(s: Seq<char>) -> Option<UrlPartsView>;

/// Parses a URL with `url::Url::parse` and hands back its scheme, host, user name,
/// password, port and path; nothing is stated of them beyond being what the crate returns.
#[verifier::external_body]
fn parse_url(s: &str) -> (r: Option<UrlParts>)
    ensures
        match r {
            Some(u) => url_parse(s@) == Some(url_parts_view(u)),
            None => url_parse(s@) is None,
        },
{
    match url::Url::parse(s) {
        Ok(u) => Some(UrlParts {
            scheme: u.scheme().to_string(),
            host: u.host_str().map(|h| h.to_string()),
            username: u.username().to_string(),
            password: u.password().map(|p| p.to_string()),
            port: u.port(),
            path: u.path().to_string(),
        }),
        Err(_) => None,
    }
}

pub open spec fn is_x_host(h: Seq<char>) -> bool {
    h == "x.com"@ || h == "www.x.com"@ || h == "twitter.com"@ || h == "www.twitter.com"@
        || h == "mobile.twitter.com"@
}

/// An http(s) URL on an X/Twitter host with no credentials and no explicit port.
pub open spec fn url_origin_ok(u: UrlPartsView) -> bool {
    &&& (u.0 == "https"@ || u.0 == "http"@)
    &&& (u.1 matches Some(h) && is_x_host(h))
    &&& u.2.len() == 0
    &&& u.3 is None
    &&& u.4 is None
}

pub open spec fn id_of(raw: Seq<char>) -> Option<Seq<char>> {
    if is_post_id(raw) {
        Some(raw)
    } else {
        None
    }
}

/// A photo/video index: a decimal 8-bit number above zero (`+` allowed).
pub open spec fn is_media_index(n: Seq<char>) -> bool {
    let d = if n.len() > 0 && n[0] == '+' { n.drop_first() } else { n };
    decimal_u64(d) matches Some(v) && 0 < v <= 255
}

/// The post ID in a status path: `/{handle}/status/{id}`, `/i/web/status/{id}`, or
/// `/{handle}/status/{id}/photo|video/{n}`; trailing slashes are ignored.
pub open spec fn path_post_id(path: Seq<char>) -> Option<Seq<char>> {
    let p = split_by(trim_slashes(path), true).skip(1);
    if p.len() == 3 && p[1] == "status"@ {
        if is_handle(strip_at(p[0])) {
            id_of(p[2])
        } else {
            None
        }
    } else if p.len() == 4 && p[0] == "i"@ && p[1] == "web"@ && p[2] == "status"@ {
        id_of(p[3])
    } else if p.len() == 5 && p[1] == "status"@ && (p[3] == "photo"@ || p[3] == "video"@)
        && is_media_index(p[4]) {
        if is_handle(strip_at(p[0])) {
            id_of(p[2])
        } else {
            None
        }
    } else {
        None
    }
}

/// A path segment: text without a slash.
pub open spec fn slash_free(s: Seq<char>) -> bool {
    forall|k: int| 0 <= k < s.len() ==> s[k] != '/'
}

/// `/{handle}/status/{id}`.
pub open spec fn status_path(handle: Seq<char>, id: Seq<char>) -> Seq<char> {
    seq!['/'] + handle + seq!['/'] + "status"@ + seq!['/'] + id
}

/// `/{handle}/status/{id}/{kind}/{n}`.
pub open spec fn media_path(handle: Seq<char>, id: Seq<char>, kind: Seq<char>, n: Seq<char>) -> Seq<char> {
    status_path(handle, id) + seq!['/'] + kind + seq!['/'] + n
}

proof fn lemma_split_last(a: Seq<char>)
    requires
        slash_free(a),
    ensures
        split_by(a, true) == seq![a],
{
    lemma_first_sep(a, true, a.len() as int);
}

proof fn lemma_split_cons(a: Seq<char>, b: Seq<char>)
    requires
        slash_free(a),
    ensures
        split_by(a + seq!['/'] + b, true) == seq![a] + split_by(b, true),
{
    let s = a + seq!['/'] + b;
    assert forall|k: int| 0 <= k < a.len() implies !is_sep(#[trigger] s[k], true) by {
        assert(s[k] == a[k]);
    }
    assert(s[a.len() as int] == '/');
    lemma_first_sep(s, true, a.len() as int);
    assert(s.take(a.len() as int) =~= a);
    assert(s.skip(a.len() + 1 as int) =~= b);
}

proof fn lemma_no_trailing_slash(s: Seq<char>)
    requires
        s.len() > 0,
        s.last() != '/',
    ensures
        trim_slashes(s) == s,
{
}

/// The segments of a status path and of a media path under it.
proof fn lemma_status_segments(h: Seq<char>, i: Seq<char>, kind: Seq<char>, n: Seq<char>)
    requires
        slash_free(h),
        slash_free(i),
        slash_free(kind),
        slash_free(n),
        i.len() > 0,
        n.len() > 0,
    ensures
        split_by(trim_slashes(status_path(h, i)), true) == seq![Seq::<char>::empty(), h, "status"@, i],
        split_by(trim_slashes(media_path(h, i, kind, n)), true) == seq![Seq::<char>::empty(), h, "status"@, i, kind, n],
{
    reveal_strlit("status");
    let st = "status"@;
    assert(slash_free(st));
    let e = Seq::<char>::empty();
    assert(slash_free(e));
    let sp = status_path(h, i);
    assert(sp =~= e + seq!['/'] + (h + seq!['/'] + (st + seq!['/'] + i)));
    assert(sp.last() == i.last());
    lemma_no_trailing_slash(sp);
    lemma_split_cons(e, h + seq!['/'] + (st + seq!['/'] + i));
    lemma_split_cons(h, st + seq!['/'] + i);
    lemma_split_cons(st, i);
    lemma_split_last(i);
    assert(split_by(sp, true) =~= seq![e, h, st, i]);
    let mp = media_path(h, i, kind, n);
    assert(mp =~= e + seq!['/'] + (h + seq!['/'] + (st + seq!['/'] + (i + seq!['/'] + (kind + seq!['/'] + n)))));
    assert(mp.last() == n.last());
    lemma_no_trailing_slash(mp);
    lemma_split_cons(e, h + seq!['/'] + (st + seq!['/'] + (i + seq!['/'] + (kind + seq!['/'] + n))));
    lemma_split_cons(h, st + seq!['/'] + (i + seq!['/'] + (kind + seq!['/'] + n)));
    lemma_split_cons(st, i + seq!['/'] + (kind + seq!['/'] + n));
    lemma_split_cons(i, kind + seq!['/'] + n);
    lemma_split_cons(kind, n);
    lemma_split_last(n);
    assert(split_by(mp, true) =~= seq![e, h, st, i, kind, n]);
}

/// A status path names its post: `/{handle}/status/{id}` gives the ID when the handle
/// (with or without `@`) is valid and the ID is a post ID, and nothing otherwise. A photo
/// or video path under it, `/{handle}/status/{id}/photo/{n}` or `.../video/{n}` with a
/// media index `n`, names the same post.
pub proof fn lemma_media_paths_name_their_post(h: Seq<char>, i: Seq<char>, kind: Seq<char>, n: Seq<char>)
    requires
        slash_free(h),
        slash_free(i),
        slash_free(n),
        i.len() > 0,
        kind == "photo"@ || kind == "video"@,
        is_media_index(n),
    ensures
        path_post_id(status_path(h, i)) == (if is_handle(strip_at(h)) && is_post_id(i) {
            Some(i)
        } else {
            None::<Seq<char>>
        }),
        path_post_id(media_path(h, i, kind, n)) == path_post_id(status_path(h, i)),
{
    reveal_strlit("photo");
    reveal_strlit("video");
    assert(slash_free(kind));
    let d = if n.len() > 0 && n[0] == '+' { n.drop_first() } else { n };
    assert(n.len() > 0);
    lemma_status_segments(h, i, kind, n);
    let p = seq![Seq::<char>::empty(), h, "status"@, i].skip(1);
    assert(p =~= seq![h, "status"@, i]);
    let q = seq![Seq::<char>::empty(), h, "status"@, i, kind, n].skip(1);
    assert(q =~= seq![h, "status"@, i, kind, n]);
}

/// The post ID named by a decimal ID or an X/Twitter status URL.
pub open spec fn post_id_of(v: Seq<char>) -> Option<Seq<char>> {
    if has_dot_segment(v) {
        None
    } else if all_digits(v) {
        id_of(v)
    } else {
        match url_parse(v) {
            None => None,
            Some(u) => if url_origin_ok(u) {
                path_post_id(u.5)
            } else {
                None
            },
        }
    }
}

fn invalid_post(message: &'static str) -> (e: Error)
    ensures
        e.kind == Kind::InvalidInput,
        e.message@ == message@,
        e.retry_after_seconds is None,
{
    Error::new(Kind::InvalidInput, message)
}

fn word_is(v: &[char], w: &str) -> (r: bool)
    ensures
        r == (v@ == w@),
{
    let c = chars_of(w);
    crate::text::chars_eq(v, &c)
}

fn has_dot_segment_exec(v: &[char]) -> (r: bool)
    ensures
        r == has_dot_segment(v@),
{
    let segs = split_chars(v, false);
    let ghost sv = split_by(v@, false);
    let mut j: usize = 0;
    while j < segs.len()
        invariant
            segs@.map_values(|x: Vec<char>| x@) == sv,
            sv == split_by(v@, false),
            j <= segs@.len(),
            forall|k: int| 0 <= k < j ==> !#[trigger] is_dot_segment(sv[k]),
        decreases segs@.len() - j,
    {
        assert(segs@[j as int]@ == sv[j as int]);
        let l = lower_chars(&segs[j]);
        if word_is(&l, ".") || word_is(&l, "..") || word_is(&l, "%2e") || word_is(&l, "%2e%2e")
            || word_is(&l, ".%2e") || word_is(&l, "%2e.") {
            assert(is_dot_segment(sv[j as int]));
            return true;
        }
        j = j + 1;
    }
    false
}

fn all_digits_exec(v: &[char]) -> (r: bool)
    ensures
        r == all_digits(v@),
{
    let mut i: usize = 0;
    while i < v.len()
        invariant
            i <= v@.len(),
            forall|k: int| 0 <= k < i ==> #[trigger] crate::text::is_digit(v@[k]),
        decreases v@.len() - i,
    {
        if !(v[i] >= '0' && v[i] <= '9') {
            assert(!crate::text::is_digit(v@[i as int]));
            return false;
        }
        i = i + 1;
    }
    true
}

fn trimmed_len(v: &[char]) -> (n: usize)
    ensures
        n <= v@.len(),
        v@.take(n as int) == trim_slashes(v@),
{
    let mut n: usize = v.len();
    assert(v@.take(n as int) == v@);
    while n > 0 && v[n - 1] == '/'
        invariant
            n <= v@.len(),
            trim_slashes(v@.take(n as int)) == trim_slashes(v@),
        decreases n,
    {
        assert(v@.take(n as int).drop_last() == v@.take(n - 1));
        n = n - 1;
    }
    n
}

fn handle_ok(v: &[char]) -> (r: bool)
    ensures
        r == is_handle(strip_at(v@)),
{
    let lo: usize = if v.len() > 0 && v[0] == '@' { 1 } else { 0 };
    assert(strip_at(v@) == v@.subrange(lo as int, v@.len() as int));
    is_handle_range(v, lo)
}

fn media_index_ok(n: &[char]) -> (r: bool)
    ensures
        r == is_media_index(n@),
{
    let lo: usize = if n.len() > 0 && n[0] == '+' { 1 } else { 0 };
    assert(n@.subrange(lo as int, n@.len() as int) == (if n@.len() > 0 && n@[0] == '+' {
        n@.drop_first()
    } else {
        n@
    }));
    match parse_decimal(n, lo, n.len()) {
        Some(x) => x > 0 && x <= 255,
        None => false,
    }
}

fn path_post_id_exec(path: &[char]) -> (r: Option<Vec<char>>)
    ensures
        match r {
            Some(id) => path_post_id(path@) == Some(id@),
            None => path_post_id(path@) is None,
        },
{
    let n = trimmed_len(path);
    let mut trimmed: Vec<char> = Vec::new();
    let mut i: usize = 0;
    while i < n
        invariant
            n <= path@.len(),
            i <= n,
            trimmed@ == path@.take(i as int),
        decreases n - i,
    {
        trimmed.push(path[i]);
        i = i + 1;
        assert(trimmed@ == path@.take(i as int));
    }
    let segs = split_chars(&trimmed, true);
    let ghost all = split_by(trim_slashes(path@), true);
    let ghost p = all.skip(1);
    assert(segs@.map_values(|x: Vec<char>| x@) == all);
    let len = segs.len();
    if len >= 1 {
        assert(p.len() == len - 1);
    }
    if len == 4 && word_is(&segs[2], "status") {
        assert(p[1] == segs@[2]@ && p[0] == segs@[1]@ && p[2] == segs@[3]@);
        if !handle_ok(&segs[1]) {
            return None;
        }
        return if is_post_id_chars(&segs[3]) { Some(segs[3].clone()) } else { None };
    }
    if len == 5 && word_is(&segs[1], "i") && word_is(&segs[2], "web") && word_is(&segs[3], "status") {
        assert(p[0] == segs@[1]@ && p[1] == segs@[2]@ && p[2] == segs@[3]@ && p[3] == segs@[4]@);
        return if is_post_id_chars(&segs[4]) { Some(segs[4].clone()) } else { None };
    }
    if len == 6 && word_is(&segs[2], "status") && (word_is(&segs[4], "photo") || word_is(&segs[4], "video"))
        && media_index_ok(&segs[5]) {
        assert(p[0] == segs@[1]@ && p[1] == segs@[2]@ && p[2] == segs@[3]@ && p[3] == segs@[4]@ && p[4] == segs@[5]@);
        if !handle_ok(&segs[1]) {
            return None;
        }
        return if is_post_id_chars(&segs[3]) { Some(segs[3].clone()) } else { None };
    }
    proof {
        if len >= 1 {
            if p.len() == 3 && p[1] == "status"@ {
                assert(p[1] == segs@[2]@);
            }
            if p.len() == 4 && p[0] == "i"@ && p[1] == "web"@ && p[2] == "status"@ {
                assert(p[0] == segs@[1]@ && p[1] == segs@[2]@ && p[2] == segs@[3]@);
            }
            if p.len() == 5 && p[1] == "status"@ && (p[3] == "photo"@ || p[3] == "video"@) && is_media_index(p[4]) {
                assert(p[1] == segs@[2]@ && p[3] == segs@[4]@ && p[4] == segs@[5]@);
            }
        }
    }
    None
}

/// The post ID named by a positive decimal ID or an X/Twitter status URL.
pub fn post(value: &str) -> (r: Result<String, Error>)
    ensures
        match r {
            Ok(v) => post_id_of(value@) == Some(v@),
            Err(e) => post_id_of(value@) is None && e.kind == Kind::InvalidInput,
        },
{
    let v = chars_of(value);
    if has_dot_segment_exec(&v) {
        return Err(invalid_post("Dot segments are not accepted in post URLs"));
    }
    if all_digits_exec(&v) {
        return id(value);
    }
    let u = match parse_url(value) {
        Some(u) => u,
        None => return Err(invalid_post("Expected an X/Twitter post URL or ID")),
    };
    post_from_url(&u)
}

/// The post ID named by a parsed URL: an http(s) URL on an X/Twitter host, with no
/// credentials and no explicit port, whose path names a status.
pub fn post_from_url(u: &UrlParts) -> (r: Result<String, Error>)
    ensures
        match r {
            Ok(v) => url_origin_ok(url_parts_view(*u)) && path_post_id(u.path@) == Some(v@),
            Err(e) => !(url_origin_ok(url_parts_view(*u)) && path_post_id(u.path@) is Some) && e.kind
                == Kind::InvalidInput,
        },
{
    let scheme = chars_of(u.scheme.as_str());
    let scheme_ok = word_is(&scheme, "https") || word_is(&scheme, "http");
    let host_ok = match &u.host {
        Some(h) => {
            let hc = chars_of(h.as_str());
            word_is(&hc, "x.com") || word_is(&hc, "www.x.com") || word_is(&hc, "twitter.com")
                || word_is(&hc, "www.twitter.com") || word_is(&hc, "mobile.twitter.com")
        },
        None => false,
    };
    if !scheme_ok || !host_ok || !u.username.as_str().is_empty() || u.password.is_some() || u.port.is_some() {
        return Err(invalid_post("Unsupported post URL origin"));
    }
    let path = chars_of(u.path.as_str());
    match path_post_id_exec(&path) {
        Some(raw) => Ok(crate::text::string_of(&raw)),
        None => Err(invalid_post("Unsupported post URL path")),
    }
}

} // verus!
