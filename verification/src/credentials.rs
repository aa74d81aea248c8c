//! Explicit-consent Chrome session access. A `Session` is never serialized, and the
//! headers it produces must be restricted to HTTPS x.com by the caller.
//!
//! Storage compatibility is not authenticated identity: the Viewer identity is verified
//! before a session is associated with a persisted account reference.
use vstd::prelude::*;
use crate::error::{Error, Kind};
use crate::text::{chars_of, is_digit, push_all, str_lt, text_lt, lemma_text_lt_irreflexive, lemma_text_lt_total, lemma_text_lt_transitive};

pub mod crypto;
pub mod database;


verus! {

broadcast use vstd::seq_lib::group_to_multiset_ensures;

#[derive(Debug, Clone, PartialEq, Eq)]
pub struct Profile {
    pub directory: String,
}

/// A cookie octet of RFC 6265, which also excludes header injection and separators.
pub open spec fn is_cookie_char(c: char) -> bool {
    let v = c as int;
    ||| v == 0x21
    ||| 0x23 <= v <= 0x2b
    ||| 0x2d <= v <= 0x3a
    ||| 0x3c <= v <= 0x5b
    ||| 0x5d <= v <= 0x7e
}

/// A nonempty cookie value of at most 4096 cookie octets.
pub open spec fn is_cookie_text(s: Seq<char>) -> bool {
    &&& 0 < s.len() <= 4096
    &&& forall|i: int| 0 <= i < s.len() ==> #[trigger] is_cookie_char(s[i])
}

pub fn is_cookie_char_exec(c: char) -> (r: bool)
    ensures
        r == is_cookie_char(c),
{
    c == '!' || ('#' <= c && c <= '+') || ('-' <= c && c <= ':') || ('<' <= c && c <= '[') || (']' <= c && c <= '~')
}

/// Whether a value may be sent as a session cookie.
pub fn valid_cookie(value: &str) -> (r: bool)
    ensures
        r == is_cookie_text(value@),
{
    let v = chars_of(value);
    if v.len() == 0 || v.len() > 4096 {
        return false;
    }
    let mut i: usize = 0;
    while i < v.len()
        invariant
            i <= v@.len(),
            v@ == value@,
            forall|k: int| 0 <= k < i ==> #[trigger] is_cookie_char(v@[k]),
        decreases v@.len() - i,
    {
        if !is_cookie_char_exec(v[i]) {
            assert(!is_cookie_char(value@[i as int]));
            return false;
        }
        i = i + 1;
    }
    true
}

pub open spec fn unsupported_error() -> Error {
    Error {
        kind: Kind::Unsupported,
        message: "Unsupported Chrome cookie storage or protection",
        retry_after_seconds: None,
    }
}

pub fn unsupported() -> (e: Error)
    ensures
        e == unsupported_error(),
{
    Error {
        kind: Kind::Unsupported,
        message: "Unsupported Chrome cookie storage or protection",
        retry_after_seconds: None,
    }
}

pub open spec fn invalid_session_error() -> Error {
    Error {
        kind: Kind::Authentication,
        message: "Invalid session cookie encoding",
        retry_after_seconds: None,
    }
}

/// Account-level authority. Deliberately not serializable, printable or cloneable.
pub struct Session {
    auth_token: String,
    ct0: String,
}

impl Session {
    #[verifier::type_invariant]
    spec fn cookies_valid(self) -> bool {
        is_cookie_text(self.auth_token@) && is_cookie_text(self.ct0@)
    }

    pub closed spec fn auth_token_view(self) -> Seq<char> {
        self.auth_token@
    }

    pub closed spec fn ct0_view(self) -> Seq<char> {
        self.ct0@
    }

    /// A session from two cookie values; both must be valid cookie values.
    pub fn new(auth_token: String, ct0: String) -> (r: Result<Session, Error>)
        ensures
            r is Ok <==> is_cookie_text(auth_token@) && is_cookie_text(ct0@),
            r matches Ok(s) ==> s.auth_token_view() == auth_token@ && s.ct0_view() == ct0@,
            r matches Err(e) ==> e == invalid_session_error(),
    {
        if !valid_cookie(auth_token.as_str()) || !valid_cookie(ct0.as_str()) {
            return Err(
                Error {
                    kind: Kind::Authentication,
                    message: "Invalid session cookie encoding",
                    retry_after_seconds: None,
                },
            );
        }
        Ok(Session { auth_token, ct0 })
    }

    /// Only the private session headers: the cookie pair and the CSRF token. The
    /// values must never be logged or persisted.
    pub fn headers(&self) -> (r: Vec<(String, String)>)
        ensures
            r@.len() == 2,
            r@[0].0@ == "cookie"@,
            r@[0].1@ == "auth_token="@ + self.auth_token_view() + "; ct0="@ + self.ct0_view(),
            r@[1].0@ == "x-csrf-token"@,
            r@[1].1@ == self.ct0_view(),
    {
        let mut cookie = String::new();
        push_all(&mut cookie, "auth_token=");
        push_all(&mut cookie, self.auth_token.as_str());
        push_all(&mut cookie, "; ct0=");
        push_all(&mut cookie, self.ct0.as_str());
        let mut r: Vec<(String, String)> = Vec::new();
        r.push(("cookie".to_owned(), cookie));
        r.push(("x-csrf-token".to_owned(), self.ct0.as_str().to_owned()));
        r
    }
}

/// `Default`, or `Profile N` with N a canonical decimal number of at most ten digits.
pub open spec fn is_chrome_profile(p: Seq<char>) -> bool {
    ||| p == "Default"@
    ||| {
        &&& p.len() > 8
        &&& p.take(8) == "Profile "@
        &&& p.skip(8).len() <= 10
        &&& forall|i: int| 8 <= i < p.len() ==> #[trigger] is_digit(p[i])
        &&& (p.len() == 9 || p[8] != '0')
    }
}

/// Whether a name is a Chrome profile directory this tool may select.
pub fn valid_profile(profile: &str) -> (r: bool)
    ensures
        r == is_chrome_profile(profile@),
{
    let v = chars_of(profile);
    let d = chars_of("Default");
    let p = chars_of("Profile ");
    proof {
        reveal_strlit("Default");
        reveal_strlit("Profile ");
    }
    if crate::text::chars_eq(&v, &d) {
        return true;
    }
    if v.len() <= 8 || !crate::text::starts_with_chars(&v, &p) || v.len() > 18 {
        return false;
    }
    let mut i: usize = 8;
    while i < v.len()
        invariant
            8 <= i <= v@.len(),
            v@ == profile@,
            profile@ != "Default"@,
            forall|k: int| 8 <= k < i ==> #[trigger] is_digit(v@[k]),
        decreases v@.len() - i,
    {
        if !('0' <= v[i] && v[i] <= '9') {
            assert(!is_digit(profile@[i as int]));
            return false;
        }
        i = i + 1;
    }
    v.len() == 9 || v[8] != '0'
}

pub open spec fn consent_error() -> Error {
    Error {
        kind: Kind::ConsentRequired,
        message: "Explicit consent is required to load Chrome session cookies",
        retry_after_seconds: None,
    }
}

pub open spec fn profile_error() -> Error {
    Error {
        kind: Kind::InvalidInput,
        message: "Select Default or a canonical Profile number",
        retry_after_seconds: None,
    }
}

/// Consent is checked first, then the profile name; both precede any access.
pub fn authorize(profile: &str, consent: bool) -> (r: Result<(), Error>)
    ensures
        !consent ==> r == Err::<(), Error>(consent_error()),
        consent && !is_chrome_profile(profile@) ==> r == Err::<(), Error>(profile_error()),
        consent && is_chrome_profile(profile@) ==> r is Ok,
{
    if !consent {
        return Err(
            Error {
                kind: Kind::ConsentRequired,
                message: "Explicit consent is required to load Chrome session cookies",
                retry_after_seconds: None,
            },
        );
    }
    if !valid_profile(profile) {
        return Err(
            Error {
                kind: Kind::InvalidInput,
                message: "Select Default or a canonical Profile number",
                retry_after_seconds: None,
            },
        );
    }
    Ok(())
}

pub fn filesystem_error() -> (e: Error)
    ensures
        e.kind == Kind::Storage,
        e.message@ == "Cannot safely access the selected Chrome profile"@,
        e.retry_after_seconds is None,
{
    Error::new(Kind::Storage, "Cannot safely access the selected Chrome profile")
}

/// One immediate entry of the Chrome root: its name and whether it is a directory
/// (symlinks are not followed).
pub struct DirEntry {
    pub name: String,
    pub is_dir: bool,
}

/// The profile directory names among the entries, in listing order.
pub open spec fn discovered(entries: Seq<DirEntry>) -> Seq<Seq<char>>
    decreases entries.len(),
{
    if entries.len() == 0 {
        Seq::empty()
    } else {
        let e = entries.last();
        discovered(entries.drop_last()) + if e.is_dir && is_chrome_profile(e.name@) {
            seq![e.name@]
        } else {
            Seq::empty()
        }
    }
}

pub open spec fn directories(ps: Seq<Profile>) -> Seq<Seq<char>> {
    ps.map_values(|p: Profile| p.directory@)
}

pub open spec fn sorted_texts(s: Seq<Seq<char>>) -> bool {
    forall|i: int, j: int| 0 <= i < j < s.len() ==> !text_lt(s[j], s[i])
}

/// The Chrome Stable root; only a profile-directory reference is public.
#[derive(Debug, Clone)]
pub struct Chrome {
    pub root: String,
}

impl Chrome {
    pub fn new(root: String) -> (c: Self)
        ensures
            c.root == root,
    {
        Chrome { root }
    }

    /// The selectable profiles among the immediate entries of the root, sorted by
    /// directory name. Only directory metadata is consulted.
    pub fn discover(&self, entries: Vec<DirEntry>) -> (r: Vec<Profile>)
        ensures
            sorted_texts(directories(r@)),
            directories(r@).to_multiset() == discovered(entries@).to_multiset(),
    {
        let ghost all = entries@;
        let mut r: Vec<Profile> = Vec::new();
        let mut k: usize = 0;
        while k < entries.len()
            invariant
                k <= entries@.len(),
                entries@ == all,
                sorted_texts(directories(r@)),
                directories(r@).to_multiset() == discovered(all.take(k as int)).to_multiset(),
            decreases entries@.len() - k,
        {
            assert(all.take(k + 1).drop_last() =~= all.take(k as int));
            let e = &entries[k];
            if e.is_dir && valid_profile(e.name.as_str()) {
                let ghost before = directories(r@);
                let p = Profile { directory: e.name.clone() };
                let pos = insertion_point(&r, &p.directory);
                r.insert(pos, p);
                proof {
                    assert(directories(r@) =~= before.insert(pos as int, e.name@));
                    assert(discovered(all.take(k + 1)) =~= discovered(all.take(k as int)).push(e.name@));
                    lemma_sorted_insert(before, pos as int, e.name@);
                }
            } else {
                assert(discovered(all.take(k + 1)) =~= discovered(all.take(k as int)));
            }
            k = k + 1;
        }
        assert(all.take(k as int) =~= all);
        r
    }
}

/// The first position whose directory sorts after `name`.
fn insertion_point(r: &Vec<Profile>, name: &String) -> (pos: usize)
    requires
        sorted_texts(directories(r@)),
    ensures
        pos <= r@.len(),
        forall|i: int| 0 <= i < pos ==> !text_lt(name@, #[trigger] directories(r@)[i]),
        forall|i: int| pos <= i < r@.len() ==> text_lt(name@, #[trigger] directories(r@)[i]),
{
    let mut pos: usize = 0;
    while pos < r.len() && !str_lt(name.as_str(), r[pos].directory.as_str())
        invariant
            pos <= r@.len(),
            forall|i: int| 0 <= i < pos ==> !text_lt(name@, #[trigger] directories(r@)[i]),
        decreases r@.len() - pos,
    {
        pos = pos + 1;
    }
    proof {
        let d = directories(r@);
        assert forall|i: int| pos <= i < r@.len() implies text_lt(name@, #[trigger] d[i]) by {
            if i > pos {
                lemma_text_lt_total(d[pos as int], d[i]);
                if d[pos as int] != d[i] {
                    lemma_text_lt_transitive(name@, d[pos as int], d[i]);
                }
            }
        }
    }
    pos
}

proof fn lemma_sorted_insert(s: Seq<Seq<char>>, pos: int, x: Seq<char>)
    requires
        sorted_texts(s),
        0 <= pos <= s.len(),
        forall|i: int| 0 <= i < pos ==> !text_lt(x, #[trigger] s[i]),
        forall|i: int| pos <= i < s.len() ==> text_lt(x, #[trigger] s[i]),
    ensures
        sorted_texts(s.insert(pos, x)),
{
    let t = s.insert(pos, x);
    assert forall|i: int, j: int| 0 <= i < j < t.len() implies !text_lt(t[j], t[i]) by {
        if i == pos {
            assert(t[j] == s[j - 1]);
            if text_lt(s[j - 1], x) {
                lemma_text_lt_transitive(x, s[j - 1], x);
                lemma_text_lt_irreflexive(x);
            }
        } else if j == pos {
            assert(t[i] == s[i]);
            lemma_text_lt_total(x, s[i]);
        } else {
            let a = if i < pos { i } else { i - 1 };
            let b = if j < pos { j } else { j - 1 };
            assert(t[i] == s[a]);
            assert(t[j] == s[b]);
        }
    }
}

/// Where a profile keeps its cookie database: directly, or under `Network/`.
#[derive(Debug, Clone, Copy, PartialEq, Eq, Structural)]
pub enum CookieLayout {
    Direct,
    Nested,
}

pub open spec fn layout_error() -> Error {
    Error { kind: Kind::Unavailable, message: "Select a profile with one supported Chrome cookie database", retry_after_seconds: None }
}

/// A profile must hold exactly one supported cookie database: `Cookies` directly or
/// `Network/Cookies`. None, or both, is refused.
pub open spec fn cookie_layout_of(direct: bool, nested: bool) -> Result<CookieLayout, Error> {
    if direct && !nested {
        Ok(CookieLayout::Direct)
    } else if nested && !direct {
        Ok(CookieLayout::Nested)
    } else {
        Err(layout_error())
    }
}

pub fn cookie_layout(direct: bool, nested: bool) -> (r: Result<CookieLayout, Error>)
    ensures
        r == cookie_layout_of(direct, nested),
{
    if direct && !nested {
        Ok(CookieLayout::Direct)
    } else if nested && !direct {
        Ok(CookieLayout::Nested)
    } else {
        Err(Error { kind: Kind::Unavailable, message: "Select a profile with one supported Chrome cookie database", retry_after_seconds: None })
    }
}

} // verus!
