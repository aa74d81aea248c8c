//! The checks applied to rows read from a Chrome cookie database. The database is read
//! elsewhere, in one read-only transaction; every decision about what it holds is made
//! here, before the Safe Storage key is requested.
use vstd::prelude::*;
use super::{Session, is_cookie_text, unsupported, unsupported_error};
use super::crypto::{MAX_ENCRYPTED, chrome_key, decrypt_v24, decrypted_cookie, derive_key};
use crate::error::{Error, Kind};
use crate::text::str_eq;

verus! {

/// The type of a schema object; run for `meta` and for `cookies`.
pub const TABLE_KIND_QUERY: &'static str = "SELECT type FROM sqlite_schema WHERE name = ?1 COLLATE BINARY";

/// The version rows of the `meta` table.
pub const META_QUERY: &'static str = "SELECT key, value FROM meta WHERE key COLLATE BINARY IN ('version', 'last_compatible_version') LIMIT 3";

/// The candidate cookie rows at Chrome time `?1`: the X hosts and the two names, root
/// path, secure, and either unexpired persistent or canonical session cookies. The
/// partition columns are selected, not filtered, so that conflicts are seen.
pub const COOKIE_QUERY: &'static str = "SELECT host_key, name, value, encrypted_value, top_frame_site_key, has_cross_site_ancestor, source_scheme, source_port FROM cookies WHERE host_key COLLATE BINARY IN ('.x.com', 'x.com') AND name COLLATE BINARY IN ('auth_token', 'ct0') AND path COLLATE BINARY = '/' AND is_secure = 1 AND typeof(expires_utc) = 'integer' AND ((has_expires = 1 AND is_persistent = 1 AND expires_utc > ?1) OR (has_expires = 0 AND is_persistent = 0 AND expires_utc = 0)) LIMIT 3";

/// A value read from a database column. A floating-point value is only recorded as
/// such: no check accepts one.
pub enum Cell {
    Null,
    Integer(i64),
    Real,
    Text(Vec<u8>),
    Blob(Vec<u8>),
}

/// How a query failed: the database was busy or locked, or anything else.
#[derive(Clone, Copy, PartialEq, Eq, Structural)]
pub enum SqlError {
    Busy,
    Other,
}

pub open spec fn database_error_value() -> Error {
    Error {
        kind: Kind::Storage,
        message: "Cannot safely read Chrome cookies; close Chrome and retry",
        retry_after_seconds: None,
    }
}

pub fn database_error() -> (e: Error)
    ensures
        e == database_error_value(),
{
    Error {
        kind: Kind::Storage,
        message: "Cannot safely read Chrome cookies; close Chrome and retry",
        retry_after_seconds: None,
    }
}

pub open spec fn missing_pair_error() -> Error {
    Error {
        kind: Kind::Authentication,
        message: "No unambiguous supported X session in the selected profile",
        retry_after_seconds: None,
    }
}

pub fn missing_pair() -> (e: Error)
    ensures
        e == missing_pair_error(),
{
    Error {
        kind: Kind::Authentication,
        message: "No unambiguous supported X session in the selected profile",
        retry_after_seconds: None,
    }
}

/// A busy or locked database asks the user to retry; any other schema failure means
/// the storage is not supported.
pub fn schema_error(e: SqlError) -> (r: Error)
    ensures
        r == if e == SqlError::Busy { database_error_value() } else { unsupported_error() },
{
    match e {
        SqlError::Busy => database_error(),
        SqlError::Other => unsupported(),
    }
}

pub open spec fn ascii_bytes(s: Seq<char>) -> Seq<u8> {
    s.map_values(|c: char| c as u8)
}

fn bytes_eq(a: &Vec<u8>, b: &[u8]) -> (r: bool)
    ensures
        r == (a@ == b@),
{
    if a.len() != b.len() {
        return false;
    }
    let mut i: usize = 0;
    while i < a.len()
        invariant
            a@.len() == b@.len(),
            i <= a@.len(),
            forall|k: int| 0 <= k < i ==> a@[k] == b@[k],
        decreases a@.len() - i,
    {
        if a[i] != b[i] {
            return false;
        }
        i = i + 1;
    }
    assert(a@ =~= b@);
    true
}

/// The type of a schema object must be a table: a view cannot stand in for one.
pub open spec fn is_table_kind(kind: Result<Cell, SqlError>) -> bool {
    kind matches Ok(Cell::Text(t)) && t@ == seq![0x74u8, 0x61, 0x62, 0x6c, 0x65]
}

/// Checks the schema object type read for one of the `meta` and `cookies` tables.
pub fn check_table_kind(kind: Result<Cell, SqlError>) -> (r: Result<(), Error>)
    ensures
        is_table_kind(kind) ==> r is Ok,
        !is_table_kind(kind) ==> r == Err::<(), Error>(
            match kind {
                Err(e) => if e == SqlError::Busy { database_error_value() } else { unsupported_error() },
                Ok(_) => unsupported_error(),
            },
        ),
{
    match kind {
        Err(e) => Err(schema_error(e)),
        Ok(Cell::Text(t)) => {
            let table: [u8; 5] = [0x74, 0x61, 0x62, 0x6c, 0x65];
            if bytes_eq(&t, table.as_slice()) {
                Ok(())
            } else {
                Err(unsupported())
            }
        },
        Ok(_) => Err(unsupported()),
    }
}

/// The two meta keys that must each appear once.
pub enum MetaKey {
    Version,
    LastCompatibleVersion,
    Other,
}

pub open spec fn meta_key_of(c: Cell) -> Option<MetaKey> {
    match c {
        Cell::Text(t) => Some(
            if t@ == ascii_bytes("version"@) {
                MetaKey::Version
            } else if t@ == ascii_bytes("last_compatible_version"@) {
                MetaKey::LastCompatibleVersion
            } else {
                MetaKey::Other
            },
        ),
        _ => None,
    }
}

/// The storage version this reader supports, as an integer or as text.
pub open spec fn is_version_24(c: Cell) -> bool {
    ||| c matches Cell::Integer(v) && v == 24
    ||| c matches Cell::Text(t) && t@ == seq![0x32u8, 0x34]
}

/// The meta rows checked in order: each value must be version 24, and each of the two
/// keys may appear once. `(version, compatible)` so far, or the first rejection.
pub open spec fn meta_scan(rows: Seq<(Cell, Cell)>) -> Option<(bool, bool)>
    decreases rows.len(),
{
    if rows.len() == 0 {
        Some((false, false))
    } else {
        match meta_scan(rows.drop_last()) {
            None => None,
            Some((v, c)) => {
                let (k, value) = rows.last();
                if !(k is Text) || !is_version_24(value) {
                    None
                } else {
                    match meta_key_of(k) {
                        Some(MetaKey::Version) => if !v { Some((true, c)) } else { None },
                        Some(MetaKey::LastCompatibleVersion) => if !c { Some((v, true)) } else { None },
                        _ => None,
                    }
                }
            },
        }
    }
}

/// Checks the meta rows of a storage-version query. `read_failed` says that reading a
/// further row failed after these rows.
pub fn check_meta(rows: &Vec<(Cell, Cell)>, read_failed: bool) -> (r: Result<(), Error>)
    ensures
        match meta_scan(rows@) {
            None => r == Err::<(), Error>(unsupported_error()),
            Some((v, c)) => if read_failed {
                r == Err::<(), Error>(database_error_value())
            } else if v && c {
                r is Ok
            } else {
                r == Err::<(), Error>(unsupported_error())
            },
        },
{
    let version_key: [u8; 7] = [0x76, 0x65, 0x72, 0x73, 0x69, 0x6f, 0x6e];
    let compatible_key: [u8; 23] = [
        0x6c, 0x61, 0x73, 0x74, 0x5f, 0x63, 0x6f, 0x6d, 0x70, 0x61, 0x74, 0x69, 0x62, 0x6c, 0x65,
        0x5f, 0x76, 0x65, 0x72, 0x73, 0x69, 0x6f, 0x6e,
    ];
    proof {
        reveal_strlit("version");
        reveal_strlit("last_compatible_version");
        assert(version_key@ =~= ascii_bytes("version"@));
        assert(compatible_key@ =~= ascii_bytes("last_compatible_version"@));
    }
    let twenty_four: [u8; 2] = [0x32, 0x34];
    assert(twenty_four@ =~= seq![0x32u8, 0x34]);
    let mut version = false;
    let mut compatible = false;
    let mut i: usize = 0;
    while i < rows.len()
        invariant
            i <= rows@.len(),
            version_key@ == ascii_bytes("version"@),
            compatible_key@ == ascii_bytes("last_compatible_version"@),
            twenty_four@ == seq![0x32u8, 0x34],
            meta_scan(rows@.take(i as int)) == Some((version, compatible)),
        decreases rows@.len() - i,
    {
        assert(rows@.take(i + 1).drop_last() =~= rows@.take(i as int));
        let (k, value) = &rows[i];
        let ok_value = match value {
            Cell::Integer(v) => *v == 24,
            Cell::Text(t) => bytes_eq(t, twenty_four.as_slice()),
            _ => false,
        };
        let accepted = match k {
            Cell::Text(t) => {
                if !ok_value {
                    false
                } else if bytes_eq(t, version_key.as_slice()) {
                    if !version {
                        version = true;
                        true
                    } else {
                        false
                    }
                } else if bytes_eq(t, compatible_key.as_slice()) {
                    if !compatible {
                        compatible = true;
                        true
                    } else {
                        false
                    }
                } else {
                    false
                }
            },
            _ => false,
        };
        if !accepted {
            proof {
                lemma_meta_scan_stuck(rows@, i as int + 1);
            }
            return Err(unsupported());
        }
        i = i + 1;
    }
    assert(rows@.take(i as int) =~= rows@);
    if read_failed {
        return Err(database_error());
    }
    if !version || !compatible {
        return Err(unsupported());
    }
    Ok(())
}

/// Once the scan rejects a prefix, it rejects the whole sequence.
proof fn lemma_meta_scan_stuck(rows: Seq<(Cell, Cell)>, k: int)
    requires
        0 <= k <= rows.len(),
        meta_scan(rows.take(k)) is None,
    ensures
        meta_scan(rows) is None,
    decreases rows.len() - k,
{
    if k < rows.len() {
        assert(rows.take(k + 1).drop_last() =~= rows.take(k));
        lemma_meta_scan_stuck(rows, k + 1);
    } else {
        assert(rows.take(k) =~= rows);
    }
}


/// Calls `std::str::from_utf8`, which fails exactly on byte strings that are not UTF-8,
/// and copies the text out.
#[verifier::external_body]
fn utf8_text(bytes: &[u8]) -> (r: Option<String>)
    ensures
        r is Some <==> vstd::utf8::valid_utf8(bytes@),
        r matches Some(s) ==> s@ == vstd::utf8::decode_utf8(bytes@),
{
    std::str::from_utf8(bytes).ok().map(|s| s.to_owned())
}

/// One candidate cookie row: host, name, plaintext value, protected value, partition
/// site, cross-site ancestor bit, source scheme and source port.
pub struct CookieRow {
    pub host: Cell,
    pub name: Cell,
    pub value: Cell,
    pub encrypted: Cell,
    pub partition: Cell,
    pub ancestor: Cell,
    pub scheme: Cell,
    pub port: Cell,
}

/// A text column read as a string: UTF-8 text only.
pub open spec fn text_cell(c: Cell) -> Option<Seq<u8>> {
    match c {
        Cell::Text(t) => if vstd::utf8::valid_utf8(t@) {
            Some(t@)
        } else {
            None
        },
        _ => None,
    }
}

pub open spec fn int_cell(c: Cell) -> Option<i64> {
    match c {
        Cell::Integer(v) => Some(v),
        _ => None,
    }
}

pub open spec fn empty_text(c: Cell) -> bool {
    c matches Cell::Text(t) && t@.len() == 0
}

/// A protected value in the only supported form.
pub open spec fn protected_blob(c: Cell) -> Option<Seq<u8>> {
    match c {
        Cell::Blob(b) => if super::crypto::protected_v24(b@) {
            Some(b@)
        } else {
            None
        },
        _ => None,
    }
}

/// The host and the protected `auth_token` and `ct0` values found so far.
pub type PairScan = (Option<Seq<u8>>, Option<Seq<u8>>, Option<Seq<u8>>);

/// One row of the pair query, which has already filtered for x.com hosts, the two
/// cookie names, the root path, secure cookies and unexpired or session expiry. A third
/// row, a second host jar or a repeated name makes the pair ambiguous; plaintext,
/// partitioned or foreign-origin storage is not supported.
pub open spec fn pair_step(s: PairScan, index: nat, r: CookieRow) -> Result<PairScan, Error> {
    if index >= 2 {
        Err(missing_pair_error())
    } else {
        match text_cell(r.host) {
            None => Err(unsupported_error()),
            Some(h) => if s.0 is Some && s.0 != Some(h) {
                Err(missing_pair_error())
            } else {
                match text_cell(r.name) {
                    None => Err(unsupported_error()),
                    Some(n) => if !empty_text(r.value) {
                        Err(unsupported_error())
                    } else {
                        match (int_cell(r.ancestor), int_cell(r.scheme), int_cell(r.port)) {
                            (Some(a), Some(sc), Some(p)) => if !empty_text(r.partition) || !(a == 0 || a == 1) || sc != 2
                                || !(p == -1 || p == 443) {
                                Err(unsupported_error())
                            } else {
                                match protected_blob(r.encrypted) {
                                    None => Err(unsupported_error()),
                                    Some(e) => if n == ascii_bytes("auth_token"@) && s.1 is None {
                                        Ok((Some(h), Some(e), s.2))
                                    } else if n == ascii_bytes("ct0"@) && s.2 is None {
                                        Ok((Some(h), s.1, Some(e)))
                                    } else {
                                        Err(missing_pair_error())
                                    },
                                }
                            },
                            _ => Err(unsupported_error()),
                        }
                    },
                }
            },
        }
    }
}

pub open spec fn pair_scan(rows: Seq<CookieRow>) -> Result<PairScan, Error>
    decreases rows.len(),
{
    if rows.len() == 0 {
        Ok((None, None, None))
    } else {
        match pair_scan(rows.drop_last()) {
            Err(e) => Err(e),
            Ok(s) => pair_step(s, (rows.len() - 1) as nat, rows.last()),
        }
    }
}

/// One host's protected `auth_token` and `ct0` values.
pub struct StoredPair {
    host: String,
    auth_token: Vec<u8>,
    ct0: Vec<u8>,
}

impl StoredPair {
    pub closed spec fn host_bytes(self) -> Seq<u8> {
        vstd::utf8::encode_utf8(self.host@)
    }

    pub closed spec fn auth_token_bytes(self) -> Seq<u8> {
        self.auth_token@
    }

    pub closed spec fn ct0_bytes(self) -> Seq<u8> {
        self.ct0@
    }

    /// Decrypts both values with the key derived from the Safe Storage password.
    pub fn decrypt(self, password: &[u8]) -> (r: Result<Session, Error>)
        ensures
            match chrome_key(password@) {
                None => r == Err::<Session, Error>(unsupported_error()),
                Some(k) => match (
                    decrypted_cookie(self.auth_token_bytes(), self.host_bytes(), k),
                    decrypted_cookie(self.ct0_bytes(), self.host_bytes(), k),
                ) {
                    (Some(a), Some(c)) => r matches Ok(s) && s.auth_token_view() == a && s.ct0_view() == c,
                    _ => r == Err::<Session, Error>(unsupported_error()),
                },
            },
    {
        let key = match derive_key(password) {
            Ok(k) => k,
            Err(e) => return Err(e),
        };
        let auth = match decrypt_v24(self.auth_token.as_slice(), self.host.as_str(), &key) {
            Ok(v) => v,
            Err(e) => return Err(e),
        };
        let csrf = match decrypt_v24(self.ct0.as_slice(), self.host.as_str(), &key) {
            Ok(v) => v,
            Err(e) => return Err(e),
        };
        proof {
            lemma_decrypted_is_cookie(self.auth_token@, self.host_bytes(), key@);
            lemma_decrypted_is_cookie(self.ct0@, self.host_bytes(), key@);
        }
        Session::new(auth, csrf)
    }
}

/// A decrypted value is a valid cookie value.
pub proof fn lemma_decrypted_is_cookie(e: Seq<u8>, host: Seq<u8>, key: Seq<u8>)
    ensures
        decrypted_cookie(e, host, key) matches Some(v) ==> is_cookie_text(v),
{
}

fn text_of(c: &Cell) -> (r: Option<String>)
    ensures
        match text_cell(*c) {
            Some(t) => r matches Some(s) && vstd::utf8::encode_utf8(s@) == t,
            None => r is None,
        },
{
    match c {
        Cell::Text(t) => {
            let r = utf8_text(t.as_slice());
            proof {
                if vstd::utf8::valid_utf8(t@) {
                    vstd::utf8::decode_utf8_encode_utf8(t@);
                }
            }
            r
        },
        _ => None,
    }
}

fn is_empty_text(c: &Cell) -> (r: bool)
    ensures
        r == empty_text(*c),
{
    match c {
        Cell::Text(t) => t.len() == 0,
        _ => false,
    }
}

fn int_of(c: &Cell) -> (r: Option<i64>)
    ensures
        r == int_cell(*c),
{
    match c {
        Cell::Integer(v) => Some(*v),
        _ => None,
    }
}

fn protected_of(c: &Cell) -> (r: Option<Vec<u8>>)
    ensures
        match protected_blob(*c) {
            Some(b) => r matches Some(v) && v@ == b,
            None => r is None,
        },
{
    match c {
        Cell::Blob(b) => {
            let n = b.len();
            if n <= MAX_ENCRYPTED && n > 3 && b[0] == 0x76 && b[1] == 0x31 && b[2] == 0x30 && (n - 3) % 16 == 0 {
                Some(b.clone())
            } else {
                None
            }
        },
        _ => None,
    }
}

/// Picks the one `auth_token`/`ct0` pair from the rows of the pair query. `read_failed`
/// says that reading a further row failed after these rows.
pub fn select_pair(rows: &Vec<CookieRow>, read_failed: bool) -> (r: Result<StoredPair, Error>)
    ensures
        match pair_scan(rows@) {
            Err(e) => r == Err::<StoredPair, Error>(e),
            Ok((Some(h), Some(a), Some(c))) => if read_failed {
                r == Err::<StoredPair, Error>(database_error_value())
            } else {
                r matches Ok(p) && p.host_bytes() == h && p.auth_token_bytes() == a && p.ct0_bytes() == c
            },
            Ok(_) => r == Err::<StoredPair, Error>(
                if read_failed {
                    database_error_value()
                } else {
                    missing_pair_error()
                },
            ),
        },
{
    let auth_name: [u8; 10] = [0x61, 0x75, 0x74, 0x68, 0x5f, 0x74, 0x6f, 0x6b, 0x65, 0x6e];
    let ct0_name: [u8; 3] = [0x63, 0x74, 0x30];
    proof {
        reveal_strlit("auth_token");
        reveal_strlit("ct0");
        assert(auth_name@ =~= ascii_bytes("auth_token"@));
        assert(ct0_name@ =~= ascii_bytes("ct0"@));
    }
    let mut host: Option<String> = None;
    let mut auth: Option<Vec<u8>> = None;
    let mut ct0: Option<Vec<u8>> = None;
    let mut i: usize = 0;
    while i < rows.len()
        invariant
            i <= rows@.len(),
            auth_name@ == ascii_bytes("auth_token"@),
            ct0_name@ == ascii_bytes("ct0"@),
            pair_scan(rows@.take(i as int)) == Ok::<PairScan, Error>(
                (
                    match host {
                        Some(h) => Some(vstd::utf8::encode_utf8(h@)),
                        None => None,
                    },
                    match auth {
                        Some(a) => Some(a@),
                        None => None,
                    },
                    match ct0 {
                        Some(c) => Some(c@),
                        None => None,
                    },
                ),
            ),
        decreases rows@.len() - i,
    {
        assert(rows@.take(i + 1).drop_last() =~= rows@.take(i as int));
        let step = pair_row(&rows[i], i, &host, &auth, &ct0, &auth_name, &ct0_name);
        match step {
            Err(e) => {
                proof {
                    lemma_pair_scan_stuck(rows@, i as int + 1);
                }
                return Err(e);
            },
            Ok((h, is_auth, e)) => {
                host = Some(h);
                if is_auth {
                    auth = Some(e);
                } else {
                    ct0 = Some(e);
                }
            },
        }
        i = i + 1;
    }
    assert(rows@.take(i as int) =~= rows@);
    if read_failed {
        return Err(database_error());
    }
    match (host, auth, ct0) {
        (Some(host), Some(auth_token), Some(ct0)) => Ok(StoredPair { host, auth_token, ct0 }),
        _ => Err(missing_pair()),
    }
}

/// Checks one row against the pair found so far: the row's host, whether it holds the
/// `auth_token` (else the `ct0`), and its protected value.
fn pair_row(
    row: &CookieRow,
    index: usize,
    host: &Option<String>,
    auth: &Option<Vec<u8>>,
    ct0: &Option<Vec<u8>>,
    auth_name: &[u8; 10],
    ct0_name: &[u8; 3],
) -> (r: Result<(String, bool, Vec<u8>), Error>)
    requires
        auth_name@ == ascii_bytes("auth_token"@),
        ct0_name@ == ascii_bytes("ct0"@),
    ensures
        ({
            let s: PairScan = (
                match *host {
                    Some(h) => Some(vstd::utf8::encode_utf8(h@)),
                    None => None,
                },
                match *auth {
                    Some(a) => Some(a@),
                    None => None,
                },
                match *ct0 {
                    Some(c) => Some(c@),
                    None => None,
                },
            );
            match r {
                Err(e) => pair_step(s, index as nat, *row) == Err::<PairScan, Error>(e),
                Ok((h, is_auth, e)) => pair_step(s, index as nat, *row) == Ok::<PairScan, Error>(
                    if is_auth {
                        (Some(vstd::utf8::encode_utf8(h@)), Some(e@), s.2)
                    } else {
                        (Some(vstd::utf8::encode_utf8(h@)), s.1, Some(e@))
                    },
                ),
            }
        }),
{
    if index >= 2 {
        return Err(missing_pair());
    }
    let h = match text_of(&row.host) {
        Some(h) => h,
        None => return Err(unsupported()),
    };
    match host {
        Some(known) => {
            if !str_eq(known.as_str(), h.as_str()) {
                proof {
                    if vstd::utf8::encode_utf8(known@) == vstd::utf8::encode_utf8(h@) {
                        vstd::utf8::encode_utf8_decode_utf8(known@);
                        vstd::utf8::encode_utf8_decode_utf8(h@);
                    }
                }
                return Err(missing_pair());
            }
        },
        None => {},
    }
    let n = match text_of(&row.name) {
        Some(n) => n,
        None => return Err(unsupported()),
    };
    if !is_empty_text(&row.value) {
        return Err(unsupported());
    }
    let (a, sc, p) = match (int_of(&row.ancestor), int_of(&row.scheme), int_of(&row.port)) {
        (Some(a), Some(sc), Some(p)) => (a, sc, p),
        _ => return Err(unsupported()),
    };
    if !is_empty_text(&row.partition) || !(a == 0 || a == 1) || sc != 2 || !(p == -1 || p == 443) {
        return Err(unsupported());
    }
    let e = match protected_of(&row.encrypted) {
        Some(e) => e,
        None => return Err(unsupported()),
    };
    let nb = n.as_str().as_bytes();
    proof {
        reveal_strlit("auth_token");
        reveal_strlit("ct0");
    }
    if bytes_eq_slice(nb, auth_name.as_slice()) && auth.is_none() {
        Ok((h, true, e))
    } else if bytes_eq_slice(nb, ct0_name.as_slice()) && ct0.is_none() {
        Ok((h, false, e))
    } else {
        Err(missing_pair())
    }
}

fn bytes_eq_slice(a: &[u8], b: &[u8]) -> (r: bool)
    ensures
        r == (a@ == b@),
{
    if a.len() != b.len() {
        return false;
    }
    let mut i: usize = 0;
    while i < a.len()
        invariant
            a@.len() == b@.len(),
            i <= a@.len(),
            forall|k: int| 0 <= k < i ==> a@[k] == b@[k],
        decreases a@.len() - i,
    {
        if a[i] != b[i] {
            return false;
        }
        i = i + 1;
    }
    assert(a@ =~= b@);
    true
}

proof fn lemma_pair_scan_stuck(rows: Seq<CookieRow>, k: int)
    requires
        0 <= k <= rows.len(),
        pair_scan(rows.take(k)) is Err,
    ensures
        pair_scan(rows) == pair_scan(rows.take(k)),
    decreases rows.len() - k,
{
    if k < rows.len() {
        assert(rows.take(k + 1).drop_last() =~= rows.take(k));
        lemma_pair_scan_stuck(rows, k + 1);
    } else {
        assert(rows.take(k) =~= rows);
    }
}
} // verus!
