//! Non-secret browser connection metadata. Account identity is always the stable ID.
use vstd::prelude::*;
use crate::error::{Error, Kind};
use crate::input::{handle, is_handle, is_handle_range, is_post_id, is_post_id_chars, strip_at};
use crate::model::Identity;
use crate::text::{
    chars_eq, chars_of, copy_opt, decimal_u64, eq_ignore_case, is_token, is_token_chars,
    parse_decimal, push_decimal, decimal_text, starts_with_chars, str_eq, str_eq_ic,
};

verus! {

#[derive(Debug, Clone)]
pub struct Config {
    pub connections: Vec<Connection>,
    /// A local connection ID, never a mutable handle or alias.
    pub default: Option<String>,
}

#[derive(Debug, Clone)]
pub struct Connection {
    pub id: String,
    pub profile: String,
    pub alias: Option<String>,
    pub identity: Identity,
    pub preferred: bool,
}

pub open spec fn default_profile() -> Seq<char> {
    seq!['D', 'e', 'f', 'a', 'u', 'l', 't']
}

pub open spec fn profile_prefix() -> Seq<char> {
    seq!['P', 'r', 'o', 'f', 'i', 'l', 'e', ' ']
}

/// `Default`, or `Profile N` where N is the canonical decimal form of a 32-bit number.
pub open spec fn is_config_profile(p: Seq<char>) -> bool {
    ||| p == default_profile()
    ||| {
        &&& p.len() > 8
        &&& p.take(8) == profile_prefix()
        &&& p.skip(8).len() <= 10
        &&& decimal_u64(p.skip(8)) matches Some(v) && v <= u32::MAX
        &&& (p.skip(8).len() == 1 || p[8] != '0')
    }
}

/// Letters, digits, hyphens or underscores; at most 64 characters.
pub open spec fn is_alias(a: Seq<char>) -> bool {
    is_token(a, 64)
}

/// The per-connection syntax rules of a stored configuration.
pub open spec fn connection_fields_valid(c: Connection) -> bool {
    &&& is_token(c.id@, 128)
    &&& is_config_profile(c.profile@)
    &&& (c.alias matches Some(a) ==> is_alias(a@))
    &&& is_post_id(c.identity.id@)
    &&& is_handle(c.identity.handle@)
}

/// Two distinct connections never share an ID, a profile, an alias (ignoring case),
/// or a preference for the same stable account.
pub open spec fn connections_compatible(a: Connection, b: Connection) -> bool {
    &&& a.id@ != b.id@
    &&& a.profile@ != b.profile@
    &&& !(a.alias is Some && b.alias is Some && eq_ignore_case(a.alias->0@, b.alias->0@))
    &&& !(a.preferred && b.preferred && a.identity.id@ == b.identity.id@)
}

pub open spec fn has_id(conns: Seq<Connection>, id: Seq<char>, i: int) -> bool {
    0 <= i < conns.len() && conns[i].id@ == id
}

/// `i` is the first position holding a connection with the given local ID.
pub open spec fn is_first_id(conns: Seq<Connection>, id: Seq<char>, i: int) -> bool {
    has_id(conns, id, i) && forall|j: int| 0 <= j < i ==> !#[trigger] has_id(conns, id, j)
}

/// The validity rules that every loaded or saved configuration satisfies.
pub open spec fn config_valid(conns: Seq<Connection>, default: Option<String>) -> bool {
    &&& forall|i: int| 0 <= i < conns.len() ==> #[trigger] connection_fields_valid(conns[i])
    &&& forall|i: int, j: int|
        0 <= i < j < conns.len() ==> #[trigger] connections_compatible(conns[i], conns[j])
    &&& (default matches Some(d) ==> exists|i: int| #[trigger] has_id(conns, d@, i))
}

pub fn is_config_profile_chars(v: &[char]) -> (r: bool)
    ensures
        r == is_config_profile(v@),
{
    let default_chars: [char; 7] = ['D', 'e', 'f', 'a', 'u', 'l', 't'];
    let prefix: [char; 8] = ['P', 'r', 'o', 'f', 'i', 'l', 'e', ' '];
    assert(default_chars@ == default_profile());
    assert(prefix@ == profile_prefix());
    if chars_eq(v, default_chars.as_slice()) {
        return true;
    }
    if v.len() <= 8 || !starts_with_chars(v, prefix.as_slice()) {
        return false;
    }
    let n = v.len() - 8;
    assert(v@.skip(8) == v@.subrange(8, v@.len() as int));
    if n > 10 {
        return false;
    }
    match parse_decimal(v, 8, v.len()) {
        Some(x) => x <= 4294967295u64 && (n == 1 || v[8] != '0'),
        None => false,
    }
}

pub fn connection_fields_ok(c: &Connection) -> (r: bool)
    ensures
        r == connection_fields_valid(*c),
{
    let id = chars_of(c.id.as_str());
    if !is_token_chars(&id, 128) {
        return false;
    }
    let profile = chars_of(c.profile.as_str());
    if !is_config_profile_chars(&profile) {
        return false;
    }
    match &c.alias {
        Some(a) => {
            let a = chars_of(a.as_str());
            if !is_token_chars(&a, 64) {
                return false;
            }
        },
        None => {},
    }
    let ident = chars_of(c.identity.id.as_str());
    if !is_post_id_chars(&ident) {
        return false;
    }
    let h = chars_of(c.identity.handle.as_str());
    assert(h@.subrange(0, h@.len() as int) == h@);
    is_handle_range(&h, 0)
}

pub fn connections_compatible_ok(a: &Connection, b: &Connection) -> (r: bool)
    ensures
        r == connections_compatible(*a, *b),
{
    if str_eq(a.id.as_str(), b.id.as_str()) || str_eq(a.profile.as_str(), b.profile.as_str()) {
        return false;
    }
    match (&a.alias, &b.alias) {
        (Some(x), Some(y)) => {
            if str_eq_ic(x.as_str(), y.as_str()) {
                return false;
            }
        },
        _ => {},
    }
    !(a.preferred && b.preferred && str_eq(a.identity.id.as_str(), b.identity.id.as_str()))
}

fn invalid(message: &'static str) -> (e: Error)
    ensures
        e.kind == Kind::InvalidInput,
        e.message@ == message@,
        e.retry_after_seconds is None,
{
    Error::new(Kind::InvalidInput, message)
}

/// The position of the connection with the given local ID, if any (the first one).
pub fn find_connection(conns: &Vec<Connection>, id: &str) -> (r: Option<usize>)
    ensures
        match r {
            Some(i) => is_first_id(conns@, id@, i as int) && forall|j: int|
                #[trigger] is_first_id(conns@, id@, j) ==> j == i,
            None => forall|j: int| !#[trigger] has_id(conns@, id@, j) && !is_first_id(conns@, id@, j),
        },
{
    let mut i: usize = 0;
    while i < conns.len()
        invariant
            i <= conns@.len(),
            forall|j: int| 0 <= j < i ==> !#[trigger] has_id(conns@, id@, j),
        decreases conns@.len() - i,
    {
        if str_eq(conns[i].id.as_str(), id) {
            assert(is_first_id(conns@, id@, i as int));
            assert forall|j: int| #[trigger] is_first_id(conns@, id@, j) implies j == i by {
                if j < i {
                    assert(!has_id(conns@, id@, j));
                } else if i < j {
                    assert(has_id(conns@, id@, i as int));
                }
            }
            return Some(i);
        }
        i = i + 1;
    }
    None
}

fn first_handle_match(conns: &Vec<Connection>, h: &str) -> (r: Option<usize>)
    ensures
        match r {
            Some(f) => is_first_handle_match(conns@, h@, f as int) && forall|k: int|
                #[trigger] is_first_handle_match(conns@, h@, k) ==> k == f,
            None => forall|k: int| !#[trigger] is_first_handle_match(conns@, h@, k),
        },
{
    let mut i: usize = 0;
    while i < conns.len()
        invariant
            i <= conns@.len(),
            forall|j: int| 0 <= j < i ==> !#[trigger] handle_matches(conns@[j], h@),
        decreases conns@.len() - i,
    {
        if str_eq_ic(conns[i].identity.handle.as_str(), h) {
            assert(is_first_handle_match(conns@, h@, i as int));
            assert forall|k: int| #[trigger] is_first_handle_match(conns@, h@, k) implies k == i by {
                if k < i {
                    assert(!handle_matches(conns@[k], h@));
                } else if i < k {
                    assert(handle_matches(conns@[i as int], h@));
                }
            }
            return Some(i);
        }
        i = i + 1;
    }
    assert forall|k: int| !#[trigger] is_first_handle_match(conns@, h@, k) by {
        if 0 <= k < conns@.len() {
            assert(!handle_matches(conns@[k], h@));
        }
    }
    None
}

/// A connection whose handle matches but whose stable account differs from connection `f`'s.
fn other_account_for_handle(conns: &Vec<Connection>, h: &str, f: usize) -> (r: Option<usize>)
    requires
        f < conns@.len(),
    ensures
        match r {
            Some(j) => j < conns@.len() && handle_matches(conns@[j as int], h@)
                && conns@[j as int].identity.id@ != conns@[f as int].identity.id@,
            None => forall|k: int|
                0 <= k < conns@.len() && #[trigger] handle_matches(conns@[k], h@)
                    ==> conns@[k].identity.id@ == conns@[f as int].identity.id@,
        },
{
    let mut j: usize = 0;
    while j < conns.len()
        invariant
            f < conns@.len(),
            j <= conns@.len(),
            forall|k: int|
                0 <= k < j && #[trigger] handle_matches(conns@[k], h@) ==> conns@[k].identity.id@
                    == conns@[f as int].identity.id@,
        decreases conns@.len() - j,
    {
        if str_eq_ic(conns[j].identity.handle.as_str(), h) && !str_eq(
            conns[j].identity.id.as_str(),
            conns[f].identity.id.as_str(),
        ) {
            return Some(j);
        }
        j = j + 1;
    }
    None
}

fn first_alias_match(conns: &Vec<Connection>, s: &str) -> (r: Option<usize>)
    ensures
        match r {
            Some(f) => is_first_alias_match(conns@, s@, f as int) && forall|k: int|
                #[trigger] is_first_alias_match(conns@, s@, k) ==> k == f,
            None => forall|k: int| !#[trigger] is_first_alias_match(conns@, s@, k),
        },
{
    let mut i: usize = 0;
    while i < conns.len()
        invariant
            i <= conns@.len(),
            forall|j: int| 0 <= j < i ==> !#[trigger] alias_matches(conns@[j], s@),
        decreases conns@.len() - i,
    {
        let m = match &conns[i].alias {
            Some(a) => str_eq_ic(a.as_str(), s),
            None => false,
        };
        if m {
            assert(is_first_alias_match(conns@, s@, i as int));
            assert forall|k: int| #[trigger] is_first_alias_match(conns@, s@, k) implies k == i by {
                if k < i {
                    assert(!alias_matches(conns@[k], s@));
                } else if i < k {
                    assert(alias_matches(conns@[i as int], s@));
                }
            }
            return Some(i);
        }
        i = i + 1;
    }
    assert forall|k: int| !#[trigger] is_first_alias_match(conns@, s@, k) by {
        if 0 <= k < conns@.len() {
            assert(!alias_matches(conns@[k], s@));
        }
    }
    None
}

/// The connection used for a stable account: its preferred one, else its only one.
fn pick(conns: &Vec<Connection>, default: &Option<String>, ident: &str) -> (r: Option<usize>)
    requires
        config_valid(conns@, *default),
    ensures
        match r {
            Some(i) => pick_connection(conns@, ident@) == Some(i as int) && i < conns@.len(),
            None => pick_connection(conns@, ident@) is None,
        },
{
    let ghost cs = conns@;
    let mut first: Option<usize> = None;
    let mut second: Option<usize> = None;
    let mut i: usize = 0;
    while i < conns.len()
        invariant
            cs == conns@,
            config_valid(cs, *default),
            i <= cs.len(),
            forall|j: int| 0 <= j < i ==> !#[trigger] is_preferred_candidate(cs, ident@, j),
            match first {
                Some(a) => a < i && is_candidate(cs, ident@, a as int),
                None => forall|j: int| 0 <= j < i ==> !#[trigger] is_candidate(cs, ident@, j),
            },
            match second {
                Some(b) => b < i && is_candidate(cs, ident@, b as int) && (first matches Some(a) && a != b),
                None => forall|j: int|
                    0 <= j < i && #[trigger] is_candidate(cs, ident@, j) ==> first == Some(j as usize),
            },
        decreases cs.len() - i,
    {
        if str_eq(conns[i].identity.id.as_str(), ident) {
            if conns[i].preferred {
                assert(is_preferred_candidate(cs, ident@, i as int));
                proof {
                    let c = choose|k: int| is_preferred_candidate(cs, ident@, k);
                    lemma_unique_preferred(cs, *default, ident@, c, i as int);
                }
                return Some(i);
            }
            if first.is_none() {
                first = Some(i);
            } else if second.is_none() {
                second = Some(i);
            }
        }
        i = i + 1;
    }
    assert forall|k: int| !#[trigger] is_preferred_candidate(cs, ident@, k) by {
        if 0 <= k < cs.len() {
            assert(!is_preferred_candidate(cs, ident@, k));
        }
    }
    match (first, second) {
        (Some(a), None) => {
            assert(is_only_candidate(cs, ident@, a as int));
            proof {
                let c = choose|k: int| is_only_candidate(cs, ident@, k);
                assert(is_candidate(cs, ident@, a as int));
            }
            Some(a)
        },
        (Some(a), Some(b)) => {
            assert forall|k: int| !#[trigger] is_only_candidate(cs, ident@, k) by {
                if is_only_candidate(cs, ident@, k) {
                    assert(is_candidate(cs, ident@, a as int));
                    assert(is_candidate(cs, ident@, b as int));
                }
            }
            None
        },
        _ => {
            assert forall|k: int| !#[trigger] is_only_candidate(cs, ident@, k) by {
                if is_only_candidate(cs, ident@, k) {
                    assert(is_candidate(cs, ident@, k));
                }
            }
            None
        },
    }
}

impl Connection {
    /// A field-by-field copy.
    pub fn duplicate(&self) -> (r: Connection)
        ensures
            r == *self,
    {
        Connection {
            id: self.id.clone(),
            profile: self.profile.clone(),
            alias: copy_opt(&self.alias),
            identity: Identity { id: self.identity.id.clone(), handle: self.identity.handle.clone() },
            preferred: self.preferred,
        }
    }
}

pub fn copy_connections(v: &Vec<Connection>) -> (r: Vec<Connection>)
    ensures
        r@ == v@,
{
    let mut out: Vec<Connection> = Vec::new();
    let mut i: usize = 0;
    while i < v.len()
        invariant
            i <= v@.len(),
            out@ == v@.take(i as int),
        decreases v@.len() - i,
    {
        out.push(v[i].duplicate());
        i = i + 1;
        assert(out@ == v@.take(i as int));
    }
    assert(v@.take(v@.len() as int) == v@);
    out
}

/// The generated local ID `connection-N`.
pub open spec fn connection_id_text(n: nat) -> Seq<char> {
    seq!['c', 'o', 'n', 'n', 'e', 'c', 't', 'i', 'o', 'n', '-'] + decimal_text(n)
}

pub open spec fn id_taken(conns: Seq<Connection>, n: nat) -> bool {
    exists|i: int| #[trigger] has_id(conns, connection_id_text(n), i)
}

/// `n` is the smallest positive 64-bit number whose generated ID is unused.
pub open spec fn is_first_free(conns: Seq<Connection>, n: nat) -> bool {
    &&& 1 <= n <= u64::MAX
    &&& !id_taken(conns, n)
    &&& forall|m: nat| 1 <= m < n ==> #[trigger] id_taken(conns, m)
}

fn connection_id(n: u64) -> (s: String)
    ensures
        s@ == connection_id_text(n as nat),
{
    let prefix: [char; 11] = ['c', 'o', 'n', 'n', 'e', 'c', 't', 'i', 'o', 'n', '-'];
    let mut s = crate::text::string_of(prefix.as_slice());
    push_decimal(&mut s, n);
    s
}

fn first_free_id(conns: &Vec<Connection>) -> (r: Result<(u64, String), Error>)
    ensures
        match r {
            Ok((n, s)) => is_first_free(conns@, n as nat) && s@ == connection_id_text(n as nat),
            Err(e) => (forall|m: nat| 1 <= m <= u64::MAX ==> #[trigger] id_taken(conns@, m)) && e.kind
                == Kind::InvalidInput,
        },
{
    let mut n: u64 = 1;
    loop
        invariant
            1 <= n,
            forall|m: nat| 1 <= m < n ==> #[trigger] id_taken(conns@, m),
        decreases u64::MAX - n,
    {
        let id = connection_id(n);
        match find_connection(conns, id.as_str()) {
            None => {
                return Ok((n, id));
            },
            Some(i) => {
                assert(has_id(conns@, connection_id_text(n as nat), i as int));
                if n == u64::MAX {
                    assert forall|m: nat| 1 <= m <= u64::MAX implies #[trigger] id_taken(conns@, m) by {
                        if m < n {
                        } else {
                            assert(m == n);
                        }
                    }
                    return Err(invalid("Too many connections"));
                }
                n = n + 1;
            },
        }
    }
}

/// The connection that `add` registers under generated ID number `n`.
pub open spec fn is_added_connection(
    c: Connection,
    n: nat,
    profile: String,
    alias: Option<String>,
    identity: Identity,
) -> bool {
    &&& c.id@ == connection_id_text(n)
    &&& c.profile == profile
    &&& c.alias == alias
    &&& c.identity.id == identity.id
    &&& c.identity.handle@ == strip_at(identity.handle@)
    &&& !c.preferred
}

/// The first connection also becomes the default.
pub open spec fn default_after_add(conns: Seq<Connection>, default: Option<String>, c: Connection) -> Option<String> {
    if conns.len() == 0 {
        Some(c.id)
    } else {
        default
    }
}

/// Registering `c` succeeds: the configuration was valid, the handle is valid, `c` takes
/// the first free generated ID, and the extended configuration is valid.
pub open spec fn add_succeeds(
    conns: Seq<Connection>,
    default: Option<String>,
    profile: String,
    alias: Option<String>,
    identity: Identity,
    c: Connection,
) -> bool {
    &&& config_valid(conns, default)
    &&& is_handle(strip_at(identity.handle@))
    &&& exists|n: nat| is_first_free(conns, n) && #[trigger] is_added_connection(c, n, profile, alias, identity)
    &&& config_valid(conns.push(c), default_after_add(conns, default, c))
}

/// The configuration after preferring connection `id` of stable account `ident`.
pub open spec fn preferred_update(c: Connection, ident: Seq<char>, id: Seq<char>) -> Connection {
    if c.identity.id@ == ident {
        Connection { id: c.id, profile: c.profile, alias: c.alias, identity: c.identity, preferred: c.id@ == id }
    } else {
        c
    }
}

pub open spec fn renamed(c: Connection, alias: Option<String>) -> Connection {
    Connection { id: c.id, profile: c.profile, alias: alias, identity: c.identity, preferred: c.preferred }
}

impl Default for Config {
    fn default() -> (c: Self)
        ensures
            c.connections@.len() == 0,
            c.default is None,
    {
        Config { connections: Vec::new(), default: None }
    }
}

impl Config {
    /// The stable account ID named by a handle selector (`@name`) or a local alias.
    fn selector_identity(&self, selector: &str) -> (r: Result<String, Error>)
        ensures
            match r {
                Ok(v) => selector_identity_of(self.connections@, selector@) == Some(v@),
                Err(e) => selector_identity_of(self.connections@, selector@) is None && e.kind
                    == Kind::InvalidInput,
            },
    {
        let conns = &self.connections;
        let ghost cs = conns@;
        let sel = chars_of(selector);
        if sel.len() > 0 && sel[0] == '@' {
            let h = match handle(selector) {
                Ok(h) => h,
                Err(_) => return Err(invalid("Invalid X handle")),
            };
            assert(strip_at(selector@) == selector@.drop_first());
            let ghost hv = selector@.drop_first();
            let f = match first_handle_match(conns, h.as_str()) {
                Some(f) => f,
                None => return Err(invalid("Unknown account handle")),
            };
            assert((choose|k: int| is_first_handle_match(cs, hv, k)) == f as int);
            match other_account_for_handle(conns, h.as_str(), f) {
                Some(j) => Err(invalid("Handle maps to multiple stable accounts; use --connection")),
                None => Ok(conns[f].identity.id.clone()),
            }
        } else {
            match first_alias_match(conns, selector) {
                Some(i) => {
                    assert((choose|k: int| is_first_alias_match(cs, selector@, k)) == i as int);
                    Ok(conns[i].identity.id.clone())
                },
                None => Err(invalid("Unknown account alias; handles require @")),
            }
        }
    }

    /// The stable account used when neither a selector nor a connection is given.
    fn default_account(&self) -> (r: Result<String, Error>)
        ensures
            match r {
                Ok(v) => default_identity(self.connections@, self.default) == Some(v@),
                Err(e) => default_identity(self.connections@, self.default) is None && e.kind
                    == Kind::InvalidInput,
            },
    {
        match &self.default {
            Some(d) => match find_connection(&self.connections, d.as_str()) {
                Some(k) => {
                    Ok(self.connections[k].identity.id.clone())
                },
                None => Err(invalid("Default refers to an unknown connection")),
            },
            None => {
                if self.connections.len() == 0 {
                    return Err(invalid("No connected accounts"));
                }
                let mut j: usize = 0;
                while j < self.connections.len()
                    invariant
                        self.default is None,
                            self.connections@.len() > 0,
                        j <= self.connections@.len(),
                        forall|k: int|
                            0 <= k < j ==> #[trigger] self.connections@[k].identity.id@
                                == self.connections@[0].identity.id@,
                    decreases self.connections@.len() - j,
                {
                    if !str_eq(
                        self.connections[j].identity.id.as_str(),
                        self.connections[0].identity.id.as_str(),
                    ) {
                        assert(!(self.connections@[j as int].identity.id@
                            == self.connections@[0].identity.id@));
                        return Err(invalid("Select an account or configure a default"));
                    }
                    j = j + 1;
                }
                Ok(self.connections[0].identity.id.clone())
            },
        }
    }

    /// Whether `selector` names connection `k` (see `selector_accepts`).
    fn accepts(&self, selector: &str, k: usize) -> (r: Result<bool, Error>)
        requires
            k < self.connections@.len(),
        ensures
            match r {
                Ok(b) => b == selector_accepts(self.connections@, selector@, k as int),
                Err(e) => !selector_accepts(self.connections@, selector@, k as int) && e.kind
                    == Kind::InvalidInput,
            },
    {
        let sel = chars_of(selector);
        if sel.len() > 0 && sel[0] == '@' {
            assert(strip_at(selector@) == selector@.drop_first());
            match handle(selector) {
                Ok(h) => Ok(str_eq_ic(self.connections[k].identity.handle.as_str(), h.as_str())),
                Err(e) => Err(e),
            }
        } else {
            let id = self.selector_identity(selector)?;
            Ok(str_eq(id.as_str(), self.connections[k].identity.id.as_str()))
        }
    }

    /// The position of the connection chosen by `resolve`.
    pub fn resolve_position(&self, selector: Option<&str>, connection: Option<&str>) -> (r: Result<usize, Error>)
        ensures
            match r {
                Ok(i) => resolve_index(self.connections@, self.default, opt_view(selector), opt_view(connection))
                    == Some(i as int) && i < self.connections@.len(),
                Err(e) => resolve_index(self.connections@, self.default, opt_view(selector), opt_view(connection))
                    is None && e.kind == Kind::InvalidInput,
            },
    {
        self.validate()?;
        let ghost cs = self.connections@;
        match connection {
            Some(id) => {
                assert(opt_view(connection) == Some(id@));
                let k = match find_connection(&self.connections, id) {
                    Some(k) => k,
                    None => return Err(invalid("Unknown local connection ID")),
                };
                assert((choose|i: int| is_first_id(cs, id@, i)) == k as int);
                match selector {
                    Some(s) => {
                        assert(opt_view(selector) == Some(s@));
                        if !self.accepts(s, k)? {
                            return Err(invalid("Account selector and connection refer to different identities"));
                        }
                        Ok(k)
                    },
                    None => Ok(k),
                }
            },
            None => {
                let ident = match selector {
                    Some(s) => {
                        assert(opt_view(selector) == Some(s@));
                        self.selector_identity(s)?
                    },
                    None => self.default_account()?,
                };
                assert(account_identity(self.connections@, self.default, opt_view(selector)) == Some(ident@));
                match pick(&self.connections, &self.default, ident.as_str()) {
                    Some(i) => Ok(i),
                    None => Err(invalid("Account has multiple connections; set a preference or use --connection")),
                }
            },
        }
    }

    /// The connection that a selector (`@handle` or alias) and/or explicit connection ID choose.
    pub fn resolve(&self, selector: Option<&str>, connection: Option<&str>) -> (r: Result<&Connection, Error>)
        ensures
            match r {
                Ok(c) => exists|i: int| resolve_index(self.connections@, self.default, opt_view(selector), opt_view(connection))
                    == Some(i) && 0 <= i < self.connections@.len() && *c == self.connections@[i],
                Err(e) => resolve_index(self.connections@, self.default, opt_view(selector), opt_view(connection))
                    is None && e.kind == Kind::InvalidInput,
            },
    {
        let i = self.resolve_position(selector, connection)?;
        Ok(&self.connections[i])
    }

    /// The stable account ID that a selector names, checked against an explicit connection
    /// when one is given; several connections of that account are not ambiguous here.
    pub fn resolve_account_id(&self, selector: &str, connection: Option<&str>) -> (r: Result<String, Error>)
        ensures
            match r {
                Ok(v) => resolve_account(self.connections@, self.default, selector@, opt_view(connection))
                    == Some(v@),
                Err(e) => resolve_account(self.connections@, self.default, selector@, opt_view(connection))
                    is None && e.kind == Kind::InvalidInput,
            },
    {
        self.validate()?;
        let ghost cs = self.connections@;
        match connection {
            Some(id) => {
                let k = match find_connection(&self.connections, id) {
                    Some(k) => k,
                    None => return Err(invalid("Unknown local connection ID")),
                };
                if !self.accepts(selector, k)? {
                    return Err(invalid("Account selector and connection refer to different identities"));
                }
                Ok(self.connections[k].identity.id.clone())
            },
            None => self.selector_identity(selector),
        }
    }

    /// Registers a new connection with the next free generated ID; the first connection
    /// becomes the default. A failed registration leaves the configuration unchanged.
    pub fn add(&mut self, profile: String, alias: Option<String>, identity: Identity) -> (r: Result<Connection, Error>)
        ensures
            match r {
                Ok(c) => add_succeeds(old(self).connections@, old(self).default, profile, alias, identity, c)
                    && final(self).connections@ == old(self).connections@.push(c)
                    && final(self).default == default_after_add(old(self).connections@, old(self).default, c),
                Err(e) => (forall|c: Connection| !#[trigger] add_succeeds(old(self).connections@, old(self).default, profile, alias, identity, c))
                    && final(self).connections@ == old(self).connections@
                    && final(self).default == old(self).default
                    && e.kind == Kind::InvalidInput,
            },
    {
        let ghost conns0 = self.connections@;
        let ghost default0 = self.default;
        let ghost profile0 = profile;
        let ghost alias0 = alias;
        let ghost identity0 = identity;
        if let Err(e) = self.validate() {
            return Err(e);
        }
        let h = match handle(identity.handle.as_str()) {
            Ok(h) => h,
            Err(e) => return Err(e),
        };
        let (n, id) = match first_free_id(&self.connections) {
            Ok(p) => p,
            Err(e) => {
                assert forall|c: Connection| !#[trigger] add_succeeds(conns0, default0, profile0, alias0, identity0, c) by {
                    if add_succeeds(conns0, default0, profile0, alias0, identity0, c) {
                        let m = choose|m: nat| is_first_free(conns0, m) && #[trigger] is_added_connection(c, m, profile0, alias0, identity0);
                        assert(id_taken(conns0, m));
                    }
                }
                return Err(e);
            },
        };
        let connection = Connection {
            id,
            profile,
            alias,
            identity: Identity { id: identity.id, handle: h },
            preferred: false,
        };
        assert(is_added_connection(connection, n as nat, profile0, alias0, identity0));
        let mut candidate = Config { connections: copy_connections(&self.connections), default: copy_opt(&self.default) };
        if candidate.connections.len() == 0 {
            candidate.default = Some(connection.id.clone());
        }
        candidate.connections.push(connection.duplicate());
        match candidate.validate() {
            Ok(()) => {
                assert(add_succeeds(conns0, default0, profile0, alias0, identity0, connection));
                *self = candidate;
                Ok(connection)
            },
            Err(e) => {
                assert forall|c: Connection| !#[trigger] add_succeeds(conns0, default0, profile0, alias0, identity0, c) by {
                    if add_succeeds(conns0, default0, profile0, alias0, identity0, c) {
                        let m = choose|m: nat| is_first_free(conns0, m) && #[trigger] is_added_connection(c, m, profile0, alias0, identity0);
                        lemma_first_free_unique(conns0, m, n as nat);
                        lemma_same_views_valid(conns0, default0, c, connection);
                    }
                }
                Err(e)
            },
        }
    }

    /// Makes the default the connection that `selector` resolves to.
    pub fn set_default(&mut self, selector: &str) -> (r: Result<(), Error>)
        ensures
            final(self).connections@ == old(self).connections@,
            match r {
                Ok(()) => exists|i: int| resolve_index(old(self).connections@, old(self).default, Some(selector@), None)
                    == Some(i) && 0 <= i < old(self).connections@.len()
                    && final(self).default == Some(old(self).connections@[i].id),
                Err(e) => resolve_index(old(self).connections@, old(self).default, Some(selector@), None) is None
                    && final(self).default == old(self).default && e.kind == Kind::InvalidInput,
            },
    {
        let i = self.resolve_position(Some(selector), None)?;
        let id = self.connections[i].id.clone();
        self.default = Some(id);
        Ok(())
    }

    /// Removes a local registration; a removed default leaves no default.
    pub fn remove(&mut self, connection: &str) -> (r: Result<(), Error>)
        ensures
            match r {
                Ok(()) => config_valid(old(self).connections@, old(self).default)
                    && (exists|i: int| has_id(old(self).connections@, connection@, i))
                    && final(self).connections@ == old(self).connections@.filter(|c: Connection| c.id@ != connection@)
                    && final(self).default == (if old(self).default matches Some(d) && d@ == connection@ {
                        None
                    } else {
                        old(self).default
                    }),
                Err(e) => !(config_valid(old(self).connections@, old(self).default)
                    && (exists|i: int| has_id(old(self).connections@, connection@, i)))
                    && final(self).connections@ == old(self).connections@
                    && final(self).default == old(self).default && e.kind == Kind::InvalidInput,
            },
    {
        self.validate()?;
        match find_connection(&self.connections, connection) {
            Some(_) => {},
            None => return Err(invalid("Unknown local connection ID")),
        }
        let ghost pred = |c: Connection| c.id@ != connection@;
        let mut kept: Vec<Connection> = Vec::new();
        let mut i: usize = 0;
        while i < self.connections.len()
            invariant
                i <= self.connections@.len(),
                pred == (|c: Connection| c.id@ != connection@),
                kept@ == self.connections@.take(i as int).filter(pred),
            decreases self.connections@.len() - i,
        {
            proof {
                reveal_with_fuel(Seq::<_>::filter, 1);
                assert(self.connections@.take(i + 1).drop_last() == self.connections@.take(i as int));
            }
            if !str_eq(self.connections[i].id.as_str(), connection) {
                kept.push(self.connections[i].duplicate());
            }
            i = i + 1;
        }
        assert(self.connections@.take(self.connections@.len() as int) == self.connections@);
        self.connections = kept;
        let clear = match &self.default {
            Some(d) => str_eq(d.as_str(), connection),
            None => false,
        };
        if clear {
            self.default = None;
        }
        Ok(())
    }

    /// Marks `connection` as the preferred connection of its stable account, and the
    /// account's other connections as not preferred.
    pub fn prefer(&mut self, connection: &str) -> (r: Result<(), Error>)
        ensures
            final(self).default == old(self).default,
            match r {
                Ok(()) => config_valid(old(self).connections@, old(self).default)
                    && exists|k: int| is_first_id(old(self).connections@, connection@, k)
                    && final(self).connections@ == old(self).connections@.map_values(
                        |c: Connection| preferred_update(c, old(self).connections@[k].identity.id@, connection@),
                    ),
                Err(e) => !(config_valid(old(self).connections@, old(self).default)
                    && (exists|k: int| is_first_id(old(self).connections@, connection@, k)))
                    && final(self).connections@ == old(self).connections@ && e.kind == Kind::InvalidInput,
            },
    {
        self.validate()?;
        let k = match find_connection(&self.connections, connection) {
            Some(k) => k,
            None => return Err(invalid("Unknown local connection ID")),
        };
        let ident = self.connections[k].identity.id.clone();
        let ghost iv = ident@;
        let ghost old_conns = self.connections@;
        let mut updated: Vec<Connection> = Vec::new();
        let mut i: usize = 0;
        while i < self.connections.len()
            invariant
                old_conns == self.connections@,
                i <= old_conns.len(),
                ident@ == iv,
                updated@.len() == i,
                forall|j: int| 0 <= j < i ==> #[trigger] updated@[j] == preferred_update(old_conns[j], iv, connection@),
            decreases old_conns.len() - i,
        {
            let mut c = self.connections[i].duplicate();
            if str_eq(c.identity.id.as_str(), ident.as_str()) {
                c.preferred = str_eq(c.id.as_str(), connection);
            }
            updated.push(c);
            i = i + 1;
        }
        assert(updated@ == old_conns.map_values(|c: Connection| preferred_update(c, iv, connection@)));
        self.connections = updated;
        Ok(())
    }

    /// Changes (or clears) the alias of a connection, keeping the configuration valid.
    pub fn rename(&mut self, connection: &str, alias: Option<String>) -> (r: Result<(), Error>)
        ensures
            final(self).default == old(self).default,
            match r {
                Ok(()) => config_valid(old(self).connections@, old(self).default)
                    && exists|k: int| is_first_id(old(self).connections@, connection@, k)
                    && final(self).connections@ == old(self).connections@.update(k, renamed(old(self).connections@[k], alias))
                    && config_valid(final(self).connections@, final(self).default),
                Err(e) => !(config_valid(old(self).connections@, old(self).default)
                    && exists|k: int| is_first_id(old(self).connections@, connection@, k)
                    && config_valid(old(self).connections@.update(k, renamed(old(self).connections@[k], alias)), old(self).default))
                    && final(self).connections@ == old(self).connections@ && e.kind == Kind::InvalidInput,
            },
    {
        let ghost alias0 = alias;
        self.validate()?;
        let k = match find_connection(&self.connections, connection) {
            Some(k) => k,
            None => return Err(invalid("Unknown local connection ID")),
        };
        let mut conns = copy_connections(&self.connections);
        let c = self.connections[k].duplicate();
        let r = Connection { id: c.id, profile: c.profile, alias, identity: c.identity, preferred: c.preferred };
        conns.set(k, r);
        let candidate = Config { connections: conns, default: copy_opt(&self.default) };
        assert(candidate.connections@ == self.connections@.update(k as int, renamed(self.connections@[k as int], alias0)));
        candidate.validate()?;
        *self = candidate;
        Ok(())
    }

    /// The configuration from what the state file held: none is an empty configuration;
    /// a stored one must be valid, and an invalid one is refused, never repaired.
    pub fn load(stored: Option<Config>) -> (r: Result<Config, Error>)
        ensures
            match stored {
                None => r matches Ok(c) && c.connections@.len() == 0 && c.default is None,
                Some(c) => match r {
                    Ok(l) => l == c && config_valid(c.connections@, c.default),
                    Err(e) => !config_valid(c.connections@, c.default) && e.kind == Kind::InvalidInput,
                },
            },
    {
        match stored {
            None => Ok(Config::default()),
            Some(c) => {
                c.validate()?;
                Ok(c)
            },
        }
    }

    pub fn validate(&self) -> (r: Result<(), Error>)
        ensures
            match r {
                Ok(()) => config_valid(self.connections@, self.default),
                Err(e) => !config_valid(self.connections@, self.default) && e.kind
                    == Kind::InvalidInput,
            },
    {
        let conns = &self.connections;
        let mut i: usize = 0;
        while i < conns.len()
            invariant
                conns@ == self.connections@,
                i <= conns@.len(),
                forall|k: int| 0 <= k < i ==> #[trigger] connection_fields_valid(conns@[k]),
                forall|k: int, l: int|
                    0 <= k < l < i ==> #[trigger] connections_compatible(conns@[k], conns@[l]),
            decreases conns@.len() - i,
        {
            if !connection_fields_ok(&conns[i]) {
                assert(!connection_fields_valid(conns@[i as int]));
                return Err(invalid("Invalid connection ID, profile, alias or identity"));
            }
            let mut j: usize = 0;
            while j < i
                invariant
                    conns@ == self.connections@,
                    j <= i < conns@.len(),
                    forall|k: int| 0 <= k < j ==> #[trigger] connections_compatible(conns@[k], conns@[i as int]),
                decreases i - j,
            {
                if !connections_compatible_ok(&conns[j], &conns[i]) {
                    assert(!connections_compatible(conns@[j as int], conns@[i as int]));
                    return Err(invalid("Duplicate connection ID, profile, alias or preference"));
                }
                j = j + 1;
            }
            i = i + 1;
        }
        match &self.default {
            Some(d) => {
                match find_connection(conns, d.as_str()) {
                    Some(_) => Ok(()),
                    None => Err(invalid("Default refers to an unknown connection")),
                }
            },
            None => Ok(()),
        }
    }
}

pub open spec fn handle_matches(c: Connection, h: Seq<char>) -> bool {
    eq_ignore_case(c.identity.handle@, h)
}

pub open spec fn alias_matches(c: Connection, s: Seq<char>) -> bool {
    c.alias is Some && eq_ignore_case(c.alias->0@, s)
}

pub open spec fn is_first_handle_match(conns: Seq<Connection>, h: Seq<char>, i: int) -> bool {
    &&& 0 <= i < conns.len()
    &&& handle_matches(conns[i], h)
    &&& forall|j: int| 0 <= j < i ==> !#[trigger] handle_matches(conns[j], h)
}

pub open spec fn is_first_alias_match(conns: Seq<Connection>, s: Seq<char>, i: int) -> bool {
    &&& 0 <= i < conns.len()
    &&& alias_matches(conns[i], s)
    &&& forall|j: int| 0 <= j < i ==> !#[trigger] alias_matches(conns[j], s)
}

/// The stable account ID that a selector names: `@handle` (which must name one
/// stable account among the stored handles, ignoring case) or a local alias.
pub open spec fn selector_identity_of(conns: Seq<Connection>, s: Seq<char>) -> Option<Seq<char>> {
    if s.len() > 0 && s[0] == '@' {
        let h = s.drop_first();
        if is_handle(h) && exists|i: int| is_first_handle_match(conns, h, i) {
            let f = choose|i: int| is_first_handle_match(conns, h, i);
            if forall|j: int|
                0 <= j < conns.len() && #[trigger] handle_matches(conns[j], h)
                    ==> conns[j].identity.id@ == conns[f].identity.id@ {
                Some(conns[f].identity.id@)
            } else {
                None
            }
        } else {
            None
        }
    } else if exists|i: int| is_first_alias_match(conns, s, i) {
        Some(conns[choose|i: int| is_first_alias_match(conns, s, i)].identity.id@)
    } else {
        None
    }
}

/// Whether a selector given together with an explicit connection names that connection:
/// a handle is compared with that connection's own handle, an alias by stable account.
pub open spec fn selector_accepts(conns: Seq<Connection>, s: Seq<char>, k: int) -> bool {
    if s.len() > 0 && s[0] == '@' {
        is_handle(s.drop_first()) && eq_ignore_case(conns[k].identity.handle@, s.drop_first())
    } else {
        selector_identity_of(conns, s) == Some(conns[k].identity.id@)
    }
}

/// The account used without a selector: the default connection's, or the only
/// stable account among all connections.
pub open spec fn default_identity(conns: Seq<Connection>, default: Option<String>) -> Option<Seq<char>> {
    match default {
        Some(d) => if exists|i: int| is_first_id(conns, d@, i) {
            Some(conns[choose|i: int| is_first_id(conns, d@, i)].identity.id@)
        } else {
            None
        },
        None => if conns.len() > 0 && forall|j: int|
            0 <= j < conns.len() ==> #[trigger] conns[j].identity.id@ == conns[0].identity.id@ {
            Some(conns[0].identity.id@)
        } else {
            None
        },
    }
}

pub open spec fn account_identity(
    conns: Seq<Connection>,
    default: Option<String>,
    selector: Option<Seq<char>>,
) -> Option<Seq<char>> {
    match selector {
        Some(s) => selector_identity_of(conns, s),
        None => default_identity(conns, default),
    }
}

pub open spec fn is_candidate(conns: Seq<Connection>, ident: Seq<char>, i: int) -> bool {
    0 <= i < conns.len() && conns[i].identity.id@ == ident
}

pub open spec fn is_preferred_candidate(conns: Seq<Connection>, ident: Seq<char>, i: int) -> bool {
    is_candidate(conns, ident, i) && conns[i].preferred
}

pub open spec fn is_only_candidate(conns: Seq<Connection>, ident: Seq<char>, i: int) -> bool {
    is_candidate(conns, ident, i) && forall|j: int| #[trigger] is_candidate(conns, ident, j) ==> j == i
}

/// The connection used for a stable account: its preferred connection, or its only one.
pub open spec fn pick_connection(conns: Seq<Connection>, ident: Seq<char>) -> Option<int> {
    if exists|i: int| is_preferred_candidate(conns, ident, i) {
        Some(choose|i: int| is_preferred_candidate(conns, ident, i))
    } else if exists|i: int| is_only_candidate(conns, ident, i) {
        Some(choose|i: int| is_only_candidate(conns, ident, i))
    } else {
        None
    }
}

pub open spec fn opt_view(o: Option<&str>) -> Option<Seq<char>> {
    match o {
        Some(s) => Some(s@),
        None => None,
    }
}

/// The position of the connection that a selector and/or explicit connection ID choose.
pub open spec fn resolve_index(
    conns: Seq<Connection>,
    default: Option<String>,
    selector: Option<Seq<char>>,
    connection: Option<Seq<char>>,
) -> Option<int> {
    if !config_valid(conns, default) {
        None
    } else {
        match connection {
            Some(cid) => if exists|i: int| is_first_id(conns, cid, i) {
                let k = choose|i: int| is_first_id(conns, cid, i);
                match selector {
                    None => Some(k),
                    Some(s) => if selector_accepts(conns, s, k) {
                        Some(k)
                    } else {
                        None
                    },
                }
            } else {
                None
            },
            None => match account_identity(conns, default, selector) {
                Some(ident) => pick_connection(conns, ident),
                None => None,
            },
        }
    }
}

/// The stable account ID that a selector names, optionally checked against an explicit
/// connection; ambiguity among several connections of one account does not matter here.
pub open spec fn resolve_account(
    conns: Seq<Connection>,
    default: Option<String>,
    selector: Seq<char>,
    connection: Option<Seq<char>>,
) -> Option<Seq<char>> {
    if !config_valid(conns, default) {
        None
    } else {
        match connection {
            Some(cid) => if exists|i: int| is_first_id(conns, cid, i) {
                let k = choose|i: int| is_first_id(conns, cid, i);
                if selector_accepts(conns, selector, k) {
                    Some(conns[k].identity.id@)
                } else {
                    None
                }
            } else {
                None
            },
            None => selector_identity_of(conns, selector),
        }
    }
}

pub proof fn lemma_first_free_unique(conns: Seq<Connection>, a: nat, b: nat)
    requires
        is_first_free(conns, a),
        is_first_free(conns, b),
    ensures
        a == b,
{
    if a < b {
        assert(id_taken(conns, a));
    } else if b < a {
        assert(id_taken(conns, b));
    }
}

/// Validity of a configuration extended with one connection depends only on the views
/// of that connection's text fields.
pub proof fn lemma_same_views_valid(conns: Seq<Connection>, default: Option<String>, a: Connection, b: Connection)
    requires
        a.id@ == b.id@,
        a.profile == b.profile,
        a.alias == b.alias,
        a.identity.id == b.identity.id,
        a.identity.handle@ == b.identity.handle@,
        a.preferred == b.preferred,
    ensures
        config_valid(conns.push(a), default_after_add(conns, default, a))
            == config_valid(conns.push(b), default_after_add(conns, default, b)),
{
    let ca = conns.push(a);
    let cb = conns.push(b);
    assert forall|i: int| 0 <= i < ca.len() implies connection_fields_valid(ca[i]) == connection_fields_valid(cb[i]) by {}
    assert forall|i: int, j: int| 0 <= i < j < ca.len() implies connections_compatible(ca[i], ca[j]) == connections_compatible(cb[i], cb[j]) by {}
    let da = default_after_add(conns, default, a);
    let db = default_after_add(conns, default, b);
    if let Some(d) = da {
        assert(db is Some && db->0@ == d@);
        assert((exists|i: int| has_id(ca, d@, i)) == (exists|i: int| has_id(cb, d@, i))) by {
            if exists|i: int| has_id(ca, d@, i) {
                let i = choose|i: int| has_id(ca, d@, i);
                assert(has_id(cb, d@, i));
            }
            if exists|i: int| has_id(cb, d@, i) {
                let i = choose|i: int| has_id(cb, d@, i);
                assert(has_id(ca, d@, i));
            }
        }
    }
    if config_valid(ca, da) {
        assert forall|i: int| 0 <= i < cb.len() implies #[trigger] connection_fields_valid(cb[i]) by {
            assert(connection_fields_valid(ca[i]));
        }
        assert forall|i: int, j: int| 0 <= i < j < cb.len() implies #[trigger] connections_compatible(cb[i], cb[j]) by {
            assert(connections_compatible(ca[i], ca[j]));
        }
    }
    if config_valid(cb, db) {
        assert forall|i: int| 0 <= i < ca.len() implies #[trigger] connection_fields_valid(ca[i]) by {
            assert(connection_fields_valid(cb[i]));
        }
        assert forall|i: int, j: int| 0 <= i < j < ca.len() implies #[trigger] connections_compatible(ca[i], ca[j]) by {
            assert(connections_compatible(cb[i], cb[j]));
        }
    }
}

/// After a connection is preferred, every selector that names its account, and the
/// default when it names that account, resolves to that connection.
pub proof fn lemma_preferred_is_resolved(
    conns: Seq<Connection>,
    default: Option<String>,
    connection: Seq<char>,
    k: int,
    selector: Option<Seq<char>>,
)
    requires
        config_valid(conns, default),
        is_first_id(conns, connection, k),
        account_identity(
            conns.map_values(|c: Connection| preferred_update(c, conns[k].identity.id@, connection)),
            default,
            selector,
        ) == Some(conns[k].identity.id@),
    ensures
        resolve_index(
            conns.map_values(|c: Connection| preferred_update(c, conns[k].identity.id@, connection)),
            default,
            selector,
            None,
        ) == Some(k),
{
    let ident = conns[k].identity.id@;
    let after = conns.map_values(|c: Connection| preferred_update(c, ident, connection));
    assert forall|i: int, j: int| 0 <= i < j < after.len() implies #[trigger] connections_compatible(
        after[i],
        after[j],
    ) by {
        assert(connections_compatible(conns[i], conns[j]));
    }
    assert forall|i: int| 0 <= i < after.len() implies #[trigger] connection_fields_valid(after[i]) by {
        assert(connection_fields_valid(conns[i]));
    }
    assert(default matches Some(d) ==> exists|i: int| #[trigger] has_id(after, d@, i)) by {
        if default is Some {
            let i = choose|i: int| #[trigger] has_id(conns, default->0@, i);
            assert(has_id(after, default->0@, i));
        }
    }
    assert(config_valid(after, default));
    assert(after[k].preferred);
    assert(is_preferred_candidate(after, ident, k));
    let p = choose|i: int| is_preferred_candidate(after, ident, i);
    assert(is_preferred_candidate(after, ident, p));
    lemma_unique_preferred(after, default, ident, p, k);
}

pub proof fn lemma_unique_ids(conns: Seq<Connection>, default: Option<String>, id: Seq<char>, a: int, b: int)
    requires
        config_valid(conns, default),
        has_id(conns, id, a),
        has_id(conns, id, b),
    ensures
        a == b,
{
    if a < b {
        assert(connections_compatible(conns[a], conns[b]));
    } else if b < a {
        assert(connections_compatible(conns[b], conns[a]));
    }
}

pub proof fn lemma_unique_preferred(conns: Seq<Connection>, default: Option<String>, ident: Seq<char>, a: int, b: int)
    requires
        config_valid(conns, default),
        is_preferred_candidate(conns, ident, a),
        is_preferred_candidate(conns, ident, b),
    ensures
        a == b,
{
    if a < b {
        assert(connections_compatible(conns[a], conns[b]));
    } else if b < a {
        assert(connections_compatible(conns[b], conns[a]));
    }
}

pub fn verify_identity(expected: &Identity, actual: &Identity) -> (r: Result<(), Error>)
    ensures
        match r {
            Ok(()) => expected.id@ == actual.id@ && expected.id@.len() > 0,
            Err(e) => !(expected.id@ == actual.id@ && expected.id@.len() > 0) && e.kind
                == Kind::IdentityMismatch,
        },
{
    if !str_eq(expected.id.as_str(), actual.id.as_str()) || expected.id.as_str().is_empty() {
        return Err(
            Error::new(
                Kind::IdentityMismatch,
                "Browser account does not match the connected stable identity",
            ),
        );
    }
    Ok(())
}

} // verus!
