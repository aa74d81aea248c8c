//! Cached normalized read results and per-backend/account cooldowns. Keys are digests,
//! not user input paths; credentials are never accepted here. Each scope is kept in a
//! file of its own and read alone; the files are read and written elsewhere, and every
//! decision about their contents is made here.
use vstd::prelude::*;
use crate::error::{Error, Kind, storage, storage_error};
use crate::hashing::{hex_lower, lemma_hex_lower_len, sha256, sha256_digest, to_hex};
use crate::model::{Output, now};
use crate::pagination::{opt_str, opt_text};
use crate::text::{str_eq, str_lt, text_lt, lemma_text_lt_irreflexive, lemma_text_lt_total, lemma_text_lt_transitive};

verus! {

broadcast use vstd::seq_lib::group_to_multiset_ensures;

/// The largest encoded scope; each scope stays well below the state file cap.
pub const MAX_SCOPE_BYTES: usize = 4 * 1024 * 1024;

/// The most entries a scope holds.
pub const MAX_SCOPE_ENTRIES: usize = 128;

/// The most scope files kept.
pub const MAX_SCOPES: usize = 64;

/// The most cooldown deadlines kept.
pub const MAX_COOLDOWNS: usize = 4096;

/// How many of `n` other scope files go so that, with the written scope when it is
/// present, at most `keep_at_most` remain.
pub open spec fn prune_excess(n: nat, keep_present: bool, keep_at_most: nat) -> nat {
    let total = n + if keep_present { 1nat } else { 0nat };
    if total <= keep_at_most {
        0
    } else if total - keep_at_most > n {
        n
    } else {
        (total - keep_at_most) as nat
    }
}

/// The scope files to remove, given the other scope files oldest first: the oldest ones
/// beyond the bound. The written scope is never among them, and afterwards at most
/// `keep_at_most` scope files remain, it included.
pub fn scopes_to_remove(others: Vec<String>, keep_present: bool, keep_at_most: usize) -> (r: Vec<String>)
    ensures
        r@ == others@.take(prune_excess(others@.len(), keep_present, keep_at_most as nat) as int),
        keep_present ==> keep_at_most >= 1 ==> others@.len() - r@.len() + 1 <= keep_at_most,
        !keep_present ==> others@.len() - r@.len() <= keep_at_most,
{
    let n = others.len();
    let extra: usize = if keep_present { 1 } else { 0 };
    let excess: usize = if keep_at_most < extra {
        n
    } else if n <= keep_at_most - extra {
        0
    } else {
        n - (keep_at_most - extra)
    };
    let mut r = others;
    r.truncate(excess);
    r
}

/// The JSON encoding of a (backend, account, key) triple. JSON marks the tuple's
/// boundaries and tells the public `null` scope from every account string.
pub uninterp spec fn json_triple(backend: Seq<char>, account: Option<Seq<char>>, key: Option<Seq<char>>) -> Seq<u8>;

/// Calls `serde_json::to_vec` on the triple. Serializing strings and optional strings
/// into a vector cannot fail (an error needs a failing `Serialize` impl or a non-string
/// map key), so the contract promises the named encoding on every input.
#[verifier::external_body]
fn encode_triple(backend: &str, account: Option<&str>, key: Option<&str>) -> (r: Vec<u8>)
    ensures
        r@ == json_triple(backend@, opt_str(account), opt_str(key)),
{
    match serde_json::to_vec(&(backend, account, key)) {
        Ok(bytes) => bytes,
        Err(_) => Vec::new(),
    }
}

/// The digest naming a scope (`key` absent) or one entry of it.
pub open spec fn digest_of(backend: Seq<char>, account: Option<Seq<char>>, key: Option<Seq<char>>) -> Seq<char> {
    hex_lower(sha256(json_triple(backend, account, key)))
}

/// The lowercase hexadecimal SHA-256 digest of the JSON triple.
pub fn digest(backend: &str, account: Option<&str>, key: Option<&str>) -> (r: Result<String, Error>)
    ensures
        r matches Ok(s) && s@ == digest_of(backend@, opt_str(account), opt_str(key)) && s@.len() == 64,
{
    let bytes = encode_triple(backend, account, key);
    let d = sha256_digest(bytes.as_slice());
    let s = to_hex(d.as_slice());
    proof {
        lemma_hex_lower_len(d@);
    }
    Ok(s)
}

/// An output belongs to the scope of its backend and account.
pub open spec fn in_scope(o: Output, backend: Seq<char>, account: Option<Seq<char>>) -> bool {
    o.provenance.backend@ == backend && opt_text(o.provenance.account_id) == account
}

pub fn matches_scope(output: &Output, backend: &str, account: Option<&str>) -> (r: bool)
    ensures
        r == in_scope(*output, backend@, opt_str(account)),
{
    if !str_eq(output.provenance.backend.as_str(), backend) {
        return false;
    }
    match (&output.provenance.account_id, account) {
        (Some(a), Some(b)) => str_eq(a.as_str(), b),
        (None, None) => true,
        _ => false,
    }
}

/// One cached result and the sizes of its key and value in the scope's JSON file.
#[derive(Debug, Clone)]
pub struct Entry {
    pub key: String,
    pub output: Output,
    pub key_size: usize,
    pub output_size: usize,
}

/// The entries of one scope; no key occurs twice.
#[derive(Debug, Clone)]
pub struct Entries {
    pub items: Vec<Entry>,
}

pub open spec fn keys_distinct(s: Seq<(Seq<char>, Output, nat, nat)>) -> bool {
    forall|i: int, j: int| 0 <= i < j < s.len() ==> s[i].0 != s[j].0
}

impl Entries {
    pub open spec fn wf(self) -> bool {
        keys_distinct(view_of(self.items@))
    }

    pub fn new() -> (e: Self)
        ensures
            e.items@.len() == 0,
            e.wf(),
    {
        let e = Entries { items: Vec::new() };
        assert(view_of(e.items@) =~= Seq::<EntryView>::empty());
        e
    }
}

/// The position of the entry with this key, or -1.
pub open spec fn position(items: Seq<Entry>, key: Seq<char>) -> int
    decreases items.len(),
{
    if items.len() == 0 {
        -1
    } else if items.last().key@ == key {
        items.len() - 1
    } else {
        position(items.drop_last(), key)
    }
}

pub proof fn lemma_position(items: Seq<Entry>, key: Seq<char>)
    ensures
        -1 <= position(items, key) < items.len(),
        position(items, key) >= 0 ==> items[position(items, key)].key@ == key,
        position(items, key) < 0 ==> forall|i: int| 0 <= i < items.len() ==> items[i].key@ != key,
    decreases items.len(),
{
    if items.len() > 0 {
        lemma_position(items.drop_last(), key);
        if position(items, key) < 0 {
            assert forall|i: int| 0 <= i < items.len() implies items[i].key@ != key by {
                if i < items.len() - 1 {
                    assert(items.drop_last()[i] == items[i]);
                }
            }
        }
    }
}

/// The cached output under a key.
pub open spec fn entry_at(items: Seq<Entry>, key: Seq<char>) -> Option<Output> {
    if position(items, key) >= 0 {
        Some(items[position(items, key)].output)
    } else {
        None
    }
}

fn find(items: &Vec<Entry>, key: &String) -> (r: Option<usize>)
    ensures
        match r {
            Some(i) => i < items@.len() && i as int == position(items@, key@),
            None => position(items@, key@) == -1,
        },
{
    proof {
        lemma_position(items@, key@);
    }
    let mut i: usize = items.len();
    assert(items@.take(i as int) =~= items@);
    while i > 0
        invariant
            i <= items@.len(),
            position(items@, key@) == position(items@.take(i as int), key@),
        decreases i,
    {
        assert(items@.take(i as int).drop_last() =~= items@.take(i - 1));
        if str_eq(items[i - 1].key.as_str(), key.as_str()) {
            return Some(i - 1);
        }
        i = i - 1;
    }
    None
}

/// What a lookup returns: a cached output of the same scope that is younger than the
/// time-to-live comes back marked as a hit with its age; a missing, future-dated or
/// expired entry is a miss (a time-to-live of zero disables hits); an entry of another
/// scope is a storage error.
pub open spec fn looked_up(
    entry: Option<Output>,
    backend: Seq<char>,
    account: Option<Seq<char>>,
    ttl: u64,
    now: u64,
    r: Result<Option<Output>, Error>,
) -> bool {
    match entry {
        None => r == Ok::<Option<Output>, Error>(None),
        Some(o) => if !in_scope(o, backend, account) {
            r == Err::<Option<Output>, Error>(storage_error())
        } else if now < o.provenance.retrieved_at || now - o.provenance.retrieved_at >= ttl {
            r == Ok::<Option<Output>, Error>(None)
        } else {
            r matches Ok(Some(h)) && is_hit(h, o, (now - o.provenance.retrieved_at) as u64)
        },
    }
}

/// `h` is `o` served from the cache at the given age.
pub open spec fn is_hit(h: Output, o: Output, age: u64) -> bool {
    &&& h.provenance.cache@ == "hit"@
    &&& h.provenance.age_seconds == age
    &&& h.provenance.backend == o.provenance.backend
    &&& h.provenance.account_id == o.provenance.account_id
    &&& h.provenance.retrieved_at == o.provenance.retrieved_at
    &&& h.posts == o.posts
    &&& h.users == o.users
    &&& h.lists == o.lists
    &&& h.complete == o.complete
    &&& h.parent_chain_complete == o.parent_chain_complete
    &&& h.replies_complete == o.replies_complete
    &&& h.request_failed == o.request_failed
    &&& h.stop_reason == o.stop_reason
    &&& h.next_cursor == o.next_cursor
    &&& h.pages == o.pages
    &&& h.warnings == o.warnings
}

/// Decides a lookup at time `now` (see `looked_up`).
pub fn lookup(entry: Option<Output>, backend: &str, account: Option<&str>, ttl: u64, now: u64) -> (r: Result<Option<Output>, Error>)
    ensures
        looked_up(entry, backend@, opt_str(account), ttl, now, r),
{
    match entry {
        None => Ok(None),
        Some(mut output) => {
            if !matches_scope(&output, backend, account) {
                return Err(storage());
            }
            if now < output.provenance.retrieved_at {
                return Ok(None);
            }
            let age = now - output.provenance.retrieved_at;
            if age >= ttl {
                return Ok(None);
            }
            output.provenance.cache = "hit".to_owned();
            output.provenance.age_seconds = age;
            Ok(Some(output))
        },
    }
}

/// An entry as values: key, output, and the sizes of the key and the value in JSON.
pub type EntryView = (Seq<char>, Output, nat, nat);

pub open spec fn entry_view(e: Entry) -> EntryView {
    (e.key@, e.output, e.key_size as nat, e.output_size as nat)
}

pub open spec fn view_of(items: Seq<Entry>) -> Seq<EntryView> {
    items.map_values(|e: Entry| entry_view(e))
}

/// The bytes an entry takes in the scope's JSON object: key, colon and value.
pub open spec fn entry_size(e: EntryView) -> int {
    (e.2 + 1 + e.3) as int
}

pub open spec fn sizes_sum(s: Seq<EntryView>) -> int
    decreases s.len(),
{
    if s.len() == 0 {
        0
    } else {
        sizes_sum(s.drop_last()) + entry_size(s.last())
    }
}

/// The length of the scope's JSON object: braces, entries and separating commas.
pub open spec fn scope_bytes(s: Seq<EntryView>) -> int {
    2 + sizes_sum(s) + if s.len() > 0 {
        s.len() - 1
    } else {
        0
    }
}

/// Within the bounds of a scope.
pub open spec fn within(s: Seq<EntryView>) -> bool {
    s.len() <= MAX_SCOPE_ENTRIES && scope_bytes(s) <= MAX_SCOPE_BYTES
}

/// The entries without the one under `k`.
pub open spec fn without_key(s: Seq<EntryView>, k: Seq<char>) -> Seq<EntryView>
    decreases s.len(),
{
    if s.len() == 0 {
        s
    } else {
        without_key(s.drop_last(), k) + if s.last().0 == k {
            Seq::<EntryView>::empty()
        } else {
            seq![s.last()]
        }
    }
}

/// Eviction precedence: older retrieval first, then key order.
pub type Stamp = (u64, Seq<char>);

pub open spec fn stamp_lt(a: Stamp, b: Stamp) -> bool {
    a.0 < b.0 || (a.0 == b.0 && text_lt(a.1, b.1))
}

pub open spec fn stamps(v: Seq<(u64, String)>) -> Seq<Stamp> {
    v.map_values(|p: (u64, String)| (p.0, p.1@))
}

pub open spec fn stamp_of(e: EntryView) -> Stamp {
    (e.1.provenance.retrieved_at, e.0)
}

/// The entries that may be evicted: all but the one being kept.
pub open spec fn candidates(s: Seq<EntryView>, keep: Seq<char>) -> Seq<Stamp>
    decreases s.len(),
{
    if s.len() == 0 {
        Seq::empty()
    } else {
        candidates(s.drop_last(), keep) + if s.last().0 == keep {
            Seq::<Stamp>::empty()
        } else {
            seq![stamp_of(s.last())]
        }
    }
}

pub open spec fn sorted_stamps(s: Seq<Stamp>) -> bool {
    forall|i: int, j: int| 0 <= i < j < s.len() ==> !stamp_lt(s[j], s[i])
}

/// `order` lists the candidates oldest first.
pub open spec fn eviction_order(s: Seq<EntryView>, keep: Seq<char>, order: Seq<Stamp>) -> bool {
    &&& order.to_multiset() == candidates(s, keep).to_multiset()
    &&& sorted_stamps(order)
}

/// Evicts in order until the scope is within its bounds or nothing is left to evict.
pub open spec fn evict(s: Seq<EntryView>, order: Seq<Stamp>) -> Seq<EntryView>
    decreases order.len(),
{
    if order.len() == 0 || within(s) {
        s
    } else {
        evict(without_key(s, order[0].1), order.skip(1))
    }
}

pub proof fn lemma_stamp_order(a: Stamp, b: Stamp, c: Stamp)
    ensures
        !stamp_lt(a, a),
        stamp_lt(a, b) && stamp_lt(b, c) ==> stamp_lt(a, c),
        a == b || stamp_lt(a, b) || stamp_lt(b, a),
{
    lemma_text_lt_irreflexive(a.1);
    if stamp_lt(a, b) && stamp_lt(b, c) && a.0 == b.0 && b.0 == c.0 {
        lemma_text_lt_transitive(a.1, b.1, c.1);
    }
    lemma_text_lt_total(a.1, b.1);
}

pub proof fn lemma_sizes_prefix(s: Seq<EntryView>, j: int)
    requires
        0 <= j <= s.len(),
    ensures
        sizes_sum(s.take(j)) <= sizes_sum(s),
    decreases s.len() - j,
{
    if j < s.len() {
        assert(s.take(j + 1).drop_last() =~= s.take(j));
        lemma_sizes_prefix(s, j + 1);
    } else {
        assert(s.take(j) =~= s);
    }
}

/// The length of the scope's JSON object, or `None` when it does not fit in `usize`.
fn scope_size(items: &Vec<Entry>) -> (r: Option<usize>)
    ensures
        match r {
            Some(n) => n == scope_bytes(view_of(items@)),
            None => scope_bytes(view_of(items@)) > usize::MAX,
        },
{
    let ghost v = view_of(items@);
    let mut total: usize = 2;
    let mut i: usize = 0;
    while i < items.len()
        invariant
            i <= items@.len(),
            v == view_of(items@),
            total == 2 + sizes_sum(v.take(i as int)),
        decreases items@.len() - i,
    {
        assert(v.take(i + 1).drop_last() =~= v.take(i as int));
        let e = &items[i];
        let step = match e.key_size.checked_add(1) {
            Some(x) => x.checked_add(e.output_size),
            None => None,
        };
        let next = match step {
            Some(x) => total.checked_add(x),
            None => None,
        };
        match next {
            Some(n) => {
                total = n;
            },
            None => {
                proof {
                    lemma_sizes_prefix(v, i + 1);
                }
                return None;
            },
        }
        i = i + 1;
    }
    assert(v.take(i as int) =~= v);
    if items.len() > 1 {
        total.checked_add(items.len() - 1)
    } else {
        Some(total)
    }
}

/// The JSON length of the scope staged for a write of `output` under `k` (see
/// `staged`), or `None` when it does not fit in `usize`. Nothing is changed.
fn staged_size(items: &Vec<Entry>, k: &String, output: &Output, output_size: usize) -> (r: Option<usize>)
    ensures
        match r {
            Some(n) => n == scope_bytes(staged(view_of(items@), k@, *output, output_size as nat)),
            None => scope_bytes(staged(view_of(items@), k@, *output, output_size as nat)) > usize::MAX,
        },
{
    let ghost v = view_of(items@);
    let mut total: usize = 2;
    let mut count: usize = 0;
    let mut over = false;
    let mut i: usize = 0;
    while i < items.len()
        invariant
            i <= items@.len(),
            v == view_of(items@),
            count == without_key(v.take(i as int), k@).len(),
            count <= i,
            !over ==> total == 2 + sizes_sum(without_key(v.take(i as int), k@)),
            over ==> 2 + sizes_sum(without_key(v.take(i as int), k@)) > usize::MAX,
        decreases items@.len() - i,
    {
        let ghost w = without_key(v.take(i as int), k@);
        assert(v.take(i + 1).drop_last() =~= v.take(i as int));
        assert(v.take(i + 1).last() == v[i as int]);
        if !str_eq(items[i].key.as_str(), k.as_str()) {
            assert((w + seq![v[i as int]]).drop_last() =~= w);
            let e = &items[i];
            if !over {
                let step = match e.key_size.checked_add(1) {
                    Some(x) => x.checked_add(e.output_size),
                    None => None,
                };
                match step {
                    Some(x) => match total.checked_add(x) {
                        Some(n) => {
                            total = n;
                        },
                        None => {
                            over = true;
                        },
                    },
                    None => {
                        over = true;
                    },
                }
            }
            count = count + 1;
        } else {
            assert(w + Seq::<EntryView>::empty() =~= w);
        }
        i = i + 1;
    }
    assert(v.take(i as int) =~= v);
    let ghost w = without_key(v, k@);
    if over {
        proof {
            let e = (k@, *output, DIGEST_KEY_SIZE as nat, output_size as nat);
            if fits(output_size as nat) {
                assert(staged(v, k@, *output, output_size as nat) == w + seq![e]);
                assert((w + seq![e]).drop_last() =~= w);
                assert((w + seq![e]).last() == e);
            } else {
                assert(staged(v, k@, *output, output_size as nat) == w + Seq::<EntryView>::empty());
                assert(w + Seq::<EntryView>::empty() =~= w);
            }
        }
        return None;
    }
    if output_size <= MAX_SCOPE_BYTES - DIGEST_KEY_SIZE - 3 {
        let ghost e = (k@, *output, DIGEST_KEY_SIZE as nat, output_size as nat);
        assert(staged(v, k@, *output, output_size as nat) == w + seq![e]);
        assert((w + seq![e]).drop_last() =~= w);
        assert((w + seq![e]).last() == e);
        match total.checked_add(DIGEST_KEY_SIZE + 1 + output_size) {
            Some(n) => n.checked_add(count),
            None => None,
        }
    } else {
        assert(staged(v, k@, *output, output_size as nat) == w + Seq::<EntryView>::empty());
        assert(w + Seq::<EntryView>::empty() =~= w);
        if count > 1 {
            total.checked_add(count - 1)
        } else {
            Some(total)
        }
    }
}

fn within_exec(items: &Vec<Entry>) -> (r: bool)
    ensures
        r == within(view_of(items@)),
{
    match scope_size(items) {
        Some(n) => items.len() <= MAX_SCOPE_ENTRIES && n <= MAX_SCOPE_BYTES,
        None => false,
    }
}

/// Removes the entry under `key`.
fn remove_key(items: &mut Vec<Entry>, key: &String)
    ensures
        view_of(final(items)@) == without_key(view_of(old(items)@), key@),
{
    let mut rest: Vec<Entry> = Vec::new();
    core::mem::swap(&mut rest, items);
    let ghost all = rest@;
    let mut j: usize = 0;
    let n = rest.len();
    while rest.len() > 0
        invariant
            all.len() == n,
            j + rest@.len() == n,
            rest@ == all.skip(j as int),
            view_of(items@) == without_key(view_of(all.take(j as int)), key@),
        decreases rest@.len(),
    {
        let e = rest.remove(0);
        proof {
            assert(view_of(all.take(j + 1)).drop_last() =~= view_of(all.take(j as int)));
            assert(view_of(all.take(j + 1)).last() == entry_view(e));
        }
        let ghost before = view_of(items@);
        if !str_eq(e.key.as_str(), key.as_str()) {
            items.push(e);
            assert(view_of(items@) =~= before + seq![entry_view(e)]);
        } else {
            assert(before + Seq::<EntryView>::empty() =~= before);
        }
        j = j + 1;
        assert(rest@ =~= all.skip(j as int));
    }
    assert(all.take(j as int) =~= all);
}

/// The candidates for eviction, oldest first.
fn eviction_list(items: &Vec<Entry>, keep: &String) -> (order: Vec<(u64, String)>)
    ensures
        eviction_order(view_of(items@), keep@, stamps(order@)),
{
    let ghost v = view_of(items@);
    let mut order: Vec<(u64, String)> = Vec::new();
    let mut i: usize = 0;
    assert(v.take(0) =~= Seq::<EntryView>::empty());
    assert(stamps(order@) =~= Seq::<Stamp>::empty());
    while i < items.len()
        invariant
            i <= items@.len(),
            v == view_of(items@),
            eviction_order(v.take(i as int), keep@, stamps(order@)),
        decreases items@.len() - i,
    {
        assert(v.take(i + 1).drop_last() =~= v.take(i as int));
        let e = &items[i];
        let ghost before = stamps(order@);
        if !str_eq(e.key.as_str(), keep.as_str()) {
            let stamp = (e.output.provenance.retrieved_at, e.key.clone());
            let pos = stamp_position(&order, &stamp);
            order.insert(pos, stamp);
            proof {
                let x: Stamp = (stamp.0, stamp.1@);
                assert(stamps(order@) =~= before.insert(pos as int, x));
                assert(candidates(v.take(i + 1), keep@) =~= candidates(v.take(i as int), keep@).push(x));
                lemma_stamps_insert(before, pos as int, x);
            }
        } else {
            assert(candidates(v.take(i + 1), keep@) =~= candidates(v.take(i as int), keep@));
        }
        i = i + 1;
    }
    assert(v.take(i as int) =~= v);
    order
}

fn stamp_less(a: &(u64, String), b: &(u64, String)) -> (r: bool)
    ensures
        r == stamp_lt((a.0, a.1@), (b.0, b.1@)),
{
    a.0 < b.0 || (a.0 == b.0 && str_lt(a.1.as_str(), b.1.as_str()))
}

fn stamp_position(order: &Vec<(u64, String)>, x: &(u64, String)) -> (pos: usize)
    requires
        sorted_stamps(stamps(order@)),
    ensures
        pos <= order@.len(),
        forall|i: int| 0 <= i < pos ==> !stamp_lt((x.0, x.1@), #[trigger] stamps(order@)[i]),
        forall|i: int| pos <= i < order@.len() ==> stamp_lt((x.0, x.1@), #[trigger] stamps(order@)[i]),
{
    let ghost s = stamps(order@);
    let ghost xv: Stamp = (x.0, x.1@);
    let mut pos: usize = 0;
    while pos < order.len() && !stamp_less(x, &order[pos])
        invariant
            pos <= order@.len(),
            s == stamps(order@),
            xv == (x.0, x.1@),
            forall|i: int| 0 <= i < pos ==> !stamp_lt(xv, #[trigger] s[i]),
        decreases order@.len() - pos,
    {
        assert(s[pos as int] == (order@[pos as int].0, order@[pos as int].1@));
        pos = pos + 1;
    }
    proof {
        assert forall|i: int| pos <= i < order@.len() implies stamp_lt(xv, #[trigger] s[i]) by {
            if i > pos {
                lemma_stamp_order(xv, s[pos as int], s[i]);
                lemma_stamp_order(s[pos as int], s[i], s[i]);
                lemma_stamp_order(s[i], s[pos as int], s[i]);
            }
        }
    }
    pos
}

proof fn lemma_stamps_insert(s: Seq<Stamp>, pos: int, x: Stamp)
    requires
        sorted_stamps(s),
        0 <= pos <= s.len(),
        forall|i: int| 0 <= i < pos ==> !stamp_lt(x, #[trigger] s[i]),
        forall|i: int| pos <= i < s.len() ==> stamp_lt(x, #[trigger] s[i]),
    ensures
        sorted_stamps(s.insert(pos, x)),
{
    let t = s.insert(pos, x);
    assert forall|i: int, j: int| 0 <= i < j < t.len() implies !stamp_lt(t[j], t[i]) by {
        if i == pos {
            assert(t[j] == s[j - 1]);
            lemma_stamp_order(x, s[j - 1], x);
        } else if j == pos {
            assert(t[i] == s[i]);
            lemma_stamp_order(x, s[i], x);
        } else {
            let a = if i < pos { i } else { i - 1 };
            let b = if j < pos { j } else { j - 1 };
            assert(t[i] == s[a]);
            assert(t[j] == s[b]);
        }
    }
}

/// Evicts the oldest other entries until the scope is within its bounds; the entry
/// under `keep` is never evicted. Fails when the scope cannot be brought within them.
fn trim(items: &mut Vec<Entry>, keep: &String) -> (r: Result<(), Error>)
    requires
        keys_distinct(view_of(old(items)@)),
    ensures
        keys_distinct(view_of(final(items)@)),
        exists|order: Seq<Stamp>| {
            &&& #[trigger] eviction_order(view_of(old(items)@), keep@, order)
            &&& match r {
                Ok(_) => view_of(final(items)@) == evict(view_of(old(items)@), order) && within(view_of(final(items)@)),
                Err(e) => e == storage_error() && (scope_bytes(view_of(old(items)@)) > usize::MAX || !within(
                    evict(view_of(old(items)@), order),
                )),
            }
        },
{
    let ghost v0 = view_of(items@);
    let order = eviction_list(items, keep);
    let ghost ov = stamps(order@);
    if scope_size(items).is_none() {
        assert(eviction_order(v0, keep@, ov));
        return Err(storage());
    }
    let mut j: usize = 0;
    let mut done = false;
    assert(ov.skip(0) =~= ov);
    while !done && j < order.len()
        invariant
            j <= order@.len(),
            ov == stamps(order@),
            evict(v0, ov) == evict(view_of(items@), ov.skip(j as int)),
            done ==> evict(view_of(items@), ov.skip(j as int)) == view_of(items@),
            keys_distinct(view_of(items@)),
        decreases order@.len() - j + if done { 0int } else { 1int },
    {
        if within_exec(items) {
            done = true;
        } else {
            assert(ov.skip(j as int)[0] == ov[j as int]);
            assert(ov.skip(j as int).skip(1) =~= ov.skip(j + 1));
            let ghost before = view_of(items@);
            remove_key(items, &order[j].1);
            proof {
                lemma_without_key_distinct(before, order@[j as int].1@);
            }
            j = j + 1;
        }
    }
    assert(evict(view_of(items@), ov.skip(j as int)) == view_of(items@));
    assert(eviction_order(v0, keep@, ov));
    if !within_exec(items) {
        return Err(storage());
    }
    Ok(())
}

/// JSON writes a 64-digit hexadecimal key as those digits between quotes.
pub const DIGEST_KEY_SIZE: usize = 66;

/// An output fits in a scope together with its key and the enclosing braces.
pub open spec fn fits(output_size: nat) -> bool {
    output_size + DIGEST_KEY_SIZE + 3 <= MAX_SCOPE_BYTES
}

/// The scope before trimming: any old entry under the key is removed, and the output is
/// added when it fits. An oversized output is not cached and leaves no old hit behind.
pub open spec fn staged(s: Seq<EntryView>, k: Seq<char>, o: Output, output_size: nat) -> Seq<EntryView> {
    without_key(s, k) + if fits(output_size) {
        seq![(k, o, DIGEST_KEY_SIZE as nat, output_size)]
    } else {
        Seq::<EntryView>::empty()
    }
}

/// The outcome of a write under key `k`: the staged scope trimmed in `order`, which must
/// be the eviction order of the staged scope.
pub open spec fn stored(
    s: Seq<EntryView>,
    k: Seq<char>,
    o: Output,
    output_size: nat,
    order: Seq<Stamp>,
    r: Result<(), Error>,
    t: Seq<EntryView>,
) -> bool {
    &&& eviction_order(staged(s, k, o, output_size), k, order)
    &&& match r {
        Ok(_) => t == evict(staged(s, k, o, output_size), order) && within(t),
        Err(_) => scope_bytes(staged(s, k, o, output_size)) > usize::MAX || !within(
            evict(staged(s, k, o, output_size), order),
        ),
    }
}

/// What a write at time `now` does: an output of another scope, or dated after `now`,
/// is refused; otherwise the scope is staged and trimmed (see `stored`), which fails only
/// when the staged scope's length does not fit in `usize`. Every failure is a storage
/// error and leaves the scope as it was.
pub open spec fn put_done(
    s: Seq<EntryView>,
    t: Seq<EntryView>,
    backend: Seq<char>,
    account: Option<Seq<char>>,
    key: Seq<char>,
    o: Output,
    output_size: nat,
    now: u64,
    r: Result<(), Error>,
) -> bool {
    &&& r matches Err(e) ==> e == storage_error()
    &&& r is Err ==> t == s
    &&& !in_scope(o, backend, account) || o.provenance.retrieved_at > now ==> r is Err
    &&& in_scope(o, backend, account) && o.provenance.retrieved_at <= now ==> (r is Err <==> scope_bytes(
        staged(s, digest_of(backend, account, Some(key)), o, output_size),
    ) > usize::MAX)
    &&& r is Ok ==> exists|order: Seq<Stamp>|
        #[trigger] stored(s, digest_of(backend, account, Some(key)), o, output_size, order, r, t)
}

pub open spec fn unit_result(r: Result<ConditionalPut, Error>) -> Result<(), Error> {
    match r {
        Ok(_) => Ok(()),
        Err(e) => Err(e),
    }
}

/// The entry under a key: the last one holding it.
pub open spec fn lookup_view(s: Seq<EntryView>, k: Seq<char>) -> Option<EntryView>
    decreases s.len(),
{
    if s.len() == 0 {
        None
    } else if s.last().0 == k {
        Some(s.last())
    } else {
        lookup_view(s.drop_last(), k)
    }
}

pub proof fn lemma_entry_at_view(items: Seq<Entry>, k: Seq<char>)
    ensures
        entry_at(items, k) == match lookup_view(view_of(items), k) {
            Some(e) => Some(e.1),
            None => None::<Output>,
        },
    decreases items.len(),
{
    lemma_position(items, k);
    if items.len() > 0 {
        assert(view_of(items).drop_last() =~= view_of(items.drop_last()));
        lemma_entry_at_view(items.drop_last(), k);
        lemma_position(items.drop_last(), k);
    }
}

pub proof fn lemma_without_key_members(s: Seq<EntryView>, k: Seq<char>)
    ensures
        forall|i: int| 0 <= i < without_key(s, k).len() ==> s.contains(#[trigger] without_key(s, k)[i])
            && without_key(s, k)[i].0 != k,
        without_key(s, k).len() <= s.len(),
    decreases s.len(),
{
    if s.len() > 0 {
        lemma_without_key_members(s.drop_last(), k);
        let w = without_key(s.drop_last(), k);
        assert forall|i: int| 0 <= i < without_key(s, k).len() implies s.contains(#[trigger] without_key(s, k)[i])
            && without_key(s, k)[i].0 != k by {
            if i < w.len() {
                assert(without_key(s, k)[i] == w[i]);
                let j = choose|j: int| 0 <= j < s.drop_last().len() && s.drop_last()[j] == w[i];
                assert(s[j] == w[i]);
            } else {
                assert(without_key(s, k)[i] == s.last());
                assert(s[s.len() - 1] == s.last());
            }
        }
    }
}

pub proof fn lemma_without_key_distinct(s: Seq<EntryView>, k: Seq<char>)
    requires
        keys_distinct(s),
    ensures
        keys_distinct(without_key(s, k)),
    decreases s.len(),
{
    if s.len() > 0 {
        assert(keys_distinct(s.drop_last()));
        lemma_without_key_distinct(s.drop_last(), k);
        lemma_without_key_members(s.drop_last(), k);
        let w = without_key(s.drop_last(), k);
        let t = without_key(s, k);
        assert forall|i: int, j: int| 0 <= i < j < t.len() implies t[i].0 != t[j].0 by {
            if j >= w.len() {
                assert(t[j] == s.last());
                assert(t[i] == w[i]);
                assert(s.drop_last().contains(w[i]));
                let m = choose|m: int| 0 <= m < s.drop_last().len() && s.drop_last()[m] == w[i];
                assert(s[m] == w[i]);
            } else {
                assert(t[i] == w[i] && t[j] == w[j]);
            }
        }
    }
}

pub proof fn lemma_without_key_lookup(s: Seq<EntryView>, drop: Seq<char>, k: Seq<char>)
    requires
        drop != k,
    ensures
        lookup_view(without_key(s, drop), k) == lookup_view(s, k),
    decreases s.len(),
{
    if s.len() > 0 {
        lemma_without_key_lookup(s.drop_last(), drop, k);
        let w = without_key(s.drop_last(), drop);
        if s.last().0 == drop {
            assert(without_key(s, drop) =~= w);
        } else {
            assert(without_key(s, drop).drop_last() =~= w);
        }
    }
}

pub proof fn lemma_evict_lookup(s: Seq<EntryView>, order: Seq<Stamp>, k: Seq<char>)
    requires
        forall|i: int| 0 <= i < order.len() ==> (#[trigger] order[i]).1 != k,
    ensures
        lookup_view(evict(s, order), k) == lookup_view(s, k),
    decreases order.len(),
{
    if order.len() > 0 && !within(s) {
        lemma_without_key_lookup(s, order[0].1, k);
        assert forall|i: int| 0 <= i < order.skip(1).len() implies (#[trigger] order.skip(1)[i]).1 != k by {
            assert(order.skip(1)[i] == order[i + 1]);
        }
        lemma_evict_lookup(without_key(s, order[0].1), order.skip(1), k);
    }
}

pub proof fn lemma_evict_distinct(s: Seq<EntryView>, order: Seq<Stamp>)
    requires
        keys_distinct(s),
    ensures
        keys_distinct(evict(s, order)),
    decreases order.len(),
{
    if order.len() > 0 && !within(s) {
        lemma_without_key_distinct(s, order[0].1);
        lemma_evict_distinct(without_key(s, order[0].1), order.skip(1));
    }
}

pub proof fn lemma_candidates_exclude(s: Seq<EntryView>, keep: Seq<char>)
    ensures
        forall|i: int| 0 <= i < candidates(s, keep).len() ==> (#[trigger] candidates(s, keep)[i]).1 != keep,
    decreases s.len(),
{
    if s.len() > 0 {
        lemma_candidates_exclude(s.drop_last(), keep);
        let c = candidates(s.drop_last(), keep);
        assert forall|i: int| 0 <= i < candidates(s, keep).len() implies (#[trigger] candidates(s, keep)[i]).1 != keep by {
            if i < c.len() {
                assert(candidates(s, keep)[i] == c[i]);
            }
        }
    }
}

/// Every entry not under `keep` has its stamp among the candidates.
proof fn lemma_candidates_cover(s: Seq<EntryView>, keep: Seq<char>, i: int)
    requires
        0 <= i < s.len(),
        s[i].0 != keep,
    ensures
        candidates(s, keep).contains(stamp_of(s[i])),
    decreases s.len(),
{
    let c = candidates(s.drop_last(), keep);
    if i == s.len() - 1 {
        assert(candidates(s, keep) == c + seq![stamp_of(s.last())]);
        assert(candidates(s, keep)[c.len() as int] == stamp_of(s[i]));
    } else {
        lemma_candidates_cover(s.drop_last(), keep, i);
        assert(s.drop_last()[i] == s[i]);
        let j = choose|j: int| 0 <= j < c.len() && c[j] == stamp_of(s[i]);
        assert(candidates(s, keep)[j] == c[j]);
    }
}

/// A scope whose keys are distinct and all equal has at most one entry.
proof fn lemma_single_key(s: Seq<EntryView>, keep: Seq<char>)
    requires
        keys_distinct(s),
        forall|i: int| 0 <= i < s.len() ==> #[trigger] s[i].0 == keep,
    ensures
        s.len() <= 1,
{
    if s.len() > 1 {
        assert(s[0].0 == keep && s[1].0 == keep);
    }
}

/// Evicting every key other than `keep` brings a scope within its bounds when the
/// entry under `keep`, if any, fits alone.
proof fn lemma_evict_within(s: Seq<EntryView>, order: Seq<Stamp>, keep: Seq<char>)
    requires
        keys_distinct(s),
        forall|i: int| 0 <= i < s.len() && s[i].0 != keep ==> exists|j: int| 0 <= j < order.len() && #[trigger] order[j].1 == #[trigger] s[i].0,
        forall|i: int| 0 <= i < s.len() && s[i].0 == keep ==> 2 + entry_size(#[trigger] s[i]) <= MAX_SCOPE_BYTES,
    ensures
        within(evict(s, order)),
    decreases order.len(),
{
    if within(s) {
    } else if order.len() == 0 {
        assert forall|i: int| 0 <= i < s.len() implies #[trigger] s[i].0 == keep by {
            if s[i].0 != keep {
                let j = choose|j: int| 0 <= j < order.len() && #[trigger] order[j].1 == s[i].0;
            }
        }
        lemma_single_key(s, keep);
        if s.len() == 1 {
            assert(s.drop_last() =~= Seq::<EntryView>::empty());
            assert(s[0].0 == keep);
            assert(sizes_sum(s) == sizes_sum(s.drop_last()) + entry_size(s.last()));
            assert(s.last() == s[0]);
            assert(2 + entry_size(s[0]) <= MAX_SCOPE_BYTES);
        } else {
            assert(s.len() == 0);
        }
        assert(within(s));
    } else {
        let x = order[0].1;
        let w = without_key(s, x);
        lemma_without_key_distinct(s, x);
        lemma_without_key_members(s, x);
        let rest = order.skip(1);
        assert forall|i: int| 0 <= i < w.len() && w[i].0 != keep implies exists|j: int| 0 <= j < rest.len() && #[trigger] rest[j].1 == #[trigger] w[i].0 by {
            assert(s.contains(w[i]));
            let a = choose|a: int| 0 <= a < s.len() && s[a] == w[i];
            let j = choose|j: int| 0 <= j < order.len() && #[trigger] order[j].1 == s[a].0;
            assert(j != 0);
            assert(rest[j - 1] == order[j]);
        }
        assert forall|i: int| 0 <= i < w.len() && w[i].0 == keep implies 2 + entry_size(#[trigger] w[i]) <= MAX_SCOPE_BYTES by {
            assert(s.contains(w[i]));
            let a = choose|a: int| 0 <= a < s.len() && s[a] == w[i];
            assert(s[a].0 == keep);
        }
        lemma_evict_within(w, rest, keep);
        assert(evict(s, order) == evict(w, rest));
    }
}

/// A staged write can always be trimmed within bounds: trimming fails only when the
/// staged scope's length does not fit in `usize`.
proof fn lemma_staged_trims(s: Seq<EntryView>, k: Seq<char>, o: Output, output_size: nat, order: Seq<Stamp>)
    requires
        keys_distinct(staged(s, k, o, output_size)),
        eviction_order(staged(s, k, o, output_size), k, order),
    ensures
        within(evict(staged(s, k, o, output_size), order)),
{
    let st = staged(s, k, o, output_size);
    let w = without_key(s, k);
    lemma_without_key_members(s, k);
    assert forall|i: int| 0 <= i < st.len() && st[i].0 != k implies exists|j: int| 0 <= j < order.len() && #[trigger] order[j].1 == #[trigger] st[i].0 by {
        lemma_candidates_cover(st, k, i);
        let c = candidates(st, k);
        let m = choose|m: int| 0 <= m < c.len() && c[m] == stamp_of(st[i]);
        assert(c.to_multiset().count(stamp_of(st[i])) > 0);
        assert(order.to_multiset().count(stamp_of(st[i])) > 0);
        assert(order.contains(stamp_of(st[i])));
        let j = choose|j: int| 0 <= j < order.len() && order[j] == stamp_of(st[i]);
        assert(order[j].1 == st[i].0);
    }
    assert forall|i: int| 0 <= i < st.len() && st[i].0 == k implies 2 + entry_size(#[trigger] st[i]) <= MAX_SCOPE_BYTES by {
        if i < w.len() {
            assert(st[i] == w[i]);
        } else {
            assert(fits(output_size));
        }
    }
    lemma_evict_within(st, order, k);
}

/// A result written to the cache that fits its scope is served back as a hit while it
/// is younger than the time-to-live; eviction never removes it.
pub proof fn lemma_written_output_is_served(
    s: Seq<Entry>,
    t: Seq<Entry>,
    backend: Seq<char>,
    account: Option<Seq<char>>,
    key: Seq<char>,
    o: Output,
    output_size: nat,
    order: Seq<Stamp>,
    ttl: u64,
    now: u64,
    r: Result<Option<Output>, Error>,
)
    requires
        eviction_order(
            staged(view_of(s), digest_of(backend, account, Some(key)), o, output_size),
            digest_of(backend, account, Some(key)),
            order,
        ),
        view_of(t) == evict(staged(view_of(s), digest_of(backend, account, Some(key)), o, output_size), order),
        fits(output_size),
        in_scope(o, backend, account),
        o.provenance.retrieved_at <= now,
        now - o.provenance.retrieved_at < ttl,
        looked_up(entry_at(t, digest_of(backend, account, Some(key))), backend, account, ttl, now, r),
    ensures
        r matches Ok(Some(h)) && is_hit(h, o, (now - o.provenance.retrieved_at) as u64),
{
    let k = digest_of(backend, account, Some(key));
    let st = staged(view_of(s), k, o, output_size);
    lemma_candidates_exclude(st, k);
    assert forall|i: int| 0 <= i < order.len() implies (#[trigger] order[i]).1 != k by {
        assert(order.to_multiset().count(order[i]) > 0);
        assert(candidates(st, k).to_multiset().count(order[i]) > 0);
        assert(candidates(st, k).contains(order[i]));
    }
    lemma_evict_lookup(st, order, k);
    assert(st.last() == (k, o, DIGEST_KEY_SIZE as nat, output_size));
    assert(lookup_view(st, k) == Some(st.last()));
    lemma_entry_at_view(t, k);
}

/// Opaque write eligibility captured before a fetch, bound to the cache root. It is not
/// upstream freshness evidence or authorization for an account.
#[derive(Debug, Clone)]
pub struct CacheGeneration {
    pub root: String,
    pub value: u64,
}

/// The outcome of a write made only if no invalidation happened since a capture.
#[derive(Debug, Clone, Copy, PartialEq, Eq, Structural)]
pub enum ConditionalPut {
    /// The normal bounded put policy ran, including removal of an oversized hit.
    Applied,
    /// Invalidation occurred after capture; no content was touched by this put.
    GenerationChanged,
}

/// The cache-root-wide generation record.
#[derive(Debug, Clone, Copy, PartialEq, Eq, Structural)]
pub struct GenerationMetadata {
    pub version: u32,
    pub generation: u64,
}

/// The only metadata version understood.
pub const GENERATION_VERSION: u32 = 1;

/// The current generation: zero when no record exists, a storage error for a record of
/// another version (never reset).
pub open spec fn generation_value(m: Option<GenerationMetadata>) -> Option<u64> {
    match m {
        None => Some(0),
        Some(g) => if g.version == GENERATION_VERSION {
            Some(g.generation)
        } else {
            None
        },
    }
}

pub fn generation_of(metadata: &Option<GenerationMetadata>) -> (r: Result<u64, Error>)
    ensures
        match generation_value(*metadata) {
            Some(g) => r == Ok::<u64, Error>(g),
            None => r == Err::<u64, Error>(storage_error()),
        },
{
    match metadata {
        None => Ok(0),
        Some(g) => if g.version == GENERATION_VERSION {
            Ok(g.generation)
        } else {
            Err(storage())
        },
    }
}

/// The record after one more invalidation; an unreadable record or an exhausted counter
/// is a storage error.
pub open spec fn advanced(m: Option<GenerationMetadata>) -> Option<GenerationMetadata> {
    match generation_value(m) {
        Some(g) => if g < u64::MAX {
            Some(GenerationMetadata { version: GENERATION_VERSION, generation: (g + 1) as u64 })
        } else {
            None
        },
        None => None,
    }
}

pub fn advance_generation(metadata: &Option<GenerationMetadata>) -> (r: Result<GenerationMetadata, Error>)
    ensures
        match advanced(*metadata) {
            Some(m) => r == Ok::<GenerationMetadata, Error>(m),
            None => r == Err::<GenerationMetadata, Error>(storage_error()),
        },
{
    let g = generation_of(metadata)?;
    match g.checked_add(1) {
        Some(n) => Ok(GenerationMetadata { version: GENERATION_VERSION, generation: n }),
        None => Err(storage()),
    }
}

/// Cooldown deadlines (Unix seconds) keyed by scope digest; no key occurs twice.
#[derive(Debug, Clone)]
pub struct Cooldowns {
    pub entries: Vec<(String, u64)>,
}

pub open spec fn deadlines(v: Seq<(String, u64)>) -> Seq<(Seq<char>, u64)> {
    v.map_values(|p: (String, u64)| (p.0@, p.1))
}

pub open spec fn deadline_keys_distinct(s: Seq<(Seq<char>, u64)>) -> bool {
    forall|i: int, j: int| 0 <= i < j < s.len() ==> s[i].0 != s[j].0
}

impl Cooldowns {
    pub open spec fn wf(self) -> bool {
        deadline_keys_distinct(deadlines(self.entries@))
    }

    pub fn new() -> (c: Self)
        ensures
            c.entries@.len() == 0,
            c.wf(),
    {
        Cooldowns { entries: Vec::new() }
    }
}

/// The deadline recorded for a scope; zero when there is none.
pub open spec fn deadline_in(s: Seq<(Seq<char>, u64)>, k: Seq<char>) -> u64
    decreases s.len(),
{
    if s.len() == 0 {
        0
    } else if s.last().0 == k {
        s.last().1
    } else {
        deadline_in(s.drop_last(), k)
    }
}

pub open spec fn has_deadline(s: Seq<(Seq<char>, u64)>, k: Seq<char>) -> bool {
    exists|i: int| 0 <= i < s.len() && #[trigger] s[i].0 == k
}

/// The deadlines still in the future at `now`.
pub open spec fn live(s: Seq<(Seq<char>, u64)>, now: u64) -> Seq<(Seq<char>, u64)>
    decreases s.len(),
{
    if s.len() == 0 {
        s
    } else {
        live(s.drop_last(), now) + if s.last().1 > now {
            seq![s.last()]
        } else {
            Seq::<(Seq<char>, u64)>::empty()
        }
    }
}

/// Records deadline `d` for `k`: replaces its deadline, or adds one at the end.
pub open spec fn set_deadline(s: Seq<(Seq<char>, u64)>, k: Seq<char>, d: u64) -> Seq<(Seq<char>, u64)> {
    if has_deadline(s, k) {
        s.map_values(|p: (Seq<char>, u64)| if p.0 == k { (k, d) } else { p })
    } else {
        s.push((k, d))
    }
}

pub open spec fn max_u64(a: u64, b: u64) -> u64 {
    if a >= b {
        a
    } else {
        b
    }
}

pub open spec fn saturating_add(a: u64, b: u64) -> u64 {
    if a + b > u64::MAX {
        u64::MAX
    } else {
        (a + b) as u64
    }
}

pub open spec fn cooling_error(remaining: u64) -> Error {
    Error {
        kind: Kind::RateLimit,
        message: "Backend/account is cooling down; retry later",
        retry_after_seconds: Some(remaining),
    }
}

/// A scope is cooling down while its deadline is after `now`; the error says how long
/// remains.
pub open spec fn cooldown_checked(s: Seq<(Seq<char>, u64)>, k: Seq<char>, now: u64) -> Result<(), Error> {
    if deadline_in(s, k) > now {
        Err(cooling_error((deadline_in(s, k) - now) as u64))
    } else {
        Ok(())
    }
}

/// Recording a cooldown at `now`: expired deadlines are dropped; a new scope is refused
/// when the table is full (an active deadline is never evicted); the deadline kept is
/// the later of the recorded one and `now + seconds` (saturating).
pub open spec fn cooldown_recorded(s: Seq<(Seq<char>, u64)>, k: Seq<char>, seconds: u64, now: u64) -> Option<
    Seq<(Seq<char>, u64)>,
> {
    let l = live(s, now);
    if !has_deadline(l, k) && l.len() >= MAX_COOLDOWNS {
        None
    } else {
        Some(set_deadline(l, k, max_u64(deadline_in(l, k), saturating_add(now, seconds))))
    }
}

pub proof fn lemma_deadline_in(s: Seq<(Seq<char>, u64)>, k: Seq<char>)
    ensures
        has_deadline(s, k) ==> exists|i: int| 0 <= i < s.len() && s[i].0 == k && #[trigger] s[i].1 == deadline_in(s, k),
        !has_deadline(s, k) ==> deadline_in(s, k) == 0,
    decreases s.len(),
{
    if s.len() > 0 {
        lemma_deadline_in(s.drop_last(), k);
        if has_deadline(s, k) {
            if s.last().0 == k {
                assert(s[s.len() - 1].1 == deadline_in(s, k));
            } else {
                let i = choose|i: int| 0 <= i < s.len() && #[trigger] s[i].0 == k;
                assert(s.drop_last()[i].0 == k);
                let j = choose|j: int| 0 <= j < s.drop_last().len() && s.drop_last()[j].0 == k
                    && #[trigger] s.drop_last()[j].1 == deadline_in(s.drop_last(), k);
                assert(s[j] == s.drop_last()[j]);
            }
        } else {
            assert forall|i: int| 0 <= i < s.drop_last().len() implies #[trigger] s.drop_last()[i].0 != k by {
                assert(s[i] == s.drop_last()[i]);
            }
        }
    }
}

fn find_deadline(v: &Vec<(String, u64)>, key: &String) -> (r: Option<usize>)
    ensures
        match r {
            Some(i) => i < v@.len() && v@[i as int].0@ == key@ && v@[i as int].1 == deadline_in(deadlines(v@), key@),
            None => !has_deadline(deadlines(v@), key@),
        },
{
    let ghost d = deadlines(v@);
    let mut i: usize = v.len();
    assert(d.take(i as int) =~= d);
    while i > 0
        invariant
            i <= v@.len(),
            d == deadlines(v@),
            deadline_in(d, key@) == deadline_in(d.take(i as int), key@),
            forall|j: int| i <= j < v@.len() ==> #[trigger] d[j].0 != key@,
        decreases i,
    {
        assert(d.take(i as int).drop_last() =~= d.take(i - 1));
        if str_eq(v[i - 1].0.as_str(), key.as_str()) {
            return Some(i - 1);
        }
        i = i - 1;
    }
    assert forall|j: int| 0 <= j < d.len() implies #[trigger] d[j].0 != key@ by {}
    None
}

/// Checks the cooldown of a scope at time `now` (see `cooldown_checked`).
pub fn check_cooldown_at(cooldowns: &Cooldowns, backend: &str, account: Option<&str>, now: u64) -> (r: Result<(), Error>)
    ensures
        r == cooldown_checked(
            deadlines(cooldowns.entries@),
            digest_of(backend@, opt_str(account), None),
            now,
        ),
{
    let k = digest(backend, account, None)?;
    let deadline = match find_deadline(&cooldowns.entries, &k) {
        Some(i) => cooldowns.entries[i].1,
        None => {
            proof {
                lemma_deadline_in(deadlines(cooldowns.entries@), k@);
            }
            0
        },
    };
    if deadline > now {
        return Err(
            Error {
                kind: Kind::RateLimit,
                message: "Backend/account is cooling down; retry later",
                retry_after_seconds: Some(deadline - now),
            },
        );
    }
    Ok(())
}

/// Records a cooldown for a scope at time `now` (see `cooldown_recorded`).
pub fn cooldown_at(cooldowns: &mut Cooldowns, backend: &str, account: Option<&str>, seconds: u64, now: u64) -> (r: Result<(), Error>)
    requires
        old(cooldowns).wf(),
    ensures
        final(cooldowns).wf(),
        match cooldown_recorded(
            deadlines(old(cooldowns).entries@),
            digest_of(backend@, opt_str(account), None),
            seconds,
            now,
        ) {
            None => r == Err::<(), Error>(storage_error()) && deadlines(final(cooldowns).entries@) == live(
                deadlines(old(cooldowns).entries@),
                now,
            ),
            Some(t) => r is Ok && deadlines(final(cooldowns).entries@) == t,
        },
{
    let k = digest(backend, account, None)?;
    let ghost d0 = deadlines(cooldowns.entries@);
    let mut rest: Vec<(String, u64)> = Vec::new();
    core::mem::swap(&mut rest, &mut cooldowns.entries);
    let n = rest.len();
    let mut j: usize = 0;
    let ghost all = rest@;
    while rest.len() > 0
        invariant
            all.len() == n,
            j + rest@.len() == n,
            rest@ == all.skip(j as int),
            d0 == deadlines(all),
            deadline_keys_distinct(d0),
            deadlines(cooldowns.entries@) == live(deadlines(all.take(j as int)), now),
            deadline_keys_distinct(deadlines(cooldowns.entries@)),
            forall|m: int| 0 <= m < cooldowns.entries@.len() ==> exists|q: int| 0 <= q < j && #[trigger] deadlines(cooldowns.entries@)[m] == d0[q],
        decreases rest@.len(),
    {
        let e = rest.remove(0);
        proof {
            assert(deadlines(all.take(j + 1)).drop_last() =~= deadlines(all.take(j as int)));
            assert(deadlines(all.take(j + 1)).last() == (e.0@, e.1));
            assert(d0[j as int] == (e.0@, e.1));
        }
        let ghost before = deadlines(cooldowns.entries@);
        if e.1 > now {
            cooldowns.entries.push(e);
            proof {
                assert(deadlines(cooldowns.entries@) =~= before + seq![d0[j as int]]);
                assert forall|m: int| 0 <= m < cooldowns.entries@.len() implies exists|q: int| 0 <= q < j + 1 && #[trigger] deadlines(cooldowns.entries@)[m] == d0[q] by {
                    if m < before.len() {
                        assert(deadlines(cooldowns.entries@)[m] == before[m]);
                    } else {
                        assert(deadlines(cooldowns.entries@)[m] == d0[j as int]);
                    }
                }
                assert forall|a: int, b: int| 0 <= a < b < deadlines(cooldowns.entries@).len() implies deadlines(cooldowns.entries@)[a].0 != deadlines(cooldowns.entries@)[b].0 by {
                    if b == before.len() {
                        assert(deadlines(cooldowns.entries@)[a] == before[a]);
                        let q = choose|q: int| 0 <= q < j && #[trigger] before[a] == d0[q];
                    } else {
                        assert(deadlines(cooldowns.entries@)[a] == before[a]);
                        assert(deadlines(cooldowns.entries@)[b] == before[b]);
                    }
                }
            }
        } else {
            assert(before + Seq::<(Seq<char>, u64)>::empty() =~= before);
        }
        j = j + 1;
        assert(rest@ =~= all.skip(j as int));
    }
    assert(all.take(j as int) =~= all);
    let ghost l = deadlines(cooldowns.entries@);
    let deadline = now.saturating_add(seconds);
    match find_deadline(&cooldowns.entries, &k) {
        Some(i) => {
            let old_deadline = cooldowns.entries[i].1;
            let d = if old_deadline >= deadline { old_deadline } else { deadline };
            let ghost before = cooldowns.entries@;
            let key_copy = cooldowns.entries[i].0.clone();
            cooldowns.entries.set(i, (key_copy, d));
            proof {
                assert(has_deadline(l, k@)) by {
                    assert(l[i as int].0 == k@);
                }
                assert(deadlines(cooldowns.entries@) =~= l.map_values(
                    |p: (Seq<char>, u64)| if p.0 == k@ { (k@, d) } else { p },
                )) by {
                    assert forall|m: int| 0 <= m < l.len() implies #[trigger] deadlines(cooldowns.entries@)[m] == (
                        if l[m].0 == k@ { (k@, d) } else { l[m] }) by {
                        if m != i {
                            assert(l[m].0 != l[i as int].0 || m == i);
                        }
                    }
                }
                assert forall|a: int, b: int| 0 <= a < b < deadlines(cooldowns.entries@).len() implies deadlines(cooldowns.entries@)[a].0 != deadlines(cooldowns.entries@)[b].0 by {
                    assert(l[a].0 != l[b].0);
                }
            }
            Ok(())
        },
        None => {
            if cooldowns.entries.len() >= MAX_COOLDOWNS {
                return Err(storage());
            }
            proof {
                lemma_deadline_in(l, k@);
            }
            let ghost before = deadlines(cooldowns.entries@);
            cooldowns.entries.push((k, deadline));
            proof {
                assert(deadlines(cooldowns.entries@) =~= before.push((k@, deadline)));
                assert forall|a: int, b: int| 0 <= a < b < deadlines(cooldowns.entries@).len() implies deadlines(cooldowns.entries@)[a].0 != deadlines(cooldowns.entries@)[b].0 by {
                    if b == before.len() {
                        assert(deadlines(cooldowns.entries@)[a] == before[a]);
                    } else {
                        assert(deadlines(cooldowns.entries@)[a] == before[a]);
                        assert(deadlines(cooldowns.entries@)[b] == before[b]);
                    }
                }
            }
            Ok(())
        },
    }
}

pub proof fn lemma_set_deadline(s: Seq<(Seq<char>, u64)>, k: Seq<char>, d: u64)
    requires
        deadline_keys_distinct(s),
    ensures
        deadline_in(set_deadline(s, k, d), k) == d,
{
    let t = set_deadline(s, k, d);
    if has_deadline(s, k) {
        lemma_deadline_in(t, k);
        if !has_deadline(t, k) {
            let i = choose|i: int| 0 <= i < s.len() && #[trigger] s[i].0 == k;
            assert(t[i].0 == k);
        }
        let i = choose|i: int| 0 <= i < t.len() && t[i].0 == k && #[trigger] t[i].1 == deadline_in(t, k);
        assert(t[i] == (k, d));
    }
}

/// A recorded cooldown is honored: checked at the time it was recorded, the scope is
/// cooling down for at least `seconds` (capped at the end of time), and the deadline
/// kept is never earlier than a deadline that was still running.
pub proof fn lemma_cooldown_is_honored(s: Seq<(Seq<char>, u64)>, k: Seq<char>, seconds: u64, now: u64)
    requires
        deadline_keys_distinct(s),
        cooldown_recorded(s, k, seconds, now) is Some,
        seconds > 0,
        now < u64::MAX,
    ensures
        ({
            let t = cooldown_recorded(s, k, seconds, now)->0;
            &&& deadline_in(t, k) >= saturating_add(now, seconds)
            &&& deadline_in(s, k) > now ==> deadline_in(t, k) >= deadline_in(s, k)
            &&& cooldown_checked(t, k, now) == Err::<(), Error>(cooling_error((deadline_in(t, k) - now) as u64))
        }),
{
    let l = live(s, now);
    lemma_live(s, k, now);
    lemma_set_deadline(l, k, max_u64(deadline_in(l, k), saturating_add(now, seconds)));
}

pub proof fn lemma_live(s: Seq<(Seq<char>, u64)>, k: Seq<char>, now: u64)
    requires
        deadline_keys_distinct(s),
    ensures
        deadline_keys_distinct(live(s, now)),
        deadline_in(s, k) > now ==> deadline_in(live(s, now), k) == deadline_in(s, k),
        forall|i: int| 0 <= i < live(s, now).len() ==> s.contains(#[trigger] live(s, now)[i]),
    decreases s.len(),
{
    if s.len() > 0 {
        let p = s.drop_last();
        assert(deadline_keys_distinct(p));
        lemma_live(p, k, now);
        let lp = live(p, now);
        let l = live(s, now);
        assert forall|i: int| 0 <= i < l.len() implies s.contains(#[trigger] l[i]) by {
            if i < lp.len() {
                assert(l[i] == lp[i]);
                let j = choose|j: int| 0 <= j < p.len() && p[j] == lp[i];
                assert(s[j] == p[j]);
            } else {
                assert(l[i] == s.last());
                assert(s[s.len() - 1] == s.last());
            }
        }
        assert forall|a: int, b: int| 0 <= a < b < l.len() implies l[a].0 != l[b].0 by {
            if b >= lp.len() {
                assert(l[a] == lp[a]);
                assert(p.contains(lp[a]));
                let j = choose|j: int| 0 <= j < p.len() && p[j] == lp[a];
                assert(s[j] == p[j]);
            } else {
                assert(l[a] == lp[a] && l[b] == lp[b]);
            }
        }
        if s.last().0 == k {
            if s.last().1 > now {
                assert(l.last() == s.last());
            }
        } else {
            if s.last().1 > now {
                assert(l.drop_last() =~= lp);
            } else {
                assert(l =~= lp);
            }
        }
    }
}

/// After an invalidation or purge, a generation captured before it no longer matches,
/// so a fenced write made with it is refused as `GenerationChanged`; generations only
/// grow.
pub proof fn lemma_invalidation_fences(m: Option<GenerationMetadata>)
    requires
        advanced(m) is Some,
    ensures
        generation_value(advanced(m)) matches Some(n) && generation_value(m) matches Some(g) && n == g + 1,
{
}

/// The generation record after `n` invalidations or purges, if each could advance it.
pub open spec fn advanced_times(m: Option<GenerationMetadata>, n: nat) -> Option<GenerationMetadata>
    decreases n,
{
    if n == 0 {
        m
    } else {
        match advanced_times(m, (n - 1) as nat) {
            Some(x) => advanced(Some(x)),
            None => None,
        }
    }
}

/// A write fenced by a generation captured before one or more invalidations or purges
/// never lands: the record then holds a larger generation, so a conditional put under
/// the captured token reports `GenerationChanged` and leaves the scope untouched.
pub proof fn lemma_stale_generation_never_lands(m: Option<GenerationMetadata>, captured: u64, n: nat)
    requires
        generation_value(m) == Some(captured),
        n >= 1,
        advanced_times(m, n) is Some,
    ensures
        generation_value(advanced_times(m, n)) matches Some(g) && g > captured,
    decreases n,
{
    if n > 1 {
        assert(advanced_times(m, (n - 1) as nat) is Some);
        lemma_stale_generation_never_lands(m, captured, (n - 1) as nat);
    }
}

/// The cache rooted at a state directory.
#[derive(Debug, Clone)]
pub struct Cache {
    pub root: String,
}

impl Cache {
    pub fn new(root: String) -> (c: Self)
        ensures
            c.root == root,
    {
        Cache { root }
    }

    /// Looks up `key` in the entries of its scope, at the current time. The digest of
    /// the key selects the entry; see `looked_up` for what comes back.
    pub fn get(&self, scope: Entries, backend: &str, account: Option<&str>, key: &str, ttl: u64) -> (r: Result<Option<Output>, Error>)
        ensures
            exists|t: u64| looked_up(
                entry_at(scope.items@, digest_of(backend@, opt_str(account), Some(key@))),
                backend@,
                opt_str(account),
                ttl,
                t,
                r,
            ),
    {
        let k = digest(backend, account, Some(key))?;
        let ghost items0 = scope.items@;
        let mut items = scope.items;
        let entry = match find(&items, &k) {
            Some(i) => Some(items.remove(i).output),
            None => None,
        };
        assert(entry == entry_at(items0, k@));
        let t = now();
        let r = lookup(entry, backend, account, ttl, t);
        assert(looked_up(entry_at(items0, k@), backend@, opt_str(account), ttl, t, r));
        r
    }

    /// Writes an output into its scope's entries as of time `now`. An output of another
    /// scope, or one dated after `now`, is refused; otherwise the entry is replaced (or
    /// dropped when oversized) and the scope is trimmed, oldest entries first.
    pub fn put_at(
        &self,
        scope: &mut Entries,
        backend: &str,
        account: Option<&str>,
        key: &str,
        output: Output,
        output_size: usize,
        now: u64,
    ) -> (r: Result<(), Error>)
        requires
            old(scope).wf(),
        ensures
            final(scope).wf(),
            r is Err ==> *final(scope) == *old(scope),
            put_done(
                view_of(old(scope).items@),
                view_of(final(scope).items@),
                backend@,
                opt_str(account),
                key@,
                output,
                output_size as nat,
                now,
                r,
            ),
    {
        if !matches_scope(&output, backend, account) || output.provenance.retrieved_at > now {
            return Err(storage());
        }
        let k = digest(backend, account, Some(key))?;
        if staged_size(&scope.items, &k, &output, output_size).is_none() {
            return Err(storage());
        }
        let ghost v0 = view_of(scope.items@);
        let ghost o = output;
        remove_key(&mut scope.items, &k);
        proof {
            lemma_without_key_distinct(v0, k@);
            lemma_without_key_members(v0, k@);
        }
        let fits_scope = output_size <= MAX_SCOPE_BYTES - DIGEST_KEY_SIZE - 3;
        if fits_scope {
            let ghost w = view_of(scope.items@);
            scope.items.push(Entry { key: k.clone(), output, key_size: DIGEST_KEY_SIZE, output_size });
            proof {
                assert(view_of(scope.items@) =~= w + seq![(k@, o, DIGEST_KEY_SIZE as nat, output_size as nat)]);
            }
        } else {
            assert(view_of(scope.items@) =~= view_of(scope.items@) + Seq::<EntryView>::empty());
        }
        let ghost st = view_of(scope.items@);
        assert(st == staged(v0, k@, o, output_size as nat));
        proof {
            assert(keys_distinct(st));
        }
        let r = trim(&mut scope.items, &k);
        proof {
            let order = choose|order: Seq<Stamp>| #[trigger] eviction_order(st, k@, order) && match r {
                Ok(_) => view_of(scope.items@) == evict(st, order) && within(view_of(scope.items@)),
                Err(e) => e == storage_error() && (scope_bytes(st) > usize::MAX || !within(evict(st, order))),
            };
            lemma_evict_distinct(st, order);
            lemma_staged_trims(v0, k@, o, output_size as nat, order);
            assert(r is Ok);
            assert(stored(v0, k@, o, output_size as nat, order, r, view_of(scope.items@)));
        }
        r
    }

    /// Writes an output into its scope's entries at the current time (see `put_done`).
    /// This write is not fenced by the generation: managed retrievals capture a
    /// generation before fetching and use `put_if_generation`.
    pub fn put(
        &self,
        scope: &mut Entries,
        backend: &str,
        account: Option<&str>,
        key: &str,
        output: Output,
        output_size: usize,
    ) -> (r: Result<(), Error>)
        requires
            old(scope).wf(),
        ensures
            final(scope).wf(),
            r is Err ==> *final(scope) == *old(scope),
            exists|t: u64| put_done(
                view_of(old(scope).items@),
                view_of(final(scope).items@),
                backend@,
                opt_str(account),
                key@,
                output,
                output_size as nat,
                t,
                r,
            ),
    {
        let t = now();
        self.put_at(scope, backend, account, key, output, output_size, t)
    }

    /// Writes only if no invalidation happened since `generation` was captured: a token of
    /// another cache root is a storage error, and a changed generation leaves the scope
    /// untouched. A matching write follows the normal put policy.
    pub fn put_if_generation(
        &self,
        generation: &CacheGeneration,
        metadata: &Option<GenerationMetadata>,
        scope: &mut Entries,
        backend: &str,
        account: Option<&str>,
        key: &str,
        output: Output,
        output_size: usize,
    ) -> (r: Result<ConditionalPut, Error>)
        requires
            old(scope).wf(),
        ensures
            final(scope).wf(),
            r is Err ==> *final(scope) == *old(scope),
            generation.root@ != self.root@ ==> r == Err::<ConditionalPut, Error>(storage_error()) && *final(scope)
                == *old(scope),
            generation.root@ == self.root@ && generation_value(*metadata) is None ==> r == Err::<
                ConditionalPut,
                Error,
            >(storage_error()) && *final(scope) == *old(scope),
            generation.root@ == self.root@ && (generation_value(*metadata) matches Some(g) && g != generation.value)
                ==> r == Ok::<ConditionalPut, Error>(ConditionalPut::GenerationChanged) && *final(scope) == *old(scope),
            generation.root@ == self.root@ && generation_value(*metadata) == Some(generation.value) ==> {
                &&& r matches Ok(c) ==> c == ConditionalPut::Applied
                &&& exists|t: u64| #[trigger] put_done(
                    view_of(old(scope).items@),
                    view_of(final(scope).items@),
                    backend@,
                    opt_str(account),
                    key@,
                    output,
                    output_size as nat,
                    t,
                    unit_result(r),
                )
            },
    {
        if !str_eq(generation.root.as_str(), self.root.as_str()) {
            return Err(storage());
        }
        let current = generation_of(metadata)?;
        if generation.value != current {
            return Ok(ConditionalPut::GenerationChanged);
        }
        let pr = self.put(scope, backend, account, key, output, output_size);
        let r = match pr {
            Ok(u) => {
                assert(pr == Ok::<(), Error>(u));
                Ok(ConditionalPut::Applied)
            },
            Err(e) => Err(e),
        };
        assert(unit_result(r) == pr);
        r
    }

    /// Fails while the backend/account scope is cooling down, at the current time (see
    /// `cooldown_checked`).
    pub fn check_cooldown(&self, cooldowns: &Cooldowns, backend: &str, account: Option<&str>) -> (r: Result<(), Error>)
        ensures
            exists|t: u64| r == cooldown_checked(
                deadlines(cooldowns.entries@),
                digest_of(backend@, opt_str(account), None),
                t,
            ),
    {
        let t = now();
        check_cooldown_at(cooldowns, backend, account, t)
    }

    /// Records a cooldown of `seconds` for the backend/account scope, at the current time
    /// (see `cooldown_recorded`).
    pub fn cooldown(&self, cooldowns: &mut Cooldowns, backend: &str, account: Option<&str>, seconds: u64) -> (r: Result<(), Error>)
        requires
            old(cooldowns).wf(),
        ensures
            final(cooldowns).wf(),
            exists|t: u64|
                match #[trigger] cooldown_recorded(
                    deadlines(old(cooldowns).entries@),
                    digest_of(backend@, opt_str(account), None),
                    seconds,
                    t,
                ) {
                    None => r == Err::<(), Error>(storage_error()) && deadlines(final(cooldowns).entries@) == live(
                        deadlines(old(cooldowns).entries@),
                        t,
                    ),
                    Some(c) => r is Ok && deadlines(final(cooldowns).entries@) == c,
                },
    {
        let t = now();
        cooldown_at(cooldowns, backend, account, seconds, t)
    }

    /// Captures the current generation before a fetch.
    pub fn capture_generation(&self, metadata: &Option<GenerationMetadata>) -> (r: Result<CacheGeneration, Error>)
        ensures
            match generation_value(*metadata) {
                Some(g) => r matches Ok(c) && c.root == self.root && c.value == g,
                None => r == Err::<CacheGeneration, Error>(storage_error()),
            },
    {
        let value = generation_of(metadata)?;
        Ok(CacheGeneration { root: self.root.clone(), value })
    }

    /// The generation record to write before deleting one scope: every older managed
    /// fetch loses write eligibility, while other content and cooldowns survive.
    pub fn invalidate_scope(&self, metadata: &Option<GenerationMetadata>) -> (r: Result<GenerationMetadata, Error>)
        ensures
            match advanced(*metadata) {
                Some(m) => r == Ok::<GenerationMetadata, Error>(m),
                None => r == Err::<GenerationMetadata, Error>(storage_error()),
            },
    {
        advance_generation(metadata)
    }

    /// The generation record to write before removing all cached content; cooldowns
    /// and the generation record survive.
    pub fn purge(&self, metadata: &Option<GenerationMetadata>) -> (r: Result<GenerationMetadata, Error>)
        ensures
            match advanced(*metadata) {
                Some(m) => r == Ok::<GenerationMetadata, Error>(m),
                None => r == Err::<GenerationMetadata, Error>(storage_error()),
            },
    {
        advance_generation(metadata)
    }
}

} // verus!
