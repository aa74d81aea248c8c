//! Bounded collection of the viewer's lists, preserving overlapping placement provenance.
use vstd::prelude::*;
use super::{
    PageMeta, begin_page, ctl_of, ctl_start, ctl_view, end_page, fetched, fetched_one,
    opt_as_str, opt_text, outcome, push_warning, record_failure, reported, same_frame, settled, stop,
    texts, trace,
};
use crate::error::Error;
use crate::model::{Identity, ListInfo, ListManagementSection, ListView, ListVisibility, Output};
use crate::text::str_eq;

verus! {

pub struct ListsPage {
    pub lists: Vec<ListInfo>,
    pub next_cursor: Option<String>,
    pub warnings: Vec<String>,
}

/// The warning for a conflicting duplicate; it names no list value.
pub open spec fn conflict_warning() -> Seq<char> {
    "Duplicate list metadata conflicted; first known values retained in this visible snapshot"@
}

pub open spec fn conflict_warnings(n: nat) -> Seq<Seq<char>> {
    Seq::new(n, |_i: int| conflict_warning())
}

pub open spec fn list_views(v: Seq<ListInfo>) -> Seq<ListView> {
    v.map_values(|l: ListInfo| l@)
}

/// A later observation disagrees with a known value.
pub open spec fn fill_conflict<T>(first: Option<T>, later: Option<T>) -> bool {
    first is Some && later is Some && first != later
}

/// A known value is kept; a missing one is taken from the later observation.
pub open spec fn filled<T>(first: Option<T>, later: Option<T>) -> Option<T> {
    if first is Some {
        first
    } else {
        later
    }
}

/// The placements of `a`, then those of `b` not yet present, in order.
pub open spec fn union_sections(a: Seq<ListManagementSection>, b: Seq<ListManagementSection>) -> Seq<ListManagementSection>
    decreases b.len(),
{
    if b.len() == 0 {
        a
    } else {
        let u = union_sections(a, b.drop_last());
        if u.contains(b.last()) {
            u
        } else {
            u.push(b.last())
        }
    }
}

/// The first observation of a list, completed by a later one.
pub open spec fn merged(a: ListView, b: ListView) -> ListView {
    ListView {
        id: a.id,
        name: a.name,
        description: filled(a.description, b.description),
        visibility: filled(a.visibility, b.visibility),
        owner: filled(a.owner, b.owner),
        subscribed: filled(a.subscribed, b.subscribed),
        pinned: filled(a.pinned, b.pinned),
        is_member: filled(a.is_member, b.is_member),
        management_sections: union_sections(a.management_sections, b.management_sections),
        url: a.url,
    }
}

/// Two observations of a list disagree on its name, its URL or a known field.
pub open spec fn conflicts(a: ListView, b: ListView) -> bool {
    ||| a.name != b.name
    ||| a.url != b.url
    ||| fill_conflict(a.description, b.description)
    ||| fill_conflict(a.visibility, b.visibility)
    ||| fill_conflict(a.owner, b.owner)
    ||| fill_conflict(a.subscribed, b.subscribed)
    ||| fill_conflict(a.pinned, b.pinned)
    ||| fill_conflict(a.is_member, b.is_member)
}

/// The index of the first list with this ID, or -1.
pub open spec fn index_of_id(a: Seq<ListView>, id: Seq<char>) -> int
    decreases a.len(),
{
    if a.len() == 0 {
        -1
    } else if index_of_id(a.drop_last(), id) >= 0 {
        index_of_id(a.drop_last(), id)
    } else if a.last().id == id {
        a.len() - 1
    } else {
        -1
    }
}

/// Adds observed lists to the collected ones: a new ID is appended, a known one is
/// merged into its first observation. Also counts the conflicting duplicates.
pub open spec fn absorb_lists(acc: Seq<ListView>, items: Seq<ListView>) -> (Seq<ListView>, nat)
    decreases items.len(),
{
    if items.len() == 0 {
        (acc, 0)
    } else {
        let (a, n) = absorb_lists(acc, items.drop_last());
        let l = items.last();
        let j = index_of_id(a, l.id);
        if j >= 0 {
            (a.update(j, merged(a[j], l)), n + if conflicts(a[j], l) { 1nat } else { 0nat })
        } else {
            (a.push(l), n)
        }
    }
}

/// The lists collected from the received pages, and what each response tells
/// pagination; a page's warnings are followed by one per conflicting duplicate.
pub open spec fn list_run(rs: Seq<Result<ListsPage, Error>>) -> (Seq<ListView>, Seq<Result<PageMeta, Error>>)
    decreases rs.len(),
{
    if rs.len() == 0 {
        (Seq::empty(), Seq::empty())
    } else {
        let (acc, metas) = list_run(rs.drop_last());
        match rs.last() {
            Ok(p) => {
                let (acc2, n) = absorb_lists(acc, list_views(p.lists@));
                (acc2, metas.push(Ok((opt_text(p.next_cursor), texts(p.warnings@) + conflict_warnings(n)))))
            },
            Err(e) => (acc, metas.push(Err(e))),
        }
    }
}

/// The result of a list collection for the given requests and responses.
pub open spec fn lists_collected<F: FnOnce(Option<&str>) -> Result<ListsPage, Error>>(
    fetch: F,
    out: Output,
    max_pages: u32,
    start: Option<String>,
    rs: Seq<Result<ListsPage, Error>>,
    args: Seq<Option<Seq<char>>>,
    r: Result<Output, Error>,
) -> bool {
    &&& fetched(fetch, args, rs)
    &&& match (outcome(ctl_start(opt_text(start), out), max_pages as nat, list_run(rs).1, args), r) {
        (Some(Ok(c)), Ok(o)) => {
            &&& ctl_of(o) == reported(c)
            &&& o.lists is Some
            &&& list_views(o.lists->0@) == list_run(rs).0
            &&& o.posts@.len() == 0
            &&& o.users is None
            &&& same_frame(o, out)
        },
        (Some(Err(e)), Err(e2)) => e == e2,
        _ => false,
    }
}

pub proof fn lemma_index_of_id_prefix(a: Seq<ListView>, id: Seq<char>, k: int)
    requires
        0 <= k <= a.len(),
        index_of_id(a.take(k), id) >= 0,
    ensures
        index_of_id(a, id) == index_of_id(a.take(k), id),
    decreases a.len() - k,
{
    if k < a.len() {
        assert(a.take(k + 1).drop_last() =~= a.take(k));
        lemma_index_of_id_prefix(a, id, k + 1);
    } else {
        assert(a.take(k) =~= a);
    }
}

pub proof fn lemma_index_of_id_bounds(a: Seq<ListView>, id: Seq<char>)
    ensures
        -1 <= index_of_id(a, id) < a.len(),
        index_of_id(a, id) >= 0 ==> a[index_of_id(a, id)].id == id,
        index_of_id(a, id) < 0 ==> forall|j: int| 0 <= j < a.len() ==> a[j].id != id,
    decreases a.len(),
{
    if a.len() > 0 {
        lemma_index_of_id_bounds(a.drop_last(), id);
        if index_of_id(a, id) < 0 {
            assert forall|j: int| 0 <= j < a.len() implies a[j].id != id by {
                if j < a.len() - 1 {
                    assert(a.drop_last()[j] == a[j]);
                }
            }
        }
    }
}

pub proof fn lemma_union_sections(a: Seq<ListManagementSection>, b: Seq<ListManagementSection>)
    ensures
        forall|x: ListManagementSection| #[trigger] union_sections(a, b).contains(x) <==> a.contains(x) || b.contains(x),
        union_sections(a, b).subrange(0, a.len() as int) == a,
        a.len() <= union_sections(a, b).len(),
    decreases b.len(),
{
    if b.len() > 0 {
        lemma_union_sections(a, b.drop_last());
        let u = union_sections(a, b.drop_last());
        assert forall|x: ListManagementSection| #[trigger] union_sections(a, b).contains(x) <==> a.contains(x) || b.contains(x) by {
            if b.contains(x) && !b.drop_last().contains(x) {
                assert(x == b.last()) by {
                    let i = choose|i: int| 0 <= i < b.len() && b[i] == x;
                    if i < b.len() - 1 {
                        assert(b.drop_last()[i] == x);
                    }
                }
            }
            if b.drop_last().contains(x) {
                let i = choose|i: int| 0 <= i < b.drop_last().len() && b.drop_last()[i] == x;
                assert(b[i] == x);
            }
            if !u.contains(b.last()) {
                if u.push(b.last()).contains(x) && x != b.last() {
                    let i = choose|i: int| 0 <= i < u.push(b.last()).len() && u.push(b.last())[i] == x;
                    assert(u[i] == x);
                }
                if u.contains(x) {
                    let i = choose|i: int| 0 <= i < u.len() && u[i] == x;
                    assert(u.push(b.last())[i] == x);
                }
                assert(u.push(b.last())[u.len() as int] == b.last());
            }
            assert(b[b.len() - 1] == b.last());
        }
        if !u.contains(b.last()) {
            assert(u.push(b.last()).subrange(0, a.len() as int) =~= u.subrange(0, a.len() as int));
        }
    }
}

/// Merging never overwrites what the first observation knew: its identity, name, URL
/// and known fields stay, missing fields come from the later observation, and the
/// placements of both observations are kept, the first's first.
pub proof fn lemma_merge_keeps_first(a: ListView, b: ListView)
    ensures
        ({
            let m = merged(a, b);
            &&& m.id == a.id && m.name == a.name && m.url == a.url
            &&& (a.description is Some ==> m.description == a.description)
            &&& (a.description is None ==> m.description == b.description)
            &&& (a.visibility is Some ==> m.visibility == a.visibility)
            &&& (a.owner is Some ==> m.owner == a.owner)
            &&& (a.subscribed is Some ==> m.subscribed == a.subscribed)
            &&& (a.pinned is Some ==> m.pinned == a.pinned)
            &&& (a.is_member is Some ==> m.is_member == a.is_member)
            &&& m.management_sections.subrange(0, a.management_sections.len() as int) == a.management_sections
            &&& forall|x: ListManagementSection| #[trigger] m.management_sections.contains(x)
                <==> a.management_sections.contains(x) || b.management_sections.contains(x)
        }),
{
    lemma_union_sections(a.management_sections, b.management_sections);
}

pub open spec fn list_ids_distinct(s: Seq<ListView>) -> bool {
    forall|i: int, j: int| 0 <= i < j < s.len() ==> s[i].id != s[j].id
}

/// A list collection never holds the same list twice: repeated observations merge.
pub proof fn lemma_collected_lists_distinct(acc: Seq<ListView>, items: Seq<ListView>)
    requires
        list_ids_distinct(acc),
    ensures
        list_ids_distinct(absorb_lists(acc, items).0),
        absorb_lists(acc, items).1 <= items.len(),
    decreases items.len(),
{
    if items.len() > 0 {
        lemma_collected_lists_distinct(acc, items.drop_last());
        let (a, n) = absorb_lists(acc, items.drop_last());
        let l = items.last();
        lemma_index_of_id_bounds(a, l.id);
        let j = index_of_id(a, l.id);
        if j >= 0 {
            let a2 = a.update(j, merged(a[j], l));
            assert forall|x: int, y: int| 0 <= x < y < a2.len() implies a2[x].id != a2[y].id by {
                assert(a2[x].id == a[x].id);
                assert(a2[y].id == a[y].id);
            }
        }
    }
}

/// Finds the first collected list with this ID.
fn find_list(lists: &Vec<ListInfo>, id: &String) -> (r: Option<usize>)
    ensures
        match r {
            Some(j) => j < lists@.len() && index_of_id(list_views(lists@), id@) == j,
            None => index_of_id(list_views(lists@), id@) == -1,
        },
{
    let ghost v = list_views(lists@);
    let mut i: usize = 0;
    while i < lists.len()
        invariant
            i <= lists@.len(),
            v == list_views(lists@),
            index_of_id(v.take(i as int), id@) == -1,
        decreases lists@.len() - i,
    {
        assert(v.take(i + 1).drop_last() =~= v.take(i as int));
        if str_eq(lists[i].id.as_str(), id.as_str()) {
            proof {
                lemma_index_of_id_prefix(v, id@, i + 1);
            }
            return Some(i);
        }
        i = i + 1;
    }
    assert(v.take(i as int) =~= v);
    None
}

/// Keeps a known value or takes the later one; hands back the later value when a
/// value was already known, so the caller can compare them.
fn fill<T>(first: &mut Option<T>, later: Option<T>) -> (rest: Option<T>)
    ensures
        *final(first) == filled(*old(first), later),
        rest == if (*old(first)) is Some { later } else { None::<T> },
{
    if first.is_some() {
        later
    } else {
        *first = later;
        None
    }
}

fn same_text(a: &Option<String>, b: &Option<String>) -> (r: bool)
    ensures
        r == (opt_text(*a) == opt_text(*b)),
{
    match (a, b) {
        (Some(x), Some(y)) => str_eq(x.as_str(), y.as_str()),
        (None, None) => true,
        _ => false,
    }
}

fn same_visibility(a: &Option<ListVisibility>, b: &Option<ListVisibility>) -> (r: bool)
    ensures
        r == (*a == *b),
{
    match (a, b) {
        (Some(x), Some(y)) => *x == *y,
        (None, None) => true,
        _ => false,
    }
}

fn same_owner(a: &Option<Identity>, b: &Option<Identity>) -> (r: bool)
    ensures
        r == (match (*a, *b) {
            (Some(x), Some(y)) => x.id@ == y.id@ && x.handle@ == y.handle@,
            (None, None) => true,
            _ => false,
        }),
{
    match (a, b) {
        (Some(x), Some(y)) => str_eq(x.id.as_str(), y.id.as_str()) && str_eq(x.handle.as_str(), y.handle.as_str()),
        (None, None) => true,
        _ => false,
    }
}

fn same_flag(a: &Option<bool>, b: &Option<bool>) -> (r: bool)
    ensures
        r == (*a == *b),
{
    match (a, b) {
        (Some(x), Some(y)) => *x == *y,
        (None, None) => true,
        _ => false,
    }
}

fn has_section(v: &Vec<ListManagementSection>, s: ListManagementSection) -> (r: bool)
    ensures
        r == v@.contains(s),
{
    let mut i: usize = 0;
    while i < v.len()
        invariant
            i <= v@.len(),
            forall|k: int| 0 <= k < i ==> v@[k] != s,
        decreases v@.len() - i,
    {
        if v[i] == s {
            return true;
        }
        i = i + 1;
    }
    false
}

fn unite_sections(first: &mut Vec<ListManagementSection>, later: Vec<ListManagementSection>)
    ensures
        final(first)@ == union_sections(old(first)@, later@),
{
    let ghost f0 = first@;
    let mut i: usize = 0;
    while i < later.len()
        invariant
            i <= later@.len(),
            first@ == union_sections(f0, later@.take(i as int)),
        decreases later@.len() - i,
    {
        assert(later@.take(i + 1).drop_last() =~= later@.take(i as int));
        let s = later[i];
        if !has_section(first, s) {
            first.push(s);
        }
        i = i + 1;
    }
    assert(later@.take(i as int) =~= later@);
}

/// Merges a later observation into the first one; true when they conflicted.
fn merge(first: &mut ListInfo, later: ListInfo) -> (conflict: bool)
    ensures
        final(first)@ == merged(old(first)@, later@),
        conflict == conflicts(old(first)@, later@),
{
    let ListInfo {
        id: _,
        name,
        description,
        visibility,
        owner,
        subscribed,
        pinned,
        is_member,
        management_sections,
        url,
    } = later;
    let renamed = !str_eq(first.name.as_str(), name.as_str()) || !str_eq(first.url.as_str(), url.as_str());
    let d = fill(&mut first.description, description);
    let c_description = d.is_some() && !same_text(&first.description, &d);
    let v = fill(&mut first.visibility, visibility);
    let c_visibility = v.is_some() && !same_visibility(&first.visibility, &v);
    let o = fill(&mut first.owner, owner);
    let c_owner = o.is_some() && !same_owner(&first.owner, &o);
    let s = fill(&mut first.subscribed, subscribed);
    let c_subscribed = s.is_some() && !same_flag(&first.subscribed, &s);
    let p = fill(&mut first.pinned, pinned);
    let c_pinned = p.is_some() && !same_flag(&first.pinned, &p);
    let m = fill(&mut first.is_member, is_member);
    let c_member = m.is_some() && !same_flag(&first.is_member, &m);
    unite_sections(&mut first.management_sections, management_sections);
    renamed || c_description || c_visibility || c_owner || c_subscribed || c_pinned || c_member
}

/// Adds observed lists to the collected ones, with a warning per conflicting duplicate;
/// returns the number of such warnings.
fn absorb_lists_exec(lists: &mut Vec<ListInfo>, warnings: &mut Vec<String>, items: Vec<ListInfo>) -> (n: usize)
    ensures
        list_views(final(lists)@) == absorb_lists(list_views(old(lists)@), list_views(items@)).0,
        n == absorb_lists(list_views(old(lists)@), list_views(items@)).1,
        texts(final(warnings)@) == texts(old(warnings)@) + conflict_warnings(n as nat),
{
    let ghost l0 = list_views(lists@);
    let ghost w0 = texts(warnings@);
    let ghost all = items@;
    let len = items.len();
    let mut items = items;
    let mut k: usize = 0;
    let mut n: usize = 0;
    while items.len() > 0
        invariant
            all.len() == len,
            k + items@.len() == all.len(),
            items@ == all.skip(k as int),
            n <= k,
            (list_views(lists@), n as nat) == absorb_lists(l0, list_views(all).take(k as int)),
            texts(warnings@) == w0 + conflict_warnings(n as nat),
        decreases items@.len(),
    {
        let l = items.remove(0);
        proof {
            assert(list_views(all).take(k + 1).drop_last() =~= list_views(all).take(k as int));
            assert(list_views(all).take(k + 1).last() == l@);
        }
        let ghost acc = list_views(lists@);
        match find_list(lists, &l.id) {
            Some(j) => {
                proof {
                    lemma_index_of_id_bounds(acc, l@.id);
                }
                let mut first = lists.remove(j);
                let c = merge(&mut first, l);
                lists.insert(j, first);
                assert(list_views(lists@) =~= acc.update(j as int, merged(acc[j as int], l@)));
                if c {
                    push_warning(
                        warnings,
                        "Duplicate list metadata conflicted; first known values retained in this visible snapshot".to_owned(),
                    );
                    assert(conflict_warnings((n + 1) as nat) =~= conflict_warnings(n as nat).push(conflict_warning()));
                    n = n + 1;
                }
            },
            None => {
                lists.push(l);
                assert(list_views(lists@) =~= acc.push(l@));
            },
        }
        k = k + 1;
        assert(items@ =~= all.skip(k as int));
    }
    assert(list_views(all).take(k as int) =~= list_views(all));
    n
}

/// Collects a visible snapshot of lists. A list observed more than once is merged into
/// its first observation: its placements are united, missing fields are filled from
/// later observations, and conflicting observations keep the first known values with a
/// warning that names no value. Conflicts are not authoritative reconciliation evidence.
pub fn collect_lists(
    out: Output,
    max_pages: u32,
    start: Option<String>,
    fetch: impl FnMut(Option<&str>) -> Result<ListsPage, Error>,
) -> (r: Result<Output, Error>)
    requires
        out.pages + max_pages <= u32::MAX,
        forall|a: Option<&str>| call_requires(fetch, (a,)),
    ensures
        exists|rs: Seq<Result<ListsPage, Error>>, args: Seq<Option<Seq<char>>>|
            #[trigger] lists_collected(fetch, out, max_pages, start, rs, args, r),
{
    broadcast use vstd::function::group_function_axioms;

    let ghost out0 = out;
    let ghost f0 = fetch;
    let ghost start0 = start;
    let mut fetch = fetch;
    let mut out = out;
    out.posts.clear();
    out.users = None;
    out.lists = None;
    let mut lists: Vec<ListInfo> = Vec::new();
    let ghost c0 = ctl_start(opt_text(start), out0);
    let mut cursor = start;
    let mut seen: Vec<String> = Vec::new();
    assert(texts(seen@).to_set() =~= Set::empty());
    match &cursor {
        Some(c) => {
            let ghost before = seen@;
            seen.push(c.clone());
            proof {
                assert(texts(seen@) == texts(before).push(c@));
                texts(before).lemma_push_to_set_commute(c@);
            }
        },
        None => {},
    }
    let mut i: u32 = 0;
    let mut done = false;
    let mut first_err: Option<Error> = None;
    let mut failed = false;
    let ghost mut rs: Seq<Result<ListsPage, Error>> = Seq::empty();
    let ghost mut args: Seq<Option<Seq<char>>> = Seq::empty();
    assert(list_views(lists@) =~= Seq::<ListView>::empty());
    while !done && i < max_pages
        invariant
            c0 == ctl_start(opt_text(start0), out0),
            fetch == f0,
            out0.pages + max_pages <= u32::MAX,
            forall|a: Option<&str>| call_requires(fetch, (a,)),
            fetched(fetch, args, rs),
            rs.len() == i,
            i <= max_pages,
            !done ==> first_err is None && !failed,
            !done ==> trace(c0, list_run(rs).1, args) == Some(ctl_view(cursor, seen@, out)),
            done ==> {
                &&& 1 <= rs.len()
                &&& trace(c0, list_run(rs).1.drop_last(), args.drop_last()) is Some
                &&& stop(
                    trace(c0, list_run(rs).1.drop_last(), args.drop_last())->0,
                    list_run(rs).1.last(),
                    args.last(),
                ) == Some(settled(ctl_view(cursor, seen@, out), first_err, failed))
            },
            list_views(lists@) == list_run(rs).0,
            out.posts@.len() == 0,
            out.users is None,
            out.lists is None,
            out.next_cursor == out0.next_cursor,
            same_frame(out, out0),
            out.pages <= out0.pages + i,
        decreases max_pages - i,
    {
        let arg = opt_as_str(&cursor);
        let r = fetch(arg);
        proof {
            assert(fetch == f0);
            assert(fetched_one(fetch, opt_text(cursor), r));
            let rs1 = rs.push(r);
            let args1 = args.push(opt_text(cursor));
            assert(rs1.drop_last() =~= rs);
            assert(list_run(rs1).1.drop_last() =~= list_run(rs).1);
            assert(args1.drop_last() =~= args);
            assert forall|j: int| 0 <= j < rs1.len() implies #[trigger] fetched_one(fetch, args1[j], rs1[j]) by {
                if j < rs.len() {
                    assert(fetched_one(fetch, args[j], rs[j]));
                }
            }
            rs = rs1;
            args = args1;
        }
        match r {
            Err(e) => {
                if out.pages > 0 {
                    record_failure(&mut out, &e);
                    failed = true;
                } else {
                    first_err = Some(e);
                }
                done = true;
            },
            Ok(page) => {
                let ListsPage { lists: found, next_cursor, warnings } = page;
                let ghost c = ctl_view(cursor, seen@, out);
                let ghost ws = texts(warnings@);
                begin_page(&mut out, &cursor, &seen, warnings);
                let ghost before = texts(out.warnings@);
                let ghost found_v = list_views(found@);
                let n = absorb_lists_exec(&mut lists, &mut out.warnings, found);
                proof {
                    assert(texts(out.warnings@) == c.2 + (ws + conflict_warnings(n as nat)));
                    assert(list_run(rs).1.last() == Ok::<PageMeta, Error>((opt_text(next_cursor), ws + conflict_warnings(n as nat))));
                }
                let k = end_page(&mut out, &mut cursor, &mut seen, next_cursor);
                if !k {
                    done = true;
                }
            },
        }
        i = i + 1;
    }
    match first_err {
        Some(e) => {
            let res: Result<Output, Error> = Err(e);
            assert(lists_collected(fetch, out0, max_pages, start0, rs, args, res));
            res
        },
        None => {
            if !failed {
                push_warning(
                    &mut out.warnings,
                    "This is an upstream-visible collection, not a complete archive or reply tree".to_owned(),
                );
            }
            out.next_cursor = cursor;
            out.lists = Some(lists);
            let res: Result<Output, Error> = Ok(out);
            assert(lists_collected(fetch, out0, max_pages, start0, rs, args, res));
            res
        },
    }
}

} // verus!
