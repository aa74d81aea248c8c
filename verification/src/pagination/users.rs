//! Bounded collection of user lists (followers, following, list members).
use vstd::prelude::*;
use super::{
    PageMeta, begin_page, ctl_start, ctl_view, end_page, fetched, fetched_one, opt_as_str,
    opt_text, push_warning, record_failure, same_frame, seen_contains, stop, texts, trace,
    outcome, ctl_of, reported, settled,
};
use crate::error::Error;
use crate::model::{Identity, Output};

verus! {

pub struct UsersPage {
    pub users: Vec<Identity>,
    pub next_cursor: Option<String>,
    pub warnings: Vec<String>,
}

pub open spec fn users_meta(r: Result<UsersPage, Error>) -> Result<PageMeta, Error> {
    match r {
        Ok(p) => Ok((opt_text(p.next_cursor), texts(p.warnings@))),
        Err(e) => Err(e),
    }
}

pub open spec fn users_metas(rs: Seq<Result<UsersPage, Error>>) -> Seq<Result<PageMeta, Error>> {
    rs.map_values(|r: Result<UsersPage, Error>| users_meta(r))
}

/// The users of the received pages, in order.
pub open spec fn received_users(rs: Seq<Result<UsersPage, Error>>) -> Seq<Identity>
    decreases rs.len(),
{
    if rs.len() == 0 {
        Seq::empty()
    } else {
        received_users(rs.drop_last()) + match rs.last() {
            Ok(p) => p.users@,
            Err(_) => Seq::empty(),
        }
    }
}

/// Appends users whose IDs were not seen before, in order.
pub open spec fn absorb_users(acc: Seq<Identity>, seen: Set<Seq<char>>, items: Seq<Identity>) -> (Seq<Identity>, Set<Seq<char>>)
    decreases items.len(),
{
    if items.len() == 0 {
        (acc, seen)
    } else {
        let (a, s) = absorb_users(acc, seen, items.drop_last());
        let p = items.last();
        if s.contains(p.id@) {
            (a, s)
        } else {
            (a.push(p), s.insert(p.id@))
        }
    }
}

/// The result of a user collection for the given requests and responses.
pub open spec fn users_collected<F: FnOnce(Option<&str>) -> Result<UsersPage, Error>>(
    fetch: F,
    out: Output,
    max_pages: u32,
    start: Option<String>,
    rs: Seq<Result<UsersPage, Error>>,
    args: Seq<Option<Seq<char>>>,
    r: Result<Output, Error>,
) -> bool {
    &&& fetched(fetch, args, rs)
    &&& match (outcome(ctl_start(opt_text(start), out), max_pages as nat, users_metas(rs), args), r) {
        (Some(Ok(c)), Ok(o)) => {
            &&& ctl_of(o) == reported(c)
            &&& o.users is Some
            &&& o.users->0@ == absorb_users(Seq::empty(), Set::empty(), received_users(rs)).0
            &&& o.posts@.len() == 0
            &&& o.lists is None
            &&& same_frame(o, out)
        },
        (Some(Err(e)), Err(e2)) => e == e2,
        _ => false,
    }
}

pub proof fn lemma_absorb_users_concat(acc: Seq<Identity>, seen: Set<Seq<char>>, a: Seq<Identity>, b: Seq<Identity>)
    ensures
        absorb_users(acc, seen, a + b) == absorb_users(
            absorb_users(acc, seen, a).0,
            absorb_users(acc, seen, a).1,
            b,
        ),
    decreases b.len(),
{
    if b.len() == 0 {
        assert(a + b =~= a);
    } else {
        lemma_absorb_users_concat(acc, seen, a, b.drop_last());
        assert((a + b).drop_last() =~= a + b.drop_last());
        assert((a + b).last() == b.last());
    }
}

/// Appends the users whose IDs were not seen before, in order.
fn absorb_users_exec(users: &mut Vec<Identity>, ids: &mut Vec<String>, items: Vec<Identity>)
    ensures
        (final(users)@, texts(final(ids)@).to_set()) == absorb_users(old(users)@, texts(old(ids)@).to_set(), items@),
{
    let ghost p0 = users@;
    let ghost s0 = texts(ids@).to_set();
    let ghost all = items@;
    let n = items.len();
    let mut items = items;
    let mut k: usize = 0;
    while items.len() > 0
        invariant
            all.len() == n,
            k + items@.len() == all.len(),
            items@ == all.skip(k as int),
            (users@, texts(ids@).to_set()) == absorb_users(p0, s0, all.take(k as int)),
        decreases items@.len(),
    {
        let p = items.remove(0);
        proof {
            assert(all.take(k + 1).drop_last() =~= all.take(k as int));
            assert(all.take(k + 1).last() == p);
        }
        let ghost before_ids = ids@;
        if !seen_contains(ids, &p.id) {
            ids.push(p.id.clone());
            proof {
                assert(texts(ids@) == texts(before_ids).push(p.id@));
                texts(before_ids).lemma_push_to_set_commute(p.id@);
            }
            users.push(p);
        }
        k = k + 1;
        assert(items@ =~= all.skip(k as int));
    }
    assert(all.take(k as int) =~= all);
}

/// Collects a bounded view of users, deduplicated by ID. Cursor exhaustion never proves
/// that all X users were exposed, so the result is never marked complete here.
pub fn collect_users(
    out: Output,
    max_pages: u32,
    start: Option<String>,
    fetch: impl FnMut(Option<&str>) -> Result<UsersPage, Error>,
) -> (r: Result<Output, Error>)
    requires
        out.pages + max_pages <= u32::MAX,
        forall|a: Option<&str>| call_requires(fetch, (a,)),
    ensures
        exists|rs: Seq<Result<UsersPage, Error>>, args: Seq<Option<Seq<char>>>|
            #[trigger] users_collected(fetch, out, max_pages, start, rs, args, r),
{
    broadcast use vstd::function::group_function_axioms;

    let ghost out0 = out;
    let ghost f0 = fetch;
    let ghost start0 = start;
    let mut fetch = fetch;
    let mut out = out;
    out.posts.clear();
    out.users = None;
    out.lists = None;
    let mut users: Vec<Identity> = Vec::new();
    let ghost c0 = ctl_start(opt_text(start), out0);
    let mut cursor = start;
    let mut seen: Vec<String> = Vec::new();
    assert(texts(seen@).to_set() =~= Set::empty());
    match &cursor {
        Some(c) => {
            let ghost before = seen@;
            seen.push(c.clone());
            proof {
                assert(texts(seen@) == texts(before).push(c@));
                texts(before).lemma_push_to_set_commute(c@);
            }
        },
        None => {},
    }
    let mut ids: Vec<String> = Vec::new();
    assert(texts(ids@).to_set() =~= Set::empty());
    let mut i: u32 = 0;
    let mut done = false;
    let mut first_err: Option<Error> = None;
    let mut failed = false;
    let ghost mut rs: Seq<Result<UsersPage, Error>> = Seq::empty();
    let ghost mut args: Seq<Option<Seq<char>>> = Seq::empty();
    assert(received_users(rs) =~= Seq::empty());
    while !done && i < max_pages
        invariant
            c0 == ctl_start(opt_text(start0), out0),
            fetch == f0,
            out0.pages + max_pages <= u32::MAX,
            forall|a: Option<&str>| call_requires(fetch, (a,)),
            fetched(fetch, args, rs),
            rs.len() == i,
            i <= max_pages,
            !done ==> first_err is None && !failed,
            !done ==> trace(c0, users_metas(rs), args) == Some(ctl_view(cursor, seen@, out)),
            done ==> {
                &&& 1 <= rs.len()
                &&& trace(c0, users_metas(rs).drop_last(), args.drop_last()) is Some
                &&& stop(
                    trace(c0, users_metas(rs).drop_last(), args.drop_last())->0,
                    users_metas(rs).last(),
                    args.last(),
                ) == Some(settled(ctl_view(cursor, seen@, out), first_err, failed))
            },
            (users@, texts(ids@).to_set()) == absorb_users(Seq::empty(), Set::empty(), received_users(rs)),
            out.posts@.len() == 0,
            out.users is None,
            out.lists is None,
            out.next_cursor == out0.next_cursor,
            same_frame(out, out0),
            out.pages <= out0.pages + i,
        decreases max_pages - i,
    {
        let arg = opt_as_str(&cursor);
        let r = fetch(arg);
        proof {
            assert(fetch == f0);
            assert(fetched_one(fetch, opt_text(cursor), r));
            let rs1 = rs.push(r);
            let args1 = args.push(opt_text(cursor));
            assert(users_metas(rs1).drop_last() =~= users_metas(rs));
            assert(args1.drop_last() =~= args);
            assert(rs1.drop_last() =~= rs);
            assert forall|j: int| 0 <= j < rs1.len() implies #[trigger] fetched_one(fetch, args1[j], rs1[j]) by {
                if j < rs.len() {
                    assert(fetched_one(fetch, args[j], rs[j]));
                }
            }
            rs = rs1;
            args = args1;
        }
        match r {
            Err(e) => {
                if out.pages > 0 {
                    record_failure(&mut out, &e);
                    failed = true;
                } else {
                    first_err = Some(e);
                }
                done = true;
            },
            Ok(page) => {
                let UsersPage { users: found, next_cursor, warnings } = page;
                begin_page(&mut out, &cursor, &seen, warnings);
                absorb_users_exec(&mut users, &mut ids, found);
                proof {
                    lemma_absorb_users_concat(Seq::empty(), Set::empty(), received_users(rs.drop_last()), found@);
                }
                let k = end_page(&mut out, &mut cursor, &mut seen, next_cursor);
                if !k {
                    done = true;
                }
            },
        }
        i = i + 1;
    }
    match first_err {
        Some(e) => {
            let res: Result<Output, Error> = Err(e);
            assert(users_collected(fetch, out0, max_pages, start0, rs, args, res));
            res
        },
        None => {
            if !failed {
                push_warning(
                    &mut out.warnings,
                    "This is an upstream-visible collection, not a complete archive or reply tree".to_owned(),
                );
            }
            out.next_cursor = cursor;
            out.users = Some(users);
            let res: Result<Output, Error> = Ok(out);
            assert(users_collected(fetch, out0, max_pages, start0, rs, args, res));
            res
        },
    }
}

} // verus!
