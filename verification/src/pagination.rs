//! Bounded collection of upstream pages. Cursor exhaustion never proves that all
//! X content was exposed, so collections are never marked complete.
use vstd::prelude::*;
use crate::error::{Error, exit_code_of};
use crate::model::{Output, Post};
use crate::text::{decimal_text, push_all, push_decimal, str_eq};

mod lists;
mod parents;
mod users;

pub use lists::{ListsPage, collect_lists};
pub use parents::parents;
pub use users::{UsersPage, collect_users};

verus! {

pub struct Page {
    pub posts: Vec<Post>,
    pub next_cursor: Option<String>,
    pub warnings: Vec<String>,
}

pub open spec fn opt_text(c: Option<String>) -> Option<Seq<char>> {
    match c {
        Some(s) => Some(s@),
        None => None,
    }
}

pub open spec fn opt_str(c: Option<&str>) -> Option<Seq<char>> {
    match c {
        Some(s) => Some(s@),
        None => None,
    }
}

pub open spec fn texts(v: Seq<String>) -> Seq<Seq<char>> {
    v.map_values(|s: String| s@)
}

/// A cursor that is present and nonempty.
pub open spec fn nonempty(c: Option<Seq<char>>) -> Option<Seq<char>> {
    match c {
        Some(x) => if x.len() > 0 {
            Some(x)
        } else {
            None
        },
        None => None,
    }
}

/// The pagination state: the cursor to request next, the cursors already seen, the
/// warnings, the stop reason, the number of pages read, and whether a request failed.
pub type Ctl = (Option<Seq<char>>, Set<Seq<char>>, Seq<Seq<char>>, Seq<char>, nat, bool);

/// What one page tells pagination: its continuation cursor and the warnings it adds.
pub type PageMeta = (Option<Seq<char>>, Seq<Seq<char>>);

pub open spec fn ctl_start(start: Option<Seq<char>>, out: Output) -> Ctl {
    (
        start,
        match start {
            Some(c) => Set::empty().insert(c),
            None => Set::empty(),
        },
        texts(out.warnings@),
        out.stop_reason@,
        out.pages as nat,
        out.request_failed,
    )
}

pub open spec fn final_warning() -> Seq<char> {
    "This is an upstream-visible collection, not a complete archive or reply tree"@
}

pub open spec fn repeat_warning() -> Seq<char> {
    "Upstream repeated a pagination cursor"@
}

/// `{message} (exit code {code})`.
pub open spec fn failure_text(e: Error) -> Seq<char> {
    e.message@ + " (exit code "@ + decimal_text(exit_code_of(e.kind) as nat) + ")"@
}

/// `Retry after {seconds} seconds`.
pub open spec fn retry_text(seconds: u64) -> Seq<char> {
    "Retry after "@ + decimal_text(seconds as nat) + " seconds"@
}

/// The warnings a failed request leaves: its message and exit code, and retry advice.
pub open spec fn failure_warnings(e: Error) -> Seq<Seq<char>> {
    match e.retry_after_seconds {
        Some(s) => seq![failure_text(e), retry_text(s)],
        None => seq![failure_text(e)],
    }
}

/// The end of a collection: the remaining cursor stays resumable, and the result is
/// flagged as an upstream-visible view.
pub open spec fn finish(c: Ctl) -> Ctl {
    (c.0, c.1, c.2.push(final_warning()), c.3, c.4, c.5)
}

/// A later request failed: obtained data is kept, the failed cursor stays resumable.
pub open spec fn partial(c: Ctl, e: Error) -> Ctl {
    (c.0, c.1, c.2 + failure_warnings(e), "request_failed"@, c.4, true)
}

/// A page arrived: it is counted and its warnings are kept.
pub open spec fn received(c: Ctl, ws: Seq<Seq<char>>) -> Ctl {
    (c.0, c.1, c.2 + ws, c.3, c.4 + 1, c.5)
}

/// The cursor check after a page: whether collection continues, and the new state.
/// An absent or empty cursor ends it as exhausted; a cursor seen before ends it as
/// repeated; a fresh cursor is remembered and becomes the next request.
pub open spec fn close(c: Ctl, next: Option<Seq<char>>) -> (bool, Ctl) {
    match nonempty(next) {
        None => (false, (None, c.1, c.2, "cursor_exhausted"@, c.4, c.5)),
        Some(x) => if c.1.contains(x) {
            (false, (Some(x), c.1, c.2.push(repeat_warning()), "repeated_cursor"@, c.4, c.5))
        } else {
            (true, (Some(x), c.1.insert(x), c.2, "page_limit"@, c.4, c.5))
        },
    }
}

/// A page that lets collection continue: it was requested with the current cursor and
/// gives a fresh nonempty cursor.
pub open spec fn advance(c: Ctl, m: Result<PageMeta, Error>, a: Option<Seq<char>>) -> Option<Ctl> {
    if a != c.0 {
        None
    } else {
        match m {
            Ok((next, ws)) => if close(received(c, ws), next).0 {
                Some(close(received(c, ws), next).1)
            } else {
                None
            },
            Err(_) => None,
        }
    }
}

/// A request that ends collection: a failure, an exhausted cursor, or a repeated cursor.
/// A failure of the first request is the result; a later failure keeps what was read.
pub open spec fn stop(c: Ctl, m: Result<PageMeta, Error>, a: Option<Seq<char>>) -> Option<Result<Ctl, Error>> {
    if a != c.0 {
        None
    } else {
        match m {
            Err(e) => Some(
                if c.4 > 0 {
                    Ok(partial(c, e))
                } else {
                    Err(e)
                },
            ),
            Ok((next, ws)) => if close(received(c, ws), next).0 {
                None
            } else {
                Some(Ok(finish(close(received(c, ws), next).1)))
            },
        }
    }
}

/// Pagination state after a run of continuing pages.
pub open spec fn trace(c0: Ctl, metas: Seq<Result<PageMeta, Error>>, args: Seq<Option<Seq<char>>>) -> Option<Ctl>
    decreases metas.len(),
{
    if metas.len() == 0 {
        if args.len() == 0 {
            Some(c0)
        } else {
            None
        }
    } else if args.len() != metas.len() {
        None
    } else {
        match trace(c0, metas.drop_last(), args.drop_last()) {
            Some(c) => advance(c, metas.last(), args.last()),
            None => None,
        }
    }
}

/// The result of requesting pages with the given arguments and receiving the given
/// responses: either every page continued and the page bound was reached, or the last
/// response ended collection. `None` when the requests could not have happened so.
pub open spec fn outcome(c0: Ctl, max_pages: nat, metas: Seq<Result<PageMeta, Error>>, args: Seq<Option<Seq<char>>>) -> Option<Result<Ctl, Error>> {
    let n = metas.len();
    if n == max_pages && trace(c0, metas, args) is Some {
        Some(Ok(finish(trace(c0, metas, args)->0)))
    } else if 1 <= n <= max_pages && args.len() == n && trace(c0, metas.drop_last(), args.drop_last()) is Some {
        stop(trace(c0, metas.drop_last(), args.drop_last())->0, metas.last(), args.last())
    } else {
        None
    }
}

/// The pagination state held by a collector.
pub open spec fn ctl_view(cursor: Option<String>, seen: Seq<String>, o: Output) -> Ctl {
    (opt_text(cursor), texts(seen).to_set(), texts(o.warnings@), o.stop_reason@, o.pages as nat, o.request_failed)
}

/// `fetch` may have answered a request for cursor `a` with `r`.
pub open spec fn fetched_one<P, F: FnOnce(Option<&str>) -> Result<P, Error>>(fetch: F, a: Option<Seq<char>>, r: Result<P, Error>) -> bool {
    exists|x: Option<&str>| opt_str(x) == a && call_ensures(fetch, (x,), r)
}

/// Each response is one `fetch` may give for the matching request.
pub open spec fn fetched<P, F: FnOnce(Option<&str>) -> Result<P, Error>>(fetch: F, args: Seq<Option<Seq<char>>>, rs: Seq<Result<P, Error>>) -> bool {
    &&& rs.len() == args.len()
    &&& forall|i: int| 0 <= i < rs.len() ==> #[trigger] fetched_one(fetch, args[i], rs[i])
}

pub open spec fn page_meta(r: Result<Page, Error>) -> Result<PageMeta, Error> {
    match r {
        Ok(p) => Ok((opt_text(p.next_cursor), texts(p.warnings@))),
        Err(e) => Err(e),
    }
}

pub open spec fn page_metas(rs: Seq<Result<Page, Error>>) -> Seq<Result<PageMeta, Error>> {
    rs.map_values(|r: Result<Page, Error>| page_meta(r))
}

/// The posts of the received pages, in order.
pub open spec fn received_posts(rs: Seq<Result<Page, Error>>) -> Seq<Post>
    decreases rs.len(),
{
    if rs.len() == 0 {
        Seq::empty()
    } else {
        received_posts(rs.drop_last()) + match rs.last() {
            Ok(p) => p.posts@,
            Err(_) => Seq::empty(),
        }
    }
}

/// Appends posts whose IDs were not seen before, in order.
pub open spec fn absorb_posts(acc: Seq<Post>, seen: Set<Seq<char>>, items: Seq<Post>) -> (Seq<Post>, Set<Seq<char>>)
    decreases items.len(),
{
    if items.len() == 0 {
        (acc, seen)
    } else {
        let (a, s) = absorb_posts(acc, seen, items.drop_last());
        let p = items.last();
        if s.contains(p.id@) {
            (a, s)
        } else {
            (a.push(p), s.insert(p.id@))
        }
    }
}

/// The output fields other than the collected items and the pagination state are kept.
pub open spec fn same_frame(o: Output, out: Output) -> bool {
    &&& o.provenance == out.provenance
    &&& o.complete == out.complete
    &&& o.parent_chain_complete == out.parent_chain_complete
    &&& o.replies_complete == out.replies_complete
}

pub open spec fn ctl_of(o: Output) -> (Option<Seq<char>>, Seq<Seq<char>>, Seq<char>, nat, bool) {
    (opt_text(o.next_cursor), texts(o.warnings@), o.stop_reason@, o.pages as nat, o.request_failed)
}

pub open spec fn reported(c: Ctl) -> (Option<Seq<char>>, Seq<Seq<char>>, Seq<char>, nat, bool) {
    (c.0, c.2, c.3, c.4, c.5)
}

pub fn opt_as_str(c: &Option<String>) -> (r: Option<&str>)
    ensures
        opt_str(r) == opt_text(*c),
{
    match c {
        Some(s) => Some(s.as_str()),
        None => None,
    }
}

/// Whether a cursor is among those already seen.
pub(crate) fn seen_contains(seen: &Vec<String>, x: &String) -> (r: bool)
    ensures
        r == texts(seen@).contains(x@),
{
    let mut i: usize = 0;
    while i < seen.len()
        invariant
            i <= seen@.len(),
            forall|k: int| 0 <= k < i ==> seen@[k]@ != x@,
        decreases seen@.len() - i,
    {
        if str_eq(seen[i].as_str(), x.as_str()) {
            assert(texts(seen@)[i as int] == x@);
            return true;
        }
        i = i + 1;
    }
    assert forall|k: int| 0 <= k < texts(seen@).len() implies texts(seen@)[k] != x@ by {
        assert(seen@[k]@ != x@);
    }
    false
}

pub fn push_texts(warnings: &mut Vec<String>, extra: Vec<String>)
    ensures
        texts(final(warnings)@) == texts(old(warnings)@) + texts(extra@),
{
    let ghost w0 = texts(warnings@);
    let mut i: usize = 0;
    while i < extra.len()
        invariant
            i <= extra@.len(),
            texts(warnings@) == w0 + texts(extra@).take(i as int),
        decreases extra@.len() - i,
    {
        let ghost before = texts(warnings@);
        warnings.push(extra[i].clone());
        assert(texts(warnings@) == before.push(extra@[i as int]@));
        assert(texts(extra@).take(i + 1) == texts(extra@).take(i as int).push(extra@[i as int]@));
        i = i + 1;
    }
    assert(texts(extra@).take(extra@.len() as int) == texts(extra@));
}

pub fn push_warning(warnings: &mut Vec<String>, w: String)
    ensures
        texts(final(warnings)@) == texts(old(warnings)@).push(w@),
{
    let ghost before = texts(warnings@);
    let ghost wv = w@;
    warnings.push(w);
    assert(texts(warnings@) == before.push(wv));
}

/// `{message} (exit code {code})` for an error.
pub fn failure_message(e: &Error) -> (s: String)
    ensures
        s@ == failure_text(*e),
{
    let mut s = String::new();
    push_all(&mut s, e.message);
    push_all(&mut s, " (exit code ");
    push_decimal(&mut s, e.exit_code() as u64);
    push_all(&mut s, ")");
    s
}

fn retry_message(seconds: u64) -> (s: String)
    ensures
        s@ == retry_text(seconds),
{
    let mut s = String::new();
    push_all(&mut s, "Retry after ");
    push_decimal(&mut s, seconds);
    push_all(&mut s, " seconds");
    s
}

/// Records a failed later request in the output.
pub(crate) fn record_failure(out: &mut Output, e: &Error)
    ensures
        texts(final(out).warnings@) == texts(old(out).warnings@) + failure_warnings(*e),
        final(out).stop_reason@ == "request_failed"@,
        final(out).request_failed,
        final(out).pages == old(out).pages,
        final(out).posts == old(out).posts,
        final(out).users == old(out).users,
        final(out).lists == old(out).lists,
        final(out).next_cursor == old(out).next_cursor,
        same_frame(*final(out), *old(out)),
{
    out.request_failed = true;
    out.stop_reason = "request_failed".to_owned();
    let ghost w0 = texts(out.warnings@);
    push_warning(&mut out.warnings, failure_message(e));
    match e.retry_after_seconds {
        Some(s) => {
            push_warning(&mut out.warnings, retry_message(s));
            assert(texts(out.warnings@) == w0 + failure_warnings(*e));
        },
        None => {
            assert(texts(out.warnings@) == w0 + failure_warnings(*e));
        },
    }
}

/// A page arrived: count it and keep its warnings.
pub(crate) fn begin_page(out: &mut Output, cursor: &Option<String>, seen: &Vec<String>, warnings: Vec<String>)
    requires
        old(out).pages < u32::MAX,
    ensures
        ctl_view(*cursor, seen@, *final(out)) == received(ctl_view(*cursor, seen@, *old(out)), texts(warnings@)),
        final(out).posts == old(out).posts,
        final(out).users == old(out).users,
        final(out).lists == old(out).lists,
        final(out).next_cursor == old(out).next_cursor,
        same_frame(*final(out), *old(out)),
{
    out.pages = out.pages + 1;
    push_texts(&mut out.warnings, warnings);
}

/// The cursor check after a page (see `close`).
pub(crate) fn end_page(out: &mut Output, cursor: &mut Option<String>, seen: &mut Vec<String>, next: Option<String>) -> (k: bool)
    ensures
        (k, ctl_view(*final(cursor), final(seen)@, *final(out))) == close(
            ctl_view(*old(cursor), old(seen)@, *old(out)),
            opt_text(next),
        ),
        final(out).posts == old(out).posts,
        final(out).users == old(out).users,
        final(out).lists == old(out).lists,
        final(out).next_cursor == old(out).next_cursor,
        same_frame(*final(out), *old(out)),
{
    let ghost c = ctl_view(*cursor, seen@, *out);
    let x = match next {
        Some(x) => if x.as_str().is_empty() {
            None
        } else {
            Some(x)
        },
        None => None,
    };
    assert(opt_text(x) == nonempty(opt_text(next)));
    match x {
        None => {
            out.stop_reason = "cursor_exhausted".to_owned();
            *cursor = None;
            false
        },
        Some(x) => {
            if seen_contains(seen, &x) {
                out.stop_reason = "repeated_cursor".to_owned();
                push_warning(&mut out.warnings, "Upstream repeated a pagination cursor".to_owned());
                *cursor = Some(x);
                false
            } else {
                let ghost before = seen@;
                seen.push(x.clone());
                proof {
                    assert(texts(seen@) == texts(before).push(x@));
                    texts(before).lemma_push_to_set_commute(x@);
                }
                out.stop_reason = "page_limit".to_owned();
                *cursor = Some(x);
                true
            }
        },
    }
}

/// The result of a posts collection for the given requests and responses.
pub open spec fn posts_collected<F: FnOnce(Option<&str>) -> Result<Page, Error>>(
    fetch: F,
    out: Output,
    max_pages: u32,
    start: Option<String>,
    rs: Seq<Result<Page, Error>>,
    args: Seq<Option<Seq<char>>>,
    r: Result<Output, Error>,
) -> bool {
    &&& fetched(fetch, args, rs)
    &&& match (outcome(ctl_start(opt_text(start), out), max_pages as nat, page_metas(rs), args), r) {
        (Some(Ok(c)), Ok(o)) => {
            &&& ctl_of(o) == reported(c)
            &&& o.posts@ == absorb_posts(out.posts@, Set::empty(), received_posts(rs)).0
            &&& o.users is None
            &&& o.lists is None
            &&& same_frame(o, out)
        },
        (Some(Err(e)), Err(e2)) => e == e2,
        _ => false,
    }
}

pub proof fn lemma_absorb_posts_concat(acc: Seq<Post>, seen: Set<Seq<char>>, a: Seq<Post>, b: Seq<Post>)
    ensures
        absorb_posts(acc, seen, a + b) == absorb_posts(
            absorb_posts(acc, seen, a).0,
            absorb_posts(acc, seen, a).1,
            b,
        ),
    decreases b.len(),
{
    if b.len() == 0 {
        assert(a + b =~= a);
    } else {
        lemma_absorb_posts_concat(acc, seen, a, b.drop_last());
        assert((a + b).drop_last() =~= a + b.drop_last());
        assert((a + b).last() == b.last());
    }
}

/// Appends the posts whose IDs were not seen before, in order.
fn absorb_posts_exec(posts: &mut Vec<Post>, ids: &mut Vec<String>, items: Vec<Post>)
    ensures
        (final(posts)@, texts(final(ids)@).to_set()) == absorb_posts(old(posts)@, texts(old(ids)@).to_set(), items@),
{
    let ghost p0 = posts@;
    let ghost s0 = texts(ids@).to_set();
    let ghost all = items@;
    let n = items.len();
    let mut items = items;
    let mut k: usize = 0;
    while items.len() > 0
        invariant
            all.len() == n,
            k + items@.len() == all.len(),
            items@ == all.skip(k as int),
            (posts@, texts(ids@).to_set()) == absorb_posts(p0, s0, all.take(k as int)),
        decreases items@.len(),
    {
        let p = items.remove(0);
        proof {
            assert(all.take(k + 1).drop_last() =~= all.take(k as int));
            assert(all.take(k + 1).last() == p);
        }
        let ghost before_ids = ids@;
        if !seen_contains(ids, &p.id) {
            ids.push(p.id.clone());
            proof {
                assert(texts(ids@) == texts(before_ids).push(p.id@));
                texts(before_ids).lemma_push_to_set_commute(p.id@);
            }
            posts.push(p);
        }
        k = k + 1;
        assert(items@ =~= all.skip(k as int));
    }
    assert(all.take(k as int) =~= all);
}

/// How a finished collection ends, from the state it stopped in: the first request's
/// error, a later failure that keeps the state as it is, or the closing warning.
pub open spec fn settled(c: Ctl, first_err: Option<Error>, failed: bool) -> Result<Ctl, Error> {
    match first_err {
        Some(e) => Err(e),
        None => Ok(
            if failed {
                c
            } else {
                finish(c)
            },
        ),
    }
}

/// Collects a bounded view of posts, deduplicated by ID. Cursor exhaustion never proves
/// that all X content was exposed, so the result is never marked complete here.
pub fn collect(
    out: Output,
    max_pages: u32,
    start: Option<String>,
    fetch: impl FnMut(Option<&str>) -> Result<Page, Error>,
) -> (r: Result<Output, Error>)
    requires
        out.pages + max_pages <= u32::MAX,
        forall|a: Option<&str>| call_requires(fetch, (a,)),
    ensures
        exists|rs: Seq<Result<Page, Error>>, args: Seq<Option<Seq<char>>>|
            #[trigger] posts_collected(fetch, out, max_pages, start, rs, args, r),
{
    broadcast use vstd::function::group_function_axioms;

    let ghost out0 = out;
    let ghost f0 = fetch;
    let ghost start0 = start;
    let mut fetch = fetch;
    let mut out = out;
    out.users = None;
    out.lists = None;
    let ghost c0 = ctl_start(opt_text(start), out0);
    let mut cursor = start;
    let mut seen: Vec<String> = Vec::new();
    assert(texts(seen@).to_set() =~= Set::empty());
    match &cursor {
        Some(c) => {
            let ghost before = seen@;
            seen.push(c.clone());
            proof {
                assert(texts(seen@) == texts(before).push(c@));
                texts(before).lemma_push_to_set_commute(c@);
            }
        },
        None => {},
    }
    let mut ids: Vec<String> = Vec::new();
    assert(texts(ids@).to_set() =~= Set::empty());
    let mut i: u32 = 0;
    let mut done = false;
    let mut first_err: Option<Error> = None;
    let mut failed = false;
    let ghost mut rs: Seq<Result<Page, Error>> = Seq::empty();
    let ghost mut args: Seq<Option<Seq<char>>> = Seq::empty();
    assert(received_posts(rs) =~= Seq::empty());
    while !done && i < max_pages
        invariant
            c0 == ctl_start(opt_text(start0), out0),
            fetch == f0,
            out0.pages + max_pages <= u32::MAX,
            forall|a: Option<&str>| call_requires(fetch, (a,)),
            fetched(fetch, args, rs),
            rs.len() == i,
            i <= max_pages,
            !done ==> first_err is None && !failed,
            !done ==> trace(c0, page_metas(rs), args) == Some(ctl_view(cursor, seen@, out)),
            done ==> {
                &&& 1 <= rs.len()
                &&& trace(c0, page_metas(rs).drop_last(), args.drop_last()) is Some
                &&& stop(
                    trace(c0, page_metas(rs).drop_last(), args.drop_last())->0,
                    page_metas(rs).last(),
                    args.last(),
                ) == Some(settled(ctl_view(cursor, seen@, out), first_err, failed))
            },
            (out.posts@, texts(ids@).to_set()) == absorb_posts(out0.posts@, Set::empty(), received_posts(rs)),
            out.users is None,
            out.lists is None,
            out.next_cursor == out0.next_cursor,
            same_frame(out, out0),
            out.pages <= out0.pages + i,
        decreases max_pages - i,
    {
        let arg = opt_as_str(&cursor);
        let r = fetch(arg);
        proof {
            assert(fetch == f0);
            assert(fetched_one(fetch, opt_text(cursor), r));
            let rs1 = rs.push(r);
            let args1 = args.push(opt_text(cursor));
            assert(page_metas(rs1).drop_last() =~= page_metas(rs));
            assert(args1.drop_last() =~= args);
            assert(rs1.drop_last() =~= rs);
            assert forall|j: int| 0 <= j < rs1.len() implies #[trigger] fetched_one(fetch, args1[j], rs1[j]) by {
                if j < rs.len() {
                    assert(fetched_one(fetch, args[j], rs[j]));
                }
            }
            rs = rs1;
            args = args1;
        }
        match r {
            Err(e) => {
                if out.pages > 0 {
                    record_failure(&mut out, &e);
                    failed = true;
                } else {
                    first_err = Some(e);
                }
                done = true;
            },
            Ok(page) => {
                let Page { posts, next_cursor, warnings } = page;
                begin_page(&mut out, &cursor, &seen, warnings);
                absorb_posts_exec(&mut out.posts, &mut ids, posts);
                proof {
                    lemma_absorb_posts_concat(out0.posts@, Set::empty(), received_posts(rs.drop_last()), posts@);
                }
                let k = end_page(&mut out, &mut cursor, &mut seen, next_cursor);
                if !k {
                    done = true;
                }
            },
        }
        i = i + 1;
    }
    match first_err {
        Some(e) => {
            let res: Result<Output, Error> = Err(e);
            assert(posts_collected(fetch, out0, max_pages, start0, rs, args, res));
            res
        },
        None => {
            if !failed {
                push_warning(
                    &mut out.warnings,
                    "This is an upstream-visible collection, not a complete archive or reply tree".to_owned(),
                );
            }
            out.next_cursor = cursor;
            let res: Result<Output, Error> = Ok(out);
            assert(posts_collected(fetch, out0, max_pages, start0, rs, args, res));
            res
        },
    }
}


/// Each continuing page is counted once.
pub proof fn lemma_trace_pages(c0: Ctl, metas: Seq<Result<PageMeta, Error>>, args: Seq<Option<Seq<char>>>)
    requires
        trace(c0, metas, args) is Some,
    ensures
        (trace(c0, metas, args)->0).4 == c0.4 + metas.len(),
        (trace(c0, metas, args)->0).5 == c0.5,
    decreases metas.len(),
{
    if metas.len() > 0 {
        lemma_trace_pages(c0, metas.drop_last(), args.drop_last());
    }
}

/// Pagination is bounded: a collection makes at most `max_pages` requests, and the
/// pages it reports are those it was given plus those it read.
pub proof fn lemma_pagination_bounded(c0: Ctl, max_pages: nat, metas: Seq<Result<PageMeta, Error>>, args: Seq<Option<Seq<char>>>)
    requires
        outcome(c0, max_pages, metas, args) is Some,
    ensures
        metas.len() <= max_pages,
        (outcome(c0, max_pages, metas, args) matches Some(Ok(c)) ==> c0.4 <= c.4 <= c0.4 + metas.len()),
{
    let n = metas.len();
    if n == max_pages && trace(c0, metas, args) is Some {
        lemma_trace_pages(c0, metas, args);
    } else {
        lemma_trace_pages(c0, metas.drop_last(), args.drop_last());
    }
}

/// Failures: when the first request of a fresh collection fails, the failure is the
/// result; when a later request fails, the pages already read are kept, the result is
/// marked as a failed request, and the failed request's cursor stays resumable.
pub proof fn lemma_failure_semantics(c0: Ctl, max_pages: nat, metas: Seq<Result<PageMeta, Error>>, args: Seq<Option<Seq<char>>>)
    requires
        outcome(c0, max_pages, metas, args) is Some,
        metas.len() > 0,
        metas.last() is Err,
    ensures
        c0.4 == 0 && metas.len() == 1 ==> outcome(c0, max_pages, metas, args) == Some(
            Err::<Ctl, Error>(metas.last()->Err_0),
        ),
        metas.len() > 1 ==> (outcome(c0, max_pages, metas, args) matches Some(Ok(c)) && c.5 && c.3
            == "request_failed"@ && c.0 == args.last()),
{
    lemma_trace_pages(c0, metas.drop_last(), args.drop_last());
}

/// A collection never marks its result complete: upstream cursor exhaustion does not
/// prove that every item was exposed.
pub proof fn lemma_collection_never_complete<F: FnOnce(Option<&str>) -> Result<Page, Error>>(
    fetch: F,
    out: Output,
    max_pages: u32,
    start: Option<String>,
    rs: Seq<Result<Page, Error>>,
    args: Seq<Option<Seq<char>>>,
    o: Output,
)
    requires
        posts_collected(fetch, out, max_pages, start, rs, args, Ok(o)),
        !out.complete,
    ensures
        !o.complete,
        o.warnings@.len() > 0,
{
    let c0 = ctl_start(opt_text(start), out);
    let metas = page_metas(rs);
    let n = metas.len();
    assert(texts(o.warnings@).len() == o.warnings@.len());
    if n == max_pages && trace(c0, metas, args) is Some {
    } else {
        let c = trace(c0, metas.drop_last(), args.drop_last())->0;
        match metas.last() {
            Err(e) => {
                assert(failure_warnings(e).len() > 0);
            },
            Ok((next, ws)) => {
                let d = close(received(c, ws), next).1;
                assert(finish(d).2.len() > 0);
            },
        }
    }
}

/// Collected posts taken from pages never repeat an ID: within what one collection
/// adds, IDs are distinct and none was already seen.
pub proof fn lemma_absorbed_posts_distinct(acc: Seq<Post>, seen: Set<Seq<char>>, items: Seq<Post>)
    ensures
        ({
            let (a, s) = absorb_posts(acc, seen, items);
            &&& a.len() >= acc.len()
            &&& a.subrange(0, acc.len() as int) == acc
            &&& forall|i: int| acc.len() <= i < a.len() ==> !seen.contains(#[trigger] a[i].id@) && s.contains(a[i].id@)
            &&& forall|i: int, j: int| acc.len() <= i < j < a.len() ==> a[i].id@ != a[j].id@
            &&& seen.subset_of(s)
        }),
    decreases items.len(),
{
    if items.len() > 0 {
        lemma_absorbed_posts_distinct(acc, seen, items.drop_last());
        let (a, s) = absorb_posts(acc, seen, items.drop_last());
        let p = items.last();
        if !s.contains(p.id@) {
            let a2 = a.push(p);
            assert(a2.subrange(0, acc.len() as int) =~= a.subrange(0, acc.len() as int));
            assert forall|i: int, j: int| acc.len() <= i < j < a2.len() implies a2[i].id@ != a2[j].id@ by {
                if j == a2.len() - 1 {
                    assert(s.contains(a[i].id@));
                }
            }
        }
    }
}
} // verus!
