//! The decisions of a retrieval: when the cache may be read or written, which failures
//! start a cooldown, whether an explicit handle still names the verified account, and
//! how a reply collection joins a parent chain.
use vstd::prelude::*;
use crate::cache::{
    cooldown_checked, cooldown_recorded, cooling_error, deadline_in, deadline_keys_distinct, lemma_cooldown_is_honored,
    saturating_add,
};
use crate::cli::Access;
use crate::error::{Error, Kind};
use crate::model::{Identity, Output, Post};
use crate::pagination::{failure_message, failure_text, push_texts, push_warning, texts};
use crate::text::{chars_of, eq_ignore_case, push_all, str_eq, str_eq_ic};

verus! {

/// A cached result may be read unless the cache is bypassed, a refresh is asked for,
/// or the time-to-live is zero.
pub open spec fn cache_readable_spec(a: Access) -> bool {
    !a.no_cache && !a.refresh && a.cache_ttl != 0
}

pub fn cache_readable(access: &Access) -> (r: bool)
    ensures
        r == cache_readable_spec(*access),
{
    !access.no_cache && !access.refresh && access.cache_ttl != 0
}

/// The stop reasons of a failed or truncated request.
pub open spec fn failed_stop(s: Seq<char>) -> bool {
    s == "request_failed"@ || s == "parent_unavailable"@ || s == "replies_failed"@
}

/// A result may be cached unless caching is bypassed or a request failed: a failed or
/// truncated request is never cached as a successful fresh collection.
pub open spec fn cacheable_spec(a: Access, o: Output) -> bool {
    !a.no_cache && !o.request_failed && !failed_stop(o.stop_reason@)
}

pub fn cacheable(access: &Access, out: &Output) -> (r: bool)
    ensures
        r == cacheable_spec(*access, *out),
{
    let s = out.stop_reason.as_str();
    !access.no_cache && !out.request_failed && !str_eq(s, "request_failed") && !str_eq(s, "parent_unavailable")
        && !str_eq(s, "replies_failed")
}

/// The cooldown a failed request starts: a rate limit cools its backend/account down
/// for the advised time, sixty seconds when there is no advice; nothing else does.
pub open spec fn cooldown_for_spec(e: Error) -> Option<u64> {
    if e.kind == Kind::RateLimit {
        Some(
            match e.retry_after_seconds {
                Some(s) => s,
                None => 60,
            },
        )
    } else {
        None
    }
}

pub fn cooldown_for(e: &Error) -> (r: Option<u64>)
    ensures
        r == cooldown_for_spec(*e),
{
    if e.kind == Kind::RateLimit {
        match e.retry_after_seconds {
            Some(s) => Some(s),
            None => Some(60),
        }
    } else {
        None
    }
}

/// A rate-limited request stops the requests that follow it: once the cooldown it
/// starts is recorded at `now`, every check of that scope at a time `t` before the advised
/// seconds have passed fails with a rate-limit error giving the time that remains.
pub proof fn lemma_rate_limit_stops_following_request(
    s: Seq<(Seq<char>, u64)>,
    k: Seq<char>,
    e: Error,
    now: u64,
    t: u64,
)
    requires
        deadline_keys_distinct(s),
        e.kind == Kind::RateLimit,
        cooldown_recorded(s, k, cooldown_for_spec(e)->0, now) is Some,
        now <= t < saturating_add(now, cooldown_for_spec(e)->0),
    ensures
        ({
            let d = deadline_in(cooldown_recorded(s, k, cooldown_for_spec(e)->0, now)->0, k);
            &&& d > t
            &&& cooldown_checked(cooldown_recorded(s, k, cooldown_for_spec(e)->0, now)->0, k, t) == Err::<
                (),
                Error,
            >(cooling_error((d - t) as u64))
        }),
{
    lemma_cooldown_is_honored(s, k, cooldown_for_spec(e)->0, now);
}

pub open spec fn handle_changed_error() -> Error {
    Error {
        kind: Kind::InvalidInput,
        message: "Account handle changed; use its alias/connection or explicitly reconnect",
        retry_after_seconds: None,
    }
}

/// An explicit `@handle` selector must still name the verified account, ignoring case;
/// aliases and connection IDs are not handles.
pub open spec fn handle_still_matches(account: Option<Seq<char>>, actual: Seq<char>) -> bool {
    match account {
        Some(a) => !(a.len() >= 1 && a[0] == '@') || eq_ignore_case(a.skip(1), actual),
        None => true,
    }
}

pub fn check_handle(account: Option<&str>, actual: &Identity) -> (r: Result<(), Error>)
    ensures
        r is Ok <==> handle_still_matches(crate::pagination::opt_str(account), actual.handle@),
        r matches Err(e) ==> e == handle_changed_error(),
{
    match account {
        None => Ok(()),
        Some(a) => {
            let v = chars_of(a);
            if v.len() >= 1 && v[0] == '@' {
                let rest = crate::text::string_of_range(&v, 1, v.len());
                assert(rest@ == a@.skip(1));
                if str_eq_ic(rest.as_str(), actual.handle.as_str()) {
                    Ok(())
                } else {
                    Err(
                        Error {
                            kind: Kind::InvalidInput,
                            message: "Account handle changed; use its alias/connection or explicitly reconnect",
                            retry_after_seconds: None,
                        },
                    )
                }
            } else {
                Ok(())
            }
        },
    }
}

pub open spec fn post_ids(posts: Seq<Post>) -> Seq<Seq<char>> {
    posts.map_values(|p: Post| p.id@)
}

/// The replies whose IDs are not already in the chain, in order.
pub open spec fn new_replies(known: Seq<Seq<char>>, replies: Seq<Post>) -> Seq<Post>
    decreases replies.len(),
{
    if replies.len() == 0 {
        Seq::empty()
    } else {
        new_replies(known, replies.drop_last()) + if known.contains(replies.last().id@) {
            Seq::<Post>::empty()
        } else {
            seq![replies.last()]
        }
    }
}

/// `Reply retrieval failed: {message} (exit code {code})`.
pub open spec fn reply_failure_text(e: Error) -> Seq<char> {
    "Reply retrieval failed: "@ + failure_text(e)
}

/// The closing note of a conversation view.
pub open spec fn conversation_note(parent_complete: bool) -> Seq<char> {
    "Parent chain complete: "@ + (if parent_complete { "true"@ } else { "false"@ })
        + ". Replies are an incomplete upstream conversation view, which may include ancestors or other branches."@
}

/// A parent chain joined with a reply collection. Replies add the posts not already in
/// the chain, their pages, cursor, stop reason and warnings; a failed reply collection
/// keeps the chain and says so. The result is never complete, nor are its replies.
pub open spec fn joined(chain: Output, replies: Result<Output, Error>, o: Output) -> bool {
    &&& o.provenance == chain.provenance
    &&& o.users == chain.users
    &&& o.lists == chain.lists
    &&& o.parent_chain_complete == chain.parent_chain_complete
    &&& !o.complete
    &&& o.replies_complete == Some(false)
    &&& match replies {
        Ok(r) => {
            &&& o.posts@ == chain.posts@ + new_replies(post_ids(chain.posts@), r.posts@)
            &&& o.request_failed == (chain.request_failed || r.request_failed)
            &&& o.pages == vstd::wrapping::u32_specs::wrapping_add(chain.pages, r.pages)
            &&& o.next_cursor == r.next_cursor
            &&& o.stop_reason == r.stop_reason
            &&& texts(o.warnings@) == (texts(chain.warnings@) + texts(r.warnings@)).push(conversation_note(chain.complete))
        },
        Err(e) => {
            &&& o.posts == chain.posts
            &&& o.request_failed
            &&& o.pages == chain.pages
            &&& o.next_cursor == chain.next_cursor
            &&& o.stop_reason@ == "replies_failed"@
            &&& texts(o.warnings@) == texts(chain.warnings@).push(reply_failure_text(e)).push(conversation_note(chain.complete))
        },
    }
}

fn id_known(ids: &Vec<String>, id: &String) -> (r: bool)
    ensures
        r == texts(ids@).contains(id@),
{
    let mut i: usize = 0;
    while i < ids.len()
        invariant
            i <= ids@.len(),
            forall|k: int| 0 <= k < i ==> ids@[k]@ != id@,
        decreases ids@.len() - i,
    {
        if str_eq(ids[i].as_str(), id.as_str()) {
            assert(texts(ids@)[i as int] == id@);
            return true;
        }
        i = i + 1;
    }
    assert forall|k: int| 0 <= k < texts(ids@).len() implies texts(ids@)[k] != id@ by {
        assert(ids@[k]@ != id@);
    }
    false
}

/// Two outputs that differ at most in their posts.
pub open spec fn same_but_posts(a: Output, b: Output) -> bool {
    &&& a.provenance == b.provenance
    &&& a.users == b.users
    &&& a.lists == b.lists
    &&& a.complete == b.complete
    &&& a.parent_chain_complete == b.parent_chain_complete
    &&& a.replies_complete == b.replies_complete
    &&& a.request_failed == b.request_failed
    &&& a.stop_reason == b.stop_reason
    &&& a.next_cursor == b.next_cursor
    &&& a.pages == b.pages
    &&& a.warnings == b.warnings
}

/// Joins a reply collection to a parent chain (see `joined`).
pub fn join_replies(chain: Output, replies: Result<Output, Error>) -> (o: Output)
    ensures
        joined(chain, replies, o),
{
    let ghost c0 = chain;
    let mut chain = chain;
    let parent_complete = chain.complete;
    match replies {
        Ok(r) => {
            let mut ids: Vec<String> = Vec::new();
            let mut i: usize = 0;
            while i < chain.posts.len()
                invariant
                    i <= chain.posts@.len(),
                    chain == c0,
                    texts(ids@) == post_ids(chain.posts@).take(i as int),
                decreases chain.posts@.len() - i,
            {
                let ghost before = texts(ids@);
                ids.push(chain.posts[i].id.clone());
                assert(texts(ids@) =~= before.push(chain.posts@[i as int].id@));
                assert(post_ids(chain.posts@).take(i + 1) =~= post_ids(chain.posts@).take(i as int).push(
                    chain.posts@[i as int].id@,
                ));
                i = i + 1;
            }
            assert(post_ids(chain.posts@).take(i as int) =~= post_ids(chain.posts@));
            let ghost known = texts(ids@);
            let ghost p0 = chain.posts@;
            let Output { posts: reply_posts, request_failed, next_cursor, stop_reason, pages, warnings, .. } = r;
            let ghost all = reply_posts@;
            let n = reply_posts.len();
            let mut rest = reply_posts;
            let mut k: usize = 0;
            while rest.len() > 0
                invariant
                    all.len() == n,
                    k + rest@.len() == n,
                    rest@ == all.skip(k as int),
                    known == texts(ids@),
                    p0 == c0.posts@,
                    same_but_posts(chain, c0),
                    chain.posts@ == p0 + new_replies(known, all.take(k as int)),
                decreases rest@.len(),
            {
                let p = rest.remove(0);
                assert(all.take(k + 1).drop_last() =~= all.take(k as int));
                assert(all.take(k + 1).last() == p);
                if !id_known(&ids, &p.id) {
                    let ghost before = chain.posts@;
                    chain.posts.push(p);
                    assert(chain.posts@ =~= p0 + new_replies(known, all.take(k + 1)));
                } else {
                    assert(new_replies(known, all.take(k + 1)) =~= new_replies(known, all.take(k as int)));
                }
                k = k + 1;
                assert(rest@ =~= all.skip(k as int));
            }
            assert(all.take(k as int) =~= all);
            chain.request_failed = chain.request_failed || request_failed;
            chain.pages = chain.pages.wrapping_add(pages);
            chain.next_cursor = next_cursor;
            chain.stop_reason = stop_reason;
            push_texts(&mut chain.warnings, warnings);
        },
        Err(e) => {
            chain.request_failed = true;
            chain.stop_reason = "replies_failed".to_owned();
            let mut w = String::new();
            push_all(&mut w, "Reply retrieval failed: ");
            let f = failure_message(&e);
            push_all(&mut w, f.as_str());
            push_warning(&mut chain.warnings, w);
        },
    }
    chain.complete = false;
    chain.replies_complete = Some(false);
    let mut note = String::new();
    push_all(&mut note, "Parent chain complete: ");
    if parent_complete {
        push_all(&mut note, "true");
    } else {
        push_all(&mut note, "false");
    }
    push_all(
        &mut note,
        ". Replies are an incomplete upstream conversation view, which may include ancestors or other branches.",
    );
    push_warning(&mut chain.warnings, note);
    chain
}

} // verus!
