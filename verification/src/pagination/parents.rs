//! Parent-chain traversal: parents are fetched one by one with the same backend and
//! identity, and unknown parent metadata stops the walk safely.
use vstd::prelude::*;
use super::{failure_text, push_texts, push_warning, seen_contains, texts};
use crate::error::{Error, protocol, protocol_error};
use crate::model::{Output, Post};
use crate::text::{push_all, str_eq};

verus! {

/// The walk's state: the posts from the requested one up to the latest parent, the
/// IDs already visited, pages, warnings, stop reason, completeness and failure.
pub type Walk = (Seq<Post>, Set<Seq<char>>, u32, Seq<Seq<char>>, Seq<char>, bool, bool);

/// What the walk does from a state.
pub enum Next {
    /// There is no post to continue from.
    Missing,
    /// The walk ends in this state.
    Stop(Walk),
    /// The parent with this ID is read next.
    Read(Seq<char>),
}

pub open spec fn omitted_warning() -> Seq<char> {
    "Provider omitted parent metadata"@
}

pub open spec fn partial_chain_warning() -> Seq<char> {
    "Parent chain is partial"@
}

/// `Parent retrieval stopped: {message} (exit code {code})`.
pub open spec fn stopped_text(e: Error) -> Seq<char> {
    "Parent retrieval stopped: "@ + failure_text(e)
}

pub open spec fn post_ids(posts: Seq<Post>) -> Seq<Seq<char>> {
    posts.map_values(|p: Post| p.id@)
}

pub open spec fn walk_start(out: Output) -> Walk {
    (out.posts@, post_ids(out.posts@).to_set(), out.pages, texts(out.warnings@), out.stop_reason@, false, out.request_failed)
}

/// The decision at a depth: an unknown parent, a root, the depth bound or a cycle ends
/// the walk; otherwise the parent is read.
pub open spec fn next_parent(s: Walk, depth: nat, max: nat) -> Next {
    if s.0.len() == 0 {
        Next::Missing
    } else {
        let p = s.0.last();
        if !p.parent_known {
            Next::Stop((s.0, s.1, s.2, s.3.push(omitted_warning()), "parent_unknown"@, s.5, s.6))
        } else {
            match p.parent_id {
                None => Next::Stop((s.0, s.1, s.2, s.3, "root_reached"@, true, s.6)),
                Some(id) => if depth == max {
                    Next::Stop((s.0, s.1, s.2, s.3, "parent_limit"@, s.5, s.6))
                } else if s.1.contains(id@) {
                    Next::Stop((s.0, s.1, s.2, s.3, "parent_cycle"@, s.5, s.6))
                } else {
                    Next::Read(id@)
                },
            }
        }
    }
}

/// The first post with this ID.
pub open spec fn find_post(posts: Seq<Post>, id: Seq<char>) -> Option<Post>
    decreases posts.len(),
{
    if posts.len() == 0 {
        None
    } else if posts[0].id@ == id {
        Some(posts[0])
    } else {
        find_post(posts.subrange(1, posts.len() as int), id)
    }
}

/// A read that returned the requested parent: it joins the chain.
pub open spec fn parent_found(s: Walk, id: Seq<char>, r: Result<Output, Error>) -> Option<Walk> {
    match r {
        Ok(o) => match find_post(o.posts@, id) {
            Some(p) => Some(
                (
                    s.0.push(p),
                    s.1.insert(id),
                    vstd::wrapping::u32_specs::wrapping_add(s.2, o.pages),
                    s.3 + texts(o.warnings@),
                    s.4,
                    s.5,
                    s.6,
                ),
            ),
            None => None,
        },
        Err(_) => None,
    }
}

/// A read that ends the walk: a failed request keeps the chain so far; a response
/// without the requested post is a protocol error.
pub open spec fn parent_end(s: Walk, id: Seq<char>, r: Result<Output, Error>) -> Option<Result<Walk, Error>> {
    match r {
        Err(e) => Some(Ok((s.0, s.1.insert(id), s.2, s.3.push(stopped_text(e)), "parent_unavailable"@, s.5, true))),
        Ok(o) => match find_post(o.posts@, id) {
            Some(_) => None,
            None => Some(Err(protocol_error())),
        },
    }
}

/// The state after a run of reads that each returned the requested parent.
pub open spec fn walk_trace(s0: Walk, max: nat, rs: Seq<Result<Output, Error>>, args: Seq<Seq<char>>) -> Option<Walk>
    decreases rs.len(),
{
    if rs.len() == 0 {
        if args.len() == 0 {
            Some(s0)
        } else {
            None
        }
    } else if args.len() != rs.len() {
        None
    } else {
        match walk_trace(s0, max, rs.drop_last(), args.drop_last()) {
            Some(s) => if next_parent(s, (rs.len() - 1) as nat, max) == Next::Read(args.last()) {
                parent_found(s, args.last(), rs.last())
            } else {
                None
            },
            None => None,
        }
    }
}

/// How the walk ends for the given reads and responses; `None` when the reads could
/// not have happened so.
pub open spec fn walk_outcome(s0: Walk, max: nat, rs: Seq<Result<Output, Error>>, args: Seq<Seq<char>>) -> Option<Result<Walk, Error>> {
    let k = rs.len();
    if walk_trace(s0, max, rs, args) is Some {
        match next_parent(walk_trace(s0, max, rs, args)->0, k, max) {
            Next::Missing => Some(Err(protocol_error())),
            Next::Stop(s) => Some(Ok(s)),
            Next::Read(_) => None,
        }
    } else if k >= 1 && args.len() == k && walk_trace(s0, max, rs.drop_last(), args.drop_last()) is Some
        && next_parent(walk_trace(s0, max, rs.drop_last(), args.drop_last())->0, (k - 1) as nat, max)
        == Next::Read(args.last()) {
        parent_end(walk_trace(s0, max, rs.drop_last(), args.drop_last())->0, args.last(), rs.last())
    } else {
        None
    }
}

/// `read` may have answered a request for the post with ID `id` with `r`.
pub open spec fn read_one<F: FnOnce(&str) -> Result<Output, Error>>(read: F, id: Seq<char>, r: Result<Output, Error>) -> bool {
    exists|x: &str| x@ == id && call_ensures(read, (x,), r)
}

pub open spec fn read_all<F: FnOnce(&str) -> Result<Output, Error>>(read: F, args: Seq<Seq<char>>, rs: Seq<Result<Output, Error>>) -> bool {
    &&& rs.len() == args.len()
    &&& forall|i: int| 0 <= i < rs.len() ==> #[trigger] read_one(read, args[i], rs[i])
}

/// The output of a finished walk: the chain from the root side to the requested post,
/// complete only when a known root was reached.
pub open spec fn walked_output(o: Output, out: Output, s: Walk) -> bool {
    &&& o.posts@ == s.0.reverse()
    &&& o.pages == s.2
    &&& texts(o.warnings@) == if s.5 { s.3 } else { s.3.push(partial_chain_warning()) }
    &&& o.stop_reason@ == s.4
    &&& o.complete == s.5
    &&& o.request_failed == s.6
    &&& o.parent_chain_complete == Some(s.5)
    &&& o.provenance == out.provenance
    &&& o.replies_complete == out.replies_complete
    &&& o.users == out.users
    &&& o.lists == out.lists
    &&& o.next_cursor == out.next_cursor
}

pub open spec fn parents_walked<F: FnOnce(&str) -> Result<Output, Error>>(
    read: F,
    out: Output,
    max_parents: u32,
    rs: Seq<Result<Output, Error>>,
    args: Seq<Seq<char>>,
    r: Result<Output, Error>,
) -> bool {
    &&& read_all(read, args, rs)
    &&& match (walk_outcome(walk_start(out), max_parents as nat, rs, args), r) {
        (Some(Ok(s)), Ok(o)) => walked_output(o, out, s),
        (Some(Err(e)), Err(e2)) => e == e2,
        _ => false,
    }
}


/// The walk state held by `parents`.
pub open spec fn walk_view(out: Output, seen: Seq<String>) -> Walk {
    (out.posts@, texts(seen).to_set(), out.pages, texts(out.warnings@), out.stop_reason@, out.complete, out.request_failed)
}

/// The first post with this ID in a response.
fn take_post(posts: Vec<Post>, id: &String) -> (r: Option<Post>)
    ensures
        r == find_post(posts@, id@),
{
    let ghost all = posts@;
    let mut posts = posts;
    let mut found: Option<Post> = None;
    while found.is_none() && posts.len() > 0
        invariant
            found is None ==> find_post(posts@, id@) == find_post(all, id@),
            found is Some ==> found == find_post(all, id@),
        decreases posts@.len(),
    {
        let ghost before = posts@;
        let p = posts.remove(0);
        assert(posts@ =~= before.subrange(1, before.len() as int));
        assert(before[0] == p);
        if str_eq(p.id.as_str(), id.as_str()) {
            assert(find_post(before, id@) == Some(p));
            found = Some(p);
        } else {
            assert(find_post(before, id@) == find_post(posts@, id@));
        }
    }
    found
}

/// The posts in reverse order.
fn reversed(v: Vec<Post>) -> (r: Vec<Post>)
    ensures
        r@ == v@.reverse(),
{
    let ghost all = v@;
    let mut v = v;
    let mut r: Vec<Post> = Vec::new();
    while v.len() > 0
        invariant
            v@ == all.take(v@.len() as int),
            r@.len() + v@.len() == all.len(),
            forall|i: int| 0 <= i < r@.len() ==> r@[i] == all[all.len() - 1 - i],
        decreases v@.len(),
    {
        let ghost before = v@;
        match v.pop() {
            Some(p) => {
                r.push(p);
            },
            None => {},
        }
        assert(v@ =~= all.take(v@.len() as int));
    }
    assert(r@ =~= all.reverse());
    r
}

fn stopped_message(e: &Error) -> (s: String)
    ensures
        s@ == stopped_text(*e),
{
    let mut s = String::new();
    push_all(&mut s, "Parent retrieval stopped: ");
    let f = super::failure_message(e);
    push_all(&mut s, f.as_str());
    s
}

/// Walks parents one by one, up to `max_parents` reads, using the same `read` for each.
/// The result runs from the oldest retrieved ancestor to the requested post; it is
/// complete only when a known root was reached, and otherwise says the chain is partial.
pub fn parents(out: Output, max_parents: u32, read: impl FnMut(&str) -> Result<Output, Error>) -> (r: Result<Output, Error>)
    requires
        forall|x: &str| call_requires(read, (x,)),
    ensures
        exists|rs: Seq<Result<Output, Error>>, args: Seq<Seq<char>>|
            #[trigger] parents_walked(read, out, max_parents, rs, args, r),
{
    broadcast use vstd::function::group_function_axioms;

    let ghost out0 = out;
    let ghost f0 = read;
    let mut read = read;
    let mut out = out;
    out.complete = false;
    let mut seen: Vec<String> = Vec::new();
    let mut j: usize = 0;
    while j < out.posts.len()
        invariant
            j <= out.posts@.len(),
            texts(seen@) == post_ids(out.posts@).take(j as int),
        decreases out.posts@.len() - j,
    {
        let ghost before = seen@;
        seen.push(out.posts[j].id.clone());
        assert(texts(seen@) =~= texts(before).push(out.posts@[j as int].id@));
        assert(post_ids(out.posts@).take(j + 1) =~= post_ids(out.posts@).take(j as int).push(out.posts@[j as int].id@));
        j = j + 1;
    }
    assert(post_ids(out.posts@).take(j as int) =~= post_ids(out.posts@));
    let ghost s0 = walk_start(out0);
    assert(walk_view(out, seen@) == s0);
    let mut depth: u32 = 0;
    let mut done = false;
    let mut missing = false;
    let ghost mut rs: Seq<Result<Output, Error>> = Seq::empty();
    let ghost mut args: Seq<Seq<char>> = Seq::empty();
    while !done
        invariant
            s0 == walk_start(out0),
            read == f0,
            forall|x: &str| call_requires(read, (x,)),
            read_all(read, args, rs),
            !done ==> rs.len() == depth,
            depth <= max_parents,
            !done ==> !missing,
            !done ==> walk_trace(s0, max_parents as nat, rs, args) == Some(walk_view(out, seen@)),
            done ==> walk_outcome(s0, max_parents as nat, rs, args) == Some(
                if missing {
                    Err(protocol_error())
                } else {
                    Ok::<Walk, Error>(walk_view(out, seen@))
                },
            ),
            out.provenance == out0.provenance,
            out.replies_complete == out0.replies_complete,
            out.users == out0.users,
            out.lists == out0.lists,
            out.next_cursor == out0.next_cursor,
        decreases (max_parents - depth) * 2 + if done { 0int } else { 1int },
    {
        let ghost t = walk_view(out, seen@);
        let n = out.posts.len();
        if n == 0 {
            missing = true;
            done = true;
        } else {
            let known = out.posts[n - 1].parent_known;
            let parent_id = crate::text::copy_opt(&out.posts[n - 1].parent_id);
            if !known {
                out.stop_reason = "parent_unknown".to_owned();
                push_warning(&mut out.warnings, "Provider omitted parent metadata".to_owned());
                done = true;
            } else {
                match parent_id {
                    None => {
                        out.complete = true;
                        out.stop_reason = "root_reached".to_owned();
                        done = true;
                    },
                    Some(id) => {
                        if depth == max_parents {
                            out.stop_reason = "parent_limit".to_owned();
                            done = true;
                        } else if seen_contains(&seen, &id) {
                            out.stop_reason = "parent_cycle".to_owned();
                            done = true;
                        } else {
                            let ghost seen_before = seen@;
                            seen.push(id.clone());
                            proof {
                                assert(texts(seen@) == texts(seen_before).push(id@));
                                texts(seen_before).lemma_push_to_set_commute(id@);
                            }
                            let r = read(id.as_str());
                            proof {
                                assert(read == f0);
                                assert(read_one(read, id@, r));
                                let rs1 = rs.push(r);
                                let args1 = args.push(id@);
                                assert(rs1.drop_last() =~= rs);
                                assert(args1.drop_last() =~= args);
                                assert forall|i: int| 0 <= i < rs1.len() implies #[trigger] read_one(read, args1[i], rs1[i]) by {
                                    if i < rs.len() {
                                        assert(read_one(read, args[i], rs[i]));
                                    }
                                }
                                rs = rs1;
                                args = args1;
                            }
                            match r {
                                Ok(parent) => {
                                    let Output { posts, pages, warnings, .. } = parent;
                                    match take_post(posts, &id) {
                                        Some(post) => {
                                            out.pages = out.pages.wrapping_add(pages);
                                            push_texts(&mut out.warnings, warnings);
                                            out.posts.push(post);
                                            depth = depth + 1;
                                        },
                                        None => {
                                            missing = true;
                                            done = true;
                                        },
                                    }
                                },
                                Err(e) => {
                                    out.request_failed = true;
                                    out.stop_reason = "parent_unavailable".to_owned();
                                    push_warning(&mut out.warnings, stopped_message(&e));
                                    done = true;
                                },
                            }
                        }
                    },
                }
            }
        }
    }
    if missing {
        let res: Result<Output, Error> = Err(protocol());
        assert(parents_walked(read, out0, max_parents, rs, args, res));
        return res;
    }
    out.parent_chain_complete = Some(out.complete);
    let mut posts: Vec<Post> = Vec::new();
    core::mem::swap(&mut posts, &mut out.posts);
    out.posts = reversed(posts);
    if !out.complete {
        push_warning(&mut out.warnings, "Parent chain is partial".to_owned());
    }
    let res: Result<Output, Error> = Ok(out);
    assert(parents_walked(read, out0, max_parents, rs, args, res));
    res
}

} // verus!
