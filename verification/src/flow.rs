//! The order of a command's work, as steps from state and event to next state and
//! action. The caller performs each action (file, credential and network work) and
//! hands back what came of it; the steps decide what happens next.
use vstd::prelude::*;
use crate::cli::{Access, Backend, Cli, Command};
use crate::error::{Error, Kind};
use crate::model::Output;
use crate::retrieval::{cache_readable, failed_stop};
use crate::task::{Task, accepts_cached_spec};
use crate::text::str_eq;

verus! {

/// What a command line asks for, before any local state is touched.
#[derive(Debug, Clone, Copy, PartialEq, Eq, Structural)]
pub enum Dispatch {
    Update,
    Doctor,
    Purge,
    Auth,
    Retrieve,
}

pub open spec fn update_data_dir_error() -> Error {
    Error { kind: Kind::InvalidInput, message: "update does not use --data-dir; remove the flag", retry_after_seconds: None }
}

/// Self-update never uses local state, so it refuses `--data-dir`; every other command
/// goes to its handler.
pub open spec fn dispatch_spec(cli: Cli) -> Result<Dispatch, Error> {
    match cli.command {
        Command::Update { .. } => if cli.data_dir is Some {
            Err(update_data_dir_error())
        } else {
            Ok(Dispatch::Update)
        },
        Command::Doctor => Ok(Dispatch::Doctor),
        Command::Cache { .. } => Ok(Dispatch::Purge),
        Command::Auth { .. } => Ok(Dispatch::Auth),
        _ => Ok(Dispatch::Retrieve),
    }
}

pub fn dispatch(cli: &Cli) -> (r: Result<Dispatch, Error>)
    ensures
        r == dispatch_spec(*cli),
{
    match &cli.command {
        Command::Update { .. } => if cli.data_dir.is_some() {
            Err(Error { kind: Kind::InvalidInput, message: "update does not use --data-dir; remove the flag", retry_after_seconds: None })
        } else {
            Ok(Dispatch::Update)
        },
        Command::Doctor => Ok(Dispatch::Doctor),
        Command::Cache { .. } => Ok(Dispatch::Purge),
        Command::Auth { .. } => Ok(Dispatch::Auth),
        _ => Ok(Dispatch::Retrieve),
    }
}

/// Where a retrieval stands.
#[derive(Debug, Clone, Copy, PartialEq, Eq, Structural)]
pub enum Stage {
    Start,
    Resolving,
    CheckingCooldown,
    Verifying,
    ReadingCache,
    Fetching,
    Saving,
    Done,
}

/// A retrieval in progress: its task, its backend, what its access options allow, the
/// resolved account (authenticated retrievals) and a fetched result awaiting its save.
#[derive(Debug)]
pub struct RetrievalState {
    pub stage: Stage,
    pub task: Task,
    pub graphql: bool,
    pub readable: bool,
    pub no_cache: bool,
    pub account: Option<String>,
    pub fetched: Option<Output>,
}

/// What came of the last action.
#[derive(Debug)]
pub enum Event {
    Begin,
    Resolved(Result<String, Error>),
    CooldownChecked(Result<(), Error>),
    Verified(Result<(), Error>),
    CacheRead(Result<Option<Output>, Error>),
    Fetched(Result<Output, Error>),
    Saved(Result<(), Error>),
}

/// What the caller does next.
#[derive(Debug)]
pub enum Action {
    /// Resolve the selected connection and report its stable account ID.
    ResolveConnection,
    /// Check the cooldown of the backend and the resolved account.
    CheckCooldown,
    /// Load the session, ask the live identity, verify it and the explicit handle.
    VerifyIdentity,
    /// Look the task's key up in the scope of the backend and account.
    ReadCache,
    /// Fetch from upstream, recording a cooldown for each rate-limited request.
    Fetch,
    /// Write the fetched result into its scope.
    Save,
    /// Stop with this result.
    Finish(Result<Output, Error>),
}

impl RetrievalState {
    /// A retrieval of `task` on `backend` under `access`, before its first step.
    pub fn new(access: &Access, task: Task, backend: Backend) -> (s: Self)
        ensures
            s.stage == Stage::Start,
            s.task == task,
            s.graphql == (backend == Backend::Graphql),
            s.readable == crate::retrieval::cache_readable_spec(*access),
            s.no_cache == access.no_cache,
            s.account is None,
            s.fetched is None,
    {
        RetrievalState {
            stage: Stage::Start,
            task,
            graphql: match backend {
                Backend::Graphql => true,
                _ => false,
            },
            readable: cache_readable(access),
            no_cache: access.no_cache,
            account: None,
            fetched: None,
        }
    }
}

pub open spec fn out_of_order_error() -> Error {
    Error { kind: Kind::Storage, message: "Retrieval event out of order", retry_after_seconds: None }
}

/// A fetched result is saved unless caching is bypassed or a request failed.
pub open spec fn worth_saving(no_cache: bool, o: Output) -> bool {
    !no_cache && !o.request_failed && !failed_stop(o.stop_reason@)
}

pub open spec fn at(s: RetrievalState, stage: Stage) -> RetrievalState {
    RetrievalState { stage, ..s }
}

pub open spec fn finish(s: RetrievalState, r: Result<Output, Error>) -> (RetrievalState, Action) {
    (RetrievalState { stage: Stage::Done, fetched: None, ..s }, Action::Finish(r))
}

/// After the cooldown check (and, when authenticated, the identity check): the cache is
/// read when the access options allow it, else the result is fetched.
pub open spec fn to_cache_or_fetch(s: RetrievalState) -> (RetrievalState, Action) {
    if s.readable {
        (at(s, Stage::ReadingCache), Action::ReadCache)
    } else {
        (at(s, Stage::Fetching), Action::Fetch)
    }
}

/// The order of a retrieval. An authenticated one resolves its connection, then checks
/// the account's cooldown before any credential or cache access, then verifies the live
/// identity before reading the authenticated cache; a public one checks its cooldown and
/// then reads the cache. A usable hit ends the retrieval; otherwise the result is
/// fetched, saved when it is worth saving, and returned. Every failure ends the
/// retrieval with that failure, and an event that does not answer the last action ends
/// it with `out_of_order_error`.
pub open spec fn retrieval_spec(s: RetrievalState, e: Event) -> (RetrievalState, Action) {
    match (s.stage, e) {
        (Stage::Start, Event::Begin) => if s.graphql {
            (at(s, Stage::Resolving), Action::ResolveConnection)
        } else {
            (at(s, Stage::CheckingCooldown), Action::CheckCooldown)
        },
        (Stage::Resolving, Event::Resolved(r)) => match r {
            Ok(id) => (RetrievalState { stage: Stage::CheckingCooldown, account: Some(id), ..s }, Action::CheckCooldown),
            Err(x) => finish(s, Err(x)),
        },
        (Stage::CheckingCooldown, Event::CooldownChecked(r)) => match r {
            Ok(_) => if s.graphql {
                (at(s, Stage::Verifying), Action::VerifyIdentity)
            } else {
                to_cache_or_fetch(s)
            },
            Err(x) => finish(s, Err(x)),
        },
        (Stage::Verifying, Event::Verified(r)) => match r {
            Ok(_) => to_cache_or_fetch(s),
            Err(x) => finish(s, Err(x)),
        },
        (Stage::ReadingCache, Event::CacheRead(r)) => match r {
            Ok(Some(h)) => if !s.graphql || accepts_cached_spec(s.task, h) {
                finish(s, Ok(h))
            } else {
                (at(s, Stage::Fetching), Action::Fetch)
            },
            Ok(None) => (at(s, Stage::Fetching), Action::Fetch),
            Err(x) => finish(s, Err(x)),
        },
        (Stage::Fetching, Event::Fetched(r)) => match r {
            Ok(o) => if worth_saving(s.no_cache, o) {
                (RetrievalState { stage: Stage::Saving, fetched: Some(o), ..s }, Action::Save)
            } else {
                finish(s, Ok(o))
            },
            Err(x) => finish(s, Err(x)),
        },
        (Stage::Saving, Event::Saved(r)) => match (r, s.fetched) {
            (Ok(_), Some(o)) => finish(s, Ok(o)),
            (Err(x), _) => finish(s, Err(x)),
            (Ok(_), None) => finish(s, Err(out_of_order_error())),
        },
        _ => finish(s, Err(out_of_order_error())),
    }
}

fn worth_saving_exec(no_cache: bool, out: &Output) -> (r: bool)
    ensures
        r == worth_saving(no_cache, *out),
{
    let s = out.stop_reason.as_str();
    !no_cache && !out.request_failed && !str_eq(s, "request_failed") && !str_eq(s, "parent_unavailable")
        && !str_eq(s, "replies_failed")
}

fn finish_exec(s: RetrievalState, r: Result<Output, Error>) -> (x: (RetrievalState, Action))
    ensures
        x == finish(s, r),
{
    let mut s = s;
    s.stage = Stage::Done;
    s.fetched = None;
    (s, Action::Finish(r))
}

fn to_cache_or_fetch_exec(s: RetrievalState) -> (x: (RetrievalState, Action))
    ensures
        x == to_cache_or_fetch(s),
{
    let mut s = s;
    if s.readable {
        s.stage = Stage::ReadingCache;
        (s, Action::ReadCache)
    } else {
        s.stage = Stage::Fetching;
        (s, Action::Fetch)
    }
}

fn out_of_order() -> (e: Error)
    ensures
        e == out_of_order_error(),
{
    Error { kind: Kind::Storage, message: "Retrieval event out of order", retry_after_seconds: None }
}

/// One step of a retrieval (see `retrieval_spec`).
pub fn retrieval_step(state: RetrievalState, event: Event) -> (r: (RetrievalState, Action))
    ensures
        r == retrieval_spec(state, event),
{
    let mut s = state;
    match (s.stage, event) {
        (Stage::Start, Event::Begin) => if s.graphql {
            s.stage = Stage::Resolving;
            (s, Action::ResolveConnection)
        } else {
            s.stage = Stage::CheckingCooldown;
            (s, Action::CheckCooldown)
        },
        (Stage::Resolving, Event::Resolved(r)) => match r {
            Ok(id) => {
                s.stage = Stage::CheckingCooldown;
                s.account = Some(id);
                (s, Action::CheckCooldown)
            },
            Err(x) => finish_exec(s, Err(x)),
        },
        (Stage::CheckingCooldown, Event::CooldownChecked(r)) => match r {
            Ok(_) => if s.graphql {
                s.stage = Stage::Verifying;
                (s, Action::VerifyIdentity)
            } else {
                to_cache_or_fetch_exec(s)
            },
            Err(x) => finish_exec(s, Err(x)),
        },
        (Stage::Verifying, Event::Verified(r)) => match r {
            Ok(_) => to_cache_or_fetch_exec(s),
            Err(x) => finish_exec(s, Err(x)),
        },
        (Stage::ReadingCache, Event::CacheRead(r)) => match r {
            Ok(Some(h)) => if !s.graphql || s.task.accepts_cached(&h) {
                finish_exec(s, Ok(h))
            } else {
                s.stage = Stage::Fetching;
                (s, Action::Fetch)
            },
            Ok(None) => {
                s.stage = Stage::Fetching;
                (s, Action::Fetch)
            },
            Err(x) => finish_exec(s, Err(x)),
        },
        (Stage::Fetching, Event::Fetched(r)) => match r {
            Ok(o) => if worth_saving_exec(s.no_cache, &o) {
                s.stage = Stage::Saving;
                s.fetched = Some(o);
                (s, Action::Save)
            } else {
                finish_exec(s, Ok(o))
            },
            Err(x) => finish_exec(s, Err(x)),
        },
        (Stage::Saving, Event::Saved(r)) => match r {
            Ok(_) => {
                let mut f: Option<Output> = None;
                core::mem::swap(&mut f, &mut s.fetched);
                match f {
                    Some(o) => finish_exec(s, Ok(o)),
                    None => finish_exec(s, Err(out_of_order())),
                }
            },
            Err(x) => finish_exec(s, Err(x)),
        },
        (_, _) => finish_exec(s, Err(out_of_order())),
    }
}

} // verus!
