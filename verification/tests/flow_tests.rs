use xcli::cache::{Cooldowns, check_cooldown_at, cooldown_at, scopes_to_remove};
use xcli::retrieval::cooldown_for;
use xcli::cli::{Backend, Cli, route};
use xcli::credentials::{CookieLayout, cookie_layout};
use xcli::error::{Error, Kind};
use xcli::flow::{Action, Dispatch, Event, RetrievalState, Stage, dispatch, retrieval_step};
use xcli::input::{UrlParts, post_from_url};
use xcli::model::Output;
use xcli::task::Task;

fn parse(args: &[&str]) -> Cli {
    let mut argv = vec!["xcli"];
    argv.extend_from_slice(args);
    Cli::try_parse_from(&argv).unwrap()
}

fn begin(args: &[&str]) -> (RetrievalState, Action) {
    let cli = parse(args);
    let (access, task): (_, Task) = Task::from_command(&cli.command).unwrap();
    let backend = route(access, task.requires_graphql()).unwrap();
    let state = RetrievalState::new(access, task, backend);
    retrieval_step(state, Event::Begin)
}

fn limited() -> Error {
    Error { kind: Kind::RateLimit, message: "limited", retry_after_seconds: Some(5) }
}

#[test]
fn update_refuses_data_dir_and_other_commands_dispatch() {
    let e = dispatch(&parse(&["update", "--data-dir", "/tmp/x"])).unwrap_err();
    assert_eq!(e.kind, Kind::InvalidInput);
    assert_eq!(e.message, "update does not use --data-dir; remove the flag");
    assert!(dispatch(&parse(&["update"])).unwrap() == Dispatch::Update);
    assert!(dispatch(&parse(&["doctor"])).unwrap() == Dispatch::Doctor);
    assert!(dispatch(&parse(&["cache", "purge"])).unwrap() == Dispatch::Purge);
    assert!(dispatch(&parse(&["auth", "list"])).unwrap() == Dispatch::Auth);
    assert!(dispatch(&parse(&["read", "20"])).unwrap() == Dispatch::Retrieve);
}

#[test]
fn public_retrieval_checks_cooldown_then_cache_then_fetches_and_saves() {
    let (s, a) = begin(&["read", "20"]);
    assert!(matches!(a, Action::CheckCooldown));
    let (s, a) = retrieval_step(s, Event::CooldownChecked(Ok(())));
    assert!(matches!(a, Action::ReadCache));
    let (s, a) = retrieval_step(s, Event::CacheRead(Ok(None)));
    assert!(matches!(a, Action::Fetch));
    let mut out = Output::new_at("fxtwitter", None, 7);
    out.complete = true;
    out.stop_reason = "complete".into();
    let (s, a) = retrieval_step(s, Event::Fetched(Ok(out)));
    assert!(matches!(a, Action::Save));
    assert!(s.stage == Stage::Saving);
    let (s, a) = retrieval_step(s, Event::Saved(Ok(())));
    assert!(s.stage == Stage::Done);
    match a {
        Action::Finish(Ok(o)) => assert_eq!(o.provenance.retrieved_at, 7),
        _ => panic!("expected the fetched output"),
    }
}

#[test]
fn cache_hit_ends_and_failures_are_not_saved() {
    let (s, _) = begin(&["read", "20"]);
    let (s, _) = retrieval_step(s, Event::CooldownChecked(Ok(())));
    let hit = Output::new_at("fxtwitter", None, 3);
    let (_, a) = retrieval_step(s, Event::CacheRead(Ok(Some(hit))));
    assert!(matches!(a, Action::Finish(Ok(_))));

    let (s, _) = begin(&["read", "20", "--no-cache"]);
    let (s, a) = retrieval_step(s, Event::CooldownChecked(Ok(())));
    assert!(matches!(a, Action::Fetch));
    let (_, a) = retrieval_step(s, Event::Fetched(Ok(Output::new_at("fxtwitter", None, 3))));
    assert!(matches!(a, Action::Finish(Ok(_))));

    let (s, _) = begin(&["read", "20"]);
    let (s, _) = retrieval_step(s, Event::CooldownChecked(Ok(())));
    let (s, _) = retrieval_step(s, Event::CacheRead(Ok(None)));
    let mut failed = Output::new_at("fxtwitter", None, 3);
    failed.request_failed = true;
    let (_, a) = retrieval_step(s, Event::Fetched(Ok(failed)));
    assert!(matches!(a, Action::Finish(Ok(_))));
}

#[test]
fn authenticated_retrieval_verifies_identity_before_cache_and_stops_on_cooldown() {
    let (s, a) = begin(&["bookmarks", "list", "--account", "work"]);
    assert!(matches!(a, Action::ResolveConnection));
    let (s, a) = retrieval_step(s, Event::Resolved(Ok("123".into())));
    assert!(matches!(a, Action::CheckCooldown));
    assert_eq!(s.account.as_deref(), Some("123"));
    let (s, a) = retrieval_step(s, Event::CooldownChecked(Ok(())));
    assert!(matches!(a, Action::VerifyIdentity));
    let (_, a) = retrieval_step(s, Event::Verified(Ok(())));
    assert!(matches!(a, Action::ReadCache));

    let (s, _) = begin(&["bookmarks", "list", "--account", "work"]);
    let (s, _) = retrieval_step(s, Event::Resolved(Ok("123".into())));
    let (s, a) = retrieval_step(s, Event::CooldownChecked(Err(limited())));
    assert!(s.stage == Stage::Done);
    match a {
        Action::Finish(Err(e)) => assert_eq!(e.kind, Kind::RateLimit),
        _ => panic!("expected the cooldown error"),
    }
    let (_, a) = retrieval_step(s, Event::Saved(Ok(())));
    match a {
        Action::Finish(Err(e)) => assert_eq!(e.message, "Retrieval event out of order"),
        _ => panic!("expected an out-of-order error"),
    }
}

#[test]
fn cookie_layout_requires_exactly_one_database() {
    assert!(cookie_layout(true, false).unwrap() == CookieLayout::Direct);
    assert!(cookie_layout(false, true).unwrap() == CookieLayout::Nested);
    assert_eq!(cookie_layout(true, true).unwrap_err().kind, Kind::Unavailable);
    assert_eq!(cookie_layout(false, false).unwrap_err().kind, Kind::Unavailable);
}

#[test]
fn scope_files_are_bounded_oldest_first() {
    let names = |n: usize| (0..n).map(|i| format!("{i}.json")).collect::<Vec<_>>();
    assert_eq!(scopes_to_remove(names(70), true, 64), names(7));
    assert_eq!(scopes_to_remove(names(63), true, 64), Vec::<String>::new());
    assert_eq!(scopes_to_remove(names(5), false, 0), names(5));
    assert_eq!(scopes_to_remove(names(64), false, 64), Vec::<String>::new());
}

#[test]
fn post_from_parsed_url_checks_origin_and_path() {
    let url = |scheme: &str, host: &str, port: Option<u16>, path: &str| UrlParts {
        scheme: scheme.into(),
        host: Some(host.into()),
        username: String::new(),
        password: None,
        port,
        path: path.into(),
    };
    assert_eq!(post_from_url(&url("https", "x.com", None, "/u/status/20")).unwrap(), "20");
    assert_eq!(post_from_url(&url("https", "x.com", Some(8443), "/u/status/20")).unwrap_err().kind, Kind::InvalidInput);
    assert_eq!(post_from_url(&url("ftp", "x.com", None, "/u/status/20")).unwrap_err().kind, Kind::InvalidInput);
    assert_eq!(post_from_url(&url("https", "x.com.evil", None, "/u/status/20")).unwrap_err().kind, Kind::InvalidInput);
    assert_eq!(post_from_url(&url("https", "x.com", None, "/u/likes")).unwrap_err().kind, Kind::InvalidInput);
}

#[test]
fn output_new_at_records_the_given_time() {
    let o = Output::new_at("graphql", Some("123".into()), 42);
    assert_eq!(o.provenance.retrieved_at, 42);
    assert_eq!(o.provenance.cache, "miss");
    assert_eq!(o.stop_reason, "unknown");
    assert!(!o.complete && o.posts.is_empty() && o.pages == 0);
    let _ = Backend::Auto;
}

#[test]
fn rate_limit_stops_following_request() {
    let mut cooldowns = Cooldowns { entries: vec![] };
    assert!(check_cooldown_at(&cooldowns, "graphql", Some("123"), 1000).is_ok());
    let seconds = cooldown_for(&limited()).unwrap();
    assert_eq!(seconds, 5);
    cooldown_at(&mut cooldowns, "graphql", Some("123"), seconds, 1000).unwrap();
    let e = check_cooldown_at(&cooldowns, "graphql", Some("123"), 1004).unwrap_err();
    assert_eq!(e.kind, Kind::RateLimit);
    assert_eq!(e.retry_after_seconds, Some(1));
    assert!(check_cooldown_at(&cooldowns, "graphql", Some("123"), 1005).is_ok());
    assert!(check_cooldown_at(&cooldowns, "graphql", Some("456"), 1001).is_ok());
    let unadvised = Error { kind: Kind::RateLimit, message: "limited", retry_after_seconds: None };
    assert_eq!(cooldown_for(&unadvised), Some(60));
    assert_eq!(cooldown_for(&Error { kind: Kind::Network, message: "down", retry_after_seconds: None }), None);
}
