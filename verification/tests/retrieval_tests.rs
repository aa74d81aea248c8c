use xcli::cli::{Access, Backend};
use xcli::error::{Error, Kind};
use xcli::human::render_human;
use xcli::model::{Identity, ListInfo, ListManagementSection, ListVisibility, Output, Post};
use xcli::retrieval::{cache_readable, cacheable, check_handle, cooldown_for, join_replies};

fn access() -> Access {
    Access {
        account: Some("work".into()),
        connection: None,
        backend: Backend::Auto,
        no_cache: false,
        refresh: false,
        cache_ttl: 300,
    }
}

fn post(id: &str) -> Post {
    Post {
        id: id.into(),
        author: Identity {
            id: "123".into(),
            handle: "fixture".into(),
        },
        text: "text".into(),
        created_at: None,
        parent_id: None,
        parent_known: true,
        url: format!("https://x.com/fixture/status/{id}"),
    }
}

#[test]
fn cache_reads_and_writes_follow_access_and_failure() {
    let mut a = access();
    assert!(cache_readable(&a));
    a.cache_ttl = 0;
    assert!(!cache_readable(&a));
    a.cache_ttl = 300;
    a.refresh = true;
    assert!(!cache_readable(&a));
    let mut out = Output::new("graphql", Some("123".into()));
    out.stop_reason = "page_limit".into();
    assert!(cacheable(&a, &out));
    for reason in ["request_failed", "parent_unavailable", "replies_failed"] {
        out.stop_reason = reason.into();
        assert!(!cacheable(&a, &out));
    }
    out.stop_reason = "page_limit".into();
    out.request_failed = true;
    assert!(!cacheable(&a, &out));
    out.request_failed = false;
    a.no_cache = true;
    assert!(!cacheable(&a, &out));
}

#[test]
fn only_rate_limits_start_cooldowns() {
    let mut e = Error::new(Kind::RateLimit, "Slow");
    assert_eq!(cooldown_for(&e), Some(60));
    e.retry_after_seconds = Some(5);
    assert_eq!(cooldown_for(&e), Some(5));
    assert_eq!(cooldown_for(&Error::new(Kind::Network, "Down")), None);
}

#[test]
fn changed_explicit_handle_is_rejected_even_when_stable_id_matches() {
    let actual = Identity {
        id: "123".into(),
        handle: "Renamed".into(),
    };
    assert_eq!(check_handle(Some("@fixture"), &actual).unwrap_err().kind, Kind::InvalidInput);
    check_handle(Some("@RENAMED"), &actual).unwrap();
    check_handle(Some("work"), &actual).unwrap();
    check_handle(None, &actual).unwrap();
}

#[test]
fn replies_join_the_chain_without_duplicates_and_stay_incomplete() {
    let mut chain = Output::new("graphql", Some("123".into()));
    chain.posts = vec![post("20"), post("21")];
    chain.complete = true;
    chain.pages = 2;
    let mut replies = Output::new("graphql", Some("123".into()));
    replies.posts = vec![post("21"), post("22")];
    replies.pages = 1;
    replies.stop_reason = "cursor_exhausted".into();
    replies.warnings = vec!["w".into()];
    let joined = join_replies(chain.clone(), Ok(replies));
    let ids: Vec<&str> = joined.posts.iter().map(|p| p.id.as_str()).collect();
    assert_eq!(ids, vec!["20", "21", "22"]);
    assert!(!joined.complete);
    assert_eq!(joined.replies_complete, Some(false));
    assert_eq!(joined.pages, 3);
    assert_eq!(joined.stop_reason, "cursor_exhausted");
    assert_eq!(joined.warnings[0], "w");
    assert!(joined.warnings[1].starts_with("Parent chain complete: true."));
    let failed = join_replies(chain, Err(Error::new(Kind::Network, "Down")));
    assert!(failed.request_failed);
    assert_eq!(failed.stop_reason, "replies_failed");
    assert_eq!(failed.warnings[0], "Reply retrieval failed: Down (exit code 9)");
    assert_eq!(failed.posts.len(), 2);
}

fn terminal_safe(rendered: &str) -> bool {
    rendered
        .chars()
        .all(|character| !character.is_control() || matches!(character, '\n' | '\t'))
}

#[test]
fn human_post_escapes_terminal_controls() {
    let text = "Unicode café\n\ttext\u{1b}]52;c;synthetic\u{7}\r\u{9b}2J\0";
    let mut output = Output::new("fxtwitter", None);
    let mut p = post("20");
    p.text = text.into();
    output.posts.push(p);
    let rendered = render_human(&output);
    assert!(terminal_safe(&rendered));
    assert!(rendered.contains("Unicode café\n\ttext"));
    assert!(rendered.contains("\\u{1b}") && rendered.contains("\\r") && rendered.contains("\\0"));
    assert!(rendered.starts_with("fxtwitter · miss · complete=false · unknown\n"));
    assert!(rendered.contains("\n@fixture · 20\n"));
}

#[test]
fn human_lists_users_and_cursor() {
    let mut output = Output::new("graphql", Some("123".into()));
    output.users = Some(vec![Identity {
        id: "9".into(),
        handle: "someone".into(),
    }]);
    output.lists = Some(vec![ListInfo {
        id: "456".into(),
        name: "Synthetic\u{1b}[2J".into(),
        description: Some("Fixture description".into()),
        visibility: Some(ListVisibility::Private),
        owner: Some(Identity {
            id: "789".into(),
            handle: "owner_fixture".into(),
        }),
        subscribed: None,
        pinned: None,
        is_member: None,
        management_sections: vec![ListManagementSection::Pinned, ListManagementSection::OwnedSubscribed],
        url: "https://x.com/i/lists/456".into(),
    }]);
    output.next_cursor = Some("next".into());
    output.warnings.push("careful".into());
    let rendered = render_human(&output);
    assert!(terminal_safe(&rendered));
    for text in [
        "\n@someone · 9\nhttps://x.com/someone\n",
        "Synthetic\\u{1b}[2J · 456",
        "Fixture description",
        "Visibility: private",
        "Owner: @owner_fixture · 789",
        "Management sections: pinned, owned_subscribed",
        "https://x.com/i/lists/456",
        "\nNext cursor: next\n",
        "Warning: careful\n",
    ] {
        assert!(rendered.contains(text), "{text}");
    }
    assert!(!rendered.contains("/status/"));
}
