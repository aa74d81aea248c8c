use serde_json::Value;
use xcli::cli::{Cli, Command, LikesCommand};
use xcli::model::{Identity, ListInfo, ListVisibility, Output, Post};
use xcli::task::Task;

fn parse(args: &[&str]) -> Cli {
    let mut argv = vec!["xcli"];
    argv.extend_from_slice(args);
    Cli::try_parse_from(&argv).unwrap()
}

fn task(args: &[&str]) -> Task {
    let cli = parse(args);
    Task::from_command(&cli.command).unwrap().1
}

fn fixture() -> ListInfo {
    ListInfo {
        id: "456".into(),
        name: "Synthetic list".into(),
        description: Some("Fixture description".into()),
        visibility: Some(ListVisibility::Private),
        owner: Some(Identity {
            id: "789".into(),
            handle: "owner_fixture".into(),
        }),
        subscribed: None,
        pinned: None,
        is_member: None,
        management_sections: vec![],
        url: "https://x.com/i/lists/456".into(),
    }
}

#[test]
fn bookmark_cache_keys_separate_operations_and_pagination() {
    let key = |args: &[&str]| {
        let cli = parse(args);
        let (_, task) = Task::from_command(&cli.command).unwrap();
        assert!(task.requires_graphql());
        task.key()
    };
    let bookmarks = key(&["bookmarks", "list", "--account", "work"]);
    for args in [
        vec!["search", "bookmarks"],
        vec!["user", "posts", "bookmarks"],
        vec!["bookmarks", "list", "--account", "work", "--cursor", "next"],
        vec!["bookmarks", "list", "--account", "work", "--page-size", "5"],
        vec!["bookmarks", "list", "--account", "work", "--max-pages", "2"],
    ] {
        assert_ne!(bookmarks, key(&args));
    }
    // Account isolation is provided by the enclosing stable-ID cache scope,
    // not aliases embedded in an operation key.
    assert_eq!(bookmarks, key(&["bookmarks", "list", "--account", "other"]));
}

#[test]
fn own_likes_have_no_target_user_or_write_commands() {
    let cli = Cli::try_parse_from(&["xcli", "likes", "list", "--account", "work"]).unwrap();
    assert!(matches!(
        cli.command,
        Command::Likes {
            command: LikesCommand::List { .. }
        }
    ));
    for args in [
        vec!["xcli", "likes", "list", "someone", "--account", "work"],
        vec![
            "xcli",
            "likes",
            "list",
            "--user-id",
            "456",
            "--account",
            "work",
        ],
        vec!["xcli", "likes", "add", "20", "--account", "work"],
        vec!["xcli", "likes", "remove", "20", "--account", "work"],
        vec!["xcli", "likes", "list", "--max-pages", "0"],
        vec!["xcli", "likes", "list", "--page-size", "101"],
        vec!["xcli", "likes", "list", "--refresh", "--no-cache"],
    ] {
        assert!(Cli::try_parse_from(&args).is_err());
    }
}

#[test]
fn own_likes_keys_separate_operations_and_page_bounds() {
    let key = |args: &[&str]| {
        let cli = parse(args);
        let (_, task) = Task::from_command(&cli.command).unwrap();
        assert!(task.requires_graphql());
        task.key()
    };
    let likes = key(&["likes", "list", "--account", "work"]);
    for args in [
        vec!["bookmarks", "list", "--account", "work"],
        vec!["user", "posts", "fixture"],
        vec!["search", "likes"],
        vec!["likes", "list", "--account", "work", "--cursor", "next"],
        vec!["likes", "list", "--account", "work", "--max-pages", "2"],
        vec!["likes", "list", "--account", "work", "--page-size", "5"],
    ] {
        assert_ne!(likes, key(&args));
    }
}

#[test]
fn list_inventory_cli_is_bounded_viewer_only_without_mutations() {
    for account in ["work", "@fixture"] {
        let task = task(&[
            "lists",
            "list",
            "--account",
            account,
            "--connection",
            "connection-1",
        ]);
        assert!(task.requires_graphql() && task.expects_lists() && !task.expects_users());
    }
    for args in [
        vec!["xcli", "lists", "list", "some_user"],
        vec!["xcli", "lists", "list", "--user-id", "123"],
        vec!["xcli", "lists", "list", "--list-id", "456"],
        vec!["xcli", "lists", "list", "--max-pages", "0"],
        vec!["xcli", "lists", "list", "--max-pages", "21"],
        vec!["xcli", "lists", "list", "--page-size", "101"],
        vec!["xcli", "lists", "list", "--refresh", "--no-cache"],
        vec!["xcli", "lists", "create", "Fixture"],
        vec!["xcli", "lists", "update", "456"],
        vec!["xcli", "lists", "delete", "456"],
        vec!["xcli", "lists", "pin", "456"],
        vec!["xcli", "lists", "subscribe", "456"],
        vec!["xcli", "lists", "members", "add", "456", "fixture"],
    ] {
        assert!(Cli::try_parse_from(&args).is_err());
    }
    let long = "x".repeat(4097);
    let cli = Cli::try_parse_from(&[
        "xcli",
        "lists",
        "list",
        "--account",
        "work",
        "--cursor",
        &long,
    ])
    .unwrap();
    assert!(Task::from_command(&cli.command).is_err());
}

#[test]
fn list_metadata_cli_has_no_paging_discovery_or_mutations() {
    let cli = Cli::try_parse_from(&[
        "xcli",
        "lists",
        "show",
        "456",
        "--account",
        "work",
        "--connection",
        "connection-1",
    ])
    .unwrap();
    let (_, task) = Task::from_command(&cli.command).unwrap();
    assert!(task.requires_graphql() && task.expects_lists() && !task.expects_users());
    for args in [
        vec!["xcli", "lists", "show", "456", "--max-pages", "1"],
        vec!["xcli", "lists", "show", "456", "--page-size", "1"],
        vec!["xcli", "lists", "show", "456", "--cursor", "next"],
        vec!["xcli", "lists", "show", "456", "--refresh", "--no-cache"],
        vec!["xcli", "lists", "show", "456", "--name", "updated"],
        vec!["xcli", "lists", "create", "Fixture"],
        vec!["xcli", "lists", "update", "456"],
        vec!["xcli", "lists", "delete", "456"],
        vec!["xcli", "lists", "members", "add", "456", "fixture"],
        vec!["xcli", "lists", "members", "remove", "456", "fixture"],
    ] {
        assert!(Cli::try_parse_from(&args).is_err());
    }
}

#[test]
fn list_metadata_cache_key_and_shape_are_legacy_safe() {
    let metadata = task(&["lists", "show", "456", "--account", "work"]);
    assert_eq!(
        metadata.key(),
        Value::Array(vec![
            Value::from("v1"),
            Value::from("list_metadata"),
            Value::from("456")
        ])
        .to_string()
    );
    assert_eq!(
        metadata.key(),
        task(&["lists", "show", "456", "--account", "other"]).key()
    );
    for args in [
        vec!["lists", "show", "457", "--account", "work"],
        vec!["lists", "posts", "456", "--account", "work"],
        vec!["lists", "members", "list", "456", "--account", "work"],
        vec!["read", "456"],
    ] {
        assert_ne!(metadata.key(), task(&args).key());
    }
    let users = task(&["lists", "members", "list", "456", "--account", "work"]);
    let posts = task(&["read", "456"]);
    for (has_users, has_lists) in [(false, false), (true, false), (false, true), (true, true)] {
        let mut output = Output::new("graphql", Some("123".into()));
        output.users = has_users.then(Vec::new);
        output.lists = has_lists.then(|| vec![fixture()]);
        assert_eq!(metadata.accepts_cached(&output), has_lists && !has_users);
        assert_eq!(users.accepts_cached(&output), has_users && !has_lists);
        assert_eq!(posts.accepts_cached(&output), !has_users && !has_lists);
        output.posts.push(Post {
            id: "20".into(),
            author: Identity {
                id: "12".into(),
                handle: "fixture".into(),
            },
            text: "Synthetic post".into(),
            created_at: None,
            parent_id: None,
            parent_known: true,
            url: "https://x.com/fixture/status/20".into(),
        });
        assert!(!metadata.accepts_cached(&output));
        assert!(!users.accepts_cached(&output));
    }
}

#[test]
fn list_posts_cli_excludes_ranked_and_mutation_commands() {
    let cli = Cli::try_parse_from(&["xcli", "lists", "posts", "456", "--account", "work"]).unwrap();
    let (_, task) = Task::from_command(&cli.command).unwrap();
    assert!(task.requires_graphql());
    for args in [
        vec!["xcli", "lists", "create", "name", "--account", "work"],
        vec!["xcli", "lists", "delete", "456", "--account", "work"],
        vec![
            "xcli",
            "lists",
            "members",
            "add",
            "456",
            "someone",
            "--account",
            "work",
        ],
        vec!["xcli", "lists", "posts", "456", "--ranked"],
        vec!["xcli", "lists", "posts", "456", "--max-pages", "0"],
        vec!["xcli", "lists", "posts", "456", "--page-size", "101"],
        vec!["xcli", "lists", "posts", "456", "--refresh", "--no-cache"],
    ] {
        assert!(Cli::try_parse_from(&args).is_err());
    }
}

#[test]
fn list_posts_cache_keys_separate_lists_and_pagination() {
    let key = |args: &[&str]| task(args).key();
    let baseline = key(&["lists", "posts", "456", "--account", "work"]);
    for args in [
        vec!["lists", "posts", "457", "--account", "work"],
        vec![
            "lists",
            "posts",
            "456",
            "--account",
            "work",
            "--cursor",
            "next",
        ],
        vec![
            "lists",
            "posts",
            "456",
            "--account",
            "work",
            "--max-pages",
            "2",
        ],
        vec![
            "lists",
            "posts",
            "456",
            "--account",
            "work",
            "--page-size",
            "5",
        ],
        vec!["likes", "list", "--account", "work"],
        vec!["bookmarks", "list", "--account", "work"],
        vec!["search", "456", "--account", "work"],
    ] {
        assert_ne!(baseline, key(&args));
    }
}

#[test]
fn relationship_cache_shape_rejects_legacy_missing_users() {
    let cli = Cli::try_parse_from(&["xcli", "following", "list", "--account", "work"]).unwrap();
    let (_, task) = Task::from_command(&cli.command).unwrap();
    let mut output = Output::new("graphql", Some("123".into()));
    assert!(!task.accepts_cached(&output));
    output.users = Some(vec![]);
    assert!(task.accepts_cached(&output));
    let post_cli = Cli::try_parse_from(&["xcli", "read", "20"]).unwrap();
    assert!(
        !Task::from_command(&post_cli.command)
            .unwrap()
            .1
            .accepts_cached(&output)
    );
}

#[test]
fn relationship_keys_distinguish_direction_and_pagination() {
    let key = |args: &[&str]| {
        let cli = parse(args);
        let (_, task) = Task::from_command(&cli.command).unwrap();
        assert!(task.requires_graphql());
        (task.key(), task.expects_users())
    };
    let base = key(&["following", "list", "--account", "work"]);
    assert!(base.1);
    for args in [
        vec!["followers", "list", "--account", "work"],
        vec!["following", "list", "--account", "work", "--cursor", "next"],
        vec!["following", "list", "--account", "work", "--max-pages", "2"],
        vec!["following", "list", "--account", "work", "--page-size", "5"],
        vec!["bookmarks", "list", "--account", "work"],
        vec!["likes", "list", "--account", "work"],
    ] {
        assert_ne!(base.0, key(&args).0);
    }
}

#[test]
fn list_inventory_cache_key_is_exact() {
    let inventory = task(&["lists", "list", "--account", "work"]);
    assert_eq!(
        inventory.key(),
        Value::Array(vec![
            Value::from("v1"),
            Value::from("list_inventory"),
            Value::from(1),
            Value::from(20),
            Value::Null
        ])
        .to_string()
    );
}

#[test]
fn list_posts_validate_account_id_and_route_before_external_access() {
    for args in [
        vec!["lists", "posts", "456"],
        vec!["lists", "posts", "456", "--account", ""],
        vec!["lists", "posts", "456", "--account", "work", "--cursor", ""],
    ] {
        let cli = parse(&args);
        let e = Task::from_command(&cli.command).unwrap_err();
        assert_eq!(e.kind, xcli::error::Kind::InvalidInput);
    }
    for id in ["", "0", "01", "-1", "1/2", "https://x.com/i/lists/456", "18446744073709551616"] {
        let cli = parse(&["lists", "posts", "--account", "work", "--", id]);
        let e = Task::from_command(&cli.command).unwrap_err();
        assert_eq!(e.kind, xcli::error::Kind::InvalidInput, "{id}");
    }
    for id in ["", "0", "01", "-1", "1/2"] {
        let cli = parse(&["lists", "show", "--account", "work", "--", id]);
        let e = Task::from_command(&cli.command).unwrap_err();
        assert_eq!(e.kind, xcli::error::Kind::InvalidInput, "{id}");
    }
    let cli = parse(&["lists", "posts", "--account", "work", "456"]);
    assert!(Task::from_command(&cli.command).is_ok());
}
