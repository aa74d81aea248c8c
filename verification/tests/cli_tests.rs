use xcli::cli::{Access, Backend, BookmarkCommand, Cli, Command, route};

fn access(b: Backend, account: Option<&str>) -> Access {
    Access {
        account: account.map(str::to_owned),
        connection: None,
        backend: b,
        no_cache: false,
        refresh: false,
        cache_ttl: 300,
    }
}

fn routing_checks() {
    assert_eq!(
        route(&access(Backend::Auto, None), false).unwrap(),
        Backend::Fxtwitter
    );
    assert_eq!(
        route(&access(Backend::Auto, Some("work")), false).unwrap(),
        Backend::Graphql
    );
    assert_eq!(
        route(&access(Backend::Auto, None), true).unwrap(),
        Backend::Graphql
    );
    assert!(route(&access(Backend::Fxtwitter, Some("work")), false).is_err());
    assert!(route(&access(Backend::Fxtwitter, None), true).is_err());
}

fn bookmarks_checks() {
    let cli = Cli::try_parse_from(&[
        "xcli",
        "bookmarks",
        "list",
        "--account",
        "work",
        "--max-pages",
        "2",
        "--page-size",
        "5",
    ])
    .unwrap();
    assert!(matches!(
        cli.command,
        Command::Bookmarks {
            command: BookmarkCommand::List { .. }
        }
    ));
    for args in [
        vec!["xcli", "bookmarks", "add", "20", "--account", "work"],
        vec!["xcli", "bookmarks", "remove", "20", "--account", "work"],
        vec!["xcli", "bookmarks", "list", "--max-pages", "0"],
        vec!["xcli", "bookmarks", "list", "--page-size", "101"],
        vec!["xcli", "bookmarks", "list", "--refresh", "--no-cache"],
    ] {
        assert!(Cli::try_parse_from(&args).is_err());
    }
}

fn update_checks() {
    for args in [
        ["xcli", "update"].as_slice(),
        &["xcli", "update", "--check"],
        &["xcli", "update", "-y"],
        &["xcli", "update", "--yes"],
    ] {
        let cli = Cli::try_parse_from(args).unwrap();
        assert!(matches!(cli.command, Command::Update { .. }), "{args:?}");
    }
    // --check never installs, so combining it with --yes is contradictory.
    assert!(Cli::try_parse_from(&["xcli", "update", "--check", "--yes"]).is_err());
    // Account/provider/pagination flags are rejected, not ignored.
    for flag in [
        "--account",
        "--connection",
        "--backend",
        "--max-pages",
        "--cursor",
    ] {
        assert!(
            Cli::try_parse_from(&["xcli", "update", flag, "value"]).is_err(),
            "{flag}"
        );
    }
}

#[test]
fn cli_routing() {
    routing_checks();
}

#[test]
fn tests_routing() {
    routing_checks();
}

#[test]
fn cli_bookmarks_contract() {
    bookmarks_checks();
}

#[test]
fn tests_bookmarks_contract() {
    bookmarks_checks();
}

#[test]
fn cli_update_contract() {
    update_checks();
}

#[test]
fn tests_update_contract() {
    update_checks();
}

#[test]
fn unknown_flags_zero_bounds_and_write_commands_are_rejected() {
    assert!(Cli::try_parse_from(&["xcli", "read", "20", "--alias", "work"]).is_err());
    assert!(Cli::try_parse_from(&["xcli", "search", "q", "--max-pages", "0"]).is_err());
    assert!(Cli::try_parse_from(&["xcli", "likes", "add", "20"]).is_err());
}

#[test]
fn defaults_and_global_flags_are_read() {
    let cli = Cli::try_parse_from(&["xcli", "--data-dir", "/state", "--human", "read", "20"]).unwrap();
    assert_eq!(cli.data_dir.as_deref(), Some("/state"));
    assert!(cli.human);
    match cli.command {
        Command::Read { target, access } => {
            assert_eq!(target, "20");
            assert_eq!(access.cache_ttl, 300);
            assert_eq!(access.backend, Backend::Auto);
            assert!(!access.no_cache && !access.refresh);
        }
        _ => panic!("expected a read"),
    }
}
