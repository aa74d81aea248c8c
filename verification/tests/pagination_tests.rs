use xcli::error::{Error, Kind};
use xcli::model::ListManagementSection::{OwnedSubscribed, Pinned, Unsectioned};
use xcli::model::{Identity, ListInfo, ListManagementSection, ListVisibility, Output, Post};
use xcli::pagination::{ListsPage, Page, UsersPage, collect, collect_lists, collect_users, parents};

fn post(id: &str, parent: Option<&str>) -> Post {
    Post {
        id: id.into(),
        author: Identity {
            id: "1".into(),
            handle: "test".into(),
        },
        text: "".into(),
        created_at: None,
        parent_id: parent.map(str::to_owned),
        parent_known: true,
        url: "".into(),
    }
}
#[test]
fn repeat_dedup() {
    let mut n = 0;
    let out = collect(Output::new("graphql", Some("1".into())), 10, None, |_| {
        n += 1;
        Ok(Page {
            posts: vec![post("20", None)],
            next_cursor: Some("same".into()),
            warnings: vec![],
        })
    })
    .unwrap();
    assert_eq!(n, 2);
    assert_eq!(out.posts.len(), 1);
    assert_eq!(out.stop_reason, "repeated_cursor");
    assert!(!out.complete);
}
#[test]
fn partial_failure() {
    let mut n = 0;
    let out = collect(Output::new("graphql", None), 3, None, |_| {
        n += 1;
        if n == 2 {
            return Err(Error::new(Kind::Authentication, "Expired"));
        }
        Ok(Page {
            posts: vec![],
            next_cursor: Some("next".into()),
            warnings: vec![],
        })
    })
    .unwrap();
    assert_eq!(out.stop_reason, "request_failed");
    assert_eq!(out.next_cursor.as_deref(), Some("next"));
    assert!(!out.complete);
    assert!(
        collect(Output::new("graphql", None), 1, None, |_| Err(Error::new(
            Kind::Network,
            "Failed"
        )))
        .is_err()
    );
}
#[test]
fn parent_limit() {
    let mut o = Output::new("fxtwitter", None);
    o.posts.push(post("22", Some("21")));
    let o = parents(o, 1, |_| {
        let mut o = Output::new("fxtwitter", None);
        o.posts.push(post("21", Some("20")));
        Ok(o)
    })
    .unwrap();
    assert!(!o.complete);
    assert_eq!(o.stop_reason, "parent_limit");
}
#[test]
fn root() {
    let mut o = Output::new("fxtwitter", None);
    o.posts.push(post("20", None));
    assert!(parents(o, 1, |_| unreachable!()).unwrap().complete);
}

#[test]
fn collection_warnings_and_failure_advice_are_exact() {
    let mut n = 0;
    let out = collect(Output::new("graphql", None), 5, None, |_| {
        n += 1;
        if n == 1 {
            Ok(Page {
                posts: vec![post("1", None), post("1", None), post("2", None)],
                next_cursor: Some("next".into()),
                warnings: vec!["upstream note".into()],
            })
        } else {
            let mut e = Error::new(Kind::RateLimit, "Slow down");
            e.retry_after_seconds = Some(30);
            Err(e)
        }
    })
    .unwrap();
    assert_eq!(out.posts.len(), 2);
    assert_eq!(out.pages, 1);
    assert!(out.request_failed);
    assert_eq!(
        out.warnings,
        vec![
            "upstream note".to_string(),
            "Slow down (exit code 6)".to_string(),
            "Retry after 30 seconds".to_string(),
        ]
    );
    let out = collect(Output::new("graphql", None), 2, Some("start".into()), |c| {
        assert_eq!(c, Some("start"));
        Ok(Page {
            posts: vec![],
            next_cursor: Some(String::new()),
            warnings: vec![],
        })
    })
    .unwrap();
    assert_eq!(out.stop_reason, "cursor_exhausted");
    assert_eq!(out.next_cursor, None);
    assert_eq!(
        out.warnings,
        vec!["This is an upstream-visible collection, not a complete archive or reply tree".to_string()]
    );
}

#[test]
fn parents_walk_to_the_root_oldest_first() {
    let mut o = Output::new("fxtwitter", None);
    o.posts.push(post("22", Some("21")));
    let o = parents(o, 5, |id| {
        let mut o = Output::new("fxtwitter", None);
        o.pages = 1;
        match id {
            "21" => o.posts.push(post("21", Some("20"))),
            "20" => o.posts.push(post("20", None)),
            _ => unreachable!(),
        }
        Ok(o)
    })
    .unwrap();
    assert!(o.complete);
    assert_eq!(o.parent_chain_complete, Some(true));
    assert_eq!(o.stop_reason, "root_reached");
    assert_eq!(o.pages, 2);
    let ids: Vec<&str> = o.posts.iter().map(|p| p.id.as_str()).collect();
    assert_eq!(ids, vec!["20", "21", "22"]);
    assert!(o.warnings.is_empty());
}

#[test]
fn parents_stop_on_unknown_cycle_and_failure() {
    let mut o = Output::new("fxtwitter", None);
    let mut unknown = post("22", None);
    unknown.parent_known = false;
    o.posts.push(unknown);
    let o = parents(o, 3, |_| unreachable!()).unwrap();
    assert_eq!(o.stop_reason, "parent_unknown");
    assert_eq!(
        o.warnings,
        vec![
            "Provider omitted parent metadata".to_string(),
            "Parent chain is partial".to_string()
        ]
    );
    let mut o = Output::new("fxtwitter", None);
    o.posts.push(post("22", Some("22")));
    let o = parents(o, 3, |_| unreachable!()).unwrap();
    assert_eq!(o.stop_reason, "parent_cycle");
    assert!(!o.complete);
    let mut o = Output::new("fxtwitter", None);
    o.posts.push(post("22", Some("21")));
    let o = parents(o, 3, |_| Err(Error::new(Kind::Network, "Offline"))).unwrap();
    assert_eq!(o.stop_reason, "parent_unavailable");
    assert!(o.request_failed);
    assert_eq!(o.warnings[0], "Parent retrieval stopped: Offline (exit code 9)");
    assert_eq!(o.parent_chain_complete, Some(false));
    let mut o = Output::new("fxtwitter", None);
    o.posts.push(post("22", Some("21")));
    let e = parents(o, 3, |_| Ok(Output::new("fxtwitter", None))).unwrap_err();
    assert_eq!(e.kind, Kind::ProtocolChanged);
    assert_eq!(
        parents(Output::new("fxtwitter", None), 3, |_| unreachable!())
            .unwrap_err()
            .kind,
        Kind::ProtocolChanged
    );
}

fn user_page(cursor: Option<&str>) -> UsersPage {
    UsersPage {
        users: vec![Identity {
            id: "456".into(),
            handle: "fixture".into(),
        }],
        next_cursor: cursor.map(str::to_owned),
        warnings: vec![],
    }
}
#[test]
fn users_deduplicate_ids_and_stop_repeated_cursors() {
    let mut calls = 0;
    let out = collect_users(
        Output::new("graphql", Some("123".into())),
        5,
        None,
        |cursor| {
            if calls > 0 {
                assert_eq!(cursor, Some("next"));
            }
            calls += 1;
            Ok(user_page(Some("next")))
        },
    )
    .unwrap();
    assert_eq!(calls, 2);
    assert_eq!(out.users.as_ref().unwrap().len(), 1);
    assert!(out.posts.is_empty() && !out.complete && !out.request_failed);
    assert_eq!(out.stop_reason, "repeated_cursor");
}
#[test]
fn user_empty_and_bounded_success_are_not_exhaustive() {
    let out = collect_users(Output::new("graphql", Some("123".into())), 1, None, |_| {
        Ok(UsersPage {
            users: vec![],
            next_cursor: None,
            warnings: vec![],
        })
    })
    .unwrap();
    assert_eq!(out.users, Some(vec![]));
    assert!(!out.complete && !out.request_failed);
    let out = collect_users(Output::new("graphql", Some("123".into())), 1, None, |_| {
        Ok(user_page(Some("next")))
    })
    .unwrap();
    assert_eq!(out.stop_reason, "page_limit");
    assert_eq!(out.next_cursor.as_deref(), Some("next"));
}
#[test]
fn user_later_failures_preserve_data_without_retry() {
    let mut calls = 0;
    let out = collect_users(Output::new("graphql", Some("123".into())), 5, None, |_| {
        calls += 1;
        if calls == 1 {
            Ok(user_page(Some("next")))
        } else {
            Err(Error::new(Kind::RateLimit, "Synthetic cooldown"))
        }
    })
    .unwrap();
    assert_eq!(calls, 2);
    assert_eq!(out.users.unwrap().len(), 1);
    assert!(out.request_failed && !out.complete);
    assert_eq!(out.next_cursor.as_deref(), Some("next"));
    assert!(
        collect_users(Output::new("graphql", None), 1, None, |_| Err(Error::new(
            Kind::Network,
            "Synthetic failure"
        )))
        .is_err()
    );
}

fn list() -> ListInfo {
    ListInfo {
        id: "456".into(),
        name: "Fixture".into(),
        description: None,
        visibility: None,
        owner: None,
        subscribed: None,
        pinned: None,
        is_member: None,
        management_sections: vec![ListManagementSection::Pinned],
        url: "https://x.com/i/lists/456".into(),
    }
}
fn page(lists: Vec<ListInfo>, cursor: Option<&str>) -> ListsPage {
    ListsPage {
        lists,
        next_cursor: cursor.map(str::to_owned),
        warnings: vec![],
    }
}

#[test]
fn duplicate_lists_union_sections_fill_missing_and_retain_explicit_false() {
    let mut first = list();
    first.subscribed = Some(false);
    let mut second = list();
    second.description = Some("Fixture description".into());
    second.visibility = Some(ListVisibility::Private);
    second.owner = Some(Identity {
        id: "123".into(),
        handle: "fixture".into(),
    });
    second.pinned = Some(false);
    second.is_member = Some(false);
    second.management_sections = vec![OwnedSubscribed, Pinned];
    let mut third = list();
    third.management_sections = vec![Unsectioned, OwnedSubscribed];
    let mut pages = [
        page(vec![first, second.clone()], Some("next")),
        page(vec![third], None),
    ]
    .into_iter();
    let out = collect_lists(Output::new("graphql", Some("123".into())), 2, None, |_| {
        Ok(pages.next().unwrap())
    })
    .unwrap();
    assert!(!out.complete);
    let lists = out.lists.unwrap();
    assert_eq!(lists.len(), 1);
    let result = &lists[0];
    assert_eq!(
        result.management_sections,
        vec![Pinned, OwnedSubscribed, Unsectioned]
    );
    assert_eq!(result.subscribed, Some(false));
    assert_eq!(result.pinned, Some(false));
    assert_eq!(result.is_member, Some(false));
    assert_eq!(result.description, second.description);
    assert_eq!(result.visibility, second.visibility);
    assert_eq!(result.owner, second.owner);
    assert!(
        !out.warnings
            .iter()
            .any(|warning| warning.contains("conflicted"))
    );
}

#[test]
fn duplicate_list_conflicts_keep_first_known_fields_with_static_warning() {
    let mut first = list();
    first.description = Some("First".into());
    first.visibility = Some(ListVisibility::Private);
    first.owner = Some(Identity {
        id: "123".into(),
        handle: "first".into(),
    });
    first.subscribed = Some(false);
    first.pinned = Some(true);
    first.is_member = Some(false);
    let mut later = first.clone();
    later.name = "SYNTHETIC_PRIVATE_NAME".into();
    later.description = Some("SYNTHETIC_PRIVATE_DESCRIPTION".into());
    later.visibility = Some(ListVisibility::Public);
    later.owner = Some(Identity {
        id: "789".into(),
        handle: "other".into(),
    });
    later.subscribed = Some(true);
    later.pinned = Some(false);
    later.is_member = Some(true);
    later.management_sections = vec![OwnedSubscribed];
    let out = collect_lists(Output::new("graphql", None), 1, None, |_| {
        Ok(page(vec![first.clone(), later.clone()], None))
    })
    .unwrap();
    let mut expected = first;
    expected.management_sections.push(OwnedSubscribed);
    assert_eq!(out.lists.unwrap(), vec![expected]);
    assert_eq!(
        out.warnings
            .iter()
            .filter(|warning| warning.contains("conflicted"))
            .count(),
        1
    );
    assert!(!out.warnings.join(" ").contains("SYNTHETIC_PRIVATE"));
}

#[test]
fn each_optional_boolean_conflict_warns_independently_without_overwriting_false() {
    for field in 0..3 {
        let mut first = list();
        let mut later = list();
        match field {
            0 => {
                first.subscribed = Some(false);
                later.subscribed = Some(true);
            }
            1 => {
                first.pinned = Some(false);
                later.pinned = Some(true);
            }
            _ => {
                first.is_member = Some(false);
                later.is_member = Some(true);
            }
        }
        let expected = first.clone();
        let out = collect_lists(Output::new("graphql", None), 1, None, |_| {
            Ok(page(vec![first.clone(), later.clone()], None))
        })
        .unwrap();
        assert_eq!(out.lists.unwrap(), vec![expected]);
        assert_eq!(
            out.warnings
                .iter()
                .filter(|warning| warning.contains("conflicted"))
                .count(),
            1
        );
    }
}

#[test]
fn list_collection_bounds_repeat_empty_and_failure_semantics() {
    let mut calls = 0;
    let out = collect_lists(
        Output::new("graphql", None),
        3,
        Some("same".into()),
        |cursor| {
            calls += 1;
            assert_eq!(cursor, Some("same"));
            Ok(page(vec![list()], Some("same")))
        },
    )
    .unwrap();
    assert_eq!(calls, 1);
    assert_eq!(out.stop_reason, "repeated_cursor");
    assert!(!out.complete);
    let out = collect_lists(Output::new("graphql", None), 1, None, |_| {
        Ok(page(vec![], Some("next")))
    })
    .unwrap();
    assert_eq!(out.stop_reason, "page_limit");
    assert_eq!(out.lists, Some(vec![]));
    assert_eq!(out.next_cursor.as_deref(), Some("next"));
    let out = collect_lists(Output::new("graphql", None), 1, None, |_| {
        Ok(page(vec![], None))
    })
    .unwrap();
    assert_eq!(out.stop_reason, "cursor_exhausted");
    assert!(!out.complete && !out.request_failed);
    assert_eq!(out.lists, Some(vec![]));
    assert!(
        collect_lists(Output::new("graphql", None), 2, None, |_| Err(Error::new(
            Kind::Network,
            "Synthetic failure"
        )))
        .is_err()
    );
    let mut calls = 0;
    let out = collect_lists(Output::new("graphql", None), 3, None, |_| {
        calls += 1;
        if calls == 1 {
            Ok(page(vec![list()], Some("next")))
        } else {
            Err(Error::new(Kind::ProtocolChanged, "Synthetic failure"))
        }
    })
    .unwrap();
    assert_eq!(calls, 2);
    assert!(out.request_failed && !out.complete);
    assert_eq!(out.lists.unwrap().len(), 1);
    assert_eq!(out.next_cursor.as_deref(), Some("next"));
}

#[test]
fn collectors_clear_unrelated_optional_collections() {
    let mut seed = Output::new("graphql", None);
    seed.users = Some(vec![Identity {
        id: "123".into(),
        handle: "fixture".into(),
    }]);
    seed.lists = Some(vec![list()]);
    let lists = collect_lists(seed.clone(), 1, None, |_| Ok(page(vec![], None))).unwrap();
    assert!(lists.posts.is_empty() && lists.users.is_none());
    assert_eq!(lists.lists, Some(vec![]));
    let posts = collect(seed.clone(), 1, None, |_| {
        Ok(Page {
            posts: vec![],
            next_cursor: None,
            warnings: vec![],
        })
    })
    .unwrap();
    assert!(posts.users.is_none() && posts.lists.is_none());
    let users = collect_users(seed, 1, None, |_| {
        Ok(UsersPage {
            users: vec![],
            next_cursor: None,
            warnings: vec![],
        })
    })
    .unwrap();
    assert!(users.posts.is_empty() && users.lists.is_none());
    assert_eq!(users.users, Some(vec![]));
}
