use sha2::{Digest, Sha256};
use xcli::cache::{
    Cache, CacheGeneration, ConditionalPut, Cooldowns, Entries, Entry, GenerationMetadata, MAX_COOLDOWNS,
    MAX_SCOPE_BYTES, MAX_SCOPE_ENTRIES, check_cooldown_at, cooldown_at, digest, lookup, matches_scope,
};
use xcli::error::Kind;
use xcli::model::{Output, now};

fn cache() -> Cache {
    Cache::new("/state/cache".into())
}

fn expected_digest(backend: &str, account: Option<&str>, key: Option<&str>) -> String {
    let bytes = serde_json::to_vec(&(backend, account, key)).unwrap();
    Sha256::digest(bytes)
        .iter()
        .map(|b| format!("{b:02x}"))
        .collect()
}

fn entry(backend: &str, account: Option<&str>, key: &str, output: Output, size: usize) -> Entry {
    Entry {
        key: digest(backend, account, Some(key)).unwrap(),
        output,
        key_size: 66,
        output_size: size,
    }
}

#[test]
fn digests_are_hex_sha256_of_the_json_triple() {
    let d = digest("one", Some("123"), Some("../../query")).unwrap();
    assert_eq!(d, expected_digest("one", Some("123"), Some("../../query")));
    assert_eq!(d.len(), 64);
    assert!(!d.contains("query"));
    assert_ne!(digest("one", None, None).unwrap(), digest("one", Some(""), None).unwrap());
    assert_ne!(
        digest("ab", Some("c"), Some("d")).unwrap(),
        digest("a", Some("bc"), Some("d")).unwrap()
    );
}

#[test]
fn isolated_backend_stable_account_public_scope_and_key() {
    let c = cache();
    let mut scope = Entries::new();
    c.put(&mut scope, "one", Some("123"), "../../query", Output::new("one", Some("123".into())), 300)
        .unwrap();
    for (backend, account, key) in [
        ("two", Some("123"), "../../query"),
        ("one", Some("456"), "../../query"),
        ("one", None, "../../query"),
        ("one", Some("123"), "different"),
    ] {
        let r = c.get(scope.clone(), backend, account, key, 100);
        assert!(matches!(r, Ok(None)), "{backend} {account:?} {key}");
    }
    let hit = c
        .get(scope.clone(), "one", Some("123"), "../../query", 100)
        .unwrap()
        .unwrap();
    assert_eq!(hit.provenance.cache, "hit");
    assert_eq!(hit.provenance.account_id.as_deref(), Some("123"));
    assert!(scope.items.iter().all(|e| !e.key.contains("query")));
}

#[test]
fn freshness_boundary_age_future_and_zero_ttl() {
    let c = cache();
    let mut scope = Entries::new();
    let mut output = Output::new("one", None);
    output.provenance.retrieved_at = now() - 10;
    output.provenance.age_seconds = 999;
    c.put(&mut scope, "one", None, "k", output.clone(), 300).unwrap();
    let hit = c.get(scope.clone(), "one", None, "k", 100).unwrap().unwrap();
    assert!(hit.provenance.age_seconds >= 10 && hit.provenance.age_seconds < 100);
    assert_eq!(hit.provenance.retrieved_at, output.provenance.retrieved_at);
    assert!(c.get(scope.clone(), "one", None, "k", 10).unwrap().is_none());
    assert!(c.get(scope.clone(), "one", None, "k", 0).unwrap().is_none());
    output.provenance.retrieved_at = now() + 100;
    assert!(c.put(&mut scope, "one", None, "k", output.clone(), 300).is_err());
    let future = Entries {
        items: vec![entry("one", None, "k", output, 300)],
    };
    assert!(c.get(future, "one", None, "k", u64::MAX).unwrap().is_none());
}

#[test]
fn lookup_ages_are_exact() {
    let mut o = Output::new("one", None);
    o.provenance.retrieved_at = 1000;
    let hit = lookup(Some(o.clone()), "one", None, 100, 1099).unwrap().unwrap();
    assert_eq!(hit.provenance.age_seconds, 99);
    assert_eq!(hit.provenance.cache, "hit");
    assert!(lookup(Some(o.clone()), "one", None, 100, 1100).unwrap().is_none());
    assert!(lookup(Some(o.clone()), "one", None, 100, 999).unwrap().is_none());
    assert_eq!(lookup(Some(o), "two", None, 100, 1050).unwrap_err().kind, Kind::Storage);
    assert!(lookup(None, "one", None, 100, 1050).unwrap().is_none());
}

#[test]
fn validates_provenance_on_put_and_hit() {
    let c = cache();
    let mut scope = Entries::new();
    let output = Output::new("evil", Some("wrong".into()));
    assert_eq!(
        c.put(&mut scope, "one", Some("123"), "k", output.clone(), 300).unwrap_err().kind,
        Kind::Storage
    );
    assert!(scope.items.is_empty());
    let planted = Entries {
        items: vec![entry("one", Some("123"), "k", output.clone(), 300)],
    };
    assert_eq!(c.get(planted, "one", Some("123"), "k", 100).unwrap_err().kind, Kind::Storage);
    assert!(!matches_scope(&output, "one", Some("123")));
    assert!(matches_scope(&output, "evil", Some("wrong")));
}

#[test]
fn bounded_entries_bytes_and_oversized_outputs_remain_recoverable() {
    let c = cache();
    let mut scope = Entries::new();
    for n in 0..MAX_SCOPE_ENTRIES {
        let mut output = Output::new("one", None);
        output.provenance.retrieved_at = now() - (MAX_SCOPE_ENTRIES - n) as u64;
        scope.items.push(entry("one", None, &n.to_string(), output, 300));
    }
    c.put(&mut scope, "one", None, "latest", Output::new("one", None), 300).unwrap();
    assert_eq!(scope.items.len(), MAX_SCOPE_ENTRIES);
    let oldest = digest("one", None, Some("0")).unwrap();
    assert!(!scope.items.iter().any(|e| e.key == oldest));
    assert!(c.get(scope.clone(), "one", None, "latest", 100).unwrap().is_some());

    let mut older = Output::new("one", None);
    older.provenance.retrieved_at = now() - 2;
    let mut newer = older.clone();
    newer.provenance.retrieved_at += 1;
    let mut scope = Entries {
        items: vec![
            entry("one", None, "older", older, MAX_SCOPE_BYTES / 3),
            entry("one", None, "newer", newer, MAX_SCOPE_BYTES / 3),
        ],
    };
    c.put(&mut scope, "one", None, "latest", Output::new("one", None), MAX_SCOPE_BYTES / 2).unwrap();
    assert_eq!(scope.items.len(), 2);
    assert!(c.get(scope.clone(), "one", None, "older", 100).unwrap().is_none());
    assert!(c.get(scope.clone(), "one", None, "newer", 100).unwrap().is_some());
    assert!(c.get(scope.clone(), "one", None, "latest", 100).unwrap().is_some());
    c.put(&mut scope, "one", None, "latest", Output::new("one", None), MAX_SCOPE_BYTES).unwrap();
    assert!(c.get(scope.clone(), "one", None, "latest", 100).unwrap().is_none());
    c.put(&mut scope, "one", None, "latest", Output::new("one", None), 300).unwrap();
    assert!(c.get(scope.clone(), "one", None, "latest", 100).unwrap().is_some());
}

#[test]
fn cooldown_persists_preserves_max_and_survives_purge() {
    let c = cache();
    let mut cooldowns = Cooldowns::new();
    c.cooldown(&mut cooldowns, "one", Some("123"), 120).unwrap();
    let before = cooldowns.entries.clone();
    c.cooldown(&mut cooldowns, "one", Some("123"), 1).unwrap();
    assert_eq!(cooldowns.entries, before);
    let error = c.check_cooldown(&cooldowns, "one", Some("123")).unwrap_err();
    assert_eq!(error.kind, Kind::RateLimit);
    assert!(error.retry_after_seconds.is_some_and(|n| n > 0 && n <= 120));
    c.check_cooldown(&cooldowns, "two", Some("123")).unwrap();
    c.check_cooldown(&cooldowns, "one", Some("456")).unwrap();
    c.check_cooldown(&cooldowns, "one", None).unwrap();
    let expired = Cooldowns {
        entries: vec![(digest("one", Some("123"), None).unwrap(), now() - 1)],
    };
    c.check_cooldown(&expired, "one", Some("123")).unwrap();
    let mut cooldowns = Cooldowns::new();
    c.cooldown(&mut cooldowns, "one", None, 0).unwrap();
    c.check_cooldown(&cooldowns, "one", None).unwrap();
}

#[test]
fn cooldown_deadlines_are_exact() {
    let mut cooldowns = Cooldowns::new();
    cooldown_at(&mut cooldowns, "one", None, 60, 1000).unwrap();
    let e = check_cooldown_at(&cooldowns, "one", None, 1000).unwrap_err();
    assert_eq!(e.retry_after_seconds, Some(60));
    assert_eq!(e.message, "Backend/account is cooling down; retry later");
    assert_eq!(check_cooldown_at(&cooldowns, "one", None, 1059).unwrap_err().retry_after_seconds, Some(1));
    check_cooldown_at(&cooldowns, "one", None, 1060).unwrap();
    cooldown_at(&mut cooldowns, "one", None, u64::MAX, 1000).unwrap();
    assert_eq!(cooldowns.entries[0].1, u64::MAX);
}

#[test]
fn cooldown_metadata_is_bounded_without_evicting_active_deadlines() {
    let c = cache();
    let mut cooldowns = Cooldowns::new();
    for n in 0..MAX_COOLDOWNS {
        cooldowns.entries.push((digest("one", Some(&n.to_string()), None).unwrap(), now() + 120));
    }
    let full = cooldowns.entries.clone();
    assert_eq!(c.cooldown(&mut cooldowns, "one", None, 120).unwrap_err().kind, Kind::Storage);
    cooldowns.entries = full.clone();
    c.cooldown(&mut cooldowns, "one", Some("0"), 240).unwrap();
    assert!(c.check_cooldown(&cooldowns, "one", Some("0")).unwrap_err().retry_after_seconds.unwrap() > 120);
    let mut expired = Cooldowns {
        entries: full.into_iter().map(|(k, _)| (k, now() - 1)).collect(),
    };
    c.cooldown(&mut expired, "one", None, 120).unwrap();
    assert_eq!(expired.entries.len(), 1);
}

#[test]
fn foreign_root_and_changed_generation_fence_writes() {
    let c = cache();
    let mut scope = Entries::new();
    let token = c.capture_generation(&None).unwrap();
    assert_eq!(token.value, 0);
    let foreign = CacheGeneration {
        root: "/elsewhere".into(),
        value: 0,
    };
    assert_eq!(
        c.put_if_generation(&foreign, &None, &mut scope, "one", None, "k", Output::new("one", None), 300)
            .unwrap_err()
            .kind,
        Kind::Storage
    );
    let advanced = c.invalidate_scope(&None).unwrap();
    assert_eq!(advanced, GenerationMetadata { version: 1, generation: 1 });
    assert_eq!(
        c.put_if_generation(&token, &Some(advanced), &mut scope, "one", None, "k", Output::new("one", None), 300)
            .unwrap(),
        ConditionalPut::GenerationChanged
    );
    assert!(scope.items.is_empty());
    assert_eq!(
        c.put_if_generation(&token, &None, &mut scope, "one", None, "k", Output::new("one", None), 300)
            .unwrap(),
        ConditionalPut::Applied
    );
    assert_eq!(scope.items.len(), 1);
    let bad = GenerationMetadata { version: 2, generation: 5 };
    assert_eq!(c.capture_generation(&Some(bad)).unwrap_err().kind, Kind::Storage);
    assert_eq!(c.purge(&Some(bad)).unwrap_err().kind, Kind::Storage);
    let last = GenerationMetadata { version: 1, generation: u64::MAX };
    assert_eq!(c.purge(&Some(last)).unwrap_err().kind, Kind::Storage);
    assert_eq!(
        c.purge(&Some(advanced)).unwrap(),
        GenerationMetadata { version: 1, generation: 2 }
    );
}

#[test]
fn foreign_root_rejected_and_matching_put_retains_validation_and_size_policy() {
    let c = cache();
    let other = Cache::new("/other/cache".into());
    let token = c.capture_generation(&None).unwrap();
    let existing = Output::new("graphql", Some("123".into()));
    let mut scope = Entries {
        items: vec![entry("graphql", Some("123"), "old", existing, 300)],
    };
    let put = |cache: &Cache, scope: &mut Entries, out: Output, size: usize| {
        cache.put_if_generation(&token, &None, scope, "graphql", Some("123"), "key", out, size)
    };
    // A token from another root is refused and leaves the scope as it was.
    let e = put(&other, &mut scope, Output::new("graphql", Some("123".into())), 300).unwrap_err();
    assert_eq!(e.kind, Kind::Storage);
    assert_eq!(scope.items.len(), 1);
    let mut future = Output::new("graphql", Some("123".into()));
    future.provenance.retrieved_at = now() + 1000;
    for out in [Output::new("wrong", None), Output::new("graphql", Some("456".into())), future] {
        assert_eq!(put(&c, &mut scope, out, 300).unwrap_err().kind, Kind::Storage);
        assert_eq!(scope.items.len(), 1);
        assert_eq!(scope.items[0].key, digest("graphql", Some("123"), Some("old")).unwrap());
    }
    assert_eq!(
        put(&c, &mut scope, Output::new("graphql", Some("123".into())), 300).unwrap(),
        ConditionalPut::Applied
    );
    assert!(c.get(scope.clone(), "graphql", Some("123"), "key", 100).unwrap().is_some());
    // An oversized output is not cached, and no older hit under its key remains.
    let large = Output::new("graphql", Some("123".into()));
    assert_eq!(
        put(&c, &mut scope, large, MAX_SCOPE_BYTES).unwrap(),
        ConditionalPut::Applied
    );
    assert!(c.get(scope.clone(), "graphql", Some("123"), "key", 100).unwrap().is_none());
    assert_eq!(
        put(&c, &mut scope, Output::new("graphql", Some("123".into())), 300).unwrap(),
        ConditionalPut::Applied
    );
}
