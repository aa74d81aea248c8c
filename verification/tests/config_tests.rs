use xcli::config::{Config, Connection, verify_identity};
use xcli::error::Kind;
use xcli::model::Identity;

fn identity(id: &str, handle: &str) -> Identity {
    Identity {
        id: id.into(),
        handle: handle.into(),
    }
}
fn add(c: &mut Config, profile: &str, alias: &str, id: &str, handle: &str) -> Connection {
    c.add(profile.into(), Some(alias.into()), identity(id, handle))
        .unwrap()
}
#[test]
fn aliases_handles_defaults_and_renames() {
    let mut c = Config::default();
    let a = add(&mut c, "Default", "work", "1", "Alice");
    let b = add(&mut c, "Profile 1", "alice", "2", "Bob");
    assert_eq!(c.resolve(Some("@ALICE"), None).unwrap().id, a.id);
    assert_eq!(c.resolve(Some("alice"), None).unwrap().id, b.id);
    assert_eq!(c.resolve(None, None).unwrap().id, a.id);
    assert!(c.resolve(Some("Bob"), None).is_err());
    c.set_default("alice").unwrap();
    assert_eq!(c.default.as_deref(), Some(b.id.as_str()));
    c.rename(&b.id, Some("personal".into())).unwrap();
    assert_eq!(c.resolve(None, None).unwrap().id, b.id);
    assert!(c.rename(&b.id, Some("WORK".into())).is_err());
    assert_eq!(c.resolve(Some("personal"), None).unwrap().id, b.id);
    assert!(c.resolve(Some("work"), Some(&b.id)).is_err());
    assert!(c.set_default("missing").is_err());
    assert_eq!(c.default.as_deref(), Some(b.id.as_str()));
}
#[test]
fn same_id_aliases_do_not_bypass_connection_ambiguity() {
    let mut c = Config::default();
    let a = add(&mut c, "Default", "first", "1", "alice");
    let b = add(&mut c, "Profile 1", "second", "1", "renamed");
    for selector in [None, Some("first"), Some("second"), Some("@alice")] {
        assert!(c.resolve(selector, None).is_err());
    }
    assert_eq!(c.resolve(Some("first"), Some(&b.id)).unwrap().id, b.id);
    c.prefer(&a.id).unwrap();
    assert_eq!(c.resolve(Some("second"), None).unwrap().id, a.id);
    c.prefer(&b.id).unwrap();
    assert!(!c.connections[0].preferred);
    assert_eq!(c.resolve(Some("@alice"), None).unwrap().id, b.id);
    assert_eq!(c.resolve(None, Some(&a.id)).unwrap().id, a.id);
}
#[test]
fn local_account_resolution_needs_no_profile_preference() {
    let mut c = Config::default();
    let a = add(&mut c, "Default", "first", "1", "alice");
    let b = add(&mut c, "Profile 1", "second", "1", "renamed");
    add(&mut c, "Profile 2", "alice", "2", "bob");
    for selector in ["FIRST", "second", "@ALICE", "@renamed"] {
        assert_eq!(c.resolve_account_id(selector, None).unwrap(), "1");
        assert!(c.resolve(Some(selector), None).is_err());
    }
    assert_eq!(c.resolve_account_id("alice", None).unwrap(), "2");
    assert_eq!(c.resolve_account_id("first", Some(&b.id)).unwrap(), "1");
    assert_eq!(c.resolve_account_id("@alice", Some(&a.id)).unwrap(), "1");
    // Explicit handle matching is connection-specific, even for the same ID.
    assert!(c.resolve_account_id("@alice", Some(&b.id)).is_err());
    for selector in ["", "missing", "@missing", "@", "bob"] {
        assert!(c.resolve_account_id(selector, None).is_err());
        assert!(c.resolve_account_id(selector, Some(&a.id)).is_err());
    }
    assert!(c.resolve_account_id("alice", Some(&a.id)).is_err());
    assert!(c.resolve_account_id("first", Some("missing")).is_err());
}
#[test]
fn local_account_resolution_rejects_reused_handles_and_invalid_config() {
    let mut c = Config::default();
    let a = add(&mut c, "Default", "first", "1", "same");
    let b = add(&mut c, "Profile 1", "second", "2", "same");
    assert!(c.resolve_account_id("@same", None).is_err());
    assert_eq!(c.resolve_account_id("@SAME", Some(&a.id)).unwrap(), "1");
    assert_eq!(c.resolve_account_id("@same", Some(&b.id)).unwrap(), "2");
    c.default = Some("missing".into());
    assert!(c.resolve_account_id("first", None).is_err());
    assert!(c.resolve_account_id("first", Some(&a.id)).is_err());
    assert!(Config::default().resolve_account_id("first", None).is_err());
}
#[test]
fn reject_invalid_profiles_aliases_and_duplicates_without_mutating() {
    let mut c = Config::default();
    for profile in [
        "../Default",
        "/Default",
        "Profile 1/sub",
        "Guest Profile",
        "Profile -1",
        "Profile 01",
        "Profile ",
    ] {
        assert!(c.add(profile.into(), None, identity("1", "a")).is_err());
    }
    for alias in ["@alice", "", "a/b", "has space"] {
        assert!(
            c.add("Default".into(), Some(alias.into()), identity("1", "a"))
                .is_err()
        );
    }
    assert!(c.connections.is_empty());
    add(&mut c, "Default", "work", "1", "a");
    assert!(
        c.add("Profile 1".into(), Some("WORK".into()), identity("2", "b"))
            .is_err()
    );
    assert!(c.add("Default".into(), None, identity("2", "b")).is_err());
    assert_eq!(c.connections.len(), 1);
}
#[test]
fn identity_verification_uses_id_not_handle() {
    assert!(verify_identity(&identity("1", "old"), &identity("1", "new")).is_ok());
    assert_eq!(
        verify_identity(&identity("1", "same"), &identity("2", "same"))
            .unwrap_err()
            .kind,
        Kind::IdentityMismatch
    );
}
#[test]
fn reused_handle_requires_connection() {
    let mut c = Config::default();
    let a = add(&mut c, "Default", "a", "1", "same");
    add(&mut c, "Profile 1", "b", "2", "same");
    assert!(c.resolve(Some("@same"), None).is_err());
    assert_eq!(c.resolve(Some("@same"), Some(&a.id)).unwrap().id, a.id);
}
#[test]
fn explicit_removal_clears_default() {
    let mut c = Config::default();
    let a = add(&mut c, "Default", "a1", "1", "user1");
    add(&mut c, "Profile 2", "a2", "2", "user2");
    assert_eq!(c.default.as_deref(), Some(a.id.as_str()));
    c.remove(&a.id).unwrap();
    assert_eq!(c.connections.len(), 1);
    assert!(c.default.is_none());
    assert!(c.resolve(None, Some(&a.id)).is_err());
    assert!(c.remove(&a.id).is_err());
}
#[test]
fn loaded_configuration_is_validated_never_repaired() {
    let empty = Config::load(None).unwrap();
    assert!(empty.connections.is_empty() && empty.default.is_none());
    let mut c = Config::default();
    let a = add(&mut c, "Default", "work", "1", "alice");
    let loaded = Config::load(Some(c.clone())).unwrap();
    assert_eq!(loaded.resolve(None, None).unwrap().id, a.id);
    let mut bad = c.clone();
    bad.default = Some("missing".into());
    assert_eq!(Config::load(Some(bad)).unwrap_err().kind, Kind::InvalidInput);
    let mut bad = c;
    bad.default = None;
    bad.connections[0].profile = "../escape".into();
    assert!(Config::load(Some(bad)).is_err());
}
