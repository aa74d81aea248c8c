use xcli::credentials::database::{Cell, CookieRow, SqlError, check_meta, check_table_kind, select_pair};
use xcli::credentials::{Chrome, DirEntry, authorize, valid_profile};
use xcli::error::Kind;

#[test]
fn consent_and_profile_validation_precede_all_access() {
    for profile in ["Default", "../../escape", "/absolute", "Profile 1/Cookies"] {
        assert_eq!(authorize(profile, false).unwrap_err().kind, Kind::ConsentRequired);
    }
    for profile in [
        "../Default",
        "Default/",
        "Profile -1",
        "Profile 01",
        "Profile ",
        "Profile 1\\evil",
        "Profile ١",
        "Default\0",
    ] {
        assert_eq!(authorize(profile, true).unwrap_err().kind, Kind::InvalidInput);
    }
    authorize("Profile 0", true).unwrap();
    authorize("Profile 12", true).unwrap();
    assert!(valid_profile("Profile 4294967296"));
    assert!(!valid_profile("Profile 12345678901"));
}

#[test]
fn discovery_keeps_profile_directories_sorted() {
    let chrome = Chrome::new("/Chrome".into());
    let entries = [
        ("Profile 20", true),
        ("Default", true),
        ("Guest Profile", true),
        ("Profile 01", true),
        ("Profile 1", true),
        ("Profile 3", false),
        ("System Profile", true),
    ]
    .into_iter()
    .map(|(name, is_dir)| DirEntry {
        name: name.into(),
        is_dir,
    })
    .collect();
    let names: Vec<String> = chrome.discover(entries).into_iter().map(|p| p.directory).collect();
    assert_eq!(names, vec!["Default", "Profile 1", "Profile 20"]);
}

fn text(s: &str) -> Cell {
    Cell::Text(s.as_bytes().to_vec())
}

fn blob() -> Cell {
    let mut b = b"v10".to_vec();
    b.extend_from_slice(&[7u8; 48]);
    Cell::Blob(b)
}

fn row(host: &str, name: &str) -> CookieRow {
    CookieRow {
        host: text(host),
        name: text(name),
        value: text(""),
        encrypted: blob(),
        partition: text(""),
        ancestor: Cell::Integer(1),
        scheme: Cell::Integer(2),
        port: Cell::Integer(443),
    }
}

#[test]
fn schema_rows_must_be_version_24_tables() {
    check_table_kind(Ok(text("table"))).unwrap();
    assert_eq!(check_table_kind(Ok(text("view"))).unwrap_err().kind, Kind::Unsupported);
    assert_eq!(check_table_kind(Err(SqlError::Busy)).unwrap_err().kind, Kind::Storage);
    assert_eq!(check_table_kind(Err(SqlError::Other)).unwrap_err().kind, Kind::Unsupported);
    let good = vec![(text("version"), text("24")), (text("last_compatible_version"), Cell::Integer(24))];
    check_meta(&good, false).unwrap();
    assert_eq!(check_meta(&good, true).unwrap_err().kind, Kind::Storage);
    for version in ["23", "25", "0", "24junk", "024"] {
        let rows = vec![(text("version"), text(version)), (text("last_compatible_version"), text("24"))];
        assert_eq!(check_meta(&rows, false).unwrap_err().kind, Kind::Unsupported);
    }
    assert_eq!(check_meta(&vec![], false).unwrap_err().kind, Kind::Unsupported);
    let repeated = vec![(text("version"), text("24")), (text("version"), text("24"))];
    assert_eq!(check_meta(&repeated, false).unwrap_err().kind, Kind::Unsupported);
}

#[test]
fn pair_rows_reject_mixing_duplicates_and_foreign_storage() {
    let p = select_pair(&vec![row(".x.com", "auth_token"), row(".x.com", "ct0")], false);
    assert!(p.is_ok());
    assert_eq!(
        select_pair(&vec![row(".x.com", "auth_token"), row("x.com", "ct0")], false).err().unwrap().kind,
        Kind::Authentication
    );
    assert_eq!(
        select_pair(&vec![row(".x.com", "ct0"), row(".x.com", "ct0")], false).err().unwrap().kind,
        Kind::Authentication
    );
    assert_eq!(
        select_pair(
            &vec![row(".x.com", "auth_token"), row(".x.com", "ct0"), row(".x.com", "ct0")],
            false
        )
        .err()
        .unwrap()
        .kind,
        Kind::Authentication
    );
    assert_eq!(select_pair(&vec![row(".x.com", "auth_token")], false).err().unwrap().kind, Kind::Authentication);
    assert_eq!(
        select_pair(&vec![row(".x.com", "auth_token"), row(".x.com", "ct0")], true).err().unwrap().kind,
        Kind::Storage
    );
    let mut plaintext = row(".x.com", "ct0");
    plaintext.value = text("synthetic-plaintext");
    let mut partitioned = row(".x.com", "ct0");
    partitioned.partition = text("https://x.com");
    let mut ancestor = row(".x.com", "ct0");
    ancestor.ancestor = Cell::Integer(2);
    let mut scheme = row(".x.com", "ct0");
    scheme.scheme = Cell::Integer(1);
    let mut port = row(".x.com", "ct0");
    port.port = Cell::Integer(8443);
    let mut empty = row(".x.com", "ct0");
    empty.encrypted = Cell::Blob(vec![]);
    let mut v20 = row(".x.com", "ct0");
    v20.encrypted = Cell::Blob(b"v20xxxxxxxxxxxxxxxxx".to_vec());
    let mut real = row(".x.com", "ct0");
    real.port = Cell::Real;
    for bad in [plaintext, partitioned, ancestor, scheme, port, empty, v20, real] {
        assert_eq!(
            select_pair(&vec![row(".x.com", "auth_token"), bad], false).err().unwrap().kind,
            Kind::Unsupported
        );
    }
}
