use xcli::error::Kind;
use xcli::input::{handle, id, post};

#[test]
fn urls() {
    for v in [
        "20",
        "https://x.com/jack/status/20?s=1",
        "https://twitter.com/i/web/status/20",
        "https://x.com/jack/status/20/photo/1",
    ] {
        assert_eq!(post(v).unwrap(), "20");
    }
}

#[test]
fn reject() {
    for v in [
        "",
        "0",
        "-1",
        "18446744073709551616",
        "https://x.com.evil/u/status/20",
        "https://x.com@evil/u/status/20",
        "https://x.com/u/status/20/extra",
        "https://x.com/u/status/%32%30",
        "https://x.com/u/status/20/../21",
    ] {
        assert!(post(v).is_err(), "{v}");
    }
}

#[test]
fn ids_and_handles() {
    assert_eq!(id("18446744073709551615").unwrap(), "18446744073709551615");
    assert_eq!(id("0").unwrap_err().kind, Kind::InvalidInput);
    assert_eq!(handle("@Fixture_1").unwrap(), "Fixture_1");
    assert!(handle("invalid/handle").is_err());
    assert!(handle("").is_err());
}
