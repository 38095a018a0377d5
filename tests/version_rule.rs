use version_control::date::Date;
use version_control::version::{download_url, is_newer, remote_url, Version};

fn record(id: &str, version: &str) -> Version {
    Version { id: id.to_string(), version: version.to_string(), release_date: Date { year: 2024, month: 1, day: 1 } }
}

#[test]
fn a_record_is_not_newer_than_itself() {
    let v = record("app", "1.0.0");
    assert!(!is_newer(&v, &v));
    assert!(!is_newer(&Version::default(), &Version::default()));
}

#[test]
fn any_different_token_is_newer_in_both_directions() {
    let old = record("app", "1.0.0");
    let new = record("app", "1.1.0");
    assert!(is_newer(&old, &new));
    assert!(is_newer(&new, &old));
    assert!(is_newer(&record("app", "10"), &record("app", "9")));
}

#[test]
fn the_date_and_id_do_not_count() {
    let a = record("app", "1.0.0");
    let mut b = record("other", "1.0.0");
    b.release_date = Date { year: 2020, month: 5, day: 5 };
    assert!(!is_newer(&a, &b));
}

#[test]
fn empty_record_is_older_than_any_release() {
    let empty = Version::default();
    assert_eq!(empty.id, "");
    assert_eq!(empty.version, "");
    assert_eq!(empty.release_date, Date { year: 1970, month: 1, day: 1 });
    assert!(is_newer(&empty, &record("app", "0.0.1")));
    assert!(is_newer(&empty, &record("", "x")));
}

#[test]
fn addresses_are_built_from_the_base_and_id() {
    assert_eq!(remote_url("https://example.com/version-control-api", "app"), "https://example.com/version-control-api/app");
    assert_eq!(download_url("https://example.com/download/", "app"), "https://example.com/download/app.zip");
    assert_eq!(download_url("", ""), ".zip");
}
