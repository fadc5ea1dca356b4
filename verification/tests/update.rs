use nsr_ssh::update::{is_newer, parse_version, update_from_release};

#[test]
fn parse_version_reads_three_numbers() {
    assert_eq!(parse_version("1.4.2"), [1, 4, 2]);
    assert_eq!(parse_version("10.0"), [10, 0, 0]);
    assert_eq!(parse_version("7"), [7, 0, 0]);
    assert_eq!(parse_version(""), [0, 0, 0]);
    assert_eq!(parse_version("1.x.3"), [1, 0, 3]);
    assert_eq!(parse_version("1.2.3.4"), [1, 2, 0]);
}

#[test]
fn is_newer_compares_major_minor_patch() {
    assert!(is_newer("1.2.10", "1.2.9"));
    assert!(is_newer("2.0.0", "1.99.99"));
    assert!(is_newer("1.3.0", "1.2.9"));
    assert!(!is_newer("1.2.3", "1.2.3"));
    assert!(!is_newer("1.2.2", "1.2.3"));
    assert!(!is_newer("1.2.3.4", "1.2.3"));
    assert!(is_newer("0.1", "0.0.9"));
}

#[test]
fn newer_is_irreflexive_and_asymmetric_on_examples() {
    for v in ["0.0.0", "1.2.3", "4.5", "x"] {
        assert!(!is_newer(v, v));
    }
    assert!(is_newer("1.2.4", "1.2.3") && !is_newer("1.2.3", "1.2.4"));
    assert!(is_newer("3.0.0", "2.0.0") && is_newer("2.0.0", "1.0.0") && is_newer("3.0.0", "1.0.0"));
}

#[test]
fn update_from_release_drops_the_v_prefix() {
    let u = update_from_release("v1.3.0", "https://example.org/r/1.3.0", "1.2.0").unwrap();
    assert_eq!(u.latest_version, "v1.3.0");
    assert_eq!(u.release_url, "https://example.org/r/1.3.0");
    assert!(update_from_release("v1.2.0", "u", "v1.2.0").is_none());
    assert!(update_from_release("1.1.9", "u", "1.2.0").is_none());
    assert!(update_from_release("vv2.0.0", "u", "1.0.0").is_some());
}
