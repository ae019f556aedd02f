use trace::update_check::{is_newer, update_for_release};

#[test]
fn compares_versions_numerically_not_lexically() {
    assert!(is_newer("0.1.10", "0.1.9"));
    assert!(!is_newer("0.1.9", "0.1.10"));
    assert!(is_newer("0.2.0", "0.1.99"));
    assert!(!is_newer("0.1.5", "0.1.5"));
    assert!(is_newer("v1.0.0", "0.9.0"));
}

#[test]
fn missing_segments_count_as_zero() {
    assert!(!is_newer("1.0", "1.0.0"));
    assert!(!is_newer("1.0.0", "1.0"));
    assert!(is_newer("1.0.1", "1.0"));
}

#[test]
fn non_numeric_segments_count_as_zero() {
    assert!(!is_newer("1.x.0", "1.0.0"));
    assert!(is_newer("1.0.0", "0.beta.9"));
    assert!(!is_newer("vv", "0"));
}

#[test]
fn newer_is_not_symmetric() {
    let pairs = [("0.3.1", "0.3.0"), ("2", "1.99.99"), ("v0.0.2", "v0.0.1")];
    for (a, b) in pairs {
        assert!(is_newer(a, b));
        assert!(!is_newer(b, a));
    }
}

#[test]
fn newer_is_transitive_on_examples() {
    assert!(is_newer("1.2.0", "1.1.9"));
    assert!(is_newer("1.1.9", "1.1.2"));
    assert!(is_newer("1.2.0", "1.1.2"));
}

#[test]
fn update_offered_only_for_newer_tag() {
    let info = update_for_release(
        "0.1.0".to_string(),
        "v0.2.0".to_string(),
        "https://example.com/r".to_string(),
        None,
    )
    .expect("newer release");
    assert_eq!(info.latest_version, "0.2.0");
    assert_eq!(info.current_version, "0.1.0");
    assert_eq!(info.release_name, "v0.2.0");
    assert_eq!(info.release_url, "https://example.com/r");
    let same = update_for_release("0.2.0".to_string(), "v0.2.0".to_string(), String::new(), Some("n".to_string()));
    assert!(same.is_none());
    let named = update_for_release("0.1.0".to_string(), "0.1.1".to_string(), String::new(), Some("Spring".to_string())).unwrap();
    assert_eq!(named.release_name, "Spring");
}

#[test]
fn a_leading_v_is_ignored() {
    assert_eq!(is_newer("v1.2.0", "1.1.9"), is_newer("1.2.0", "1.1.9"));
    assert_eq!(is_newer("1.1.9", "v1.2.0"), is_newer("1.1.9", "1.2.0"));
    assert!(!is_newer("v2.0", "2.0"));
    assert!(!is_newer("2.0", "v2.0"));
}
