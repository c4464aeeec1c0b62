use klia_store::listing::extract_developer;

#[test]
fn developer_is_second_to_last_segment() {
    assert_eq!(
        extract_developer("io.github.N3kosempai.klia-store"),
        Some("N3kosempai".to_string())
    );
    assert_eq!(extract_developer("org.mozilla.firefox"), Some("mozilla".to_string()));
    assert_eq!(extract_developer("com.her01n.BatteryInfo"), Some("her01n".to_string()));
}

#[test]
fn developer_of_single_segment_is_absent() {
    assert_eq!(extract_developer("single"), None);
    assert_eq!(extract_developer(""), None);
}

#[test]
fn developer_of_two_segments_is_the_first() {
    assert_eq!(extract_developer("a.b"), Some("a".to_string()));
    assert_eq!(extract_developer("a."), Some("a".to_string()));
    assert_eq!(extract_developer(".b"), Some(String::new()));
    assert_eq!(extract_developer("a..b"), Some(String::new()));
}
