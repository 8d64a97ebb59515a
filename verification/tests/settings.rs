use notedock::settings::{is_configured, normalize_url};

#[test]
fn normalizes_user_typed_origins() {
    assert_eq!(normalize_url("  example.com:8080/ "), "http://example.com:8080");
    assert_eq!(normalize_url("https://n.example.com/"), "https://n.example.com");
    assert_eq!(normalize_url("http://[::1]:8080"), "http://[::1]:8080");
    assert_eq!(normalize_url("   "), "");
}

#[test]
fn trailing_slashes_all_go() {
    assert_eq!(normalize_url("host///"), "http://host");
    assert_eq!(normalize_url("/"), "");
}

#[test]
fn configured_means_url_and_token() {
    assert!(is_configured("http://a", &Some("t".to_string())));
    assert!(!is_configured("", &Some("t".to_string())));
    assert!(!is_configured("http://a", &None));
}
