use web2app::builder::{build_product, default_title, validate_url};
use web2app::tail::{extract_tail, strip_tail, AppConfig};

#[test]
fn default_title_extracts_host() {
    assert_eq!(default_title("https://example.com/path?q=1"), "example.com");
    assert_eq!(default_title("http://a.b.org"), "a.b.org");
    assert_eq!(default_title("https://example.com/"), "example.com");
}

#[test]
fn default_title_fallback() {
    assert_eq!(default_title("https:///x"), "Web2App");
    assert_eq!(default_title(""), "Web2App");
}

#[test]
fn validate_url_rules() {
    assert!(validate_url("https://example.com").is_ok());
    assert!(validate_url("http://a.cn/x").is_ok());
    assert!(validate_url("ftp://x.com").is_err());
    assert!(validate_url("example.com").is_err());
    assert!(validate_url("https://nohost/").is_err());
    assert!(validate_url("https://.com").is_err());
    assert!(validate_url("").is_err());
}

#[test]
fn default_title_trims_and_strips_repeated_schemes() {
    assert_eq!(default_title("  https://https://x.io#frag  "), "x.io");
    assert_eq!(default_title("\u{3000}http://a.b?q"), "a.b");
    // `https://` is removed before `http://`, so this host keeps its scheme text
    assert_eq!(default_title("http://https://x.io"), "https:");
    assert_eq!(default_title("example.org/x"), "example.org");
}

#[test]
fn validate_url_error_messages() {
    assert_eq!(
        validate_url("ftp://x.com"),
        Err("URL 必须以 https:// 或 http:// 开头".to_string())
    );
    assert_eq!(validate_url("https://"), Err("URL 主机名为空".to_string()));
    assert_eq!(validate_url("https://?q=1"), Err("URL 主机名为空".to_string()));
    assert_eq!(validate_url("https://nohost/"), Err("URL 主机名无效".to_string()));
    assert_eq!(validate_url("https://.com"), Err("URL 主机名无效".to_string()));
    assert_eq!(validate_url("https://a./"), Err("URL 主机名无效".to_string()));
    assert_eq!(validate_url("  https://a.b.c  "), Ok(()));
    assert_eq!(validate_url("https://a.b."), Ok(()));
}

#[test]
fn build_product_carries_url_and_title() {
    let product = build_product(b"FAKE_MASTER_EXE_BODY", "https://example.com").unwrap();
    let read_back = extract_tail(&product).unwrap();
    assert_eq!(read_back.url, "https://example.com");
    assert_eq!(read_back.title, "example.com");
    assert_eq!(strip_tail(&product), b"FAKE_MASTER_EXE_BODY");
}

#[test]
fn build_product_starts_from_bare_packer() {
    let first = build_product(b"PACKER", "https://one.example").unwrap();
    let second = build_product(&first, "http://two.example/x").unwrap();
    assert_eq!(
        extract_tail(&second).unwrap(),
        AppConfig::new("http://two.example/x".into(), "two.example".into())
    );
    assert_eq!(strip_tail(&second), b"PACKER");
}

#[test]
fn build_product_rejects_invalid_url() {
    assert_eq!(
        build_product(b"PACKER", "example.com"),
        Err("URL 必须以 https:// 或 http:// 开头".to_string())
    );
    assert_eq!(build_product(b"PACKER", "https://x"), Err("URL 主机名无效".to_string()));
}
