use web2app::launch::{master_requested, pack_request_url};
use web2app::ui::{form_html, product_filename, safe_host_name};
use web2app::webview::{data_dir_name, native_close_bridge};

#[test]
fn product_filename_sanitizes_host() {
    assert_eq!(product_filename("https://example.com"), "example.com.exe");
    assert_eq!(product_filename("https://a.b/c?d=1"), "a.b.exe");
    let n = product_filename("https://中文站.com");
    assert!(n.ends_with(".com.exe"));
    assert!(n.chars().all(|c| c.is_ascii_alphanumeric() || c == '-' || c == '.' || c == '_'));
}

#[test]
fn close_bridge_uses_ipc_post_message() {
    let js = native_close_bridge();
    assert!(js.contains("window.ipc.postMessage(\"__web2app_close__\")"));
    assert!(js.contains("window.__web2app"));
}

#[test]
fn product_filename_exact_names() {
    assert_eq!(product_filename("https://中文站.com"), "___.com.exe");
    assert_eq!(product_filename("https:///x"), "Web2App.exe");
    assert_eq!(product_filename("https://a_b:8080"), "a_b_8080.exe");
}

#[test]
fn data_dir_name_sanitizes_host() {
    assert_eq!(data_dir_name("https://example.com/x?y=1"), "example.com");
    assert_eq!(data_dir_name("https://中文站.com"), "___.com");
    assert_eq!(safe_host_name(""), "Web2App");
}

#[test]
fn form_html_has_the_two_elements() {
    let html = form_html();
    assert!(html.starts_with("<!DOCTYPE html>"));
    assert!(html.contains("id=\"url\""));
    assert!(html.contains("id=\"pack\""));
    assert!(html.contains("window.ipc.postMessage('pack:' + url)"));
}

#[test]
fn master_flag_is_the_only_argument() {
    let args = |v: &[&str]| v.iter().map(|s| s.to_string()).collect::<Vec<String>>();
    assert!(master_requested(&args(&["web2app", "--master"])));
    assert!(!master_requested(&args(&["web2app"])));
    assert!(!master_requested(&args(&["web2app", "--master", "x"])));
    assert!(!master_requested(&args(&["web2app", "--mastery"])));
}

#[test]
fn pack_request_needs_prefix() {
    assert_eq!(pack_request_url("pack:https://x.io"), Some("https://x.io".to_string()));
    assert_eq!(pack_request_url("pack:"), Some(String::new()));
    assert_eq!(pack_request_url("close"), None);
    assert_eq!(pack_request_url("pac"), None);
}
