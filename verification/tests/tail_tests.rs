use web2app::json::{extract_string_field, json_escape, unescape};
use web2app::tail::{append_tail, extract_tail, strip_tail, AppConfig, TAIL_MAGIC};

fn sample() -> AppConfig {
    AppConfig::new("https://example.com/app".into(), "My App".into())
}

#[test]
fn json_roundtrip() {
    let c = sample();
    let parsed = AppConfig::from_json(&c.to_json()).unwrap();
    assert_eq!(parsed, c);
}

#[test]
fn json_escapes_special_chars() {
    let c = AppConfig::new("https://a.com/?q=\"x\"\\n".into(), "标\"题\\".into());
    let parsed = AppConfig::from_json(&c.to_json()).unwrap();
    assert_eq!(parsed.url, "https://a.com/?q=\"x\"\\n");
    assert_eq!(parsed.title, "标\"题\\");
}

#[test]
fn magic_is_stable_and_unique() {
    assert_eq!(TAIL_MAGIC.len(), 16);
    assert_eq!(TAIL_MAGIC, b"__WEB2APP_TAIL__");
}

#[test]
fn extract_tail_none_without_magic() {
    assert!(extract_tail(b"plain executable bytes").is_none());
}

#[test]
fn extract_tail_rejects_corrupt_length() {
    let c = sample();
    let mut bytes = b"MZ body".to_vec();
    bytes.extend_from_slice(c.to_json().as_bytes());
    bytes.extend_from_slice(TAIL_MAGIC);
    bytes.extend_from_slice(&u64::MAX.to_le_bytes());
    assert!(extract_tail(&bytes).is_none());
}

#[test]
fn extract_tail_ignores_magic_in_payload() {
    let c = AppConfig::new("https://x.io".into(), "T".into());
    let mut bytes = b"MZ body __WEB2APP_TAIL__ body".to_vec();
    bytes.extend_from_slice(c.to_json().as_bytes());
    bytes.extend_from_slice(TAIL_MAGIC);
    bytes.extend_from_slice(&(c.to_json().len() as u64).to_le_bytes());
    assert_eq!(extract_tail(&bytes).unwrap(), c);
}

#[test]
fn extract_tail_roundtrip() {
    let c = sample();
    let payload = c.to_json();
    let mut bytes = b"MZ fake exe body...".to_vec();
    bytes.extend_from_slice(payload.as_bytes());
    bytes.extend_from_slice(TAIL_MAGIC);
    bytes.extend_from_slice(&(payload.len() as u64).to_le_bytes());
    assert_eq!(extract_tail(&bytes).unwrap(), c);
}

#[test]
fn strip_tail_removes_payload_and_magic() {
    let c = sample();
    let payload = c.to_json();
    let mut bytes = b"MZ body".to_vec();
    bytes.extend_from_slice(payload.as_bytes());
    bytes.extend_from_slice(TAIL_MAGIC);
    bytes.extend_from_slice(&(payload.len() as u64).to_le_bytes());
    assert_eq!(strip_tail(&bytes), b"MZ body");
    assert_eq!(strip_tail(b"MZ body"), b"MZ body");
}

#[test]
fn extract_raw_field_handles_nested_json() {
    let json = r#"{"url":"https://x.com","title":"T"}"#;
    let (v, _) = extract_string_field(json, "url").unwrap();
    assert_eq!(v, "https://x.com");
    let (v2, _) = extract_string_field(json, "title").unwrap();
    assert_eq!(v2, "T");
}

#[test]
fn extract_field_missing_key_returns_none() {
    assert!(extract_string_field(r#"{"a":"b"}"#, "url").is_none());
}

#[test]
fn append_tail_overwrites_old_tail() {
    let base = b"MZ base program 0123456789";
    let a = sample();
    let once = append_tail(base, &a);
    assert_eq!(extract_tail(&once).unwrap(), a);

    let b = AppConfig::new("https://other.io".into(), "B".into());
    let twice = append_tail(&once, &b);
    assert_eq!(extract_tail(&twice).unwrap(), b);
    assert!(twice.starts_with(b"MZ base program"));
    assert_eq!(strip_tail(&twice), base);
    assert!(strip_tail(&twice).len() < twice.len());
}

#[test]
fn append_tail_layout() {
    let c = AppConfig::new("https://x.io".into(), "T".into());
    let out = append_tail(b"BODY", &c);
    let payload = br#"{"url":"https://x.io","title":"T"}"#;
    let mut expected = b"BODY".to_vec();
    expected.extend_from_slice(payload);
    expected.extend_from_slice(b"__WEB2APP_TAIL__");
    expected.extend_from_slice(&[payload.len() as u8, 0, 0, 0, 0, 0, 0, 0]);
    assert_eq!(out, expected);
}

#[test]
fn to_json_exact_text() {
    let c = AppConfig::new("a\u{1f}b\tc".into(), "\r\n".into());
    assert_eq!(c.to_json(), "{\"url\":\"a\\u001fb\\tc\",\"title\":\"\\r\\n\"}");
    assert_eq!(json_escape("\u{0}\u{10}\""), "\"\\u0000\\u0010\\\"\"");
    assert_eq!(json_escape("标题"), "\"标题\"");
}

#[test]
fn unescape_cases() {
    assert_eq!(unescape(r"a\nb\rc\td"), "a\nb\rc\td");
    assert_eq!(unescape(r#"\"\\\/"#), "\"\\/");
    assert_eq!(unescape(r"\u0041\u00e9"), "Aé");
    assert_eq!(unescape(r"\u+041x"), "Ax");
    assert_eq!(unescape(r"\ud800z"), "z");
    assert_eq!(unescape(r"\uzz12y"), "y");
    assert_eq!(unescape(r"\u41"), "A");
    assert_eq!(unescape(r"\u"), "");
    assert_eq!(unescape("end\\"), "end");
}

#[test]
fn from_json_field_rules() {
    let c = AppConfig::from_json(r#"{"title":"T", "url":  "https://u.io", "title" : "X"}"#);
    assert!(c.is_none());
    let c = AppConfig::from_json(r#"{"url":  "https://u.io","title":	"T"}"#).unwrap();
    assert_eq!(c, AppConfig::new("https://u.io".into(), "T".into()));
    assert!(AppConfig::from_json(r#"{"url":"unterminated}"#).is_none());
    assert!(AppConfig::from_json(r#"{"url":1,"title":"T"}"#).is_none());
    let (v, rest) = extract_string_field(r#"x"k":"a\"b" tail"#, "k").unwrap();
    assert_eq!(v, "a\"b");
    assert_eq!(rest, " tail");
}

#[test]
fn fields_ending_in_quote_roundtrip() {
    let c = AppConfig::new("a\"".into(), "say \"hi\"".into());
    let parsed = AppConfig::from_json(&c.to_json()).unwrap();
    assert_eq!(parsed, c);
    let (v, rest) = extract_string_field(r#"{"url":"a\"","title":"t"}"#, "url").unwrap();
    assert_eq!(v, "a\"");
    assert_eq!(rest, r#","title":"t"}"#);
    let (v, rest) = extract_string_field(r#"{"url":"""}"#, "url").unwrap();
    assert_eq!(v, "");
    assert_eq!(rest, r#""}"#);
}

#[test]
fn extract_tail_requires_utf8_payload() {
    let payload = [0xffu8, 0xfe];
    let mut bytes = b"MZ".to_vec();
    bytes.extend_from_slice(&payload);
    bytes.extend_from_slice(TAIL_MAGIC);
    bytes.extend_from_slice(&(payload.len() as u64).to_le_bytes());
    assert!(extract_tail(&bytes).is_none());
    assert_eq!(strip_tail(&bytes), b"MZ");
}

#[test]
fn strip_tail_keeps_short_or_unmarked_bytes() {
    assert_eq!(strip_tail(b""), b"");
    let mut bytes = b"__WEB2APP_TAIL__".to_vec();
    bytes.extend_from_slice(&1u64.to_le_bytes());
    // the length reaches back past the start
    assert_eq!(strip_tail(&bytes), &bytes[..]);
    let mut exact = b"__WEB2APP_TAIL__".to_vec();
    exact.extend_from_slice(&0u64.to_le_bytes());
    assert_eq!(strip_tail(&exact), b"");
}
