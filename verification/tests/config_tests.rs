use resp_rewrite::filter::FilterRoot;
use resp_rewrite::json::parse_config;

fn b(s: &str) -> Vec<u8> {
    s.as_bytes().to_vec()
}

#[test]
fn parse_full_config() {
    let raw = b(r#"{"headers":{"add":{"X-Custom":"hello"},"set":{"X-Existing":"$region"}},"body":"<html>replaced</html>"}"#);
    let cfg = parse_config(&raw).expect("valid configuration");
    assert_eq!(cfg.add, vec![(b("X-Custom"), b("hello"))]);
    assert_eq!(cfg.set, vec![(b("X-Existing"), b("$region"))]);
    assert_eq!(cfg.body, b("<html>replaced</html>"));
}

#[test]
fn parse_empty_object() {
    let cfg = parse_config(&b("{}")).expect("empty object is valid");
    assert!(cfg.add.is_empty());
    assert!(cfg.set.is_empty());
    assert!(cfg.body.is_empty());
}

#[test]
fn parse_absent_headers_defaults_to_empty() {
    let cfg = parse_config(&b(r#"{"body":"x"}"#)).expect("valid");
    assert!(cfg.add.is_empty());
    assert!(cfg.set.is_empty());
    assert_eq!(cfg.body, b("x"));
}

#[test]
fn parse_absent_body_means_no_rewrite() {
    let cfg = parse_config(&b(r#"{"headers":{"add":{"A":"1"}}}"#)).expect("valid");
    assert_eq!(cfg.add, vec![(b("A"), b("1"))]);
    assert!(cfg.body.is_empty());
}

#[test]
fn parse_empty_mappings() {
    let cfg = parse_config(&b(r#"{"headers":{"add":{},"set":{}}}"#)).expect("valid");
    assert!(cfg.add.is_empty());
    assert!(cfg.set.is_empty());
}

#[test]
fn parse_truncated_fails() {
    assert!(parse_config(&b(r#"{"headers":"#)).is_none());
}

#[test]
fn parse_unknown_field_fails() {
    assert!(parse_config(&b(r#"{"extra":"x"}"#)).is_none());
    assert!(parse_config(&b(r#"{"headers":{"drop":{}}}"#)).is_none());
}

#[test]
fn parse_duplicate_field_fails() {
    assert!(parse_config(&b(r#"{"body":"a","body":"b"}"#)).is_none());
    assert!(parse_config(&b(r#"{"headers":{"add":{},"add":{}}}"#)).is_none());
}

#[test]
fn parse_non_string_value_fails() {
    assert!(parse_config(&b(r#"{"body":123}"#)).is_none());
    assert!(parse_config(&b(r#"{"headers":{"add":{"A":1}}}"#)).is_none());
    assert!(parse_config(&b(r#"{"headers":"x"}"#)).is_none());
}

#[test]
fn parse_simple_escapes() {
    let cfg = parse_config(&b(r#"{"body":"a\nb\"c\\d\/e\tf"}"#)).expect("valid");
    assert_eq!(cfg.body, vec![97, 10, 98, 34, 99, 92, 100, 47, 101, 9, 102]);
}

#[test]
fn parse_unicode_escapes() {
    let cfg = parse_config(&b("{\"body\":\"\\u0024\"}")).expect("valid");
    assert_eq!(cfg.body, b("$"));
    let cfg2 = parse_config(&b("{\"body\":\"\\u00e9\"}")).expect("valid");
    assert_eq!(cfg2.body, vec![0xC3, 0xA9]);
    let cfg3 = parse_config(&b("{\"body\":\"\\u20AC\"}")).expect("valid");
    assert_eq!(cfg3.body, vec![0xE2, 0x82, 0xAC]);
}

#[test]
fn parse_surrogate_pair_escape() {
    let cfg = parse_config(&b("{\"body\":\"\\ud83d\\ude00\"}")).expect("valid");
    assert_eq!(cfg.body, vec![0xF0, 0x9F, 0x98, 0x80]);
}

#[test]
fn parse_raw_utf8_passes_through() {
    let cfg = parse_config(&b(r#"{"body":"héllo €"}"#)).expect("valid");
    assert_eq!(cfg.body, "héllo €".as_bytes().to_vec());
}

#[test]
fn parse_lone_surrogate_fails() {
    assert!(parse_config(&b(r#"{"body":"\ud83d"}"#)).is_none());
    assert!(parse_config(&b(r#"{"body":"\ude00"}"#)).is_none());
}

#[test]
fn parse_unescaped_control_byte_fails() {
    assert!(parse_config(&vec![123, 34, 98, 111, 100, 121, 34, 58, 34, 7, 34, 125]).is_none());
}

#[test]
fn parse_whitespace_tolerated() {
    let cfg = parse_config(&b(" \t{ \"body\" : \"x\" }\r\n")).expect("valid");
    assert_eq!(cfg.body, b("x"));
}

#[test]
fn parse_trailing_garbage_fails() {
    assert!(parse_config(&b("{} x")).is_none());
    assert!(parse_config(&b(r#"{"body":"x"}}"#)).is_none());
}

#[test]
fn parse_repeated_header_name_takes_last_value() {
    let cfg = parse_config(&b(r#"{"headers":{"add":{"A":"1","B":"2","A":"3"}}}"#)).expect("valid");
    assert_eq!(cfg.add, vec![(b("A"), b("3")), (b("B"), b("2"))]);
}

#[test]
fn configure_rejects_invalid_utf8() {
    let mut raw = b(r#"{"body":""#);
    raw.push(0xFF);
    raw.extend_from_slice(b("\"}").as_slice());
    let mut root = FilterRoot::new();
    assert!(!root.configure(&raw));
    assert!(root.config.body.is_empty());
}

#[test]
fn configure_accepts_utf8_content() {
    let mut root = FilterRoot::new();
    assert!(root.configure(&b(r#"{"body":"héllo"}"#)));
    assert_eq!(root.config.body, b("héllo"));
}

#[test]
fn config_load_is_idempotent() {
    let raw = b(r#"{"headers":{"add":{"X-Custom":"hello"},"set":{"S":"v"}},"body":"p"}"#);
    let mut root1 = FilterRoot::new();
    let mut root2 = FilterRoot::new();
    assert!(root1.configure(&raw));
    assert!(root2.configure(&raw));
    assert_eq!(root1.config.add, root2.config.add);
    assert_eq!(root1.config.set, root2.config.set);
    assert_eq!(root1.config.body, root2.config.body);
}
