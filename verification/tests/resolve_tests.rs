use resp_rewrite::headers::HeaderMap;
use resp_rewrite::resolve::resolve;
use resp_rewrite::store::PropertyStore;

fn b(s: &str) -> Vec<u8> {
    s.as_bytes().to_vec()
}

#[test]
fn resolve_literal_passes_through() {
    let store = PropertyStore::new();
    assert_eq!(resolve(&b("hello"), &store), b("hello"));
    assert_eq!(resolve(&b(""), &store), b(""));
}

#[test]
fn resolve_reference_reads_store() {
    let mut store = PropertyStore::new();
    store.insert(b("region"), b("us-east"));
    assert_eq!(resolve(&b("$region"), &store), b("us-east"));
}

#[test]
fn resolve_missing_path_falls_back_to_reference_text() {
    let store = PropertyStore::new();
    assert_eq!(resolve(&b("$missing"), &store), b("$missing"));
}

#[test]
fn resolve_non_utf8_value_falls_back_to_reference_text() {
    let mut store = PropertyStore::new();
    store.insert(b("blob"), vec![0xFF, 0xFE]);
    assert_eq!(resolve(&b("$blob"), &store), b("$blob"));
}

#[test]
fn resolve_marker_only_looks_up_empty_path() {
    let mut store = PropertyStore::new();
    store.insert(b(""), b("root"));
    assert_eq!(resolve(&b("$"), &store), b("root"));
}

#[test]
fn store_lookup_prefers_first_occurrence() {
    let mut store = PropertyStore::new();
    store.insert(b("k"), b("first"));
    store.insert(b("k"), b("second"));
    assert_eq!(store.get(&b("k")), Some(b("first")));
    assert_eq!(store.get(&b("absent")), None);
}

#[test]
fn header_map_set_none_removes_every_occurrence() {
    let mut headers = HeaderMap::new();
    headers.add(b("A"), b("1"));
    headers.add(b("B"), b("2"));
    headers.add(b("A"), b("3"));
    headers.set(b("A"), None);
    assert_eq!(headers.entries, vec![(b("B"), b("2"))]);
}

#[test]
fn header_map_get_all_in_order() {
    let mut headers = HeaderMap::new();
    headers.add(b("A"), b("1"));
    headers.add(b("B"), b("2"));
    headers.add(b("A"), b("3"));
    assert_eq!(headers.get_all(&b("A")), vec![b("1"), b("3")]);
    assert!(headers.get_all(&b("C")).is_empty());
}
