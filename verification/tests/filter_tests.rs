use resp_rewrite::body::Action;
use resp_rewrite::body::RewriteState;
use resp_rewrite::filter::FilterRoot;
use resp_rewrite::headers::HeaderMap;
use resp_rewrite::store::PropertyStore;

fn b(s: &str) -> Vec<u8> {
    s.as_bytes().to_vec()
}

fn configured_root(json: &str) -> FilterRoot {
    let mut root = FilterRoot::new();
    assert!(root.configure(&b(json)));
    root
}

#[test]
fn add_header_applied_at_header_phase_end() {
    let root = configured_root(r#"{"headers":{"add":{"X-Custom":"hello"}}}"#);
    let mut inst = root.create_instance();
    let mut headers = HeaderMap::new();
    headers.add(b("Server"), b("nginx"));
    let store = PropertyStore::new();
    let outcome = inst.on_response_headers(&mut headers, &store, true);
    assert_eq!(outcome.action, Action::Continue);
    assert!(!outcome.signal_body_rewrite);
    assert_eq!(
        headers.entries,
        vec![(b("Server"), b("nginx")), (b("X-Custom"), b("hello"))]
    );
}

#[test]
fn no_mutation_before_header_phase_end() {
    let root = configured_root(r#"{"headers":{"add":{"X-Custom":"hello"}},"body":"p"}"#);
    let mut inst = root.create_instance();
    let mut headers = HeaderMap::new();
    headers.add(b("Content-Length"), b("10"));
    let store = PropertyStore::new();
    let outcome = inst.on_response_headers(&mut headers, &store, false);
    assert_eq!(outcome.action, Action::Continue);
    assert!(!outcome.signal_body_rewrite);
    assert_eq!(headers.entries, vec![(b("Content-Length"), b("10"))]);
    assert_eq!(inst.state, RewriteState::Inactive);
}

#[test]
fn set_resolves_from_property_store() {
    let root = configured_root(r#"{"headers":{"set":{"X-Existing":"$region"}}}"#);
    let mut inst = root.create_instance();
    let mut headers = HeaderMap::new();
    headers.add(b("X-Existing"), b("old"));
    let mut store = PropertyStore::new();
    store.insert(b("region"), b("us-east"));
    inst.on_response_headers(&mut headers, &store, true);
    assert_eq!(headers.get_all(&b("X-Existing")), vec![b("us-east")]);
    assert_eq!(headers.entries.len(), 1);
}

#[test]
fn set_replaces_every_occurrence() {
    let root = configured_root(r#"{"headers":{"set":{"Warn":"none"}}}"#);
    let mut inst = root.create_instance();
    let mut headers = HeaderMap::new();
    headers.add(b("Warn"), b("a"));
    headers.add(b("Other"), b("kept"));
    headers.add(b("Warn"), b("b"));
    let store = PropertyStore::new();
    inst.on_response_headers(&mut headers, &store, true);
    assert_eq!(headers.get_all(&b("Warn")), vec![b("none")]);
    assert_eq!(headers.get_all(&b("Other")), vec![b("kept")]);
}

#[test]
fn set_creates_missing_header() {
    let root = configured_root(r#"{"headers":{"set":{"X-New":"v"}}}"#);
    let mut inst = root.create_instance();
    let mut headers = HeaderMap::new();
    let store = PropertyStore::new();
    inst.on_response_headers(&mut headers, &store, true);
    assert_eq!(headers.entries, vec![(b("X-New"), b("v"))]);
}

#[test]
fn add_keeps_existing_occurrences_of_same_name() {
    let root = configured_root(r#"{"headers":{"add":{"Via":"filter"}}}"#);
    let mut inst = root.create_instance();
    let mut headers = HeaderMap::new();
    headers.add(b("Via"), b("edge"));
    let store = PropertyStore::new();
    inst.on_response_headers(&mut headers, &store, true);
    assert_eq!(headers.get_all(&b("Via")), vec![b("edge"), b("filter")]);
}

#[test]
fn add_applies_before_set() {
    let root = configured_root(r#"{"headers":{"add":{"X":"from-add"},"set":{"X":"from-set"}}}"#);
    let mut inst = root.create_instance();
    let mut headers = HeaderMap::new();
    let store = PropertyStore::new();
    inst.on_response_headers(&mut headers, &store, true);
    assert_eq!(headers.get_all(&b("X")), vec![b("from-set")]);
}

#[test]
fn body_rewrite_strips_content_length_and_signals() {
    let root = configured_root(r#"{"body":"<html>replaced</html>"}"#);
    let mut inst = root.create_instance();
    let mut headers = HeaderMap::new();
    headers.add(b("Content-Length"), b("100"));
    headers.add(b("Server"), b("nginx"));
    let store = PropertyStore::new();
    let outcome = inst.on_response_headers(&mut headers, &store, true);
    assert_eq!(outcome.action, Action::Continue);
    assert!(outcome.signal_body_rewrite);
    assert!(headers.get_all(&b("Content-Length")).is_empty());
    assert_eq!(headers.get_all(&b("Server")), vec![b("nginx")]);
    assert_eq!(inst.state, RewriteState::AwaitingEnd);
}

#[test]
fn body_rewrite_pauses_then_replaces() {
    let root = configured_root(r#"{"body":"<html>replaced</html>"}"#);
    let mut inst = root.create_instance();
    let mut headers = HeaderMap::new();
    let store = PropertyStore::new();
    inst.on_response_headers(&mut headers, &store, true);

    let mut observed = b("original part one");
    let first = inst.on_response_body(&mut observed, false);
    assert_eq!(first, Action::Pause);
    assert_eq!(observed, b("original part one"));
    assert_eq!(inst.state, RewriteState::AwaitingEnd);

    observed.extend_from_slice(b(" and two").as_slice());
    let second = inst.on_response_body(&mut observed, true);
    assert_eq!(second, Action::Continue);
    assert_eq!(observed, b("<html>replaced</html>"));
    assert_eq!(inst.state, RewriteState::Completed);
}

#[test]
fn passthrough_without_configured_body() {
    let root = configured_root(r#"{"headers":{"add":{"A":"1"}}}"#);
    let mut inst = root.create_instance();
    let mut headers = HeaderMap::new();
    headers.add(b("Content-Length"), b("5"));
    let store = PropertyStore::new();
    let outcome = inst.on_response_headers(&mut headers, &store, true);
    assert!(!outcome.signal_body_rewrite);
    assert_eq!(headers.get_all(&b("Content-Length")), vec![b("5")]);

    let mut observed = b("chunk");
    assert_eq!(inst.on_response_body(&mut observed, false), Action::Continue);
    assert_eq!(observed, b("chunk"));
    assert_eq!(inst.on_response_body(&mut observed, true), Action::Continue);
    assert_eq!(observed, b("chunk"));
    assert_eq!(inst.state, RewriteState::Inactive);
}

#[test]
fn empty_body_field_means_no_rewrite() {
    let root = configured_root(r#"{"body":""}"#);
    let mut inst = root.create_instance();
    let mut headers = HeaderMap::new();
    headers.add(b("Content-Length"), b("5"));
    let store = PropertyStore::new();
    let outcome = inst.on_response_headers(&mut headers, &store, true);
    assert!(!outcome.signal_body_rewrite);
    assert_eq!(headers.get_all(&b("Content-Length")), vec![b("5")]);
    assert_eq!(inst.state, RewriteState::Inactive);
}

#[test]
fn failed_configure_keeps_previous_configuration() {
    let mut root = FilterRoot::new();
    assert!(root.configure(&b(r#"{"headers":{"add":{"X-Keep":"yes"}}}"#)));
    assert!(!root.configure(&b(r#"{"headers":"#)));
    let mut inst = root.create_instance();
    let mut headers = HeaderMap::new();
    let store = PropertyStore::new();
    inst.on_response_headers(&mut headers, &store, true);
    assert_eq!(headers.entries, vec![(b("X-Keep"), b("yes"))]);
}

#[test]
fn fresh_root_passes_everything_through() {
    let root = FilterRoot::new();
    let mut inst = root.create_instance();
    let mut headers = HeaderMap::new();
    headers.add(b("A"), b("1"));
    let store = PropertyStore::new();
    let outcome = inst.on_response_headers(&mut headers, &store, true);
    assert_eq!(outcome.action, Action::Continue);
    assert!(!outcome.signal_body_rewrite);
    assert_eq!(headers.entries, vec![(b("A"), b("1"))]);
}

#[test]
fn instance_keeps_its_copy_across_reload() {
    let mut root = FilterRoot::new();
    assert!(root.configure(&b(r#"{"headers":{"add":{"X-Old":"1"}}}"#)));
    let mut inst = root.create_instance();
    assert!(root.configure(&b(r#"{"headers":{"add":{"X-New":"2"}}}"#)));
    let mut headers = HeaderMap::new();
    let store = PropertyStore::new();
    inst.on_response_headers(&mut headers, &store, true);
    assert_eq!(headers.entries, vec![(b("X-Old"), b("1"))]);
}
