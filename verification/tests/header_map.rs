use http_server::headers::{normalize_header_name, Headers};

#[test]
fn normalize_content_type() {
    let expected = "Content-Type";
    assert_eq!(expected, &normalize_header_name("Content-Type"));
    assert_eq!(expected, &normalize_header_name("content-type"));
    assert_eq!(expected, &normalize_header_name("CONTENT-TYPE"));
    assert_eq!(expected, &normalize_header_name("cOnTeNt-TyPe"));
}

#[test]
fn normalize_is_idempotent_on_samples() {
    for name in ["content-type", "x--odd", "HOST", "a", "", "-leading", "trailing-"] {
        let once = normalize_header_name(name);
        let twice = normalize_header_name(&once);
        assert_eq!(once, twice);
    }
}

#[test]
fn insert_and_get_ignore_case() {
    let mut h = Headers::new();
    h.insert("content-type", b"text/html".to_vec());
    assert_eq!(h.get("CONTENT-TYPE"), Some(&b"text/html".to_vec()));
    assert_eq!(h.get("Content-Type"), Some(&b"text/html".to_vec()));
    assert_eq!(h.get("Content-Length"), None);
}

#[test]
fn repeated_insert_folds_with_comma() {
    let mut h = Headers::new();
    h.insert("Accept", b"text/html".to_vec());
    h.insert("accept", b"text/plain".to_vec());
    assert_eq!(h.get("Accept"), Some(&b"text/html,text/plain".to_vec()));
    assert_eq!(h.len(), 1);
}

#[test]
fn entries_keep_insertion_order() {
    let mut h = Headers::new();
    h.insert("b-first", b"1".to_vec());
    h.insert("a-second", b"2".to_vec());
    assert_eq!(h.len(), 2);
    assert_eq!(h.name_at(0), "B-First");
    assert_eq!(h.name_at(1), "A-Second");
    assert_eq!(h.value_at(0), &b"1".to_vec());
    assert_eq!(h.value_at(1), &b"2".to_vec());
}
