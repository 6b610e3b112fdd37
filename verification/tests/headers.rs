use garage::error::ApiError;
use garage::headers::{get_headers, get_mime_type, header_value_str, name_less, HeaderEntry};
use std::collections::BTreeMap;

fn h(name: &str, value: &[u8]) -> HeaderEntry {
    HeaderEntry { name: name.to_string(), value: value.to_vec() }
}

fn as_map(p: &[(String, String)]) -> BTreeMap<String, String> {
    p.iter().cloned().collect()
}

#[test]
fn content_type_defaults_to_blob() {
    assert_eq!(get_mime_type(&vec![]).unwrap(), "blob");
    assert_eq!(get_mime_type(&vec![h("content-type", b"text/plain")]).unwrap(), "text/plain");
    assert_eq!(
        get_mime_type(&vec![h("content-type", b"a/b"), h("content-type", b"c/d")]).unwrap(),
        "a/b"
    );
}

#[test]
fn unreadable_content_type_is_refused() {
    assert_eq!(get_mime_type(&vec![h("content-type", b"caf\xc3\xa9")]), Err(ApiError::InvalidHeader));
    assert!(get_headers(&vec![h("content-type", &[0x80])]).is_err());
}

#[test]
fn header_values_readable_as_text() {
    assert_eq!(header_value_str(b"a\tb c~"), Some("a\tb c~".to_string()));
    assert_eq!(header_value_str(b"a\x7f"), None);
    assert_eq!(header_value_str(b"\xff"), None);
    assert_eq!(header_value_str(b""), Some(String::new()));
}

#[test]
fn stored_headers_keep_standard_and_meta() {
    let req = vec![
        h("host", b"example.com"),
        h("cache-control", b"no-cache"),
        h("cache-control", b"max-age=3"),
        h("content-type", b"image/png"),
        h("x-amz-meta-color", b"red"),
        h("x-amz-meta-size", b"\xff"),
        h("expires", b"Thu, 01 Dec 1994 16:00:00 GMT"),
        h("x-amz-meta-color", b"blue"),
        h("content-language", b"fr\x01"),
        h("x-amz-metadata", b"no"),
    ];
    let stored = get_headers(&req).unwrap();
    assert_eq!(stored.content_type, "image/png");
    let mut expected = BTreeMap::new();
    expected.insert("cache-control".to_string(), "no-cache".to_string());
    expected.insert("expires".to_string(), "Thu, 01 Dec 1994 16:00:00 GMT".to_string());
    expected.insert("x-amz-meta-color".to_string(), "blue".to_string());
    assert_eq!(as_map(&stored.other), expected);
    assert_eq!(stored.other.len(), 3);
    // kept in the order of the names, as the map iterates them
    let in_map_order: Vec<(String, String)> = expected.into_iter().collect();
    assert_eq!(stored.other, in_map_order);
}

#[test]
fn stored_headers_sorted_by_name() {
    let req = vec![
        h("x-amz-meta-zeta", b"1"),
        h("x-amz-meta-alpha", b"2"),
        h("x-amz-meta-Mid", b"3"),
        h("expires", b"4"),
        h("x-amz-meta-alpha", b"5"),
        h("cache-control", b"6"),
    ];
    let stored = get_headers(&req).unwrap();
    let names: Vec<&str> = stored.other.iter().map(|(k, _)| k.as_str()).collect();
    assert_eq!(names, vec!["cache-control", "expires", "x-amz-meta-Mid", "x-amz-meta-alpha", "x-amz-meta-zeta"]);
    assert_eq!(stored.other[3].1, "5");
}

#[test]
fn names_ordered_as_strings() {

    assert!(name_less("a", "b"));
    assert!(name_less("a", "ab"));
    assert!(!name_less("ab", "a"));
    assert!(!name_less("a", "a"));
    assert!(name_less("", "a"));
    assert!(name_less("Z", "a"));
    assert_eq!(name_less("é", "z"), "é" < "z");
    assert_eq!(name_less("z", "é"), "z" < "é");
}
