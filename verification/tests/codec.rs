//! Tests of the attributes record and its JSON byte codec.

use bucket_store::Attributes;
use bucket_store::is_users_meta_key;

fn attrs_with(bucket: &str, name: &str, meta: &[(&str, &str)]) -> Attributes {
    let mut a = Attributes::new(bucket.to_string(), name.to_string());
    for (k, v) in meta {
        a.add_meta(k.to_string(), v.to_string());
    }
    a
}

fn meta_pairs(a: &Attributes) -> Vec<(String, String)> {
    a.meta().clone()
}

#[test]
fn encodes_the_canonical_object() {
    let a = Attributes::new("b".to_string(), "n".to_string());
    assert_eq!(a.to_bytes(), b"{\"bucket\":\"b\",\"name\":\"n\",\"meta\":{}}".to_vec());
}

#[test]
fn encodes_metadata_in_insertion_order() {
    let a = attrs_with("b", "n", &[("k", "v"), ("k2", "v2")]);
    assert_eq!(
        a.to_bytes(),
        b"{\"bucket\":\"b\",\"name\":\"n\",\"meta\":{\"k\":\"v\",\"k2\":\"v2\"}}".to_vec()
    );
}

#[test]
fn escapes_quotes_backslashes_and_controls() {
    let a = attrs_with("b", "n", &[("key", "a\"b\\c\nd")]);
    assert_eq!(
        a.to_bytes(),
        b"{\"bucket\":\"b\",\"name\":\"n\",\"meta\":{\"key\":\"a\\\"b\\\\c\\u000ad\"}}".to_vec()
    );
}

#[test]
fn round_trips_plain_records() {
    let a = attrs_with("images", "a/b.png", &[("owner", "alice"), ("color", "red")]);
    let back = Attributes::from_bytes(a.to_bytes()).unwrap();
    assert_eq!(back.name(), "a/b.png");
    assert_eq!(meta_pairs(&back), meta_pairs(&a));
    assert_eq!(back.to_bytes(), a.to_bytes());
}

#[test]
fn round_trips_awkward_text() {
    let a = attrs_with(
        "bu\"ck\\et",
        "na\u{0}me\t\u{1F600}\u{e9}",
        &[("k\"1", "v\\1"), ("", ""), ("\u{7}", "\u{1F4A9}")],
    );
    let back = Attributes::from_bytes(a.to_bytes()).unwrap();
    assert_eq!(back.name(), "na\u{0}me\t\u{1F600}\u{e9}");
    assert_eq!(meta_pairs(&back), meta_pairs(&a));
}

#[test]
fn reads_short_and_unicode_escapes() {
    let buf = b"{\"bucket\":\"b\",\"name\":\"x\\n\\t\\/\\u0041y\",\"meta\":{}}".to_vec();
    let a = Attributes::from_bytes(buf).unwrap();
    assert_eq!(a.name(), "x\n\t/Ay");
}

#[test]
fn later_values_win_for_a_repeated_key() {
    let buf = b"{\"bucket\":\"b\",\"name\":\"n\",\"meta\":{\"k\":\"v1\",\"k\":\"v2\"}}".to_vec();
    let a = Attributes::from_bytes(buf).unwrap();
    assert_eq!(meta_pairs(&a), vec![("k".to_string(), "v2".to_string())]);
}

#[test]
fn add_meta_overwrites_in_place() {
    let mut a = Attributes::new("b".to_string(), "n".to_string());
    a.add_meta("color".to_string(), "red".to_string());
    a.add_meta("size".to_string(), "10".to_string());
    a.add_meta("color".to_string(), "blue".to_string());
    assert_eq!(
        meta_pairs(&a),
        vec![("color".to_string(), "blue".to_string()), ("size".to_string(), "10".to_string())]
    );
}

#[test]
fn rejects_buffers_that_encode_no_record() {
    // not UTF-8
    assert!(Attributes::from_bytes(vec![0xff, 0xfe, b'{']).is_err());
    // truncated
    assert!(Attributes::from_bytes(b"{\"bucket\":\"b\",\"name\":\"n\"".to_vec()).is_err());
    // wrong field order
    assert!(
        Attributes::from_bytes(b"{\"name\":\"n\",\"bucket\":\"b\",\"meta\":{}}".to_vec()).is_err()
    );
    // raw control character inside a string
    assert!(
        Attributes::from_bytes(b"{\"bucket\":\"b\",\"name\":\"a\x01b\",\"meta\":{}}".to_vec())
            .is_err()
    );
    // a surrogate escape
    assert!(Attributes::from_bytes(
        b"{\"bucket\":\"b\",\"name\":\"\\uD800\",\"meta\":{}}".to_vec()
    )
    .is_err());
    // trailing bytes after the record
    assert!(
        Attributes::from_bytes(b"{\"bucket\":\"b\",\"name\":\"n\",\"meta\":{}}x".to_vec())
            .is_err()
    );
    // not an object at all
    assert!(Attributes::from_bytes(b"[]".to_vec()).is_err());
    assert!(Attributes::from_bytes(Vec::new()).is_err());
}

#[test]
fn sidecar_path_appends_json() {
    assert_eq!(Attributes::get_path("abc_def"), "abc_def.json");
}

#[test]
fn users_meta_keys_need_the_prefix_and_a_name() {
    assert!(is_users_meta_key("x-amn-meta-owner".to_string()));
    assert!(is_users_meta_key("x-amn-meta-a".to_string()));
    assert!(!is_users_meta_key("x-amn-meta-".to_string()));
    assert!(!is_users_meta_key("x-amn-metaowner".to_string()));
    assert!(!is_users_meta_key("content-type".to_string()));
    assert!(!is_users_meta_key("".to_string()));
}
