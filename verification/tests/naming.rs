//! Tests of the naming scheme: hashing, sanitization, hex rendering, and
//! path derivation.

use bucket_store::naming::derive_id;
use bucket_store::naming::get_hex;
use bucket_store::naming::get_path;
use bucket_store::str_starts_with;

const EMPTY_SHA: &str = "e3b0c44298fc1c149afbf4c8996fb92427ae41e4649b934ca495991b7852b855";
const ABC_SHA: &str = "ba7816bf8f01cfea414140de5dae2223b00361a396177a9cb410ff61f20015ad";
const AB_SHA: &str = "fb8e20fc2e4c3f248c60c39bd652f3c1347298bb977b8b4d5903b85055620603";

#[test]
fn hex_of_known_digests() {
    assert_eq!(get_hex(""), EMPTY_SHA);
    assert_eq!(get_hex("abc"), ABC_SHA);
    assert_eq!(get_hex("ab"), AB_SHA);
}

#[test]
fn derive_is_deterministic() {
    let a = derive_id("images", "a/b.png");
    let b = derive_id("images", "a/b.png");
    assert_eq!(a, b);
    let c = get_hex("some bucket");
    let d = get_hex("some bucket");
    assert_eq!(c, d);
}

#[test]
fn sanitize_strips_separators_before_hashing() {
    // "a/b" sanitizes to "ab", so the two hash alike
    assert_eq!(get_hex("a/b"), get_hex("ab"));
    assert_eq!(get_hex("a/b"), AB_SHA);
    // distinct inputs hash apart
    assert_ne!(get_hex("a"), get_hex("b"));
}

#[test]
fn identifier_joins_the_two_digests() {
    let id = derive_id("abc", "ab");
    assert_eq!(id, format!("{}_{}", ABC_SHA, AB_SHA));
    assert_eq!(id.len(), 129);
}

#[test]
fn full_path_prepends_the_directory() {
    let p = get_path(&"./tmp".to_string(), &"abc".to_string(), &"ab".to_string());
    assert_eq!(p, format!("./tmp/{}_{}", ABC_SHA, AB_SHA));
}

#[test]
fn starts_with_matches_prefixes() {
    assert!(str_starts_with("a/b.png", "a/"));
    assert!(str_starts_with("a/b.png", ""));
    assert!(!str_starts_with("z/d.png", "a/"));
    assert!(!str_starts_with("a", "a/"));
}
