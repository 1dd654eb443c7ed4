//! Tests of the byte store and the object operations over it.

use bucket_store::naming::derive_id;
use bucket_store::Accessor;
use bucket_store::Attributes;
use bucket_store::Bucket;
use bucket_store::BucketError;

#[test]
fn accessor_reads_what_it_wrote() {
    let mut acc = Accessor::new("./data");
    assert_eq!(acc.read("x"), None);
    assert!(!acc.is_exists("x"));
    acc.write("x", vec![1, 2, 3]);
    assert!(acc.is_exists("x"));
    assert_eq!(acc.read("x"), Some(vec![1, 2, 3]));
    acc.write("x", vec![9]);
    assert_eq!(acc.read("x"), Some(vec![9]));
    assert!(acc.remove("x"));
    assert!(!acc.remove("x"));
    assert_eq!(acc.read("x"), None);
}

#[test]
fn accessor_lists_names_in_write_order() {
    let mut acc = Accessor::new("./data");
    assert_eq!(acc.get_filenames(), Vec::<String>::new());
    acc.write("b", vec![2]);
    acc.write("a", vec![1]);
    acc.write("c", vec![3]);
    acc.write("a", vec![4]);
    assert_eq!(acc.get_filenames(), vec!["b".to_string(), "a".to_string(), "c".to_string()]);
}

#[test]
fn accessor_scopes_paths_to_its_directory() {
    let acc = Accessor::new("./data");
    assert_eq!(acc.get_path("file"), "./data/file");
}

#[test]
fn put_then_get_returns_the_bytes() {
    let mut bucket = Bucket::new(Accessor::new("./data"), "images");
    bucket.put_object("a/b.png", vec![1, 2, 3]).unwrap();
    let (bytes, attrs) = bucket.get_object("a/b.png").unwrap();
    assert_eq!(bytes, vec![1, 2, 3]);
    assert_eq!(attrs.name(), "a/b.png");
    assert!(attrs.meta().is_empty());
}

#[test]
fn get_of_a_missing_object_fails_not_found() {
    let bucket = Bucket::new(Accessor::new("./data"), "images");
    assert!(matches!(bucket.get_object("nope"), Err(BucketError::NotFound)));
}

#[test]
fn get_without_a_sidecar_fails_internal() {
    let mut acc = Accessor::new("./data");
    let id = derive_id("images", "k");
    acc.write(id.as_str(), vec![1]);
    let bucket = Bucket::new(acc, "images");
    assert!(matches!(bucket.get_object("k"), Err(BucketError::Internal)));
}

#[test]
fn get_with_a_corrupt_sidecar_fails_internal() {
    let mut acc = Accessor::new("./data");
    let id = derive_id("images", "k");
    acc.write(id.as_str(), vec![1]);
    let sidecar = Attributes::get_path(id.as_str());
    acc.write(sidecar.as_str(), b"not json".to_vec());
    let bucket = Bucket::new(acc, "images");
    assert!(matches!(bucket.get_object("k"), Err(BucketError::Internal)));
}

#[test]
fn delete_then_get_fails_not_found() {
    let mut bucket = Bucket::new(Accessor::new("./data"), "images");
    bucket.put_object("a/b.png", vec![1, 2, 3]).unwrap();
    bucket.delete_object("a/b.png").unwrap();
    assert!(matches!(bucket.get_object("a/b.png"), Err(BucketError::NotFound)));
}

#[test]
fn delete_of_a_missing_object_fails_not_found() {
    let mut bucket = Bucket::new(Accessor::new("./data"), "images");
    assert_eq!(bucket.delete_object("nope"), Err(BucketError::NotFound));
}

#[test]
fn delete_without_a_sidecar_removes_the_payload_and_fails() {
    let mut acc = Accessor::new("./data");
    let id = derive_id("images", "k");
    acc.write(id.as_str(), vec![1]);
    let mut bucket = Bucket::new(acc, "images");
    assert_eq!(bucket.delete_object("k"), Err(BucketError::NotFound));
    assert!(matches!(bucket.get_object("k"), Err(BucketError::NotFound)));
}

#[test]
fn update_meta_without_a_sidecar_starts_fresh() {
    let mut acc = Accessor::new("./data");
    let id = derive_id("images", "k");
    acc.write(id.as_str(), vec![1]);
    let mut bucket = Bucket::new(acc, "images");
    bucket
        .update_meta("k", vec![("color".to_string(), "red".to_string())])
        .unwrap();
    let (_, attrs) = bucket.get_object("k").unwrap();
    assert_eq!(attrs.meta(), &vec![("color".to_string(), "red".to_string())]);
    assert_eq!(attrs.name(), "k");
}

#[test]
fn update_meta_merges_across_calls() {
    let mut bucket = Bucket::new(Accessor::new("./data"), "images");
    bucket.put_object("k", vec![1]).unwrap();
    bucket
        .update_meta("k", vec![("color".to_string(), "red".to_string())])
        .unwrap();
    bucket
        .update_meta("k", vec![("size".to_string(), "10".to_string())])
        .unwrap();
    let (_, attrs) = bucket.get_object("k").unwrap();
    assert_eq!(
        attrs.meta(),
        &vec![
            ("color".to_string(), "red".to_string()),
            ("size".to_string(), "10".to_string()),
        ]
    );
}

#[test]
fn update_meta_with_a_corrupt_sidecar_fails_internal() {
    let mut acc = Accessor::new("./data");
    let id = derive_id("images", "k");
    let sidecar = Attributes::get_path(id.as_str());
    acc.write(sidecar.as_str(), b"{broken".to_vec());
    let mut bucket = Bucket::new(acc, "images");
    assert_eq!(
        bucket.update_meta("k", vec![("a".to_string(), "b".to_string())]),
        Err(BucketError::Internal)
    );
}

#[test]
fn a_second_put_discards_earlier_metadata() {
    // the pinned overwrite-on-put behaviour
    let mut bucket = Bucket::new(Accessor::new("./data"), "images");
    bucket.put_object("a/b.png", vec![1, 2, 3]).unwrap();
    bucket
        .update_meta("a/b.png", vec![("owner".to_string(), "alice".to_string())])
        .unwrap();
    bucket.put_object("a/b.png", vec![4, 5, 6]).unwrap();
    let (bytes, attrs) = bucket.get_object("a/b.png").unwrap();
    assert_eq!(bytes, vec![4, 5, 6]);
    assert!(attrs.meta().is_empty());
}

#[test]
fn listing_keeps_exactly_the_prefixed_names() {
    let mut bucket = Bucket::new(Accessor::new("./data"), "images");
    bucket.put_object("a/b.png", vec![1]).unwrap();
    bucket.put_object("a/c.png", vec![2]).unwrap();
    bucket.put_object("z/d.png", vec![3]).unwrap();
    let names = bucket.list_objects("a/").unwrap();
    assert_eq!(names.len(), 2);
    assert!(names.contains(&"a/b.png".to_string()));
    assert!(names.contains(&"a/c.png".to_string()));
}

#[test]
fn listing_an_empty_store_yields_nothing() {
    let bucket = Bucket::new(Accessor::new("./data"), "images");
    assert_eq!(bucket.list_objects(""), Ok(Vec::new()));
}

fn store_with_one_image() -> Accessor {
    let mut acc = Accessor::new("./data");
    let id = derive_id("images", "a/b.png");
    acc.write(id.as_str(), vec![1]);
    let attrs = Attributes::new("images".to_string(), "a/b.png".to_string());
    let sidecar = Attributes::get_path(id.as_str());
    acc.write(sidecar.as_str(), attrs.to_bytes());
    acc
}

#[test]
fn listing_another_bucket_yields_nothing() {
    let images = Bucket::new(store_with_one_image(), "images");
    assert_eq!(images.list_objects(""), Ok(vec!["a/b.png".to_string()]));
    let other = Bucket::new(store_with_one_image(), "documents");
    assert_eq!(other.list_objects(""), Ok(Vec::new()));
}

#[test]
fn listing_skips_entries_with_unreadable_sidecars() {
    let mut acc = Accessor::new("./data");
    let id = derive_id("images", "a/b.png");
    acc.write(id.as_str(), vec![1]);
    let sidecar = Attributes::get_path(id.as_str());
    acc.write(sidecar.as_str(), b"garbage".to_vec());
    let bucket = Bucket::new(acc, "images");
    assert_eq!(bucket.list_objects(""), Ok(Vec::new()));
}

#[test]
fn identifiers_do_not_depend_on_the_handle() {
    let bucket = Bucket::new(Accessor::new("./data"), "images");
    assert_eq!(bucket.get_path("a/b.png"), derive_id("images", "a/b.png"));
}
