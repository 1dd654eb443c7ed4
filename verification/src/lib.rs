//! A minimal object-storage core.
//!
//! Clients address data by a (bucket, key) pair. The pair is mapped onto a
//! deterministic, filesystem-safe object identifier (a pair of SHA-256
//! digests in hex), a payload is stored under that identifier, and a metadata
//! record (the attributes sidecar) is stored beside it as a JSON byte buffer.
//! Prefix-based enumeration of the stored keys is supported.
//!
//! The store itself ([`accessor::Accessor`]) is a flat, directory-like map
//! from entry names to byte buffers; [`bucket::Bucket`] composes the naming
//! scheme, the store and the attributes codec into the public object
//! operations (get, put, delete, update-metadata, list).

mod text;
pub mod alist;
pub mod naming;
pub mod json;
pub mod attributes;
pub mod accessor;
pub mod bucket;
pub mod laws;
pub mod response;

pub use accessor::Accessor;
pub use attributes::is_users_meta_key;
pub use bucket::Bucket;
pub use bucket::BucketError;
pub use naming::get_path;
pub use attributes::Attributes;
pub use text::str_starts_with;
