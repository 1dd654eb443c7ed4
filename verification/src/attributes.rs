//! The metadata record attached to a stored object: the bucket name, the
//! object's original name, and a table of user-defined string pairs. The
//! record is persisted as a JSON byte buffer beside the payload.

use vstd::prelude::*;

verus! {

use crate::alist::al_put;
use crate::json::attrs_of_bytes;
use crate::json::attrs_to_bytes;
use crate::json::pairs_view;
use crate::json::parse_attrs;
use crate::json::put_pair;
use crate::json::render_attrs;
use crate::json::AttrsView;
use crate::naming::sidecar_name;
use crate::text::concat_str;
use crate::text::str_starts_with;
use crate::text::string_from_utf8;
use vstd::string::StrSliceExecFns;

/// The error of reading a record from bytes that do not encode one.
#[derive(Debug, Clone, Copy, PartialEq, Eq, Structural)]
pub struct DecodeError;

/// A metadata record. Its byte encoding is the canonical JSON object of
/// [`crate::json`]; the metadata keys are kept pairwise distinct.
pub struct Attributes {
    bucket: String,
    name: String,
    meta: Vec<(String, String)>,
}

impl View for Attributes {
    type V = AttrsView;

    closed spec fn view(&self) -> AttrsView {
        AttrsView { bucket: self.bucket@, name: self.name@, meta: pairs_view(self.meta@) }
    }
}

impl Attributes {
    #[verifier::type_invariant]
    spec fn inv(&self) -> bool {
        self@.wf()
    }

    /// A fresh record with no metadata.
    pub fn new(bucket: String, name: String) -> (r: Attributes)
        ensures
            r@ == (AttrsView { bucket: bucket@, name: name@, meta: Seq::empty() }),
    {
        let r = Attributes { bucket, name, meta: Vec::new() };
        proof {
            assert(pairs_view(r.meta@) =~= Seq::<(Seq<char>, Seq<char>)>::empty());
        }
        r
    }

    /// The path of the sidecar belonging to the entry at `object_path`.
    pub fn get_path(object_path: &str) -> (r: String)
        ensures
            r@ == sidecar_name(object_path@),
    {
        proof {
            reveal_strlit(".json");
            assert(".json"@ =~= seq!['.', 'j', 's', 'o', 'n']);
        }
        concat_str(object_path, ".json")
    }

    /// Insert or overwrite one metadata entry.
    pub fn add_meta(&mut self, key: String, value: String)
        ensures
            final(self)@.bucket == old(self)@.bucket,
            final(self)@.name == old(self)@.name,
            final(self)@.meta == al_put(old(self)@.meta, key@, value@),
    {
        proof {
            use_type_invariant(&*self);
        }
        let mut m: Vec<(String, String)> = Vec::new();
        core::mem::swap(&mut m, &mut self.meta);
        put_pair(&mut m, key, value);
        core::mem::swap(&mut m, &mut self.meta);
    }

    /// The object's original name.
    pub fn name(&self) -> (r: String)
        ensures
            r@ == self@.name,
    {
        self.name.clone()
    }

    /// The metadata entries, in storage order.
    pub fn meta(&self) -> (r: &Vec<(String, String)>)
        ensures
            pairs_view(r@) == self@.meta,
    {
        &self.meta
    }

    /// The persisted form of the record.
    pub fn to_bytes(&self) -> (r: Vec<u8>)
        ensures
            r@ == attrs_to_bytes(self@),
    {
        let text = render_attrs(self.bucket.as_str(), self.name.as_str(), &self.meta);
        text.as_str().as_bytes_vec()
    }

    /// Read a record back from its persisted form; fails exactly on a buffer
    /// that does not encode one.
    pub fn from_bytes(bytes: Vec<u8>) -> (r: Result<Attributes, DecodeError>)
        ensures
            r matches Ok(a) ==> attrs_of_bytes(bytes@) == Some(a@),
            r is Err ==> attrs_of_bytes(bytes@) is None,
    {
        let ghost bv = bytes@;
        let text = match string_from_utf8(bytes) {
            Some(t) => t,
            None => {
                return Err(DecodeError);
            },
        };
        match parse_attrs(text.as_str()) {
            Some((bucket, name, meta)) => {
                let r = Attributes { bucket, name, meta };
                Ok(r)
            },
            None => Err(DecodeError),
        }
    }
}

/// The header-name prefix that marks user metadata.
pub open spec fn users_meta_prefix() -> Seq<char> {
    seq!['x', '-', 'a', 'm', 'n', '-', 'm', 'e', 't', 'a', '-']
}

/// Whether a header name carries user metadata: it starts with
/// `x-amn-meta-` and names at least one character after the prefix.
pub open spec fn spec_is_users_meta_key(key: Seq<char>) -> bool {
    users_meta_prefix().is_prefix_of(key) && key.len() > users_meta_prefix().len()
}

/// Whether a header name carries user metadata.
pub fn is_users_meta_key(key: String) -> (r: bool)
    ensures
        r == spec_is_users_meta_key(key@),
{
    proof {
        reveal_strlit("x-amn-meta-");
        assert("x-amn-meta-"@ =~= users_meta_prefix());
    }
    str_starts_with(key.as_str(), "x-amn-meta-") && key.as_str().unicode_len() > 11
}

} // verus!
