//! The public object operations: get, put, delete, update-metadata and list,
//! composed from the naming scheme, the byte store and the attributes codec.
//! Every operation keys off the object identifier derived from the bucket
//! name and the key.

use vstd::prelude::*;

verus! {

use crate::accessor::Accessor;
use crate::alist::al_distinct;
use crate::alist::al_get;
use crate::alist::al_has;
use crate::alist::al_put;
use crate::alist::al_del;
use crate::alist::al_put_all;
use crate::alist::lemma_al_put_all_push;
use crate::attributes::Attributes;
use crate::json::attrs_of_bytes;
use crate::json::attrs_to_bytes;
use crate::json::pairs_view;
use crate::json::AttrsView;
use crate::naming::derive_id;
use crate::naming::get_hex;
use crate::naming::hash_hex;
use crate::naming::object_id;
use crate::naming::sidecar_name;
use crate::text::str_starts_with;
use vstd::string::StrSliceExecFns;

/// Why an object operation failed: the addressed thing is absent, or the
/// store is in a state the operation cannot read (a payload without a
/// readable sidecar).
#[derive(Debug, Clone, Copy, PartialEq, Eq, Structural)]
pub enum BucketError {
    NotFound,
    Internal,
}

/// The view of a bucket handle: the store contents and the bucket's name.
pub ghost struct BucketView {
    pub store: Seq<(Seq<char>, Seq<u8>)>,
    pub bucket: Seq<char>,
}

/// A fresh attributes record for an object, before any metadata is set.
pub open spec fn fresh_attrs(bucket: Seq<char>, key: Seq<char>) -> AttrsView {
    AttrsView { bucket, name: key, meta: Seq::empty() }
}

/// What reading the object stored under `id` yields: the payload, or
/// `NotFound` when it is absent, or `Internal` when its sidecar is absent or
/// does not decode.
pub open spec fn get_spec(store: Seq<(Seq<char>, Seq<u8>)>, id: Seq<char>) -> Result<
    (Seq<u8>, AttrsView),
    BucketError,
> {
    match al_get(store, id) {
        None => Err(BucketError::NotFound),
        Some(payload) => match al_get(store, sidecar_name(id)) {
            None => Err(BucketError::Internal),
            Some(sb) => match attrs_of_bytes(sb) {
                None => Err(BucketError::Internal),
                Some(a) => Ok((payload, a)),
            },
        },
    }
}

/// The store after writing `bytes` under `id`, with a fresh sidecar beside
/// it: any earlier metadata of the object is overwritten.
pub open spec fn put_spec(
    store: Seq<(Seq<char>, Seq<u8>)>,
    id: Seq<char>,
    bucket: Seq<char>,
    key: Seq<char>,
    bytes: Seq<u8>,
) -> Seq<(Seq<char>, Seq<u8>)> {
    al_put(al_put(store, id, bytes), sidecar_name(id), attrs_to_bytes(fresh_attrs(bucket, key)))
}

/// The store and the outcome after deleting the object under `id`: the
/// payload goes first, then the sidecar; a missing payload fails the whole
/// operation, and a missing sidecar fails it after the payload is already
/// gone.
pub open spec fn delete_spec(store: Seq<(Seq<char>, Seq<u8>)>, id: Seq<char>) -> (
    Seq<(Seq<char>, Seq<u8>)>,
    Result<(), BucketError>,
) {
    if !al_has(store, id) {
        (store, Err(BucketError::NotFound))
    } else {
        let s1 = al_del(store, id);
        if !al_has(s1, sidecar_name(id)) {
            (s1, Err(BucketError::NotFound))
        } else {
            (al_del(s1, sidecar_name(id)), Ok(()))
        }
    }
}

/// The store and the outcome after merging `items` into the metadata of the
/// object under `id`: an absent sidecar starts from a fresh record, an
/// unreadable one fails, and later items win over earlier ones per key.
pub open spec fn update_spec(
    store: Seq<(Seq<char>, Seq<u8>)>,
    id: Seq<char>,
    bucket: Seq<char>,
    key: Seq<char>,
    items: Seq<(Seq<char>, Seq<char>)>,
) -> (Seq<(Seq<char>, Seq<u8>)>, Result<(), BucketError>) {
    let ap = sidecar_name(id);
    match al_get(store, ap) {
        None => {
            let merged = AttrsView { bucket, name: key, meta: al_put_all(Seq::empty(), items) };
            (al_put(store, ap, attrs_to_bytes(merged)), Ok(()))
        },
        Some(b) => match attrs_of_bytes(b) {
            None => (store, Err(BucketError::Internal)),
            Some(a0) => {
                let merged = AttrsView {
                    bucket: a0.bucket,
                    name: a0.name,
                    meta: al_put_all(a0.meta, items),
                };
                (al_put(store, ap, attrs_to_bytes(merged)), Ok(()))
            },
        },
    }
}

/// The names listed for a bucket, walking the store from position `i`: for
/// each entry whose name starts with the bucket's hash, the sidecar under
/// its name is read; entries without one, and sidecars that do not decode,
/// are passed over; of the rest, the recorded object names that start with
/// `prefix` are kept, in store order.
pub open spec fn list_spec(
    store: Seq<(Seq<char>, Seq<u8>)>,
    i: int,
    bucket_hash: Seq<char>,
    prefix: Seq<char>,
) -> Seq<Seq<char>>
    decreases store.len() - i,
{
    if i < 0 || i >= store.len() {
        Seq::empty()
    } else {
        let f = store[i].0;
        let rest = list_spec(store, i + 1, bucket_hash, prefix);
        if bucket_hash.is_prefix_of(f) {
            match al_get(store, sidecar_name(f)) {
                None => rest,
                Some(b) => match attrs_of_bytes(b) {
                    None => rest,
                    Some(a) => if prefix.is_prefix_of(a.name) {
                        seq![a.name] + rest
                    } else {
                        rest
                    },
                },
            }
        } else {
            rest
        }
    }
}

/// The views of a vector of names.
pub open spec fn names_view(v: Seq<String>) -> Seq<Seq<char>> {
    Seq::new(v.len(), |i: int| v[i]@)
}

/// A handle on one bucket over a byte store.
pub struct Bucket {
    accessor: Accessor,
    bucket_name: String,
}

impl View for Bucket {
    type V = BucketView;

    closed spec fn view(&self) -> BucketView {
        BucketView { store: self.accessor@, bucket: self.bucket_name@ }
    }
}

impl Bucket {
    /// A bucket handle over the given store.
    pub fn new(accessor: Accessor, bucket_name: &str) -> (r: Bucket)
        ensures
            r@.store == accessor@,
            r@.bucket == bucket_name@,
    {
        Bucket { accessor, bucket_name: bucket_name.to_owned() }
    }

    /// Hand the underlying store back, for the caller to persist.
    pub fn into_accessor(self) -> (r: Accessor)
        ensures
            r@ == self@.store,
    {
        self.accessor
    }

    /// The on-disk identifier of `key` under this bucket.
    pub fn get_path(&self, key: &str) -> (r: String)
        ensures
            r@ == object_id(self@.bucket, key@),
    {
        derive_id(self.bucket_name.as_str(), key)
    }

    /// Read an object: its payload and its attributes record.
    pub fn get_object(&self, key: &str) -> (r: Result<(Vec<u8>, Attributes), BucketError>)
        ensures
            r matches Ok(p) ==> get_spec(self@.store, object_id(self@.bucket, key@)) == Ok::<
                (Seq<u8>, AttrsView),
                BucketError,
            >((p.0@, p.1@)),
            r matches Err(e) ==> get_spec(self@.store, object_id(self@.bucket, key@)) == Err::<
                (Seq<u8>, AttrsView),
                BucketError,
            >(e),
    {
        let path = self.get_path(key);
        match self.accessor.read(path.as_str()) {
            None => Err(BucketError::NotFound),
            Some(bytes) => {
                let attr_path = Attributes::get_path(path.as_str());
                match self.accessor.read(attr_path.as_str()) {
                    None => Err(BucketError::Internal),
                    Some(ab) => match Attributes::from_bytes(ab) {
                        Ok(attrs) => Ok((bytes, attrs)),
                        Err(_) => Err(BucketError::Internal),
                    },
                }
            },
        }
    }

    /// Create or replace an object: the payload is written under the derived
    /// identifier, and a fresh attributes record replaces any earlier
    /// sidecar.
    pub fn put_object(&mut self, key: &str, bytes: Vec<u8>) -> (r: Result<(), BucketError>)
        ensures
            r is Ok,
            final(self)@.store == put_spec(
                old(self)@.store,
                object_id(old(self)@.bucket, key@),
                old(self)@.bucket,
                key@,
                bytes@,
            ),
            final(self)@.bucket == old(self)@.bucket,
    {
        let path = derive_id(self.bucket_name.as_str(), key);
        self.accessor.write(path.as_str(), bytes);
        let attrs = Attributes::new(self.bucket_name.clone(), key.to_owned());
        let ab = attrs.to_bytes();
        let attr_path = Attributes::get_path(path.as_str());
        self.accessor.write(attr_path.as_str(), ab);
        Ok(())
    }

    /// Delete an object: the payload, then its sidecar.
    pub fn delete_object(&mut self, key: &str) -> (r: Result<(), BucketError>)
        ensures
            final(self)@.store == delete_spec(
                old(self)@.store,
                object_id(old(self)@.bucket, key@),
            ).0,
            r == delete_spec(old(self)@.store, object_id(old(self)@.bucket, key@)).1,
            final(self)@.bucket == old(self)@.bucket,
    {
        let path = derive_id(self.bucket_name.as_str(), key);
        if !self.accessor.remove(path.as_str()) {
            return Err(BucketError::NotFound);
        }
        let attr_path = Attributes::get_path(path.as_str());
        if !self.accessor.remove(attr_path.as_str()) {
            return Err(BucketError::NotFound);
        }
        Ok(())
    }

    /// Merge metadata entries into an object's attributes record, creating
    /// the record when no sidecar exists yet.
    pub fn update_meta(&mut self, key: &str, meta: Vec<(String, String)>) -> (r: Result<
        (),
        BucketError,
    >)
        ensures
            final(self)@.store == update_spec(
                old(self)@.store,
                object_id(old(self)@.bucket, key@),
                old(self)@.bucket,
                key@,
                pairs_view(meta@),
            ).0,
            r == update_spec(
                old(self)@.store,
                object_id(old(self)@.bucket, key@),
                old(self)@.bucket,
                key@,
                pairs_view(meta@),
            ).1,
            final(self)@.bucket == old(self)@.bucket,
    {
        let ghost items = pairs_view(meta@);
        let path = derive_id(self.bucket_name.as_str(), key);
        let attr_path = Attributes::get_path(path.as_str());
        let mut attrs = match self.accessor.read(attr_path.as_str()) {
            Some(b) => match Attributes::from_bytes(b) {
                Ok(a) => a,
                Err(_) => {
                    return Err(BucketError::Internal);
                },
            },
            None => Attributes::new(self.bucket_name.clone(), key.to_owned()),
        };
        let ghost base = attrs@;
        let mut i: usize = 0;
        assert(items.take(0) =~= Seq::<(Seq<char>, Seq<char>)>::empty());
        while i < meta.len()
            invariant
                i <= meta@.len(),
                items == pairs_view(meta@),
                attrs@.bucket == base.bucket,
                attrs@.name == base.name,
                attrs@.meta == al_put_all(base.meta, items.take(i as int)),
            decreases meta@.len() - i,
        {
            let k = meta[i].0.clone();
            let v = meta[i].1.clone();
            assert(k@ == items[i as int].0 && v@ == items[i as int].1);
            attrs.add_meta(k, v);
            proof {
                let item = items[i as int];
                lemma_al_put_all_push(base.meta, items.take(i as int), item.0, item.1);
                assert(items.take(i as int).push(item) =~= items.take(i as int + 1));
            }
            i = i + 1;
        }
        assert(items.take(meta@.len() as int) =~= items);
        let ab = attrs.to_bytes();
        self.accessor.write(attr_path.as_str(), ab);
        Ok(())
    }

    /// List the names of this bucket's objects whose name starts with
    /// `prefix`, in store order.
    pub fn list_objects(&self, prefix: &str) -> (r: Result<Vec<String>, BucketError>)
        ensures
            r is Ok,
            r matches Ok(names) ==> names_view(names@) == list_spec(
                self@.store,
                0,
                hash_hex(self@.bucket),
                prefix@,
            ),
    {
        let ghost store = self@.store;
        let bucket_hash = get_hex(self.bucket_name.as_str());
        let names = self.accessor.get_filenames();
        let mut out: Vec<String> = Vec::new();
        let mut i: usize = 0;
        assert(names_view(out@) =~= Seq::<Seq<char>>::empty());
        while i < names.len()
            invariant
                i <= names@.len(),
                store == self@.store,
                names@.len() == store.len(),
                forall|x: int| 0 <= x < names@.len() ==> names@[x]@ == store[x].0,
                bucket_hash@ == hash_hex(self@.bucket),
                list_spec(store, 0, bucket_hash@, prefix@) == names_view(out@) + list_spec(
                    store,
                    i as int,
                    bucket_hash@,
                    prefix@,
                ),
            decreases names@.len() - i,
        {
            let ghost out0 = out@;
            let f = &names[i];
            if str_starts_with(f.as_str(), bucket_hash.as_str()) {
                let sc = Attributes::get_path(f.as_str());
                match self.accessor.read(sc.as_str()) {
                    Some(b) => match Attributes::from_bytes(b) {
                        Ok(a) => {
                            let nm = a.name();
                            if str_starts_with(nm.as_str(), prefix) {
                                out.push(nm);
                                assert(names_view(out@) =~= names_view(out0) + seq![a@.name]);
                            }
                        },
                        Err(_) => {},
                    },
                    None => {},
                }
            }
            i = i + 1;
            assert(names_view(out@) + list_spec(store, i as int, bucket_hash@, prefix@)
                =~= names_view(out0) + list_spec(store, i as int - 1, bucket_hash@, prefix@));
        }
        assert(list_spec(store, names@.len() as int, bucket_hash@, prefix@) =~= Seq::<
            Seq<char>,
        >::empty());
        assert(names_view(out@) =~= list_spec(store, 0, bucket_hash@, prefix@));
        Ok(out)
    }
}

} // verus!
