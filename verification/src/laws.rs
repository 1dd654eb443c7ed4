//! Laws of the object operations, stated over the specification-level
//! operations that the executable methods are proved to implement.

use vstd::prelude::*;

verus! {

use crate::alist::al_del;
use crate::alist::al_distinct;
use crate::alist::al_get;
use crate::alist::al_has;
use crate::alist::al_put;
use crate::alist::al_put_all;
use crate::alist::lemma_al_del_distinct;
use crate::alist::lemma_al_get_del_other;
use crate::alist::lemma_al_get_del_same;
use crate::alist::lemma_al_get_put_other;
use crate::alist::lemma_al_get_put_same;
use crate::alist::lemma_al_idx_unique;
use crate::alist::lemma_al_put_all_distinct;
use crate::alist::lemma_al_put_distinct;
use crate::bucket::delete_spec;
use crate::bucket::fresh_attrs;
use crate::bucket::get_spec;
use crate::bucket::list_spec;
use crate::bucket::put_spec;
use crate::bucket::update_spec;
use crate::bucket::BucketError;
use crate::json::attrs_of_bytes;
use crate::json::attrs_to_bytes;
use crate::json::lemma_attrs_bytes_round_trip;
use crate::json::AttrsView;
use crate::naming::lemma_sidecar_injective;
use crate::naming::lemma_sidecar_ne;
use crate::naming::object_id;
use crate::naming::sidecar_name;

/// Deriving an object identifier is a pure function of the bucket name and
/// the key: two derivations from the same inputs are the same identifier.
pub proof fn lemma_derive_deterministic(
    bucket: Seq<char>,
    key: Seq<char>,
    r1: Seq<char>,
    r2: Seq<char>,
)
    requires
        r1 == object_id(bucket, key),
        r2 == object_id(bucket, key),
    ensures
        r1 == r2,
{
}

/// What the store holds under `name`, read off a known position.
proof fn lemma_store_lookup(s: Seq<(Seq<char>, Seq<u8>)>, name: Seq<char>, i: int)
    requires
        al_distinct(s),
        0 <= i < s.len(),
        s[i].0 == name,
    ensures
        al_get(s, name) == Some(s[i].1),
{
    lemma_al_idx_unique(s, name, i);
}

/// A fresh attributes record is well-formed, and reading its persisted
/// bytes back gives it.
proof fn lemma_fresh_attrs_round_trip(bucket: Seq<char>, key: Seq<char>)
    ensures
        attrs_of_bytes(attrs_to_bytes(fresh_attrs(bucket, key))) == Some(fresh_attrs(bucket, key)),
{
    lemma_attrs_bytes_round_trip(fresh_attrs(bucket, key));
}

/// Writing an object and then reading it under the same bucket and key
/// yields the written bytes, with a fresh attributes record.
pub proof fn lemma_put_then_get(
    store: Seq<(Seq<char>, Seq<u8>)>,
    bucket: Seq<char>,
    key: Seq<char>,
    bytes: Seq<u8>,
)
    requires
        al_distinct(store),
    ensures
        get_spec(put_spec(store, object_id(bucket, key), bucket, key, bytes), object_id(
            bucket,
            key,
        )) == Ok::<(Seq<u8>, AttrsView), BucketError>((bytes, fresh_attrs(bucket, key))),
{
    let id = object_id(bucket, key);
    let ap = sidecar_name(id);
    let enc = attrs_to_bytes(fresh_attrs(bucket, key));
    lemma_sidecar_ne(id);
    let s1 = al_put(store, id, bytes);
    lemma_al_put_distinct(store, id, bytes);
    lemma_al_get_put_same(store, id, bytes);
    lemma_al_get_put_same(s1, ap, enc);
    lemma_al_get_put_other(s1, ap, enc, id);
    lemma_fresh_attrs_round_trip(bucket, key);
}

/// After deleting an object — whatever the delete reported — reading it
/// under the same bucket and key fails with `NotFound`.
pub proof fn lemma_delete_then_get(
    store: Seq<(Seq<char>, Seq<u8>)>,
    bucket: Seq<char>,
    key: Seq<char>,
)
    requires
        al_distinct(store),
    ensures
        get_spec(delete_spec(store, object_id(bucket, key)).0, object_id(bucket, key)) == Err::<
            (Seq<u8>, AttrsView),
            BucketError,
        >(BucketError::NotFound),
{
    let id = object_id(bucket, key);
    let ap = sidecar_name(id);
    lemma_sidecar_ne(id);
    if al_has(store, id) {
        let s1 = al_del(store, id);
        lemma_al_del_distinct(store, id);
        lemma_al_get_del_same(store, id);
        if al_has(s1, ap) {
            lemma_al_get_del_other(s1, ap, id);
        }
    }
}

/// Updating the metadata of a key with no sidecar creates a record carrying
/// exactly the given entries; a second update merges its entries into them,
/// later values winning per key.
pub proof fn lemma_update_meta_twice_fresh(
    store: Seq<(Seq<char>, Seq<u8>)>,
    bucket: Seq<char>,
    key: Seq<char>,
    items1: Seq<(Seq<char>, Seq<char>)>,
    items2: Seq<(Seq<char>, Seq<char>)>,
)
    requires
        al_distinct(store),
        !al_has(store, sidecar_name(object_id(bucket, key))),
    ensures
        ({
            let id = object_id(bucket, key);
            let ap = sidecar_name(id);
            let u1 = update_spec(store, id, bucket, key, items1);
            let u2 = update_spec(u1.0, id, bucket, key, items2);
            let merged = AttrsView {
                bucket,
                name: key,
                meta: al_put_all(al_put_all(Seq::empty(), items1), items2),
            };
            u1.1 == Ok::<(), BucketError>(()) && u2.1 == Ok::<(), BucketError>(()) && al_get(
                u2.0,
                ap,
            ) == Some(attrs_to_bytes(merged)) && attrs_of_bytes(attrs_to_bytes(merged)) == Some(
                merged,
            )
        }),
{
    let id = object_id(bucket, key);
    let ap = sidecar_name(id);
    let a1 = AttrsView { bucket, name: key, meta: al_put_all(Seq::empty(), items1) };
    let enc1 = attrs_to_bytes(a1);
    let s1 = al_put(store, ap, enc1);
    lemma_al_put_distinct(store, ap, enc1);
    lemma_al_get_put_same(store, ap, enc1);
    assert(al_distinct(Seq::<(Seq<char>, Seq<char>)>::empty()));
    lemma_al_put_all_distinct(Seq::empty(), items1);
    lemma_attrs_bytes_round_trip(a1);
    let merged = AttrsView {
        bucket,
        name: key,
        meta: al_put_all(al_put_all(Seq::empty(), items1), items2),
    };
    let enc2 = attrs_to_bytes(merged);
    lemma_al_put_distinct(s1, ap, enc2);
    lemma_al_get_put_same(s1, ap, enc2);
    lemma_al_put_all_distinct(al_put_all(Seq::empty(), items1), items2);
    lemma_attrs_bytes_round_trip(merged);
}

/// The pinned overwrite behaviour: writing a payload, setting metadata, and
/// writing the payload again leaves the object readable with the second
/// bytes and an empty metadata record — the update is lost.
pub proof fn lemma_put_update_put_loses_meta(
    store: Seq<(Seq<char>, Seq<u8>)>,
    bucket: Seq<char>,
    key: Seq<char>,
    bytes1: Seq<u8>,
    items: Seq<(Seq<char>, Seq<char>)>,
    bytes2: Seq<u8>,
)
    requires
        al_distinct(store),
    ensures
        ({
            let id = object_id(bucket, key);
            let s1 = put_spec(store, id, bucket, key, bytes1);
            let u = update_spec(s1, id, bucket, key, items);
            let s3 = put_spec(u.0, id, bucket, key, bytes2);
            u.1 == Ok::<(), BucketError>(()) && get_spec(s3, id) == Ok::<
                (Seq<u8>, AttrsView),
                BucketError,
            >((bytes2, fresh_attrs(bucket, key)))
        }),
{
    let id = object_id(bucket, key);
    let ap = sidecar_name(id);
    let enc = attrs_to_bytes(fresh_attrs(bucket, key));
    lemma_sidecar_ne(id);
    let p1 = al_put(store, id, bytes1);
    lemma_al_put_distinct(store, id, bytes1);
    lemma_al_put_distinct(p1, ap, enc);
    let s1 = al_put(p1, ap, enc);
    lemma_al_get_put_same(p1, ap, enc);
    lemma_fresh_attrs_round_trip(bucket, key);
    let a0 = fresh_attrs(bucket, key);
    let merged = AttrsView { bucket: a0.bucket, name: a0.name, meta: al_put_all(a0.meta, items) };
    let enc2 = attrs_to_bytes(merged);
    lemma_al_put_distinct(s1, ap, enc2);
    lemma_put_then_get(al_put(s1, ap, enc2), bucket, key, bytes2);
}

/// Listing over an empty store yields no names.
pub proof fn lemma_list_empty_store(bucket_hash: Seq<char>, prefix: Seq<char>)
    ensures
        list_spec(Seq::empty(), 0, bucket_hash, prefix) == Seq::<Seq<char>>::empty(),
{
}

/// Listing yields no names from position `i` on when no entry name there
/// starts with the bucket's hash.
proof fn lemma_list_no_match_from(
    store: Seq<(Seq<char>, Seq<u8>)>,
    i: int,
    bucket_hash: Seq<char>,
    prefix: Seq<char>,
)
    requires
        forall|x: int| 0 <= x < store.len() ==> !bucket_hash.is_prefix_of(#[trigger] store[x].0),
    ensures
        list_spec(store, i, bucket_hash, prefix) == Seq::<Seq<char>>::empty(),
    decreases store.len() - i,
{
    if 0 <= i < store.len() {
        lemma_list_no_match_from(store, i + 1, bucket_hash, prefix);
    }
}

/// Listing a bucket that owns no entry of the store yields no names,
/// whatever else the store holds.
pub proof fn lemma_list_no_bucket_match(
    store: Seq<(Seq<char>, Seq<u8>)>,
    bucket_hash: Seq<char>,
    prefix: Seq<char>,
)
    requires
        forall|x: int| 0 <= x < store.len() ==> !bucket_hash.is_prefix_of(#[trigger] store[x].0),
    ensures
        list_spec(store, 0, bucket_hash, prefix) == Seq::<Seq<char>>::empty(),
{
    lemma_list_no_match_from(store, 0, bucket_hash, prefix);
}


/// Nothing in the store carries `name`.
proof fn lemma_store_absent(s: Seq<(Seq<char>, Seq<u8>)>, name: Seq<char>)
    requires
        forall|x: int| 0 <= x < s.len() ==> (#[trigger] s[x].0) != name,
    ensures
        al_get(s, name) is None,
{
    assert(!al_has(s, name));
}

/// A prefix of a text is a prefix of any extension of it.
proof fn lemma_prefix_extends(p: Seq<char>, a: Seq<char>, b: Seq<char>)
    requires
        p.is_prefix_of(a),
    ensures
        p.is_prefix_of(a + b),
{
    assert((a + b).subrange(0, p.len() as int) =~= a.subrange(0, p.len() as int));
}

/// Storing a fresh name appends the pair.
proof fn lemma_al_put_fresh(s: Seq<(Seq<char>, Seq<u8>)>, k: Seq<char>, v: Seq<u8>)
    requires
        !al_has(s, k),
    ensures
        al_put(s, k, v) == s.push((k, v)),
{
}

/// What three puts of distinct, collision-free objects leave in an empty
/// store: the three payloads with their sidecars, in write order.
#[verifier::rlimit(100)]
proof fn lemma_three_puts_layout(
    bucket: Seq<char>,
    k1: Seq<char>,
    k2: Seq<char>,
    k3: Seq<char>,
    id1: Seq<char>,
    id2: Seq<char>,
    id3: Seq<char>,
    b1: Seq<u8>,
    b2: Seq<u8>,
    b3: Seq<u8>,
)
    requires
        id1 != id2,
        id1 != id3,
        id2 != id3,
        id1 != sidecar_name(id2),
        id1 != sidecar_name(id3),
        id2 != sidecar_name(id1),
        id2 != sidecar_name(id3),
        id3 != sidecar_name(id1),
        id3 != sidecar_name(id2),
    ensures
        ({
            let s = put_spec(
                put_spec(put_spec(Seq::empty(), id1, bucket, k1, b1), id2, bucket, k2, b2),
                id3,
                bucket,
                k3,
                b3,
            );
            s == seq![
                (id1, b1),
                (sidecar_name(id1), attrs_to_bytes(fresh_attrs(bucket, k1))),
                (id2, b2),
                (sidecar_name(id2), attrs_to_bytes(fresh_attrs(bucket, k2))),
                (id3, b3),
                (sidecar_name(id3), attrs_to_bytes(fresh_attrs(bucket, k3))),
            ] && al_distinct(s)
        }),
{
    let a1 = sidecar_name(id1);
    let a2 = sidecar_name(id2);
    let a3 = sidecar_name(id3);
    let e1 = attrs_to_bytes(fresh_attrs(bucket, k1));
    let e2 = attrs_to_bytes(fresh_attrs(bucket, k2));
    let e3 = attrs_to_bytes(fresh_attrs(bucket, k3));
    lemma_sidecar_ne(id1);
    lemma_sidecar_ne(id2);
    lemma_sidecar_ne(id3);
    lemma_sidecar_injective(id1, id2);
    lemma_sidecar_injective(id1, id3);
    lemma_sidecar_injective(id2, id3);
    let s0: Seq<(Seq<char>, Seq<u8>)> = Seq::empty();
    assert(!al_has(s0, id1));
    lemma_al_put_fresh(s0, id1, b1);
    let t1 = s0.push((id1, b1));
    assert(!al_has(t1, a1));
    lemma_al_put_fresh(t1, a1, e1);
    let t2 = t1.push((a1, e1));
    assert(put_spec(s0, id1, bucket, k1, b1) == t2);
    assert(!al_has(t2, id2));
    lemma_al_put_fresh(t2, id2, b2);
    let t3 = t2.push((id2, b2));
    assert(!al_has(t3, a2));
    lemma_al_put_fresh(t3, a2, e2);
    let t4 = t3.push((a2, e2));
    assert(put_spec(t2, id2, bucket, k2, b2) == t4);
    assert(!al_has(t4, id3));
    lemma_al_put_fresh(t4, id3, b3);
    let t5 = t4.push((id3, b3));
    assert(!al_has(t5, a3));
    lemma_al_put_fresh(t5, a3, e3);
    let t6 = t5.push((a3, e3));
    assert(put_spec(t4, id3, bucket, k3, b3) == t6);
    assert(t6 =~= seq![(id1, b1), (a1, e1), (id2, b2), (a2, e2), (id3, b3), (a3, e3)]);
    assert(al_distinct(t6));
}

/// Listing with a prefix after storing three objects into an empty store
/// yields exactly the names of the two whose name starts with the prefix,
/// in write order. The derived identifiers are assumed free of hash
/// collisions: pairwise distinct, and none the sidecar name — or the
/// sidecar's sidecar name — of another.
#[verifier::rlimit(100)]
pub proof fn lemma_list_after_puts(
    bucket: Seq<char>,
    bucket_hash: Seq<char>,
    prefix: Seq<char>,
    k1: Seq<char>,
    k2: Seq<char>,
    k3: Seq<char>,
    id1: Seq<char>,
    id2: Seq<char>,
    id3: Seq<char>,
    b1: Seq<u8>,
    b2: Seq<u8>,
    b3: Seq<u8>,
)
    requires
        id1 != id2,
        id1 != id3,
        id2 != id3,
        id1 != sidecar_name(id2),
        id1 != sidecar_name(id3),
        id2 != sidecar_name(id1),
        id2 != sidecar_name(id3),
        id3 != sidecar_name(id1),
        id3 != sidecar_name(id2),
        id1 != sidecar_name(sidecar_name(id2)),
        id1 != sidecar_name(sidecar_name(id3)),
        id2 != sidecar_name(sidecar_name(id1)),
        id2 != sidecar_name(sidecar_name(id3)),
        id3 != sidecar_name(sidecar_name(id1)),
        id3 != sidecar_name(sidecar_name(id2)),
        bucket_hash.is_prefix_of(id1),
        bucket_hash.is_prefix_of(id2),
        bucket_hash.is_prefix_of(id3),
        prefix.is_prefix_of(k1),
        prefix.is_prefix_of(k2),
        !prefix.is_prefix_of(k3),
    ensures
        ({
            let s = put_spec(
                put_spec(put_spec(Seq::empty(), id1, bucket, k1, b1), id2, bucket, k2, b2),
                id3,
                bucket,
                k3,
                b3,
            );
            list_spec(s, 0, bucket_hash, prefix) == seq![k1, k2]
        }),
{
    let a1 = sidecar_name(id1);
    let a2 = sidecar_name(id2);
    let a3 = sidecar_name(id3);
    let e1 = attrs_to_bytes(fresh_attrs(bucket, k1));
    let e2 = attrs_to_bytes(fresh_attrs(bucket, k2));
    let e3 = attrs_to_bytes(fresh_attrs(bucket, k3));
    lemma_three_puts_layout(bucket, k1, k2, k3, id1, id2, id3, b1, b2, b3);
    let s = seq![(id1, b1), (a1, e1), (id2, b2), (a2, e2), (id3, b3), (a3, e3)];
    lemma_sidecar_ne(id1);
    lemma_sidecar_ne(id2);
    lemma_sidecar_ne(id3);
    // the sidecar entries have no sidecar of their own in the store
    lemma_sidecar_injective(id1, a1);
    lemma_sidecar_injective(id2, a1);
    lemma_sidecar_injective(id3, a1);
    lemma_sidecar_injective(id1, a2);
    lemma_sidecar_injective(id2, a2);
    lemma_sidecar_injective(id3, a2);
    lemma_sidecar_injective(id1, a3);
    lemma_sidecar_injective(id2, a3);
    lemma_sidecar_injective(id3, a3);
    assert(sidecar_name(a1).len() == id1.len() + 10);
    assert(sidecar_name(a2).len() == id2.len() + 10);
    assert(sidecar_name(a3).len() == id3.len() + 10);
    lemma_store_absent(s, sidecar_name(a1));
    lemma_store_absent(s, sidecar_name(a2));
    lemma_store_absent(s, sidecar_name(a3));
    // the payload entries map to their sidecars
    lemma_store_lookup(s, a1, 1);
    lemma_store_lookup(s, a2, 3);
    lemma_store_lookup(s, a3, 5);
    lemma_fresh_attrs_round_trip(bucket, k1);
    lemma_fresh_attrs_round_trip(bucket, k2);
    lemma_fresh_attrs_round_trip(bucket, k3);
    // the bucket filter admits every entry
    lemma_prefix_extends(bucket_hash, id1, seq!['.', 'j', 's', 'o', 'n']);
    lemma_prefix_extends(bucket_hash, id2, seq!['.', 'j', 's', 'o', 'n']);
    lemma_prefix_extends(bucket_hash, id3, seq!['.', 'j', 's', 'o', 'n']);
    // walk the six entries from the back
    assert(list_spec(s, 6, bucket_hash, prefix) =~= Seq::<Seq<char>>::empty());
    assert(list_spec(s, 5, bucket_hash, prefix) =~= Seq::<Seq<char>>::empty());
    assert(list_spec(s, 4, bucket_hash, prefix) =~= Seq::<Seq<char>>::empty());
    assert(list_spec(s, 3, bucket_hash, prefix) =~= Seq::<Seq<char>>::empty());
    assert(list_spec(s, 2, bucket_hash, prefix) =~= seq![k2]);
    assert(list_spec(s, 1, bucket_hash, prefix) =~= seq![k2]);
    assert(list_spec(s, 0, bucket_hash, prefix) =~= seq![k1, k2]);
}

} // verus!
