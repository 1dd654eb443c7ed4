//! Deterministic naming of stored objects.
//!
//! A bucket name or key is sanitized (characters unsafe for filenames are
//! removed), hashed with SHA-256, and rendered as lowercase hex; the object
//! identifier is the two digests joined by an underscore. The attributes
//! sidecar lives under the identifier with a `.json` suffix.

use vstd::prelude::*;

use sha2::Digest;

verus! {

use vstd::string::StrSliceExecFns;
use vstd::string::StringExecFns;
use crate::text::push_char;

/// The SHA-256 digest of a byte sequence.
pub uninterp spec fn sha256_of(bytes: Seq<u8>) -> Seq<u8>;

/// The text with the characters unsafe for filenames removed, as
/// `sanitize_filename` leaves it.
pub uninterp spec fn sanitized_of(s: Seq<char>) -> Seq<char>;

/// Relies on `sha2::Sha256` through the `Digest` trait: the digest is 32
/// bytes and depends on the input bytes alone.
#[verifier::external_body]
fn sha256_digest(bytes: &[u8]) -> (r: Vec<u8>)
    ensures
        r@ == sha256_of(bytes@),
        r@.len() == 32,
{
    sha2::Sha256::digest(bytes).to_vec()
}

/// Relies on `sanitize_filename::sanitize_with_options`: the result depends
/// on the input characters alone. The options are pinned (no platform
/// default) so that the mapping is the same on every target: strip the
/// characters unsafe for filenames, keep at most 255 bytes.
#[verifier::external_body]
fn sanitize_name(value: &str) -> (r: String)
    ensures
        r@ == sanitized_of(value@),
{
    sanitize_filename::sanitize_with_options(
        value,
        sanitize_filename::Options { windows: false, truncate: true, replacement: "" },
    )
}

/// The lowercase hex character of a nibble.
pub open spec fn hex_digit(n: int) -> char {
    if n == 0 {
        '0'
    } else if n == 1 {
        '1'
    } else if n == 2 {
        '2'
    } else if n == 3 {
        '3'
    } else if n == 4 {
        '4'
    } else if n == 5 {
        '5'
    } else if n == 6 {
        '6'
    } else if n == 7 {
        '7'
    } else if n == 8 {
        '8'
    } else if n == 9 {
        '9'
    } else if n == 10 {
        'a'
    } else if n == 11 {
        'b'
    } else if n == 12 {
        'c'
    } else if n == 13 {
        'd'
    } else if n == 14 {
        'e'
    } else {
        'f'
    }
}

/// The lowercase hex rendering of a byte sequence, two characters per byte.
pub open spec fn hex_of(bytes: Seq<u8>) -> Seq<char>
    decreases bytes.len(),
{
    if bytes.len() == 0 {
        Seq::empty()
    } else {
        seq![hex_digit(bytes[0] as int / 16), hex_digit(bytes[0] as int % 16)] + hex_of(
            bytes.drop_first(),
        )
    }
}

/// The hex rendering has two characters per byte.
pub proof fn lemma_hex_of_len(bytes: Seq<u8>)
    ensures
        hex_of(bytes).len() == 2 * bytes.len(),
    decreases bytes.len(),
{
    if bytes.len() > 0 {
        lemma_hex_of_len(bytes.drop_first());
    }
}

proof fn lemma_hex_of_take(bytes: Seq<u8>, i: int)
    requires
        0 <= i < bytes.len(),
    ensures
        hex_of(bytes.take(i + 1)) == hex_of(bytes.take(i)) + seq![
            hex_digit(bytes[i] as int / 16),
            hex_digit(bytes[i] as int % 16),
        ],
    decreases i,
{
    if i == 0 {
        assert(bytes.take(1).drop_first() =~= Seq::<u8>::empty());
        assert(bytes.take(0) =~= Seq::<u8>::empty());
        assert(hex_of(bytes.take(1)) =~= hex_of(bytes.take(0)) + seq![
            hex_digit(bytes[0] as int / 16),
            hex_digit(bytes[0] as int % 16),
        ]);
    } else {
        let t = bytes.drop_first();
        assert(bytes.take(i + 1).drop_first() =~= t.take(i));
        assert(bytes.take(i).drop_first() =~= t.take(i - 1));
        lemma_hex_of_take(t, i - 1);
        assert(hex_of(bytes.take(i + 1)) =~= hex_of(bytes.take(i)) + seq![
            hex_digit(bytes[i] as int / 16),
            hex_digit(bytes[i] as int % 16),
        ]);
    }
}

/// The lowercase hex character of a nibble value.
pub(crate) fn hex_digit_char(n: u8) -> (r: char)
    requires
        n < 16,
    ensures
        r == hex_digit(n as int),
{
    if n == 0 {
        '0'
    } else if n == 1 {
        '1'
    } else if n == 2 {
        '2'
    } else if n == 3 {
        '3'
    } else if n == 4 {
        '4'
    } else if n == 5 {
        '5'
    } else if n == 6 {
        '6'
    } else if n == 7 {
        '7'
    } else if n == 8 {
        '8'
    } else if n == 9 {
        '9'
    } else if n == 10 {
        'a'
    } else if n == 11 {
        'b'
    } else if n == 12 {
        'c'
    } else if n == 13 {
        'd'
    } else if n == 14 {
        'e'
    } else {
        'f'
    }
}

/// The lowercase hex rendering of a byte buffer.
fn to_hex(bytes: &Vec<u8>) -> (r: String)
    ensures
        r@ == hex_of(bytes@),
{
    let mut out = String::new();
    let mut i: usize = 0;
    assert(bytes@.take(0) =~= Seq::<u8>::empty());
    while i < bytes.len()
        invariant
            i <= bytes@.len(),
            out@ == hex_of(bytes@.take(i as int)),
        decreases bytes@.len() - i,
    {
        let b = bytes[i];
        proof {
            lemma_hex_of_take(bytes@, i as int);
        }
        push_char(&mut out, hex_digit_char(b / 16));
        push_char(&mut out, hex_digit_char(b % 16));
        i = i + 1;
        assert(out@ =~= hex_of(bytes@.take(i as int)));
    }
    assert(bytes@.take(bytes@.len() as int) =~= bytes@);
    out
}

/// The hex-rendered SHA-256 digest of the sanitized text.
pub open spec fn hash_hex(s: Seq<char>) -> Seq<char> {
    hex_of(sha256_of(vstd::utf8::encode_utf8(sanitized_of(s))))
}

/// The on-disk identifier of an object: the hashes of the bucket name and of
/// the key, joined by an underscore.
pub open spec fn object_id(bucket: Seq<char>, key: Seq<char>) -> Seq<char> {
    hash_hex(bucket) + seq!['_'] + hash_hex(key)
}

/// The name of the attributes sidecar of an entry.
pub open spec fn sidecar_name(name: Seq<char>) -> Seq<char> {
    name + seq!['.', 'j', 's', 'o', 'n']
}

/// An entry name never equals its own sidecar name.
pub proof fn lemma_sidecar_ne(name: Seq<char>)
    ensures
        sidecar_name(name) != name,
{
    assert(sidecar_name(name).len() == name.len() + 5);
}

/// Sidecar names of distinct entry names are distinct.
pub proof fn lemma_sidecar_injective(a: Seq<char>, b: Seq<char>)
    requires
        a != b,
    ensures
        sidecar_name(a) != sidecar_name(b),
{
    if sidecar_name(a) == sidecar_name(b) {
        assert(sidecar_name(a).len() == sidecar_name(b).len());
        assert(a.len() == b.len());
        assert(a =~= b) by {
            assert(forall|i: int| 0 <= i < a.len() ==> a[i] == sidecar_name(a)[i]);
            assert(forall|i: int| 0 <= i < b.len() ==> b[i] == sidecar_name(b)[i]);
        }
    }
}

/// Hash a text and render the digest as lowercase hex.
pub fn get_hex(value: &str) -> (r: String)
    ensures
        r@ == hash_hex(value@),
{
    let sanitized = sanitize_name(value);
    let digest = sha256_digest(sanitized.as_str().as_bytes());
    to_hex(&digest)
}

/// The identifier under which the payload of (`bucket_name`, `key`) is
/// stored.
pub fn derive_id(bucket_name: &str, key: &str) -> (r: String)
    ensures
        r@ == object_id(bucket_name@, key@),
{
    let mut out = get_hex(bucket_name);
    push_char(&mut out, '_');
    let k = get_hex(key);
    out.append(k.as_str());
    out
}

/// The full path of the payload of (`bucket_name`, `key`) inside the data
/// directory.
pub fn get_path(data_directory: &String, bucket_name: &String, key: &String) -> (r: String)
    ensures
        r@ == data_directory@ + seq!['/'] + object_id(bucket_name@, key@),
{
    let mut out = data_directory.clone();
    push_char(&mut out, '/');
    let id = derive_id(bucket_name.as_str(), key.as_str());
    out.append(id.as_str());
    out
}

} // verus!
