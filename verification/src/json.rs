//! The JSON codec of an attributes record.
//!
//! A record is persisted as one compact JSON object,
//! `{"bucket":...,"name":...,"meta":{...}}`, the fields in that order and the
//! string values escaped as JSON asks. The encoder always writes this
//! canonical form; the decoder also accepts the short escapes (`\n`, `\t`,
//! ...) and arbitrary `\u` escapes inside strings, and collapses repeated
//! metadata keys by keeping the last value, so any buffer the encoder has
//! ever written — and any compact buffer an ordinary JSON serializer writes
//! for the same shape — reads back.

use vstd::prelude::*;

verus! {

use crate::alist::al_distinct;
use crate::alist::al_has;
use crate::alist::al_put;
use crate::alist::al_put_all;
use crate::alist::lemma_al_idx_unique;
use crate::alist::lemma_al_put_all_push;
use crate::alist::lemma_al_put_distinct;
use crate::naming::hex_digit;
use crate::naming::hex_digit_char;
use crate::text::char_from_u32;
use crate::text::push_char;
use crate::text::str_eq;
use crate::text::str_to_chars;
use vstd::string::StrSliceExecFns;
use vstd::string::StringExecFns;

/// The mathematical content of an attributes record: the bucket name, the
/// original key, and the user metadata pairs in storage order.
pub ghost struct AttrsView {
    pub bucket: Seq<char>,
    pub name: Seq<char>,
    pub meta: Seq<(Seq<char>, Seq<char>)>,
}

impl AttrsView {
    /// Well-formed: the metadata keys are pairwise distinct.
    pub open spec fn wf(self) -> bool {
        al_distinct(self.meta)
    }
}

/// The JSON escape of one character: quote and backslash get a backslash,
/// a control character a `\u00..` escape, anything else stands as itself.
pub open spec fn esc_char(c: char) -> Seq<char> {
    if c == '"' {
        seq!['\\', '"']
    } else if c == '\\' {
        seq!['\\', '\\']
    } else if (c as u32) < 0x20 {
        seq![
            '\\',
            'u',
            '0',
            '0',
            hex_digit(c as u32 as int / 16),
            hex_digit(c as u32 as int % 16),
        ]
    } else {
        seq![c]
    }
}

/// The JSON escape of a text.
pub open spec fn esc_str(s: Seq<char>) -> Seq<char>
    decreases s.len(),
{
    if s.len() == 0 {
        Seq::empty()
    } else {
        esc_char(s[0]) + esc_str(s.drop_first())
    }
}

/// `{"bucket":"` — the head of the record, through the opening quote of the
/// bucket value.
pub open spec fn lit_head() -> Seq<char> {
    seq!['{', '"', 'b', 'u', 'c', 'k', 'e', 't', '"', ':', '"']
}

/// `,"name":"` — between the bucket value and the name value.
pub open spec fn lit_name() -> Seq<char> {
    seq![',', '"', 'n', 'a', 'm', 'e', '"', ':', '"']
}

/// `,"meta":{` — between the name value and the metadata object.
pub open spec fn lit_meta() -> Seq<char> {
    seq![',', '"', 'm', 'e', 't', 'a', '"', ':', '{']
}

/// The items of a non-empty metadata object, through the closing brace of
/// the object.
pub open spec fn enc_meta_items(meta: Seq<(Seq<char>, Seq<char>)>) -> Seq<char>
    decreases meta.len(),
{
    if meta.len() <= 1 {
        seq!['"'] + ((esc_str(meta[0].0) + seq!['"']) + (seq![':', '"'] + ((esc_str(meta[0].1)
            + seq!['"']) + seq!['}'])))
    } else {
        seq!['"'] + ((esc_str(meta[0].0) + seq!['"']) + (seq![':', '"'] + ((esc_str(meta[0].1)
            + seq!['"']) + (seq![','] + enc_meta_items(meta.drop_first())))))
    }
}

/// The metadata object, through its closing brace (the opening brace ends
/// `lit_meta`).
pub open spec fn enc_meta(meta: Seq<(Seq<char>, Seq<char>)>) -> Seq<char> {
    if meta.len() == 0 {
        seq!['}']
    } else {
        enc_meta_items(meta)
    }
}

/// The canonical JSON text of a record.
pub open spec fn enc_attrs(a: AttrsView) -> Seq<char> {
    lit_head() + ((esc_str(a.bucket) + seq!['"']) + (lit_name() + ((esc_str(a.name) + seq!['"'])
        + (lit_meta() + (enc_meta(a.meta) + seq!['}'])))))
}

/// The value of a hex digit character, if it is one.
pub open spec fn hex_val(c: char) -> Option<u32> {
    let v = c as u32;
    if 48 <= v && v <= 57 {
        Some((v - 48) as u32)
    } else if 97 <= v && v <= 102 {
        Some((v - 87) as u32)
    } else if 65 <= v && v <= 70 {
        Some((v - 55) as u32)
    } else {
        None
    }
}

/// The character a short escape letter denotes, if it is one.
pub open spec fn short_escape(e: char) -> Option<char> {
    if e == '"' {
        Some('"')
    } else if e == '\\' {
        Some('\\')
    } else if e == '/' {
        Some('/')
    } else if e == 'b' {
        Some('\u{08}')
    } else if e == 'f' {
        Some('\u{0C}')
    } else if e == 'n' {
        Some('\n')
    } else if e == 'r' {
        Some('\r')
    } else if e == 't' {
        Some('\t')
    } else {
        None
    }
}

/// The code point of a `\u` escape: the four hex digits at `i`, unless one
/// is not a digit or the value is a surrogate.
pub open spec fn dec_u_escape(s: Seq<char>, i: int) -> Option<u32> {
    match (hex_val(s[i]), hex_val(s[i + 1]), hex_val(s[i + 2]), hex_val(s[i + 3])) {
        (Some(h0), Some(h1), Some(h2), Some(h3)) => {
            let v = h0 * 0x1000 + h1 * 0x100 + h2 * 0x10 + h3;
            if 0xD800 <= v < 0xE000 {
                None
            } else {
                Some(v as u32)
            }
        },
        _ => None,
    }
}

/// The body of a JSON string starting at `i` (after the opening quote): the
/// unescaped content and the position after the closing quote, or `None`
/// when no well-formed string body starts there.
#[verifier::opaque]
pub open spec fn dec_str_body(s: Seq<char>, i: int) -> Option<(Seq<char>, int)>
    decreases s.len() - i,
{
    if i < 0 || i >= s.len() {
        None
    } else if s[i] == '"' {
        Some((Seq::empty(), i + 1))
    } else if s[i] == '\\' {
        if i + 2 > s.len() {
            None
        } else if s[i + 1] == 'u' {
            if i + 6 > s.len() {
                None
            } else {
                match dec_u_escape(s, i + 2) {
                    None => None,
                    Some(v) => match dec_str_body(s, i + 6) {
                        None => None,
                        Some((t, j)) => Some((seq![v as char] + t, j)),
                    },
                }
            }
        } else {
            match short_escape(s[i + 1]) {
                None => None,
                Some(c) => match dec_str_body(s, i + 2) {
                    None => None,
                    Some((t, j)) => Some((seq![c] + t, j)),
                },
            }
        }
    } else if (s[i] as u32) < 0x20 {
        None
    } else {
        match dec_str_body(s, i + 1) {
            None => None,
            Some((t, j)) => Some((seq![s[i]] + t, j)),
        }
    }
}

/// A well-formed string body ends after where it starts, within the text.
pub proof fn lemma_dec_str_body_bounds(s: Seq<char>, i: int)
    requires
        dec_str_body(s, i) is Some,
    ensures
        i < dec_str_body(s, i)->Some_0.1 <= s.len(),
    decreases s.len() - i,
{
    reveal(dec_str_body);
    if s[i] == '"' {
    } else if s[i] == '\\' {
        if s[i + 1] == 'u' {
            lemma_dec_str_body_bounds(s, i + 6);
        } else {
            lemma_dec_str_body_bounds(s, i + 2);
        }
    } else {
        lemma_dec_str_body_bounds(s, i + 1);
    }
}

/// The items of a non-empty metadata object starting at `i` (after the
/// opening brace): the raw pairs in written order and the position after
/// the closing brace, or `None` when no well-formed run of items starts
/// there.
#[verifier::opaque]
pub open spec fn dec_meta_items(s: Seq<char>, i: int) -> Option<
    (Seq<(Seq<char>, Seq<char>)>, int),
>
    decreases s.len() - i,
{
    if i < 0 || i >= s.len() {
        None
    } else if s[i] != '"' {
        None
    } else {
        match dec_str_body(s, i + 1) {
            None => None,
            Some((k, j)) => {
                if j + 2 > s.len() || s[j] != ':' || s[j + 1] != '"' {
                    None
                } else {
                    match dec_str_body(s, j + 2) {
                        None => None,
                        Some((v, m)) => {
                            if m >= s.len() {
                                None
                            } else if s[m] == '}' {
                                Some((seq![(k, v)], m + 1))
                            } else if s[m] == ',' && i < m {
                                match dec_meta_items(s, m + 1) {
                                    None => None,
                                    Some((rest, e)) => Some((seq![(k, v)] + rest, e)),
                                }
                            } else {
                                None
                            }
                        },
                    }
                }
            },
        }
    }
}

/// Whether `lit` stands in `s` at position `i`.
pub open spec fn sub_matches(s: Seq<char>, i: int, lit: Seq<char>) -> bool {
    &&& 0 <= i
    &&& i + lit.len() <= s.len()
    &&& forall|k: int| 0 <= k < lit.len() ==> s[i + k] == #[trigger] lit[k]
}

/// The record a complete JSON text denotes, or `None` when the text is not a
/// well-formed encoding of the record shape. Repeated metadata keys keep the
/// last value.
pub open spec fn dec_attrs(s: Seq<char>) -> Option<AttrsView> {
    if !sub_matches(s, 0, lit_head()) {
        None
    } else {
        match dec_str_body(s, lit_head().len() as int) {
            None => None,
            Some((bucket, j)) => {
                if !sub_matches(s, j, lit_name()) {
                    None
                } else {
                    match dec_str_body(s, j + lit_name().len()) {
                        None => None,
                        Some((name, j2)) => {
                            if !sub_matches(s, j2, lit_meta()) {
                                None
                            } else {
                                let j3 = j2 + lit_meta().len();
                                if j3 < s.len() && s[j3] == '}' {
                                    if j3 + 2 == s.len() && s[j3 + 1] == '}' {
                                        Some(
                                            AttrsView {
                                                bucket,
                                                name,
                                                meta: Seq::empty(),
                                            },
                                        )
                                    } else {
                                        None
                                    }
                                } else {
                                    match dec_meta_items(s, j3) {
                                        None => None,
                                        Some((pairs, j4)) => {
                                            if j4 + 1 == s.len() && j4 < s.len() && s[j4] == '}' {
                                                Some(
                                                    AttrsView {
                                                        bucket,
                                                        name,
                                                        meta: al_put_all(Seq::empty(), pairs),
                                                    },
                                                )
                                            } else {
                                                None
                                            }
                                        },
                                    }
                                }
                            }
                        },
                    }
                }
            },
        }
    }
}

/// The bytes under which a record is persisted: the UTF-8 encoding of its
/// canonical JSON text.
pub open spec fn attrs_to_bytes(a: AttrsView) -> Seq<u8> {
    vstd::utf8::encode_utf8(enc_attrs(a))
}

/// The record a byte buffer denotes: decode the UTF-8, then the JSON.
pub open spec fn attrs_of_bytes(b: Seq<u8>) -> Option<AttrsView> {
    if vstd::utf8::valid_utf8(b) {
        dec_attrs(vstd::utf8::decode_utf8(b))
    } else {
        None
    }
}

/// A match of a concatenation is a match of each part in turn.
proof fn lemma_sub_split(s: Seq<char>, i: int, a: Seq<char>, b: Seq<char>)
    requires
        sub_matches(s, i, a + b),
    ensures
        sub_matches(s, i, a),
        sub_matches(s, i + a.len(), b),
{
    assert forall|k: int| 0 <= k < a.len() implies s[i + k] == a[k] by {
        assert((a + b)[k] == a[k]);
    }
    assert forall|k: int| 0 <= k < b.len() implies s[i + a.len() + k] == b[k] by {
        assert((a + b)[a.len() + k] == b[k]);
        assert(s[i + (a.len() + k)] == (a + b)[a.len() + k]);
    }
}

/// A hex digit character reads back as its value.
proof fn lemma_hex_digit_val(n: int)
    requires
        0 <= n < 16,
    ensures
        hex_val(hex_digit(n)) == Some(n as u32),
{
}

/// The decoder reads an escaped text back, through the closing quote that
/// follows it.
proof fn lemma_dec_str_of_esc(t: Seq<char>, s: Seq<char>, i: int)
    requires
        sub_matches(s, i, esc_str(t) + seq!['"']),
    ensures
        dec_str_body(s, i) == Some((t, i + esc_str(t).len() + 1)),
    decreases t.len(),
{
    reveal(dec_str_body);
    if t.len() == 0 {
        assert(s[i] == (esc_str(t) + seq!['"'])[0]);
        assert(dec_str_body(s, i) == Some((Seq::<char>::empty(), i + 1)));
        assert(t =~= Seq::<char>::empty());
    } else {
        let c = t[0];
        let rest = t.drop_first();
        let e = esc_char(c);
        assert(esc_str(t) == e + esc_str(rest));
        assert(esc_str(t) + seq!['"'] =~= e + (esc_str(rest) + seq!['"']));
        lemma_sub_split(s, i, e, esc_str(rest) + seq!['"']);
        let i2 = i + e.len();
        lemma_dec_str_of_esc(rest, s, i2);
        if c == '"' {
            assert(s[i + 0] == e[0] && s[i + 1] == e[1]);
            assert(s[i] == '\\' && s[i + 1] == '"');
            assert(seq!['"'] + rest =~= t);
        } else if c == '\\' {
            assert(s[i + 0] == e[0] && s[i + 1] == e[1]);
            assert(s[i] == '\\' && s[i + 1] == '\\');
            assert(seq!['\\'] + rest =~= t);
        } else if (c as u32) < 0x20 {
            let cu = c as u32 as int;
            assert(s[i + 0] == e[0] && s[i + 1] == e[1] && s[i + 2] == e[2]);
            assert(s[i + 3] == e[3] && s[i + 4] == e[4] && s[i + 5] == e[5]);
            assert(s[i] == '\\' && s[i + 1] == 'u' && s[i + 2] == '0' && s[i + 3] == '0' && s[i + 4]
                == hex_digit(cu / 16) && s[i + 5] == hex_digit(cu % 16));
            lemma_hex_digit_val(cu / 16);
            lemma_hex_digit_val(cu % 16);
            vstd::arithmetic::div_mod::lemma_fundamental_div_mod(cu, 16);
            let v = (cu / 16) * 0x10 + cu % 16;
            assert(dec_u_escape(s, i + 2) == Some(v as u32));
            assert(v == cu);
            assert((v as u32 as char) == c) by {
                vstd::utf8::char_u32_cast(c, c as u32);
            }
            assert(seq![c] + rest =~= t);
        } else {
            assert(s[i + 0] == e[0]);
            assert(s[i] == c);
            assert(seq![c] + rest =~= t);
        }
    }
}

/// The decoder reads the items of an encoded, non-empty metadata object
/// back, in written order.
#[verifier::rlimit(50)]
proof fn lemma_dec_meta_of_enc(meta: Seq<(Seq<char>, Seq<char>)>, s: Seq<char>, i: int)
    requires
        meta.len() > 0,
        sub_matches(s, i, enc_meta_items(meta)),
    ensures
        dec_meta_items(s, i) == Some((meta, i + enc_meta_items(meta).len())),
    decreases meta.len(),
{
    reveal(dec_meta_items);
    let k = meta[0].0;
    let v = meta[0].1;
    let q: Seq<char> = seq!['"'];
    let cq: Seq<char> = seq![':', '"'];
    let sep: Seq<char> = if meta.len() <= 1 {
        seq!['}']
    } else {
        seq![',']
    };
    let whole = enc_meta_items(meta);
    let tail: Seq<char> = if meta.len() <= 1 {
        Seq::empty()
    } else {
        enc_meta_items(meta.drop_first())
    };
    let last = if meta.len() <= 1 {
        sep
    } else {
        sep + tail
    };
    assert(whole == q + ((esc_str(k) + q) + (cq + ((esc_str(v) + q) + last))));
    lemma_sub_split(s, i, q, (esc_str(k) + q) + (cq + ((esc_str(v) + q) + last)));
    assert(s[i + 0] == q[0]);
    let ik = i + 1;
    lemma_sub_split(s, ik, esc_str(k) + q, cq + ((esc_str(v) + q) + last));
    lemma_dec_str_of_esc(k, s, ik);
    let j = ik + esc_str(k).len() + 1;
    lemma_sub_split(s, j, cq, (esc_str(v) + q) + last);
    assert(s[j + 0] == cq[0] && s[j + 1] == cq[1]);
    let jv = j + 2;
    lemma_sub_split(s, jv, esc_str(v) + q, last);
    lemma_dec_str_of_esc(v, s, jv);
    let m = jv + esc_str(v).len() + 1;
    if meta.len() <= 1 {
        assert(s[m + 0] == last[0]);
        assert(s[m] == '}');
        assert(dec_meta_items(s, i) == Some((seq![(k, v)], m + 1)));
        assert(seq![(k, v)] =~= meta);
        assert(m + 1 == i + whole.len());
    } else {
        lemma_sub_split(s, m, sep, tail);
        assert(s[m + 0] == sep[0]);
        assert(s[m] == ',');
        lemma_dec_meta_of_enc(meta.drop_first(), s, m + 1);
        assert(seq![(k, v)] + meta.drop_first() =~= meta);
        assert(m + 1 + tail.len() == i + whole.len());
    }
}

/// How a canonical encoding is laid out: the literals and the escaped
/// values stand at fixed offsets, and one closing brace ends the text.
#[verifier::rlimit(100)]
proof fn lemma_enc_layout(a: AttrsView)
    ensures
        sub_matches(enc_attrs(a), 0, lit_head()),
        sub_matches(enc_attrs(a), 11, esc_str(a.bucket) + seq!['"']),
        sub_matches(enc_attrs(a), (12 + esc_str(a.bucket).len()) as int, lit_name()),
        sub_matches(
            enc_attrs(a),
            (21 + esc_str(a.bucket).len()) as int,
            esc_str(a.name) + seq!['"'],
        ),
        sub_matches(
            enc_attrs(a),
            (22 + esc_str(a.bucket).len() + esc_str(a.name).len()) as int,
            lit_meta(),
        ),
        sub_matches(
            enc_attrs(a),
            (31 + esc_str(a.bucket).len() + esc_str(a.name).len()) as int,
            enc_meta(a.meta),
        ),
        enc_attrs(a)[(31 + esc_str(a.bucket).len() + esc_str(a.name).len() + enc_meta(
            a.meta,
        ).len()) as int] == '}',
        enc_attrs(a).len() == 32 + esc_str(a.bucket).len() + esc_str(a.name).len() + enc_meta(
            a.meta,
        ).len(),
{
    let s = enc_attrs(a);
    let cb: Seq<char> = seq!['}'];
    let tail_meta = enc_meta(a.meta) + cb;
    let tail_name = esc_str(a.name) + seq!['"'];
    let tail_bucket = esc_str(a.bucket) + seq!['"'];
    let rest = tail_bucket + (lit_name() + (tail_name + (lit_meta() + tail_meta)));
    assert(sub_matches(s, 0, lit_head() + rest)) by {
        assert(s == lit_head() + rest);
        assert forall|k: int| 0 <= k < (lit_head() + rest).len() implies s[0 + k] == (lit_head()
            + rest)[k] by {}
    }
    lemma_sub_split(s, 0, lit_head(), rest);
    let i1 = lit_head().len() as int;
    lemma_sub_split(s, i1, tail_bucket, lit_name() + (tail_name + (lit_meta() + tail_meta)));
    let j = i1 + tail_bucket.len();
    lemma_sub_split(s, j, lit_name(), tail_name + (lit_meta() + tail_meta));
    let j1 = j + lit_name().len();
    lemma_sub_split(s, j1, tail_name, lit_meta() + tail_meta);
    let j2 = j1 + tail_name.len();
    lemma_sub_split(s, j2, lit_meta(), tail_meta);
    let j3 = j2 + lit_meta().len();
    lemma_sub_split(s, j3, enc_meta(a.meta), cb);
    assert(s[j3 + enc_meta(a.meta).len() + 0] == cb[0]);
}

/// The decoder reads the two string values of a canonical encoding back.
#[verifier::rlimit(100)]
proof fn lemma_dec_enc_head(a: AttrsView)
    ensures
        sub_matches(enc_attrs(a), 0, lit_head()),
        dec_str_body(enc_attrs(a), 11) == Some(
            (a.bucket, (12 + esc_str(a.bucket).len()) as int),
        ),
        sub_matches(enc_attrs(a), (12 + esc_str(a.bucket).len()) as int, lit_name()),
        dec_str_body(enc_attrs(a), (21 + esc_str(a.bucket).len()) as int) == Some(
            (a.name, (22 + esc_str(a.bucket).len() + esc_str(a.name).len()) as int),
        ),
        sub_matches(
            enc_attrs(a),
            (22 + esc_str(a.bucket).len() + esc_str(a.name).len()) as int,
            lit_meta(),
        ),
        sub_matches(
            enc_attrs(a),
            (31 + esc_str(a.bucket).len() + esc_str(a.name).len()) as int,
            enc_meta(a.meta),
        ),
        enc_attrs(a)[(31 + esc_str(a.bucket).len() + esc_str(a.name).len() + enc_meta(
            a.meta,
        ).len()) as int] == '}',
        enc_attrs(a).len() == 32 + esc_str(a.bucket).len() + esc_str(a.name).len() + enc_meta(
            a.meta,
        ).len(),
{
    lemma_enc_layout(a);
    lemma_dec_str_of_esc(a.bucket, enc_attrs(a), 11);
    lemma_dec_str_of_esc(a.name, enc_attrs(a), (21 + esc_str(a.bucket).len()) as int);
}

/// The round-trip law for a record without metadata.
#[verifier::rlimit(100)]
proof fn lemma_dec_enc_empty(a: AttrsView)
    requires
        a.meta.len() == 0,
    ensures
        dec_attrs(enc_attrs(a)) == Some(a),
{
    let s = enc_attrs(a);
    lemma_dec_enc_head(a);
    let j2: int = (22 + esc_str(a.bucket).len() + esc_str(a.name).len()) as int;
    let j3: int = j2 + lit_meta().len();
    assert(s[j3 + 0] == enc_meta(a.meta)[0]);
    assert(s[j3] == '}' && s[j3 + 1] == '}' && j3 + 2 == s.len());
    assert(a.meta =~= Seq::<(Seq<char>, Seq<char>)>::empty());
    lemma_dec_attrs_assemble_empty(
        s,
        a.bucket,
        a.name,
        (12 + esc_str(a.bucket).len()) as int,
        (22 + esc_str(a.bucket).len() + esc_str(a.name).len()) as int,
    );
}

/// What `dec_attrs` yields once each stage of the walk of a record without
/// metadata is known.
proof fn lemma_dec_attrs_assemble_empty(
    s: Seq<char>,
    bucket: Seq<char>,
    name: Seq<char>,
    j: int,
    j2: int,
)
    requires
        sub_matches(s, 0, lit_head()),
        dec_str_body(s, 11) == Some((bucket, j)),
        sub_matches(s, j, lit_name()),
        dec_str_body(s, j + 9) == Some((name, j2)),
        sub_matches(s, j2, lit_meta()),
        j2 + 9 < s.len(),
        s[j2 + 9] == '}',
        j2 + 11 == s.len(),
        s[j2 + 10] == '}',
    ensures
        dec_attrs(s) == Some(AttrsView { bucket, name, meta: Seq::empty() }),
{
}

/// The decoder's walk over an encoding with metadata: the head facts plus
/// the parsed run of items filling the text up to the final closing brace.
#[verifier::rlimit(100)]
#[verifier::spinoff_prover]
proof fn lemma_dec_enc_items_scan(a: AttrsView)
    requires
        a.meta.len() > 0,
    ensures
        dec_meta_items(
            enc_attrs(a),
            (31 + esc_str(a.bucket).len() + esc_str(a.name).len()) as int,
        ) == Some(
            (a.meta, (31 + esc_str(a.bucket).len() + esc_str(a.name).len() + enc_meta_items(
                a.meta,
            ).len()) as int),
        ),
{
    let s = enc_attrs(a);
    lemma_dec_enc_head(a);
    let j2: int = (22 + esc_str(a.bucket).len() + esc_str(a.name).len()) as int;
    let j3: int = j2 + lit_meta().len();
    assert(s[j3 + 0] == enc_meta(a.meta)[0]);
    assert(s[j3] == '"');
    lemma_dec_meta_of_enc(a.meta, s, j3);
}

/// Where an encoding with metadata ends: the closing braces stand last, and
/// the items begin with a quote.
#[verifier::rlimit(100)]
proof fn lemma_dec_enc_items_edges(a: AttrsView)
    requires
        a.meta.len() > 0,
    ensures
        31 + esc_str(a.bucket).len() + esc_str(a.name).len() < enc_attrs(a).len(),
        enc_attrs(a)[(31 + esc_str(a.bucket).len() + esc_str(a.name).len()) as int] == '"',
        31 + esc_str(a.bucket).len() + esc_str(a.name).len() + enc_meta_items(a.meta).len() + 1
            == enc_attrs(a).len(),
        enc_attrs(a)[(31 + esc_str(a.bucket).len() + esc_str(a.name).len() + enc_meta_items(
            a.meta,
        ).len()) as int] == '}',
{
    let s = enc_attrs(a);
    lemma_dec_enc_head(a);
    let j2: int = (22 + esc_str(a.bucket).len() + esc_str(a.name).len()) as int;
    let j3: int = j2 + lit_meta().len();
    assert(s[j3 + 0] == enc_meta(a.meta)[0]);
    assert(s[j3] == '"');
    let j4 = j3 + enc_meta_items(a.meta).len();
    assert(s[j4] == '}' && j4 + 1 == s.len());
}

/// The round-trip law for a record with metadata.
proof fn lemma_dec_enc_items(a: AttrsView)
    requires
        a.wf(),
        a.meta.len() > 0,
    ensures
        dec_attrs(enc_attrs(a)) == Some(a),
{
    let s = enc_attrs(a);
    lemma_dec_enc_head(a);
    lemma_dec_enc_items_scan(a);
    lemma_dec_enc_items_edges(a);
    let j4: int = (31 + esc_str(a.bucket).len() + esc_str(a.name).len() + enc_meta_items(
        a.meta,
    ).len()) as int;
    assert(Seq::<(Seq<char>, Seq<char>)>::empty() + a.meta =~= a.meta);
    crate::alist::lemma_al_put_all_fresh(Seq::empty(), a.meta);
    assert(al_put_all(Seq::empty(), a.meta) == a.meta);
    lemma_dec_attrs_assemble(
        s,
        a.bucket,
        a.name,
        a.meta,
        (12 + esc_str(a.bucket).len()) as int,
        (22 + esc_str(a.bucket).len() + esc_str(a.name).len()) as int,
        j4,
    );
}

/// Putting a parsed head and a parsed run of metadata items together: what
/// `dec_attrs` yields once each stage of the walk is known.
proof fn lemma_dec_attrs_assemble(
    s: Seq<char>,
    bucket: Seq<char>,
    name: Seq<char>,
    pairs: Seq<(Seq<char>, Seq<char>)>,
    j: int,
    j2: int,
    j4: int,
)
    requires
        sub_matches(s, 0, lit_head()),
        dec_str_body(s, 11) == Some((bucket, j)),
        sub_matches(s, j, lit_name()),
        dec_str_body(s, j + 9) == Some((name, j2)),
        sub_matches(s, j2, lit_meta()),
        j2 + 9 < s.len(),
        s[j2 + 9] != '}',
        dec_meta_items(s, j2 + 9) == Some((pairs, j4)),
        j4 + 1 == s.len(),
        j4 < s.len(),
        s[j4] == '}',
    ensures
        dec_attrs(s) == Some(AttrsView { bucket, name, meta: al_put_all(Seq::empty(), pairs) }),
{
}

/// Decoding the canonical encoding of a well-formed record gives the record
/// back: the round-trip law at the character level.
pub proof fn lemma_dec_enc(a: AttrsView)
    requires
        a.wf(),
    ensures
        dec_attrs(enc_attrs(a)) == Some(a),
{
    if a.meta.len() == 0 {
        lemma_dec_enc_empty(a);
    } else {
        lemma_dec_enc_items(a);
    }
}

/// Reading the persisted bytes of a well-formed record back gives the record:
/// the round-trip law at the byte level.
pub proof fn lemma_attrs_bytes_round_trip(a: AttrsView)
    requires
        a.wf(),
    ensures
        attrs_of_bytes(attrs_to_bytes(a)) == Some(a),
{
    vstd::utf8::encode_utf8_valid_utf8(enc_attrs(a));
    vstd::utf8::encode_utf8_decode_utf8(enc_attrs(a));
    lemma_dec_enc(a);
}


/// The view of a vector of string pairs, as the metadata table is viewed.
pub open spec fn pairs_view(v: Seq<(String, String)>) -> Seq<(Seq<char>, Seq<char>)> {
    Seq::new(v.len(), |i: int| (v[i].0@, v[i].1@))
}

/// Store one pair in a metadata table kept as a vector: an existing key is
/// overwritten in place, a fresh one appended.
pub(crate) fn put_pair(m: &mut Vec<(String, String)>, k: String, v: String)
    requires
        al_distinct(pairs_view(old(m)@)),
    ensures
        pairs_view(final(m)@) == al_put(pairs_view(old(m)@), k@, v@),
        al_distinct(pairs_view(final(m)@)),
{
    let ghost pv = pairs_view(m@);
    let mut idx: usize = 0;
    while idx < m.len()
        invariant
            idx <= m@.len(),
            pairs_view(m@) == pv,
            pv == pairs_view(old(m)@),
            al_distinct(pv),
            forall|x: int| 0 <= x < idx ==> pv[x].0 != k@,
        decreases m@.len() - idx,
    {
        if str_eq(m[idx].0.as_str(), k.as_str()) {
            proof {
                assert(pv[idx as int].0 == k@);
                lemma_al_idx_unique(pv, k@, idx as int);
                lemma_al_put_distinct(pv, k@, v@);
            }
            let pair = m.remove(idx);
            m.insert(idx, (pair.0, v));
            assert(pairs_view(m@) =~~= al_put(pv, k@, v@));
            return ;
        }
        idx = idx + 1;
    }
    proof {
        assert(!al_has(pv, k@));
        lemma_al_put_distinct(pv, k@, v@);
    }
    m.push((k, v));
    assert(pairs_view(m@) =~~= al_put(pv, k@, v@));
}

/// Escaping one more character extends the escaped text.
proof fn lemma_esc_str_take(s: Seq<char>, i: int)
    requires
        0 <= i < s.len(),
    ensures
        esc_str(s.take(i + 1)) == esc_str(s.take(i)) + esc_char(s[i]),
    decreases i,
{
    if i == 0 {
        assert(s.take(1).drop_first() =~= Seq::<char>::empty());
        assert(s.take(0) =~= Seq::<char>::empty());
        assert(esc_str(s.take(1)) =~= esc_str(s.take(0)) + esc_char(s[0]));
    } else {
        let t = s.drop_first();
        assert(s.take(i + 1).drop_first() =~= t.take(i));
        assert(s.take(i).drop_first() =~= t.take(i - 1));
        lemma_esc_str_take(t, i - 1);
        assert(esc_str(s.take(i + 1)) =~= esc_str(s.take(i)) + esc_char(s[i]));
    }
}

/// Append the JSON escape of a text.
fn escape_into(out: &mut String, s: &str)
    ensures
        final(out)@ == old(out)@ + esc_str(s@),
{
    let n = s.unicode_len();
    let mut i: usize = 0;
    assert(s@.take(0) =~= Seq::<char>::empty());
    assert(out@ =~= old(out)@ + esc_str(s@.take(0)));
    while i < n
        invariant
            i <= n,
            n == s@.len(),
            out@ == old(out)@ + esc_str(s@.take(i as int)),
        decreases n - i,
    {
        let c = s.get_char(i);
        proof {
            lemma_esc_str_take(s@, i as int);
        }
        if c == '"' {
            push_char(out, '\\');
            push_char(out, '"');
            assert(esc_char(c) =~= seq!['\\', '"']);
        } else if c == '\\' {
            push_char(out, '\\');
            push_char(out, '\\');
            assert(esc_char(c) =~= seq!['\\', '\\']);
        } else if (c as u32) < 0x20 {
            let cu = c as u32;
            push_char(out, '\\');
            push_char(out, 'u');
            push_char(out, '0');
            push_char(out, '0');
            push_char(out, hex_digit_char((cu / 16) as u8));
            push_char(out, hex_digit_char((cu % 16) as u8));
            assert(esc_char(c) =~= seq![
                '\\',
                'u',
                '0',
                '0',
                hex_digit(cu as int / 16),
                hex_digit(cu as int % 16),
            ]);
        } else {
            push_char(out, c);
            assert(esc_char(c) =~= seq![c]);
        }
        i = i + 1;
        assert(out@ =~= old(out)@ + esc_str(s@.take(i as int)));
    }
    assert(s@.take(n as int) =~= s@);
}

/// One step of the metadata rendering: the encoded items from position `i`
/// start with the item at `i`, followed by a comma and the rest, or by the
/// closing brace when it is the last.
proof fn lemma_enc_meta_items_skip(pv: Seq<(Seq<char>, Seq<char>)>, i: int)
    requires
        0 <= i < pv.len(),
    ensures
        i + 1 < pv.len() ==> enc_meta_items(pv.skip(i)) == seq!['"'] + ((esc_str(pv[i].0) + seq![
            '"',
        ]) + (seq![':', '"'] + ((esc_str(pv[i].1) + seq!['"']) + (seq![','] + enc_meta_items(
            pv.skip(i + 1),
        ))))),
        i + 1 == pv.len() ==> enc_meta_items(pv.skip(i)) == seq!['"'] + ((esc_str(pv[i].0) + seq![
            '"',
        ]) + (seq![':', '"'] + ((esc_str(pv[i].1) + seq!['"']) + seq!['}']))),
{
    let t = pv.skip(i);
    assert(t[0] == pv[i]);
    assert(t.drop_first() =~= pv.skip(i + 1));
}

/// Append the encoded items of a non-empty metadata table, through the
/// closing brace of the object.
fn render_meta_items(out: &mut String, meta: &Vec<(String, String)>)
    requires
        meta@.len() > 0,
    ensures
        final(out)@ == old(out)@ + enc_meta_items(pairs_view(meta@)),
{
    let ghost pv = pairs_view(meta@);
    proof {
        reveal_strlit("\":\"");
        assert("\":\""@ =~= seq!['"', ':', '"']);
        assert(pv.skip(0) =~= pv);
    }
    let n = meta.len();
    let mut i: usize = 0;
    while i + 1 < n
        invariant
            i < n,
            n == meta@.len(),
            pv == pairs_view(meta@),
            n == pv.len(),
            out@ + enc_meta_items(pv.skip(i as int)) == old(out)@ + enc_meta_items(pv),
        decreases n - i,
    {
        let ghost before = out@;
        push_char(out, '"');
        escape_into(out, meta[i].0.as_str());
        out.append("\":\"");
        escape_into(out, meta[i].1.as_str());
        push_char(out, '"');
        push_char(out, ',');
        proof {
            reveal_strlit("\":\"");
            assert("\":\""@ =~= seq!['"', ':', '"']);
            assert(pv[i as int] == (meta@[i as int].0@, meta@[i as int].1@));
            lemma_enc_meta_items_skip(pv, i as int);
            assert(out@ =~= before + (seq!['"'] + ((esc_str(pv[i as int].0) + seq!['"']) + (seq![
                ':',
                '"',
            ] + ((esc_str(pv[i as int].1) + seq!['"']) + seq![','])))));
            assert(out@ + enc_meta_items(pv.skip(i as int + 1)) =~= before + enc_meta_items(
                pv.skip(i as int),
            ));
        }
        i = i + 1;
    }
    let ghost before = out@;
    push_char(out, '"');
    escape_into(out, meta[i].0.as_str());
    out.append("\":\"");
    escape_into(out, meta[i].1.as_str());
    push_char(out, '"');
    push_char(out, '}');
    proof {
        reveal_strlit("\":\"");
        assert("\":\""@ =~= seq!['"', ':', '"']);
        assert(pv[i as int] == (meta@[i as int].0@, meta@[i as int].1@));
        lemma_enc_meta_items_skip(pv, i as int);
        assert(out@ =~= before + (seq!['"'] + ((esc_str(pv[i as int].0) + seq!['"']) + (seq![
            ':',
            '"',
        ] + ((esc_str(pv[i as int].1) + seq!['"']) + seq!['}'])))));
        assert(out@ =~= old(out)@ + enc_meta_items(pv));
    }
}

/// Render a record as its canonical JSON text.
#[verifier::rlimit(100)]
pub(crate) fn render_attrs(bucket: &str, name: &str, meta: &Vec<(String, String)>) -> (r: String)
    ensures
        r@ == enc_attrs(AttrsView { bucket: bucket@, name: name@, meta: pairs_view(meta@) }),
{
    let ghost pv = pairs_view(meta@);
    proof {
        reveal_strlit("{\"bucket\":\"");
        reveal_strlit("\",\"name\":\"");
        reveal_strlit("\",\"meta\":{");
        assert("{\"bucket\":\""@ =~= lit_head());
        assert("\",\"name\":\""@ =~= seq!['"'] + lit_name());
        assert("\",\"meta\":{"@ =~= seq!['"'] + lit_meta());
    }
    let mut out = String::from_str("{\"bucket\":\"");
    escape_into(&mut out, bucket);
    out.append("\",\"name\":\"");
    escape_into(&mut out, name);
    out.append("\",\"meta\":{");
    if meta.len() == 0 {
        push_char(&mut out, '}');
    } else {
        render_meta_items(&mut out, meta);
    }
    push_char(&mut out, '}');
    assert(out@ =~= enc_attrs(AttrsView { bucket: bucket@, name: name@, meta: pv }));
    out
}


/// The value of a hex digit character, if it is one.
fn hex_val_char(c: char) -> (r: Option<u32>)
    ensures
        r == hex_val(c),
{
    let v = c as u32;
    if 48 <= v && v <= 57 {
        Some(v - 48)
    } else if 97 <= v && v <= 102 {
        Some(v - 87)
    } else if 65 <= v && v <= 70 {
        Some(v - 55)
    } else {
        None
    }
}

/// A string with `c` in front of `tail`.
fn prepend_char(c: char, tail: String) -> (r: String)
    ensures
        r@ == seq![c] + tail@,
{
    let mut out = String::new();
    push_char(&mut out, c);
    out.append(tail.as_str());
    assert(out@ =~= seq![c] + tail@);
    out
}

/// Parse the body of a JSON string at `i` (after the opening quote),
/// unescaping it, through the closing quote.
fn parse_str_body(s: &Vec<char>, i: usize) -> (r: Option<(String, usize)>)
    ensures
        match r {
            Some((t, j)) => dec_str_body(s@, i as int) == Some((t@, j as int)) && i < j <= s@.len(),
            None => dec_str_body(s@, i as int) is None,
        },
    decreases s@.len() - i,
{
    proof {
        reveal(dec_str_body);
    }
    if i >= s.len() {
        return None;
    }
    let c = s[i];
    if c == '"' {
        let out = String::new();
        return Some((out, i + 1));
    }
    if c == '\\' {
        if s.len() - i < 2 {
            return None;
        }
        let e = s[i + 1];
        if e == 'u' {
            if s.len() - i < 6 {
                return None;
            }
            let h0 = match hex_val_char(s[i + 2]) {
                Some(h) => h,
                None => {
                    return None;
                },
            };
            let h1 = match hex_val_char(s[i + 3]) {
                Some(h) => h,
                None => {
                    return None;
                },
            };
            let h2 = match hex_val_char(s[i + 4]) {
                Some(h) => h,
                None => {
                    return None;
                },
            };
            let h3 = match hex_val_char(s[i + 5]) {
                Some(h) => h,
                None => {
                    return None;
                },
            };
            assert(h0 < 16 && h1 < 16 && h2 < 16 && h3 < 16);
            let v = h0 * 0x1000 + h1 * 0x100 + h2 * 0x10 + h3;
            if 0xD800 <= v && v < 0xE000 {
                return None;
            }
            let ch = match char_from_u32(v) {
                Some(ch) => ch,
                None => {
                    proof {
                        assert(false);
                    }
                    return None;
                },
            };
            match parse_str_body(s, i + 6) {
                None => None,
                Some((t, j)) => Some((prepend_char(ch, t), j)),
            }
        } else {
            let d: char = if e == '"' {
                '"'
            } else if e == '\\' {
                '\\'
            } else if e == '/' {
                '/'
            } else if e == 'b' {
                '\u{08}'
            } else if e == 'f' {
                '\u{0C}'
            } else if e == 'n' {
                '\n'
            } else if e == 'r' {
                '\r'
            } else if e == 't' {
                '\t'
            } else {
                return None;
            };
            assert(short_escape(e) == Some(d));
            match parse_str_body(s, i + 2) {
                None => None,
                Some((t, j)) => Some((prepend_char(d, t), j)),
            }
        }
    } else if (c as u32) < 0x20 {
        None
    } else {
        match parse_str_body(s, i + 1) {
            None => None,
            Some((t, j)) => Some((prepend_char(c, t), j)),
        }
    }
}

/// Parse the items of a non-empty metadata object at `i` (after the opening
/// brace), through the closing brace, as raw pairs in written order.
fn parse_meta_items(s: &Vec<char>, i: usize) -> (r: Option<(Vec<(String, String)>, usize)>)
    ensures
        match r {
            Some((pairs, j)) => dec_meta_items(s@, i as int) == Some((pairs_view(pairs@), j as int))
                && i < j <= s@.len(),
            None => dec_meta_items(s@, i as int) is None,
        },
    decreases s@.len() - i,
{
    proof {
        reveal(dec_meta_items);
    }
    if i >= s.len() {
        return None;
    }
    if s[i] != '"' {
        return None;
    }
    let (k, j) = match parse_str_body(s, i + 1) {
        None => {
            return None;
        },
        Some(p) => p,
    };
    if s.len() - j < 2 {
        return None;
    }
    if s[j] != ':' || s[j + 1] != '"' {
        return None;
    }
    let (v, m) = match parse_str_body(s, j + 2) {
        None => {
            return None;
        },
        Some(p) => p,
    };
    if m >= s.len() {
        return None;
    }
    if s[m] == '}' {
        let mut pairs: Vec<(String, String)> = Vec::new();
        pairs.push((k, v));
        assert(pairs_view(pairs@) =~~= seq![(k@, v@)]);
        Some((pairs, m + 1))
    } else if s[m] == ',' {
        match parse_meta_items(s, m + 1) {
            None => None,
            Some((rest, e)) => {
                let ghost old_rest = rest@;
                let mut rest = rest;
                rest.insert(0, (k, v));
                assert(pairs_view(rest@) =~~= seq![(k@, v@)] + pairs_view(old_rest));
                Some((rest, e))
            },
        }
    } else {
        None
    }
}

/// Whether `lit` stands in the characters at position `i`.
fn has_lit_at(s: &Vec<char>, i: usize, lit: &str) -> (b: bool)
    ensures
        b == sub_matches(s@, i as int, lit@),
{
    let l = str_to_chars(lit);
    let n = l.len();
    if i > s.len() || s.len() - i < n {
        return false;
    }
    let slen = s.len();
    let mut k: usize = 0;
    while k < n
        invariant
            k <= n,
            n == l@.len(),
            l@ == lit@,
            slen == s@.len(),
            i + n <= slen,
            forall|x: int| 0 <= x < k ==> s@[i + x] == #[trigger] lit@[x],
        decreases n - k,
    {
        if s[i + k] != l[k] {
            assert(!sub_matches(s@, i as int, lit@));
            return false;
        }
        k = k + 1;
    }
    true
}

/// Parse a complete JSON text as a record: the bucket, the name, and the
/// metadata pairs with repeated keys collapsed (last value kept).
pub(crate) fn parse_attrs(s: &str) -> (r: Option<(String, String, Vec<(String, String)>)>)
    ensures
        match r {
            Some((b, n, m)) => dec_attrs(s@) == Some(
                AttrsView { bucket: b@, name: n@, meta: pairs_view(m@) },
            ) && al_distinct(pairs_view(m@)),
            None => dec_attrs(s@) is None,
        },
{
    proof {
        reveal_strlit("{\"bucket\":\"");
        reveal_strlit(",\"name\":\"");
        reveal_strlit(",\"meta\":{");
        assert("{\"bucket\":\""@ =~= lit_head());
        assert(",\"name\":\""@ =~= lit_name());
        assert(",\"meta\":{"@ =~= lit_meta());
    }
    let v = str_to_chars(s);
    if !has_lit_at(&v, 0, "{\"bucket\":\"") {
        return None;
    }
    let (bucket, j) = match parse_str_body(&v, 11) {
        None => {
            return None;
        },
        Some(p) => p,
    };
    if !has_lit_at(&v, j, ",\"name\":\"") {
        return None;
    }
    assert(lit_name().len() == 9);
    assert(j + 9 <= v@.len());
    let (name, j2) = match parse_str_body(&v, j + 9) {
        None => {
            return None;
        },
        Some(p) => p,
    };
    if !has_lit_at(&v, j2, ",\"meta\":{") {
        return None;
    }
    assert(lit_meta().len() == 9);
    assert(j2 + 9 <= v@.len());
    let j3 = j2 + 9;
    if j3 < v.len() && v[j3] == '}' {
        if v.len() - j3 == 2 && v[j3 + 1] == '}' {
            let m: Vec<(String, String)> = Vec::new();
            assert(pairs_view(m@) =~= Seq::<(Seq<char>, Seq<char>)>::empty());
            return Some((bucket, name, m));
        } else {
            return None;
        }
    }
    let (pairs, j4) = match parse_meta_items(&v, j3) {
        None => {
            return None;
        },
        Some(p) => p,
    };
    if !(j4 < v.len() && v.len() - j4 == 1 && v[j4] == '}') {
        return None;
    }
    let ghost raw = pairs_view(pairs@);
    let mut m: Vec<(String, String)> = Vec::new();
    assert(pairs_view(m@) =~= Seq::<(Seq<char>, Seq<char>)>::empty());
    assert(raw.take(0) =~= Seq::<(Seq<char>, Seq<char>)>::empty());
    let mut idx: usize = 0;
    while idx < pairs.len()
        invariant
            idx <= pairs@.len(),
            raw == pairs_view(pairs@),
            pairs_view(m@) == al_put_all(Seq::empty(), raw.take(idx as int)),
            al_distinct(pairs_view(m@)),
        decreases pairs@.len() - idx,
    {
        let key = pairs[idx].0.clone();
        let val = pairs[idx].1.clone();
        assert(key@ == raw[idx as int].0 && val@ == raw[idx as int].1);
        put_pair(&mut m, key, val);
        proof {
            let item = raw[idx as int];
            lemma_al_put_all_push(Seq::empty(), raw.take(idx as int), item.0, item.1);
            assert(raw.take(idx as int).push(raw[idx as int]) =~= raw.take(idx as int + 1));
        }
        idx = idx + 1;
    }
    assert(raw.take(pairs@.len() as int) =~= raw);
    Some((bucket, name, m))
}

} // verus!
