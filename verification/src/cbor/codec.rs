//! CBOR items to and from bytes, by `ciborium`.
use vstd::prelude::*;

use ciborium::value::{Integer, Value};

use crate::cbor::{cbor_pairs_view, cbor_seq_view, cbor_view, group_cbor_view, Cbor, CborValue};

verus! {

broadcast use group_cbor_view;

#[verifier::external_type_specification]
#[verifier::external_body]
pub struct ExCiboriumValue(ciborium::value::Value);

/// The item that `ciborium::de::from_reader` reads from `bytes`, or `None`
/// where it fails.
pub uninterp spec fn cbor_decoded(bytes: Seq<u8>) -> Option<Cbor>;

/// The text (`Display`) of the error `ciborium::de::from_reader` gives on
/// `bytes` where it reads no item.
pub uninterp spec fn cbor_decode_error(bytes: Seq<u8>) -> Seq<char>;

/// The text that `{:?}` gives for the `ciborium` value of an item.
pub uninterp spec fn cbor_debug(v: Cbor) -> Seq<char>;

/// The bytes that `ciborium::into_writer` writes for an item.
pub uninterp spec fn cbor_encoded(v: Cbor) -> Seq<u8>;

/// Whether an integer lies in CBOR's range, `-2^64 ..= 2^64 - 1`.
pub open spec fn cbor_int(i: int) -> bool {
    -0x1_0000_0000_0000_0000 <= i <= 0xffff_ffff_ffff_ffff
}

/// Whether the item can be written: every integer lies in CBOR's range.
pub open spec fn cbor_encodable(v: Cbor) -> bool
    decreases v,
{
    match v {
        Cbor::Integer(i) => cbor_int(i),
        Cbor::Tag(_, inner) => cbor_encodable(*inner),
        Cbor::Array(s) => forall|k: int| 0 <= k < s.len() ==> cbor_encodable(#[trigger] s[k]),
        Cbor::Mapping(m) => forall|k: int|
            #![trigger m[k]]
            0 <= k < m.len() ==> cbor_encodable(m[k].0) && cbor_encodable(m[k].1),
        _ => true,
    }
}

proof fn lemma_encodable_array(s: Seq<Cbor>)
    ensures
        cbor_encodable(Cbor::Array(s)) <==> forall|k: int| 0 <= k < s.len() ==> cbor_encodable(#[trigger] s[k]),
{
    reveal_with_fuel(cbor_encodable, 2);
    assert(Cbor::Array(s) matches Cbor::Array(t) && t == s);
}

pub proof fn lemma_encodable_map(m: Seq<(Cbor, Cbor)>)
    ensures
        cbor_encodable(Cbor::Mapping(m)) <==> forall|k: int|
            #![trigger m[k]]
            0 <= k < m.len() ==> cbor_encodable(m[k].0) && cbor_encodable(m[k].1),
{
    reveal_with_fuel(cbor_encodable, 2);
    assert(Cbor::Mapping(m) matches Cbor::Mapping(t) && t == m);
}

proof fn lemma_not_encodable_map(m: Seq<(Cbor, Cbor)>, k: int)
    requires
        0 <= k < m.len(),
        !(cbor_encodable(m[k].0) && cbor_encodable(m[k].1)),
    ensures
        !cbor_encodable(Cbor::Mapping(m)),
{
    lemma_encodable_map(m);
}

/// The library item of a `ciborium` value, variant for variant; the last
/// arm takes `Null`, the one variant left, as this version of `ciborium`
/// has no other.
#[verifier::external_body]
fn from_ciborium(v: &Value) -> CborValue {
    match v {
        Value::Integer(i) => CborValue::Integer(i128::from(*i)),
        Value::Bytes(b) => CborValue::Bytes(b.clone()),
        Value::Float(f) => CborValue::Float(f.to_bits()),
        Value::Text(s) => CborValue::Text(s.clone()),
        Value::Bool(b) => CborValue::Bool(*b),
        Value::Tag(t, x) => CborValue::Tag(*t, Box::new(from_ciborium(x))),
        Value::Array(a) => CborValue::Array(a.iter().map(from_ciborium).collect()),
        Value::Map(m) => CborValue::Mapping(m.iter().map(|(k, x)| (from_ciborium(k), from_ciborium(x))).collect()),
        _ => CborValue::Null,
    }
}

/// The `ciborium` float whose IEEE 754 bits are `bits`: what
/// `ciborium::de::from_reader` reads from the nine bytes a CBOR double is
/// written as (the header byte `0xfb`, then the bits, big-endian).
#[verifier::external_body]
fn float_value(bits: u64) -> Value {
    ciborium::de::from_reader([[0xfbu8].as_slice(), bits.to_be_bytes().as_slice()].concat().as_slice()).unwrap()
}

/// The `ciborium` value of a library item, variant for variant; every
/// integer must lie in CBOR's range (`Integer::try_from` refuses others).
#[verifier::external_body]
fn to_ciborium(v: &CborValue) -> Value
    requires
        cbor_encodable(v@),
{
    match v {
        CborValue::Integer(i) => Value::Integer(Integer::try_from(*i).unwrap()),
        CborValue::Bytes(b) => Value::Bytes(b.clone()),
        CborValue::Float(bits) => float_value(*bits),
        CborValue::Text(s) => Value::Text(s.clone()),
        CborValue::Bool(b) => Value::Bool(*b),
        CborValue::Null => Value::Null,
        CborValue::Tag(t, x) => Value::Tag(*t, Box::new(to_ciborium(x))),
        CborValue::Array(a) => Value::Array(a.iter().map(to_ciborium).collect()),
        CborValue::Mapping(m) => Value::Map(m.iter().map(|(k, x)| (to_ciborium(k), to_ciborium(x))).collect()),
    }
}

/// `ciborium::de::from_reader` on `bytes`, as a library item: the item
/// read, whose integers all lie in CBOR's range since `ciborium` holds no
/// others, or the text of the error where the bytes are no CBOR item.
#[verifier::external_body]
fn read_cbor(bytes: &[u8]) -> (res: Result<CborValue, String>)
    ensures
        match res {
            Ok(v) => cbor_decoded(bytes@) == Some(v@) && cbor_encodable(v@),
            Err(t) => cbor_decoded(bytes@) is None && t@ == cbor_decode_error(bytes@),
        },
{
    match ciborium::de::from_reader::<Value, _>(bytes) {
        Ok(v) => Ok(from_ciborium(&v)),
        Err(e) => Err(e.to_string()),
    }
}

/// `{:?}` of the `ciborium` value of an item, by `format!`.
#[verifier::external_body]
fn debug_cbor(v: &CborValue) -> (res: String)
    requires
        cbor_encodable(v@),
    ensures
        res@ == cbor_debug(v@),
{
    format!("{:?}", to_ciborium(v))
}

/// How deep an item nests: arrays, maps and tags each add a level.
pub open spec fn cbor_depth(v: Cbor) -> nat
    decreases v,
{
    match v {
        Cbor::Tag(_, inner) => 1 + cbor_depth(*inner),
        Cbor::Array(s) => 1 + seq_depth(s),
        Cbor::Mapping(m) => 1 + pairs_depth(m),
        _ => 0,
    }
}

pub open spec fn seq_depth(s: Seq<Cbor>) -> nat
    decreases s,
{
    if s.len() == 0 {
        0
    } else {
        let a = cbor_depth(s[0]);
        let b = seq_depth(s.drop_first());
        if a >= b { a } else { b }
    }
}

pub open spec fn pairs_depth(m: Seq<(Cbor, Cbor)>) -> nat
    decreases m,
{
    if m.len() == 0 {
        0
    } else {
        let a = cbor_depth(m[0].0);
        let b = cbor_depth(m[0].1);
        let c = pairs_depth(m.drop_first());
        if a >= b && a >= c { a } else if b >= c { b } else { c }
    }
}

/// Whether the item holds a tag 2 or 3 (a CBOR bignum) anywhere, which
/// `ciborium` reads back as an integer where it can.
pub open spec fn holds_bignum_tag(v: Cbor) -> bool
    decreases v,
{
    match v {
        Cbor::Tag(t, inner) => t == 2 || t == 3 || holds_bignum_tag(*inner),
        Cbor::Array(s) => exists|k: int| #![trigger s[k]] 0 <= k < s.len() && holds_bignum_tag(s[k]),
        Cbor::Mapping(m) => exists|k: int|
            #![trigger m[k]]
            0 <= k < m.len() && (holds_bignum_tag(m[k].0) || holds_bignum_tag(m[k].1)),
        _ => false,
    }
}

/// `ciborium::into_writer` into a vector: writing a value to a `Vec` does
/// not fail, since the vector takes every byte and every tag number is a
/// `u64`. What is written reads back as the item (`from_reader`) unless the
/// item holds a bignum tag (2 or 3, read back as an integer) or nests
/// deeper than `from_reader`'s limit of 256 levels; this is claimed for
/// items of at most 128 levels. Floats read back with the same bits, as
/// `ciborium` writes a float in half or single precision only where that
/// keeps them.
#[verifier::external_body]
fn write_cbor(v: &CborValue) -> (res: Vec<u8>)
    requires
        cbor_encodable(v@),
    ensures
        res@ == cbor_encoded(v@),
        !holds_bignum_tag(v@) && cbor_depth(v@) <= 128 ==> cbor_decoded(res@) == Some(v@),
{
    let mut buf: Vec<u8> = Vec::new();
    ciborium::into_writer(&to_ciborium(v), &mut buf).unwrap();
    buf
}

/// Whether the item can be written (see `cbor_encodable`).
pub fn is_encodable(v: &CborValue) -> (r: bool)
    ensures
        r == cbor_encodable(v@),
    decreases v,
{
    match v {
        CborValue::Integer(i) => -0x1_0000_0000_0000_0000i128 <= *i && *i <= 0xffff_ffff_ffff_ffffi128,
        CborValue::Tag(_, inner) => {
            proof {
                assert(decreases_to!(*v => (*v)->Tag_1));
            }
            is_encodable(inner)
        },
        CborValue::Array(a) => {
            assert(v@ == Cbor::Array(cbor_seq_view(a@)));
            let mut i: usize = 0;
            while i < a.len()
                invariant
                    i <= a.len(),
                    *v == CborValue::Array(*a),
                    v@ == Cbor::Array(cbor_seq_view(a@)),
                    forall|k: int| 0 <= k < i ==> cbor_encodable(#[trigger] cbor_seq_view(a@)[k]),
                decreases a.len() - i,
            {
                proof {
                    assert(decreases_to!(*v => (*v)->Array_0));
                    assert(decreases_to!(*a => a@));
                    assert(decreases_to!(a@ => a@[i as int]));
                }
                if !is_encodable(&a[i]) {
                    let ghost s = cbor_seq_view(a@);
                    assert(!cbor_encodable(s[i as int]));
                    assert(0 <= i < s.len());
                    proof {
                        lemma_encodable_array(s);
                    }
                    return false;
                }
                i = i + 1;
            }
            proof {
                lemma_encodable_array(cbor_seq_view(a@));
            }
            true
        },
        CborValue::Mapping(m) => {
            assert(v@ == Cbor::Mapping(cbor_pairs_view(m@)));
            let mut i: usize = 0;
            while i < m.len()
                invariant
                    i <= m.len(),
                    *v == CborValue::Mapping(*m),
                    v@ == Cbor::Mapping(cbor_pairs_view(m@)),
                    forall|k: int|
                        #![trigger cbor_pairs_view(m@)[k]]
                        0 <= k < i ==> cbor_encodable(cbor_pairs_view(m@)[k].0)
                            && cbor_encodable(cbor_pairs_view(m@)[k].1),
                decreases m.len() - i,
            {
                proof {
                    assert(decreases_to!(*v => (*v)->Mapping_0));
                    assert(decreases_to!(*m => m@));
                    assert(decreases_to!(m@ => m@[i as int]));
                    assert(decreases_to!(m@[i as int] => m@[i as int].0));
                    assert(decreases_to!(m@[i as int] => m@[i as int].1));
                }
                if !is_encodable(&m[i].0) || !is_encodable(&m[i].1) {
                    let ghost s = cbor_pairs_view(m@);
                    assert(!(cbor_encodable(s[i as int].0) && cbor_encodable(s[i as int].1)));
                    assert(0 <= i < s.len());
                    proof {
                        lemma_not_encodable_map(s, i as int);
                    }
                    assert(v@ == Cbor::Mapping(s));
                    return false;
                }
                assert(cbor_pairs_view(m@)[i as int] == (m@[i as int].0@, m@[i as int].1@));
                let ghost s = cbor_pairs_view(m@);
                assert(cbor_encodable(s[i as int].0) && cbor_encodable(s[i as int].1));
                i = i + 1;
            }
            proof {
                lemma_encodable_map(cbor_pairs_view(m@));
            }
            true
        },
        _ => true,
    }
}

/// The CBOR encoding of an item: `None` exactly when it cannot be written
/// (an integer out of CBOR's range), else the bytes `ciborium` writes for
/// it, which read back as the item when it holds no bignum tag and nests at
/// most 128 levels.
pub fn encode_cbor(v: &CborValue) -> (res: Option<Vec<u8>>)
    ensures
        res is Some <==> cbor_encodable(v@),
        res matches Some(b) ==> b@ == cbor_encoded(v@),
        res matches Some(b) ==> (!holds_bignum_tag(v@) && cbor_depth(v@) <= 128 ==> cbor_decoded(b@)
            == Some(v@)),
{
    if is_encodable(v) {
        Some(write_cbor(v))
    } else {
        None
    }
}

/// The item that `bytes` encode, or the text of `ciborium`'s error when
/// they encode none.
pub fn decode_cbor(bytes: &[u8]) -> (res: Result<CborValue, String>)
    ensures
        match res {
            Ok(v) => cbor_decoded(bytes@) == Some(v@) && cbor_encodable(v@),
            Err(t) => cbor_decoded(bytes@) is None && t@ == cbor_decode_error(bytes@),
        },
{
    read_cbor(bytes)
}

/// `{:?}` of an item as `ciborium` prints its value.
pub fn debug_item(v: &CborValue) -> (res: String)
    requires
        cbor_encodable(v@),
    ensures
        res@ == cbor_debug(v@),
{
    debug_cbor(v)
}

} // verus!
