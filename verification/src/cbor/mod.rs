//! CBOR data items, as the protocol handles them, and their mathematical model.
use vstd::prelude::*;

pub mod value;
pub mod codec;

pub use value::{
    entry_matches, find_entry, has_kind, is_text, key_is_text, map1, text, value_ok, ValueKind,
};


verus! {

/// A CBOR data item.
#[derive(Debug, PartialEq)]
pub enum CborValue {
    /// An integer; CBOR's range is `-2^64 ..= 2^64 - 1`.
    Integer(i128),
    Bytes(Vec<u8>),
    /// A floating-point number, held as the bits of an IEEE 754 double.
    Float(u64),
    Text(String),
    Bool(bool),
    Null,
    Tag(u64, Box<CborValue>),
    Array(Vec<CborValue>),
    /// Key/value entries, in the order they come.
    Mapping(Vec<(CborValue, CborValue)>),
}

/// The model of a CBOR data item.
pub enum Cbor {
    Integer(int),
    Bytes(Seq<u8>),
    Float(u64),
    Text(Seq<char>),
    Bool(bool),
    Null,
    Tag(u64, Box<Cbor>),
    Array(Seq<Cbor>),
    Mapping(Seq<(Cbor, Cbor)>),
}

pub open spec fn cbor_view(v: CborValue) -> Cbor
    decreases v, 0nat,
{
    match v {
        CborValue::Integer(i) => Cbor::Integer(i as int),
        CborValue::Bytes(b) => Cbor::Bytes(b@),
        CborValue::Float(f) => Cbor::Float(f),
        CborValue::Text(s) => Cbor::Text(s@),
        CborValue::Bool(b) => Cbor::Bool(b),
        CborValue::Null => Cbor::Null,
        CborValue::Tag(t, inner) => Cbor::Tag(t, Box::new(cbor_view(*inner))),
        CborValue::Array(a) => Cbor::Array(cbor_seq_view(a@)),
        CborValue::Mapping(m) => Cbor::Mapping(cbor_pairs_view(m@)),
    }
}

pub open spec fn cbor_seq_view(s: Seq<CborValue>) -> Seq<Cbor>
    decreases s, s.len(),
{
    if s.len() == 0 {
        Seq::empty()
    } else {
        seq![cbor_view(s[0])] + cbor_seq_view(s.drop_first())
    }
}

pub open spec fn cbor_pairs_view(s: Seq<(CborValue, CborValue)>) -> Seq<(Cbor, Cbor)>
    decreases s, s.len(),
{
    if s.len() == 0 {
        Seq::empty()
    } else {
        seq![(cbor_view(s[0].0), cbor_view(s[0].1))] + cbor_pairs_view(s.drop_first())
    }
}

impl View for CborValue {
    type V = Cbor;

    open spec fn view(&self) -> Cbor {
        cbor_view(*self)
    }
}

pub proof fn lemma_cbor_seq_view_all(s: Seq<CborValue>)
    ensures
        cbor_seq_view(s).len() == s.len(),
        forall|i: int| 0 <= i < s.len() ==> #[trigger] cbor_seq_view(s)[i] == cbor_view(s[i]),
    decreases s.len(),
{
    if s.len() > 0 {
        lemma_cbor_seq_view_all(s.drop_first());
        assert forall|i: int| 0 <= i < s.len() implies #[trigger] cbor_seq_view(s)[i] == cbor_view(
            s[i],
        ) by {
            if i > 0 {
                assert(s[i] == s.drop_first()[i - 1]);
            }
        }
    }
}

pub proof fn lemma_cbor_pairs_view_all(s: Seq<(CborValue, CborValue)>)
    ensures
        cbor_pairs_view(s).len() == s.len(),
        forall|i: int|
            0 <= i < s.len() ==> #[trigger] cbor_pairs_view(s)[i] == (
                cbor_view(s[i].0),
                cbor_view(s[i].1),
            ),
    decreases s.len(),
{
    if s.len() > 0 {
        lemma_cbor_pairs_view_all(s.drop_first());
        assert forall|i: int| 0 <= i < s.len() implies #[trigger] cbor_pairs_view(s)[i] == (
            cbor_view(s[i].0),
            cbor_view(s[i].1),
        ) by {
            if i > 0 {
                assert(s[i] == s.drop_first()[i - 1]);
            }
        }
    }
}

pub broadcast proof fn lemma_cbor_seq_view_len(s: Seq<CborValue>)
    ensures
        #[trigger] cbor_seq_view(s).len() == s.len(),
{
    lemma_cbor_seq_view_all(s);
}

pub broadcast proof fn lemma_cbor_seq_view_index(s: Seq<CborValue>, i: int)
    requires
        0 <= i < s.len(),
    ensures
        #[trigger] cbor_seq_view(s)[i] == cbor_view(s[i]),
{
    lemma_cbor_seq_view_all(s);
}

pub broadcast proof fn lemma_cbor_pairs_view_len(s: Seq<(CborValue, CborValue)>)
    ensures
        #[trigger] cbor_pairs_view(s).len() == s.len(),
{
    lemma_cbor_pairs_view_all(s);
}

pub broadcast proof fn lemma_cbor_pairs_view_index(s: Seq<(CborValue, CborValue)>, i: int)
    requires
        0 <= i < s.len(),
    ensures
        #[trigger] cbor_pairs_view(s)[i] == (cbor_view(s[i].0), cbor_view(s[i].1)),
{
    lemma_cbor_pairs_view_all(s);
}

pub broadcast group group_cbor_view {
    lemma_cbor_seq_view_len,
    lemma_cbor_seq_view_index,
    lemma_cbor_pairs_view_len,
    lemma_cbor_pairs_view_index,
}

} // verus!
