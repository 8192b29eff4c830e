//! Building, copying and searching CBOR items.
use vstd::prelude::*;

use crate::cbor::{cbor_pairs_view, cbor_seq_view, cbor_view, group_cbor_view, Cbor, CborValue};
use crate::seqs::{first_index, lemma_first_index_at};

verus! {

broadcast use group_cbor_view;

impl CborValue {
    /// A copy of the item.
    pub fn deep_clone(&self) -> (res: CborValue)
        ensures
            res@ == self@,
        decreases self,
    {
            match self {
            CborValue::Integer(i) => CborValue::Integer(*i),
            CborValue::Bytes(b) => CborValue::Bytes(b.clone()),
            CborValue::Float(f) => CborValue::Float(*f),
            CborValue::Text(s) => CborValue::Text(s.clone()),
            CborValue::Bool(b) => CborValue::Bool(*b),
            CborValue::Null => CborValue::Null,
            CborValue::Tag(t, inner) => {
                proof {
                    assert(decreases_to!(*self => (*self)->Tag_1));
                }
                CborValue::Tag(*t, Box::new(inner.deep_clone()))
            },
            CborValue::Array(a) => {
                let mut out: Vec<CborValue> = Vec::new();
                let mut i: usize = 0;
                while i < a.len()
                    invariant
                        i <= a.len(),
                        *self == CborValue::Array(*a),
                        out@.len() == i,
                        forall|k: int| 0 <= k < i ==> cbor_view(#[trigger] out@[k]) == cbor_view(a@[k]),
                    decreases a.len() - i,
                {
                    proof {
                        assert(decreases_to!(*self => (*self)->Array_0));
                        assert(decreases_to!(*a => a@));
                        assert(decreases_to!(a@ => a@[i as int]));
                    }
                    let c = a[i].deep_clone();
                    out.push(c);
                    i = i + 1;
                }
                assert(cbor_seq_view(out@) =~= cbor_seq_view(a@));
                CborValue::Array(out)
            },
            CborValue::Mapping(m) => {
                let mut out: Vec<(CborValue, CborValue)> = Vec::new();
                let mut i: usize = 0;
                while i < m.len()
                    invariant
                        i <= m.len(),
                        *self == CborValue::Mapping(*m),
                        out@.len() == i,
                        forall|k: int|
                            0 <= k < i ==> cbor_view((#[trigger] out@[k]).0) == cbor_view(m@[k].0)
                                && cbor_view(out@[k].1) == cbor_view(m@[k].1),
                    decreases m.len() - i,
                {
                    proof {
                        assert(decreases_to!(*self => (*self)->Mapping_0));
                        assert(decreases_to!(*m => m@));
                        assert(decreases_to!(m@ => m@[i as int]));
                        assert(decreases_to!(m@[i as int] => m@[i as int].0));
                        assert(decreases_to!(m@[i as int] => m@[i as int].1));
                    }
                    let k = m[i].0.deep_clone();
                    let v = m[i].1.deep_clone();
                    out.push((k, v));
                    i = i + 1;
                }
                assert(cbor_pairs_view(out@) =~= cbor_pairs_view(m@));
                CborValue::Mapping(out)
            },
        }
    }
}

/// Whether a map entry has the text key `key`.
pub open spec fn key_is_text(key: Seq<char>) -> spec_fn((Cbor, Cbor)) -> bool {
    |e: (Cbor, Cbor)| e.0 == Cbor::Text(key)
}

/// Whether `v` is the text `s`.
pub fn is_text(v: &CborValue, s: &str) -> (r: bool)
    ensures
        r == (v@ == Cbor::Text(s@)),
{
    match v {
        CborValue::Text(t) => *t == s.to_owned(),
        _ => false,
    }
}

/// The text item `s`.
pub fn text(s: &str) -> (res: CborValue)
    ensures
        res@ == Cbor::Text(s@),
{
    CborValue::Text(s.to_owned())
}

/// The map with the single entry `key => value`.
pub fn map1(key: &str, value: CborValue) -> (res: CborValue)
    ensures
        res@ == Cbor::Mapping(seq![(Cbor::Text(key@), value@)]),
{
    let entries = vec![(text(key), value)];
    let ghost e = entries@;
    assert(cbor_pairs_view(e) =~= seq![(Cbor::Text(key@), value@)]);
    CborValue::Mapping(entries)
}

/// What the value of a sought map entry must be.
#[derive(PartialEq, Eq, Structural, Clone, Copy, Debug)]
pub enum ValueKind {
    AnyValue,
    MappingValue,
    ArrayValue,
    /// An integer that fits a `u32`.
    U32Value,
}

pub open spec fn value_ok(kind: ValueKind, v: Cbor) -> bool {
    match kind {
        ValueKind::AnyValue => true,
        ValueKind::MappingValue => v is Mapping,
        ValueKind::ArrayValue => v is Array,
        ValueKind::U32Value => v matches Cbor::Integer(i) && 0 <= i <= u32::MAX,
    }
}

/// Whether a map entry has the text key `key` and a value of kind `kind`.
pub open spec fn entry_matches(key: Seq<char>, kind: ValueKind) -> spec_fn((Cbor, Cbor)) -> bool {
    |e: (Cbor, Cbor)| e.0 == Cbor::Text(key) && value_ok(kind, e.1)
}

/// Whether `v` is of kind `kind`.
pub fn has_kind(v: &CborValue, kind: ValueKind) -> (r: bool)
    ensures
        r == value_ok(kind, v@),
{
    match kind {
        ValueKind::AnyValue => true,
        ValueKind::MappingValue => match v {
            CborValue::Mapping(_) => true,
            _ => false,
        },
        ValueKind::ArrayValue => match v {
            CborValue::Array(_) => true,
            _ => false,
        },
        ValueKind::U32Value => match v {
            CborValue::Integer(i) => 0 <= *i && *i <= u32::MAX as i128,
            _ => false,
        },
    }
}

/// Index of the first entry of `m` with the text key `key` and a value of
/// kind `kind` (the walk of `Iterator::find_map`).
pub fn find_entry(m: &[(CborValue, CborValue)], key: &str, kind: ValueKind) -> (res: Option<usize>)
    ensures
        res is None <==> first_index(cbor_pairs_view(m@), entry_matches(key@, kind)) < 0,
        res matches Some(i) ==> i < m.len() && i == first_index(
            cbor_pairs_view(m@),
            entry_matches(key@, kind),
        ),
{
    let ghost pv = cbor_pairs_view(m@);
    let ghost p = entry_matches(key@, kind);
    let mut i: usize = 0;
    while i < m.len()
        invariant
            i <= m.len(),
            pv == cbor_pairs_view(m@),
            pv.len() == m@.len(),
            p == entry_matches(key@, kind),
            forall|j: int| 0 <= j < i ==> !p(pv[j]),
        decreases m.len() - i,
    {
        if is_text(&m[i].0, key) && has_kind(&m[i].1, kind) {
            proof {
                lemma_first_index_at(pv, p, i as int);
            }
            return Some(i);
        }
        i = i + 1;
    }
    proof {
        lemma_first_index_at(pv, p, pv.len() as int);
    }
    None
}

} // verus!
