//! Frames exchanged over TCP: a big-endian `u32` length, then a CBOR body;
//! and the lookups that commands are dispatched by.
use vstd::prelude::*;

use crate::cbor::{cbor_pairs_view, key_is_text, Cbor, CborValue, group_cbor_view, is_text};
use crate::seqs::{first_index, lemma_first_index_at};

pub mod framing;

verus! {

broadcast use group_cbor_view;

/// The key of a command: the first key of a map, when it is text.
pub open spec fn spec_message_key(v: Cbor) -> Option<Seq<char>> {
    match v {
        Cbor::Mapping(m) => if m.len() > 0 {
            match m[0].0 {
                Cbor::Text(s) => Some(s),
                _ => None,
            }
        } else {
            None
        },
        _ => None,
    }
}

/// The value of the first entry of `m` whose key is the text `key`.
pub open spec fn spec_map_get(m: Seq<(Cbor, Cbor)>, key: Seq<char>) -> Option<Cbor> {
    let i = first_index(m, key_is_text(key));
    if i < 0 {
        None
    } else {
        Some(m[i].1)
    }
}

/// The key of a command message: the first key of the map, when it is text.
pub fn message_key(v: &CborValue) -> (res: Option<&str>)
    ensures
        match res {
            Some(s) => spec_message_key(v@) == Some(s@),
            None => spec_message_key(v@) is None,
        },
{
    match v {
        CborValue::Mapping(m) => {
            assert(v@ == Cbor::Mapping(cbor_pairs_view(m@)));
            if m.len() == 0 {
                return None;
            }
            match &m[0].0 {
                CborValue::Text(s) => Some(s.as_str()),
                _ => None,
            }
        },
        _ => None,
    }
}

/// The value of the first entry whose key is the text `key`.
pub fn map_get<'a>(m: &'a [(CborValue, CborValue)], key: &str) -> (res: Option<&'a CborValue>)
    ensures
        match res {
            Some(v) => spec_map_get(cbor_pairs_view(m@), key@) == Some(v@),
            None => spec_map_get(cbor_pairs_view(m@), key@) is None,
        },
{
    let ghost pv = cbor_pairs_view(m@);
    let ghost p = key_is_text(key@);
    let mut i: usize = 0;
    while i < m.len()
        invariant
            i <= m.len(),
            pv == cbor_pairs_view(m@),
            pv.len() == m@.len(),
            p == key_is_text(key@),
            forall|j: int| 0 <= j < i ==> !p(pv[j]),
        decreases m.len() - i,
    {
        let hit = is_text(&m[i].0, key);
        if hit {
            proof {
                assert(p(pv[i as int]));
                lemma_first_index_at(pv, p, i as int);
            }
            return Some(&m[i].1);
        }
        i = i + 1;
    }
    proof {
        lemma_first_index_at(pv, p, pv.len() as int);
    }
    None
}

} // verus!
