//! JSON values, as the library builds them for display and for order reports,
//! and their mathematical model.
use vstd::prelude::*;

verus! {

/// A JSON value. Objects keep their entries in insertion order, each key once.
#[derive(Debug, PartialEq)]
pub enum JsonValue {
    Null,
    Bool(bool),
    /// A non-negative integer.
    UInt(u64),
    /// A negative integer.
    NegInt(i64),
    /// A finite floating-point number, held as the bits of an IEEE 754 double.
    Float(u64),
    Str(String),
    Array(Vec<JsonValue>),
    Object(Vec<(String, JsonValue)>),
}

/// The model of a JSON value.
pub enum Json {
    Null,
    Bool(bool),
    Int(int),
    Float(u64),
    Str(Seq<char>),
    Array(Seq<Json>),
    Object(Seq<(Seq<char>, Json)>),
}

pub open spec fn json_view(v: JsonValue) -> Json
    decreases v, 0nat,
{
    match v {
        JsonValue::Null => Json::Null,
        JsonValue::Bool(b) => Json::Bool(b),
        JsonValue::UInt(n) => Json::Int(n as int),
        JsonValue::NegInt(n) => Json::Int(n as int),
        JsonValue::Float(f) => Json::Float(f),
        JsonValue::Str(s) => Json::Str(s@),
        JsonValue::Array(a) => Json::Array(json_seq_view(a@)),
        JsonValue::Object(o) => Json::Object(json_entries_view(o@)),
    }
}

pub open spec fn json_seq_view(s: Seq<JsonValue>) -> Seq<Json>
    decreases s, s.len(),
{
    if s.len() == 0 {
        Seq::empty()
    } else {
        seq![json_view(s[0])] + json_seq_view(s.drop_first())
    }
}

pub open spec fn json_entries_view(s: Seq<(String, JsonValue)>) -> Seq<(Seq<char>, Json)>
    decreases s, s.len(),
{
    if s.len() == 0 {
        Seq::empty()
    } else {
        seq![(s[0].0@, json_view(s[0].1))] + json_entries_view(s.drop_first())
    }
}

impl View for JsonValue {
    type V = Json;

    open spec fn view(&self) -> Json {
        json_view(*self)
    }
}

pub proof fn lemma_json_seq_view_all(s: Seq<JsonValue>)
    ensures
        json_seq_view(s).len() == s.len(),
        forall|i: int| 0 <= i < s.len() ==> #[trigger] json_seq_view(s)[i] == json_view(s[i]),
    decreases s.len(),
{
    if s.len() > 0 {
        lemma_json_seq_view_all(s.drop_first());
        assert forall|i: int| 0 <= i < s.len() implies #[trigger] json_seq_view(s)[i] == json_view(
            s[i],
        ) by {
            if i > 0 {
                assert(s[i] == s.drop_first()[i - 1]);
            }
        }
    }
}

pub proof fn lemma_json_entries_view_all(s: Seq<(String, JsonValue)>)
    ensures
        json_entries_view(s).len() == s.len(),
        forall|i: int|
            0 <= i < s.len() ==> #[trigger] json_entries_view(s)[i] == (s[i].0@, json_view(s[i].1)),
    decreases s.len(),
{
    if s.len() > 0 {
        lemma_json_entries_view_all(s.drop_first());
        assert forall|i: int| 0 <= i < s.len() implies #[trigger] json_entries_view(s)[i] == (
            s[i].0@,
            json_view(s[i].1),
        ) by {
            if i > 0 {
                assert(s[i] == s.drop_first()[i - 1]);
            }
        }
    }
}

pub broadcast proof fn lemma_json_seq_view_len(s: Seq<JsonValue>)
    ensures
        #[trigger] json_seq_view(s).len() == s.len(),
{
    lemma_json_seq_view_all(s);
}

pub broadcast proof fn lemma_json_seq_view_index(s: Seq<JsonValue>, i: int)
    requires
        0 <= i < s.len(),
    ensures
        #[trigger] json_seq_view(s)[i] == json_view(s[i]),
{
    lemma_json_seq_view_all(s);
}

pub broadcast proof fn lemma_json_entries_view_len(s: Seq<(String, JsonValue)>)
    ensures
        #[trigger] json_entries_view(s).len() == s.len(),
{
    lemma_json_entries_view_all(s);
}

pub broadcast proof fn lemma_json_entries_view_index(s: Seq<(String, JsonValue)>, i: int)
    requires
        0 <= i < s.len(),
    ensures
        #[trigger] json_entries_view(s)[i] == (s[i].0@, json_view(s[i].1)),
{
    lemma_json_entries_view_all(s);
}

pub broadcast group group_json_view {
    lemma_json_seq_view_len,
    lemma_json_seq_view_index,
    lemma_json_entries_view_len,
    lemma_json_entries_view_index,
}

} // verus!
