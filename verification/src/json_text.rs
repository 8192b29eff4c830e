//! JSON values as text, by `serde_json`.
use vstd::prelude::*;

use serde_json::Value;

use crate::json::{group_json_view, json_entries_view, json_seq_view, Json, JsonValue};

verus! {

broadcast use group_json_view;

#[verifier::external_type_specification]
#[verifier::external_body]
pub struct ExSerdeJsonValue(serde_json::Value);

/// The compact text that `serde_json` prints for a JSON value.
pub uninterp spec fn json_text(v: Json) -> Seq<char>;

/// Whether the value holds no floating-point number; the printing here
/// leaves floats out, as no report this library prints holds one (see
/// `lemma_reports_float_free`).
pub open spec fn json_float_free(v: Json) -> bool
    decreases v,
{
    match v {
        Json::Float(_) => false,
        Json::Array(s) => forall|k: int| #![trigger s[k]] 0 <= k < s.len() ==> json_float_free(s[k]),
        Json::Object(o) => forall|k: int| #![trigger o[k]] 0 <= k < o.len() ==> json_float_free(o[k].1),
        _ => true,
    }
}

proof fn lemma_float_free_array(s: Seq<Json>)
    ensures
        json_float_free(Json::Array(s)) <==> forall|k: int|
            #![trigger s[k]]
            0 <= k < s.len() ==> json_float_free(s[k]),
{
    reveal_with_fuel(json_float_free, 2);
    assert(Json::Array(s) matches Json::Array(t) && t == s);
}

proof fn lemma_float_free_object(o: Seq<(Seq<char>, Json)>)
    ensures
        json_float_free(Json::Object(o)) <==> forall|k: int|
            #![trigger o[k]]
            0 <= k < o.len() ==> json_float_free(o[k].1),
{
    reveal_with_fuel(json_float_free, 2);
    assert(Json::Object(o) matches Json::Object(t) && t == o);
}

/// The `serde_json` value of a library JSON value, variant for variant; the
/// value holds no float, so the float arm is never taken.
#[verifier::external_body]
fn to_serde(v: &JsonValue) -> Value
    requires
        json_float_free(v@),
{
    match v {
        JsonValue::Null => Value::Null,
        JsonValue::Bool(b) => Value::Bool(*b),
        JsonValue::UInt(n) => Value::from(*n),
        JsonValue::NegInt(n) => Value::from(*n),
        JsonValue::Float(_) => Value::Null,
        JsonValue::Str(s) => Value::String(s.clone()),
        JsonValue::Array(a) => Value::Array(a.iter().map(to_serde).collect()),
        JsonValue::Object(o) => Value::Object(o.iter().map(|(k, x)| (k.clone(), to_serde(x))).collect()),
    }
}

/// What `serde_json::Value` prints (its `Display`, compact) for the value.
#[verifier::external_body]
fn print_json(v: &JsonValue) -> (res: String)
    requires
        json_float_free(v@),
    ensures
        res@ == json_text(v@),
{
    to_serde(v).to_string()
}

/// Whether the value holds no floating-point number.
pub fn is_float_free(v: &JsonValue) -> (r: bool)
    ensures
        r == json_float_free(v@),
    decreases v,
{
    match v {
        JsonValue::Float(_) => false,
        JsonValue::Array(a) => {
            let mut i: usize = 0;
            while i < a.len()
                invariant
                    i <= a.len(),
                    *v == JsonValue::Array(*a),
                    v@ == Json::Array(json_seq_view(a@)),
                    forall|k: int| #![trigger json_seq_view(a@)[k]] 0 <= k < i ==> json_float_free(json_seq_view(a@)[k]),
                decreases a.len() - i,
            {
                proof {
                    assert(decreases_to!(*v => (*v)->Array_0));
                    assert(decreases_to!(*a => a@));
                    assert(decreases_to!(a@ => a@[i as int]));
                }
                if !is_float_free(&a[i]) {
                    proof {
                        lemma_float_free_array(json_seq_view(a@));
                        assert(!json_float_free(json_seq_view(a@)[i as int]));
                    }
                    return false;
                }
                assert(json_float_free(json_seq_view(a@)[i as int]));
                i = i + 1;
            }
            proof {
                lemma_float_free_array(json_seq_view(a@));
            }
            true
        },
        JsonValue::Object(o) => {
            let mut i: usize = 0;
            while i < o.len()
                invariant
                    i <= o.len(),
                    *v == JsonValue::Object(*o),
                    v@ == Json::Object(json_entries_view(o@)),
                    forall|k: int| #![trigger json_entries_view(o@)[k]] 0 <= k < i ==> json_float_free(json_entries_view(o@)[k].1),
                decreases o.len() - i,
            {
                proof {
                    assert(decreases_to!(*v => (*v)->Object_0));
                    assert(decreases_to!(*o => o@));
                    assert(decreases_to!(o@ => o@[i as int]));
                    assert(decreases_to!(o@[i as int] => o@[i as int].1));
                }
                if !is_float_free(&o[i].1) {
                    proof {
                        lemma_float_free_object(json_entries_view(o@));
                        assert(!json_float_free(json_entries_view(o@)[i as int].1));
                    }
                    return false;
                }
                assert(json_float_free(json_entries_view(o@)[i as int].1));
                i = i + 1;
            }
            proof {
                lemma_float_free_object(json_entries_view(o@));
            }
            true
        },
        _ => true,
    }
}

/// The compact JSON text of a value: `None` exactly when it holds a
/// floating-point number, else what `serde_json` prints for it.
pub fn json_string(v: &JsonValue) -> (res: Option<String>)
    ensures
        res is Some <==> json_float_free(v@),
        res matches Some(s) ==> s@ == json_text(v@),
{
    if is_float_free(v) {
        Some(print_json(v))
    } else {
        None
    }
}

} // verus!
