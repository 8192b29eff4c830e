//! The client side of the TCP protocol: the commands it sends, how it reads
//! the answers, and the JSON form it shows them in.
use vstd::prelude::*;
use vstd::utf8::{decode_utf8, valid_utf8};

use crate::cbor::{cbor_pairs_view, cbor_seq_view, cbor_view, group_cbor_view, map1, text, Cbor, CborValue};
use crate::json::{group_json_view, json_entries_view, json_seq_view, Json, JsonValue};
use crate::seqs::{first_index, lemma_first_index_at};
use crate::server::tcp::jtagged;
use crate::text::{chars_of, decimal, decimal_u128, string_of};
use crate::wire::{map_get, message_key, spec_map_get, spec_message_key};

verus! {

broadcast use {group_cbor_view, group_json_view};

/// The text `String::from_utf8_lossy` makes of `bytes`: invalid sequences
/// replaced by U+FFFD.
pub uninterp spec fn utf8_lossy_text(bytes: Seq<u8>) -> Seq<char>;

/// `String::from_utf8_lossy(bytes).into_owned()`: the text is named
/// `utf8_lossy_text`; for valid UTF-8 it is the decoded text, as std documents.
#[verifier::external_body]
fn utf8_lossy(bytes: &[u8]) -> (res: String)
    ensures
        res@ == utf8_lossy_text(bytes@),
        valid_utf8(bytes@) ==> res@ == decode_utf8(bytes@),
{
    String::from_utf8_lossy(bytes).into_owned()
}

/// `String::from_utf8(bytes).ok()`: the decoded text exactly when the
/// bytes are valid UTF-8.
#[verifier::external_body]
fn utf8_strict(bytes: &[u8]) -> (res: Option<String>)
    ensures
        res is Some <==> valid_utf8(bytes@),
        res matches Some(s) ==> s@ == decode_utf8(bytes@),
{
    String::from_utf8(bytes.to_vec()).ok()
}

/// An integer written in decimal, with a leading `-` when negative.
pub open spec fn signed_decimal(n: int) -> Seq<char> {
    if n < 0 {
        seq!['-'] + decimal((-n) as nat)
    } else {
        decimal(n as nat)
    }
}

/// Whether the bits of an IEEE 754 double are a finite number.
pub open spec fn finite_bits(bits: u64) -> bool {
    (bits >> 52u64) & 0x7ffu64 != 0x7ffu64
}

/// `entries` with `key` set to `value`: replaced where the key is, else added.
pub open spec fn json_insert(entries: Seq<(Seq<char>, Json)>, key: Seq<char>, value: Json) -> Seq<
    (Seq<char>, Json),
> {
    let i = first_index(entries, json_key_is(key));
    if i < 0 {
        entries.push((key, value))
    } else {
        entries.update(i, (key, value))
    }
}

pub open spec fn json_key_is(key: Seq<char>) -> spec_fn((Seq<char>, Json)) -> bool {
    |e: (Seq<char>, Json)| e.0 == key
}

/// The JSON form of a CBOR item, as the client shows answers: integers as
/// numbers when a JSON number holds them (else as decimal text), bytes as
/// text, a tag `t` over `v` as `{"@@TAGGED@@": [t, v]}`, and a map as an
/// object of its text-keyed entries, a later key replacing an earlier one.
pub open spec fn cbor_to_json(c: Cbor) -> Json
    decreases c, 0nat,
{
    match c {
        Cbor::Integer(n) => if -0x8000_0000_0000_0000 <= n <= 0xffff_ffff_ffff_ffff {
            Json::Int(n)
        } else {
            Json::Str(signed_decimal(n))
        },
        Cbor::Float(b) => if finite_bits(b) {
            Json::Float(b)
        } else {
            Json::Null
        },
        Cbor::Bytes(b) => Json::Str(utf8_lossy_text(b)),
        Cbor::Text(s) => Json::Str(s),
        Cbor::Bool(b) => Json::Bool(b),
        Cbor::Null => Json::Null,
        Cbor::Tag(t, inner) => jtagged(t as int, cbor_to_json(*inner)),
        Cbor::Array(a) => Json::Array(cbor_seq_to_json(a)),
        Cbor::Mapping(m) => Json::Object(cbor_entries_to_json(m, seq![])),
    }
}

pub open spec fn cbor_seq_to_json(s: Seq<Cbor>) -> Seq<Json>
    decreases s, s.len(),
{
    if s.len() == 0 {
        seq![]
    } else {
        seq![cbor_to_json(s[0])] + cbor_seq_to_json(s.drop_first())
    }
}

/// The text-keyed entries of `m`, inserted in order into `acc`.
pub open spec fn cbor_entries_to_json(m: Seq<(Cbor, Cbor)>, acc: Seq<(Seq<char>, Json)>) -> Seq<
    (Seq<char>, Json),
>
    decreases m, m.len(),
{
    if m.len() == 0 {
        acc
    } else {
        let next = match m[0].0 {
            Cbor::Text(k) => json_insert(acc, k, cbor_to_json(m[0].1)),
            _ => acc,
        };
        cbor_entries_to_json(m.drop_first(), next)
    }
}

proof fn lemma_cbor_seq_to_json(s: Seq<Cbor>)
    ensures
        cbor_seq_to_json(s).len() == s.len(),
        forall|i: int| 0 <= i < s.len() ==> #[trigger] cbor_seq_to_json(s)[i] == cbor_to_json(s[i]),
    decreases s.len(),
{
    if s.len() > 0 {
        lemma_cbor_seq_to_json(s.drop_first());
        assert forall|i: int| 0 <= i < s.len() implies #[trigger] cbor_seq_to_json(s)[i]
            == cbor_to_json(s[i]) by {
            if i > 0 {
                assert(s[i] == s.drop_first()[i - 1]);
            }
        }
    }
}

/// An integer in decimal.
fn signed_decimal_string(n: i128) -> (res: String)
    ensures
        res@ == signed_decimal(n as int),
{
    if n < 0 {
        let m: u128 = ((-(n + 1)) as u128) + 1;
        let mut cs: Vec<char> = vec!['-'];
        let digits = decimal_u128(m);
        let mut k: usize = 0;
        while k < digits.len()
            invariant
                k <= digits.len(),
                cs@ == seq!['-'] + digits@.take(k as int),
            decreases digits.len() - k,
        {
            cs.push(digits[k]);
            k = k + 1;
            assert(digits@.take(k as int) =~= digits@.take(k - 1).push(digits@[k - 1]));
        }
        assert(digits@.take(digits.len() as int) =~= digits@);
        string_of(cs.as_slice())
    } else {
        let digits = decimal_u128(n as u128);
        string_of(digits.as_slice())
    }
}

/// Sets `key` to `value` in `entries`, replacing the value of an equal key.
fn json_insert_exec(entries: &mut Vec<(String, JsonValue)>, key: String, value: JsonValue)
    ensures
        json_entries_view(final(entries)@) == json_insert(json_entries_view(old(entries)@), key@, value@),
{
    let ghost ev = json_entries_view(entries@);
    let ghost p = json_key_is(key@);
    let mut j: usize = 0;
    while j < entries.len()
        invariant
            j <= entries.len(),
            ev == json_entries_view(entries@),
            entries@ == old(entries)@,
            p == json_key_is(key@),
            forall|m: int| 0 <= m < j ==> !p(ev[m]),
        decreases entries.len() - j,
    {
        if entries[j].0 == key {
            proof {
                lemma_first_index_at(ev, p, j as int);
            }
            let ghost entry = (key@, value@);
            entries.set(j, (key, value));
            assert(json_entries_view(entries@) =~= ev.update(j as int, entry));
            return ;
        }
        j = j + 1;
    }
    proof {
        lemma_first_index_at(ev, p, ev.len() as int);
    }
    let ghost entry = (key@, value@);
    entries.push((key, value));
    assert(json_entries_view(entries@) =~= ev.push(entry));
}

/// The JSON form of a CBOR item, as the client shows answers.
pub fn value_to_json(v: &CborValue) -> (res: JsonValue)
    ensures
        res@ == cbor_to_json(v@),
    decreases v,
{
    match v {
        CborValue::Integer(n) => {
            let n = *n;
            if 0 <= n && n <= 0xffff_ffff_ffff_ffff {
                JsonValue::UInt(n as u64)
            } else if -0x8000_0000_0000_0000 <= n && n < 0 {
                JsonValue::NegInt(n as i64)
            } else {
                JsonValue::Str(signed_decimal_string(n))
            }
        },
        CborValue::Float(b) => {
            if (*b >> 52u64) & 0x7ffu64 != 0x7ffu64 {
                JsonValue::Float(*b)
            } else {
                JsonValue::Null
            }
        },
        CborValue::Bytes(b) => JsonValue::Str(utf8_lossy(b.as_slice())),
        CborValue::Text(s) => JsonValue::Str(s.clone()),
        CborValue::Bool(b) => JsonValue::Bool(*b),
        CborValue::Null => JsonValue::Null,
        CborValue::Tag(t, inner) => {
            proof {
                assert(decreases_to!(*v => (*v)->Tag_1));
            }
            let j = value_to_json(inner);
            let arr = vec![JsonValue::UInt(*t), j];
            let ghost a = arr@;
            assert(json_seq_view(a) =~= seq![Json::Int(*t as int), j@]);
            let arr_v = JsonValue::Array(arr);
            assert(arr_v@ == Json::Array(json_seq_view(a)));
            let entries = vec![("@@TAGGED@@".to_owned(), arr_v)];
            let ghost e = entries@;
            assert(json_entries_view(e) =~= jtagged(*t as int, j@)->Object_0);
            assert(v@ == Cbor::Tag(*t, Box::new(inner@)));
            JsonValue::Object(entries)
        },
        CborValue::Array(a) => {
            let mut out: Vec<JsonValue> = Vec::new();
            let mut i: usize = 0;
            while i < a.len()
                invariant
                    i <= a.len(),
                    *v == CborValue::Array(*a),
                    out@.len() == i,
                    forall|k: int| 0 <= k < i ==> (#[trigger] out@[k])@ == cbor_to_json(a@[k]@),
                decreases a.len() - i,
            {
                proof {
                    assert(decreases_to!(*v => (*v)->Array_0));
                    assert(decreases_to!(*a => a@));
                    assert(decreases_to!(a@ => a@[i as int]));
                }
                out.push(value_to_json(&a[i]));
                i = i + 1;
            }
            proof {
                lemma_cbor_seq_to_json(cbor_seq_view(a@));
                assert(json_seq_view(out@) =~= cbor_seq_to_json(cbor_seq_view(a@)));
            }
            JsonValue::Array(out)
        },
        CborValue::Mapping(m) => {
            let ghost mv = cbor_pairs_view(m@);
            let mut out: Vec<(String, JsonValue)> = Vec::new();
            let mut i: usize = 0;
            assert(mv.skip(0) =~= mv);
            assert(json_entries_view(out@) =~= seq![]);
            while i < m.len()
                invariant
                    i <= m.len(),
                    *v == CborValue::Mapping(*m),
                    mv == cbor_pairs_view(m@),
                    cbor_entries_to_json(mv, seq![]) == cbor_entries_to_json(
                        mv.skip(i as int),
                        json_entries_view(out@),
                    ),
                decreases m.len() - i,
            {
                let ghost rest = mv.skip(i as int);
                assert(rest[0] == mv[i as int]);
                assert(rest.drop_first() =~= mv.skip(i + 1));
                match &m[i].0 {
                    CborValue::Text(k) => {
                        proof {
                            assert(decreases_to!(*v => (*v)->Mapping_0));
                            assert(decreases_to!(*m => m@));
                            assert(decreases_to!(m@ => m@[i as int]));
                            assert(decreases_to!(m@[i as int] => m@[i as int].1));
                        }
                        let j = value_to_json(&m[i].1);
                        json_insert_exec(&mut out, k.clone(), j);
                    },
                    _ => {},
                }
                i = i + 1;
            }
            assert(mv.skip(m.len() as int).len() == 0);
            JsonValue::Object(out)
        },
    }
}

/// The text of an order identifier: the text (or UTF-8 bytes) under tag 37,
/// or a plain text.
pub open spec fn spec_order_id_text(v: Cbor) -> Option<Seq<char>> {
    match v {
        Cbor::Tag(37, inner) => match *inner {
            Cbor::Text(s) => Some(s),
            Cbor::Bytes(b) => if valid_utf8(b) {
                Some(decode_utf8(b))
            } else {
                None
            },
            _ => None,
        },
        Cbor::Text(s) => Some(s),
        _ => None,
    }
}

/// The text of an order identifier.
pub fn order_id_to_string(v: &CborValue) -> (res: Option<String>)
    ensures
        match res {
            Some(s) => spec_order_id_text(v@) == Some(s@),
            None => spec_order_id_text(v@) is None,
        },
{
    match v {
        CborValue::Tag(t, inner) => {
            assert(v@ == Cbor::Tag(*t, Box::new(inner@)));
            if *t != 37 {
                return None;
            }
            match &**inner {
                CborValue::Text(s) => Some(s.clone()),
                CborValue::Bytes(b) => utf8_strict(b.as_slice()),
                _ => None,
            }
        },
        CborValue::Text(s) => Some(s.clone()),
        _ => None,
    }
}

/// The value under `outer`, then under `inner`, of an answer.
pub open spec fn spec_answer_field(msg: Cbor, outer: Seq<char>, inner: Seq<char>) -> Option<Cbor> {
    match msg {
        Cbor::Mapping(m) => match spec_map_get(m, outer) {
            Some(Cbor::Mapping(im)) => spec_map_get(im, inner),
            _ => None,
        },
        _ => None,
    }
}

fn answer_field<'a>(msg: &'a CborValue, outer: &str, inner: &str) -> (res: Option<&'a CborValue>)
    ensures
        match res {
            Some(f) => spec_answer_field(msg@, outer@, inner@) == Some(f@),
            None => spec_answer_field(msg@, outer@, inner@) is None,
        },
{
    let m = match msg {
        CborValue::Mapping(m) => m,
        _ => return None,
    };
    assert(msg@ == Cbor::Mapping(cbor_pairs_view(m@)));
    match map_get(m.as_slice(), outer) {
        Some(CborValue::Mapping(im)) => map_get(im.as_slice(), inner),
        _ => None,
    }
}

/// The order identifier of an `order_receipt` answer.
pub fn extract_order_receipt_id(msg: &CborValue) -> (res: Option<String>)
    ensures
        match res {
            Some(s) => spec_answer_field(msg@, "order_receipt"@, "order_id"@) matches Some(f)
                && spec_order_id_text(f) == Some(s@),
            None => match spec_answer_field(msg@, "order_receipt"@, "order_id"@) {
                Some(f) => spec_order_id_text(f) is None,
                None => true,
            },
        },
{
    match answer_field(msg, "order_receipt", "order_id") {
        Some(id) => order_id_to_string(id),
        None => None,
    }
}

/// The report text of a `completed_order` answer: its `result`, when text.
pub fn completed_order_result(msg: &CborValue) -> (res: Option<String>)
    ensures
        match res {
            Some(s) => spec_answer_field(msg@, "completed_order"@, "result"@) == Some(Cbor::Text(s@)),
            None => !(spec_answer_field(msg@, "completed_order"@, "result"@) matches Some(
                Cbor::Text(_),
            )),
        },
{
    match answer_field(msg, "completed_order", "result") {
        Some(CborValue::Text(t)) => Some(t.clone()),
        _ => None,
    }
}

/// The composition of two `serde_json` calls: the text
/// `serde_json::to_string_pretty` writes for the JSON value that
/// `serde_json::from_str` reads from `text`, or nothing when `text` is no
/// JSON. The value read in between is `serde_json`'s own and has no model
/// here, so the two calls stand under this one name.
pub uninterp spec fn pretty_json(text: Seq<char>) -> Option<Seq<char>>;

/// Parses `text` as JSON (`serde_json::from_str` into a `serde_json::Value`)
/// and writes it back indented (`serde_json::to_string_pretty`). The result is
/// named `pretty_json` of the text: only that it depends on the text alone is
/// claimed, not its layout.
#[verifier::external_body]
fn reformat_json_pretty(text: &str) -> (res: Option<String>)
    ensures
        match res {
            Some(s) => pretty_json(text@) == Some(s@),
            None => pretty_json(text@) is None,
        },
{
    match serde_json::from_str::<serde_json::Value>(text) {
        Ok(v) => serde_json::to_string_pretty(&v).ok(),
        Err(_) => None,
    }
}

/// The report of a `completed_order` answer, indented, when its `result` is
/// JSON text.
pub fn pretty_completed_order(msg: &CborValue) -> (res: Option<String>)
    ensures
        match spec_answer_field(msg@, "completed_order"@, "result"@) {
            Some(Cbor::Text(t)) => match res {
                Some(s) => pretty_json(t) == Some(s@),
                None => pretty_json(t) is None,
            },
            _ => res is None,
        },
{
    match completed_order_result(msg) {
        Some(t) => reformat_json_pretty(t.as_str()),
        None => None,
    }
}

/// `{command: {"recipe_name": recipe}}`.
pub open spec fn recipe_command(command: Seq<char>, recipe: Seq<char>) -> Cbor {
    Cbor::Mapping(
        seq![
            (
                Cbor::Text(command),
                Cbor::Mapping(seq![(Cbor::Text("recipe_name"@), Cbor::Text(recipe))]),
            ),
        ],
    )
}

/// The command that orders `recipe`.
pub fn build_order(recipe: &str) -> (res: CborValue)
    ensures
        res@ == recipe_command("order"@, recipe@),
{
    map1("order", map1("recipe_name", text(recipe)))
}

/// The command that asks for the list of recipes: `{"list_recipes": {}}`.
pub fn build_list_recipes() -> (res: CborValue)
    ensures
        res@ == Cbor::Mapping(seq![(Cbor::Text("list_recipes"@), Cbor::Mapping(seq![]))]),
{
    let empty: Vec<(CborValue, CborValue)> = Vec::new();
    let inner = CborValue::Mapping(empty);
    assert(inner@ == Cbor::Mapping(cbor_pairs_view(empty@)));
    assert(cbor_pairs_view(empty@) =~= seq![]);
    map1("list_recipes", inner)
}

/// The command that asks for the recipe `recipe`.
pub fn build_get_recipe(recipe: &str) -> (res: CborValue)
    ensures
        res@ == recipe_command("get_recipe"@, recipe@),
{
    map1("get_recipe", map1("recipe_name", text(recipe)))
}

/// What the client does with one answer to an order.
pub enum OrderStep {
    /// The order was accepted; its identifier, or `?` when the answer has none.
    Receipt(String),
    /// Progress: wait for the next answer.
    Wait,
    /// The pizza was delivered: show the whole answer.
    Delivered,
    /// The order completed: show its report (the `result` text, when there is one).
    Completed(Option<String>),
    /// The order was refused or failed.
    Refused,
    /// An answer of an unexpected kind.
    Unexpected(String),
}

/// The kind of an answer: its first key, or nothing.
pub open spec fn answer_kind(msg: Cbor) -> Seq<char> {
    match spec_message_key(msg) {
        Some(k) => k,
        None => seq![],
    }
}

/// What the client does with one answer to an order, by the answer's kind.
pub fn order_step(msg: &CborValue) -> (res: OrderStep)
    ensures
        ({
            let k = answer_kind(msg@);
            match res {
                OrderStep::Receipt(id) => k == "order_receipt"@ && match spec_answer_field(
                    msg@,
                    "order_receipt"@,
                    "order_id"@,
                ) {
                    Some(f) => match spec_order_id_text(f) {
                        Some(t) => id@ == t,
                        None => id@ == "?"@,
                    },
                    None => id@ == "?"@,
                },
                OrderStep::Wait => k == "process_payload"@,
                OrderStep::Delivered => k == "deliver"@,
                OrderStep::Completed(r) => k == "completed_order"@ && match r {
                    Some(s) => spec_answer_field(msg@, "completed_order"@, "result"@) == Some(
                        Cbor::Text(s@),
                    ),
                    None => !(spec_answer_field(msg@, "completed_order"@, "result"@) matches Some(
                        Cbor::Text(_),
                    )),
                },
                OrderStep::Refused => k == "order_declined"@ || k == "failed_order"@ || k
                    == "production_error"@,
                OrderStep::Unexpected(u) => u@ == k && k != "order_receipt"@ && k
                    != "process_payload"@ && k != "deliver"@ && k != "completed_order"@ && k
                    != "order_declined"@ && k != "failed_order"@ && k != "production_error"@,
            }
        }),
{
    let key: String = match message_key(msg) {
        Some(k) => k.to_owned(),
        None => String::new(),
    };
    if key == "order_receipt".to_owned() {
        match extract_order_receipt_id(msg) {
            Some(id) => OrderStep::Receipt(id),
            None => OrderStep::Receipt("?".to_owned()),
        }
    } else if key == "process_payload".to_owned() {
        OrderStep::Wait
    } else if key == "deliver".to_owned() {
        OrderStep::Delivered
    } else if key == "completed_order".to_owned() {
        OrderStep::Completed(completed_order_result(msg))
    } else if key == "order_declined".to_owned() || key == "failed_order".to_owned() || key
        == "production_error".to_owned() {
        OrderStep::Refused
    } else {
        OrderStep::Unexpected(key)
    }
}

/// What the client asks is what the server reads: the command built to order
/// or to get a recipe has the command's key, and the server finds in it the
/// recipe name it was built with; the command to list recipes has its key.
pub proof fn lemma_server_reads_client_command(recipe: Seq<char>)
    ensures
        spec_message_key(recipe_command("order"@, recipe)) == Some("order"@),
        crate::server::tcp::spec_recipe_name(recipe_command("order"@, recipe), "order"@) == Some(
            recipe,
        ),
        spec_message_key(recipe_command("get_recipe"@, recipe)) == Some("get_recipe"@),
        crate::server::tcp::spec_recipe_name(recipe_command("get_recipe"@, recipe), "get_recipe"@)
            == Some(recipe),
        spec_message_key(Cbor::Mapping(seq![(Cbor::Text("list_recipes"@), Cbor::Mapping(seq![]))]))
            == Some("list_recipes"@),
{
    let o = recipe_command("order"@, recipe)->Mapping_0;
    lemma_first_index_at(o, crate::cbor::key_is_text("order"@), 0);
    lemma_first_index_at(o[0].1->Mapping_0, crate::cbor::key_is_text("recipe_name"@), 0);
    let g = recipe_command("get_recipe"@, recipe)->Mapping_0;
    lemma_first_index_at(g, crate::cbor::key_is_text("get_recipe"@), 0);
    lemma_first_index_at(g[0].1->Mapping_0, crate::cbor::key_is_text("recipe_name"@), 0);
}

} // verus!
