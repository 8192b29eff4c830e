//! Answers to the TCP commands `order`, `list_recipes` and `get_recipe`.
use vstd::prelude::*;

use crate::cbor::{cbor_pairs_view, cbor_seq_view, group_cbor_view, map1, text, Cbor, CborValue};
use crate::json::{group_json_view, json_entries_view, json_seq_view, Json, JsonValue};
use crate::json_text::{json_float_free, json_string, json_text};
use crate::recipe::{
    actions_view, flatten_actions, flatten_steps, name_is, params_view, recipe_formula,
    recipe_to_formula, ActionModel, Recipe, RecipeModel,
};
use crate::seqs::first_index;
use crate::server::{offers, time_since_epoch, GossipState, GossipStateModel};
use crate::protocol::PeerInfoModel;
use crate::text::{chars_of, concat_str, decimal, decimal_u128, lemma_lex_total_ordering, lex_le_fn, sort_strings, string_of, strings_view, trim, trim_chars};
use crate::wire::{map_get, message_key, spec_map_get, spec_message_key};

verus! {

broadcast use {group_cbor_view, group_json_view};

/// Microseconds since the epoch for a reading of `secs` seconds and `nanos`
/// nanoseconds (`Duration::as_micros`).
pub open spec fn micros_of(secs: u64, nanos: u32) -> int {
    secs * 1_000_000 + nanos / 1000
}

/// `micros_of` cut to its low 64 bits, as `as u64` does.
pub fn micros_u64(secs: u64, nanos: u32) -> (res: u64)
    ensures
        res as int == micros_of(secs, nanos) % 0x1_0000_0000_0000_0000,
{
    let us: u128 = secs as u128 * 1_000_000 + (nanos / 1000) as u128;
    (us % 0x1_0000_0000_0000_0000) as u64
}

/// The clock in microseconds since the epoch, cut to 64 bits.
pub fn now_us() -> (res: u64)
    ensures
        exists|s: u64, n: u32|
            n < 1_000_000_000 && res as int == micros_of(s, n) % 0x1_0000_0000_0000_0000,
{
    let (s, n) = time_since_epoch();
    micros_u64(s, n)
}

/// Whether `s` is a version-4 UUID in hyphenated lower-case form.
pub open spec fn is_uuid_v4_text(s: Seq<char>) -> bool {
    &&& s.len() == 36
    &&& forall|i: int|
        0 <= i < 36 ==> if i == 8 || i == 13 || i == 18 || i == 23 {
            #[trigger] s[i] == '-'
        } else {
            ('0' <= s[i] <= '9') || ('a' <= s[i] <= 'f')
        }
    &&& s[14] == '4'
    &&& s[19] == '8' || s[19] == '9' || s[19] == 'a' || s[19] == 'b'
}

/// A fresh random order identifier: `uuid::Uuid::new_v4()` written by its
/// `Display` (hyphenated, lower case). The text's shape is claimed; which
/// identifier comes out is chance.
#[verifier::external_body]
fn new_order_id() -> (res: String)
    ensures
        is_uuid_v4_text(res@),
{
    uuid::Uuid::new_v4().to_string()
}

/// The name of the recipe that a command `{command: {"recipe_name": name}}` names.
pub open spec fn spec_recipe_name(msg: Cbor, command: Seq<char>) -> Option<Seq<char>> {
    match msg {
        Cbor::Mapping(root) => match spec_map_get(root, command) {
            Some(Cbor::Mapping(inner)) => match spec_map_get(inner, "recipe_name"@) {
                Some(Cbor::Text(s)) => Some(s),
                _ => None,
            },
            _ => None,
        },
        _ => None,
    }
}

fn as_map_slice(v: &CborValue) -> (res: Option<&[(CborValue, CborValue)]>)
    ensures
        match res {
            Some(m) => v@ == Cbor::Mapping(cbor_pairs_view(m@)),
            None => !(v@ is Mapping),
        },
{
    match v {
        CborValue::Mapping(m) => Some(m.as_slice()),
        _ => None,
    }
}

/// The recipe name under `command` in `msg`.
fn parse_recipe_name(msg: &CborValue, command: &str) -> (res: Option<String>)
    ensures
        match res {
            Some(s) => spec_recipe_name(msg@, command@) == Some(s@),
            None => spec_recipe_name(msg@, command@) is None,
        },
{
    let root = match as_map_slice(msg) {
        Some(r) => r,
        None => return None,
    };
    let cmd = match map_get(root, command) {
        Some(c) => c,
        None => return None,
    };
    let inner = match as_map_slice(cmd) {
        Some(i) => i,
        None => return None,
    };
    match map_get(inner, "recipe_name") {
        Some(CborValue::Text(s)) => Some(s.clone()),
        _ => None,
    }
}

/// The recipe name of an `order` command.
pub fn parse_recipe_name_order(msg: &CborValue) -> (res: Option<String>)
    ensures
        match res {
            Some(s) => spec_recipe_name(msg@, "order"@) == Some(s@),
            None => spec_recipe_name(msg@, "order"@) is None,
        },
{
    parse_recipe_name(msg, "order")
}

/// The recipe name of a `get_recipe` command.
pub fn parse_recipe_name_get(msg: &CborValue) -> (res: Option<String>)
    ensures
        match res {
            Some(s) => spec_recipe_name(msg@, "get_recipe"@) == Some(s@),
            None => spec_recipe_name(msg@, "get_recipe"@) is None,
        },
{
    parse_recipe_name(msg, "get_recipe")
}

/// The line an action adds to the content of an order.
pub open spec fn content_line(name: Seq<char>) -> Seq<char> {
    if name == "MakeDough"@ {
        "Dough: ready\n"@
    } else if name == "AddOliveOil"@ {
        "Olive Oil drizzled\n"@
    } else {
        name + ": done\n"@
    }
}

/// The line an action adds to the content of an order: `Dough: ready` for
/// `MakeDough`, `Olive Oil drizzled` for `AddOliveOil`, else `<name>: done`.
pub fn content_line_for_action(name: &str) -> (res: String)
    ensures
        res@ == content_line(name@),
{
    let n = name.to_owned();
    if n == "MakeDough".to_owned() {
        "Dough: ready\n".to_owned()
    } else if n == "AddOliveOil".to_owned() {
        "Olive Oil drizzled\n".to_owned()
    } else {
        concat_str(name, ": done\n")
    }
}

/// An order identifier as CBOR: text under tag 37.
pub open spec fn order_id_item(id: Seq<char>) -> Cbor {
    Cbor::Tag(37, Box::new(Cbor::Text(id)))
}

/// `{"order_receipt": {"order_id": id}}`.
pub open spec fn receipt_item(id: Seq<char>) -> Cbor {
    Cbor::Mapping(
        seq![
            (
                Cbor::Text("order_receipt"@),
                Cbor::Mapping(seq![(Cbor::Text("order_id"@), order_id_item(id))]),
            ),
        ],
    )
}

/// `{"order_declined": {"message": msg}}`.
pub open spec fn declined_item(msg: Seq<char>) -> Cbor {
    Cbor::Mapping(
        seq![
            (
                Cbor::Text("order_declined"@),
                Cbor::Mapping(seq![(Cbor::Text("message"@), Cbor::Text(msg))]),
            ),
        ],
    )
}

/// `{"completed_order": {"recipe_name": name, "result": result}}`.
pub open spec fn completed_item(name: Seq<char>, result: Seq<char>) -> Cbor {
    Cbor::Mapping(
        seq![
            (
                Cbor::Text("completed_order"@),
                Cbor::Mapping(
                    seq![
                        (Cbor::Text("recipe_name"@), Cbor::Text(name)),
                        (Cbor::Text("result"@), Cbor::Text(result)),
                    ],
                ),
            ),
        ],
    )
}

/// `{"recipe_answer": {"recipe": {"name": .., "formula": ..}}}`.
pub open spec fn recipe_answer_item(r: RecipeModel) -> Cbor {
    Cbor::Mapping(
        seq![
            (
                Cbor::Text("recipe_answer"@),
                Cbor::Mapping(
                    seq![
                        (
                            Cbor::Text("recipe"@),
                            Cbor::Mapping(
                                seq![
                                    (Cbor::Text("name"@), Cbor::Text(r.name)),
                                    (Cbor::Text("formula"@), Cbor::Text(recipe_formula(r))),
                                ],
                            ),
                        ),
                    ],
                ),
            ),
        ],
    )
}

/// An order identifier as CBOR: text under tag 37.
pub fn order_id_value(id: &str) -> (res: CborValue)
    ensures
        res@ == order_id_item(id@),
{
    let inner = text(id);
    let res = CborValue::Tag(37, Box::new(inner));
    assert(res@ == Cbor::Tag(37, Box::new(inner@)));
    res
}

/// The receipt sent when an order is accepted.
pub fn order_receipt_frame(id: &str) -> (res: CborValue)
    ensures
        res@ == receipt_item(id@),
{
    map1("order_receipt", map1("order_id", order_id_value(id)))
}

/// The answer sent when an order or a command is refused.
pub fn order_declined_frame(msg: &str) -> (res: CborValue)
    ensures
        res@ == declined_item(msg@),
{
    map1("order_declined", map1("message", text(msg)))
}

/// The answer sent when an order is done, with its report in JSON text.
pub fn completed_order_frame(recipe_name: &str, result_json: &str) -> (res: CborValue)
    ensures
        res@ == completed_item(recipe_name@, result_json@),
{
    let entries = vec![(text("recipe_name"), text(recipe_name)), (text("result"), text(result_json))];
    let ghost e = entries@;
    assert(cbor_pairs_view(e) =~= completed_item(recipe_name@, result_json@)->Mapping_0[0].1->Mapping_0);
    map1("completed_order", CborValue::Mapping(entries))
}

/// The answer to `get_recipe`: the recipe's name and formula.
pub fn recipe_answer_frame(r: &Recipe) -> (res: CborValue)
    ensures
        res@ == recipe_answer_item(r@),
{
    let formula = recipe_to_formula(r);
    let entries = vec![
        (text("name"), CborValue::Text(r.name.clone())),
        (text("formula"), CborValue::Text(formula)),
    ];
    let ghost e = entries@;
    assert(cbor_pairs_view(e) =~= recipe_answer_item(r@)->Mapping_0[0].1->Mapping_0[0].1->Mapping_0);
    map1("recipe_answer", map1("recipe", CborValue::Mapping(entries)))
}

/// `{"@@TAGGED@@": [tag, v]}`: how a CBOR tag reads in JSON.
pub open spec fn jtagged(tag: int, v: Json) -> Json {
    Json::Object(seq![("@@TAGGED@@"@, Json::Array(seq![Json::Int(tag), v]))])
}

/// The parameters of an action as a JSON object of strings.
pub open spec fn jparams(ps: Seq<(Seq<char>, Seq<char>)>) -> Json {
    Json::Object(ps.map_values(|p: (Seq<char>, Seq<char>)| (p.0, Json::Str(p.1))))
}

/// `{"Action": {"action": {"name": .., "params": {..}}, "timestamp": ts}}`.
pub open spec fn update_action(a: ActionModel, ts: u64) -> Json {
    Json::Object(
        seq![
            (
                "Action"@,
                Json::Object(
                    seq![
                        (
                            "action"@,
                            Json::Object(
                                seq![("name"@, Json::Str(a.name)), ("params"@, jparams(a.params))],
                            ),
                        ),
                        ("timestamp"@, Json::Int(ts as int)),
                    ],
                ),
            ),
        ],
    )
}

/// `{"Forward": {"to": <target under tag 260>, "timestamp": ts}}`.
pub open spec fn update_forward(target: Seq<char>, ts: u64) -> Json {
    Json::Object(
        seq![
            (
                "Forward"@,
                Json::Object(
                    seq![("to"@, jtagged(260, Json::Str(target))), ("timestamp"@, Json::Int(ts as int))],
                ),
            ),
        ],
    )
}

/// `{"Deliver": {"timestamp": ts}}`.
pub open spec fn update_deliver(ts: u64) -> Json {
    Json::Object(seq![("Deliver"@, Json::Object(seq![("timestamp"@, Json::Int(ts as int))]))])
}

/// The report of an order: its identifier (under tag 37), when it was
/// finished, what was made, and the updates.
pub open spec fn order_report(id: Seq<char>, finished: u64, content: Seq<char>, updates: Seq<Json>) -> Json {
    Json::Object(
        seq![
            ("order_id"@, jtagged(37, Json::Str(id))),
            ("order_timestamp"@, Json::Int(finished as int)),
            ("content"@, Json::Str(content)),
            ("updates"@, Json::Array(updates)),
        ],
    )
}

/// A timestamp 50 microseconds later (wrapping, as release builds add).
pub open spec fn tick(ts: u64) -> u64 {
    ((ts + 50) % 0x1_0000_0000_0000_0000) as u64
}

/// How the actions of an order went on this node.
pub enum OrderRun {
    /// All actions were done here; `ts` is the last timestamp used.
    Finished { updates: Seq<Json>, content: Seq<char>, ts: u64 },
    /// An action was handed to a peer; the rest goes on there.
    Forwarded { updates: Seq<Json>, content: Seq<char> },
    /// No node offers the action named.
    NoPeer { action: Seq<char> },
}

/// Runs the actions in order, each stamped 50 microseconds after the one
/// before: an action this node offers is done here; else the rest is
/// forwarded to the first peer that offers it; else the order fails.
pub open spec fn run_actions(
    m: GossipStateModel,
    acts: Seq<ActionModel>,
    ts: u64,
    updates: Seq<Json>,
    content: Seq<char>,
) -> OrderRun
    decreases acts.len(),
{
    if acts.len() == 0 {
        OrderRun::Finished { updates, content, ts }
    } else {
        let a = acts[0];
        let t = tick(ts);
        if m.capabilities.contains(a.name) {
            run_actions(
                m,
                acts.drop_first(),
                t,
                updates.push(update_action(a, t)),
                content + content_line(a.name),
            )
        } else {
            let p = first_index(m.peers, offers(a.name));
            if p >= 0 {
                OrderRun::Forwarded {
                    updates: updates.push(update_forward(m.peers[p].0, t)),
                    content,
                }
            } else {
                OrderRun::NoPeer { action: a.name }
            }
        }
    }
}

/// The recipe named `name` in `book`.
pub open spec fn lookup(book: Seq<RecipeModel>, name: Seq<char>) -> Option<RecipeModel> {
    let i = first_index(book, name_is(name));
    if i < 0 {
        None
    } else {
        Some(book[i])
    }
}

/// What answering `order` comes to, for an order identifier `id`, a clock
/// reading `t0` when the actions start and `finished` when the report is
/// made: the frames to send in order, then, when the order completes, the
/// recipe name and the report (sent as JSON text in a `completed_order`).
pub open spec fn spec_order_reply(
    m: GossipStateModel,
    msg: Cbor,
    id: Seq<char>,
    t0: u64,
    finished: u64,
) -> (Seq<Cbor>, Option<(Seq<char>, Json)>) {
    match spec_recipe_name(msg, "order"@) {
        None => (seq![declined_item("invalid order"@)], None),
        Some(name) => match lookup(m.recipes, name) {
            None => (seq![declined_item("unknown recipe: "@ + name)], None),
            Some(r) => match run_actions(m, flatten_steps(r.steps), t0, seq![], seq![]) {
                OrderRun::NoPeer { action } => (
                    seq![receipt_item(id), declined_item("no peer for action: "@ + action)],
                    None,
                ),
                OrderRun::Forwarded { updates, content } => (
                    seq![receipt_item(id)],
                    Some((name, order_report(id, finished, content, updates))),
                ),
                OrderRun::Finished { updates, content, ts } => (
                    seq![receipt_item(id)],
                    Some(
                        (
                            name,
                            order_report(
                                id,
                                finished,
                                content,
                                updates.push(update_deliver(tick(ts))),
                            ),
                        ),
                    ),
                ),
            },
        },
    }
}

/// An order that completed: its recipe and its report.
pub struct OrderCompletion {
    pub recipe_name: String,
    pub report: JsonValue,
}

/// What to send back for a command: `frames` in order, then, when there is a
/// completion, a `completed_order` frame carrying its report as JSON text.
pub struct TcpReply {
    pub frames: Vec<CborValue>,
    pub completion: Option<OrderCompletion>,
}

/// Whether `reply` is the answer `spec` describes.
pub open spec fn reply_is(reply: TcpReply, spec: (Seq<Cbor>, Option<(Seq<char>, Json)>)) -> bool {
    &&& cbor_seq_view(reply.frames@) == spec.0
    &&& match reply.completion {
        None => spec.1 is None,
        Some(c) => spec.1 == Some((c.recipe_name@, c.report@)),
    }
}

fn jstr(s: &str) -> (res: JsonValue)
    ensures
        res@ == Json::Str(s@),
{
    JsonValue::Str(s.to_owned())
}

fn jtagged_value(tag: u64, v: JsonValue) -> (res: JsonValue)
    ensures
        res@ == jtagged(tag as int, v@),
{
    let arr = vec![JsonValue::UInt(tag), v];
    let ghost a = arr@;
    assert(json_seq_view(a) =~= seq![Json::Int(tag as int), v@]);
    let arr_v = JsonValue::Array(arr);
    assert(arr_v@ == Json::Array(json_seq_view(a)));
    let entries = vec![("@@TAGGED@@".to_owned(), arr_v)];
    let ghost e = entries@;
    assert(json_entries_view(e) =~= jtagged(tag as int, v@)->Object_0);
    JsonValue::Object(entries)
}

fn jobject1(key: &str, v: JsonValue) -> (res: JsonValue)
    ensures
        res@ == Json::Object(seq![(key@, v@)]),
{
    let entries = vec![(key.to_owned(), v)];
    let ghost e = entries@;
    assert(json_entries_view(e) =~= seq![(key@, v@)]);
    JsonValue::Object(entries)
}

fn jobject2(k1: &str, v1: JsonValue, k2: &str, v2: JsonValue) -> (res: JsonValue)
    ensures
        res@ == Json::Object(seq![(k1@, v1@), (k2@, v2@)]),
{
    let entries = vec![(k1.to_owned(), v1), (k2.to_owned(), v2)];
    let ghost e = entries@;
    assert(json_entries_view(e) =~= seq![(k1@, v1@), (k2@, v2@)]);
    JsonValue::Object(entries)
}

fn params_json(ps: &Vec<(String, String)>) -> (res: JsonValue)
    ensures
        res@ == jparams(params_view(ps@)),
{
    let ghost pv = params_view(ps@);
    let mut out: Vec<(String, JsonValue)> = Vec::new();
    let mut i: usize = 0;
    while i < ps.len()
        invariant
            i <= ps.len(),
            pv == params_view(ps@),
            out@.len() == i,
            forall|k: int|
                0 <= k < i ==> (#[trigger] out@[k]).0@ == pv[k].0 && out@[k].1@ == Json::Str(pv[k].1),
        decreases ps.len() - i,
    {
        out.push((ps[i].0.clone(), JsonValue::Str(ps[i].1.clone())));
        i = i + 1;
    }
    assert(json_entries_view(out@) =~= pv.map_values(
        |p: (Seq<char>, Seq<char>)| (p.0, Json::Str(p.1)),
    ));
    JsonValue::Object(out)
}

fn update_action_value(a: &crate::recipe::Action, ts: u64) -> (res: JsonValue)
    ensures
        res@ == update_action(a@, ts),
{
    let action = jobject2("name", JsonValue::Str(a.name.clone()), "params", params_json(&a.params));
    let body = jobject2("action", action, "timestamp", JsonValue::UInt(ts));
    jobject1("Action", body)
}

fn forward_to_json(target: &String, ts: u64) -> (res: JsonValue)
    ensures
        res@ == update_forward(target@, ts),
{
    let to = jtagged_value(260, JsonValue::Str(target.clone()));
    jobject1("Forward", jobject2("to", to, "timestamp", JsonValue::UInt(ts)))
}

fn update_deliver_value(ts: u64) -> (res: JsonValue)
    ensures
        res@ == update_deliver(ts),
{
    jobject1("Deliver", jobject1("timestamp", JsonValue::UInt(ts)))
}

fn order_report_value(id: &String, finished: u64, content: String, updates: Vec<JsonValue>) -> (res: JsonValue)
    ensures
        res@ == order_report(id@, finished, content@, json_seq_view(updates@)),
{
    let tagged = jtagged_value(37, JsonValue::Str(id.clone()));
    let ghost u = updates@;
    let arr = JsonValue::Array(updates);
    assert(arr@ == Json::Array(json_seq_view(u)));
    let entries = vec![
        ("order_id".to_owned(), tagged),
        ("order_timestamp".to_owned(), JsonValue::UInt(finished)),
        ("content".to_owned(), JsonValue::Str(content)),
        ("updates".to_owned(), arr),
    ];
    let ghost e = entries@;
    assert(json_entries_view(e) =~= order_report(id@, finished, content@, json_seq_view(u))->Object_0);
    JsonValue::Object(entries)
}

/// The recipe named `name`.
fn find_recipe<'a>(state: &'a GossipState, name: &String) -> (res: Option<&'a Recipe>)
    ensures
        match res {
            Some(r) => lookup(state@.recipes, name@) == Some(r@),
            None => lookup(state@.recipes, name@) is None,
        },
{
    state.recipes().get(name)
}

/// The answer to an `order` command for an order identifier `id`, with the
/// clock read as `t0` before the actions and `finished` for the report.
pub fn handle_order_at(state: &GossipState, msg: &CborValue, id: &String, t0: u64, finished: u64) -> (res: TcpReply)
    ensures
        reply_is(res, spec_order_reply(state@, msg@, id@, t0, finished)),
{
    let name = match parse_recipe_name_order(msg) {
        Some(n) => n,
        None => {
            let frames = vec![order_declined_frame("invalid order")];
            assert(cbor_seq_view(frames@) =~= seq![declined_item("invalid order"@)]);
            return TcpReply { frames, completion: None };
        },
    };
    let r = match find_recipe(state, &name) {
        Some(r) => r,
        None => {
            let text_msg = concat_str("unknown recipe: ", name.as_str());
            let frames = vec![order_declined_frame(text_msg.as_str())];
            assert(cbor_seq_view(frames@) =~= seq![declined_item("unknown recipe: "@ + name@)]);
            return TcpReply { frames, completion: None };
        },
    };
    let actions = flatten_actions(r);
    let ghost all = actions_view(actions@);
    let ghost m = state@;
    let mut ts = t0;
    let mut updates: Vec<JsonValue> = Vec::new();
    let mut content = String::new();
    let mut forwarded = false;
    let mut i: usize = 0;
    assert(all.skip(0) =~= all);
    assert(json_seq_view(updates@) =~= seq![]);
    while i < actions.len()
        invariant_except_break
            i <= actions.len(),
            all == actions_view(actions@),
            m == state@,
            all == flatten_steps(r@.steps),
            spec_recipe_name(msg@, "order"@) == Some(name@),
            lookup(m.recipes, name@) == Some(r@),
            !forwarded,
            run_actions(m, all, t0, seq![], seq![]) == run_actions(
                m,
                all.skip(i as int),
                ts,
                json_seq_view(updates@),
                content@,
            ),
        ensures
            forwarded ==> run_actions(m, all, t0, seq![], seq![]) == (OrderRun::Forwarded {
                updates: json_seq_view(updates@),
                content: content@,
            }),
            !forwarded ==> run_actions(m, all, t0, seq![], seq![]) == (OrderRun::Finished {
                updates: json_seq_view(updates@),
                content: content@,
                ts,
            }),
        decreases actions.len() - i,
    {
        let a = &actions[i];
        let ghost rest = all.skip(i as int);
        assert(rest[0] == a@);
        assert(rest.drop_first() =~= all.skip(i + 1));
        let t = ts.wrapping_add(50);
        assert(t == tick(ts));
        if state.has_capability(&a.name) {
            let ghost before = json_seq_view(updates@);
            updates.push(update_action_value(a, t));
            assert(json_seq_view(updates@) =~= before.push(update_action(a@, t)));
            let line = content_line_for_action(a.name.as_str());
            content = concat_str(content.as_str(), line.as_str());
            ts = t;
        } else {
            match state.find_peer_with_capability(&a.name) {
                Some(target) => {
                    let ghost before = json_seq_view(updates@);
                    updates.push(forward_to_json(&target, t));
                    assert(json_seq_view(updates@) =~= before.push(update_forward(target@, t)));
                    forwarded = true;
                    break;
                },
                None => {
                    let receipt = order_receipt_frame(id.as_str());
                    let text_msg = concat_str("no peer for action: ", a.name.as_str());
                    let declined = order_declined_frame(text_msg.as_str());
                    let frames = vec![receipt, declined];
                    assert(cbor_seq_view(frames@) =~= seq![
                        receipt_item(id@),
                        declined_item("no peer for action: "@ + a@.name),
                    ]);
                    return TcpReply { frames, completion: None };
                },
            }
        }
        i = i + 1;
    }
    if !forwarded {
        let ghost before = json_seq_view(updates@);
        let t = ts.wrapping_add(50);
        updates.push(update_deliver_value(t));
        assert(json_seq_view(updates@) =~= before.push(update_deliver(tick(ts))));
    }
    let report = order_report_value(id, finished, content, updates);
    let frames = vec![order_receipt_frame(id.as_str())];
    assert(cbor_seq_view(frames@) =~= seq![receipt_item(id@)]);
    TcpReply { frames, completion: Some(OrderCompletion { recipe_name: name, report }) }
}

/// A report with its finishing time set to `f`.
pub open spec fn restamp_json(r: Json, f: u64) -> Json {
    match r {
        Json::Object(e) => if e.len() > 1 {
            Json::Object(e.update(1, ("order_timestamp"@, Json::Int(f as int))))
        } else {
            r
        },
        _ => r,
    }
}

/// An answer's completion with its report's finishing time set to `f`.
pub open spec fn restamped(c: Option<(Seq<char>, Json)>, f: u64) -> Option<(Seq<char>, Json)> {
    match c {
        None => None,
        Some((n, r)) => Some((n, restamp_json(r, f))),
    }
}

proof fn lemma_order_restamp(m: GossipStateModel, msg: Cbor, id: Seq<char>, t0: u64, f0: u64, f: u64)
    ensures
        spec_order_reply(m, msg, id, t0, f).0 == spec_order_reply(m, msg, id, t0, f0).0,
        spec_order_reply(m, msg, id, t0, f).1 == restamped(spec_order_reply(m, msg, id, t0, f0).1, f),
{
    match spec_order_reply(m, msg, id, t0, f0).1 {
        Some((n, r)) => {
            let e = r->Object_0;
            let later = spec_order_reply(m, msg, id, t0, f).1->Some_0;
            assert(e.update(1, ("order_timestamp"@, Json::Int(f as int))) =~= later.1->Object_0);
        },
        None => {},
    }
}

proof fn lemma_reply_restamp(m: GossipStateModel, msg: Cbor, id: Seq<char>, t0: u64, f0: u64, f: u64)
    ensures
        spec_reply(m, msg, id, t0, f).0 == spec_reply(m, msg, id, t0, f0).0,
        spec_reply(m, msg, id, t0, f).1 == restamped(spec_reply(m, msg, id, t0, f0).1, f),
{
    lemma_order_restamp(m, msg, id, t0, f0, f);
}

/// The same answer with its report's finishing time set to `f`.
fn restamp(reply: TcpReply, f: u64) -> (res: TcpReply)
    ensures
        forall|s: (Seq<Cbor>, Option<(Seq<char>, Json)>)|
            reply_is(reply, s) ==> #[trigger] reply_is(res, (s.0, restamped(s.1, f))),
{
    let TcpReply { frames, completion } = reply;
    match completion {
        None => TcpReply { frames, completion: None },
        Some(c) => {
            let OrderCompletion { recipe_name, report } = c;
            let ghost r0 = report@;
            let report = match report {
                JsonValue::Object(e) => {
                    let mut e = e;
                    if e.len() > 1 {
                        let ghost before = e@;
                        e.set(1, ("order_timestamp".to_owned(), JsonValue::UInt(f)));
                        assert(json_entries_view(e@) =~= json_entries_view(before).update(
                            1,
                            ("order_timestamp"@, Json::Int(f as int)),
                        ));
                    }
                    JsonValue::Object(e)
                },
                other => other,
            };
            assert(report@ == restamp_json(r0, f));
            TcpReply { frames, completion: Some(OrderCompletion { recipe_name, report }) }
        },
    }
}

/// The answer to an `order` command: a fresh order identifier, the clock
/// read when the actions start, and again, once they are run, for the report.
pub fn handle_order(state: &GossipState, msg: &CborValue) -> (res: TcpReply)
    ensures
        exists|id: Seq<char>, t0: u64, finished: u64|
            is_uuid_v4_text(id) && reply_is(res, spec_order_reply(state@, msg@, id, t0, finished)),
{
    let id = new_order_id();
    let t0 = now_us();
    let reply = handle_order_at(state, msg, &id, t0, t0);
    let finished = now_us();
    let res = restamp(reply, finished);
    proof {
        lemma_order_restamp(state@, msg@, id@, t0, t0, finished);
        assert(reply_is(res, spec_order_reply(state@, msg@, id@, t0, finished)));
    }
    res
}

/// The list of recipes: `{"recipe_list_answer": {"recipes": [{"name": ..}, ..]}}`.
pub open spec fn recipe_list_item(names: Seq<Seq<char>>) -> Cbor {
    Cbor::Mapping(
        seq![
            (
                Cbor::Text("recipe_list_answer"@),
                Cbor::Mapping(
                    seq![
                        (
                            Cbor::Text("recipes"@),
                            Cbor::Array(
                                names.map_values(
                                    |n: Seq<char>|
                                        Cbor::Mapping(seq![(Cbor::Text("name"@), Cbor::Text(n))]),
                                ),
                            ),
                        ),
                    ],
                ),
            ),
        ],
    )
}

/// The names of a node's recipes in ascending order.
pub open spec fn sorted_names(m: GossipStateModel) -> Seq<Seq<char>> {
    m.recipes.map_values(|r: RecipeModel| r.name).sort_by(lex_le_fn())
}

/// The answer to `list_recipes`: every recipe name, in ascending order.
pub fn recipe_list_frame(state: &GossipState) -> (res: CborValue)
    ensures
        res@ == recipe_list_item(sorted_names(state@)),
{
    let names = state.recipes().names();
    assert(strings_view(names@) =~= state@.recipes.map_values(|r: RecipeModel| r.name));
    let sorted = sort_strings(names);
    let ghost sn = strings_view(sorted@);
    let mut items: Vec<CborValue> = Vec::new();
    let mut i: usize = 0;
    while i < sorted.len()
        invariant
            i <= sorted.len(),
            sn == strings_view(sorted@),
            items@.len() == i,
            forall|k: int|
                0 <= k < i ==> (#[trigger] items@[k])@ == Cbor::Mapping(
                    seq![(Cbor::Text("name"@), Cbor::Text(sn[k]))],
                ),
        decreases sorted.len() - i,
    {
        items.push(map1("name", CborValue::Text(sorted[i].clone())));
        i = i + 1;
    }
    let ghost iv = items@;
    assert(cbor_seq_view(iv) =~= sn.map_values(
        |n: Seq<char>| Cbor::Mapping(seq![(Cbor::Text("name"@), Cbor::Text(n))]),
    ));
    let arr = CborValue::Array(items);
    assert(arr@ == Cbor::Array(cbor_seq_view(iv)));
    map1("recipe_list_answer", map1("recipes", arr))
}

/// The answer to `list_recipes`.
pub fn handle_list_recipes(state: &GossipState) -> (res: TcpReply)
    ensures
        reply_is(res, (seq![recipe_list_item(sorted_names(state@))], None)),
{
    let frames = vec![recipe_list_frame(state)];
    assert(cbor_seq_view(frames@) =~= seq![recipe_list_item(sorted_names(state@))]);
    TcpReply { frames, completion: None }
}

/// What answering `get_recipe` comes to.
pub open spec fn spec_get_recipe_reply(m: GossipStateModel, msg: Cbor) -> Cbor {
    match spec_recipe_name(msg, "get_recipe"@) {
        None => declined_item("invalid get_recipe"@),
        Some(name) => match lookup(m.recipes, name) {
            None => declined_item("unknown recipe: "@ + name),
            Some(r) => recipe_answer_item(r),
        },
    }
}

/// The answer to `get_recipe`: the recipe's name and formula, or a refusal.
pub fn handle_get_recipe(state: &GossipState, msg: &CborValue) -> (res: TcpReply)
    ensures
        reply_is(res, (seq![spec_get_recipe_reply(state@, msg@)], None)),
{
    let frame = match parse_recipe_name_get(msg) {
        None => order_declined_frame("invalid get_recipe"),
        Some(name) => match find_recipe(state, &name) {
            None => {
                let t = concat_str("unknown recipe: ", name.as_str());
                order_declined_frame(t.as_str())
            },
            Some(r) => recipe_answer_frame(r),
        },
    };
    let frames = vec![frame];
    assert(cbor_seq_view(frames@) =~= seq![spec_get_recipe_reply(state@, msg@)]);
    TcpReply { frames, completion: None }
}

/// What answering a command comes to: dispatched on its key.
pub open spec fn spec_reply(
    m: GossipStateModel,
    msg: Cbor,
    id: Seq<char>,
    t0: u64,
    finished: u64,
) -> (Seq<Cbor>, Option<(Seq<char>, Json)>) {
    match spec_message_key(msg) {
        None => (seq![declined_item("invalid message"@)], None),
        Some(k) => if k == "order"@ {
            spec_order_reply(m, msg, id, t0, finished)
        } else if k == "list_recipes"@ {
            (seq![recipe_list_item(sorted_names(m))], None)
        } else if k == "get_recipe"@ {
            (seq![spec_get_recipe_reply(m, msg)], None)
        } else {
            (seq![declined_item("unsupported: "@ + k)], None)
        },
    }
}

/// The kind of command a message is.
enum CommandKind {
    Order,
    ListRecipes,
    GetRecipe,
    Unsupported(String),
    Invalid,
}

fn command_kind(msg: &CborValue) -> (res: CommandKind)
    ensures
        match res {
            CommandKind::Order => spec_message_key(msg@) == Some("order"@),
            CommandKind::ListRecipes => spec_message_key(msg@) == Some("list_recipes"@),
            CommandKind::GetRecipe => spec_message_key(msg@) == Some("get_recipe"@),
            CommandKind::Unsupported(k) => spec_message_key(msg@) == Some(k@) && k@ != "order"@
                && k@ != "list_recipes"@ && k@ != "get_recipe"@,
            CommandKind::Invalid => spec_message_key(msg@) is None,
        },
{
    match message_key(msg) {
        None => CommandKind::Invalid,
        Some(k) => {
            let key = k.to_owned();
            if key == "order".to_owned() {
                CommandKind::Order
            } else if key == "list_recipes".to_owned() {
                CommandKind::ListRecipes
            } else if key == "get_recipe".to_owned() {
                CommandKind::GetRecipe
            } else {
                CommandKind::Unsupported(key)
            }
        },
    }
}

/// The answer to a command, for an order identifier `id` and clock readings
/// `t0` and `finished` (used by `order` alone).
pub fn respond_at(state: &GossipState, msg: &CborValue, id: &String, t0: u64, finished: u64) -> (res: TcpReply)
    ensures
        reply_is(res, spec_reply(state@, msg@, id@, t0, finished)),
{
    proof {
        reveal_strlit("order");
        reveal_strlit("list_recipes");
        reveal_strlit("get_recipe");
    }
    match command_kind(msg) {
        CommandKind::Order => handle_order_at(state, msg, id, t0, finished),
        CommandKind::ListRecipes => handle_list_recipes(state),
        CommandKind::GetRecipe => handle_get_recipe(state, msg),
        CommandKind::Unsupported(k) => {
            let t = concat_str("unsupported: ", k.as_str());
            let frames = vec![order_declined_frame(t.as_str())];
            assert(cbor_seq_view(frames@) =~= seq![declined_item("unsupported: "@ + k@)]);
            TcpReply { frames, completion: None }
        },
        CommandKind::Invalid => {
            let frames = vec![order_declined_frame("invalid message")];
            assert(cbor_seq_view(frames@) =~= seq![declined_item("invalid message"@)]);
            TcpReply { frames, completion: None }
        },
    }
}

/// The answer to a command received over TCP; an order gets a fresh
/// identifier and clock readings.
pub fn respond(state: &GossipState, msg: &CborValue) -> (res: TcpReply)
    ensures
        exists|id: Seq<char>, t0: u64, finished: u64|
            is_uuid_v4_text(id) && reply_is(res, spec_reply(state@, msg@, id, t0, finished)),
{
    let id = new_order_id();
    let t0 = now_us();
    let reply = respond_at(state, msg, &id, t0, t0);
    let finished = now_us();
    let res = restamp(reply, finished);
    proof {
        lemma_reply_restamp(state@, msg@, id@, t0, t0, finished);
        assert(reply_is(res, spec_reply(state@, msg@, id@, t0, finished)));
    }
    res
}

/// A command typed at the node's console.
#[derive(PartialEq, Eq, Structural, Clone, Copy, Debug)]
pub enum ReplCommand {
    /// List the known peers.
    Peers,
    /// List the recipes loaded here.
    Recipes,
    /// List the capabilities of this node.
    Capabilities,
    /// Leave (`quit` or `exit`).
    Quit,
    /// Anything else: show the commands.
    Help,
}

/// The console command a line means (surrounding white space ignored).
pub open spec fn spec_repl_command(line: Seq<char>) -> ReplCommand {
    let t = trim(line);
    if t == "peers"@ {
        ReplCommand::Peers
    } else if t == "recipes"@ {
        ReplCommand::Recipes
    } else if t == "capabilities"@ {
        ReplCommand::Capabilities
    } else if t == "quit"@ || t == "exit"@ {
        ReplCommand::Quit
    } else {
        ReplCommand::Help
    }
}

/// The console command a line means.
pub fn parse_repl_command(line: &str) -> (res: ReplCommand)
    ensures
        res == spec_repl_command(line@),
{
    let cs = chars_of(line);
    let t = string_of(trim_chars(cs.as_slice()).as_slice());
    if t == "peers".to_owned() {
        ReplCommand::Peers
    } else if t == "recipes".to_owned() {
        ReplCommand::Recipes
    } else if t == "capabilities".to_owned() {
        ReplCommand::Capabilities
    } else if t == "quit".to_owned() || t == "exit".to_owned() {
        ReplCommand::Quit
    } else {
        ReplCommand::Help
    }
}

/// The console lines listing `items`, one `  - item` each, or the single
/// line `none` when there are none.
pub open spec fn listing(items: Seq<Seq<char>>, none: Seq<char>) -> Seq<Seq<char>> {
    if items.len() == 0 {
        seq![none]
    } else {
        items.map_values(|x: Seq<char>| "  - "@ + x)
    }
}

fn listing_lines(items: &[String], none: &str) -> (res: Vec<String>)
    ensures
        strings_view(res@) == listing(strings_view(items@), none@),
{
    let mut out: Vec<String> = Vec::new();
    if items.len() == 0 {
        out.push(none.to_string());
        assert(strings_view(out@) =~= listing(strings_view(items@), none@));
        return out;
    }
    let mut i: usize = 0;
    while i < items.len()
        invariant
            i <= items.len(),
            items.len() > 0,
            out@.len() == i,
            forall|k: int| 0 <= k < i ==> (#[trigger] out@[k])@ == "  - "@ + items@[k]@,
        decreases items.len() - i,
    {
        out.push(concat_str("  - ", items[i].as_str()));
        i = i + 1;
    }
    assert(strings_view(out@) =~= listing(strings_view(items@), none@));
    out
}

/// What the console shows for `recipes`: the name of each recipe loaded
/// here, or that none is loaded.
pub fn recipe_lines(state: &GossipState) -> (res: Vec<String>)
    ensures
        strings_view(res@) == listing(
            state@.recipes.map_values(|r: RecipeModel| r.name),
            "Aucune recette chargée."@,
        ),
{
    let names = state.recipes().names();
    assert(strings_view(names@) =~= state@.recipes.map_values(|r: RecipeModel| r.name));
    listing_lines(names.as_slice(), "Aucune recette chargée.")
}

/// What the console shows for `capabilities`: each capability of this node,
/// or that none is declared.
pub fn capability_lines(state: &GossipState) -> (res: Vec<String>)
    ensures
        strings_view(res@) == listing(state@.capabilities, "Aucune capacité déclarée."@),
{
    listing_lines(state.capabilities(), "Aucune capacité déclarée.")
}

/// The text that `{:?}` gives for a list of strings.
pub uninterp spec fn debug_strings(v: Seq<Seq<char>>) -> Seq<char>;

/// `Debug` of a list of strings, by `format!("{:?}", ..)`.
#[verifier::external_body]
fn debug_list(v: &[String]) -> (res: String)
    ensures
        res@ == debug_strings(strings_view(v@)),
{
    format!("{:?}", v)
}

/// The console line of a known peer: its address, version and capabilities.
pub open spec fn peer_line(p: (Seq<char>, PeerInfoModel)) -> Seq<char> {
    "  "@ + p.0 + "  counter="@ + decimal(p.1.version.counter as nat) + " generation="@ + decimal(
        p.1.version.generation as nat,
    ) + " caps="@ + debug_strings(p.1.capabilities)
}

fn decimal_string(n: u32) -> (res: String)
    ensures
        res@ == decimal(n as nat),
{
    string_of(decimal_u128(n as u128).as_slice())
}

/// What the console shows for `peers`: a line for each known peer, or that
/// none is known.
pub fn peer_lines(state: &GossipState) -> (res: Vec<String>)
    ensures
        strings_view(res@) == if state@.peers.len() == 0 {
            seq!["Aucun pair connu."@]
        } else {
            state@.peers.map_values(|p: (Seq<char>, PeerInfoModel)| peer_line(p))
        },
{
    let peers = state.peers();
    let mut out: Vec<String> = Vec::new();
    if peers.len() == 0 {
        out.push("Aucun pair connu.".to_string());
        assert(strings_view(out@) =~= seq!["Aucun pair connu."@]);
        return out;
    }
    let ghost pv = state@.peers;
    let mut i: usize = 0;
    while i < peers.len()
        invariant
            i <= peers.len(),
            pv == crate::server::peers_view(peers@),
            out@.len() == i,
            forall|k: int| 0 <= k < i ==> (#[trigger] out@[k])@ == peer_line(pv[k]),
        decreases peers.len() - i,
    {
        let (addr, info) = &peers[i];
        assert(pv[i as int] == (addr@, info@));
        let a = concat_str("  ", addr.as_str());
        let b = concat_str(a.as_str(), "  counter=");
        let c = concat_str(b.as_str(), decimal_string(info.version.counter).as_str());
        let d = concat_str(c.as_str(), " generation=");
        let e = concat_str(d.as_str(), decimal_string(info.version.generation).as_str());
        let f = concat_str(e.as_str(), " caps=");
        let line = concat_str(f.as_str(), debug_list(info.capabilities.as_slice()).as_str());
        out.push(line);
        i = i + 1;
    }
    assert(strings_view(out@) =~= pv.map_values(|p: (Seq<char>, PeerInfoModel)| peer_line(p)));
    out
}

proof fn lemma_forwarded_ends_in_forward(
    m: GossipStateModel,
    acts: Seq<ActionModel>,
    ts: u64,
    updates: Seq<Json>,
    content: Seq<char>,
)
    ensures
        run_actions(m, acts, ts, updates, content) matches OrderRun::Forwarded { updates: u, .. }
            ==> u.len() > 0 && exists|target: Seq<char>, t: u64| u.last() == update_forward(target, t),
    decreases acts.len(),
{
    if acts.len() > 0 {
        let a = acts[0];
        let t = tick(ts);
        if m.capabilities.contains(a.name) {
            lemma_forwarded_ends_in_forward(
                m,
                acts.drop_first(),
                t,
                updates.push(update_action(a, t)),
                content + content_line(a.name),
            );
        } else {
            let p = first_index(m.peers, offers(a.name));
            if p >= 0 {
                let u = updates.push(update_forward(m.peers[p].0, t));
                assert(u.last() == update_forward(m.peers[p].0, t));
            }
        }
    }
}

/// How an order is answered: a command naming no recipe, or an unknown
/// one, gets a single refusal; an order for a known recipe gets its receipt
/// first (the order identifier under tag 37), and then either a refusal
/// naming the action no node offers, or a report whose last update is the
/// delivery (every action was done here) or the hand-over to a peer.
pub proof fn lemma_order_reply_shape(m: GossipStateModel, msg: Cbor, id: Seq<char>, t0: u64, finished: u64)
    ensures
        ({
            let (frames, completion) = spec_order_reply(m, msg, id, t0, finished);
            &&& frames.len() >= 1
            &&& (spec_recipe_name(msg, "order"@) is None || lookup(
                m.recipes,
                spec_recipe_name(msg, "order"@)->0,
            ) is None) ==> frames.len() == 1 && completion is None && frames[0]->Mapping_0[0].0
                == Cbor::Text("order_declined"@)
            &&& (spec_recipe_name(msg, "order"@) is Some && lookup(
                m.recipes,
                spec_recipe_name(msg, "order"@)->0,
            ) is Some) ==> frames[0] == receipt_item(id) && (completion is None ==> frames.len()
                == 2 && frames[1]->Mapping_0[0].0 == Cbor::Text("order_declined"@))
            &&& completion matches Some((name, report)) ==> {
                &&& name == spec_recipe_name(msg, "order"@)->0
                &&& frames == seq![receipt_item(id)]
                &&& report->Object_0[0].1 == jtagged(37, Json::Str(id))
                &&& report->Object_0[3].1 matches Json::Array(u) && u.len() > 0 && ((exists|t: u64|
                    u.last() == update_deliver(t)) || (exists|target: Seq<char>, t: u64|
                    u.last() == update_forward(target, t)))
            }
        }),
{
    match spec_recipe_name(msg, "order"@) {
        None => {},
        Some(name) => match lookup(m.recipes, name) {
            None => {},
            Some(r) => {
                let run = run_actions(m, flatten_steps(r.steps), t0, seq![], seq![]);
                lemma_forwarded_ends_in_forward(m, flatten_steps(r.steps), t0, seq![], seq![]);
                match run {
                    OrderRun::Finished { updates, content, ts } => {
                        let u = updates.push(update_deliver(tick(ts)));
                        assert(u.last() == update_deliver(tick(ts)));
                    },
                    _ => {},
                }
            },
        },
    }
}

/// The list of recipes holds each recipe name of the node, each as often as
/// it is there, in ascending order.
pub proof fn lemma_recipe_list_sorted(m: GossipStateModel)
    ensures
        vstd::relations::sorted_by(sorted_names(m), lex_le_fn()),
        sorted_names(m).to_multiset() == m.recipes.map_values(|r: RecipeModel| r.name).to_multiset(),
{
    lemma_lex_total_ordering();
    m.recipes.map_values(|r: RecipeModel| r.name).lemma_sort_by_ensures(lex_le_fn());
}

/// The `completed_order` frame of a completion, its report as JSON text:
/// `None` exactly when the report holds a floating-point number, which no
/// report of this node does (see `lemma_reports_float_free`).
pub fn completion_frame(done: &OrderCompletion) -> (res: Option<CborValue>)
    ensures
        res is Some <==> json_float_free(done.report@),
        res matches Some(f) ==> f@ == completed_item(done.recipe_name@, json_text(done.report@)),
{
    match json_string(&done.report) {
        None => None,
        Some(t) => Some(completed_order_frame(done.recipe_name.as_str(), t.as_str())),
    }
}

proof fn lemma_object_float_free(o: Seq<(Seq<char>, Json)>)
    requires
        forall|k: int| #![trigger o[k]] 0 <= k < o.len() ==> json_float_free(o[k].1),
    ensures
        json_float_free(Json::Object(o)),
{
    reveal_with_fuel(json_float_free, 2);
    assert(Json::Object(o) matches Json::Object(t) && t == o);
}

proof fn lemma_array_float_free(s: Seq<Json>)
    requires
        forall|k: int| #![trigger s[k]] 0 <= k < s.len() ==> json_float_free(s[k]),
    ensures
        json_float_free(Json::Array(s)),
{
    reveal_with_fuel(json_float_free, 2);
    assert(Json::Array(s) matches Json::Array(t) && t == s);
}

proof fn lemma_tagged_float_free(tag: int, v: Json)
    requires
        json_float_free(v),
    ensures
        json_float_free(jtagged(tag, v)),
{
    let s = seq![Json::Int(tag), v];
    assert(json_float_free(s[0]));
    lemma_array_float_free(s);
    lemma_object_float_free(seq![("@@TAGGED@@"@, Json::Array(s))]);
}

proof fn lemma_updates_float_free(a: ActionModel, target: Seq<char>, t: u64)
    ensures
        json_float_free(update_action(a, t)),
        json_float_free(update_forward(target, t)),
        json_float_free(update_deliver(t)),
{
    let ps = a.params.map_values(|p: (Seq<char>, Seq<char>)| (p.0, Json::Str(p.1)));
    assert forall|k: int| #![trigger ps[k]] 0 <= k < ps.len() implies json_float_free(ps[k].1) by {
        assert(ps[k].1 == Json::Str(a.params[k].1));
    }
    lemma_object_float_free(ps);
    assert(jparams(a.params) == Json::Object(ps));
    let act = seq![("name"@, Json::Str(a.name)), ("params"@, jparams(a.params))];
    assert(json_float_free(act[0].1) && json_float_free(act[1].1));
    lemma_object_float_free(act);
    let body = seq![("action"@, Json::Object(act)), ("timestamp"@, Json::Int(t as int))];
    assert(json_float_free(body[0].1) && json_float_free(body[1].1));
    lemma_object_float_free(body);
    lemma_object_float_free(seq![("Action"@, Json::Object(body))]);
    lemma_tagged_float_free(260, Json::Str(target));
    let fw = seq![("to"@, jtagged(260, Json::Str(target))), ("timestamp"@, Json::Int(t as int))];
    assert(json_float_free(fw[0].1) && json_float_free(fw[1].1));
    lemma_object_float_free(fw);
    lemma_object_float_free(seq![("Forward"@, Json::Object(fw))]);
    let dl = seq![("timestamp"@, Json::Int(t as int))];
    assert(json_float_free(dl[0].1));
    lemma_object_float_free(dl);
    lemma_object_float_free(seq![("Deliver"@, Json::Object(dl))]);
}

proof fn lemma_run_float_free(
    m: GossipStateModel,
    acts: Seq<ActionModel>,
    ts: u64,
    updates: Seq<Json>,
    content: Seq<char>,
)
    requires
        forall|k: int| #![trigger updates[k]] 0 <= k < updates.len() ==> json_float_free(updates[k]),
    ensures
        match run_actions(m, acts, ts, updates, content) {
            OrderRun::Finished { updates: u, .. } => forall|k: int|
                #![trigger u[k]]
                0 <= k < u.len() ==> json_float_free(u[k]),
            OrderRun::Forwarded { updates: u, .. } => forall|k: int|
                #![trigger u[k]]
                0 <= k < u.len() ==> json_float_free(u[k]),
            _ => true,
        },
    decreases acts.len(),
{
    if acts.len() > 0 {
        let a = acts[0];
        let t = tick(ts);
        if m.capabilities.contains(a.name) {
            lemma_updates_float_free(a, seq![], t);
            let u = updates.push(update_action(a, t));
            assert forall|k: int| #![trigger u[k]] 0 <= k < u.len() implies json_float_free(u[k]) by {
                if k < updates.len() {
                    assert(u[k] == updates[k]);
                }
            }
            lemma_run_float_free(m, acts.drop_first(), t, u, content + content_line(a.name));
        } else {
            let p = first_index(m.peers, offers(a.name));
            if p >= 0 {
                lemma_updates_float_free(a, m.peers[p].0, t);
                let u = updates.push(update_forward(m.peers[p].0, t));
                assert forall|k: int| #![trigger u[k]] 0 <= k < u.len() implies json_float_free(u[k]) by {
                    if k < updates.len() {
                        assert(u[k] == updates[k]);
                    }
                }
            }
        }
    }
}

/// The report of every completed order holds no floating-point number, so
/// that its JSON text can always be written.
pub proof fn lemma_reports_float_free(m: GossipStateModel, msg: Cbor, id: Seq<char>, t0: u64, finished: u64)
    ensures
        spec_order_reply(m, msg, id, t0, finished).1 matches Some((_, r)) ==> json_float_free(r),
{
    match spec_recipe_name(msg, "order"@) {
        None => {},
        Some(name) => match lookup(m.recipes, name) {
            None => {},
            Some(r) => {
                let acts = flatten_steps(r.steps);
                let empty: Seq<Json> = seq![];
                lemma_run_float_free(m, acts, t0, empty, seq![]);
                match run_actions(m, acts, t0, empty, seq![]) {
                    OrderRun::Finished { updates, content, ts } => {
                        let t = tick(ts);
                        lemma_updates_float_free(acts[0], seq![], t);
                        let u = updates.push(update_deliver(t));
                        assert forall|k: int| #![trigger u[k]] 0 <= k < u.len() implies json_float_free(u[k]) by {
                            if k < updates.len() {
                                assert(u[k] == updates[k]);
                            }
                        }
                        lemma_array_float_free(u);
                        lemma_tagged_float_free(37, Json::Str(id));
                        let rep = seq![
                            ("order_id"@, jtagged(37, Json::Str(id))),
                            ("order_timestamp"@, Json::Int(finished as int)),
                            ("content"@, Json::Str(content)),
                            ("updates"@, Json::Array(u)),
                        ];
                        assert(json_float_free(rep[0].1) && json_float_free(rep[1].1) && json_float_free(rep[2].1) && json_float_free(rep[3].1));
                        assert forall|k: int| #![trigger rep[k]] 0 <= k < rep.len() implies json_float_free(rep[k].1) by {}
                        lemma_object_float_free(rep);
                    },
                    OrderRun::Forwarded { updates, content } => {
                        lemma_array_float_free(updates);
                        lemma_tagged_float_free(37, Json::Str(id));
                        let rep = seq![
                            ("order_id"@, jtagged(37, Json::Str(id))),
                            ("order_timestamp"@, Json::Int(finished as int)),
                            ("content"@, Json::Str(content)),
                            ("updates"@, Json::Array(updates)),
                        ];
                        assert(json_float_free(rep[0].1) && json_float_free(rep[1].1) && json_float_free(rep[2].1) && json_float_free(rep[3].1));
                        assert forall|k: int| #![trigger rep[k]] 0 <= k < rep.len() implies json_float_free(rep[k].1) by {}
                        lemma_object_float_free(rep);
                    },
                    _ => {},
                }
            },
        },
    }
}

/// Actions this node offers are done here, whatever its peers offer: when
/// the node offers every action, running them finishes on this node with
/// one `Action` update for each action, in order, after the updates there
/// were, and the content line of each action, in order, after the content
/// there was; nothing is forwarded.
pub proof fn lemma_offered_actions_done_here(
    m: GossipStateModel,
    acts: Seq<ActionModel>,
    ts: u64,
    updates: Seq<Json>,
    content: Seq<char>,
)
    requires
        forall|k: int| 0 <= k < acts.len() ==> m.capabilities.contains(#[trigger] acts[k].name),
    ensures
        run_actions(m, acts, ts, updates, content) matches OrderRun::Finished { updates: u, content: c, .. }
            && u.len() == updates.len() + acts.len() && u.take(updates.len() as int) == updates
            && (forall|k: int|
            0 <= k < acts.len() ==> #[trigger] is_action_update(u[updates.len() + k], acts[k]))
            && c == content + content_lines(acts),
    decreases acts.len(),
{
    if acts.len() > 0 {
        let a = acts[0];
        let t = tick(ts);
        let u1 = updates.push(update_action(a, t));
        let c1 = content + content_line(a.name);
        assert(m.capabilities.contains(acts[0].name));
        assert forall|k: int| 0 <= k < acts.drop_first().len() implies m.capabilities.contains(
            #[trigger] acts.drop_first()[k].name,
        ) by {
            assert(acts.drop_first()[k] == acts[k + 1]);
        }
        lemma_offered_actions_done_here(m, acts.drop_first(), t, u1, c1);
        match run_actions(m, acts.drop_first(), t, u1, c1) {
            OrderRun::Finished { updates: u, content: c, .. } => {
                assert(u.take(updates.len() as int) =~= updates) by {
                    assert(u.take(u1.len() as int) == u1);
                    assert forall|j: int| 0 <= j < updates.len() implies u[j] == updates[j] by {
                        assert(u.take(u1.len() as int)[j] == u1[j]);
                    }
                }
                assert forall|k: int| 0 <= k < acts.len() implies #[trigger] is_action_update(u[updates.len() + k], acts[k]) by {
                    if k == 0 {
                        assert(u.take(u1.len() as int)[updates.len() as int] == u1[updates.len() as int]);
                        assert(u[updates.len() as int] == update_action(acts[0], t));
                        assert(is_action_update(u[updates.len() + k], acts[k]));
                    } else {
                        assert(acts.drop_first()[k - 1] == acts[k]);
                        assert(u1.len() + (k - 1) == updates.len() + k);
                        assert(is_action_update(u[u1.len() + (k - 1)], acts.drop_first()[k - 1]));
                    }
                }
                assert(c1 + content_lines(acts.drop_first()) =~= content + content_lines(acts));
            },
            _ => {},
        }
    } else {
        assert(updates.take(updates.len() as int) =~= updates);
        assert(content + Seq::<char>::empty() =~= content);
    }
}

/// Whether `u` is the `Action` update of `a`, at some time.
pub open spec fn is_action_update(u: Json, a: ActionModel) -> bool {
    exists|t: u64| u == #[trigger] update_action(a, t)
}

/// The content lines of the actions, in order.
pub open spec fn content_lines(acts: Seq<ActionModel>) -> Seq<char>
    decreases acts.len(),
{
    if acts.len() == 0 {
        seq![]
    } else {
        content_line(acts[0].name) + content_lines(acts.drop_first())
    }
}

} // verus!
