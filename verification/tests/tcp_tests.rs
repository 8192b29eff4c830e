use pizza_factory::cbor::CborValue;
use pizza_factory::client::{build_get_recipe, build_list_recipes, build_order};
use pizza_factory::json::JsonValue;
use pizza_factory::protocol::{PeerInfo, Version};
use pizza_factory::recipe::parse_recipes;
use pizza_factory::server::tcp::{
    completed_order_frame, content_line_for_action, handle_order_at, now_us, order_declined_frame,
    order_receipt_frame, parse_recipe_name_get, parse_recipe_name_order, parse_repl_command,
    recipe_list_frame, respond, respond_at, completion_frame, OrderCompletion, ReplCommand,
};
use pizza_factory::json_text::json_string;
use pizza_factory::server::GossipState;

fn t(s: &str) -> CborValue {
    CborValue::Text(s.to_string())
}

fn js(s: &str) -> JsonValue {
    JsonValue::Str(s.to_string())
}

fn obj(entries: Vec<(&str, JsonValue)>) -> JsonValue {
    JsonValue::Object(entries.into_iter().map(|(k, v)| (k.to_string(), v)).collect())
}

fn tagged(tag: u64, v: JsonValue) -> JsonValue {
    obj(vec![("@@TAGGED@@", JsonValue::Array(vec![JsonValue::UInt(tag), v]))])
}

fn node(caps: &[&str]) -> GossipState {
    let book = parse_recipes(
        "Margherita = MakeDough -> AddBase(base_type=tomato) -> AddOliveOil\n\nAlpha = Bake\n\nBasic = MakeDough -> Fry",
    )
    .unwrap();
    GossipState::new("127.0.0.1:8000".to_string(), 1, book, caps.iter().map(|c| c.to_string()).collect())
}

const ID: &str = "0b1c2d3e-4f50-4a6b-8c7d-8e9fa0b1c2d3";

#[test]
fn content_lines() {
    assert_eq!(content_line_for_action("MakeDough"), "Dough: ready\n");
    assert_eq!(content_line_for_action("AddOliveOil"), "Olive Oil drizzled\n");
    assert_eq!(content_line_for_action("Bake"), "Bake: done\n");
}

#[test]
fn recipe_names_from_commands() {
    assert_eq!(parse_recipe_name_order(&build_order("Minimal")), Some("Minimal".to_string()));
    assert_eq!(parse_recipe_name_get(&build_get_recipe("Minimal")), Some("Minimal".to_string()));
    assert_eq!(parse_recipe_name_order(&build_get_recipe("Minimal")), None);
    assert_eq!(parse_recipe_name_get(&build_list_recipes()), None);
}

#[test]
fn frames_have_expected_shape() {
    assert_eq!(
        order_receipt_frame("abc"),
        CborValue::Mapping(vec![(
            t("order_receipt"),
            CborValue::Mapping(vec![(t("order_id"), CborValue::Tag(37, Box::new(t("abc"))))]),
        )])
    );
    assert_eq!(
        order_declined_frame("no"),
        CborValue::Mapping(vec![(t("order_declined"), CborValue::Mapping(vec![(t("message"), t("no"))]))])
    );
    assert_eq!(
        completed_order_frame("R", "{}"),
        CborValue::Mapping(vec![(
            t("completed_order"),
            CborValue::Mapping(vec![(t("recipe_name"), t("R")), (t("result"), t("{}"))]),
        )])
    );
}

#[test]
fn order_done_locally_is_delivered() {
    let s = node(&["MakeDough", "AddBase", "AddOliveOil"]);
    let r = handle_order_at(&s, &build_order("Margherita"), &ID.to_string(), 1000, 5000);
    assert_eq!(r.frames, vec![order_receipt_frame(ID)]);
    let c = r.completion.unwrap();
    assert_eq!(c.recipe_name, "Margherita");
    let action = |name: &str, params: Vec<(&str, JsonValue)>, ts: u64| {
        obj(vec![(
            "Action",
            obj(vec![
                ("action", obj(vec![("name", js(name)), ("params", obj(params))])),
                ("timestamp", JsonValue::UInt(ts)),
            ]),
        )])
    };
    let expected = obj(vec![
        ("order_id", tagged(37, js(ID))),
        ("order_timestamp", JsonValue::UInt(5000)),
        ("content", js("Dough: ready\nAddBase: done\nOlive Oil drizzled\n")),
        (
            "updates",
            JsonValue::Array(vec![
                action("MakeDough", vec![], 1050),
                action("AddBase", vec![("base_type", js("tomato"))], 1100),
                action("AddOliveOil", vec![], 1150),
                obj(vec![("Deliver", obj(vec![("timestamp", JsonValue::UInt(1200))]))]),
            ]),
        ),
    ]);
    assert_eq!(c.report, expected);
}

#[test]
fn order_forwarded_to_capable_peer() {
    let mut s = node(&["MakeDough"]);
    s.update_peer(
        "127.0.0.1:8001".to_string(),
        PeerInfo { version: Version { counter: 1, generation: 1 }, capabilities: vec!["AddBase".to_string()], recipes: vec![] },
    );
    let r = handle_order_at(&s, &build_order("Margherita"), &ID.to_string(), u64::MAX - 60, 9);
    let c = r.completion.unwrap();
    match c.report {
        JsonValue::Object(entries) => {
            assert_eq!(entries[2], ("content".to_string(), js("Dough: ready\n")));
            let forward = obj(vec![(
                "Forward",
                obj(vec![("to", tagged(260, js("127.0.0.1:8001"))), ("timestamp", JsonValue::UInt(39))]),
            )]);
            match &entries[3].1 {
                JsonValue::Array(u) => {
                    assert_eq!(u.len(), 2);
                    assert_eq!(u[1], forward);
                }
                _ => panic!("updates should be an array"),
            }
        }
        _ => panic!("report should be an object"),
    }
}

#[test]
fn order_without_any_capable_node_is_declined_after_receipt() {
    let s = node(&["MakeDough"]);
    let r = handle_order_at(&s, &build_order("Basic"), &ID.to_string(), 0, 0);
    assert!(r.completion.is_none());
    assert_eq!(r.frames, vec![order_receipt_frame(ID), order_declined_frame("no peer for action: Fry")]);
}

#[test]
fn order_unknown_or_invalid() {
    let s = node(&[]);
    let r = handle_order_at(&s, &build_order("Pepperoni"), &ID.to_string(), 0, 0);
    assert_eq!(r.frames, vec![order_declined_frame("unknown recipe: Pepperoni")]);
    let bad = CborValue::Mapping(vec![(t("order"), t("Margherita"))]);
    let r = handle_order_at(&s, &bad, &ID.to_string(), 0, 0);
    assert_eq!(r.frames, vec![order_declined_frame("invalid order")]);
}

#[test]
fn list_recipes_sorted() {
    let s = node(&[]);
    let item = |n: &str| CborValue::Mapping(vec![(t("name"), t(n))]);
    assert_eq!(
        recipe_list_frame(&s),
        CborValue::Mapping(vec![(
            t("recipe_list_answer"),
            CborValue::Mapping(vec![(
                t("recipes"),
                CborValue::Array(vec![item("Alpha"), item("Basic"), item("Margherita")]),
            )]),
        )])
    );
}

#[test]
fn dispatch_on_command_key() {
    let s = node(&[]);
    let r = respond_at(&s, &build_get_recipe("Basic"), &ID.to_string(), 0, 0);
    assert_eq!(
        r.frames,
        vec![CborValue::Mapping(vec![(
            t("recipe_answer"),
            CborValue::Mapping(vec![(
                t("recipe"),
                CborValue::Mapping(vec![(t("name"), t("Basic")), (t("formula"), t("MakeDough -> Fry"))]),
            )]),
        )])]
    );
    let r = respond_at(&s, &build_get_recipe("Nope"), &ID.to_string(), 0, 0);
    assert_eq!(r.frames, vec![order_declined_frame("unknown recipe: Nope")]);
    let r = respond_at(&s, &CborValue::Mapping(vec![(t("get_recipe"), CborValue::Null)]), &ID.to_string(), 0, 0);
    assert_eq!(r.frames, vec![order_declined_frame("invalid get_recipe")]);
    let r = respond_at(&s, &build_list_recipes(), &ID.to_string(), 0, 0);
    assert_eq!(r.frames, vec![recipe_list_frame(&s)]);
    let r = respond_at(&s, &CborValue::Mapping(vec![(t("dance"), CborValue::Null)]), &ID.to_string(), 0, 0);
    assert_eq!(r.frames, vec![order_declined_frame("unsupported: dance")]);
    let r = respond_at(&s, &CborValue::Integer(3), &ID.to_string(), 0, 0);
    assert_eq!(r.frames, vec![order_declined_frame("invalid message")]);
}

#[test]
fn respond_order_gets_uuid_receipt() {
    let s = node(&["MakeDough", "Fry"]);
    let r = respond(&s, &build_order("Basic"));
    assert!(r.completion.is_some());
    match &r.frames[0] {
        CborValue::Mapping(m) => match &m[0].1 {
            CborValue::Mapping(inner) => match &inner[0].1 {
                CborValue::Tag(37, id) => match &**id {
                    CborValue::Text(s) => {
                        assert_eq!(s.len(), 36);
                        assert_eq!(s.as_bytes()[14], b'4');
                    }
                    _ => panic!("id should be text"),
                },
                _ => panic!("id should be tagged 37"),
            },
            _ => panic!("receipt should be a map"),
        },
        _ => panic!("frame should be a map"),
    }
    assert!(now_us() > 0);
}

#[test]
fn repl_commands() {
    assert_eq!(parse_repl_command(" peers\n"), ReplCommand::Peers);
    assert_eq!(parse_repl_command("recipes"), ReplCommand::Recipes);
    assert_eq!(parse_repl_command("capabilities\r\n"), ReplCommand::Capabilities);
    assert_eq!(parse_repl_command("quit"), ReplCommand::Quit);
    assert_eq!(parse_repl_command("exit\n"), ReplCommand::Quit);
    assert_eq!(parse_repl_command("help"), ReplCommand::Help);
}

#[test]
fn completion_frame_carries_compact_json() {
    let report = obj(vec![
        ("order_id", tagged(37, js("x"))),
        ("order_timestamp", JsonValue::UInt(5)),
        ("updates", JsonValue::Array(vec![JsonValue::NegInt(-2), JsonValue::Null, JsonValue::Bool(true)])),
    ]);
    let done = OrderCompletion { recipe_name: "R".to_string(), report };
    assert_eq!(
        completion_frame(&done),
        Some(completed_order_frame(
            "R",
            "{\"order_id\":{\"@@TAGGED@@\":[37,\"x\"]},\"order_timestamp\":5,\"updates\":[-2,null,true]}"
        ))
    );
    let with_float = OrderCompletion { recipe_name: "R".to_string(), report: JsonValue::Float(0) };
    assert_eq!(completion_frame(&with_float), None);
    assert_eq!(json_string(&obj(vec![("b", js("1")), ("a", js("2"))])), Some("{\"a\":\"2\",\"b\":\"1\"}".to_string()));
}
