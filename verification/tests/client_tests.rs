use pizza_factory::cbor::CborValue;
use pizza_factory::cli::ClientCommand;
use pizza_factory::client::{
    build_list_recipes, build_order, completed_order_result, extract_order_receipt_id,
    order_id_to_string, order_step, pretty_completed_order, value_to_json, OrderStep,
};
use pizza_factory::json::JsonValue;
use pizza_factory::server::tcp::{completed_order_frame, order_receipt_frame};

fn t(s: &str) -> CborValue {
    CborValue::Text(s.to_string())
}

#[test]
fn json_of_scalars() {
    assert_eq!(value_to_json(&CborValue::Integer(5)), JsonValue::UInt(5));
    assert_eq!(value_to_json(&CborValue::Integer(-5)), JsonValue::NegInt(-5));
    assert_eq!(
        value_to_json(&CborValue::Integer(18446744073709551615)),
        JsonValue::UInt(18446744073709551615)
    );
    assert_eq!(
        value_to_json(&CborValue::Integer(-18446744073709551616)),
        JsonValue::Str("-18446744073709551616".to_string())
    );
    assert_eq!(value_to_json(&CborValue::Float(1.5f64.to_bits())), JsonValue::Float(1.5f64.to_bits()));
    assert_eq!(value_to_json(&CborValue::Float(f64::NAN.to_bits())), JsonValue::Null);
    assert_eq!(value_to_json(&CborValue::Float(f64::INFINITY.to_bits())), JsonValue::Null);
    assert_eq!(value_to_json(&CborValue::Bytes(b"hi".to_vec())), JsonValue::Str("hi".to_string()));
    assert_eq!(
        value_to_json(&CborValue::Bytes(vec![0x61, 0xff])),
        JsonValue::Str("a\u{fffd}".to_string())
    );
    assert_eq!(value_to_json(&CborValue::Bool(true)), JsonValue::Bool(true));
    assert_eq!(value_to_json(&CborValue::Null), JsonValue::Null);
}

#[test]
fn json_of_tags_arrays_and_maps() {
    let v = CborValue::Array(vec![
        CborValue::Tag(37, Box::new(t("x"))),
        CborValue::Mapping(vec![
            (t("a"), CborValue::Integer(1)),
            (CborValue::Integer(2), t("skipped")),
            (t("b"), t("two")),
            (t("a"), CborValue::Integer(3)),
        ]),
    ]);
    let expected = JsonValue::Array(vec![
        JsonValue::Object(vec![(
            "@@TAGGED@@".to_string(),
            JsonValue::Array(vec![JsonValue::UInt(37), JsonValue::Str("x".to_string())]),
        )]),
        JsonValue::Object(vec![
            ("a".to_string(), JsonValue::UInt(3)),
            ("b".to_string(), JsonValue::Str("two".to_string())),
        ]),
    ]);
    assert_eq!(value_to_json(&v), expected);
}

#[test]
fn order_ids() {
    assert_eq!(order_id_to_string(&CborValue::Tag(37, Box::new(t("id")))), Some("id".to_string()));
    assert_eq!(
        order_id_to_string(&CborValue::Tag(37, Box::new(CborValue::Bytes(b"id2".to_vec())))),
        Some("id2".to_string())
    );
    assert_eq!(order_id_to_string(&CborValue::Tag(37, Box::new(CborValue::Bytes(vec![0xff])))), None);
    assert_eq!(order_id_to_string(&CborValue::Tag(38, Box::new(t("id")))), None);
    assert_eq!(order_id_to_string(&t("plain")), Some("plain".to_string()));
    assert_eq!(order_id_to_string(&CborValue::Integer(1)), None);
    assert_eq!(extract_order_receipt_id(&order_receipt_frame("abc")), Some("abc".to_string()));
    assert_eq!(extract_order_receipt_id(&build_order("x")), None);
}

#[test]
fn client_steps() {
    match order_step(&order_receipt_frame("abc")) {
        OrderStep::Receipt(id) => assert_eq!(id, "abc"),
        _ => panic!("expected a receipt"),
    }
    let bare_receipt = CborValue::Mapping(vec![(t("order_receipt"), CborValue::Null)]);
    match order_step(&bare_receipt) {
        OrderStep::Receipt(id) => assert_eq!(id, "?"),
        _ => panic!("expected a receipt"),
    }
    let key_only = |k: &str| CborValue::Mapping(vec![(t(k), CborValue::Null)]);
    assert!(matches!(order_step(&key_only("process_payload")), OrderStep::Wait));
    assert!(matches!(order_step(&key_only("deliver")), OrderStep::Delivered));
    assert!(matches!(order_step(&key_only("failed_order")), OrderStep::Refused));
    assert!(matches!(order_step(&key_only("order_declined")), OrderStep::Refused));
    assert!(matches!(order_step(&key_only("production_error")), OrderStep::Refused));
    match order_step(&key_only("surprise")) {
        OrderStep::Unexpected(k) => assert_eq!(k, "surprise"),
        _ => panic!("expected unexpected"),
    }
    match order_step(&completed_order_frame("R", "{\"a\":1}")) {
        OrderStep::Completed(Some(r)) => assert_eq!(r, "{\"a\":1}"),
        _ => panic!("expected a completion"),
    }
    assert_eq!(completed_order_result(&key_only("completed_order")), None);
    match order_step(&CborValue::Null) {
        OrderStep::Unexpected(k) => assert_eq!(k, ""),
        _ => panic!("expected unexpected"),
    }
}

#[test]
fn client_command_requests() {
    assert_eq!(ClientCommand::Order { recipe: "Minimal".to_string() }.request(), build_order("Minimal"));
    assert_eq!(ClientCommand::ListRecipes.request(), build_list_recipes());
    assert_eq!(
        ClientCommand::GetRecipe { recipe: "M".to_string() }.request(),
        CborValue::Mapping(vec![(t("get_recipe"), CborValue::Mapping(vec![(t("recipe_name"), t("M"))]))])
    );
}

#[test]
fn completed_order_report_is_indented() {
    let msg = completed_order_frame("R", "{\"b\":[1],\"a\":\"x\"}");
    assert_eq!(
        pretty_completed_order(&msg),
        Some("{\n  \"a\": \"x\",\n  \"b\": [\n    1\n  ]\n}".to_string())
    );
    assert_eq!(pretty_completed_order(&completed_order_frame("R", "not json")), None);
    assert_eq!(pretty_completed_order(&build_order("x")), None);
}
