use pizza_factory::cbor::CborValue;
use pizza_factory::protocol::{GossipDecodeError, GossipMessage, GossipPayload, PeerInfo, Version};
use pizza_factory::recipe::parse_recipes;
use pizza_factory::server::udp::{begin_ping_round, on_gossip_at, ping_targets};
use pizza_factory::server::tcp::{capability_lines, peer_lines, recipe_lines};
use pizza_factory::server::{millis_u32, now_ms, GossipState};

fn t(s: &str) -> CborValue {
    CborValue::Text(s.to_string())
}

fn state() -> GossipState {
    let book = parse_recipes("Margherita = MakeDough -> Bake\n\nMinimal = MakeDough").unwrap();
    GossipState::new(
        "127.0.0.1:8000".to_string(),
        42,
        book,
        vec!["MakeDough".to_string(), "Bake".to_string()],
    )
}

fn info(counter: u32, generation: u32, caps: &[&str]) -> PeerInfo {
    PeerInfo {
        version: Version { counter, generation },
        capabilities: caps.iter().map(|c| c.to_string()).collect(),
        recipes: vec![],
    }
}

#[test]
fn new_state_starts_at_counter_one() {
    let s = state();
    assert_eq!(s.version(), Version { counter: 1, generation: 42 });
    assert!(s.peer_addrs().is_empty());
}

#[test]
fn update_peer_new_then_newer_then_older() {
    let mut s = state();
    assert!(s.update_peer("10.0.0.1:1".to_string(), info(3, 5, &["AddCheese"])));
    assert_eq!(s.version().counter, 2);
    assert!(!s.update_peer("10.0.0.1:1".to_string(), info(2, 5, &["Other"])));
    assert_eq!(s.peers()[0].1.capabilities, vec!["AddCheese".to_string()]);
    assert!(!s.update_peer("10.0.0.1:1".to_string(), info(0, 6, &["Other"])));
    assert_eq!(s.peers()[0].1.capabilities, vec!["Other".to_string()]);
    assert_eq!(s.peers()[0].1.version, Version { counter: 0, generation: 6 });
    assert_eq!(s.version().counter, 2);
    assert!(!s.update_peer("10.0.0.1:1".to_string(), info(0, 6, &["Third"])));
    assert_eq!(s.peers()[0].1.capabilities, vec!["Other".to_string()]);
}

#[test]
fn find_peer_with_capability_first_that_offers() {
    let mut s = state();
    s.update_peer("a:1".to_string(), info(1, 1, &["X"]));
    s.update_peer("b:2".to_string(), info(1, 1, &["Y", "Z"]));
    assert_eq!(s.find_peer_with_capability(&"Z".to_string()), Some("b:2".to_string()));
    assert_eq!(s.find_peer_with_capability(&"Q".to_string()), None);
    assert!(s.has_capability(&"Bake".to_string()));
    assert!(!s.has_capability(&"X".to_string()));
}

#[test]
fn bootstrap_peer_does_not_bump_version() {
    let mut s = state();
    s.add_bootstrap_peer("127.0.0.1:8001".to_string());
    s.add_bootstrap_peer("127.0.0.1:8001".to_string());
    s.add_bootstrap_peer("127.0.0.1:8000".to_string());
    assert_eq!(s.peer_addrs(), vec!["127.0.0.1:8001".to_string(), "127.0.0.1:8000".to_string()]);
    assert_eq!(s.version().counter, 1);
    assert_eq!(ping_targets(&s), vec!["127.0.0.1:8001".to_string()]);
}

#[test]
fn announce_reads_back() {
    let mut s = state();
    s.add_bootstrap_peer("127.0.0.1:8001".to_string());
    let p = s.make_announce_payload();
    assert_eq!(p.version(), Some(Version { counter: 1, generation: 42 }));
    assert_eq!(p.body_version(), Some(Version { counter: 1, generation: 42 }));
    assert_eq!(p.capabilities(), Some(vec!["MakeDough".to_string(), "Bake".to_string()]));
    assert_eq!(p.recipes(), Some(vec!["Margherita".to_string(), "Minimal".to_string()]));
    let msg = GossipMessage::Announce(p);
    let wire = msg.encode();
    match GossipMessage::decode(wire) {
        Ok(GossipMessage::Announce(q)) => assert_eq!(q.version(), Some(Version { counter: 1, generation: 42 })),
        _ => panic!("expected an announce"),
    }
}

#[test]
fn ping_payload_exact_and_body_version() {
    let s = state();
    let p = s.ping_pong_payload_at(1_700_000_000, 123_456_789);
    let expected = CborValue::Mapping(vec![
        (
            t("last_seen"),
            CborValue::Tag(
                1001,
                Box::new(CborValue::Mapping(vec![
                    (CborValue::Integer(-6), CborValue::Integer(1_700_000_000_123)),
                    (CborValue::Integer(1), CborValue::Integer(1_700_000_000)),
                ])),
            ),
        ),
        (
            t("version"),
            CborValue::Mapping(vec![
                (t("counter"), CborValue::Integer(1)),
                (t("generation"), CborValue::Integer(42)),
            ]),
        ),
    ]);
    assert_eq!(p.0, expected);
    assert_eq!(p.version(), None);
    let wire = GossipMessage::Ping(p).encode();
    match GossipMessage::decode(wire) {
        Ok(GossipMessage::Ping(q)) => assert_eq!(q.body_version(), Some(Version { counter: 1, generation: 42 })),
        _ => panic!("expected a ping"),
    }
}

#[test]
fn decode_errors() {
    assert_eq!(GossipMessage::decode(t("x")).err(), Some(GossipDecodeError::NotAMap));
    assert_eq!(GossipMessage::decode(CborValue::Mapping(vec![])).err(), Some(GossipDecodeError::EmptyMap));
    assert_eq!(
        GossipMessage::decode(CborValue::Mapping(vec![(t("Hello"), CborValue::Null)])).err(),
        Some(GossipDecodeError::UnknownKind)
    );
}

#[test]
fn version_needs_u32_values() {
    let payload = GossipPayload(CborValue::Mapping(vec![(
        t("Announce"),
        CborValue::Mapping(vec![(
            t("version"),
            CborValue::Mapping(vec![
                (t("counter"), CborValue::Integer(-1)),
                (t("counter"), CborValue::Integer(7)),
                (t("generation"), CborValue::Integer(4294967296)),
            ]),
        )]),
    )]));
    assert_eq!(payload.version(), None);
    assert_eq!(payload.capabilities(), None);
}

#[test]
fn gossip_reaction_ping_gets_pong_and_new_peer_announce() {
    let mut s = state();
    let mut other = GossipState::new("10.0.0.2:9".to_string(), 7, parse_recipes("").unwrap(), vec!["AddCheese".to_string()]);
    other.add_bootstrap_peer("127.0.0.1:8000".to_string());
    let announce = GossipMessage::Announce(other.make_announce_payload());
    let r = on_gossip_at(&mut s, "10.0.0.2:9".to_string(), &announce, 1, 0);
    assert!(r.announce);
    assert!(r.pong.is_none());
    assert_eq!(s.version().counter, 2);
    assert_eq!(s.peers()[0].1.capabilities, vec!["AddCheese".to_string()]);
    let ping = GossipMessage::Ping(other.ping_pong_payload_at(1, 0));
    let ping_value = GossipMessage::decode(ping.encode()).ok().unwrap();
    let r = on_gossip_at(&mut s, "10.0.0.2:9".to_string(), &ping_value, 2, 5_000_000);
    assert!(!r.announce);
    let pong = r.pong.unwrap();
    match GossipMessage::decode(pong) {
        Ok(GossipMessage::Pong(q)) => assert_eq!(q.body_version(), Some(Version { counter: 2, generation: 42 })),
        _ => panic!("expected a pong"),
    }
    assert_eq!(s.peers()[0].1.capabilities, vec!["AddCheese".to_string()]);
}

#[test]
fn millis_truncate_to_u32() {
    assert_eq!(millis_u32(1, 2_000_000), 1002);
    assert_eq!(millis_u32(4_294_968, 0), (4_294_968_000u64 % 4_294_967_296) as u32);
    let _ = now_ms();
}

#[test]
fn ping_round_raises_counter_once() {
    let mut s = state();
    assert!(begin_ping_round(&mut s).is_empty());
    assert_eq!(s.version(), Version { counter: 1, generation: 42 });
    s.add_bootstrap_peer("127.0.0.1:8001".to_string());
    s.add_bootstrap_peer("127.0.0.1:8000".to_string());
    assert_eq!(begin_ping_round(&mut s), vec!["127.0.0.1:8001".to_string()]);
    assert_eq!(s.version(), Version { counter: 2, generation: 42 });
    begin_ping_round(&mut s);
    assert_eq!(s.version(), Version { counter: 3, generation: 42 });
    let p = s.make_ping_pong_payload();
    let wire = GossipMessage::Ping(p).encode();
    match GossipMessage::decode(wire) {
        Ok(GossipMessage::Ping(q)) => assert_eq!(q.body_version(), Some(Version { counter: 3, generation: 42 })),
        _ => panic!("expected a ping"),
    }
}

#[test]
fn announce_version_from_first_announce_map() {
    let mut s = state();
    let version = CborValue::Mapping(vec![
        (t("counter"), CborValue::Integer(9)),
        (t("generation"), CborValue::Integer(3)),
    ]);
    let payload = GossipPayload(CborValue::Mapping(vec![
        (t("Announce"), CborValue::Null),
        (t("Announce"), CborValue::Mapping(vec![(t("version"), version)])),
    ]));
    assert_eq!(payload.body_version(), None);
    assert_eq!(payload.version(), Some(Version { counter: 9, generation: 3 }));
    let msg = GossipMessage::Announce(payload);
    on_gossip_at(&mut s, "10.0.0.3:1".to_string(), &msg, 1, 0);
    assert_eq!(s.peers()[0].1.version, Version { counter: 9, generation: 3 });
}

#[test]
fn same_update_twice_changes_nothing() {
    let mut s = state();
    assert!(s.update_peer("a:1".to_string(), info(4, 2, &["X"])));
    let before = s.version();
    assert!(!s.update_peer("a:1".to_string(), info(4, 2, &["X"])));
    assert_eq!(s.version(), before);
    assert_eq!(s.peers().len(), 1);
    assert_eq!(s.peers()[0].1.version, Version { counter: 4, generation: 2 });
}

#[test]
fn console_listings() {
    let s = state();
    assert_eq!(recipe_lines(&s), vec!["  - Margherita".to_string(), "  - Minimal".to_string()]);
    assert_eq!(capability_lines(&s), vec!["  - MakeDough".to_string(), "  - Bake".to_string()]);
    let empty = GossipState::new("x:1".to_string(), 1, parse_recipes("").unwrap(), vec![]);
    assert_eq!(recipe_lines(&empty), vec!["Aucune recette chargée.".to_string()]);
    assert_eq!(capability_lines(&empty), vec!["Aucune capacité déclarée.".to_string()]);
}

#[test]
fn gossip_bytes_round_trip() {
    let s = state();
    let msg = GossipMessage::Announce(s.make_announce_payload());
    let bytes = msg.encode_bytes().unwrap();
    match GossipMessage::decode_bytes(&bytes) {
        Ok(GossipMessage::Announce(q)) => {
            assert_eq!(q.version(), Some(Version { counter: 1, generation: 42 }));
            assert_eq!(q.0, msg.encode());
        }
        _ => panic!("expected an announce"),
    }
    assert!(GossipMessage::decode_bytes(&[0xff, 0x00]).err().unwrap().starts_with("CBOR decode: "));
    let ping = GossipMessage::Ping(GossipPayload(CborValue::Float(0)));
    let bytes = ping.encode_bytes().unwrap();
    assert_eq!(bytes, vec![0xa1, 0x64, b'P', b'i', b'n', b'g', 0xf9, 0, 0]);
    match GossipMessage::decode_bytes(&bytes) {
        Ok(GossipMessage::Ping(q)) => assert_eq!(q.0, ping.encode()),
        _ => panic!("expected a ping"),
    }
    let big = GossipMessage::Ping(GossipPayload(CborValue::Integer(1i128 << 64)));
    assert!(big.encode_bytes().is_none());
}

#[test]
fn console_peer_lines() {
    let mut s = state();
    assert_eq!(peer_lines(&s), vec!["Aucun pair connu.".to_string()]);
    s.update_peer("a:1".to_string(), info(3, 17, &["X", "Y\"z"]));
    assert_eq!(
        peer_lines(&s),
        vec!["  a:1  counter=3 generation=17 caps=[\"X\", \"Y\\\"z\"]".to_string()]
    );
}

#[test]
fn decode_bytes_error_texts() {
    // the text "x"
    assert_eq!(GossipMessage::decode_bytes(&[0x61, b'x']).err(), Some("attendu une map, reçu : Text(\"x\")".to_string()));
    assert_eq!(GossipMessage::decode_bytes(&[0xa0]).err(), Some("map vide".to_string()));
    // {1: null}
    assert_eq!(
        GossipMessage::decode_bytes(&[0xa1, 0x01, 0xf6]).err(),
        Some("Type inconnu : Integer(Integer(1))".to_string())
    );
    assert_eq!(GossipDecodeError::NotAMap, GossipDecodeError::NotAMap);
}
