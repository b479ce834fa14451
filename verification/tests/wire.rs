use serde_json::Value;
use syncblaze::wire::{json, PeerInfo, ServerMessage};

fn peer(peer_id: &str, name: &str) -> PeerInfo {
    PeerInfo { peer_id: peer_id.to_string(), name: name.to_string() }
}

fn left(peer_id: &str) -> String {
    json(&ServerMessage::PeerLeft { peer_id: peer_id.to_string() })
}

#[test]
fn joined_lists_all_peers() {
    assert_eq!(json(&ServerMessage::Joined { peers: vec![] }), r#"{"type":"joined","peers":[]}"#);
    assert_eq!(
        json(&ServerMessage::Joined { peers: vec![peer("a", "Ann")] }),
        r#"{"type":"joined","peers":[{"peer_id":"a","name":"Ann"}]}"#
    );
    assert_eq!(
        json(&ServerMessage::Joined { peers: vec![peer("a", "Ann"), peer("b", ""), peer("c", "C")] }),
        r#"{"type":"joined","peers":[{"peer_id":"a","name":"Ann"},{"peer_id":"b","name":""},{"peer_id":"c","name":"C"}]}"#
    );
}

#[test]
fn peer_joined_and_signal_have_their_fields_in_order() {
    assert_eq!(
        json(&ServerMessage::PeerJoined { peer_id: "a".to_string(), name: "Ann".to_string() }),
        r#"{"type":"peerJoined","peer_id":"a","name":"Ann"}"#
    );
    assert_eq!(
        json(&ServerMessage::Signal {
            from_peer_id: "a".to_string(),
            kind: "offer".to_string(),
            data: r#"{"sdp":"v=0\r\n"}"#.to_string(),
        }),
        r#"{"type":"signal","from_peer_id":"a","kind":"offer","data":{"sdp":"v=0\r\n"}}"#
    );
}

#[test]
fn strings_are_escaped() {
    assert_eq!(left("a\"b\\c"), "{\"type\":\"peerLeft\",\"peer_id\":\"a\\\"b\\\\c\"}");
    assert_eq!(
        left("\u{8}\u{c}\n\r\t\u{0}\u{1f}\u{7f}/é😀"),
        "{\"type\":\"peerLeft\",\"peer_id\":\"\\b\\f\\n\\r\\t\\u0000\\u001f\u{7f}/é😀\"}"
    );
}

#[test]
fn every_ascii_character_can_be_read_back() {
    for code in 0u8..128 {
        let id = format!("<{}>", code as char);
        let parsed: Value = serde_json::from_str(&left(&id)).unwrap();
        assert_eq!(parsed["type"], Value::from("peerLeft"));
        assert_eq!(parsed["peer_id"], Value::from(id));
    }
}

#[test]
fn a_name_cannot_end_its_string() {
    let text = json(&ServerMessage::PeerJoined {
        peer_id: "a\",\"name\":\"x".to_string(),
        name: "y".to_string(),
    });
    let parsed: Value = serde_json::from_str(&text).unwrap();
    assert_eq!(parsed["peer_id"], Value::from("a\",\"name\":\"x"));
    assert_eq!(parsed["name"], Value::from("y"));
}

#[test]
fn data_is_passed_on_as_it_is() {
    let data = r#"{"a":[1,2.5,null,true],"b":{"c":"\u0001"}}"#;
    let text = json(&ServerMessage::Signal {
        from_peer_id: "p".to_string(),
        kind: "k".to_string(),
        data: data.to_string(),
    });
    let parsed: Value = serde_json::from_str(&text).unwrap();
    let expected: Value = serde_json::from_str(data).unwrap();
    assert_eq!(parsed["data"], expected);
    assert!(text.contains(data));
}

#[test]
fn different_messages_have_different_texts() {
    let one = json(&ServerMessage::Joined { peers: vec![peer("a", "b\"},{\"peer_id\":\"c")] });
    let two = json(&ServerMessage::Joined { peers: vec![peer("a", "b"), peer("c", "")] });
    assert_ne!(one, two);
    assert_ne!(left("\n"), left("\\n"));
    assert_ne!(left("\u{1}"), left("\\u0001"));
}

#[test]
fn messages_read_back_as_objects_with_their_fields() {
    let text = json(&ServerMessage::Joined { peers: vec![peer("a\\", "Ann\n"), peer("", "\u{1}€")] });
    let parsed: Value = serde_json::from_str(&text).unwrap();
    assert_eq!(parsed["type"], Value::from("joined"));
    assert_eq!(parsed.as_object().unwrap().len(), 2);
    let peers = parsed["peers"].as_array().unwrap();
    assert_eq!(peers.len(), 2);
    assert_eq!(peers[0]["peer_id"], Value::from("a\\"));
    assert_eq!(peers[0]["name"], Value::from("Ann\n"));
    assert_eq!(peers[1]["peer_id"], Value::from(""));
    assert_eq!(peers[1]["name"], Value::from("\u{1}€"));

    let text = json(&ServerMessage::PeerJoined { peer_id: "type".to_string(), name: "}".to_string() });
    let parsed: Value = serde_json::from_str(&text).unwrap();
    assert_eq!(parsed["type"], Value::from("peerJoined"));
    assert_eq!(parsed["peer_id"], Value::from("type"));
    assert_eq!(parsed["name"], Value::from("}"));
    assert_eq!(parsed.as_object().unwrap().len(), 3);

    for data in ["null", "true", "-12.5e+2", "\"}\"", "[[],{}]", "{\"type\":\"joined\"}"] {
        let text = json(&ServerMessage::Signal {
            from_peer_id: "p".to_string(),
            kind: "k".to_string(),
            data: data.to_string(),
        });
        let parsed: Value = serde_json::from_str(&text).unwrap();
        let expected: Value = serde_json::from_str(data).unwrap();
        assert_eq!(parsed["type"], Value::from("signal"));
        assert_eq!(parsed["data"], expected);
    }
}
