use syncblaze::relay::{broadcast_except, handle_socket, Connection, Delivery, RelayState, SocketEvent};
use syncblaze::wire::ClientMessage;

fn join(code: &str, peer_id: &str, name: &str) -> SocketEvent {
    SocketEvent::Text(Some(ClientMessage::Join {
        code: code.to_string(),
        peer_id: peer_id.to_string(),
        name: name.to_string(),
    }))
}

fn signal(code: &str, target: Option<&str>, kind: &str, data: &str) -> SocketEvent {
    SocketEvent::Text(Some(ClientMessage::Signal {
        code: code.to_string(),
        target_peer_id: target.map(|t| t.to_string()),
        kind: kind.to_string(),
        data: data.to_string(),
    }))
}

fn plain(deliveries: Vec<Delivery>) -> Vec<(u64, String)> {
    deliveries.into_iter().map(|d| (d.to, d.text)).collect()
}

fn expect(deliveries: Vec<Delivery>, expected: &[(u64, &str)]) {
    let expected: Vec<(u64, String)> = expected.iter().map(|(to, text)| (*to, text.to_string())).collect();
    assert_eq!(plain(deliveries), expected);
}

/// Three clients in the group `K`, on the connections 1, 2 and 3.
fn three() -> (RelayState, Connection, Connection, Connection) {
    let mut state = RelayState::default();
    let mut a = Connection::new(1);
    let mut b = Connection::new(2);
    let mut c = Connection::new(3);
    handle_socket(&mut a, &mut state, join("K", "a", "Ann"));
    handle_socket(&mut b, &mut state, join("K", "b", "Bob"));
    handle_socket(&mut c, &mut state, join("K", "c", "Cy"));
    (state, a, b, c)
}

#[test]
fn first_join_finds_nobody() {
    let mut state = RelayState::default();
    let mut a = Connection::new(7);
    let sent = handle_socket(&mut a, &mut state, join("ABC", "p1", "Ann"));
    expect(sent, &[(7, r#"{"type":"joined","peers":[]}"#)]);
    assert_eq!(a.joined, Some(("ABC".to_string(), "p1".to_string())));
}

#[test]
fn second_join_is_announced_to_the_first() {
    let mut state = RelayState::default();
    let mut a = Connection::new(1);
    let mut b = Connection::new(2);
    handle_socket(&mut a, &mut state, join("ABC", "p1", "Ann"));
    let sent = handle_socket(&mut b, &mut state, join("ABC", "p2", "Bob"));
    expect(
        sent,
        &[
            (2, r#"{"type":"joined","peers":[{"peer_id":"p1","name":"Ann"}]}"#),
            (1, r#"{"type":"peerJoined","peer_id":"p2","name":"Bob"}"#),
        ],
    );
}

#[test]
fn groups_do_not_see_each_other() {
    let mut state = RelayState::default();
    let mut a = Connection::new(1);
    let mut b = Connection::new(2);
    handle_socket(&mut a, &mut state, join("ABC", "p1", "Ann"));
    let sent = handle_socket(&mut b, &mut state, join("XYZ", "p2", "Bob"));
    expect(sent, &[(2, r#"{"type":"joined","peers":[]}"#)]);
    let sent = handle_socket(&mut b, &mut state, signal("XYZ", None, "k", "1"));
    expect(sent, &[]);
    let sent = handle_socket(&mut b, &mut state, signal("XYZ", Some("p1"), "k", "1"));
    expect(sent, &[]);
}

#[test]
fn broadcast_reaches_all_others_once() {
    let (mut state, _a, mut b, _c) = three();
    let sent = handle_socket(&mut b, &mut state, signal("K", None, "offer", r#"{"sdp":"x"}"#));
    let text = r#"{"type":"signal","from_peer_id":"b","kind":"offer","data":{"sdp":"x"}}"#;
    expect(sent, &[(1, text), (3, text)]);
}

#[test]
fn directed_signal_reaches_its_target_only() {
    let (mut state, mut a, _b, _c) = three();
    let sent = handle_socket(&mut a, &mut state, signal("K", Some("c"), "ice", "null"));
    expect(sent, &[(3, r#"{"type":"signal","from_peer_id":"a","kind":"ice","data":null}"#)]);
    let sent = handle_socket(&mut a, &mut state, signal("K", Some("nobody"), "ice", "null"));
    expect(sent, &[]);
    let sent = handle_socket(&mut a, &mut state, signal("elsewhere", Some("c"), "ice", "null"));
    expect(sent, &[]);
}

#[test]
fn signal_into_a_group_not_joined_is_dropped() {
    let (mut state, _a, _b, _c) = three();
    let mut d = Connection::new(4);
    handle_socket(&mut d, &mut state, join("L", "d", "Dee"));
    expect(handle_socket(&mut d, &mut state, signal("K", None, "k", "[]")), &[]);
    expect(handle_socket(&mut d, &mut state, signal("K", Some("a"), "k", "[]")), &[]);
    assert!(d.is_under(&"L".to_string()));
    assert!(!d.is_under(&"K".to_string()));
}

#[test]
fn signal_goes_to_the_joined_group_that_it_names() {
    let (mut state, _a, _b, _c) = three();
    let mut d = Connection::new(4);
    let mut e = Connection::new(5);
    handle_socket(&mut d, &mut state, join("K", "d", "Dee"));
    handle_socket(&mut d, &mut state, join("L", "d", "Dee"));
    handle_socket(&mut d, &mut state, join("L", "d", "Dee"));
    handle_socket(&mut e, &mut state, join("L", "e", "Eve"));
    assert!(d.is_under(&"K".to_string()) && d.is_under(&"L".to_string()));
    let text = r#"{"type":"signal","from_peer_id":"d","kind":"k","data":[]}"#;
    let sent = handle_socket(&mut d, &mut state, signal("K", None, "k", "[]"));
    expect(sent, &[(1, text), (2, text), (3, text)]);
    let sent = handle_socket(&mut d, &mut state, signal("L", None, "k", "[]"));
    expect(sent, &[(5, text)]);
    expect(handle_socket(&mut e, &mut state, signal("K", None, "k", "[]")), &[]);
    expect(handle_socket(&mut d, &mut state, SocketEvent::Closed), &[(5, r#"{"type":"peerLeft","peer_id":"d"}"#)]);
    expect(handle_socket(&mut d, &mut state, signal("L", None, "k", "[]")), &[]);
    expect(handle_socket(&mut d, &mut state, signal("K", None, "k", "[]")), &[]);
}

#[test]
fn clients_read_the_value_that_was_signalled() {
    let (mut state, mut a, _b, _c) = three();
    let data = r#" {"sdp":"\ud83d\ude00","n":[1e3,-0.5,{}]} "#;
    let sent = plain(handle_socket(&mut a, &mut state, signal("K", Some("b"), "offer\"", data)));
    assert_eq!(sent.len(), 1);
    assert_eq!(sent[0].0, 2);
    let read: serde_json::Value = serde_json::from_str(&sent[0].1).unwrap();
    let expected: serde_json::Value = serde_json::from_str(data).unwrap();
    assert_eq!(read["type"], serde_json::Value::from("signal"));
    assert_eq!(read["from_peer_id"], serde_json::Value::from("a"));
    assert_eq!(read["kind"], serde_json::Value::from("offer\""));
    assert_eq!(read["data"], expected);
    assert_eq!(read.as_object().unwrap().len(), 4);
}

#[test]
fn signal_before_join_is_dropped() {
    let (mut state, _a, _b, _c) = three();
    let mut d = Connection::new(4);
    let sent = handle_socket(&mut d, &mut state, signal("K", None, "k", "1"));
    expect(sent, &[]);
    assert_eq!(d.joined, None);
}

#[test]
fn unreadable_and_binary_messages_are_dropped() {
    let (mut state, mut a, _b, _c) = three();
    expect(handle_socket(&mut a, &mut state, SocketEvent::Text(None)), &[]);
    expect(handle_socket(&mut a, &mut state, SocketEvent::NonText), &[]);
    assert_eq!(a.joined, Some(("K".to_string(), "a".to_string())));
}

#[test]
fn departure_is_announced_to_those_left() {
    let (mut state, mut a, mut b, mut c) = three();
    let text = r#"{"type":"peerLeft","peer_id":"b"}"#;
    expect(handle_socket(&mut b, &mut state, SocketEvent::Closed), &[(1, text), (3, text)]);
    expect(handle_socket(&mut a, &mut state, signal("K", Some("b"), "k", "1")), &[]);
    expect(handle_socket(&mut b, &mut state, SocketEvent::Closed), &[]);
    let text = r#"{"type":"peerLeft","peer_id":"a"}"#;
    expect(handle_socket(&mut a, &mut state, SocketEvent::Closed), &[(3, text)]);
    expect(handle_socket(&mut c, &mut state, SocketEvent::Closed), &[]);
    let mut d = Connection::new(9);
    let sent = handle_socket(&mut d, &mut state, join("K", "d", "Dee"));
    expect(sent, &[(9, r#"{"type":"joined","peers":[]}"#)]);
}

#[test]
fn closing_without_a_join_does_nothing() {
    let (mut state, _a, _b, _c) = three();
    let mut d = Connection::new(4);
    expect(handle_socket(&mut d, &mut state, SocketEvent::Closed), &[]);
}

#[test]
fn same_peer_id_takes_the_place_of_the_old_connection() {
    let (mut state, mut a, _b, _c) = three();
    let mut again = Connection::new(8);
    let sent = handle_socket(&mut again, &mut state, join("K", "b", "Bobby"));
    let text = r#"{"type":"peerJoined","peer_id":"b","name":"Bobby"}"#;
    expect(
        sent,
        &[
            (
                8,
                r#"{"type":"joined","peers":[{"peer_id":"a","name":"Ann"},{"peer_id":"b","name":"Bob"},{"peer_id":"c","name":"Cy"}]}"#,
            ),
            (1, text),
            (3, text),
        ],
    );
    let sent = handle_socket(&mut a, &mut state, signal("K", Some("b"), "k", "1"));
    expect(sent, &[(8, r#"{"type":"signal","from_peer_id":"a","kind":"k","data":1}"#)]);
}

#[test]
fn joining_elsewhere_keeps_the_first_membership() {
    let (mut state, mut a, mut b, _c) = three();
    handle_socket(&mut a, &mut state, join("L", "a", "Ann"));
    let sent = handle_socket(&mut b, &mut state, signal("K", Some("a"), "k", "1"));
    expect(sent, &[(1, r#"{"type":"signal","from_peer_id":"b","kind":"k","data":1}"#)]);
    expect(handle_socket(&mut a, &mut state, SocketEvent::Closed), &[]);
    let sent = handle_socket(&mut b, &mut state, signal("K", Some("a"), "k", "1"));
    expect(sent, &[(1, r#"{"type":"signal","from_peer_id":"b","kind":"k","data":1}"#)]);
}

#[test]
fn a_signal_may_name_its_own_sender() {
    let (mut state, mut a, _b, _c) = three();
    let sent = handle_socket(&mut a, &mut state, signal("K", Some("a"), "k", "1"));
    expect(sent, &[(1, r#"{"type":"signal","from_peer_id":"a","kind":"k","data":1}"#)]);
}

#[test]
fn broadcast_except_skips_one_member() {
    let (state, _a, _b, _c) = three();
    expect(broadcast_except(&state, "K", "a", "hello"), &[(2, "hello"), (3, "hello")]);
    expect(
        broadcast_except(&state, "K", "stranger", "hello"),
        &[(1, "hello"), (2, "hello"), (3, "hello")],
    );
    expect(broadcast_except(&state, "none", "a", "hello"), &[]);
}

#[test]
fn join_and_leave_restore_the_group() {
    let (mut state, _a, _b, _c) = three();
    let k = "K".to_string();
    let d = "d".to_string();
    let told = plain(state.join(4, &k, &d, &"Dee".to_string()));
    let left = plain(state.leave(&k, &d));
    let told: Vec<u64> = told.iter().skip(1).map(|(to, _)| *to).collect();
    let heard: Vec<u64> = left.iter().map(|(to, _)| *to).collect();
    assert_eq!(told, heard);
    expect(broadcast_except(&state, "K", "", "x"), &[(1, "x"), (2, "x"), (3, "x")]);
}

#[test]
fn leaving_a_group_that_is_not_there_does_nothing() {
    let (mut state, _a, _b, _c) = three();
    expect(state.leave(&"none".to_string(), &"a".to_string()), &[]);
    expect(broadcast_except(&state, "K", "", "x"), &[(1, "x"), (2, "x"), (3, "x")]);
}
