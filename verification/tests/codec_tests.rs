use p2p_signaling::codec::decode_client_message;
use p2p_signaling::codec::decode_server_message;
use p2p_signaling::codec::encode_client_message;
use p2p_signaling::codec::encode_server_message;
use p2p_signaling::messages::ClientAnswer;
use p2p_signaling::messages::ClientMessage;
use p2p_signaling::messages::ClientOffer;
use p2p_signaling::messages::ServerAnswer;
use p2p_signaling::messages::ServerMessage;
use p2p_signaling::messages::ServerOffer;
use p2p_signaling::messages::ID;

fn client_offer(to: &str, sdp: &str) -> ClientMessage {
    ClientMessage::Offer(ClientOffer { to: to.to_string(), sdp: sdp.to_string() })
}

fn client_answer(to: &str, sdp: &str) -> ClientMessage {
    ClientMessage::Answer(ClientAnswer { to: to.to_string(), sdp: sdp.to_string() })
}

#[test]
fn encode_get_my_id_exact() {
    assert_eq!(encode_client_message(&ClientMessage::GetMyID), "{\"type\":\"GetMyID\"}");
}

#[test]
fn encode_client_offer_exact() {
    assert_eq!(
        encode_client_message(&client_offer("B", "O1")),
        "{\"type\":\"Offer\",\"to\":\"B\",\"sdp\":\"O1\"}"
    );
}

#[test]
fn encode_client_answer_exact() {
    assert_eq!(
        encode_client_message(&client_answer("A", "R1")),
        "{\"type\":\"Answer\",\"to\":\"A\",\"sdp\":\"R1\"}"
    );
}

#[test]
fn encode_server_offer_exact() {
    let m = ServerMessage::Offer(ServerOffer {
        from: "A".to_string(),
        to: "B".to_string(),
        sdp: "O1".to_string(),
    });
    assert_eq!(
        encode_server_message(&m),
        "{\"type\":\"Offer\",\"from\":\"A\",\"to\":\"B\",\"sdp\":\"O1\"}"
    );
}

#[test]
fn encode_server_id_exact() {
    let m = ServerMessage::ID(ID { id: "abc-123".to_string() });
    assert_eq!(encode_server_message(&m), "{\"type\":\"ID\",\"id\":\"abc-123\"}");
}

#[test]
fn escape_forms_exact() {
    let m = client_offer("p", "a\"b\\c\nd\re\tf\u{1}g");
    assert_eq!(
        encode_client_message(&m),
        "{\"type\":\"Offer\",\"to\":\"p\",\"sdp\":\"a\\\"b\\\\c\\nd\\re\\tf\\u0001g\"}"
    );
}

#[test]
fn round_trip_client_messages() {
    let cases = vec![
        ClientMessage::GetMyID,
        client_offer("peer-1", "v=0\r\no=- 46117 2 IN IP4 127.0.0.1\r\n"),
        client_answer("peer-2", "sdp with \"quotes\" and \\backslashes\\"),
        client_offer("", ""),
        client_offer("a\u{1f}b", "\u{0}\u{7}\u{b}\u{c}"),
    ];
    for m in cases {
        let text = encode_client_message(&m);
        assert_eq!(decode_client_message(&text), Some(m));
    }
}

#[test]
fn round_trip_server_messages() {
    let cases = vec![
        ServerMessage::ID(ID { id: "0b9af1e2".to_string() }),
        ServerMessage::Offer(ServerOffer {
            from: "A".to_string(),
            to: "B".to_string(),
            sdp: "line1\r\nline2\r\n".to_string(),
        }),
        ServerMessage::Answer(ServerAnswer {
            from: "B".to_string(),
            to: "A".to_string(),
            sdp: "\ttabbed\t".to_string(),
        }),
    ];
    for m in cases {
        let text = encode_server_message(&m);
        assert_eq!(decode_server_message(&text), Some(m));
    }
}

#[test]
fn decode_rejects_malformed() {
    let bad = vec![
        "",
        "{",
        "not json at all",
        "{\"type\":\"GetMyID\"",
        "{\"type\":\"GetMyID\"} ",
        "{\"type\":\"Nonsense\"}",
        "{\"type\":\"Offer\",\"to\":\"B\"}",
        "{\"type\":\"Offer\",\"sdp\":\"x\",\"to\":\"B\"}",
        "{\"type\":\"Offer\",\"to\":\"B\",\"sdp\":\"x\"}trailing",
        "{\"type\":\"Offer\",\"to\":\"B\",\"sdp\":\"x\\q\"}",
        "{\"type\":\"Offer\",\"to\":\"B\",\"sdp\":\"x\u{1}\"}",
        "{\"type\":\"Offer\",\"to\":\"B\",\"sdp\":\"x\\u001G\"}",
        "{\"type\":\"Offer\",\"to\":\"B\",\"sdp\":\"x\\u0041\"}",
    ];
    for text in bad {
        assert_eq!(decode_client_message(text), None, "should reject {:?}", text);
    }
}

#[test]
fn decode_rejects_escapes_outside_canon() {
    // The named escapes are canonical for their characters: the \u
    // forms of tab, newline and carriage return are rejected, as are
    // uppercase hex digits.
    assert_eq!(decode_client_message("{\"type\":\"Offer\",\"to\":\"B\",\"sdp\":\"\\u0009\"}"), None);
    assert_eq!(decode_client_message("{\"type\":\"Offer\",\"to\":\"B\",\"sdp\":\"\\u000A\"}"), None);
    assert_eq!(decode_client_message("{\"type\":\"Offer\",\"to\":\"B\",\"sdp\":\"\\u000d\"}"), None);
    assert_eq!(decode_client_message("{\"type\":\"Offer\",\"to\":\"B\",\"sdp\":\"\\u001F\"}"), None);
}

#[test]
fn decode_server_rejects_client_shapes() {
    assert_eq!(decode_server_message("{\"type\":\"GetMyID\"}"), None);
    assert_eq!(decode_server_message("{\"type\":\"Offer\",\"to\":\"B\",\"sdp\":\"x\"}"), None);
    assert_eq!(decode_client_message("{\"type\":\"ID\",\"id\":\"x\"}"), None);
}

#[test]
fn envelope_is_valid_json() {
    let m = client_offer("peer \"quoted\"", "v=0\r\no=-\n\ttab\u{2}ctl");
    let text = encode_client_message(&m);
    let v: serde_json::Value = serde_json::from_str(&text).expect("canonical envelope parses as JSON");
    assert_eq!(v.get("type").and_then(|t| t.as_str()), Some("Offer"));
    assert_eq!(v.get("to").and_then(|t| t.as_str()), Some("peer \"quoted\""));
    assert_eq!(v.get("sdp").and_then(|t| t.as_str()), Some("v=0\r\no=-\n\ttab\u{2}ctl"));
}

#[test]
fn envelope_matches_serde_field_values() {
    let m = ServerMessage::Answer(ServerAnswer {
        from: "f-1".to_string(),
        to: "t-1".to_string(),
        sdp: "a\\b\"c".to_string(),
    });
    let text = encode_server_message(&m);
    let v: serde_json::Value = serde_json::from_str(&text).expect("valid JSON");
    assert_eq!(v.get("from").and_then(|t| t.as_str()), Some("f-1"));
    assert_eq!(v.get("to").and_then(|t| t.as_str()), Some("t-1"));
    assert_eq!(v.get("sdp").and_then(|t| t.as_str()), Some("a\\b\"c"));
}
