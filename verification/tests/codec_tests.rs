use garbage_bot::codec::{
    decode_get_updates, decode_send_message, encode_get_updates_response, encode_request_body,
    encode_send_message_response, method_name,
};
use garbage_bot::telegram::{Chat, Message, ResponseContainer, TelegramError, TelegramRequest, Update};

fn chars(s: &str) -> Vec<char> {
    s.chars().collect()
}

fn text_of(v: &[char]) -> String {
    v.iter().collect()
}

fn message(text: &str, id: u64) -> Message {
    Message {
        text: text.to_owned(),
        chat: Chat {
            id,
            first_name: "Ada".to_owned(),
            last_name: "L".to_owned(),
            chat_type: "private".to_owned(),
        },
    }
}

#[test]
fn a_small_response_encodes_to_the_exact_wire_text() {
    let resp = ResponseContainer {
        ok: true,
        result: vec![Update { update_id: 1, message: message("hi", 42) }],
    };
    let out = encode_get_updates_response(&resp);
    assert_eq!(
        text_of(&out),
        "{\"ok\":true,\"result\":[{\"update_id\":1,\"message\":{\"text\":\"hi\",\"chat\":{\"id\":42,\"first_name\":\"Ada\",\"last_name\":\"L\",\"type\":\"private\"}}}]}"
    );
}

#[test]
fn an_empty_response_encodes_and_decodes() {
    let resp: ResponseContainer<Vec<Update>> = ResponseContainer { ok: false, result: vec![] };
    let out = encode_get_updates_response(&resp);
    assert_eq!(text_of(&out), "{\"ok\":false,\"result\":[]}");
    let back = decode_get_updates(&out).unwrap();
    assert_eq!(back, resp);
}

#[test]
fn encoding_then_decoding_returns_the_same_updates_in_order() {
    let resp = ResponseContainer {
        ok: true,
        result: vec![
            Update { update_id: 7, message: message("first", 1) },
            Update { update_id: 9, message: message("second", 2) },
            Update { update_id: -3, message: message("third", 3) },
        ],
    };
    let encoded = encode_get_updates_response(&resp);
    let decoded = decode_get_updates(&encoded).unwrap();
    assert_eq!(decoded, resp);
}

#[test]
fn escaped_text_survives_the_round_trip() {
    let tricky = "a \"quoted\" line\nwith\ttabs, a \\ backslash and a bell \u{0007}";
    let resp = ResponseContainer {
        ok: true,
        result: vec![Update { update_id: 1, message: message(tricky, 5) }],
    };
    let encoded = encode_get_updates_response(&resp);
    let decoded = decode_get_updates(&encoded).unwrap();
    assert_eq!(decoded.result[0].message.text, tricky);
}

#[test]
fn a_hand_written_response_decodes_to_the_expected_values() {
    let wire = chars(
        "{\"ok\":true,\"result\":[{\"update_id\":12,\"message\":{\"text\":\"hello\\u0021\",\"chat\":{\"id\":9,\"first_name\":\"Bob\",\"last_name\":\"K\",\"type\":\"private\"}}}]}",
    );
    let decoded = decode_get_updates(&wire).unwrap();
    assert!(decoded.ok);
    assert_eq!(decoded.result.len(), 1);
    assert_eq!(decoded.result[0].update_id, 12);
    assert_eq!(decoded.result[0].message.text, "hello!");
    assert_eq!(decoded.result[0].message.chat.id, 9);
}

#[test]
fn malformed_text_is_a_decode_error() {
    for bad in [
        "",
        "{\"ok\":true}",
        "{\"ok\":yes,\"result\":[]}",
        "{\"ok\":true,\"result\":[}",
        "{\"ok\":true,\"result\":[]}trailing",
        "{\"ok\":true,\"result\":[{\"update_id\":1}]}",
    ] {
        let r = decode_get_updates(&chars(bad));
        assert!(matches!(r, Err(TelegramError::JsonError { .. })), "accepted: {bad}");
    }
}

#[test]
fn extreme_identifiers_survive_the_round_trip() {
    let resp = ResponseContainer {
        ok: true,
        result: vec![
            Update { update_id: i64::MAX - 1, message: message("big", u64::MAX) },
            Update { update_id: i64::MIN, message: message("small", 0) },
        ],
    };
    let encoded = encode_get_updates_response(&resp);
    let decoded = decode_get_updates(&encoded).unwrap();
    assert_eq!(decoded, resp);
}

#[test]
fn a_number_too_large_for_its_field_is_a_decode_error() {
    let wire = chars(
        "{\"ok\":true,\"result\":[{\"update_id\":1,\"message\":{\"text\":\"x\",\"chat\":{\"id\":99999999999999999999,\"first_name\":\"A\",\"last_name\":\"B\",\"type\":\"c\"}}}]}",
    );
    assert!(matches!(decode_get_updates(&wire), Err(TelegramError::JsonError { .. })));
}

#[test]
fn a_send_message_response_round_trips() {
    let resp = ResponseContainer { ok: true, result: message("done", 42) };
    let encoded = encode_send_message_response(&resp);
    let decoded = decode_send_message(&encoded).unwrap();
    assert_eq!(decoded, resp);
}

#[test]
fn requests_encode_to_their_fixed_bodies() {
    let poll = TelegramRequest::Updates { offset: None, limit: Some(1), timeout: 60 };
    assert_eq!(
        text_of(&encode_request_body(&poll).unwrap()),
        "{\"offset\":null,\"limit\":1,\"timeout\":60}"
    );
    let poll_at = TelegramRequest::Updates { offset: Some(8), limit: Some(1), timeout: 60 };
    assert_eq!(
        text_of(&encode_request_body(&poll_at).unwrap()),
        "{\"offset\":8,\"limit\":1,\"timeout\":60}"
    );
    let send = TelegramRequest::SendMessage { chat_id: 42, text: "hi".to_owned() };
    assert_eq!(
        text_of(&encode_request_body(&send).unwrap()),
        "{\"chat_id\":42,\"text\":\"hi\"}"
    );
    assert!(encode_request_body(&TelegramRequest::Me).is_none());
}

#[test]
fn each_request_selects_its_method() {
    assert_eq!(method_name(&TelegramRequest::Me), "getMe");
    assert_eq!(
        method_name(&TelegramRequest::Updates { offset: None, limit: None, timeout: 60 }),
        "getUpdates"
    );
    assert_eq!(
        method_name(&TelegramRequest::SendMessage { chat_id: 1, text: String::new() }),
        "sendMessage"
    );
}
