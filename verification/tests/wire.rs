//! Frames: what is sent to clients and what is read from them.

use colyseus::error::{codes, ServerError};
use colyseus::json::{Double, Json};
use colyseus::protocol::{
    decode_client_message, error, join_room, leave, ping, room_data, room_data_bytes, room_state,
    room_state_patch, ClientMessage, MessageType,
};
use colyseus::value::parse_json;
use colyseus::wire::{pack, pack_with_bytes, unpack, unpack_with_bytes};
use serde_json::Value;

fn j(text: &str) -> Json {
    parse_json(text).expect("valid JSON")
}

fn field<'a>(v: &'a Json, key: &str) -> &'a Json {
    match v {
        Json::Object(es) => &es.iter().find(|e| e.0 == key).expect("field").1,
        _ => panic!("not an object"),
    }
}

#[test]
fn roundtrip_room_data() {
    let bytes = room_data(&"chat".into(), &j(r#"{"text": "hello"}"#));
    match decode_client_message(&bytes) {
        Some(ClientMessage::Data(t, payload)) => {
            assert_eq!(t.as_str(), Some("chat"));
            assert_eq!(field(&payload, "text"), &j("\"hello\""));
        }
        other => panic!("unexpected: {other:?}"),
    }
}

#[test]
fn roundtrip_bytes() {
    let bytes = room_data_bytes(&7.into(), &[1, 2, 3, 255]);
    match decode_client_message(&bytes) {
        Some(ClientMessage::DataBytes(t, payload)) => {
            assert_eq!(t.as_num(), Some(7));
            assert_eq!(payload, vec![1, 2, 3, 255]);
        }
        other => panic!("unexpected: {other:?}"),
    }
}

#[test]
fn decode_ping_and_leave() {
    assert!(matches!(decode_client_message(&ping()), Some(ClientMessage::Ping)));
    assert!(matches!(decode_client_message(&leave()), Some(ClientMessage::Leave)));
}

#[test]
fn struct_payloads_encode_as_maps() {
    let payload = Json::Object(vec![
        ("from".to_string(), Json::Str("a".into())),
        ("text".to_string(), Json::Str("hi".into())),
    ]);
    let bytes = room_data(&"chat".into(), &payload);
    match decode_client_message(&bytes) {
        Some(ClientMessage::Data(_, payload)) => {
            assert_eq!(field(&payload, "from"), &j("\"a\""));
            assert_eq!(field(&payload, "text"), &j("\"hi\""));
        }
        other => panic!("unexpected: {other:?}"),
    }
}

#[test]
fn encode_join_room() {
    let bytes = join_room("tok", "json-patch", None);
    let v: Value = rmp_serde::from_slice(&bytes).unwrap();
    assert_eq!(v[0], 10);
    assert_eq!(v[1], "tok");
    assert_eq!(v[2], "json-patch");
}

#[test]
fn frames_are_message_pack_arrays() {
    let v: Value = rmp_serde::from_slice(&error(526, "no")).unwrap();
    assert_eq!(v, serde_json::from_str::<Value>(r#"[11, 526, "no"]"#).unwrap());
    let v: Value = rmp_serde::from_slice(&room_state(&j(r#"{"x": 1}"#))).unwrap();
    assert_eq!(v, serde_json::from_str::<Value>(r#"[14, {"x": 1}]"#).unwrap());
    let v: Value = rmp_serde::from_slice(&room_state_patch(&j("[]"))).unwrap();
    assert_eq!(v, serde_json::from_str::<Value>("[15, []]").unwrap());
    assert_eq!(ping(), vec![18]);
}

#[test]
fn junk_is_not_decoded() {
    assert!(decode_client_message(&[]).is_none());
    assert!(decode_client_message(&[0xc1]).is_none());
    assert!(decode_client_message(&pack(&j("[99]"))).is_none());
    assert!(decode_client_message(&pack(&j(r#"{"a": 1}"#))).is_none());
    // a message without a type
    assert!(decode_client_message(&pack(&j("[13]"))).is_none());
}

#[test]
fn message_types_are_texts_or_numbers() {
    assert_eq!(MessageType::from_json(&j("\"a\"")).unwrap().as_str(), Some("a"));
    assert_eq!(MessageType::from_json(&j("-4")).unwrap().as_num(), Some(-4));
    assert!(MessageType::from_json(&j("true")).is_none());
    assert!(MessageType::from_json(&j("1.5")).is_none());
    assert_eq!(MessageType::from("x").to_json(), j("\"x\""));
    assert_eq!(MessageType::from(3u8).to_json(), j("3"));
    assert!(MessageType::from("x").same_as(&MessageType::from("x".to_string())));
    assert!(!MessageType::from(1i64).same_as(&MessageType::from("1")));
}

#[test]
fn values_survive_packing() {
    let v = j(r#"{"a": [1, -2, 2.5, null, true, "é"], "b": {"c": 18446744073709551615}}"#);
    assert_eq!(unpack(&pack(&v)), Some(v));
    assert!(unpack(&[0xc1]).is_none());
    let bytes = pack_with_bytes(17, &j("\"t\""), &[9, 8]);
    let (code, t, payload) = unpack_with_bytes(&bytes).unwrap();
    assert_eq!((code, t, payload), (17, j("\"t\""), vec![9, 8]));
}

#[test]
fn values_convert_both_ways() {
    let v = j(r#"{"a": [1, -2, 2.5, null, true, "x"]}"#);
    assert_eq!(Json::from_value(v.to_value()), v);
    assert_eq!(v.to_value()["a"][2], 2.5);
    assert_eq!(j(&v.text()), v);
    assert_eq!(Json::Float(Double::from_bits(2.5f64.to_bits()).unwrap()).text(), "2.5");
    // no infinities and no NaN
    assert!(Double::from_bits(f64::INFINITY.to_bits()).is_none());
    assert!(Double::from_bits(f64::NAN.to_bits()).is_none());
    assert!(parse_json("{").is_err());
}

#[test]
fn errors_have_codes_and_descriptions() {
    assert_eq!(ServerError::no_handler("x").code, codes::MATCHMAKE_NO_HANDLER);
    assert_eq!(ServerError::room_not_found("x").code, codes::MATCHMAKE_INVALID_ROOM_ID);
    let expired = ServerError::seat_expired();
    assert_eq!(expired.code, codes::MATCHMAKE_EXPIRED);
    assert!(expired.is_seat_reservation_failure());
    assert!(!ServerError::no_handler("x").is_seat_reservation_failure());
    assert!(ServerError::new(526, "boom".to_string()).describe().contains("boom"));
}

#[test]
fn only_the_codes_of_client_frames_are_read() {
    assert!(matches!(decode_client_message(&[0x91, 12]), Some(ClientMessage::Leave)));
    assert!(decode_client_message(&[0x91, 0xcd, 0x01, 0x0c]).is_none()); // [268]
    assert!(decode_client_message(&pack(&j(r#"[269, "chat", 1]"#))).is_none());
    assert!(decode_client_message(&pack(&j(r#"[-12]"#))).is_none());
}

#[test]
fn texts_are_message_types() {
    assert_eq!(MessageType::from("chat").as_str(), Some("chat"));
    assert_eq!(MessageType::from("chat").as_num(), None);
}

#[test]
fn the_name_reserved_for_raw_text_is_not_read_back() {
    let plain = j(r#"{"a": {"$serde_json": 1}}"#);
    assert_eq!(unpack(&pack(&plain)), Some(plain));
    let number = j(r#"{"x": 5}"#);
    let reserved = "$serde_json::private::RawValue".to_string();
    let odd = Json::Object(vec![(reserved.clone(), Json::Uint(5))]);
    assert_eq!(unpack(&pack(&odd)), None);
    let text = Json::Object(vec![(reserved, Json::Str(r#"{"x": 5}"#.to_string()))]);
    assert_eq!(unpack(&pack(&text)), Some(number));
}
