//! Rooms from the first reservation to the last snapshot, with the times and the
//! answers of the hooks given.

use colyseus::actor::{ConnectStep, LeaveStep, MessageStep};
use colyseus::client::{Client, ClientState, Outbound, SendOptions};
use colyseus::context::find_client;
use colyseus::error::{close_codes, codes, ServerError};
use colyseus::events::{AuthContext, EventStep, RoomActor, RoomEvent};
use colyseus::json::Json;
use colyseus::lifecycle::FinalWrite;
use colyseus::protocol::{decode_client_message, room_data, ClientMessage, MessageType};
use colyseus::room::{BroadcastOptions, RoomContext, RoomEventLog};
use colyseus::snapshot::{decode_snapshot, encode_snapshot, PersistenceConfig};
use colyseus::state::StateEdit;
use colyseus::utils::{
    generate_id, instant_to_wallclock_ms, now_wallclock_ms, wallclock_ms_to_instant, Clock,
};
use colyseus::value::parse_json;
use serde_json::Value;

fn j(text: &str) -> Json {
    parse_json(text).expect("valid JSON")
}

fn room() -> RoomContext {
    RoomContext::new(
        "r1".to_string(),
        "game".to_string(),
        "p1".to_string(),
        1000,
        vec![],
        None,
        0,
    )
}

/// The frames that wait for a session's transport, decoded.
fn frames(ctx: &mut RoomContext, session_id: &str) -> Vec<Value> {
    let i = find_client(&ctx.clients, session_id).expect("client");
    take_frames(&mut ctx.clients[i])
}

fn take_frames(client: &mut Client) -> Vec<Value> {
    let out: Vec<Outbound> = std::mem::take(&mut client.outbox);
    out.iter()
        .filter_map(|o| match o {
            Outbound::Bytes(b) => Some(rmp_serde::from_slice::<Value>(b).expect("a frame")),
            Outbound::Close(_, _) => None,
        })
        .collect()
}

fn reserve(ctx: &mut RoomContext, session_id: &str, now: u64) -> Result<(), ServerError> {
    ctx.reserve_begin()?;
    ctx.reserve_finish(session_id, j("{}"), Ok(None), now)
}

/// Reserves a seat, connects and joins; the room's `on_join` says yes.
fn join(ctx: &mut RoomContext, session_id: &str, token: &str, now: u64) {
    reserve(ctx, session_id, now).unwrap();
    let client = Client::new(format!("conn-{session_id}"), session_id.to_string(), now);
    assert!(matches!(ctx.connect_begin(client, None), ConnectStep::Join(_, _)));
    ctx.join_finish(session_id, Ok(()), token.to_string(), &Json::Null).unwrap();
}

fn data(t: &str, payload: &str) -> ClientMessage {
    decode_client_message(&room_data(&MessageType::from(t), &j(payload))).expect("a message")
}

#[test]
fn join_chat_and_broadcast() {
    let mut ctx = room();
    ctx.set_max_clients(Some(2));
    join(&mut ctx, "s1", "t1", 0);
    join(&mut ctx, "s2", "t2", 0);
    // join handshakes: [10, token, serializerId]
    let h1 = frames(&mut ctx, "s1");
    assert_eq!(h1[0][0], 10);
    assert_eq!(h1[0][1], "t1");
    assert_eq!(h1[0][2], "none"); // no state
    assert_eq!(frames(&mut ctx, "s2")[0][0], 10);

    // s1 sends a chat message; both receive the broadcast
    let step = ctx.message_begin("s1", "conn-s1", data("chat", r#"{"text": "hello"}"#), 5);
    match step {
        MessageStep::Dispatch(t, payload) => {
            assert_eq!(t.as_str(), Some("chat"));
            ctx.broadcast(&t, &payload);
        }
        other => panic!("unexpected: {other:?}"),
    }
    for sid in ["s1", "s2"] {
        let got = frames(&mut ctx, sid);
        assert_eq!(got.len(), 1);
        assert_eq!(got[0][0], 13);
        assert_eq!(got[0][1], "chat");
        assert_eq!(got[0][2]["text"], "hello");
    }

    // a full room gives out no third seat
    assert!(ctx.has_reached_max_clients());
    let err = ctx.reserve_begin().unwrap_err();
    assert_eq!(err.code, codes::MATCHMAKE_EXPIRED);
}

#[test]
fn state_sync_full_and_patch() {
    let mut ctx = room();
    ctx.set_state(j(r#"{"count": 0}"#));
    join(&mut ctx, "s1", "t1", 0);
    let got = frames(&mut ctx, "s1");
    assert_eq!(got[0][0], 10);
    assert_eq!(got[0][2], "json-patch");
    // full state: [14, {count: 0}]
    assert_eq!(got[1][0], 14);
    assert_eq!(got[1][1]["count"], 0);

    // mutate and expect a JSON-Patch: [15, [{op: replace, path: /count, value: 5}]]
    assert!(!ctx.broadcast_patch(&vec![]));
    ctx.update_state(j(r#"{"count": 5}"#));
    assert!(ctx.broadcast_patch(&vec![]));
    let patch = frames(&mut ctx, "s1");
    assert_eq!(patch.len(), 1);
    assert_eq!(patch[0][0], 15);
    let ops = patch[0][1].as_array().unwrap();
    assert!(
        ops.iter().any(|op| op["path"] == "/count" && op["value"] == 5),
        "unexpected patch: {ops:?}"
    );
    assert!(!ctx.broadcast_patch(&vec![]));
}

#[test]
fn reconnect_after_drop() {
    let mut ctx = room();
    ctx.set_state(j(r#"{"count": 3}"#));
    join(&mut ctx, "s1", "t1", 0);
    // the connection drops, and the room allows a reconnection
    assert_eq!(ctx.leave_begin("s1", 1006, false), LeaveStep::Drop);
    assert!(ctx.allow_reconnection("s1", Some(30000), 100));
    assert_eq!(ctx.leave_settle("s1", close_codes::ABNORMAL_CLOSURE), LeaveStep::Done);
    assert_eq!(ctx.check_reconnection("t1").as_deref(), Some("s1"));

    let back = Client::new("conn-2".to_string(), "s1".to_string(), 200);
    assert!(matches!(ctx.connect_begin(back, Some("t1")), ConnectStep::Reconnect));
    ctx.send_to("s1", &MessageType::from("reconnected"), &j(r#"{"ok": true}"#));
    ctx.reconnect_finish("s1", "t2".to_string(), &Json::Null);
    let got = frames(&mut ctx, "s1");
    assert_eq!(got[0][0], 10);
    assert_eq!(got[0][1], "t2");
    // fresh full state includes the earlier changes
    assert_eq!(got[1][1]["count"], 3);
    assert_eq!(got[2][1], "reconnected");
    // the token is used up, and the old connection is not heard any more
    assert!(ctx.check_reconnection("t1").is_none());
    assert!(matches!(
        ctx.message_begin("s1", "conn-s1", data("x", "{}"), 300),
        MessageStep::Done
    ));
    assert!(!ctx.is_current("s1", "conn-s1"));
    assert!(ctx.is_current("s1", "conn-2"));
}

#[test]
fn binary_messages_and_ping() {
    let mut ctx = room();
    join(&mut ctx, "s1", "t1", 0);
    ctx.clients[0].outbox.clear();
    // app-level ping, pong (single byte 18)
    let ping = decode_client_message(&[18]).unwrap();
    assert!(matches!(ctx.message_begin("s1", "conn-s1", ping, 1), MessageStep::Done));
    match &ctx.clients[0].outbox[0] {
        Outbound::Bytes(b) => assert_eq!(b, &vec![18]),
        other => panic!("unexpected: {other:?}"),
    }
    // a ping of a connection that has no client
    let ping = decode_client_message(&[18]).unwrap();
    assert!(matches!(ctx.message_begin("s9", "c", ping, 1), MessageStep::Pong));
    // binary messages
    ctx.broadcast_bytes(&MessageType::from(3i64), &[7, 8]);
    let bytes = match &ctx.clients[0].outbox[1] {
        Outbound::Bytes(b) => b.clone(),
        other => panic!("unexpected: {other:?}"),
    };
    match decode_client_message(&bytes) {
        Some(ClientMessage::DataBytes(t, b)) => {
            assert_eq!(t.as_num(), Some(3));
            assert_eq!(b, vec![7, 8]);
        }
        other => panic!("unexpected: {other:?}"),
    }
}

#[test]
fn messages_sent_during_on_join_are_delivered() {
    let mut ctx = room();
    reserve(&mut ctx, "s1", 0).unwrap();
    let client = Client::new("c1".to_string(), "s1".to_string(), 0);
    assert!(matches!(ctx.connect_begin(client, None), ConnectStep::Join(_, _)));
    ctx.send_to(
        "s1",
        &MessageType::from("history"),
        &j(r#"[{"text": "old-1"}, {"text": "old-2"}]"#),
    );
    ctx.send_to("s1", &MessageType::from("welcome"), &j(r#"{"hi": true}"#));
    assert!(ctx.clients[0].outbox.is_empty());
    ctx.join_finish("s1", Ok(()), "t1".to_string(), &Json::Null).unwrap();
    let got = frames(&mut ctx, "s1");
    assert_eq!(got[0][0], 10);
    // both messages queued during on_join arrive right after the handshake
    assert_eq!(got[1][0], 13);
    assert_eq!(got[1][1], "history");
    assert_eq!(got[1][2][0]["text"], "old-1");
    assert_eq!(got[2][1], "welcome");
}

#[test]
fn admin_state_edit_broadcasts_patch() {
    let mut ctx = room();
    ctx.set_state(j(r#"{"count": 0}"#));
    join(&mut ctx, "s1", "t1", 0);
    frames(&mut ctx, "s1");
    let mut actor = RoomActor::new(ctx, 0, 0);

    // valid edit: number into number field
    let edit = RoomEvent::EditState(vec!["count".to_string()], StateEdit::Put(j("42")));
    let edited = match actor.handle_event(edit, 1) {
        EventStep::Edit(Ok(v)) => v,
        other => panic!("unexpected: {other:?}"),
    };
    assert_eq!(edited, j(r#"{"count": 42}"#));
    actor.ctx.edit_finish(Ok(edited)).unwrap();

    // the edit reaches the connected client as a live patch
    assert!(actor.ctx.broadcast_patch(&vec![]));
    let patch = frames(&mut actor.ctx, "s1");
    assert_eq!(patch[0][0], 15);
    assert!(patch[0][1]
        .as_array()
        .unwrap()
        .iter()
        .any(|op| op["path"] == "/count" && op["value"] == 42));

    // an edit that the state's type does not take is rejected
    assert!(actor.ctx.edit_finish(Err("invalid type: string".to_string())).is_err());
    assert!(!actor.ctx.broadcast_patch(&vec![]));
    // and so is one in a room without state
    let mut actor = RoomActor::new(room(), 0, 0);
    match actor.handle_event(RoomEvent::EditState(vec![], StateEdit::Remove), 1) {
        EventStep::Edit(Err(e)) => assert_eq!(e, "room has no state"),
        other => panic!("unexpected: {other:?}"),
    }
}

#[test]
fn view_filter_sends_per_client_state() {
    let mut ctx = room();
    ctx.set_state(j(r#"{"round": 0, "secrets": {"s1": "a", "s2": "b"}}"#));
    ctx.set_view_filter();
    let view = |round: u32, secret: &str| {
        j(&format!("{{\"round\": {round}, \"my_secret\": \"{secret}\", \"players\": 2}}"))
    };
    for (sid, secret) in [("s1", "a"), ("s2", "b")] {
        reserve(&mut ctx, sid, 0).unwrap();
        let client = Client::new(format!("conn-{sid}"), sid.to_string(), 0);
        ctx.connect_begin(client, None);
        ctx.join_finish(sid, Ok(()), format!("t-{sid}"), &view(0, secret)).unwrap();
    }
    // full states: each client only sees their own secret
    let full1 = frames(&mut ctx, "s1");
    assert_eq!(full1[1][0], 14);
    assert_eq!(full1[1][1]["my_secret"], "a");
    assert!(full1[1][1].get("secrets").is_none(), "leaked full state: {full1:?}");
    let full2 = frames(&mut ctx, "s2");
    assert_eq!(full2[1][1]["my_secret"], "b");
    assert_eq!(full2[1][1]["players"], 2);

    // a new round: both get patches, neither sees the other's secret
    assert!(ctx.broadcast_patch(&vec![view(1, "a"), view(1, "b")]));
    for sid in ["s1", "s2"] {
        let p = frames(&mut ctx, sid);
        assert_eq!(p.len(), 1);
        assert_eq!(p[0][0], 15);
        let ops = p[0][1].as_array().unwrap();
        assert_eq!(ops.len(), 1);
        assert_eq!(ops[0]["path"], "/round");
        assert_eq!(ops[0]["value"], 1);
    }
    assert!(!ctx.broadcast_patch(&vec![view(1, "a"), view(1, "b")]));
}

#[test]
fn persistence_restores_state_and_internal_across_restart() {
    let mut ctx = room();
    ctx.persistence = Some(PersistenceConfig::new());
    ctx.set_state(j(r#"{"count": 7}"#));
    ctx.set_internal(j(r#"{"secret_value": 8}"#));
    ctx.set_metadata(j(r#"{"mode": "ranked"}"#));
    ctx.lock();
    join_locked_out(&mut ctx);
    let bytes = match ctx.dispose_begin(close_codes::SERVER_SHUTDOWN, 500, 9000) {
        Some(FinalWrite::Save(s)) => encode_snapshot(&s),
        other => panic!("unexpected: {other:?}"),
    };
    assert!(ctx.dispose_begin(close_codes::SERVER_SHUTDOWN, 500, 9000).is_none());

    let snapshot = decode_snapshot(&bytes).unwrap();
    let mut again = room();
    again.apply_snapshot(&snapshot, 10_000_000, 10, 9600);
    again.restore_state(&snapshot);
    again.restore_internal(&snapshot);
    assert_eq!(again.full_state_for(&Json::Null), Some(j(r#"{"count": 7}"#)));
    assert_eq!(again.internal, Some(j(r#"{"secret_value": 8}"#)));
    assert_eq!(again.metadata(), Some(&j(r#"{"mode": "ranked"}"#)));
    assert!(again.is_locked());
}

fn join_locked_out(ctx: &mut RoomContext) {
    assert_eq!(reserve(ctx, "s1", 0).unwrap_err().code, codes::MATCHMAKE_EXPIRED);
}

#[test]
fn persistence_preserves_reconnection_token_across_restart() {
    let mut ctx = room();
    ctx.persistence = Some(PersistenceConfig::new());
    ctx.set_state(j(r#"{"count": 5}"#));
    join(&mut ctx, "s1", "t1", 0);
    ctx.clients[0].set_user_data(j(r#"{"team": "red"}"#));
    let snapshot = match ctx.dispose_begin(close_codes::SERVER_SHUTDOWN, 500, 9000) {
        Some(FinalWrite::Save(s)) => decode_snapshot(&encode_snapshot(&s)).unwrap(),
        other => panic!("unexpected: {other:?}"),
    };

    let mut again = room();
    again.apply_snapshot(&snapshot, 0, 0, 9600);
    again.restore_state(&snapshot);
    // the persisted token is still valid after the restart
    assert_eq!(again.check_reconnection("t1").as_deref(), Some("s1"));
    let back = Client::new("conn-2".to_string(), "s1".to_string(), 10);
    assert!(matches!(again.connect_begin(back, Some("t1")), ConnectStep::Reconnect));
    again.send_to("s1", &MessageType::from("reconnected"), &j("{}"));
    again.reconnect_finish("s1", "t2".to_string(), &Json::Null);
    assert_eq!(again.clients[0].user_data(), Some(j(r#"{"team": "red"}"#)));
    let got = frames(&mut again, "s1");
    assert_eq!(got[0][0], 10);
    assert_eq!(got[1][1]["count"], 5);
    assert_eq!(got[2][1], "reconnected");
}

#[test]
fn a_seat_is_taken_once_and_expires() {
    let mut ctx = room();
    reserve(&mut ctx, "s1", 0).unwrap();
    reserve(&mut ctx, "s2", 0).unwrap();
    let first = Client::new("c1".to_string(), "s1".to_string(), 0);
    assert!(matches!(ctx.connect_begin(first, None), ConnectStep::Join(_, _)));
    let second = Client::new("c2".to_string(), "s1".to_string(), 0);
    assert!(matches!(ctx.connect_begin(second, None), ConnectStep::Refuse(_)));
    let stranger = Client::new("c3".to_string(), "s9".to_string(), 0);
    match ctx.connect_begin(stranger, None) {
        ConnectStep::Refuse(e) => assert_eq!(e.code, codes::MATCHMAKE_EXPIRED),
        other => panic!("unexpected: {other:?}"),
    }
    // the seat of s2 runs out after 15 seconds, and not before
    assert_eq!(ctx.next_deadline(0), Some(15000));
    ctx.expire_seats(14999);
    assert_eq!(ctx.listing_client_count(), 2);
    ctx.expire_seats(15000);
    assert_eq!(ctx.listing_client_count(), 1);
    let late = Client::new("c4".to_string(), "s2".to_string(), 15000);
    assert!(matches!(ctx.connect_begin(late, None), ConnectStep::Refuse(_)));
}

#[test]
fn a_refused_join_is_told_why_and_leaves() {
    let mut ctx = room();
    reserve(&mut ctx, "s1", 0).unwrap();
    let client = Client::new("c1".to_string(), "s1".to_string(), 0);
    ctx.connect_begin(client, None);
    let no = ServerError::new(codes::APPLICATION_ERROR, "no".to_string());
    let err = ctx.join_finish("s1", Err(no), "t1".to_string(), &Json::Null).unwrap_err();
    assert_eq!(err.message, "no");
    assert_eq!(ctx.client_count(), 0);
    assert_eq!(ctx.departed.len(), 1);
    let frame = take_frames(&mut ctx.departed[0]);
    assert_eq!(frame[0][0], 11);
    assert_eq!(frame[0][1], 526);
    // and a request for a seat that `on_auth` turns down gives none
    ctx.reserve_begin().unwrap();
    let refusal = ServerError::new(codes::AUTH_FAILED, "who?".to_string());
    assert!(ctx.reserve_finish("s2", Json::Null, Err(refusal), 0).is_err());
    assert_eq!(ctx.listing_client_count(), 0);
}

#[test]
fn consented_leaves_are_no_drops() {
    let mut ctx = room();
    join(&mut ctx, "s1", "t1", 0);
    assert!(matches!(
        ctx.message_begin("s1", "conn-s1", ClientMessage::Leave, 1),
        MessageStep::Leave
    ));
    assert_eq!(ctx.leave_begin("s1", 4000, true), LeaveStep::Leave);
    assert_eq!(ctx.leave_begin("s1", 4000, true), LeaveStep::Done);
    ctx.leave_finish("s1", close_codes::CONSENTED, true);
    assert_eq!(ctx.client_count(), 0);
    assert!(ctx.departed[0]
        .outbox
        .iter()
        .any(|o| matches!(o, Outbound::Close(4000, _))));
    // a client that may come back stays, even where it leaves of its own accord
    join(&mut ctx, "s3", "t3", 0);
    ctx.allow_reconnection("s3", None, 0);
    assert_eq!(ctx.leave_begin("s3", 4000, true), LeaveStep::Done);
    assert_eq!(ctx.client_count(), 1);
    // a drop without a reconnection is a leave
    join(&mut ctx, "s2", "t2", 0);
    assert_eq!(ctx.leave_begin("s2", 1006, false), LeaveStep::Drop);
    assert_eq!(ctx.leave_settle("s2", 1006), LeaveStep::Leave);
}

#[test]
fn reconnections_run_out() {
    let mut ctx = room();
    join(&mut ctx, "s1", "t1", 0);
    ctx.leave_begin("s1", 1006, false);
    assert!(ctx.allow_reconnection("s1", Some(60000), 1000));
    assert!(!ctx.allow_reconnection("s1", Some(60000), 1000));
    assert!(!ctx.allow_reconnection("s9", None, 0));
    assert!(ctx.expired_tokens(60999).is_empty());
    assert_eq!(ctx.expired_tokens(61000), vec!["t1".to_string()]);
    assert_eq!(ctx.expire_token("t1").as_deref(), Some("s1"));
    assert!(ctx.check_reconnection("t1").is_none());
    ctx.expire_finish("s1");
    assert_eq!(ctx.client_count(), 0);
    assert_eq!(ctx.departed[0].state(), ClientState::Closed);
}

#[test]
fn messages_are_rate_limited_by_the_second() {
    let mut ctx = room();
    ctx.max_messages_per_second = Some(2);
    join(&mut ctx, "s1", "t1", 0);
    let mut passed = 0;
    for _ in 0..5 {
        if let MessageStep::Dispatch(_, _) = ctx.message_begin("s1", "conn-s1", data("x", "1"), 10) {
            passed += 1;
        }
    }
    assert_eq!(passed, 2);
    // a new window
    assert!(matches!(
        ctx.message_begin("s1", "conn-s1", data("x", "1"), 1010),
        MessageStep::Dispatch(_, _)
    ));
}

#[test]
fn deferred_messages_follow_the_next_patch() {
    let mut ctx = room();
    ctx.set_state(j(r#"{"n": 0}"#));
    join(&mut ctx, "s1", "t1", 0);
    join(&mut ctx, "s2", "t2", 0);
    frames(&mut ctx, "s1");
    frames(&mut ctx, "s2");
    ctx.broadcast_with_options(
        &MessageType::from("after"),
        &j("1"),
        BroadcastOptions { except: Some("s2".to_string()), after_next_patch: true },
    );
    let i = find_client(&ctx.clients, "s2").unwrap();
    ctx.clients[i].send_with_options(
        &MessageType::from("own"),
        &j("2"),
        SendOptions { after_next_patch: true },
        &mut ctx.after_patch,
        &mut ctx.tap,
    );
    assert!(frames(&mut ctx, "s1").is_empty());
    ctx.update_state(j(r#"{"n": 1}"#));
    ctx.broadcast_patch(&vec![]);
    let one = frames(&mut ctx, "s1");
    assert_eq!(one[0][0], 15);
    assert_eq!(one[1][1], "after");
    let two = frames(&mut ctx, "s2");
    assert_eq!(two[0][0], 15);
    assert_eq!(two[1][1], "own");
    assert_eq!(two.len(), 2);
}

#[test]
fn locks_listings_and_timers() {
    let mut ctx = room();
    let before = ctx.build_listing();
    ctx.lock();
    assert!(ctx.is_locked());
    assert!(ctx.updates.last().unwrap().locked);
    ctx.unlock();
    assert_eq!(ctx.build_listing().to_flat_value(), before.to_flat_value());
    ctx.set_private(true);
    assert!(ctx.is_private());
    ctx.set_metadata(j(r#"{"a": 1}"#));
    assert_eq!(ctx.updates.last().unwrap().metadata, Some(j(r#"{"a": 1}"#)));

    let first = ctx.set_timeout(100, 50);
    let second = ctx.set_timeout(10, 50);
    assert_ne!(first, second);
    let due = ctx.take_due_timers(60);
    assert_eq!(due.len(), 1);
    assert_eq!(due[0].id, second);
    assert!(ctx.clear_timeout(first));
    assert!(!ctx.clear_timeout(first));
    assert!(ctx.take_due_timers(1000).is_empty());
}

#[test]
fn rooms_are_disposed_when_they_are_left() {
    let mut ctx = room();
    // a room that nobody came to yet waits for its seats' time
    assert!(!ctx.should_auto_dispose(0, 14999));
    assert!(ctx.should_auto_dispose(0, 15000));
    join(&mut ctx, "s1", "t1", 0);
    assert!(!ctx.should_auto_dispose(0, 20000));
    ctx.leave_begin("s1", 4000, true);
    ctx.leave_finish("s1", 4000, true);
    assert!(ctx.should_auto_dispose(0, 20000));
    ctx.auto_dispose = false;
    assert!(!ctx.should_auto_dispose(0, 20000));
    let mut actor = RoomActor::new(ctx, 0, 0);
    assert_eq!(actor.after_event(20000), None);
    actor.ctx.disconnect(4001);
    assert_eq!(actor.after_event(20000), Some(4001));
    assert_eq!(actor.after_event(20000), None);
}

#[test]
fn actors_answer_events() {
    let mut ctx = room();
    ctx.set_state(j(r#"{"n": 0}"#));
    let mut actor = RoomActor::new(ctx, 0, 0);
    let auth = AuthContext { token: Some("x".to_string()), headers: vec![], ip: None };
    match actor.handle_event(RoomEvent::ReserveSeat("s1".to_string(), j("{}"), auth), 0) {
        EventStep::Authenticate(sid, _, a) => {
            assert_eq!(sid, "s1");
            assert_eq!(a.token.as_deref(), Some("x"));
        }
        other => panic!("unexpected: {other:?}"),
    }
    actor.ctx.reserve_finish("s1", j("{}"), Ok(Some(j(r#"{"name": "ann"}"#))), 0).unwrap();
    let client = Client::new("c1".to_string(), "s1".to_string(), 0);
    match actor.handle_event(RoomEvent::Connect(client, None), 0) {
        EventStep::Connected(sid, ConnectStep::Join(_, auth)) => {
            assert_eq!(sid, "s1");
            assert_eq!(auth, Some(j(r#"{"name": "ann"}"#)));
        }
        other => panic!("unexpected: {other:?}"),
    }
    actor.ctx.join_finish("s1", Ok(()), "t1".to_string(), &Json::Null).unwrap();
    match actor.handle_event(RoomEvent::Inspect, 40) {
        EventStep::Inspection(i) => {
            assert_eq!(i.clients.len(), 1);
            assert_eq!(i.clients[0].state, "Joined");
            assert_eq!(i.state, Some(j(r#"{"n": 0}"#)));
            assert_eq!(i.elapsed_millis, 40);
        }
        other => panic!("unexpected: {other:?}"),
    }
    frames(&mut actor.ctx, "s1");
    let news = RoomEvent::AdminMessage(None, MessageType::from("news"), j("1"));
    assert!(matches!(actor.handle_event(news, 1), EventStep::Done));
    assert_eq!(frames(&mut actor.ctx, "s1")[0][1], "news");
    // a disconnect of a stale connection is passed over
    let stale = RoomEvent::Disconnected("s1".to_string(), "c0".to_string(), 1006);
    assert!(matches!(actor.handle_event(stale, 1), EventStep::Done));
    let gone = RoomEvent::Disconnected("s1".to_string(), "c1".to_string(), 1006);
    assert!(matches!(actor.handle_event(gone, 1), EventStep::Left(LeaveStep::Drop)));
    assert!(matches!(
        actor.handle_event(RoomEvent::Shutdown, 1),
        EventStep::Dispose(close_codes::SERVER_SHUTDOWN)
    ));
    actor.handle_event(RoomEvent::SetLocked(true), 1);
    let auth = AuthContext { token: None, headers: vec![], ip: None };
    assert!(matches!(
        actor.handle_event(RoomEvent::ReserveSeat("s2".to_string(), j("{}"), auth), 1),
        EventStep::NoSeat(_)
    ));
}

#[test]
fn a_kicked_client_is_closed() {
    let mut ctx = room();
    join(&mut ctx, "s1", "t1", 0);
    ctx.kick("s1");
    let i = find_client(&ctx.clients, "s1");
    let outbox: Vec<&Outbound> = match i {
        Some(i) => ctx.clients[i].outbox.iter().collect(),
        None => ctx.departed[0].outbox.iter().collect(),
    };
    assert!(outbox.iter().any(|o| matches!(o, Outbound::Close(_, _))));
}

#[test]
fn intervals_ticks_and_saves() {
    let mut ctx = room();
    ctx.persistence = Some(PersistenceConfig::new().auto_save_interval(100));
    ctx.set_state(j("{}"));
    ctx.set_simulation_interval(Some(16));
    ctx.set_patch_rate(Some(20));
    assert_eq!(ctx.patch_rate(), Some(20));
    let mut actor = RoomActor::new(ctx, 0, 0);
    assert_eq!(actor.sync_intervals(0), (true, true));
    assert_eq!(actor.sync_intervals(5), (false, false));
    actor.ctx.set_patch_rate(None);
    assert_eq!(actor.sync_intervals(5), (false, true));
    assert_eq!(actor.tick(16_700_000), 16_700_000);
    assert_eq!(actor.tick(40_900_000), 24_200_000);
    assert_eq!(actor.ctx.clock.elapsed_millis(), 40);
    assert!(actor.maybe_auto_save(50));
    assert!(!actor.maybe_auto_save(149));
    assert!(actor.maybe_auto_save(150));
}

#[test]
fn disposed_rooms_send_everybody_away() {
    let mut ctx = room();
    join(&mut ctx, "s1", "t1", 0);
    assert!(matches!(ctx.dispose_begin(4000, 1, 1), Some(FinalWrite::Keep)));
    assert!(ctx.disposing);
    assert!(ctx.reserve_begin().is_err());
    assert!(!ctx.allow_reconnection("s1", None, 1));
}

#[test]
fn clients_are_heard_only_when_they_joined() {
    let mut ctx = room();
    reserve(&mut ctx, "s1", 0).unwrap();
    ctx.connect_begin(Client::new("c1".to_string(), "s1".to_string(), 0), None);
    assert_eq!(ctx.clients[0].state(), ClientState::Joining);
    assert!(matches!(ctx.message_begin("s1", "c1", data("x", "1"), 0), MessageStep::Done));
    ctx.join_finish("s1", Ok(()), "t1".to_string(), &Json::Null).unwrap();
    assert!(ctx.clients[0].is_joined());
    assert!(matches!(
        ctx.message_begin("s1", "c1", data("x", "1"), 0),
        MessageStep::Dispatch(_, _)
    ));
}

#[test]
fn forgotten_clients_leave_nothing_behind() {
    let mut ctx = room();
    join(&mut ctx, "s1", "t1", 0);
    ctx.leave_begin("s1", 1006, false);
    ctx.allow_reconnection("s1", None, 0);
    ctx.remove_client("s1");
    assert_eq!(ctx.client_count(), 0);
    assert!(ctx.check_reconnection("t1").is_none());
    assert_eq!(ctx.listing_client_count(), 0);
    assert!(ctx.get_client("s1").is_none());
}

#[test]
fn clocks_and_deadlines_survive_a_restart() {
    // 500 ms ahead on the monotonic clock is 500 ms ahead on the wall
    assert_eq!(instant_to_wallclock_ms(1500, 1000, 90000), 90500);
    assert_eq!(wallclock_ms_to_instant(90500, 1000, 90000), 1500);
    // a deadline that has passed is now
    assert_eq!(wallclock_ms_to_instant(80000, 1000, 90000), 1000);
    // another process, whose monotonic clock reads otherwise
    assert_eq!(wallclock_ms_to_instant(90500, 7, 90100), 407);
    let mut clock = Clock::new(10);
    clock.tick(35);
    assert_eq!(clock.elapsed(), 25);
    let mut restored = Clock::restore(5_000_000_000, 10_000_000);
    assert_eq!(restored.elapsed_millis(), 5000);
    restored.tick(10_000_000);
    assert_eq!(restored.elapsed_millis(), 5000);
    restored.tick(40_000_000);
    assert_eq!(restored.elapsed_millis(), 5030);
    restored.tick(20_000_000);
    assert_eq!(restored.elapsed_millis(), 5030);
}

#[test]
fn clocks_keep_what_is_below_a_millisecond() {
    let mut clock = Clock::restore(2_999_000, 0);
    assert_eq!(clock.elapsed_millis(), 2);
    clock.tick(1_000);
    assert_eq!(clock.elapsed_millis(), 3);
    assert_eq!(clock.elapsed(), 3_000_000);
    // a snapshot keeps whole milliseconds
    let mut ctx = room();
    ctx.set_state(j("{}"));
    ctx.clock.tick(2_999_000);
    let snapshot = ctx.build_snapshot(0, 9000);
    assert_eq!(snapshot.clock_elapsed_ms, 2);
    let mut again = room();
    again.apply_snapshot(&snapshot, 50, 0, 9000);
    assert_eq!(again.clock.elapsed(), 2_000_000);
    again.clock.tick(1_000_050);
    assert_eq!(again.clock.elapsed_millis(), 3);
}

#[test]
fn patches_tick_the_clock_unless_the_game_loop_does() {
    let mut ctx = room();
    ctx.persistence = Some(PersistenceConfig::new().auto_save_interval(100));
    ctx.set_state(j(r#"{"n": 0}"#));
    join(&mut ctx, "s1", "t1", 0);
    frames(&mut ctx, "s1");
    let mut actor = RoomActor::new(ctx, 0, 0);
    // nothing changed: the clock ticks, and nothing is saved
    assert_eq!(actor.patch_tick(&vec![], 20, 20_000_000), (false, false));
    assert_eq!(actor.ctx.clock.elapsed_millis(), 20);
    assert!(frames(&mut actor.ctx, "s1").is_empty());
    actor.ctx.update_state(j(r#"{"n": 1}"#));
    assert_eq!(actor.patch_tick(&vec![], 40, 40_000_000), (true, true));
    assert_eq!(frames(&mut actor.ctx, "s1")[0][0], 15);
    // saves keep their distance
    actor.ctx.update_state(j(r#"{"n": 2}"#));
    assert_eq!(actor.patch_tick(&vec![], 60, 60_000_000), (true, false));
    // with a game loop the clock is left to it
    actor.ctx.set_simulation_interval(Some(16));
    actor.ctx.update_state(j(r#"{"n": 3}"#));
    assert_eq!(actor.patch_tick(&vec![], 140, 140_000_000), (true, true));
    assert_eq!(actor.ctx.clock.elapsed_millis(), 60);
}

#[test]
fn ids_are_random_and_clocks_run() {
    let a = generate_id();
    let b = generate_id();
    assert_eq!(a.len(), 16);
    assert_ne!(a, b);
    assert!(a.chars().all(|c| c.is_ascii_alphanumeric() || c == '-' || c == '_'));
    assert!(now_wallclock_ms() > 1_600_000_000_000);
}

#[test]
fn event_logs_are_built_up() {
    let log = RoomEventLog::new("in", "message")
        .client("s1")
        .msg_type(&MessageType::from(7i64))
        .payload(j("1"))
        .bytes(3);
    assert_eq!(log.direction, "in");
    assert_eq!(log.kind, "message");
    let mut ctx = room();
    ctx.tap.tell(true, 12);
    ctx.tap_log(log);
    let log = ctx.tap.events.remove(0);
    assert_eq!(log.at, 12);
    let v = log.to_json().to_value();
    assert_eq!(v["at"], 12);
    assert_eq!(v["client"], "s1");
    assert_eq!(v["msgType"], "7");
    assert_eq!(v["payload"], 1);
    assert_eq!(v["bytes"], 3);
}

/// What the tap recorded since the last time: direction and kind.
fn tapped(ctx: &mut RoomContext) -> Vec<String> {
    std::mem::take(&mut ctx.tap.events)
        .iter()
        .map(|e| format!("{} {}", e.direction, e.kind))
        .collect()
}

#[test]
fn the_tap_records_the_traffic_while_somebody_listens() {
    let mut ctx = room();
    ctx.set_state(j(r#"{"n": 0}"#));
    join(&mut ctx, "s1", "t1", 0);
    assert!(tapped(&mut ctx).is_empty());

    ctx.tap.tell(true, 90001);
    join(&mut ctx, "s2", "t2", 0);
    assert!(ctx.tap.events.iter().all(|e| e.at == 90001));
    assert_eq!(tapped(&mut ctx), ["sys seat", "sys join", "out state_full"]);
    ctx.message_begin("s2", "conn-s2", data("chat", "1"), 0);
    ctx.message_begin("s2", "conn-s2", ClientMessage::Ping, 0);
    ctx.tap.tell(true, 90002);
    let bytes = ClientMessage::DataBytes(MessageType::from("b"), vec![1, 2]);
    ctx.message_begin("s2", "conn-s2", bytes, 0);
    assert_eq!((ctx.tap.events[0].at, ctx.tap.events[1].at), (90001, 90002));
    assert_eq!(ctx.tap.events[0].msg_type.as_deref(), Some("chat"));
    assert_eq!(ctx.tap.events[1].bytes, 2);
    assert_eq!(tapped(&mut ctx), ["in message", "in bytes"]);
    ctx.broadcast(&MessageType::from("m"), &j("1"));
    ctx.broadcast_bytes(&MessageType::from("m"), &[1]);
    ctx.send_to("s2", &MessageType::from("m"), &j("1"));
    ctx.update_state(j(r#"{"n": 1}"#));
    ctx.broadcast_patch(&vec![]);
    assert_eq!(
        tapped(&mut ctx),
        ["out broadcast", "out broadcast", "out send", "out state_patch"]
    );
    ctx.message_begin("s2", "conn-s2", ClientMessage::Leave, 0);
    ctx.leave_begin("s2", 4000, true);
    ctx.leave_finish("s2", 4000, true);
    assert_eq!(ctx.tap.events[1].bytes, 4000);
    assert_eq!(tapped(&mut ctx), ["in leave", "sys leave"]);
    ctx.dispose_begin(4000, 1, 1);
    ctx.dispose_end();
    assert_eq!(tapped(&mut ctx), ["sys dispose"]);
}

#[test]
fn clients_forgotten_while_they_join_are_still_answered() {
    let mut ctx = room();
    reserve(&mut ctx, "s1", 0).unwrap();
    ctx.connect_begin(Client::new("c1".to_string(), "s1".to_string(), 0), None);
    ctx.remove_client("s1");
    ctx.join_finish("s1", Ok(()), "t1".to_string(), &Json::Null).unwrap();
    assert_eq!(ctx.client_count(), 0);
    let told = take_frames(&mut ctx.departed[0]);
    assert_eq!(told[0][0], 10);
    assert_eq!(told[0][1], "t1");
}

#[test]
fn messages_reach_the_handlers_of_their_type() {
    let mut ctx = room();
    let chat = MessageType::from("chat");
    let first = ctx.on_message(MessageType::from("chat"));
    let moves = ctx.on_message(MessageType::from("move"));
    let every = ctx.on_any_message();
    let second = ctx.on_message(MessageType::from("chat"));
    let blob = ctx.on_message_bytes(MessageType::from("chat"));
    assert_eq!(vec![first, moves, every, second, blob], vec![1, 2, 3, 4, 5]);
    assert_eq!(ctx.message_handlers(&chat), vec![first, second]);
    assert_eq!(ctx.message_handlers(&MessageType::from("move")), vec![moves]);
    assert!(ctx.message_handlers(&MessageType::from("ping")).is_empty());
    assert_eq!(ctx.any_handlers(), vec![every]);
    assert_eq!(ctx.bytes_handlers(&chat), vec![blob]);
    assert!(ctx.bytes_handlers(&MessageType::from("move")).is_empty());
}

#[test]
fn the_state_can_be_read_back() {
    let mut ctx = room();
    assert!(ctx.state().is_none());
    ctx.set_state(j(r#"{"n": 1}"#));
    assert_eq!(ctx.state().unwrap().to_value(), j(r#"{"n": 1}"#).to_value());
    ctx.update_state(j(r#"{"n": 2}"#));
    assert_eq!(ctx.state().unwrap().to_value(), j(r#"{"n": 2}"#).to_value());
}

#[test]
fn a_seat_kept_for_a_reconnection_can_be_joined_anew() {
    let mut ctx = room();
    join(&mut ctx, "s1", "t1", 0);
    assert_eq!(ctx.leave_begin("s1", 1006, false), LeaveStep::Drop);
    assert!(ctx.allow_reconnection("s1", Some(30000), 0));
    assert_eq!(ctx.leave_settle("s1", 1006), LeaveStep::Done);
    frames(&mut ctx, "s1");
    // without the token the session joins once more, beside the client that may
    // come back
    let again = Client::new("again".to_string(), "s1".to_string(), 0);
    assert!(matches!(ctx.connect_begin(again, None), ConnectStep::Join(_, _)));
    ctx.join_finish("s1", Ok(()), "t2".to_string(), &Json::Null).unwrap();
    assert_eq!(ctx.client_count(), 2);
    assert_eq!(ctx.clients[0].state(), ClientState::Reconnecting);
    assert_eq!(ctx.clients[0].reconnection_token(), "t1");
    assert!(take_frames(&mut ctx.clients[0]).is_empty());
    assert_eq!(ctx.clients[1].state(), ClientState::Joined);
    let told = take_frames(&mut ctx.clients[1]);
    assert_eq!(told[0][0], 10);
    assert_eq!(told[0][1], "t2");
    // the session's connection is that of its first client
    let heard = ctx.message_begin("s1", "again", data("chat", "1"), 0);
    assert!(matches!(heard, MessageStep::Done));
}

#[test]
fn clients_forgotten_while_they_leave_are_still_closed() {
    let mut ctx = room();
    join(&mut ctx, "s1", "t1", 0);
    frames(&mut ctx, "s1");
    assert_eq!(ctx.leave_begin("s1", 4000, true), LeaveStep::Leave);
    ctx.remove_client("s1");
    ctx.report_error("s1", &ServerError::new(4999, "late".to_string()));
    ctx.leave_finish("s1", 4000, true);
    assert_eq!(ctx.client_count(), 0);
    let gone = &mut ctx.departed[0];
    assert_eq!(gone.state(), ClientState::Leaving);
    assert!(gone.outbox.iter().any(|o| matches!(o, Outbound::Close(4000, _))));
    assert_eq!(take_frames(gone)[0][2], "late");
}

#[test]
fn a_client_that_the_room_forgot_may_still_be_let_back() {
    let mut ctx = room();
    join(&mut ctx, "s1", "t1", 0);
    assert_eq!(ctx.leave_begin("s1", 1006, false), LeaveStep::Drop);
    ctx.remove_client("s1");
    assert!(ctx.allow_reconnection("s1", Some(30000), 0));
    assert!(!ctx.allow_reconnection("s1", Some(30000), 0));
    assert_eq!(ctx.leave_settle("s1", 1006), LeaveStep::Done);
    assert!(ctx.departed[0].outbox.iter().any(|o| matches!(o, Outbound::Close(1006, _))));
    let back = Client::new("again".to_string(), "s1".to_string(), 0);
    assert!(matches!(ctx.connect_begin(back, Some("t1")), ConnectStep::Reconnect));
    ctx.reconnect_finish("s1", "t2".to_string(), &Json::Null);
    assert_eq!(ctx.client_count(), 1);
    assert_eq!(frames(&mut ctx, "s1")[0][1], "t2");
}
