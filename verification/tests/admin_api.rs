//! The admin panel's API.

use colyseus::admin::{
    authorize, edit_response, inspection_to_json, may_stream, message_type, overview, read_edit,
    room_not_found, rpc_begin, rpc_end, rpc_error_response, schema, stats_to_json,
    subprotocol_token, EditReply, RpcInfo, RpcStep,
};
use colyseus::command::Dispatcher;
use colyseus::error::{codes, ServerError};
use colyseus::handler::RegisteredHandler;
use colyseus::idempotency::ReplyCache;
use colyseus::json::Json;
use colyseus::matchmaker::RoomStats;
use colyseus::room::RoomContext;
use colyseus::server::ReplyBody;
use colyseus::state::StateEdit;
use colyseus::table::Table;
use colyseus::value::parse_json;

fn j(text: &str) -> Json {
    parse_json(text).expect("valid JSON")
}

#[test]
fn subprotocol_token_parses_bearer_protocols() {
    let headers = |value: &str| vec![value.to_string()];

    // single bearer protocol
    assert_eq!(
        subprotocol_token(&headers("bearer.s3cr3t")),
        Some(("bearer.s3cr3t".to_string(), "s3cr3t".to_string()))
    );

    // comma-joined with other protocols; whitespace tolerated
    assert_eq!(
        subprotocol_token(&headers("other, bearer.tok")),
        Some(("bearer.tok".to_string(), "tok".to_string()))
    );

    // no bearer protocol, an empty token, or no header at all
    assert_eq!(subprotocol_token(&headers("other")), None);
    assert_eq!(subprotocol_token(&headers("bearer.")), None);
    assert_eq!(subprotocol_token(&vec![]), None);
}

#[test]
fn requests_need_the_token() {
    let token = Some("backend-secret".to_string());
    let with = |v: &str| vec![("authorization".to_string(), v.to_string())];
    assert_eq!(authorize(&token, &vec![]).unwrap_err().status, 401);
    assert_eq!(authorize(&token, &with("Bearer wrong")).unwrap_err().status, 401);
    assert!(authorize(&token, &with("Bearer backend-secret")).is_ok());
    assert!(authorize(&None, &vec![]).is_ok());
    assert!(may_stream(&token, Some("backend-secret"), None));
    assert!(may_stream(&token, None, Some("backend-secret")));
    assert!(!may_stream(&token, None, None));
    assert!(may_stream(&None, None, None));
}

#[test]
fn admin_rpc_auth_and_dispatch() {
    let mut rpcs: Table<RpcInfo> = Table::new();
    rpcs.set("sum", RpcInfo { params: "SumRpc".to_string(), response: "SumRpcResult".to_string() });
    let mut cache = ReplyCache::new();
    // valid params
    let key = match rpc_begin(&rpcs, &mut cache, "sum", None, 0) {
        RpcStep::Run(key) => key,
        other => panic!("unexpected: {other:?}"),
    };
    let reply = rpc_end(&mut cache, key, Ok(j(r#"{"sum": 3}"#)), 0);
    assert_eq!(reply.status, 200);
    match reply.body {
        ReplyBody::Json(b) => assert_eq!(b.to_value()["sum"], 3),
        other => panic!("unexpected: {other:?}"),
    }
    // invalid params
    let bad = ServerError::new(codes::INVALID_PAYLOAD, "bad".to_string());
    let reply = rpc_end(&mut cache, None, Err(bad), 0);
    assert_eq!(reply.status, 400);
    match reply.body {
        ReplyBody::Json(b) => assert_eq!(b.to_value()["code"], codes::INVALID_PAYLOAD),
        other => panic!("unexpected: {other:?}"),
    }
    // unknown rpc
    match rpc_begin(&rpcs, &mut cache, "nope", None, 0) {
        RpcStep::Reply(r) => assert_eq!(r.status, 404),
        other => panic!("unexpected: {other:?}"),
    }
    // a repeated call is answered as before
    let key = match rpc_begin(&rpcs, &mut cache, "sum", Some("k".to_string()), 0) {
        RpcStep::Run(key) => key,
        other => panic!("unexpected: {other:?}"),
    };
    rpc_end(&mut cache, key, Ok(j(r#"{"sum": 5}"#)), 0);
    match rpc_begin(&rpcs, &mut cache, "sum", Some("k".to_string()), 1) {
        RpcStep::Reply(r) => match r.body {
            ReplyBody::Json(b) => assert_eq!(b.to_value()["sum"], 5),
            other => panic!("unexpected: {other:?}"),
        },
        other => panic!("unexpected: {other:?}"),
    }
}

#[test]
fn rpc_errors_have_statuses() {
    let status = |code: u16| rpc_error_response(&ServerError::new(code, "x".to_string())).status;
    assert_eq!(status(codes::INVALID_PAYLOAD), 400);
    assert_eq!(status(codes::MATCHMAKE_INVALID_ROOM_ID), 522);
    assert_eq!(status(7), 500);
    assert_eq!(room_not_found().status, 404);
}

#[test]
fn edits_are_read_from_pointers() {
    let (path, edit) = read_edit("/a~1b/0", "set", Some(j("1"))).unwrap();
    assert_eq!(path, vec!["a/b".to_string(), "0".to_string()]);
    assert!(matches!(edit, StateEdit::Put(_)));
    let (path, edit) = read_edit("/x", "remove", None).unwrap();
    assert_eq!(path, vec!["x".to_string()]);
    assert!(matches!(edit, StateEdit::Remove));
    assert_eq!(read_edit("/x", "blend", None).unwrap_err().status, 400);
    assert_eq!(edit_response(EditReply::Gone).status, 404);
    assert_eq!(edit_response(EditReply::TimedOut).status, 504);
    assert_eq!(edit_response(EditReply::Answer(Ok(()))).status, 204);
    assert_eq!(edit_response(EditReply::Answer(Err("no".to_string()))).status, 400);
}

#[test]
fn message_types_are_checked() {
    assert_eq!(message_type(&j("\"a\"")).unwrap().as_str(), Some("a"));
    assert_eq!(message_type(&j("4")).unwrap().as_num(), Some(4));
    assert_eq!(message_type(&j("null")).unwrap_err().status, 400);
}

#[test]
fn the_panel_sees_rooms_and_types() {
    let mut ctx = RoomContext::new(
        "r1".to_string(),
        "game".to_string(),
        "p1".to_string(),
        5,
        vec![],
        None,
        0,
    );
    ctx.set_state(j(r#"{"n": 1}"#));
    let listing = ctx.build_listing();
    let v = overview("p1", 42, 1000, 2048, &vec![listing.copy()]).to_value();
    assert_eq!(v["processId"], "p1");
    assert_eq!(v["pid"], 42);
    assert_eq!(v["uptimeMillis"], 1000);
    assert_eq!(v["rssBytes"], 2048);
    assert_eq!(v["rooms"], 1);
    assert_eq!(v["connections"], 0);
    let v = inspection_to_json(&ctx.inspect(0, 10), &listing).to_value();
    assert_eq!(v["state"]["n"], 1);
    let stats = RoomStats { total: 3, open: 2, waiting: 1, full: 1, locked: 0, private: 0 };
    assert_eq!(stats_to_json(&stats).to_value()["waiting"], 1);

    let mut handlers: Table<RegisteredHandler> = Table::new();
    handlers.set("game", RegisteredHandler::new("game"));
    let rpcs: Table<RpcInfo> = Table::new();
    let v = schema(&handlers, &rpcs).to_value();
    assert!(v.to_string().contains("game"));
}

struct Add(i64);

#[test]
fn commands_chain_via_queue() {
    let mut value = 0;
    let mut d: Dispatcher<Add> = Dispatcher::new();
    d.enqueue(Add(3)); // 3 + 2 + 1
    while let Some(c) = d.next() {
        value += c.0;
        if c.0 > 0 {
            d.enqueue(Add(c.0 - 1)); // chaining
        }
    }
    assert_eq!(value, 6);
    assert_eq!(d.pending(), 0);
}

#[test]
fn stop_discards_pending() {
    let mut value = 0;
    let mut d: Dispatcher<Add> = Dispatcher::new();
    d.enqueue(Add(100)); // never runs: stopped below
    d.stop();
    while let Some(c) = d.next() {
        value += c.0;
    }
    d.enqueue(Add(1));
    assert!(!d.is_running());
    assert_eq!(d.pending(), 0);
    assert_eq!(value, 0);
}
