//! Matchmaking requests from the HTTP body to the seat, with rooms held in a list.

use colyseus::actor::ConnectStep;
use colyseus::client::{Client, Outbound};
use colyseus::driver::RoomListing;
use colyseus::error::{codes, ServerError};
use colyseus::events::{AuthContext, EventStep, RoomActor, RoomEvent};
use colyseus::handler::{conditions_key, RegisteredHandler};
use colyseus::idempotency::{ReplyCache, IDEMPOTENCY_TTL_MS};
use colyseus::joining::{
    CreateStep, JoinFlow, JoinMode, JoinStep, RestoreStep, SeatReply, SeatStep, TokenReply,
};
use colyseus::json::Json;
use colyseus::matchmaker::{MatchMaker, SeatReservation};
use colyseus::presence::LocalPresence;
use colyseus::protocol::MessageType;
use colyseus::query::{Condition, Op, RoomQuery};
use colyseus::room::RoomContext;
use colyseus::server::{
    bearer_token, error_response, list_rooms, matchmake_begin, matchmake_end, read_frame,
    split_matchmake_body, MatchAction, MatchStep, ReplyBody, SocketFrame, SocketStep,
};
use colyseus::snapshot::{encode_snapshot, PersistenceConfig};
use colyseus::value::parse_json;

fn j(text: &str) -> Json {
    parse_json(text).expect("valid JSON")
}

fn texts(items: &[&str]) -> Vec<String> {
    items.iter().map(|s| s.to_string()).collect()
}

/// A matchmaker and its rooms.
struct Host {
    mm: MatchMaker,
    rooms: Vec<RoomContext>,
}

impl Host {
    fn new(configure: impl FnOnce(&mut RegisteredHandler)) -> Host {
        let mut mm = MatchMaker::new("p1".to_string(), None, None);
        let mut handler = RegisteredHandler::new("game");
        configure(&mut handler);
        mm.register(handler);
        Host { mm, rooms: Vec::new() }
    }

    fn room(&mut self, room_id: &str) -> &mut RoomContext {
        self.rooms.iter_mut().find(|r| r.room_id() == room_id).expect("room")
    }

    /// Passes the listings on that a room wants to have published.
    fn sync(&mut self, room_id: &str) {
        let updates: Vec<RoomListing> = std::mem::take(&mut self.room(room_id).updates);
        for u in updates.iter() {
            self.mm.driver.sync(u);
        }
    }

    fn spawn(&mut self, options: &Json) -> Result<RoomListing, ServerError> {
        let ctx = self.mm.prepare_room("game", options, 0, 0)?;
        let listing = ctx.build_listing();
        self.rooms.push(ctx);
        self.mm.finish_room(Ok(listing))
    }

    /// Creates a room unless a live one has the same uniqueness key.
    fn create_room(&mut self, options: &Json) -> (RoomListing, bool) {
        match self.mm.create_step("game", options).unwrap() {
            CreateStep::Reuse(outcome) => (outcome.listing, outcome.created),
            CreateStep::Spawn => (self.spawn(options).unwrap(), true),
        }
    }

    fn reserve(&mut self, room_id: &str, options: &Json) -> Result<SeatReservation, ServerError> {
        let sid = self.mm.reserve_begin(room_id)?;
        let room = self.room(room_id);
        let answer = match room.reserve_begin() {
            Ok(()) => room.reserve_finish(&sid, options.clone(), Ok(None), 0),
            Err(e) => Err(e),
        };
        self.sync(room_id);
        self.mm.reserve_end(room_id, sid, SeatReply::Answer(answer))
    }

    fn run(
        &mut self,
        mode: JoinMode,
        options: &Json,
        choose: impl Fn(Vec<RoomListing>) -> Vec<RoomListing>,
    ) -> Result<SeatReservation, ServerError> {
        let mut flow = JoinFlow::new(mode);
        loop {
            let handler = self.mm.handler("game")?;
            let conditions = handler.match_conditions(options);
            let found = self.mm.candidates(&conditions, &vec![], &handler.sort_by);
            let room_id = match flow.choose_room(&choose(found)) {
                JoinStep::Reserve(l) => l.room_id,
                JoinStep::Create => self.spawn(options)?.room_id,
                JoinStep::Fail(e) => return Err(e),
            };
            let answer = self.reserve(&room_id, options);
            match flow.seat_answer(answer) {
                SeatStep::Done(r) => return Ok(r),
                SeatStep::Again => {}
                SeatStep::Fail(e) => return Err(e),
            }
        }
    }

    fn join_or_create(&mut self, options: &str) -> SeatReservation {
        self.run(JoinMode::JoinOrCreate, &j(options), |c| c).unwrap()
    }

    fn join_by_id(&mut self, room_id: &str) -> Result<SeatReservation, ServerError> {
        let mut flow = JoinFlow::new(JoinMode::ById);
        loop {
            let listing = self.mm.driver.get(room_id);
            let id = match flow.choose_by_id(room_id, listing) {
                JoinStep::Reserve(l) => l.room_id,
                JoinStep::Create => unreachable!(),
                JoinStep::Fail(e) => return Err(e),
            };
            let answer = self.reserve(&id, &j("{}"));
            match flow.seat_answer(answer) {
                SeatStep::Done(r) => return Ok(r),
                SeatStep::Again => {}
                SeatStep::Fail(e) => return Err(e),
            }
        }
    }
}

#[test]
fn same_criteria_are_seated_in_one_room() {
    let mut host = Host::new(|_| {});
    let mut room_ids = std::collections::HashSet::new();
    let mut session_ids = std::collections::HashSet::new();
    for _ in 0..8 {
        let reservation = host.join_or_create("{}");
        room_ids.insert(reservation.room.room_id.clone());
        session_ids.insert(reservation.session_id.clone());
    }
    assert_eq!(room_ids.len(), 1, "all joiners must land in one room");
    assert_eq!(session_ids.len(), 8, "every joiner gets its own seat");
    let room_id = room_ids.into_iter().next().unwrap();
    assert_eq!(host.mm.driver().get(&room_id).unwrap().clients, 8);
}

#[test]
fn full_rooms_are_passed_over() {
    let mut host = Host::new(|_| {});
    let first = host.join_or_create("{}");
    host.room(&first.room.room_id).set_max_clients(Some(2));
    host.sync(&first.room.room_id);
    let second = host.join_or_create("{}");
    assert_eq!(second.room.room_id, first.room.room_id);
    // two seats, so the third request gets a new room
    let third = host.join_or_create("{}");
    assert_ne!(third.room.room_id, first.room.room_id);
    // a full room that is asked for by its id has no seat
    assert_eq!(host.join_by_id(&first.room.room_id).unwrap_err().code, codes::MATCHMAKE_EXPIRED);
}

#[test]
fn unique_rooms_are_created_once() {
    let mut host = Host::new(|h| h.unique_by(texts(&["slug"])));
    let mut created = 0;
    let mut room_ids = std::collections::HashSet::new();
    for _ in 0..8 {
        let (listing, is_new) = host.create_room(&j(r#"{"slug": "abc"}"#));
        if is_new {
            created += 1;
        }
        room_ids.insert(listing.room_id);
    }
    assert_eq!(created, 1, "exactly one request creates the room");
    assert_eq!(room_ids.len(), 1);
    // a different key creates a new room
    assert!(host.create_room(&j(r#"{"slug": "xyz"}"#)).1);
}

#[test]
fn wildcard_filter_matches_missing_fields_strict_does_not() {
    // default wildcard semantics: a request without `mode` matches a room created
    // with any `mode`
    let mut host = Host::new(|h| h.filter_by(texts(&["mode"])));
    let created = host.create_room(&j(r#"{"mode": "a"}"#)).0;
    let joined = host.join_or_create("{}");
    assert_eq!(joined.room.room_id, created.room_id);

    // strict semantics: a request without `mode` only matches rooms also missing
    // it, so it creates a new room, then finds it again
    let mut host = Host::new(|h| {
        h.filter_by(texts(&["mode"]));
        h.strict_filter_fields(true);
    });
    let created = host.create_room(&j(r#"{"mode": "a"}"#)).0;
    let joined = host.join_or_create("{}");
    assert_ne!(joined.room.room_id, created.room_id);
    let rejoined = host.join_or_create("{}");
    assert_eq!(rejoined.room.room_id, joined.room.room_id);

    // and an exact `mode` request never cross-joins the modeless room
    let modal = host.join_or_create(r#"{"mode": "a"}"#);
    assert_eq!(modal.room.room_id, created.room_id);
}

#[test]
fn match_hooks_customize_filter_and_sort() {
    let mut host = Host::new(|_| {});
    let empty = host.create_room(&j("{}")).0;
    let busy = host.create_room(&j("{}")).0;
    // seat someone in `busy` so its listing shows clients = 1
    host.join_by_id(&busy.room_id).unwrap();

    // the filter predicate skips the empty room; the comparator would pick the
    // busiest anyway
    let joined = host
        .run(JoinMode::JoinOrCreate, &j("{}"), |mut found| {
            found.retain(|l| l.clients >= 1);
            found.sort_by(|a, b| b.clients.cmp(&a.clients));
            found
        })
        .unwrap();
    assert_eq!(joined.room.room_id, busy.room_id);
    assert_ne!(joined.room.room_id, empty.room_id);
}

#[test]
fn join_by_id_against_disposing_room_errors_cleanly() {
    let mut host = Host::new(|_| {});
    let room_id = host.create_room(&j("{}")).0.room_id;
    host.mm.room_stopped(&room_id);
    let err = host.join_by_id(&room_id).unwrap_err();
    assert!(
        err.code == codes::MATCHMAKE_INVALID_ROOM_ID || err.code == codes::MATCHMAKE_EXPIRED,
        "expected a clean matchmaking error, got {err:?}"
    );
    assert!(host.mm.driver.get(&room_id).is_none());

    // a listing whose room is gone is dropped when its seat is asked for
    let room_id = host.create_room(&j("{}")).0.room_id;
    host.mm.rooms.clear();
    let err = host.join_by_id(&room_id).unwrap_err();
    assert_eq!(err.code, codes::MATCHMAKE_INVALID_ROOM_ID);
    assert!(host.mm.driver.get(&room_id).is_none());
}

#[test]
fn filter_by_routes_to_matching_rooms() {
    let mut host = Host::new(|h| h.filter_by(texts(&["mode"])));
    let r1 = host.join_or_create(r#"{"mode": "ranked"}"#);
    let r2 = host.join_or_create(r#"{"mode": "casual"}"#);
    let r3 = host.join_or_create(r#"{"mode": "ranked"}"#);
    assert_ne!(r1.room.room_id, r2.room.room_id);
    assert_eq!(r1.room.room_id, r3.room.room_id);

    // listings are visible, with the filter field flattened in
    let rooms = host.mm.query(Some("game"), vec![]);
    assert_eq!(rooms.len(), 2);
    assert!(rooms.iter().any(|r| r.to_flat_value().to_value()["mode"] == "ranked"));
}

#[test]
fn locked_rooms_are_not_joined() {
    let mut host = Host::new(|_| {});
    let room_id = host.create_room(&j("{}")).0.room_id;
    host.room(&room_id).lock();
    host.sync(&room_id);
    assert!(host.join_by_id(&room_id).unwrap_err().message.contains("locked"));
    assert!(host.run(JoinMode::Join, &j("{}"), |c| c).is_err());
    assert_ne!(host.join_or_create("{}").room.room_id, room_id);
}

#[test]
fn a_seat_is_asked_for_three_times_at_most() {
    let listing = |id: &str| {
        let mut host = Host::new(|_| {});
        let mut l = host.create_room(&j("{}")).0;
        l.room_id = id.to_string();
        l
    };
    for mode in [JoinMode::JoinOrCreate, JoinMode::Join] {
        let mut flow = JoinFlow::new(mode);
        let mut asked = 0;
        loop {
            match flow.choose_room(&vec![listing("a")]) {
                JoinStep::Reserve(_) => asked += 1,
                JoinStep::Create => unreachable!(),
                JoinStep::Fail(e) => {
                    assert_eq!(e.code, codes::MATCHMAKE_EXPIRED);
                    break;
                }
            }
            assert!(matches!(flow.seat_answer(Err(ServerError::seat_expired())), SeatStep::Again));
        }
        assert_eq!(asked, 3);
    }
    // any other error ends the request at once
    let mut flow = JoinFlow::new(JoinMode::Join);
    let denied = ServerError::new(codes::AUTH_FAILED, "no".to_string());
    assert!(matches!(flow.seat_answer(Err(denied)), SeatStep::Fail(_)));
    // and without a room that matches there is nothing to join
    match flow.choose_room(&vec![]) {
        JoinStep::Fail(e) => assert_eq!(e.code, codes::MATCHMAKE_INVALID_CRITERIA),
        other => panic!("unexpected: {other:?}"),
    }
}

#[test]
fn replies_of_rooms_are_passed_on() {
    let mut host = Host::new(|_| {});
    let room_id = host.create_room(&j("{}")).0.room_id;
    let sid = host.mm.reserve_begin(&room_id).unwrap();
    let err = host.mm.reserve_end(&room_id, sid.clone(), SeatReply::TimedOut).unwrap_err();
    assert_eq!(err.message, "seat reservation timed out");
    let err = host.mm.reserve_end(&room_id, sid.clone(), SeatReply::Dropped).unwrap_err();
    assert_eq!(err.code, codes::MATCHMAKE_EXPIRED);
    let ok = host.mm.reserve_end(&room_id, sid.clone(), SeatReply::Answer(Ok(()))).unwrap();
    assert_eq!(ok.session_id, sid);
    assert_eq!(ok.to_json().to_value()["room"]["roomId"], room_id.as_str());

    let listing = host.mm.reconnect_begin(&room_id).unwrap();
    let back = host
        .mm
        .reconnect_end(listing.copy(), "tok", TokenReply::Session(Some("s1".to_string())))
        .unwrap();
    assert_eq!(back.session_id, "s1");
    assert_eq!(back.reconnection_token.as_deref(), Some("tok"));
    let err = host.mm.reconnect_end(listing, "tok", TokenReply::Session(None)).unwrap_err();
    assert_eq!(err.message, "reconnection token invalid or expired");
    assert!(host.mm.reconnect_begin("nope").unwrap_err().message.contains("disposed"));
}

#[test]
fn keys_do_not_depend_on_the_order_of_conditions() {
    let a = ("mode".to_string(), Condition::eq(j("\"x\"")));
    let b = ("rank".to_string(), Condition { op: Op::NotExists, value: None });
    let c = ("locked".to_string(), Condition::eq(j("false")));
    let one = conditions_key(&vec![a.clone(), b.clone(), c.clone()]);
    let two = conditions_key(&vec![c, b, a]);
    assert_eq!(one, two);
    assert_eq!(one, "mode=\"x\"&rank=<absent>");
    let mm = MatchMaker::new("p1".to_string(), None, None);
    assert_eq!(mm.create_lock_key("game", &vec![]), "game:");
}

#[test]
fn options_of_requests_override_the_defaults() {
    let mut h = RegisteredHandler::new("game");
    h.default_options(j(r#"{"mode": "a", "max": 4}"#));
    let merged = h.merged_options(j(r#"{"mode": "b"}"#));
    assert_eq!(merged, j(r#"{"mode": "b", "max": 4}"#));
    h.sort_by(vec![("clients".to_string(), -1)]);
    assert_eq!(h.schema().to_value()["name"], "game");
    assert!(!h.is_internal());
    h.internal();
    h.persistent(false);
    assert!(h.is_internal());
    assert!(!h.is_persistent());
}

#[test]
fn only_known_fields_are_queried() {
    let host = Host::new(|h| h.filter_by(texts(&["mode"])));
    assert!(host.mm.allowed_field(Some("game"), "mode"));
    assert!(host.mm.allowed_field(Some("game"), "metadata.level"));
    assert!(host.mm.allowed_field(None, "clients"));
    assert!(!host.mm.allowed_field(Some("game"), "roomId"));
    assert!(!host.mm.allowed_field(Some("game"), "color"));
    let q = RoomQuery::builder().filter("color".to_string(), j("1")).build();
    let err = host.mm.query_rooms(Some("game"), q).unwrap_err();
    assert_eq!(err.code, codes::MATCHMAKE_INVALID_CRITERIA);
    let q = RoomQuery::builder().sort("roomId".to_string(), false).build();
    assert!(host.mm.query_rooms(Some("game"), q).is_err());
    assert!(host.mm.parse_match_filter("game", &j(r#"{"mode": "x"}"#)).is_ok());
    assert!(host.mm.parse_match_filter("game", &j(r#"{"color": "x"}"#)).is_err());
    assert_eq!(host.mm.handler("nope").unwrap_err().code, codes::MATCHMAKE_NO_HANDLER);
}

#[test]
fn stats_count_open_and_full_rooms() {
    let mut host = Host::new(|_| {});
    let a = host.create_room(&j("{}")).0.room_id;
    host.create_room(&j("{}"));
    host.join_by_id(&a).unwrap();
    let c = host.create_room(&j("{}")).0.room_id;
    host.room(&c).lock();
    host.sync(&c);
    let s = host.mm.room_stats(Some("game"));
    assert_eq!((s.total, s.open, s.waiting, s.full, s.locked), (3, 2, 1, 1, 1));
    assert_eq!(host.mm.room_stats(Some("none")).total, 0);
    assert_eq!(host.mm.room_stats(None).total, 3);
}

#[test]
fn shutting_down_begins_once() {
    let mut host = Host::new(|_| {});
    let id = host.create_room(&j("{}")).0.room_id;
    assert_eq!(host.mm.begin_shutdown(), Some(vec![id]));
    assert_eq!(host.mm.begin_shutdown(), None);
    let mut cache = ReplyCache::new();
    match matchmake_begin(&host.mm, &mut cache, "joinOrCreate", "game", vec![], j("{}"), 0) {
        MatchStep::Reply(r) => assert!(r.status >= 500),
        other => panic!("unexpected: {other:?}"),
    }
}

#[test]
fn internal_rooms_reject_client_creation() {
    let mut host = Host::new(|h| h.internal());
    host.create_room(&j("{}"));
    let mut cache = ReplyCache::new();
    for method in ["create", "joinOrCreate"] {
        match matchmake_begin(&host.mm, &mut cache, method, "game", vec![], j("{}"), 0) {
            MatchStep::Reply(r) => assert_eq!(r.status, 520, "{method} should be rejected"),
            other => panic!("unexpected: {other:?}"),
        }
    }
    // but the server-created instance is joinable
    assert!(matches!(
        matchmake_begin(&host.mm, &mut cache, "join", "game", vec![], j("{}"), 0),
        MatchStep::Run(MatchAction::Join(_, _), _, None)
    ));
    assert!(host.run(JoinMode::Join, &j("{}"), |c| c).is_ok());
}

#[test]
fn invalid_room_name_rejected() {
    let host = Host::new(|_| {});
    let err = match host.mm.prepare_room("nope", &j("{}"), 0, 0) {
        Err(e) => e,
        Ok(_) => panic!("unexpected"),
    };
    let reply = error_response(&err);
    assert_eq!(reply.status, 520);
    match reply.body {
        ReplyBody::Json(body) => assert_eq!(body.to_value()["code"], 520),
        other => panic!("unexpected: {other:?}"),
    }
}

#[test]
fn requests_are_read_and_their_answers_kept() {
    let host = Host::new(|h| h.filter_by(texts(&["mode"])));
    let mut cache = ReplyCache::new();
    let headers = vec![
        ("Authorization".to_string(), "Bearer letmein".to_string()),
        ("Idempotency-Key".to_string(), "k1".to_string()),
    ];
    let lower: Vec<(String, String)> =
        headers.iter().map(|(k, v)| (k.to_lowercase(), v.clone())).collect();
    assert_eq!(bearer_token(&lower).as_deref(), Some("letmein"));
    let body = j(r#"{"options": {"mode": "a"}, "filter": {"metadata.level": {"gte": 2}}}"#);
    let key = match matchmake_begin(
        &host.mm,
        &mut cache,
        "joinOrCreate",
        "game",
        lower.clone(),
        body.clone(),
        0,
    ) {
        MatchStep::Run(MatchAction::JoinOrCreate(_, _), auth, key) => {
            assert_eq!(auth.token.as_deref(), Some("letmein"));
            key
        }
        other => panic!("unexpected: {other:?}"),
    };
    assert!(key.is_some());
    let seat = SeatReservation {
        room: Host::new(|_| {}).create_room(&j("{}")).0,
        session_id: "s1".to_string(),
        reconnection_token: None,
        public_address: None,
        process_id: "p1".to_string(),
    };
    let reply = matchmake_end(&mut cache, key, Ok(seat), 5);
    assert_eq!(reply.status, 200);
    // the same request again is answered as before, while the answer is kept
    match matchmake_begin(&host.mm, &mut cache, "joinOrCreate", "game", lower.clone(), body.clone(), 6)
    {
        MatchStep::Reply(r) => match r.body {
            ReplyBody::Json(b) => assert_eq!(b.to_value()["sessionId"], "s1"),
            other => panic!("unexpected: {other:?}"),
        },
        other => panic!("unexpected: {other:?}"),
    }
    let later = 6 + IDEMPOTENCY_TTL_MS;
    assert!(matches!(
        matchmake_begin(&host.mm, &mut cache, "joinOrCreate", "game", lower, body, later),
        MatchStep::Run(_, _, Some(_))
    ));
    // a method that is not known
    match matchmake_begin(&host.mm, &mut cache, "steal", "game", vec![], j("{}"), 0) {
        MatchStep::Reply(r) => assert!(r.status >= 400),
        other => panic!("unexpected: {other:?}"),
    }
    // a reconnection needs its token
    match matchmake_begin(&host.mm, &mut cache, "reconnect", "r1", vec![], j("{}"), 0) {
        MatchStep::Reply(r) => assert_eq!(r.status, codes::MATCHMAKE_UNHANDLED),
        other => panic!("unexpected: {other:?}"),
    }
    match matchmake_begin(
        &host.mm,
        &mut cache,
        "reconnect",
        "r1",
        vec![],
        j(r#"{"reconnectionToken": "t"}"#),
        0,
    ) {
        MatchStep::Run(MatchAction::Reconnect(t), _, _) => assert_eq!(t, "t"),
        other => panic!("unexpected: {other:?}"),
    }
}

#[test]
fn bodies_are_split_into_options_and_filter() {
    let (options, filter) =
        split_matchmake_body(j(r#"{"options": {"mode": "a"}, "filter": {"x": 1}}"#));
    assert_eq!(filter, Some(j(r#"{"x": 1}"#)));
    assert_eq!(options, j(r#"{"mode": "a"}"#));
    let (options, filter) = split_matchmake_body(j(r#"{"filter": {"x": 1}}"#));
    assert_eq!(filter, Some(j(r#"{"x": 1}"#)));
    assert_eq!(options, Json::Null);
    let (options, filter) = split_matchmake_body(j(r#"{"mode": "a"}"#));
    assert_eq!(options, j(r#"{"mode": "a"}"#));
    assert_eq!(filter, None);
}

#[test]
fn rooms_are_listed_in_pages() {
    let mut host = Host::new(|h| h.filter_by(texts(&["mode"])));
    for _ in 0..3 {
        host.create_room(&j(r#"{"mode": "a"}"#));
    }
    let params = vec![("mode".to_string(), "a".to_string()), ("limit".to_string(), "2".to_string())];
    let reply = list_rooms(&host.mm, Some("game"), &params, 100);
    assert_eq!(reply.status, 200);
    match reply.body {
        ReplyBody::Json(b) => {
            let v = b.to_value();
            assert_eq!(v["total"], 3);
            assert_eq!(v["items"].as_array().unwrap().len(), 2);
            assert_eq!(v["nextOffset"], 2);
        }
        other => panic!("unexpected: {other:?}"),
    }
    let bad = vec![("limit".to_string(), "x".to_string())];
    assert_eq!(list_rooms(&host.mm, None, &bad, 100).status, 400);
}

#[test]
fn socket_frames_are_read() {
    assert!(matches!(read_frame(SocketFrame::Binary(vec![18])), SocketStep::Forward(_)));
    assert!(matches!(read_frame(SocketFrame::Binary(vec![0xc1])), SocketStep::Undecodable));
    assert!(matches!(
        read_frame(SocketFrame::Binary(colyseus::protocol::leave())),
        SocketStep::ForwardLeave
    ));
    assert!(matches!(read_frame(SocketFrame::Other), SocketStep::Ignore));
    assert!(matches!(read_frame(SocketFrame::Close(Some(4000))), SocketStep::Stop(4000)));
    assert!(matches!(read_frame(SocketFrame::Broken), SocketStep::Stop(1006)));
}

#[test]
fn kept_answers_run_out_and_are_bounded() {
    let mut cache = ReplyCache::new();
    cache.idempotency_put("a".to_string(), j("1"), 0);
    assert_eq!(cache.idempotency_get("a", 10), Some(j("1")));
    assert_eq!(cache.idempotency_get("b", 10), None);
    assert_eq!(cache.idempotency_get("a", IDEMPOTENCY_TTL_MS), Some(j("1")));
    assert_eq!(cache.idempotency_get("a", IDEMPOTENCY_TTL_MS + 1), None);
    for i in 0..1100u64 {
        cache.idempotency_put(format!("k{i}"), j("1"), 100 + i);
    }
    assert_eq!(cache.idempotency_get("k1099", 1200), Some(j("1")));
    assert_eq!(cache.idempotency_get("k0", 1200), None);
}

#[test]
fn rooms_are_restored_from_their_snapshots() {
    let mut mm = MatchMaker::new("p1".to_string(), None, Some(PersistenceConfig::new()));
    mm.register(RegisteredHandler::new("game"));
    let mut ctx = mm.prepare_room("game", &j("{}"), 77, 0).unwrap();
    ctx.set_state(j(r#"{"n": 1}"#));
    let id = ctx.room_id().to_string();
    let bytes = encode_snapshot(&ctx.build_snapshot(0, 100));
    match mm.restore_begin(&id, true, Some(bytes.clone()), 5) {
        RestoreStep::Start(s, fresh) => {
            assert_eq!(s.room_id, id);
            assert_eq!(fresh.room_id(), id);
            assert_eq!(fresh.created_at, 77);
        }
        _ => panic!("unexpected"),
    }
    assert!(matches!(mm.restore_begin(&id, false, None, 5), RestoreStep::Fail(_)));
    match mm.restore_begin(&id, true, None, 5) {
        RestoreStep::Fail(e) => assert_eq!(e.code, codes::MATCHMAKE_INVALID_ROOM_ID),
        _ => panic!("unexpected"),
    }
    match mm.restore_begin(&id, true, Some(vec![1, 2, 3]), 5) {
        RestoreStep::Quarantine(reason, _) => assert_eq!(reason, "snapshot too short"),
        _ => panic!("unexpected"),
    }
    mm.room_started(&ctx.build_listing());
    assert!(matches!(mm.restore_begin(&id, true, Some(bytes.clone()), 5), RestoreStep::Fail(_)));
    mm.room_stopped(&id);
    let mut transient = RegisteredHandler::new("game");
    transient.persistent(false);
    mm.register(transient);
    assert!(matches!(mm.restore_begin(&id, true, Some(bytes), 5), RestoreStep::Discard));
    assert_eq!(MatchMaker::migration_step(1, 2).unwrap(), true);
    assert_eq!(MatchMaker::migration_step(2, 2).unwrap(), false);
    assert!(MatchMaker::migration_step(3, 2).is_err());
}

#[test]
fn presence_keeps_values_and_hashes() {
    let mut p = LocalPresence::new();
    p.set("a", j("1"));
    assert_eq!(p.get("a"), Some(j("1")));
    assert_eq!(p.get("b"), None);
    p.del("a");
    assert_eq!(p.get("a"), None);
    p.hset("h", "x", j("1"));
    p.hset("h", "y", j("2"));
    p.hset("h", "x", j("3"));
    assert_eq!(p.hget("h", "x"), Some(j("3")));
    assert_eq!(p.hgetall("h").len(), 2);
    p.hdel("h", "x");
    assert_eq!(p.hget("h", "x"), None);
    assert_eq!(p.hget("h", "y"), Some(j("2")));
    assert!(p.hgetall("none").is_empty());
}

/// Begins a request with this `Idempotency-Key`, and gives the key under which its
/// answer is kept.
fn kept_under(method: &str, room_name: &str, key: &str) -> Option<String> {
    let mut host = Host::new(|_| {});
    host.mm.register(RegisteredHandler::new(room_name));
    let headers = vec![("idempotency-key".to_string(), key.to_string())];
    let mut cache = ReplyCache::new();
    match matchmake_begin(&host.mm, &mut cache, method, room_name, headers, j("{}"), 0) {
        MatchStep::Run(_, _, key) => key,
        other => panic!("unexpected: {other:?}"),
    }
}

#[test]
fn replies_are_scoped_by_method_room_name_and_key() {
    assert_eq!(kept_under("create", "game", "k"), Some("6:create4:gamek".to_string()));
    assert_eq!(kept_under("create", "game", " k "), kept_under("create", "game", "k"));
    assert_eq!(kept_under("create", "game", "  "), None);
    assert_ne!(kept_under("create", "game", "a,1"), kept_under("create", "game", "a,2"));
    assert_ne!(kept_under("create", "a", "b:c"), kept_under("create", "a:b", "c"));
    assert_ne!(kept_under("create", "game", "k"), kept_under("joinOrCreate", "game", "k"));
}

#[test]
fn creations_with_the_same_key_share_a_room() {
    let mut host = Host::new(|h| h.unique_by(texts(&["slug"])));
    let (a, new_a) = host.create_room(&j(r#"{"slug": "abc"}"#));
    let (b, new_b) = host.create_room(&j(r#"{"slug": "abc"}"#));
    let (c, new_c) = host.create_room(&j(r#"{"slug": "xyz"}"#));
    assert!(new_a && !new_b && new_c);
    assert_eq!(a.room_id, b.room_id);
    assert_ne!(a.room_id, c.room_id);
    host.mm.room_stopped(&a.room_id);
    assert!(host.create_room(&j(r#"{"slug": "abc"}"#)).1);
    assert!(host.mm.create_step("nope", &j("{}")).is_err());
}

/// Asks for a seat by the room's id, as a request with these headers does; the room
/// lets in who brings the token.
fn join_by_id_as(
    host: &mut Host,
    room_id: &str,
    headers: &Vec<(String, String)>,
) -> Result<SeatReservation, ServerError> {
    let sid = host.mm.reserve_begin(room_id)?;
    let ctx = host.rooms.remove(0);
    let mut actor = RoomActor::new(ctx, 0, 0);
    let auth = AuthContext { token: bearer_token(headers), headers: headers.clone(), ip: None };
    let answer = match actor.handle_event(RoomEvent::ReserveSeat(sid.clone(), j("{}"), auth), 0) {
        EventStep::Authenticate(session_id, options, auth) => {
            let checked = match auth.token.as_deref() {
                Some("letmein") => Ok(Some(j(r#"{"name": "authed-user"}"#))),
                _ => {
                    let reason = "missing bearer token".to_string();
                    Err(ServerError::new(codes::AUTH_FAILED, reason))
                }
            };
            actor.ctx.reserve_finish(&session_id, options, checked, 0)
        }
        EventStep::NoSeat(e) => Err(e),
        other => panic!("unexpected: {other:?}"),
    };
    host.rooms.insert(0, actor.ctx);
    host.sync(room_id);
    host.mm.reserve_end(room_id, sid, SeatReply::Answer(answer))
}

#[test]
fn join_by_id_passes_auth_context() {
    let mut host = Host::new(|_| {});
    let letmein = vec![("authorization".to_string(), "Bearer letmein".to_string())];

    // create a room (authed)
    let room_id = host.create_room(&j("{}")).0.room_id;
    join_by_id_as(&mut host, &room_id, &letmein).unwrap();

    // joinById without a token
    let err = join_by_id_as(&mut host, &room_id, &vec![]).unwrap_err();
    assert_eq!(err.message, "missing bearer token");
    assert_eq!(error_response(&err).status, 525);

    // joinById with the token: seat reserved, auth data reaches on_join
    let res = join_by_id_as(&mut host, &room_id, &letmein).unwrap();
    assert!(!res.session_id.is_empty());
    let ctx = host.room(&room_id);
    let client = Client::new("c1".to_string(), res.session_id.clone(), 0);
    let auth = match ctx.connect_begin(client, None) {
        ConnectStep::Join(_, Some(auth)) => auth,
        other => panic!("unexpected: {other:?}"),
    };
    let welcome = Json::Object(vec![("auth".to_string(), auth)]);
    ctx.send_to(&res.session_id, &MessageType::from("welcome"), &welcome);
    ctx.join_finish(&res.session_id, Ok(()), "t1".to_string(), &Json::Null).unwrap();
    let frames: Vec<serde_json::Value> = ctx.clients[0]
        .outbox
        .iter()
        .filter_map(|o| match o {
            Outbound::Bytes(b) => Some(rmp_serde::from_slice(b).unwrap()),
            Outbound::Close(_, _) => None,
        })
        .collect();
    assert_eq!(frames[0][0], 10);
    assert_eq!(frames[1][1], "welcome");
    assert_eq!(frames[1][2]["auth"]["name"], "authed-user");
}

#[test]
fn one_of_several_creations_makes_the_room() {
    let mut host = Host::new(|h| h.unique_by(texts(&["lobby"])));
    let options = [j(r#"{"lobby": "a", "x": 1}"#), j(r#"{"lobby": "a"}"#), j(r#"{"lobby": "a"}"#)];
    let key = host.mm.unique_lock_key("game", &options[0]).unwrap();
    for o in options.iter() {
        assert_eq!(host.mm.unique_lock_key("game", o).unwrap(), key);
    }
    // the first one starts its room; the others wait until it is listed
    assert!(matches!(host.mm.create_step("game", &options[0]), Ok(CreateStep::Spawn)));
    // meanwhile another room comes
    host.create_room(&j(r#"{"lobby": "b"}"#));
    let made = host.spawn(&options[0]).unwrap();
    for o in options[1..].iter() {
        match host.mm.create_step("game", o) {
            Ok(CreateStep::Reuse(outcome)) => {
                assert_eq!(outcome.listing.room_id, made.room_id);
                assert!(!outcome.created);
            }
            other => panic!("unexpected: {other:?}"),
        }
    }
    assert_eq!(host.rooms.len(), 2);
}
