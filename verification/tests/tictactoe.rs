//! Tic-tac-toe.

use colyseus::client::{Client, Outbound};
use colyseus::error::codes;
use colyseus::json::Json;
use colyseus::protocol::MessageType;
use colyseus::room::RoomContext;
use colyseus::tictactoe::{
    auth_field, authenticate, chat_message, check_winner, on_chat, on_create, on_drop, on_join,
    on_leave, on_move, on_reconnect, on_rematch, Claims, TttState,
};
use colyseus::value::parse_json;
use serde_json::Value;

fn j(text: &str) -> Json {
    parse_json(text).expect("valid JSON")
}

fn board(cells: &str) -> Vec<String> {
    cells
        .chars()
        .map(|c| if c == '.' { String::new() } else { c.to_string() })
        .collect()
}

fn auth(user: &str, name: &str) -> Option<Json> {
    Some(j(&format!("{{\"userId\": \"{user}\", \"name\": \"{name}\"}}")))
}

/// A room with a client in it for each session.
fn room(sessions: &[(&str, &str, &str)]) -> (RoomContext, TttState) {
    let mut ctx = RoomContext::new(
        "r1".to_string(),
        "tictactoe".to_string(),
        "p1".to_string(),
        0,
        vec![],
        None,
        0,
    );
    let mut state = on_create(&mut ctx);
    for (sid, user, name) in sessions {
        join(&mut ctx, &mut state, sid, user, name);
    }
    (ctx, state)
}

fn join(ctx: &mut RoomContext, state: &mut TttState, sid: &str, user: &str, name: &str) {
    let who = auth(user, name);
    ctx.reserve_begin().unwrap();
    ctx.reserve_finish(sid, Json::Null, Ok(who.clone()), 0).unwrap();
    ctx.connect_begin(Client::new(format!("c-{sid}"), sid.to_string(), 0), None);
    on_join(ctx, state, sid, &who);
    ctx.join_finish(sid, Ok(()), format!("t-{sid}"), &Json::Null).unwrap();
}

fn frames(ctx: &mut RoomContext, i: usize) -> Vec<Value> {
    let out: Vec<Outbound> = std::mem::take(&mut ctx.clients[i].outbox);
    out.iter()
        .filter_map(|o| match o {
            Outbound::Bytes(b) => Some(rmp_serde::from_slice::<Value>(b).unwrap()),
            Outbound::Close(_, _) => None,
        })
        .collect()
}

#[test]
fn lines_win_and_full_boards_draw() {
    assert_eq!(check_winner(&board("XXX......")).as_deref(), Some("X"));
    assert_eq!(check_winner(&board("O..O..O..")).as_deref(), Some("O"));
    assert_eq!(check_winner(&board("X...X...X")).as_deref(), Some("X"));
    assert_eq!(check_winner(&board("..O.O.O..")).as_deref(), Some("O"));
    assert_eq!(check_winner(&board("XOXXOXOXO")).as_deref(), Some("draw"));
    assert_eq!(check_winner(&board(".........")), None);
    assert_eq!(check_winner(&board("XX.......")), None);
}

#[test]
fn two_players_take_turns_until_one_wins() {
    let (mut ctx, mut s) = room(&[("a", "u1", "ann"), ("b", "u2", "bob")]);
    assert_eq!(ctx.max_clients(), Some(2));
    assert_eq!(s.status, "playing");
    assert_eq!(s.players.get("a").unwrap().symbol, "X");
    assert_eq!(s.players.get("b").unwrap().symbol, "O");
    let err = on_move(&mut ctx, &mut s, "b", 0).unwrap_err();
    assert_eq!(err.message, "not your turn");
    assert_eq!(err.code, codes::APPLICATION_ERROR);
    on_move(&mut ctx, &mut s, "a", 0).unwrap();
    assert_eq!(on_move(&mut ctx, &mut s, "b", 0).unwrap_err().message, "invalid cell");
    assert_eq!(on_move(&mut ctx, &mut s, "b", 9).unwrap_err().message, "invalid cell");
    assert_eq!(on_move(&mut ctx, &mut s, "z", 1).unwrap_err().message, "you are not a player");
    on_move(&mut ctx, &mut s, "b", 3).unwrap();
    on_move(&mut ctx, &mut s, "a", 1).unwrap();
    on_move(&mut ctx, &mut s, "b", 4).unwrap();
    frames(&mut ctx, 0);
    on_move(&mut ctx, &mut s, "a", 2).unwrap();
    assert_eq!(s.status, "finished");
    assert_eq!(s.winner.as_deref(), Some("X"));
    let said = frames(&mut ctx, 0);
    assert_eq!(said[0][1], "system");
    assert_eq!(said[0][2]["text"], "ann wins!");
    assert_eq!(
        on_move(&mut ctx, &mut s, "b", 5).unwrap_err().message,
        "game is not in progress"
    );
    on_rematch(&mut ctx, &mut s);
    assert_eq!(s.status, "playing");
    assert_eq!(s.board, board("........."));
    // while a game is on there is no rematch
    on_move(&mut ctx, &mut s, "a", 0).unwrap();
    on_rematch(&mut ctx, &mut s);
    assert_eq!(s.board[0], "X");
}

#[test]
fn a_user_who_joins_again_takes_the_seat_over() {
    let (mut ctx, mut s) = room(&[("a", "u1", "ann")]);
    ctx.set_max_clients(Some(3));
    join(&mut ctx, &mut s, "a2", "u1", "ann");
    assert_eq!(s.players.len(), 1);
    assert_eq!(s.players.get("a2").unwrap().symbol, "X");
    assert!(s.players.get("a").is_none());
    assert!(ctx.get_client("a").is_none());
}

#[test]
fn who_stays_keeps_the_seat() {
    let (mut ctx, mut s) = room(&[("a", "u1", "ann"), ("b", "u2", "bob")]);
    on_move(&mut ctx, &mut s, "a", 0).unwrap();
    on_leave(&mut ctx, &mut s, "a");
    assert_eq!(s.status, "waiting");
    assert_eq!(s.board, board("........."));
    assert_eq!(s.players.get("b").unwrap().symbol, "O");
    // the next one gets the free symbol
    ctx.remove_client("a");
    join(&mut ctx, &mut s, "c", "u3", "cy");
    assert_eq!(s.players.get("c").unwrap().symbol, "X");
    assert_eq!(s.status, "playing");
}

#[test]
fn drops_are_announced_and_may_come_back() {
    let (mut ctx, s) = room(&[("a", "u1", "ann"), ("b", "u2", "bob")]);
    frames(&mut ctx, 1);
    on_drop(&mut ctx, "a", 100);
    assert_eq!(ctx.check_reconnection("t-a").as_deref(), Some("a"));
    assert_eq!(ctx.expired_tokens(60099).len(), 0);
    assert_eq!(ctx.expired_tokens(60100).len(), 1);
    on_reconnect(&mut ctx);
    let said = frames(&mut ctx, 1);
    assert_eq!(said[0][2]["text"], "opponent disconnected…");
    assert_eq!(said[1][2]["text"], "opponent reconnected");
    assert_eq!(s.players.len(), 2);
}

#[test]
fn chat_messages_are_cut() {
    let (mut ctx, s) = room(&[("a", "u1", "ann")]);
    let long: String = "é".repeat(600);
    let m = chat_message(&s, "a", &long).to_value();
    assert_eq!(m["from"], "ann");
    assert_eq!(m["text"].as_str().unwrap().chars().count(), 500);
    assert_eq!(chat_message(&s, "z", "hi").to_value()["from"], "z");
    frames(&mut ctx, 0);
    on_chat(&mut ctx, &s, "a", "hi");
    assert_eq!(frames(&mut ctx, 0)[0][2]["text"], "hi");
}

#[test]
fn tokens_are_checked() {
    let claims = || Some(Claims { sub: "u1".to_string(), name: "ann".to_string() });
    let ok = authenticate(Some("t"), claims()).unwrap().to_value();
    assert_eq!(ok["userId"], "u1");
    assert_eq!(ok["name"], "ann");
    let err = authenticate(None, None).unwrap_err();
    assert_eq!(err.code, codes::AUTH_FAILED);
    assert_eq!(err.message, "missing bearer token");
    assert_eq!(authenticate(Some("t"), None).unwrap_err().message, "invalid or expired token");
    assert_eq!(auth_field(&auth("u", "n"), "name", "anonymous"), "n");
    assert_eq!(auth_field(&None, "name", "anonymous"), "anonymous");
    assert_eq!(auth_field(&Some(j(r#"{"name": 3}"#)), "name", "anonymous"), "anonymous");
}

#[test]
fn clients_see_the_game() {
    let (mut ctx, mut s) = room(&[("a", "u1", "ann")]);
    let v = s.to_json().to_value();
    assert_eq!(ctx.state_slot.as_ref().unwrap().full(), s.to_json());
    join(&mut ctx, &mut s, "b", "u2", "bob");
    on_move(&mut ctx, &mut s, "a", 4).unwrap();
    assert_eq!(ctx.state_slot.as_ref().unwrap().full().to_value()["board"][4], "X");
    on_leave(&mut ctx, &mut s, "b");
    assert_eq!(ctx.state_slot.as_ref().unwrap().full(), s.to_json());
    assert_eq!(v["board"].as_array().unwrap().len(), 9);
    assert_eq!(v["players"]["a"]["symbol"], "X");
    assert_eq!(v["status"], "waiting");
    assert_eq!(v["winner"], Value::Null);
}

#[test]
fn a_new_room_handles_moves_chat_and_rematches() {
    let (ctx, _) = room(&[]);
    assert_eq!(ctx.message_handlers(&MessageType::from("move")), vec![1]);
    assert_eq!(ctx.message_handlers(&MessageType::from("chat")), vec![2]);
    assert_eq!(ctx.message_handlers(&MessageType::from("rematch")), vec![3]);
    assert!(ctx.message_handlers(&MessageType::from("resign")).is_empty());
}
