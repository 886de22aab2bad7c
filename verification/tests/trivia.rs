//! Trivia: lobby, rounds, questions and the global chat.

use colyseus::client::{Client, Outbound};
use colyseus::driver::RoomListing;
use colyseus::error::codes;
use colyseus::json::Json;
use colyseus::protocol::MessageType;
use colyseus::room::RoomContext;
use colyseus::tictactoe::Claims;
use colyseus::trivia::chat::{announcement, ChatRoom};
use colyseus::trivia::game::{
    Answer, EndRound, FinishGame, Join, QuestionsReady, StartRound, Times, TriviaCommand,
    TriviaGame,
};
use colyseus::trivia::llm::{
    batch_prompt, complete_batch, mock_question, parse_question, parse_question_batch,
    parse_question_value, question_prompt, strip_fences, Question, RecentQuestions,
};
use colyseus::trivia::room::{auth_name, auth_user_id, ClientRequest, TriviaRoom};
use colyseus::trivia::state::{
    now_millis, points_for, PlayerState, TriviaState, REVEAL_BREAK_MS, ROUND_TIME_MS, TOTAL_ROUNDS,
};
use colyseus::value::parse_json;
use serde_json::Value;

const T: Times = Times { now: 1000, sys_now: 50000 };

fn j(text: &str) -> Json {
    parse_json(text).expect("valid JSON")
}

fn context() -> RoomContext {
    RoomContext::new(
        "r1".to_string(),
        "trivia".to_string(),
        "p1".to_string(),
        0,
        vec![],
        None,
        0,
    )
}

/// A room in a phase, with its context.
fn test_room(difficulty: &str, phase: &str) -> (TriviaRoom, RoomContext) {
    let mut room = TriviaRoom::new();
    let mut ctx = context();
    let mut state = TriviaState::new(difficulty, "test");
    state.phase = phase.to_string();
    ctx.set_state(state.to_json());
    room.game = TriviaGame::new(state, None);
    (room, ctx)
}

fn join_cmd(sid: &str, name: &str, wants_player: bool) -> TriviaCommand {
    TriviaCommand::Join(Join {
        session_id: sid.to_string(),
        name: name.to_string(),
        user_id: format!("u-{sid}"),
        wants_player,
    })
}

fn question(text: &str, answer_index: usize) -> Question {
    Question {
        text: text.to_string(),
        choices: vec!["a".to_string(), "b".to_string(), "c".to_string(), "d".to_string()],
        answer_index,
    }
}

fn player(user: &str, name: &str) -> PlayerState {
    PlayerState::new(user.to_string(), name.to_string())
}

/// Puts a client into the room.
fn seat(ctx: &mut RoomContext, sid: &str) {
    ctx.reserve_begin().unwrap();
    ctx.reserve_finish(sid, Json::Null, Ok(None), 0).unwrap();
    ctx.connect_begin(Client::new(format!("c-{sid}"), sid.to_string(), 0), None);
    ctx.join_finish(sid, Ok(()), format!("t-{sid}"), &Json::Null).unwrap();
}

fn frames(ctx: &mut RoomContext, i: usize) -> Vec<Value> {
    let out: Vec<Outbound> = std::mem::take(&mut ctx.clients[i].outbox);
    out.iter()
        .filter_map(|o| match o {
            Outbound::Bytes(b) => Some(rmp_serde::from_slice::<Value>(b).unwrap()),
            Outbound::Close(_, _) => None,
        })
        .collect()
}

#[test]
fn lobby_join_becomes_player() {
    let (mut room, mut ctx) = test_room("easy", "lobby");
    room.dispatch(&mut ctx, join_cmd("s1", "alice", true), T);
    let state = &room.game.state;
    assert!(state.players.contains("s1"));
    assert!(!state.spectators.contains("s1"));
    assert_eq!(state.owner.as_deref(), Some("s1"));
}

#[test]
fn midgame_join_becomes_spectator() {
    let (mut room, mut ctx) = test_room("easy", "question");
    room.dispatch(&mut ctx, join_cmd("s1", "alice", true), T);
    room.dispatch(&mut ctx, join_cmd("s2", "ff", true), T);
    let state = &room.game.state;
    // mid-game: nobody can become a player, both are spectators
    assert!(state.spectators.contains("s1"));
    assert!(state.spectators.contains("s2"));
    assert_eq!(state.players.len(), 0);
}

#[test]
fn full_lobby_join_becomes_spectator() {
    let (mut room, mut ctx) = test_room("easy", "lobby");
    for i in 0..4 {
        room.dispatch(&mut ctx, join_cmd(&format!("s{i}"), "p", true), T);
    }
    room.dispatch(&mut ctx, join_cmd("late", "ff", true), T);
    let state = &room.game.state;
    assert_eq!(state.players.len(), 4);
    assert!(state.spectators.contains("late"));
}

#[test]
fn same_account_takes_over_session() {
    let (mut room, mut ctx) = test_room("easy", "question");
    for sid in ["old", "new"] {
        room.dispatch(
            &mut ctx,
            TriviaCommand::Join(Join {
                session_id: sid.to_string(),
                name: "ff".to_string(),
                user_id: "u-ff".to_string(),
                wants_player: true,
            }),
            T,
        );
    }
    // spectator path: no takeover target among players, so both spectator entries
    assert!(!room.game.state.players.contains("old"));
}

#[test]
fn a_player_takes_over_score_answer_and_room() {
    let (mut room, mut ctx) = test_room("easy", "question");
    let mut p = player("u-ff", "ff");
    p.score = 70;
    p.answered = true;
    room.game.state.players.set("old", p);
    room.game.state.owner = Some("old".to_string());
    room.game.internal.round_answers.set("old", 3);
    seat(&mut ctx, "old");
    seat(&mut ctx, "new");
    room.dispatch(
        &mut ctx,
        TriviaCommand::Join(Join {
            session_id: "new".to_string(),
            name: "ff".to_string(),
            user_id: "u-ff".to_string(),
            wants_player: true,
        }),
        T,
    );
    let g = &room.game;
    assert!(!g.state.players.contains("old"));
    assert_eq!(g.state.players.get("new").unwrap().score, 70);
    assert_eq!(g.internal.round_answers.get("new"), Some(&3));
    assert_eq!(g.state.owner.as_deref(), Some("new"));
    assert!(ctx.get_client("old").is_none());
}

#[test]
fn end_round_scores_answers() {
    let (mut room, mut ctx) = test_room("medium", "question");
    room.game.state.round = 3;
    room.game.state.players.set("a", player("ua", "alice"));
    room.game.state.players.set("b", player("ub", "bob"));
    room.game.internal.correct_index = Some(2);
    room.game.internal.round_answers.set("a", 2); // correct
    room.game.internal.round_answers.set("b", 0); // wrong

    room.dispatch(&mut ctx, TriviaCommand::EndRound(EndRound), T);

    let state = &room.game.state;
    assert_eq!(state.phase, "reveal");
    assert_eq!(state.correct_index, Some(2));
    let a = state.players.get("a").unwrap();
    let b = state.players.get("b").unwrap();
    assert_eq!(a.score, 20); // medium = 20p
    assert_eq!(a.correct_count, 1);
    assert_eq!(b.score, 0);
    assert_eq!(b.choice, Some(0));
    assert_eq!(state.phase_ends_at, Some(50000 + REVEAL_BREAK_MS));
}

#[test]
fn finish_game_computes_winners() {
    let (mut room, mut ctx) = test_room("medium", "lobby");
    let mut alice = player("ua", "alice");
    alice.score = 100;
    let mut bob = player("ub", "bob");
    bob.score = 60;
    room.game.state.players.set("a", alice);
    room.game.state.players.set("b", bob);

    room.dispatch(&mut ctx, TriviaCommand::FinishGame(FinishGame), T);

    assert_eq!(room.game.state.phase, "finished");
    assert_eq!(room.game.state.winners, vec!["alice"]);
    // the results are published once
    room.dispatch(&mut ctx, TriviaCommand::FinishGame(FinishGame), T);
    assert_eq!(room.game.results.len(), 1);
    let v = room.game.results[0].to_value();
    assert_eq!(v["type"], "game_finished");
    assert_eq!(v["roomId"], "r1");
    assert_eq!(v["endedAt"], 50000);
    assert_eq!(v["players"][0]["score"], 100);
}

#[test]
fn start_round_uses_pending_question() {
    let (mut room, mut ctx) = test_room("medium", "lobby");
    room.game.internal.pending_questions.set("1", question("q?", 2));

    room.dispatch(&mut ctx, TriviaCommand::StartRound(StartRound { round: 1 }), T);

    assert_eq!(room.game.state.phase, "question");
    assert_eq!(room.game.state.question.as_ref().unwrap().text, "q?");
    assert_eq!(room.game.state.correct_index, None); // hidden until reveal
    assert_eq!(room.game.internal.correct_index, Some(2));

    // round 2 has nothing prefetched: generating + batch requested
    room.dispatch(&mut ctx, TriviaCommand::StartRound(StartRound { round: 2 }), T);
    assert_eq!(room.game.state.phase, "generating");
    assert_eq!(room.game.internal.needed_round, Some(2));
    assert_eq!(room.game.batches_wanted, 1);
}

#[test]
fn questions_ready_starts_waiting_game() {
    let (mut room, mut ctx) = test_room("medium", "generating");
    room.game.internal.needed_round = Some(1);
    let questions: Vec<Question> = (0..TOTAL_ROUNDS).map(|i| question(&format!("q{i}?"), 0)).collect();

    room.dispatch(&mut ctx, TriviaCommand::QuestionsReady(QuestionsReady { questions }), T);

    assert_eq!(room.game.state.phase, "question");
    assert_eq!(room.game.state.round, 1);
    assert_eq!(room.game.internal.pending_questions.len(), (TOTAL_ROUNDS - 1) as usize);
    assert_eq!(room.game.asked.len(), TOTAL_ROUNDS as usize);
}

#[test]
fn password_gate() {
    let mut room = TriviaRoom::new();
    let mut ctx = context();
    room.on_create(
        &mut ctx,
        &j(r#"{"difficulty": "easy", "category": "x", "password": "s3cret"}"#),
    )
    .unwrap();
    let claims = || Some(Claims { sub: "u1".to_string(), name: "tester".to_string() });

    // no password
    let err = room.on_auth(&j("{}"), Some("jwt"), claims()).unwrap_err();
    assert_eq!(err.message, "password required");

    // wrong password
    let err = room.on_auth(&j(r#"{"password": "nope"}"#), Some("jwt"), claims()).unwrap_err();
    assert_eq!(err.message, "wrong password");

    // correct password + valid token
    let auth = room.on_auth(&j(r#"{"password": "s3cret"}"#), Some("jwt"), claims()).unwrap();
    assert_eq!(auth.to_value()["name"], "tester");

    // hasPassword shows in the listing metadata but the password never does
    assert_eq!(ctx.metadata().unwrap().to_value()["hasPassword"], true);
    assert!(!ctx.metadata().unwrap().text().contains("s3cret"));
    assert!(!room.game.state.to_json().text().contains("s3cret"));
    // snapshots hold it with the private state
    let internal = ctx.internal.as_ref().unwrap().to_value();
    assert_eq!(internal["password"], "s3cret");
    assert_eq!(internal["batchInFlight"], false);
}

#[test]
fn no_password_means_open_room() {
    let mut room = TriviaRoom::new();
    let mut ctx = context();
    room.on_create(&mut ctx, &j(r#"{"difficulty": "easy"}"#)).unwrap();
    let claims = Some(Claims { sub: "u1".to_string(), name: "tester".to_string() });
    assert!(room.on_auth(&j("{}"), Some("jwt"), claims).is_ok());
    assert_eq!(room.on_auth(&j("{}"), None, None).unwrap_err().code, codes::AUTH_FAILED);
}

#[test]
fn options_of_rooms_are_checked() {
    let mut room = TriviaRoom::new();
    let mut ctx = context();
    let err = room.on_create(&mut ctx, &j(r#"{"difficulty": "brutal"}"#)).unwrap_err();
    assert_eq!(err.code, codes::MATCHMAKE_INVALID_CRITERIA);
    assert_eq!(err.message, "difficulty must be easy, medium or hard");
    // white space around a category is dropped, and one that is too long too
    room.on_create(&mut ctx, &j(r#"{"category": "  tarih  "}"#)).unwrap();
    assert_eq!(room.game.state.category, "tarih");
    assert_eq!(room.game.state.difficulty, "easy");
    let long = format!("{{\"category\": \"{}\"}}", "é".repeat(21));
    room.on_create(&mut ctx, &j(&long)).unwrap();
    assert_eq!(room.game.state.category, "genel");
    room.on_create(&mut ctx, &j(r#"{"password": "   "}"#)).unwrap();
    assert!(!room.game.state.has_password);
    assert_eq!(ctx.max_clients(), Some(14));
    assert_eq!(ctx.patch_rate(), Some(50));
}

#[test]
fn a_whole_game_is_played() {
    let mut room = TriviaRoom::new();
    let mut ctx = context();
    room.on_create(&mut ctx, &j(r#"{"difficulty": "hard"}"#)).unwrap();
    for (i, t) in ["ready", "start", "answer", "chat", "restart"].iter().enumerate() {
        assert_eq!(ctx.message_handlers(&MessageType::from(*t)), vec![i as u64 + 1]);
    }
    for sid in ["a", "b"] {
        seat(&mut ctx, sid);
        let auth = Some(j(&format!("{{\"userId\": \"u-{sid}\", \"name\": \"{sid}\"}}")));
        room.on_join(&mut ctx, sid, &j("{}"), &auth, T).unwrap();
    }
    // the first join asks for questions
    assert_eq!(room.game.batches_wanted, 1);
    let questions: Vec<Question> = (0..10).map(|i| question(&format!("q{i}"), 1)).collect();
    room.dispatch(&mut ctx, TriviaCommand::QuestionsReady(QuestionsReady { questions }), T);
    assert_eq!(room.game.state.phase, "lobby");

    // only the owner starts, and only when everybody is ready
    frames(&mut ctx, 1);
    room.on_request(&mut ctx, "b", ClientRequest::Start, T);
    assert_eq!(frames(&mut ctx, 1)[0][2], "only the room owner can start");
    frames(&mut ctx, 0);
    room.on_request(&mut ctx, "a", ClientRequest::Start, T);
    assert_eq!(frames(&mut ctx, 0)[0][2], "everyone must be ready");
    for sid in ["a", "b"] {
        room.on_request(&mut ctx, sid, ClientRequest::Ready, T);
    }
    room.on_request(&mut ctx, "a", ClientRequest::Start, T);
    assert_eq!(room.game.state.phase, "question");
    assert_eq!(room.game.state.phase_ends_at, Some(50000 + ROUND_TIME_MS));

    for round in 1..=10u32 {
        assert_eq!(room.game.state.round, round);
        room.on_request(&mut ctx, "a", ClientRequest::Answer(1), T);
        // a second answer does not count
        room.on_request(&mut ctx, "a", ClientRequest::Answer(0), T);
        assert_eq!(room.game.state.answers_in, 1);
        if round % 2 == 0 {
            // everyone's in: the round ends at once
            room.on_request(&mut ctx, "b", ClientRequest::Answer(0), T);
        } else {
            // time is up
            let id = room.game.round_timer.unwrap();
            assert!(ctx.clear_timeout(id));
            room.timer_fired(&mut ctx, id, T);
        }
        assert_eq!(room.game.state.phase, "reveal");
        assert_eq!(room.game.state.correct_index, Some(1));
        let id = room.game.break_timer.unwrap();
        room.timer_fired(&mut ctx, id, T);
        // a timer fires once
        room.timer_fired(&mut ctx, id, T);
    }
    assert_eq!(room.game.state.phase, "finished");
    assert_eq!(room.game.state.winners, vec!["a"]);
    assert_eq!(room.game.state.players.get("a").unwrap().score, 300);
    assert_eq!(room.game.results.len(), 1);
    // clients see it with the next patch
    assert_eq!(ctx.full_state_for(&Json::Null).unwrap().to_value()["phase"], "finished");

    room.on_request(&mut ctx, "b", ClientRequest::Restart, T);
    assert_eq!(room.game.state.phase, "finished");
    room.on_request(&mut ctx, "a", ClientRequest::Restart, T);
    assert_eq!(room.game.state.phase, "lobby");
    assert_eq!(room.game.state.players.get("a").unwrap().score, 0);
}

#[test]
fn spectators_and_strangers_do_not_answer() {
    let (mut room, mut ctx) = test_room("easy", "question");
    room.game.state.players.set("a", player("ua", "a"));
    room.dispatch(&mut ctx, join_cmd("s", "spec", false), T);
    let answer = |sid: &str, choice: usize| {
        TriviaCommand::Answer(Answer { session_id: sid.to_string(), choice })
    };
    room.dispatch(&mut ctx, answer("s", 1), T);
    room.dispatch(&mut ctx, answer("a", 4), T);
    assert_eq!(room.game.state.answers_in, 0);
    room.dispatch(&mut ctx, answer("a", 3), T);
    assert_eq!(room.game.state.phase, "reveal");
}

#[test]
fn leaving_passes_the_room_on_and_ends_the_game() {
    let (mut room, mut ctx) = test_room("easy", "lobby");
    room.dispatch(&mut ctx, join_cmd("a", "ann", true), T);
    room.dispatch(&mut ctx, join_cmd("b", "bob", true), T);
    room.on_leave(&mut ctx, "a", T);
    assert_eq!(room.game.state.owner.as_deref(), Some("b"));
    room.game.state.phase = "question".to_string();
    room.on_leave(&mut ctx, "b", T);
    assert_eq!(room.game.state.phase, "finished");
    assert_eq!(room.game.state.owner, None);
}

#[test]
fn a_departed_player_no_longer_blocks_the_round() {
    let (mut room, mut ctx) = test_room("easy", "question");
    for sid in ["a", "b"] {
        room.game.state.players.set(sid, player(sid, sid));
    }
    room.on_request(&mut ctx, "a", ClientRequest::Answer(0), T);
    assert_eq!(room.game.state.phase, "question");
    room.on_leave(&mut ctx, "b", T);
    assert_eq!(room.game.state.phase, "reveal");
}

#[test]
fn full_rooms_refuse() {
    let (mut room, mut ctx) = test_room("easy", "question");
    for i in 0..10 {
        room.dispatch(&mut ctx, join_cmd(&format!("s{i}"), "x", true), T);
    }
    let err = room.on_join(&mut ctx, "late", &j("{}"), &None, T).unwrap_err();
    assert_eq!(err.code, codes::MATCHMAKE_EXPIRED);
    assert_eq!(err.message, "room is full");
    let (mut room, mut ctx) = test_room("easy", "lobby");
    room.on_join(&mut ctx, "w", &j(r#"{"role": "spectator"}"#), &None, T).unwrap();
    assert!(room.game.state.spectators.contains("w"));
    assert_eq!(room.game.state.display_name("w").as_deref(), Some("anon"));
}

#[test]
fn drops_are_held_only_in_games() {
    let (room, mut ctx) = test_room("easy", "lobby");
    seat(&mut ctx, "a");
    room.on_drop(&mut ctx, "a", 0);
    assert!(ctx.check_reconnection("t-a").is_none());
    let (room, mut ctx) = test_room("easy", "question");
    seat(&mut ctx, "a");
    seat(&mut ctx, "b");
    frames(&mut ctx, 1);
    room.on_drop(&mut ctx, "a", 0);
    assert_eq!(ctx.check_reconnection("t-a").as_deref(), Some("a"));
    room.on_reconnect(&mut ctx);
    let said = frames(&mut ctx, 1);
    assert_eq!(said[0][2]["text"], "a player disconnected…");
    assert_eq!(said[1][2]["text"], "a player reconnected");
}

#[test]
fn restored_games_run_on() {
    // a question that has 8 seconds left
    let (mut room, mut ctx) = test_room("easy", "question");
    room.game.internal.batch_in_flight = true;
    room.game.state.phase_ends_at = Some(58000);
    room.resume_after_restore(&mut ctx, T);
    assert!(!room.game.internal.batch_in_flight);
    assert_eq!(ctx.timers.len(), 1);
    assert_eq!(ctx.timers[0].at, 1000 + 8000);
    let id = room.game.round_timer.unwrap();
    room.timer_fired(&mut ctx, id, T);
    assert_eq!(room.game.state.phase, "reveal");

    // a break whose end has passed is over at once
    let (mut room, mut ctx) = test_room("easy", "reveal");
    room.game.state.phase_ends_at = Some(1);
    room.resume_after_restore(&mut ctx, T);
    assert_eq!(ctx.timers[0].at, 1000);

    // questions are asked for again
    let (mut room, mut ctx) = test_room("easy", "generating");
    room.resume_after_restore(&mut ctx, T);
    assert_eq!(room.game.batches_wanted, 1);
    assert_eq!(room.game.internal.needed_round, Some(1));
}

#[test]
fn disposed_rooms_run_nothing() {
    let (mut room, mut ctx) = test_room("easy", "lobby");
    room.on_dispose();
    room.dispatch(&mut ctx, join_cmd("a", "ann", true), T);
    assert_eq!(room.game.state.players.len(), 0);
}

#[test]
fn room_chat_is_relayed_by_name() {
    let (mut room, mut ctx) = test_room("easy", "lobby");
    seat(&mut ctx, "a");
    room.dispatch(&mut ctx, join_cmd("a", "ann", true), T);
    frames(&mut ctx, 0);
    room.on_request(&mut ctx, "a", ClientRequest::Chat("x".repeat(400)), T);
    room.on_request(&mut ctx, "z", ClientRequest::Chat("hi".to_string()), T);
    let said = frames(&mut ctx, 0);
    assert_eq!(said[0][1], "chat");
    assert_eq!(said[0][2]["from"], "ann");
    assert_eq!(said[0][2]["text"].as_str().unwrap().len(), 300);
    assert_eq!(said[1][2]["from"], "???");
}

#[test]
fn auth_data_has_defaults() {
    assert_eq!(auth_name(&None), "anon");
    assert_eq!(auth_user_id(&None), "");
    assert_eq!(auth_name(&Some(j(r#"{"name": "ann"}"#))), "ann");
    assert_eq!(auth_user_id(&Some(j(r#"{"userId": "u1"}"#))), "u1");
    assert_eq!(points_for("easy"), 10);
    assert_eq!(points_for("medium"), 20);
    assert_eq!(points_for("hard"), 30);
    assert_eq!(points_for("?"), 10);
    assert!(now_millis() > 0);
}

#[test]
fn questions_are_read_and_shuffled() {
    let one = r#"{"question": "2+2?", "answers": [
        {"text": "4", "is_correct": true}, {"text": "3", "is_correct": false},
        {"text": "5", "is_correct": false}, {"text": "6", "is_correct": false}]}"#;
    let q = parse_question(one).unwrap();
    assert_eq!(q.text, "2+2?");
    assert_eq!(q.choices[q.answer_index], "4");
    let mut sorted = q.choices.clone();
    sorted.sort();
    assert_eq!(sorted, vec!["3", "4", "5", "6"]);
    // the same characters shuffle in the same way
    let a = parse_question_value(&j(one), "wxyz").unwrap();
    let b = parse_question_value(&j(one), "wxyz").unwrap();
    assert_eq!(a.choices, b.choices);
    assert!(parse_question("not json").is_err());
    assert_eq!(parse_question_value(&j("{}"), "abcd").unwrap_err(), "missing question");
    assert_eq!(
        parse_question_value(&j(r#"{"question": "q"}"#), "abcd").unwrap_err(),
        "missing answers"
    );
    assert_eq!(
        parse_question_value(&j(r#"{"question": "q", "answers": []}"#), "abcd").unwrap_err(),
        "expected 4 answers, got 0"
    );
}

#[test]
fn fences_are_stripped() {
    assert_eq!(strip_fences("```json\n{}\n```"), "{}");
    assert_eq!(strip_fences("{}"), "{}");
}

#[test]
fn batches_are_completed_from_the_bank() {
    let qs = complete_batch(vec![], 10);
    assert_eq!(qs.len(), 10);
    assert_eq!(qs[0].text, mock_question(0).text);
    let own = complete_batch(vec![question("mine", 0)], 3);
    assert_eq!(own.len(), 3);
    assert_eq!(own[0].text, "mine");
    let q = r#"{"question": "q", "answers": [{"text": "a", "is_correct": true},
        {"text": "b"}, {"text": "c"}, {"text": "d"}]}"#;
    let batch = parse_question_batch(&format!("```json\n{{\"questions\": [{q}, {q}]}}\n```")).unwrap();
    assert_eq!(batch.len(), 2);
    assert_eq!(batch[1].choices[batch[1].answer_index], "a");
    assert_eq!(parse_question_batch("{}").unwrap_err(), "missing questions array");
}

#[test]
fn recent_questions_are_remembered() {
    let mut recent = RecentQuestions::new();
    let texts: Vec<String> = (0..250).map(|i| format!("q{i}")).collect();
    recent.record_asked(&texts);
    let kept = recent.recent_questions();
    assert_eq!(kept.len(), 200);
    assert_eq!(kept[199], "q249");
    let ask = batch_prompt("easy", "tarih", 10, &kept);
    assert!(ask.contains("Adet: 10"));
    assert!(ask.contains("q249"));
    assert!(!ask.contains("q219"));
    assert!(!batch_prompt("easy", "tarih", 10, &vec![]).contains("sorular"));
    assert!(question_prompt("easy", "tarih", &kept).contains("q244"));
}

#[test]
fn the_chat_keeps_its_last_messages() {
    let mut chat = ChatRoom::new();
    let mut ctx = context();
    chat.on_create(&mut ctx);
    assert_eq!(ctx.message_handlers(&MessageType::from("chat")), vec![1]);
    assert!(!ctx.auto_dispose);
    assert_eq!(ctx.max_clients(), Some(500));
    seat(&mut ctx, "a");
    frames(&mut ctx, 0);
    let who = Some(j(r#"{"name": "ann"}"#));
    chat.on_chat(&mut ctx, &who, "  hi  ", 7);
    chat.on_chat(&mut ctx, &who, "   ", 8);
    let said = frames(&mut ctx, 0);
    assert_eq!(said.len(), 1);
    assert_eq!(said[0][1], "chat");
    assert_eq!(said[0][2]["from"], "ann");
    assert_eq!(said[0][2]["text"], "hi");
    assert_eq!(said[0][2]["at"], 7);
    assert_eq!(said[0][2]["roomId"], Value::Null);
    chat.on_chat(&mut ctx, &None, &"x".repeat(400), 9);
    assert_eq!(frames(&mut ctx, 0)[0][2]["text"].as_str().unwrap().len(), 300);
    for i in 0..60 {
        chat.system_message(&mut ctx, format!("m{i}"), Some("r9".to_string()), i);
    }
    frames(&mut ctx, 0);
    chat.on_join(&mut ctx, "a");
    let history = frames(&mut ctx, 0);
    assert_eq!(history[0][1], "history");
    let items = history[0][2].as_array().unwrap();
    assert_eq!(items.len(), 50);
    assert_eq!(items[0]["text"], "m10");
    assert_eq!(items[49]["text"], "m59");
    assert_eq!(items[49]["kind"], "system");
    assert_eq!(items[49]["roomId"], "r9");
    assert_eq!(chat.history().to_value().as_array().unwrap().len(), 50);
}

#[test]
fn new_trivia_rooms_are_announced() {
    let listing = |name: &str, extra: Vec<(String, Json)>| RoomListing {
        room_id: "r1".to_string(),
        name: name.to_string(),
        process_id: "p1".to_string(),
        clients: 0,
        max_clients: None,
        locked: false,
        is_private: false,
        metadata: None,
        created_at: 0,
        extra,
    };
    assert_eq!(announcement(&listing("chat", vec![])), None);
    assert_eq!(
        announcement(&listing("trivia", vec![])).as_deref(),
        Some("🎮 new game: genel (easy)")
    );
    let extra = vec![
        ("category".to_string(), j(r#""film""#)),
        ("difficulty".to_string(), j(r#""hard""#)),
    ];
    assert_eq!(
        announcement(&listing("trivia", extra)).as_deref(),
        Some("🎮 new game: film (hard)")
    );
    let odd = vec![("category".to_string(), j("7"))];
    assert_eq!(
        announcement(&listing("trivia", odd)).as_deref(),
        Some("🎮 new game: genel (easy)")
    );
}
