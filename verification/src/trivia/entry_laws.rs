//! Who gets into a trivia room, what is shown of it, and what its chat passes on.

use crate::client::OutboundView;
use crate::driver::ListingView;
use crate::json::JsonView;
use crate::protocol::TypeView;
use crate::room::{unique_sessions, ContextView};
use crate::room_laws::{is_in, law_allowed_client_may_come_back, message_bytes};
use crate::server_laws::member;
use crate::table::{lemma_table_index, table_get};
use crate::text::trimmed;
use crate::tictactoe::{authenticated, Claims};
use crate::trivia::chat::{
    announcement_text, chat_opened, history_json, message_json, posted, said, sent_history,
    system_view, ChatView,
};
use crate::trivia::game::{
    finish_step, player_result, CommandView, GameView, InternalView, Times, World,
};
use crate::trivia::internal::{answers_json, internal_json, waiting_json};
use crate::trivia::llm::{first_marked, last_of, latest, question_of, QuestionView};
use crate::trivia::room::{
    alarm_of, alarms_after, created_context, created_game, created_state, dropped, guest_of,
    is_difficulty, join_command, request_command, resumed, time_left, timer_handled, without_alarm,
    Alarm, ClientRequest, TriviaRoomView,
};
use crate::trivia::state::{
    meta_json, player_json, players_json, spectators_json, state_json, PlayerView, StateView,
};
use vstd::prelude::*;
use vstd::utf8::encode_utf8;

verus! {

// ---------------------------------------------------------------------
// getting in
// ---------------------------------------------------------------------

/// A room with a password lets in exactly those who give it; a room without one asks
/// for none. Who is let in is the user that the token names.
pub proof fn law_password_is_asked_for(
    password: Seq<char>,
    options: JsonView,
    has_token: bool,
    claims: Option<Claims>,
)
    ensures
        member(options, "password"@) != Some(JsonView::Str(password)) ==> (guest_of(
            Some(password),
            options,
            has_token,
            claims,
        ) matches Err(e) && e.code == 525),
        member(options, "password"@) == Some(JsonView::Str(password)) ==> guest_of(
            Some(password),
            options,
            has_token,
            claims,
        ) == authenticated(has_token, claims),
        guest_of(None, options, has_token, claims) == authenticated(has_token, claims),
{
}

/// Who asks to be a spectator watches, and everybody else wants to play. Who has no
/// name is called anon.
pub proof fn law_role_is_asked_for(
    session_id: Seq<char>,
    options: JsonView,
    auth: JsonView,
    user_id: Seq<char>,
    name: Seq<char>,
)
    requires
        member(auth, "userId"@) == Some(JsonView::Str(user_id)),
        member(auth, "name"@) == Some(JsonView::Str(name)),
    ensures
        join_command(session_id, options, Some(auth)) == CommandView::Join(
            session_id,
            name,
            user_id,
            member(options, "role"@) != Some(JsonView::Str("spectator"@)),
        ),
        join_command(session_id, options, None) == CommandView::Join(
            session_id,
            "anon"@,
            ""@,
            member(options, "role"@) != Some(JsonView::Str("spectator"@)),
        ),
{
}

/// A room is made with the difficulty that is asked for, which is easy where none is,
/// and which is one of three; with the category that is asked for, without the white
/// space around it, where that is neither empty nor longer than forty bytes; and with a
/// password where one is given, not blank and of at most sixty-four bytes.
pub proof fn law_room_is_as_asked_for(options: JsonView, d: Seq<char>, t: Seq<char>, p: Seq<char>)
    ensures
        is_difficulty(d) <==> d == "easy"@ || d == "medium"@ || d == "hard"@,
        member(options, "difficulty"@) == Some(JsonView::Str(d)) ==> created_state(
            options,
        ).difficulty == d,
        !(member(options, "difficulty"@) matches Some(JsonView::Str(_))) ==> created_state(
            options,
        ).difficulty == "easy"@,
        member(options, "category"@) == Some(JsonView::Str(t)) && trimmed(t).len() > 0
            && encode_utf8(trimmed(t)).len() <= 40 ==> created_state(options).category == trimmed(t),
        member(options, "category"@) == Some(JsonView::Str(t)) && (trimmed(t).len() == 0
            || encode_utf8(trimmed(t)).len() > 40) ==> created_state(options).category == "genel"@,
        !(member(options, "category"@) matches Some(JsonView::Str(_))) ==> created_state(
            options,
        ).category == "genel"@,
        member(options, "password"@) == Some(JsonView::Str(p)) && trimmed(p).len() > 0
            && encode_utf8(trimmed(p)).len() <= 64 ==> created_state(options).has_password
            && created_game(options).internal.password == Some(trimmed(p)),
        member(options, "password"@) == Some(JsonView::Str(p)) && (trimmed(p).len() == 0
            || encode_utf8(trimmed(p)).len() > 64) ==> !created_state(options).has_password
            && created_game(options).internal.password is None,
        !(member(options, "password"@) matches Some(JsonView::Str(_))) ==> !created_state(
            options,
        ).has_password && created_game(options).internal.password is None,
        created_state(options).phase == "lobby"@,
        created_state(options).round == 0,
        created_state(options).total_rounds == 10,
        created_state(options).players.len() == 0,
        created_state(options).spectators.len() == 0,
{
}

/// A new room takes fourteen clients, four to play and ten to watch, and shows its
/// state.
pub proof fn law_new_room_takes_fourteen(c: ContextView, options: JsonView)
    ensures
        created_context(c, options).max_clients == Some(14u32),
        created_context(c, options).patch_rate == Some(50u64),
        created_context(c, options).clients == c.clients,
        created_context(c, options).state matches Some((shown, _)) && shown == state_json(
            created_state(options),
        ),
        created_context(c, options).metadata == Some(meta_json(created_state(options))),
        created_context(c, options).updates.last().max_clients == Some(14u32),
        created_context(c, options).updates.last().metadata == Some(
            meta_json(created_state(options)),
        ),
{
}

/// What a client asks for is done in its own name.
pub proof fn law_requests_are_own(session_id: Seq<char>, choice: usize, text: String)
    ensures
        request_command(ClientRequest::Ready, session_id) == CommandView::ToggleReady(session_id),
        request_command(ClientRequest::Start, session_id) == CommandView::StartGame(session_id),
        request_command(ClientRequest::Answer(choice), session_id) == CommandView::Answer(
            session_id,
            choice,
        ),
        request_command(ClientRequest::Chat(text), session_id) == CommandView::Chat(
            session_id,
            text@,
        ),
        request_command(ClientRequest::Restart, session_id) == CommandView::Restart(session_id),
{
}

/// Whose connection drops while a game is on has a minute to come back; in the lobby
/// nobody waits for them.
pub proof fn law_dropped_client_has_a_minute(c: ContextView, s: StateView, i: int, now: u64)
    requires
        0 <= i < c.clients.len(),
        unique_sessions(c.clients),
        now + 60000 <= u64::MAX,
        !c.disposing,
        c.clients[i].reconnection_token.len() > 0,
        table_get(c.reconnections, c.clients[i].reconnection_token) is None,
    ensures
        s.phase == "lobby"@ ==> dropped(c, s, c.clients[i].session_id, now) == c,
        s.phase != "lobby"@ ==> (table_get(
            dropped(c, s, c.clients[i].session_id, now).reconnections,
            c.clients[i].reconnection_token,
        ) matches Some(e) && e.session_id == c.clients[i].session_id && e.expires_at == Some(
            (now + 60000) as u64,
        )),
{
    law_allowed_client_may_come_back(c, i, Some(60000), now, c.clients[i]);
}

// ---------------------------------------------------------------------
// what is shown
// ---------------------------------------------------------------------

/// What clients see of a room, field by field. The right answer is not part of the
/// question.
pub proof fn law_state_is_shown(s: StateView)
    ensures
        ({
            let v = state_json(s);
            &&& member(v, "difficulty"@) == Some(JsonView::Str(s.difficulty))
            &&& member(v, "category"@) == Some(JsonView::Str(s.category))
            &&& member(v, "phase"@) == Some(JsonView::Str(s.phase))
            &&& member(v, "round"@) == Some(JsonView::Int(s.round as int))
            &&& member(v, "totalRounds"@) == Some(JsonView::Int(s.total_rounds as int))
            &&& s.owner matches Some(o) ==> member(v, "owner"@) == Some(JsonView::Str(o))
            &&& s.owner is None ==> member(v, "owner"@) == Some(JsonView::Null)
            &&& member(v, "players"@) == Some(JsonView::Object(players_json(s.players)))
            &&& member(v, "spectators"@) == Some(JsonView::Object(spectators_json(s.spectators)))
            &&& s.question is None ==> member(v, "question"@) == Some(JsonView::Null)
            &&& s.correct_index matches Some(n) ==> member(v, "correctIndex"@) == Some(
                JsonView::Int(n as int),
            )
            &&& s.correct_index is None ==> member(v, "correctIndex"@) == Some(JsonView::Null)
            &&& s.phase_ends_at matches Some(t) ==> member(v, "phaseEndsAt"@) == Some(
                JsonView::Int(t as int),
            )
            &&& s.phase_ends_at is None ==> member(v, "phaseEndsAt"@) == Some(JsonView::Null)
            &&& member(v, "answersIn"@) == Some(JsonView::Int(s.answers_in as int))
            &&& member(v, "winners"@) matches Some(JsonView::Array(ws)) && ws.len()
                == s.winners.len()
            &&& member(v, "hasPassword"@) == Some(JsonView::Bool(s.has_password))
        }),
{
    reveal_strlit("difficulty");
    reveal_strlit("category");
    reveal_strlit("phase");
    reveal_strlit("round");
    reveal_strlit("totalRounds");
    reveal_strlit("owner");
    reveal_strlit("players");
    reveal_strlit("spectators");
    reveal_strlit("question");
    reveal_strlit("correctIndex");
    reveal_strlit("phaseEndsAt");
    reveal_strlit("answersIn");
    reveal_strlit("winners");
    reveal_strlit("hasPassword");
    assert("difficulty"@.len() == 10);
    assert("category"@.len() == 8);
    assert("phase"@.len() == 5);
    assert("round"@.len() == 5);
    assert("totalRounds"@.len() == 11);
    assert("owner"@.len() == 5);
    assert("players"@.len() == 7);
    assert("spectators"@.len() == 10);
    assert("question"@.len() == 8);
    assert("correctIndex"@.len() == 12);
    assert("phaseEndsAt"@.len() == 11);
    assert("answersIn"@.len() == 9);
    assert("winners"@.len() == 7);
    assert("hasPassword"@.len() == 11);
    assert("difficulty"@[0] != "spectators"@[0]);
    assert("category"@[0] != "question"@[0]);
    assert("phase"@[0] != "round"@[0]);
    assert("phase"@[0] != "owner"@[0]);
    assert("round"@[0] != "owner"@[0]);
    assert("totalRounds"@[0] != "phaseEndsAt"@[0]);
    assert("totalRounds"@[0] != "hasPassword"@[0]);
    assert("players"@[0] != "winners"@[0]);
    assert("phaseEndsAt"@[0] != "hasPassword"@[0]);
}

/// A question is shown with its text and its choices, in their order.
pub proof fn law_question_is_shown(s: StateView, i: int)
    requires
        s.question matches Some(q) && 0 <= i < q.choices.len(),
    ensures
        member(state_json(s), "question"@) matches Some(v) && member(v, "text"@) == Some(
            JsonView::Str(s.question->Some_0.text),
        ) && (member(v, "choices"@) matches Some(JsonView::Array(cs)) && cs.len()
            == s.question->Some_0.choices.len() && cs[i] == JsonView::Str(
            s.question->Some_0.choices[i],
        )) && member(v, "answerIndex"@) is None,
{
    reveal_strlit("difficulty");
    reveal_strlit("category");
    reveal_strlit("phase");
    reveal_strlit("round");
    reveal_strlit("totalRounds");
    reveal_strlit("owner");
    reveal_strlit("players");
    reveal_strlit("spectators");
    reveal_strlit("question");
    reveal_strlit("correctIndex");
    reveal_strlit("phaseEndsAt");
    reveal_strlit("answersIn");
    reveal_strlit("winners");
    reveal_strlit("hasPassword");
    assert("difficulty"@.len() == 10);
    assert("category"@.len() == 8);
    assert("phase"@.len() == 5);
    assert("round"@.len() == 5);
    assert("totalRounds"@.len() == 11);
    assert("owner"@.len() == 5);
    assert("players"@.len() == 7);
    assert("spectators"@.len() == 10);
    assert("question"@.len() == 8);
    assert("correctIndex"@.len() == 12);
    assert("phaseEndsAt"@.len() == 11);
    assert("answersIn"@.len() == 9);
    assert("winners"@.len() == 7);
    assert("hasPassword"@.len() == 11);
    assert("difficulty"@[0] != "spectators"@[0]);
    assert("category"@[0] != "question"@[0]);
    assert("phase"@[0] != "round"@[0]);
    assert("phase"@[0] != "owner"@[0]);
    assert("round"@[0] != "owner"@[0]);
    assert("totalRounds"@[0] != "phaseEndsAt"@[0]);
    assert("totalRounds"@[0] != "hasPassword"@[0]);
    assert("players"@[0] != "winners"@[0]);
    assert("phaseEndsAt"@[0] != "hasPassword"@[0]);
    law_state_is_shown(s);
    reveal_strlit("text");
    reveal_strlit("choices");
    reveal_strlit("answerIndex");
    assert("text"@.len() == 4);
    assert("choices"@.len() == 7);
    assert("answerIndex"@.len() == 11);
    let v = crate::trivia::state::question_json(s.question);
    assert(member(state_json(s), "question"@) == Some(v));
}

/// The winners are shown by name.
pub proof fn law_winners_are_shown(s: StateView, i: int)
    requires
        0 <= i < s.winners.len(),
    ensures
        member(state_json(s), "winners"@) matches Some(JsonView::Array(ws)) && ws[i]
            == JsonView::Str(s.winners[i]),
{
    reveal_strlit("difficulty");
    reveal_strlit("category");
    reveal_strlit("phase");
    reveal_strlit("round");
    reveal_strlit("totalRounds");
    reveal_strlit("owner");
    reveal_strlit("players");
    reveal_strlit("spectators");
    reveal_strlit("question");
    reveal_strlit("correctIndex");
    reveal_strlit("phaseEndsAt");
    reveal_strlit("answersIn");
    reveal_strlit("winners");
    reveal_strlit("hasPassword");
    assert("difficulty"@.len() == 10);
    assert("category"@.len() == 8);
    assert("phase"@.len() == 5);
    assert("round"@.len() == 5);
    assert("totalRounds"@.len() == 11);
    assert("owner"@.len() == 5);
    assert("players"@.len() == 7);
    assert("spectators"@.len() == 10);
    assert("question"@.len() == 8);
    assert("correctIndex"@.len() == 12);
    assert("phaseEndsAt"@.len() == 11);
    assert("answersIn"@.len() == 9);
    assert("winners"@.len() == 7);
    assert("hasPassword"@.len() == 11);
    assert("difficulty"@[0] != "spectators"@[0]);
    assert("category"@[0] != "question"@[0]);
    assert("phase"@[0] != "round"@[0]);
    assert("phase"@[0] != "owner"@[0]);
    assert("round"@[0] != "owner"@[0]);
    assert("totalRounds"@[0] != "phaseEndsAt"@[0]);
    assert("totalRounds"@[0] != "hasPassword"@[0]);
    assert("players"@[0] != "winners"@[0]);
    assert("phaseEndsAt"@[0] != "hasPassword"@[0]);
    law_state_is_shown(s);
    assert(member(state_json(s), "winners"@) == Some(
        crate::trivia::state::texts_json(s.winners),
    ));
}

/// A player is shown with all that there is to know, under the own session.
pub proof fn law_players_are_shown(ps: Seq<(Seq<char>, PlayerView)>, session_id: Seq<char>)
    ensures
        ({
            let v = member(JsonView::Object(players_json(ps)), session_id);
            &&& table_get(ps, session_id) matches Some(p) ==> v is Some && shows_player(
                v->Some_0,
                p,
            )
            &&& table_get(ps, session_id) is None ==> v is None
        }),
    decreases ps.len(),
{
    reveal_strlit("userId");
    reveal_strlit("name");
    reveal_strlit("ready");
    reveal_strlit("score");
    reveal_strlit("correctCount");
    reveal_strlit("answered");
    reveal_strlit("choice");
    assert("userId"@.len() == 6);
    assert("name"@.len() == 4);
    assert("ready"@.len() == 5);
    assert("score"@.len() == 5);
    assert("correctCount"@.len() == 12);
    assert("answered"@.len() == 8);
    assert("choice"@.len() == 6);
    assert("userId"@[0] != "choice"@[0]);
    assert("ready"@[0] != "score"@[0]);
    if ps.len() > 0 {
        law_players_are_shown(ps.drop_last(), session_id);
        lemma_table_index(ps.drop_last(), session_id);
        assert(shows_player(player_json(ps.last().1), ps.last().1));
    }
}

/// A value shows a player.
pub open spec fn shows_player(v: JsonView, p: PlayerView) -> bool {
    &&& member(v, "userId"@) == Some(JsonView::Str(p.user_id))
    &&& member(v, "name"@) == Some(JsonView::Str(p.name))
    &&& member(v, "ready"@) == Some(JsonView::Bool(p.ready))
    &&& member(v, "score"@) == Some(JsonView::Int(p.score as int))
    &&& member(v, "correctCount"@) == Some(JsonView::Int(p.correct_count as int))
    &&& member(v, "answered"@) == Some(JsonView::Bool(p.answered))
    &&& p.choice matches Some(n) ==> member(v, "choice"@) == Some(JsonView::Int(n as int))
    &&& p.choice is None ==> member(v, "choice"@) == Some(JsonView::Null)
}

/// A spectator is shown by name, under the own session.
pub proof fn law_spectators_are_shown(ss: Seq<(Seq<char>, Seq<char>)>, session_id: Seq<char>)
    ensures
        ({
            let v = member(JsonView::Object(spectators_json(ss)), session_id);
            &&& table_get(ss, session_id) matches Some(n) ==> v is Some && member(
                v->Some_0,
                "name"@,
            ) == Some(JsonView::Str(n))
            &&& table_get(ss, session_id) is None ==> v is None
        }),
    decreases ss.len(),
{
    if ss.len() > 0 {
        law_spectators_are_shown(ss.drop_last(), session_id);
        lemma_table_index(ss.drop_last(), session_id);
    }
}

/// A room's listing tells its phase, its round, how many play and watch, and whether it
/// asks for a password.
pub proof fn law_listing_tells_phase(s: StateView)
    ensures
        member(meta_json(s), "phase"@) == Some(JsonView::Str(s.phase)),
        member(meta_json(s), "round"@) == Some(JsonView::Int(s.round as int)),
        member(meta_json(s), "players"@) == Some(JsonView::Int(s.players.len() as int)),
        member(meta_json(s), "spectators"@) == Some(JsonView::Int(s.spectators.len() as int)),
        member(meta_json(s), "hasPassword"@) == Some(JsonView::Bool(s.has_password)),
{
    reveal_strlit("phase");
    reveal_strlit("round");
    reveal_strlit("players");
    reveal_strlit("spectators");
    reveal_strlit("hasPassword");
    assert("phase"@.len() == 5);
    assert("round"@.len() == 5);
    assert("players"@.len() == 7);
    assert("spectators"@.len() == 10);
    assert("hasPassword"@.len() == 11);
    assert("phase"@[0] != "round"@[0]);
}

/// What only the server knows is kept with a snapshot: the password, what was answered,
/// which questions wait and which choice is right.
pub proof fn law_secrets_are_kept(i: InternalView)
    ensures
        ({
            let v = internal_json(i);
            &&& i.password matches Some(p) ==> member(v, "password"@) == Some(JsonView::Str(p))
            &&& i.password is None ==> member(v, "password"@) == Some(JsonView::Null)
            &&& member(v, "roundAnswers"@) == Some(JsonView::Object(answers_json(i.round_answers)))
            &&& member(v, "pendingQuestions"@) == Some(
                JsonView::Object(waiting_json(i.pending_questions)),
            )
            &&& i.correct_index matches Some(n) ==> member(v, "correctIndex"@) == Some(
                JsonView::Int(n as int),
            )
            &&& i.correct_index is None ==> member(v, "correctIndex"@) == Some(JsonView::Null)
            &&& member(v, "batchInFlight"@) == Some(JsonView::Bool(i.batch_in_flight))
            &&& i.needed_round matches Some(n) ==> member(v, "neededRound"@) == Some(
                JsonView::Int(n as int),
            )
            &&& i.needed_round is None ==> member(v, "neededRound"@) == Some(JsonView::Null)
        }),
{
    reveal_strlit("password");
    reveal_strlit("roundAnswers");
    reveal_strlit("pendingQuestions");
    reveal_strlit("correctIndex");
    reveal_strlit("batchInFlight");
    reveal_strlit("neededRound");
    assert("password"@.len() == 8);
    assert("roundAnswers"@.len() == 12);
    assert("pendingQuestions"@.len() == 16);
    assert("correctIndex"@.len() == 12);
    assert("batchInFlight"@.len() == 13);
    assert("neededRound"@.len() == 11);
    assert("roundAnswers"@[0] != "correctIndex"@[0]);
}

/// Each answer of the round is kept under its player's session.
pub proof fn law_answers_are_kept(s: Seq<(Seq<char>, usize)>, session_id: Seq<char>)
    ensures
        ({
            let v = member(JsonView::Object(answers_json(s)), session_id);
            &&& table_get(s, session_id) matches Some(n) ==> v == Some(JsonView::Int(n as int))
            &&& table_get(s, session_id) is None ==> v is None
        }),
    decreases s.len(),
{
    if s.len() > 0 {
        law_answers_are_kept(s.drop_last(), session_id);
        lemma_table_index(s.drop_last(), session_id);
    }
}

/// Each waiting question is kept under its round, with its right answer.
pub proof fn law_questions_are_kept(s: Seq<(Seq<char>, QuestionView)>, round: Seq<char>)
    ensures
        ({
            let v = member(JsonView::Object(waiting_json(s)), round);
            &&& table_get(s, round) matches Some(q) ==> v is Some && member(v->Some_0, "text"@)
                == Some(JsonView::Str(q.text)) && member(v->Some_0, "answerIndex"@) == Some(
                JsonView::Int(q.answer_index as int),
            ) && (member(v->Some_0, "choices"@) matches Some(JsonView::Array(cs)) && cs.len()
                == q.choices.len())
            &&& table_get(s, round) is None ==> v is None
        }),
    decreases s.len(),
{
    reveal_strlit("text");
    reveal_strlit("choices");
    reveal_strlit("answerIndex");
    assert("text"@.len() == 4);
    assert("choices"@.len() == 7);
    assert("answerIndex"@.len() == 11);
    if s.len() > 0 {
        law_questions_are_kept(s.drop_last(), round);
        lemma_table_index(s.drop_last(), round);
    }
}

/// A game that is over shows no question, runs no clock, and has for winners those with
/// the best score. Its results are published once, with each player's score and right
/// answers.
pub proof fn law_results_are_published(w: World, t: Times, i: int)
    requires
        w.game.state.phase != "finished"@,
        0 <= i < w.game.state.players.len(),
    ensures
        ({
            let after = finish_step(w, t).game;
            let v = after.results.last();
            let p = w.game.state.players[i].1;
            &&& after.state.phase == "finished"@
            &&& after.state.question is None
            &&& after.state.phase_ends_at is None
            &&& after.state.players == w.game.state.players
            &&& after.results.len() == w.game.results.len() + 1
            &&& member(v, "type"@) == Some(JsonView::Str("game_finished"@))
            &&& member(v, "roomId"@) == Some(JsonView::Str(w.ctx.room_id))
            &&& member(v, "difficulty"@) == Some(JsonView::Str(w.game.state.difficulty))
            &&& member(v, "category"@) == Some(JsonView::Str(w.game.state.category))
            &&& member(v, "endedAt"@) == Some(JsonView::Int(t.sys_now as int))
            &&& member(v, "players"@) matches Some(JsonView::Array(ps)) && ps.len()
                == w.game.state.players.len() && member(ps[i], "userId"@) == Some(
                JsonView::Str(p.user_id),
            ) && member(ps[i], "name"@) == Some(JsonView::Str(p.name)) && member(ps[i], "score"@)
                == Some(JsonView::Int(p.score as int)) && member(ps[i], "correct"@) == Some(
                JsonView::Int(p.correct_count as int),
            )
        }),
{
    reveal_strlit("type");
    reveal_strlit("roomId");
    reveal_strlit("difficulty");
    reveal_strlit("category");
    reveal_strlit("endedAt");
    reveal_strlit("players");
    assert("type"@.len() == 4);
    assert("roomId"@.len() == 6);
    assert("difficulty"@.len() == 10);
    assert("category"@.len() == 8);
    assert("endedAt"@.len() == 7);
    assert("players"@.len() == 7);
    assert("endedAt"@[0] != "players"@[0]);
    reveal_strlit("userId");
    reveal_strlit("name");
    reveal_strlit("score");
    reveal_strlit("correct");
    assert("userId"@.len() == 6);
    assert("name"@.len() == 4);
    assert("score"@.len() == 5);
    assert("correct"@.len() == 7);
    let ps = w.game.state.players.map_values(|e: (Seq<char>, PlayerView)| player_result(e.1));
    assert(ps[i] == player_result(w.game.state.players[i].1));
    let v = finish_step(w, t).game.results.last();
    assert(member(v, "players"@) == Some(JsonView::Array(ps)));
}

// ---------------------------------------------------------------------
// time
// ---------------------------------------------------------------------

/// A phase that was interrupted goes on for what was left of it.
pub proof fn law_phase_goes_on(ends_at: u64, sys_now: u64, whole: u64)
    ensures
        ends_at > sys_now ==> time_left(Some(ends_at), sys_now, whole) == ends_at - sys_now,
        ends_at <= sys_now ==> time_left(Some(ends_at), sys_now, whole) == 0,
        time_left(None, sys_now, whole) == whole,
{
}

/// A restored room goes on where it was: an open question and a shown answer have a
/// timer for what is left of their time, twenty and five seconds where that is not
/// known, and its going off ends the round or the break. Players, scores and the
/// question are as they were.
pub proof fn law_restored_room_goes_on(c: ContextView, r: TriviaRoomView, t: Times)
    requires
        c.next_timer_id < u64::MAX,
        t.now <= 0xffff_ffff_ffff,
        r.game.state.phase_ends_at matches Some(e) ==> e <= 0xffff_ffff_ffff,
        r.game.state.phase == "question"@ || r.game.state.phase == "reveal"@,
    ensures
        ({
            let (after, room) = resumed(c, r, t);
            let left = match r.game.state.phase_ends_at {
                Some(e) => if e > t.sys_now {
                    e - t.sys_now
                } else {
                    0
                },
                None => if r.game.state.phase == "question"@ {
                    20000
                } else {
                    5000
                },
            };
            &&& after.timers.len() == c.timers.len() + 1
            &&& after.timers.last().at == t.now + left
            &&& after.timers.last().id == c.next_timer_id + 1
            &&& r.game.state.phase == "question"@ ==> alarm_of(
                room.alarms,
                after.timers.last().id,
            ) == Some(Alarm::RoundEnds)
            &&& r.game.state.phase == "reveal"@ ==> alarm_of(room.alarms, after.timers.last().id)
                == Some(Alarm::BreakEnds)
            &&& room.game.state == r.game.state
            &&& !room.game.internal.batch_in_flight
            &&& room.game.internal.round_answers == r.game.internal.round_answers
            &&& room.game.internal.correct_index == r.game.internal.correct_index
        }),
{
    reveal_strlit("generating");
    reveal_strlit("question");
    reveal_strlit("reveal");
    assert("generating"@.len() == 10);
    assert("question"@.len() == 8);
    assert("reveal"@.len() == 6);
}

/// An alarm that was taken out is gone, and no other is.
pub proof fn law_alarm_is_taken_out(alarms: Seq<(u64, Alarm)>, id: u64, other: u64)
    requires
        other != id,
    ensures
        alarm_of(without_alarm(alarms, id), id) is None,
        alarm_of(without_alarm(alarms, id), other) == alarm_of(alarms, other),
    decreases alarms.len(),
{
    if alarms.len() > 0 {
        let init = alarms.drop_last();
        law_alarm_is_taken_out(init, id, other);
        let rest = without_alarm(init, id);
        if alarms.last().0 != id {
            assert(rest.push(alarms.last()).drop_last() =~= rest);
        }
    }
}

/// A timer that is set for a round ends the round, and one that is set for a break ends
/// the break; the timer of a round that ended before ends nothing.
pub proof fn law_timers_end_what_they_are_set_for(
    alarms: Seq<(u64, Alarm)>,
    before: GameView,
    after: GameView,
    id: u64,
)
    ensures
        after.round_timer == Some(id) && before.round_timer != Some(id) && after.break_timer
            == before.break_timer ==> alarm_of(alarms_after(alarms, before, after), id) == Some(
            Alarm::RoundEnds,
        ),
        after.break_timer == Some(id) && before.break_timer != Some(id) ==> alarm_of(
            alarms_after(alarms, before, after),
            id,
        ) == Some(Alarm::BreakEnds),
        before.round_timer == Some(id) && after.round_timer is None && after.break_timer != Some(id)
            ==> alarm_of(alarms_after(alarms, before, after), id) is None,
{
    law_alarm_is_taken_out(
        alarms,
        id,
        if id == 0 {
            1
        } else {
            0
        },
    );
    let kept = match (before.round_timer, after.round_timer) {
        (Some(x), None) => without_alarm(alarms, x),
        _ => alarms,
    };
    if let Some(x) = after.break_timer {
        assert(kept.push((x, Alarm::BreakEnds)).drop_last() =~= kept);
        if let Some(y) = after.round_timer {
            let with_round = kept.push((y, Alarm::RoundEnds));
            assert(with_round.push((x, Alarm::BreakEnds)).drop_last() =~= with_round);
        }
    }
}

/// A timer that is nobody's changes nothing.
pub proof fn law_unknown_timer_changes_nothing(
    c: ContextView,
    r: TriviaRoomView,
    id: u64,
    t: Times,
)
    requires
        alarm_of(r.alarms, id) is None,
    ensures
        timer_handled(c, r, id, t) == (c, r),
{
}

// ---------------------------------------------------------------------
// chat
// ---------------------------------------------------------------------

/// The chat room is there for five hundred clients, and stays when nobody is in it.
pub proof fn law_chat_room_stays(c: ContextView)
    ensures
        !chat_opened(c).auto_dispose,
        chat_opened(c).max_clients == Some(500u32),
        chat_opened(c).updates.last().max_clients == Some(500u32),
        chat_opened(c).clients == c.clients,
{
}

/// What is said, without the white space around it and up to three hundred characters,
/// goes to everybody who is in and is the last of the history, under the name of who
/// said it. What is blank goes nowhere.
pub proof fn law_chat_is_passed_on(
    c: ContextView,
    history: Seq<ChatView>,
    auth: JsonView,
    name: Seq<char>,
    text: Seq<char>,
    at: u64,
    i: int,
)
    requires
        0 <= i < c.clients.len(),
        member(auth, "name"@) == Some(JsonView::Str(name)),
    ensures
        ({
            let (after, kept) = said(c, history, Some(auth), text, at);
            let t = trimmed(text);
            &&& t.len() == 0 ==> after == c && kept == history
            &&& t.len() > 0 ==> {
                &&& kept.last().from == name
                &&& t.len() <= 300 ==> kept.last().text == t
                &&& t.len() > 300 ==> kept.last().text == t.take(300)
                &&& kept.last().at == at
                &&& kept.last().kind == "chat"@
                &&& kept.last().room_id is None
                &&& is_in(c.clients[i]) ==> after.clients[i].outbox == c.clients[i].outbox.push(
                    OutboundView::Bytes(
                        message_bytes(TypeView::Str("chat"@), message_json(kept.last())),
                    ),
                )
                &&& !is_in(c.clients[i]) ==> after.clients[i] == c.clients[i]
            }
        }),
{
}

/// The history holds the last fifty messages, in their order.
pub proof fn law_history_holds_last_fifty(
    c: ContextView,
    history: Seq<ChatView>,
    m: ChatView,
    i: int,
)
    requires
        history.len() <= 50,
        0 <= i < history.len(),
    ensures
        ({
            let kept = posted(c, history, m).1;
            &&& kept.len() <= 50
            &&& kept.last() == m
            &&& history.len() < 50 ==> kept.len() == history.len() + 1 && kept[i] == history[i]
            &&& history.len() == 50 ==> kept.len() == 50 && (i > 0 ==> kept[i - 1] == history[i])
        }),
{
}

/// A message is shown with who said it, what, when, of what kind, and for which room.
pub proof fn law_message_is_shown(m: ChatView, text: Seq<char>, room: Option<Seq<char>>, at: u64)
    ensures
        member(message_json(m), "from"@) == Some(JsonView::Str(m.from)),
        member(message_json(m), "text"@) == Some(JsonView::Str(m.text)),
        member(message_json(m), "at"@) == Some(JsonView::Int(m.at as int)),
        member(message_json(m), "kind"@) == Some(JsonView::Str(m.kind)),
        m.room_id matches Some(r) ==> member(message_json(m), "roomId"@) == Some(JsonView::Str(r)),
        m.room_id is None ==> member(message_json(m), "roomId"@) == Some(JsonView::Null),
        system_view(text, room, at).from == "system"@,
        system_view(text, room, at).kind == "system"@,
        system_view(text, room, at).text == text,
        system_view(text, room, at).room_id == room,
        system_view(text, room, at).at == at,
{
    reveal_strlit("from");
    reveal_strlit("text");
    reveal_strlit("at");
    reveal_strlit("kind");
    reveal_strlit("roomId");
    assert("from"@.len() == 4);
    assert("text"@.len() == 4);
    assert("at"@.len() == 2);
    assert("kind"@.len() == 4);
    assert("roomId"@.len() == 6);
    assert("from"@[0] != "text"@[0]);
    assert("from"@[0] != "kind"@[0]);
    assert("text"@[0] != "kind"@[0]);
}

/// Who joins is sent the history, in its order, and nobody else is.
pub proof fn law_who_joins_reads_history(
    c: ContextView,
    history: Seq<ChatView>,
    i: int,
    j: int,
    k: int,
)
    requires
        unique_sessions(c.clients),
        0 <= i < c.clients.len(),
        0 <= j < c.clients.len(),
        i != j,
        is_in(c.clients[i]),
        0 <= k < history.len(),
    ensures
        ({
            let after = sent_history(c, history, c.clients[i].session_id);
            &&& after.clients[i].outbox == c.clients[i].outbox.push(
                OutboundView::Bytes(
                    message_bytes(TypeView::Str("history"@), history_json(history)),
                ),
            )
            &&& after.clients[j] == c.clients[j]
            &&& history_json(history) matches JsonView::Array(ms) && ms.len() == history.len()
                && ms[k] == message_json(history[k])
        }),
{
    let sid = c.clients[i].session_id;
    crate::room_laws::law_message_reaches_one(
        c,
        sid,
        TypeView::Str("history"@),
        history_json(history),
        i,
    );
    crate::room_laws::law_message_reaches_one(
        c,
        sid,
        TypeView::Str("history"@),
        history_json(history),
        j,
    );
    if i < j {
        assert(c.clients[i].session_id != c.clients[j].session_id);
    } else {
        assert(c.clients[j].session_id != c.clients[i].session_id);
    }
}

/// The chat hears of trivia rooms, with their category and their difficulty, and of no
/// others.
pub proof fn law_games_are_announced(l: ListingView, category: Seq<char>, difficulty: Seq<char>)
    ensures
        l.name != "trivia"@ ==> announcement_text(l) is None,
        l.name == "trivia"@ ==> announcement_text(l) is Some,
        l.name == "trivia"@ && l.extra.dom().contains("category"@) && l.extra["category"@]
            == JsonView::Str(category) && l.extra.dom().contains("difficulty"@)
            && l.extra["difficulty"@] == JsonView::Str(difficulty) ==> announcement_text(l) == Some(
            "🎮 new game: "@ + category + " ("@ + difficulty + ")"@,
        ),
{
}

// ---------------------------------------------------------------------
// questions
// ---------------------------------------------------------------------

/// The first answer that is marked is the one that counts.
pub proof fn law_first_marked_answer_counts(answers: Seq<JsonView>)
    ensures
        first_marked(answers) matches Some(i) ==> 0 <= i < answers.len() && member(
            answers[i],
            "is_correct"@,
        ) == Some(JsonView::Bool(true)) && forall|j: int|
            0 <= j < i ==> member(#[trigger] answers[j], "is_correct"@) != Some(
                JsonView::Bool(true),
            ),
        first_marked(answers) is None ==> forall|j: int|
            0 <= j < answers.len() ==> member(#[trigger] answers[j], "is_correct"@) != Some(
                JsonView::Bool(true),
            ),
    decreases answers.len(),
{
    if answers.len() > 0 {
        let init = answers.drop_last();
        law_first_marked_answer_counts(init);
        assert forall|j: int|
            0 <= j < init.len() && first_marked(init) is None implies member(
            #[trigger] answers[j],
            "is_correct"@,
        ) != Some(JsonView::Bool(true)) by {
            assert(init[j] == answers[j]);
        }
        if let Some(i) = first_marked(init) {
            assert forall|j: int| 0 <= j < i implies member(#[trigger] answers[j], "is_correct"@)
                != Some(JsonView::Bool(true)) by {
                assert(init[j] == answers[j]);
            }
        }
    }
}

/// A generated question keeps its text, has four choices, each the text of one of its
/// answers, and the choice that counts is an answer that is marked as right.
pub proof fn law_generated_question(v: JsonView, entropy: Seq<char>)
    requires
        entropy.len() >= 4,
        question_of(v, entropy) is Ok,
    ensures
        ({
            let q = question_of(v, entropy)->Ok_0;
            &&& member(v, "question"@) == Some(JsonView::Str(q.text))
            &&& q.choices.len() == 4
            &&& q.answer_index < 4
            &&& member(v, "answers"@) matches Some(JsonView::Array(answers)) && answers.len() == 4
                && exists|i: int|
                0 <= i < 4 && member(#[trigger] answers[i], "is_correct"@) == Some(
                    JsonView::Bool(true),
                ) && member(answers[i], "text"@) == Some(
                    JsonView::Str(q.choices[q.answer_index as int]),
                )
        }),
{
    crate::trivia::llm::law_shuffle_keeps_answer(v, entropy);
    let answers = member(v, "answers"@)->Some_0->Array_0;
    law_first_marked_answer_counts(answers);
    let i = first_marked(answers)->Some_0;
    lemma_answer_texts(answers, i);
    assert(member(answers[i], "is_correct"@) == Some(JsonView::Bool(true)));
}

proof fn lemma_answer_texts(answers: Seq<JsonView>, i: int)
    requires
        crate::trivia::llm::answer_texts(answers) is Some,
        0 <= i < answers.len(),
    ensures
        ({
            let ts = crate::trivia::llm::answer_texts(answers)->Some_0;
            ts.len() == answers.len() && member(answers[i], "text"@) == Some(JsonView::Str(ts[i]))
        }),
    decreases answers.len(),
{
    let init = answers.drop_last();
    if i < init.len() {
        lemma_answer_texts(init, i);
    } else if init.len() > 0 {
        lemma_answer_texts(init, 0);
    }
}

/// A value with a question, four answers with texts of which one is marked is a
/// question; without any of these it is none.
pub proof fn law_what_is_a_question(v: JsonView, entropy: Seq<char>)
    ensures
        !(member(v, "question"@) matches Some(JsonView::Str(_))) ==> question_of(v, entropy) is Err,
        !(member(v, "answers"@) matches Some(JsonView::Array(a)) && a.len() == 4) ==> question_of(
            v,
            entropy,
        ) is Err,
        (member(v, "answers"@) matches Some(JsonView::Array(a)) && forall|j: int|
            0 <= j < a.len() ==> member(#[trigger] a[j], "is_correct"@) != Some(
                JsonView::Bool(true),
            )) ==> question_of(v, entropy) is Err,
{
    if let Some(JsonView::Array(a)) = member(v, "answers"@) {
        law_first_marked_answer_counts(a);
    }
}

/// Of what was asked before, the latest so many are named, the last one first.
pub proof fn law_latest_are_named(s: Seq<Seq<char>>, n: nat, i: int)
    requires
        0 <= i < n,
        i < s.len(),
    ensures
        latest(s, n).len() == if s.len() < n {
            s.len()
        } else {
            n
        },
        latest(s, n)[i] == s[s.len() - 1 - i],
    decreases n,
{
    let rest = s.drop_last();
    if n > 1 && rest.len() > 0 {
        if i > 0 {
            law_latest_are_named(rest, (n - 1) as nat, i - 1);
        } else {
            law_latest_are_named(rest, (n - 1) as nat, 0);
        }
    } else {
        assert(latest(rest, (n - 1) as nat) =~= seq![]);
    }
}

/// Of what was asked, no more than so many are remembered, and those are the last.
pub proof fn law_last_are_remembered(s: Seq<Seq<char>>, n: int, i: int)
    requires
        n >= 0,
        0 <= i < s.len(),
    ensures
        last_of(s, n).len() <= n,
        s.len() <= n ==> last_of(s, n) == s,
        s.len() > n && s.len() - n <= i ==> last_of(s, n)[i - (s.len() - n)] == s[i],
{
}

}
