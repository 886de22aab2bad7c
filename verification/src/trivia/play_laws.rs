//! How a game of trivia is played, told by what players see: who gets in, what a
//! round shows and hides, what an answer is worth.

use crate::json::JsonView;
use crate::table::{lemma_table_index, lemma_table_remove, lemma_table_set, table_get, unique_keys};
use crate::text::{decimal, lemma_decimal_value};
use crate::trivia::game::{
    answer_step, chat_json, end_step, join_step, leave_step, questions_put, questions_step,
    ready_step, restart_step, round_step, stale_session, start_step, CommandView, Times, World,
};
use crate::trivia::laws::law_answers_are_scored;
use crate::trivia::llm::QuestionView;
use crate::trivia::state::{new_player, points_of, PlayerView};
use vstd::prelude::*;

verus! {

/// When a round ends, a player who picked the right choice has ten, twenty or thirty
/// points more, by the difficulty, and one more right answer. A player who picked
/// another, or nothing, has the score and the right answers of before. What everybody
/// picked, and what was right, is shown.
pub proof fn law_right_answers_score(w: World, t: Times, session_id: Seq<char>)
    requires
        w.game.state.phase == "question"@,
        unique_keys(w.game.internal.round_answers),
        table_get(w.game.state.players, session_id) is Some,
        table_get(w.game.state.players, session_id)->Some_0.score <= i64::MAX - 30,
        table_get(w.game.state.players, session_id)->Some_0.correct_count < u32::MAX,
    ensures
        ({
            let s = w.game.state;
            let answer = table_get(w.game.internal.round_answers, session_id);
            let correct = w.game.internal.correct_index;
            let p = table_get(s.players, session_id)->Some_0;
            let after = end_step(w, t).game.state;
            let q = table_get(after.players, session_id)->Some_0;
            let gain = q.score - p.score;
            &&& table_get(after.players, session_id) is Some
            &&& if answer is Some && correct is Some && answer->Some_0 == correct->Some_0 {
                &&& s.difficulty == "easy"@ ==> gain == 10
                &&& s.difficulty == "medium"@ ==> gain == 20
                &&& s.difficulty == "hard"@ ==> gain == 30
                &&& gain > 0
                &&& q.correct_count == p.correct_count + 1
            } else {
                &&& gain == 0
                &&& q.correct_count == p.correct_count
            }
            &&& q.name == p.name
            &&& q.user_id == p.user_id
            &&& q.ready == p.ready
            &&& q.answered == p.answered
            &&& answer is Some ==> q.choice == answer
            &&& answer is None ==> q.choice == p.choice
            &&& after.phase == "reveal"@
            &&& after.correct_index == correct
            &&& after.round == s.round
            &&& after.question == s.question
        }),
{
    let s = w.game.state;
    let i = w.game.internal;
    law_answers_are_scored(
        s.players,
        i.round_answers,
        i.correct_index,
        points_of(s.difficulty),
        session_id,
    );
    reveal_strlit("easy");
    reveal_strlit("medium");
    reveal_strlit("hard");
    assert("easy"@[0] != "hard"@[0]);
    assert("easy"@.len() != "medium"@.len());
    assert("hard"@.len() != "medium"@.len());
}

/// A round that has its question shows the question and its choices to everybody, and
/// not which one is right; nobody has answered yet, and all scores are as before. It
/// ends twenty seconds later.
pub proof fn law_round_shows_question(w: World, round: u32, t: Times, i: int)
    requires
        table_get(w.game.internal.pending_questions, decimal(round as nat)) is Some,
        t.now + 20000 <= u64::MAX,
        t.sys_now + 20000 <= u64::MAX,
        w.ctx.next_timer_id < u64::MAX,
        0 <= i < w.game.state.players.len(),
    ensures
        ({
            let q = table_get(w.game.internal.pending_questions, decimal(round as nat))->Some_0;
            let before = w.game.state.players[i];
            let (after, next) = round_step(w, round, t);
            let s = after.game.state;
            &&& next.len() == 0
            &&& s.phase == "question"@
            &&& s.round == round
            &&& s.question is Some
            &&& s.question->Some_0.text == q.text
            &&& s.question->Some_0.choices == q.choices
            &&& s.correct_index is None
            &&& after.game.internal.correct_index == Some(q.answer_index)
            &&& s.answers_in == 0
            &&& after.game.internal.round_answers.len() == 0
            &&& s.phase_ends_at == Some((t.sys_now + 20000) as u64)
            &&& after.ctx.timers.len() == w.ctx.timers.len() + 1
            &&& after.ctx.timers.last().at == t.now + 20000
            &&& after.game.round_timer == Some(after.ctx.timers.last().id)
            &&& s.players.len() == w.game.state.players.len()
            &&& s.players[i].0 == before.0
            &&& !s.players[i].1.answered
            &&& s.players[i].1.choice is None
            &&& s.players[i].1.score == before.1.score
            &&& s.players[i].1.correct_count == before.1.correct_count
            &&& s.players[i].1.name == before.1.name
            &&& table_get(after.game.internal.pending_questions, decimal(round as nat)) is None
            &&& forall|k: Seq<char>|
                k != decimal(round as nat) ==> #[trigger] table_get(
                    after.game.internal.pending_questions,
                    k,
                ) == table_get(w.game.internal.pending_questions, k)
        }),
{
    lemma_table_remove(w.game.internal.pending_questions, decimal(round as nat));
}

/// A round without its question waits for one, and one batch is asked for.
pub proof fn law_round_waits_for_question(w: World, round: u32, t: Times)
    requires
        table_get(w.game.internal.pending_questions, decimal(round as nat)) is None,
    ensures
        ({
            let (after, next) = round_step(w, round, t);
            &&& after.game.state.phase == "generating"@
            &&& after.game.state.players == w.game.state.players
            &&& after.game.internal.needed_round == Some(round)
            &&& w.game.internal.batch_in_flight ==> next.len() == 0
            &&& !w.game.internal.batch_in_flight ==> next == seq![CommandView::GenerateQuestions]
        }),
{
}

/// An answer of a player who has not answered, while the question is open, is kept and
/// marked, and counts; it changes no score and no other player. The round ends when
/// everybody has answered. Any other answer changes nothing.
pub proof fn law_answer_is_kept(w: World, session_id: Seq<char>, choice: usize, other: Seq<char>)
    requires
        other != session_id,
        w.game.state.answers_in < u32::MAX,
    ensures
        ({
            let s = w.game.state;
            let (after, next) = answer_step(w, session_id, choice);
            let p = table_get(s.players, session_id);
            let taken = s.phase == "question"@ && choice < 4 && p is Some && !p->Some_0.answered;
            let q = table_get(after.game.state.players, session_id);
            &&& !taken ==> after == w && next.len() == 0
            &&& taken ==> {
                &&& q is Some
                &&& q->Some_0.answered
                &&& q->Some_0.choice == p->Some_0.choice
                &&& q->Some_0.score == p->Some_0.score
                &&& q->Some_0.correct_count == p->Some_0.correct_count
                &&& q->Some_0.name == p->Some_0.name
                &&& table_get(after.game.internal.round_answers, session_id) == Some(choice)
                &&& after.game.state.answers_in == s.answers_in + 1
                &&& after.game.state.phase == "question"@
                &&& table_get(after.game.state.players, other) == table_get(s.players, other)
                &&& table_get(after.game.internal.round_answers, other) == table_get(
                    w.game.internal.round_answers,
                    other,
                )
                &&& after.game.state.players.len() == s.players.len()
                &&& s.answers_in + 1 >= s.players.len() ==> next == seq![CommandView::EndRound]
                &&& s.answers_in + 1 < s.players.len() ==> next.len() == 0
            }
        }),
{
    if let Some(p) = table_get(w.game.state.players, session_id) {
        let q = PlayerView { answered: true, ..p };
        lemma_table_set(w.game.state.players, session_id, q);
        lemma_table_index(w.game.state.players, session_id);
        lemma_table_set(w.game.internal.round_answers, session_id, choice);
    }
}

/// Who joins the lobby to play, while fewer than four do, plays: without points, not
/// ready, and as the owner of a room that has none. The first player has questions
/// asked for. Nobody else changes.
pub proof fn law_lobby_takes_players(
    w: World,
    session_id: Seq<char>,
    name: Seq<char>,
    user_id: Seq<char>,
    other: Seq<char>,
)
    requires
        w.game.state.phase == "lobby"@,
        w.game.state.players.len() < 4,
        user_id.len() == 0 || stale_session(w.game.state.players, user_id, session_id) is None,
        table_get(w.game.state.players, session_id) is None,
        other != session_id,
    ensures
        ({
            let s = w.game.state;
            let (after, next) = join_step(w, session_id, name, user_id, true);
            let p = table_get(after.game.state.players, session_id);
            &&& p is Some
            &&& p->Some_0.name == name
            &&& p->Some_0.user_id == user_id
            &&& p->Some_0.score == 0
            &&& p->Some_0.correct_count == 0
            &&& !p->Some_0.ready
            &&& !p->Some_0.answered
            &&& p->Some_0.choice is None
            &&& after.game.state.players.len() == s.players.len() + 1
            &&& table_get(after.game.state.spectators, session_id) is None
            &&& table_get(after.game.state.players, other) == table_get(s.players, other)
            &&& s.owner is None ==> after.game.state.owner == Some(session_id)
            &&& s.owner is Some ==> after.game.state.owner == s.owner
            &&& after.game.state.phase == "lobby"@
            &&& s.players.len() == 0 ==> next == seq![CommandView::GenerateQuestions]
            &&& s.players.len() > 0 ==> next.len() == 0
        }),
{
    let s = w.game.state;
    lemma_table_set(s.players, session_id, new_player(user_id, name));
    lemma_table_index(s.players, session_id);
    lemma_table_remove(s.spectators, session_id);
}

/// Who joins otherwise (to watch, in the middle of a game, or into a full lobby) is a
/// spectator, of whom there are ten at most. The players stay as they are.
pub proof fn law_others_watch(
    w: World,
    session_id: Seq<char>,
    name: Seq<char>,
    user_id: Seq<char>,
    wants_player: bool,
)
    requires
        !wants_player || w.game.state.phase != "lobby"@ || w.game.state.players.len() >= 4,
        user_id.len() == 0 || stale_session(w.game.state.players, user_id, session_id) is None,
    ensures
        ({
            let s = w.game.state;
            let (after, next) = join_step(w, session_id, name, user_id, wants_player);
            &&& next.len() == 0
            &&& after.game.state.players == s.players
            &&& after.game.state.owner == s.owner
            &&& after.game.state.phase == s.phase
            &&& after.game.internal == w.game.internal
            &&& s.spectators.len() < 10 ==> table_get(after.game.state.spectators, session_id)
                == Some(name)
            &&& s.spectators.len() >= 10 ==> after.game.state.spectators == s.spectators
        }),
{
    lemma_table_set(w.game.state.spectators, session_id, name);
}

/// The session that a user is found under is another one of the same user, and one is
/// found where there is one.
pub proof fn law_stale_session_is_same_user(
    players: Seq<(Seq<char>, PlayerView)>,
    user_id: Seq<char>,
    session_id: Seq<char>,
)
    ensures
        stale_session(players, user_id, session_id) matches Some(from) ==> from != session_id
            && exists|i: int|
            0 <= i < players.len() && (#[trigger] players[i]).0 == from && players[i].1.user_id
                == user_id,
        stale_session(players, user_id, session_id) is None <==> forall|i: int|
            0 <= i < players.len() ==> (#[trigger] players[i]).1.user_id != user_id
                || players[i].0 == session_id,
    decreases players.len(),
{
    if players.len() > 0 {
        let rest = players.drop_first();
        law_stale_session_is_same_user(rest, user_id, session_id);
        if players[0].1.user_id == user_id && players[0].0 != session_id {
        } else {
            if let Some(from) = stale_session(rest, user_id, session_id) {
                let i = choose|i: int|
                    0 <= i < rest.len() && (#[trigger] rest[i]).0 == from && rest[i].1.user_id
                        == user_id;
                assert(players[i + 1] == rest[i]);
                assert(players[i + 1].0 == from);
            } else {
                assert forall|i: int| 0 <= i < players.len() implies (
                #[trigger] players[i]).1.user_id != user_id || players[i].0 == session_id by {
                    if i > 0 {
                        assert(rest[i - 1] == players[i]);
                    }
                }
            }
        }
    }
}

/// Who leaves is neither a player nor a spectator any more; all others stay. A room
/// that loses its owner belongs to the first of those who stay. A round that waited
/// only for the one who left ends, and a game without players is over.
pub proof fn law_leaving(w: World, session_id: Seq<char>, other: Seq<char>)
    requires
        other != session_id,
    ensures
        ({
            let s = w.game.state;
            let (after, next) = leave_step(w, session_id);
            let a = after.game.state;
            let on = s.phase == "question"@ || s.phase == "reveal"@ || s.phase == "generating"@;
            &&& table_get(a.players, session_id) is None
            &&& table_get(a.spectators, session_id) is None
            &&& table_get(a.players, other) == table_get(s.players, other)
            &&& table_get(a.spectators, other) == table_get(s.spectators, other)
            &&& a.phase == s.phase
            &&& a.round == s.round
            &&& s.owner != Some(session_id) ==> a.owner == s.owner
            &&& s.owner == Some(session_id) && a.players.len() > 0 ==> a.owner == Some(
                a.players[0].0,
            )
            &&& s.owner == Some(session_id) && a.players.len() == 0 ==> a.owner is None
            &&& table_get(s.players, session_id) is None ==> next.len() == 0
            &&& table_get(s.players, session_id) is Some ==> {
                &&& a.players.len() == 0 && on ==> next == seq![CommandView::FinishGame]
                &&& a.players.len() > 0 && s.phase == "question"@ && s.answers_in
                    >= a.players.len() ==> next == seq![CommandView::EndRound]
                &&& a.players.len() > 0 && (s.phase != "question"@ || s.answers_in
                    < a.players.len()) ==> next.len() == 0
                &&& a.players.len() == 0 && !on ==> next.len() == 0
            }
        }),
{
    let s = w.game.state;
    lemma_table_remove(s.players, session_id);
    lemma_table_remove(s.spectators, session_id);
}

/// In the lobby a player's ready flag turns, and nothing else does; outside of it
/// nothing does.
pub proof fn law_ready_flag_turns(w: World, session_id: Seq<char>, other: Seq<char>)
    requires
        other != session_id,
    ensures
        ({
            let s = w.game.state;
            let p = table_get(s.players, session_id);
            let after = ready_step(w, session_id);
            let q = table_get(after.game.state.players, session_id);
            &&& s.phase != "lobby"@ || p is None ==> after == w
            &&& s.phase == "lobby"@ && p is Some ==> {
                &&& q is Some
                &&& q->Some_0.ready == !p->Some_0.ready
                &&& q->Some_0.score == p->Some_0.score
                &&& q->Some_0.name == p->Some_0.name
                &&& table_get(after.game.state.players, other) == table_get(s.players, other)
                &&& after.game.state.owner == s.owner
                &&& after.game.state.phase == s.phase
                &&& after.game.internal == w.game.internal
                &&& after.ctx == w.ctx
            }
        }),
{
    if let Some(p) = table_get(w.game.state.players, session_id) {
        lemma_table_set(
            w.game.state.players,
            session_id,
            PlayerView { ready: !p.ready, ..p },
        );
    }
}

/// The first round starts exactly where the owner asks for it in a lobby in which
/// there are players and all of them are ready. A refusal changes nothing in the game.
pub proof fn law_game_starts_when_all_are_ready(w: World, session_id: Seq<char>)
    ensures
        ({
            let s = w.game.state;
            let (after, next) = start_step(w, session_id);
            let may = s.phase == "lobby"@ && s.owner == Some(session_id) && s.players.len() > 0
                && forall|i: int| 0 <= i < s.players.len() ==> (#[trigger] s.players[i]).1.ready;
            &&& may ==> next == seq![CommandView::StartRound(1)]
            &&& !may ==> next.len() == 0
            &&& after.game == w.game
        }),
{
}

/// The questions of a batch wait for the rounds from the first on, in their order.
pub proof fn law_batch_serves_rounds(
    pending: Seq<(Seq<char>, QuestionView)>,
    qs: Seq<QuestionView>,
    round: int,
)
    requires
        1 <= round <= qs.len(),
    ensures
        table_get(questions_put(pending, qs), decimal(round as nat)) == Some(qs[round - 1]),
    decreases qs.len(),
{
    let init = qs.drop_last();
    lemma_table_set(questions_put(pending, init), decimal(qs.len()), qs.last());
    if round < qs.len() {
        law_batch_serves_rounds(pending, init, round);
        lemma_decimal_value(round as nat);
        lemma_decimal_value(qs.len());
        assert(decimal(round as nat) != decimal(qs.len()));
        assert(init[round - 1] == qs[round - 1]);
    }
}

/// A batch that comes while the first round waits for it starts that round; otherwise
/// it is only kept.
pub proof fn law_batch_starts_waiting_game(w: World, qs: Seq<QuestionView>)
    ensures
        ({
            let (after, next) = questions_step(w, qs);
            let waits = w.game.internal.needed_round == Some(1u32) && w.game.state.phase
                == "generating"@;
            &&& waits ==> next == seq![CommandView::StartRound(1)]
            &&& !waits ==> next.len() == 0
            &&& !after.game.internal.batch_in_flight
            &&& after.game.state == w.game.state
            &&& after.ctx == w.ctx
            &&& forall|round: int|
                1 <= round <= qs.len() ==> table_get(
                    after.game.internal.pending_questions,
                    #[trigger] decimal(round as nat),
                ) == Some(qs[round - 1])
        }),
{
    assert forall|round: int| 1 <= round <= qs.len() implies table_get(
        questions_step(w, qs).0.game.internal.pending_questions,
        #[trigger] decimal(round as nat),
    ) == Some(qs[round - 1]) by {
        law_batch_serves_rounds(w.game.internal.pending_questions, qs, round);
    }
}

/// Back in the lobby everybody starts over: the same players under the same names,
/// without points, answers and readiness. Only the owner of a finished game can do so.
pub proof fn law_restart_starts_over(w: World, session_id: Seq<char>, i: int)
    requires
        0 <= i < w.game.state.players.len(),
    ensures
        ({
            let s = w.game.state;
            let (after, next) = restart_step(w, session_id);
            let a = after.game.state;
            let may = s.phase == "finished"@ && s.owner == Some(session_id);
            &&& !may ==> after == w && next.len() == 0
            &&& may ==> {
                &&& a.phase == "lobby"@
                &&& a.round == 0
                &&& a.question is None
                &&& a.correct_index is None
                &&& a.winners.len() == 0
                &&& a.owner == s.owner
                &&& a.spectators == s.spectators
                &&& a.players.len() == s.players.len()
                &&& a.players[i].0 == s.players[i].0
                &&& a.players[i].1.name == s.players[i].1.name
                &&& a.players[i].1.user_id == s.players[i].1.user_id
                &&& a.players[i].1.score == 0
                &&& a.players[i].1.correct_count == 0
                &&& !a.players[i].1.ready
                &&& !a.players[i].1.answered
                &&& a.players[i].1.choice is None
                &&& after.game.internal.pending_questions.len() == 0
                &&& next == seq![CommandView::GenerateQuestions]
            }
        }),
{
}

/// A chat message carries its author's name and at most the first three hundred
/// characters.
pub proof fn law_chat_is_cut(w: World, session_id: Seq<char>, text: Seq<char>)
    ensures
        ({
            let m = chat_json(w.game.state, session_id, text);
            let sent = (m->Object_0)["text"@]->Str_0;
            &&& m is Object
            &&& (m->Object_0).dom() == set!["from"@, "text"@]
            &&& (m->Object_0)["text"@] is Str
            &&& text.len() <= 300 ==> sent == text
            &&& text.len() > 300 ==> sent.len() == 300 && sent.is_prefix_of(text)
            &&& table_get(w.game.state.players, session_id) matches Some(p) ==> (m->Object_0)["from"@]
                == JsonView::Str(p.name)
        }),
{
    reveal_strlit("from");
    reveal_strlit("text");
    assert("from"@[0] != "text"@[0]);
    let m = chat_json(w.game.state, session_id, text)->Object_0;
    assert(m.dom() =~= set!["from"@, "text"@]);
    if text.len() > 300 {
        assert(text.take(300) =~= text.subrange(0, 300));
    }
}

}
