//! What holds of every game, whatever commands are run.

use crate::table::{
    lemma_table_index, lemma_table_remove, lemma_table_set, table_get, table_index, table_remove,
    table_set, unique_keys,
};
use crate::trivia::game::{
    advance_step, all_run, all_scored, answer_step, best_score, command_step, end_step, finish_step,
    fresh_players, join_step, key_moved, leave_step, lemma_step_weight, lemma_weight_concat,
    names_with, restart_step, round_step, scored, stale_session, taken_over, total_weight,
    unanswered, winners_of, CommandView, Times, World,
};
use crate::trivia::state::{
    new_player, new_state, points_of, PlayerView, StateView, MAX_PLAYERS, MAX_SPECTATORS,
    TOTAL_ROUNDS,
};
use vstd::prelude::*;

verus! {

/// No player shows what they picked.
pub open spec fn choices_hidden(ps: Seq<(Seq<char>, PlayerView)>) -> bool {
    forall|i: int| 0 <= i < ps.len() ==> (#[trigger] ps[i]).1.choice is None
}

/// What holds of a room's state at all times: there are not too many players and
/// spectators; while a question is open, neither its answer nor what anybody
/// picked is to be seen; and the owner is one of the players, if there are any.
pub open spec fn is_sound(s: StateView) -> bool {
    &&& s.players.len() <= MAX_PLAYERS
    &&& s.spectators.len() <= MAX_SPECTATORS
    &&& s.phase == "question"@ ==> s.correct_index is None && choices_hidden(s.players)
    &&& s.owner matches Some(o) ==> table_get(s.players, o) is Some
    &&& s.players.len() > 0 ==> s.owner is Some
}

proof fn lemma_remove_len<A>(s: Seq<(Seq<char>, A)>, key: Seq<char>)
    ensures
        table_remove(s, key).len() <= s.len(),
        table_get(s, key) is Some ==> table_remove(s, key).len() < s.len(),
    decreases s.len(),
{
    if s.len() > 0 {
        lemma_remove_len(s.drop_last(), key);
        lemma_table_index(s, key);
        lemma_table_index(s.drop_last(), key);
        if s.last().0 != key {
            assert(table_index(s, key) == table_index(s.drop_last(), key));
        }
    }
}

/// Two tables have the same keys in the same places.
spec fn same_keys<A>(a: Seq<(Seq<char>, A)>, b: Seq<(Seq<char>, A)>) -> bool {
    a.len() == b.len() && forall|i: int| 0 <= i < a.len() ==> (#[trigger] a[i]).0 == b[i].0
}

proof fn lemma_same_keys<A>(a: Seq<(Seq<char>, A)>, b: Seq<(Seq<char>, A)>, key: Seq<char>)
    requires
        same_keys(a, b),
    ensures
        table_index(a, key) == table_index(b, key),
        table_get(a, key) is Some == table_get(b, key) is Some,
    decreases a.len(),
{
    if a.len() > 0 {
        assert(a[a.len() - 1].0 == b[b.len() - 1].0);
        assert forall|i: int| 0 <= i < a.drop_last().len() implies (#[trigger] a.drop_last()[i]).0
            == b.drop_last()[i].0 by {
            assert(a[i].0 == b[i].0);
        }
        lemma_same_keys(a.drop_last(), b.drop_last(), key);
    }
}

proof fn lemma_set_present<A>(s: Seq<(Seq<char>, A)>, key: Seq<char>, value: A)
    requires
        table_get(s, key) is Some,
    ensures
        same_keys(s, table_set(s, key, value)),
{
    lemma_table_index(s, key);
}

proof fn lemma_scored_keys(
    ps: Seq<(Seq<char>, PlayerView)>,
    answers: Seq<(Seq<char>, usize)>,
    correct: Option<usize>,
    points: i64,
)
    ensures
        same_keys(ps, all_scored(ps, answers, correct, points)),
    decreases answers.len(),
{
    if answers.len() > 0 {
        lemma_scored_keys(ps, answers.drop_last(), correct, points);
        let before = all_scored(ps, answers.drop_last(), correct, points);
        let (sid, choice) = answers.last();
        if let Some(p) = table_get(before, sid) {
            lemma_set_present(before, sid, scored(p, choice, correct, points));
        }
    }
}

/// A table in which a key moved is no longer, and knows no value that it did not
/// know.
proof fn lemma_moved(ps: Seq<(Seq<char>, PlayerView)>, from: Seq<char>, to: Seq<char>)
    ensures
        key_moved(ps, from, to).len() <= ps.len(),
        choices_hidden(ps) ==> choices_hidden(key_moved(ps, from, to)),
        table_get(ps, from) is Some ==> table_get(key_moved(ps, from, to), to) == table_get(
            ps,
            from,
        ),
        from != to && table_get(ps, from) is Some ==> table_get(key_moved(ps, from, to), from)
            is None,
        forall|k: Seq<char>|
            k != from && k != to ==> #[trigger] table_get(key_moved(ps, from, to), k) == table_get(
                ps,
                k,
            ),
{
    if let Some(v) = table_get(ps, from) {
        let rest = table_remove(ps, from);
        let after = table_set(rest, to, v);
        lemma_remove_len(ps, from);
        lemma_table_remove(ps, from);
        lemma_table_set(rest, to, v);
        lemma_table_index(ps, from);
        lemma_table_index(rest, to);
        if choices_hidden(ps) {
            assert forall|i: int| 0 <= i < after.len() implies (#[trigger] after[i]).1.choice
                is None by {
                if after[i] == (to, v) {
                    let j = table_index(ps, from)->Some_0;
                    assert(ps[j].1 == v);
                } else {
                    assert(after[i] == rest[i]);
                    assert(ps.contains(rest[i]));
                    let j = choose|j: int| 0 <= j < ps.len() && ps[j] == rest[i];
                    assert(ps[j].1.choice is None);
                }
            }
        }
    }
}

proof fn lemma_stale(ps: Seq<(Seq<char>, PlayerView)>, user_id: Seq<char>, session_id: Seq<char>)
    ensures
        stale_session(ps, user_id, session_id) matches Some(from) ==> from != session_id
            && table_get(ps, from) is Some,
    decreases ps.len(),
{
    if ps.len() > 0 {
        let rest = ps.drop_first();
        lemma_stale(rest, user_id, session_id);
        if let Some(from) = stale_session(ps, user_id, session_id) {
            lemma_table_index(ps, from);
            lemma_table_index(rest, from);
            if table_index(ps, from) is None {
                assert(ps[0].0 != from);
                assert forall|j: int| 0 <= j < rest.len() implies (#[trigger] rest[j]).0 != from by {
                    assert(ps[j + 1].0 != from);
                }
            }
        }
    }
}

proof fn lemma_join_sound(
    w: World,
    session_id: Seq<char>,
    name: Seq<char>,
    user_id: Seq<char>,
    wants_player: bool,
)
    requires
        is_sound(w.game.state),
    ensures
        is_sound(join_step(w, session_id, name, user_id, wants_player).0.game.state),
{
    let s = w.game.state;
    reveal_strlit("lobby");
    reveal_strlit("question");
    assert("lobby"@.len() != "question"@.len());
    let stale = if user_id.len() == 0 {
        None
    } else {
        stale_session(s.players, user_id, session_id)
    };
    match stale {
        Some(from) => {
            lemma_stale(s.players, user_id, session_id);
            lemma_moved(s.players, from, session_id);
        },
        None => {
            lemma_table_set(s.players, session_id, new_player(user_id, name));
            lemma_table_index(s.players, session_id);
            lemma_table_index(s.spectators, session_id);
            lemma_remove_len(s.spectators, session_id);
        },
    }
}

proof fn lemma_leave_sound(w: World, session_id: Seq<char>)
    requires
        is_sound(w.game.state),
    ensures
        is_sound(leave_step(w, session_id).0.game.state),
{
    let s = w.game.state;
    let players = table_remove(s.players, session_id);
    lemma_remove_len(s.players, session_id);
    lemma_remove_len(s.spectators, session_id);
    lemma_table_remove(s.players, session_id);
    if choices_hidden(s.players) {
        assert forall|i: int| 0 <= i < players.len() implies (#[trigger] players[i]).1.choice
            is None by {
            assert(s.players.contains(players[i]));
            let j = choose|j: int| 0 <= j < s.players.len() && s.players[j] == players[i];
            assert(s.players[j].1.choice is None);
        }
    }
    if players.len() > 0 {
        lemma_table_index(players, players[0].0);
    }
}

proof fn lemma_answer_sound(w: World, session_id: Seq<char>, choice: usize)
    requires
        is_sound(w.game.state),
    ensures
        is_sound(answer_step(w, session_id, choice).0.game.state),
{
    let s = w.game.state;
    if let Some(p) = table_get(s.players, session_id) {
        let q = PlayerView { answered: true, ..p };
        let after = table_set(s.players, session_id, q);
        lemma_table_set(s.players, session_id, q);
        lemma_set_present(s.players, session_id, q);
        lemma_table_index(s.players, session_id);
        if choices_hidden(s.players) {
            let at = table_index(s.players, session_id)->Some_0;
            assert(s.players[at].1.choice is None);
            assert forall|i: int| 0 <= i < after.len() implies (#[trigger] after[i]).1.choice
                is None by {
                assert(s.players[i].1.choice is None);
            }
        }
    }
}

/// Every command keeps a room sound.
pub proof fn law_commands_keep_room_sound(w: World, c: CommandView, t: Times)
    requires
        is_sound(w.game.state),
    ensures
        is_sound(command_step(w, c, t).0.game.state),
{
    let s = w.game.state;
    reveal_strlit("lobby");
    reveal_strlit("question");
    reveal_strlit("finished");
    reveal_strlit("reveal");
    reveal_strlit("generating");
    assert("lobby"@.len() != "question"@.len());
    assert("finished"@[0] != "question"@[0]);
    assert("reveal"@.len() != "question"@.len());
    assert("generating"@.len() != "question"@.len());
    match c {
        CommandView::Join(sid, name, user_id, wants) => {
            lemma_join_sound(w, sid, name, user_id, wants);
        },
        CommandView::Leave(sid) => {
            lemma_leave_sound(w, sid);
        },
        CommandView::ToggleReady(sid) => {
            if let Some(p) = table_get(s.players, sid) {
                lemma_table_set(s.players, sid, PlayerView { ready: !p.ready, ..p });
                lemma_set_present(s.players, sid, PlayerView { ready: !p.ready, ..p });
            }
        },
        CommandView::Restart(_) => {
            assert(same_keys(s.players, fresh_players(s.players)));
            if let Some(o) = s.owner {
                lemma_same_keys(s.players, fresh_players(s.players), o);
            }
        },
        CommandView::Answer(sid, choice) => {
            lemma_answer_sound(w, sid, choice);
        },
        CommandView::StartRound(_) => {
            assert(same_keys(s.players, unanswered(s.players)));
            assert(choices_hidden(unanswered(s.players)));
            if let Some(o) = s.owner {
                lemma_same_keys(s.players, unanswered(s.players), o);
            }
        },
        CommandView::EndRound => {
            let i = w.game.internal;
            let after = all_scored(
                s.players,
                i.round_answers,
                i.correct_index,
                points_of(s.difficulty),
            );
            lemma_scored_keys(s.players, i.round_answers, i.correct_index, points_of(s.difficulty));
            if let Some(o) = s.owner {
                lemma_same_keys(s.players, after, o);
            }
        },
        _ => {},
    }
}

/// A room is sound from its creation on, whatever commands are run.
pub proof fn law_room_is_always_sound(w: World, cs: Seq<CommandView>, t: Times)
    ensures
        forall|difficulty: Seq<char>, category: Seq<char>|
            is_sound(#[trigger] new_state(difficulty, category)),
        is_sound(w.game.state) ==> is_sound(all_run(w, cs, t).game.state),
    decreases total_weight(cs),
{
    reveal_strlit("lobby");
    reveal_strlit("question");
    assert("lobby"@.len() != "question"@.len());
    if is_sound(w.game.state) && cs.len() > 0 {
        let (after, next) = command_step(w, cs[0], t);
        lemma_step_weight(w, cs[0], t);
        lemma_weight_concat(cs.drop_first(), next);
        law_commands_keep_room_sound(w, cs[0], t);
        law_room_is_always_sound(after, cs.drop_first() + next, t);
    }
}

/// An answer is locked in: a second one in the same round changes nothing.
pub proof fn law_one_answer_per_round(w: World, session_id: Seq<char>, first: usize, second: usize)
    requires
        answer_step(w, session_id, first).0 != w,
    ensures
        answer_step(answer_step(w, session_id, first).0, session_id, second) == (
            answer_step(w, session_id, first).0,
            Seq::<CommandView>::empty(),
        ),
{
    if let Some(p) = table_get(w.game.state.players, session_id) {
        lemma_table_set(
            w.game.state.players,
            session_id,
            PlayerView { answered: true, ..p },
        );
    }
}

/// Spectators cannot answer.
pub proof fn law_only_players_answer(w: World, session_id: Seq<char>, choice: usize)
    requires
        table_get(w.game.state.players, session_id) is None,
    ensures
        answer_step(w, session_id, choice).0 == w,
{
}

/// A user who joins again under a new session has the seat of the old one: score,
/// ready flag, answer of this round and, if it was theirs, the room. The old
/// session has none of it, and nobody else's seat changes.
pub proof fn law_takeover_keeps_seat(
    w: World,
    from: Seq<char>,
    to: Seq<char>,
    name: Seq<char>,
    other: Seq<char>,
)
    requires
        from != to,
        table_get(w.game.state.players, from) is Some,
        other != from,
        other != to,
    ensures
        ({
            let before = w.game;
            let after = taken_over(w, from, to, name).game;
            &&& table_get(after.state.players, to) == table_get(before.state.players, from)
            &&& table_get(after.state.players, from) is None
            &&& table_get(after.state.players, other) == table_get(before.state.players, other)
            &&& table_get(before.internal.round_answers, from) is Some ==> table_get(
                after.internal.round_answers,
                to,
            ) == table_get(before.internal.round_answers, from)
            &&& before.state.owner == Some(from) ==> after.state.owner == Some(to)
            &&& before.state.owner == Some(other) ==> after.state.owner == Some(other)
        }),
{
    lemma_moved(w.game.state.players, from, to);
    let answers = w.game.internal.round_answers;
    if let Some(a) = table_get(answers, from) {
        lemma_table_remove(answers, from);
        lemma_table_set(table_remove(answers, from), to, a);
    }
}

/// A round ends once: what would end it again changes nothing.
pub proof fn law_round_ends_once(w: World, t: Times, again: Times)
    ensures
        end_step(end_step(w, t), again) == end_step(w, t),
{
    reveal_strlit("question");
    reveal_strlit("reveal");
    assert("reveal"@.len() != "question"@.len());
}

/// A game finishes once: its results are published once.
pub proof fn law_game_finishes_once(w: World, t: Times, again: Times)
    ensures
        finish_step(finish_step(w, t), again) == finish_step(w, t),
{
}

/// Who answered is scored by the answer, and who did not keeps the score.
pub proof fn law_answers_are_scored(
    ps: Seq<(Seq<char>, PlayerView)>,
    answers: Seq<(Seq<char>, usize)>,
    correct: Option<usize>,
    points: i64,
    session_id: Seq<char>,
)
    requires
        unique_keys(answers),
    ensures
        table_get(all_scored(ps, answers, correct, points), session_id) == match table_get(
            ps,
            session_id,
        ) {
            Some(p) => match table_get(answers, session_id) {
                Some(choice) => Some(scored(p, choice, correct, points)),
                None => Some(p),
            },
            None => None,
        },
    decreases answers.len(),
{
    lemma_table_index(answers, session_id);
    if answers.len() > 0 {
        let init = answers.drop_last();
        assert(unique_keys(init)) by {
            assert forall|i: int, j: int| 0 <= i < j < init.len() implies (#[trigger] init[i]).0
                != (#[trigger] init[j]).0 by {
                assert(answers[i].0 != answers[j].0);
            }
        }
        law_answers_are_scored(ps, init, correct, points, session_id);
        lemma_table_index(init, session_id);
        let before = all_scored(ps, init, correct, points);
        let (sid, choice) = answers.last();
        if let Some(p) = table_get(before, sid) {
            lemma_table_set(before, sid, scored(p, choice, correct, points));
        }
        if sid == session_id {
            assert(table_index(init, session_id) is None) by {
                if let Some(i) = table_index(init, session_id) {
                    assert(answers[i].0 != answers[answers.len() - 1].0);
                }
            }
        } else {
            assert(table_index(answers, session_id) == table_index(init, session_id));
        }
    }
}

proof fn lemma_best_score(ps: Seq<(Seq<char>, PlayerView)>)
    requires
        ps.len() > 0,
    ensures
        best_score(ps) is Some,
        forall|i: int| 0 <= i < ps.len() ==> (#[trigger] ps[i]).1.score <= best_score(ps)->Some_0,
        exists|i: int| 0 <= i < ps.len() && (#[trigger] ps[i]).1.score == best_score(ps)->Some_0,
    decreases ps.len(),
{
    let init = ps.drop_last();
    assert(ps[ps.len() - 1] == ps.last());
    if init.len() > 0 {
        lemma_best_score(init);
        assert forall|i: int| 0 <= i < ps.len() implies (#[trigger] ps[i]).1.score <= best_score(
            ps,
        )->Some_0 by {
            if i < init.len() {
                assert(init[i].1.score <= best_score(init)->Some_0);
            }
        }
        let w = choose|i: int|
            0 <= i < init.len() && (#[trigger] init[i]).1.score == best_score(init)->Some_0;
        assert(ps[w].1.score == best_score(init)->Some_0);
    }
}

proof fn lemma_names_with(ps: Seq<(Seq<char>, PlayerView)>, score: i64, name: Seq<char>)
    ensures
        names_with(ps, score).contains(name) <==> exists|i: int|
            0 <= i < ps.len() && (#[trigger] ps[i]).1.score == score && ps[i].1.name == name,
    decreases ps.len(),
{
    if ps.len() > 0 {
        let init = ps.drop_last();
        lemma_names_with(init, score, name);
        let before = names_with(init, score);
        let after = names_with(ps, score);
        if before.contains(name) {
            let k = choose|k: int| 0 <= k < before.len() && before[k] == name;
            assert(after[k] == name);
            let i = choose|i: int|
                0 <= i < init.len() && (#[trigger] init[i]).1.score == score && init[i].1.name
                    == name;
            assert(ps[i].1.score == score);
        }
        if after.contains(name) && !before.contains(name) {
            assert(ps[ps.len() - 1].1.score == score);
        }
        if exists|i: int|
            0 <= i < ps.len() && (#[trigger] ps[i]).1.score == score && ps[i].1.name == name {
            let i = choose|i: int|
                0 <= i < ps.len() && (#[trigger] ps[i]).1.score == score && ps[i].1.name == name;
            if i < init.len() {
                assert(init[i].1.score == score);
            } else {
                assert(after[after.len() - 1] == name);
            }
        }
    }
}

/// The winners are those than whom nobody scored more, and where there are
/// players there is a winner.
pub proof fn law_winners_scored_best(ps: Seq<(Seq<char>, PlayerView)>, name: Seq<char>)
    ensures
        winners_of(ps).contains(name) <==> exists|i: int|
            0 <= i < ps.len() && (#[trigger] ps[i]).1.name == name && forall|j: int|
                0 <= j < ps.len() ==> (#[trigger] ps[j]).1.score <= ps[i].1.score,
        ps.len() > 0 ==> winners_of(ps).len() > 0,
{
    if ps.len() > 0 {
        lemma_best_score(ps);
        let best = best_score(ps)->Some_0;
        lemma_names_with(ps, best, name);
        let top = choose|i: int| 0 <= i < ps.len() && (#[trigger] ps[i]).1.score == best;
        lemma_names_with(ps, best, ps[top].1.name);
        assert(names_with(ps, best).contains(ps[top].1.name));
    } else {
        lemma_names_with(ps, 0, name);
    }
}

/// After the break of the last round the game is finished, with its winners.
pub proof fn law_last_round_finishes_game(w: World, t: Times)
    requires
        w.game.state.round >= TOTAL_ROUNDS,
        w.game.state.phase != "finished"@,
    ensures
        all_run(w, seq![CommandView::Advance], t).game.state.phase == "finished"@,
        all_run(w, seq![CommandView::Advance], t).game.state.winners == winners_of(
            w.game.state.players,
        ),
{
    reveal_with_fuel(all_run, 3);
    let one = seq![CommandView::Advance];
    let next = seq![CommandView::FinishGame];
    assert(one.drop_first() + next =~= next);
    assert(next.drop_first() + seq![] =~= seq![]);
}

/// After the break of any other round the next one starts, with its question if
/// it is there.
pub proof fn law_next_round_starts(w: World, t: Times)
    requires
        w.game.state.round < TOTAL_ROUNDS,
    ensures
        advance_step(w) == seq![CommandView::StartRound((w.game.state.round + 1) as u32)],
        ({
            let after = round_step(w, (w.game.state.round + 1) as u32, t).0.game.state;
            after.phase == "question"@ && after.round == w.game.state.round + 1 || after.phase
                == "generating"@
        }),
{
}

/// A restarted room is as a new one with the same players: nobody has points.
pub proof fn law_restart_forgets_scores(w: World, session_id: Seq<char>)
    requires
        w.game.state.phase == "finished"@,
        w.game.state.owner == Some(session_id),
    ensures
        ({
            let after = restart_step(w, session_id).0.game.state;
            &&& after.phase == "lobby"@
            &&& after.round == 0
            &&& after.winners.len() == 0
            &&& after.players.len() == w.game.state.players.len()
            &&& forall|i: int|
                0 <= i < after.players.len() ==> (#[trigger] after.players[i]).1 == new_player(
                    w.game.state.players[i].1.user_id,
                    w.game.state.players[i].1.name,
                )
        }),
{
}

}
