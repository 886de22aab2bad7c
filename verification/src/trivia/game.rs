//! The game: commands that change the state, and what they call for next.
//!
//! ```text
//! (first lobby join) -> GenerateQuestions  [pre-warm, background]
//! StartGame -> StartRound(1), instantly if questions are ready
//! StartRound -(timer or all answered)-> EndRound -(break)-> Advance
//! Advance -> StartRound(n+1), or FinishGame after the last round
//! ```

use crate::actor::error_reported;
use crate::client::told_to_leave;
use crate::command::Dispatcher;
use crate::context::{broadcasted, find_client, without_timer};
use crate::error::{codes, ErrorView, ServerError};
use crate::json::{put_field, values_view, Json, JsonView};
use crate::protocol::{MessageType, TypeView};
use crate::query::{is_blank, text_option};
use crate::room::{client_index, forgotten, synced, ContextView, RoomContext, TimerEntry};
use crate::table::{table_get, table_remove, table_set, Table};
use crate::text::{chars_of, decimal, decimal_text, joined, same_text, slice_text, text_views};
use crate::tictactoe::{announce, announced};
use crate::trivia::llm::{question_views, Question, QuestionView};
use crate::trivia::state::{
    meta_json, name_of, new_player, points_for, points_of, PlayerState, PlayerView, PublicView,
    QuestionPublic, SpectatorState, StateView, TriviaState, MAX_PLAYERS, MAX_SPECTATORS,
    REVEAL_BREAK_MS, ROUND_TIME_MS, TOTAL_ROUNDS,
};
use crate::utils::{add_time, later};
use vstd::prelude::*;
use vstd::string::*;

verus! {

/// The longest chat message, in characters.
pub const CHAT_MAX: usize = 300;

/// Server-only data of a room, which clients never see.
pub struct TriviaInternal {
    pub password: Option<String>,
    /// The choices of this round, by session id.
    pub round_answers: Table<usize>,
    /// Questions that wait for their round, by the round's number.
    pub pending_questions: Table<Question>,
    pub correct_index: Option<usize>,
    pub batch_in_flight: bool,
    /// The round that waits for its question.
    pub needed_round: Option<u32>,
}

/// What the server-only data stands for.
pub struct InternalView {
    pub password: Option<Seq<char>>,
    pub round_answers: Seq<(Seq<char>, usize)>,
    pub pending_questions: Seq<(Seq<char>, QuestionView)>,
    pub correct_index: Option<usize>,
    pub batch_in_flight: bool,
    pub needed_round: Option<u32>,
}

impl View for TriviaInternal {
    type V = InternalView;

    open spec fn view(&self) -> InternalView {
        InternalView {
            password: text_option(self.password),
            round_answers: self.round_answers@,
            pending_questions: self.pending_questions@,
            correct_index: self.correct_index,
            batch_in_flight: self.batch_in_flight,
            needed_round: self.needed_round,
        }
    }
}

/// Server-only data of a new room.
pub open spec fn new_internal() -> InternalView {
    InternalView {
        password: None,
        round_answers: seq![],
        pending_questions: seq![],
        correct_index: None,
        batch_in_flight: false,
        needed_round: None,
    }
}

impl Default for TriviaInternal {
    fn default() -> (r: Self)
        ensures
            r@ == new_internal(),
    {
        TriviaInternal {
            password: None,
            round_answers: Table::new(),
            pending_questions: Table::new(),
            correct_index: None,
            batch_in_flight: false,
            needed_round: None,
        }
    }
}

/// A game: what clients see, what they do not, its timers, and what is to be done
/// for it outside of the room.
pub struct TriviaGame {
    pub state: TriviaState,
    pub internal: TriviaInternal,
    pub round_timer: Option<u64>,
    pub break_timer: Option<u64>,
    /// How many batches of questions are to be generated.
    pub batches_wanted: u64,
    /// Texts of questions that are now asked, to be remembered.
    pub asked: Vec<String>,
    /// Results of games that finished, to be published.
    pub results: Vec<Json>,
}

/// What a game stands for.
pub struct GameView {
    pub state: StateView,
    pub internal: InternalView,
    pub round_timer: Option<u64>,
    pub break_timer: Option<u64>,
    pub batches_wanted: u64,
    pub asked: Seq<Seq<char>>,
    pub results: Seq<JsonView>,
}

impl View for TriviaGame {
    type V = GameView;

    open spec fn view(&self) -> GameView {
        GameView {
            state: self.state@,
            internal: self.internal@,
            round_timer: self.round_timer,
            break_timer: self.break_timer,
            batches_wanted: self.batches_wanted,
            asked: text_views(self.asked@),
            results: values_view(self.results@),
        }
    }
}

impl TriviaGame {
    /// A game that starts from a state.
    pub fn new(state: TriviaState, password: Option<String>) -> (r: Self)
        ensures
            r@ == new_game(state@, text_option(password)),
    {
        let r = TriviaGame {
            state,
            internal: TriviaInternal { password, ..TriviaInternal::default() },
            round_timer: None,
            break_timer: None,
            batches_wanted: 0,
            asked: Vec::new(),
            results: Vec::new(),
        };
        proof {
            assert(text_views(r.asked@) =~= seq![]);
            assert(values_view(r.results@) =~= seq![]);
        }
        r
    }
}

/// A game that starts from a state.
pub open spec fn new_game(state: StateView, password: Option<Seq<char>>) -> GameView {
    GameView {
        state,
        internal: InternalView { password, ..new_internal() },
        round_timer: None,
        break_timer: None,
        batches_wanted: 0,
        asked: seq![],
        results: seq![],
    }
}

/// A game and the room that it is played in.
pub struct World {
    pub ctx: ContextView,
    pub game: GameView,
}

/// The times that a command is run at, on the monotonic and on the wall clock.
#[derive(Debug, Clone, Copy)]
pub struct Times {
    pub now: u64,
    pub sys_now: u64,
}

// ---------------------------------------------------------------------
// commands
// ---------------------------------------------------------------------

/// A client joins the room: as a player if there is room in the lobby, otherwise
/// (or mid-game) as a spectator.
#[derive(Debug)]
pub struct Join {
    pub session_id: String,
    pub name: String,
    pub user_id: String,
    pub wants_player: bool,
}

/// A client leaves for good (consented or reconnection expired).
#[derive(Debug)]
pub struct Leave {
    pub session_id: String,
}

/// Toggle a player's ready flag (lobby only).
#[derive(Debug)]
pub struct ToggleReady {
    pub session_id: String,
}

/// Chat message relay (players and spectators alike).
#[derive(Debug)]
pub struct Chat {
    pub session_id: String,
    pub text: String,
}

/// Owner sends the finished room back to the lobby for another game.
#[derive(Debug)]
pub struct Restart {
    pub session_id: String,
}

/// Owner starts the game (everyone must be ready).
#[derive(Debug)]
pub struct StartGame {
    pub session_id: String,
}

/// A player locks in an answer. Ends the round early when everyone's in.
#[derive(Debug)]
pub struct Answer {
    pub session_id: String,
    pub choice: usize,
}

/// Generate the whole game's questions in one background batch.
#[derive(Debug)]
pub struct GenerateQuestions;

/// The question batch arrived.
#[derive(Debug)]
pub struct QuestionsReady {
    pub questions: Vec<Question>,
}

/// Begin a round: take the prefetched question, publish it (the answer stays
/// server-side), set the timer.
#[derive(Debug)]
pub struct StartRound {
    pub round: u32,
}

/// End the round: reveal the answer, score it, start the break timer.
#[derive(Debug)]
pub struct EndRound;

/// Advance after the reveal break: next round, or finish after the last.
#[derive(Debug)]
pub struct Advance;

/// Finish the game: compute winners, publish results.
#[derive(Debug)]
pub struct FinishGame;

/// One of the commands.
#[derive(Debug)]
pub enum TriviaCommand {
    Join(Join),
    Leave(Leave),
    ToggleReady(ToggleReady),
    Chat(Chat),
    Restart(Restart),
    StartGame(StartGame),
    Answer(Answer),
    GenerateQuestions(GenerateQuestions),
    QuestionsReady(QuestionsReady),
    StartRound(StartRound),
    EndRound(EndRound),
    Advance(Advance),
    FinishGame(FinishGame),
}

/// What a command stands for.
pub enum CommandView {
    Join(Seq<char>, Seq<char>, Seq<char>, bool),
    Leave(Seq<char>),
    ToggleReady(Seq<char>),
    Chat(Seq<char>, Seq<char>),
    Restart(Seq<char>),
    StartGame(Seq<char>),
    Answer(Seq<char>, usize),
    GenerateQuestions,
    QuestionsReady(Seq<QuestionView>),
    StartRound(u32),
    EndRound,
    Advance,
    FinishGame,
}

impl View for TriviaCommand {
    type V = CommandView;

    open spec fn view(&self) -> CommandView {
        match self {
            TriviaCommand::Join(c) => CommandView::Join(
                c.session_id@,
                c.name@,
                c.user_id@,
                c.wants_player,
            ),
            TriviaCommand::Leave(c) => CommandView::Leave(c.session_id@),
            TriviaCommand::ToggleReady(c) => CommandView::ToggleReady(c.session_id@),
            TriviaCommand::Chat(c) => CommandView::Chat(c.session_id@, c.text@),
            TriviaCommand::Restart(c) => CommandView::Restart(c.session_id@),
            TriviaCommand::StartGame(c) => CommandView::StartGame(c.session_id@),
            TriviaCommand::Answer(c) => CommandView::Answer(c.session_id@, c.choice),
            TriviaCommand::GenerateQuestions(_) => CommandView::GenerateQuestions,
            TriviaCommand::QuestionsReady(c) => CommandView::QuestionsReady(
                question_views(c.questions@),
            ),
            TriviaCommand::StartRound(c) => CommandView::StartRound(c.round),
            TriviaCommand::EndRound(_) => CommandView::EndRound,
            TriviaCommand::Advance(_) => CommandView::Advance,
            TriviaCommand::FinishGame(_) => CommandView::FinishGame,
        }
    }
}

/// Commands, read through their views.
pub open spec fn command_views(cs: Seq<TriviaCommand>) -> Seq<CommandView> {
    cs.map_values(|c: TriviaCommand| c@)
}

// ---------------------------------------------------------------------
// what commands do
// ---------------------------------------------------------------------

/// The context with the listing's metadata brought up to date.
pub open spec fn meta_synced(c: ContextView, s: StateView) -> ContextView {
    synced(ContextView { metadata: Some(meta_json(s)), ..c })
}

/// The first player who is this user under another session.
pub open spec fn stale_session(
    players: Seq<(Seq<char>, PlayerView)>,
    user_id: Seq<char>,
    session_id: Seq<char>,
) -> Option<Seq<char>>
    decreases players.len(),
{
    if players.len() == 0 {
        None
    } else if players[0].1.user_id == user_id && players[0].0 != session_id {
        Some(players[0].0)
    } else {
        stale_session(players.drop_first(), user_id, session_id)
    }
}

/// A table in which what stood under one key stands under another.
pub open spec fn key_moved<A>(s: Seq<(Seq<char>, A)>, from: Seq<char>, to: Seq<char>) -> Seq<
    (Seq<char>, A),
> {
    match table_get(s, from) {
        Some(v) => table_set(table_remove(s, from), to, v),
        None => s,
    }
}

/// The context after a client was told that its session moved, and was forgotten.
pub open spec fn session_dropped(c: ContextView, session_id: Seq<char>) -> ContextView {
    forgotten(
        match client_index(c.clients, session_id) {
            Some(i) => ContextView {
                clients: c.clients.update(
                    i,
                    told_to_leave(
                        c.clients[i],
                        codes::MATCHMAKE_EXPIRED,
                        "session moved to a new connection"@,
                    ),
                ),
                ..c
            },
            None => c,
        },
        session_id,
    )
}

/// A user's seat moves to a new session: score, ready flag, even the answer of
/// this round.
pub open spec fn taken_over(w: World, from: Seq<char>, to: Seq<char>, name: Seq<char>) -> World {
    let s = w.game.state;
    let state = StateView {
        players: key_moved(s.players, from, to),
        owner: if s.owner == Some(from) {
            Some(to)
        } else {
            s.owner
        },
        ..s
    };
    World {
        ctx: meta_synced(announced(session_dropped(w.ctx, from), name + " rejoined"@), state),
        game: GameView {
            state,
            internal: InternalView {
                round_answers: key_moved(w.game.internal.round_answers, from, to),
                ..w.game.internal
            },
            ..w.game
        },
    }
}

/// A client joins, and what that calls for.
pub open spec fn join_step(
    w: World,
    session_id: Seq<char>,
    name: Seq<char>,
    user_id: Seq<char>,
    wants_player: bool,
) -> (World, Seq<CommandView>) {
    let s = w.game.state;
    let stale = if user_id.len() == 0 {
        None
    } else {
        stale_session(s.players, user_id, session_id)
    };
    match stale {
        Some(from) => (taken_over(w, from, session_id, name), seq![]),
        None => if wants_player && s.phase == "lobby"@ && s.players.len() < MAX_PLAYERS {
            let state = StateView {
                spectators: table_remove(s.spectators, session_id),
                owner: if s.owner is None {
                    Some(session_id)
                } else {
                    s.owner
                },
                players: table_set(s.players, session_id, new_player(user_id, name)),
                ..s
            };
            (
                World {
                    ctx: meta_synced(announced(w.ctx, name + " joined the game"@), state),
                    game: GameView { state, ..w.game },
                },
                if state.players.len() == 1 {
                    seq![CommandView::GenerateQuestions]
                } else {
                    seq![]
                },
            )
        } else if s.spectators.len() < MAX_SPECTATORS {
            let state = StateView {
                spectators: table_set(s.spectators, session_id, name),
                ..s
            };
            (
                World {
                    ctx: meta_synced(announced(w.ctx, name + " is spectating"@), state),
                    game: GameView { state, ..w.game },
                },
                seq![],
            )
        } else {
            (World { ctx: meta_synced(w.ctx, s), ..w }, seq![])
        },
    }
}

/// A game is on.
pub open spec fn is_on(phase: Seq<char>) -> bool {
    phase == "question"@ || phase == "reveal"@ || phase == "generating"@
}

/// A client leaves, and what that calls for: a departed player's answer no longer
/// blocks the round, and a game without players ends.
pub open spec fn leave_step(w: World, session_id: Seq<char>) -> (World, Seq<CommandView>) {
    let s = w.game.state;
    let name = match name_of(s, session_id) {
        Some(n) => n,
        None => seq![],
    };
    let players = table_remove(s.players, session_id);
    let state = StateView {
        players,
        spectators: table_remove(s.spectators, session_id),
        owner: if s.owner == Some(session_id) {
            if players.len() > 0 {
                Some(players[0].0)
            } else {
                None
            }
        } else {
            s.owner
        },
        ..s
    };
    let ends_round = s.phase == "question"@ && players.len() > 0 && s.answers_in >= players.len();
    let ends_game = players.len() == 0 && is_on(s.phase);
    (
        World {
            ctx: meta_synced(announced(w.ctx, name + " left"@), state),
            game: GameView { state, ..w.game },
        },
        if table_get(s.players, session_id) is None {
            seq![]
        } else if ends_round {
            seq![CommandView::EndRound]
        } else if ends_game {
            seq![CommandView::FinishGame]
        } else {
            seq![]
        },
    )
}

/// A player is, or is no longer, ready.
pub open spec fn ready_step(w: World, session_id: Seq<char>) -> World {
    let s = w.game.state;
    if s.phase != "lobby"@ {
        w
    } else {
        match table_get(s.players, session_id) {
            Some(p) => World {
                game: GameView {
                    state: StateView {
                        players: table_set(
                            s.players,
                            session_id,
                            PlayerView { ready: !p.ready, ..p },
                        ),
                        ..s
                    },
                    ..w.game
                },
                ..w
            },
            None => w,
        }
    }
}

/// A text up to so many characters.
pub open spec fn cut(t: Seq<char>, n: int) -> Seq<char> {
    if t.len() <= n {
        t
    } else {
        t.take(n)
    }
}

/// A chat message as it is passed on.
pub open spec fn chat_json(s: StateView, session_id: Seq<char>, text: Seq<char>) -> JsonView {
    JsonView::Object(
        Map::<Seq<char>, JsonView>::empty().insert(
            "from"@,
            JsonView::Str(
                match name_of(s, session_id) {
                    Some(n) => n,
                    None => "???"@,
                },
            ),
        ).insert("text"@, JsonView::Str(cut(text, CHAT_MAX as int))),
    )
}

/// A chat message is passed on to everybody.
pub open spec fn chat_step(w: World, session_id: Seq<char>, text: Seq<char>) -> World {
    World {
        ctx: broadcasted(
            w.ctx,
            TypeView::Str("chat"@),
            chat_json(w.game.state, session_id, text),
        ),
        ..w
    }
}

/// Players who start over.
pub open spec fn fresh_players(ps: Seq<(Seq<char>, PlayerView)>) -> Seq<(Seq<char>, PlayerView)> {
    ps.map_values(|e: (Seq<char>, PlayerView)| (e.0, new_player(e.1.user_id, e.1.name)))
}

/// The owner sends a finished room back to the lobby.
pub open spec fn restart_step(w: World, session_id: Seq<char>) -> (World, Seq<CommandView>) {
    let s = w.game.state;
    if s.phase != "finished"@ || s.owner != Some(session_id) {
        (w, seq![])
    } else {
        let state = StateView {
            phase: "lobby"@,
            round: 0,
            question: None,
            correct_index: None,
            winners: seq![],
            players: fresh_players(s.players),
            ..s
        };
        (
            World {
                ctx: meta_synced(announced(w.ctx, "back to lobby — ready up!"@), state),
                game: GameView {
                    state,
                    internal: InternalView {
                        pending_questions: seq![],
                        correct_index: None,
                        ..w.game.internal
                    },
                    ..w.game
                },
            },
            seq![CommandView::GenerateQuestions],
        )
    }
}

/// Everybody is ready.
pub open spec fn all_ready(ps: Seq<(Seq<char>, PlayerView)>) -> bool {
    forall|i: int| 0 <= i < ps.len() ==> (#[trigger] ps[i]).1.ready
}

/// Why a game cannot be started.
pub open spec fn start_refusal(s: StateView, session_id: Seq<char>) -> Option<Seq<char>> {
    if s.phase != "lobby"@ {
        Some("game already started"@)
    } else if s.owner != Some(session_id) {
        Some("only the room owner can start"@)
    } else if s.players.len() == 0 {
        Some("no players"@)
    } else if !all_ready(s.players) {
        Some("everyone must be ready"@)
    } else {
        None
    }
}

/// The owner starts the game.
pub open spec fn start_step(w: World, session_id: Seq<char>) -> (World, Seq<CommandView>) {
    match start_refusal(w.game.state, session_id) {
        Some(e) => (
            World {
                ctx: error_reported(
                    w.ctx,
                    session_id,
                    ErrorView { code: codes::APPLICATION_ERROR, message: e },
                ),
                ..w
            },
            seq![],
        ),
        None => (w, seq![CommandView::StartRound(1)]),
    }
}

/// A player locks in an answer: once a round, and only players do.
pub open spec fn answer_step(w: World, session_id: Seq<char>, choice: usize) -> (
    World,
    Seq<CommandView>,
) {
    let s = w.game.state;
    match table_get(s.players, session_id) {
        None => (w, seq![]),
        Some(p) => if s.phase != "question"@ || choice >= 4 || p.answered {
            (w, seq![])
        } else {
            let answers_in = if s.answers_in < u32::MAX {
                (s.answers_in + 1) as u32
            } else {
                s.answers_in
            };
            let players = table_set(s.players, session_id, PlayerView { answered: true, ..p });
            (
                World {
                    game: GameView {
                        state: StateView { players, answers_in, ..s },
                        internal: InternalView {
                            round_answers: table_set(
                                w.game.internal.round_answers,
                                session_id,
                                choice,
                            ),
                            ..w.game.internal
                        },
                        ..w.game
                    },
                    ..w
                },
                if players.len() > 0 && answers_in >= players.len() {
                    seq![CommandView::EndRound]
                } else {
                    seq![]
                },
            )
        },
    }
}

/// A batch is asked for, unless one is on its way or there are questions enough.
pub open spec fn generate_step(w: World) -> World {
    let i = w.game.internal;
    if i.batch_in_flight || i.pending_questions.len() >= TOTAL_ROUNDS {
        w
    } else {
        World {
            game: GameView {
                internal: InternalView { batch_in_flight: true, ..i },
                batches_wanted: if w.game.batches_wanted < u64::MAX {
                    (w.game.batches_wanted + 1) as u64
                } else {
                    w.game.batches_wanted
                },
                ..w.game
            },
            ..w
        }
    }
}

/// The waiting questions after a batch: one for each round from the first on.
pub open spec fn questions_put(
    pending: Seq<(Seq<char>, QuestionView)>,
    qs: Seq<QuestionView>,
) -> Seq<(Seq<char>, QuestionView)>
    decreases qs.len(),
{
    if qs.len() == 0 {
        pending
    } else {
        table_set(questions_put(pending, qs.drop_last()), decimal(qs.len()), qs.last())
    }
}

/// A batch has come, and a game that waits for its first question starts.
pub open spec fn questions_step(w: World, qs: Seq<QuestionView>) -> (World, Seq<CommandView>) {
    let i = w.game.internal;
    let starts = i.needed_round == Some(1u32) && w.game.state.phase == "generating"@;
    (
        World {
            game: GameView {
                internal: InternalView {
                    batch_in_flight: false,
                    pending_questions: questions_put(i.pending_questions, qs),
                    needed_round: if starts {
                        None
                    } else {
                        i.needed_round
                    },
                    ..i
                },
                asked: w.game.asked + qs.map_values(|q: QuestionView| q.text),
                ..w.game
            },
            ..w
        },
        if starts {
            seq![CommandView::StartRound(1)]
        } else {
            seq![]
        },
    )
}

/// Players at the start of a round.
pub open spec fn unanswered(ps: Seq<(Seq<char>, PlayerView)>) -> Seq<(Seq<char>, PlayerView)> {
    ps.map_values(
        |e: (Seq<char>, PlayerView)| (e.0, PlayerView { answered: false, choice: None, ..e.1 }),
    )
}

/// The context after a timer was set.
pub open spec fn timer_set(c: ContextView, delay: u64, now: u64) -> ContextView {
    ContextView {
        next_timer_id: (c.next_timer_id + 1) as u64,
        timers: c.timers.push(
            TimerEntry { id: (c.next_timer_id + 1) as u64, at: later(now, delay) },
        ),
        ..c
    }
}

/// A round begins. Without its question the game waits for it.
pub open spec fn round_step(w: World, round: u32, t: Times) -> (World, Seq<CommandView>) {
    let s = w.game.state;
    let i = w.game.internal;
    match table_get(i.pending_questions, decimal(round as nat)) {
        Some(q) => {
            let state = StateView {
                phase: "question"@,
                round,
                question: Some(PublicView { text: q.text, choices: q.choices }),
                correct_index: None,
                answers_in: 0,
                phase_ends_at: Some(later(t.sys_now, ROUND_TIME_MS)),
                players: unanswered(s.players),
                ..s
            };
            (
                World {
                    ctx: meta_synced(timer_set(w.ctx, ROUND_TIME_MS, t.now), state),
                    game: GameView {
                        state,
                        internal: InternalView {
                            pending_questions: table_remove(
                                i.pending_questions,
                                decimal(round as nat),
                            ),
                            correct_index: Some(q.answer_index),
                            round_answers: seq![],
                            ..i
                        },
                        round_timer: Some((w.ctx.next_timer_id + 1) as u64),
                        ..w.game
                    },
                },
                seq![],
            )
        },
        None => {
            let state = StateView { phase: "generating"@, phase_ends_at: None, ..s };
            (
                World {
                    ctx: meta_synced(w.ctx, state),
                    game: GameView {
                        state,
                        internal: InternalView { needed_round: Some(round), ..i },
                        ..w.game
                    },
                },
                if i.batch_in_flight {
                    seq![]
                } else {
                    seq![CommandView::GenerateQuestions]
                },
            )
        },
    }
}

/// A player after an answer was scored.
pub open spec fn scored(p: PlayerView, choice: usize, correct: Option<usize>, points: i64) -> PlayerView {
    let picked = PlayerView { choice: Some(choice), ..p };
    if correct == Some(choice) {
        PlayerView {
            score: if p.score <= i64::MAX - points {
                (p.score + points) as i64
            } else {
                i64::MAX
            },
            correct_count: if p.correct_count < u32::MAX {
                (p.correct_count + 1) as u32
            } else {
                p.correct_count
            },
            ..picked
        }
    } else {
        picked
    }
}

/// The players after the answers were scored.
pub open spec fn all_scored(
    ps: Seq<(Seq<char>, PlayerView)>,
    answers: Seq<(Seq<char>, usize)>,
    correct: Option<usize>,
    points: i64,
) -> Seq<(Seq<char>, PlayerView)>
    decreases answers.len(),
{
    if answers.len() == 0 {
        ps
    } else {
        let before = all_scored(ps, answers.drop_last(), correct, points);
        let (sid, choice) = answers.last();
        match table_get(before, sid) {
            Some(p) => table_set(before, sid, scored(p, choice, correct, points)),
            None => before,
        }
    }
}

/// A round ends: the answer is revealed and scored.
pub open spec fn end_step(w: World, t: Times) -> World {
    let s = w.game.state;
    let i = w.game.internal;
    if s.phase != "question"@ {
        w
    } else {
        let cleared = match w.game.round_timer {
            Some(id) => ContextView { timers: without_timer(w.ctx.timers, id), ..w.ctx },
            None => w.ctx,
        };
        World {
            ctx: timer_set(cleared, REVEAL_BREAK_MS, t.now),
            game: GameView {
                state: StateView {
                    phase: "reveal"@,
                    correct_index: i.correct_index,
                    phase_ends_at: Some(later(t.sys_now, REVEAL_BREAK_MS)),
                    players: all_scored(
                        s.players,
                        i.round_answers,
                        i.correct_index,
                        points_of(s.difficulty),
                    ),
                    ..s
                },
                internal: InternalView { round_answers: seq![], ..i },
                round_timer: None,
                break_timer: Some((w.ctx.next_timer_id + 1) as u64),
                ..w.game
            },
        }
    }
}

/// After the break.
pub open spec fn advance_step(w: World) -> Seq<CommandView> {
    if w.game.state.round >= TOTAL_ROUNDS {
        seq![CommandView::FinishGame]
    } else {
        seq![CommandView::StartRound((w.game.state.round + 1) as u32)]
    }
}

/// The best score, or none.
pub open spec fn best_score(ps: Seq<(Seq<char>, PlayerView)>) -> Option<i64>
    decreases ps.len(),
{
    if ps.len() == 0 {
        None
    } else {
        match best_score(ps.drop_last()) {
            Some(b) => Some(
                if b >= ps.last().1.score {
                    b
                } else {
                    ps.last().1.score
                },
            ),
            None => Some(ps.last().1.score),
        }
    }
}

/// The names of those with a score.
pub open spec fn names_with(ps: Seq<(Seq<char>, PlayerView)>, score: i64) -> Seq<Seq<char>>
    decreases ps.len(),
{
    if ps.len() == 0 {
        seq![]
    } else if ps.last().1.score == score {
        names_with(ps.drop_last(), score).push(ps.last().1.name)
    } else {
        names_with(ps.drop_last(), score)
    }
}

/// The winners: those with the best score.
pub open spec fn winners_of(ps: Seq<(Seq<char>, PlayerView)>) -> Seq<Seq<char>> {
    names_with(
        ps,
        match best_score(ps) {
            Some(b) => b,
            None => 0,
        },
    )
}

/// A player's result.
pub open spec fn player_result(p: PlayerView) -> JsonView {
    JsonView::Object(
        Map::<Seq<char>, JsonView>::empty().insert("userId"@, JsonView::Str(p.user_id)).insert(
            "name"@,
            JsonView::Str(p.name),
        ).insert("score"@, JsonView::Int(p.score as int)).insert(
            "correct"@,
            JsonView::Int(p.correct_count as int),
        ),
    )
}

/// A game's results.
pub open spec fn results_json(room_id: Seq<char>, s: StateView, ended_at: u64) -> JsonView {
    JsonView::Object(
        Map::<Seq<char>, JsonView>::empty().insert("type"@, JsonView::Str("game_finished"@)).insert(
            "roomId"@,
            JsonView::Str(room_id),
        ).insert("difficulty"@, JsonView::Str(s.difficulty)).insert(
            "category"@,
            JsonView::Str(s.category),
        ).insert("endedAt"@, JsonView::Int(ended_at as int)).insert(
            "players"@,
            JsonView::Array(
                s.players.map_values(|e: (Seq<char>, PlayerView)| player_result(e.1)),
            ),
        ),
    )
}

/// The game is over.
pub open spec fn finish_step(w: World, t: Times) -> World {
    let s = w.game.state;
    if s.phase == "finished"@ {
        w
    } else {
        let state = StateView {
            phase: "finished"@,
            question: None,
            phase_ends_at: None,
            winners: winners_of(s.players),
            ..s
        };
        World {
            ctx: meta_synced(w.ctx, state),
            game: GameView {
                state,
                results: w.game.results.push(results_json(w.ctx.room_id, state, t.sys_now)),
                ..w.game
            },
        }
    }
}

/// What a command does, and what it calls for.
pub open spec fn command_step(w: World, c: CommandView, t: Times) -> (World, Seq<CommandView>) {
    match c {
        CommandView::Join(sid, name, user_id, wants) => join_step(w, sid, name, user_id, wants),
        CommandView::Leave(sid) => leave_step(w, sid),
        CommandView::ToggleReady(sid) => (ready_step(w, sid), seq![]),
        CommandView::Chat(sid, text) => (chat_step(w, sid, text), seq![]),
        CommandView::Restart(sid) => restart_step(w, sid),
        CommandView::StartGame(sid) => start_step(w, sid),
        CommandView::Answer(sid, choice) => answer_step(w, sid, choice),
        CommandView::GenerateQuestions => (generate_step(w), seq![]),
        CommandView::QuestionsReady(qs) => questions_step(w, qs),
        CommandView::StartRound(round) => round_step(w, round, t),
        CommandView::EndRound => (end_step(w, t), seq![]),
        CommandView::Advance => (w, advance_step(w)),
        CommandView::FinishGame => (finish_step(w, t), seq![]),
    }
}

/// How much a command can call for: more than what it calls for can.
pub open spec fn weight(c: CommandView) -> nat {
    match c {
        CommandView::GenerateQuestions => 1,
        CommandView::EndRound => 1,
        CommandView::FinishGame => 1,
        CommandView::ToggleReady(_) => 1,
        CommandView::Chat(_, _) => 1,
        CommandView::StartRound(_) => 2,
        _ => 3,
    }
}

/// How much several commands can call for.
pub open spec fn total_weight(cs: Seq<CommandView>) -> nat
    decreases cs.len(),
{
    if cs.len() == 0 {
        0
    } else {
        weight(cs[0]) + total_weight(cs.drop_first())
    }
}

pub proof fn lemma_weight_concat(a: Seq<CommandView>, b: Seq<CommandView>)
    ensures
        total_weight(a + b) == total_weight(a) + total_weight(b),
    decreases a.len(),
{
    if a.len() == 0 {
        assert(a + b =~= b);
    } else {
        assert((a + b).drop_first() =~= a.drop_first() + b);
        lemma_weight_concat(a.drop_first(), b);
    }
}

/// What a command calls for weighs less than the command.
pub proof fn lemma_step_weight(w: World, c: CommandView, t: Times)
    ensures
        total_weight(command_step(w, c, t).1) < weight(c),
{
    let next = command_step(w, c, t).1;
    if next.len() > 0 {
        assert(next.len() == 1);
        assert(next.drop_first() =~= seq![]);
        assert(total_weight(next.drop_first()) == 0);
    }
}

/// What commands do, one after the other, each followed in its turn by what it
/// calls for.
pub open spec fn all_run(w: World, cs: Seq<CommandView>, t: Times) -> World
    decreases total_weight(cs),
    via all_run_decreases
{
    if cs.len() == 0 {
        w
    } else {
        let (after, next) = command_step(w, cs[0], t);
        all_run(after, cs.drop_first() + next, t)
    }
}

#[via_fn]
proof fn all_run_decreases(w: World, cs: Seq<CommandView>, t: Times) {
    if cs.len() > 0 {
        let next = command_step(w, cs[0], t).1;
        lemma_step_weight(w, cs[0], t);
        lemma_weight_concat(cs.drop_first(), next);
    }
}


// ---------------------------------------------------------------------
// running commands
// ---------------------------------------------------------------------

/// A game and its room.
pub open spec fn world(ctx: RoomContext, game: TriviaGame) -> World {
    World { ctx: ctx@, game: game@ }
}

/// Keeps the public listing metadata (phase, counts) fresh.
pub fn sync_meta(ctx: &mut RoomContext, state: &TriviaState)
    ensures
        final(ctx)@ == meta_synced(old(ctx)@, state@),
{
    ctx.set_metadata(state.metadata());
}

fn find_stale(players: &Table<PlayerState>, user_id: &str, session_id: &str) -> (r: Option<String>)
    ensures
        text_option(r) == stale_session(players@, user_id@, session_id@),
{
    let ghost all = players@;
    let mut i: usize = 0;
    proof {
        assert(all.skip(0) =~= all);
    }
    while i < players.entries.len()
        invariant
            i <= players.entries.len(),
            all == players@,
            stale_session(all, user_id@, session_id@) == stale_session(
                all.skip(i as int),
                user_id@,
                session_id@,
            ),
        decreases players.entries.len() - i,
    {
        let e: &(String, PlayerState) = &players.entries[i];
        proof {
            assert(all.skip(i as int).drop_first() =~= all.skip(i + 1));
            assert(all.skip(i as int)[0] == (e.0@, e.1@));
        }
        if same_text(e.1.user_id.as_str(), user_id) && !same_text(e.0.as_str(), session_id) {
            return Some(e.0.clone());
        }
        i = i + 1;
    }
    None
}

fn no_commands() -> (r: Vec<TriviaCommand>)
    ensures
        command_views(r@) == Seq::<CommandView>::empty(),
{
    let r: Vec<TriviaCommand> = Vec::new();
    proof {
        assert(command_views(r@) =~= Seq::<CommandView>::empty());
    }
    r
}

fn one_command(c: TriviaCommand) -> (r: Vec<TriviaCommand>)
    ensures
        command_views(r@) == seq![c@],
{
    let mut r: Vec<TriviaCommand> = Vec::new();
    r.push(c);
    proof {
        assert(command_views(r@) =~= seq![c@]);
    }
    r
}

fn is_owner(owner: &Option<String>, session_id: &str) -> (r: bool)
    ensures
        r == (text_option(*owner) == Some(session_id@)),
{
    match owner {
        Some(o) => same_text(o.as_str(), session_id),
        None => false,
    }
}

/// Closes the connection of a session and forgets its client.
fn drop_session(ctx: &mut RoomContext, session_id: &str)
    ensures
        final(ctx)@ == session_dropped(old(ctx)@, session_id@),
{
    let ghost before = ctx@;
    match find_client(&ctx.clients, session_id) {
        Some(i) => {
            proof {
                assert(before.clients[i as int] == ctx.clients@[i as int]@);
            }
            ctx.clients[i].leave(
                Some(codes::MATCHMAKE_EXPIRED),
                Some("session moved to a new connection"),
            );
            proof {
                assert(ctx@.clients =~= before.clients.update(
                    i as int,
                    ctx.clients@[i as int]@,
                ));
            }
        },
        None => {},
    }
    ctx.remove_client(session_id);
}

impl Join {
    fn take_over(&self, ctx: &mut RoomContext, game: &mut TriviaGame, from: &str)
        ensures
            world(*final(ctx), *final(game)) == taken_over(
                world(*old(ctx), *old(game)),
                from@,
                self.session_id@,
                self.name@,
            ),
    {
        drop_session(ctx, from);
        let answer: Option<usize> = match game.internal.round_answers.get(from) {
            Some(a) => Some(*a),
            None => None,
        };
        if let Some(a) = answer {
            game.internal.round_answers.remove(from);
            game.internal.round_answers.set(self.session_id.as_str(), a);
        }
        let seat: Option<PlayerState> = match game.state.players.get(from) {
            Some(p) => Some(p.copy()),
            None => None,
        };
        if let Some(p) = seat {
            game.state.players.remove(from);
            game.state.players.set(self.session_id.as_str(), p);
        }
        if is_owner(&game.state.owner, from) {
            game.state.owner = Some(self.session_id.clone());
        }
        announce(ctx, joined(self.name.as_str(), " rejoined"));
        sync_meta(ctx, &game.state);
    }

    pub fn execute(self, ctx: &mut RoomContext, game: &mut TriviaGame) -> (r: Vec<TriviaCommand>)
        ensures
            (world(*final(ctx), *final(game)), command_views(r@)) == join_step(
                world(*old(ctx), *old(game)),
                self.session_id@,
                self.name@,
                self.user_id@,
                self.wants_player,
            ),
    {
        let stale: Option<String> = if is_blank(self.user_id.as_str()) {
            None
        } else {
            find_stale(&game.state.players, self.user_id.as_str(), self.session_id.as_str())
        };
        if let Some(from) = stale {
            self.take_over(ctx, game, from.as_str());
            return no_commands();
        }
        let can_play: bool = same_text(game.state.phase.as_str(), "lobby")
            && game.state.players.len() < MAX_PLAYERS;
        if self.wants_player && can_play {
            game.state.spectators.remove(self.session_id.as_str());
            if game.state.owner.is_none() {
                game.state.owner = Some(self.session_id.clone());
            }
            let player: PlayerState = PlayerState::new(self.user_id.clone(), self.name.clone());
            game.state.players.set(self.session_id.as_str(), player);
            let first: bool = game.state.players.len() == 1;
            announce(ctx, joined(self.name.as_str(), " joined the game"));
            sync_meta(ctx, &game.state);
            if first {
                return one_command(TriviaCommand::GenerateQuestions(GenerateQuestions));
            }
            return no_commands();
        }
        if game.state.spectators.len() < MAX_SPECTATORS {
            let spectator = SpectatorState { name: self.name.clone() };
            game.state.spectators.set(self.session_id.as_str(), spectator);
            announce(ctx, joined(self.name.as_str(), " is spectating"));
        }
        sync_meta(ctx, &game.state);
        no_commands()
    }
}

impl Leave {
    pub fn execute(self, ctx: &mut RoomContext, game: &mut TriviaGame) -> (r: Vec<TriviaCommand>)
        ensures
            (world(*final(ctx), *final(game)), command_views(r@)) == leave_step(
                world(*old(ctx), *old(game)),
                self.session_id@,
            ),
    {
        let sid: &str = self.session_id.as_str();
        let name: String = match game.state.display_name(sid) {
            Some(n) => n,
            None => String::new(),
        };
        let was_player: bool = game.state.players.contains(sid);
        game.state.players.remove(sid);
        game.state.spectators.remove(sid);
        if is_owner(&game.state.owner, sid) {
            game.state.owner = if game.state.players.entries.len() > 0 {
                Some(game.state.players.entries[0].0.clone())
            } else {
                None
            };
        }
        let left: usize = game.state.players.len();
        let asking: bool = same_text(game.state.phase.as_str(), "question");
        let on: bool = asking || same_text(game.state.phase.as_str(), "reveal") || same_text(
            game.state.phase.as_str(),
            "generating",
        );
        announce(ctx, joined(name.as_str(), " left"));
        sync_meta(ctx, &game.state);
        if !was_player {
            return no_commands();
        }
        if asking && left > 0 && game.state.answers_in as usize >= left {
            return one_command(TriviaCommand::EndRound(EndRound));
        }
        if left == 0 && on {
            return one_command(TriviaCommand::FinishGame(FinishGame));
        }
        no_commands()
    }
}

impl ToggleReady {
    pub fn execute(self, ctx: &RoomContext, game: &mut TriviaGame)
        ensures
            world(*ctx, *final(game)) == ready_step(world(*ctx, *old(game)), self.session_id@),
    {
        if !same_text(game.state.phase.as_str(), "lobby") {
            return ;
        }
        let player: Option<PlayerState> = match game.state.players.get(self.session_id.as_str()) {
            Some(p) => Some(p.copy()),
            None => None,
        };
        if let Some(p) = player {
            let toggled = PlayerState { ready: !p.ready, ..p };
            game.state.players.set(self.session_id.as_str(), toggled);
        }
    }
}

impl Chat {
    pub fn execute(self, ctx: &mut RoomContext, game: &TriviaGame)
        ensures
            world(*final(ctx), *game) == chat_step(
                world(*old(ctx), *game),
                self.session_id@,
                self.text@,
            ),
    {
        let name: String = match game.state.display_name(self.session_id.as_str()) {
            Some(n) => n,
            None => "???".to_owned(),
        };
        let text: String = cut_text(self.text.as_str(), CHAT_MAX);
        let mut es: Vec<(String, Json)> = Vec::new();
        put_field(&mut es, "from", Json::Str(name));
        put_field(&mut es, "text", Json::Str(text));
        ctx.broadcast(&MessageType::text("chat"), &Json::Object(es));
    }
}

/// A text up to so many characters.
pub fn cut_text(t: &str, n: usize) -> (r: String)
    ensures
        r@ == cut(t@, n as int),
{
    let v: Vec<char> = chars_of(t);
    if v.len() <= n {
        t.to_owned()
    } else {
        proof {
            assert(v@.subrange(0, n as int) =~= t@.take(n as int));
        }
        slice_text(&v, 0, n)
    }
}

fn start_over(players: &mut Table<PlayerState>)
    ensures
        final(players)@ == fresh_players(old(players)@),
{
    let ghost before = players@;
    let ghost after = fresh_players(before);
    let n: usize = players.entries.len();
    let mut i: usize = 0;
    while i < n
        invariant
            i <= n,
            n == players.entries.len(),
            n == before.len(),
            after == fresh_players(before),
            forall|k: int| 0 <= k < i ==> (#[trigger] players@[k]) == after[k],
            forall|k: int| i <= k < n ==> (#[trigger] players@[k]) == before[k],
        decreases n - i,
    {
        let ghost prev = players@;
        let e: &(String, PlayerState) = &players.entries[i];
        proof {
            assert(players@[i as int] == (e.0@, e.1@));
        }
        let fresh: (String, PlayerState) = (
            e.0.clone(),
            PlayerState::new(e.1.user_id.clone(), e.1.name.clone()),
        );
        players.entries.set(i, fresh);
        proof {
            assert(players@ =~= prev.update(i as int, after[i as int]));
        }
        i = i + 1;
    }
    proof {
        assert(players@ =~= after);
    }
}

fn forget_answers(players: &mut Table<PlayerState>)
    ensures
        final(players)@ == unanswered(old(players)@),
{
    let ghost before = players@;
    let ghost after = unanswered(before);
    let n: usize = players.entries.len();
    let mut i: usize = 0;
    while i < n
        invariant
            i <= n,
            n == players.entries.len(),
            n == before.len(),
            after == unanswered(before),
            forall|k: int| 0 <= k < i ==> (#[trigger] players@[k]) == after[k],
            forall|k: int| i <= k < n ==> (#[trigger] players@[k]) == before[k],
        decreases n - i,
    {
        let ghost prev = players@;
        let e: &(String, PlayerState) = &players.entries[i];
        proof {
            assert(players@[i as int] == (e.0@, e.1@));
        }
        let p: PlayerState = e.1.copy();
        let blank: (String, PlayerState) = (
            e.0.clone(),
            PlayerState { answered: false, choice: None, ..p },
        );
        players.entries.set(i, blank);
        proof {
            assert(players@ =~= prev.update(i as int, after[i as int]));
        }
        i = i + 1;
    }
    proof {
        assert(players@ =~= after);
    }
}

impl Restart {
    pub fn execute(self, ctx: &mut RoomContext, game: &mut TriviaGame) -> (r: Vec<TriviaCommand>)
        ensures
            (world(*final(ctx), *final(game)), command_views(r@)) == restart_step(
                world(*old(ctx), *old(game)),
                self.session_id@,
            ),
    {
        if !same_text(game.state.phase.as_str(), "finished") || !is_owner(
            &game.state.owner,
            self.session_id.as_str(),
        ) {
            return no_commands();
        }
        game.state.phase = "lobby".to_owned();
        game.state.round = 0;
        game.state.question = None;
        game.state.correct_index = None;
        game.state.winners = Vec::new();
        start_over(&mut game.state.players);
        game.internal.pending_questions.clear();
        game.internal.correct_index = None;
        proof {
            assert(text_views(game.state.winners@) =~= seq![]);
        }
        announce(ctx, "back to lobby — ready up!".to_owned());
        sync_meta(ctx, &game.state);
        one_command(TriviaCommand::GenerateQuestions(GenerateQuestions))
    }
}

fn everyone_ready(players: &Table<PlayerState>) -> (r: bool)
    ensures
        r == all_ready(players@),
{
    let ghost all = players@;
    let mut i: usize = 0;
    while i < players.entries.len()
        invariant
            i <= players.entries.len(),
            all == players@,
            forall|k: int| 0 <= k < i ==> (#[trigger] all[k]).1.ready,
        decreases players.entries.len() - i,
    {
        proof {
            assert(all[i as int].1 == players.entries@[i as int].1@);
        }
        if !players.entries[i].1.ready {
            return false;
        }
        i = i + 1;
    }
    true
}

impl StartGame {
    pub fn execute(self, ctx: &mut RoomContext, game: &TriviaGame) -> (r: Vec<TriviaCommand>)
        ensures
            (world(*final(ctx), *game), command_views(r@)) == start_step(
                world(*old(ctx), *game),
                self.session_id@,
            ),
    {
        let err: &str = if !same_text(game.state.phase.as_str(), "lobby") {
            "game already started"
        } else if !is_owner(&game.state.owner, self.session_id.as_str()) {
            "only the room owner can start"
        } else if game.state.players.len() == 0 {
            "no players"
        } else if !everyone_ready(&game.state.players) {
            "everyone must be ready"
        } else {
            return one_command(TriviaCommand::StartRound(StartRound { round: 1 }));
        };
        let e: ServerError = ServerError::new(codes::APPLICATION_ERROR, err.to_owned());
        ctx.report_error(self.session_id.as_str(), &e);
        no_commands()
    }
}

impl Answer {
    pub fn execute(self, ctx: &RoomContext, game: &mut TriviaGame) -> (r: Vec<TriviaCommand>)
        ensures
            (world(*ctx, *final(game)), command_views(r@)) == answer_step(
                world(*ctx, *old(game)),
                self.session_id@,
                self.choice,
            ),
    {
        if !same_text(game.state.phase.as_str(), "question") || self.choice >= 4 {
            return no_commands();
        }
        let player: PlayerState = match game.state.players.get(self.session_id.as_str()) {
            Some(p) => p.copy(),
            None => {
                return no_commands();
            },
        };
        if player.answered {
            return no_commands();
        }
        game.state.players.set(
            self.session_id.as_str(),
            PlayerState { answered: true, ..player },
        );
        if game.state.answers_in < u32::MAX {
            game.state.answers_in = game.state.answers_in + 1;
        }
        game.internal.round_answers.set(self.session_id.as_str(), self.choice);
        if game.state.players.len() > 0 && game.state.answers_in as usize
            >= game.state.players.len() {
            return one_command(TriviaCommand::EndRound(EndRound));
        }
        no_commands()
    }
}

impl GenerateQuestions {
    pub fn execute(self, ctx: &RoomContext, game: &mut TriviaGame)
        ensures
            world(*ctx, *final(game)) == generate_step(world(*ctx, *old(game))),
    {
        if game.internal.batch_in_flight || game.internal.pending_questions.len()
            >= TOTAL_ROUNDS as usize {
            return ;
        }
        game.internal.batch_in_flight = true;
        if game.batches_wanted < u64::MAX {
            game.batches_wanted = game.batches_wanted + 1;
        }
    }
}

impl QuestionsReady {
    pub fn execute(self, ctx: &RoomContext, game: &mut TriviaGame) -> (r: Vec<TriviaCommand>)
        ensures
            (world(*ctx, *final(game)), command_views(r@)) == questions_step(
                world(*ctx, *old(game)),
                question_views(self.questions@),
            ),
    {
        let ghost before = game@;
        let ghost qs = question_views(self.questions@);
        game.internal.batch_in_flight = false;
        let mut i: usize = 0;
        proof {
            assert(qs.take(0) =~= seq![]);
            assert(qs.take(0).map_values(|q: QuestionView| q.text) =~= seq![]);
            assert(before.asked + qs.take(0).map_values(|q: QuestionView| q.text) =~= before.asked);
        }
        while i < self.questions.len()
            invariant
                i <= self.questions.len(),
                qs == question_views(self.questions@),
                game@ == (GameView {
                    internal: InternalView {
                        batch_in_flight: false,
                        pending_questions: questions_put(
                            before.internal.pending_questions,
                            qs.take(i as int),
                        ),
                        ..before.internal
                    },
                    asked: before.asked + qs.take(i as int).map_values(|q: QuestionView| q.text),
                    ..before
                }),
            decreases self.questions.len() - i,
        {
            let q: &Question = &self.questions[i];
            proof {
                assert(qs.take(i + 1).drop_last() =~= qs.take(i as int));
                assert(qs.take(i + 1).last() == q@);
                assert(qs.take(i + 1).map_values(|q: QuestionView| q.text) =~= qs.take(
                    i as int,
                ).map_values(|q: QuestionView| q.text).push(q@.text));
            }
            let key: String = decimal_text(i as u64 + 1);
            game.internal.pending_questions.set(key.as_str(), q.copy());
            let ghost asked = game.asked@;
            let text: String = q.text.clone();
            game.asked.push(text);
            proof {
                assert(text_views(game.asked@) =~= text_views(asked).push(text@));
                assert(text_views(game.asked@) =~= before.asked + qs.take(i + 1).map_values(
                    |q: QuestionView| q.text,
                ));
            }
            i = i + 1;
        }
        proof {
            assert(qs.take(qs.len() as int) =~= qs);
        }
        let first: bool = match game.internal.needed_round {
            Some(n) => n == 1,
            None => false,
        };
        if first && same_text(game.state.phase.as_str(), "generating") {
            game.internal.needed_round = None;
            return one_command(TriviaCommand::StartRound(StartRound { round: 1 }));
        }
        no_commands()
    }
}

impl StartRound {
    pub fn execute(self, ctx: &mut RoomContext, game: &mut TriviaGame, times: Times) -> (r: Vec<
        TriviaCommand,
    >)
        requires
            old(ctx)@.next_timer_id < u64::MAX,
        ensures
            (world(*final(ctx), *final(game)), command_views(r@)) == round_step(
                world(*old(ctx), *old(game)),
                self.round,
                times,
            ),
    {
        let key: String = decimal_text(self.round as u64);
        let question: Option<Question> = match game.internal.pending_questions.get(key.as_str()) {
            Some(q) => Some(q.copy()),
            None => None,
        };
        match question {
            Some(q) => {
                game.internal.pending_questions.remove(key.as_str());
                game.internal.correct_index = Some(q.answer_index);
                game.internal.round_answers.clear();
                game.state.phase = "question".to_owned();
                game.state.round = self.round;
                game.state.question = Some(QuestionPublic { text: q.text, choices: q.choices });
                game.state.correct_index = None;
                game.state.answers_in = 0;
                game.state.phase_ends_at = Some(add_time(times.sys_now, ROUND_TIME_MS));
                forget_answers(&mut game.state.players);
                game.round_timer = Some(ctx.set_timeout(ROUND_TIME_MS, times.now));
                sync_meta(ctx, &game.state);
                no_commands()
            },
            None => {
                game.state.phase = "generating".to_owned();
                game.state.phase_ends_at = None;
                game.internal.needed_round = Some(self.round);
                sync_meta(ctx, &game.state);
                if game.internal.batch_in_flight {
                    no_commands()
                } else {
                    one_command(TriviaCommand::GenerateQuestions(GenerateQuestions))
                }
            },
        }
    }
}

fn score_answers(
    players: &mut Table<PlayerState>,
    answers: &Table<usize>,
    correct: Option<usize>,
    points: i64,
)
    requires
        0 <= points <= 30,
    ensures
        final(players)@ == all_scored(old(players)@, answers@, correct, points),
{
    let ghost before = players@;
    let ghost all = answers@;
    let mut i: usize = 0;
    proof {
        assert(all.take(0) =~= seq![]);
    }
    while i < answers.entries.len()
        invariant
            i <= answers.entries.len(),
            0 <= points <= 30,
            all == answers@,
            players@ == all_scored(before, all.take(i as int), correct, points),
        decreases answers.entries.len() - i,
    {
        let e: &(String, usize) = &answers.entries[i];
        let choice: usize = e.1;
        proof {
            assert(all.take(i + 1).drop_last() =~= all.take(i as int));
            assert(all[i as int] == (e.0@, e.1@));
        }
        let player: Option<PlayerState> = match players.get(e.0.as_str()) {
            Some(p) => Some(p.copy()),
            None => None,
        };
        if let Some(p) = player {
            let right: bool = match correct {
                Some(c) => c == choice,
                None => false,
            };
            let score: i64 = if !right {
                p.score
            } else if p.score <= i64::MAX - points {
                p.score + points
            } else {
                i64::MAX
            };
            let correct_count: u32 = if right && p.correct_count < u32::MAX {
                p.correct_count + 1
            } else {
                p.correct_count
            };
            let after = PlayerState { choice: Some(choice), score, correct_count, ..p };
            players.set(e.0.as_str(), after);
        }
        i = i + 1;
    }
    proof {
        assert(all.take(all.len() as int) =~= all);
    }
}

impl EndRound {
    pub fn execute(self, ctx: &mut RoomContext, game: &mut TriviaGame, times: Times)
        requires
            old(ctx)@.next_timer_id < u64::MAX,
        ensures
            world(*final(ctx), *final(game)) == end_step(world(*old(ctx), *old(game)), times),
    {
        if !same_text(game.state.phase.as_str(), "question") {
            return ;
        }
        if let Some(t) = game.round_timer {
            let _cleared: bool = ctx.clear_timeout(t);
        }
        game.round_timer = None;
        let points: i64 = points_for(game.state.difficulty.as_str());
        score_answers(
            &mut game.state.players,
            &game.internal.round_answers,
            game.internal.correct_index,
            points,
        );
        game.internal.round_answers.clear();
        game.state.phase = "reveal".to_owned();
        game.state.correct_index = game.internal.correct_index;
        game.state.phase_ends_at = Some(add_time(times.sys_now, REVEAL_BREAK_MS));
        game.break_timer = Some(ctx.set_timeout(REVEAL_BREAK_MS, times.now));
    }
}

impl Advance {
    pub fn execute(self, ctx: &RoomContext, game: &TriviaGame) -> (r: Vec<TriviaCommand>)
        ensures
            command_views(r@) == advance_step(world(*ctx, *game)),
    {
        if game.state.round >= TOTAL_ROUNDS {
            one_command(TriviaCommand::FinishGame(FinishGame))
        } else {
            one_command(TriviaCommand::StartRound(StartRound { round: game.state.round + 1 }))
        }
    }
}

fn find_winners(players: &Table<PlayerState>) -> (r: Vec<String>)
    ensures
        text_views(r@) == winners_of(players@),
{
    let ghost all = players@;
    let mut best: Option<i64> = None;
    let mut i: usize = 0;
    proof {
        assert(all.take(0) =~= seq![]);
    }
    while i < players.entries.len()
        invariant
            i <= players.entries.len(),
            all == players@,
            best == best_score(all.take(i as int)),
        decreases players.entries.len() - i,
    {
        proof {
            assert(all.take(i + 1).drop_last() =~= all.take(i as int));
            assert(all[i as int].1 == players.entries@[i as int].1@);
        }
        let score: i64 = players.entries[i].1.score;
        best = match best {
            Some(b) => if b >= score {
                Some(b)
            } else {
                Some(score)
            },
            None => Some(score),
        };
        i = i + 1;
    }
    let goal: i64 = match best {
        Some(b) => b,
        None => 0,
    };
    let mut r: Vec<String> = Vec::new();
    let mut j: usize = 0;
    proof {
        assert(all.take(all.len() as int) =~= all);
        assert(text_views(r@) =~= names_with(all.take(0), goal));
    }
    while j < players.entries.len()
        invariant
            j <= players.entries.len(),
            all == players@,
            text_views(r@) == names_with(all.take(j as int), goal),
        decreases players.entries.len() - j,
    {
        proof {
            assert(all.take(j + 1).drop_last() =~= all.take(j as int));
            assert(all[j as int].1 == players.entries@[j as int].1@);
        }
        if players.entries[j].1.score == goal {
            let ghost before = r@;
            let name: String = players.entries[j].1.name.clone();
            r.push(name);
            proof {
                assert(text_views(r@) =~= text_views(before).push(name@));
            }
        }
        j = j + 1;
    }
    proof {
        assert(all.take(all.len() as int) =~= all);
    }
    r
}

fn results_payload(room_id: &str, state: &TriviaState, ended_at: u64) -> (r: Json)
    ensures
        r@ == results_json(room_id@, state@, ended_at),
{
    let ghost all = state@.players;
    let ghost views = all.map_values(|e: (Seq<char>, PlayerView)| player_result(e.1));
    let mut players: Vec<Json> = Vec::new();
    let mut i: usize = 0;
    while i < state.players.entries.len()
        invariant
            i <= state.players.entries.len(),
            all == state@.players,
            views == all.map_values(|e: (Seq<char>, PlayerView)| player_result(e.1)),
            players.len() == i,
            forall|k: int| 0 <= k < i ==> (#[trigger] players@[k])@ == views[k],
        decreases state.players.entries.len() - i,
    {
        let p: &PlayerState = &state.players.entries[i].1;
        proof {
            assert(all[i as int].1 == p@);
        }
        let mut es: Vec<(String, Json)> = Vec::new();
        put_field(&mut es, "userId", Json::Str(p.user_id.clone()));
        put_field(&mut es, "name", Json::Str(p.name.clone()));
        put_field(&mut es, "score", Json::Int(p.score));
        put_field(&mut es, "correct", Json::Uint(p.correct_count as u64));
        players.push(Json::Object(es));
        i = i + 1;
    }
    proof {
        assert(values_view(players@) =~= views);
    }
    let mut es: Vec<(String, Json)> = Vec::new();
    put_field(&mut es, "type", Json::Str("game_finished".to_owned()));
    put_field(&mut es, "roomId", Json::Str(room_id.to_owned()));
    put_field(&mut es, "difficulty", Json::Str(state.difficulty.clone()));
    put_field(&mut es, "category", Json::Str(state.category.clone()));
    put_field(&mut es, "endedAt", Json::Uint(ended_at));
    put_field(&mut es, "players", Json::array(players));
    Json::Object(es)
}

impl FinishGame {
    pub fn execute(self, ctx: &mut RoomContext, game: &mut TriviaGame, times: Times)
        ensures
            world(*final(ctx), *final(game)) == finish_step(world(*old(ctx), *old(game)), times),
    {
        if same_text(game.state.phase.as_str(), "finished") {
            return ;
        }
        game.state.phase = "finished".to_owned();
        game.state.question = None;
        game.state.phase_ends_at = None;
        game.state.winners = find_winners(&game.state.players);
        let payload: Json = results_payload(ctx.room_id(), &game.state, times.sys_now);
        let ghost before = game.results@;
        game.results.push(payload);
        proof {
            assert(values_view(game.results@) =~= values_view(before).push(payload@));
        }
        sync_meta(ctx, &game.state);
    }
}

impl TriviaCommand {
    /// Runs the command, and returns what it calls for.
    pub fn execute(self, ctx: &mut RoomContext, game: &mut TriviaGame, times: Times) -> (r: Vec<
        TriviaCommand,
    >)
        requires
            old(ctx)@.next_timer_id < u64::MAX,
        ensures
            (world(*final(ctx), *final(game)), command_views(r@)) == command_step(
                world(*old(ctx), *old(game)),
                self@,
                times,
            ),
    {
        match self {
            TriviaCommand::Join(c) => c.execute(ctx, game),
            TriviaCommand::Leave(c) => c.execute(ctx, game),
            TriviaCommand::ToggleReady(c) => {
                c.execute(ctx, game);
                no_commands()
            },
            TriviaCommand::Chat(c) => {
                c.execute(ctx, game);
                no_commands()
            },
            TriviaCommand::Restart(c) => c.execute(ctx, game),
            TriviaCommand::StartGame(c) => c.execute(ctx, game),
            TriviaCommand::Answer(c) => c.execute(ctx, game),
            TriviaCommand::GenerateQuestions(c) => {
                c.execute(ctx, game);
                no_commands()
            },
            TriviaCommand::QuestionsReady(c) => c.execute(ctx, game),
            TriviaCommand::StartRound(c) => c.execute(ctx, game, times),
            TriviaCommand::EndRound(c) => {
                c.execute(ctx, game, times);
                no_commands()
            },
            TriviaCommand::Advance(c) => c.execute(ctx, game),
            TriviaCommand::FinishGame(c) => {
                c.execute(ctx, game, times);
                no_commands()
            },
        }
    }
}

/// A command sets one timer at most.
proof fn lemma_step_timers(w: World, c: CommandView, t: Times)
    requires
        w.ctx.next_timer_id < u64::MAX,
    ensures
        command_step(w, c, t).0.ctx.next_timer_id <= w.ctx.next_timer_id + 1,
{
}

/// Runs a command, and then what it and the commands that follow it call for, in
/// order, until nothing is left. A stopped queue runs nothing.
pub fn dispatch(
    ctx: &mut RoomContext,
    game: &mut TriviaGame,
    dispatcher: &mut Dispatcher<TriviaCommand>,
    command: TriviaCommand,
    times: Times,
)
    requires
        old(dispatcher).waiting().len() == 0,
        old(ctx)@.next_timer_id + 3 <= u64::MAX,
    ensures
        final(dispatcher).running() == old(dispatcher).running(),
        final(dispatcher).waiting().len() == 0,
        world(*final(ctx), *final(game)) == if old(dispatcher).running() {
            all_run(world(*old(ctx), *old(game)), seq![command@], times)
        } else {
            world(*old(ctx), *old(game))
        },
{
    let ghost running = dispatcher.running();
    let ghost goal = all_run(world(*ctx, *game), seq![command@], times);
    let ghost start = world(*ctx, *game);
    dispatcher.enqueue(command);
    let ghost mut left: nat = total_weight(command_views(dispatcher.waiting()));
    proof {
        let cs = command_views(dispatcher.waiting());
        if running {
            assert(cs =~= seq![command@]);
            assert(cs.drop_first() =~= seq![]);
            assert(total_weight(cs.drop_first()) == 0);
        } else {
            assert(cs =~= seq![]);
        }
    }
    loop
        invariant
            running == old(dispatcher).running(),
            start == world(*old(ctx), *old(game)),
            goal == all_run(start, seq![command@], times),
            dispatcher.running() == running,
            left == total_weight(command_views(dispatcher.waiting())),
            ctx@.next_timer_id + left <= u64::MAX,
            running ==> all_run(
                world(*ctx, *game),
                command_views(dispatcher.waiting()),
                times,
            ) == goal,
            !running ==> dispatcher.waiting().len() == 0 && world(*ctx, *game) == start,
        decreases left,
    {
        let ghost cs = command_views(dispatcher.waiting());
        let next_up: TriviaCommand = match dispatcher.next() {
            Some(c) => c,
            None => {
                return ;
            },
        };
        let ghost w = world(*ctx, *game);
        let ghost next = command_step(w, next_up@, times).1;
        proof {
            assert(cs[0] == next_up@);
            assert(command_views(dispatcher.waiting()) =~= cs.drop_first());
            lemma_step_weight(w, next_up@, times);
            lemma_weight_concat(cs.drop_first(), next);
            lemma_step_timers(w, next_up@, times);
        }
        let more: Vec<TriviaCommand> = next_up.execute(ctx, game, times);
        let ghost added = command_views(more@);
        proof {
            assert(added == next);
            assert(cs.drop_first() + added.take(0) =~= cs.drop_first());
        }
        let ghost mut done: int = 0;
        let mut rest: Vec<TriviaCommand> = more;
        while rest.len() > 0
            invariant
                running,
                dispatcher.running() == running,
                0 <= done <= added.len(),
                command_views(rest@) == added.skip(done),
                command_views(dispatcher.waiting()) == cs.drop_first() + added.take(done),
            decreases rest.len(),
        {
            let ghost before = dispatcher.waiting();
            let ghost r0 = rest@;
            let c: TriviaCommand = rest.remove(0);
            proof {
                assert(command_views(r0).len() == r0.len());
                assert(command_views(r0)[0] == c@);
                assert(added.skip(done)[0] == added[done]);
                assert forall|k: int| 0 <= k < rest@.len() implies command_views(rest@)[k]
                    == #[trigger] added.skip(done + 1)[k] by {
                    assert(rest@[k] == r0[k + 1]);
                    assert(command_views(r0)[k + 1] == r0[k + 1]@);
                    assert(added.skip(done)[k + 1] == added.skip(done + 1)[k]);
                }
                assert(command_views(rest@) =~= added.skip(done + 1));
            }
            dispatcher.enqueue(c);
            proof {
                assert(command_views(dispatcher.waiting()) =~= command_views(before).push(c@));
                assert(cs.drop_first() + added.take(done + 1) =~= (cs.drop_first() + added.take(
                    done,
                )).push(added[done]));
                done = done + 1;
            }
        }
        proof {
            assert(command_views(rest@).len() == 0);
            assert(added.take(done) =~= added);
            left = total_weight(command_views(dispatcher.waiting()));
        }
    }
}

}
