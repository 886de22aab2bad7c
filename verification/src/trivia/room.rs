//! The trivia room: a thin layer that turns lifecycle hooks, client messages and
//! timers into commands. Server-only secrets live here, never in the state.

use crate::command::Dispatcher;
use crate::error::{codes, ErrorView, ServerError};
use crate::handler::{get_field, option_field};
use crate::json::{Json, JsonView};
use crate::protocol::MessageType;
use crate::query::{is_blank, option_view, text_option};
use crate::room::{session_allowed, synced, ContextView, RoomContext};
use crate::routes::{with_text, RoutesView};
use crate::table::table_get;
use crate::text::{same_text, trim_text, trimmed};
use crate::tictactoe::{
    announce, announced, auth_error, auth_field, auth_result, auth_text, authenticate,
    authenticated, Claims,
};
use crate::trivia::game::{
    all_run, dispatch, new_game, timer_set, Advance, Answer, Chat, CommandView, EndRound, GameView,
    GenerateQuestions, InternalView, Join, Leave, Restart, StartGame, Times, ToggleReady,
    TriviaCommand, TriviaGame, World,
};
use crate::trivia::internal::internal_json;
use crate::trivia::state::{
    meta_json, new_state, state_json, StateView, TriviaState, REVEAL_BREAK_MS, ROUND_TIME_MS,
};
use vstd::prelude::*;
use vstd::utf8::encode_utf8;

verus! {

/// How long a player may stay away, in milliseconds.
pub const RECONNECT_MS: u64 = 60000;

/// The longest category, in bytes.
pub const CATEGORY_MAX: usize = 40;

/// The longest password, in bytes.
pub const PASSWORD_MAX: usize = 64;

/// How many clients a room takes: players and spectators.
pub const ROOM_CLIENTS: u32 = 14;

/// How often state patches are broadcast, in milliseconds.
pub const PATCH_RATE_MS: u64 = 50;

/// What a timer was set for.
#[derive(Debug, Clone, Copy)]
pub enum Alarm {
    RoundEnds,
    BreakEnds,
}

/// A trivia room.
pub struct TriviaRoom {
    pub dispatcher: Dispatcher<TriviaCommand>,
    pub game: TriviaGame,
    /// What the timers were set for, by timer id.
    pub alarms: Vec<(u64, Alarm)>,
}

/// What a room stands for.
pub struct TriviaRoomView {
    pub running: bool,
    pub game: GameView,
    pub alarms: Seq<(u64, Alarm)>,
}

impl View for TriviaRoom {
    type V = TriviaRoomView;

    open spec fn view(&self) -> TriviaRoomView {
        TriviaRoomView {
            running: self.dispatcher.running(),
            game: self.game@,
            alarms: self.alarms@,
        }
    }
}

/// What a client asks the room for.
#[derive(Debug)]
pub enum ClientRequest {
    Ready,
    Start,
    Answer(usize),
    Chat(String),
    Restart,
}

/// The command that a client's request becomes.
pub open spec fn request_command(request: ClientRequest, session_id: Seq<char>) -> CommandView {
    match request {
        ClientRequest::Ready => CommandView::ToggleReady(session_id),
        ClientRequest::Start => CommandView::StartGame(session_id),
        ClientRequest::Answer(choice) => CommandView::Answer(session_id, choice),
        ClientRequest::Chat(text) => CommandView::Chat(session_id, text@),
        ClientRequest::Restart => CommandView::Restart(session_id),
    }
}

// ---------------------------------------------------------------------
// options
// ---------------------------------------------------------------------

/// A text among a request's options.
pub open spec fn option_text(options: JsonView, field: Seq<char>) -> Option<Seq<char>> {
    match option_field(options, field) {
        Some(JsonView::Str(t)) => Some(t),
        _ => None,
    }
}

fn read_text(options: &Json, field: &str) -> (r: Option<String>)
    ensures
        text_option(r) == option_text(options@, field@),
{
    match get_field(options, field) {
        Some(Json::Str(t)) => Some(t.clone()),
        _ => None,
    }
}

/// A text among a request's options, without the white space around it, if there
/// is anything left of it and it is not too long (in bytes).
pub open spec fn short_text(options: JsonView, field: Seq<char>, max: usize) -> Option<Seq<char>> {
    match option_text(options, field) {
        Some(t) => if trimmed(t).len() > 0 && encode_utf8(trimmed(t)).len() <= max {
            Some(trimmed(t))
        } else {
            None
        },
        None => None,
    }
}

fn read_short_text(options: &Json, field: &str, max: usize) -> (r: Option<String>)
    ensures
        text_option(r) == short_text(options@, field@, max),
{
    match read_text(options, field) {
        Some(t) => {
            let short: String = trim_text(t.as_str());
            if !is_blank(short.as_str()) && short.as_str().as_bytes().len() <= max {
                Some(short)
            } else {
                None
            }
        },
        None => None,
    }
}

/// The difficulty that is asked for.
pub open spec fn difficulty_of(options: JsonView) -> Seq<char> {
    match option_text(options, "difficulty"@) {
        Some(d) => d,
        None => "easy"@,
    }
}

pub open spec fn is_difficulty(d: Seq<char>) -> bool {
    d == "easy"@ || d == "medium"@ || d == "hard"@
}

/// The category that is asked for.
pub open spec fn category_of(options: JsonView) -> Seq<char> {
    match short_text(options, "category"@, CATEGORY_MAX) {
        Some(c) => c,
        None => "genel"@,
    }
}

/// The state of the room that is asked for.
pub open spec fn created_state(options: JsonView) -> StateView {
    StateView {
        has_password: short_text(options, "password"@, PASSWORD_MAX) is Some,
        ..new_state(difficulty_of(options), category_of(options))
    }
}

/// The game of the room that is asked for.
pub open spec fn created_game(options: JsonView) -> GameView {
    new_game(created_state(options), short_text(options, "password"@, PASSWORD_MAX))
}

/// A room's handlers, and behind them those of a trivia room.
pub open spec fn room_routes(r: RoutesView) -> RoutesView {
    with_text(
        with_text(with_text(with_text(with_text(r, "ready"@), "start"@), "answer"@), "chat"@),
        "restart"@,
    )
}

/// The context of the room that is asked for. Clients that joined before hear
/// with the first patch whether it has a password.
pub open spec fn created_context(c: ContextView, options: JsonView) -> ContextView {
    let open_room = new_state(difficulty_of(options), category_of(options));
    let limited = synced(
        ContextView {
            state: Some((state_json(open_room), state_json(open_room))),
            internal: Some(internal_json(created_game(options).internal)),
            max_clients: Some(ROOM_CLIENTS),
            ..c
        },
    );
    synced(
        ContextView {
            patch_rate: Some(PATCH_RATE_MS),
            state: Some((state_json(created_state(options)), state_json(open_room))),
            metadata: Some(meta_json(created_state(options))),
            routes: room_routes(c.routes),
            ..limited
        },
    )
}

// ---------------------------------------------------------------------
// commands and timers
// ---------------------------------------------------------------------

/// The context with the room's public and private state brought up to date.
pub open spec fn published(c: ContextView, g: GameView) -> ContextView {
    ContextView {
        state: match c.state {
            Some((_, told)) => Some((state_json(g.state), told)),
            None => None,
        },
        internal: Some(internal_json(g.internal)),
        ..c
    }
}

/// The alarms without that of a timer.
pub open spec fn without_alarm(alarms: Seq<(u64, Alarm)>, id: u64) -> Seq<(u64, Alarm)>
    decreases alarms.len(),
{
    if alarms.len() == 0 {
        seq![]
    } else if alarms.last().0 == id {
        without_alarm(alarms.drop_last(), id)
    } else {
        without_alarm(alarms.drop_last(), id).push(alarms.last())
    }
}

/// The alarms after commands were run: that of a timer which was cleared is gone,
/// those of timers that were set are there.
pub open spec fn alarms_after(
    alarms: Seq<(u64, Alarm)>,
    before: GameView,
    after: GameView,
) -> Seq<(u64, Alarm)> {
    let kept = match (before.round_timer, after.round_timer) {
        (Some(id), None) => without_alarm(alarms, id),
        _ => alarms,
    };
    let with_round = match after.round_timer {
        Some(id) => if before.round_timer != after.round_timer {
            kept.push((id, Alarm::RoundEnds))
        } else {
            kept
        },
        None => kept,
    };
    match after.break_timer {
        Some(id) => if before.break_timer != after.break_timer {
            with_round.push((id, Alarm::BreakEnds))
        } else {
            with_round
        },
        None => with_round,
    }
}

/// The room after a command and what it calls for. A room that was disposed of
/// runs nothing.
pub open spec fn dispatched(c: ContextView, r: TriviaRoomView, command: CommandView, t: Times) -> (
    ContextView,
    TriviaRoomView,
) {
    let w = World { ctx: c, game: r.game };
    let after = if r.running {
        all_run(w, seq![command], t)
    } else {
        w
    };
    (
        published(after.ctx, after.game),
        TriviaRoomView {
            game: after.game,
            alarms: alarms_after(r.alarms, r.game, after.game),
            ..r
        },
    )
}

/// What the timer with this id was set for.
pub open spec fn alarm_of(alarms: Seq<(u64, Alarm)>, id: u64) -> Option<Alarm>
    decreases alarms.len(),
{
    if alarms.len() == 0 {
        None
    } else if alarms.last().0 == id {
        Some(alarms.last().1)
    } else {
        alarm_of(alarms.drop_last(), id)
    }
}

/// The room after a timer fired.
pub open spec fn timer_handled(c: ContextView, r: TriviaRoomView, id: u64, t: Times) -> (
    ContextView,
    TriviaRoomView,
) {
    let rest = TriviaRoomView { alarms: without_alarm(r.alarms, id), ..r };
    match alarm_of(r.alarms, id) {
        Some(Alarm::RoundEnds) => dispatched(c, rest, CommandView::EndRound, t),
        Some(Alarm::BreakEnds) => dispatched(c, rest, CommandView::Advance, t),
        None => (c, r),
    }
}

/// How much of a phase is left.
pub open spec fn time_left(ends_at: Option<u64>, sys_now: u64, whole: u64) -> u64 {
    match ends_at {
        Some(t) => if t > sys_now {
            (t - sys_now) as u64
        } else {
            0
        },
        None => whole,
    }
}

/// The room after it was restored: question generation starts again, or the
/// phase's timer runs on.
pub open spec fn resumed(c: ContextView, r: TriviaRoomView, t: Times) -> (
    ContextView,
    TriviaRoomView,
) {
    let s = r.game.state;
    let idle = InternalView { batch_in_flight: false, ..r.game.internal };
    let settled = ContextView { internal: Some(internal_json(idle)), ..c };
    if s.phase == "generating"@ {
        let waiting = InternalView {
            needed_round: if idle.needed_round is None {
                Some(1u32)
            } else {
                idle.needed_round
            },
            ..idle
        };
        dispatched(
            c,
            TriviaRoomView { game: GameView { internal: waiting, ..r.game }, ..r },
            CommandView::GenerateQuestions,
            t,
        )
    } else if s.phase == "question"@ {
        let id = (c.next_timer_id + 1) as u64;
        (
            timer_set(settled, time_left(s.phase_ends_at, t.sys_now, ROUND_TIME_MS), t.now),
            TriviaRoomView {
                game: GameView { internal: idle, round_timer: Some(id), ..r.game },
                alarms: r.alarms.push((id, Alarm::RoundEnds)),
                ..r
            },
        )
    } else if s.phase == "reveal"@ {
        let id = (c.next_timer_id + 1) as u64;
        (
            timer_set(settled, time_left(s.phase_ends_at, t.sys_now, REVEAL_BREAK_MS), t.now),
            TriviaRoomView {
                game: GameView { internal: idle, break_timer: Some(id), ..r.game },
                alarms: r.alarms.push((id, Alarm::BreakEnds)),
                ..r
            },
        )
    } else {
        (settled, TriviaRoomView { game: GameView { internal: idle, ..r.game }, ..r })
    }
}

fn drop_alarm(alarms: &mut Vec<(u64, Alarm)>, id: u64)
    ensures
        final(alarms)@ == without_alarm(old(alarms)@, id),
{
    let ghost before = alarms@;
    let mut kept: Vec<(u64, Alarm)> = Vec::new();
    let mut i: usize = 0;
    proof {
        assert(before.take(0) =~= seq![]);
    }
    while i < alarms.len()
        invariant
            i <= alarms.len(),
            alarms@ == before,
            kept@ == without_alarm(before.take(i as int), id),
        decreases alarms.len() - i,
    {
        proof {
            assert(before.take(i + 1).drop_last() =~= before.take(i as int));
        }
        if alarms[i].0 != id {
            kept.push(alarms[i]);
        }
        i = i + 1;
    }
    proof {
        assert(before.take(before.len() as int) =~= before);
    }
    *alarms = kept;
}

fn find_alarm(alarms: &Vec<(u64, Alarm)>, id: u64) -> (r: Option<Alarm>)
    ensures
        r == alarm_of(alarms@, id),
{
    let ghost all = alarms@;
    let mut i: usize = alarms.len();
    proof {
        assert(all.take(all.len() as int) =~= all);
    }
    while i > 0
        invariant
            i <= alarms.len(),
            all == alarms@,
            alarm_of(all, id) == alarm_of(all.take(i as int), id),
        decreases i,
    {
        proof {
            assert(all.take(i as int).drop_last() =~= all.take(i - 1));
        }
        if alarms[i - 1].0 == id {
            return Some(alarms[i - 1].1);
        }
        i = i - 1;
    }
    None
}

fn remaining_time(ends_at: Option<u64>, sys_now: u64, whole: u64) -> (r: u64)
    ensures
        r == time_left(ends_at, sys_now, whole),
{
    match ends_at {
        Some(t) => if t > sys_now {
            t - sys_now
        } else {
            0
        },
        None => whole,
    }
}

/// Brings the alarms up to date after commands were run.
fn keep_alarms(
    alarms: &mut Vec<(u64, Alarm)>,
    round_timer: Option<u64>,
    break_timer: Option<u64>,
    game: &TriviaGame,
    Ghost(before): Ghost<GameView>,
)
    requires
        before.round_timer == round_timer,
        before.break_timer == break_timer,
    ensures
        final(alarms)@ == alarms_after(old(alarms)@, before, game@),
{
    if let Some(id) = round_timer {
        if game.round_timer.is_none() {
            drop_alarm(alarms, id);
        }
    }
    if let Some(id) = game.round_timer {
        let is_new: bool = match round_timer {
            Some(earlier) => earlier != id,
            None => true,
        };
        if is_new {
            alarms.push((id, Alarm::RoundEnds));
        }
    }
    if let Some(id) = game.break_timer {
        let is_new: bool = match break_timer {
            Some(earlier) => earlier != id,
            None => true,
        };
        if is_new {
            alarms.push((id, Alarm::BreakEnds));
        }
    }
}

/// Brings the room's public and private state up to date.
fn publish(ctx: &mut RoomContext, game: &TriviaGame)
    ensures
        final(ctx)@ == published(old(ctx)@, game@),
{
    ctx.update_state(game.state.to_json());
    ctx.set_internal(game.internal.to_json());
}

/// Registers the handlers of a trivia room.
fn register_handlers(ctx: &mut RoomContext)
    requires
        old(ctx)@.routes.last_id + 5 <= u64::MAX,
    ensures
        final(ctx)@ == (ContextView { routes: room_routes(old(ctx)@.routes), ..old(ctx)@ }),
{
    ctx.on_message(MessageType::text("ready"));
    ctx.on_message(MessageType::text("start"));
    ctx.on_message(MessageType::text("answer"));
    ctx.on_message(MessageType::text("chat"));
    ctx.on_message(MessageType::text("restart"));
}

impl TriviaRoom {
    /// No command is left in the queue between two calls.
    pub open spec fn is_idle(&self) -> bool {
        self.dispatcher.waiting().len() == 0
    }

    /// A room before it is created.
    pub fn new() -> (r: Self)
        ensures
            r.is_idle(),
            r@.running,
            r@.alarms == Seq::<(u64, Alarm)>::empty(),
            r@.game == new_game(new_state("easy"@, "genel"@), None),
    {
        TriviaRoom {
            dispatcher: Dispatcher::new(),
            game: TriviaGame::new(TriviaState::new("easy", "genel"), None),
            alarms: Vec::new(),
        }
    }

    /// Creates the room that is asked for.
    pub fn on_create(&mut self, ctx: &mut RoomContext, options: &Json) -> (r: Result<
        (),
        ServerError,
    >)
        requires
            old(self).is_idle(),
            old(ctx)@.routes.last_id + 5 <= u64::MAX,
        ensures
            final(self).is_idle(),
            match r {
                Ok(_) => is_difficulty(difficulty_of(options@)) && final(self)@ == (
                TriviaRoomView { game: created_game(options@), ..old(self)@ }) && final(ctx)@
                    == created_context(old(ctx)@, options@),
                Err(e) => !is_difficulty(difficulty_of(options@)) && e@ == (ErrorView {
                    code: codes::MATCHMAKE_INVALID_CRITERIA,
                    message: "difficulty must be easy, medium or hard"@,
                }) && final(self)@ == old(self)@ && final(ctx)@ == old(ctx)@,
            },
    {
        let difficulty: String = match read_text(options, "difficulty") {
            Some(d) => d,
            None => "easy".to_owned(),
        };
        if !same_text(difficulty.as_str(), "easy") && !same_text(difficulty.as_str(), "medium")
            && !same_text(difficulty.as_str(), "hard") {
            return Err(
                ServerError::new(
                    codes::MATCHMAKE_INVALID_CRITERIA,
                    "difficulty must be easy, medium or hard".to_owned(),
                ),
            );
        }
        let category: String = match read_short_text(options, "category", CATEGORY_MAX) {
            Some(c) => c,
            None => "genel".to_owned(),
        };
        let mut state: TriviaState = TriviaState::new(difficulty.as_str(), category.as_str());
        ctx.set_state(state.to_json());
        ctx.set_max_clients(Some(ROOM_CLIENTS));
        ctx.set_patch_rate(Some(PATCH_RATE_MS));
        let password: Option<String> = read_short_text(options, "password", PASSWORD_MAX);
        state.has_password = password.is_some();
        ctx.update_state(state.to_json());
        ctx.set_metadata(state.metadata());
        self.game = TriviaGame::new(state, password);
        ctx.set_internal(self.game.internal.to_json());
        register_handlers(ctx);
        Ok(())
    }

    /// Runs a command and what it calls for, and publishes the room's state.
    pub fn dispatch(&mut self, ctx: &mut RoomContext, command: TriviaCommand, times: Times)
        requires
            old(self).is_idle(),
            old(ctx)@.next_timer_id + 3 <= u64::MAX,
        ensures
            final(self).is_idle(),
            (final(ctx)@, final(self)@) == dispatched(old(ctx)@, old(self)@, command@, times),
    {
        let ghost before = self.game@;
        let round_timer: Option<u64> = self.game.round_timer;
        let break_timer: Option<u64> = self.game.break_timer;
        dispatch(ctx, &mut self.game, &mut self.dispatcher, command, times);
        keep_alarms(&mut self.alarms, round_timer, break_timer, &self.game, Ghost(before));
        publish(ctx, &self.game);
    }

    /// A timer fired: the round or the break after it is over.
    pub fn timer_fired(&mut self, ctx: &mut RoomContext, id: u64, times: Times)
        requires
            old(self).is_idle(),
            old(ctx)@.next_timer_id + 3 <= u64::MAX,
        ensures
            final(self).is_idle(),
            (final(ctx)@, final(self)@) == timer_handled(old(ctx)@, old(self)@, id, times),
    {
        let alarm: Alarm = match find_alarm(&self.alarms, id) {
            Some(a) => a,
            None => {
                return ;
            },
        };
        drop_alarm(&mut self.alarms, id);
        match alarm {
            Alarm::RoundEnds => {
                self.dispatch(ctx, TriviaCommand::EndRound(EndRound), times);
            },
            Alarm::BreakEnds => {
                self.dispatch(
                    ctx,
                    TriviaCommand::Advance(Advance),
                    times,
                );
            },
        }
    }

    /// Resumes in-flight work after a restore: a background batch died with the
    /// process and is asked for again, or the phase's timer is set again for what
    /// is left until the deadline.
    pub fn resume_after_restore(&mut self, ctx: &mut RoomContext, times: Times)
        requires
            old(self).is_idle(),
            old(ctx)@.next_timer_id + 3 <= u64::MAX,
        ensures
            final(self).is_idle(),
            (final(ctx)@, final(self)@) == resumed(old(ctx)@, old(self)@, times),
    {
        self.game.internal.batch_in_flight = false;
        let ends_at: Option<u64> = self.game.state.phase_ends_at;
        if same_text(self.game.state.phase.as_str(), "generating") {
            if self.game.internal.needed_round.is_none() {
                self.game.internal.needed_round = Some(1);
            }
            self.dispatch(ctx, TriviaCommand::GenerateQuestions(GenerateQuestions), times);
            return ;
        }
        ctx.set_internal(self.game.internal.to_json());
        if same_text(self.game.state.phase.as_str(), "question") {
            let left: u64 = remaining_time(ends_at, times.sys_now, ROUND_TIME_MS);
            let id: u64 = ctx.set_timeout(left, times.now);
            self.game.round_timer = Some(id);
            self.alarms.push((id, Alarm::RoundEnds));
        } else if same_text(self.game.state.phase.as_str(), "reveal") {
            let left: u64 = remaining_time(ends_at, times.sys_now, REVEAL_BREAK_MS);
            let id: u64 = ctx.set_timeout(left, times.now);
            self.game.break_timer = Some(id);
            self.alarms.push((id, Alarm::BreakEnds));
        }
    }

    /// A client's message becomes a command.
    pub fn on_request(
        &mut self,
        ctx: &mut RoomContext,
        session_id: &str,
        request: ClientRequest,
        times: Times,
    )
        requires
            old(self).is_idle(),
            old(ctx)@.next_timer_id + 3 <= u64::MAX,
        ensures
            final(self).is_idle(),
            (final(ctx)@, final(self)@) == dispatched(
                old(ctx)@,
                old(self)@,
                request_command(request, session_id@),
                times,
            ),
    {
        let sid: String = session_id.to_owned();
        let command: TriviaCommand = match request {
            ClientRequest::Ready => TriviaCommand::ToggleReady(ToggleReady { session_id: sid }),
            ClientRequest::Start => TriviaCommand::StartGame(StartGame { session_id: sid }),
            ClientRequest::Answer(choice) => TriviaCommand::Answer(
                Answer { session_id: sid, choice },
            ),
            ClientRequest::Chat(text) => TriviaCommand::Chat(Chat { session_id: sid, text }),
            ClientRequest::Restart => TriviaCommand::Restart(Restart { session_id: sid }),
        };
        self.dispatch(ctx, command, times);
    }

    /// Checks the room's password, if it has one, and who asks.
    pub fn on_auth(&self, options: &Json, token: Option<&str>, claims: Option<Claims>) -> (r: Result<
        Json,
        ServerError,
    >)
        ensures
            auth_result(r) == guest_of(
                self@.game.internal.password,
                options@,
                token is Some,
                claims,
            ),
    {
        if let Some(expected) = &self.game.internal.password {
            match read_text(options, "password") {
                None => {
                    return Err(
                        ServerError::new(codes::AUTH_FAILED, "password required".to_owned()),
                    );
                },
                Some(given) => {
                    if !same_text(given.as_str(), expected.as_str()) {
                        return Err(
                            ServerError::new(codes::AUTH_FAILED, "wrong password".to_owned()),
                        );
                    }
                },
            }
        }
        authenticate(token, claims)
    }

    /// A client joins, as a player where it can and wants to. A client for whom
    /// there is no room is refused.
    pub fn on_join(
        &mut self,
        ctx: &mut RoomContext,
        session_id: &str,
        options: &Json,
        auth: &Option<Json>,
        times: Times,
    ) -> (r: Result<(), ServerError>)
        requires
            old(self).is_idle(),
            old(ctx)@.next_timer_id + 3 <= u64::MAX,
        ensures
            final(self).is_idle(),
            (final(ctx)@, final(self)@) == dispatched(
                old(ctx)@,
                old(self)@,
                join_command(session_id@, options@, option_view(*auth)),
                times,
            ),
            match r {
                Ok(_) => is_inside(final(self)@.game.state, session_id@),
                Err(e) => !is_inside(final(self)@.game.state, session_id@) && e@ == (ErrorView {
                    code: codes::MATCHMAKE_EXPIRED,
                    message: "room is full"@,
                }),
            },
    {
        let spectates: bool = match read_text(options, "role") {
            Some(role) => same_text(role.as_str(), "spectator"),
            None => false,
        };
        let command = Join {
            session_id: session_id.to_owned(),
            name: auth_name(auth),
            user_id: auth_user_id(auth),
            wants_player: !spectates,
        };
        self.dispatch(ctx, TriviaCommand::Join(command), times);
        if self.game.state.players.contains(session_id) || self.game.state.spectators.contains(
            session_id,
        ) {
            Ok(())
        } else {
            Err(ServerError::new(codes::MATCHMAKE_EXPIRED, "room is full".to_owned()))
        }
    }

    /// A client's connection dropped. In the lobby it leaves at once, so that the
    /// others can go on; mid-game its seat is held for a minute.
    pub fn on_drop(&self, ctx: &mut RoomContext, session_id: &str, now: u64)
        ensures
            final(ctx)@ == dropped(old(ctx)@, self@.game.state, session_id@, now),
    {
        if same_text(self.game.state.phase.as_str(), "lobby") {
            return ;
        }
        let _allowed: bool = ctx.allow_reconnection(session_id, Some(RECONNECT_MS), now);
        announce(ctx, "a player disconnected…".to_owned());
    }

    /// A client came back.
    pub fn on_reconnect(&self, ctx: &mut RoomContext)
        ensures
            final(ctx)@ == announced(old(ctx)@, "a player reconnected"@),
    {
        announce(ctx, "a player reconnected".to_owned());
    }

    /// A client left for good.
    pub fn on_leave(&mut self, ctx: &mut RoomContext, session_id: &str, times: Times)
        requires
            old(self).is_idle(),
            old(ctx)@.next_timer_id + 3 <= u64::MAX,
        ensures
            final(self).is_idle(),
            (final(ctx)@, final(self)@) == dispatched(
                old(ctx)@,
                old(self)@,
                CommandView::Leave(session_id@),
                times,
            ),
    {
        self.dispatch(
            ctx,
            TriviaCommand::Leave(Leave { session_id: session_id.to_owned() }),
            times,
        );
    }

    /// The room is disposed of: no command is run from here on.
    pub fn on_dispose(&mut self)
        ensures
            final(self).is_idle(),
            final(self)@ == (TriviaRoomView { running: false, ..old(self)@ }),
    {
        self.dispatcher.stop();
    }
}

// ---------------------------------------------------------------------
// auth
// ---------------------------------------------------------------------

/// Why a room with this password refuses a request.
pub open spec fn password_refusal(password: Option<Seq<char>>, options: JsonView) -> Option<
    Seq<char>,
> {
    match password {
        Some(expected) => match option_text(options, "password"@) {
            None => Some("password required"@),
            Some(given) => if given == expected {
                None
            } else {
                Some("wrong password"@)
            },
        },
        None => None,
    }
}

/// The auth data of a request to a room with this password or without one.
pub open spec fn guest_of(
    password: Option<Seq<char>>,
    options: JsonView,
    has_token: bool,
    claims: Option<Claims>,
) -> Result<JsonView, ErrorView> {
    match password_refusal(password, options) {
        Some(message) => Err(auth_error(message)),
        None => authenticated(has_token, claims),
    }
}

/// A client wants to play unless it says that it wants to watch.
pub open spec fn wants_to_play(options: JsonView) -> bool {
    option_text(options, "role"@) != Some("spectator"@)
}

/// The context after a client's connection dropped: while a game is on they may come
/// back.
pub open spec fn dropped(c: ContextView, s: StateView, session_id: Seq<char>, now: u64) -> ContextView {
    if s.phase == "lobby"@ {
        c
    } else {
        announced(
            session_allowed(c, session_id, Some(RECONNECT_MS), now).0,
            "a player disconnected…"@,
        )
    }
}

/// The command that a client who joins becomes.
pub open spec fn join_command(
    session_id: Seq<char>,
    options: JsonView,
    auth: Option<JsonView>,
) -> CommandView {
    CommandView::Join(
        session_id,
        auth_text(auth, "name"@, "anon"@),
        auth_text(auth, "userId"@, ""@),
        wants_to_play(options),
    )
}

/// Somebody is a player or a spectator.
pub open spec fn is_inside(s: StateView, session_id: Seq<char>) -> bool {
    table_get(s.players, session_id) is Some || table_get(s.spectators, session_id) is Some
}

/// The display name of optional auth data.
pub fn auth_name(auth: &Option<Json>) -> (r: String)
    ensures
        r@ == auth_text(option_view(*auth), "name"@, "anon"@),
{
    auth_field(auth, "name", "anon")
}

/// The user id of optional auth data.
pub fn auth_user_id(auth: &Option<Json>) -> (r: String)
    ensures
        r@ == auth_text(option_view(*auth), "userId"@, ""@),
{
    auth_field(auth, "userId", "")
}

}
