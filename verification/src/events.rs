//! The events that a room actor processes, one at a time.

use crate::actor::{
    bad_token_error, connected, leave_begun, message_taken, seat_consumed_error, seat_refusal,
    ConnectStep, ConnectView, LeaveStep, MessageStep,
};
use crate::client::{told_to_leave, Client, ClientState, ClientView};
use crate::context::{broadcasted, find_client, messaged};
use crate::error::{close_codes, ServerError};
use crate::json::{values_view, Json, JsonView};
use crate::lifecycle::{is_abandoned, save_due};
use crate::protocol::{ClientMessage, MessageType, TypeView};
use crate::query::{option_view, text_option};
use crate::room::{
    client_index, deferred_sent, lemma_client_index, reconnection_allowed, state_patched, synced,
    ContextView, EntryView, RoomContext, SeatState,
};
use crate::state::{edit_result, EditView, StateEdit};
use crate::table::{lemma_table_remove, lemma_table_set, table_get};
use crate::text::text_views;
use crate::utils::{elapsed_since, later, nanos_since, time_shown};
use vstd::prelude::*;

verus! {

/// Authentication context of an incoming matchmaking request.
#[derive(Debug)]
pub struct AuthContext {
    /// Bearer token from the `Authorization` header, if present.
    pub token: Option<String>,
    pub headers: Vec<(String, String)>,
    pub ip: Option<String>,
}

/// Events the room actor processes.
#[derive(Debug)]
pub enum RoomEvent {
    ReserveSeat(String, Json, AuthContext),
    CheckReconnection(String),
    Connect(Client, Option<String>),
    Message(String, String, ClientMessage),
    Disconnected(String, String, u16),
    /// A command from a background task or an external subscriber.
    Command,
    /// Admin room RPC, run on this room.
    CallRoomRpc,
    /// Admin panel: report room internals.
    Inspect,
    /// Admin panel: force-disconnect a client.
    Kick(String),
    /// Admin panel: lock/unlock the room.
    SetLocked(bool),
    /// Admin panel: send a message to one client (or broadcast to all).
    AdminMessage(Option<String>, MessageType, Json),
    /// Admin panel: dispose the room with a custom close code.
    Dispose(u16),
    /// Admin panel: state edit (set/remove at path).
    EditState(Vec<String>, StateEdit),
    Shutdown,
}

/// Admin panel inspection payload for a client.
#[derive(Debug)]
pub struct ClientInspection {
    pub session_id: String,
    pub state: String,
    pub auth: Option<Json>,
    pub user_data: Option<Json>,
}

/// Admin panel inspection payload for a room.
#[derive(Debug)]
pub struct RoomInspection {
    pub room_id: String,
    pub state: Option<Json>,
    pub clients: Vec<ClientInspection>,
    pub reserved_seats: usize,
    pub pending_reconnections: usize,
    pub elapsed_millis: u64,
}

/// The name of a connection state.
pub open spec fn state_name(s: ClientState) -> Seq<char> {
    match s {
        ClientState::Joining => "Joining"@,
        ClientState::Joined => "Joined"@,
        ClientState::Reconnecting => "Reconnecting"@,
        ClientState::Reconnected => "Reconnected"@,
        ClientState::Leaving => "Leaving"@,
        ClientState::Closed => "Closed"@,
    }
}

/// `i` reports the client `c`.
pub open spec fn reports_client(i: ClientInspection, c: ClientView) -> bool {
    &&& i.session_id@ == c.session_id
    &&& i.state@ == state_name(c.state)
    &&& option_view(i.auth) == c.auth
    &&& option_view(i.user_data) == c.user_data
}

/// `i` reports the room.
pub open spec fn reports_room(i: RoomInspection, c: ContextView, created_at: u64, now: u64) -> bool {
    &&& i.room_id@ == c.room_id
    &&& option_view(i.state) == match c.state {
        Some((current, _)) => Some(current),
        None => None,
    }
    &&& i.clients.len() == c.clients.len()
    &&& forall|k: int|
        0 <= k < c.clients.len() ==> reports_client(#[trigger] i.clients@[k], c.clients[k])
    &&& i.reserved_seats == c.seats.len()
    &&& i.pending_reconnections == c.reconnections.len()
    &&& i.elapsed_millis == elapsed_since(created_at, now)
}

/// What an event leads to.
#[derive(Debug)]
pub enum EventStep {
    /// Nothing more is to be done.
    Done,
    /// The request for a seat is turned down.
    NoSeat(ServerError),
    /// The room is to be asked whom the seat is for.
    Authenticate(String, Json, AuthContext),
    /// The session that a reconnection token is for.
    Session(Option<String>),
    /// See [`ConnectStep`]; the session that it is about.
    Connected(String, ConnectStep),
    /// See [`MessageStep`].
    Message(MessageStep),
    /// See [`LeaveStep`].
    Left(LeaveStep),
    /// The command is to be run.
    RunCommand,
    /// The RPC is to be run, and its answer passed on.
    RunRpc,
    /// The room's internals.
    Inspection(RoomInspection),
    /// The state with the edit, which the room's state type is to take, or why it
    /// cannot be edited so.
    Edit(Result<Json, String>),
    /// The room is to be disposed with this close code, and the actor ends.
    Dispose(u16),
}

/// The context after an admin's message.
pub open spec fn admin_messaged(
    c: ContextView,
    session_id: Option<Seq<char>>,
    t: TypeView,
    payload: JsonView,
) -> ContextView {
    match session_id {
        Some(sid) => messaged(c, sid, t, payload),
        None => broadcasted(c, t, payload),
    }
}

/// The context after a session's client was kicked.
pub open spec fn kicked(c: ContextView, session_id: Seq<char>) -> ContextView {
    match client_index(c.clients, session_id) {
        Some(i) => ContextView {
            clients: c.clients.update(
                i,
                told_to_leave(c.clients[i], close_codes::CONSENTED, "kicked by admin"@),
            ),
            ..c
        },
        None => c,
    }
}

/// The context after it was locked or unlocked.
pub open spec fn lock_set(c: ContextView, locked: bool) -> ContextView {
    if c.locked == locked {
        c
    } else {
        synced(ContextView { locked, ..c })
    }
}

/// What the state would be with an edit, for the room's state type to take, or why
/// it cannot be edited so.
pub open spec fn edit_begun(c: ContextView, path: Seq<Seq<char>>, edit: EditView) -> Result<
    JsonView,
    Seq<char>,
> {
    match c.state {
        Some((current, _)) => edit_result(current, path, edit),
        None => Err("room has no state"@),
    }
}

/// An edited state, read through its views.
pub open spec fn edit_view(r: Result<Json, String>) -> Result<JsonView, Seq<char>> {
    match r {
        Ok(v) => Ok(v@),
        Err(e) => Err(e@),
    }
}

/// The context after the room's state type took the edited state or not, and what
/// the edit is answered.
pub open spec fn edit_finished(c: ContextView, taken: Result<JsonView, Seq<char>>) -> (
    ContextView,
    Result<(), Seq<char>>,
) {
    match c.state {
        Some((_, told)) => match taken {
            Ok(v) => (ContextView { state: Some((v, told)), ..c }, Ok(())),
            Err(e) => (c, Err(e)),
        },
        None => (c, Err("room has no state"@)),
    }
}

/// A result of an edit, read through its view.
pub open spec fn edit_outcome(r: Result<(), String>) -> Result<(), Seq<char>> {
    match r {
        Ok(()) => Ok(()),
        Err(e) => Err(e@),
    }
}

/// What a room actor keeps besides the context.
pub struct RoomActor {
    pub ctx: RoomContext,
    /// When the room was made, on the monotonic clock.
    pub created_at: u64,
    pub last_auto_save: Option<u64>,
    /// When the game loop last took a step, on the monotonic clock in nanoseconds.
    pub last_tick: u128,
    /// The game-loop interval and the patch rate that are in force.
    pub sim_cfg: Option<u64>,
    pub patch_cfg: Option<u64>,
}

impl RoomContext {
    /// Reports the room's internals.
    pub fn inspect(&self, created_at: u64, now: u64) -> (r: RoomInspection)
        ensures
            reports_room(r, self@, created_at, now),
    {
        let ghost c = self@;
        let mut clients: Vec<ClientInspection> = Vec::new();
        let mut i: usize = 0;
        while i < self.clients.len()
            invariant
                i <= self.clients.len(),
                c == self@,
                clients.len() == i,
                forall|k: int|
                    0 <= k < i ==> reports_client(#[trigger] clients@[k], c.clients[k]),
            decreases self.clients.len() - i,
        {
            let client: &Client = &self.clients[i];
            proof {
                assert(c.clients[i as int] == client@);
            }
            let name: &str = match client.state() {
                ClientState::Joining => "Joining",
                ClientState::Joined => "Joined",
                ClientState::Reconnecting => "Reconnecting",
                ClientState::Reconnected => "Reconnected",
                ClientState::Leaving => "Leaving",
                ClientState::Closed => "Closed",
            };
            clients.push(
                ClientInspection {
                    session_id: client.session_id.clone(),
                    state: name.to_owned(),
                    auth: client.auth(),
                    user_data: client.user_data(),
                },
            );
            i = i + 1;
        }
        let state: Option<Json> = match &self.state_slot {
            Some(slot) => Some(slot.full()),
            None => None,
        };
        RoomInspection {
            room_id: self.room_id.clone(),
            state,
            clients,
            reserved_seats: self.reserved_seats.len(),
            pending_reconnections: self.reconnections.len(),
            elapsed_millis: if now <= created_at {
                0
            } else {
                now - created_at
            },
        }
    }

    /// Tells a session's client to leave.
    pub fn kick(&mut self, session_id: &str)
        ensures
            final(self)@ == kicked(old(self)@, session_id@),
    {
        let ghost before = self@;
        match find_client(&self.clients, session_id) {
            Some(i) => {
                proof {
                    assert(before.clients[i as int] == self.clients@[i as int]@);
                }
                self.clients[i].leave(Some(close_codes::CONSENTED), Some("kicked by admin"));
                proof {
                    assert(self@.clients =~= before.clients.update(
                        i as int,
                        self.clients@[i as int]@,
                    ));
                }
            },
            None => {},
        }
    }

    /// The session that a reconnection token is for.
    pub fn check_reconnection(&self, token: &str) -> (r: Option<String>)
        ensures
            text_option(r) == match table_get(self@.reconnections, token@) {
                Some(e) => Some(e.session_id),
                None => None,
            },
    {
        match self.reconnections.get(token) {
            Some(e) => Some(e.session_id.clone()),
            None => None,
        }
    }

    /// What the state would be with an edit.
    pub fn edit_begin(&self, path: &Vec<String>, edit: &StateEdit) -> (r: Result<Json, String>)
        ensures
            edit_view(r) == edit_begun(self@, text_views(path@), edit@),
    {
        match &self.state_slot {
            Some(slot) => slot.edited(path, edit),
            None => Err("room has no state".to_owned()),
        }
    }

    /// Edits the state, if the room's state type took it.
    pub fn edit_finish(&mut self, taken: Result<Json, String>) -> (r: Result<(), String>)
        ensures
            (final(self)@, edit_outcome(r)) == edit_finished(old(self)@, edit_view(taken)),
    {
        match &mut self.state_slot {
            Some(slot) => slot.apply_edit(taken),
            None => Err("room has no state".to_owned()),
        }
    }
}

/// What an event does to the context, and what it leads to.
pub open spec fn is_event_step(
    ev: RoomEvent,
    c: ContextView,
    d: ContextView,
    r: EventStep,
    created_at: u64,
    now: u64,
) -> bool {
    match ev {
        RoomEvent::ReserveSeat(session_id, options, auth) => d == c && match seat_refusal(c) {
            Some(e) => r matches EventStep::NoSeat(x) && x@ == e,
            None => r matches EventStep::Authenticate(s, o, a) && s@ == session_id@ && o@
                == options@ && a == auth,
        },
        RoomEvent::CheckReconnection(token) => d == c && (r matches EventStep::Session(s)
            && text_option(s) == match table_get(c.reconnections, token@) {
            Some(e) => Some(e.session_id),
            None => None,
        }),
        RoomEvent::Connect(client, token) => r matches EventStep::Connected(s, step) && s@
            == client@.session_id && (d, step@) == connected(c, client@, text_option(token)),
        RoomEvent::Message(session_id, connection_id, msg) => r matches EventStep::Message(step)
            && (d, step@) == message_taken(c, session_id@, connection_id@, msg@, now),
        RoomEvent::Disconnected(session_id, connection_id, code) => {
            let current = client_index(c.clients, session_id@) matches Some(i)
                && c.clients[i].connection_id == connection_id@;
            if current {
                r matches EventStep::Left(step) && (d, step) == leave_begun(
                    c,
                    session_id@,
                    code,
                    false,
                )
            } else {
                r is Done && d == c
            }
        },
        RoomEvent::Command => r is RunCommand && d == c,
        RoomEvent::CallRoomRpc => r is RunRpc && d == c,
        RoomEvent::Inspect => d == c && (r matches EventStep::Inspection(i) && reports_room(
            i,
            c,
            created_at,
            now,
        )),
        RoomEvent::Kick(session_id) => r is Done && d == kicked(c, session_id@),
        RoomEvent::SetLocked(locked) => r is Done && d == lock_set(c, locked),
        RoomEvent::AdminMessage(session_id, t, payload) => r is Done && d == admin_messaged(
            c,
            text_option(session_id),
            t@,
            payload@,
        ),
        RoomEvent::Dispose(code) => r == EventStep::Dispose(code) && d == c,
        RoomEvent::EditState(path, edit) => d == c && (r matches EventStep::Edit(e) && edit_view(e)
            == edit_begun(c, text_views(path@), edit@)),
        RoomEvent::Shutdown => r == EventStep::Dispose(close_codes::SERVER_SHUTDOWN) && d == c,
    }
}

impl RoomActor {
    /// The actor of a room that was just made or restored. The time is told in
    /// milliseconds and, for the game loop, in nanoseconds.
    pub fn new(ctx: RoomContext, now: u64, clock_now: u128) -> (r: Self)
        ensures
            r.ctx == ctx,
            r.created_at == now,
            r.last_auto_save is None,
            r.last_tick == clock_now,
            r.sim_cfg is None,
            r.patch_cfg is None,
    {
        RoomActor {
            ctx,
            created_at: now,
            last_auto_save: None,
            last_tick: clock_now,
            sim_cfg: None,
            patch_cfg: None,
        }
    }

    /// Takes the next event.
    pub fn handle_event(&mut self, ev: RoomEvent, now: u64) -> (r: EventStep)
        ensures
            is_event_step(ev, old(self).ctx@, final(self).ctx@, r, old(self).created_at, now),
            final(self).created_at == old(self).created_at,
            final(self).last_auto_save == old(self).last_auto_save,
            final(self).last_tick == old(self).last_tick,
            final(self).sim_cfg == old(self).sim_cfg,
            final(self).patch_cfg == old(self).patch_cfg,
    {
        match ev {
            RoomEvent::ReserveSeat(session_id, options, auth) => {
                match self.ctx.reserve_begin() {
                    Ok(()) => EventStep::Authenticate(session_id, options, auth),
                    Err(e) => EventStep::NoSeat(e),
                }
            },
            RoomEvent::CheckReconnection(token) => {
                EventStep::Session(self.ctx.check_reconnection(token.as_str()))
            },
            RoomEvent::Connect(client, token) => {
                let session_id: String = client.session_id.clone();
                let step: ConnectStep = match &token {
                    Some(t) => self.ctx.connect_begin(client, Some(t.as_str())),
                    None => self.ctx.connect_begin(client, None),
                };
                EventStep::Connected(session_id, step)
            },
            RoomEvent::Message(session_id, connection_id, msg) => {
                EventStep::Message(
                    self.ctx.message_begin(session_id.as_str(), connection_id.as_str(), msg, now),
                )
            },
            RoomEvent::Disconnected(session_id, connection_id, code) => {
                if self.ctx.is_current(session_id.as_str(), connection_id.as_str()) {
                    EventStep::Left(self.ctx.leave_begin(session_id.as_str(), code, false))
                } else {
                    EventStep::Done
                }
            },
            RoomEvent::Command => EventStep::RunCommand,
            RoomEvent::CallRoomRpc => EventStep::RunRpc,
            RoomEvent::Inspect => {
                EventStep::Inspection(self.ctx.inspect(self.created_at, now))
            },
            RoomEvent::Kick(session_id) => {
                self.ctx.kick(session_id.as_str());
                EventStep::Done
            },
            RoomEvent::SetLocked(locked) => {
                if locked {
                    self.ctx.lock();
                } else {
                    self.ctx.unlock();
                }
                EventStep::Done
            },
            RoomEvent::AdminMessage(session_id, t, payload) => {
                match &session_id {
                    Some(sid) => self.ctx.send_to(sid.as_str(), &t, &payload),
                    None => self.ctx.broadcast(&t, &payload),
                }
                EventStep::Done
            },
            RoomEvent::Dispose(code) => EventStep::Dispose(code),
            RoomEvent::EditState(path, edit) => {
                EventStep::Edit(self.ctx.edit_begin(&path, &edit))
            },
            RoomEvent::Shutdown => EventStep::Dispose(close_codes::SERVER_SHUTDOWN),
        }
    }

    /// Whether the room is to be disposed now, and with which close code: where
    /// that was asked for, or where the room is abandoned. A request is taken.
    pub fn after_event(&mut self, now: u64) -> (r: Option<u16>)
        ensures
            r == disposal_due(old(self).ctx@, old(self).created_at, now),
            final(self).ctx@ == (ContextView { request_dispose: None, ..old(self).ctx@ }),
            final(self).created_at == old(self).created_at,
            final(self).last_auto_save == old(self).last_auto_save,
            final(self).last_tick == old(self).last_tick,
            final(self).sim_cfg == old(self).sim_cfg,
            final(self).patch_cfg == old(self).patch_cfg,
    {
        match self.ctx.request_dispose {
            Some(code) => {
                self.ctx.request_dispose = None;
                Some(code)
            },
            None => if self.ctx.should_auto_dispose(self.created_at, now) {
                Some(close_codes::CONSENTED)
            } else {
                None
            },
        }
    }

    /// One step of the game loop: the clock ticks. Returns the nanoseconds since
    /// the last step.
    pub fn tick(&mut self, now: u128) -> (r: u128)
        ensures
            r == nanos_since(old(self).last_tick, now),
            final(self).last_tick == now,
            final(self).ctx@ == clock_ticked(old(self).ctx@, now),
            final(self).created_at == old(self).created_at,
            final(self).last_auto_save == old(self).last_auto_save,
            final(self).sim_cfg == old(self).sim_cfg,
            final(self).patch_cfg == old(self).patch_cfg,
    {
        let delta: u128 = if now <= self.last_tick {
            0
        } else {
            now - self.last_tick
        };
        self.last_tick = now;
        self.ctx.clock.tick(now);
        delta
    }

    /// Which intervals have to be set up anew, because the room changed them: the
    /// game loop's and the patches'.
    pub fn sync_intervals(&mut self, now: u128) -> (r: (bool, bool))
        ensures
            r.0 == (old(self).sim_cfg != old(self).ctx@.sim_interval),
            r.1 == (old(self).patch_cfg != old(self).ctx@.patch_rate),
            final(self).sim_cfg == old(self).ctx@.sim_interval,
            final(self).patch_cfg == old(self).ctx@.patch_rate,
            final(self).last_tick == if r.0 {
                now
            } else {
                old(self).last_tick
            },
            final(self).ctx == old(self).ctx,
            final(self).created_at == old(self).created_at,
            final(self).last_auto_save == old(self).last_auto_save,
    {
        let sim: bool = !same_interval(self.sim_cfg, self.ctx.sim_interval);
        let patch: bool = !same_interval(self.patch_cfg, self.ctx.patch_rate);
        if sim {
            self.sim_cfg = self.ctx.sim_interval;
            self.last_tick = now;
        }
        if patch {
            self.patch_cfg = self.ctx.patch_rate;
        }
        (sim, patch)
    }

    /// Debounced automatic snapshot after a state change: whether one is to be
    /// written now.
    pub fn maybe_auto_save(&mut self, now: u64) -> (r: bool)
        ensures
            r == save_due(old(self).ctx@, old(self).last_auto_save, now),
            final(self).last_auto_save == if r {
                Some(now)
            } else {
                old(self).last_auto_save
            },
            final(self).ctx == old(self).ctx,
            final(self).created_at == old(self).created_at,
            final(self).last_tick == old(self).last_tick,
            final(self).sim_cfg == old(self).sim_cfg,
            final(self).patch_cfg == old(self).patch_cfg,
    {
        if self.ctx.should_save(self.last_auto_save, now) {
            self.last_auto_save = Some(now);
            true
        } else {
            false
        }
    }
}

/// The close code with which the room is to be disposed of now, if it is.
pub open spec fn disposal_due(c: ContextView, created_at: u64, now: u64) -> Option<u16> {
    match c.request_dispose {
        Some(code) => Some(code),
        None => if is_abandoned(c, created_at, now) {
            Some(close_codes::CONSENTED)
        } else {
            None
        },
    }
}

/// The context after a round of patches, whether anything changed, and whether the room
/// is to be saved now.
pub open spec fn patch_ticked(
    c: ContextView,
    last_save: Option<u64>,
    views: Seq<JsonView>,
    now: u64,
    clock_now: u128,
) -> (ContextView, bool, bool) {
    let ticked = if c.sim_interval is None {
        clock_ticked(c, clock_now)
    } else {
        c
    };
    let (patched, changed) = state_patched(ticked, views);
    let after = deferred_sent(patched);
    (after, changed, changed && save_due(after, last_save, now))
}

/// The context after the room's clock ticked.
pub open spec fn clock_ticked(c: ContextView, now: u128) -> ContextView {
    ContextView {
        clock_shown: time_shown(c.clock_shown, c.clock_base, c.clock_started, now),
        ..c
    }
}

impl RoomActor {
    /// One round of patches, given each client's projection of the state: what
    /// changed is sent, and the clock ticks unless the game loop ticks it. Returns
    /// whether anything changed, and whether the room is to be saved now, which is
    /// only asked after a change.
    pub fn patch_tick(&mut self, views: &Vec<Json>, now: u64, clock_now: u128) -> (r: (bool, bool))
        requires
            old(self).ctx@.view_filter && old(self).ctx@.state is Some ==> views.len()
                == old(self).ctx@.clients.len(),
        ensures
            ({
                let (after, changed, save) = patch_ticked(
                    old(self).ctx@,
                    old(self).last_auto_save,
                    values_view(views@),
                    now,
                    clock_now,
                );
                &&& final(self).ctx@ == after
                &&& r.0 == changed
                &&& r.1 == save
            }),
            final(self).last_auto_save == if r.1 {
                Some(now)
            } else {
                old(self).last_auto_save
            },
            final(self).created_at == old(self).created_at,
            final(self).last_tick == old(self).last_tick,
            final(self).sim_cfg == old(self).sim_cfg,
            final(self).patch_cfg == old(self).patch_cfg,
    {
        if self.ctx.sim_interval.is_none() {
            self.ctx.clock.tick(clock_now);
        }
        let ghost ticked = if old(self).ctx@.sim_interval is None {
            clock_ticked(old(self).ctx@, clock_now)
        } else {
            old(self).ctx@
        };
        assert(self.ctx@ == ticked);
        let changed: bool = self.ctx.broadcast_patch(views);
        let ghost after = deferred_sent(state_patched(ticked, values_view(views@)).0);
        assert(self.ctx@ == after);
        let save: bool = changed && self.maybe_auto_save(now);
        assert(self.ctx@ == after);
        (changed, save)
    }
}

fn same_interval(a: Option<u64>, b: Option<u64>) -> (r: bool)
    ensures
        r == (a == b),
{
    match (a, b) {
        (Some(x), Some(y)) => x == y,
        (None, None) => true,
        _ => false,
    }
}

// ---------------------------------------------------------------------
// laws over several steps
// ---------------------------------------------------------------------

/// A seat is taken once: while its client joins, a second connection with the
/// same session id is turned down.
pub proof fn law_seat_taken_once(c: ContextView, first: ClientView, second: ClientView)
    requires
        connected(c, first, None).1 is Join,
        second.session_id == first.session_id,
    ensures
        connected(connected(c, first, None).0, second, None) == (
            connected(c, first, None).0,
            ConnectView::Refuse(seat_consumed_error()),
        ),
{
    let seat = table_get(c.seats, first.session_id)->Some_0;
    lemma_table_set(
        c.seats,
        first.session_id,
        SeatState { consumed: true, ..seat },
    );
}

/// A token is used once: after a reconnection it leads nowhere.
pub proof fn law_token_used_once(
    c: ContextView,
    first: ClientView,
    second: ClientView,
    token: Seq<char>,
)
    requires
        connected(c, first, Some(token)).1 is Reconnect,
    ensures
        connected(connected(c, first, Some(token)).0, second, Some(token)).1
            == ConnectView::Refuse(bad_token_error()),
{
    lemma_table_remove(c.reconnections, token);
}

/// A client that was allowed to reconnect and comes back with its token is seated
/// again in its place, with its auth and user data, and everybody else stays as
/// they were.
pub proof fn law_reconnection_keeps_seat(
    c: ContextView,
    i: int,
    timeout: Option<u64>,
    now: u64,
    back: ClientView,
)
    requires
        0 <= i < c.clients.len(),
        client_index(c.clients, c.clients[i].session_id) == Some(i),
        reconnection_allowed(c, i, timeout, now).1,
        back.session_id == c.clients[i].session_id,
    ensures
        ({
            let waiting = reconnection_allowed(c, i, timeout, now).0;
            let (after, step) = connected(waiting, back, Some(c.clients[i].reconnection_token));
            &&& step is Reconnect
            &&& after.clients.len() == c.clients.len()
            &&& after.clients[i].session_id == c.clients[i].session_id
            &&& after.clients[i].connection_id == back.connection_id
            &&& after.clients[i].auth == c.clients[i].auth
            &&& c.clients[i].user_data is Some ==> after.clients[i].user_data
                == c.clients[i].user_data
            &&& forall|j: int|
                0 <= j < c.clients.len() && j != i ==> after.clients[j] == c.clients[j]
        }),
{
    let token = c.clients[i].reconnection_token;
    let sid = c.clients[i].session_id;
    let waiting = reconnection_allowed(c, i, timeout, now).0;
    let w = ClientView { state: ClientState::Reconnecting, ..c.clients[i] };
    let expires_at = match timeout {
        Some(d) => Some(later(now, d)),
        None => None,
    };
    let kept = ClientView { pending: seq![], outbox: seq![], ..w };
    lemma_table_set(
        c.reconnections,
        token,
        EntryView { session_id: sid, client: kept, expires_at },
    );
    lemma_client_index(c.clients, sid);
    lemma_client_index(waiting.clients, sid);
    assert(waiting.clients[i].session_id == sid);
    let k = client_index(waiting.clients, sid)->Some_0;
    if k != i {
        assert(k < i);
        assert(c.clients[k].session_id != sid);
        assert(waiting.clients[k] == c.clients[k]);
    }
}

}
