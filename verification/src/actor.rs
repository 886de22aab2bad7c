//! The room actor: how a room answers seats, connections, messages, departures
//! and deadlines. What the room's own hooks do in between is the caller's; each
//! step says what is to be run next, and a later step takes what came of it.

use crate::client::{
    close_sent, flushed, joined_state, rate_step, sent, told_to_leave, Client, ClientState,
    ClientView,
};
use crate::context::{find_client, find_last, full_state, move_session};
use crate::error::{close_codes, codes, seat_expired_error, ErrorView, ServerError};
use crate::json::{Json, JsonView};
use crate::protocol;
use crate::protocol::{
    error_frame, join_frame, state_frame, ClientMessage, MessageType, MessageView, TypeView,
};
use crate::query::{clone_option, option_view};
use crate::room::{
    client_index, is_full, is_pending, last_index, lemma_client_index, lemma_without_session,
    logged, occupancy, of_session, pending_seats, session_log, synced, type_text, without_session,
    ContextView, EntryView, LogView, ReservedSeat, RoomContext, RoomEventLog, SeatState, TimerEntry,
};
use crate::state::{JSON_PATCH_SERIALIZER_ID, NONE_SERIALIZER_ID};
use crate::table::{lemma_table_index, table_get, table_index, table_remove, table_set};
use crate::text::{join_quoted, same_text, with_quoted};
use crate::utils::{add_time, later};
use crate::wire::packed;
use vstd::prelude::*;
use vstd::string::*;

verus! {

/// A result without a value, read through its view.
pub open spec fn outcome(r: Result<(), ServerError>) -> Result<(), ErrorView> {
    match r {
        Ok(()) => Ok(()),
        Err(e) => Err(e@),
    }
}

// ---------------------------------------------------------------------
// reserving a seat
// ---------------------------------------------------------------------

/// Why a room gives out no seat: it is being disposed, locked or full.
pub open spec fn seat_refusal(c: ContextView) -> Option<ErrorView> {
    if c.disposing || c.locked || is_full(c) {
        Some(
            ErrorView {
                code: codes::MATCHMAKE_EXPIRED,
                message: with_quoted("room "@, c.room_id) + " is not available"@,
            },
        )
    } else {
        None
    }
}

/// The context after a seat was reserved.
pub open spec fn seat_given(
    c: ContextView,
    session_id: Seq<char>,
    options: JsonView,
    auth: Option<JsonView>,
    now: u64,
) -> ContextView {
    synced(
        ContextView {
            seats: table_set(
                c.seats,
                session_id,
                SeatState {
                    options,
                    auth,
                    consumed: false,
                    waiting_reconnection: false,
                    expires_at: later(now, c.seat_timeout),
                },
            ),
            tap: logged(c.tap, session_log("sys"@, "seat"@, session_id)),
            ..c
        },
    )
}

proof fn lemma_pending_push(s: Seq<(Seq<char>, SeatState)>, e: (Seq<char>, SeatState))
    ensures
        pending_seats(s.push(e)) == pending_seats(s) + if is_pending(e.1) {
            1nat
        } else {
            0nat
        },
{
    assert(s.push(e).drop_last() =~= s);
}

proof fn lemma_pending_update(s: Seq<(Seq<char>, SeatState)>, i: int, e: (Seq<char>, SeatState))
    requires
        0 <= i < s.len(),
    ensures
        pending_seats(s.update(i, e)) + (if is_pending(s[i].1) {
            1nat
        } else {
            0nat
        }) == pending_seats(s) + (if is_pending(e.1) {
            1nat
        } else {
            0nat
        }),
    decreases s.len(),
{
    let u = s.update(i, e);
    if i == s.len() - 1 {
        assert(u.drop_last() =~= s.drop_last());
    } else {
        lemma_pending_update(s.drop_last(), i, e);
        assert(u.drop_last() =~= s.drop_last().update(i, e));
    }
}

/// A room that gives out a seat stays within its limit: clients and waiting seats
/// together are at most as many as it takes.
pub proof fn law_seats_within_limit(
    c: ContextView,
    session_id: Seq<char>,
    options: JsonView,
    auth: Option<JsonView>,
    now: u64,
)
    requires
        seat_refusal(c) is None,
        occupancy(c) < 0x1_0000_0000,
        c.max_clients is Some,
    ensures
        occupancy(seat_given(c, session_id, options, auth, now)) <= c.max_clients->Some_0,
{
    let seat = SeatState {
        options,
        auth,
        consumed: false,
        waiting_reconnection: false,
        expires_at: later(now, c.seat_timeout),
    };
    lemma_table_index(c.seats, session_id);
    match table_index(c.seats, session_id) {
        Some(i) => lemma_pending_update(c.seats, i, (session_id, seat)),
        None => lemma_pending_push(c.seats, (session_id, seat)),
    }
}

// ---------------------------------------------------------------------
// connecting
// ---------------------------------------------------------------------

/// What a connection leads to.
#[derive(Debug)]
pub enum ConnectStep {
    /// The connection is turned down.
    Refuse(ServerError),
    /// The client is back; the room is to be told of its reconnection.
    Reconnect,
    /// The client has its seat; the room is to be told that it joins, with the
    /// options and auth data of the seat.
    Join(Json, Option<Json>),
}

/// What a connection leads to, read through its views.
pub enum ConnectView {
    Refuse(ErrorView),
    Reconnect,
    Join(JsonView, Option<JsonView>),
}

impl View for ConnectStep {
    type V = ConnectView;

    open spec fn view(&self) -> ConnectView {
        match self {
            ConnectStep::Refuse(e) => ConnectView::Refuse(e@),
            ConnectStep::Reconnect => ConnectView::Reconnect,
            ConnectStep::Join(options, auth) => ConnectView::Join(options@, option_view(*auth)),
        }
    }
}

pub open spec fn bad_token_error() -> ErrorView {
    ErrorView {
        code: codes::MATCHMAKE_EXPIRED,
        message: "reconnection token invalid or expired"@,
    }
}

pub open spec fn seat_consumed_error() -> ErrorView {
    ErrorView { code: codes::MATCHMAKE_EXPIRED, message: "seat reservation already consumed"@ }
}

/// What is known of a session that comes back: its client in the room or, where
/// there is none, the one that was kept with the token.
pub open spec fn previous_client(c: ContextView, entry: EntryView) -> ClientView {
    match client_index(c.clients, entry.session_id) {
        Some(i) => c.clients[i],
        None => entry.client,
    }
}

/// The client that comes back: it takes over auth and user data.
pub open spec fn returning(client: ClientView, previous: ClientView) -> ClientView {
    ClientView {
        attached: true,
        state: ClientState::Reconnecting,
        auth: previous.auth,
        user_data: if previous.user_data is Some {
            previous.user_data
        } else {
            client.user_data
        },
        ..client
    }
}

/// The clients after one took the place of its session's, or came to the end.
pub open spec fn placed(cs: Seq<ClientView>, client: ClientView) -> Seq<ClientView> {
    match client_index(cs, client.session_id) {
        Some(i) => cs.update(i, client),
        None => cs.push(client),
    }
}

/// The clients whose place was taken.
pub open spec fn replaced(cs: Seq<ClientView>, session_id: Seq<char>) -> Seq<ClientView> {
    match client_index(cs, session_id) {
        Some(i) => seq![ClientView { state: ClientState::Reconnected, ..cs[i] }],
        None => seq![],
    }
}

/// What a connection does to the context, and what it leads to. With a token the
/// client must come back to the token's session; without one it must have a seat
/// that nobody took yet.
pub open spec fn connected(
    c: ContextView,
    client: ClientView,
    token: Option<Seq<char>>,
) -> (ContextView, ConnectView) {
    let sid = client.session_id;
    match token {
        Some(t) => match table_get(c.reconnections, t) {
            Some(entry) => if entry.session_id == sid {
                let back = returning(client, previous_client(c, entry));
                (
                    ContextView {
                        reconnections: table_remove(c.reconnections, t),
                        seats: table_remove(c.seats, sid),
                        clients: placed(c.clients, back),
                        departed: c.departed + replaced(c.clients, sid),
                        ..c
                    },
                    ConnectView::Reconnect,
                )
            } else {
                (c, ConnectView::Refuse(bad_token_error()))
            },
            None => (c, ConnectView::Refuse(bad_token_error())),
        },
        None => match table_get(c.seats, sid) {
            Some(seat) => if seat.consumed {
                (c, ConnectView::Refuse(seat_consumed_error()))
            } else {
                (
                    ContextView {
                        seats: table_set(c.seats, sid, SeatState { consumed: true, ..seat }),
                        clients: c.clients.push(
                            ClientView {
                                attached: true,
                                auth: seat.auth,
                                state: ClientState::Joining,
                                ..client
                            },
                        ),
                        ..c
                    },
                    ConnectView::Join(seat.options, seat.auth),
                )
            },
            None => (c, ConnectView::Refuse(seat_expired_error())),
        },
    }
}

/// The handshake's serializer id.
pub open spec fn serializer_of(c: ContextView) -> Seq<char> {
    if c.state is Some {
        JSON_PATCH_SERIALIZER_ID@
    } else {
        NONE_SERIALIZER_ID@
    }
}

/// A client after it was let in: it has its token and was sent the handshake, the
/// full state if there is one, and what had been waiting for it.
pub open spec fn let_in(
    client: ClientView,
    state: ClientState,
    token: Seq<char>,
    serializer: Seq<char>,
    full: Option<JsonView>,
) -> ClientView {
    let named = ClientView { state, reconnection_token: token, ..client };
    let greeted = sent(named, packed(join_frame(token, serializer, None)));
    flushed(
        match full {
            Some(s) => sent(greeted, packed(state_frame(s))),
            None => greeted,
        },
    )
}

/// A client that came in, for the first time or again.
pub open spec fn arrival_log(state: ClientState, session_id: Seq<char>) -> LogView {
    session_log(
        "sys"@,
        if state == ClientState::Reconnected {
            "reconnect"@
        } else {
            "join"@
        },
        session_id,
    )
}

/// The full state that went to a client.
pub open spec fn full_log(session_id: Seq<char>, state: JsonView) -> LogView {
    LogView { payload: Some(state), ..session_log("out"@, "state_full"@, session_id) }
}

/// The place of the client that comes in: one that is back has the place of its
/// session's first client, and one that joins came to the end.
pub open spec fn arrival_index(
    cs: Seq<ClientView>,
    session_id: Seq<char>,
    state: ClientState,
) -> Option<int> {
    if state == ClientState::Reconnected {
        client_index(cs, session_id)
    } else {
        last_index(cs, session_id)
    }
}

/// The context after it was noted that a session's client came in, and what it was
/// sent of the state.
pub open spec fn arrival_noted(
    c: ContextView,
    session_id: Seq<char>,
    state: ClientState,
    full: Option<JsonView>,
) -> ContextView {
    let arrived = logged(c.tap, arrival_log(state, session_id));
    ContextView {
        view_snapshots: match full {
            Some(s) => c.view_snapshots.insert(session_id, s),
            None => c.view_snapshots,
        },
        tap: match full {
            Some(s) => logged(arrived, full_log(session_id, s)),
            None => arrived,
        },
        ..c
    }
}

/// The context after a session's client was let in. A client that the room forgot
/// in the meantime is told the same, though it is not in the room.
pub open spec fn welcomed(
    c: ContextView,
    session_id: Seq<char>,
    state: ClientState,
    token: Seq<char>,
    projected: JsonView,
) -> ContextView {
    let full = full_state(c, projected);
    let serializer = serializer_of(c);
    let noted = arrival_noted(c, session_id, state, full);
    synced(
        match arrival_index(c.clients, session_id, state) {
            Some(i) => ContextView {
                clients: c.clients.update(i, let_in(c.clients[i], state, token, serializer, full)),
                ..noted
            },
            None => match last_index(c.departed, session_id) {
                Some(k) => ContextView {
                    departed: c.departed.update(
                        k,
                        let_in(c.departed[k], state, token, serializer, full),
                    ),
                    ..noted
                },
                None => noted,
            },
        },
    )
}

pub open spec fn left_early_error() -> ErrorView {
    ErrorView { code: codes::MATCHMAKE_UNHANDLED, message: "client left during on_join"@ }
}

/// Whether the client was closed while it joined.
pub open spec fn left_early(c: ContextView, session_id: Seq<char>) -> bool {
    match last_index(c.clients, session_id) {
        Some(i) => c.clients[i].state == ClientState::Leaving,
        None => last_index(c.departed, session_id) matches Some(k) && c.departed[k].state
            == ClientState::Leaving,
    }
}

/// A client after a failed join: it was sent the error and told to leave.
pub open spec fn turned_away(c: ClientView, e: ErrorView) -> ClientView {
    told_to_leave(
        sent(c, packed(error_frame(e.code, e.message))),
        close_codes::WITH_ERROR,
        e.message,
    )
}

/// The clients that are no longer in the room, after a session's join failed.
pub open spec fn sent_off(c: ContextView, session_id: Seq<char>, e: ErrorView) -> Seq<ClientView> {
    match last_index(c.clients, session_id) {
        Some(i) => c.departed + of_session(
            c.clients.update(i, turned_away(c.clients[i], e)),
            session_id,
        ),
        None => match last_index(c.departed, session_id) {
            Some(k) => c.departed.update(k, turned_away(c.departed[k], e)),
            None => c.departed,
        },
    }
}

/// The context after the room was told of a join and answered, and what the
/// connection is answered. The seat is gone either way. A client that the room
/// turned down, or closed, leaves the room again.
pub open spec fn join_finished(
    c: ContextView,
    session_id: Seq<char>,
    answer: Result<(), ErrorView>,
    token: Seq<char>,
    projected: JsonView,
) -> (ContextView, Result<(), ErrorView>) {
    let freed = ContextView { seats: table_remove(c.seats, session_id), ..c };
    if answer is Ok && !left_early(c, session_id) {
        let had = ContextView { had_clients: true, ..freed };
        (welcomed(had, session_id, ClientState::Joined, token, projected), Ok(()))
    } else {
        let e = match answer {
            Err(e) => e,
            Ok(()) => left_early_error(),
        };
        (
            synced(
                ContextView {
                    clients: without_session(freed.clients, session_id),
                    departed: sent_off(freed, session_id, e),
                    ..freed
                },
            ),
            Err(e),
        )
    }
}

// ---------------------------------------------------------------------
// messages
// ---------------------------------------------------------------------

/// What a client's message leads to.
#[derive(Debug)]
pub enum MessageStep {
    /// Nothing more is to be done.
    Done,
    /// The connection, which is not in the room, is to be sent a pong.
    Pong,
    /// The client leaves of its own accord.
    Leave,
    /// The handlers of the message are to be run.
    Dispatch(MessageType, Json),
    /// The handlers of the binary message are to be run.
    DispatchBytes(MessageType, Vec<u8>),
}

/// What a client's message leads to, read through its views.
pub enum StepView {
    Done,
    Pong,
    Leave,
    Dispatch(TypeView, JsonView),
    DispatchBytes(TypeView, Seq<u8>),
}

impl View for MessageStep {
    type V = StepView;

    open spec fn view(&self) -> StepView {
        match self {
            MessageStep::Done => StepView::Done,
            MessageStep::Pong => StepView::Pong,
            MessageStep::Leave => StepView::Leave,
            MessageStep::Dispatch(t, v) => StepView::Dispatch(t@, v@),
            MessageStep::DispatchBytes(t, b) => StepView::DispatchBytes(t@, b@),
        }
    }
}

/// A client after its rate window counted one more message, and whether the
/// message passes.
pub open spec fn rate_checked(client: ClientView, max: Option<u32>, now: u64) -> (ClientView, bool) {
    match max {
        None => (client, true),
        Some(m) => {
            let (start, count) = rate_step(
                client.rate_start,
                client.rate_count,
                now,
            );
            (ClientView { rate_start: start, rate_count: count, ..client }, count <= m)
        },
    }
}

/// A message that came in.
pub open spec fn message_log(session_id: Seq<char>, t: TypeView, payload: JsonView) -> LogView {
    LogView {
        msg_type: Some(type_text(t)),
        payload: Some(payload),
        ..session_log("in"@, "message"@, session_id)
    }
}

/// A binary message that came in.
pub open spec fn bytes_log(session_id: Seq<char>, t: TypeView, n: nat) -> LogView {
    LogView {
        msg_type: Some(type_text(t)),
        bytes: n as usize,
        ..session_log("in"@, "bytes"@, session_id)
    }
}

/// What a message does to the context, and what it leads to. A connection that is
/// not, or no longer, the one of its session is not heard, but for a ping where
/// the session has no client. Messages count towards the rate limit and reach
/// the handlers only from clients that have joined.
pub open spec fn message_taken(
    c: ContextView,
    session_id: Seq<char>,
    connection_id: Seq<char>,
    msg: MessageView,
    now: u64,
) -> (ContextView, StepView) {
    match client_index(c.clients, session_id) {
        None => (
            c,
            if msg is Ping {
                StepView::Pong
            } else {
                StepView::Done
            },
        ),
        Some(i) => {
            let client = c.clients[i];
            let (counted, passes) = rate_checked(client, c.max_rate, now);
            let after = ContextView { clients: c.clients.update(i, counted), ..c };
            if client.connection_id != connection_id {
                (c, StepView::Done)
            } else {
                match msg {
                    MessageView::Ping => (
                        ContextView {
                            clients: c.clients.update(i, sent(client, seq![protocol::code::PING])),
                            ..c
                        },
                        StepView::Done,
                    ),
                    MessageView::Leave => (
                        ContextView {
                            tap: logged(c.tap, session_log("in"@, "leave"@, session_id)),
                            ..c
                        },
                        StepView::Leave,
                    ),
                    MessageView::Data(t, v) => if !joined_state(client.state) {
                        (c, StepView::Done)
                    } else {
                        (
                            ContextView {
                                tap: logged(c.tap, message_log(session_id, t, v)),
                                ..after
                            },
                            if passes {
                                StepView::Dispatch(t, v)
                            } else {
                                StepView::Done
                            },
                        )
                    },
                    MessageView::DataBytes(t, b) => if !joined_state(client.state) {
                        (c, StepView::Done)
                    } else if passes {
                        (
                            ContextView {
                                tap: logged(c.tap, bytes_log(session_id, t, b.len())),
                                ..after
                            },
                            StepView::DispatchBytes(t, b),
                        )
                    } else {
                        (after, StepView::Done)
                    },
                }
            }
        },
    }
}

/// A stale connection changes nothing: once a session reconnected, nothing that
/// its old connection sends reaches the room.
pub proof fn law_stale_connection_ignored(
    c: ContextView,
    session_id: Seq<char>,
    connection_id: Seq<char>,
    msg: MessageView,
    now: u64,
)
    requires
        client_index(c.clients, session_id) matches Some(i) && c.clients[i].connection_id
            != connection_id,
    ensures
        message_taken(c, session_id, connection_id, msg, now) == (c, StepView::Done),
{
}

/// The context after a session's client was told of an error that a handler gave.
/// One that the handler made the room forget is told the same.
pub open spec fn error_reported(c: ContextView, session_id: Seq<char>, e: ErrorView) -> ContextView {
    let frame = packed(error_frame(e.code, e.message));
    match client_index(c.clients, session_id) {
        Some(i) => ContextView { clients: c.clients.update(i, sent(c.clients[i], frame)), ..c },
        None => match last_index(c.departed, session_id) {
            Some(k) => ContextView {
                departed: c.departed.update(k, sent(c.departed[k], frame)),
                ..c
            },
            None => c,
        },
    }
}

// ---------------------------------------------------------------------
// leaving
// ---------------------------------------------------------------------

/// What a departure leads to.
#[derive(Debug, Clone, Copy, PartialEq, Eq, Structural)]
pub enum LeaveStep {
    /// Nothing more is to be done.
    Done,
    /// The room is to be told of the drop, and may allow a reconnection.
    Drop,
    /// The room is to be told that the client leaves for good.
    Leave,
}

/// The context after the room was told of a drop, where it had to be: of a client
/// that may reconnect only the transport is closed; any other leaves.
pub open spec fn drop_settled(c: ContextView, session_id: Seq<char>, code: u16) -> (
    ContextView,
    LeaveStep,
) {
    match client_index(c.clients, session_id) {
        None => match last_index(c.departed, session_id) {
            Some(k) => if table_get(c.reconnections, c.departed[k].reconnection_token) is Some {
                (
                    ContextView {
                        departed: c.departed.update(
                            k,
                            close_sent(c.departed[k], code, "reconnecting"@),
                        ),
                        ..c
                    },
                    LeaveStep::Done,
                )
            } else {
                (c, LeaveStep::Leave)
            },
            None => (c, LeaveStep::Leave),
        },
        Some(i) => if table_get(c.reconnections, c.clients[i].reconnection_token) is Some {
            (
                ContextView {
                    clients: c.clients.update(i, close_sent(c.clients[i], code, "reconnecting"@)),
                    ..c
                },
                LeaveStep::Done,
            )
        } else {
            (c, LeaveStep::Leave)
        },
    }
}

/// The context after a departure began, and what it leads to. A client that is
/// leaving already is left alone; a consented leave is no drop.
pub open spec fn leave_begun(
    c: ContextView,
    session_id: Seq<char>,
    code: u16,
    consented: bool,
) -> (ContextView, LeaveStep) {
    match client_index(c.clients, session_id) {
        None => (c, LeaveStep::Done),
        Some(i) => {
            let state = c.clients[i].state;
            if state == ClientState::Leaving || state == ClientState::Closed {
                (c, LeaveStep::Done)
            } else {
                let leaving = ContextView {
                    clients: c.clients.update(
                        i,
                        ClientView { state: ClientState::Leaving, ..c.clients[i] },
                    ),
                    ..c
                };
                if !consented && !c.disposing {
                    (leaving, LeaveStep::Drop)
                } else {
                    drop_settled(leaving, session_id, code)
                }
            }
        },
    }
}

/// A client that is gone: closed, and told so where it had asked to leave.
pub open spec fn gone_client(c: ClientView, code: u16, consented: bool) -> ClientView {
    let closed = ClientView { state: ClientState::Closed, ..c };
    if consented {
        told_to_leave(closed, code, seq![])
    } else {
        closed
    }
}

/// The clients that are no longer in the room, after a session's client left for
/// good. One that the room forgot in the meantime is told the same.
pub open spec fn gone_off(
    c: ContextView,
    session_id: Seq<char>,
    code: u16,
    consented: bool,
) -> Seq<ClientView> {
    match client_index(c.clients, session_id) {
        Some(i) => c.departed + of_session(
            c.clients.update(i, gone_client(c.clients[i], code, consented)),
            session_id,
        ),
        None => match last_index(c.departed, session_id) {
            Some(k) => c.departed.update(k, gone_client(c.departed[k], code, consented)),
            None => c.departed,
        },
    }
}

/// The context after a client was taken out of the room for good.
pub open spec fn taken_out(
    c: ContextView,
    session_id: Seq<char>,
    code: u16,
    consented: bool,
) -> ContextView {
    synced(
        ContextView {
            clients: without_session(c.clients, session_id),
            departed: gone_off(c, session_id, code, consented),
            view_snapshots: c.view_snapshots.remove(session_id),
            ..c
        },
    )
}

/// A client that left, with the close code.
pub open spec fn leave_log(session_id: Seq<char>, code: u16) -> LogView {
    LogView { bytes: code as usize, ..session_log("sys"@, "leave"@, session_id) }
}

/// The context after the room was told that a client leaves for good.
pub open spec fn leave_finished(
    c: ContextView,
    session_id: Seq<char>,
    code: u16,
    consented: bool,
) -> ContextView {
    taken_out(
        ContextView { tap: logged(c.tap, leave_log(session_id, code)), ..c },
        session_id,
        code,
        consented,
    )
}

// ---------------------------------------------------------------------
// deadlines
// ---------------------------------------------------------------------

/// The reconnection has expired.
pub open spec fn entry_expired(e: EntryView, now: u64) -> bool {
    e.expires_at matches Some(t) && t <= now
}

/// The seat has expired.
pub open spec fn seat_expired(s: SeatState, now: u64) -> bool {
    is_pending(s) && s.expires_at <= now
}

/// The tokens that have expired, in their order.
pub open spec fn expired_tokens(s: Seq<(Seq<char>, EntryView)>, now: u64) -> Seq<Seq<char>>
    decreases s.len(),
{
    if s.len() == 0 {
        seq![]
    } else if entry_expired(s.last().1, now) {
        expired_tokens(s.drop_last(), now).push(s.last().0)
    } else {
        expired_tokens(s.drop_last(), now)
    }
}

/// The seats that have not expired.
pub open spec fn live_seats(s: Seq<(Seq<char>, SeatState)>, now: u64) -> Seq<(Seq<char>, SeatState)>
    decreases s.len(),
{
    if s.len() == 0 {
        s
    } else if seat_expired(s.last().1, now) {
        live_seats(s.drop_last(), now)
    } else {
        live_seats(s.drop_last(), now).push(s.last())
    }
}

/// The context after expired seats were given up.
pub open spec fn seats_expired(c: ContextView, now: u64) -> ContextView {
    let live = live_seats(c.seats, now);
    if live.len() == c.seats.len() {
        c
    } else {
        synced(ContextView { seats: live, ..c })
    }
}

/// The context after a token was given up.
pub open spec fn token_expired(c: ContextView, token: Seq<char>) -> ContextView {
    match table_get(c.reconnections, token) {
        Some(e) => ContextView {
            reconnections: table_remove(c.reconnections, token),
            seats: table_remove(c.seats, e.session_id),
            ..c
        },
        None => c,
    }
}

/// The timers that are due, in their order.
pub open spec fn due_timers(ts: Seq<TimerEntry>, now: u64) -> Seq<TimerEntry>
    decreases ts.len(),
{
    if ts.len() == 0 {
        ts
    } else if ts.last().at <= now {
        due_timers(ts.drop_last(), now).push(ts.last())
    } else {
        due_timers(ts.drop_last(), now)
    }
}

/// The timers that are not due, in their order.
pub open spec fn waiting_timers(ts: Seq<TimerEntry>, now: u64) -> Seq<TimerEntry>
    decreases ts.len(),
{
    if ts.len() == 0 {
        ts
    } else if ts.last().at <= now {
        waiting_timers(ts.drop_last(), now)
    } else {
        waiting_timers(ts.drop_last(), now).push(ts.last())
    }
}

/// Each timer is either due or waits, and none is both or lost.
pub proof fn law_timers_split(ts: Seq<TimerEntry>, now: u64)
    ensures
        due_timers(ts, now).len() + waiting_timers(ts, now).len() == ts.len(),
        forall|i: int|
            0 <= i < due_timers(ts, now).len() ==> (#[trigger] due_timers(ts, now)[i]).at <= now,
        forall|i: int|
            0 <= i < waiting_timers(ts, now).len() ==> (#[trigger] waiting_timers(ts, now)[i]).at
                > now,
        due_timers(ts, now).to_multiset().add(waiting_timers(ts, now).to_multiset())
            == ts.to_multiset(),
    decreases ts.len(),
{
    broadcast use vstd::seq_lib::group_to_multiset_ensures;

    if ts.len() > 0 {
        let init = ts.drop_last();
        law_timers_split(init, now);
        assert(ts =~= init.push(ts.last()));
        let d = due_timers(init, now);
        let w = waiting_timers(init, now);
        if ts.last().at <= now {
            assert(d.push(ts.last()).to_multiset().add(w.to_multiset()) =~= d.to_multiset().add(
                w.to_multiset(),
            ).insert(ts.last()));
        } else {
            assert(d.to_multiset().add(w.push(ts.last()).to_multiset()) =~= d.to_multiset().add(
                w.to_multiset(),
            ).insert(ts.last()));
        }
    } else {
        assert(due_timers(ts, now).to_multiset().add(waiting_timers(ts, now).to_multiset())
            =~= ts.to_multiset());
    }
}

// ---------------------------------------------------------------------
// steps
// ---------------------------------------------------------------------

/// The last place of a session is where it stands, and it has one where it has a
/// first.
proof fn lemma_last_index(cs: Seq<ClientView>, session_id: Seq<char>)
    ensures
        last_index(cs, session_id) matches Some(i) ==> 0 <= i < cs.len() && cs[i].session_id
            == session_id,
        last_index(cs, session_id) is None <==> client_index(cs, session_id) is None,
    decreases cs.len(),
{
    if cs.len() > 0 && cs.last().session_id != session_id {
        lemma_last_index(cs.drop_last(), session_id);
    }
}

/// The clients of other sessions stay whatever happens to one of the session.
proof fn lemma_without_update(cs: Seq<ClientView>, i: int, x: ClientView, session_id: Seq<char>)
    requires
        0 <= i < cs.len(),
        cs[i].session_id == session_id,
        x.session_id == session_id,
    ensures
        without_session(cs.update(i, x), session_id) == without_session(cs, session_id),
    decreases cs.len(),
{
    let u = cs.update(i, x);
    if i == cs.len() - 1 {
        assert(u.drop_last() =~= cs.drop_last());
    } else {
        lemma_without_update(cs.drop_last(), i, x, session_id);
        assert(u.drop_last() =~= cs.drop_last().update(i, x));
    }
}

/// Hands a client its token, the handshake, the full state if there is one, and
/// what had been waiting for it.
fn greet(
    client: &mut Client,
    state: ClientState,
    token: String,
    serializer: &str,
    full: &Option<Json>,
)
    ensures
        final(client)@ == let_in(
            old(client)@,
            state,
            token@,
            serializer@,
            option_view(*full),
        ),
{
    let hello: Vec<u8> = protocol::join_room(token.as_str(), serializer, None);
    client.state = state;
    client.reconnection_token = token;
    client.raw_now(hello);
    if let Some(s) = full {
        client.raw_now(protocol::room_state(s));
    }
    client.flush_pending();
}

/// Closes a client, and tells it so where it had asked to leave.
fn see_off(client: &mut Client, code: u16, consented: bool)
    ensures
        final(client)@ == gone_client(old(client)@, code, consented),
{
    client.set_state(ClientState::Closed);
    if consented {
        client.leave(Some(code), None);
    }
}

impl RoomContext {
    /// Says whether a seat may be given out at all.
    pub fn reserve_begin(&self) -> (r: Result<(), ServerError>)
        ensures
            outcome(r) == match seat_refusal(self@) {
                Some(e) => Err::<(), ErrorView>(e),
                None => Ok::<(), ErrorView>(()),
            },
    {
        if self.disposing || self.locked || self.has_reached_max_clients() {
            let mut message: String = join_quoted("room ", self.room_id());
            message.append(" is not available");
            return Err(ServerError::new(codes::MATCHMAKE_EXPIRED, message));
        }
        Ok(())
    }

    /// Gives out the seat once the room has answered whom it is for.
    pub fn reserve_finish(
        &mut self,
        session_id: &str,
        options: Json,
        auth: Result<Option<Json>, ServerError>,
        now: u64,
    ) -> (r: Result<(), ServerError>)
        ensures
            match auth {
                Ok(a) => r is Ok && final(self)@ == seat_given(
                    old(self)@,
                    session_id@,
                    options@,
                    option_view(a),
                    now,
                ),
                Err(e) => outcome(r) == Err::<(), ErrorView>(e@) && final(self)@ == old(self)@,
            },
    {
        match auth {
            Ok(auth) => {
                let seat = ReservedSeat {
                    options,
                    auth,
                    consumed: false,
                    waiting_reconnection: false,
                    expires_at: add_time(now, self.seat_reservation_timeout),
                };
                self.tap.log(
                    RoomEventLog::new("sys", "seat").client(session_id),
                );
                self.reserved_seats.set(session_id, seat);
                self.sync_listing();
                Ok(())
            },
            Err(e) => Err(e),
        }
    }

    /// Takes a new connection in, or turns it down.
    pub fn connect_begin(&mut self, client: Client, reconnection_token: Option<&str>) -> (r:
        ConnectStep)
        ensures
            (final(self)@, r@) == connected(
                old(self)@,
                client@,
                match reconnection_token {
                    Some(t) => Some(t@),
                    None => None,
                },
            ),
    {
        match reconnection_token {
            Some(token) => self.connect_again(client, token),
            None => self.connect_first(client),
        }
    }

    fn connect_again(&mut self, client: Client, token: &str) -> (r: ConnectStep)
        ensures
            (final(self)@, r@) == connected(old(self)@, client@, Some(token@)),
    {
        let ghost before = self@;
        let session_id: String = client.session_id.clone();
        let (auth, user_data): (Option<Json>, Option<Json>) = match self.reconnections.get(token) {
            Some(entry) => {
                if !same_text(entry.session_id.as_str(), session_id.as_str()) {
                    return ConnectStep::Refuse(Self::bad_token());
                }
                match find_client(&self.clients, session_id.as_str()) {
                    Some(i) => {
                        proof {
                            assert(before.clients[i as int] == self.clients@[i as int]@);
                        }
                        (self.clients[i].auth(), self.clients[i].user_data())
                    },
                    None => (entry.client.auth(), entry.client.user_data()),
                }
            },
            None => {
                return ConnectStep::Refuse(Self::bad_token());
            },
        };
        self.reconnections.remove(token);
        self.reserved_seats.remove(session_id.as_str());
        let kept: Option<Json> = match user_data {
            Some(d) => Some(d),
            None => client.user_data(),
        };
        let back = Client {
            attached: true,
            state: ClientState::Reconnecting,
            auth,
            user_data: kept,
            ..client
        };
        let ghost entry = table_get(before.reconnections, token@)->Some_0;
        let ghost bv = back@;
        proof {
            assert(bv == returning(client@, previous_client(before, entry)));
        }
        match find_client(&self.clients, session_id.as_str()) {
            Some(i) => {
                proof {
                    assert(before.clients[i as int] == self.clients@[i as int]@);
                }
                let mut old_client: Client = back;
                std::mem::swap(&mut self.clients[i], &mut old_client);
                old_client.set_state(ClientState::Reconnected);
                self.departed.push(old_client);
                proof {
                    assert(self@.clients =~= before.clients.update(i as int, bv));
                    assert(self@.departed =~= before.departed + replaced(
                        before.clients,
                        session_id@,
                    ));
                }
            },
            None => {
                self.clients.push(back);
                proof {
                    assert(self@.clients =~= before.clients.push(bv));
                    assert(self@.departed =~= before.departed + replaced(
                        before.clients,
                        session_id@,
                    ));
                }
            },
        }
        ConnectStep::Reconnect
    }

    fn bad_token() -> (r: ServerError)
        ensures
            r@ == bad_token_error(),
    {
        ServerError::new(
            codes::MATCHMAKE_EXPIRED,
            "reconnection token invalid or expired".to_owned(),
        )
    }

    fn connect_first(&mut self, client: Client) -> (r: ConnectStep)
        ensures
            (final(self)@, r@) == connected(old(self)@, client@, None),
    {
        let ghost before = self@;
        let session_id: String = client.session_id.clone();
        let (options, auth, expires_at, waiting): (Json, Option<Json>, u64, bool) =
            match self.reserved_seats.get(session_id.as_str()) {
            Some(seat) => {
                if seat.consumed {
                    return ConnectStep::Refuse(
                        ServerError::new(
                            codes::MATCHMAKE_EXPIRED,
                            "seat reservation already consumed".to_owned(),
                        ),
                    );
                }
                (
                    seat.options.clone(),
                    clone_option(&seat.auth),
                    seat.expires_at,
                    seat.waiting_reconnection,
                )
            },
            None => {
                return ConnectStep::Refuse(ServerError::seat_expired());
            },
        };
        // the consumed seat stays until the join is decided, so that a second
        // connection with the same session id is turned down meanwhile
        let taken = ReservedSeat {
            options: options.clone(),
            auth: clone_option(&auth),
            consumed: true,
            waiting_reconnection: waiting,
            expires_at,
        };
        self.reserved_seats.set(session_id.as_str(), taken);
        let joining = Client {
            attached: true,
            auth: clone_option(&auth),
            state: ClientState::Joining,
            ..client
        };
        let ghost jv = joining@;
        self.clients.push(joining);
        proof {
            assert(self@.clients =~= before.clients.push(jv));
        }
        ConnectStep::Join(options, auth)
    }

    /// Notes that a session's client came in, and what it was sent of the state.
    fn note_arrival(&mut self, session_id: &str, state: ClientState, full: &Option<Json>)
        ensures
            final(self)@ == arrival_noted(old(self)@, session_id@, state, option_view(*full)),
    {
        let kind: &str = if state == ClientState::Reconnected {
            "reconnect"
        } else {
            "join"
        };
        self.tap_log(RoomEventLog::new("sys", kind).client(session_id));
        if let Some(s) = full {
            self.set_view_snapshot(session_id, s.clone());
            self.tap_log(
                RoomEventLog::new("out", "state_full").client(
                    session_id,
                ).payload(s.clone()),
            );
        }
    }

    /// Lets a session's client in.
    fn welcome(&mut self, session_id: &str, state: ClientState, token: String, projected: &Json)
        ensures
            final(self)@ == welcomed(old(self)@, session_id@, state, token@, projected@),
    {
        let ghost before = self@;
        let full: Option<Json> = self.full_state_for(projected);
        let serializer: &str = self.serializer_id();
        let at: Option<usize> = if state == ClientState::Reconnected {
            find_client(&self.clients, session_id)
        } else {
            find_last(&self.clients, session_id)
        };
        match at {
            Some(i) => {
                proof {
                    assert(before.clients[i as int] == self.clients@[i as int]@);
                }
                greet(&mut self.clients[i], state, token, serializer, &full);
                proof {
                    assert(self@.clients =~= before.clients.update(
                        i as int,
                        self.clients@[i as int]@,
                    ));
                }
            },
            None => {
                if let Some(k) = find_last(&self.departed, session_id) {
                    proof {
                        assert(before.departed[k as int] == self.departed@[k as int]@);
                    }
                    greet(&mut self.departed[k], state, token, serializer, &full);
                    proof {
                        assert(self@.departed =~= before.departed.update(
                            k as int,
                            self.departed@[k as int]@,
                        ));
                    }
                }
            },
        }
        self.note_arrival(session_id, state, &full);
        self.sync_listing();
    }

    /// Lets a client back in, once the room was told of it.
    pub fn reconnect_finish(&mut self, session_id: &str, token: String, projected: &Json)
        ensures
            final(self)@ == welcomed(
                old(self)@,
                session_id@,
                ClientState::Reconnected,
                token@,
                projected@,
            ),
    {
        self.welcome(session_id, ClientState::Reconnected, token, projected);
    }

    /// Turns a session's client away.
    fn turn_away(&mut self, session_id: &str, err: &ServerError)
        ensures
            final(self)@ == (ContextView {
                clients: without_session(old(self)@.clients, session_id@),
                departed: sent_off(old(self)@, session_id@, err@),
                ..old(self)@
            }),
    {
        let ghost before = self@;
        proof {
            lemma_last_index(before.clients, session_id@);
            lemma_without_session(before.clients, session_id@);
        }
        match find_last(&self.clients, session_id) {
            Some(i) => {
                proof {
                    assert(before.clients[i as int] == self.clients@[i as int]@);
                }
                self.clients[i].error(err.code, err.message.as_str());
                self.clients[i].leave(Some(close_codes::WITH_ERROR), Some(err.message.as_str()));
                proof {
                    let told = turned_away(before.clients[i as int], err@);
                    assert(self@.clients =~= before.clients.update(i as int, told));
                    lemma_without_update(before.clients, i as int, told, session_id@);
                }
                move_session(&mut self.clients, &mut self.departed, session_id);
            },
            None => {
                if let Some(k) = find_last(&self.departed, session_id) {
                    proof {
                        assert(before.departed[k as int] == self.departed@[k as int]@);
                    }
                    self.departed[k].error(err.code, err.message.as_str());
                    self.departed[k].leave(
                        Some(close_codes::WITH_ERROR),
                        Some(err.message.as_str()),
                    );
                    proof {
                        assert(self@.departed =~= before.departed.update(
                            k as int,
                            turned_away(before.departed[k as int], err@),
                        ));
                    }
                }
            },
        }
    }

    /// Lets a client in, or turns it away, once the room was told of it and has
    /// answered.
    pub fn join_finish(
        &mut self,
        session_id: &str,
        answer: Result<(), ServerError>,
        token: String,
        projected: &Json,
    ) -> (r: Result<(), ServerError>)
        ensures
            (final(self)@, outcome(r)) == join_finished(
                old(self)@,
                session_id@,
                outcome(answer),
                token@,
                projected@,
            ),
    {
        let ghost before = self@;
        self.reserved_seats.remove(session_id);
        let early: bool = match find_last(&self.clients, session_id) {
            Some(i) => {
                proof {
                    assert(before.clients[i as int] == self.clients@[i as int]@);
                }
                self.clients[i].state() == ClientState::Leaving
            },
            None => match find_last(&self.departed, session_id) {
                Some(k) => {
                    proof {
                        assert(before.departed[k as int] == self.departed@[k as int]@);
                    }
                    self.departed[k].state() == ClientState::Leaving
                },
                None => false,
            },
        };
        let err: ServerError = match answer {
            Ok(()) => {
                if !early {
                    self.had_clients = true;
                    self.welcome(session_id, ClientState::Joined, token, projected);
                    return Ok(());
                }
                ServerError::new(
                    codes::MATCHMAKE_UNHANDLED,
                    "client left during on_join".to_owned(),
                )
            },
            Err(e) => e,
        };
        self.turn_away(session_id, &err);
        self.sync_listing();
        Err(err)
    }

    /// Takes a client's message.
    pub fn message_begin(
        &mut self,
        session_id: &str,
        connection_id: &str,
        msg: ClientMessage,
        now: u64,
    ) -> (r: MessageStep)
        ensures
            (final(self)@, r@) == message_taken(
                old(self)@,
                session_id@,
                connection_id@,
                msg@,
                now,
            ),
    {
        let ghost before = self@;
        let i: usize = match find_client(&self.clients, session_id) {
            Some(i) => i,
            None => {
                return match msg {
                    ClientMessage::Ping => MessageStep::Pong,
                    _ => MessageStep::Done,
                };
            },
        };
        proof {
            assert(before.clients[i as int] == self.clients@[i as int]@);
        }
        if !same_text(self.clients[i].connection_id.as_str(), connection_id) {
            return MessageStep::Done;
        }
        match msg {
            ClientMessage::Ping => {
                let pong: Vec<u8> = protocol::ping();
                self.clients[i].raw_now(pong);
                proof {
                    assert(self@.clients =~= before.clients.update(
                        i as int,
                        self.clients@[i as int]@,
                    ));
                }
                MessageStep::Done
            },
            ClientMessage::Leave => {
                self.tap.log(
                    RoomEventLog::new("in", "leave").client(session_id),
                );
                MessageStep::Leave
            },
            ClientMessage::Data(t, payload) => {
                if !self.clients[i].is_joined() {
                    return MessageStep::Done;
                }
                if self.tap.open {
                    self.tap.log(
                        RoomEventLog::new("in", "message").client(
                            session_id,
                        ).msg_type(&t).payload(payload.clone()),
                    );
                }
                let max: Option<u32> = self.max_messages_per_second;
                let passes: bool = self.clients[i].check_rate(max, now);
                proof {
                    assert(self@.clients =~= before.clients.update(
                        i as int,
                        self.clients@[i as int]@,
                    ));
                }
                if passes {
                    MessageStep::Dispatch(t, payload)
                } else {
                    MessageStep::Done
                }
            },
            ClientMessage::DataBytes(t, payload) => {
                if !self.clients[i].is_joined() {
                    return MessageStep::Done;
                }
                let max: Option<u32> = self.max_messages_per_second;
                let passes: bool = self.clients[i].check_rate(max, now);
                proof {
                    assert(self@.clients =~= before.clients.update(
                        i as int,
                        self.clients@[i as int]@,
                    ));
                }
                if passes {
                    self.tap.log(
                        RoomEventLog::new("in", "bytes").client(
                            session_id,
                        ).msg_type(&t).bytes(payload.len()),
                    );
                    MessageStep::DispatchBytes(t, payload)
                } else {
                    MessageStep::Done
                }
            },
        }
    }

    /// Tells a client of an error that a handler gave.
    pub fn report_error(&mut self, session_id: &str, error: &ServerError)
        ensures
            final(self)@ == error_reported(old(self)@, session_id@, error@),
    {
        let ghost before = self@;
        match find_client(&self.clients, session_id) {
            Some(i) => {
                proof {
                    assert(before.clients[i as int] == self.clients@[i as int]@);
                }
                self.clients[i].error(error.code, error.message.as_str());
                proof {
                    assert(self@.clients =~= before.clients.update(
                        i as int,
                        self.clients@[i as int]@,
                    ));
                }
            },
            None => {
                if let Some(k) = find_last(&self.departed, session_id) {
                    proof {
                        assert(before.departed[k as int] == self.departed@[k as int]@);
                    }
                    self.departed[k].error(error.code, error.message.as_str());
                    proof {
                        assert(self@.departed =~= before.departed.update(
                            k as int,
                            self.departed@[k as int]@,
                        ));
                    }
                }
            },
        }
    }

    /// Whether a connection is the one that its session has in the room: a
    /// disconnect of any other is not heard.
    pub fn is_current(&self, session_id: &str, connection_id: &str) -> (r: bool)
        ensures
            r == (client_index(self@.clients, session_id@) matches Some(i)
                && self@.clients[i].connection_id == connection_id@),
    {
        match self.get_client(session_id) {
            Some(c) => same_text(c.connection_id.as_str(), connection_id),
            None => false,
        }
    }

    /// Begins a departure.
    pub fn leave_begin(&mut self, session_id: &str, code: u16, consented: bool) -> (r: LeaveStep)
        ensures
            (final(self)@, r) == leave_begun(old(self)@, session_id@, code, consented),
    {
        let ghost before = self@;
        match find_client(&self.clients, session_id) {
            None => LeaveStep::Done,
            Some(i) => {
                proof {
                    assert(before.clients[i as int] == self.clients@[i as int]@);
                }
                let state: ClientState = self.clients[i].state();
                if state == ClientState::Leaving || state == ClientState::Closed {
                    return LeaveStep::Done;
                }
                self.clients[i].set_state(ClientState::Leaving);
                proof {
                    assert(self@.clients =~= before.clients.update(
                        i as int,
                        self.clients@[i as int]@,
                    ));
                }
                if !consented && !self.disposing {
                    LeaveStep::Drop
                } else {
                    self.leave_settle(session_id, code)
                }
            },
        }
    }

    /// Goes on with a departure once the room was told of the drop.
    pub fn leave_settle(&mut self, session_id: &str, code: u16) -> (r: LeaveStep)
        ensures
            (final(self)@, r) == drop_settled(old(self)@, session_id@, code),
    {
        let ghost before = self@;
        match find_client(&self.clients, session_id) {
            None => match find_last(&self.departed, session_id) {
                Some(k) => {
                    proof {
                        assert(before.departed[k as int] == self.departed@[k as int]@);
                    }
                    let token: String = self.departed[k].reconnection_token();
                    if self.reconnections.contains(token.as_str()) {
                        self.departed[k].close_transport(code, "reconnecting");
                        proof {
                            assert(self@.departed =~= before.departed.update(
                                k as int,
                                self.departed@[k as int]@,
                            ));
                        }
                        LeaveStep::Done
                    } else {
                        LeaveStep::Leave
                    }
                },
                None => LeaveStep::Leave,
            },
            Some(i) => {
                proof {
                    assert(before.clients[i as int] == self.clients@[i as int]@);
                }
                let token: String = self.clients[i].reconnection_token();
                if self.reconnections.contains(token.as_str()) {
                    self.clients[i].close_transport(code, "reconnecting");
                    proof {
                        assert(self@.clients =~= before.clients.update(
                            i as int,
                            self.clients@[i as int]@,
                        ));
                    }
                    LeaveStep::Done
                } else {
                    LeaveStep::Leave
                }
            },
        }
    }

    /// Ends a departure, once the room was told of it.
    pub fn leave_finish(&mut self, session_id: &str, code: u16, consented: bool)
        ensures
            final(self)@ == leave_finished(old(self)@, session_id@, code, consented),
    {
        self.tap.log(
            RoomEventLog::new("sys", "leave").client(session_id).bytes(
                code as usize,
            ),
        );
        self.take_out(session_id, code, consented);
    }

    /// Ends the departure of a client that did not come back in time, once the room
    /// was told of it.
    pub fn expire_finish(&mut self, session_id: &str)
        ensures
            final(self)@ == taken_out(
                old(self)@,
                session_id@,
                close_codes::FAILED_TO_RECONNECT,
                false,
            ),
    {
        self.take_out(session_id, close_codes::FAILED_TO_RECONNECT, false);
    }

    fn take_out(&mut self, session_id: &str, code: u16, consented: bool)
        ensures
            final(self)@ == taken_out(old(self)@, session_id@, code, consented),
    {
        let ghost before = self@;
        proof {
            lemma_client_index(before.clients, session_id@);
            lemma_without_session(before.clients, session_id@);
        }
        match find_client(&self.clients, session_id) {
            Some(i) => {
                proof {
                    assert(before.clients[i as int] == self.clients@[i as int]@);
                }
                see_off(&mut self.clients[i], code, consented);
                proof {
                    let gone = gone_client(before.clients[i as int], code, consented);
                    assert(self@.clients =~= before.clients.update(i as int, gone));
                    lemma_without_update(before.clients, i as int, gone, session_id@);
                }
                move_session(&mut self.clients, &mut self.departed, session_id);
            },
            None => {
                if let Some(k) = find_last(&self.departed, session_id) {
                    proof {
                        assert(before.departed[k as int] == self.departed@[k as int]@);
                    }
                    see_off(&mut self.departed[k], code, consented);
                    proof {
                        assert(self@.departed =~= before.departed.update(
                            k as int,
                            gone_client(before.departed[k as int], code, consented),
                        ));
                    }
                }
            },
        }
        self.drop_view_snapshot(session_id);
        self.sync_listing();
    }
}

}
