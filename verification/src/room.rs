//! What a room can interact with: its clients, state, broadcasts, timers, seats
//! and listing.

use crate::client::{
    items_view, joined_state, sent, AfterPatchItem, Client, ClientState, ClientView, ItemView,
    TargetView,
};
use crate::diff::{edits, ops_view};
use crate::driver::{ListingView, RoomListing};
use crate::json::{entries_view, put_field, same, Json, JsonView};
use crate::protocol::{patch_frame, MessageType, TypeView};
use crate::query::{option_view, text_option};
use crate::routes::{Routes, RoutesView};
use crate::snapshot::PersistenceConfig;
use crate::state::StateSlot;
use crate::table::{table_get, table_remove, table_set, Table};
use crate::text::{signed_decimal, signed_text};
use crate::utils::{later, Clock};
use crate::wire::packed;
use vstd::prelude::*;

verus! {

/// How long a reserved seat waits for its client, unless the room says otherwise.
pub const SEAT_TIMEOUT_MS: u64 = 15000;

/// How often state patches are broadcast, unless the room says otherwise.
pub const PATCH_RATE_MS: u64 = 50;

/// How long a seat whose reconnection never expires is kept: a year.
pub const MANUAL_SEAT_MS: u64 = 31536000000;

/// A decoded room traffic event, streamed to admin panel subscribers.
#[derive(Debug)]
pub struct RoomEventLog {
    /// Wall-clock ms epoch.
    pub at: u64,
    /// "in" (client to room), "out" (room to client), or "sys" (lifecycle).
    pub direction: String,
    pub kind: String,
    pub client: Option<String>,
    pub msg_type: Option<String>,
    pub payload: Option<Json>,
    pub bytes: usize,
}

/// What a traffic event stands for.
pub struct LogView {
    pub at: u64,
    pub direction: Seq<char>,
    pub kind: Seq<char>,
    pub client: Option<Seq<char>>,
    pub msg_type: Option<Seq<char>>,
    pub payload: Option<JsonView>,
    pub bytes: usize,
}

impl View for RoomEventLog {
    type V = LogView;

    open spec fn view(&self) -> LogView {
        LogView {
            at: self.at,
            direction: self.direction@,
            kind: self.kind@,
            client: text_option(self.client),
            msg_type: text_option(self.msg_type),
            payload: option_view(self.payload),
            bytes: self.bytes,
        }
    }
}

/// A message identifier as text.
pub open spec fn type_text(t: TypeView) -> Seq<char> {
    match t {
        TypeView::Str(s) => s,
        TypeView::Num(n) => signed_decimal(n as int),
    }
}

/// A traffic event with nothing to tell but its kind, before the tap put its time
/// to it.
pub open spec fn plain_log(direction: Seq<char>, kind: Seq<char>) -> LogView {
    LogView { at: 0, direction, kind, client: None, msg_type: None, payload: None, bytes: 0 }
}

/// A traffic event about a session.
pub open spec fn session_log(
    direction: Seq<char>,
    kind: Seq<char>,
    session_id: Seq<char>,
) -> LogView {
    LogView { client: Some(session_id), ..plain_log(direction, kind) }
}

impl RoomEventLog {
    /// A traffic event. The tap that it is passed to puts its time to it.
    pub fn new(direction: &str, kind: &str) -> (r: Self)
        ensures
            r@ == plain_log(direction@, kind@),
    {
        RoomEventLog {
            at: 0,
            direction: direction.to_owned(),
            kind: kind.to_owned(),
            client: None,
            msg_type: None,
            payload: None,
            bytes: 0,
        }
    }

    pub fn client(self, session_id: &str) -> (r: Self)
        ensures
            r@ == (LogView { client: Some(session_id@), ..self@ }),
    {
        RoomEventLog { client: Some(session_id.to_owned()), ..self }
    }

    pub fn msg_type(self, t: &MessageType) -> (r: Self)
        ensures
            r@ == (LogView { msg_type: Some(type_text(t@)), ..self@ }),
    {
        let text: String = match t {
            MessageType::Str(s) => s.clone(),
            MessageType::Num(n) => signed_text(*n),
        };
        RoomEventLog { msg_type: Some(text), ..self }
    }

    pub fn payload(self, payload: Json) -> (r: Self)
        ensures
            r@ == (LogView { payload: Some(payload@), ..self@ }),
    {
        RoomEventLog { payload: Some(payload), ..self }
    }

    pub fn bytes(self, n: usize) -> (r: Self)
        ensures
            r@ == (LogView { bytes: n, ..self@ }),
    {
        RoomEventLog { bytes: n, ..self }
    }
}

/// A traffic event as it is streamed, with the time it happened at.
pub open spec fn log_json(e: LogView) -> JsonView {
    JsonView::Object(
        Map::<Seq<char>, JsonView>::empty().insert("at"@, JsonView::Int(e.at as int)).insert(
            "direction"@,
            JsonView::Str(e.direction),
        ).insert("kind"@, JsonView::Str(e.kind)).insert("client"@, text_or_null(e.client)).insert(
            "msgType"@,
            text_or_null(e.msg_type),
        ).insert(
            "payload"@,
            match e.payload {
                Some(v) => v,
                None => JsonView::Null,
            },
        ).insert("bytes"@, JsonView::Int(e.bytes as int)),
    )
}

pub open spec fn text_or_null(t: Option<Seq<char>>) -> JsonView {
    match t {
        Some(t) => JsonView::Str(t),
        None => JsonView::Null,
    }
}

fn opt_text(t: &Option<String>) -> (r: Json)
    ensures
        r@ == text_or_null(text_option(*t)),
{
    match t {
        Some(t) => Json::Str(t.clone()),
        None => Json::Null,
    }
}

impl RoomEventLog {
    /// The event as it is streamed.
    pub fn to_json(&self) -> (r: Json)
        ensures
            r@ == log_json(self@),
    {
        let payload: Json = match &self.payload {
            Some(v) => v.clone(),
            None => Json::Null,
        };
        let mut es: Vec<(String, Json)> = Vec::new();
        put_field(&mut es, "at", Json::Uint(self.at));
        put_field(&mut es, "direction", Json::Str(self.direction.clone()));
        put_field(&mut es, "kind", Json::Str(self.kind.clone()));
        put_field(&mut es, "client", opt_text(&self.client));
        put_field(&mut es, "msgType", opt_text(&self.msg_type));
        put_field(&mut es, "payload", payload);
        put_field(&mut es, "bytes", Json::Uint(self.bytes as u64));
        Json::Object(es)
    }
}

/// The room's traffic, for whoever listens in.
#[derive(Debug)]
pub struct EventTap {
    /// Whether anybody listens in. Otherwise nothing is recorded.
    pub open: bool,
    /// The time that events happen at (wall-clock ms epoch), as it was last told.
    pub at: u64,
    /// Events to be passed on to the listeners, in order.
    pub events: Vec<RoomEventLog>,
}

/// What a tap stands for.
pub struct TapView {
    pub open: bool,
    pub at: u64,
    pub events: Seq<LogView>,
}

/// Traffic events, read through their views.
pub open spec fn log_views(v: Seq<RoomEventLog>) -> Seq<LogView> {
    v.map_values(|e: RoomEventLog| e@)
}

impl View for EventTap {
    type V = TapView;

    open spec fn view(&self) -> TapView {
        TapView { open: self.open, at: self.at, events: log_views(self.events@) }
    }
}

/// The tap after an event, which happened at the tap's time.
pub open spec fn logged(tap: TapView, e: LogView) -> TapView {
    TapView {
        events: if tap.open {
            tap.events.push(LogView { at: tap.at, ..e })
        } else {
            tap.events
        },
        ..tap
    }
}

impl EventTap {
    /// A tap that nobody listens to.
    pub fn new() -> (r: Self)
        ensures
            r@ == (TapView { open: false, at: 0, events: seq![] }),
    {
        let r = EventTap { open: false, at: 0, events: Vec::new() };
        proof {
            assert(r@.events =~= seq![]);
        }
        r
    }

    /// Tells the tap what is the time, and whether anybody listens in.
    pub fn tell(&mut self, open: bool, sys_now: u64)
        ensures
            final(self)@ == (TapView { open, at: sys_now, ..old(self)@ }),
    {
        self.open = open;
        self.at = sys_now;
    }

    /// Passes an event on to whoever listens in, with the time it happened at.
    pub fn log(&mut self, e: RoomEventLog)
        ensures
            final(self)@ == logged(old(self)@, e@),
    {
        if self.open {
            let ghost before = self.events@;
            let stamped = RoomEventLog { at: self.at, ..e };
            self.events.push(stamped);
            proof {
                assert(log_views(self.events@) =~= log_views(before).push(stamped@));
            }
        }
    }
}

/// A seat reserved via matchmaking, waiting for the client to connect.
#[derive(Debug)]
pub struct ReservedSeat {
    pub options: Json,
    pub auth: Option<Json>,
    pub consumed: bool,
    pub waiting_reconnection: bool,
    pub expires_at: u64,
}

/// What a reserved seat stands for.
pub struct SeatState {
    pub options: JsonView,
    pub auth: Option<JsonView>,
    pub consumed: bool,
    pub waiting_reconnection: bool,
    pub expires_at: u64,
}

impl View for ReservedSeat {
    type V = SeatState;

    open spec fn view(&self) -> SeatState {
        SeatState {
            options: self.options@,
            auth: option_view(self.auth),
            consumed: self.consumed,
            waiting_reconnection: self.waiting_reconnection,
            expires_at: self.expires_at,
        }
    }
}

/// A client allowed to reconnect.
#[derive(Debug)]
pub struct ReconnectionEntry {
    pub session_id: String,
    pub client: Client,
    /// `None` means that it never expires on its own.
    pub expires_at: Option<u64>,
}

/// What a reconnection entry stands for.
pub struct EntryView {
    pub session_id: Seq<char>,
    pub client: ClientView,
    pub expires_at: Option<u64>,
}

impl View for ReconnectionEntry {
    type V = EntryView;

    open spec fn view(&self) -> EntryView {
        EntryView {
            session_id: self.session_id@,
            client: self.client@,
            expires_at: self.expires_at,
        }
    }
}

/// Options for broadcasting.
#[derive(Debug)]
pub struct BroadcastOptions {
    /// Skip this session when broadcasting.
    pub except: Option<String>,
    /// Defer delivery until right after the next state patch broadcast.
    pub after_next_patch: bool,
}

impl Default for BroadcastOptions {
    fn default() -> (r: Self)
        ensures
            r.except is None,
            !r.after_next_patch,
    {
        BroadcastOptions { except: None, after_next_patch: false }
    }
}

/// A timer that waits for its time.
#[derive(Debug, Clone, Copy)]
pub struct TimerEntry {
    pub id: u64,
    pub at: u64,
}

/// Everything that the framework keeps for a room.
pub struct RoomContext {
    pub room_id: String,
    pub room_name: String,
    pub process_id: String,
    /// Wall-clock ms epoch.
    pub created_at: u64,
    pub clients: Vec<Client>,
    /// Clients that are no longer in the room, for what their transports are
    /// still to be handed.
    pub departed: Vec<Client>,
    pub state_slot: Option<StateSlot>,
    /// Private, server-only state.
    pub internal: Option<Json>,
    /// Room clock; ticked by the framework.
    pub clock: Clock,
    /// Dispose the room when the last client leaves.
    pub auto_dispose: bool,
    /// Per-client incoming message rate limit.
    pub max_messages_per_second: Option<u32>,
    /// How long a reserved seat waits for its client to connect.
    pub seat_reservation_timeout: u64,
    pub patch_rate: Option<u64>,
    pub sim_interval: Option<u64>,
    pub max_clients: Option<u32>,
    pub locked: bool,
    pub is_private: bool,
    pub metadata: Option<Json>,
    pub reserved_seats: Table<ReservedSeat>,
    /// By reconnection token.
    pub reconnections: Table<ReconnectionEntry>,
    /// Whether each client sees its own projection of the state.
    pub view_filter: bool,
    /// What each session's client was last told, by session id.
    pub view_snapshots: Vec<(String, Json)>,
    pub after_patch: Vec<AfterPatchItem>,
    pub timers: Vec<TimerEntry>,
    pub next_timer_id: u64,
    pub request_dispose: Option<u16>,
    pub disposing: bool,
    pub had_clients: bool,
    pub filter_extra: Vec<(String, Json)>,
    /// Listings to be passed on to the driver and the lobby, in order.
    pub updates: Vec<RoomListing>,
    pub create_options: Json,
    pub schema_version: u32,
    pub persistence: Option<PersistenceConfig>,
    /// Traffic, for whoever listens in.
    pub tap: EventTap,
    /// Who handles which messages.
    pub routes: Routes,
}

/// What a room's context stands for.
pub struct ContextView {
    pub room_id: Seq<char>,
    pub room_name: Seq<char>,
    pub process_id: Seq<char>,
    pub created_at: u64,
    pub clients: Seq<ClientView>,
    pub departed: Seq<ClientView>,
    /// The state as it is, and as clients were last told of it.
    pub state: Option<(JsonView, JsonView)>,
    pub internal: Option<JsonView>,
    pub clock_started: u128,
    pub clock_base: u128,
    pub clock_shown: u128,
    pub auto_dispose: bool,
    pub max_rate: Option<u32>,
    pub seat_timeout: u64,
    pub patch_rate: Option<u64>,
    pub sim_interval: Option<u64>,
    pub max_clients: Option<u32>,
    pub locked: bool,
    pub is_private: bool,
    pub metadata: Option<JsonView>,
    pub seats: Seq<(Seq<char>, SeatState)>,
    pub reconnections: Seq<(Seq<char>, EntryView)>,
    pub view_filter: bool,
    pub view_snapshots: Map<Seq<char>, JsonView>,
    pub after_patch: Seq<ItemView>,
    pub timers: Seq<TimerEntry>,
    pub next_timer_id: u64,
    pub request_dispose: Option<u16>,
    pub disposing: bool,
    pub had_clients: bool,
    pub filter_extra: Map<Seq<char>, JsonView>,
    pub updates: Seq<ListingView>,
    pub create_options: JsonView,
    pub schema_version: u32,
    pub persistence: Option<PersistenceConfig>,
    pub tap: TapView,
    pub routes: RoutesView,
}

/// Clients, read through their views.
pub open spec fn client_views(v: Seq<Client>) -> Seq<ClientView> {
    v.map_values(|c: Client| c@)
}

/// Listings, read through their views.
pub open spec fn update_views(v: Seq<RoomListing>) -> Seq<ListingView> {
    v.map_values(|l: RoomListing| l@)
}

/// A state slot, read through what it tells.
pub open spec fn slot_view(s: Option<StateSlot>) -> Option<(JsonView, JsonView)> {
    match s {
        Some(slot) => Some((slot.current(), slot.told())),
        None => None,
    }
}

impl View for RoomContext {
    type V = ContextView;

    open spec fn view(&self) -> ContextView {
        ContextView {
            room_id: self.room_id@,
            room_name: self.room_name@,
            process_id: self.process_id@,
            created_at: self.created_at,
            clients: client_views(self.clients@),
            departed: client_views(self.departed@),
            state: slot_view(self.state_slot),
            internal: option_view(self.internal),
            clock_started: self.clock.started(),
            clock_base: self.clock.base(),
            clock_shown: self.clock.shown(),
            auto_dispose: self.auto_dispose,
            max_rate: self.max_messages_per_second,
            seat_timeout: self.seat_reservation_timeout,
            patch_rate: self.patch_rate,
            sim_interval: self.sim_interval,
            max_clients: self.max_clients,
            locked: self.locked,
            is_private: self.is_private,
            metadata: option_view(self.metadata),
            seats: self.reserved_seats@,
            reconnections: self.reconnections@,
            view_filter: self.view_filter,
            view_snapshots: entries_view(self.view_snapshots@),
            after_patch: items_view(self.after_patch@),
            timers: self.timers@,
            next_timer_id: self.next_timer_id,
            request_dispose: self.request_dispose,
            disposing: self.disposing,
            had_clients: self.had_clients,
            filter_extra: entries_view(self.filter_extra@),
            updates: update_views(self.updates@),
            create_options: self.create_options@,
            schema_version: self.schema_version,
            persistence: self.persistence,
            tap: self.tap@,
            routes: self.routes@,
        }
    }
}

// ---------------------------------------------------------------------
// clients
// ---------------------------------------------------------------------

/// The place of the first client of a session.
pub open spec fn client_index(cs: Seq<ClientView>, session_id: Seq<char>) -> Option<int>
    decreases cs.len(),
{
    if cs.len() == 0 {
        None
    } else {
        match client_index(cs.drop_last(), session_id) {
            Some(i) => Some(i),
            None => if cs.last().session_id == session_id {
                Some(cs.len() - 1)
            } else {
                None
            },
        }
    }
}

/// The place of the last client of a session.
pub open spec fn last_index(cs: Seq<ClientView>, session_id: Seq<char>) -> Option<int>
    decreases cs.len(),
{
    if cs.len() == 0 {
        None
    } else if cs.last().session_id == session_id {
        Some(cs.len() - 1)
    } else {
        last_index(cs.drop_last(), session_id)
    }
}

/// The clients of other sessions.
pub open spec fn without_session(cs: Seq<ClientView>, session_id: Seq<char>) -> Seq<ClientView>
    decreases cs.len(),
{
    if cs.len() == 0 {
        cs
    } else if cs.last().session_id == session_id {
        without_session(cs.drop_last(), session_id)
    } else {
        without_session(cs.drop_last(), session_id).push(cs.last())
    }
}

/// The clients of a session.
pub open spec fn of_session(cs: Seq<ClientView>, session_id: Seq<char>) -> Seq<ClientView>
    decreases cs.len(),
{
    if cs.len() == 0 {
        cs
    } else if cs.last().session_id == session_id {
        of_session(cs.drop_last(), session_id).push(cs.last())
    } else {
        of_session(cs.drop_last(), session_id)
    }
}

/// Each session has one client at most.
pub open spec fn unique_sessions(cs: Seq<ClientView>) -> bool {
    forall|i: int, j: int|
        0 <= i < j < cs.len() ==> (#[trigger] cs[i]).session_id != (#[trigger] cs[j]).session_id
}

/// The first place of a session is where it stands, and before it it does not
/// stand.
pub proof fn lemma_client_index(cs: Seq<ClientView>, session_id: Seq<char>)
    ensures
        client_index(cs, session_id) matches Some(i) ==> 0 <= i < cs.len() && cs[i].session_id
            == session_id && forall|j: int|
            0 <= j < i ==> (#[trigger] cs[j]).session_id != session_id,
        client_index(cs, session_id) is None <==> forall|j: int|
            0 <= j < cs.len() ==> (#[trigger] cs[j]).session_id != session_id,
    decreases cs.len(),
{
    if cs.len() > 0 {
        let init = cs.drop_last();
        lemma_client_index(init, session_id);
        match client_index(init, session_id) {
            Some(i) => {
                assert(cs[i].session_id == session_id);
                assert forall|j: int| 0 <= j < i implies (#[trigger] cs[j]).session_id
                    != session_id by {
                    assert(init[j].session_id != session_id);
                }
            },
            None => {
                assert forall|j: int| 0 <= j < cs.len() - 1 implies (#[trigger] cs[j]).session_id
                    != session_id by {
                    assert(init[j].session_id != session_id);
                }
                if cs.last().session_id == session_id {
                    assert(cs[cs.len() - 1].session_id == session_id);
                } else {
                    assert forall|j: int| 0 <= j < cs.len() implies (#[trigger] cs[j]).session_id
                        != session_id by {
                        if j < cs.len() - 1 {
                            assert(init[j].session_id != session_id);
                        }
                    }
                }
            },
        }
    }
}

/// Nobody of the session is left, and everybody else is.
pub proof fn lemma_without_session(cs: Seq<ClientView>, session_id: Seq<char>)
    ensures
        client_index(without_session(cs, session_id), session_id) is None,
        without_session(cs, session_id).len() <= cs.len(),
        forall|i: int|
            0 <= i < without_session(cs, session_id).len() ==> cs.contains(
                #[trigger] without_session(cs, session_id)[i],
            ),
        forall|i: int|
            0 <= i < cs.len() && (#[trigger] cs[i]).session_id != session_id ==> without_session(
                cs,
                session_id,
            ).contains(cs[i]),
        client_index(cs, session_id) is None ==> without_session(cs, session_id) == cs,
    decreases cs.len(),
{
    if cs.len() > 0 {
        let init = cs.drop_last();
        lemma_without_session(init, session_id);
        let t = without_session(init, session_id);
        let u = without_session(cs, session_id);
        lemma_client_index(t, session_id);
        lemma_client_index(u, session_id);
        lemma_client_index(cs, session_id);
        lemma_client_index(init, session_id);
        assert forall|j: int| 0 <= j < u.len() implies (#[trigger] u[j]).session_id
            != session_id by {
            if j < t.len() {
                assert(t[j].session_id != session_id);
            }
        }
        assert forall|i: int| 0 <= i < u.len() implies cs.contains(#[trigger] u[i]) by {
            if i < t.len() {
                assert(init.contains(t[i]));
                let j = choose|j: int| 0 <= j < init.len() && init[j] == t[i];
                assert(cs[j] == u[i]);
            } else {
                assert(cs[cs.len() - 1] == u[i]);
            }
        }
        assert forall|i: int|
            0 <= i < cs.len() && (#[trigger] cs[i]).session_id != session_id implies u.contains(
            cs[i],
        ) by {
            if i < init.len() {
                assert(init[i].session_id != session_id);
                assert(t.contains(init[i]));
                let j = choose|j: int| 0 <= j < t.len() && t[j] == init[i];
                assert(u[j] == cs[i]);
            } else {
                assert(u[u.len() - 1] == cs[i]);
            }
        }
        if client_index(cs, session_id) is None {
            assert(cs[cs.len() - 1].session_id != session_id);
            assert forall|j: int| 0 <= j < init.len() implies (#[trigger] init[j]).session_id
                != session_id by {
                assert(cs[j].session_id != session_id);
            }
            assert(u =~= cs);
        }
    }
}

/// The clients after a frame went to each one that has joined, but for one
/// session.
pub open spec fn sent_to_all(
    cs: Seq<ClientView>,
    bytes: Seq<u8>,
    except: Option<Seq<char>>,
) -> Seq<ClientView> {
    cs.map_values(
        |c: ClientView|
            if joined_state(c.state) && except != Some(c.session_id) {
                sent(c, bytes)
            } else {
                c
            },
    )
}

/// The clients after one deferred message was handed on.
pub open spec fn item_handed_on(cs: Seq<ClientView>, item: ItemView) -> Seq<ClientView> {
    match item.target {
        TargetView::Client(sid) => match client_index(cs, sid) {
            Some(i) => if joined_state(cs[i].state) {
                cs.update(i, sent(cs[i], item.bytes))
            } else {
                cs
            },
            None => cs,
        },
        TargetView::Broadcast(except) => sent_to_all(cs, item.bytes, except),
    }
}

/// The clients after deferred messages were handed on, in order.
pub open spec fn items_handed_on(cs: Seq<ClientView>, items: Seq<ItemView>) -> Seq<ClientView>
    decreases items.len(),
{
    if items.len() == 0 {
        cs
    } else {
        item_handed_on(items_handed_on(cs, items.drop_last()), items.last())
    }
}

// ---------------------------------------------------------------------
// seats and listing
// ---------------------------------------------------------------------

/// A seat that still waits for its first client.
pub open spec fn is_pending(s: SeatState) -> bool {
    !s.consumed && !s.waiting_reconnection
}

/// How many seats still wait for their first client.
pub open spec fn pending_seats(s: Seq<(Seq<char>, SeatState)>) -> nat
    decreases s.len(),
{
    if s.len() == 0 {
        0
    } else {
        pending_seats(s.drop_last()) + if is_pending(s.last().1) {
            1nat
        } else {
            0nat
        }
    }
}

/// The clients that a listing counts: those in the room and those on their way.
pub open spec fn occupancy(c: ContextView) -> nat {
    c.clients.len() + pending_seats(c.seats)
}

/// The number of clients as listings give it.
pub open spec fn listed_clients(c: ContextView) -> u32 {
    (occupancy(c) % 0x1_0000_0000) as u32
}

/// The room's listing.
pub open spec fn listing_of(c: ContextView) -> ListingView {
    ListingView {
        room_id: c.room_id,
        name: c.room_name,
        process_id: c.process_id,
        clients: listed_clients(c),
        max_clients: c.max_clients,
        locked: c.locked,
        is_private: c.is_private,
        metadata: c.metadata,
        created_at: c.created_at,
        extra: c.filter_extra,
    }
}

/// The context after its listing was passed on.
pub open spec fn synced(c: ContextView) -> ContextView {
    ContextView { updates: c.updates.push(listing_of(c)), ..c }
}

/// The room takes no more clients.
pub open spec fn is_full(c: ContextView) -> bool {
    c.max_clients matches Some(max) && listed_clients(c) >= max
}

/// Whether a client may be allowed to reconnect: not while the room is being
/// disposed, nor without a token, nor twice.
pub open spec fn may_wait(c: ContextView, client: ClientView) -> bool {
    !c.disposing && client.reconnection_token.len() > 0 && table_get(
        c.reconnections,
        client.reconnection_token,
    ) is None
}

/// A client that may come back.
pub open spec fn waiting_client(client: ClientView) -> ClientView {
    ClientView { state: ClientState::Reconnecting, ..client }
}

/// The context after a client's token and seat were kept for its reconnection.
pub open spec fn seat_held(
    c: ContextView,
    client: ClientView,
    timeout: Option<u64>,
    now: u64,
) -> ContextView {
    let expires_at = match timeout {
        Some(d) => Some(later(now, d)),
        None => None,
    };
    let kept = ClientView { pending: seq![], outbox: seq![], ..waiting_client(client) };
    ContextView {
        reconnections: table_set(
            c.reconnections,
            client.reconnection_token,
            EntryView { session_id: client.session_id, client: kept, expires_at },
        ),
        seats: table_set(
            c.seats,
            client.session_id,
            SeatState {
                options: JsonView::Null,
                auth: client.auth,
                consumed: false,
                waiting_reconnection: true,
                expires_at: match expires_at {
                    Some(t) => t,
                    None => later(now, MANUAL_SEAT_MS),
                },
            },
        ),
        ..c
    }
}

/// The context after the client at a place was allowed to reconnect, and whether it
/// was.
pub open spec fn reconnection_allowed(
    c: ContextView,
    i: int,
    timeout: Option<u64>,
    now: u64,
) -> (ContextView, bool) {
    let client = c.clients[i];
    if may_wait(c, client) {
        (
            ContextView {
                clients: c.clients.update(i, waiting_client(client)),
                ..seat_held(c, client, timeout, now)
            },
            true,
        )
    } else {
        (c, false)
    }
}

/// The context after a session's client was allowed to reconnect, and whether it
/// was: the one in the room or, where the room forgot it, the last that left.
pub open spec fn session_allowed(
    c: ContextView,
    session_id: Seq<char>,
    timeout: Option<u64>,
    now: u64,
) -> (ContextView, bool) {
    match client_index(c.clients, session_id) {
        Some(i) => reconnection_allowed(c, i, timeout, now),
        None => match last_index(c.departed, session_id) {
            Some(k) => if may_wait(c, c.departed[k]) {
                (
                    ContextView {
                        departed: c.departed.update(k, waiting_client(c.departed[k])),
                        ..seat_held(c, c.departed[k], timeout, now)
                    },
                    true,
                )
            } else {
                (c, false)
            },
            None => (c, false),
        },
    }
}

/// The reconnections of other sessions.
pub open spec fn without_entries(s: Seq<(Seq<char>, EntryView)>, session_id: Seq<char>) -> Seq<
    (Seq<char>, EntryView),
>
    decreases s.len(),
{
    if s.len() == 0 {
        s
    } else if s.last().1.session_id == session_id {
        without_entries(s.drop_last(), session_id)
    } else {
        without_entries(s.drop_last(), session_id).push(s.last())
    }
}

/// The context after a client was forgotten: it is in no list of the room.
pub open spec fn forgotten(c: ContextView, session_id: Seq<char>) -> ContextView {
    synced(
        ContextView {
            clients: without_session(c.clients, session_id),
            departed: c.departed + of_session(c.clients, session_id),
            reconnections: without_entries(c.reconnections, session_id),
            seats: table_remove(c.seats, session_id),
            view_snapshots: c.view_snapshots.remove(session_id),
            ..c
        },
    )
}

// ---------------------------------------------------------------------
// patches
// ---------------------------------------------------------------------

/// The JSON-Patch from one document to another.
pub open spec fn patch_of(from: JsonView, to: JsonView) -> JsonView {
    JsonView::Array(ops_view(seq![], edits(from, to)))
}

/// What one client was told before: its own snapshot, or, for one that has none,
/// what it sees now.
pub open spec fn told_before(snaps: Map<Seq<char>, JsonView>, c: ClientView, view: JsonView) -> JsonView {
    if snaps.dom().contains(c.session_id) {
        snaps[c.session_id]
    } else {
        view
    }
}

/// One client after its own projection was compared with what it was told.
pub open spec fn view_patched(c: ClientView, told: JsonView, view: JsonView) -> ClientView {
    if joined_state(c.state) && !same(told, view) {
        sent(c, packed(patch_frame(patch_of(told, view))))
    } else {
        c
    }
}

/// What the first `n` clients were told, after their projections were compared.
pub open spec fn view_snaps(
    snaps: Map<Seq<char>, JsonView>,
    cs: Seq<ClientView>,
    views: Seq<JsonView>,
    n: nat,
) -> Map<Seq<char>, JsonView>
    decreases n,
{
    if n == 0 {
        snaps
    } else {
        let before = view_snaps(snaps, cs, views, (n - 1) as nat);
        let c = cs[n - 1];
        let view = views[n - 1];
        let told = told_before(before, c, view);
        if !joined_state(c.state) {
            before
        } else if same(told, view) {
            before.insert(c.session_id, told)
        } else {
            before.insert(c.session_id, view)
        }
    }
}

/// The clients after the first `n` projections were compared.
pub open spec fn view_clients(
    snaps: Map<Seq<char>, JsonView>,
    cs: Seq<ClientView>,
    views: Seq<JsonView>,
    n: nat,
) -> Seq<ClientView> {
    Seq::new(
        cs.len(),
        |i: int|
            if 0 <= i < n {
                view_patched(
                    cs[i],
                    told_before(view_snaps(snaps, cs, views, i as nat), cs[i], views[i]),
                    views[i],
                )
            } else {
                cs[i]
            },
    )
}

/// Whether one of the first `n` projections changed.
pub open spec fn view_changed(
    snaps: Map<Seq<char>, JsonView>,
    cs: Seq<ClientView>,
    views: Seq<JsonView>,
    n: nat,
) -> bool
    decreases n,
{
    if n == 0 {
        false
    } else {
        let before = view_snaps(snaps, cs, views, (n - 1) as nat);
        view_changed(snaps, cs, views, (n - 1) as nat) || (joined_state(cs[n - 1].state) && !same(
            told_before(before, cs[n - 1], views[n - 1]),
            views[n - 1],
        ))
    }
}

/// A patch that went out, to one session or to all.
pub open spec fn patch_log(session_id: Option<Seq<char>>, patch: JsonView) -> LogView {
    LogView { client: session_id, payload: Some(patch), ..plain_log("out"@, "state_patch"@) }
}

/// The tap after the first `n` projections were compared.
pub open spec fn view_tap(
    tap: TapView,
    snaps: Map<Seq<char>, JsonView>,
    cs: Seq<ClientView>,
    views: Seq<JsonView>,
    n: nat,
) -> TapView
    decreases n,
{
    if n == 0 {
        tap
    } else {
        let before = view_tap(tap, snaps, cs, views, (n - 1) as nat);
        let c = cs[n - 1];
        let told = told_before(view_snaps(snaps, cs, views, (n - 1) as nat), c, views[n - 1]);
        if joined_state(c.state) && !same(told, views[n - 1]) {
            logged(before, patch_log(Some(c.session_id), patch_of(told, views[n - 1])))
        } else {
            before
        }
    }
}

/// The context after the changes of the state went out to the clients, and
/// whether there were any: one patch for all, or with a view filter one for each
/// from what it was told to its own projection.
pub open spec fn state_patched(c: ContextView, views: Seq<JsonView>) -> (ContextView, bool) {
    match c.state {
        None => (c, false),
        Some((current, told)) => if c.view_filter {
            let n = c.clients.len();
            (
                ContextView {
                    clients: view_clients(c.view_snapshots, c.clients, views, n),
                    view_snapshots: view_snaps(c.view_snapshots, c.clients, views, n),
                    tap: view_tap(c.tap, c.view_snapshots, c.clients, views, n),
                    ..c
                },
                view_changed(c.view_snapshots, c.clients, views, n),
            )
        } else if same(told, current) {
            (c, false)
        } else {
            (
                ContextView {
                    clients: sent_to_all(
                        c.clients,
                        packed(patch_frame(patch_of(told, current))),
                        None,
                    ),
                    state: Some((current, current)),
                    tap: logged(c.tap, patch_log(None, patch_of(told, current))),
                    ..c
                },
                true,
            )
        },
    }
}

/// The context after deferred messages were handed on.
pub open spec fn deferred_sent(c: ContextView) -> ContextView {
    ContextView {
        clients: items_handed_on(c.clients, c.after_patch),
        after_patch: seq![],
        ..c
    }
}

/// Every client's projection, taken alone: what one client is sent depends on its
/// own projection and on what it was told itself, and on nobody else's.
pub proof fn law_view_patches_are_own(
    snaps: Map<Seq<char>, JsonView>,
    cs: Seq<ClientView>,
    views: Seq<JsonView>,
    i: int,
)
    requires
        unique_sessions(cs),
        views.len() == cs.len(),
        0 <= i < cs.len(),
    ensures
        view_clients(snaps, cs, views, cs.len())[i] == view_patched(
            cs[i],
            told_before(snaps, cs[i], views[i]),
            views[i],
        ),
{
    lemma_snaps_untouched(snaps, cs, views, i as nat, cs[i].session_id);
}

proof fn lemma_snaps_untouched(
    snaps: Map<Seq<char>, JsonView>,
    cs: Seq<ClientView>,
    views: Seq<JsonView>,
    n: nat,
    sid: Seq<char>,
)
    requires
        n <= cs.len(),
        forall|k: int| 0 <= k < n ==> (#[trigger] cs[k]).session_id != sid,
    ensures
        view_snaps(snaps, cs, views, n).dom().contains(sid) == snaps.dom().contains(sid),
        snaps.dom().contains(sid) ==> view_snaps(snaps, cs, views, n)[sid] == snaps[sid],
    decreases n,
{
    if n > 0 {
        lemma_snaps_untouched(snaps, cs, views, (n - 1) as nat, sid);
        assert(cs[n - 1].session_id != sid);
    }
}

/// After the changes of a shared state went out there is nothing more to tell.
pub proof fn law_patch_settles(c: ContextView)
    requires
        !c.view_filter,
    ensures
        !state_patched(state_patched(c, seq![]).0, seq![]).1,
{
}

}
