//! What rooms do with their context.

use crate::client::{
    copy_bytes, delivered, items_view, send_logged, sent, sent_log, AfterPatchItem,
    AfterPatchTarget, Client, ClientState, ClientView, ItemView, TargetView,
};
use crate::diff::diff;
use crate::driver::RoomListing;
use crate::events::lock_set;
use crate::json::{
    clone_entries, entries_view, lookup, remove_entry, set_entry, values_view, Json, JsonView,
};
use crate::protocol;
use crate::protocol::{data_frame, type_json, MessageType, TypeView};
use crate::query::{clone_option, is_blank, option_view, ref_view, text_option};
use crate::room::{
    client_index, client_views, deferred_sent, forgotten, is_full, item_handed_on, items_handed_on,
    last_index, lemma_client_index, lemma_without_session, listed_clients, listing_of, logged,
    of_session, pending_seats, plain_log, reconnection_allowed, seat_held, sent_to_all,
    session_allowed, state_patched, synced, told_before, type_text, update_views, view_changed,
    view_clients, view_snaps, view_tap, waiting_client, without_entries, without_session,
    BroadcastOptions, ContextView, EntryView, EventTap, LogView, ReconnectionEntry, ReservedSeat,
    RoomContext, RoomEventLog, TapView, TimerEntry, MANUAL_SEAT_MS, PATCH_RATE_MS, SEAT_TIMEOUT_MS,
};
use crate::routes::{no_routes, Routes};
use crate::snapshot::PersistenceConfig;
use crate::state::{StateSlot, JSON_PATCH_SERIALIZER_ID, NONE_SERIALIZER_ID};
use crate::table::{lemma_table_remove, table_get, Table};
use crate::text::same_text;
use crate::utils::{add_time, later, Clock};
use crate::wire::{packed, packed_triple};
use vstd::prelude::*;

verus! {

/// The context of a room that was just made.
pub open spec fn fresh_context(
    room_id: Seq<char>,
    room_name: Seq<char>,
    process_id: Seq<char>,
    created_at: u64,
    filter_extra: Map<Seq<char>, JsonView>,
    persistence: Option<PersistenceConfig>,
    now: u128,
) -> ContextView {
    ContextView {
        room_id,
        room_name,
        process_id,
        created_at,
        clients: seq![],
        departed: seq![],
        state: None,
        internal: None,
        clock_started: now,
        clock_base: 0,
        clock_shown: 0,
        auto_dispose: true,
        max_rate: None,
        seat_timeout: SEAT_TIMEOUT_MS,
        patch_rate: Some(PATCH_RATE_MS),
        sim_interval: None,
        max_clients: None,
        locked: false,
        is_private: false,
        metadata: None,
        seats: seq![],
        reconnections: seq![],
        view_filter: false,
        view_snapshots: Map::empty(),
        after_patch: seq![],
        timers: seq![],
        next_timer_id: 0,
        request_dispose: None,
        disposing: false,
        had_clients: false,
        filter_extra,
        updates: seq![],
        create_options: JsonView::Null,
        schema_version: 0,
        persistence,
        tap: TapView { open: false, at: 0, events: seq![] },
        routes: no_routes(),
    }
}

/// A message that went to everybody.
pub open spec fn broadcast_log(t: TypeView, message: JsonView) -> LogView {
    LogView {
        msg_type: Some(type_text(t)),
        payload: Some(message),
        ..plain_log("out"@, "broadcast"@)
    }
}

/// A binary message that went to everybody.
pub open spec fn bytes_broadcast_log(t: TypeView, n: usize) -> LogView {
    LogView { msg_type: Some(type_text(t)), bytes: n, ..plain_log("out"@, "broadcast"@) }
}

/// The context after a message went to every client that has joined.
pub open spec fn broadcasted(c: ContextView, t: TypeView, message: JsonView) -> ContextView {
    ContextView {
        clients: sent_to_all(c.clients, packed(data_frame(t, message)), None),
        tap: logged(c.tap, broadcast_log(t, message)),
        ..c
    }
}

/// The context after a message went to everybody but one, now or behind the next patch.
pub open spec fn broadcasted_with(
    c: ContextView,
    t: TypeView,
    message: JsonView,
    except: Option<Seq<char>>,
    after_next_patch: bool,
) -> ContextView {
    let bytes = packed(data_frame(t, message));
    let noted = ContextView { tap: logged(c.tap, broadcast_log(t, message)), ..c };
    if after_next_patch {
        ContextView {
            after_patch: c.after_patch.push(
                ItemView { target: TargetView::Broadcast(except), bytes },
            ),
            ..noted
        }
    } else {
        ContextView { clients: sent_to_all(c.clients, bytes, except), ..noted }
    }
}

/// The context after raw bytes went to everybody.
pub open spec fn bytes_broadcasted(c: ContextView, t: TypeView, payload: Seq<u8>) -> ContextView {
    ContextView {
        clients: sent_to_all(
            c.clients,
            packed_triple(protocol::code::ROOM_DATA_BYTES, type_json(t), payload),
            None,
        ),
        tap: logged(c.tap, bytes_broadcast_log(t, payload.len() as usize)),
        ..c
    }
}

/// The context after a timer was set.
pub open spec fn timeout_set(c: ContextView, delay: u64, now: u64) -> ContextView {
    let id = (c.next_timer_id + 1) as u64;
    ContextView {
        next_timer_id: id,
        timers: c.timers.push(TimerEntry { id, at: later(now, delay) }),
        ..c
    }
}

/// The context after a message for the client of a session, if there is one.
pub open spec fn messaged(
    c: ContextView,
    session_id: Seq<char>,
    t: TypeView,
    message: JsonView,
) -> ContextView {
    match client_index(c.clients, session_id) {
        Some(i) => {
            let (client, queue) = delivered(
                c.clients[i],
                c.after_patch,
                packed(data_frame(t, message)),
                false,
            );
            ContextView {
                clients: c.clients.update(i, client),
                after_patch: queue,
                tap: send_logged(c.tap, c.clients[i], sent_log(c.clients[i], t, message)),
                ..c
            }
        },
        None => c,
    }
}

/// The timers without one of them.
pub open spec fn without_timer(ts: Seq<TimerEntry>, id: u64) -> Seq<TimerEntry>
    decreases ts.len(),
{
    if ts.len() == 0 {
        ts
    } else if ts.last().id == id {
        without_timer(ts.drop_last(), id)
    } else {
        without_timer(ts.drop_last(), id).push(ts.last())
    }
}

/// The place of the first client of a session.
pub fn find_client(cs: &Vec<Client>, session_id: &str) -> (r: Option<usize>)
    ensures
        match r {
            Some(i) => client_index(client_views(cs@), session_id@) == Some(i as int) && i
                < cs.len() && cs@[i as int].session_id@ == session_id@,
            None => client_index(client_views(cs@), session_id@) is None,
        },
{
    let ghost views = client_views(cs@);
    let mut i: usize = 0;
    while i < cs.len()
        invariant
            i <= cs.len(),
            views == client_views(cs@),
            forall|j: int| 0 <= j < i ==> (#[trigger] views[j]).session_id != session_id@,
        decreases cs.len() - i,
    {
        if same_text(cs[i].session_id.as_str(), session_id) {
            proof {
                lemma_client_index(views, session_id@);
                assert(views[i as int].session_id == session_id@);
            }
            return Some(i);
        }
        proof {
            assert(views[i as int].session_id == cs@[i as int].session_id@);
        }
        i = i + 1;
    }
    proof {
        lemma_client_index(views, session_id@);
    }
    None
}

/// The place of the last client of a session.
pub fn find_last(cs: &Vec<Client>, session_id: &str) -> (r: Option<usize>)
    ensures
        match r {
            Some(i) => last_index(client_views(cs@), session_id@) == Some(i as int) && i < cs.len(),
            None => last_index(client_views(cs@), session_id@) is None,
        },
{
    let ghost all = client_views(cs@);
    let mut i: usize = cs.len();
    proof {
        assert(all.take(all.len() as int) =~= all);
    }
    while i > 0
        invariant
            i <= cs.len(),
            all == client_views(cs@),
            last_index(all, session_id@) == last_index(all.take(i as int), session_id@),
        decreases i,
    {
        proof {
            assert(all.take(i as int).drop_last() =~= all.take(i - 1));
            assert(all[i - 1] == cs@[i - 1]@);
        }
        i = i - 1;
        if same_text(cs[i].session_id.as_str(), session_id) {
            return Some(i);
        }
    }
    None
}

/// Moves the clients of a session from one list to the end of another.
pub fn move_session(cs: &mut Vec<Client>, out: &mut Vec<Client>, session_id: &str)
    ensures
        client_views(final(cs)@) == without_session(client_views(old(cs)@), session_id@),
        client_views(final(out)@) == client_views(old(out)@) + of_session(
            client_views(old(cs)@),
            session_id@,
        ),
{
    let ghost before = client_views(cs@);
    let ghost base = client_views(out@);
    let at: usize = out.len();
    let mut i: usize = cs.len();
    let ghost mut kept: Seq<ClientView> = seq![];
    let ghost mut gone: Seq<ClientView> = seq![];
    proof {
        assert(before.take(before.len() as int) =~= before);
        assert(before + kept =~= before);
        assert(base + gone =~= base);
        assert(without_session(before, session_id@) + kept =~= without_session(
            before,
            session_id@,
        ));
        assert(of_session(before, session_id@) + gone =~= of_session(before, session_id@));
    }
    while i > 0
        invariant
            i <= cs.len(),
            i <= before.len(),
            at == base.len(),
            at <= out.len(),
            client_views(cs@) == before.take(i as int) + kept,
            client_views(out@) == base + gone,
            without_session(before, session_id@) == without_session(
                before.take(i as int),
                session_id@,
            ) + kept,
            of_session(before, session_id@) == of_session(before.take(i as int), session_id@)
                + gone,
        decreases i,
    {
        i = i - 1;
        let ghost prev = client_views(cs@);
        let ghost prev_out = client_views(out@);
        let ghost prefix = before.take(i + 1);
        proof {
            assert(prefix.drop_last() =~= before.take(i as int));
            assert(prefix.last() == before[i as int]);
            assert(prev[i as int] == before[i as int]);
            assert(prev[i as int] == cs@[i as int]@);
        }
        if same_text(cs[i].session_id.as_str(), session_id) {
            let c: Client = cs.remove(i);
            out.insert(at, c);
            proof {
                let more = seq![before[i as int]] + gone;
                assert(client_views(cs@) =~= prev.remove(i as int));
                assert(client_views(cs@) =~= before.take(i as int) + kept);
                assert(client_views(out@) =~= prev_out.insert(at as int, before[i as int]));
                assert(client_views(out@) =~= base + more);
                assert(of_session(prefix, session_id@) + gone =~= of_session(
                    before.take(i as int),
                    session_id@,
                ) + more);
                gone = more;
            }
        } else {
            proof {
                let more = seq![before[i as int]] + kept;
                assert(prefix + kept =~= before.take(i as int) + more);
                assert(without_session(prefix, session_id@) + kept =~= without_session(
                    before.take(i as int),
                    session_id@,
                ) + more);
                kept = more;
            }
        }
    }
    proof {
        assert(before.take(0) =~= seq![]);
        assert(client_views(cs@) =~= kept);
        assert(without_session(before, session_id@) =~= kept);
        assert(of_session(before, session_id@) =~= gone);
    }
}

/// Hands a frame to every client that has joined, but for one session.
pub fn send_to_all(cs: &mut Vec<Client>, bytes: &Vec<u8>, except: &Option<String>)
    ensures
        client_views(final(cs)@) == sent_to_all(
            client_views(old(cs)@),
            bytes@,
            text_option(*except),
        ),
{
    let ghost before = client_views(cs@);
    let ghost after = sent_to_all(before, bytes@, text_option(*except));
    let n: usize = cs.len();
    let mut i: usize = 0;
    while i < n
        invariant
            i <= n,
            n == cs.len(),
            n == before.len(),
            after == sent_to_all(before, bytes@, text_option(*except)),
            forall|j: int| 0 <= j < i ==> (#[trigger] cs@[j])@ == after[j],
            forall|j: int| i <= j < n ==> (#[trigger] cs@[j])@ == before[j],
        decreases n - i,
    {
        let skip: bool = match except {
            Some(sid) => same_text(sid.as_str(), cs[i].session_id.as_str()),
            None => false,
        };
        if cs[i].is_joined() && !skip {
            let copy: Vec<u8> = copy_bytes(bytes);
            cs[i].raw_now(copy);
        }
        i = i + 1;
    }
    proof {
        assert(client_views(cs@) =~= after);
    }
}

/// Hands on one deferred message.
pub fn hand_on(cs: &mut Vec<Client>, item: &AfterPatchItem)
    ensures
        client_views(final(cs)@) == item_handed_on(client_views(old(cs)@), item@),
{
    let ghost before = client_views(cs@);
    match &item.target {
        AfterPatchTarget::Client(sid) => {
            match find_client(cs, sid.as_str()) {
                Some(i) => {
                    if cs[i].is_joined() {
                        let copy: Vec<u8> = copy_bytes(&item.bytes);
                        cs[i].raw_now(copy);
                        proof {
                            assert(client_views(cs@) =~= before.update(
                                i as int,
                                sent(before[i as int], item.bytes@),
                            ));
                        }
                    }
                },
                None => {},
            }
        },
        AfterPatchTarget::Broadcast(except) => {
            send_to_all(cs, &item.bytes, except);
        },
    }
}

/// How many seats still wait for their first client.
fn count_pending(seats: &Table<ReservedSeat>) -> (r: usize)
    ensures
        r == pending_seats(seats@),
{
    let ghost all = seats@;
    let mut n: usize = 0;
    let mut i: usize = 0;
    proof {
        assert(all.take(0) =~= Seq::empty());
    }
    while i < seats.entries.len()
        invariant
            i <= seats.entries.len(),
            all == seats@,
            n <= i,
            n == pending_seats(all.take(i as int)),
        decreases seats.entries.len() - i,
    {
        proof {
            assert(all.take(i + 1).drop_last() =~= all.take(i as int));
            assert(all.take(i + 1).last() == all[i as int]);
            assert(all[i as int].1 == seats.entries@[i as int].1@);
        }
        if !seats.entries[i].1.consumed && !seats.entries[i].1.waiting_reconnection {
            n = n + 1;
        }
        i = i + 1;
    }
    proof {
        assert(all.take(all.len() as int) =~= all);
    }
    n
}

/// Takes the reconnections of a session out.
fn drop_entries(t: &mut Table<ReconnectionEntry>, session_id: &str)
    ensures
        final(t)@ == without_entries(old(t)@, session_id@),
{
    let ghost before = t@;
    let mut i: usize = t.entries.len();
    let ghost mut kept: Seq<(Seq<char>, EntryView)> = seq![];
    proof {
        assert(before.take(before.len() as int) =~= before);
        assert(before + kept =~= before);
        assert(without_entries(before, session_id@) + kept =~= without_entries(
            before,
            session_id@,
        ));
    }
    while i > 0
        invariant
            i <= t.entries.len(),
            i <= before.len(),
            t@ == before.take(i as int) + kept,
            without_entries(before, session_id@) == without_entries(
                before.take(i as int),
                session_id@,
            ) + kept,
        decreases i,
    {
        i = i - 1;
        let ghost prev = t@;
        let ghost prefix = before.take(i + 1);
        proof {
            assert(prefix.drop_last() =~= before.take(i as int));
            assert(prefix.last() == before[i as int]);
            assert(prev[i as int] == before[i as int]);
            assert(prev[i as int].1 == t.entries@[i as int].1@);
        }
        if same_text(t.entries[i].1.session_id.as_str(), session_id) {
            t.entries.remove(i);
            proof {
                assert(t@ =~= prev.remove(i as int));
                assert(t@ =~= before.take(i as int) + kept);
            }
        } else {
            proof {
                let more = seq![before[i as int]] + kept;
                assert(prefix + kept =~= before.take(i as int) + more);
                assert(without_entries(prefix, session_id@) + kept =~= without_entries(
                    before.take(i as int),
                    session_id@,
                ) + more);
                kept = more;
            }
        }
    }
    proof {
        assert(before.take(0) =~= seq![]);
        assert(t@ =~= kept);
        assert(without_entries(before, session_id@) =~= kept);
    }
}

impl RoomContext {
    /// The context of a new room, whose clock starts now (monotonic, in
    /// nanoseconds).
    pub fn new(
        room_id: String,
        room_name: String,
        process_id: String,
        created_at: u64,
        filter_extra: Vec<(String, Json)>,
        persistence: Option<PersistenceConfig>,
        now: u128,
    ) -> (r: Self)
        ensures
            r@ == fresh_context(
                room_id@,
                room_name@,
                process_id@,
                created_at,
                entries_view(filter_extra@),
                persistence,
                now,
            ),
    {
        let r = RoomContext {
            room_id,
            room_name,
            process_id,
            created_at,
            clients: Vec::new(),
            departed: Vec::new(),
            state_slot: None,
            internal: None,
            clock: Clock::new(now),
            auto_dispose: true,
            max_messages_per_second: None,
            seat_reservation_timeout: SEAT_TIMEOUT_MS,
            patch_rate: Some(PATCH_RATE_MS),
            sim_interval: None,
            max_clients: None,
            locked: false,
            is_private: false,
            metadata: None,
            reserved_seats: Table::new(),
            reconnections: Table::new(),
            view_filter: false,
            view_snapshots: Vec::new(),
            after_patch: Vec::new(),
            timers: Vec::new(),
            next_timer_id: 0,
            request_dispose: None,
            disposing: false,
            had_clients: false,
            filter_extra,
            updates: Vec::new(),
            create_options: Json::Null,
            schema_version: 0,
            persistence,
            tap: EventTap::new(),
            routes: Routes::new(),
        };
        proof {
            assert(r@.clients =~= seq![]);
            assert(r@.departed =~= seq![]);
            assert(r@.after_patch =~= seq![]);
            assert(r@.timers =~= seq![]);
            assert(r@.updates =~= seq![]);
        }
        r
    }

    /// Passes a traffic event on to whoever listens in.
    pub fn tap_log(&mut self, log: RoomEventLog)
        ensures
            final(self)@ == (ContextView { tap: logged(old(self)@.tap, log@), ..old(self)@ }),
    {
        self.tap.log(log);
    }

    pub fn room_id(&self) -> (r: &str)
        ensures
            r@ == self@.room_id,
    {
        self.room_id.as_str()
    }

    pub fn room_name(&self) -> (r: &str)
        ensures
            r@ == self@.room_name,
    {
        self.room_name.as_str()
    }

    pub fn process_id(&self) -> (r: &str)
        ensures
            r@ == self@.process_id,
    {
        self.process_id.as_str()
    }

    pub fn clients(&self) -> (r: &Vec<Client>)
        ensures
            client_views(r@) == self@.clients,
    {
        &self.clients
    }

    pub fn client_count(&self) -> (r: usize)
        ensures
            r == self@.clients.len(),
    {
        self.clients.len()
    }

    /// The client of a session.
    pub fn get_client(&self, session_id: &str) -> (r: Option<&Client>)
        ensures
            match r {
                Some(c) => client_index(self@.clients, session_id@) matches Some(i) && c@
                    == self@.clients[i],
                None => client_index(self@.clients, session_id@) is None,
            },
    {
        match find_client(&self.clients, session_id) {
            Some(i) => {
                proof {
                    assert(self@.clients[i as int] == self.clients@[i as int]@);
                }
                Some(&self.clients[i])
            },
            None => None,
        }
    }

    /// Sets the room's synchronized state.
    pub fn set_state(&mut self, state: Json)
        ensures
            final(self)@ == (ContextView { state: Some((state@, state@)), ..old(self)@ }),
    {
        self.state_slot = Some(StateSlot::new(state));
    }

    /// The room's synchronized state as it is now.
    pub fn state(&self) -> (r: Option<Json>)
        ensures
            option_view(r) == match self@.state {
                Some((current, _)) => Some(current),
                None => None,
            },
    {
        match &self.state_slot {
            Some(slot) => Some(slot.full()),
            None => None,
        }
    }

    /// Changes the room's synchronized state, if it has one. Clients hear of it
    /// with the next patch.
    pub fn update_state(&mut self, state: Json)
        ensures
            final(self)@ == match old(self)@.state {
                Some((_, told)) => ContextView { state: Some((state@, told)), ..old(self)@ },
                None => old(self)@,
            },
    {
        if let Some(slot) = &mut self.state_slot {
            slot.set(state);
        }
    }

    /// Sets the room's private state.
    pub fn set_internal(&mut self, internal: Json)
        ensures
            final(self)@ == (ContextView { internal: Some(internal@), ..old(self)@ }),
    {
        self.internal = Some(internal);
    }

    pub fn serializer_id(&self) -> (r: &'static str)
        ensures
            r@ == if self@.state is Some {
                JSON_PATCH_SERIALIZER_ID@
            } else {
                NONE_SERIALIZER_ID@
            },
    {
        if self.state_slot.is_some() {
            JSON_PATCH_SERIALIZER_ID
        } else {
            NONE_SERIALIZER_ID
        }
    }

    /// From now on each client receives patches against its own projection of
    /// the state instead of the shared full state.
    pub fn set_view_filter(&mut self)
        ensures
            final(self)@ == (ContextView { view_filter: true, ..old(self)@ }),
    {
        self.view_filter = true;
    }

    /// Removes the view filter; clients go back to the shared full state.
    pub fn clear_view_filter(&mut self)
        ensures
            final(self)@ == (ContextView {
                view_filter: false,
                view_snapshots: Map::empty(),
                ..old(self)@
            }),
    {
        self.view_filter = false;
        self.view_snapshots = Vec::new();
    }

    pub fn has_view_filter(&self) -> (r: bool)
        ensures
            r == self@.view_filter,
    {
        self.view_filter
    }

    /// Broadcasts a message to all joined clients.
    pub fn broadcast(&mut self, msg_type: &MessageType, message: &Json)
        ensures
            final(self)@ == broadcasted(old(self)@, msg_type@, message@),
    {
        self.broadcast_with_options(msg_type, message, BroadcastOptions::default());
    }

    /// Broadcasts a message to all joined clients but one, now or after the next
    /// patch.
    pub fn broadcast_with_options(
        &mut self,
        msg_type: &MessageType,
        message: &Json,
        options: BroadcastOptions,
    )
        ensures
            final(self)@ == broadcasted_with(
                old(self)@,
                msg_type@,
                message@,
                text_option(options.except),
                options.after_next_patch,
            ),
    {
        if self.tap.open {
            self.tap.log(
                RoomEventLog::new("out", "broadcast").msg_type(
                    msg_type,
                ).payload(message.clone()),
            );
        }
        let bytes: Vec<u8> = protocol::room_data(msg_type, message);
        if options.after_next_patch {
            let item = AfterPatchItem { target: AfterPatchTarget::Broadcast(options.except), bytes };
            let ghost before = self.after_patch@;
            self.after_patch.push(item);
            proof {
                assert(items_view(self.after_patch@) =~= items_view(before).push(item@));
            }
            return ;
        }
        send_to_all(&mut self.clients, &bytes, &options.except);
    }

    /// Broadcasts a binary message to all joined clients.
    pub fn broadcast_bytes(&mut self, msg_type: &MessageType, payload: &[u8])
        ensures
            final(self)@ == bytes_broadcasted(old(self)@, msg_type@, payload@),
    {
        self.tap.log(
            RoomEventLog::new("out", "broadcast").msg_type(msg_type).bytes(
                payload.len(),
            ),
        );
        let bytes: Vec<u8> = protocol::room_data_bytes(msg_type, payload);
        send_to_all(&mut self.clients, &bytes, &None);
    }

    /// Sends a message to the client of a session, if there is one.
    pub fn send_to(&mut self, session_id: &str, msg_type: &MessageType, message: &Json)
        ensures
            final(self)@ == messaged(old(self)@, session_id@, msg_type@, message@),
    {
        let ghost before = self@;
        match find_client(&self.clients, session_id) {
            Some(i) => {
                proof {
                    assert(self@.clients[i as int] == self.clients@[i as int]@);
                }
                self.clients[i].send(msg_type, message, &mut self.after_patch, &mut self.tap);
                proof {
                    assert(self@.clients =~= before.clients.update(
                        i as int,
                        self.clients@[i as int]@,
                    ));
                }
            },
            None => {},
        }
    }

    /// Asks to be woken up after `delay`. Returns a timer id.
    pub fn set_timeout(&mut self, delay: u64, now: u64) -> (r: u64)
        requires
            old(self)@.next_timer_id < u64::MAX,
        ensures
            r == old(self)@.next_timer_id + 1,
            final(self)@ == timeout_set(old(self)@, delay, now),
    {
        self.next_timer_id = self.next_timer_id + 1;
        let id: u64 = self.next_timer_id;
        self.timers.push(TimerEntry { id, at: add_time(now, delay) });
        id
    }

    /// Forgets a timer and says whether there was one.
    pub fn clear_timeout(&mut self, id: u64) -> (r: bool)
        ensures
            final(self)@ == (ContextView {
                timers: without_timer(old(self)@.timers, id),
                ..old(self)@
            }),
            r == (final(self)@.timers.len() != old(self)@.timers.len()),
    {
        let ghost before = self.timers@;
        let len: usize = self.timers.len();
        let mut kept: Vec<TimerEntry> = Vec::new();
        let mut i: usize = 0;
        proof {
            assert(kept@ =~= without_timer(before.take(0), id));
        }
        while i < self.timers.len()
            invariant
                i <= self.timers.len(),
                self.timers@ == before,
                kept@ == without_timer(before.take(i as int), id),
            decreases self.timers.len() - i,
        {
            proof {
                assert(before.take(i + 1).drop_last() =~= before.take(i as int));
                assert(before.take(i + 1).last() == before[i as int]);
            }
            if self.timers[i].id != id {
                kept.push(self.timers[i]);
            }
            i = i + 1;
        }
        proof {
            assert(before.take(before.len() as int) =~= before);
        }
        self.timers = kept;
        self.timers.len() != len
    }

    /// Sets the game-loop interval. `None` disables the game loop.
    pub fn set_simulation_interval(&mut self, interval: Option<u64>)
        ensures
            final(self)@ == (ContextView { sim_interval: interval, ..old(self)@ }),
    {
        self.sim_interval = interval;
    }

    /// Sets how often state patches are broadcast. `None` disables automatic
    /// patches.
    pub fn set_patch_rate(&mut self, rate: Option<u64>)
        ensures
            final(self)@ == (ContextView { patch_rate: rate, ..old(self)@ }),
    {
        self.patch_rate = rate;
    }

    pub fn patch_rate(&self) -> (r: Option<u64>)
        ensures
            r == self@.patch_rate,
    {
        self.patch_rate
    }

    pub fn is_locked(&self) -> (r: bool)
        ensures
            r == self@.locked,
    {
        self.locked
    }

    /// Locks the room: no new seats can be reserved.
    pub fn lock(&mut self)
        ensures
            final(self)@ == lock_set(old(self)@, true),
    {
        if !self.locked {
            self.locked = true;
            self.sync_listing();
        }
    }

    pub fn unlock(&mut self)
        ensures
            final(self)@ == lock_set(old(self)@, false),
    {
        if self.locked {
            self.locked = false;
            self.sync_listing();
        }
    }

    pub fn max_clients(&self) -> (r: Option<u32>)
        ensures
            r == self@.max_clients,
    {
        self.max_clients
    }

    pub fn set_max_clients(&mut self, max_clients: Option<u32>)
        ensures
            final(self)@ == synced(ContextView { max_clients, ..old(self)@ }),
    {
        self.max_clients = max_clients;
        self.sync_listing();
    }

    pub fn is_private(&self) -> (r: bool)
        ensures
            r == self@.is_private,
    {
        self.is_private
    }

    /// Private rooms are hidden from matchmaking.
    pub fn set_private(&mut self, is_private: bool)
        ensures
            final(self)@ == synced(ContextView { is_private, ..old(self)@ }),
    {
        self.is_private = is_private;
        self.sync_listing();
    }

    pub fn metadata(&self) -> (r: Option<&Json>)
        ensures
            ref_view(r) == self@.metadata,
    {
        match &self.metadata {
            Some(v) => Some(v),
            None => None,
        }
    }

    pub fn set_metadata(&mut self, metadata: Json)
        ensures
            final(self)@ == synced(ContextView { metadata: Some(metadata@), ..old(self)@ }),
    {
        self.metadata = Some(metadata);
        self.sync_listing();
    }

    pub fn has_reached_max_clients(&self) -> (r: bool)
        ensures
            r == is_full(self@),
    {
        match self.max_clients {
            Some(max) => self.listing_client_count() >= max,
            None => false,
        }
    }

    /// Keeps a client's token and seat for its reconnection.
    fn hold_seat(&mut self, kept: Client, timeout: Option<u64>, now: u64)
        requires
            kept@ == (ClientView { pending: seq![], outbox: seq![], ..waiting_client(kept@) }),
        ensures
            final(self)@ == seat_held(old(self)@, kept@, timeout, now),
    {
        let expires_at: Option<u64> = match timeout {
            Some(d) => Some(add_time(now, d)),
            None => None,
        };
        let token: String = kept.reconnection_token();
        let session_id: String = kept.session_id.clone();
        let seat = ReservedSeat {
            options: Json::Null,
            auth: kept.auth(),
            consumed: false,
            waiting_reconnection: true,
            expires_at: match expires_at {
                Some(t) => t,
                None => add_time(now, MANUAL_SEAT_MS),
            },
        };
        let entry = ReconnectionEntry { session_id: session_id.clone(), client: kept, expires_at };
        self.reconnections.set(token.as_str(), entry);
        self.reserved_seats.set(session_id.as_str(), seat);
    }

    /// Allows the client at `i` to reconnect. `timeout: None` means "manual": the
    /// seat never expires on its own.
    pub fn allow_reconnection_at(&mut self, i: usize, timeout: Option<u64>, now: u64) -> (r: bool)
        requires
            i < old(self)@.clients.len(),
        ensures
            (final(self)@, r) == reconnection_allowed(old(self)@, i as int, timeout, now),
    {
        let ghost before = self@;
        proof {
            assert(self@.clients[i as int] == self.clients@[i as int]@);
        }
        let token: String = self.clients[i].reconnection_token();
        if self.disposing || is_blank(token.as_str()) || self.reconnections.contains(
            token.as_str(),
        ) {
            return false;
        }
        self.clients[i].set_state(ClientState::Reconnecting);
        proof {
            assert(self@.clients =~= before.clients.update(
                i as int,
                waiting_client(before.clients[i as int]),
            ));
        }
        let kept: Client = self.clients[i].copy();
        self.hold_seat(kept, timeout, now);
        true
    }

    /// Allows a session's client to reconnect: the one in the room or, where the room
    /// forgot it, the last that left. False where there is no such client.
    pub fn allow_reconnection(&mut self, session_id: &str, timeout: Option<u64>, now: u64) -> (r:
        bool)
        ensures
            (final(self)@, r) == session_allowed(old(self)@, session_id@, timeout, now),
    {
        let ghost before = self@;
        match find_client(&self.clients, session_id) {
            Some(i) => self.allow_reconnection_at(i, timeout, now),
            None => match find_last(&self.departed, session_id) {
                Some(k) => {
                    proof {
                        assert(before.departed[k as int] == self.departed@[k as int]@);
                    }
                    let token: String = self.departed[k].reconnection_token();
                    if self.disposing || is_blank(token.as_str()) || self.reconnections.contains(
                        token.as_str(),
                    ) {
                        return false;
                    }
                    self.departed[k].set_state(ClientState::Reconnecting);
                    proof {
                        assert(self@.departed =~= before.departed.update(
                            k as int,
                            waiting_client(before.departed[k as int]),
                        ));
                    }
                    let kept: Client = self.departed[k].copy();
                    self.hold_seat(kept, timeout, now);
                    true
                },
                None => false,
            },
        }
    }

    /// Forgets a client completely: drops it from the client list and cancels any
    /// pending reconnection, seat reservation and view snapshot for it.
    ///
    /// Useful when a user's session is taken over by a newer connection.
    pub fn remove_client(&mut self, session_id: &str)
        ensures
            final(self)@ == forgotten(old(self)@, session_id@),
    {
        move_session(&mut self.clients, &mut self.departed, session_id);
        drop_entries(&mut self.reconnections, session_id);
        self.reserved_seats.remove(session_id);
        remove_entry(&mut self.view_snapshots, session_id);
        self.sync_listing();
    }

    /// Asks for the room to be disposed: all clients are disconnected with `code`.
    pub fn disconnect(&mut self, code: u16)
        ensures
            final(self)@ == (ContextView { request_dispose: Some(code), ..old(self)@ }),
    {
        self.request_dispose = Some(code);
    }

    fn patch_views(&mut self, views: &Vec<Json>) -> (r: bool)
        requires
            old(self)@.clients.len() == views.len(),
        ensures
            final(self)@ == (ContextView {
                clients: view_clients(
                    old(self)@.view_snapshots,
                    old(self)@.clients,
                    values_view(views@),
                    old(self)@.clients.len(),
                ),
                view_snapshots: view_snaps(
                    old(self)@.view_snapshots,
                    old(self)@.clients,
                    values_view(views@),
                    old(self)@.clients.len(),
                ),
                tap: view_tap(
                    old(self)@.tap,
                    old(self)@.view_snapshots,
                    old(self)@.clients,
                    values_view(views@),
                    old(self)@.clients.len(),
                ),
                ..old(self)@
            }),
            r == view_changed(
                old(self)@.view_snapshots,
                old(self)@.clients,
                values_view(views@),
                old(self)@.clients.len(),
            ),
    {
        let ghost start = self@;
        let ghost cs = start.clients;
        let ghost snaps = start.view_snapshots;
        let ghost vs = values_view(views@);
        let n: usize = self.clients.len();
        let mut changed: bool = false;
        let mut i: usize = 0;
        proof {
            assert(view_clients(snaps, cs, vs, 0) =~= cs);
        }
        while i < n
            invariant
                i <= n,
                n == cs.len(),
                n == views.len(),
                cs == start.clients,
                snaps == start.view_snapshots,
                vs == values_view(views@),
                self.clients.len() == n,
                self@ == (ContextView {
                    clients: view_clients(snaps, cs, vs, i as nat),
                    view_snapshots: view_snaps(snaps, cs, vs, i as nat),
                    tap: view_tap(start.tap, snaps, cs, vs, i as nat),
                    ..start
                }),
                changed == view_changed(snaps, cs, vs, i as nat),
            decreases n - i,
        {
            let ghost before = view_snaps(snaps, cs, vs, i as nat);
            let ghost now_clients = self@.clients;
            proof {
                assert(self@.clients[i as int] == cs[i as int]);
                assert(self@.clients[i as int] == self.clients@[i as int]@);
                assert(vs[i as int] == views@[i as int]@);
            }
            if self.clients[i].is_joined() {
                let sid: String = self.clients[i].session_id.clone();
                let told: Json = match lookup(&self.view_snapshots, sid.as_str()) {
                    Some(v) => v.clone(),
                    None => views[i].clone(),
                };
                proof {
                    assert(told@ == told_before(before, cs[i as int], vs[i as int]));
                }
                if told.same_as(&views[i]) {
                    set_entry(&mut self.view_snapshots, sid.as_str(), told);
                } else {
                    let ops: Vec<Json> = diff(&told, &views[i]);
                    set_entry(&mut self.view_snapshots, sid.as_str(), views[i].clone());
                    let patch: Json = Json::array(ops);
                    self.tap.log(
                        RoomEventLog::new("out", "state_patch").client(
                            sid.as_str(),
                        ).payload(patch.clone()),
                    );
                    let bytes: Vec<u8> = protocol::room_state_patch(&patch);
                    self.clients[i].raw_now(bytes);
                    changed = true;
                }
            }
            proof {
                let next = view_clients(snaps, cs, vs, (i + 1) as nat);
                assert forall|k: int| 0 <= k < n implies self@.clients[k] == next[k] by {
                    assert(self@.clients[k] == self.clients@[k]@);
                    if k != i {
                        assert(now_clients[k] == view_clients(snaps, cs, vs, i as nat)[k]);
                    }
                }
                assert(self@.clients =~= next);
            }
            i = i + 1;
        }
        changed
    }

    /// Diffs the state and broadcasts patches; then hands on the deferred
    /// messages. Returns whether anything changed. With a view filter, `views`
    /// holds each client's projection, in the order of the clients.
    pub fn broadcast_patch(&mut self, views: &Vec<Json>) -> (r: bool)
        requires
            old(self)@.view_filter && old(self)@.state is Some ==> views.len()
                == old(self)@.clients.len(),
        ensures
            final(self)@ == deferred_sent(state_patched(old(self)@, values_view(views@)).0),
            r == state_patched(old(self)@, values_view(views@)).1,
    {
        let ghost start = self@;
        let mut has_changes: bool = false;
        if self.state_slot.is_some() {
            if self.view_filter {
                has_changes = self.patch_views(views);
            } else {
                let patch: Option<Json> = match &mut self.state_slot {
                    Some(slot) => slot.diff(),
                    None => None,
                };
                if let Some(patch) = patch {
                    has_changes = true;
                    self.tap.log(
                        RoomEventLog::new("out", "state_patch").payload(
                            patch.clone(),
                        ),
                    );
                    let bytes: Vec<u8> = protocol::room_state_patch(&patch);
                    send_to_all(&mut self.clients, &bytes, &None);
                }
            }
        }
        let ghost mid = self@;
        proof {
            assert(mid == state_patched(start, values_view(views@)).0);
        }
        self.flush_deferred();
        has_changes
    }

    /// Hands on the deferred messages, in order.
    fn flush_deferred(&mut self)
        ensures
            final(self)@ == deferred_sent(old(self)@),
    {
        let ghost mid = self@;
        let n: usize = self.after_patch.len();
        let mut i: usize = 0;
        proof {
            assert(items_handed_on(mid.clients, mid.after_patch.take(0)) =~= mid.clients);
        }
        while i < n
            invariant
                i <= n,
                n == self.after_patch.len(),
                n == mid.after_patch.len(),
                self@ == (ContextView {
                    clients: items_handed_on(mid.clients, mid.after_patch.take(i as int)),
                    ..mid
                }),
            decreases n - i,
        {
            proof {
                assert(mid.after_patch.take(i + 1).drop_last() =~= mid.after_patch.take(i as int));
                assert(self@.after_patch[i as int] == self.after_patch@[i as int]@);
            }
            hand_on(&mut self.clients, &self.after_patch[i]);
            i = i + 1;
        }
        self.after_patch = Vec::new();
        proof {
            assert(mid.after_patch.take(n as int) =~= mid.after_patch);
            assert(items_view(self.after_patch@) =~= seq![]);
        }
    }

    /// What a client is sent as the full state: its projection with a view
    /// filter, else the state.
    pub fn full_state_for(&self, projected: &Json) -> (r: Option<Json>)
        ensures
            option_view(r) == full_state(self@, projected@),
    {
        match &self.state_slot {
            Some(slot) => if self.view_filter {
                Some(projected.clone())
            } else {
                Some(slot.full())
            },
            None => None,
        }
    }

    /// Records the state a client currently holds (baseline for its next patch).
    pub fn set_view_snapshot(&mut self, session_id: &str, view: Json)
        ensures
            final(self)@ == (ContextView {
                view_snapshots: old(self)@.view_snapshots.insert(session_id@, view@),
                ..old(self)@
            }),
    {
        set_entry(&mut self.view_snapshots, session_id, view);
    }

    pub fn drop_view_snapshot(&mut self, session_id: &str)
        ensures
            final(self)@ == (ContextView {
                view_snapshots: old(self)@.view_snapshots.remove(session_id@),
                ..old(self)@
            }),
    {
        remove_entry(&mut self.view_snapshots, session_id);
    }

    pub fn listing_client_count(&self) -> (r: u32)
        ensures
            r == listed_clients(self@),
    {
        let pending: usize = count_pending(&self.reserved_seats);
        let sum: u128 = self.clients.len() as u128 + pending as u128;
        (sum % 0x1_0000_0000) as u32
    }

    pub fn build_listing(&self) -> (r: RoomListing)
        ensures
            r@ == listing_of(self@),
    {
        RoomListing {
            room_id: self.room_id.clone(),
            name: self.room_name.clone(),
            process_id: self.process_id.clone(),
            clients: self.listing_client_count(),
            max_clients: self.max_clients,
            locked: self.locked,
            is_private: self.is_private,
            metadata: clone_option(&self.metadata),
            created_at: self.created_at,
            extra: clone_entries(&self.filter_extra),
        }
    }

    /// Passes the room's listing on to the driver and the lobby.
    pub fn sync_listing(&mut self)
        ensures
            final(self)@ == synced(old(self)@),
    {
        let listing: RoomListing = self.build_listing();
        let ghost before = self.updates@;
        self.updates.push(listing);
        proof {
            assert(update_views(self.updates@) =~= update_views(before).push(listing@));
        }
    }
}

/// What a client is sent as the full state.
pub open spec fn full_state(c: ContextView, projected: JsonView) -> Option<JsonView> {
    match c.state {
        Some((current, _)) => if c.view_filter {
            Some(projected)
        } else {
            Some(current)
        },
        None => None,
    }
}

/// Unlocking undoes locking: but for the listings that were passed on, an
/// unlocked room is as it was.
pub proof fn law_unlock_undoes_lock(c: ContextView)
    requires
        !c.locked,
    ensures
        ({
            let locked = synced(ContextView { locked: true, ..c });
            let unlocked = synced(ContextView { locked: false, ..locked });
            unlocked == ContextView { updates: unlocked.updates, ..c } && unlocked.updates.last()
                == listing_of(c)
        }),
{
}

/// A client that was removed is nowhere in the room: a connection with its token
/// finds nothing, and neither does one with its seat.
pub proof fn law_removed_client_is_gone(c: ContextView, session_id: Seq<char>)
    ensures
        client_index(forgotten(c, session_id).clients, session_id) is None,
        table_get(forgotten(c, session_id).seats, session_id) is None,
        !forgotten(c, session_id).view_snapshots.dom().contains(session_id),
        forall|i: int|
            0 <= i < forgotten(c, session_id).reconnections.len() ==> (
            #[trigger] forgotten(c, session_id).reconnections[i]).1.session_id != session_id,
{
    lemma_without_session(c.clients, session_id);
    lemma_table_remove(c.seats, session_id);
    lemma_without_entries(c.reconnections, session_id);
}

proof fn lemma_without_entries(s: Seq<(Seq<char>, EntryView)>, session_id: Seq<char>)
    ensures
        forall|i: int|
            0 <= i < without_entries(s, session_id).len() ==> (#[trigger] without_entries(
                s,
                session_id,
            )[i]).1.session_id != session_id,
    decreases s.len(),
{
    if s.len() > 0 {
        lemma_without_entries(s.drop_last(), session_id);
        let t = without_entries(s.drop_last(), session_id);
        let u = without_entries(s, session_id);
        assert forall|i: int| 0 <= i < u.len() implies (#[trigger] u[i]).1.session_id
            != session_id by {
            if i < t.len() {
                assert(u[i] == t[i]);
            }
        }
    }
}

}
