//! What happens in a room, told by what its clients receive.

use crate::actor::{
    connected, drop_settled, due_timers, entry_expired, error_reported, expired_tokens,
    join_finished, leave_begun, leave_finished, let_in, live_seats, message_taken, rate_checked,
    returning, seat_expired, seat_given, seat_refusal, seats_expired, serializer_of, token_expired,
    welcomed, ConnectView, LeaveStep, StepView,
};
use crate::client::{
    as_frames, asked_to_leave, delivered, new_client, payload_refused, rate_step, ClientState,
    ClientView, ItemView, OutboundView, TargetView,
};
use crate::context::{
    broadcasted, broadcasted_with, bytes_broadcasted, fresh_context, full_state, messaged,
    timeout_set, without_timer,
};
use crate::diff::apply_patch;
use crate::diff_laws::law_patch_transforms;
use crate::error::ErrorView;
use crate::events::{disposal_due, kicked, lock_set, patch_ticked};
use crate::json::{finite_view, same, JsonView};
use crate::lifecycle::{dispose_begun, is_abandoned};
use crate::protocol::{
    array_message, data_frame, decoded, error_frame, frame_message, join_frame, leave_frame,
    patch_frame, state_frame, MessageView, TypeView,
};
use crate::room::{
    client_index, deferred_sent, is_pending, item_handed_on, items_handed_on, lemma_client_index,
    listing_of, of_session, patch_of, pending_seats, sent_to_all, session_allowed, state_patched,
    synced, unique_sessions, view_clients, without_session, ContextView, SeatState, TimerEntry,
};
use crate::snapshot::PersistenceConfig;
use crate::table::{lemma_table_index, lemma_table_remove, lemma_table_set, table_get};
use crate::wire::{packed, packed_triple};
use vstd::prelude::*;

verus! {

// ---------------------------------------------------------------------
// frames
// ---------------------------------------------------------------------

/// A message's type on the wire: a text or a whole number.
pub open spec fn wire_type(t: TypeView) -> JsonView {
    match t {
        TypeView::Str(s) => JsonView::Str(s),
        TypeView::Num(n) => JsonView::Int(n as int),
    }
}

/// The frame of a room message: thirteen, the type, the payload.
pub open spec fn message_bytes(t: TypeView, message: JsonView) -> Seq<u8> {
    packed(JsonView::Array(seq![JsonView::Int(13), wire_type(t), message]))
}

/// The frames that the server sends, as their documentation has them.
pub proof fn law_server_frames(
    t: TypeView,
    payload: JsonView,
    token: Seq<char>,
    serializer: Seq<char>,
    code: u16,
    text: Seq<char>,
)
    ensures
        join_frame(token, serializer, None) == JsonView::Array(
            seq![JsonView::Int(10), JsonView::Str(token), JsonView::Str(serializer)],
        ),
        error_frame(code, text) == JsonView::Array(
            seq![JsonView::Int(11), JsonView::Int(code as int), JsonView::Str(text)],
        ),
        data_frame(t, payload) == JsonView::Array(
            seq![JsonView::Int(13), wire_type(t), payload],
        ),
        state_frame(payload) == JsonView::Array(seq![JsonView::Int(14), payload]),
        patch_frame(payload) == JsonView::Array(seq![JsonView::Int(15), payload]),
{
}

/// The frames that clients send: `[12]` leaves, `[13, type, payload]` is a message,
/// `[17, type, bytes]` one with raw bytes, and a single byte of eighteen a ping. An
/// array that starts with anything else is no message.
pub proof fn law_client_frames(t: TypeView, payload: JsonView, raw: Seq<u8>, other: int)
    requires
        other != 12,
        other != 13,
    ensures
        array_message(seq![JsonView::Int(12)]) == Some(MessageView::Leave),
        array_message(seq![JsonView::Int(13), wire_type(t), payload]) == Some(
            MessageView::Data(t, payload),
        ),
        array_message(seq![JsonView::Int(13), wire_type(t)]) == Some(
            MessageView::Data(t, JsonView::Null),
        ),
        array_message(seq![JsonView::Int(13)]) is None,
        array_message(seq![JsonView::Int(other), wire_type(t), payload]) is None,
        array_message(seq![]) is None,
        frame_message(None, Some((17u8, wire_type(t), raw))) == Some(
            MessageView::DataBytes(t, raw),
        ),
        decoded(seq![18u8]) == Some(MessageView::Ping),
        leave_frame() == JsonView::Array(seq![JsonView::Int(12)]),
{
}

// ---------------------------------------------------------------------
// messages to clients
// ---------------------------------------------------------------------

/// A client is in the room: it joined, or came back.
pub open spec fn is_in(c: ClientView) -> bool {
    c.state == ClientState::Joined || c.state == ClientState::Reconnected
}

/// A broadcast goes once to every client who is in the room, behind what was sent
/// before, and to nobody else. It changes nothing else in the room.
pub proof fn law_broadcast_reaches_everybody(c: ContextView, t: TypeView, m: JsonView, i: int)
    requires
        0 <= i < c.clients.len(),
    ensures
        ({
            let after = broadcasted(c, t, m);
            let x = c.clients[i];
            let y = after.clients[i];
            &&& after.clients.len() == c.clients.len()
            &&& is_in(x) ==> y.outbox == x.outbox.push(OutboundView::Bytes(message_bytes(t, m)))
            &&& !is_in(x) ==> y == x
            &&& y.session_id == x.session_id
            &&& y.state == x.state
            &&& after.state == c.state
            &&& after.departed == c.departed
            &&& after.seats == c.seats
        }),
{
}

/// A broadcast with an exception leaves out that session and nobody else.
pub proof fn law_broadcast_leaves_out_one(
    cs: Seq<ClientView>,
    bytes: Seq<u8>,
    except: Option<Seq<char>>,
    i: int,
)
    requires
        0 <= i < cs.len(),
    ensures
        ({
            let y = sent_to_all(cs, bytes, except)[i];
            let left_out = except is Some && except->Some_0 == cs[i].session_id;
            &&& is_in(cs[i]) && !left_out ==> y.outbox == cs[i].outbox.push(
                OutboundView::Bytes(bytes),
            )
            &&& !is_in(cs[i]) || left_out ==> y == cs[i]
        }),
{
}

/// A message for one session goes to its client, at once where it is in the room and
/// with the welcome where it is still on its way in; nobody else receives it. Where
/// the session has no client nothing happens.
pub proof fn law_message_reaches_one(
    c: ContextView,
    session_id: Seq<char>,
    t: TypeView,
    m: JsonView,
    i: int,
)
    requires
        0 <= i < c.clients.len(),
        unique_sessions(c.clients),
    ensures
        ({
            let after = messaged(c, session_id, t, m);
            let x = c.clients[i];
            let y = after.clients[i];
            &&& after.clients.len() == c.clients.len()
            &&& x.session_id != session_id ==> y == x
            &&& x.session_id == session_id && is_in(x) ==> y.outbox == x.outbox.push(
                OutboundView::Bytes(message_bytes(t, m)),
            ) && y.pending == x.pending
            &&& x.session_id == session_id && (x.state == ClientState::Joining || x.state
                == ClientState::Reconnecting) ==> y.pending == x.pending.push(message_bytes(t, m))
                && y.outbox == x.outbox
            &&& x.session_id == session_id && (x.state == ClientState::Leaving || x.state
                == ClientState::Closed) ==> y == x
            &&& after.after_patch == c.after_patch
        }),
        (forall|k: int| 0 <= k < c.clients.len() ==> (#[trigger] c.clients[k]).session_id
            != session_id) ==> messaged(c, session_id, t, m) == c,
{
    lemma_client_index(c.clients, session_id);
    if let Some(k) = client_index(c.clients, session_id) {
        if k != i {
            assert(c.clients[k].session_id != c.clients[i].session_id) by {
                if k < i {
                    assert(c.clients[k].session_id != c.clients[i].session_id);
                } else {
                    assert(c.clients[i].session_id != c.clients[k].session_id);
                }
            }
        }
    }
}

/// A message that is to follow the next patch is not sent now; it waits behind those
/// that wait already, for its client alone.
pub proof fn law_deferred_message_waits(c: ClientView, queue: Seq<ItemView>, bytes: Seq<u8>)
    requires
        c.attached,
    ensures
        ({
            let (after, waiting) = delivered(c, queue, bytes, true);
            &&& after == c
            &&& waiting.len() == queue.len() + 1
            &&& waiting.take(queue.len() as int) == queue
            &&& waiting.last().bytes == bytes
            &&& waiting.last().target == TargetView::Client(c.session_id)
        }),
{
    assert(queue.push(
        ItemView { target: TargetView::Client(c.session_id), bytes },
    ).take(queue.len() as int) =~= queue);
}

/// A deferred broadcast goes, once it is its turn, to everybody who is in the room then
/// but for the one who is left out; a deferred message to its client alone.
pub proof fn law_deferred_message_goes_out(cs: Seq<ClientView>, item: ItemView, i: int)
    requires
        0 <= i < cs.len(),
        unique_sessions(cs),
    ensures
        ({
            let x = cs[i];
            let y = item_handed_on(cs, item)[i];
            let meant = match item.target {
                TargetView::Client(sid) => x.session_id == sid,
                TargetView::Broadcast(except) => except != Some(x.session_id),
            };
            &&& meant && is_in(x) ==> y.outbox == x.outbox.push(OutboundView::Bytes(item.bytes))
            &&& !meant || !is_in(x) ==> y == x
        }),
        item_handed_on(cs, item).len() == cs.len(),
{
    if let TargetView::Client(sid) = item.target {
        lemma_client_index(cs, sid);
        if let Some(k) = client_index(cs, sid) {
            if k < i {
                assert(cs[k].session_id != cs[i].session_id);
            } else if k > i {
                assert(cs[i].session_id != cs[k].session_id);
            }
        }
    }
}

/// After a patch nothing is deferred any more, and what was deferred goes out in the
/// order in which it was deferred.
pub proof fn law_deferred_messages_keep_order(c: ContextView, item: ItemView)
    ensures
        deferred_sent(c).after_patch.len() == 0,
        c.after_patch.len() == 0 ==> deferred_sent(c) == c,
        items_handed_on(c.clients, c.after_patch.push(item)) == item_handed_on(
            items_handed_on(c.clients, c.after_patch),
            item,
        ),
{
    assert(c.after_patch.push(item).drop_last() =~= c.after_patch);
    if c.after_patch.len() == 0 {
        assert(c.after_patch =~= seq![]);
    }
}

// ---------------------------------------------------------------------
// state
// ---------------------------------------------------------------------

/// Where the state changed, every client who is in the room is sent one JSON-Patch,
/// `[15, patch]`, which turns what was told before into the state as it is; afterwards
/// the state is told. Where it did not change nobody is sent anything.
pub proof fn law_patch_brings_everybody_up_to_date(c: ContextView, views: Seq<JsonView>, i: int)
    requires
        c.state is Some,
        !c.view_filter,
        finite_view(c.state->Some_0.0),
        finite_view(c.state->Some_0.1),
        0 <= i < c.clients.len(),
    ensures
        ({
            let (current, told) = c.state->Some_0;
            let (after, changed) = state_patched(c, views);
            let x = c.clients[i];
            let y = after.clients[i];
            let patch = patch_of(told, current);
            &&& changed <==> !same(told, current)
            &&& !changed ==> after == c
            &&& changed ==> {
                &&& after.state == Some((current, current))
                &&& patch is Array
                &&& apply_patch(told, patch->Array_0) is Some
                &&& same(apply_patch(told, patch->Array_0)->Some_0, current)
                &&& is_in(x) ==> y.outbox == x.outbox.push(
                    OutboundView::Bytes(
                        packed(JsonView::Array(seq![JsonView::Int(15), patch])),
                    ),
                )
                &&& !is_in(x) ==> y == x
                &&& after.clients.len() == c.clients.len()
            }
        }),
{
    let (current, told) = c.state->Some_0;
    law_patch_transforms(told, current);
}

/// With a view filter a client is sent the patch from what it was told itself to its
/// own projection, where the two differ, and never anything of another's.
pub proof fn law_view_is_own(
    snaps: Map<Seq<char>, JsonView>,
    cs: Seq<ClientView>,
    views: Seq<JsonView>,
    i: int,
)
    requires
        unique_sessions(cs),
        views.len() == cs.len(),
        0 <= i < cs.len(),
        snaps.dom().contains(cs[i].session_id),
        finite_view(snaps[cs[i].session_id]),
        finite_view(views[i]),
    ensures
        ({
            let told = snaps[cs[i].session_id];
            let y = view_clients(snaps, cs, views, cs.len())[i];
            let patch = patch_of(told, views[i]);
            &&& patch is Array
            &&& apply_patch(told, patch->Array_0) is Some
            &&& same(apply_patch(told, patch->Array_0)->Some_0, views[i])
            &&& is_in(cs[i]) && !same(told, views[i]) ==> y.outbox == cs[i].outbox.push(
                OutboundView::Bytes(packed(JsonView::Array(seq![JsonView::Int(15), patch]))),
            )
            &&& !is_in(cs[i]) || same(told, views[i]) ==> y == cs[i]
        }),
{
    crate::room::law_view_patches_are_own(snaps, cs, views, i);
    law_patch_transforms(snaps[cs[i].session_id], views[i]);
}

// ---------------------------------------------------------------------
// seats
// ---------------------------------------------------------------------

/// A room gives out a seat exactly where it is not being disposed of, not locked, and
/// its clients and the seats that wait are fewer than it takes.
pub proof fn law_seats_are_given_out(c: ContextView)
    requires
        c.clients.len() + pending_seats(c.seats) < 0x1_0000_0000,
    ensures
        seat_refusal(c) is None <==> !c.disposing && !c.locked && (c.max_clients is None
            || c.clients.len() + pending_seats(c.seats) < c.max_clients->Some_0),
        seat_refusal(c) matches Some(e) ==> e.code == 524,
{
}

/// The seats that wait are those that nobody took and that wait for no reconnection;
/// each counts once.
pub proof fn law_waiting_seats_count(
    s: Seq<(Seq<char>, SeatState)>,
    session_id: Seq<char>,
    seat: SeatState,
)
    ensures
        pending_seats(s.push((session_id, seat))) == pending_seats(s) + if !seat.consumed
            && !seat.waiting_reconnection {
            1int
        } else {
            0
        },
        s.len() == 0 ==> pending_seats(s) == 0,
{
    assert(s.push((session_id, seat)).drop_last() =~= s);
}

/// A seat that is given out waits with the request's options and auth data, for as long
/// as the room says, and counts as a client in the listing.
pub proof fn law_given_seat_waits(
    c: ContextView,
    session_id: Seq<char>,
    options: JsonView,
    auth: Option<JsonView>,
    now: u64,
)
    requires
        table_get(c.seats, session_id) is None,
        now + c.seat_timeout <= u64::MAX,
        c.clients.len() + pending_seats(c.seats) + 1 < 0x1_0000_0000,
    ensures
        ({
            let after = seat_given(c, session_id, options, auth, now);
            let seat = table_get(after.seats, session_id);
            &&& seat is Some
            &&& seat->Some_0.options == options
            &&& seat->Some_0.auth == auth
            &&& !seat->Some_0.consumed
            &&& !seat->Some_0.waiting_reconnection
            &&& seat->Some_0.expires_at == now + c.seat_timeout
            &&& after.clients == c.clients
            &&& listing_of(after).clients == listing_of(c).clients + 1
            &&& after.updates == c.updates.push(listing_of(after))
            &&& forall|k: Seq<char>|
                k != session_id ==> #[trigger] table_get(after.seats, k) == table_get(c.seats, k)
        }),
{
    let seat = SeatState {
        options,
        auth,
        consumed: false,
        waiting_reconnection: false,
        expires_at: (now + c.seat_timeout) as u64,
    };
    lemma_table_index(c.seats, session_id);
    lemma_table_set(c.seats, session_id, seat);
    law_waiting_seats_count(c.seats, session_id, seat);
}

/// A seat that nobody took by its time is given up; any other is kept.
pub proof fn law_seat_expires(s: SeatState, now: u64)
    ensures
        seat_expired(s, now) <==> !s.consumed && !s.waiting_reconnection && now >= s.expires_at,
        is_pending(s) <==> !s.consumed && !s.waiting_reconnection,
{
}

/// A connection without a token is let in exactly where its session has a seat that
/// nobody took: with the seat's options and auth data, on its way in, at the end of the
/// clients. The seat is taken then, and nobody else is touched.
pub proof fn law_seat_lets_in(c: ContextView, client: ClientView)
    ensures
        ({
            let (after, step) = connected(c, client, None);
            let seat = table_get(c.seats, client.session_id);
            let free = seat is Some && !seat->Some_0.consumed;
            &&& !free ==> after == c && (step matches ConnectView::Refuse(e) && e.code == 524)
            &&& free ==> {
                &&& step == ConnectView::Join(seat->Some_0.options, seat->Some_0.auth)
                &&& after.clients.len() == c.clients.len() + 1
                &&& after.clients.take(c.clients.len() as int) == c.clients
                &&& after.clients.last().session_id == client.session_id
                &&& after.clients.last().connection_id == client.connection_id
                &&& after.clients.last().state == ClientState::Joining
                &&& after.clients.last().auth == seat->Some_0.auth
                &&& table_get(after.seats, client.session_id) matches Some(s) && s.consumed
                &&& after.reconnections == c.reconnections
            }
        }),
{
    if let Some(seat) = table_get(c.seats, client.session_id) {
        lemma_table_set(c.seats, client.session_id, SeatState { consumed: true, ..seat });
        if !seat.consumed {
            let after = connected(c, client, None).0;
            assert(after.clients.take(c.clients.len() as int) =~= c.clients);
        }
    }
}

// ---------------------------------------------------------------------
// coming in
// ---------------------------------------------------------------------

/// A client who is let in is sent `[10, token, serializer]`, then `[14, state]` where
/// there is one, and then what had been waiting, in order. It has the token.
pub proof fn law_welcome(
    client: ClientView,
    state: ClientState,
    token: Seq<char>,
    serializer: Seq<char>,
    full: Option<JsonView>,
)
    ensures
        ({
            let after = let_in(client, state, token, serializer, full);
            let hello = OutboundView::Bytes(
                packed(
                    JsonView::Array(
                        seq![JsonView::Int(10), JsonView::Str(token), JsonView::Str(serializer)],
                    ),
                ),
            );
            let waited = client.pending.map_values(|b: Seq<u8>| OutboundView::Bytes(b));
            &&& after.state == state
            &&& after.reconnection_token == token
            &&& after.pending.len() == 0
            &&& after.session_id == client.session_id
            &&& after.auth == client.auth
            &&& full is None ==> after.outbox == client.outbox.push(hello) + waited
            &&& full matches Some(s) ==> after.outbox == client.outbox.push(hello).push(
                OutboundView::Bytes(packed(JsonView::Array(seq![JsonView::Int(14), s]))),
            ) + waited
        }),
{
    assert(as_frames(client.pending) =~= client.pending.map_values(
        |b: Seq<u8>| OutboundView::Bytes(b),
    ));
}

/// A room that says no sends the client the error, `[11, code, message]`, and away with
/// the close code for errors; it is not in the room, its seat is free, and the request
/// is answered with the room's error. A room that says yes has had clients.
pub proof fn law_join_is_the_rooms_decision(
    c: ContextView,
    i: int,
    answer: Result<(), ErrorView>,
    token: Seq<char>,
    projected: JsonView,
)
    requires
        0 <= i < c.clients.len(),
        unique_sessions(c.clients),
        c.clients[i].state == ClientState::Joining,
    ensures
        ({
            let sid = c.clients[i].session_id;
            let (after, said) = join_finished(c, sid, answer, token, projected);
            &&& table_get(after.seats, sid) is None
            &&& answer is Ok ==> {
                &&& said is Ok
                &&& after.had_clients
                &&& after.clients.len() == c.clients.len()
                &&& after.clients[i].state == ClientState::Joined
                &&& after.clients[i].session_id == sid
                &&& after.clients[i].reconnection_token == token
            }
            &&& answer matches Err(e) ==> {
                &&& said == Err::<(), ErrorView>(e)
                &&& client_index(after.clients, sid) is None
                &&& after.had_clients == c.had_clients
                &&& after.departed.len() == c.departed.len() + 1
                &&& after.departed.last().session_id == sid
                &&& after.departed.last().outbox == c.clients[i].outbox.push(
                    OutboundView::Bytes(
                        packed(
                            JsonView::Array(
                                seq![
                                    JsonView::Int(11),
                                    JsonView::Int(e.code as int),
                                    JsonView::Str(e.message),
                                ],
                            ),
                        ),
                    ),
                ).push(OutboundView::Close(4002, e.message))
            }
        }),
{
    let sid = c.clients[i].session_id;
    lemma_table_remove(c.seats, sid);
    lemma_only_client(c.clients, i);
    lemma_split_sessions(c.clients, sid);
    if let Err(e) = answer {
        let gone = crate::actor::turned_away(c.clients[i], e);
        let updated = c.clients.update(i, gone);
        assert(unique_sessions(updated)) by {
            assert forall|a: int, b: int| 0 <= a < b < updated.len() implies (
            #[trigger] updated[a]).session_id != (#[trigger] updated[b]).session_id by {
                assert(c.clients[a].session_id != c.clients[b].session_id);
            }
        }
        lemma_of_one_session(updated, i);
        let after = join_finished(c, sid, answer, token, projected).0;
        assert(after.departed =~= c.departed.push(gone));
    }
}

/// In a room in which each session has one client, that client is the first and the
/// last of its session.
proof fn lemma_only_client(cs: Seq<ClientView>, i: int)
    requires
        0 <= i < cs.len(),
        unique_sessions(cs),
    ensures
        client_index(cs, cs[i].session_id) == Some(i),
        crate::room::last_index(cs, cs[i].session_id) == Some(i),
    decreases cs.len(),
{
    let sid = cs[i].session_id;
    lemma_client_index(cs, sid);
    if let Some(k) = client_index(cs, sid) {
        if k < i {
            assert(cs[k].session_id != cs[i].session_id);
        } else if k > i {
            assert(cs[i].session_id != cs[k].session_id);
        }
    } else {
        assert(cs[i].session_id != sid);
    }
    if i < cs.len() - 1 {
        assert(cs[i].session_id != cs[cs.len() - 1].session_id);
        let init = cs.drop_last();
        assert(unique_sessions(init)) by {
            assert forall|a: int, b: int| 0 <= a < b < init.len() implies (
            #[trigger] init[a]).session_id != (#[trigger] init[b]).session_id by {
                assert(cs[a].session_id != cs[b].session_id);
            }
        }
        lemma_only_client(init, i);
    }
}

proof fn lemma_of_one_session(cs: Seq<ClientView>, i: int)
    requires
        0 <= i < cs.len(),
        unique_sessions(cs),
    ensures
        of_session(cs, cs[i].session_id) == seq![cs[i]],
    decreases cs.len(),
{
    let sid = cs[i].session_id;
    let init = cs.drop_last();
    assert(unique_sessions(init)) by {
        assert forall|a: int, b: int| 0 <= a < b < init.len() implies (#[trigger] init[a]).session_id
            != (#[trigger] init[b]).session_id by {
            assert(cs[a].session_id != cs[b].session_id);
        }
    }
    if i < cs.len() - 1 {
        assert(cs[i].session_id != cs[cs.len() - 1].session_id);
        lemma_of_one_session(init, i);
    } else {
        assert forall|k: int| 0 <= k < init.len() implies (#[trigger] init[k]).session_id != sid by {
            assert(cs[k].session_id != cs[i].session_id);
        }
        lemma_of_no_session(init, sid);
        assert(of_session(cs, sid) =~= seq![cs[i]]);
    }
}

proof fn lemma_of_no_session(cs: Seq<ClientView>, sid: Seq<char>)
    requires
        forall|k: int| 0 <= k < cs.len() ==> (#[trigger] cs[k]).session_id != sid,
    ensures
        of_session(cs, sid) =~= seq![],
        without_session(cs, sid) =~= cs,
    decreases cs.len(),
{
    if cs.len() > 0 {
        let init = cs.drop_last();
        assert forall|k: int| 0 <= k < init.len() implies (#[trigger] init[k]).session_id != sid by {
            assert(cs[k].session_id != sid);
        }
        assert(cs[cs.len() - 1].session_id != sid);
        lemma_of_no_session(init, sid);
    }
}

/// Taking a session out leaves exactly the clients of the others, in their order.
pub proof fn law_others_stay(cs: Seq<ClientView>, sid: Seq<char>)
    ensures
        without_session(cs, sid) == cs.filter(|c: ClientView| c.session_id != sid),
        of_session(cs, sid) == cs.filter(|c: ClientView| c.session_id == sid),
        client_index(without_session(cs, sid), sid) is None,
    decreases cs.len(),
{
    lemma_split_sessions(cs, sid);
    reveal(Seq::filter);
    if cs.len() > 0 {
        law_others_stay(cs.drop_last(), sid);
    }
}

proof fn lemma_split_sessions(cs: Seq<ClientView>, sid: Seq<char>)
    ensures
        client_index(without_session(cs, sid), sid) is None,
    decreases cs.len(),
{
    if cs.len() > 0 {
        lemma_split_sessions(cs.drop_last(), sid);
        let before = without_session(cs.drop_last(), sid);
        let after = without_session(cs, sid);
        lemma_client_index(before, sid);
        lemma_client_index(after, sid);
        assert forall|j: int| 0 <= j < after.len() implies (#[trigger] after[j]).session_id
            != sid by {
            if j < before.len() {
                assert(after[j] == before[j]);
            }
        }
    }
}

// ---------------------------------------------------------------------
// messages from clients
// ---------------------------------------------------------------------

/// A message of a client who is in the room, over its own connection and within the
/// room's rate, reaches the handlers as it was sent. One of a client who is not in the
/// room, of another connection or beyond the rate does not. A leave and a ping are no
/// messages.
pub proof fn law_messages_reach_handlers(
    c: ContextView,
    i: int,
    connection_id: Seq<char>,
    t: TypeView,
    payload: JsonView,
    now: u64,
)
    requires
        0 <= i < c.clients.len(),
        unique_sessions(c.clients),
    ensures
        ({
            let x = c.clients[i];
            let sid = x.session_id;
            let own = x.connection_id == connection_id;
            let (after, step) = message_taken(
                c,
                sid,
                connection_id,
                MessageView::Data(t, payload),
                now,
            );
            let passes = c.max_rate is None || rate_checked(x, c.max_rate, now).1;
            &&& own && is_in(x) && passes ==> step == StepView::Dispatch(t, payload)
            &&& !own || !is_in(x) || !passes ==> step is Done
            &&& !own || !is_in(x) ==> after == c
            &&& own ==> message_taken(c, sid, connection_id, MessageView::Leave, now).1 is Leave
            &&& own ==> ({
                let (pinged, pong) = message_taken(c, sid, connection_id, MessageView::Ping, now);
                &&& pong is Done
                &&& pinged.clients[i].outbox == x.outbox.push(OutboundView::Bytes(seq![18u8]))
            })
            &&& !own ==> message_taken(c, sid, connection_id, MessageView::Leave, now) == (
                c,
                StepView::Done,
            )
        }),
{
    lemma_only_client(c.clients, i);
}

/// In each second a client may send as many messages as the room's limit says: the
/// first message of a new window counts as one, and each further one within a second
/// of its start as one more.
pub proof fn law_rate_windows(start: u64, count: u32, now: u64)
    requires
        start <= now,
        count < u32::MAX,
    ensures
        now - start >= 1000 ==> rate_step(start, count, now) == (now, 1u32),
        now - start < 1000 ==> rate_step(start, count, now) == (start, (count + 1) as u32),
{
}

/// A message passes where, with it, its window holds no more messages than the limit.
pub proof fn law_rate_limit_decides(client: ClientView, m: u32, now: u64)
    requires
        client.rate_start <= now,
        client.rate_count < u32::MAX,
    ensures
        rate_checked(client, None, now) == (client, true),
        now - client.rate_start < 1000 ==> rate_checked(client, Some(m), now).1 == (
        client.rate_count + 1 <= m),
        now - client.rate_start >= 1000 ==> rate_checked(client, Some(m), now).1 == (1 <= m),
{
}

// ---------------------------------------------------------------------
// leaving and coming back
// ---------------------------------------------------------------------

/// A client of the room who holds a token is allowed to come back, once: the token is
/// known then for its session, with its auth and user data, for as long as was said or
/// without a limit, and with it the session is let in again. Where the room is being
/// disposed of, or the client holds no token, nothing changes.
pub proof fn law_allowed_client_may_come_back(
    c: ContextView,
    i: int,
    timeout: Option<u64>,
    now: u64,
    back: ClientView,
)
    requires
        0 <= i < c.clients.len(),
        unique_sessions(c.clients),
        timeout matches Some(d) ==> now + d <= u64::MAX,
        back.session_id == c.clients[i].session_id,
    ensures
        ({
            let x = c.clients[i];
            let token = x.reconnection_token;
            let (after, allowed) = session_allowed(c, x.session_id, timeout, now);
            let e = table_get(after.reconnections, token);
            &&& allowed <==> !c.disposing && token.len() > 0 && table_get(c.reconnections, token)
                is None
            &&& !allowed ==> after == c
            &&& allowed ==> {
                &&& e is Some
                &&& e->Some_0.session_id == x.session_id
                &&& e->Some_0.client.auth == x.auth
                &&& e->Some_0.client.user_data == x.user_data
                &&& timeout is None ==> e->Some_0.expires_at is None
                &&& timeout matches Some(d) ==> e->Some_0.expires_at == Some((now + d) as u64)
                &&& table_get(after.seats, x.session_id) matches Some(s) && s.waiting_reconnection
                    && !s.consumed
                &&& connected(after, back, Some(token)).1 is Reconnect
            }
        }),
{
    let x = c.clients[i];
    lemma_only_client(c.clients, i);
    let after = session_allowed(c, x.session_id, timeout, now).0;
    let kept = ClientView {
        state: ClientState::Reconnecting,
        pending: seq![],
        outbox: seq![],
        ..x
    };
    let expires_at = match timeout {
        Some(d) => Some((now + d) as u64),
        None => None,
    };
    lemma_table_set(
        c.reconnections,
        x.reconnection_token,
        crate::room::EntryView { session_id: x.session_id, client: kept, expires_at },
    );
    if session_allowed(c, x.session_id, timeout, now).1 {
        lemma_table_set(
            c.seats,
            x.session_id,
            table_get(after.seats, x.session_id)->Some_0,
        );
        lemma_table_set(
            c.seats,
            x.session_id,
            SeatState {
                options: JsonView::Null,
                auth: x.auth,
                consumed: false,
                waiting_reconnection: true,
                expires_at: match expires_at {
                    Some(t) => t,
                    None => crate::utils::later(now, crate::room::MANUAL_SEAT_MS),
                },
            },
        );
    }
}

/// A token is given up from its time on, and one without a time never is.
pub proof fn law_tokens_expire(e: crate::room::EntryView, now: u64)
    ensures
        e.expires_at matches Some(t) ==> (entry_expired(e, now) <==> now >= t),
        e.expires_at is None ==> !entry_expired(e, now),
{
}

/// The tokens that are given up are exactly those whose time has come.
pub proof fn law_expired_tokens_are_found(
    s: Seq<(Seq<char>, crate::room::EntryView)>,
    now: u64,
    token: Seq<char>,
)
    ensures
        expired_tokens(s, now).contains(token) <==> exists|i: int|
            0 <= i < s.len() && (#[trigger] s[i]).0 == token && s[i].1.expires_at is Some
                && s[i].1.expires_at->Some_0 <= now,
    decreases s.len(),
{
    if s.len() > 0 {
        let init = s.drop_last();
        law_expired_tokens_are_found(init, now, token);
        let before = expired_tokens(init, now);
        let after = expired_tokens(s, now);
        if before.contains(token) {
            let k = choose|k: int| 0 <= k < before.len() && before[k] == token;
            assert(after[k] == token);
            let i = choose|i: int|
                0 <= i < init.len() && (#[trigger] init[i]).0 == token && init[i].1.expires_at
                    is Some && init[i].1.expires_at->Some_0 <= now;
            assert(s[i].0 == token);
        }
        if after.contains(token) && !before.contains(token) {
            assert(s[s.len() - 1].0 == token);
        }
        if exists|i: int|
            0 <= i < s.len() && (#[trigger] s[i]).0 == token && s[i].1.expires_at is Some
                && s[i].1.expires_at->Some_0 <= now {
            let i = choose|i: int|
                0 <= i < s.len() && (#[trigger] s[i]).0 == token && s[i].1.expires_at is Some
                    && s[i].1.expires_at->Some_0 <= now;
            if i < init.len() {
                assert(init[i].0 == token);
            } else {
                assert(after[after.len() - 1] == token);
            }
        }
    }
}

/// A token that was given up leads nowhere, its session has no seat, and every other
/// token is as good as before.
pub proof fn law_expired_token_leads_nowhere(
    c: ContextView,
    token: Seq<char>,
    other: Seq<char>,
    back: ClientView,
)
    requires
        other != token,
    ensures
        connected(token_expired(c, token), back, Some(token)).1 matches ConnectView::Refuse(e)
            && e.code == 524,
        table_get(token_expired(c, token).reconnections, other) == table_get(
            c.reconnections,
            other,
        ),
        table_get(c.reconnections, token) matches Some(e) ==> table_get(
            token_expired(c, token).seats,
            e.session_id,
        ) is None,
{
    lemma_table_remove(c.reconnections, token);
    if let Some(e) = table_get(c.reconnections, token) {
        lemma_table_remove(c.seats, e.session_id);
    }
}

/// Who comes back is seated with the auth and the user data of before, on the new
/// connection.
pub proof fn law_returning_client_is_the_same(client: ClientView, previous: ClientView)
    ensures
        ({
            let back = returning(client, previous);
            &&& back.auth == previous.auth
            &&& previous.user_data is Some ==> back.user_data == previous.user_data
            &&& back.session_id == client.session_id
            &&& back.connection_id == client.connection_id
            &&& back.state == ClientState::Reconnecting
            &&& back.attached
        }),
{
}

/// A connection that is lost is a drop, of which the room is told first, unless the
/// room is being disposed of; a leave that was asked for is none. Who is leaving
/// already is left alone, and so is a session without a client.
pub proof fn law_drops_and_leaves(c: ContextView, i: int, code: u16)
    requires
        0 <= i < c.clients.len(),
        unique_sessions(c.clients),
    ensures
        ({
            let x = c.clients[i];
            let lost = leave_begun(c, x.session_id, code, false);
            let asked = leave_begun(c, x.session_id, code, true);
            let going = x.state == ClientState::Leaving || x.state == ClientState::Closed;
            let waits = table_get(c.reconnections, x.reconnection_token) is Some;
            &&& going ==> lost == (c, LeaveStep::Done) && asked == (c, LeaveStep::Done)
            &&& !going ==> lost.0.clients[i].state == ClientState::Leaving
            &&& !going && !c.disposing ==> lost.1 == LeaveStep::Drop
            &&& !going && !waits ==> asked.1 == LeaveStep::Leave
            &&& !going && waits ==> asked.1 == LeaveStep::Done
        }),
{
    let x = c.clients[i];
    lemma_only_client(c.clients, i);
    let updated = c.clients.update(i, ClientView { state: ClientState::Leaving, ..x });
    assert(unique_sessions(updated)) by {
        assert forall|a: int, b: int| 0 <= a < b < updated.len() implies (
        #[trigger] updated[a]).session_id != (#[trigger] updated[b]).session_id by {
            assert(c.clients[a].session_id != c.clients[b].session_id);
        }
    }
    lemma_only_client(updated, i);
}

/// After a drop the client stays, with its transport closed, where it may come back;
/// otherwise it leaves.
pub proof fn law_dropped_client_waits_where_allowed(c: ContextView, i: int, code: u16)
    requires
        0 <= i < c.clients.len(),
        unique_sessions(c.clients),
    ensures
        ({
            let x = c.clients[i];
            let (after, step) = drop_settled(c, x.session_id, code);
            let waits = table_get(c.reconnections, x.reconnection_token) is Some;
            &&& waits ==> step == LeaveStep::Done && after.clients[i].outbox == x.outbox.push(
                OutboundView::Close(code, "reconnecting"@),
            ) && after.reconnections == c.reconnections
            &&& !waits ==> step == LeaveStep::Leave && after == c
        }),
{
    lemma_only_client(c.clients, i);
}

/// A client who left is not in the room any more, all others are, and the listing
/// shows one less.
pub proof fn law_left_client_is_gone(
    c: ContextView,
    session_id: Seq<char>,
    code: u16,
    consented: bool,
)
    ensures
        ({
            let after = leave_finished(c, session_id, code, consented);
            &&& client_index(after.clients, session_id) is None
            &&& after.clients == c.clients.filter(|x: ClientView| x.session_id != session_id)
            &&& !after.view_snapshots.dom().contains(session_id)
            &&& after.updates.len() == c.updates.len() + 1
            &&& after.updates.last() == listing_of(after)
        }),
{
    law_others_stay(c.clients, session_id);
}

/// A kicked client is told to go, by the close code of a leave, and is leaving; nobody
/// else is touched.
pub proof fn law_kicked_client_is_told(c: ContextView, i: int, j: int)
    requires
        0 <= i < c.clients.len(),
        0 <= j < c.clients.len(),
        i != j,
        unique_sessions(c.clients),
    ensures
        ({
            let after = kicked(c, c.clients[i].session_id);
            &&& after.clients[i].state == ClientState::Leaving
            &&& after.clients[i].outbox == c.clients[i].outbox.push(
                OutboundView::Close(4000, "kicked by admin"@),
            )
            &&& after.clients[j] == c.clients[j]
            &&& after.clients.len() == c.clients.len()
        }),
{
    lemma_only_client(c.clients, i);
}

/// A room that is locked or unlocked is listed as such; where it is already, nothing
/// happens.
pub proof fn law_lock_is_listed(c: ContextView, locked: bool)
    ensures
        lock_set(c, locked).locked == locked,
        c.locked == locked ==> lock_set(c, locked) == c,
        c.locked != locked ==> lock_set(c, locked).updates.len() == c.updates.len() + 1
            && lock_set(c, locked).updates.last().locked == locked,
        lock_set(c, locked).clients == c.clients,
        lock_set(c, locked).seats == c.seats,
{
}

/// A listing tells what the room is.
pub proof fn law_listing_tells_room(c: ContextView)
    requires
        c.clients.len() + pending_seats(c.seats) < 0x1_0000_0000,
    ensures
        ({
            let l = listing_of(c);
            &&& l.room_id == c.room_id
            &&& l.name == c.room_name
            &&& l.clients == c.clients.len() + pending_seats(c.seats)
            &&& l.max_clients == c.max_clients
            &&& l.locked == c.locked
            &&& l.is_private == c.is_private
            &&& l.metadata == c.metadata
            &&& l.created_at == c.created_at
            &&& l.extra == c.filter_extra
            &&& synced(c).updates == c.updates.push(l)
        }),
{
}

/// A room that is disposed of closes every connection with the code, and lets nobody in
/// or back.
pub proof fn law_disposal_sends_everybody_away(c: ContextView, code: u16, i: int)
    requires
        0 <= i < c.clients.len(),
    ensures
        ({
            let after = dispose_begun(c, code);
            let gone = after.departed[c.departed.len() + i];
            &&& after.disposing
            &&& after.clients.len() == 0
            &&& after.seats.len() == 0
            &&& after.reconnections.len() == 0
            &&& gone.session_id == c.clients[i].session_id
            &&& gone.outbox == c.clients[i].outbox.push(OutboundView::Close(code, "room disposed"@))
            &&& seat_refusal(after) is Some
        }),
{
}

/// A room is disposed of of its own accord exactly where it may be, nobody is in it, on
/// the way to it or may come back to it, and somebody was in it before or it waited for
/// the first client long enough.
pub proof fn law_empty_rooms_are_disposed_of(c: ContextView, created_at: u64, now: u64)
    requires
        created_at <= now,
        c.clients.len() == 0,
    ensures
        is_abandoned(c, created_at, now) <==> c.auto_dispose && !c.disposing && c.reconnections.len()
            == 0 && (forall|i: int|
            0 <= i < c.seats.len() ==> (#[trigger] c.seats[i]).1.consumed
                || c.seats[i].1.waiting_reconnection) && (c.had_clients || now - created_at
            >= c.seat_timeout),
{
}

/// A room with somebody in it is not disposed of.
pub proof fn law_busy_rooms_stay(c: ContextView, created_at: u64, now: u64, i: int)
    requires
        0 <= i < c.clients.len(),
        c.clients[i].state != ClientState::Closed,
    ensures
        !is_abandoned(c, created_at, now),
{
}

// ---------------------------------------------------------------------
// timers and new rooms
// ---------------------------------------------------------------------

/// A timer is due exactly from its time on.
pub proof fn law_due_timers(ts: Seq<TimerEntry>, now: u64, x: TimerEntry)
    ensures
        due_timers(ts, now).contains(x) <==> ts.contains(x) && x.at <= now,
    decreases ts.len(),
{
    if ts.len() > 0 {
        let init = ts.drop_last();
        law_due_timers(init, now, x);
        let before = due_timers(init, now);
        let after = due_timers(ts, now);
        if before.contains(x) {
            let k = choose|k: int| 0 <= k < before.len() && before[k] == x;
            assert(after[k] == x);
            let i = choose|i: int| 0 <= i < init.len() && init[i] == x;
            assert(ts[i] == x);
        }
        if after.contains(x) && !before.contains(x) {
            assert(ts[ts.len() - 1] == x);
        }
        if ts.contains(x) && x.at <= now {
            let i = choose|i: int| 0 <= i < ts.len() && ts[i] == x;
            if i < init.len() {
                assert(init[i] == x);
            } else {
                assert(after[after.len() - 1] == x);
            }
        }
    }
}

/// A timer that was cleared is gone, and no other one is.
pub proof fn law_cleared_timer_is_gone(ts: Seq<TimerEntry>, id: u64, x: TimerEntry)
    ensures
        without_timer(ts, id).contains(x) <==> ts.contains(x) && x.id != id,
    decreases ts.len(),
{
    if ts.len() > 0 {
        let init = ts.drop_last();
        law_cleared_timer_is_gone(init, id, x);
        let before = without_timer(init, id);
        let after = without_timer(ts, id);
        if before.contains(x) {
            let k = choose|k: int| 0 <= k < before.len() && before[k] == x;
            assert(after[k] == x);
            let i = choose|i: int| 0 <= i < init.len() && init[i] == x;
            assert(ts[i] == x);
        }
        if after.contains(x) && !before.contains(x) {
            assert(ts[ts.len() - 1] == x);
        }
        if ts.contains(x) && x.id != id {
            let i = choose|i: int| 0 <= i < ts.len() && ts[i] == x;
            if i < init.len() {
                assert(init[i] == x);
            } else {
                assert(after[after.len() - 1] == x);
            }
        }
    }
}

/// A new room is open to everybody: it has no limit, no lock, no privacy, no state and
/// nobody in it. Seats wait fifteen seconds, patches go out every fifty milliseconds,
/// and it is disposed of when it is empty.
pub proof fn law_new_room_is_open(
    room_id: Seq<char>,
    room_name: Seq<char>,
    process_id: Seq<char>,
    created_at: u64,
    extra: Map<Seq<char>, JsonView>,
    persistence: Option<PersistenceConfig>,
    now: u128,
)
    ensures
        ({
            let c = fresh_context(
                room_id,
                room_name,
                process_id,
                created_at,
                extra,
                persistence,
                now,
            );
            &&& seat_refusal(c) is None
            &&& listing_of(c).clients == 0
            &&& listing_of(c).room_id == room_id
            &&& listing_of(c).name == room_name
            &&& listing_of(c).extra == extra
            &&& !listing_of(c).locked
            &&& !listing_of(c).is_private
            &&& c.state is None
            &&& c.max_rate is None
            &&& c.seat_timeout == 15000
            &&& c.patch_rate == Some(50u64)
            &&& c.sim_interval is None
            &&& c.auto_dispose
            &&& !c.had_clients
            &&& c.timers.len() == 0
            &&& c.clock_shown == 0
        }),
{
}

// ---------------------------------------------------------------------
// more ways to tell clients something
// ---------------------------------------------------------------------

/// A broadcast may leave one session out, and may wait for the next patch: then nobody is
/// sent anything now, and it waits behind those that wait already.
pub proof fn law_broadcast_with_options(
    c: ContextView,
    t: TypeView,
    m: JsonView,
    except: Option<Seq<char>>,
    i: int,
)
    requires
        0 <= i < c.clients.len(),
    ensures
        ({
            let now = broadcasted_with(c, t, m, except, false);
            let then = broadcasted_with(c, t, m, except, true);
            let left_out = except == Some(c.clients[i].session_id);
            &&& is_in(c.clients[i]) && !left_out ==> now.clients[i].outbox
                == c.clients[i].outbox.push(OutboundView::Bytes(message_bytes(t, m)))
            &&& !is_in(c.clients[i]) || left_out ==> now.clients[i] == c.clients[i]
            &&& now.after_patch == c.after_patch
            &&& then.clients == c.clients
            &&& then.after_patch.len() == c.after_patch.len() + 1
            &&& then.after_patch.last().bytes == message_bytes(t, m)
            &&& then.after_patch.last().target == TargetView::Broadcast(except)
        }),
{
}

/// Raw bytes go to everybody who is in, as `[17, type, bytes]`.
pub proof fn law_bytes_reach_everybody(c: ContextView, t: TypeView, payload: Seq<u8>, i: int)
    requires
        0 <= i < c.clients.len(),
    ensures
        is_in(c.clients[i]) ==> bytes_broadcasted(c, t, payload).clients[i].outbox
            == c.clients[i].outbox.push(
            OutboundView::Bytes(packed_triple(17, wire_type(t), payload)),
        ),
        !is_in(c.clients[i]) ==> bytes_broadcasted(c, t, payload).clients[i] == c.clients[i],
{
}

/// A timer has an id of its own and is due when its delay is over; the others stay.
pub proof fn law_timer_is_set(c: ContextView, delay: u64, now: u64)
    requires
        c.next_timer_id < u64::MAX,
        now + delay <= u64::MAX,
    ensures
        ({
            let after = timeout_set(c, delay, now);
            &&& after.timers == c.timers.push(after.timers.last())
            &&& after.timers.last().at == now + delay
            &&& after.timers.last().id == c.next_timer_id + 1
            &&& after.next_timer_id == c.next_timer_id + 1
            &&& due_timers(seq![after.timers.last()], (now + delay) as u64).len() == 1
        }),
{
    let x = timeout_set(c, delay, now).timers.last();
    assert(seq![x].drop_last() =~= seq![]);
    reveal_with_fuel(due_timers, 2);
}

/// A client that has just come is on its way in, with nothing to its name.
pub proof fn law_new_client_knows_nothing(connection_id: Seq<char>, session_id: Seq<char>, now: u64)
    ensures
        ({
            let c = new_client(connection_id, session_id, now);
            &&& c.state == ClientState::Joining
            &&& c.connection_id == connection_id
            &&& c.session_id == session_id
            &&& c.auth is None
            &&& c.user_data is None
            &&& c.reconnection_token.len() == 0
            &&& c.outbox.len() == 0
            &&& c.pending.len() == 0
            &&& c.rate_count == 0
            &&& c.rate_start == now
        }),
{
}

/// A client that is asked to leave is told so by the close code, a normal one where
/// none is given, and is leaving.
pub proof fn law_client_is_asked_to_leave(
    c: ClientView,
    code: u16,
    reason: Seq<char>,
    err: Seq<char>,
)
    ensures
        asked_to_leave(c, Some(code), Some(reason)).outbox == c.outbox.push(
            OutboundView::Close(code, reason),
        ),
        asked_to_leave(c, None, None).outbox == c.outbox.push(OutboundView::Close(1000, seq![])),
        asked_to_leave(c, Some(code), Some(reason)).state == ClientState::Leaving,
        payload_refused(c, err).outbox == c.outbox.push(
            OutboundView::Bytes(
                packed(
                    JsonView::Array(
                        seq![
                            JsonView::Int(11),
                            JsonView::Int(4217),
                            JsonView::Str("invalid payload: "@ + err),
                        ],
                    ),
                ),
            ),
        ),
        payload_refused(c, err).state == c.state,
{
}

/// An error of a handler reaches the client it was for, and nobody else.
pub proof fn law_error_reaches_client(c: ContextView, i: int, j: int, e: ErrorView)
    requires
        unique_sessions(c.clients),
        0 <= i < c.clients.len(),
        0 <= j < c.clients.len(),
        i != j,
    ensures
        ({
            let after = error_reported(c, c.clients[i].session_id, e);
            &&& after.clients[i].outbox == c.clients[i].outbox.push(
                OutboundView::Bytes(
                    packed(
                        JsonView::Array(
                            seq![
                                JsonView::Int(11),
                                JsonView::Int(e.code as int),
                                JsonView::Str(e.message),
                            ],
                        ),
                    ),
                ),
            )
            &&& after.clients[j] == c.clients[j]
        }),
{
    lemma_only_client(c.clients, i);
}

/// Who comes back is welcomed as the same session with a new token: with the state as it
/// is now, or with its own projection of it, and the serializer that goes with it. The
/// others are sent nothing.
pub proof fn law_returning_client_is_welcomed(
    c: ContextView,
    i: int,
    j: int,
    token: Seq<char>,
    projected: JsonView,
)
    requires
        unique_sessions(c.clients),
        0 <= i < c.clients.len(),
        0 <= j < c.clients.len(),
        i != j,
    ensures
        ({
            let x = c.clients[i];
            let after = welcomed(c, x.session_id, ClientState::Reconnected, token, projected);
            let shown = if c.view_filter {
                projected
            } else {
                c.state->Some_0.0
            };
            &&& after.clients.len() == c.clients.len()
            &&& after.clients[j] == c.clients[j]
            &&& after.clients[i].state == ClientState::Reconnected
            &&& after.clients[i].session_id == x.session_id
            &&& after.clients[i].reconnection_token == token
            &&& c.state is Some ==> after.clients[i].outbox == x.outbox.push(
                hello(token, "json-patch"@),
            ).push(
                OutboundView::Bytes(packed(JsonView::Array(seq![JsonView::Int(14), shown]))),
            ) + x.pending.map_values(|b: Seq<u8>| OutboundView::Bytes(b))
            &&& c.state is None ==> after.clients[i].outbox == x.outbox.push(hello(token, "none"@))
                + x.pending.map_values(|b: Seq<u8>| OutboundView::Bytes(b))
            &&& c.state is Some ==> after.view_snapshots.dom().contains(x.session_id)
                && after.view_snapshots[x.session_id] == shown
        }),
{
    lemma_only_client(c.clients, i);
    let x = c.clients[i];
    let full = full_state(c, projected);
    law_welcome(x, ClientState::Reconnected, token, serializer_of(c), full);
}

/// The frame that greets a client.
pub open spec fn hello(token: Seq<char>, serializer: Seq<char>) -> OutboundView {
    OutboundView::Bytes(
        packed(
            JsonView::Array(
                seq![JsonView::Int(10), JsonView::Str(token), JsonView::Str(serializer)],
            ),
        ),
    )
}

/// Seats that expired are given up and no others, and the listing shows it.
pub proof fn law_expired_seats_are_given_up(
    c: ContextView,
    now: u64,
    e: (Seq<char>, SeatState),
)
    ensures
        seats_expired(c, now).seats.contains(e) <==> c.seats.contains(e) && (e.1.consumed
            || e.1.waiting_reconnection || e.1.expires_at > now),
        seats_expired(c, now).clients == c.clients,
        seats_expired(c, now).seats.len() != c.seats.len() ==> seats_expired(c, now).updates.len()
            == c.updates.len() + 1,
{
    lemma_live_seats(c.seats, now, e);
    if live_seats(c.seats, now).len() == c.seats.len() {
        lemma_all_live(c.seats, now);
    }
}

proof fn lemma_live_seats(s: Seq<(Seq<char>, SeatState)>, now: u64, e: (Seq<char>, SeatState))
    ensures
        live_seats(s, now).contains(e) <==> s.contains(e) && !seat_expired(e.1, now),
    decreases s.len(),
{
    if s.len() > 0 {
        let init = s.drop_last();
        lemma_live_seats(init, now, e);
        let before = live_seats(init, now);
        let after = live_seats(s, now);
        if before.contains(e) {
            let k = choose|k: int| 0 <= k < before.len() && before[k] == e;
            assert(after[k] == e);
            let i = choose|i: int| 0 <= i < init.len() && init[i] == e;
            assert(s[i] == e);
        }
        if after.contains(e) && !before.contains(e) {
            assert(s[s.len() - 1] == e);
        }
        if s.contains(e) && !seat_expired(e.1, now) {
            let i = choose|i: int| 0 <= i < s.len() && s[i] == e;
            if i < init.len() {
                assert(init[i] == e);
            } else {
                assert(after[after.len() - 1] == e);
            }
        }
    }
}

proof fn lemma_all_live(s: Seq<(Seq<char>, SeatState)>, now: u64)
    ensures
        live_seats(s, now).len() <= s.len(),
        live_seats(s, now).len() == s.len() ==> live_seats(s, now) == s,
    decreases s.len(),
{
    if s.len() > 0 {
        lemma_all_live(s.drop_last(), now);
        if live_seats(s, now).len() == s.len() {
            assert(live_seats(s, now) =~= s);
        }
    }
}

// ---------------------------------------------------------------------
// rounds of a room
// ---------------------------------------------------------------------

/// A room is disposed of with the code that was asked for, or else, where it is
/// abandoned, with that of a leave.
pub proof fn law_when_room_is_disposed_of(c: ContextView, created_at: u64, now: u64, code: u16)
    ensures
        c.request_dispose == Some(code) ==> disposal_due(c, created_at, now) == Some(code),
        c.request_dispose is None && is_abandoned(c, created_at, now) ==> disposal_due(
            c,
            created_at,
            now,
        ) == Some(4000u16),
        c.request_dispose is None && !is_abandoned(c, created_at, now) ==> disposal_due(
            c,
            created_at,
            now,
        ) is None,
{
}

/// A round of patches sends each client who is in what changed, and behind it, whether
/// anything changed or not, what waited for it. The room is saved only after a change.
pub proof fn law_round_of_patches(
    c: ContextView,
    last_save: Option<u64>,
    views: Seq<JsonView>,
    now: u64,
    clock_now: u128,
    i: int,
)
    requires
        c.state is Some,
        !c.view_filter,
        c.sim_interval is Some,
        c.after_patch.len() == 0,
        finite_view(c.state->Some_0.0),
        finite_view(c.state->Some_0.1),
        0 <= i < c.clients.len(),
    ensures
        ({
            let (current, told) = c.state->Some_0;
            let (after, changed, save) = patch_ticked(c, last_save, views, now, clock_now);
            &&& changed <==> !same(told, current)
            &&& save ==> changed
            &&& !changed ==> after == c
            &&& changed && is_in(c.clients[i]) ==> after.clients[i].outbox
                == c.clients[i].outbox.push(
                OutboundView::Bytes(
                    packed(JsonView::Array(seq![JsonView::Int(15), patch_of(told, current)])),
                ),
            )
        }),
{
    law_patch_brings_everybody_up_to_date(c, views, i);
    let after = state_patched(c, views).0;
    law_deferred_messages_keep_order(
        after,
        ItemView { target: TargetView::Broadcast(None), bytes: seq![] },
    );
}

/// A round leaves nothing deferred.
pub proof fn law_round_leaves_nothing_deferred(
    c: ContextView,
    last_save: Option<u64>,
    views: Seq<JsonView>,
    now: u64,
    clock_now: u128,
)
    ensures
        patch_ticked(c, last_save, views, now, clock_now).0.after_patch.len() == 0,
{
}

}
