//! What a restart keeps: who may come back to a room, who is on the way to it, and for
//! how long.

use crate::actor::{connected, ConnectView};
use crate::client::{joined_state, ClientView};
use crate::lifecycle::{
    dispose_begun, entries_put_back, entry_again, is_final_write, kept_clients, kept_entries,
    kept_seats, restored, save_due, seat_again, seats_put_back, snapshot_of_room, waiting_put_back,
    waiting_seat, FinalWrite,
};
use crate::room::{ContextView, EntryView, SeatState};
use crate::snapshot::{ReconnectionView, SeatView};
use crate::table::{lemma_table_index, lemma_table_set, table_get, table_index};
use vstd::prelude::*;

verus! {

/// The time that is left until `t`.
pub open spec fn left_until(t: int, now: int) -> int {
    if t > now {
        t - now
    } else {
        0
    }
}

// ---------------------------------------------------------------------
// putting back
// ---------------------------------------------------------------------

proof fn lemma_entry_put_back(
    s: Seq<(Seq<char>, EntryView)>,
    kept: Seq<ReconnectionView>,
    token: Seq<char>,
    i: int,
    now: u64,
    sys_now: u64,
)
    requires
        -1 <= i < kept.len(),
        i >= 0 ==> kept[i].token == token,
        forall|j: int| i < j < kept.len() ==> (#[trigger] kept[j]).token != token,
    ensures
        table_get(entries_put_back(s, kept, now, sys_now), token) == if i >= 0 {
            Some(entry_again(kept[i], now, sys_now))
        } else {
            table_get(s, token)
        },
    decreases kept.len(),
{
    if kept.len() > 0 {
        let init = kept.drop_last();
        let t = entries_put_back(s, init, now, sys_now);
        lemma_table_set(t, kept.last().token, entry_again(kept.last(), now, sys_now));
        if i < kept.len() - 1 {
            assert(kept[kept.len() - 1].token != token);
            assert forall|j: int| i < j < init.len() implies (#[trigger] init[j]).token != token by {
                assert(kept[j].token != token);
            }
            lemma_entry_put_back(s, init, token, i, now, sys_now);
        }
    }
}

proof fn lemma_seat_put_back(
    s: Seq<(Seq<char>, SeatState)>,
    kept: Seq<SeatView>,
    session_id: Seq<char>,
    i: int,
    now: u64,
    sys_now: u64,
)
    requires
        -1 <= i < kept.len(),
        i >= 0 ==> kept[i].session_id == session_id,
        forall|j: int| i < j < kept.len() ==> (#[trigger] kept[j]).session_id != session_id,
    ensures
        table_get(seats_put_back(s, kept, now, sys_now), session_id) == if i >= 0 {
            Some(seat_again(kept[i], now, sys_now))
        } else {
            table_get(s, session_id)
        },
    decreases kept.len(),
{
    if kept.len() > 0 {
        let init = kept.drop_last();
        let t = seats_put_back(s, init, now, sys_now);
        lemma_table_set(t, kept.last().session_id, seat_again(kept.last(), now, sys_now));
        if i < kept.len() - 1 {
            assert(kept[kept.len() - 1].session_id != session_id);
            assert forall|j: int| i < j < init.len() implies (#[trigger] init[j]).session_id
                != session_id by {
                assert(kept[j].session_id != session_id);
            }
            lemma_seat_put_back(s, init, session_id, i, now, sys_now);
        }
    }
}

proof fn lemma_waiting_put_back(
    s: Seq<(Seq<char>, SeatState)>,
    kept: Seq<ReconnectionView>,
    session_id: Seq<char>,
    now: u64,
    sys_now: u64,
)
    ensures
        (exists|i: int| 0 <= i < kept.len() && (#[trigger] kept[i]).session_id == session_id) ==> (
        table_get(waiting_put_back(s, kept, now, sys_now), session_id) matches Some(seat)
            && seat.waiting_reconnection && !seat.consumed),
        (forall|i: int| 0 <= i < kept.len() ==> (#[trigger] kept[i]).session_id != session_id)
            ==> table_get(waiting_put_back(s, kept, now, sys_now), session_id) == table_get(
            s,
            session_id,
        ),
    decreases kept.len(),
{
    if kept.len() > 0 {
        let init = kept.drop_last();
        let t = waiting_put_back(s, init, now, sys_now);
        lemma_table_set(t, kept.last().session_id, waiting_seat(kept.last(), now, sys_now));
        lemma_waiting_put_back(s, init, session_id, now, sys_now);
        if exists|i: int| 0 <= i < kept.len() && (#[trigger] kept[i]).session_id == session_id {
            let i = choose|i: int|
                0 <= i < kept.len() && (#[trigger] kept[i]).session_id == session_id;
            if i < init.len() {
                assert(init[i].session_id == session_id);
            }
        } else {
            assert(kept[kept.len() - 1].session_id != session_id);
            assert forall|i: int| 0 <= i < init.len() implies (#[trigger] init[i]).session_id
                != session_id by {
                assert(kept[i].session_id != session_id);
            }
        }
    }
}

/// What is kept of clients in the room: of each who joined and holds a token of their
/// own, and of nobody else.
proof fn lemma_kept_clients(
    cs: Seq<ClientView>,
    s: Seq<(Seq<char>, EntryView)>,
    i: int,
)
    requires
        -1 <= i < cs.len(),
        i >= 0 ==> joined_state(cs[i].state) && cs[i].reconnection_token.len() > 0 && table_get(
            s,
            cs[i].reconnection_token,
        ) is None,
        forall|j: int|
            0 <= i < j < cs.len() ==> (#[trigger] cs[j]).reconnection_token
                != cs[i].reconnection_token,
    ensures
        i >= 0 ==> exists|k: int|
            0 <= k < kept_clients(cs, s).len() && (#[trigger] kept_clients(cs, s)[k]).token
                == cs[i].reconnection_token && kept_clients(cs, s)[k].session_id
                == cs[i].session_id && kept_clients(cs, s)[k].auth == cs[i].auth && kept_clients(
                cs,
                s,
            )[k].user_data == cs[i].user_data && kept_clients(cs, s)[k].expires_at_ms is None
                && forall|m: int|
                k < m < kept_clients(cs, s).len() ==> (#[trigger] kept_clients(cs, s)[m]).token
                    != cs[i].reconnection_token,
        forall|k: int|
            0 <= k < kept_clients(cs, s).len() ==> table_get(
                s,
                (#[trigger] kept_clients(cs, s)[k]).token,
            ) is None && exists|j: int|
                0 <= j < cs.len() && joined_state((#[trigger] cs[j]).state)
                    && cs[j].reconnection_token == kept_clients(cs, s)[k].token && cs[j].session_id
                    == kept_clients(cs, s)[k].session_id,
    decreases cs.len(),
{
    if cs.len() > 0 {
        let init = cs.drop_last();
        let before = kept_clients(init, s);
        let after = kept_clients(cs, s);
        let last = cs.last();
        assert(cs[cs.len() - 1] == last);
        if 0 <= i < init.len() {
            assert forall|j: int| i < j < init.len() implies (#[trigger] init[j]).reconnection_token
                != init[i].reconnection_token by {
                assert(cs[j].reconnection_token != cs[i].reconnection_token);
            }
            lemma_kept_clients(init, s, i);
            let k = choose|k: int|
                0 <= k < before.len() && (#[trigger] before[k]).token == init[i].reconnection_token
                    && before[k].session_id == init[i].session_id && before[k].auth == init[i].auth
                    && before[k].user_data == init[i].user_data && before[k].expires_at_ms is None
                    && forall|m: int|
                    k < m < before.len() ==> (#[trigger] before[m]).token
                        != init[i].reconnection_token;
            assert(after[k] == before[k]);
            assert forall|m: int| k < m < after.len() implies (#[trigger] after[m]).token
                != cs[i].reconnection_token by {
                if m < before.len() {
                    assert(after[m] == before[m]);
                } else {
                    assert(cs[cs.len() - 1].reconnection_token != cs[i].reconnection_token);
                }
            }
        } else {
            lemma_kept_clients(init, s, -1);
            if i == init.len() {
                assert(after[before.len() as int].token == cs[i].reconnection_token);
            }
        }
        assert forall|k: int| 0 <= k < after.len() implies table_get(s, (#[trigger] after[k]).token)
            is None && exists|j: int|
            0 <= j < cs.len() && joined_state((#[trigger] cs[j]).state) && cs[j].reconnection_token
                == after[k].token && cs[j].session_id == after[k].session_id by {
            if k < before.len() {
                assert(after[k] == before[k]);
                let j = choose|j: int|
                    0 <= j < init.len() && joined_state((#[trigger] init[j]).state)
                        && init[j].reconnection_token == before[k].token && init[j].session_id
                        == before[k].session_id;
                assert(cs[j] == init[j]);
            } else {
                assert(joined_state(cs[cs.len() - 1].state));
            }
        }
    }
}

// ---------------------------------------------------------------------
// tokens
// ---------------------------------------------------------------------

/// Who may come back to a room may come back to it after a restart: with the same
/// token, as the same session, with the same auth and user data, until the same
/// wall-clock time or without a limit as before. With the token the session is let in
/// again, and no other session is.
pub proof fn law_tokens_survive_restart(
    c: ContextView,
    fresh: ContextView,
    token: Seq<char>,
    now: u64,
    sys_now: u64,
    clock_now: u128,
    later_now: u64,
    later_sys: u64,
    back: ClientView,
)
    requires
        table_get(c.reconnections, token) is Some,
    ensures
        ({
            let e = table_get(c.reconnections, token)->Some_0;
            let r = restored(
                fresh,
                snapshot_of_room(c, now, sys_now),
                clock_now,
                later_now,
                later_sys,
            );
            let again = table_get(r.reconnections, token);
            &&& again is Some
            &&& again->Some_0.session_id == e.session_id
            &&& again->Some_0.client.session_id == e.session_id
            &&& again->Some_0.client.reconnection_token == token
            &&& again->Some_0.client.auth == e.client.auth
            &&& again->Some_0.client.user_data == e.client.user_data
            &&& e.expires_at is None ==> again->Some_0.expires_at is None
            &&& e.expires_at matches Some(t) ==> {
                let wall = sys_now + left_until(t as int, now as int);
                let end = later_now + left_until(wall, later_sys as int);
                wall <= u64::MAX && end <= u64::MAX ==> again->Some_0.expires_at == Some(end as u64)
            }
            &&& table_get(r.seats, e.session_id) is Some
            &&& table_get(r.seats, e.session_id)->Some_0.waiting_reconnection
            &&& !table_get(r.seats, e.session_id)->Some_0.consumed
            &&& back.session_id == e.session_id ==> connected(r, back, Some(token)).1 is Reconnect
            &&& back.session_id != e.session_id ==> connected(r, back, Some(token)).1 is Refuse
        }),
{
    let s = snapshot_of_room(c, now, sys_now);
    let entries = kept_entries(c.reconnections, now, sys_now);
    let held = kept_clients(c.clients, c.reconnections);
    let kept = entries + held;
    lemma_table_index(c.reconnections, token);
    let i = table_index(c.reconnections, token)->Some_0;
    lemma_kept_clients(c.clients, c.reconnections, -1);
    assert(kept[i] == entries[i]);
    assert(kept[i].token == token);
    assert(kept[i].session_id == table_get(c.reconnections, token)->Some_0.session_id);
    assert forall|j: int| i < j < kept.len() implies (#[trigger] kept[j]).token != token by {
        if j < entries.len() {
            assert(kept[j] == entries[j]);
            assert(c.reconnections[j].0 != token);
        } else {
            assert(kept[j] == held[j - entries.len()]);
        }
    }
    lemma_entry_put_back(fresh.reconnections, kept, token, i, later_now, later_sys);
    let seats = seats_put_back(fresh.seats, s.seats, later_now, later_sys);
    lemma_waiting_put_back(seats, kept, kept[i].session_id, later_now, later_sys);
}

/// A client who is in the room when it is kept may come back with the token that the
/// handshake gave, without a time limit.
pub proof fn law_clients_may_come_back_after_restart(
    c: ContextView,
    fresh: ContextView,
    i: int,
    now: u64,
    sys_now: u64,
    clock_now: u128,
    later_now: u64,
    later_sys: u64,
    back: ClientView,
)
    requires
        0 <= i < c.clients.len(),
        joined_state(c.clients[i].state),
        c.clients[i].reconnection_token.len() > 0,
        table_get(c.reconnections, c.clients[i].reconnection_token) is None,
        forall|j: int|
            i < j < c.clients.len() ==> (#[trigger] c.clients[j]).reconnection_token
                != c.clients[i].reconnection_token,
        back.session_id == c.clients[i].session_id,
    ensures
        ({
            let x = c.clients[i];
            let r = restored(
                fresh,
                snapshot_of_room(c, now, sys_now),
                clock_now,
                later_now,
                later_sys,
            );
            let again = table_get(r.reconnections, x.reconnection_token);
            &&& again is Some
            &&& again->Some_0.session_id == x.session_id
            &&& again->Some_0.client.auth == x.auth
            &&& again->Some_0.client.user_data == x.user_data
            &&& again->Some_0.expires_at is None
            &&& connected(r, back, Some(x.reconnection_token)).1 is Reconnect
        }),
{
    let x = c.clients[i];
    let entries = kept_entries(c.reconnections, now, sys_now);
    let held = kept_clients(c.clients, c.reconnections);
    let kept = entries + held;
    lemma_kept_clients(c.clients, c.reconnections, i);
    let k = choose|k: int|
        0 <= k < held.len() && (#[trigger] held[k]).token == x.reconnection_token
            && held[k].session_id == x.session_id && held[k].auth == x.auth && held[k].user_data
            == x.user_data && held[k].expires_at_ms is None && forall|m: int|
            k < m < held.len() ==> (#[trigger] held[m]).token != x.reconnection_token;
    let at = entries.len() + k;
    assert(kept[at] == held[k]);
    assert forall|j: int| at < j < kept.len() implies (#[trigger] kept[j]).token
        != x.reconnection_token by {
        assert(kept[j] == held[j - entries.len()]);
    }
    lemma_entry_put_back(
        fresh.reconnections,
        kept,
        x.reconnection_token,
        at,
        later_now,
        later_sys,
    );
}

/// A restart gives nobody a token: one that is good afterwards was good before, for
/// the same room, or is a client's who was in the room.
pub proof fn law_restart_makes_no_token(
    c: ContextView,
    fresh: ContextView,
    token: Seq<char>,
    now: u64,
    sys_now: u64,
    clock_now: u128,
    later_now: u64,
    later_sys: u64,
)
    requires
        table_get(fresh.reconnections, token) is None,
        table_get(c.reconnections, token) is None,
        forall|i: int|
            0 <= i < c.clients.len() && joined_state((#[trigger] c.clients[i]).state)
                ==> c.clients[i].reconnection_token != token,
    ensures
        table_get(
            restored(
                fresh,
                snapshot_of_room(c, now, sys_now),
                clock_now,
                later_now,
                later_sys,
            ).reconnections,
            token,
        ) is None,
{
    let entries = kept_entries(c.reconnections, now, sys_now);
    let held = kept_clients(c.clients, c.reconnections);
    let kept = entries + held;
    lemma_table_index(c.reconnections, token);
    lemma_kept_clients(c.clients, c.reconnections, -1);
    assert forall|j: int| -1 < j < kept.len() implies (#[trigger] kept[j]).token != token by {
        if j < entries.len() {
            assert(kept[j] == entries[j]);
            assert(c.reconnections[j].0 != token);
        } else {
            let k = j - entries.len();
            assert(kept[j] == held[k]);
            let m = choose|m: int|
                0 <= m < c.clients.len() && joined_state((#[trigger] c.clients[m]).state)
                    && c.clients[m].reconnection_token == held[k].token && c.clients[m].session_id
                    == held[k].session_id;
            assert(c.clients[m].reconnection_token != token);
        }
    }
    lemma_entry_put_back(fresh.reconnections, kept, token, -1, later_now, later_sys);
}

// ---------------------------------------------------------------------
// seats
// ---------------------------------------------------------------------

proof fn lemma_kept_seats(
    s: Seq<(Seq<char>, SeatState)>,
    i: int,
    now: u64,
    sys_now: u64,
)
    requires
        0 <= i < s.len(),
        !s[i].1.consumed,
        !s[i].1.waiting_reconnection,
        forall|j: int| i < j < s.len() ==> (#[trigger] s[j]).0 != s[i].0,
    ensures
        exists|k: int|
            0 <= k < kept_seats(s, now, sys_now).len() && (#[trigger] kept_seats(
                s,
                now,
                sys_now,
            )[k]).session_id == s[i].0 && kept_seats(s, now, sys_now)[k].options == s[i].1.options
                && kept_seats(s, now, sys_now)[k].auth == s[i].1.auth && (sys_now + left_until(
                s[i].1.expires_at as int,
                now as int,
            ) <= u64::MAX ==> kept_seats(s, now, sys_now)[k].expires_at_ms == sys_now + left_until(
                s[i].1.expires_at as int,
                now as int,
            )) && forall|m: int|
                k < m < kept_seats(s, now, sys_now).len() ==> (#[trigger] kept_seats(
                    s,
                    now,
                    sys_now,
                )[m]).session_id != s[i].0,
    decreases s.len(),
{
    let init = s.drop_last();
    let before = kept_seats(init, now, sys_now);
    let after = kept_seats(s, now, sys_now);
    if i == s.len() - 1 {
        assert(after[before.len() as int].session_id == s[i].0);
    } else {
        assert forall|j: int| i < j < init.len() implies (#[trigger] init[j]).0 != init[i].0 by {
            assert(s[j].0 != s[i].0);
        }
        lemma_kept_seats(init, i, now, sys_now);
        let wall = sys_now + left_until(s[i].1.expires_at as int, now as int);
        let k = choose|k: int|
            0 <= k < before.len() && (#[trigger] before[k]).session_id == init[i].0
                && before[k].options == init[i].1.options && before[k].auth == init[i].1.auth && (
            sys_now + left_until(init[i].1.expires_at as int, now as int) <= u64::MAX
                ==> before[k].expires_at_ms == sys_now + left_until(
                init[i].1.expires_at as int,
                now as int,
            )) && forall|m: int|
                k < m < before.len() ==> (#[trigger] before[m]).session_id != init[i].0;
        assert(after[k] == before[k]);
        assert forall|m: int| k < m < after.len() implies (#[trigger] after[m]).session_id
            != s[i].0 by {
            if m < before.len() {
                assert(after[m] == before[m]);
            } else {
                assert(s[s.len() - 1].0 != s[i].0);
            }
        }
    }
}

/// A seat that waits for its client waits for it after a restart: with the same
/// options and auth data, until the same wall-clock time. (Where the session may also
/// come back with a token, its seat waits for that.)
pub proof fn law_seats_survive_restart(
    c: ContextView,
    fresh: ContextView,
    session_id: Seq<char>,
    now: u64,
    sys_now: u64,
    clock_now: u128,
    later_now: u64,
    later_sys: u64,
    client: ClientView,
)
    requires
        table_get(c.seats, session_id) is Some,
        !table_get(c.seats, session_id)->Some_0.consumed,
        !table_get(c.seats, session_id)->Some_0.waiting_reconnection,
        forall|i: int|
            0 <= i < c.reconnections.len() ==> (#[trigger] c.reconnections[i]).1.session_id
                != session_id,
        forall|i: int|
            0 <= i < c.clients.len() ==> (#[trigger] c.clients[i]).session_id != session_id,
        client.session_id == session_id,
    ensures
        ({
            let seat = table_get(c.seats, session_id)->Some_0;
            let r = restored(
                fresh,
                snapshot_of_room(c, now, sys_now),
                clock_now,
                later_now,
                later_sys,
            );
            let again = table_get(r.seats, session_id);
            let wall = sys_now + left_until(seat.expires_at as int, now as int);
            let end = later_now + left_until(wall, later_sys as int);
            &&& again is Some
            &&& again->Some_0.options == seat.options
            &&& again->Some_0.auth == seat.auth
            &&& !again->Some_0.consumed
            &&& !again->Some_0.waiting_reconnection
            &&& wall <= u64::MAX && end <= u64::MAX ==> again->Some_0.expires_at == end
            &&& connected(r, client, None).1 == ConnectView::Join(seat.options, seat.auth)
        }),
{
    let s = snapshot_of_room(c, now, sys_now);
    lemma_table_index(c.seats, session_id);
    let i = table_index(c.seats, session_id)->Some_0;
    lemma_kept_seats(c.seats, i, now, sys_now);
    let seats = kept_seats(c.seats, now, sys_now);
    let k = choose|k: int|
        0 <= k < seats.len() && (#[trigger] seats[k]).session_id == c.seats[i].0 && seats[k].options
            == c.seats[i].1.options && seats[k].auth == c.seats[i].1.auth && (sys_now + left_until(
            c.seats[i].1.expires_at as int,
            now as int,
        ) <= u64::MAX ==> seats[k].expires_at_ms == sys_now + left_until(
            c.seats[i].1.expires_at as int,
            now as int,
        )) && forall|m: int| k < m < seats.len() ==> (#[trigger] seats[m]).session_id != c.seats[i].0;
    lemma_seat_put_back(fresh.seats, seats, session_id, k, later_now, later_sys);
    let entries = kept_entries(c.reconnections, now, sys_now);
    let held = kept_clients(c.clients, c.reconnections);
    let kept = entries + held;
    lemma_kept_clients(c.clients, c.reconnections, -1);
    assert forall|j: int| 0 <= j < kept.len() implies (#[trigger] kept[j]).session_id
        != session_id by {
        if j < entries.len() {
            assert(kept[j] == entries[j]);
            assert(c.reconnections[j].1.session_id != session_id);
        } else {
            let h = j - entries.len();
            assert(kept[j] == held[h]);
            let m = choose|m: int|
                0 <= m < c.clients.len() && joined_state((#[trigger] c.clients[m]).state)
                    && c.clients[m].reconnection_token == held[h].token && c.clients[m].session_id
                    == held[h].session_id;
            assert(c.clients[m].session_id != session_id);
        }
    }
    lemma_waiting_put_back(
        seats_put_back(fresh.seats, s.seats, later_now, later_sys),
        kept,
        session_id,
        later_now,
        later_sys,
    );
}

// ---------------------------------------------------------------------
// writing
// ---------------------------------------------------------------------

/// A room that is disposed of keeps its snapshot up to date where its type is kept and
/// says so, deletes it where it says that, and otherwise leaves it alone. What is
/// written knows everybody who may come back, though the room sends everybody away.
pub proof fn law_disposed_room_is_kept(
    c: ContextView,
    fresh: ContextView,
    w: FinalWrite,
    code: u16,
    token: Seq<char>,
    now: u64,
    sys_now: u64,
    clock_now: u128,
    later_now: u64,
    later_sys: u64,
)
    requires
        is_final_write(c, w, now, sys_now),
    ensures
        c.persistence is None ==> w is Keep,
        c.persistence matches Some(p) ==> {
            &&& w is Delete <==> p.delete_on_dispose
            &&& w is Save <==> p.save_on_dispose && !p.delete_on_dispose
        },
        w matches FinalWrite::Save(s) ==> (table_get(c.reconnections, token) is Some ==> table_get(
            restored(fresh, s@, clock_now, later_now, later_sys).reconnections,
            token,
        ) is Some),
        dispose_begun(c, code).clients.len() == 0,
        dispose_begun(c, code).disposing,
        table_get(dispose_begun(c, code).reconnections, token) is None,
        table_get(dispose_begun(c, code).seats, token) is None,
{
    if table_get(c.reconnections, token) is Some && w is Save {
        law_tokens_survive_restart(
            c,
            fresh,
            token,
            now,
            sys_now,
            clock_now,
            later_now,
            later_sys,
            c.clients[0],
        );
    }
    lemma_table_index(dispose_begun(c, code).reconnections, token);
    lemma_table_index(dispose_begun(c, code).seats, token);
}

/// A room that is kept is written at its first change, and again no sooner than its
/// interval says; a room that is not kept never is.
pub proof fn law_saves_keep_their_distance(c: ContextView, last: u64, now: u64)
    requires
        last <= now,
    ensures
        c.persistence is None ==> !save_due(c, None, now) && !save_due(c, Some(last), now),
        c.persistence matches Some(p) ==> (c.state is Some ==> save_due(c, None, now)) && (
        c.internal is Some ==> save_due(c, None, now)) && (c.state is Some || c.internal is Some
            ==> (save_due(c, Some(last), now) <==> now - last >= p.auto_save_interval)) && (c.state
            is None && c.internal is None ==> !save_due(c, None, now)),
{
}

}
