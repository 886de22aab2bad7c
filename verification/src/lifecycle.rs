//! Deadlines, disposal, snapshots and restoration of rooms.

use crate::actor::{
    due_timers, expired_tokens, live_seats, seat_expired, seats_expired, token_expired,
    waiting_timers,
};
use crate::client::{joined_state, told_to_leave, Client, ClientState, ClientView};
use crate::json::{clone_entries, Json, JsonView};
use crate::query::{clone_option, is_blank, option_view};
use crate::room::{
    client_views, is_pending, logged, plain_log, ContextView, EntryView, ReconnectionEntry,
    ReservedSeat, RoomContext, RoomEventLog, SeatState, TimerEntry, MANUAL_SEAT_MS,
};
use crate::snapshot::{
    PersistedReconnection, PersistedSeat, ReconnectionView, RoomSnapshot, SeatView, SnapshotView,
};
use crate::table::{lemma_table_set, table_get, table_set};
use crate::text::text_views;
use crate::utils::{
    add_time, clock_millis, clock_nanos, elapsed_since, later, nanos_of_millis, Clock,
};
use vstd::prelude::*;

verus! {

// ---------------------------------------------------------------------
// deadlines
// ---------------------------------------------------------------------

/// Something in the room waits for the time `t`: a timer, a seat, a
/// reconnection or, in a room that nobody joined yet, its own end.
pub open spec fn is_deadline(c: ContextView, created_at: u64, t: u64) -> bool {
    ||| exists|i: int| 0 <= i < c.timers.len() && (#[trigger] c.timers[i]).at == t
    ||| exists|i: int|
        0 <= i < c.seats.len() && is_pending((#[trigger] c.seats[i]).1) && c.seats[i].1.expires_at
            == t
    ||| exists|i: int|
        0 <= i < c.reconnections.len() && (#[trigger] c.reconnections[i]).1.expires_at == Some(t)
    ||| c.auto_dispose && !c.had_clients && c.clients.len() == 0 && !c.disposing && t == later(
        created_at,
        c.seat_timeout,
    )
}

/// The room is to be disposed of its own accord: nobody is in it, nobody may come
/// back and nobody is on the way, and it either had clients or waited long enough
/// for the first.
pub open spec fn is_abandoned(c: ContextView, created_at: u64, now: u64) -> bool {
    &&& c.auto_dispose
    &&& !c.disposing
    &&& forall|i: int|
        0 <= i < c.clients.len() ==> (#[trigger] c.clients[i]).state == ClientState::Closed
    &&& c.reconnections.len() == 0
    &&& forall|i: int| 0 <= i < c.seats.len() ==> !is_pending((#[trigger] c.seats[i]).1)
    &&& c.had_clients || elapsed_since(created_at, now) >= c.seat_timeout
}

fn earlier(d: Option<u64>, t: u64) -> (r: Option<u64>)
    ensures
        r == Some(
            match d {
                Some(x) => if x <= t {
                    x
                } else {
                    t
                },
                None => t,
            },
        ),
{
    match d {
        Some(x) => if x <= t {
            Some(x)
        } else {
            Some(t)
        },
        None => Some(t),
    }
}

/// `d` is the earliest of the times that `p` holds of, if there is one.
pub open spec fn is_earliest(d: Option<u64>, p: spec_fn(u64) -> bool) -> bool {
    match d {
        Some(x) => p(x) && forall|t: u64| #[trigger] p(t) ==> x <= t,
        None => forall|t: u64| !#[trigger] p(t),
    }
}

/// Taking one more time into account.
proof fn lemma_earliest(d: Option<u64>, t: u64, p: spec_fn(u64) -> bool, q: spec_fn(u64) -> bool)
    requires
        is_earliest(d, p),
        forall|x: u64| #[trigger] q(x) <==> p(x) || x == t,
    ensures
        is_earliest(
            Some(
                match d {
                    Some(x) => if x <= t {
                        x
                    } else {
                        t
                    },
                    None => t,
                },
            ),
            q,
        ),
{
    assert(q(t));
    if let Some(x) = d {
        assert(q(x));
    }
    assert forall|y: u64| #[trigger] q(y) implies (match d {
        Some(x) => if x <= t {
            x
        } else {
            t
        },
        None => t,
    }) <= y by {
        if y != t {
            assert(p(y));
        }
    }
}

proof fn lemma_same_times(d: Option<u64>, p: spec_fn(u64) -> bool, q: spec_fn(u64) -> bool)
    requires
        is_earliest(d, p),
        forall|x: u64| #[trigger] q(x) <==> p(x),
    ensures
        is_earliest(d, q),
{
    if let Some(x) = d {
        assert(q(x));
    } else {
        assert forall|t: u64| !#[trigger] q(t) by {
            assert(!p(t));
        }
    }
}

spec fn timer_time(c: ContextView, n: int, t: u64) -> bool {
    exists|i: int| 0 <= i < n && (#[trigger] c.timers[i]).at == t
}

spec fn seat_time(c: ContextView, n: int, t: u64) -> bool {
    exists|i: int|
        0 <= i < n && is_pending((#[trigger] c.seats[i]).1) && c.seats[i].1.expires_at == t
}

spec fn entry_time(c: ContextView, n: int, t: u64) -> bool {
    exists|i: int| 0 <= i < n && (#[trigger] c.reconnections[i]).1.expires_at == Some(t)
}

impl RoomContext {
    /// When the room has to be looked after next.
    pub fn next_deadline(&self, created_at: u64) -> (r: Option<u64>)
        ensures
            is_earliest(r, |t: u64| is_deadline(self@, created_at, t)),
    {
        let ghost c = self@;
        let mut deadline: Option<u64> = None;
        let mut i: usize = 0;
        while i < self.timers.len()
            invariant
                i <= self.timers.len(),
                c == self@,
                is_earliest(deadline, |t: u64| timer_time(c, i as int, t)),
            decreases self.timers.len() - i,
        {
            let t: u64 = self.timers[i].at;
            proof {
                let p = |x: u64| timer_time(c, i as int, x);
                let q = |x: u64| timer_time(c, i + 1, x);
                assert(c.timers[i as int].at == t);
                assert forall|x: u64| #[trigger] q(x) <==> p(x) || x == t by {
                    if timer_time(c, i + 1, x) {
                        let k = choose|k: int| 0 <= k < i + 1 && (#[trigger] c.timers[k]).at == x;
                        if k < i {
                            assert(c.timers[k].at == x);
                        }
                    }
                    if timer_time(c, i as int, x) {
                        let k = choose|k: int| 0 <= k < i && (#[trigger] c.timers[k]).at == x;
                        assert(c.timers[k].at == x);
                    }
                }
                lemma_earliest(deadline, t, p, q);
            }
            deadline = earlier(deadline, t);
            i = i + 1;
        }
        let ghost n = c.timers.len() as int;
        let mut j: usize = 0;
        proof {
            let p = |x: u64| timer_time(c, n, x);
            let q = |x: u64| timer_time(c, n, x) || seat_time(c, 0, x);
            lemma_same_times(deadline, p, q);
        }
        while j < self.reserved_seats.entries.len()
            invariant
                j <= self.reserved_seats.entries.len(),
                c == self@,
                is_earliest(deadline, |t: u64| timer_time(c, n, t) || seat_time(c, j as int, t)),
            decreases self.reserved_seats.entries.len() - j,
        {
            let seat: &ReservedSeat = &self.reserved_seats.entries[j].1;
            let t: u64 = seat.expires_at;
            let waits: bool = !seat.consumed && !seat.waiting_reconnection;
            proof {
                let p = |x: u64| timer_time(c, n, x) || seat_time(c, j as int, x);
                let q = |x: u64| timer_time(c, n, x) || seat_time(c, j + 1, x);
                assert(c.seats[j as int].1 == seat@);
                assert forall|x: u64| #[trigger] q(x) <==> p(x) || (waits && x == t) by {
                    if seat_time(c, j + 1, x) {
                        let k = choose|k: int|
                            0 <= k < j + 1 && is_pending((#[trigger] c.seats[k]).1)
                                && c.seats[k].1.expires_at == x;
                        if k < j {
                            assert(is_pending(c.seats[k].1));
                        }
                    }
                    if seat_time(c, j as int, x) {
                        let k = choose|k: int|
                            0 <= k < j && is_pending((#[trigger] c.seats[k]).1)
                                && c.seats[k].1.expires_at == x;
                        assert(is_pending(c.seats[k].1));
                    }
                }
                if waits {
                    lemma_earliest(deadline, t, p, q);
                } else {
                    lemma_same_times(deadline, p, q);
                }
            }
            if waits {
                deadline = earlier(deadline, t);
            }
            j = j + 1;
        }
        let ghost m = c.seats.len() as int;
        let mut k: usize = 0;
        proof {
            let p = |x: u64| timer_time(c, n, x) || seat_time(c, m, x);
            let q = |x: u64| timer_time(c, n, x) || seat_time(c, m, x) || entry_time(c, 0, x);
            lemma_same_times(deadline, p, q);
        }
        while k < self.reconnections.entries.len()
            invariant
                k <= self.reconnections.entries.len(),
                c == self@,
                is_earliest(
                    deadline,
                    |t: u64|
                        timer_time(c, n, t) || seat_time(c, m, t) || entry_time(c, k as int, t),
                ),
            decreases self.reconnections.entries.len() - k,
        {
            let expires: Option<u64> = self.reconnections.entries[k].1.expires_at;
            proof {
                let p = |x: u64|
                    timer_time(c, n, x) || seat_time(c, m, x) || entry_time(c, k as int, x);
                let q = |x: u64|
                    timer_time(c, n, x) || seat_time(c, m, x) || entry_time(c, k + 1, x);
                assert(c.reconnections[k as int].1.expires_at == expires);
                assert forall|x: u64| #[trigger] q(x) <==> p(x) || expires == Some(x) by {
                    if entry_time(c, k + 1, x) {
                        let l = choose|l: int|
                            0 <= l < k + 1 && (#[trigger] c.reconnections[l]).1.expires_at == Some(
                                x,
                            );
                        if l < k {
                            assert(c.reconnections[l].1.expires_at == Some(x));
                        }
                    }
                    if entry_time(c, k as int, x) {
                        let l = choose|l: int|
                            0 <= l < k && (#[trigger] c.reconnections[l]).1.expires_at == Some(x);
                        assert(c.reconnections[l].1.expires_at == Some(x));
                    }
                }
                match expires {
                    Some(t) => lemma_earliest(deadline, t, p, q),
                    None => lemma_same_times(deadline, p, q),
                }
            }
            if let Some(t) = expires {
                deadline = earlier(deadline, t);
            }
            k = k + 1;
        }
        let ghost l = c.reconnections.len() as int;
        let empty: bool = self.auto_dispose && !self.had_clients && self.clients.len() == 0
            && !self.disposing;
        let end: u64 = add_time(created_at, self.seat_reservation_timeout);
        proof {
            let p = |x: u64| timer_time(c, n, x) || seat_time(c, m, x) || entry_time(c, l, x);
            let q = |x: u64| is_deadline(c, created_at, x);
            assert(c.clients.len() == self.clients@.len());
            assert forall|x: u64| #[trigger] q(x) <==> p(x) || (empty && x == end) by {
                assert(timer_time(c, n, x) <==> exists|i: int|
                    0 <= i < c.timers.len() && (#[trigger] c.timers[i]).at == x);
            }
            if empty {
                lemma_earliest(deadline, end, p, q);
            } else {
                lemma_same_times(deadline, p, q);
            }
        }
        if empty {
            deadline = earlier(deadline, end);
        }
        deadline
    }

    /// Whether the room is to be disposed of its own accord.
    pub fn should_auto_dispose(&self, created_at: u64, now: u64) -> (r: bool)
        ensures
            r == is_abandoned(self@, created_at, now),
    {
        let ghost c = self@;
        if !self.auto_dispose || self.disposing {
            return false;
        }
        let mut i: usize = 0;
        while i < self.clients.len()
            invariant
                i <= self.clients.len(),
                c == self@,
                forall|k: int|
                    0 <= k < i ==> (#[trigger] c.clients[k]).state == ClientState::Closed,
            decreases self.clients.len() - i,
        {
            proof {
                assert(c.clients[i as int] == self.clients@[i as int]@);
            }
            if self.clients[i].state() != ClientState::Closed {
                return false;
            }
            i = i + 1;
        }
        if self.reconnections.len() > 0 {
            return false;
        }
        let mut j: usize = 0;
        while j < self.reserved_seats.entries.len()
            invariant
                j <= self.reserved_seats.entries.len(),
                c == self@,
                forall|k: int| 0 <= k < j ==> !is_pending((#[trigger] c.seats[k]).1),
            decreases self.reserved_seats.entries.len() - j,
        {
            let seat: &ReservedSeat = &self.reserved_seats.entries[j].1;
            proof {
                assert(c.seats[j as int].1 == seat@);
            }
            if !seat.consumed && !seat.waiting_reconnection {
                return false;
            }
            j = j + 1;
        }
        if self.had_clients {
            return true;
        }
        let waited: u64 = if now <= created_at {
            0
        } else {
            now - created_at
        };
        waited >= self.seat_reservation_timeout
    }

    /// The tokens whose reconnections have expired.
    pub fn expired_tokens(&self, now: u64) -> (r: Vec<String>)
        ensures
            text_views(r@) == expired_tokens(self@.reconnections, now),
    {
        let ghost all = self@.reconnections;
        let mut r: Vec<String> = Vec::new();
        let mut i: usize = 0;
        proof {
            assert(text_views(r@) =~= expired_tokens(all.take(0), now));
        }
        while i < self.reconnections.entries.len()
            invariant
                i <= self.reconnections.entries.len(),
                all == self@.reconnections,
                text_views(r@) == expired_tokens(all.take(i as int), now),
            decreases self.reconnections.entries.len() - i,
        {
            let e: &(String, ReconnectionEntry) = &self.reconnections.entries[i];
            proof {
                assert(all.take(i + 1).drop_last() =~= all.take(i as int));
                assert(all[i as int] == (e.0@, e.1@));
            }
            let over: bool = match e.1.expires_at {
                Some(t) => t <= now,
                None => false,
            };
            if over {
                let ghost before = r@;
                let token: String = e.0.clone();
                r.push(token);
                proof {
                    assert(text_views(r@) =~= text_views(before).push(token@));
                }
            }
            i = i + 1;
        }
        proof {
            assert(all.take(all.len() as int) =~= all);
        }
        r
    }

    /// Gives an expired reconnection up, and returns the session whose client
    /// failed to come back: the room is to be told that it leaves.
    pub fn expire_token(&mut self, token: &str) -> (r: Option<String>)
        ensures
            final(self)@ == token_expired(old(self)@, token@),
            match r {
                Some(sid) => table_get(old(self)@.reconnections, token@) matches Some(e)
                    && e.session_id == sid@,
                None => table_get(old(self)@.reconnections, token@) is None,
            },
    {
        let sid: String = match self.reconnections.get(token) {
            Some(e) => e.session_id.clone(),
            None => {
                return None;
            },
        };
        self.reconnections.remove(token);
        self.reserved_seats.remove(sid.as_str());
        Some(sid)
    }

    /// Gives up the seats that nobody came for in time.
    pub fn expire_seats(&mut self, now: u64)
        ensures
            final(self)@ == seats_expired(old(self)@, now),
    {
        let ghost before = self@;
        let ghost all = self@.seats;
        let n: usize = self.reserved_seats.entries.len();
        let mut i: usize = n;
        let ghost mut kept: Seq<(Seq<char>, SeatState)> = seq![];
        proof {
            assert(all.take(all.len() as int) =~= all);
            assert(all + kept =~= all);
            assert(live_seats(all, now) + kept =~= live_seats(all, now));
        }
        while i > 0
            invariant
                i <= self.reserved_seats.entries.len(),
                i <= all.len(),
                self.reserved_seats@ == all.take(i as int) + kept,
                self@ == (ContextView { seats: self.reserved_seats@, ..before }),
                live_seats(all, now) == live_seats(all.take(i as int), now) + kept,
            decreases i,
        {
            i = i - 1;
            let ghost prev = self.reserved_seats@;
            let ghost prefix = all.take(i + 1);
            proof {
                assert(prefix.drop_last() =~= all.take(i as int));
                assert(prefix.last() == all[i as int]);
                assert(prev[i as int] == all[i as int]);
                assert(prev[i as int].1 == self.reserved_seats.entries@[i as int].1@);
            }
            let seat: &ReservedSeat = &self.reserved_seats.entries[i].1;
            let over: bool = !seat.consumed && !seat.waiting_reconnection && seat.expires_at <= now;
            if over {
                self.reserved_seats.entries.remove(i);
                proof {
                    assert(self.reserved_seats@ =~= prev.remove(i as int));
                    assert(self.reserved_seats@ =~= all.take(i as int) + kept);
                }
            } else {
                proof {
                    let more = seq![all[i as int]] + kept;
                    assert(prefix + kept =~= all.take(i as int) + more);
                    assert(live_seats(prefix, now) + kept =~= live_seats(all.take(i as int), now)
                        + more);
                    kept = more;
                }
            }
        }
        proof {
            assert(all.take(0) =~= seq![]);
            assert(self.reserved_seats@ =~= kept);
            assert(live_seats(all, now) =~= kept);
            assert(kept.len() == self.reserved_seats.entries@.len());
            assert(all.len() == n);
            if kept.len() == n {
                lemma_live_all(all, now);
            }
        }
        if self.reserved_seats.entries.len() != n {
            self.sync_listing();
        }
    }

    /// Takes out the timers that are due, in order.
    pub fn take_due_timers(&mut self, now: u64) -> (r: Vec<TimerEntry>)
        ensures
            r@ == due_timers(old(self)@.timers, now),
            final(self)@ == (ContextView {
                timers: waiting_timers(old(self)@.timers, now),
                ..old(self)@
            }),
    {
        let ghost before = self@;
        let ghost all = self.timers@;
        let mut due: Vec<TimerEntry> = Vec::new();
        let mut waiting: Vec<TimerEntry> = Vec::new();
        let mut i: usize = 0;
        proof {
            assert(due@ =~= due_timers(all.take(0), now));
            assert(waiting@ =~= waiting_timers(all.take(0), now));
        }
        while i < self.timers.len()
            invariant
                i <= self.timers.len(),
                all == self.timers@,
                self@ == before,
                due@ == due_timers(all.take(i as int), now),
                waiting@ == waiting_timers(all.take(i as int), now),
            decreases self.timers.len() - i,
        {
            proof {
                assert(all.take(i + 1).drop_last() =~= all.take(i as int));
                assert(all.take(i + 1).last() == all[i as int]);
            }
            if self.timers[i].at <= now {
                due.push(self.timers[i]);
            } else {
                waiting.push(self.timers[i]);
            }
            i = i + 1;
        }
        proof {
            assert(all.take(all.len() as int) =~= all);
        }
        self.timers = waiting;
        due
    }
}

proof fn lemma_live_all(s: Seq<(Seq<char>, SeatState)>, now: u64)
    requires
        live_seats(s, now).len() == s.len(),
    ensures
        live_seats(s, now) == s,
    decreases s.len(),
{
    if s.len() > 0 {
        lemma_live_shorter(s.drop_last(), now);
        lemma_live_all(s.drop_last(), now);
        assert(live_seats(s, now) =~= s);
    }
}

proof fn lemma_live_shorter(s: Seq<(Seq<char>, SeatState)>, now: u64)
    ensures
        live_seats(s, now).len() <= s.len(),
    decreases s.len(),
{
    if s.len() > 0 {
        lemma_live_shorter(s.drop_last(), now);
    }
}

/// Once expired seats were given up, no seat in the room has expired.
pub proof fn law_no_expired_seat_left(c: ContextView, now: u64)
    ensures
        forall|i: int|
            0 <= i < seats_expired(c, now).seats.len() ==> !seat_expired(
                (#[trigger] seats_expired(c, now).seats[i]).1,
                now,
            ),
{
    lemma_live_seats(c.seats, now);
    if live_seats(c.seats, now).len() == c.seats.len() {
        lemma_live_all(c.seats, now);
    }
}

proof fn lemma_live_seats(s: Seq<(Seq<char>, SeatState)>, now: u64)
    ensures
        forall|i: int|
            0 <= i < live_seats(s, now).len() ==> !seat_expired(
                (#[trigger] live_seats(s, now)[i]).1,
                now,
            ),
    decreases s.len(),
{
    if s.len() > 0 {
        lemma_live_seats(s.drop_last(), now);
        let t = live_seats(s.drop_last(), now);
        let u = live_seats(s, now);
        assert forall|i: int| 0 <= i < u.len() implies !seat_expired((#[trigger] u[i]).1, now) by {
            if i < t.len() {
                assert(u[i] == t[i]);
            }
        }
    }
}

// ---------------------------------------------------------------------
// snapshots of rooms
// ---------------------------------------------------------------------

/// The wall-clock time of a deadline, at the latest the last one there is.
pub open spec fn wall_deadline(t: u64, now: u64, sys_now: u64) -> u64 {
    later(sys_now, elapsed_since(now, t))
}

/// The deadline that a wall-clock time stands for, at the latest the last one
/// there is.
pub open spec fn own_deadline(ms: u64, now: u64, sys_now: u64) -> u64 {
    later(now, elapsed_since(sys_now, ms))
}

fn to_wall(t: u64, now: u64, sys_now: u64) -> (r: u64)
    ensures
        r == wall_deadline(t, now, sys_now),
{
    let left: u64 = if t <= now {
        0
    } else {
        t - now
    };
    add_time(sys_now, left)
}

fn from_wall(ms: u64, now: u64, sys_now: u64) -> (r: u64)
    ensures
        r == own_deadline(ms, now, sys_now),
{
    let left: u64 = if ms <= sys_now {
        0
    } else {
        ms - sys_now
    };
    add_time(now, left)
}

/// A pending reconnection as it is kept.
pub open spec fn kept_entry(token: Seq<char>, e: EntryView, now: u64, sys_now: u64) -> ReconnectionView {
    ReconnectionView {
        session_id: e.session_id,
        token,
        expires_at_ms: match e.expires_at {
            Some(t) => Some(wall_deadline(t, now, sys_now)),
            None => None,
        },
        auth: e.client.auth,
        user_data: e.client.user_data,
    }
}

pub open spec fn kept_entries(s: Seq<(Seq<char>, EntryView)>, now: u64, sys_now: u64) -> Seq<
    ReconnectionView,
> {
    s.map_values(|e: (Seq<char>, EntryView)| kept_entry(e.0, e.1, now, sys_now))
}

/// The clients in the room that may come back with the token that they hold.
pub open spec fn kept_clients(cs: Seq<ClientView>, s: Seq<(Seq<char>, EntryView)>) -> Seq<
    ReconnectionView,
>
    decreases cs.len(),
{
    if cs.len() == 0 {
        seq![]
    } else {
        let c = cs.last();
        let before = kept_clients(cs.drop_last(), s);
        if joined_state(c.state) && c.reconnection_token.len() > 0 && table_get(
            s,
            c.reconnection_token,
        ) is None {
            before.push(
                ReconnectionView {
                    session_id: c.session_id,
                    token: c.reconnection_token,
                    expires_at_ms: None,
                    auth: c.auth,
                    user_data: c.user_data,
                },
            )
        } else {
            before
        }
    }
}

/// The seats that wait for their first client, as they are kept.
pub open spec fn kept_seats(s: Seq<(Seq<char>, SeatState)>, now: u64, sys_now: u64) -> Seq<SeatView>
    decreases s.len(),
{
    if s.len() == 0 {
        seq![]
    } else {
        let before = kept_seats(s.drop_last(), now, sys_now);
        if is_pending(s.last().1) {
            before.push(
                SeatView {
                    session_id: s.last().0,
                    options: s.last().1.options,
                    auth: s.last().1.auth,
                    expires_at_ms: wall_deadline(s.last().1.expires_at, now, sys_now),
                },
            )
        } else {
            before
        }
    }
}

/// The snapshot of a room.
pub open spec fn snapshot_of_room(c: ContextView, now: u64, sys_now: u64) -> SnapshotView {
    SnapshotView {
        schema_version: c.schema_version,
        room_id: c.room_id,
        room_name: c.room_name,
        process_id: c.process_id,
        created_at: c.created_at,
        saved_at: sys_now,
        clock_elapsed_ms: clock_millis(c.clock_shown),
        options: c.create_options,
        state: match c.state {
            Some((current, _)) => current,
            None => JsonView::Null,
        },
        internal: match c.internal {
            Some(v) => v,
            None => JsonView::Null,
        },
        metadata: c.metadata,
        locked: c.locked,
        is_private: c.is_private,
        max_clients: c.max_clients,
        filter_extra: c.filter_extra,
        reconnections: kept_entries(c.reconnections, now, sys_now) + kept_clients(
            c.clients,
            c.reconnections,
        ),
        seats: kept_seats(c.seats, now, sys_now),
    }
}

impl RoomContext {
    fn keep_reconnections(&self, now: u64, sys_now: u64) -> (r: Vec<PersistedReconnection>)
        ensures
            r@.map_values(|p: PersistedReconnection| p@) == kept_entries(
                self@.reconnections,
                now,
                sys_now,
            ) + kept_clients(self@.clients, self@.reconnections),
    {
        let ghost c = self@;
        let ghost entries = kept_entries(c.reconnections, now, sys_now);
        let mut r: Vec<PersistedReconnection> = Vec::new();
        let mut i: usize = 0;
        proof {
            assert(r@.map_values(|p: PersistedReconnection| p@) =~= entries.take(0));
        }
        while i < self.reconnections.entries.len()
            invariant
                i <= self.reconnections.entries.len(),
                c == self@,
                entries == kept_entries(c.reconnections, now, sys_now),
                r@.map_values(|p: PersistedReconnection| p@) == entries.take(i as int),
            decreases self.reconnections.entries.len() - i,
        {
            let e: &(String, ReconnectionEntry) = &self.reconnections.entries[i];
            proof {
                assert(c.reconnections[i as int] == (e.0@, e.1@));
            }
            let expires_at_ms: Option<u64> = match e.1.expires_at {
                Some(t) => Some(to_wall(t, now, sys_now)),
                None => None,
            };
            let p = PersistedReconnection {
                session_id: e.1.session_id.clone(),
                token: e.0.clone(),
                expires_at_ms,
                auth: e.1.client.auth(),
                user_data: e.1.client.user_data(),
            };
            let ghost before = r@;
            r.push(p);
            proof {
                assert(p@ == entries[i as int]);
                assert(r@.map_values(|p: PersistedReconnection| p@) =~= before.map_values(
                    |p: PersistedReconnection| p@,
                ).push(p@));
                assert(entries.take(i + 1) =~= entries.take(i as int).push(entries[i as int]));
            }
            i = i + 1;
        }
        let mut j: usize = 0;
        proof {
            assert(entries.take(entries.len() as int) =~= entries);
            assert(c.clients.take(0) =~= seq![]);
            assert(entries + kept_clients(c.clients.take(0), c.reconnections) =~= entries);
        }
        while j < self.clients.len()
            invariant
                j <= self.clients.len(),
                c == self@,
                r@.map_values(|p: PersistedReconnection| p@) == entries + kept_clients(
                    c.clients.take(j as int),
                    c.reconnections,
                ),
            decreases self.clients.len() - j,
        {
            let client: &Client = &self.clients[j];
            proof {
                assert(c.clients.take(j + 1).drop_last() =~= c.clients.take(j as int));
                assert(c.clients[j as int] == client@);
            }
            if client.is_joined() && !is_blank(client.reconnection_token.as_str())
                && !self.reconnections.contains(client.reconnection_token.as_str()) {
                let p = PersistedReconnection {
                    session_id: client.session_id.clone(),
                    token: client.reconnection_token(),
                    expires_at_ms: None,
                    auth: client.auth(),
                    user_data: client.user_data(),
                };
                let ghost before = r@;
                r.push(p);
                proof {
                    assert(r@.map_values(|p: PersistedReconnection| p@) =~= before.map_values(
                        |p: PersistedReconnection| p@,
                    ).push(p@));
                    assert(r@.map_values(|p: PersistedReconnection| p@) =~= entries + kept_clients(
                        c.clients.take(j + 1),
                        c.reconnections,
                    ));
                }
            }
            j = j + 1;
        }
        proof {
            assert(c.clients.take(c.clients.len() as int) =~= c.clients);
        }
        r
    }

    fn keep_seats(&self, now: u64, sys_now: u64) -> (r: Vec<PersistedSeat>)
        ensures
            r@.map_values(|p: PersistedSeat| p@) == kept_seats(self@.seats, now, sys_now),
    {
        let ghost all = self@.seats;
        let mut r: Vec<PersistedSeat> = Vec::new();
        let mut i: usize = 0;
        proof {
            assert(r@.map_values(|p: PersistedSeat| p@) =~= kept_seats(all.take(0), now, sys_now));
        }
        while i < self.reserved_seats.entries.len()
            invariant
                i <= self.reserved_seats.entries.len(),
                all == self@.seats,
                r@.map_values(|p: PersistedSeat| p@) == kept_seats(
                    all.take(i as int),
                    now,
                    sys_now,
                ),
            decreases self.reserved_seats.entries.len() - i,
        {
            let e: &(String, ReservedSeat) = &self.reserved_seats.entries[i];
            proof {
                assert(all.take(i + 1).drop_last() =~= all.take(i as int));
                assert(all[i as int] == (e.0@, e.1@));
            }
            if !e.1.consumed && !e.1.waiting_reconnection {
                let p = PersistedSeat {
                    session_id: e.0.clone(),
                    options: e.1.options.clone(),
                    auth: clone_option(&e.1.auth),
                    expires_at_ms: to_wall(e.1.expires_at, now, sys_now),
                };
                let ghost before = r@;
                r.push(p);
                proof {
                    assert(r@.map_values(|p: PersistedSeat| p@) =~= before.map_values(
                        |p: PersistedSeat| p@,
                    ).push(p@));
                }
            }
            i = i + 1;
        }
        proof {
            assert(all.take(all.len() as int) =~= all);
        }
        r
    }

    /// The room as it is to be kept.
    pub fn build_snapshot(&self, now: u64, sys_now: u64) -> (r: RoomSnapshot)
        ensures
            r@ == snapshot_of_room(self@, now, sys_now),
    {
        let state: Json = match &self.state_slot {
            Some(slot) => slot.full(),
            None => Json::Null,
        };
        let internal: Json = match &self.internal {
            Some(v) => v.clone(),
            None => Json::Null,
        };
        let reconnections: Vec<PersistedReconnection> = self.keep_reconnections(now, sys_now);
        let seats: Vec<PersistedSeat> = self.keep_seats(now, sys_now);
        RoomSnapshot {
            schema_version: self.schema_version,
            room_id: self.room_id.clone(),
            room_name: self.room_name.clone(),
            process_id: self.process_id.clone(),
            created_at: self.created_at,
            saved_at: sys_now,
            clock_elapsed_ms: self.clock.elapsed_millis(),
            options: self.create_options.clone(),
            state,
            internal,
            metadata: clone_option(&self.metadata),
            locked: self.locked,
            is_private: self.is_private,
            max_clients: self.max_clients,
            filter_extra: clone_entries(&self.filter_extra),
            reconnections,
            seats,
        }
    }
}


// ---------------------------------------------------------------------
// restoring rooms
// ---------------------------------------------------------------------

/// A client without a connection, for a session that may come back.
pub open spec fn orphan_view(
    session_id: Seq<char>,
    token: Seq<char>,
    auth: Option<JsonView>,
    user_data: Option<JsonView>,
    now: u64,
) -> ClientView {
    ClientView {
        connection_id: seq![],
        session_id,
        state: ClientState::Reconnecting,
        auth,
        user_data,
        reconnection_token: token,
        pending: seq![],
        attached: false,
        rate_start: now,
        rate_count: 0,
        outbox: seq![],
    }
}

/// A kept seat as the room has it again.
pub open spec fn seat_again(s: SeatView, now: u64, sys_now: u64) -> SeatState {
    SeatState {
        options: s.options,
        auth: s.auth,
        consumed: false,
        waiting_reconnection: false,
        expires_at: own_deadline(s.expires_at_ms, now, sys_now),
    }
}

/// A kept reconnection as the room has it again.
pub open spec fn entry_again(r: ReconnectionView, now: u64, sys_now: u64) -> EntryView {
    EntryView {
        session_id: r.session_id,
        client: orphan_view(r.session_id, r.token, r.auth, r.user_data, now),
        expires_at: match r.expires_at_ms {
            Some(t) => Some(own_deadline(t, now, sys_now)),
            None => None,
        },
    }
}

/// The seat that waits with a kept reconnection.
pub open spec fn waiting_seat(r: ReconnectionView, now: u64, sys_now: u64) -> SeatState {
    SeatState {
        options: JsonView::Null,
        auth: r.auth,
        consumed: false,
        waiting_reconnection: true,
        expires_at: match r.expires_at_ms {
            Some(t) => own_deadline(t, now, sys_now),
            None => later(now, MANUAL_SEAT_MS),
        },
    }
}

/// The seats after kept ones were put back.
pub open spec fn seats_put_back(
    s: Seq<(Seq<char>, SeatState)>,
    kept: Seq<SeatView>,
    now: u64,
    sys_now: u64,
) -> Seq<(Seq<char>, SeatState)>
    decreases kept.len(),
{
    if kept.len() == 0 {
        s
    } else {
        table_set(
            seats_put_back(s, kept.drop_last(), now, sys_now),
            kept.last().session_id,
            seat_again(kept.last(), now, sys_now),
        )
    }
}

/// The seats after those that wait with kept reconnections were put back.
pub open spec fn waiting_put_back(
    s: Seq<(Seq<char>, SeatState)>,
    kept: Seq<ReconnectionView>,
    now: u64,
    sys_now: u64,
) -> Seq<(Seq<char>, SeatState)>
    decreases kept.len(),
{
    if kept.len() == 0 {
        s
    } else {
        table_set(
            waiting_put_back(s, kept.drop_last(), now, sys_now),
            kept.last().session_id,
            waiting_seat(kept.last(), now, sys_now),
        )
    }
}

/// The reconnections after kept ones were put back.
pub open spec fn entries_put_back(
    s: Seq<(Seq<char>, EntryView)>,
    kept: Seq<ReconnectionView>,
    now: u64,
    sys_now: u64,
) -> Seq<(Seq<char>, EntryView)>
    decreases kept.len(),
{
    if kept.len() == 0 {
        s
    } else {
        table_set(
            entries_put_back(s, kept.drop_last(), now, sys_now),
            kept.last().token,
            entry_again(kept.last(), now, sys_now),
        )
    }
}

/// The context after the framework's part of a snapshot was put back.
pub open spec fn restored(
    c: ContextView,
    s: SnapshotView,
    clock_now: u128,
    now: u64,
    sys_now: u64,
) -> ContextView {
    ContextView {
        created_at: s.created_at,
        clock_started: clock_now,
        clock_base: clock_nanos(s.clock_elapsed_ms),
        clock_shown: clock_nanos(s.clock_elapsed_ms),
        metadata: s.metadata,
        locked: s.locked,
        is_private: s.is_private,
        max_clients: s.max_clients,
        filter_extra: s.filter_extra,
        create_options: s.options,
        seats: waiting_put_back(
            seats_put_back(c.seats, s.seats, now, sys_now),
            s.reconnections,
            now,
            sys_now,
        ),
        reconnections: entries_put_back(c.reconnections, s.reconnections, now, sys_now),
        ..c
    }
}

/// A token that was kept is known again after the restore, and for the session
/// that it was kept for.
pub proof fn law_token_survives_restart(
    s: Seq<(Seq<char>, EntryView)>,
    kept: Seq<ReconnectionView>,
    i: int,
    now: u64,
    sys_now: u64,
)
    requires
        0 <= i < kept.len(),
        forall|a: int, b: int|
            0 <= a < b < kept.len() ==> (#[trigger] kept[a]).token != (#[trigger] kept[b]).token,
    ensures
        table_get(entries_put_back(s, kept, now, sys_now), kept[i].token) == Some(
            entry_again(kept[i], now, sys_now),
        ),
    decreases kept.len(),
{
    let init = kept.drop_last();
    let t = entries_put_back(s, init, now, sys_now);
    lemma_table_set(t, kept.last().token, entry_again(kept.last(), now, sys_now));
    if i < kept.len() - 1 {
        assert forall|a: int, b: int| 0 <= a < b < init.len() implies (#[trigger] init[a]).token
            != (#[trigger] init[b]).token by {
            assert(kept[a].token != kept[b].token);
        }
        law_token_survives_restart(s, init, i, now, sys_now);
        assert(kept[i].token != kept[kept.len() - 1].token);
    }
}

impl Client {
    /// A client without a live transport, for a session that may come back: it
    /// carries the auth and user data so that the session can be re-seated.
    pub fn orphan(
        session_id: &str,
        token: &str,
        auth: Option<Json>,
        user_data: Option<Json>,
        now: u64,
    ) -> (r: Client)
        ensures
            r@ == orphan_view(
                session_id@,
                token@,
                option_view(auth),
                option_view(user_data),
                now,
            ),
    {
        let c: Client = Client::new(String::new(), session_id.to_owned(), now);
        Client {
            state: ClientState::Reconnecting,
            auth,
            user_data,
            reconnection_token: token.to_owned(),
            ..c
        }
    }
}

impl RoomContext {
    /// Puts the framework's part of a snapshot back: what was kept wins over what
    /// the room set up. The room's clock starts at `clock_now` (monotonic, in
    /// nanoseconds).
    pub fn apply_snapshot(
        &mut self,
        snapshot: &RoomSnapshot,
        clock_now: u128,
        now: u64,
        sys_now: u64,
    )
        ensures
            final(self)@ == restored(old(self)@, snapshot@, clock_now, now, sys_now),
    {
        let ghost c = self@;
        let ghost s = snapshot@;
        self.created_at = snapshot.created_at;
        self.clock = Clock::restore(nanos_of_millis(snapshot.clock_elapsed_ms), clock_now);
        self.metadata = clone_option(&snapshot.metadata);
        self.locked = snapshot.locked;
        self.is_private = snapshot.is_private;
        self.max_clients = snapshot.max_clients;
        self.filter_extra = clone_entries(&snapshot.filter_extra);
        self.create_options = snapshot.options.clone();
        let ghost base = self@;
        let mut i: usize = 0;
        proof {
            assert(s.seats.take(0) =~= seq![]);
        }
        while i < snapshot.seats.len()
            invariant
                i <= snapshot.seats.len(),
                s == snapshot@,
                self@ == (ContextView {
                    seats: seats_put_back(c.seats, s.seats.take(i as int), now, sys_now),
                    ..base
                }),
            decreases snapshot.seats.len() - i,
        {
            let p: &PersistedSeat = &snapshot.seats[i];
            proof {
                assert(s.seats.take(i + 1).drop_last() =~= s.seats.take(i as int));
                assert(s.seats[i as int] == p@);
            }
            let seat = ReservedSeat {
                options: p.options.clone(),
                auth: clone_option(&p.auth),
                consumed: false,
                waiting_reconnection: false,
                expires_at: from_wall(p.expires_at_ms, now, sys_now),
            };
            self.reserved_seats.set(p.session_id.as_str(), seat);
            i = i + 1;
        }
        let ghost seats = seats_put_back(c.seats, s.seats, now, sys_now);
        let mut j: usize = 0;
        proof {
            assert(s.seats.take(s.seats.len() as int) =~= s.seats);
            assert(s.reconnections.take(0) =~= seq![]);
        }
        while j < snapshot.reconnections.len()
            invariant
                j <= snapshot.reconnections.len(),
                s == snapshot@,
                self@ == (ContextView {
                    seats: waiting_put_back(
                        seats,
                        s.reconnections.take(j as int),
                        now,
                        sys_now,
                    ),
                    reconnections: entries_put_back(
                        c.reconnections,
                        s.reconnections.take(j as int),
                        now,
                        sys_now,
                    ),
                    ..base
                }),
            decreases snapshot.reconnections.len() - j,
        {
            let p: &PersistedReconnection = &snapshot.reconnections[j];
            proof {
                assert(s.reconnections.take(j + 1).drop_last() =~= s.reconnections.take(j as int));
                assert(s.reconnections[j as int] == p@);
            }
            let expires_at: Option<u64> = match p.expires_at_ms {
                Some(t) => Some(from_wall(t, now, sys_now)),
                None => None,
            };
            let client: Client = Client::orphan(
                p.session_id.as_str(),
                p.token.as_str(),
                clone_option(&p.auth),
                clone_option(&p.user_data),
                now,
            );
            let entry = ReconnectionEntry { session_id: p.session_id.clone(), client, expires_at };
            self.reconnections.set(p.token.as_str(), entry);
            let seat = ReservedSeat {
                options: Json::Null,
                auth: clone_option(&p.auth),
                consumed: false,
                waiting_reconnection: true,
                expires_at: match expires_at {
                    Some(t) => t,
                    None => add_time(now, MANUAL_SEAT_MS),
                },
            };
            self.reserved_seats.set(p.session_id.as_str(), seat);
            j = j + 1;
        }
        proof {
            assert(s.reconnections.take(s.reconnections.len() as int) =~= s.reconnections);
        }
    }

    /// Puts the public state of a snapshot back. Clients see it in full when they
    /// join.
    pub fn restore_state(&mut self, snapshot: &RoomSnapshot)
        ensures
            final(self)@ == (ContextView {
                state: Some((snapshot@.state, snapshot@.state)),
                ..old(self)@
            }),
    {
        self.set_state(snapshot.state.clone());
    }

    /// Puts the private state of a snapshot back.
    pub fn restore_internal(&mut self, snapshot: &RoomSnapshot)
        ensures
            final(self)@ == (ContextView { internal: Some(snapshot@.internal), ..old(self)@ }),
    {
        self.set_internal(snapshot.internal.clone());
    }
}

/// A snapshot put back gives the room that it was taken of: the same listing
/// fields, the same creation options, the same time on the clock (to the
/// millisecond), and the same state and private state where it had them.
pub proof fn law_restore_gives_room_back(
    c: ContextView,
    fresh: ContextView,
    now: u64,
    sys_now: u64,
    clock_now: u128,
    later_now: u64,
    later_sys: u64,
)
    requires
        fresh.room_id == c.room_id,
        fresh.room_name == c.room_name,
    ensures
        ({
            let s = snapshot_of_room(c, now, sys_now);
            let stated = ContextView {
                state: Some((s.state, s.state)),
                internal: Some(s.internal),
                ..fresh
            };
            let r = restored(stated, s, clock_now, later_now, later_sys);
            &&& r.room_id == c.room_id
            &&& r.room_name == c.room_name
            &&& r.created_at == c.created_at
            &&& c.state is Some ==> r.state->Some_0.0 == c.state->Some_0.0
            &&& c.internal is Some ==> r.internal == c.internal
            &&& r.metadata == c.metadata
            &&& r.locked == c.locked
            &&& r.is_private == c.is_private
            &&& r.max_clients == c.max_clients
            &&& r.filter_extra == c.filter_extra
            &&& r.create_options == c.create_options
            &&& clock_millis(r.clock_shown) == clock_millis(c.clock_shown)
            &&& r.clock_base == r.clock_shown
        }),
{
}

// ---------------------------------------------------------------------
// disposal and saving
// ---------------------------------------------------------------------

/// A client of a room that is disposed.
pub open spec fn dismissed(c: ClientView, code: u16) -> ClientView {
    told_to_leave(ClientView { state: ClientState::Closed, ..c }, code, "room disposed"@)
}

/// The context after disposal began: nobody is in the room, on the way to it or
/// may come back to it.
pub open spec fn dispose_begun(c: ContextView, code: u16) -> ContextView {
    ContextView {
        disposing: true,
        request_dispose: None,
        clients: seq![],
        departed: c.departed + c.clients.map_values(|x: ClientView| dismissed(x, code)),
        seats: seq![],
        reconnections: seq![],
        ..c
    }
}

/// What is done with a room's snapshot when the room is disposed.
#[derive(Debug)]
pub enum FinalWrite {
    Keep,
    Delete,
    Save(RoomSnapshot),
}

/// What is done with the snapshot: it is deleted where the room type says so, else
/// written a last time where it says so, before anybody is sent away, so that
/// tokens stay good across a restart.
pub open spec fn is_final_write(c: ContextView, w: FinalWrite, now: u64, sys_now: u64) -> bool {
    match c.persistence {
        Some(p) => if p.delete_on_dispose {
            w is Delete
        } else if p.save_on_dispose {
            w matches FinalWrite::Save(s) && s@ == snapshot_of_room(c, now, sys_now)
        } else {
            w is Keep
        },
        None => w is Keep,
    }
}

/// A snapshot is due: there is something to keep and the last one is old enough.
pub open spec fn save_due(c: ContextView, last: Option<u64>, now: u64) -> bool {
    &&& c.persistence is Some
    &&& c.state is Some || c.internal is Some
    &&& last matches Some(t) ==> elapsed_since(t, now) >= c.persistence->Some_0.auto_save_interval
}

impl RoomContext {
    /// Begins to dispose the room, and says what is done with its snapshot; `None`
    /// where it is being disposed already.
    pub fn dispose_begin(&mut self, code: u16, now: u64, sys_now: u64) -> (r: Option<FinalWrite>)
        ensures
            r is None <==> old(self)@.disposing,
            r is None ==> final(self)@ == old(self)@,
            r matches Some(w) ==> final(self)@ == dispose_begun(old(self)@, code) && is_final_write(
                ContextView { disposing: true, request_dispose: None, ..old(self)@ },
                w,
                now,
                sys_now,
            ),
    {
        if self.disposing {
            return None;
        }
        let ghost before = self@;
        self.disposing = true;
        self.request_dispose = None;
        let write: FinalWrite = match self.persistence {
            Some(p) => if p.delete_on_dispose {
                FinalWrite::Delete
            } else if p.save_on_dispose {
                FinalWrite::Save(self.build_snapshot(now, sys_now))
            } else {
                FinalWrite::Keep
            },
            None => FinalWrite::Keep,
        };
        let n: usize = self.clients.len();
        let ghost all = self@.clients;
        let ghost sent_away = all.map_values(|x: ClientView| dismissed(x, code));
        let ghost mid = self@;
        let mut k: usize = 0;
        while k < n
            invariant
                k <= n,
                n == self.clients.len(),
                n == all.len(),
                sent_away == all.map_values(|x: ClientView| dismissed(x, code)),
                self@ == (ContextView { clients: client_views(self.clients@), ..mid }),
                forall|j: int| 0 <= j < k ==> (#[trigger] self.clients@[j])@ == sent_away[j],
                forall|j: int| k <= j < n ==> (#[trigger] self.clients@[j])@ == all[j],
            decreases n - k,
        {
            self.clients[k].set_state(ClientState::Closed);
            self.clients[k].leave(Some(code), Some("room disposed"));
            k = k + 1;
        }
        proof {
            assert(client_views(self.clients@) =~= sent_away);
        }
        self.departed.append(&mut self.clients);
        proof {
            assert(self@.departed =~= before.departed + sent_away);
            assert(self@.clients =~= seq![]);
        }
        self.reserved_seats.clear();
        self.reconnections.clear();
        Some(write)
    }

    /// Ends the disposal, once the room was told of it.
    pub fn dispose_end(&mut self)
        ensures
            final(self)@ == (ContextView {
                tap: logged(old(self)@.tap, plain_log("sys"@, "dispose"@)),
                ..old(self)@
            }),
    {
        self.tap_log(RoomEventLog::new("sys", "dispose"));
    }

    /// Whether a snapshot is to be written after a change of the state.
    pub fn should_save(&self, last: Option<u64>, now: u64) -> (r: bool)
        ensures
            r == save_due(self@, last, now),
    {
        match self.persistence {
            None => false,
            Some(p) => {
                if self.state_slot.is_none() && self.internal.is_none() {
                    return false;
                }
                match last {
                    None => true,
                    Some(t) => {
                        let since: u64 = if now <= t {
                            0
                        } else {
                            now - t
                        };
                        since >= p.auto_save_interval
                    },
                }
            },
        }
    }
}

}
