//! Creations of one unique room that run at the same time.
//!
//! The calls for one uniqueness key take turns: a call holds the lock under its key
//! from the moment it decides until its room is listed or could not be started. All
//! else goes on in between.

use crate::driver::{is_walk, law_matching_is_exact, matches_query, matching, ListingView};
use crate::handler::HandlerView;
use crate::joining::{carries_key, is_live_search, key_query, lemma_key_matches};
use crate::json::JsonView;
use crate::matchmaker::{first_live, lemma_live_found, without_rooms};
use crate::paging::under_own_ids;
use crate::query::QueryView;
use vstd::prelude::*;

verus! {

/// How far a creation has come.
pub enum Call {
    /// It waits for its turn.
    Waiting,
    /// It found no room, and starts one.
    Starting,
    /// It made the room with this id.
    Made(Seq<char>),
    /// It found the room with this id.
    Reused(Seq<char>),
    /// Its room could not be started.
    Failed,
}

/// Creations for one key, beside the listings and the running rooms.
pub struct Creations {
    pub listings: Map<Seq<char>, ListingView>,
    pub rooms: Seq<Seq<char>>,
    pub calls: Seq<Call>,
}

/// The rooms that are running and match.
pub open spec fn live_rooms(s: Creations, q: QueryView) -> Set<Seq<char>> {
    Set::new(
        |id: Seq<char>|
            s.listings.dom().contains(id) && s.rooms.contains(id) && matches_query(
                s.listings[id],
                q,
            ),
    )
}

/// No call is in the middle of starting a room.
pub open spec fn nobody_starts(s: Creations) -> bool {
    forall|i: int| 0 <= i < s.calls.len() ==> !((#[trigger] s.calls[i]) is Starting)
}

/// The call `i` takes its turn and looks for a room, as `MatchMaker::create_step`
/// does.
pub open spec fn decided(
    h: HandlerView,
    options: Seq<JsonView>,
    s: Creations,
    t: Creations,
    i: int,
) -> bool {
    &&& 0 <= i < s.calls.len()
    &&& s.calls[i] is Waiting
    &&& nobody_starts(s)
    &&& t.rooms == s.rooms
    &&& exists|found: Option<ListingView>| #[trigger]
        is_live_search(s.listings, s.rooms, key_query(h, options[i]), t.listings, found) && t.calls
            == s.calls.update(
            i,
            match found {
                Some(l) => Call::Reused(l.room_id),
                None => Call::Starting,
            },
        )
}

/// The room that the call `i` started is taken in, as `MatchMaker::finish_room` does:
/// it is running and listed, with what it was created with.
pub open spec fn made(
    h: HandlerView,
    options: Seq<JsonView>,
    s: Creations,
    t: Creations,
    i: int,
) -> bool {
    &&& 0 <= i < s.calls.len()
    &&& s.calls[i] is Starting
    &&& exists|l: ListingView| #[trigger]
        carries_key(l, h, options[i]) && t.rooms == s.rooms.push(l.room_id) && t.listings
            == s.listings.insert(l.room_id, l) && t.calls == s.calls.update(
            i,
            Call::Made(l.room_id),
        )
}

/// The call `i` could not start its room.
pub open spec fn failed(s: Creations, t: Creations, i: int) -> bool {
    &&& 0 <= i < s.calls.len()
    &&& s.calls[i] is Starting
    &&& t.rooms == s.rooms
    &&& t.listings == s.listings
    &&& t.calls == s.calls.update(i, Call::Failed)
}

/// Something else happens, which neither starts nor ends a room with this key.
pub open spec fn elsewhere(q: QueryView, s: Creations, t: Creations) -> bool {
    &&& t.calls == s.calls
    &&& under_own_ids(t.listings)
    &&& live_rooms(t, q) == live_rooms(s, q)
}

/// One step of creations that run at the same time.
pub open spec fn creation_step(
    h: HandlerView,
    options: Seq<JsonView>,
    q: QueryView,
    s: Creations,
    t: Creations,
) -> bool {
    ||| exists|i: int| #[trigger] decided(h, options, s, t, i)
    ||| exists|i: int| #[trigger] made(h, options, s, t, i)
    ||| exists|i: int| #[trigger] failed(s, t, i)
    ||| elsewhere(q, s, t)
}

/// The step from a state to the next.
pub open spec fn steps_at(
    h: HandlerView,
    options: Seq<JsonView>,
    q: QueryView,
    states: Seq<Creations>,
    n: int,
) -> bool {
    creation_step(h, options, q, states[n], states[n + 1])
}

/// Creations with these options run at the same time, one step after the other, from
/// a state in which all of them wait. Their options have the same values of the
/// unique fields.
pub open spec fn is_creation_run(
    h: HandlerView,
    options: Seq<JsonView>,
    q: QueryView,
    states: Seq<Creations>,
) -> bool {
    &&& states.len() > 0
    &&& forall|i: int| 0 <= i < options.len() ==> key_query(h, #[trigger] options[i]) == q
    &&& states[0].calls.len() == options.len()
    &&& forall|i: int|
        0 <= i < options.len() ==> (#[trigger] states[0].calls[i]) is Waiting
    &&& under_own_ids(states[0].listings)
    &&& forall|n: int| 0 <= n < states.len() - 1 ==> #[trigger] steps_at(h, options, q, states, n)
}

// ---------------------------------------------------------------------
// searching
// ---------------------------------------------------------------------

proof fn lemma_first_live_is(m: Seq<ListingView>, rooms: Seq<Seq<char>>)
    ensures
        0 <= first_live(m, rooms) <= m.len(),
        first_live(m, rooms) < m.len() ==> rooms.contains(m[first_live(m, rooms)].room_id),
        forall|k: int|
            0 <= k < first_live(m, rooms) ==> !rooms.contains((#[trigger] m[k]).room_id),
    decreases m.len(),
{
    if m.len() > 0 && !rooms.contains(m[0].room_id) {
        let rest = m.drop_first();
        lemma_first_live_is(rest, rooms);
        assert forall|k: int| 0 <= k < first_live(m, rooms) implies !rooms.contains(
            (#[trigger] m[k]).room_id,
        ) by {
            if k > 0 {
                assert(rest[k - 1] == m[k]);
            }
        }
        if first_live(m, rooms) < m.len() {
            assert(rest[first_live(rest, rooms)] == m[first_live(m, rooms)]);
        }
    }
}

proof fn lemma_without_rooms(ls: Map<Seq<char>, ListingView>, m: Seq<ListingView>)
    ensures
        forall|k: Seq<char>| #[trigger]
            without_rooms(ls, m).dom().contains(k) <==> ls.dom().contains(k) && forall|j: int|
                0 <= j < m.len() ==> (#[trigger] m[j]).room_id != k,
        forall|k: Seq<char>| #[trigger]
            without_rooms(ls, m).dom().contains(k) ==> without_rooms(ls, m)[k] == ls[k],
    decreases m.len(),
{
    if m.len() > 0 {
        let init = m.drop_last();
        lemma_without_rooms(ls, init);
        let before = without_rooms(ls, init);
        assert(without_rooms(ls, m) == before.remove(m.last().room_id));
        assert forall|k: Seq<char>| #[trigger]
            without_rooms(ls, m).dom().contains(k) <==> ls.dom().contains(k) && forall|j: int|
                0 <= j < m.len() ==> (#[trigger] m[j]).room_id != k by {
            if without_rooms(ls, m).dom().contains(k) {
                assert(before.dom().contains(k));
                assert forall|j: int| 0 <= j < m.len() implies (#[trigger] m[j]).room_id != k by {
                    if j < m.len() - 1 {
                        assert(init[j] == m[j]);
                    }
                }
            }
            if ls.dom().contains(k) && forall|j: int|
                0 <= j < m.len() ==> (#[trigger] m[j]).room_id != k {
                assert forall|j: int| 0 <= j < init.len() implies (#[trigger] init[j]).room_id
                    != k by {
                    assert(init[j] == m[j]);
                }
                assert(m[m.len() - 1].room_id != k);
                assert(before.dom().contains(k));
            }
        }
        assert forall|k: Seq<char>| #[trigger]
            without_rooms(ls, m).dom().contains(k) implies without_rooms(ls, m)[k] == ls[k] by {
            assert(before.dom().contains(k));
        }
    }
}

/// A search finds a running room where there is one, and only there, and takes no
/// running room's listing away.
proof fn lemma_search(s: Creations, t: Creations, q: QueryView, found: Option<ListingView>)
    requires
        under_own_ids(s.listings),
        t.rooms == s.rooms,
        is_live_search(s.listings, s.rooms, q, t.listings, found),
    ensures
        under_own_ids(t.listings),
        live_rooms(t, q) == live_rooms(s, q),
        found is None ==> live_rooms(s, q) == Set::<Seq<char>>::empty(),
        found matches Some(l) ==> live_rooms(s, q).contains(l.room_id),
{
    let all = choose|all: Seq<ListingView>| #[trigger]
        is_walk(s.listings, all) && ({
            let m = matching(all, q);
            let i = first_live(m, s.rooms);
            &&& t.listings == without_rooms(s.listings, m.take(i))
            &&& found == if i < m.len() {
                Some(m[i])
            } else {
                None
            }
        });
    let m = matching(all, q);
    let i = first_live(m, s.rooms);
    law_matching_is_exact(s.listings, all, q);
    lemma_first_live_is(m, s.rooms);
    lemma_without_rooms(s.listings, m.take(i));
    assert forall|id: Seq<char>| live_rooms(s, q).contains(id) implies live_rooms(t, q).contains(
        id,
    ) by {
        assert forall|j: int| 0 <= j < m.take(i).len() implies (#[trigger] m.take(i)[j]).room_id
            != id by {
            assert(m.take(i)[j] == m[j]);
        }
        assert(t.listings.dom().contains(id));
    }
    assert forall|id: Seq<char>| live_rooms(t, q).contains(id) implies live_rooms(s, q).contains(
        id,
    ) by {
        assert(t.listings.dom().contains(id));
    }
    assert(live_rooms(t, q) =~= live_rooms(s, q));
    if i < m.len() {
        assert(m.contains(m[i]));
    } else {
        assert forall|id: Seq<char>| !live_rooms(s, q).contains(id) by {
            if live_rooms(s, q).contains(id) {
                assert(m.contains(s.listings[id]));
                let k = choose|k: int| 0 <= k < m.len() && m[k] == s.listings[id];
                assert(m[k].room_id == id);
                lemma_live_found(m, s.rooms, k);
            }
        }
        assert(live_rooms(s, q) =~= Set::<Seq<char>>::empty());
    }
}

// ---------------------------------------------------------------------
// what every step keeps
// ---------------------------------------------------------------------

/// No call made a room, and those that found one found one of `live`.
spec fn none_made(s: Creations, q: QueryView, live: Set<Seq<char>>) -> bool {
    &&& live_rooms(s, q) == live
    &&& forall|i: int| 0 <= i < s.calls.len() ==> !((#[trigger] s.calls[i]) is Made)
    &&& forall|i: int|
        0 <= i < s.calls.len() ==> ((#[trigger] s.calls[i]) matches Call::Reused(id)
            ==> live.contains(id))
}

/// The call `j` made the room `id`, no other call made one, and those that found one
/// found this.
spec fn made_by(s: Creations, q: QueryView, j: int, id: Seq<char>) -> bool {
    &&& live_rooms(s, q) == set![id]
    &&& 0 <= j < s.calls.len()
    &&& s.calls[j] == Call::Made(id)
    &&& forall|i: int|
        0 <= i < s.calls.len() && i != j ==> !((#[trigger] s.calls[i]) is Made)
    &&& forall|i: int|
        0 <= i < s.calls.len() ==> ((#[trigger] s.calls[i]) matches Call::Reused(x) ==> x == id)
}

spec fn kept(s: Creations, q: QueryView, live: Set<Seq<char>>, n: nat) -> bool {
    &&& under_own_ids(s.listings)
    &&& s.calls.len() == n
    &&& forall|i: int, j: int|
        0 <= i < n && 0 <= j < n && (#[trigger] s.calls[i]) is Starting && (
        #[trigger] s.calls[j]) is Starting ==> i == j
    &&& forall|i: int|
        0 <= i < n && (#[trigger] s.calls[i]) is Starting ==> live_rooms(s, q) == Set::<
            Seq<char>,
        >::empty()
    &&& none_made(s, q, live) || (live == Set::<Seq<char>>::empty() && exists|j: int, id: Seq<char>|
        #[trigger] made_by(s, q, j, id))
}

proof fn lemma_decided(
    h: HandlerView,
    options: Seq<JsonView>,
    q: QueryView,
    live: Set<Seq<char>>,
    s: Creations,
    t: Creations,
    i: int,
)
    requires
        kept(s, q, live, options.len()),
        key_query(h, options[i]) == q,
        decided(h, options, s, t, i),
    ensures
        kept(t, q, live, options.len()),
{
    let found = choose|found: Option<ListingView>| #[trigger]
        is_live_search(s.listings, s.rooms, key_query(h, options[i]), t.listings, found) && t.calls
            == s.calls.update(
            i,
            match found {
                Some(l) => Call::Reused(l.room_id),
                None => Call::Starting,
            },
        );
    lemma_search(s, t, q, found);
    assert forall|k: int| 0 <= k < t.calls.len() && k != i implies #[trigger] t.calls[k]
        == s.calls[k] by {}
    if none_made(s, q, live) {
        assert(none_made(t, q, live));
    } else {
        let (j, id) = choose|j: int, id: Seq<char>| #[trigger] made_by(s, q, j, id);
        assert(set![id].contains(id));
        assert(made_by(t, q, j, id));
    }
}

proof fn lemma_made(
    h: HandlerView,
    options: Seq<JsonView>,
    q: QueryView,
    live: Set<Seq<char>>,
    s: Creations,
    t: Creations,
    i: int,
)
    requires
        kept(s, q, live, options.len()),
        key_query(h, options[i]) == q,
        made(h, options, s, t, i),
    ensures
        kept(t, q, live, options.len()),
{
    let l = choose|l: ListingView| #[trigger]
        carries_key(l, h, options[i]) && t.rooms == s.rooms.push(l.room_id) && t.listings
            == s.listings.insert(l.room_id, l) && t.calls == s.calls.update(
            i,
            Call::Made(l.room_id),
        );
    lemma_key_matches(l, h, options[i]);
    assert(t.rooms[s.rooms.len() as int] == l.room_id);
    assert forall|id: Seq<char>| live_rooms(t, q).contains(id) implies id == l.room_id by {
        if id != l.room_id {
            let k = choose|k: int| 0 <= k < t.rooms.len() && t.rooms[k] == id;
            assert(s.rooms[k] == id);
            assert(live_rooms(s, q).contains(id));
        }
    }
    assert(live_rooms(t, q) =~= set![l.room_id]);
    assert forall|k: int| 0 <= k < t.calls.len() && k != i implies #[trigger] t.calls[k]
        == s.calls[k] by {}
    if !none_made(s, q, live) {
        let (j, id) = choose|j: int, id: Seq<char>| #[trigger] made_by(s, q, j, id);
        assert(set![id].contains(id));
    }
    assert(none_made(s, q, live));
    assert(made_by(t, q, i, l.room_id));
}

proof fn lemma_failed(
    q: QueryView,
    live: Set<Seq<char>>,
    s: Creations,
    t: Creations,
    i: int,
    n: nat,
)
    requires
        kept(s, q, live, n),
        failed(s, t, i),
    ensures
        kept(t, q, live, n),
{
    assert(live_rooms(t, q) =~= live_rooms(s, q));
    assert forall|k: int| 0 <= k < t.calls.len() && k != i implies #[trigger] t.calls[k]
        == s.calls[k] by {}
    if none_made(s, q, live) {
        assert(none_made(t, q, live));
    } else {
        let (j, id) = choose|j: int, id: Seq<char>| #[trigger] made_by(s, q, j, id);
        assert(made_by(t, q, j, id));
    }
}

proof fn lemma_kept(
    h: HandlerView,
    options: Seq<JsonView>,
    q: QueryView,
    states: Seq<Creations>,
    n: int,
)
    requires
        is_creation_run(h, options, q, states),
        0 <= n < states.len(),
    ensures
        kept(states[n], q, live_rooms(states[0], q), options.len()),
    decreases n,
{
    let live = live_rooms(states[0], q);
    if n == 0 {
        assert(none_made(states[0], q, live));
    } else {
        lemma_kept(h, options, q, states, n - 1);
        let s = states[n - 1];
        let t = states[n];
        assert(steps_at(h, options, q, states, n - 1));
        if exists|i: int| #[trigger] decided(h, options, s, t, i) {
            let i = choose|i: int| #[trigger] decided(h, options, s, t, i);
            lemma_decided(h, options, q, live, s, t, i);
        } else if exists|i: int| #[trigger] made(h, options, s, t, i) {
            let i = choose|i: int| #[trigger] made(h, options, s, t, i);
            lemma_made(h, options, q, live, s, t, i);
        } else if exists|i: int| #[trigger] failed(s, t, i) {
            let i = choose|i: int| #[trigger] failed(s, t, i);
            lemma_failed(q, live, s, t, i, options.len());
        } else if none_made(s, q, live) {
            assert(none_made(t, q, live));
        } else {
            let (j, id) = choose|j: int, id: Seq<char>| #[trigger] made_by(s, q, j, id);
            assert(made_by(t, q, j, id));
        }
    }
}

// ---------------------------------------------------------------------
// laws
// ---------------------------------------------------------------------

/// However creations for one key take turns, at most one of them makes a room, and
/// those that find a room find that one.
pub proof fn law_one_room_at_most(
    h: HandlerView,
    options: Seq<JsonView>,
    q: QueryView,
    states: Seq<Creations>,
    i: int,
    j: int,
    id: Seq<char>,
)
    requires
        is_creation_run(h, options, q, states),
        0 <= i < options.len(),
        0 <= j < options.len(),
        states.last().calls[i] == Call::Made(id),
        i != j,
    ensures
        !(states.last().calls[j] is Made),
        states.last().calls[j] matches Call::Reused(x) ==> x == id,
{
    let s = states.last();
    lemma_kept(h, options, q, states, states.len() - 1);
    let live = live_rooms(states[0], q);
    assert(!none_made(s, q, live));
    let (k, x) = choose|k: int, x: Seq<char>| #[trigger] made_by(s, q, k, x);
    assert(k == i);
}

/// The call `j` made the room `id`, and every other one got it.
pub open spec fn all_share(s: Creations, j: int, id: Seq<char>) -> bool {
    &&& 0 <= j < s.calls.len()
    &&& s.calls[j] == Call::Made(id)
    &&& forall|i: int|
        0 <= i < s.calls.len() && i != j ==> (#[trigger] s.calls[i]) == Call::Reused(id)
}

/// Of creations for one key, none of which failed, exactly one makes the room where
/// there was none before, and all others get that room.
pub proof fn law_exactly_one_creation_makes_the_room(
    h: HandlerView,
    options: Seq<JsonView>,
    q: QueryView,
    states: Seq<Creations>,
)
    requires
        is_creation_run(h, options, q, states),
        options.len() > 0,
        live_rooms(states[0], q) == Set::<Seq<char>>::empty(),
        forall|i: int|
            0 <= i < options.len() ==> (#[trigger] states.last().calls[i]) is Made
                || states.last().calls[i] is Reused,
    ensures
        exists|j: int, id: Seq<char>| #[trigger] all_share(states.last(), j, id),
{
    let s = states.last();
    lemma_kept(h, options, q, states, states.len() - 1);
    if none_made(s, q, live_rooms(states[0], q)) {
        assert(s.calls[0] is Reused);
    }
    let (j, id) = choose|j: int, id: Seq<char>| #[trigger] made_by(s, q, j, id);
    assert(s.calls[j] == Call::Made(id));
    assert forall|i: int| 0 <= i < options.len() && i != j implies (#[trigger] s.calls[i])
        == Call::Reused(id) by {
        assert(s.calls[i] is Made || s.calls[i] is Reused);
    }
    assert(all_share(s, j, id));
}

/// While a room with the key is running, no creation for the key makes another one.
pub proof fn law_no_creation_beside_a_running_room(
    h: HandlerView,
    options: Seq<JsonView>,
    q: QueryView,
    states: Seq<Creations>,
    i: int,
    id: Seq<char>,
)
    requires
        is_creation_run(h, options, q, states),
        0 <= i < options.len(),
        live_rooms(states[0], q).contains(id),
    ensures
        !(states.last().calls[i] is Made),
        !(states.last().calls[i] is Starting),
        states.last().calls[i] matches Call::Reused(x) ==> live_rooms(states[0], q).contains(x),
{
    lemma_kept(h, options, q, states, states.len() - 1);
}

}
