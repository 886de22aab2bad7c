//! Which rooms a request is seated in.

use crate::driver::{flat_view, listing_fields, matches_query, ListingView};
use crate::error::{no_handler_error, room_not_found_error, seat_expired_error, ErrorView};
use crate::handler::{
    absent_condition, field_conditions, match_conditions_of, option_field, picked_fields, schema_of,
    HandlerView,
};
use crate::joining::{
    first_open, fresh_flow, is_restore_step, key_query, migration, prepared, reconnect_refusal,
    reconnect_result, room_chosen, room_found, seat_answered, seat_result, spawn_error, FlowView,
    JoinMode, JoinStepView, RestoreStep, SeatReply, SeatStepView, TokenReply,
};
use crate::json::JsonView;
use crate::matchmaker::{
    first_refused, is_allowed, is_open, is_stats, match_query, reservation_json, MatchMaker,
    ReservationView, RoomStats,
};
use crate::query::{condition_holds, equals_condition, field_value, values_equal, ConditionView};
use crate::query_laws::{law_listed_field, law_listing_shows_itself};
use crate::server_laws::member;
use crate::snapshot::{decode_result, SnapshotView};
use crate::table::table_get;
use crate::text::text_views;
use vstd::prelude::*;

verus! {

proof fn lemma_core_names()
    ensures
        !"name"@.contains('.'),
        !"locked"@.contains('.'),
        !"private"@.contains('.'),
{
    reveal_strlit("name");
    reveal_strlit("locked");
    reveal_strlit("private");
}

/// What the conditions for fields are: one for each field that is given, that it equals
/// what is given, and, strictly, one for each that is not, that it is absent.
proof fn lemma_field_conditions(fields: Seq<Seq<char>>, options: JsonView, strict: bool)
    ensures
        forall|k: int|
            0 <= k < field_conditions(fields, options, strict).len() ==> {
                let c = #[trigger] field_conditions(fields, options, strict)[k];
                fields.contains(c.0) && match option_field(options, c.0) {
                    Some(v) => c.1 == equals_condition(v),
                    None => strict && c.1 == absent_condition(),
                }
            },
        forall|i: int|
            0 <= i < fields.len() && (strict || option_field(options, fields[i]) is Some)
                ==> exists|k: int|
                0 <= k < field_conditions(fields, options, strict).len()
                    && #[trigger] field_conditions(fields, options, strict)[k].0
                    == #[trigger] fields[i],
    decreases fields.len(),
{
    if fields.len() > 0 {
        let init = fields.drop_last();
        lemma_field_conditions(init, options, strict);
        let before = field_conditions(init, options, strict);
        let after = field_conditions(fields, options, strict);
        assert(fields[fields.len() - 1] == fields.last());
        assert forall|k: int| 0 <= k < after.len() implies {
            let c = #[trigger] after[k];
            fields.contains(c.0) && match option_field(options, c.0) {
                Some(v) => c.1 == equals_condition(v),
                None => strict && c.1 == absent_condition(),
            }
        } by {
            if k < before.len() {
                assert(after[k] == before[k]);
                assert(init.contains(before[k].0));
                let j = choose|j: int| 0 <= j < init.len() && init[j] == before[k].0;
                assert(fields[j] == before[k].0);
            } else {
                assert(fields.contains(fields[fields.len() - 1]));
            }
        }
        assert forall|i: int|
            0 <= i < fields.len() && (strict || option_field(options, fields[i]) is Some) implies exists|
            k: int,
        |
            0 <= k < after.len() && #[trigger] after[k].0 == #[trigger] fields[i] by {
            if i < init.len() {
                assert(init[i] == fields[i]);
                let k = choose|k: int|
                    0 <= k < before.len() && #[trigger] before[k].0 == init[i];
                assert(after[k] == before[k]);
            } else {
                assert(after[before.len() as int].0 == fields[i]);
            }
        }
    }
}

/// A request to join is only ever matched with rooms of the type that it asks for, that
/// are neither locked nor private, and that show what the request gives of the type's
/// filter fields. A room with a field that the request leaves out is not matched where
/// the type is strict.
pub proof fn law_matched_rooms_fit_request(
    h: HandlerView,
    options: JsonView,
    filter: Seq<(Seq<char>, ConditionView)>,
    sort: Seq<(Seq<char>, int)>,
    l: ListingView,
    i: int,
)
    requires
        matches_query(l, match_query(match_conditions_of(h, options), filter, sort)),
        !l.extra.dom().contains("name"@),
        !l.extra.dom().contains("locked"@),
        !l.extra.dom().contains("private"@),
        0 <= i < h.filter_by.len(),
        !h.filter_by[i].contains('.'),
        !listing_fields(l).dom().contains(h.filter_by[i]),
    ensures
        l.name == h.name,
        !l.locked,
        !l.is_private,
        option_field(options, h.filter_by[i]) matches Some(v) ==> {
            &&& l.extra.dom().contains(h.filter_by[i])
            &&& values_equal(l.extra[h.filter_by[i]], v)
            &&& v is Str && l.extra[h.filter_by[i]] is Str ==> l.extra[h.filter_by[i]] == v
            &&& v is Bool ==> l.extra[h.filter_by[i]] == v
        },
        option_field(options, h.filter_by[i]) is None && h.strict_filter ==> !l.extra.dom().contains(
            h.filter_by[i],
        ),
{
    law_matched_rooms_are_joinable(h, options, filter, sort, l);
    let f = h.filter_by[i];
    let fs = field_conditions(h.filter_by, options, h.strict_filter);
    let cs = match_conditions_of(h, options);
    let q = match_query(cs, filter, sort);
    lemma_field_conditions(h.filter_by, options, h.strict_filter);
    law_listed_field(l, f);
    if h.strict_filter || option_field(options, f) is Some {
        let k = choose|k: int| 0 <= k < fs.len() && #[trigger] fs[k].0 == h.filter_by[i];
        assert(q.conditions[3 + k] == fs[k]);
        assert(condition_holds(field_value(flat_view(l), fs[k].0), fs[k].1));
    }
}

/// A request to join is only ever matched with rooms of the type that it asks for, that
/// are neither locked nor private.
pub proof fn law_matched_rooms_are_joinable(
    h: HandlerView,
    options: JsonView,
    filter: Seq<(Seq<char>, ConditionView)>,
    sort: Seq<(Seq<char>, int)>,
    l: ListingView,
)
    requires
        matches_query(l, match_query(match_conditions_of(h, options), filter, sort)),
        !l.extra.dom().contains("name"@),
        !l.extra.dom().contains("locked"@),
        !l.extra.dom().contains("private"@),
    ensures
        l.name == h.name,
        !l.locked,
        !l.is_private,
{
    let cs = match_conditions_of(h, options);
    let q = match_query(cs, filter, sort);
    lemma_core_names();
    law_listing_shows_itself(l);
    law_listed_field(l, "name"@);
    law_listed_field(l, "locked"@);
    law_listed_field(l, "private"@);
    lemma_core_conditions(h, options);
    let a = choose|a: int|
        0 <= a < cs.len() && #[trigger] cs[a] == ("name"@, equals_condition(JsonView::Str(h.name)));
    let b = choose|b: int|
        0 <= b < cs.len() && #[trigger] cs[b] == ("locked"@, equals_condition(JsonView::Bool(false)));
    let c = choose|c: int|
        0 <= c < cs.len() && #[trigger] cs[c] == (
            "private"@,
            equals_condition(JsonView::Bool(false)),
        );
    assert(q.conditions[a] == cs[a]);
    assert(q.conditions[b] == cs[b]);
    assert(q.conditions[c] == cs[c]);
}

proof fn lemma_core_conditions(h: HandlerView, options: JsonView)
    ensures
        match_conditions_of(h, options).contains(
            ("name"@, equals_condition(JsonView::Str(h.name))),
        ),
        match_conditions_of(h, options).contains(
            ("locked"@, equals_condition(JsonView::Bool(false))),
        ),
        match_conditions_of(h, options).contains(
            ("private"@, equals_condition(JsonView::Bool(false))),
        ),
{
    let cs = match_conditions_of(h, options);
    assert(cs[0] == ("name"@, equals_condition(JsonView::Str(h.name))));
    assert(cs[1] == ("locked"@, equals_condition(JsonView::Bool(false))));
    assert(cs[2] == ("private"@, equals_condition(JsonView::Bool(false))));
}

/// A room of the type that is asked for, neither locked nor private, that was created
/// with what the request gives of the filter fields, is matched. A field that the
/// request leaves out may have any value, unless the type is strict: then the room must
/// not have it either.
pub proof fn law_fitting_room_is_matched(
    h: HandlerView,
    options: JsonView,
    sort: Seq<(Seq<char>, int)>,
    l: ListingView,
)
    requires
        l.name == h.name,
        !l.locked,
        !l.is_private,
        !l.extra.dom().contains("name"@),
        !l.extra.dom().contains("locked"@),
        !l.extra.dom().contains("private"@),
        forall|i: int|
            0 <= i < h.filter_by.len() ==> {
                let f = #[trigger] h.filter_by[i];
                &&& !f.contains('.')
                &&& match option_field(options, f) {
                    Some(v) => l.extra.dom().contains(f) && l.extra[f] == v,
                    None => h.strict_filter ==> !l.extra.dom().contains(f) && !listing_fields(
                        l,
                    ).dom().contains(f),
                }
            },
    ensures
        matches_query(l, match_query(match_conditions_of(h, options), seq![], sort)),
{
    let fs = field_conditions(h.filter_by, options, h.strict_filter);
    let cs = match_conditions_of(h, options);
    let q = match_query(cs, seq![], sort);
    lemma_core_names();
    law_listing_shows_itself(l);
    law_listed_field(l, "name"@);
    law_listed_field(l, "locked"@);
    law_listed_field(l, "private"@);
    lemma_field_conditions(h.filter_by, options, h.strict_filter);
    assert(q.conditions =~= cs);
    assert forall|k: int| 0 <= k < cs.len() implies condition_holds(
        field_value(flat_view(l), (#[trigger] cs[k]).0),
        cs[k].1,
    ) by {
        if k >= 3 {
            let c = fs[k - 3];
            assert(cs[k] == c);
            assert(h.filter_by.contains(c.0));
            let i = choose|i: int| 0 <= i < h.filter_by.len() && h.filter_by[i] == c.0;
            law_listed_field(l, h.filter_by[i]);
        }
    }
}

/// The listing of a room shows what it was created with of the filter and unique
/// fields, and nothing else of the options.
pub proof fn law_listing_shows_filter_fields(h: HandlerView, options: JsonView, f: Seq<char>)
    ensures
        ({
            let shown = picked_fields(h.filter_by + h.unique_by, options);
            &&& shown.dom().contains(f) <==> (h.filter_by.contains(f) || h.unique_by.contains(f))
                && option_field(options, f) is Some
            &&& shown.dom().contains(f) ==> Some(shown[f]) == option_field(options, f)
        }),
{
    let all = h.filter_by + h.unique_by;
    crate::handler::lemma_picked_field(all, options, f);
    if h.filter_by.contains(f) {
        let i = choose|i: int| 0 <= i < h.filter_by.len() && h.filter_by[i] == f;
        assert(all[i] == f);
    }
    if h.unique_by.contains(f) {
        let i = choose|i: int| 0 <= i < h.unique_by.len() && h.unique_by[i] == f;
        assert(all[h.filter_by.len() + i] == f);
    }
    if all.contains(f) {
        let i = choose|i: int| 0 <= i < all.len() && all[i] == f;
        if i < h.filter_by.len() {
            assert(h.filter_by[i] == f);
        } else {
            assert(h.unique_by[i - h.filter_by.len()] == f);
        }
    }
}

// ---------------------------------------------------------------------
// choosing among rooms
// ---------------------------------------------------------------------

/// A room takes more clients that is not locked and has fewer than its limit.
pub open spec fn has_free_seat(l: ListingView) -> bool {
    !l.locked && (l.max_clients is None || l.clients < l.max_clients->Some_0)
}

/// joinOrCreate takes the first room with a free seat, in the order in which the rooms
/// come, and creates one exactly where none has one.
pub proof fn law_join_or_create_takes_first_free(f: FlowView, candidates: Seq<ListingView>, i: int)
    requires
        f.mode == JoinMode::JoinOrCreate,
        f.attempts_left > 0,
    ensures
        0 <= i < candidates.len() && has_free_seat(candidates[i]) && (forall|j: int|
            0 <= j < i ==> !has_free_seat(#[trigger] candidates[j])) ==> room_chosen(f, candidates)
            == JoinStepView::Reserve(candidates[i]),
        (forall|j: int| 0 <= j < candidates.len() ==> !has_free_seat(#[trigger] candidates[j]))
            <==> room_chosen(f, candidates) is Create,
        !(room_chosen(f, candidates) is Fail),
{
    lemma_first_open(candidates, i);
}

proof fn lemma_first_open(candidates: Seq<ListingView>, i: int)
    ensures
        0 <= i < candidates.len() && has_free_seat(candidates[i]) && (forall|j: int|
            0 <= j < i ==> !has_free_seat(#[trigger] candidates[j])) ==> first_open(candidates)
            == Some(candidates[i]),
        (forall|j: int| 0 <= j < candidates.len() ==> !has_free_seat(#[trigger] candidates[j]))
            <==> first_open(candidates) is None,
    decreases candidates.len(),
{
    if candidates.len() > 0 {
        let rest = candidates.drop_first();
        lemma_first_open(rest, i - 1);
        assert(is_open(candidates[0]) == has_free_seat(candidates[0]));
        if !has_free_seat(candidates[0]) {
            if 0 < i < candidates.len() && (forall|j: int|
                0 <= j < i ==> !has_free_seat(#[trigger] candidates[j])) {
                assert(rest[i - 1] == candidates[i]);
                assert forall|j: int| 0 <= j < i - 1 implies !has_free_seat(#[trigger] rest[j]) by {
                    assert(rest[j] == candidates[j + 1]);
                }
            }
            if forall|j: int| 0 <= j < rest.len() ==> !has_free_seat(#[trigger] rest[j]) {
                assert forall|j: int| 0 <= j < candidates.len() implies !has_free_seat(
                    #[trigger] candidates[j],
                ) by {
                    if j > 0 {
                        assert(rest[j - 1] == candidates[j]);
                    }
                }
            }
            if forall|j: int|
                0 <= j < candidates.len() ==> !has_free_seat(#[trigger] candidates[j]) {
                assert forall|j: int| 0 <= j < rest.len() implies !has_free_seat(
                    #[trigger] rest[j],
                ) by {
                    assert(rest[j] == candidates[j + 1]);
                }
            }
        }
    }
}

/// join takes the first room and, where none matches, fails with the code for criteria
/// that no room meets. It never creates a room.
pub proof fn law_join_takes_first_or_fails(f: FlowView, candidates: Seq<ListingView>)
    requires
        f.mode == JoinMode::Join,
        f.attempts_left > 0,
    ensures
        candidates.len() > 0 ==> room_chosen(f, candidates) == JoinStepView::Reserve(candidates[0]),
        candidates.len() == 0 ==> (room_chosen(f, candidates) matches JoinStepView::Fail(e)
            && e.code == 521),
{
}

/// joinById asks for a seat in the room with that id, unless there is none or it is
/// locked.
pub proof fn law_join_by_id_takes_that_room(
    f: FlowView,
    room_id: Seq<char>,
    listing: Option<ListingView>,
)
    requires
        f.attempts_left > 0,
    ensures
        listing matches Some(l) ==> !l.locked ==> room_found(f, room_id, listing)
            == JoinStepView::Reserve(l),
        listing matches Some(l) ==> l.locked ==> (room_found(f, room_id, listing)
            matches JoinStepView::Fail(e) && e.code == 522),
        listing is None ==> (room_found(f, room_id, listing) matches JoinStepView::Fail(e) && e.code
            == 522),
{
}

/// A seat that was got ends the request with it. A seat that could not be had (524) is
/// asked for elsewhere, once less; any other error ends the request with it.
pub proof fn law_lost_seats_are_tried_elsewhere(
    f: FlowView,
    seat: ReservationView,
    e: ErrorView,
)
    ensures
        seat_answered(f, Ok(seat)) == (f, SeatStepView::Done(seat)),
        e.code != 524 ==> seat_answered(f, Err(e)) == (f, SeatStepView::Fail(e)),
        e.code == 524 ==> {
            &&& seat_answered(f, Err(e)).1 is Again
            &&& seat_answered(f, Err(e)).0.mode == f.mode
            &&& seat_answered(f, Err(e)).0.last_error == Some(e)
            &&& f.attempts_left > 0 ==> seat_answered(f, Err(e)).0.attempts_left
                == f.attempts_left - 1
        },
{
}

/// A seat is given exactly where the room said yes and is listed: in that room, for
/// that session, without a token. Whatever the room refuses with is passed on.
pub proof fn law_seat_is_given_where_room_says_yes(
    mm: MatchMaker,
    room_id: Seq<char>,
    session_id: Seq<char>,
    reply: SeatReply,
)
    ensures
        ({
            let r = seat_result(mm, room_id, session_id, reply);
            let yes = reply matches SeatReply::Answer(a) && a is Ok;
            let listed = mm.driver.listings().dom().contains(room_id);
            &&& r is Ok <==> yes && listed
            &&& r matches Ok(s) ==> s.session_id == session_id && s.room
                == mm.driver.listings()[room_id] && s.reconnection_token is None && s.process_id
                == mm.process_id@
            &&& reply matches SeatReply::Answer(a) ==> (a matches Err(e) ==> r == Err::<
                ReservationView,
                ErrorView,
            >(e@))
            &&& reply is Gone || reply is Dropped || (yes && !listed) ==> (r matches Err(e)
                && e.code == 524)
        }),
{
}

/// A token that the room knows leads back to the session that it was given to, with the
/// token; any other is refused as expired.
pub proof fn law_reconnection_leads_to_own_session(
    mm: MatchMaker,
    room: ListingView,
    token: Seq<char>,
    reply: TokenReply,
)
    ensures
        ({
            let r = reconnect_result(mm, room, token, reply);
            &&& reply matches TokenReply::Session(s) ==> (s matches Some(s) ==> (r matches Ok(x)
                && x.session_id == s@ && x.room == room && x.reconnection_token == Some(token)))
            &&& reply matches TokenReply::Session(s) ==> (s is None ==> (r matches Err(e) && e.code
                == 524))
            &&& reply is Gone ==> (r matches Err(e) && e.code == 522)
        }),
{
}

/// The codes that requests fail with.
pub proof fn law_matchmaking_codes(name: Seq<char>, e: ErrorView)
    ensures
        no_handler_error(name).code == 520,
        room_not_found_error(name).code == 522,
        seat_expired_error().code == 524,
        e.code != 0 ==> spawn_error(e).code == e.code,
        spawn_error(e).code != 0,
        spawn_error(e).message == e.message,
{
}

/// Data of an older version is migrated, data of the same version is not, and data of a
/// newer one is refused.
pub proof fn law_only_older_data_is_migrated(found: u32, current: u32)
    ensures
        found < current ==> migration(found, current) == Ok::<bool, ErrorView>(true),
        found == current ==> migration(found, current) == Ok::<bool, ErrorView>(false),
        found > current ==> migration(found, current) is Err,
{
}

// ---------------------------------------------------------------------
// counting rooms
// ---------------------------------------------------------------------

/// Each room counts once: in all, as open while it takes more clients and else as full,
/// as waiting while it is open and somebody is in it, and by its lock and its privacy.
/// Rooms of another type than the one that is asked for do not count.
pub proof fn law_each_room_counts_once(
    s: RoomStats,
    after: RoomStats,
    all: Seq<ListingView>,
    l: ListingView,
    name: Option<Seq<char>>,
)
    requires
        is_stats(s, all, name),
        is_stats(after, all.push(l), name),
    ensures
        ({
            let counts = name is None || l.name == name->Some_0;
            let open = has_free_seat(l);
            &&& after.total - s.total == if counts {
                1int
            } else {
                0
            }
            &&& after.open - s.open == if counts && open {
                1int
            } else {
                0
            }
            &&& after.waiting - s.waiting == if counts && open && l.clients > 0 {
                1int
            } else {
                0
            }
            &&& after.full - s.full == if counts && !open {
                1int
            } else {
                0
            }
            &&& after.locked - s.locked == if counts && l.locked {
                1int
            } else {
                0
            }
            &&& after.private - s.private == if counts && l.is_private {
                1int
            } else {
                0
            }
        }),
        all.len() == 0 ==> s.total == 0 && s.open == 0 && s.waiting == 0 && s.full == 0 && s.locked
            == 0 && s.private == 0,
{
    assert(all.push(l).drop_last() =~= all);
}

/// A room that is reused for a creation is of the type that is asked for and shows the
/// same values of the unique fields, or none of a field that the request leaves out.
pub proof fn law_reused_room_has_same_key(h: HandlerView, options: JsonView, l: ListingView, i: int)
    requires
        matches_query(l, key_query(h, options)),
        !l.extra.dom().contains("name"@),
        0 <= i < h.unique_by.len(),
        !h.unique_by[i].contains('.'),
        !listing_fields(l).dom().contains(h.unique_by[i]),
    ensures
        l.name == h.name,
        option_field(options, h.unique_by[i]) matches Some(v) ==> {
            &&& l.extra.dom().contains(h.unique_by[i])
            &&& values_equal(l.extra[h.unique_by[i]], v)
            &&& v is Str && l.extra[h.unique_by[i]] is Str ==> l.extra[h.unique_by[i]] == v
            &&& v is Bool ==> l.extra[h.unique_by[i]] == v
        },
        option_field(options, h.unique_by[i]) is None ==> !l.extra.dom().contains(h.unique_by[i]),
{
    let f = h.unique_by[i];
    let fs = field_conditions(h.unique_by, options, true);
    let q = key_query(h, options);
    lemma_field_conditions(h.unique_by, options, true);
    lemma_core_names();
    law_listing_shows_itself(l);
    law_listed_field(l, "name"@);
    law_listed_field(l, f);
    assert(q.conditions[0] == ("name"@, equals_condition(JsonView::Str(h.name))));
    assert(condition_holds(field_value(flat_view(l), "name"@), q.conditions[0].1));
    let k = choose|k: int| 0 <= k < fs.len() && #[trigger] fs[k].0 == h.unique_by[i];
    assert(q.conditions[1 + k] == fs[k]);
    assert(condition_holds(field_value(flat_view(l), fs[k].0), fs[k].1));
}

/// Every request asks for a seat three times at most.
pub proof fn law_requests_have_three_attempts(mode: JoinMode)
    ensures
        fresh_flow(mode).attempts_left == 3,
        fresh_flow(mode).mode == mode,
        fresh_flow(mode).last_error is None,
{
}

/// A room is created with the request's options, under the type's name, in this
/// process; its type decides whether it is persisted.
pub proof fn law_room_is_prepared(
    mm: MatchMaker,
    h: HandlerView,
    room_id: Seq<char>,
    room_name: Seq<char>,
    options: JsonView,
    created_at: u64,
    now: u128,
)
    ensures
        ({
            let c = prepared(mm, h, room_id, room_name, options, created_at, now);
            &&& c.create_options == options
            &&& c.room_id == room_id
            &&& c.room_name == room_name
            &&& c.process_id == mm.process_id@
            &&& c.created_at == created_at
            &&& h.persistent ==> c.persistence == mm.persistence
            &&& !h.persistent ==> c.persistence is None
            &&& c.filter_extra == picked_fields(h.filter_by + h.unique_by, options)
        }),
{
}

/// A reservation tells the room, the session, and the process; a reconnection also its
/// token, and a server with an address of its own also that.
pub proof fn law_reservation_is_shown(r: ReservationView)
    ensures
        ({
            let v = reservation_json(r);
            &&& member(v, "sessionId"@) == Some(JsonView::Str(r.session_id))
            &&& member(v, "processId"@) == Some(JsonView::Str(r.process_id))
            &&& member(v, "room"@) == Some(flat_view(r.room))
            &&& r.reconnection_token matches Some(t) ==> member(v, "reconnectionToken"@) == Some(
                JsonView::Str(t),
            )
            &&& r.reconnection_token is None ==> member(v, "reconnectionToken"@) is None
            &&& r.public_address matches Some(a) ==> member(v, "publicAddress"@) == Some(
                JsonView::Str(a),
            )
            &&& r.public_address is None ==> member(v, "publicAddress"@) is None
        }),
{
    reveal_strlit("room");
    reveal_strlit("sessionId");
    reveal_strlit("reconnectionToken");
    reveal_strlit("publicAddress");
    reveal_strlit("processId");
    assert("room"@.len() == 4);
    assert("sessionId"@.len() == 9);
    assert("reconnectionToken"@.len() == 17);
    assert("publicAddress"@.len() == 13);
    assert("processId"@.len() == 9);
    assert("sessionId"@[0] != "processId"@[0]);
}

/// What a query may ask about: the seven core fields, anything in the metadata, and the
/// filter fields of the type that it names. Room ids may not be asked about.
pub proof fn law_fields_that_may_be_asked_about(
    handlers: Seq<(Seq<char>, HandlerView)>,
    name: Option<Seq<char>>,
    f: Seq<char>,
    rest: Seq<char>,
)
    ensures
        is_allowed(handlers, name, "name"@),
        is_allowed(handlers, name, "clients"@),
        is_allowed(handlers, name, "maxClients"@),
        is_allowed(handlers, name, "locked"@),
        is_allowed(handlers, name, "private"@),
        is_allowed(handlers, name, "createdAt"@),
        is_allowed(handlers, name, "processId"@),
        is_allowed(handlers, name, "metadata."@ + rest),
        !is_allowed(handlers, name, "roomId"@),
        f != "roomId"@ && (name matches Some(n) && table_get(handlers, n) matches Some(h)
            && h.filter_by.contains(f)) ==> is_allowed(handlers, name, f),
        is_allowed(handlers, name, f) ==> f == "name"@ || f == "clients"@ || f == "maxClients"@ || f
            == "locked"@ || f == "private"@ || f == "createdAt"@ || f == "processId"@ || (f.len()
            >= 9 && f.take(9) == "metadata."@) || (name matches Some(n) && table_get(handlers, n)
            matches Some(h) && h.filter_by.contains(f)),
{
    reveal_strlit("name");
    reveal_strlit("clients");
    reveal_strlit("maxClients");
    reveal_strlit("locked");
    reveal_strlit("private");
    reveal_strlit("createdAt");
    reveal_strlit("processId");
    reveal_strlit("roomId");
    assert("name"@.len() == 4);
    assert("clients"@.len() == 7);
    assert("maxClients"@.len() == 10);
    assert("locked"@.len() == 6);
    assert("private"@.len() == 7);
    assert("createdAt"@.len() == 9);
    assert("processId"@.len() == 9);
    assert("roomId"@.len() == 6);
    assert("clients"@[0] != "private"@[0]);
    assert("locked"@[0] != "roomId"@[0]);
    assert("createdAt"@[0] != "processId"@[0]);
    reveal_strlit("metadata.");
    assert(("metadata."@ + rest).take(9) =~= "metadata."@);
    assert(("metadata."@ + rest)[0] == 'm');
    assert("roomId"@[0] == 'r');
}

/// A query is refused exactly where one of the fields may not be asked about.
pub proof fn law_one_bad_field_is_enough(
    handlers: Seq<(Seq<char>, HandlerView)>,
    name: Option<Seq<char>>,
    fields: Seq<Seq<char>>,
)
    ensures
        first_refused(handlers, name, fields) is None <==> forall|i: int|
            0 <= i < fields.len() ==> is_allowed(handlers, name, #[trigger] fields[i]),
    decreases fields.len(),
{
    if fields.len() > 0 {
        let init = fields.drop_last();
        law_one_bad_field_is_enough(handlers, name, init);
        if first_refused(handlers, name, init) is Some {
            let i = choose|i: int|
                0 <= i < init.len() && !is_allowed(handlers, name, #[trigger] init[i]);
            assert(fields[i] == init[i]);
        } else {
            assert forall|i: int|
                0 <= i < fields.len() && is_allowed(handlers, name, fields.last()) implies
                is_allowed(handlers, name, #[trigger] fields[i]) by {
                if i < init.len() {
                    assert(init[i] == fields[i]);
                }
            }
            assert(fields[fields.len() - 1] == fields.last());
        }
    }
}

/// What is told of a room type.
pub proof fn law_schema_is_shown(h: HandlerView, i: int)
    requires
        0 <= i < h.filter_by.len(),
    ensures
        ({
            let v = schema_of(h);
            &&& member(v, "name"@) == Some(JsonView::Str(h.name))
            &&& member(v, "strictFilterFields"@) == Some(JsonView::Bool(h.strict_filter))
            &&& member(v, "internal"@) == Some(JsonView::Bool(h.internal))
            &&& member(v, "persistent"@) == Some(JsonView::Bool(h.persistent))
            &&& h.default_options matches Some(d) ==> member(v, "defaultOptions"@) == Some(d)
            &&& h.default_options is None ==> member(v, "defaultOptions"@) is None
            &&& member(v, "filterBy"@) matches Some(JsonView::Array(fs)) && fs.len()
                == h.filter_by.len() && fs[i] == JsonView::Str(h.filter_by[i])
            &&& member(v, "uniqueBy"@) matches Some(JsonView::Array(us)) && us.len()
                == h.unique_by.len()
            &&& member(v, "sortBy"@) matches Some(JsonView::Array(ks)) && ks.len()
                == h.sort_by.len()
        }),
{
    reveal_strlit("name");
    reveal_strlit("filterBy");
    reveal_strlit("uniqueBy");
    reveal_strlit("sortBy");
    reveal_strlit("strictFilterFields");
    reveal_strlit("internal");
    reveal_strlit("persistent");
    reveal_strlit("defaultOptions");
    assert("name"@.len() == 4);
    assert("filterBy"@.len() == 8);
    assert("uniqueBy"@.len() == 8);
    assert("sortBy"@.len() == 6);
    assert("strictFilterFields"@.len() == 18);
    assert("internal"@.len() == 8);
    assert("persistent"@.len() == 10);
    assert("defaultOptions"@.len() == 14);
    assert("filterBy"@[0] != "uniqueBy"@[0]);
    assert("filterBy"@[0] != "internal"@[0]);
    assert("uniqueBy"@[0] != "internal"@[0]);
}

/// A reconnection is refused where the room is not listed or not running, as one to a
/// room that is not there.
pub proof fn law_reconnection_needs_running_room(mm: MatchMaker, room_id: Seq<char>)
    ensures
        reconnect_refusal(mm, room_id) is None <==> mm.driver.listings().dom().contains(room_id)
            && text_views(mm.rooms@).contains(room_id),
        reconnect_refusal(mm, room_id) matches Some(e) ==> e.code == 522,
{
}

/// A kept room is started again exactly where there is a store that has it, its bytes
/// can be read, it is not running, and its type is known and persisted. It is started
/// under its own id, name and fields, and it was created when it was created. Bytes
/// that cannot be read are moved out of the way, and a room whose type is not persisted
/// any more is forgotten.
pub proof fn law_kept_room_is_started(
    mm: MatchMaker,
    room_id: Seq<char>,
    bytes: Seq<u8>,
    s: SnapshotView,
    h: HandlerView,
    now: u128,
    r: RestoreStep,
)
    requires
        is_restore_step(mm, room_id, true, Some(bytes), now, r),
    ensures
        decode_result(bytes) is Err ==> r is Quarantine,
        decode_result(bytes) == Ok::<SnapshotView, Seq<char>>(s) && text_views(mm.rooms@).contains(
            s.room_id,
        ) ==> r is Fail,
        decode_result(bytes) == Ok::<SnapshotView, Seq<char>>(s) && table_get(
            mm.handlers@,
            s.room_name,
        ) is None ==> r is Fail,
        decode_result(bytes) == Ok::<SnapshotView, Seq<char>>(s) && !text_views(
            mm.rooms@,
        ).contains(s.room_id) && table_get(mm.handlers@, s.room_name) == Some(h) && !h.persistent
            ==> r is Discard,
        decode_result(bytes) == Ok::<SnapshotView, Seq<char>>(s) && !text_views(
            mm.rooms@,
        ).contains(s.room_id) && table_get(mm.handlers@, s.room_name) == Some(h) && h.persistent
            ==> (r matches RestoreStep::Start(x, ctx) && x@ == s && ctx@.room_id == s.room_id
            && ctx@.room_name == s.room_name && ctx@.created_at == s.created_at
            && ctx@.filter_extra == s.filter_extra && ctx@.persistence == mm.persistence
            && ctx@.process_id == mm.process_id@),
{
}

/// Without a store, or without bytes in it, no room is started.
pub proof fn law_unknown_room_is_not_started(
    mm: MatchMaker,
    room_id: Seq<char>,
    loaded: Option<Seq<u8>>,
    now: u128,
    r: RestoreStep,
)
    ensures
        is_restore_step(mm, room_id, false, loaded, now, r) ==> (r matches RestoreStep::Fail(e)
            && e@.code == 526),
        is_restore_step(mm, room_id, true, None, now, r) ==> (r matches RestoreStep::Fail(e)
            && e@.code == 522),
{
}

}
