//! Joining, creating, reconnecting to and restoring rooms. What runs elsewhere (a
//! room's answer, a store) is the caller's; each step says what is to be done
//! next, and a later step takes what came of it.

use crate::actor::bad_token_error;
use crate::context::fresh_context;
use crate::driver::{
    flat_view, is_walk, law_matching_is_exact, listing_fields, listing_views, matches_query,
    matching, ListingView, RoomListing,
};
use crate::error::{
    codes, no_handler_error, room_not_found_error, seat_expired_error, ErrorView, ServerError,
};
use crate::handler::{
    conditions_key, copy_texts, field_conditions, key_of, lemma_picked_field, lemma_plain_field,
    lemma_shown_fields, option_field, picked_fields, unique_conditions_of, HandlerView,
};
use crate::json::{clone_entries, Json, JsonView};
use crate::matchmaker::{
    first_live, is_open, lemma_live_found, match_query, reservation_result, without_rooms,
    CreateRoomOutcome, MatchMaker, ReservationView, SeatReservation, JOIN_OR_CREATE_RETRIES,
    JOIN_RETRIES,
};
use crate::query::{
    condition_holds, conditions_view, equals_condition, field_value, text_option, Condition,
    ConditionView, QueryView,
};
use crate::room::{listing_of, ContextView, RoomContext};
use crate::snapshot::{decode_result, decode_snapshot, RoomSnapshot};
use crate::table::table_get;
use crate::text::{decimal, decimal_text, join_quoted, joined, same_text, text_views, with_quoted};
use crate::utils::{generate_id, is_id};
use vstd::prelude::*;
use vstd::string::*;

verus! {

// ---------------------------------------------------------------------
// choosing a room
// ---------------------------------------------------------------------

/// What a request asks for.
#[derive(Debug, Clone, Copy, PartialEq, Eq, Structural)]
pub enum JoinMode {
    /// A room that matches, or else a new one.
    JoinOrCreate,
    /// A room that matches.
    Join,
    /// One room.
    ById,
}

/// A request on its way to a seat.
#[derive(Debug)]
pub struct JoinFlow {
    pub mode: JoinMode,
    /// How often a seat may still be asked for.
    pub attempts_left: u32,
    /// Why the last seat could not be had.
    pub last_error: Option<ServerError>,
}

/// What a request stands for.
pub struct FlowView {
    pub mode: JoinMode,
    pub attempts_left: u32,
    pub last_error: Option<ErrorView>,
}

impl View for JoinFlow {
    type V = FlowView;

    open spec fn view(&self) -> FlowView {
        FlowView {
            mode: self.mode,
            attempts_left: self.attempts_left,
            last_error: match self.last_error {
                Some(e) => Some(e@),
                None => None,
            },
        }
    }
}

/// What is to be done next for a request.
#[derive(Debug)]
pub enum JoinStep {
    /// A seat in this room is to be asked for.
    Reserve(RoomListing),
    /// A room is to be created.
    Create,
    /// The request has failed.
    Fail(ServerError),
}

/// What is to be done next, read through its views.
pub enum JoinStepView {
    Reserve(ListingView),
    Create,
    Fail(ErrorView),
}

impl View for JoinStep {
    type V = JoinStepView;

    open spec fn view(&self) -> JoinStepView {
        match self {
            JoinStep::Reserve(l) => JoinStepView::Reserve(l@),
            JoinStep::Create => JoinStepView::Create,
            JoinStep::Fail(e) => JoinStepView::Fail(e@),
        }
    }
}

pub open spec fn no_match_error() -> ErrorView {
    ErrorView {
        code: codes::MATCHMAKE_INVALID_CRITERIA,
        message: "no rooms found with the provided criteria"@,
    }
}

pub open spec fn locked_error(room_id: Seq<char>) -> ErrorView {
    ErrorView {
        code: codes::MATCHMAKE_INVALID_ROOM_ID,
        message: with_quoted("room "@, room_id) + " is locked"@,
    }
}

/// A request that did not ask for a seat yet.
pub open spec fn fresh_flow(mode: JoinMode) -> FlowView {
    FlowView {
        mode,
        attempts_left: if mode == JoinMode::JoinOrCreate {
            JOIN_OR_CREATE_RETRIES
        } else {
            (JOIN_RETRIES + 1) as u32
        },
        last_error: None,
    }
}

/// The error of a request that may not ask for a seat any more: why the last seat
/// could not be had.
pub open spec fn given_up_error(f: FlowView) -> ErrorView {
    match f.last_error {
        Some(e) => e,
        None => if f.mode == JoinMode::JoinOrCreate {
            ErrorView { code: codes::MATCHMAKE_UNHANDLED, message: "join_or_create failed"@ }
        } else {
            seat_expired_error()
        },
    }
}

/// The first of the rooms that is open to more clients.
pub open spec fn first_open(candidates: Seq<ListingView>) -> Option<ListingView>
    decreases candidates.len(),
{
    if candidates.len() == 0 {
        None
    } else if is_open(candidates[0]) {
        Some(candidates[0])
    } else {
        first_open(candidates.drop_first())
    }
}

/// What is done for a request, given the rooms that match. Where a room may be
/// created, the first one with a free seat is joined, and without one a room is
/// created; where not, the first one is joined, and without one the request fails.
pub open spec fn room_chosen(f: FlowView, candidates: Seq<ListingView>) -> JoinStepView {
    if f.attempts_left == 0 {
        JoinStepView::Fail(given_up_error(f))
    } else if f.mode == JoinMode::JoinOrCreate {
        match first_open(candidates) {
            Some(l) => JoinStepView::Reserve(l),
            None => JoinStepView::Create,
        }
    } else if candidates.len() > 0 {
        JoinStepView::Reserve(candidates[0])
    } else {
        JoinStepView::Fail(no_match_error())
    }
}

fn find_open(candidates: &Vec<RoomListing>) -> (r: Option<RoomListing>)
    ensures
        match r {
            Some(l) => first_open(listing_views(candidates@)) == Some(l@),
            None => first_open(listing_views(candidates@)) is None,
        },
{
    let ghost all = listing_views(candidates@);
    let mut i: usize = 0;
    proof {
        assert(all.skip(0) =~= all);
    }
    while i < candidates.len()
        invariant
            i <= candidates.len(),
            all == listing_views(candidates@),
            first_open(all) == first_open(all.skip(i as int)),
        decreases candidates.len() - i,
    {
        let l: &RoomListing = &candidates[i];
        proof {
            assert(all.skip(i as int).drop_first() =~= all.skip(i + 1));
            assert(all.skip(i as int)[0] == l@);
        }
        let at_capacity: bool = match l.max_clients {
            Some(max) => l.clients >= max,
            None => false,
        };
        if !l.locked && !at_capacity {
            return Some(l.copy());
        }
        i = i + 1;
    }
    None
}

/// What is done for a request for one room, given its listing.
pub open spec fn room_found(f: FlowView, room_id: Seq<char>, listing: Option<ListingView>) -> JoinStepView {
    if f.attempts_left == 0 {
        JoinStepView::Fail(given_up_error(f))
    } else {
        match listing {
            None => JoinStepView::Fail(room_not_found_error(room_id)),
            Some(l) => if l.locked {
                JoinStepView::Fail(locked_error(room_id))
            } else {
                JoinStepView::Reserve(l)
            },
        }
    }
}

/// What came of asking for a seat.
#[derive(Debug)]
pub enum SeatStep {
    Done(SeatReservation),
    /// A room is to be chosen anew.
    Again,
    Fail(ServerError),
}

/// What came of asking for a seat, read through its views.
pub enum SeatStepView {
    Done(ReservationView),
    Again,
    Fail(ErrorView),
}

impl View for SeatStep {
    type V = SeatStepView;

    open spec fn view(&self) -> SeatStepView {
        match self {
            SeatStep::Done(r) => SeatStepView::Done(r@),
            SeatStep::Again => SeatStepView::Again,
            SeatStep::Fail(e) => SeatStepView::Fail(e@),
        }
    }
}

/// The request after its seat was answered, and what came of it: a seat that is
/// not to be had is asked for again, elsewhere; any other error ends the request.
pub open spec fn seat_answered(f: FlowView, r: Result<ReservationView, ErrorView>) -> (
    FlowView,
    SeatStepView,
) {
    match r {
        Ok(s) => (f, SeatStepView::Done(s)),
        Err(e) => if e.code == codes::MATCHMAKE_EXPIRED {
            (
                FlowView {
                    attempts_left: if f.attempts_left > 0 {
                        (f.attempts_left - 1) as u32
                    } else {
                        0
                    },
                    last_error: Some(e),
                    ..f
                },
                SeatStepView::Again,
            )
        } else {
            (f, SeatStepView::Fail(e))
        },
    }
}

impl JoinFlow {
    /// A new request.
    pub fn new(mode: JoinMode) -> (r: Self)
        ensures
            r@ == fresh_flow(mode),
    {
        let attempts_left: u32 = match mode {
            JoinMode::JoinOrCreate => JOIN_OR_CREATE_RETRIES,
            _ => JOIN_RETRIES + 1,
        };
        JoinFlow { mode, attempts_left, last_error: None }
    }

    fn give_up(&self) -> (r: ServerError)
        ensures
            r@ == given_up_error(self@),
    {
        match &self.last_error {
            Some(e) => e.clone(),
            None => match self.mode {
                JoinMode::JoinOrCreate => ServerError::new(
                    codes::MATCHMAKE_UNHANDLED,
                    "join_or_create failed".to_owned(),
                ),
                _ => ServerError::seat_expired(),
            },
        }
    }

    /// Chooses a room among those that match.
    pub fn choose_room(&self, candidates: &Vec<RoomListing>) -> (r: JoinStep)
        ensures
            r@ == room_chosen(self@, listing_views(candidates@)),
    {
        if self.attempts_left == 0 {
            return JoinStep::Fail(self.give_up());
        }
        match self.mode {
            JoinMode::JoinOrCreate => match find_open(candidates) {
                Some(l) => JoinStep::Reserve(l),
                None => JoinStep::Create,
            },
            _ => if candidates.len() > 0 {
                JoinStep::Reserve(candidates[0].copy())
            } else {
                JoinStep::Fail(
                    ServerError::new(
                        codes::MATCHMAKE_INVALID_CRITERIA,
                        "no rooms found with the provided criteria".to_owned(),
                    ),
                )
            },
        }
    }

    /// Chooses the room that was asked for, if it can be joined.
    pub fn choose_by_id(&self, room_id: &str, listing: Option<RoomListing>) -> (r: JoinStep)
        ensures
            r@ == room_found(
                self@,
                room_id@,
                match listing {
                    Some(l) => Some(l@),
                    None => None,
                },
            ),
    {
        if self.attempts_left == 0 {
            return JoinStep::Fail(self.give_up());
        }
        match listing {
            None => JoinStep::Fail(ServerError::room_not_found(room_id)),
            Some(l) => if l.locked {
                let mut message: String = join_quoted("room ", room_id);
                message.append(" is locked");
                JoinStep::Fail(ServerError::new(codes::MATCHMAKE_INVALID_ROOM_ID, message))
            } else {
                JoinStep::Reserve(l)
            },
        }
    }

    /// Takes what came of asking for a seat.
    pub fn seat_answer(&mut self, answer: Result<SeatReservation, ServerError>) -> (r: SeatStep)
        ensures
            (final(self)@, r@) == seat_answered(old(self)@, reservation_result(answer)),
    {
        match answer {
            Ok(s) => SeatStep::Done(s),
            Err(e) => if e.is_seat_reservation_failure() {
                if self.attempts_left > 0 {
                    self.attempts_left = self.attempts_left - 1;
                }
                self.last_error = Some(e);
                SeatStep::Again
            } else {
                SeatStep::Fail(e)
            },
        }
    }
}

/// A request that may create a room is never sent to a room without a free seat,
/// and creates one only where none of the rooms that match has one.
pub proof fn law_open_room_or_new(f: FlowView, candidates: Seq<ListingView>)
    requires
        f.mode == JoinMode::JoinOrCreate,
    ensures
        room_chosen(f, candidates) matches JoinStepView::Reserve(l) ==> is_open(l)
            && candidates.contains(l),
        room_chosen(f, candidates) is Create ==> forall|i: int|
            0 <= i < candidates.len() ==> !is_open(#[trigger] candidates[i]),
    decreases candidates.len(),
{
    if candidates.len() > 0 {
        let rest = candidates.drop_first();
        law_open_room_or_new(f, rest);
        if let Some(l) = first_open(rest) {
            if rest.contains(l) {
                let k = choose|k: int| 0 <= k < rest.len() && rest[k] == l;
                assert(candidates[k + 1] == l);
            }
        }
        if f.attempts_left > 0 && first_open(candidates) is None {
            assert forall|i: int| 0 <= i < candidates.len() implies !is_open(
                #[trigger] candidates[i],
            ) by {
                if i > 0 {
                    assert(rest[i - 1] == candidates[i]);
                }
            }
        }
        assert(candidates[0] == candidates.first());
    }
}

/// The request after answers that each said that the seat is not to be had.
pub open spec fn after_refusals(f: FlowView, errors: Seq<ErrorView>) -> FlowView
    decreases errors.len(),
{
    if errors.len() == 0 {
        f
    } else {
        seat_answered(after_refusals(f, errors.drop_last()), Err(errors.last())).0
    }
}

/// A request asks for a seat three times at most: after three refusals it fails
/// with the last one, whatever rooms there are.
pub proof fn law_three_attempts(
    mode: JoinMode,
    errors: Seq<ErrorView>,
    candidates: Seq<ListingView>,
)
    requires
        errors.len() == 3,
        forall|i: int|
            0 <= i < errors.len() ==> (#[trigger] errors[i]).code == codes::MATCHMAKE_EXPIRED,
    ensures
        ({
            let start = FlowView { mode, attempts_left: 3, last_error: None };
            let f = after_refusals(start, errors);
            f.attempts_left == 0 && room_chosen(f, candidates) == JoinStepView::Fail(errors[2])
        }),
{
    let start = FlowView { mode, attempts_left: 3, last_error: None };
    let e2 = errors.drop_last();
    let e1 = e2.drop_last();
    let e0 = e1.drop_last();
    assert(errors.last() == errors[2]);
    assert(e2.last() == errors[1]);
    assert(e1.last() == errors[0]);
    assert(after_refusals(start, e0) == start);
    assert(after_refusals(start, e1).attempts_left == 2);
    assert(after_refusals(start, e2).attempts_left == 1);
}

// ---------------------------------------------------------------------
// asking for a seat
// ---------------------------------------------------------------------

/// What a room's actor replied to a request for a seat.
#[derive(Debug)]
pub enum SeatReply {
    /// The actor is gone.
    Gone,
    /// There was no reply in time.
    TimedOut,
    /// The actor went away before it replied.
    Dropped,
    Answer(Result<(), ServerError>),
}

pub open spec fn timed_out_error() -> ErrorView {
    ErrorView { code: codes::MATCHMAKE_UNHANDLED, message: "seat reservation timed out"@ }
}

/// The reservation of a seat.
pub open spec fn reserved(
    mm: MatchMaker,
    room: ListingView,
    session_id: Seq<char>,
    token: Option<Seq<char>>,
) -> ReservationView {
    ReservationView {
        room,
        session_id,
        reconnection_token: token,
        public_address: text_option(mm.public_address),
        process_id: mm.process_id@,
    }
}

/// What came of asking for a seat, given the listings and the actor's reply.
pub open spec fn seat_result(
    mm: MatchMaker,
    room_id: Seq<char>,
    session_id: Seq<char>,
    reply: SeatReply,
) -> Result<ReservationView, ErrorView> {
    let ls = mm.driver.listings();
    match reply {
        SeatReply::Gone => Err(seat_expired_error()),
        SeatReply::TimedOut => Err(timed_out_error()),
        SeatReply::Dropped => Err(seat_expired_error()),
        SeatReply::Answer(Err(e)) => Err(e@),
        SeatReply::Answer(Ok(())) => if ls.dom().contains(room_id) {
            Ok(reserved(mm, ls[room_id], session_id, None))
        } else {
            Err(seat_expired_error())
        },
    }
}

/// Only the listings changed.
pub open spec fn only_listings(a: MatchMaker, b: MatchMaker) -> bool {
    &&& a.handlers == b.handlers
    &&& a.rooms == b.rooms
    &&& a.process_id == b.process_id
    &&& a.public_address == b.public_address
    &&& a.shutting_down == b.shutting_down
    &&& a.persistence == b.persistence
}

fn copy_option(t: &Option<String>) -> (r: Option<String>)
    ensures
        text_option(r) == text_option(*t),
{
    match t {
        Some(s) => Some(s.clone()),
        None => None,
    }
}

/// What a reconnection is up against.
pub open spec fn reconnect_refusal(mm: MatchMaker, room_id: Seq<char>) -> Option<ErrorView> {
    if !mm.driver.listings().dom().contains(room_id) {
        Some(
            ErrorView {
                code: codes::MATCHMAKE_INVALID_ROOM_ID,
                message: with_quoted("room "@, room_id)
                    + " has been disposed. Did you forget allow_reconnection()?"@,
            },
        )
    } else if !text_views(mm.rooms@).contains(room_id) {
        Some(room_not_found_error(room_id))
    } else {
        None
    }
}

/// What a room's actor replied to a reconnection token.
#[derive(Debug)]
pub enum TokenReply {
    /// The actor is gone.
    Gone,
    /// The session that the token is for; `None` also where there was no reply in
    /// time.
    Session(Option<String>),
}

/// What came of a reconnection.
pub open spec fn reconnect_result(
    mm: MatchMaker,
    room: ListingView,
    token: Seq<char>,
    reply: TokenReply,
) -> Result<ReservationView, ErrorView> {
    match reply {
        TokenReply::Gone => Err(room_not_found_error(room.room_id)),
        TokenReply::Session(Some(s)) => Ok(reserved(mm, room, s@, Some(token))),
        TokenReply::Session(None) => Err(bad_token_error()),
    }
}

impl MatchMaker {
    /// Begins to ask for a seat: the new session's id, or the error where the
    /// room is not running, whose listing is then dropped.
    pub fn reserve_begin(&mut self, room_id: &str) -> (r: Result<String, ServerError>)
        ensures
            only_listings(*old(self), *final(self)),
            match r {
                Ok(s) => text_views(old(self).rooms@).contains(room_id@) && is_id(s@)
                    && final(self).driver.listings() == old(self).driver.listings(),
                Err(e) => !text_views(old(self).rooms@).contains(room_id@) && e@
                    == seat_expired_error() && final(self).driver.listings() == old(
                    self,
                ).driver.listings().remove(room_id@),
            },
    {
        if self.is_running(room_id) {
            Ok(generate_id())
        } else {
            self.driver.remove(room_id);
            Err(ServerError::seat_expired())
        }
    }

    /// Takes the actor's reply to a request for a seat. The listing of a room
    /// whose actor is gone is dropped.
    pub fn reserve_end(&mut self, room_id: &str, session_id: String, reply: SeatReply) -> (r: Result<
        SeatReservation,
        ServerError,
    >)
        ensures
            only_listings(*old(self), *final(self)),
            reservation_result(r) == seat_result(*old(self), room_id@, session_id@, reply),
            final(self).driver.listings() == if reply is Gone {
                old(self).driver.listings().remove(room_id@)
            } else {
                old(self).driver.listings()
            },
    {
        match reply {
            SeatReply::Gone => {
                self.driver.remove(room_id);
                Err(ServerError::seat_expired())
            },
            SeatReply::TimedOut => Err(
                ServerError::new(
                    codes::MATCHMAKE_UNHANDLED,
                    "seat reservation timed out".to_owned(),
                ),
            ),
            SeatReply::Dropped => Err(ServerError::seat_expired()),
            SeatReply::Answer(Err(e)) => Err(e),
            SeatReply::Answer(Ok(())) => match self.driver.get(room_id) {
                Some(room) => Ok(
                    SeatReservation {
                        room,
                        session_id,
                        reconnection_token: None,
                        public_address: copy_option(&self.public_address),
                        process_id: self.process_id.clone(),
                    },
                ),
                None => Err(ServerError::seat_expired()),
            },
        }
    }

    /// Begins a reconnection: the room's listing, or why there is none.
    pub fn reconnect_begin(&self, room_id: &str) -> (r: Result<RoomListing, ServerError>)
        ensures
            match r {
                Ok(l) => reconnect_refusal(*self, room_id@) is None && l@
                    == self.driver.listings()[room_id@],
                Err(e) => reconnect_refusal(*self, room_id@) == Some(e@),
            },
    {
        match self.driver.get(room_id) {
            None => {
                let mut message: String = join_quoted("room ", room_id);
                message.append(" has been disposed. Did you forget allow_reconnection()?");
                Err(ServerError::new(codes::MATCHMAKE_INVALID_ROOM_ID, message))
            },
            Some(l) => if self.is_running(room_id) {
                Ok(l)
            } else {
                Err(ServerError::room_not_found(room_id))
            },
        }
    }

    /// Takes the actor's reply to a reconnection token.
    pub fn reconnect_end(&self, room: RoomListing, token: &str, reply: TokenReply) -> (r: Result<
        SeatReservation,
        ServerError,
    >)
        ensures
            reservation_result(r) == reconnect_result(*self, room@, token@, reply),
    {
        match reply {
            TokenReply::Gone => Err(ServerError::room_not_found(room.room_id.as_str())),
            TokenReply::Session(Some(session_id)) => Ok(
                SeatReservation {
                    room,
                    session_id,
                    reconnection_token: Some(token.to_owned()),
                    public_address: copy_option(&self.public_address),
                    process_id: self.process_id.clone(),
                },
            ),
            TokenReply::Session(None) => Err(
                ServerError::new(
                    codes::MATCHMAKE_EXPIRED,
                    "reconnection token invalid or expired".to_owned(),
                ),
            ),
        }
    }
}

// ---------------------------------------------------------------------
// creating rooms
// ---------------------------------------------------------------------

/// The key under which creations for the same criteria wait for each other.
pub open spec fn create_key(room_name: Seq<char>, cs: Seq<(Seq<char>, ConditionView)>) -> Seq<char> {
    room_name + ":"@ + key_of(cs)
}

/// The key under which creations of the same unique room wait for each other.
pub open spec fn unique_key(room_name: Seq<char>, cs: Seq<(Seq<char>, ConditionView)>) -> Seq<char> {
    room_name + ":unique:"@ + key_of(cs)
}

/// The error of a creation that failed: a room's own code stands.
pub open spec fn spawn_error(e: ErrorView) -> ErrorView {
    ErrorView {
        code: if e.code == 0 {
            codes::MATCHMAKE_UNHANDLED
        } else {
            e.code
        },
        message: e.message,
    }
}

/// What is to be done for a room that is to be created.
#[derive(Debug)]
pub enum CreateStep {
    /// The room is there already.
    Reuse(CreateRoomOutcome),
    /// A new room is to be started.
    Spawn,
}

/// The query for the rooms with the same values of the unique fields.
pub open spec fn key_query(h: HandlerView, options: JsonView) -> QueryView {
    match_query(unique_conditions_of(h, options), seq![], seq![])
}

/// A search for a running room among the listings that match: what it finds, and
/// the listings after it, without those of the rooms before it, which are gone.
pub open spec fn is_live_search(
    listings: Map<Seq<char>, ListingView>,
    rooms: Seq<Seq<char>>,
    q: QueryView,
    after: Map<Seq<char>, ListingView>,
    found: Option<ListingView>,
) -> bool {
    exists|all: Seq<ListingView>| #[trigger]
        is_walk(listings, all) && ({
            let m = matching(all, q);
            let i = first_live(m, rooms);
            &&& after == without_rooms(listings, m.take(i))
            &&& found == if i < m.len() {
                Some(m[i])
            } else {
                None
            }
        })
}

/// A listing shows that its room was created with these options: the room type's
/// filter and unique fields are on it, and can be asked for.
pub open spec fn carries_key(l: ListingView, h: HandlerView, options: JsonView) -> bool {
    &&& l.name == h.name
    &&& l.extra == picked_fields(h.filter_by + h.unique_by, options)
    &&& !l.extra.dom().contains("name"@) || l.extra["name"@] == JsonView::Str(h.name)
    &&& forall|i: int|
        0 <= i < h.unique_by.len() ==> !(#[trigger] h.unique_by[i]).contains('.') && (option_field(
            options,
            h.unique_by[i],
        ) is Some || !listing_fields(l).dom().contains(h.unique_by[i]))
}

/// A listing shows its room's name.
proof fn lemma_listed_name(l: ListingView)
    ensures
        listing_fields(l).dom().contains("name"@),
        listing_fields(l)["name"@] == JsonView::Str(l.name),
{
    reveal_strlit("name");
    reveal_strlit("processId");
    reveal_strlit("clients");
    reveal_strlit("maxClients");
    reveal_strlit("locked");
    reveal_strlit("private");
    reveal_strlit("metadata");
    reveal_strlit("createdAt");
    assert("name"@.len() == 4);
    assert("processId"@.len() == 9);
    assert("clients"@.len() == 7);
    assert("maxClients"@.len() == 10);
    assert("locked"@.len() == 6);
    assert("private"@.len() == 7);
    assert("metadata"@.len() == 8);
    assert("createdAt"@.len() == 9);
}

/// A room that was created with these options meets the conditions of its
/// uniqueness key.
pub proof fn lemma_key_matches(l: ListingView, h: HandlerView, options: JsonView)
    requires
        carries_key(l, h, options),
    ensures
        matches_query(l, key_query(h, options)),
{
    let fields = h.filter_by + h.unique_by;
    let object = listing_fields(l).union_prefer_right(l.extra);
    let q = key_query(h, options);
    assert forall|i: int| 0 <= i < h.unique_by.len() implies !(#[trigger] h.unique_by[i]).contains(
        '.',
    ) && (match option_field(options, h.unique_by[i]) {
        Some(v) => object.dom().contains(h.unique_by[i]) && object[h.unique_by[i]] == v,
        None => !object.dom().contains(h.unique_by[i]),
    }) by {
        let f = h.unique_by[i];
        assert(fields[h.filter_by.len() + i] == f);
        lemma_picked_field(fields, options, f);
    }
    lemma_shown_fields(object, h.unique_by, options);
    lemma_listed_name(l);
    reveal_strlit("name");
    assert(!"name"@.contains('.'));
    lemma_plain_field(object, "name"@);
    let fs = field_conditions(h.unique_by, options, true);
    assert forall|i: int| 0 <= i < q.conditions.len() implies condition_holds(
        field_value(flat_view(l), (#[trigger] q.conditions[i]).0),
        q.conditions[i].1,
    ) by {
        if i > 0 {
            assert(q.conditions[i] == fs[i - 1]);
        } else {
            assert(q.conditions[0] == ("name"@, equals_condition(JsonView::Str(h.name))));
        }
    }
}

/// While a room that was created with the same values of the unique fields is
/// running and listed, a creation finds a running room under its key, and no new
/// one is made. (A unique field that is a path, or that is left out and is a field
/// of every listing, is no such key.)
pub proof fn law_unique_room_reused(
    listings: Map<Seq<char>, ListingView>,
    all: Seq<ListingView>,
    rooms: Seq<Seq<char>>,
    h: HandlerView,
    options: JsonView,
    id: Seq<char>,
)
    requires
        is_walk(listings, all),
        listings.dom().contains(id),
        listings[id].room_id == id,
        rooms.contains(id),
        carries_key(listings[id], h, options),
    ensures
        ({
            let m = matching(all, key_query(h, options));
            let i = first_live(m, rooms);
            0 <= i < m.len() && rooms.contains(m[i].room_id) && matches_query(
                m[i],
                key_query(h, options),
            )
        }),
{
    let q = key_query(h, options);
    let m = matching(all, q);
    lemma_key_matches(listings[id], h, options);
    law_matching_is_exact(listings, all, q);
    assert(m.contains(listings[id]));
    let k = choose|k: int| 0 <= k < m.len() && m[k] == listings[id];
    lemma_live_found(m, rooms, k);
    assert(m.contains(m[first_live(m, rooms)]));
}

/// A room that was just created and listed is the one under its key, or another
/// running room with the same key is: the next creation with the same options makes
/// no new room.
pub proof fn law_second_creation_reuses(
    listings: Map<Seq<char>, ListingView>,
    rooms: Seq<Seq<char>>,
    c: ContextView,
    all: Seq<ListingView>,
    h: HandlerView,
    options: JsonView,
)
    requires
        c.room_name == h.name,
        c.filter_extra == picked_fields(h.filter_by + h.unique_by, options),
        carries_key(listing_of(c), h, options),
        is_walk(listings.insert(c.room_id, listing_of(c)), all),
    ensures
        ({
            let m = matching(all, key_query(h, options));
            first_live(m, rooms.push(c.room_id)) < m.len()
        }),
{
    let after = listings.insert(c.room_id, listing_of(c));
    assert(rooms.push(c.room_id)[rooms.len() as int] == c.room_id);
    law_unique_room_reused(after, all, rooms.push(c.room_id), h, options, c.room_id);
}

impl MatchMaker {
    /// Decides whether a creation makes a new room: not where the room type has
    /// unique fields and a running room has the same values of them. Listings of
    /// rooms that are gone are removed on the way.
    pub fn create_step(&mut self, room_name: &str, options: &Json) -> (r: Result<
        CreateStep,
        ServerError,
    >)
        ensures
            match table_get(old(self).handlers@, room_name@) {
                None => (r matches Err(e) && e@ == no_handler_error(room_name@)) && *final(self)
                    == *old(self),
                Some(h) => if h.unique_by.len() == 0 {
                    r matches Ok(CreateStep::Spawn) && *final(self) == *old(self)
                } else {
                    r is Ok && is_live_search(
                        old(self).driver.listings(),
                        text_views(old(self).rooms@),
                        key_query(h, options@),
                        final(self).driver.listings(),
                        match r {
                            Ok(CreateStep::Reuse(o)) => Some(o.listing@),
                            _ => None,
                        },
                    ) && (r matches Ok(CreateStep::Reuse(o)) ==> !o.created)
                },
            },
            only_listings(*old(self), *final(self)),
    {
        let conditions: Vec<(String, Condition)> = match self.handler(room_name) {
            Err(e) => {
                return Err(e);
            },
            Ok(h) => {
                if h.unique_by.len() == 0 {
                    return Ok(CreateStep::Spawn);
                }
                h.unique_conditions(options)
            },
        };
        match self.find_live(&conditions) {
            Some(listing) => Ok(CreateStep::Reuse(CreateRoomOutcome { listing, created: false })),
            None => Ok(CreateStep::Spawn),
        }
    }

    /// The key that serializes creations for a request's criteria.
    pub fn create_lock_key(&self, room_name: &str, conditions: &Vec<(String, Condition)>) -> (r: String)
        ensures
            r@ == create_key(room_name@, conditions_view(conditions@)),
    {
        let mut r: String = joined(room_name, ":");
        let key: String = conditions_key(conditions);
        r.append(key.as_str());
        r
    }

    /// The key that serializes creations of a unique room, if the room type has
    /// unique fields.
    pub fn unique_lock_key(&self, room_name: &str, options: &Json) -> (r: Result<
        Option<String>,
        ServerError,
    >)
        ensures
            match table_get(self.handlers@, room_name@) {
                None => r matches Err(e) && e@ == no_handler_error(room_name@),
                Some(h) => if h.unique_by.len() == 0 {
                    r matches Ok(None)
                } else {
                    r matches Ok(Some(k)) && k@ == unique_key(
                        room_name@,
                        unique_conditions_of(h, options@),
                    )
                },
            },
    {
        match self.handler(room_name) {
            Err(e) => Err(e),
            Ok(h) => {
                if h.unique_by.len() == 0 {
                    return Ok(None);
                }
                let cs: Vec<(String, Condition)> = h.unique_conditions(options);
                let mut r: String = joined(room_name, ":unique:");
                let key: String = conditions_key(&cs);
                r.append(key.as_str());
                Ok(Some(r))
            },
        }
    }

    /// The context of a room that is to be created, under a new id.
    pub fn prepare_room(&self, room_name: &str, options: &Json, created_at: u64, now: u128) -> (r:
        Result<RoomContext, ServerError>)
        ensures
            match table_get(self.handlers@, room_name@) {
                None => r matches Err(e) && e@ == no_handler_error(room_name@),
                Some(h) => r matches Ok(ctx) && is_id(ctx@.room_id) && ctx@ == prepared(
                    *self,
                    h,
                    ctx@.room_id,
                    room_name@,
                    options@,
                    created_at,
                    now,
                ),
            },
    {
        match self.handler(room_name) {
            Err(e) => Err(e),
            Ok(h) => {
                let extra: Vec<(String, Json)> = h.filter_extra(options);
                let persistence = if h.is_persistent() {
                    self.persistence
                } else {
                    None
                };
                let ctx: RoomContext = RoomContext::new(
                    generate_id(),
                    room_name.to_owned(),
                    self.process_id.clone(),
                    created_at,
                    extra,
                    persistence,
                    now,
                );
                Ok(RoomContext { create_options: options.clone(), ..ctx })
            },
        }
    }

    /// Takes a room in that was created or restored: it is running and listed.
    pub fn room_started(&mut self, listing: &RoomListing)
        ensures
            text_views(final(self).rooms@) == text_views(old(self).rooms@).push(listing@.room_id),
            final(self).driver.listings() == old(self).driver.listings().insert(
                listing@.room_id,
                listing@,
            ),
            final(self).handlers == old(self).handlers,
            final(self).process_id == old(self).process_id,
            final(self).public_address == old(self).public_address,
            final(self).shutting_down == old(self).shutting_down,
            final(self).persistence == old(self).persistence,
    {
        let ghost before = self.rooms@;
        let id: String = listing.room_id.clone();
        self.rooms.push(id);
        proof {
            assert(text_views(self.rooms@) =~= text_views(before).push(id@));
        }
        self.driver.insert(listing.copy());
    }

    /// Takes what came of a creation.
    pub fn finish_room(&mut self, started: Result<RoomListing, ServerError>) -> (r: Result<
        RoomListing,
        ServerError,
    >)
        ensures
            match started {
                Ok(l) => r matches Ok(x) && x@ == l@ && text_views(final(self).rooms@)
                    == text_views(old(self).rooms@).push(l@.room_id)
                    && final(self).driver.listings() == old(self).driver.listings().insert(
                    l@.room_id,
                    l@,
                ),
                Err(e) => r matches Err(x) && x@ == spawn_error(e@) && *final(self) == *old(self),
            },
            final(self).handlers == old(self).handlers,
            final(self).process_id == old(self).process_id,
            final(self).public_address == old(self).public_address,
            final(self).shutting_down == old(self).shutting_down,
            final(self).persistence == old(self).persistence,
    {
        match started {
            Ok(l) => {
                self.room_started(&l);
                Ok(l)
            },
            Err(e) => {
                let code: u16 = if e.code == 0 {
                    codes::MATCHMAKE_UNHANDLED
                } else {
                    e.code
                };
                Err(ServerError::new(code, e.message))
            },
        }
    }

    /// Takes a room out that was disposed.
    pub fn room_stopped(&mut self, room_id: &str)
        ensures
            text_views(final(self).rooms@) == text_views(old(self).rooms@).filter(
                |t: Seq<char>| t != room_id@,
            ),
            final(self).driver.listings() == old(self).driver.listings().remove(room_id@),
            final(self).handlers == old(self).handlers,
            final(self).process_id == old(self).process_id,
            final(self).public_address == old(self).public_address,
            final(self).shutting_down == old(self).shutting_down,
            final(self).persistence == old(self).persistence,
    {
        let ghost all = text_views(self.rooms@);
        let ghost keep = |t: Seq<char>| t != room_id@;
        let mut kept: Vec<String> = Vec::new();
        let mut i: usize = 0;
        proof {
            assert(text_views(kept@) =~= all.take(0).filter(keep));
        }
        while i < self.rooms.len()
            invariant
                i <= self.rooms.len(),
                all == text_views(self.rooms@),
                keep == (|t: Seq<char>| t != room_id@),
                text_views(kept@) == all.take(i as int).filter(keep),
                *self == *old(self),
            decreases self.rooms.len() - i,
        {
            proof {
                assert(all.take(i + 1) =~= all.take(i as int).push(all[i as int]));
                all.take(i as int).lemma_filter_push(all[i as int], keep);
            }
            if !same_text(self.rooms[i].as_str(), room_id) {
                let ghost before = kept@;
                let id: String = self.rooms[i].clone();
                kept.push(id);
                proof {
                    assert(text_views(kept@) =~= text_views(before).push(id@));
                }
            }
            i = i + 1;
        }
        proof {
            assert(all.take(all.len() as int) =~= all);
        }
        self.rooms = kept;
        self.driver.remove(room_id);
    }

    /// Begins to shut down: the rooms that are to be told, or `None` where that
    /// was done before.
    pub fn begin_shutdown(&mut self) -> (r: Option<Vec<String>>)
        ensures
            r is None <==> old(self).shutting_down,
            r matches Some(v) ==> text_views(v@) == text_views(old(self).rooms@),
            final(self).shutting_down,
            final(self).handlers == old(self).handlers,
            final(self).driver == old(self).driver,
            final(self).rooms == old(self).rooms,
            final(self).process_id == old(self).process_id,
            final(self).public_address == old(self).public_address,
            final(self).persistence == old(self).persistence,
    {
        if self.shutting_down {
            return None;
        }
        self.shutting_down = true;
        Some(copy_texts(&self.rooms))
    }
}

// ---------------------------------------------------------------------
// restoring rooms
// ---------------------------------------------------------------------

/// What a kept room leads to.
pub enum RestoreStep {
    /// It cannot be restored.
    Fail(ServerError),
    /// Its snapshot is corrupt, and is to be moved out of the way for this reason.
    Quarantine(String, ServerError),
    /// Its type is not persisted, and its snapshot is to be deleted.
    Discard,
    /// It is to be started.
    Start(RoomSnapshot, RoomContext),
}

/// The context of a room that is about to be created.
pub open spec fn prepared(
    mm: MatchMaker,
    h: HandlerView,
    room_id: Seq<char>,
    room_name: Seq<char>,
    options: JsonView,
    created_at: u64,
    now: u128,
) -> ContextView {
    ContextView {
        create_options: options,
        ..fresh_context(
            room_id,
            room_name,
            mm.process_id@,
            created_at,
            picked_fields(h.filter_by + h.unique_by, options),
            if h.persistent {
                mm.persistence
            } else {
                None
            },
            now,
        )
    }
}

pub open spec fn application_error(message: Seq<char>) -> ErrorView {
    ErrorView { code: codes::APPLICATION_ERROR, message }
}

/// `r` is what a kept room leads to, given the bytes that a store has of it.
pub open spec fn is_restore_step(
    mm: MatchMaker,
    room_id: Seq<char>,
    has_store: bool,
    loaded: Option<Seq<u8>>,
    now: u128,
    r: RestoreStep,
) -> bool {
    if !has_store {
        r matches RestoreStep::Fail(e) && e@ == application_error("no snapshot store configured"@)
    } else {
        match loaded {
            None => r matches RestoreStep::Fail(e) && e@ == room_not_found_error(room_id),
            Some(bytes) => match decode_result(bytes) {
                Err(m) => r matches RestoreStep::Quarantine(reason, e) && reason@ == m && e@
                    == application_error("corrupt snapshot for "@ + room_id + ": "@ + m),
                Ok(s) => if text_views(mm.rooms@).contains(s.room_id) {
                    r matches RestoreStep::Fail(e) && e@ == application_error(
                        "room "@ + s.room_id + " is already running"@,
                    )
                } else {
                    match table_get(mm.handlers@, s.room_name) {
                        None => r matches RestoreStep::Fail(e) && e@ == no_handler_error(
                            s.room_name,
                        ),
                        Some(h) => if !h.persistent {
                            r is Discard
                        } else {
                            r matches RestoreStep::Start(x, ctx) && x@ == s && ctx@
                                == fresh_context(
                                s.room_id,
                                s.room_name,
                                mm.process_id@,
                                ctx@.created_at,
                                s.filter_extra,
                                mm.persistence,
                                now,
                            ) && ctx@.created_at == s.created_at
                        },
                    }
                },
            },
        }
    }
}

/// Whether a snapshot's data has to be migrated, or why it cannot be used.
pub open spec fn migration(found: u32, current: u32) -> Result<bool, ErrorView> {
    if found < current {
        Ok(true)
    } else if found == current {
        Ok(false)
    } else {
        Err(
            application_error(
                "snapshot schema version "@ + decimal(found as nat)
                    + " is newer than room version "@ + decimal(current as nat),
            ),
        )
    }
}

impl MatchMaker {
    /// Decides what a kept room leads to.
    pub fn restore_begin(
        &self,
        room_id: &str,
        has_store: bool,
        loaded: Option<Vec<u8>>,
        now: u128,
    ) -> (r: RestoreStep)
        ensures
            is_restore_step(
                *self,
                room_id@,
                has_store,
                match loaded {
                    Some(b) => Some(b@),
                    None => None,
                },
                now,
                r,
            ),
    {
        if !has_store {
            return RestoreStep::Fail(
                ServerError::new(
                    codes::APPLICATION_ERROR,
                    "no snapshot store configured".to_owned(),
                ),
            );
        }
        let bytes: Vec<u8> = match loaded {
            Some(b) => b,
            None => {
                return RestoreStep::Fail(ServerError::room_not_found(room_id));
            },
        };
        let snapshot: RoomSnapshot = match decode_snapshot(bytes.as_slice()) {
            Ok(s) => s,
            Err(e) => {
                let mut message: String = joined("corrupt snapshot for ", room_id);
                message.append(": ");
                message.append(e.as_str());
                return RestoreStep::Quarantine(
                    e,
                    ServerError::new(codes::APPLICATION_ERROR, message),
                );
            },
        };
        if self.is_running(snapshot.room_id.as_str()) {
            let mut message: String = joined("room ", snapshot.room_id.as_str());
            message.append(" is already running");
            return RestoreStep::Fail(ServerError::new(codes::APPLICATION_ERROR, message));
        }
        let persistent: bool = match self.handler(snapshot.room_name.as_str()) {
            Ok(h) => h.is_persistent(),
            Err(e) => {
                return RestoreStep::Fail(e);
            },
        };
        if !persistent {
            return RestoreStep::Discard;
        }
        let ctx: RoomContext = RoomContext::new(
            snapshot.room_id.clone(),
            snapshot.room_name.clone(),
            self.process_id.clone(),
            snapshot.created_at,
            clone_entries(&snapshot.filter_extra),
            self.persistence,
            now,
        );
        RestoreStep::Start(snapshot, ctx)
    }

    /// Whether a snapshot's data has to be migrated to the room's version.
    pub fn migration_step(found: u32, current: u32) -> (r: Result<bool, ServerError>)
        ensures
            match r {
                Ok(b) => migration(found, current) == Ok::<bool, ErrorView>(b),
                Err(e) => migration(found, current) == Err::<bool, ErrorView>(e@),
            },
    {
        if found < current {
            Ok(true)
        } else if found == current {
            Ok(false)
        } else {
            let a: String = decimal_text(found as u64);
            let b: String = decimal_text(current as u64);
            let mut message: String = joined("snapshot schema version ", a.as_str());
            message.append(" is newer than room version ");
            message.append(b.as_str());
            Err(ServerError::new(codes::APPLICATION_ERROR, message))
        }
    }
}

}
