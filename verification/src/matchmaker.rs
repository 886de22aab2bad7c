//! The matchmaker: room types, room creation, seat reservations and listings.

use crate::actor::outcome;
use crate::driver::{
    clone_sort, equality_query, flat_view, is_answer, is_page, is_sorting, is_walk, listing_views,
    matching, no_listings, ListingView, LocalDriver, RoomListing, RoomQueryResult,
};
use crate::error::{codes, no_handler_error, ErrorView, ServerError};
use crate::filter::{filter_conditions, parse_filter};
use crate::handler::{HandlerView, RegisteredHandler};
use crate::json::{entries_view, put_field, set_entry, Json, JsonView};
use crate::query::{
    conditions_view, empty_query, sort_view, text_option, Condition, ConditionView, Conditions,
    QueryView, RoomQuery, SortOptions,
};
use crate::snapshot::PersistenceConfig;
use crate::table::{table_get, table_remove, table_set, Table};
use crate::text::{chars_of, join_quoted, joined, same_text, slice_text, text_views, with_quoted};
use vstd::prelude::*;
use vstd::string::*;

verus! {

/// How often joining or creating is tried when a seat cannot be had.
pub const JOIN_OR_CREATE_RETRIES: u32 = 3;

/// How often joining is tried again when a listing turns out to be stale.
pub const JOIN_RETRIES: u32 = 2;

/// Events emitted for lobby-style listing subscriptions.
#[derive(Debug)]
pub enum MatchmakerEvent {
    RoomCreated(RoomListing),
    RoomUpdated(RoomListing),
    RoomRemoved(String),
}

/// Cheap per-room-type status counts.
#[derive(Debug, Clone, Copy)]
pub struct RoomStats {
    /// Rooms of the type (or all rooms when no name filter).
    pub total: usize,
    /// Not locked and not at capacity.
    pub open: usize,
    /// Open with at least one client, and so waiting for more.
    pub waiting: usize,
    /// Locked or at capacity.
    pub full: usize,
    pub locked: usize,
    pub private: usize,
}

/// The result of a successful matchmaking call: a reserved seat.
#[derive(Debug)]
pub struct SeatReservation {
    pub room: RoomListing,
    pub session_id: String,
    pub reconnection_token: Option<String>,
    pub public_address: Option<String>,
    pub process_id: String,
}

/// What a reservation stands for.
pub struct ReservationView {
    pub room: ListingView,
    pub session_id: Seq<char>,
    pub reconnection_token: Option<Seq<char>>,
    pub public_address: Option<Seq<char>>,
    pub process_id: Seq<char>,
}

impl View for SeatReservation {
    type V = ReservationView;

    open spec fn view(&self) -> ReservationView {
        ReservationView {
            room: self.room@,
            session_id: self.session_id@,
            reconnection_token: text_option(self.reconnection_token),
            public_address: text_option(self.public_address),
            process_id: self.process_id@,
        }
    }
}

/// A result with a reservation, read through its views.
pub open spec fn reservation_result(r: Result<SeatReservation, ServerError>) -> Result<
    ReservationView,
    ErrorView,
> {
    match r {
        Ok(s) => Ok(s@),
        Err(e) => Err(e@),
    }
}

/// A reservation as JSON.
pub open spec fn reservation_json(r: ReservationView) -> JsonView {
    let base = Map::<Seq<char>, JsonView>::empty().insert(
        "room"@,
        flat_view(r.room),
    ).insert("sessionId"@, JsonView::Str(r.session_id));
    let tokened = match r.reconnection_token {
        Some(t) => base.insert("reconnectionToken"@, JsonView::Str(t)),
        None => base,
    };
    let addressed = match r.public_address {
        Some(a) => tokened.insert("publicAddress"@, JsonView::Str(a)),
        None => tokened,
    };
    JsonView::Object(addressed.insert("processId"@, JsonView::Str(r.process_id)))
}

impl SeatReservation {
    /// The reservation as it is sent to clients.
    pub fn to_json(&self) -> (r: Json)
        ensures
            r@ == reservation_json(self@),
    {
        let mut es: Vec<(String, Json)> = Vec::new();
        put_field(&mut es, "room", self.room.to_flat_value());
        put_field(&mut es, "sessionId", Json::Str(self.session_id.clone()));
        if let Some(t) = &self.reconnection_token {
            put_field(&mut es, "reconnectionToken", Json::Str(t.clone()));
        }
        if let Some(a) = &self.public_address {
            put_field(&mut es, "publicAddress", Json::Str(a.clone()));
        }
        put_field(&mut es, "processId", Json::Str(self.process_id.clone()));
        Json::Object(es)
    }
}

/// The result of a server-side room creation.
#[derive(Debug)]
pub struct CreateRoomOutcome {
    pub listing: RoomListing,
    /// `false` when an existing live room with the same uniqueness key was reused
    /// instead of creating a new one.
    pub created: bool,
}

// ---------------------------------------------------------------------
// fields that may be asked for
// ---------------------------------------------------------------------

/// Fields every room type may be filtered and sorted on.
pub open spec fn is_core_field(f: Seq<char>) -> bool {
    f == "name"@ || f == "clients"@ || f == "maxClients"@ || f == "locked"@ || f == "private"@ || f
        == "createdAt"@ || f == "processId"@
}

/// A path into the metadata.
pub open spec fn is_metadata_field(f: Seq<char>) -> bool {
    f.len() >= 9 && f.take(9) == "metadata."@
}

/// A field that may be filtered and sorted on: a core field, a path into the
/// metadata, or a filter field of the room type. Room ids are never asked for.
pub open spec fn is_allowed(
    handlers: Seq<(Seq<char>, HandlerView)>,
    room_name: Option<Seq<char>>,
    f: Seq<char>,
) -> bool {
    f != "roomId"@ && (is_core_field(f) || is_metadata_field(f) || (room_name matches Some(n)
        && table_get(handlers, n) matches Some(h) && h.filter_by.contains(f)))
}

/// The first field that may not be asked for.
pub open spec fn first_refused(
    handlers: Seq<(Seq<char>, HandlerView)>,
    room_name: Option<Seq<char>>,
    fields: Seq<Seq<char>>,
) -> Option<Seq<char>>
    decreases fields.len(),
{
    if fields.len() == 0 {
        None
    } else {
        match first_refused(handlers, room_name, fields.drop_last()) {
            Some(f) => Some(f),
            None => if is_allowed(handlers, room_name, fields.last()) {
                None
            } else {
                Some(fields.last())
            },
        }
    }
}

/// The error for a field that may not be asked for.
pub open spec fn unknown_field_error(what: Seq<char>, field: Seq<char>) -> ErrorView {
    ErrorView {
        code: codes::MATCHMAKE_INVALID_CRITERIA,
        message: with_quoted("unknown "@ + what + " field "@, field),
    }
}

/// The fields that conditions are on.
pub open spec fn condition_fields(cs: Seq<(Seq<char>, ConditionView)>) -> Seq<Seq<char>> {
    cs.map_values(|c: (Seq<char>, ConditionView)| c.0)
}

/// The fields that are sorted on.
pub open spec fn sort_fields(ks: Seq<(Seq<char>, int)>) -> Seq<Seq<char>> {
    ks.map_values(|k: (Seq<char>, int)| k.0)
}

/// The error of a query that asks for a field that it may not.
pub open spec fn query_refusal(
    handlers: Seq<(Seq<char>, HandlerView)>,
    q: QueryView,
) -> Option<ErrorView> {
    match first_refused(handlers, q.name, condition_fields(q.conditions)) {
        Some(f) => Some(unknown_field_error("filter"@, f)),
        None => match first_refused(handlers, q.name, sort_fields(q.sort)) {
            Some(f) => Some(unknown_field_error("sort"@, f)),
            None => None,
        },
    }
}

proof fn lemma_first_refused(
    handlers: Seq<(Seq<char>, HandlerView)>,
    room_name: Option<Seq<char>>,
    fields: Seq<Seq<char>>,
    n: int,
)
    requires
        0 <= n <= fields.len(),
        first_refused(handlers, room_name, fields.take(n)) is Some,
    ensures
        first_refused(handlers, room_name, fields) == first_refused(
            handlers,
            room_name,
            fields.take(n),
        ),
    decreases fields.len(),
{
    if n == fields.len() {
        assert(fields.take(n) =~= fields);
    } else {
        assert(fields.drop_last().take(n) =~= fields.take(n));
        lemma_first_refused(handlers, room_name, fields.drop_last(), n);
    }
}

/// A query that is answered asks only for what it may.
pub proof fn law_answered_queries_are_allowed(
    handlers: Seq<(Seq<char>, HandlerView)>,
    q: QueryView,
    i: int,
)
    requires
        query_refusal(handlers, q) is None,
        0 <= i < q.conditions.len(),
    ensures
        is_allowed(handlers, q.name, q.conditions[i].0),
        q.conditions[i].0 != "roomId"@,
{
    let fields = condition_fields(q.conditions);
    lemma_none_refused(handlers, q.name, fields, i);
}

proof fn lemma_none_refused(
    handlers: Seq<(Seq<char>, HandlerView)>,
    room_name: Option<Seq<char>>,
    fields: Seq<Seq<char>>,
    i: int,
)
    requires
        first_refused(handlers, room_name, fields) is None,
        0 <= i < fields.len(),
    ensures
        is_allowed(handlers, room_name, fields[i]),
    decreases fields.len(),
{
    if i < fields.len() - 1 {
        lemma_none_refused(handlers, room_name, fields.drop_last(), i);
    }
}

fn is_core(f: &str) -> (r: bool)
    ensures
        r == is_core_field(f@),
{
    same_text(f, "name") || same_text(f, "clients") || same_text(f, "maxClients") || same_text(
        f,
        "locked",
    ) || same_text(f, "private") || same_text(f, "createdAt") || same_text(f, "processId")
}

fn is_metadata(f: &str) -> (r: bool)
    ensures
        r == is_metadata_field(f@),
{
    let v: Vec<char> = chars_of(f);
    if v.len() < 9 {
        return false;
    }
    let head: String = slice_text(&v, 0, 9);
    proof {
        assert(v@.subrange(0, 9) =~= f@.take(9));
    }
    same_text(head.as_str(), "metadata.")
}

fn holds_text(v: &Vec<String>, t: &str) -> (r: bool)
    ensures
        r == text_views(v@).contains(t@),
{
    let ghost all = text_views(v@);
    let mut i: usize = 0;
    while i < v.len()
        invariant
            i <= v.len(),
            all == text_views(v@),
            forall|k: int| 0 <= k < i ==> #[trigger] all[k] != t@,
        decreases v.len() - i,
    {
        if same_text(v[i].as_str(), t) {
            proof {
                assert(all[i as int] == t@);
            }
            return true;
        }
        proof {
            assert(all[i as int] == v@[i as int]@);
        }
        i = i + 1;
    }
    false
}

// ---------------------------------------------------------------------
// the matchmaker
// ---------------------------------------------------------------------

/// The matchmaker's state.
pub struct MatchMaker {
    pub handlers: Table<RegisteredHandler>,
    pub driver: LocalDriver,
    /// The ids of the rooms that are running.
    pub rooms: Vec<String>,
    pub process_id: String,
    pub public_address: Option<String>,
    pub shutting_down: bool,
    pub persistence: Option<PersistenceConfig>,
}

/// The listing counts as open to more clients.
pub open spec fn is_open(l: ListingView) -> bool {
    !l.locked && !(l.max_clients matches Some(max) && l.clients >= max)
}

/// How many of the listings have the property.
pub open spec fn count_listings(all: Seq<ListingView>, p: spec_fn(ListingView) -> bool) -> nat
    decreases all.len(),
{
    if all.len() == 0 {
        0
    } else {
        count_listings(all.drop_last(), p) + if p(all.last()) {
            1nat
        } else {
            0nat
        }
    }
}

pub open spec fn has_name(l: ListingView, room_name: Option<Seq<char>>) -> bool {
    room_name matches Some(n) ==> l.name == n
}

/// `s` counts the listings of a name, or all.
pub open spec fn is_stats(s: RoomStats, all: Seq<ListingView>, name: Option<Seq<char>>) -> bool {
    &&& s.total == count_listings(all, |l: ListingView| has_name(l, name))
    &&& s.open == count_listings(all, |l: ListingView| has_name(l, name) && is_open(l))
    &&& s.waiting == count_listings(
        all,
        |l: ListingView| has_name(l, name) && is_open(l) && l.clients >= 1,
    )
    &&& s.full == count_listings(all, |l: ListingView| has_name(l, name) && !is_open(l))
    &&& s.locked == count_listings(all, |l: ListingView| has_name(l, name) && l.locked)
    &&& s.private == count_listings(all, |l: ListingView| has_name(l, name) && l.is_private)
}

/// Every room is either open or full, and only open rooms wait.
pub proof fn law_stats_add_up(s: RoomStats, all: Seq<ListingView>, name: Option<Seq<char>>)
    requires
        is_stats(s, all, name),
    ensures
        s.total == s.open + s.full,
        s.waiting <= s.open,
        s.locked <= s.full,
{
    lemma_stats(all, name);
}

proof fn lemma_stats(all: Seq<ListingView>, name: Option<Seq<char>>)
    ensures
        count_listings(all, |l: ListingView| has_name(l, name)) == count_listings(
            all,
            |l: ListingView| has_name(l, name) && is_open(l),
        ) + count_listings(all, |l: ListingView| has_name(l, name) && !is_open(l)),
        count_listings(all, |l: ListingView| has_name(l, name) && is_open(l) && l.clients >= 1)
            <= count_listings(all, |l: ListingView| has_name(l, name) && is_open(l)),
        count_listings(all, |l: ListingView| has_name(l, name) && l.locked) <= count_listings(
            all,
            |l: ListingView| has_name(l, name) && !is_open(l),
        ),
    decreases all.len(),
{
    if all.len() > 0 {
        lemma_stats(all.drop_last(), name);
    }
}

/// Counts listings.
pub fn count_rooms(all: &Vec<RoomListing>, room_name: Option<&str>) -> (r: RoomStats)
    ensures
        is_stats(
            r,
            listing_views(all@),
            match room_name {
                Some(n) => Some(n@),
                None => None,
            },
        ),
{
    let ghost views = listing_views(all@);
    let ghost name = match room_name {
        Some(n) => Some(n@),
        None => None,
    };
    let mut s = RoomStats { total: 0, open: 0, waiting: 0, full: 0, locked: 0, private: 0 };
    let mut i: usize = 0;
    proof {
        assert(views.take(0) =~= seq![]);
    }
    while i < all.len()
        invariant
            i <= all.len(),
            views == listing_views(all@),
            name == (match room_name {
                Some(n) => Some(n@),
                None => None,
            }),
            is_stats(s, views.take(i as int), name),
            s.total <= i,
            s.open <= i,
            s.waiting <= i,
            s.full <= i,
            s.locked <= i,
            s.private <= i,
        decreases all.len() - i,
    {
        let l: &RoomListing = &all[i];
        proof {
            assert(views.take(i + 1).drop_last() =~= views.take(i as int));
            assert(views.take(i + 1).last() == l@);
        }
        let counts: bool = match room_name {
            Some(n) => same_text(l.name.as_str(), n),
            None => true,
        };
        if counts {
            s.total = s.total + 1;
            if l.is_private {
                s.private = s.private + 1;
            }
            if l.locked {
                s.locked = s.locked + 1;
            }
            let at_capacity: bool = match l.max_clients {
                Some(max) => l.clients >= max,
                None => false,
            };
            if l.locked || at_capacity {
                s.full = s.full + 1;
            } else {
                s.open = s.open + 1;
                if l.clients >= 1 {
                    s.waiting = s.waiting + 1;
                }
            }
        }
        i = i + 1;
    }
    proof {
        assert(views.take(views.len() as int) =~= views);
    }
    s
}

/// The query for rooms under conditions and an additional filter.
pub open spec fn match_query(
    conditions: Seq<(Seq<char>, ConditionView)>,
    filter: Seq<(Seq<char>, ConditionView)>,
    sort: Seq<(Seq<char>, int)>,
) -> QueryView {
    QueryView { conditions: conditions + filter, sort, ..empty_query() }
}

fn copy_conditions(cs: &Vec<(String, Condition)>) -> (r: Vec<(String, Condition)>)
    ensures
        conditions_view(r@) == conditions_view(cs@),
{
    let mut r: Vec<(String, Condition)> = Vec::new();
    let mut i: usize = 0;
    while i < cs.len()
        invariant
            i <= cs.len(),
            r.len() == i,
            forall|k: int|
                0 <= k < i ==> (#[trigger] r@[k]).0@ == cs@[k].0@ && r@[k].1@ == cs@[k].1@,
        decreases cs.len() - i,
    {
        r.push((cs[i].0.clone(), cs[i].1.clone()));
        i = i + 1;
    }
    proof {
        assert(conditions_view(r@) =~= conditions_view(cs@));
    }
    r
}

/// The place of the first listing whose room is running; the number of listings
/// where there is none.
pub open spec fn first_live(m: Seq<ListingView>, rooms: Seq<Seq<char>>) -> int
    decreases m.len(),
{
    if m.len() == 0 {
        0
    } else if rooms.contains(m[0].room_id) {
        0
    } else {
        1 + first_live(m.drop_first(), rooms)
    }
}

/// The listings without those of the rooms `m`.
pub open spec fn without_rooms(ls: Map<Seq<char>, ListingView>, m: Seq<ListingView>) -> Map<
    Seq<char>,
    ListingView,
>
    decreases m.len(),
{
    if m.len() == 0 {
        ls
    } else {
        without_rooms(ls, m.drop_last()).remove(m.last().room_id)
    }
}

proof fn lemma_first_live(m: Seq<ListingView>, rooms: Seq<Seq<char>>, i: int)
    requires
        0 <= i <= m.len(),
        forall|k: int| 0 <= k < i ==> !rooms.contains((#[trigger] m[k]).room_id),
        i < m.len() ==> rooms.contains(m[i].room_id),
    ensures
        first_live(m, rooms) == i,
    decreases m.len(),
{
    if i > 0 {
        assert(!rooms.contains(m[0].room_id));
        assert forall|k: int| 0 <= k < i - 1 implies !rooms.contains(
            (#[trigger] m.drop_first()[k]).room_id,
        ) by {
            assert(m.drop_first()[k] == m[k + 1]);
        }
        lemma_first_live(m.drop_first(), rooms, i - 1);
    }
}

/// A running room among the listings is found.
pub proof fn lemma_live_found(m: Seq<ListingView>, rooms: Seq<Seq<char>>, k: int)
    requires
        0 <= k < m.len(),
        rooms.contains(m[k].room_id),
    ensures
        0 <= first_live(m, rooms) <= k,
        rooms.contains(m[first_live(m, rooms)].room_id),
    decreases m.len(),
{
    if !rooms.contains(m[0].room_id) {
        let rest = m.drop_first();
        assert(rest[k - 1] == m[k]);
        lemma_live_found(rest, rooms, k - 1);
        assert(rest[first_live(rest, rooms)] == m[first_live(m, rooms)]);
    }
}

impl MatchMaker {
    /// A matchmaker without room types and rooms.
    pub fn new(
        process_id: String,
        public_address: Option<String>,
        persistence: Option<PersistenceConfig>,
    ) -> (r: Self)
        ensures
            r.handlers@.len() == 0,
            r.driver.listings() == no_listings(),
            r.rooms@.len() == 0,
            r.process_id == process_id,
            r.public_address == public_address,
            !r.shutting_down,
            r.persistence == persistence,
    {
        MatchMaker {
            handlers: Table::new(),
            driver: LocalDriver::new(),
            rooms: Vec::new(),
            process_id,
            public_address,
            shutting_down: false,
            persistence,
        }
    }

    /// Registers a room type, in the place of one with the same name.
    pub fn register(&mut self, handler: RegisteredHandler)
        ensures
            final(self).handlers@ == table_set(old(self).handlers@, handler@.name, handler@),
            final(self).driver == old(self).driver,
            final(self).rooms == old(self).rooms,
            final(self).process_id == old(self).process_id,
            final(self).public_address == old(self).public_address,
            final(self).shutting_down == old(self).shutting_down,
            final(self).persistence == old(self).persistence,
    {
        let name: String = handler.name.clone();
        self.handlers.set(name.as_str(), handler);
    }

    pub fn remove_room_type(&mut self, name: &str)
        ensures
            final(self).handlers@ == table_remove(old(self).handlers@, name@),
            final(self).driver == old(self).driver,
            final(self).rooms == old(self).rooms,
            final(self).process_id == old(self).process_id,
            final(self).public_address == old(self).public_address,
            final(self).shutting_down == old(self).shutting_down,
            final(self).persistence == old(self).persistence,
    {
        self.handlers.remove(name);
    }

    /// The room type with a name.
    pub fn handler(&self, name: &str) -> (r: Result<&RegisteredHandler, ServerError>)
        ensures
            match r {
                Ok(h) => table_get(self.handlers@, name@) == Some(h@),
                Err(e) => table_get(self.handlers@, name@) is None && e@ == no_handler_error(name@),
            },
    {
        match self.handlers.get(name) {
            Some(h) => Ok(h),
            None => Err(ServerError::no_handler(name)),
        }
    }

    pub fn driver(&self) -> (r: &LocalDriver)
        ensures
            r.listings() == self.driver.listings(),
    {
        &self.driver
    }

    pub fn process_id(&self) -> (r: &str)
        ensures
            r@ == self.process_id@,
    {
        self.process_id.as_str()
    }

    pub fn is_shutting_down(&self) -> (r: bool)
        ensures
            r == self.shutting_down,
    {
        self.shutting_down
    }

    /// Whether a room is running.
    pub fn is_running(&self, room_id: &str) -> (r: bool)
        ensures
            r == text_views(self.rooms@).contains(room_id@),
    {
        holds_text(&self.rooms, room_id)
    }

    /// Queries room listings by equality.
    pub fn query(&self, room_name: Option<&str>, conditions: Conditions) -> (r: Vec<RoomListing>)
        ensures
            exists|all: Seq<ListingView>, cs: Seq<(String, Json)>|
                #![trigger is_walk(self.driver.listings(), all), entries_view(cs)]
                is_walk(self.driver.listings(), all) && (match room_name {
                    Some(n) => entries_view(cs) == entries_view(conditions@).insert(
                        "name"@,
                        JsonView::Str(n@),
                    ),
                    None => cs == conditions@,
                }) && listing_views(r@) == matching(
                    all,
                    equality_query(cs, None),
                ),
    {
        let mut cs: Conditions = conditions;
        if let Some(n) = room_name {
            set_entry(&mut cs, "name", Json::Str(n.to_owned()));
        }
        let r: Vec<RoomListing> = self.driver.query(&cs, None);
        proof {
            let all = choose|all: Seq<ListingView>| #[trigger]
                is_walk(self.driver.listings(), all) && is_sorting(
                    matching(all, equality_query(cs@, None)),
                    equality_query(cs@, None).sort,
                    listing_views(r@),
                );
            assert(is_walk(self.driver.listings(), all));
            assert(entries_view(cs@) == entries_view(cs@));
        }
        r
    }

    /// Whether a field may be filtered and sorted on.
    pub fn allowed_field(&self, room_name: Option<&str>, field: &str) -> (r: bool)
        ensures
            r == is_allowed(
                self.handlers@,
                match room_name {
                    Some(n) => Some(n@),
                    None => None,
                },
                field@,
            ),
    {
        if same_text(field, "roomId") {
            return false;
        }
        if is_core(field) || is_metadata(field) {
            return true;
        }
        match room_name {
            Some(n) => match self.handlers.get(n) {
                Some(h) => holds_text(&h.filter_by, field),
                None => false,
            },
            None => false,
        }
    }

    /// Validates that every condition is on a field that may be filtered on.
    pub fn check_conditions(
        &self,
        room_name: Option<&str>,
        conditions: &Vec<(String, Condition)>,
    ) -> (r: Result<(), ServerError>)
        ensures
            outcome(r) == match first_refused(
                self.handlers@,
                match room_name {
                    Some(n) => Some(n@),
                    None => None,
                },
                condition_fields(conditions_view(conditions@)),
            ) {
                Some(f) => Err::<(), ErrorView>(unknown_field_error("filter"@, f)),
                None => Ok::<(), ErrorView>(()),
            },
    {
        let ghost name = match room_name {
            Some(n) => Some(n@),
            None => None,
        };
        let ghost fields = condition_fields(conditions_view(conditions@));
        let mut i: usize = 0;
        proof {
            assert(fields.take(0) =~= seq![]);
        }
        while i < conditions.len()
            invariant
                i <= conditions.len(),
                name == (match room_name {
                    Some(n) => Some(n@),
                    None => None,
                }),
                fields == condition_fields(conditions_view(conditions@)),
                first_refused(self.handlers@, name, fields.take(i as int)) is None,
            decreases conditions.len() - i,
        {
            proof {
                assert(fields.take(i + 1).drop_last() =~= fields.take(i as int));
                assert(fields.take(i + 1).last() == conditions@[i as int].0@);
            }
            if !self.allowed_field(room_name, conditions[i].0.as_str()) {
                proof {
                    lemma_first_refused(self.handlers@, name, fields, i + 1);
                }
                return Err(unknown_field("filter", conditions[i].0.as_str()));
            }
            i = i + 1;
        }
        proof {
            assert(fields.take(fields.len() as int) =~= fields);
        }
        Ok(())
    }

    /// Validates that every sort key is a field that may be sorted on.
    pub fn check_sort(&self, room_name: Option<&str>, sort: &SortOptions) -> (r: Result<
        (),
        ServerError,
    >)
        ensures
            outcome(r) == match first_refused(
                self.handlers@,
                match room_name {
                    Some(n) => Some(n@),
                    None => None,
                },
                sort_fields(sort_view(sort@)),
            ) {
                Some(f) => Err::<(), ErrorView>(unknown_field_error("sort"@, f)),
                None => Ok::<(), ErrorView>(()),
            },
    {
        let ghost name = match room_name {
            Some(n) => Some(n@),
            None => None,
        };
        let ghost fields = sort_fields(sort_view(sort@));
        let mut i: usize = 0;
        proof {
            assert(fields.take(0) =~= seq![]);
        }
        while i < sort.len()
            invariant
                i <= sort.len(),
                name == (match room_name {
                    Some(n) => Some(n@),
                    None => None,
                }),
                fields == sort_fields(sort_view(sort@)),
                first_refused(self.handlers@, name, fields.take(i as int)) is None,
            decreases sort.len() - i,
        {
            proof {
                assert(fields.take(i + 1).drop_last() =~= fields.take(i as int));
                assert(fields.take(i + 1).last() == sort@[i as int].0@);
            }
            if !self.allowed_field(room_name, sort[i].0.as_str()) {
                proof {
                    lemma_first_refused(self.handlers@, name, fields, i + 1);
                }
                return Err(unknown_field("sort", sort[i].0.as_str()));
            }
            i = i + 1;
        }
        proof {
            assert(fields.take(fields.len() as int) =~= fields);
        }
        Ok(())
    }

    /// Parses and validates a matchmaking filter for a room type. Fields are
    /// restricted as in [`Self::query_rooms`].
    pub fn parse_match_filter(&self, room_name: &str, filter: &Json) -> (r: Result<
        Vec<(String, Condition)>,
        ServerError,
    >)
        ensures
            match r {
                Ok(cs) => table_get(self.handlers@, room_name@) is Some && filter_conditions(
                    filter@,
                ) == Ok::<Seq<(Seq<char>, ConditionView)>, Seq<char>>(conditions_view(cs@))
                    && first_refused(
                    self.handlers@,
                    Some(room_name@),
                    condition_fields(conditions_view(cs@)),
                ) is None,
                Err(e) => if table_get(self.handlers@, room_name@) is None {
                    e@ == no_handler_error(room_name@)
                } else {
                    match filter_conditions(filter@) {
                        Err(m) => e@ == (ErrorView {
                            code: codes::MATCHMAKE_INVALID_CRITERIA,
                            message: m,
                        }),
                        Ok(cs) => first_refused(
                            self.handlers@,
                            Some(room_name@),
                            condition_fields(cs),
                        ) matches Some(f) && e@ == unknown_field_error("filter"@, f),
                    }
                },
            },
    {
        if !self.handlers.contains(room_name) {
            return Err(ServerError::no_handler(room_name));
        }
        match parse_filter(filter) {
            Err(m) => Err(ServerError::new(codes::MATCHMAKE_INVALID_CRITERIA, m)),
            Ok(cs) => match self.check_conditions(Some(room_name), &cs) {
                Err(e) => Err(e),
                Ok(()) => Ok(cs),
            },
        }
    }

    /// Runs a query, validating that every filter and sort field is allowed.
    pub fn query_rooms(&self, room_name: Option<&str>, query: RoomQuery) -> (r: Result<
        RoomQueryResult,
        ServerError,
    >)
        ensures
            ({
                let q = match room_name {
                    Some(n) => QueryView { name: Some(n@), ..query@ },
                    None => query@,
                };
                match r {
                    Ok(page) => query_refusal(self.handlers@, q) is None && exists|
                        all: Seq<ListingView>,
                    | #[trigger]
                        is_walk(self.driver.listings(), all) && is_answer(all, q, page),
                    Err(e) => query_refusal(self.handlers@, q) == Some(e@),
                }
            }),
    {
        let query: RoomQuery = match room_name {
            Some(n) => RoomQuery { name: Some(n.to_owned()), ..query },
            None => query,
        };
        let checked: Result<(), ServerError> = match &query.name {
            Some(n) => self.check_conditions(Some(n.as_str()), &query.conditions),
            None => self.check_conditions(None, &query.conditions),
        };
        if let Err(e) = checked {
            return Err(e);
        }
        let checked: Result<(), ServerError> = match &query.name {
            Some(n) => self.check_sort(Some(n.as_str()), &query.sort),
            None => self.check_sort(None, &query.sort),
        };
        if let Err(e) = checked {
            return Err(e);
        }
        Ok(self.driver.query_rooms(&query))
    }

    /// Cheap per-room-type status counts.
    pub fn room_stats(&self, room_name: Option<&str>) -> (r: RoomStats)
        ensures
            exists|all: Seq<ListingView>| #[trigger]
                is_walk(self.driver.listings(), all) && is_stats(
                    r,
                    all,
                    match room_name {
                        Some(n) => Some(n@),
                        None => None,
                    },
                ),
    {
        let all: Vec<RoomListing> = self.driver.all();
        let r: RoomStats = count_rooms(&all, room_name);
        proof {
            assert(is_walk(self.driver.listings(), listing_views(all@)));
        }
        r
    }

    /// The rooms that a request may join, in the order of the sort keys.
    pub fn candidates(
        &self,
        conditions: &Vec<(String, Condition)>,
        filter: &Vec<(String, Condition)>,
        sort: &SortOptions,
    ) -> (r: Vec<RoomListing>)
        ensures
            exists|all: Seq<ListingView>| #[trigger]
                is_walk(self.driver.listings(), all) && is_sorting(
                    matching(
                        all,
                        match_query(
                            conditions_view(conditions@),
                            conditions_view(filter@),
                            sort_view(sort@),
                        ),
                    ),
                    sort_view(sort@),
                    listing_views(r@),
                ),
    {
        let mut cs: Vec<(String, Condition)> = copy_conditions(conditions);
        let mut more: Vec<(String, Condition)> = copy_conditions(filter);
        let ghost a = cs@;
        let ghost b = more@;
        cs.append(&mut more);
        proof {
            assert(conditions_view(cs@) =~= conditions_view(a) + conditions_view(b));
        }
        let query = RoomQuery {
            name: None,
            conditions: cs,
            sort: clone_sort(sort),
            limit: None,
            offset: 0,
            count: false,
        };
        let page: RoomQueryResult = self.driver.query_rooms(&query);
        proof {
            let all = choose|all: Seq<ListingView>| #[trigger]
                is_walk(self.driver.listings(), all) && is_answer(all, query@, page);
            let m = choose|m: Seq<ListingView>| #[trigger]
                is_sorting(matching(all, query@), query@.sort, m) && is_page(m, query@, page);
            assert(m.subrange(0, m.len() as int) =~= m);
            assert(is_walk(self.driver.listings(), all));
        }
        page.items
    }

    /// Finds a running room under conditions; listings of rooms that are gone are
    /// removed on the way.
    pub fn find_live(&mut self, conditions: &Vec<(String, Condition)>) -> (r: Option<RoomListing>)
        ensures
            exists|all: Seq<ListingView>| #[trigger]
                is_walk(old(self).driver.listings(), all) && ({
                    let m = matching(
                        all,
                        match_query(conditions_view(conditions@), seq![], seq![]),
                    );
                    let i = first_live(m, text_views(old(self).rooms@));
                    &&& final(self).driver.listings() == without_rooms(
                        old(self).driver.listings(),
                        m.take(i),
                    )
                    &&& r is Some <==> i < m.len()
                    &&& r matches Some(l) ==> l@ == m[i]
                }),
            final(self).handlers == old(self).handlers,
            final(self).rooms == old(self).rooms,
            final(self).process_id == old(self).process_id,
            final(self).public_address == old(self).public_address,
            final(self).shutting_down == old(self).shutting_down,
            final(self).persistence == old(self).persistence,
    {
        let none: Vec<(String, Condition)> = Vec::new();
        let unsorted: SortOptions = Vec::new();
        let found: Vec<RoomListing> = self.candidates(conditions, &none, &unsorted);
        let ghost ls = self.driver.listings();
        let ghost rooms = text_views(self.rooms@);
        let ghost m = listing_views(found@);
        let ghost q = match_query(conditions_view(conditions@), seq![], seq![]);
        proof {
            assert(conditions_view(none@) =~= seq![]);
            assert(sort_view(unsorted@) =~= seq![]);
        }
        let ghost all = choose|all: Seq<ListingView>| #[trigger]
            is_walk(ls, all) && is_sorting(matching(all, q), seq![], m);
        let mut i: usize = 0;
        proof {
            assert(m == matching(all, q));
            assert(m.take(0) =~= seq![]);
        }
        while i < found.len()
            invariant
                i <= found.len(),
                m == listing_views(found@),
                m == matching(all, q),
                is_walk(ls, all),
                ls == old(self).driver.listings(),
                q == match_query(conditions_view(conditions@), seq![], seq![]),
                rooms == text_views(self.rooms@),
                self.driver.listings() == without_rooms(ls, m.take(i as int)),
                forall|k: int| 0 <= k < i ==> !rooms.contains((#[trigger] m[k]).room_id),
                self.handlers == old(self).handlers,
                self.rooms == old(self).rooms,
                self.process_id == old(self).process_id,
                self.public_address == old(self).public_address,
                self.shutting_down == old(self).shutting_down,
                self.persistence == old(self).persistence,
            decreases found.len() - i,
        {
            proof {
                assert(m[i as int] == found@[i as int]@);
                assert(m.take(i + 1).drop_last() =~= m.take(i as int));
            }
            if self.is_running(found[i].room_id.as_str()) {
                proof {
                    lemma_first_live(m, rooms, i as int);
                }
                return Some(found[i].copy());
            }
            self.driver.remove(found[i].room_id.as_str());
            i = i + 1;
        }
        proof {
            lemma_first_live(m, rooms, m.len() as int);
        }
        None
    }
}

fn unknown_field(what: &str, field: &str) -> (r: ServerError)
    ensures
        r@ == unknown_field_error(what@, field@),
{
    let mut head: String = joined("unknown ", what);
    head.append(" field ");
    ServerError::new(codes::MATCHMAKE_INVALID_CRITERIA, join_quoted(head.as_str(), field))
}

}
