//! Room listings and the in-memory driver that stores them and answers
//! matchmaking queries.

use crate::json::{
    clone_entries, entries_view, lemma_entries_push, lookup, put_field, Json, JsonView,
};
use crate::query::{
    clone_option, compare_values, condition_holds, empty_query, equals_condition, field_value,
    matches_condition, option_view, resolve_path, sort_view, Condition, ConditionView, Conditions,
    QueryView, RoomQuery, SortOptions,
};
use crate::sorting::{consistent, is_permutation, is_sorted_by, lemma_insert_place, listing_order};
use crate::text::same_text;
use crate::value::Order;
use dashmap::DashMap;
use vstd::prelude::*;

verus! {

/// The public, matchmaking-visible state of a room.
#[derive(Debug)]
pub struct RoomListing {
    pub room_id: String,
    pub name: String,
    pub process_id: String,
    pub clients: u32,
    /// `None` means unlimited.
    pub max_clients: Option<u32>,
    pub locked: bool,
    pub is_private: bool,
    pub metadata: Option<Json>,
    pub created_at: u64,
    /// Extra filter fields, flattened into the listing's JSON.
    pub extra: Vec<(String, Json)>,
}

/// What a listing stands for.
pub struct ListingView {
    pub room_id: Seq<char>,
    pub name: Seq<char>,
    pub process_id: Seq<char>,
    pub clients: u32,
    pub max_clients: Option<u32>,
    pub locked: bool,
    pub is_private: bool,
    pub metadata: Option<JsonView>,
    pub created_at: u64,
    pub extra: Map<Seq<char>, JsonView>,
}

impl View for RoomListing {
    type V = ListingView;

    open spec fn view(&self) -> ListingView {
        ListingView {
            room_id: self.room_id@,
            name: self.name@,
            process_id: self.process_id@,
            clients: self.clients,
            max_clients: self.max_clients,
            locked: self.locked,
            is_private: self.is_private,
            metadata: option_view(self.metadata),
            created_at: self.created_at,
            extra: entries_view(self.extra@),
        }
    }
}

/// What each listing of a sequence stands for.
pub open spec fn listing_views(v: Seq<RoomListing>) -> Seq<ListingView> {
    v.map_values(|l: RoomListing| l@)
}

/// The fields of a listing without the extra ones. A room without a limit has no
/// `maxClients`, one without metadata no `metadata`.
pub open spec fn listing_fields(l: ListingView) -> Map<Seq<char>, JsonView> {
    let base = Map::<Seq<char>, JsonView>::empty().insert(
        "roomId"@,
        JsonView::Str(l.room_id),
    ).insert("name"@, JsonView::Str(l.name)).insert("processId"@, JsonView::Str(l.process_id)).insert(
        "clients"@,
        JsonView::Int(l.clients as int),
    );
    let limited = match l.max_clients {
        Some(n) => base.insert("maxClients"@, JsonView::Int(n as int)),
        None => base,
    };
    let flagged = limited.insert("locked"@, JsonView::Bool(l.locked)).insert(
        "private"@,
        JsonView::Bool(l.is_private),
    );
    let described = match l.metadata {
        Some(v) => flagged.insert("metadata"@, v),
        None => flagged,
    };
    described.insert("createdAt"@, JsonView::Int(l.created_at as int))
}

/// A listing as one flat JSON object: its fields, and over them the extra ones.
pub open spec fn flat_view(l: ListingView) -> JsonView {
    JsonView::Object(listing_fields(l).union_prefer_right(l.extra))
}

impl RoomListing {
    /// A listing that stands for the same as this one.
    pub fn copy(&self) -> (r: RoomListing)
        ensures
            r@ == self@,
    {
        RoomListing {
            room_id: self.room_id.clone(),
            name: self.name.clone(),
            process_id: self.process_id.clone(),
            clients: self.clients,
            max_clients: self.max_clients,
            locked: self.locked,
            is_private: self.is_private,
            metadata: clone_option(&self.metadata),
            created_at: self.created_at,
            extra: clone_entries(&self.extra),
        }
    }

    /// The listing as one flat JSON object, as it is matched, sorted and sent.
    pub fn to_flat_value(&self) -> (r: Json)
        ensures
            r@ == flat_view(self@),
    {
        let mut f: Vec<(String, Json)> = Vec::new();
        put_field(&mut f, "roomId", Json::Str(self.room_id.clone()));
        put_field(&mut f, "name", Json::Str(self.name.clone()));
        put_field(&mut f, "processId", Json::Str(self.process_id.clone()));
        put_field(&mut f, "clients", Json::Uint(self.clients as u64));
        if let Some(n) = self.max_clients {
            put_field(&mut f, "maxClients", Json::Uint(n as u64));
        }
        put_field(&mut f, "locked", Json::Bool(self.locked));
        put_field(&mut f, "private", Json::Bool(self.is_private));
        if let Some(v) = &self.metadata {
            put_field(&mut f, "metadata", v.clone());
        }
        put_field(&mut f, "createdAt", Json::Uint(self.created_at));
        let ghost base = entries_view(f@);
        proof {
            assert(base == listing_fields(self@));
        }
        let mut i: usize = 0;
        proof {
            assert(base.union_prefer_right(entries_view(self.extra@.take(0))) =~= base);
        }
        while i < self.extra.len()
            invariant
                i <= self.extra.len(),
                entries_view(f@) == base.union_prefer_right(
                    entries_view(self.extra@.take(i as int)),
                ),
            decreases self.extra.len() - i,
        {
            proof {
                assert(self.extra@.take(i + 1) =~= self.extra@.take(i as int).push(
                    self.extra@[i as int],
                ));
                lemma_entries_push(self.extra@.take(i as int), self.extra@[i as int]);
            }
            put_field(&mut f, self.extra[i].0.as_str(), self.extra[i].1.clone());
            proof {
                assert(entries_view(f@) =~= base.union_prefer_right(
                    entries_view(self.extra@.take(i + 1)),
                ));
            }
            i = i + 1;
        }
        proof {
            assert(self.extra@.take(self.extra@.len() as int) =~= self.extra@);
        }
        Json::Object(f)
    }
}

impl Clone for RoomListing {
    fn clone(&self) -> (r: Self)
        ensures
            r@ == self@,
    {
        self.copy()
    }
}

/// A page of query results.
#[derive(Debug)]
pub struct RoomQueryResult {
    pub items: Vec<RoomListing>,
    /// Number of rooms matching the query (before pagination).
    pub total: usize,
    /// Echo of the requested limit (`None` = unlimited).
    pub limit: Option<usize>,
    pub offset: usize,
    /// Offset of the next page, `None` when there is none.
    pub next_offset: Option<usize>,
}

// ---------------------------------------------------------------------
// answering a query
// ---------------------------------------------------------------------

/// Whether a listing is of the name asked for and satisfies every filter.
pub open spec fn matches_query(l: ListingView, q: QueryView) -> bool {
    let flat = flat_view(l);
    &&& q.name matches Some(n) ==> (flat->Object_0).dom().contains("name"@) && (
    flat->Object_0)["name"@] == JsonView::Str(n)
    &&& forall|i: int|
        0 <= i < q.conditions.len() ==> condition_holds(
            field_value(flat, (#[trigger] q.conditions[i]).0),
            q.conditions[i].1,
        )
}

/// The listings that match, in their order.
pub open spec fn matching(all: Seq<ListingView>, q: QueryView) -> Seq<ListingView>
    decreases all.len(),
{
    if all.len() == 0 {
        seq![]
    } else if matches_query(all.last(), q) {
        matching(all.drop_last(), q).push(all.last())
    } else {
        matching(all.drop_last(), q)
    }
}

/// Listings as flat JSON objects.
pub open spec fn flat_views(ls: Seq<ListingView>) -> Seq<JsonView> {
    ls.map_values(|l: ListingView| flat_view(l))
}

/// `out` is `ls` sorted by the keys: the same listings, in the order of the keys
/// wherever the keys order the listings consistently, and listings that no key
/// tells apart in the order in which they came. Without keys it is `ls`.
pub open spec fn is_sorting(
    ls: Seq<ListingView>,
    sort: Seq<(Seq<char>, int)>,
    out: Seq<ListingView>,
) -> bool {
    if sort.len() == 0 {
        out == ls
    } else {
        exists|p: Seq<int>| #[trigger]
            is_permutation(p, ls.len() as int) && out == p.map_values(|i: int| ls[i]) && (
            consistent(flat_views(ls), sort) ==> is_sorted_by(p, flat_views(ls), sort))
    }
}

/// `r` is the page that the query asks for of the listings `m`.
pub open spec fn is_page(m: Seq<ListingView>, q: QueryView, r: RoomQueryResult) -> bool {
    let offset = if q.offset <= m.len() {
        q.offset as int
    } else {
        m.len() as int
    };
    let left = m.len() - offset;
    let size = match q.limit {
        Some(n) => if n <= left {
            n as int
        } else {
            left
        },
        None => left,
    };
    &&& r.total == m.len()
    &&& r.limit == q.limit
    &&& if q.count {
        r.items.len() == 0 && r.offset == q.offset && r.next_offset is None
    } else {
        &&& listing_views(r.items@) == m.subrange(offset, offset + size)
        &&& r.offset == offset
        &&& r.next_offset == if offset + size < m.len() {
            Some((offset + size) as usize)
        } else {
            None
        }
    }
}

/// `r` answers the query over the listings `all`.
pub open spec fn is_answer(all: Seq<ListingView>, q: QueryView, r: RoomQueryResult) -> bool {
    exists|m: Seq<ListingView>| #[trigger]
        is_sorting(matching(all, q), q.sort, m) && is_page(m, q, r)
}

fn listing_matches(l: &RoomListing, query: &RoomQuery) -> (r: bool)
    ensures
        r == matches_query(l@, query@),
{
    let flat: Json = l.to_flat_value();
    if let Some(name) = &query.name {
        let named: bool = match &flat {
            Json::Object(entries) => match lookup(entries, "name") {
                Some(Json::Str(s)) => same_text(s.as_str(), name.as_str()),
                _ => false,
            },
            _ => false,
        };
        if !named {
            return false;
        }
    }
    let mut i: usize = 0;
    while i < query.conditions.len()
        invariant
            i <= query.conditions.len(),
            flat@ == flat_view(l@),
            query@.name matches Some(n) ==> (flat@->Object_0).dom().contains("name"@) && (
            flat@->Object_0)["name"@] == JsonView::Str(n),
            forall|k: int|
                0 <= k < i ==> condition_holds(
                    field_value(flat@, (#[trigger] query@.conditions[k]).0),
                    query@.conditions[k].1,
                ),
        decreases query.conditions.len() - i,
    {
        let c: &(String, Condition) = &query.conditions[i];
        if !matches_condition(resolve_path(&flat, c.0.as_str()), &c.1) {
            proof {
                assert(query@.conditions[i as int] == (c.0@, c.1@));
            }
            return false;
        }
        proof {
            assert(query@.conditions[i as int] == (c.0@, c.1@));
        }
        i = i + 1;
    }
    true
}

/// Sorts listings by the keys.
fn sort_listings(listings: &Vec<RoomListing>, sort: &SortOptions) -> (r: Vec<RoomListing>)
    requires
        sort.len() > 0,
    ensures
        is_sorting(listing_views(listings@), sort_view(sort@), listing_views(r@)),
{
    let ghost ls = listing_views(listings@);
    let ghost fl = flat_views(ls);
    let ghost keys = sort_view(sort@);
    let mut flats: Vec<Json> = Vec::new();
    let mut k: usize = 0;
    while k < listings.len()
        invariant
            k <= listings.len(),
            ls == listing_views(listings@),
            fl == flat_views(ls),
            flats.len() == k,
            forall|i: int| 0 <= i < k ==> (#[trigger] flats@[i])@ == fl[i],
        decreases listings.len() - k,
    {
        flats.push(listings[k].to_flat_value());
        k = k + 1;
    }
    let mut order: Vec<usize> = Vec::new();
    let mut n: usize = 0;
    let ghost mut p: Seq<int> = seq![];
    while n < listings.len()
        invariant
            n <= listings.len(),
            fl.len() == listings.len(),
            flats.len() == listings.len(),
            keys == sort_view(sort@),
            forall|i: int| 0 <= i < listings.len() ==> (#[trigger] flats@[i])@ == fl[i],
            order.len() == n,
            p == order@.map_values(|i: usize| i as int),
            is_permutation(p, n as int),
            consistent(fl, keys) ==> is_sorted_by(p, fl, keys),
        decreases listings.len() - n,
    {
        let mut pos: usize = n;
        proof {
            assert forall|i: int| 0 <= i < n implies 0 <= #[trigger] p[i] < n by {}
        }
        while pos > 0 && compare_listings(&flats[order[pos - 1]], &flats[n], sort) == Order::Greater
            invariant
                pos <= n,
                n < listings.len(),
                fl.len() == listings.len(),
                flats.len() == listings.len(),
                keys == sort_view(sort@),
                forall|i: int| 0 <= i < listings.len() ==> (#[trigger] flats@[i])@ == fl[i],
                order.len() == n,
                p == order@.map_values(|i: usize| i as int),
                forall|i: int| 0 <= i < n ==> 0 <= #[trigger] p[i] < n && p[i] == order@[i],
                forall|i: int|
                    pos <= i < n ==> listing_order(fl[#[trigger] p[i]], fl[n as int], keys)
                        == Order::Greater,
            ensures
                pos > 0 ==> listing_order(fl[p[pos - 1]], fl[n as int], keys) != Order::Greater,
            decreases pos,
        {
            pos = pos - 1;
            proof {
                assert(p[pos as int] == order@[pos as int]);
            }
        }
        proof {
            lemma_insert_place(p, fl, keys, n as int, pos as int);
        }
        order.insert(pos, n);
        proof {
            assert(order@.map_values(|i: usize| i as int) =~= p.insert(pos as int, n as int));
            p = p.insert(pos as int, n as int);
        }
        n = n + 1;
    }
    let mut r: Vec<RoomListing> = Vec::new();
    let mut j: usize = 0;
    while j < order.len()
        invariant
            j <= order.len(),
            order.len() == listings.len(),
            ls == listing_views(listings@),
            p == order@.map_values(|i: usize| i as int),
            is_permutation(p, listings.len() as int),
            r.len() == j,
            forall|i: int| 0 <= i < j ==> (#[trigger] r@[i])@ == ls[p[i]],
        decreases order.len() - j,
    {
        proof {
            assert(p[j as int] == order@[j as int]);
            assert(0 <= p[j as int] < listings.len());
        }
        r.push(listings[order[j]].copy());
        j = j + 1;
    }
    proof {
        assert(listing_views(r@) =~= p.map_values(|i: int| ls[i]));
        assert(is_permutation(p, ls.len() as int));
    }
    r
}

/// How two flat listings stand to each other under the sort keys.
fn compare_listings(a: &Json, b: &Json, sort: &SortOptions) -> (r: Order)
    ensures
        r == listing_order(a@, b@, sort_view(sort@)),
{
    let ghost keys = sort_view(sort@);
    let mut i: usize = 0;
    proof {
        assert(keys.skip(0) =~= keys);
    }
    while i < sort.len()
        invariant
            i <= sort.len(),
            keys == sort_view(sort@),
            listing_order(a@, b@, keys) == listing_order(a@, b@, keys.skip(i as int)),
        decreases sort.len() - i,
    {
        proof {
            assert(keys.skip(i as int).drop_first() =~= keys.skip(i + 1));
            assert(keys.skip(i as int)[0] == keys[i as int]);
        }
        let field: &str = sort[i].0.as_str();
        let none: Json = Json::Null;
        let x: &Json = match resolve_path(a, field) {
            Some(v) => v,
            None => &none,
        };
        let y: &Json = match resolve_path(b, field) {
            Some(v) => v,
            None => &none,
        };
        let ord: Order = match compare_values(x, y) {
            Some(o) => o,
            None => Order::Equal,
        };
        let ord: Order = if sort[i].1 < 0 {
            match ord {
                Order::Less => Order::Greater,
                Order::Equal => Order::Equal,
                Order::Greater => Order::Less,
            }
        } else {
            ord
        };
        if ord != Order::Equal {
            return ord;
        }
        i = i + 1;
    }
    Order::Equal
}

/// Answers a query over listings: filters, sorts and cuts out the page.
pub fn query_listings(all: &Vec<RoomListing>, query: &RoomQuery) -> (r: RoomQueryResult)
    ensures
        is_answer(listing_views(all@), query@, r),
{
    let ghost views = listing_views(all@);
    let mut matched: Vec<RoomListing> = Vec::new();
    let mut i: usize = 0;
    proof {
        assert(listing_views(matched@) =~= matching(views.take(0), query@));
    }
    while i < all.len()
        invariant
            i <= all.len(),
            views == listing_views(all@),
            listing_views(matched@) == matching(views.take(i as int), query@),
        decreases all.len() - i,
    {
        proof {
            assert(views.take(i + 1).drop_last() =~= views.take(i as int));
            assert(views.take(i + 1).last() == all@[i as int]@);
        }
        if listing_matches(&all[i], query) {
            let l: RoomListing = all[i].copy();
            proof {
                assert(listing_views(matched@.push(l)) =~= listing_views(matched@).push(l@));
            }
            matched.push(l);
        }
        i = i + 1;
    }
    proof {
        assert(views.take(views.len() as int) =~= views);
    }
    let ghost found = matching(views, query@);
    if query.sort.len() > 0 {
        matched = sort_listings(&matched, &query.sort);
    }
    let ghost m = listing_views(matched@);
    proof {
        assert(is_sorting(found, query@.sort, m));
        assert(m.len() == matched@.len());
    }
    let total: usize = matched.len();
    if query.count {
        let r = RoomQueryResult {
            items: Vec::new(),
            total,
            limit: query.limit,
            offset: query.offset,
            next_offset: None,
        };
        proof {
            assert(is_page(m, query@, r));
        }
        return r;
    }
    let offset: usize = if query.offset <= total {
        query.offset
    } else {
        total
    };
    let left: usize = total - offset;
    let size: usize = match query.limit {
        Some(n) => if n <= left {
            n
        } else {
            left
        },
        None => left,
    };
    let mut items: Vec<RoomListing> = Vec::new();
    let mut j: usize = 0;
    while j < size
        invariant
            j <= size,
            offset + size <= total,
            total == matched.len(),
            m == listing_views(matched@),
            items.len() == j,
            forall|k: int| 0 <= k < j ==> (#[trigger] items@[k])@ == m[offset + k],
        decreases size - j,
    {
        items.push(matched[offset + j].copy());
        j = j + 1;
    }
    let next_offset: Option<usize> = if offset + size < total {
        Some(offset + size)
    } else {
        None
    };
    let r = RoomQueryResult { items, total, limit: query.limit, offset, next_offset };
    proof {
        assert(listing_views(r.items@) =~= m.subrange(offset as int, offset + size));
        assert(is_page(m, query@, r));
    }
    r
}

// ---------------------------------------------------------------------
// the driver
// ---------------------------------------------------------------------

#[verifier::external_type_specification]
#[verifier::external_body]
#[verifier::reject_recursive_types(K)]
#[verifier::reject_recursive_types(V)]
#[verifier::reject_recursive_types(S)]
pub struct ExDashMap<K, V, S>(DashMap<K, V, S>);

/// The listings that a driver's map holds, by room id.
pub uninterp spec fn listings_of(m: DashMap<String, RoomListing>) -> Map<Seq<char>, ListingView>;

/// A map without listings.
pub open spec fn no_listings() -> Map<Seq<char>, ListingView> {
    Map::empty()
}

/// `m` has `n` keys.
pub open spec fn is_size(m: Map<Seq<char>, ListingView>, n: usize) -> bool {
    m.dom().finite() && m.dom().len() == n
}

/// `DashMap::new`: an empty map.
#[verifier::external_body]
fn new_listings() -> (r: DashMap<String, RoomListing>)
    ensures
        listings_of(r) == no_listings(),
{
    DashMap::new()
}

/// `DashMap::insert`: sets a key, whether or not it was there.
#[verifier::external_body]
fn put_listing(m: &mut DashMap<String, RoomListing>, key: String, listing: RoomListing)
    ensures
        listings_of(*final(m)) == listings_of(*old(m)).insert(key@, listing@),
{
    m.insert(key, listing);
}

/// `DashMap::get`: the value under a key, copied.
#[verifier::external_body]
fn get_listing(m: &DashMap<String, RoomListing>, key: &str) -> (r: Option<RoomListing>)
    ensures
        r is Some <==> listings_of(*m).dom().contains(key@),
        r matches Some(l) ==> l@ == listings_of(*m)[key@],
{
    m.get(key).map(|l| l.copy())
}

/// `DashMap::remove`: takes a key out and says whether it was there.
#[verifier::external_body]
fn take_listing(m: &mut DashMap<String, RoomListing>, key: &str) -> (r: bool)
    ensures
        r == listings_of(*old(m)).dom().contains(key@),
        listings_of(*final(m)) == listings_of(*old(m)).remove(key@),
{
    m.remove(key).is_some()
}

/// `DashMap::clear`: takes every key out.
#[verifier::external_body]
fn clear_listings(m: &mut DashMap<String, RoomListing>)
    ensures
        listings_of(*final(m)) == no_listings(),
{
    m.clear();
}

/// `DashMap::len`: the number of keys.
#[verifier::external_body]
fn count_listings(m: &DashMap<String, RoomListing>) -> (r: usize)
    ensures
        is_size(listings_of(*m), r),
{
    m.len()
}

/// `all` holds each listing of the map once, in some order.
pub open spec fn is_walk(m: Map<Seq<char>, ListingView>, all: Seq<ListingView>) -> bool {
    exists|keys: Seq<Seq<char>>| #[trigger]
        keys.no_duplicates() && keys.to_set() == m.dom() && all == keys.map_values(
            |k: Seq<char>| m[k],
        )
}

/// `DashMap::iter`: every value once, copied, in an order that is not fixed.
#[verifier::external_body]
fn walk_listings(m: &DashMap<String, RoomListing>) -> (r: Vec<RoomListing>)
    ensures
        is_walk(listings_of(*m), listing_views(r@)),
{
    m.iter().map(|l| l.copy()).collect()
}

/// A listing with what changes while the room lives taken over from another.
pub open spec fn taken_over(l: ListingView, update: ListingView) -> ListingView {
    ListingView {
        clients: update.clients,
        locked: update.locked,
        is_private: update.is_private,
        metadata: update.metadata,
        max_clients: update.max_clients,
        ..l
    }
}

/// In-memory matchmaking driver.
pub struct LocalDriver {
    listings: DashMap<String, RoomListing>,
}

impl LocalDriver {
    /// The listings, by room id.
    pub closed spec fn listings(self) -> Map<Seq<char>, ListingView> {
        listings_of(self.listings)
    }

    pub fn new() -> (r: Self)
        ensures
            r.listings() == no_listings(),
    {
        LocalDriver { listings: new_listings() }
    }

    /// The listing of a room.
    pub fn get(&self, room_id: &str) -> (r: Option<RoomListing>)
        ensures
            r is Some <==> self.listings().dom().contains(room_id@),
            r matches Some(l) ==> l@ == self.listings()[room_id@],
    {
        get_listing(&self.listings, room_id)
    }

    /// Sets the listing of its room.
    pub fn insert(&mut self, listing: RoomListing)
        ensures
            final(self).listings() == old(self).listings().insert(listing@.room_id, listing@),
    {
        let key: String = listing.room_id.clone();
        put_listing(&mut self.listings, key, listing);
    }

    /// Puts a new listing in the place of the room's, if the room has one, and
    /// says whether it had.
    pub fn update_by_id(&mut self, room_id: &str, listing: RoomListing) -> (r: bool)
        ensures
            r == old(self).listings().dom().contains(room_id@),
            final(self).listings() == if r {
                old(self).listings().insert(room_id@, listing@)
            } else {
                old(self).listings()
            },
    {
        match get_listing(&self.listings, room_id) {
            Some(_) => {
                put_listing(&mut self.listings, room_id.to_owned(), listing);
                true
            },
            None => false,
        }
    }

    /// Takes over what changed in a room's listing, if the room has one, and
    /// returns the listing as it is then.
    pub fn sync(&mut self, update: &RoomListing) -> (r: Option<RoomListing>)
        ensures
            ({
                let m = old(self).listings();
                let id = update@.room_id;
                &&& r is Some <==> m.dom().contains(id)
                &&& r matches Some(l) ==> l@ == taken_over(m[id], update@)
                    && final(self).listings() == m.insert(id, taken_over(m[id], update@))
                &&& r is None ==> final(self).listings() == m
            }),
    {
        match get_listing(&self.listings, update.room_id.as_str()) {
            Some(l) => {
                let new = RoomListing {
                    clients: update.clients,
                    locked: update.locked,
                    is_private: update.is_private,
                    metadata: clone_option(&update.metadata),
                    max_clients: update.max_clients,
                    ..l
                };
                put_listing(&mut self.listings, update.room_id.clone(), new.copy());
                Some(new)
            },
            None => None,
        }
    }

    /// Takes the room's listing out and says whether it was there.
    pub fn remove(&mut self, room_id: &str) -> (r: bool)
        ensures
            r == old(self).listings().dom().contains(room_id@),
            final(self).listings() == old(self).listings().remove(room_id@),
    {
        take_listing(&mut self.listings, room_id)
    }

    pub fn len(&self) -> (r: usize)
        ensures
            is_size(self.listings(), r),
    {
        count_listings(&self.listings)
    }

    pub fn is_empty(&self) -> (r: bool)
        ensures
            r <==> self.listings() == no_listings(),
    {
        let n: usize = count_listings(&self.listings);
        proof {
            let dom = self.listings().dom();
            if dom.len() == 0 {
                assert(self.listings() =~= Map::empty());
            }
        }
        n == 0
    }

    /// Every listing once, in some order.
    pub fn all(&self) -> (r: Vec<RoomListing>)
        ensures
            is_walk(self.listings(), listing_views(r@)),
    {
        walk_listings(&self.listings)
    }

    pub fn clear(&mut self)
        ensures
            final(self).listings() == no_listings(),
    {
        clear_listings(&mut self.listings);
    }

    /// Queries the listings (operators, sort, pagination).
    pub fn query_rooms(&self, query: &RoomQuery) -> (r: RoomQueryResult)
        ensures
            exists|all: Seq<ListingView>| #[trigger]
                is_walk(self.listings(), all) && is_answer(all, query@, r),
    {
        let all: Vec<RoomListing> = self.all();
        let r: RoomQueryResult = query_listings(&all, query);
        proof {
            assert(is_walk(self.listings(), listing_views(all@)));
        }
        r
    }

    /// Queries by equality alone.
    pub fn query(&self, conditions: &Conditions, sort: Option<&SortOptions>) -> (r: Vec<RoomListing>)
        ensures
            exists|all: Seq<ListingView>| #[trigger]
                is_walk(self.listings(), all) && is_sorting(
                    matching(all, equality_query(conditions@, sort)),
                    equality_query(conditions@, sort).sort,
                    listing_views(r@),
                ),
    {
        let query: RoomQuery = equality_room_query(conditions, sort);
        let result: RoomQueryResult = self.query_rooms(&query);
        proof {
            let all = choose|all: Seq<ListingView>| #[trigger]
                is_walk(self.listings(), all) && is_answer(all, query@, result);
            let m = choose|m: Seq<ListingView>| #[trigger]
                is_sorting(matching(all, query@), query@.sort, m) && is_page(m, query@, result);
            assert(m.subrange(0, m.len() as int) =~= m);
        }
        result.items
    }

    /// The first listing that a query by equality gives.
    pub fn find_one(&self, conditions: &Conditions, sort: Option<&SortOptions>) -> (r: Option<
        RoomListing,
    >)
        ensures
            exists|all: Seq<ListingView>, m: Seq<ListingView>|
                #![trigger is_walk(self.listings(), all), m.len()]
                is_walk(self.listings(), all) && is_sorting(
                    matching(all, equality_query(conditions@, sort)),
                    equality_query(conditions@, sort).sort,
                    m,
                ) && (r is None <==> m.len() == 0) && (r matches Some(l) ==> l@ == m[0]),
    {
        let found: Vec<RoomListing> = self.query(conditions, sort);
        proof {
            let m = listing_views(found@);
            assert(m.len() == found@.len());
            let all = choose|all: Seq<ListingView>| #[trigger]
                is_walk(self.listings(), all) && is_sorting(
                    matching(all, equality_query(conditions@, sort)),
                    equality_query(conditions@, sort).sort,
                    listing_views(found@),
                );
            assert(is_walk(self.listings(), all));
        }
        if found.len() > 0 {
            Some(found[0].copy())
        } else {
            None
        }
    }
}

/// Equality filters as conditions.
pub open spec fn equality_conditions(cs: Seq<(String, Json)>) -> Seq<(Seq<char>, ConditionView)> {
    cs.map_values(|c: (String, Json)| (c.0@, equals_condition(c.1@)))
}

/// The query that equality filters and sort keys stand for.
pub open spec fn equality_query(
    cs: Seq<(String, Json)>,
    sort: Option<&SortOptions>,
) -> QueryView {
    QueryView {
        conditions: equality_conditions(cs),
        sort: match sort {
            Some(s) => sort_view(s@),
            None => seq![],
        },
        ..empty_query()
    }
}

/// A copy of sort keys.
pub fn clone_sort(sort: &SortOptions) -> (r: SortOptions)
    ensures
        sort_view(r@) == sort_view(sort@),
{
    let mut r: SortOptions = Vec::new();
    let mut i: usize = 0;
    while i < sort.len()
        invariant
            i <= sort.len(),
            r.len() == i,
            forall|k: int|
                0 <= k < i ==> (#[trigger] r@[k]).0@ == sort@[k].0@ && r@[k].1 == sort@[k].1,
        decreases sort.len() - i,
    {
        r.push((sort[i].0.clone(), sort[i].1));
        i = i + 1;
    }
    proof {
        assert(sort_view(r@) =~= sort_view(sort@));
    }
    r
}

fn equality_room_query(conditions: &Conditions, sort: Option<&SortOptions>) -> (r: RoomQuery)
    ensures
        r@ == equality_query(conditions@, sort),
{
    let mut cs: Vec<(String, Condition)> = Vec::new();
    let mut i: usize = 0;
    while i < conditions.len()
        invariant
            i <= conditions.len(),
            cs.len() == i,
            forall|k: int|
                0 <= k < i ==> (#[trigger] cs@[k]).0@ == conditions@[k].0@ && cs@[k].1@
                    == equals_condition(conditions@[k].1@),
        decreases conditions.len() - i,
    {
        cs.push((conditions[i].0.clone(), Condition::eq(conditions[i].1.clone())));
        i = i + 1;
    }
    let keys: SortOptions = match sort {
        Some(s) => clone_sort(s),
        None => Vec::new(),
    };
    let r = RoomQuery {
        name: None,
        conditions: cs,
        sort: keys,
        limit: None,
        offset: 0,
        count: false,
    };
    proof {
        assert(r@.conditions =~= equality_conditions(conditions@));
        assert(r@.sort =~= equality_query(conditions@, sort).sort);
    }
    r
}


// ---------------------------------------------------------------------
// laws of queries
// ---------------------------------------------------------------------

/// The next page starts where a page ends, so that together they are one stretch
/// of the answer.
pub proof fn law_next_page_continues(
    m: Seq<ListingView>,
    q: QueryView,
    r: RoomQueryResult,
    next: RoomQueryResult,
)
    requires
        !q.count,
        is_page(m, q, r),
        r.next_offset is Some,
        is_page(m, QueryView { offset: r.next_offset->Some_0, ..q }, next),
    ensures
        next.offset == r.offset + r.items.len(),
        listing_views(r.items@) + listing_views(next.items@) == m.subrange(
            r.offset as int,
            next.offset + next.items.len(),
        ),
{
    assert(listing_views(r.items@).len() == r.items@.len());
    assert(listing_views(next.items@).len() == next.items@.len());
    assert(listing_views(r.items@) + listing_views(next.items@) =~= m.subrange(
        r.offset as int,
        next.offset + next.items.len(),
    ));
}

/// A page without a next one ends with the answer.
pub proof fn law_last_page_ends(m: Seq<ListingView>, q: QueryView, r: RoomQueryResult)
    requires
        !q.count,
        is_page(m, q, r),
        r.next_offset is None,
    ensures
        r.offset + r.items.len() == m.len(),
{
    assert(listing_views(r.items@).len() == r.items@.len());
}

/// A listing is in the answer exactly where it matches, whatever the order in
/// which the listings were walked.
pub proof fn law_matching_is_exact(
    m: Map<Seq<char>, ListingView>,
    all: Seq<ListingView>,
    q: QueryView,
)
    requires
        is_walk(m, all),
    ensures
        forall|l: ListingView| #[trigger]
            matching(all, q).contains(l) <==> (exists|k: Seq<char>| #[trigger]
                m.dom().contains(k) && m[k] == l) && matches_query(l, q),
        matching(all, q).len() == 0 <==> forall|k: Seq<char>| #[trigger]
            m.dom().contains(k) ==> !matches_query(m[k], q),
{
    let keys = choose|keys: Seq<Seq<char>>| #[trigger]
        keys.no_duplicates() && keys.to_set() == m.dom() && all == keys.map_values(
            |k: Seq<char>| m[k],
        );
    assert forall|l: ListingView| all.contains(l) <==> exists|k: Seq<char>| #[trigger]
        m.dom().contains(k) && m[k] == l by {
        if all.contains(l) {
            let i = choose|i: int| 0 <= i < all.len() && all[i] == l;
            assert(keys.to_set().contains(keys[i]));
            assert(m.dom().contains(keys[i]) && m[keys[i]] == l);
        }
        if exists|k: Seq<char>| #[trigger] m.dom().contains(k) && m[k] == l {
            let k = choose|k: Seq<char>| #[trigger] m.dom().contains(k) && m[k] == l;
            assert(keys.to_set().contains(k));
            let i = choose|i: int| 0 <= i < keys.len() && keys[i] == k;
            assert(all[i] == l);
        }
    }
    assert forall|l: ListingView| #[trigger]
        matching(all, q).contains(l) <==> all.contains(l) && matches_query(l, q) by {
        lemma_matching_contains(all, q, l);
    }
    assert(matching(all, q).len() == 0 <==> forall|k: Seq<char>| #[trigger]
        m.dom().contains(k) ==> !matches_query(m[k], q)) by {
        if matching(all, q).len() > 0 {
            let l = matching(all, q)[0];
            assert(matching(all, q).contains(l));
            let k = choose|k: Seq<char>| #[trigger] m.dom().contains(k) && m[k] == l;
            assert(m.dom().contains(k) && matches_query(m[k], q));
        } else {
            assert forall|k: Seq<char>| #[trigger] m.dom().contains(k) implies !matches_query(
                m[k],
                q,
            ) by {
                if matches_query(m[k], q) {
                    assert(all.contains(m[k]));
                    assert(matching(all, q).contains(m[k]));
                }
            }
        }
    }
}

proof fn lemma_matching_contains(all: Seq<ListingView>, q: QueryView, l: ListingView)
    ensures
        matching(all, q).contains(l) <==> all.contains(l) && matches_query(l, q),
    decreases all.len(),
{
    if all.len() > 0 {
        let init = all.drop_last();
        lemma_matching_contains(init, q, l);
        let before = matching(init, q);
        let after = matching(all, q);
        if all.contains(l) {
            let i = choose|i: int| 0 <= i < all.len() && all[i] == l;
            if i < init.len() {
                assert(init[i] == l);
            }
        }
        if init.contains(l) {
            let i = choose|i: int| 0 <= i < init.len() && init[i] == l;
            assert(all[i] == l);
        }
        if before.contains(l) {
            let i = choose|i: int| 0 <= i < before.len() && before[i] == l;
            assert(after[i] == l);
        }
        if after.contains(l) {
            let i = choose|i: int| 0 <= i < after.len() && after[i] == l;
            if i < before.len() {
                assert(before[i] == l);
            } else {
                assert(all[all.len() - 1] == l);
            }
        }
        if all.last() == l {
            assert(all[all.len() - 1] == l);
            if matches_query(l, q) {
                assert(after[before.len() as int] == l);
            }
        }
    }
}

}
