//! The admin API: who may use it, what requests mean, and how they are answered.

use crate::driver::{flat_view, listing_views, ListingView, RoomListing};
use crate::error::{codes, ErrorView, ServerError};
use crate::events::{ClientInspection, RoomInspection};
use crate::handler::{schema_of, HandlerView, RegisteredHandler};
use crate::idempotency::{
    is_trimmed, key_part, lemma_key_part, live_replies, live_reply, write_part, ReplyCache,
    ReplyView,
};
use crate::json::{put_field, values_view, Json, JsonView};
use crate::matchmaker::RoomStats;
use crate::pointer::{
    escaped, lemma_pointer_prefix, lemma_pointer_tokens, pointer_text, unescape, unescaped,
};
use crate::protocol::{type_of, MessageType};
use crate::query::{is_blank, option_view, text_option};
use crate::server::{
    bearer_of, bearer_token, empty_reply, error_body, error_json, json_reply, replies_after,
    status_or, strip_prefix, text_reply, BodyView, HttpReply, HttpView,
};
use crate::state::{EditView, StateEdit};
use crate::table::{lemma_table_index, table_get, Table};
use crate::text::{
    insert_sorted, join_quoted, lemma_sorted_texts, pieces, same_text, sorted_texts, split_text,
    strictly_sorted, text_views, trim_text, trimmed, with_quoted,
};
use vstd::prelude::*;
use vstd::string::*;

verus! {

// ---------------------------------------------------------------------
// who may use it
// ---------------------------------------------------------------------

/// The request is allowed: no token is asked for, or the request bears it.
pub open spec fn is_authorized(token: Option<Seq<char>>, headers: Seq<(String, String)>) -> bool {
    token matches Some(t) ==> bearer_of(headers) == Some(t)
}

/// The answer for a request without the admin token.
pub open spec fn unauthorized_view() -> HttpView {
    HttpView { status: 401, body: BodyView::Text("invalid admin token"@) }
}

/// Whether a request bears the admin token, where one is asked for.
pub fn authorize(token: &Option<String>, headers: &Vec<(String, String)>) -> (r: Result<
    (),
    HttpReply,
>)
    ensures
        r is Ok <==> is_authorized(text_option(*token), headers@),
        r matches Err(h) ==> h@ == unauthorized_view(),
{
    match token {
        Some(expected) => {
            match bearer_token(headers) {
                Some(t) => {
                    if same_text(t.as_str(), expected.as_str()) {
                        return Ok(());
                    }
                },
                None => {},
            }
            Err(text_reply(401, "invalid admin token".to_owned()))
        },
        None => Ok(()),
    }
}

/// A protocol that bears a token.
pub open spec fn bears_token(p: Seq<char>) -> bool {
    p.len() > 7 && p.take(7) == "bearer."@
}

/// The protocols that a header offers.
pub open spec fn offered(v: Seq<char>) -> Seq<Seq<char>> {
    pieces(v, ',').map_values(|p: Seq<char>| trimmed(p))
}

/// The first protocol that bears a token.
pub open spec fn first_bearer(ps: Seq<Seq<char>>) -> Option<Seq<char>>
    decreases ps.len(),
{
    if ps.len() == 0 {
        None
    } else if bears_token(ps[0]) {
        Some(ps[0])
    } else {
        first_bearer(ps.drop_first())
    }
}

/// The first protocol in several headers that bears a token.
pub open spec fn bearer_protocol(values: Seq<Seq<char>>) -> Option<Seq<char>>
    decreases values.len(),
{
    if values.len() == 0 {
        None
    } else {
        match first_bearer(offered(values[0])) {
            Some(p) => Some(p),
            None => bearer_protocol(values.drop_first()),
        }
    }
}

fn protocol_in(value: &str) -> (r: Option<String>)
    ensures
        text_option(r) == first_bearer(offered(value@)),
{
    let parts: Vec<String> = split_text(value, ',');
    let ghost all = offered(value@);
    let mut i: usize = 0;
    proof {
        assert(all.skip(0) =~= all);
        reveal_strlit("bearer.");
    }
    while i < parts.len()
        invariant
            i <= parts.len(),
            all == offered(value@),
            text_views(parts@) == pieces(value@, ','),
            first_bearer(all) == first_bearer(all.skip(i as int)),
            "bearer."@.len() == 7,
        decreases parts.len() - i,
    {
        let p: String = trim_text(parts[i].as_str());
        proof {
            assert(all.skip(i as int).drop_first() =~= all.skip(i + 1));
            assert(text_views(parts@)[i as int] == parts@[i as int]@);
            assert(all.skip(i as int)[0] == p@);
        }
        if let Some(t) = strip_prefix(p.as_str(), "bearer.") {
            if !is_blank(t.as_str()) {
                proof {
                    assert(p@.len() > 7);
                }
                return Some(p);
            }
        }
        i = i + 1;
    }
    None
}

/// The admin token offered as a WebSocket subprotocol
/// (`Sec-WebSocket-Protocol: bearer.<token>`), given the values of that header.
/// Returns the full offered protocol, which is echoed back on success, and the
/// token.
pub fn subprotocol_token(values: &Vec<String>) -> (r: Option<(String, String)>)
    ensures
        match r {
            Some(p) => bearer_protocol(text_views(values@)) == Some(p.0@) && p.1@ == p.0@.skip(7),
            None => bearer_protocol(text_views(values@)) is None,
        },
{
    let ghost all = text_views(values@);
    let mut i: usize = 0;
    proof {
        assert(all.skip(0) =~= all);
        reveal_strlit("bearer.");
    }
    while i < values.len()
        invariant
            i <= values.len(),
            all == text_views(values@),
            bearer_protocol(all) == bearer_protocol(all.skip(i as int)),
            "bearer."@.len() == 7,
        decreases values.len() - i,
    {
        proof {
            assert(all.skip(i as int).drop_first() =~= all.skip(i + 1));
            assert(all.skip(i as int)[0] == values@[i as int]@);
        }
        if let Some(p) = protocol_in(values[i].as_str()) {
            proof {
                lemma_first_bearer(offered(values@[i as int]@));
            }
            if let Some(t) = strip_prefix(p.as_str(), "bearer.") {
                return Some((p, t));
            }
        }
        i = i + 1;
    }
    None
}

proof fn lemma_first_bearer(ps: Seq<Seq<char>>)
    ensures
        first_bearer(ps) matches Some(p) ==> bears_token(p),
    decreases ps.len(),
{
    if ps.len() > 0 {
        lemma_first_bearer(ps.drop_first());
    }
}

/// The stream of events is allowed: no token is asked for, or the subprotocol or
/// the query bears it.
pub open spec fn may_watch(
    token: Option<Seq<char>>,
    offered_token: Option<Seq<char>>,
    query_token: Option<Seq<char>>,
) -> bool {
    token matches Some(t) ==> offered_token == Some(t) || query_token == Some(t)
}

/// Whether events may be streamed.
pub fn may_stream(token: &Option<String>, offered_token: Option<&str>, query_token: Option<&str>) -> (r:
    bool)
    ensures
        r == may_watch(
            text_option(*token),
            match offered_token {
                Some(t) => Some(t@),
                None => None,
            },
            match query_token {
                Some(t) => Some(t@),
                None => None,
            },
        ),
{
    match token {
        None => true,
        Some(expected) => {
            let a: bool = match offered_token {
                Some(t) => same_text(t, expected.as_str()),
                None => false,
            };
            let b: bool = match query_token {
                Some(t) => same_text(t, expected.as_str()),
                None => false,
            };
            a || b
        },
    }
}

// ---------------------------------------------------------------------
// reports
// ---------------------------------------------------------------------

/// The clients of all listings.
pub open spec fn total_clients(ls: Seq<ListingView>) -> nat
    decreases ls.len(),
{
    if ls.len() == 0 {
        0
    } else {
        total_clients(ls.drop_last()) + ls.last().clients as nat
    }
}

proof fn lemma_total_prefix(ls: Seq<ListingView>, n: int)
    requires
        0 <= n <= ls.len(),
    ensures
        total_clients(ls.take(n)) <= total_clients(ls),
    decreases ls.len(),
{
    if n == ls.len() {
        assert(ls.take(n) =~= ls);
    } else {
        assert(ls.drop_last().take(n) =~= ls.take(n));
        lemma_total_prefix(ls.drop_last(), n);
    }
}

/// The overview of the process.
pub open spec fn overview_json(
    process_id: Seq<char>,
    pid: u32,
    uptime_ms: u64,
    rss_bytes: u64,
    ls: Seq<ListingView>,
) -> JsonView {
    JsonView::Object(
        Map::<Seq<char>, JsonView>::empty().insert("processId"@, JsonView::Str(process_id)).insert(
            "pid"@,
            JsonView::Int(pid as int),
        ).insert("uptimeMillis"@, JsonView::Int(uptime_ms as int)).insert(
            "rssBytes"@,
            JsonView::Int(rss_bytes as int),
        ).insert("rooms"@, JsonView::Int(ls.len() as int)).insert(
            "connections"@,
            JsonView::Int(total_clients(ls) as int),
        ),
    )
}

/// The overview of the process, given its listings.
pub fn overview(
    process_id: &str,
    pid: u32,
    uptime_ms: u64,
    rss_bytes: u64,
    listings: &Vec<RoomListing>,
) -> (r: Json)
    requires
        total_clients(listing_views(listings@)) <= u32::MAX,
    ensures
        r@ == overview_json(process_id@, pid, uptime_ms, rss_bytes, listing_views(listings@)),
{
    let ghost ls = listing_views(listings@);
    let mut connections: u32 = 0;
    let mut i: usize = 0;
    proof {
        assert(ls.take(0) =~= seq![]);
    }
    while i < listings.len()
        invariant
            i <= listings.len(),
            ls == listing_views(listings@),
            total_clients(ls) <= u32::MAX,
            connections == total_clients(ls.take(i as int)),
        decreases listings.len() - i,
    {
        proof {
            assert(ls.take(i + 1).drop_last() =~= ls.take(i as int));
            assert(ls.take(i + 1).last() == listings@[i as int]@);
            lemma_total_prefix(ls, i + 1);
        }
        connections = connections + listings[i].clients;
        i = i + 1;
    }
    proof {
        assert(ls.take(ls.len() as int) =~= ls);
    }
    let mut es: Vec<(String, Json)> = Vec::new();
    put_field(&mut es, "processId", Json::Str(process_id.to_owned()));
    put_field(&mut es, "pid", Json::Uint(pid as u64));
    put_field(&mut es, "uptimeMillis", Json::Uint(uptime_ms));
    put_field(&mut es, "rssBytes", Json::Uint(rss_bytes));
    put_field(&mut es, "rooms", Json::Uint(listings.len() as u64));
    put_field(&mut es, "connections", Json::Uint(connections as u64));
    Json::Object(es)
}

/// Status counts as JSON.
pub open spec fn stats_json(s: RoomStats) -> JsonView {
    JsonView::Object(
        Map::<Seq<char>, JsonView>::empty().insert("total"@, JsonView::Int(s.total as int)).insert(
            "open"@,
            JsonView::Int(s.open as int),
        ).insert("waiting"@, JsonView::Int(s.waiting as int)).insert(
            "full"@,
            JsonView::Int(s.full as int),
        ).insert("locked"@, JsonView::Int(s.locked as int)).insert(
            "private"@,
            JsonView::Int(s.private as int),
        ),
    )
}

/// Status counts as they are sent.
pub fn stats_to_json(s: &RoomStats) -> (r: Json)
    ensures
        r@ == stats_json(*s),
{
    let mut es: Vec<(String, Json)> = Vec::new();
    put_field(&mut es, "total", Json::Uint(s.total as u64));
    put_field(&mut es, "open", Json::Uint(s.open as u64));
    put_field(&mut es, "waiting", Json::Uint(s.waiting as u64));
    put_field(&mut es, "full", Json::Uint(s.full as u64));
    put_field(&mut es, "locked", Json::Uint(s.locked as u64));
    put_field(&mut es, "private", Json::Uint(s.private as u64));
    Json::Object(es)
}

/// A custom admin RPC: the types of its parameters and its response.
#[derive(Debug)]
pub struct RpcInfo {
    pub params: String,
    pub response: String,
}

/// What a custom admin RPC stands for.
pub struct RpcView {
    pub params: Seq<char>,
    pub response: Seq<char>,
}

impl View for RpcInfo {
    type V = RpcView;

    open spec fn view(&self) -> RpcView {
        RpcView { params: self.params@, response: self.response@ }
    }
}

/// A custom admin RPC as JSON.
pub open spec fn rpc_json(name: Seq<char>, r: RpcView) -> JsonView {
    JsonView::Object(
        Map::<Seq<char>, JsonView>::empty().insert("name"@, JsonView::Str(name)).insert(
            "params"@,
            JsonView::Str(r.params),
        ).insert("response"@, JsonView::Str(r.response)),
    )
}

/// The keys of a table, in order.
pub open spec fn table_names<A>(s: Seq<(Seq<char>, A)>) -> Seq<Seq<char>> {
    sorted_texts(s.map_values(|e: (Seq<char>, A)| e.0).to_set())
}

/// The capability catalog: the room types and the RPCs, each in the order of
/// their names, and the fields that every room type may be filtered on.
pub open spec fn catalog_json(
    handlers: Seq<(Seq<char>, HandlerView)>,
    rpcs: Seq<(Seq<char>, RpcView)>,
) -> JsonView {
    JsonView::Object(
        Map::<Seq<char>, JsonView>::empty().insert(
            "roomTypes"@,
            JsonView::Array(
                table_names(handlers).map_values(
                    |n: Seq<char>| schema_of(table_get(handlers, n)->Some_0),
                ),
            ),
        ).insert(
            "adminRpcs"@,
            JsonView::Array(
                table_names(rpcs).map_values(
                    |n: Seq<char>| rpc_json(n, table_get(rpcs, n)->Some_0),
                ),
            ),
        ).insert("coreFilterFields"@, JsonView::Array(core_fields())),
    )
}

/// The fields that every room type may be filtered on.
pub open spec fn core_fields() -> Seq<JsonView> {
    seq![
        JsonView::Str("name"@),
        JsonView::Str("clients"@),
        JsonView::Str("maxClients"@),
        JsonView::Str("locked"@),
        JsonView::Str("private"@),
        JsonView::Str("createdAt"@),
        JsonView::Str("processId"@),
    ]
}

fn sorted_names<V: View>(t: &Table<V>) -> (r: Vec<String>)
    ensures
        text_views(r@) == table_names(t@),
        forall|i: int|
            0 <= i < r.len() ==> table_get(t@, (#[trigger] r@[i])@) is Some,
{
    let ghost all = t@.map_values(|e: (Seq<char>, V::V)| e.0);
    let mut r: Vec<String> = Vec::new();
    let mut i: usize = 0;
    proof {
        assert(text_views(r@).to_set() =~= all.take(0).to_set());
    }
    while i < t.entries.len()
        invariant
            i <= t.entries.len(),
            all == t@.map_values(|e: (Seq<char>, V::V)| e.0),
            strictly_sorted(text_views(r@)),
            text_views(r@).to_set() == all.take(i as int).to_set(),
        decreases t.entries.len() - i,
    {
        insert_sorted(&mut r, t.entries[i].0.as_str());
        proof {
            let before = all.take(i as int);
            let after = all.take(i + 1);
            let name = t.entries@[i as int].0@;
            assert(all[i as int] == name);
            assert(after =~= before.push(name));
            assert forall|x: Seq<char>| after.to_set().contains(x) == before.to_set().insert(
                name,
            ).contains(x) by {
                if after.contains(x) {
                    let k = choose|k: int| 0 <= k < after.len() && after[k] == x;
                    if k < before.len() {
                        assert(before[k] == x);
                    }
                }
                if before.contains(x) {
                    let k = choose|k: int| 0 <= k < before.len() && before[k] == x;
                    assert(after[k] == x);
                }
                if x == name {
                    assert(after[i as int] == x);
                }
            }
            assert(after.to_set() =~= before.to_set().insert(name));
        }
        i = i + 1;
    }
    proof {
        assert(all.take(all.len() as int) =~= all);
        lemma_sorted_texts(text_views(r@));
        assert forall|k: int| 0 <= k < r.len() implies table_get(t@, (#[trigger] r@[k])@)
            is Some by {
            let name = r@[k]@;
            assert(text_views(r@)[k] == name);
            assert(text_views(r@).to_set().contains(name));
            assert(all.contains(name));
            let j = choose|j: int| 0 <= j < all.len() && all[j] == name;
            assert(t@[j].0 == name);
            lemma_table_index(t@, name);
        }
    }
    r
}

/// The capability catalog.
pub fn schema(handlers: &Table<RegisteredHandler>, rpcs: &Table<RpcInfo>) -> (r: Json)
    ensures
        r@ == catalog_json(handlers@, rpcs@),
{
    let names: Vec<String> = sorted_names(handlers);
    let ghost types = table_names(handlers@).map_values(
        |n: Seq<char>| schema_of(table_get(handlers@, n)->Some_0),
    );
    let mut room_types: Vec<Json> = Vec::new();
    let mut i: usize = 0;
    while i < names.len()
        invariant
            i <= names.len(),
            text_views(names@) == table_names(handlers@),
            forall|k: int|
                0 <= k < names.len() ==> table_get(handlers@, (#[trigger] names@[k])@) is Some,
            types == table_names(handlers@).map_values(
                |n: Seq<char>| schema_of(table_get(handlers@, n)->Some_0),
            ),
            room_types.len() == i,
            forall|k: int| 0 <= k < i ==> (#[trigger] room_types@[k])@ == types[k],
        decreases names.len() - i,
    {
        proof {
            assert(text_views(names@)[i as int] == names@[i as int]@);
        }
        match handlers.get(names[i].as_str()) {
            Some(h) => room_types.push(h.schema()),
            None => room_types.push(Json::Null),
        }
        i = i + 1;
    }
    let rpc_names: Vec<String> = sorted_names(rpcs);
    let ghost rpc_views = table_names(rpcs@).map_values(
        |n: Seq<char>| rpc_json(n, table_get(rpcs@, n)->Some_0),
    );
    let mut rpc_list: Vec<Json> = Vec::new();
    let mut j: usize = 0;
    while j < rpc_names.len()
        invariant
            j <= rpc_names.len(),
            text_views(rpc_names@) == table_names(rpcs@),
            forall|k: int|
                0 <= k < rpc_names.len() ==> table_get(rpcs@, (#[trigger] rpc_names@[k])@)
                    is Some,
            rpc_views == table_names(rpcs@).map_values(
                |n: Seq<char>| rpc_json(n, table_get(rpcs@, n)->Some_0),
            ),
            rpc_list.len() == j,
            forall|k: int| 0 <= k < j ==> (#[trigger] rpc_list@[k])@ == rpc_views[k],
        decreases rpc_names.len() - j,
    {
        proof {
            assert(text_views(rpc_names@)[j as int] == rpc_names@[j as int]@);
        }
        match rpcs.get(rpc_names[j].as_str()) {
            Some(info) => {
                let mut es: Vec<(String, Json)> = Vec::new();
                put_field(&mut es, "name", Json::Str(rpc_names[j].clone()));
                put_field(&mut es, "params", Json::Str(info.params.clone()));
                put_field(&mut es, "response", Json::Str(info.response.clone()));
                rpc_list.push(Json::Object(es));
            },
            None => rpc_list.push(Json::Null),
        }
        j = j + 1;
    }
    let mut core: Vec<Json> = Vec::new();
    core.push(Json::Str("name".to_owned()));
    core.push(Json::Str("clients".to_owned()));
    core.push(Json::Str("maxClients".to_owned()));
    core.push(Json::Str("locked".to_owned()));
    core.push(Json::Str("private".to_owned()));
    core.push(Json::Str("createdAt".to_owned()));
    core.push(Json::Str("processId".to_owned()));
    proof {
        assert(values_view(room_types@) =~= types);
        assert(values_view(rpc_list@) =~= rpc_views);
        assert(values_view(core@) =~= core_fields());
    }
    let mut es: Vec<(String, Json)> = Vec::new();
    put_field(&mut es, "roomTypes", Json::array(room_types));
    put_field(&mut es, "adminRpcs", Json::array(rpc_list));
    put_field(&mut es, "coreFilterFields", Json::array(core));
    Json::Object(es)
}

/// A client's report as JSON.
pub open spec fn client_json(c: ClientInspection) -> JsonView {
    let or_null = |v: Option<JsonView>|
        match v {
            Some(j) => j,
            None => JsonView::Null,
        };
    JsonView::Object(
        Map::<Seq<char>, JsonView>::empty().insert("sessionId"@, JsonView::Str(c.session_id@)).insert(
            "state"@,
            JsonView::Str(c.state@),
        ).insert("auth"@, or_null(option_view(c.auth))).insert(
            "userData"@,
            or_null(option_view(c.user_data)),
        ),
    )
}

/// A room's report as JSON, with the room's listing.
pub open spec fn inspection_json(i: RoomInspection, listing: ListingView) -> JsonView {
    JsonView::Object(
        Map::<Seq<char>, JsonView>::empty().insert("roomId"@, JsonView::Str(i.room_id@)).insert(
            "state"@,
            match option_view(i.state) {
                Some(j) => j,
                None => JsonView::Null,
            },
        ).insert(
            "clients"@,
            JsonView::Array(i.clients@.map_values(|c: ClientInspection| client_json(c))),
        ).insert("reservedSeats"@, JsonView::Int(i.reserved_seats as int)).insert(
            "pendingReconnections"@,
            JsonView::Int(i.pending_reconnections as int),
        ).insert("elapsedMillis"@, JsonView::Int(i.elapsed_millis as int)).insert(
            "listing"@,
            flat_view(listing),
        ),
    )
}

fn opt_json(v: &Option<Json>) -> (r: Json)
    ensures
        r@ == match option_view(*v) {
            Some(j) => j,
            None => JsonView::Null,
        },
{
    match v {
        Some(j) => j.clone(),
        None => Json::Null,
    }
}

/// A room's report as it is sent.
pub fn inspection_to_json(i: &RoomInspection, listing: &RoomListing) -> (r: Json)
    ensures
        r@ == inspection_json(*i, listing@),
{
    let ghost views = i.clients@.map_values(|c: ClientInspection| client_json(c));
    let mut clients: Vec<Json> = Vec::new();
    let mut k: usize = 0;
    while k < i.clients.len()
        invariant
            k <= i.clients.len(),
            views == i.clients@.map_values(|c: ClientInspection| client_json(c)),
            clients.len() == k,
            forall|j: int| 0 <= j < k ==> (#[trigger] clients@[j])@ == views[j],
        decreases i.clients.len() - k,
    {
        let c: &ClientInspection = &i.clients[k];
        let mut es: Vec<(String, Json)> = Vec::new();
        put_field(&mut es, "sessionId", Json::Str(c.session_id.clone()));
        put_field(&mut es, "state", Json::Str(c.state.clone()));
        put_field(&mut es, "auth", opt_json(&c.auth));
        put_field(&mut es, "userData", opt_json(&c.user_data));
        clients.push(Json::Object(es));
        k = k + 1;
    }
    proof {
        assert(values_view(clients@) =~= views);
    }
    let mut es: Vec<(String, Json)> = Vec::new();
    put_field(&mut es, "roomId", Json::Str(i.room_id.clone()));
    put_field(&mut es, "state", opt_json(&i.state));
    put_field(&mut es, "clients", Json::array(clients));
    put_field(&mut es, "reservedSeats", Json::Uint(i.reserved_seats as u64));
    put_field(&mut es, "pendingReconnections", Json::Uint(i.pending_reconnections as u64));
    put_field(&mut es, "elapsedMillis", Json::Uint(i.elapsed_millis));
    put_field(&mut es, "listing", listing.to_flat_value());
    Json::Object(es)
}

// ---------------------------------------------------------------------
// actions on rooms
// ---------------------------------------------------------------------

/// The answer for a room that is not running.
pub open spec fn no_room_view() -> HttpView {
    HttpView { status: 404, body: BodyView::Text("room not found"@) }
}

pub fn room_not_found() -> (r: HttpReply)
    ensures
        r@ == no_room_view(),
{
    text_reply(404, "room not found".to_owned())
}

/// The message identifier that a request names.
pub fn message_type(v: &Json) -> (r: Result<MessageType, HttpReply>)
    ensures
        match r {
            Ok(t) => type_of(v@) == Some(t@),
            Err(h) => type_of(v@) is None && h@ == (HttpView {
                status: 400,
                body: BodyView::Text("type must be a string or number"@),
            }),
        },
{
    match MessageType::from_json(v) {
        Some(t) => Ok(t),
        None => Err(text_reply(400, "type must be a string or number".to_owned())),
    }
}

/// The segments of a path: its pieces between slashes that are not empty, each
/// with its escapes resolved.
pub open spec fn path_segments(ps: Seq<Seq<char>>) -> Seq<Seq<char>>
    decreases ps.len(),
{
    if ps.len() == 0 {
        seq![]
    } else if ps.last().len() == 0 {
        path_segments(ps.drop_last())
    } else {
        path_segments(ps.drop_last()).push(unescaped(ps.last()))
    }
}

/// The edit that a request asks for.
pub open spec fn edit_of(op: Seq<char>, value: Option<JsonView>) -> Option<EditView> {
    if op == "set"@ {
        Some(
            EditView::Put(
                match value {
                    Some(v) => v,
                    None => JsonView::Null,
                },
            ),
        )
    } else if op == "remove"@ {
        Some(EditView::Remove)
    } else {
        None
    }
}

/// Reads a request to edit a room's state: the path and the edit.
pub fn read_edit(path: &str, op: &str, value: Option<Json>) -> (r: Result<
    (Vec<String>, StateEdit),
    HttpReply,
>)
    ensures
        match r {
            Ok(p) => edit_of(op@, option_view(value)) == Some(p.1@) && text_views(p.0@)
                == path_segments(pieces(path@, '/')),
            Err(h) => edit_of(op@, option_view(value)) is None && h@ == (HttpView {
                status: 400,
                body: BodyView::Text(with_quoted("unknown op "@, op@)),
            }),
        },
{
    let edit: StateEdit = if same_text(op, "set") {
        match value {
            Some(v) => StateEdit::Put(v),
            None => StateEdit::Put(Json::Null),
        }
    } else if same_text(op, "remove") {
        StateEdit::Remove
    } else {
        return Err(text_reply(400, join_quoted("unknown op ", op)));
    };
    let parts: Vec<String> = split_text(path, '/');
    let ghost ps = text_views(parts@);
    let mut segments: Vec<String> = Vec::new();
    let mut i: usize = 0;
    proof {
        assert(ps.take(0) =~= seq![]);
        assert(text_views(segments@) =~= seq![]);
    }
    while i < parts.len()
        invariant
            i <= parts.len(),
            ps == text_views(parts@),
            text_views(segments@) == path_segments(ps.take(i as int)),
        decreases parts.len() - i,
    {
        proof {
            assert(ps.take(i + 1).drop_last() =~= ps.take(i as int));
            assert(ps.take(i + 1).last() == parts@[i as int]@);
        }
        if !is_blank(parts[i].as_str()) {
            let ghost before = segments@;
            let s: String = unescape(parts[i].as_str());
            segments.push(s);
            proof {
                assert(text_views(segments@) =~= text_views(before).push(s@));
            }
        }
        i = i + 1;
    }
    proof {
        assert(ps.take(ps.len() as int) =~= ps);
    }
    Ok((segments, edit))
}

/// What a room's actor replied to an edit.
#[derive(Debug)]
pub enum EditReply {
    Gone,
    TimedOut,
    Answer(Result<(), String>),
}

/// The answer to a request to edit a room's state.
pub open spec fn edit_view(reply: EditReply) -> HttpView {
    match reply {
        EditReply::Gone => no_room_view(),
        EditReply::TimedOut => HttpView {
            status: 504,
            body: BodyView::Text("room did not respond"@),
        },
        EditReply::Answer(Ok(())) => HttpView { status: 204, body: BodyView::Empty },
        EditReply::Answer(Err(m)) => HttpView { status: 400, body: BodyView::Text(m@) },
    }
}

/// Answers a request to edit a room's state.
pub fn edit_response(reply: EditReply) -> (r: HttpReply)
    ensures
        r@ == edit_view(reply),
{
    match reply {
        EditReply::Gone => room_not_found(),
        EditReply::TimedOut => text_reply(504, "room did not respond".to_owned()),
        EditReply::Answer(Ok(())) => empty_reply(204),
        EditReply::Answer(Err(m)) => text_reply(400, m),
    }
}

/// An edit that is read from a pointer names the place that the pointer names:
/// tokens that are not empty come back as they were.
pub proof fn law_edit_path_reads_pointer(at: Seq<Seq<char>>)
    requires
        forall|i: int| 0 <= i < at.len() ==> (#[trigger] at[i]).len() > 0,
    ensures
        path_segments(pieces(pointer_text(seq![], at), '/')) == at,
{
    let p = pointer_text(seq![], at);
    lemma_pointer_tokens(at);
    if at.len() == 0 {
        let ps = pieces(p, '/');
        assert(ps =~= seq![seq![]]);
        assert(ps.drop_last() =~= seq![]);
        assert(path_segments(ps.drop_last()) =~= seq![]);
        assert(at =~= seq![]);
    } else {
        let none = Seq::<char>::empty();
        assert(none + seq!['/'] + escaped(at[0]) =~= seq!['/']
            + escaped(at[0]));
        lemma_pointer_prefix(
            seq!['/'] + escaped(at[0]),
            at.drop_first(),
        );
        assert(p[0] == '/');
        let rest = pieces(p.drop_first(), '/');
        assert(pieces(p, '/') =~= seq![none] + rest);
        let tokens = rest.map_values(|t: Seq<char>| unescaped(t));
        assert(tokens == at);
        assert forall|i: int| 0 <= i < rest.len() implies (#[trigger] rest[i]).len() > 0 by {
            assert(tokens[i] == unescaped(rest[i]));
            assert(at[i].len() > 0);
            if rest[i].len() == 0 {
                assert(unescaped(rest[i]).len() == 0);
            }
        }
        lemma_segments(none, rest);
        assert(path_segments(seq![none] + rest) == tokens);
    }
}

proof fn lemma_segments(none: Seq<char>, rest: Seq<Seq<char>>)
    requires
        none.len() == 0,
        forall|i: int| 0 <= i < rest.len() ==> (#[trigger] rest[i]).len() > 0,
    ensures
        path_segments(seq![none] + rest) == rest.map_values(|t: Seq<char>| unescaped(t)),
    decreases rest.len(),
{
    let all = seq![none] + rest;
    if rest.len() == 0 {
        assert(all.drop_last() =~= seq![]);
        assert(path_segments(all.drop_last()) =~= seq![]);
        assert(all.last() == none);
        assert(path_segments(all) =~= rest.map_values(|t: Seq<char>| unescaped(t)));
    } else {
        let init = rest.drop_last();
        assert forall|i: int| 0 <= i < init.len() implies (#[trigger] init[i]).len() > 0 by {
            assert(rest[i].len() > 0);
        }
        lemma_segments(none, init);
        assert(all.drop_last() =~= seq![none] + init);
        assert(all.last() == rest[rest.len() - 1]);
        assert(path_segments(all) =~= rest.map_values(|t: Seq<char>| unescaped(t)));
    }
}

// ---------------------------------------------------------------------
// custom RPCs
// ---------------------------------------------------------------------

/// The answer for an RPC's error.
pub open spec fn rpc_error_view(e: ErrorView) -> HttpView {
    HttpView {
        status: if e.code == codes::INVALID_PAYLOAD {
            400
        } else {
            status_or(e.code, 500)
        },
        body: BodyView::Json(error_body(e.code as int, e.message)),
    }
}

/// Answers an RPC that failed.
pub fn rpc_error_response(e: &ServerError) -> (r: HttpReply)
    ensures
        r@ == rpc_error_view(e@),
{
    let status: u16 = if e.code == codes::INVALID_PAYLOAD {
        400
    } else if 100 <= e.code && e.code <= 999 {
        e.code
    } else {
        500
    };
    json_reply(status, error_json(e.code, e.message.as_str()))
}

/// What is done for a call of an RPC.
#[derive(Debug)]
pub enum RpcStep {
    Reply(HttpReply),
    /// The RPC is run; its answer is kept under the key, if there is one.
    Run(Option<String>),
}

/// The key under which an RPC's answer is kept.
pub open spec fn rpc_key(name: Seq<char>, key: Option<Seq<char>>) -> Option<Seq<char>> {
    match key {
        Some(k) => if k.len() > 0 {
            Some(key_part(name) + k)
        } else {
            None
        },
        None => None,
    }
}

/// Two calls share a kept answer only where the RPC and the key are the same.
pub proof fn law_rpc_replies_are_scoped(
    name: Seq<char>,
    key: Option<Seq<char>>,
    other_name: Seq<char>,
    other_key: Option<Seq<char>>,
)
    requires
        rpc_key(name, key) is Some,
        rpc_key(name, key) == rpc_key(other_name, other_key),
    ensures
        name == other_name,
        key == other_key,
{
    lemma_key_part(name, key->Some_0, other_name, other_key->Some_0);
}

/// Begins a call of an RPC: one that is not known is answered at once, and so is
/// one whose answer was kept.
pub fn rpc_begin(
    rpcs: &Table<RpcInfo>,
    cache: &mut ReplyCache,
    name: &str,
    idempotency_key: Option<String>,
    now: u64,
) -> (r: RpcStep)
    ensures
        ({
            let key = rpc_key(name@, text_option(idempotency_key));
            let m = old(cache).replies();
            if table_get(rpcs@, name@) is None {
                (r matches RpcStep::Reply(h) && h@ == (HttpView {
                    status: 404,
                    body: BodyView::Text(with_quoted("unknown admin rpc "@, name@)),
                })) && final(cache).replies() == m
            } else if key matches Some(k) && m.dom().contains(k) && live_reply(m[k], now) {
                (r matches RpcStep::Reply(h) && h@ == (HttpView {
                    status: 200,
                    body: BodyView::Json(m[key->Some_0].body),
                })) && final(cache).replies() == m
            } else {
                (r matches RpcStep::Run(k) && text_option(k) == key) && final(cache).replies()
                    == replies_after(m, key, now)
            }
        }),
{
    if !rpcs.contains(name) {
        return RpcStep::Reply(text_reply(404, join_quoted("unknown admin rpc ", name)));
    }
    let key: Option<String> = match idempotency_key {
        Some(k) => if is_blank(k.as_str()) {
            None
        } else {
            let mut s: String = write_part(name);
            s.append(k.as_str());
            Some(s)
        },
        None => None,
    };
    if let Some(k) = &key {
        if let Some(kept) = cache.idempotency_get(k.as_str(), now) {
            return RpcStep::Reply(json_reply(200, kept));
        }
    }
    RpcStep::Run(key)
}

/// Answers a call of an RPC that was run. A response is kept for replay where the
/// call has a key; an error is not.
pub fn rpc_end(
    cache: &mut ReplyCache,
    key: Option<String>,
    result: Result<Json, ServerError>,
    now: u64,
) -> (r: HttpReply)
    ensures
        r@ == match result {
            Ok(v) => HttpView { status: 200, body: BodyView::Json(v@) },
            Err(e) => rpc_error_view(e@),
        },
        result is Ok && key is Some ==> exists|kept: Map<Seq<char>, ReplyView>| #[trigger]
            is_trimmed(
                live_replies(old(cache).replies(), now),
                kept,
            ) && final(cache).replies() == kept.insert(
                key->Some_0@,
                ReplyView { at: now, body: result->Ok_0@ },
            ),
        !(result is Ok && key is Some) ==> final(cache).replies() == old(cache).replies(),
{
    match result {
        Ok(value) => {
            if let Some(k) = key {
                cache.idempotency_put(k, value.clone(), now);
            }
            json_reply(200, value)
        },
        Err(e) => rpc_error_response(&e),
    }
}

}
