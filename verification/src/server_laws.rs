//! What requests are answered, told by the texts that come in and the texts that go
//! out.

use crate::admin::{
    bearer_protocol, bears_token, edit_of, edit_view, first_bearer, inspection_json, is_authorized,
    may_watch, no_room_view, offered, overview_json, rpc_error_view, stats_json, total_clients,
    unauthorized_view, EditReply,
};
use crate::client::{ClientState, OutboundView};
use crate::driver::{ListingView, RoomQueryResult};
use crate::error::ErrorView;
use crate::events::{
    admin_messaged, edit_begun, edit_finished, is_event_step, reports_room, EventStep, RoomEvent,
    RoomInspection,
};
use crate::idempotency::{is_trimmed, live_replies, live_reply, ReplyView};
use crate::json::JsonView;
use crate::matchmaker::{MatchMaker, RoomStats};
use crate::protocol::{MessageView, TypeView};
use crate::query::{ConditionView, QueryView};
use crate::room::ContextView;
use crate::room_laws::{is_in, message_bytes};
use crate::server::{
    action_of, bad_request_view, body_split, error_view, header_value, is_auth, is_match_step,
    key_header, limited, listing_query, message_step, page_json, raw_header, request_refusal,
    socket_step, stripped, ActionView, BodyView, HttpView, MatchStep, SocketFrame, SocketView,
};
use crate::table::table_get;
use crate::text::{pieces, trimmed};
use vstd::prelude::*;

verus! {

/// A member of an object.
pub open spec fn member(v: JsonView, key: Seq<char>) -> Option<JsonView> {
    match v {
        JsonView::Object(m) => if m.dom().contains(key) {
            Some(m[key])
        } else {
            None
        },
        _ => None,
    }
}

// ---------------------------------------------------------------------
// what is asked for
// ---------------------------------------------------------------------

/// The five methods of matchmaking, and no others, are carried out: each takes the
/// request's options as they are, and a reconnection its token, which must be given.
pub proof fn law_methods_are_carried_out(
    method: Seq<char>,
    options: JsonView,
    filter: Seq<(Seq<char>, ConditionView)>,
    token: Seq<char>,
)
    ensures
        action_of("joinOrCreate"@, options, filter) == Ok::<ActionView, ErrorView>(
            ActionView::JoinOrCreate(options, filter),
        ),
        action_of("create"@, options, filter) == Ok::<ActionView, ErrorView>(
            ActionView::Create(options),
        ),
        action_of("join"@, options, filter) == Ok::<ActionView, ErrorView>(
            ActionView::Join(options, filter),
        ),
        action_of("joinById"@, options, filter) == Ok::<ActionView, ErrorView>(
            ActionView::JoinById(options),
        ),
        member(options, "reconnectionToken"@) == Some(JsonView::Str(token)) && token.len() > 0
            ==> action_of("reconnect"@, options, filter) == Ok::<ActionView, ErrorView>(
            ActionView::Reconnect(token),
        ),
        !(member(options, "reconnectionToken"@) matches Some(JsonView::Str(t)) && t.len() > 0)
            ==> (action_of("reconnect"@, options, filter) matches Err(e) && e.code == 523),
        method != "joinOrCreate"@ && method != "create"@ && method != "join"@ && method
            != "joinById"@ && method != "reconnect"@ ==> (action_of(method, options, filter)
            matches Err(e) && e.code == 520),
{
    reveal_strlit("joinOrCreate");
    reveal_strlit("create");
    reveal_strlit("join");
    reveal_strlit("joinById");
    reveal_strlit("reconnect");
    assert("joinOrCreate"@.len() == 12);
    assert("create"@.len() == 6);
    assert("join"@.len() == 4);
    assert("joinById"@.len() == 8);
    assert("reconnect"@.len() == 9);
}

/// A body with `options` or `filter` holds them; any other body is the options itself.
pub proof fn law_body_holds_options(body: JsonView)
    ensures
        member(body, "options"@) matches Some(o) ==> body_split(body).0 == o,
        member(body, "filter"@) == body_split(body).1,
        member(body, "options"@) is None && member(body, "filter"@) is Some ==> body_split(body).0
            == JsonView::Null,
        member(body, "options"@) is None && member(body, "filter"@) is None ==> body_split(body).0
            == body,
{
}

/// While the server shuts down every request is answered with 503. Otherwise one that
/// may create an internal room is answered with 520, and one whose filter is refused
/// with what its error says; a request for a public room without a filter goes on.
pub proof fn law_refused_requests(
    mm: MatchMaker,
    method: Seq<char>,
    room_name: Seq<char>,
    body: JsonView,
)
    ensures
        mm.shutting_down ==> request_refusal(mm, method, room_name, body) == Some(
            HttpView { status: 503, body: BodyView::Empty },
        ),
        !mm.shutting_down && (table_get(mm.handlers@, room_name) matches Some(h) && h.internal) && (
        method == "create"@ || method == "joinOrCreate"@) ==> (request_refusal(
            mm,
            method,
            room_name,
            body,
        ) matches Some(h) && h.status == 520),
        !mm.shutting_down && body_split(body).1 is None && !(table_get(mm.handlers@, room_name)
            matches Some(h) && h.internal) ==> request_refusal(mm, method, room_name, body) is None,
        !mm.shutting_down && body_split(body).1 is None && method != "create"@ && method
            != "joinOrCreate"@ ==> request_refusal(mm, method, room_name, body) is None,
{
}

/// A request that is carried out carries the bearer token, all headers and the address
/// that the proxy names.
pub proof fn law_request_knows_who_asks(
    mm: MatchMaker,
    replies: Map<Seq<char>, ReplyView>,
    method: Seq<char>,
    room_name: Seq<char>,
    headers: Seq<(String, String)>,
    body: JsonView,
    now: u64,
    r: MatchStep,
    i: int,
    token: Seq<char>,
)
    requires
        is_match_step(mm, replies, method, room_name, headers, body, now, r),
        r is Run,
        0 <= i < headers.len(),
        headers[i].0@ == "authorization"@,
        headers[i].1@ == "Bearer "@ + token,
        forall|j: int| 0 <= j < i ==> (#[trigger] headers[j]).0@ != "authorization"@,
    ensures
        r matches MatchStep::Run(_, auth, _) ==> auth.token matches Some(t) && t@ == token
            && auth.headers@ == headers,
{
    law_first_header_counts(headers, "authorization"@, i);
    lemma_bearer(token);
}

/// Of several headers with a name the first counts.
pub proof fn law_first_header_counts(headers: Seq<(String, String)>, name: Seq<char>, i: int)
    requires
        0 <= i < headers.len(),
        headers[i].0@ == name,
        forall|j: int| 0 <= j < i ==> (#[trigger] headers[j]).0@ != name,
    ensures
        raw_header(headers, name) == Some(headers[i].1@),
    decreases headers.len(),
{
    if i > 0 {
        let rest = headers.drop_first();
        assert(headers[0].0@ != name);
        assert forall|j: int| 0 <= j < i - 1 implies (#[trigger] rest[j]).0@ != name by {
            assert(headers[j + 1].0@ != name);
        }
        law_first_header_counts(rest, name, i - 1);
    }
}

/// Without a header of a name there is no value.
pub proof fn law_missing_header(headers: Seq<(String, String)>, name: Seq<char>)
    requires
        forall|j: int| 0 <= j < headers.len() ==> (#[trigger] headers[j]).0@ != name,
    ensures
        raw_header(headers, name) is None,
        header_value(headers, name) is None,
    decreases headers.len(),
{
    if headers.len() > 0 {
        let rest = headers.drop_first();
        assert(headers[0].0@ != name);
        assert forall|j: int| 0 <= j < rest.len() implies (#[trigger] rest[j]).0@ != name by {
            assert(headers[j + 1].0@ != name);
        }
        law_missing_header(rest, name);
    }
}

/// The address of a request is what `x-forwarded-for` names first, and only without
/// that header what `x-real-ip` names.
pub proof fn law_address_of_request(
    auth: crate::events::AuthContext,
    headers: Seq<(String, String)>,
    ip: Seq<char>,
)
    requires
        is_auth(auth, headers),
    ensures
        header_value(headers, "x-forwarded-for"@) == Some(ip) ==> (auth.ip matches Some(t) && t@
            == ip),
        header_value(headers, "x-forwarded-for"@) is None && header_value(headers, "x-real-ip"@)
            == Some(ip) ==> (auth.ip matches Some(t) && t@ == ip),
        header_value(headers, "x-forwarded-for"@) is None && header_value(headers, "x-real-ip"@)
            is None ==> auth.ip is None,
{
}

proof fn lemma_bearer(token: Seq<char>)
    ensures
        stripped("Bearer "@ + token, "Bearer "@) == Some(token),
{
    let t = "Bearer "@ + token;
    let n = "Bearer "@.len() as int;
    assert(t.take(n) =~= "Bearer "@);
    assert(t.skip(n) =~= token);
}

// ---------------------------------------------------------------------
// who may ask
// ---------------------------------------------------------------------

/// With an admin token, exactly the requests whose first `Authorization` header is
/// `Bearer` and the token are let through; without one every request is. The others
/// are answered with 401.
pub proof fn law_admin_token_is_asked_for(
    token: Seq<char>,
    headers: Seq<(String, String)>,
    i: int,
)
    requires
        0 <= i < headers.len(),
        headers[i].0@ == "authorization"@,
        forall|j: int| 0 <= j < i ==> (#[trigger] headers[j]).0@ != "authorization"@,
    ensures
        is_authorized(None, headers),
        is_authorized(Some(token), headers) <==> headers[i].1@ == "Bearer "@ + token,
        unauthorized_view().status == 401,
{
    law_first_header_counts(headers, "authorization"@, i);
    lemma_bearer(token);
    let v = headers[i].1@;
    let n = "Bearer "@.len() as int;
    if is_authorized(Some(token), headers) {
        assert(v =~= v.take(n) + v.skip(n));
    }
}

/// A request without an `Authorization` header is not let through where a token is
/// asked for.
pub proof fn law_no_token_no_admin(token: Seq<char>, headers: Seq<(String, String)>)
    requires
        forall|j: int| 0 <= j < headers.len() ==> (#[trigger] headers[j]).0@ != "authorization"@,
    ensures
        !is_authorized(Some(token), headers),
        is_authorized(None, headers),
{
    law_missing_header(headers, "authorization"@);
}

/// The stream of events is open to whoever offers the token, in one way or the other,
/// and to everybody where none is asked for.
pub proof fn law_watchers_offer_token(
    token: Seq<char>,
    protocol: Option<Seq<char>>,
    parameter: Option<Seq<char>>,
)
    ensures
        may_watch(None, protocol, parameter),
        may_watch(Some(token), protocol, parameter) <==> protocol == Some(token) || parameter
            == Some(token),
{
}

/// Of the protocols that a header offers, the first that starts with `bearer.` and
/// goes on is the one that bears the token.
pub proof fn law_first_bearer_protocol(ps: Seq<Seq<char>>, i: int, token: Seq<char>)
    requires
        0 <= i < ps.len(),
        ps[i] == "bearer."@ + token,
        token.len() > 0,
        forall|j: int, t: Seq<char>|
            #![trigger ps[j], "bearer."@ + t]
            0 <= j < i ==> ps[j] != "bearer."@ + t || t.len() == 0,
    ensures
        first_bearer(ps) == Some("bearer."@ + token),
    decreases ps.len(),
{
    reveal_strlit("bearer.");
    if i == 0 {
        assert(ps[0].take(7) =~= "bearer."@);
    } else {
        let rest = ps.drop_first();
        if bears_token(ps[0]) {
            let t = ps[0].skip(7);
            assert(ps[0] =~= "bearer."@ + t);
            assert(t.len() > 0);
        }
        assert forall|j: int, t: Seq<char>|
            #![trigger rest[j], "bearer."@ + t]
            0 <= j < i - 1 implies rest[j] != "bearer."@ + t || t.len() == 0 by {
            assert(ps[j + 1] != "bearer."@ + t || t.len() == 0);
        }
        law_first_bearer_protocol(rest, i - 1, token);
    }
}

/// Protocols are offered between commas, in one header or in several; white space
/// around them does not count.
pub proof fn law_protocols_between_commas(v: Seq<char>, more: Seq<Seq<char>>, i: int)
    requires
        0 <= i < pieces(v, ',').len(),
    ensures
        offered(v).len() == pieces(v, ',').len(),
        offered(v)[i] == trimmed(pieces(v, ',')[i]),
        first_bearer(offered(v)) is Some ==> bearer_protocol(seq![v] + more) == first_bearer(
            offered(v),
        ),
        first_bearer(offered(v)) is None ==> bearer_protocol(seq![v] + more) == bearer_protocol(
            more,
        ),
{
    assert((seq![v] + more).drop_first() =~= more);
    assert((seq![v] + more)[0] == v);
}

// ---------------------------------------------------------------------
// what is answered
// ---------------------------------------------------------------------

/// An error is answered with its code, in the status where it is one and in the body
/// always, and with its message.
pub proof fn law_errors_are_answered(e: ErrorView, message: Seq<char>)
    ensures
        ({
            let h = error_view(e);
            &&& 100 <= e.code <= 999 ==> h.status == e.code
            &&& !(100 <= e.code <= 999) ==> h.status == 500
            &&& h.body matches BodyView::Json(b) && member(b, "code"@) == Some(
                JsonView::Int(e.code as int),
            ) && member(b, "error"@) == Some(JsonView::Str(e.message))
        }),
        bad_request_view(message).status == 400,
        bad_request_view(message).body matches BodyView::Json(b) && member(b, "error"@) == Some(
            JsonView::Str(message),
        ) && member(b, "code"@) == Some(JsonView::Int(400)),
        e.code == 4217 ==> rpc_error_view(e).status == 400,
        100 <= e.code <= 999 ==> rpc_error_view(e).status == e.code,
        no_room_view().status == 404,
{
    reveal_strlit("code");
    reveal_strlit("error");
    assert("code"@.len() == 4);
    assert("error"@.len() == 5);
}

/// An edit is a `set` with a value, which is null where none is given, or a `remove`;
/// there is no other. It is answered with 204 where it was done, with 400 and the
/// reason where it was not, with 404 where the room is gone and with 504 where it did
/// not answer.
pub proof fn law_edits_are_named(op: Seq<char>, value: Option<JsonView>, v: JsonView, reason: String)
    ensures
        edit_of("set"@, Some(v)) == Some(crate::state::EditView::Put(v)),
        edit_of("set"@, None) == Some(crate::state::EditView::Put(JsonView::Null)),
        edit_of("remove"@, value) == Some(crate::state::EditView::Remove),
        op != "set"@ && op != "remove"@ ==> edit_of(op, value) is None,
        edit_view(EditReply::Answer(Ok(()))).status == 204,
        edit_view(EditReply::Answer(Err(reason))) == (HttpView {
            status: 400,
            body: BodyView::Text(reason@),
        }),
        edit_view(EditReply::Gone).status == 404,
        edit_view(EditReply::TimedOut).status == 504,
{
    reveal_strlit("set");
    reveal_strlit("remove");
    assert("set"@.len() == 3);
    assert("remove"@.len() == 6);
}

/// A page holds as many rooms as were asked for, and at most so many as the server
/// gives out; the room's name in the path counts over one in the parameters.
pub proof fn law_pages_are_bounded(q: QueryView, max: usize, n: usize, name: Seq<char>)
    ensures
        q.limit is None ==> limited(q, max).limit == Some(max),
        q.limit == Some(n) && n <= max ==> limited(q, max).limit == Some(n),
        q.limit == Some(n) && n > max ==> limited(q, max).limit == Some(max),
        listing_query(q, Some(name), max).name == Some(name),
        listing_query(q, None, max).name == q.name,
        listing_query(q, None, max).limit == limited(q, max).limit,
        listing_query(q, Some(name), max).limit == limited(q, max).limit,
        listing_query(q, None, max).conditions == q.conditions,
        listing_query(q, Some(name), max).conditions == q.conditions,
        listing_query(q, None, max).offset == q.offset,
{
}

/// A page is answered with what it holds.
pub proof fn law_page_is_shown(p: RoomQueryResult)
    ensures
        member(page_json(p), "total"@) == Some(JsonView::Int(p.total as int)),
        member(page_json(p), "offset"@) == Some(JsonView::Int(p.offset as int)),
        p.limit matches Some(n) ==> member(page_json(p), "limit"@) == Some(JsonView::Int(n as int)),
        p.limit is None ==> member(page_json(p), "limit"@) == Some(JsonView::Null),
        p.next_offset matches Some(n) ==> member(page_json(p), "nextOffset"@) == Some(
            JsonView::Int(n as int),
        ),
        p.next_offset is None ==> member(page_json(p), "nextOffset"@) == Some(JsonView::Null),
        member(page_json(p), "items"@) matches Some(JsonView::Array(s)) && s.len() == p.items@.len(),
{
    reveal_strlit("items");
    reveal_strlit("total");
    reveal_strlit("limit");
    reveal_strlit("offset");
    reveal_strlit("nextOffset");
    assert("items"@.len() == 5);
    assert("total"@.len() == 5);
    assert("limit"@.len() == 5);
    assert("offset"@.len() == 6);
    assert("nextOffset"@.len() == 10);
    assert("items"@[0] != "total"@[0]);
    assert("items"@[0] != "limit"@[0]);
    assert("total"@[0] != "limit"@[0]);
}

/// The clients of all rooms are counted, each room's once.
pub proof fn law_connections_add_up(ls: Seq<ListingView>, l: ListingView)
    ensures
        total_clients(ls.push(l)) == total_clients(ls) + l.clients,
        ls.len() == 0 ==> total_clients(ls) == 0,
{
    assert(ls.push(l).drop_last() =~= ls);
}

/// The overview tells of the process how many rooms and connections there are.
pub proof fn law_overview_is_shown(
    process_id: Seq<char>,
    pid: u32,
    uptime_ms: u64,
    rss_bytes: u64,
    ls: Seq<ListingView>,
)
    ensures
        ({
            let v = overview_json(process_id, pid, uptime_ms, rss_bytes, ls);
            &&& member(v, "processId"@) == Some(JsonView::Str(process_id))
            &&& member(v, "pid"@) == Some(JsonView::Int(pid as int))
            &&& member(v, "uptimeMillis"@) == Some(JsonView::Int(uptime_ms as int))
            &&& member(v, "rssBytes"@) == Some(JsonView::Int(rss_bytes as int))
            &&& member(v, "rooms"@) == Some(JsonView::Int(ls.len() as int))
            &&& member(v, "connections"@) == Some(JsonView::Int(total_clients(ls) as int))
        }),
{
    reveal_strlit("processId");
    reveal_strlit("pid");
    reveal_strlit("uptimeMillis");
    reveal_strlit("rssBytes");
    reveal_strlit("rooms");
    reveal_strlit("connections");
    assert("processId"@.len() == 9);
    assert("pid"@.len() == 3);
    assert("uptimeMillis"@.len() == 12);
    assert("rssBytes"@.len() == 8);
    assert("rooms"@.len() == 5);
    assert("connections"@.len() == 11);
}

/// The counts of rooms are shown under the names of what they count.
pub proof fn law_counts_are_shown(s: RoomStats)
    ensures
        member(stats_json(s), "total"@) == Some(JsonView::Int(s.total as int)),
        member(stats_json(s), "open"@) == Some(JsonView::Int(s.open as int)),
        member(stats_json(s), "waiting"@) == Some(JsonView::Int(s.waiting as int)),
        member(stats_json(s), "full"@) == Some(JsonView::Int(s.full as int)),
        member(stats_json(s), "locked"@) == Some(JsonView::Int(s.locked as int)),
        member(stats_json(s), "private"@) == Some(JsonView::Int(s.private as int)),
{
    reveal_strlit("total");
    reveal_strlit("open");
    reveal_strlit("waiting");
    reveal_strlit("full");
    reveal_strlit("locked");
    reveal_strlit("private");
    assert("total"@.len() == 5);
    assert("open"@.len() == 4);
    assert("waiting"@.len() == 7);
    assert("full"@.len() == 4);
    assert("locked"@.len() == 6);
    assert("private"@.len() == 7);
    assert("open"@[0] != "full"@[0]);
    assert("waiting"@[0] != "private"@[0]);
}

/// The report of a room shows its state and how many seats are given out and how many
/// clients may come back.
pub proof fn law_inspection_is_shown(i: RoomInspection, listing: ListingView)
    ensures
        ({
            let v = inspection_json(i, listing);
            &&& member(v, "roomId"@) == Some(JsonView::Str(i.room_id@))
            &&& i.state matches Some(s) ==> member(v, "state"@) == Some(s@)
            &&& i.state is None ==> member(v, "state"@) == Some(JsonView::Null)
            &&& member(v, "reservedSeats"@) == Some(JsonView::Int(i.reserved_seats as int))
            &&& member(v, "pendingReconnections"@) == Some(
                JsonView::Int(i.pending_reconnections as int),
            )
            &&& member(v, "elapsedMillis"@) == Some(JsonView::Int(i.elapsed_millis as int))
            &&& member(v, "clients"@) matches Some(JsonView::Array(cs)) && cs.len()
                == i.clients@.len()
        }),
{
    reveal_strlit("roomId");
    reveal_strlit("state");
    reveal_strlit("clients");
    reveal_strlit("reservedSeats");
    reveal_strlit("pendingReconnections");
    reveal_strlit("elapsedMillis");
    reveal_strlit("listing");
    assert("roomId"@.len() == 6);
    assert("state"@.len() == 5);
    assert("clients"@.len() == 7);
    assert("reservedSeats"@.len() == 13);
    assert("pendingReconnections"@.len() == 20);
    assert("elapsedMillis"@.len() == 13);
    assert("listing"@.len() == 7);
    assert("clients"@[0] != "listing"@[0]);
    assert("reservedSeats"@[0] != "elapsedMillis"@[0]);
}

/// Each client of the report is shown with its session, the name of its state, and
/// its auth and user data.
pub proof fn law_inspected_clients_are_shown(
    i: RoomInspection,
    c: ContextView,
    created_at: u64,
    now: u64,
    k: int,
    listing: ListingView,
)
    requires
        reports_room(i, c, created_at, now),
        0 <= k < c.clients.len(),
    ensures
        member(inspection_json(i, listing), "clients"@) matches Some(JsonView::Array(cs)) && ({
            let v = cs[k];
            let x = c.clients[k];
            &&& member(v, "sessionId"@) == Some(JsonView::Str(x.session_id))
            &&& x.state == ClientState::Joined ==> member(v, "state"@) == Some(
                JsonView::Str("Joined"@),
            )
            &&& x.state == ClientState::Joining ==> member(v, "state"@) == Some(
                JsonView::Str("Joining"@),
            )
            &&& x.state == ClientState::Reconnecting ==> member(v, "state"@) == Some(
                JsonView::Str("Reconnecting"@),
            )
            &&& x.state == ClientState::Reconnected ==> member(v, "state"@) == Some(
                JsonView::Str("Reconnected"@),
            )
            &&& x.state == ClientState::Leaving ==> member(v, "state"@) == Some(
                JsonView::Str("Leaving"@),
            )
            &&& x.state == ClientState::Closed ==> member(v, "state"@) == Some(
                JsonView::Str("Closed"@),
            )
            &&& x.auth matches Some(a) ==> member(v, "auth"@) == Some(a)
            &&& x.auth is None ==> member(v, "auth"@) == Some(JsonView::Null)
            &&& x.user_data matches Some(a) ==> member(v, "userData"@) == Some(a)
            &&& x.user_data is None ==> member(v, "userData"@) == Some(JsonView::Null)
        }),
        i.elapsed_millis == if now <= created_at {
            0int
        } else {
            now - created_at
        },
        i.reserved_seats == c.seats.len(),
        i.pending_reconnections == c.reconnections.len(),
{
    law_inspection_is_shown(i, listing);
    reveal_strlit("sessionId");
    reveal_strlit("state");
    reveal_strlit("auth");
    reveal_strlit("userData");
    assert("sessionId"@.len() == 9);
    assert("state"@.len() == 5);
    assert("auth"@.len() == 4);
    assert("userData"@.len() == 8);
    assert(crate::events::reports_client(i.clients@[k], c.clients[k]));
    let cs = i.clients@.map_values(
        |x: crate::events::ClientInspection| crate::admin::client_json(x),
    );
    assert(cs[k] == crate::admin::client_json(i.clients@[k]));
    reveal_strlit("roomId");
    reveal_strlit("state");
    reveal_strlit("clients");
    reveal_strlit("reservedSeats");
    reveal_strlit("pendingReconnections");
    reveal_strlit("elapsedMillis");
    reveal_strlit("listing");
    assert("roomId"@.len() == 6);
    assert("state"@.len() == 5);
    assert("clients"@.len() == 7);
    assert("reservedSeats"@.len() == 13);
    assert("pendingReconnections"@.len() == 20);
    assert("elapsedMillis"@.len() == 13);
    assert("listing"@.len() == 7);
    assert("clients"@[0] != "listing"@[0]);
    assert("reservedSeats"@[0] != "elapsedMillis"@[0]);
    assert(member(inspection_json(i, listing), "clients"@) == Some(JsonView::Array(cs)));
}

// ---------------------------------------------------------------------
// what a room is told
// ---------------------------------------------------------------------

/// What comes over a socket: messages are handed to the room, a leave ends the
/// reading, what is no message is answered as such, and the end of the connection is
/// passed on with its code, a normal one where none was given.
pub proof fn law_frames_of_socket(m: MessageView, code: u16)
    ensures
        message_step(Some(MessageView::Leave)) == SocketView::ForwardLeave,
        !(m is Leave) ==> message_step(Some(m)) == SocketView::Forward(m),
        message_step(None) == SocketView::Undecodable,
        socket_step(SocketFrame::Close(Some(code))) == SocketView::Stop(code),
        socket_step(SocketFrame::Close(None)) == SocketView::Stop(1000),
        socket_step(SocketFrame::Broken) == SocketView::Stop(1006),
        socket_step(SocketFrame::Other) == SocketView::Ignore,
{
}

/// A connection that ends is told to the room only where it is its session's present
/// one: an old one changes nothing.
pub proof fn law_old_connection_is_ignored(
    c: ContextView,
    d: ContextView,
    session_id: String,
    connection_id: String,
    code: u16,
    r: EventStep,
    created_at: u64,
    now: u64,
)
    requires
        is_event_step(
            RoomEvent::Disconnected(session_id, connection_id, code),
            c,
            d,
            r,
            created_at,
            now,
        ),
        forall|i: int|
            0 <= i < c.clients.len() && (#[trigger] c.clients[i]).session_id == session_id@
                ==> c.clients[i].connection_id != connection_id@,
    ensures
        d == c,
        r is Done,
{
    crate::room::lemma_client_index(c.clients, session_id@);
}

/// A room that is to be disposed of is, with the code that was given; one whose server
/// goes down with the code for that.
pub proof fn law_disposal_is_asked_for(
    c: ContextView,
    d: ContextView,
    code: u16,
    r: EventStep,
    created_at: u64,
    now: u64,
)
    ensures
        is_event_step(RoomEvent::Dispose(code), c, d, r, created_at, now) ==> r
            == EventStep::Dispose(code) && d == c,
        is_event_step(RoomEvent::Shutdown, c, d, r, created_at, now) ==> r == EventStep::Dispose(
            4001,
        ) && d == c,
{
}

/// An admin's message goes to the session it names, or to everybody who is in.
pub proof fn law_admin_message_arrives(c: ContextView, t: TypeView, payload: JsonView, i: int)
    requires
        0 <= i < c.clients.len(),
    ensures
        is_in(c.clients[i]) ==> admin_messaged(c, None, t, payload).clients[i].outbox
            == c.clients[i].outbox.push(OutboundView::Bytes(message_bytes(t, payload))),
        !is_in(c.clients[i]) ==> admin_messaged(c, None, t, payload).clients[i] == c.clients[i],
        (forall|k: int| 0 <= k < i ==> (#[trigger] c.clients[k]).session_id
            != c.clients[i].session_id) && is_in(c.clients[i]) ==> admin_messaged(
            c,
            Some(c.clients[i].session_id),
            t,
            payload,
        ).clients[i].outbox == c.clients[i].outbox.push(
            OutboundView::Bytes(message_bytes(t, payload)),
        ),
{
    if forall|k: int| 0 <= k < i ==> (#[trigger] c.clients[k]).session_id
        != c.clients[i].session_id {
        crate::room::lemma_client_index(c.clients, c.clients[i].session_id);
    }
}

/// An edit that the room's state type takes is the state from then on, and clients hear
/// of it with the next patch; one that it does not take changes nothing.
pub proof fn law_edited_state_is_the_state(c: ContextView, v: JsonView, reason: Seq<char>)
    requires
        c.state is Some,
    ensures
        edit_finished(c, Ok(v)).1 is Ok,
        edit_finished(c, Ok(v)).0.state == Some((v, c.state->Some_0.1)),
        edit_finished(c, Ok(v)).0.clients == c.clients,
        edit_finished(c, Err(reason)) == (c, Err::<(), Seq<char>>(reason)),
{
}

/// A room without state cannot be edited.
pub proof fn law_no_state_no_edit(
    c: ContextView,
    path: Seq<Seq<char>>,
    edit: crate::state::EditView,
    v: JsonView,
)
    requires
        c.state is None,
    ensures
        edit_begun(c, path, edit) is Err,
        edit_finished(c, Ok(v)).1 is Err,
        edit_finished(c, Ok(v)).0 == c,
{
}

// ---------------------------------------------------------------------
// repeated requests
// ---------------------------------------------------------------------

/// A reply is replayed for half a minute, and is then forgotten.
pub proof fn law_replies_live_half_a_minute(
    replies: Map<Seq<char>, ReplyView>,
    key: Seq<char>,
    now: u64,
)
    requires
        replies.dom().contains(key),
        replies[key].at <= now,
    ensures
        live_reply(replies[key], now) <==> now - replies[key].at <= 30000,
        live_replies(replies, now).dom().contains(key) <==> now - replies[key].at <= 30000,
{
}

/// No more than 1024 replies are kept, and no young one is dropped for an older one.
pub proof fn law_oldest_replies_go_first(
    all: Map<Seq<char>, ReplyView>,
    kept: Map<Seq<char>, ReplyView>,
    gone: Seq<char>,
    k: Seq<char>,
)
    requires
        is_trimmed(all, kept),
        all.dom().contains(gone),
        !kept.dom().contains(gone),
        kept.dom().contains(k),
    ensures
        all[gone].at <= all[k].at,
        kept[k] == all[k],
        all.dom().len() >= 1024,
        kept.dom().len() == 1023,
{
    assert(all.dom().contains(k));
}

/// A request has a key where its `Idempotency-Key` header is not blank.
pub proof fn law_key_is_a_header(headers: Seq<(String, String)>, i: int)
    requires
        0 <= i < headers.len(),
        headers[i].0@ == "idempotency-key"@,
        forall|j: int| 0 <= j < i ==> (#[trigger] headers[j]).0@ != "idempotency-key"@,
    ensures
        trimmed(headers[i].1@).len() > 0 ==> key_header(headers) == Some(trimmed(headers[i].1@)),
        trimmed(headers[i].1@).len() == 0 ==> key_header(headers) is None,
{
    law_first_header_counts(headers, "idempotency-key"@, i);
}

}
