//! HTTP matchmaking and WebSocket transport: what requests and frames mean, and
//! how they are answered.

use crate::driver::{flat_view, is_answer, is_walk, listing_views, ListingView, RoomQueryResult};
use crate::error::{close_codes, codes, no_handler_error, ErrorView, ServerError};
use crate::events::AuthContext;
use crate::filter::filter_conditions;
use crate::handler::{get_field, option_field};
use crate::idempotency::{
    is_trimmed, key_part, lemma_key_part, live_replies, live_reply, write_part, ReplyCache,
    ReplyView, IDEMPOTENCY_TTL_MS,
};
use crate::json::{lookup, put_field, values_view, Json, JsonView};
use crate::matchmaker::{
    condition_fields, first_refused, query_refusal, reservation_json, reservation_result,
    unknown_field_error, MatchMaker, ReservationView, SeatReservation,
};
use crate::protocol::{decode_client_message, decoded, message_option, ClientMessage, MessageView};
use crate::query::{
    conditions_view, is_blank, option_view, query_of, text_option, Condition, ConditionView,
    QueryView, RoomQuery,
};
use crate::table::table_get;
use crate::text::{
    chars_of, join_quoted, pieces, same_text, slice_text, split_text, text_views, trim_text,
    trimmed, with_quoted,
};
use vstd::prelude::*;
use vstd::string::*;

verus! {

/// The answer to a request.
#[derive(Debug)]
pub struct HttpReply {
    pub status: u16,
    pub body: ReplyBody,
}

/// What an answer carries.
#[derive(Debug)]
pub enum ReplyBody {
    Empty,
    Text(String),
    Json(Json),
}

/// What an answer stands for.
pub struct HttpView {
    pub status: u16,
    pub body: BodyView,
}

/// What an answer carries, read through its views.
pub enum BodyView {
    Empty,
    Text(Seq<char>),
    Json(JsonView),
}

impl View for HttpReply {
    type V = HttpView;

    open spec fn view(&self) -> HttpView {
        HttpView {
            status: self.status,
            body: match self.body {
                ReplyBody::Empty => BodyView::Empty,
                ReplyBody::Text(t) => BodyView::Text(t@),
                ReplyBody::Json(j) => BodyView::Json(j@),
            },
        }
    }
}

pub fn json_reply(status: u16, body: Json) -> (r: HttpReply)
    ensures
        r@ == (HttpView { status, body: BodyView::Json(body@) }),
{
    HttpReply { status, body: ReplyBody::Json(body) }
}

pub fn text_reply(status: u16, body: String) -> (r: HttpReply)
    ensures
        r@ == (HttpView { status, body: BodyView::Text(body@) }),
{
    HttpReply { status, body: ReplyBody::Text(body) }
}

pub fn empty_reply(status: u16) -> (r: HttpReply)
    ensures
        r@ == (HttpView { status, body: BodyView::Empty }),
{
    HttpReply { status, body: ReplyBody::Empty }
}

/// The body of an error: its code and its message.
pub open spec fn error_body(code: int, message: Seq<char>) -> JsonView {
    JsonView::Object(
        Map::<Seq<char>, JsonView>::empty().insert("code"@, JsonView::Int(code)).insert(
            "error"@,
            JsonView::Str(message),
        ),
    )
}

/// A code that is an HTTP status, or else a given one.
pub open spec fn status_or(code: u16, other: u16) -> u16 {
    if 100 <= code <= 999 {
        code
    } else {
        other
    }
}

/// The answer for an error.
pub open spec fn error_view(e: ErrorView) -> HttpView {
    HttpView {
        status: status_or(e.code, 500),
        body: BodyView::Json(error_body(e.code as int, e.message)),
    }
}

/// The answer for a request that cannot be read.
pub open spec fn bad_request_view(message: Seq<char>) -> HttpView {
    HttpView { status: 400, body: BodyView::Json(error_body(400, message)) }
}

/// The body of an error.
pub fn error_json(code: u16, message: &str) -> (r: Json)
    ensures
        r@ == error_body(code as int, message@),
{
    let mut es: Vec<(String, Json)> = Vec::new();
    put_field(&mut es, "code", Json::Uint(code as u64));
    put_field(&mut es, "error", Json::Str(message.to_owned()));
    Json::Object(es)
}

/// The answer for an error.
pub fn error_response(e: &ServerError) -> (r: HttpReply)
    ensures
        r@ == error_view(e@),
{
    let status: u16 = if 100 <= e.code && e.code <= 999 {
        e.code
    } else {
        500
    };
    json_reply(status, error_json(e.code, e.message.as_str()))
}

pub fn bad_request(message: &str) -> (r: HttpReply)
    ensures
        r@ == bad_request_view(message@),
{
    json_reply(400, error_json(400, message))
}

// ---------------------------------------------------------------------
// reading requests
// ---------------------------------------------------------------------

/// The options and the filter of a request's body: a body with the reserved keys
/// `options` and `filter` holds them, any other body is the options.
pub open spec fn body_split(body: JsonView) -> (JsonView, Option<JsonView>) {
    match body {
        JsonView::Object(m) => if m.dom().contains("options"@) || m.dom().contains("filter"@) {
            (
                if m.dom().contains("options"@) {
                    m["options"@]
                } else {
                    JsonView::Null
                },
                if m.dom().contains("filter"@) {
                    Some(m["filter"@])
                } else {
                    None
                },
            )
        } else {
            (body, None)
        },
        _ => (body, None),
    }
}

/// Splits a request's body into options and filter.
pub fn split_matchmake_body(body: Json) -> (r: (Json, Option<Json>))
    ensures
        (r.0@, option_view(r.1)) == body_split(body@),
{
    if let Json::Object(es) = &body {
        let options: Option<Json> = match lookup(es, "options") {
            Some(v) => Some(v.clone()),
            None => None,
        };
        let filter: Option<Json> = match lookup(es, "filter") {
            Some(v) => Some(v.clone()),
            None => None,
        };
        if options.is_some() || filter.is_some() {
            let options: Json = match options {
                Some(v) => v,
                None => Json::Null,
            };
            return (options, filter);
        }
    }
    (body, None)
}

/// The value of the first header with a name.
pub open spec fn raw_header(headers: Seq<(String, String)>, name: Seq<char>) -> Option<Seq<char>>
    decreases headers.len(),
{
    if headers.len() == 0 {
        None
    } else if headers[0].0@ == name {
        Some(headers[0].1@)
    } else {
        raw_header(headers.drop_first(), name)
    }
}

/// A header's value up to its first comma, without white space around it.
pub open spec fn header_value(headers: Seq<(String, String)>, name: Seq<char>) -> Option<Seq<char>> {
    match raw_header(headers, name) {
        Some(v) => Some(trimmed(pieces(v, ',')[0])),
        None => None,
    }
}

/// `t` without `prefix` at its start.
pub open spec fn stripped(t: Seq<char>, prefix: Seq<char>) -> Option<Seq<char>> {
    if t.len() >= prefix.len() && t.take(prefix.len() as int) == prefix {
        Some(t.skip(prefix.len() as int))
    } else {
        None
    }
}

/// The token of an `Authorization` header.
pub open spec fn bearer_of(headers: Seq<(String, String)>) -> Option<Seq<char>> {
    match raw_header(headers, "authorization"@) {
        Some(v) => stripped(v, "Bearer "@),
        None => None,
    }
}

/// Takes a prefix off a text.
pub fn strip_prefix(t: &str, prefix: &str) -> (r: Option<String>)
    ensures
        text_option(r) == stripped(t@, prefix@),
{
    let v: Vec<char> = chars_of(t);
    let p: Vec<char> = chars_of(prefix);
    if v.len() < p.len() {
        return None;
    }
    let mut i: usize = 0;
    while i < p.len()
        invariant
            i <= p.len() <= v.len(),
            v@ == t@,
            p@ == prefix@,
            forall|k: int| 0 <= k < i ==> v@[k] == p@[k],
        decreases p.len() - i,
    {
        if v[i] != p[i] {
            proof {
                assert(t@.take(prefix@.len() as int)[i as int] != prefix@[i as int]);
            }
            return None;
        }
        i = i + 1;
    }
    proof {
        assert(t@.take(prefix@.len() as int) =~= prefix@);
        assert(v@.subrange(p.len() as int, v@.len() as int) =~= t@.skip(prefix@.len() as int));
    }
    Some(slice_text(&v, p.len(), v.len()))
}

fn find_header(headers: &Vec<(String, String)>, name: &str) -> (r: Option<String>)
    ensures
        text_option(r) == raw_header(headers@, name@),
{
    let mut i: usize = 0;
    proof {
        assert(headers@.skip(0) =~= headers@);
    }
    while i < headers.len()
        invariant
            i <= headers.len(),
            raw_header(headers@, name@) == raw_header(headers@.skip(i as int), name@),
        decreases headers.len() - i,
    {
        proof {
            assert(headers@.skip(i as int).drop_first() =~= headers@.skip(i + 1));
        }
        if same_text(headers[i].0.as_str(), name) {
            return Some(headers[i].1.clone());
        }
        i = i + 1;
    }
    None
}

/// A header's value up to its first comma.
pub fn header(headers: &Vec<(String, String)>, name: &str) -> (r: Option<String>)
    ensures
        text_option(r) == header_value(headers@, name@),
{
    match find_header(headers, name) {
        Some(v) => {
            let parts: Vec<String> = split_text(v.as_str(), ',');
            proof {
                assert(text_views(parts@)[0] == parts@[0]@);
            }
            Some(trim_text(parts[0].as_str()))
        },
        None => None,
    }
}

/// The token of an `Authorization` header.
pub fn bearer_token(headers: &Vec<(String, String)>) -> (r: Option<String>)
    ensures
        text_option(r) == bearer_of(headers@),
{
    match find_header(headers, "authorization") {
        Some(v) => strip_prefix(v.as_str(), "Bearer "),
        None => None,
    }
}

// ---------------------------------------------------------------------
// matchmaking requests
// ---------------------------------------------------------------------

/// What a request asks for, once it was read.
#[derive(Debug)]
pub enum MatchAction {
    JoinOrCreate(Json, Vec<(String, Condition)>),
    Create(Json),
    Join(Json, Vec<(String, Condition)>),
    JoinById(Json),
    Reconnect(String),
}

/// What a request asks for, read through its views.
pub enum ActionView {
    JoinOrCreate(JsonView, Seq<(Seq<char>, ConditionView)>),
    Create(JsonView),
    Join(JsonView, Seq<(Seq<char>, ConditionView)>),
    JoinById(JsonView),
    Reconnect(Seq<char>),
}

impl View for MatchAction {
    type V = ActionView;

    open spec fn view(&self) -> ActionView {
        match self {
            MatchAction::JoinOrCreate(o, f) => ActionView::JoinOrCreate(
                o@,
                conditions_view(f@),
            ),
            MatchAction::Create(o) => ActionView::Create(o@),
            MatchAction::Join(o, f) => ActionView::Join(o@, conditions_view(f@)),
            MatchAction::JoinById(o) => ActionView::JoinById(o@),
            MatchAction::Reconnect(t) => ActionView::Reconnect(t@),
        }
    }
}

/// What is done for a request.
#[derive(Debug)]
pub enum MatchStep {
    /// It is answered at once.
    Reply(HttpReply),
    /// It is carried out; its answer is kept under the key, if there is one.
    Run(MatchAction, AuthContext, Option<String>),
}

/// A method that a filter applies to.
pub open spec fn takes_filter(method: Seq<char>) -> bool {
    method == "joinOrCreate"@ || method == "join"@
}

/// A method that may create a room.
pub open spec fn may_create(method: Seq<char>) -> bool {
    method == "joinOrCreate"@ || method == "create"@
}

/// What a request has as its `Idempotency-Key`: the whole header, without white
/// space around it, unless that is empty.
pub open spec fn key_header(headers: Seq<(String, String)>) -> Option<Seq<char>> {
    match raw_header(headers, "idempotency-key"@) {
        Some(v) => if trimmed(v).len() > 0 {
            Some(trimmed(v))
        } else {
            None
        },
        None => None,
    }
}

/// The key under which a request's answer is kept, if it has one: it is scoped by
/// the method and the room's name.
pub open spec fn reply_key(
    method: Seq<char>,
    room_name: Seq<char>,
    headers: Seq<(String, String)>,
) -> Option<Seq<char>> {
    match key_header(headers) {
        Some(k) => Some(key_part(method) + (key_part(room_name) + k)),
        None => None,
    }
}

/// Two requests share a kept answer only where method, room name and
/// `Idempotency-Key` are the same.
pub proof fn law_replies_are_scoped(
    method: Seq<char>,
    room_name: Seq<char>,
    headers: Seq<(String, String)>,
    other_method: Seq<char>,
    other_name: Seq<char>,
    other_headers: Seq<(String, String)>,
)
    requires
        reply_key(method, room_name, headers) is Some,
        reply_key(method, room_name, headers) == reply_key(other_method, other_name, other_headers),
    ensures
        method == other_method,
        room_name == other_name,
        key_header(headers) == key_header(other_headers),
{
    let k = key_header(headers)->Some_0;
    let l = key_header(other_headers)->Some_0;
    lemma_key_part(method, key_part(room_name) + k, other_method, key_part(other_name) + l);
    lemma_key_part(room_name, k, other_name, l);
}

/// The error of a request that clients may not make: creating an internal room.
pub open spec fn internal_refusal(mm: MatchMaker, method: Seq<char>, room_name: Seq<char>) -> Option<
    ErrorView,
> {
    match table_get(mm.handlers@, room_name) {
        Some(h) => if may_create(method) && h.internal {
            Some(
                ErrorView {
                    code: codes::MATCHMAKE_NO_HANDLER,
                    message: with_quoted("room type "@, room_name) + " is internal"@,
                },
            )
        } else {
            None
        },
        None => None,
    }
}

/// The conditions of a request's filter, or why it is refused.
pub open spec fn request_filter(
    mm: MatchMaker,
    method: Seq<char>,
    room_name: Seq<char>,
    filter: Option<JsonView>,
) -> Result<Seq<(Seq<char>, ConditionView)>, ErrorView> {
    match filter {
        Some(f) => if takes_filter(method) {
            if table_get(mm.handlers@, room_name) is None {
                Err(no_handler_error(room_name))
            } else {
                match filter_conditions(f) {
                    Err(m) => Err(
                        ErrorView { code: codes::MATCHMAKE_INVALID_CRITERIA, message: m },
                    ),
                    Ok(cs) => match first_refused(
                        mm.handlers@,
                        Some(room_name),
                        condition_fields(cs),
                    ) {
                        Some(x) => Err(unknown_field_error("filter"@, x)),
                        None => Ok(cs),
                    },
                }
            }
        } else {
            Ok(seq![])
        },
        None => Ok(seq![]),
    }
}

/// What a method asks for.
pub open spec fn action_of(
    method: Seq<char>,
    options: JsonView,
    filter: Seq<(Seq<char>, ConditionView)>,
) -> Result<ActionView, ErrorView> {
    if method == "joinOrCreate"@ {
        Ok(ActionView::JoinOrCreate(options, filter))
    } else if method == "create"@ {
        Ok(ActionView::Create(options))
    } else if method == "join"@ {
        Ok(ActionView::Join(options, filter))
    } else if method == "joinById"@ {
        Ok(ActionView::JoinById(options))
    } else if method == "reconnect"@ {
        match option_field(options, "reconnectionToken"@) {
            Some(JsonView::Str(t)) => if t.len() > 0 {
                Ok(ActionView::Reconnect(t))
            } else {
                Err(no_token_error())
            },
            _ => Err(no_token_error()),
        }
    } else {
        Err(
            ErrorView {
                code: codes::MATCHMAKE_NO_HANDLER,
                message: with_quoted("invalid matchmaking method "@, method),
            },
        )
    }
}

pub open spec fn no_token_error() -> ErrorView {
    ErrorView {
        code: codes::MATCHMAKE_UNHANDLED,
        message: "'reconnectionToken' must be provided for reconnection"@,
    }
}

/// What is done for a request, before what was kept for its key is looked at: it
/// is refused while the server shuts down, where it may not create, and where its
/// filter is refused.
pub open spec fn request_refusal(
    mm: MatchMaker,
    method: Seq<char>,
    room_name: Seq<char>,
    body: JsonView,
) -> Option<HttpView> {
    if mm.shutting_down {
        Some(HttpView { status: 503, body: BodyView::Empty })
    } else {
        match internal_refusal(mm, method, room_name) {
            Some(e) => Some(error_view(e)),
            None => match request_filter(mm, method, room_name, body_split(body).1) {
                Err(e) => Some(error_view(e)),
                Ok(_) => None,
            },
        }
    }
}

/// `r` is what is done for a request.
pub open spec fn is_match_step(
    mm: MatchMaker,
    replies: Map<Seq<char>, ReplyView>,
    method: Seq<char>,
    room_name: Seq<char>,
    headers: Seq<(String, String)>,
    body: JsonView,
    now: u64,
    r: MatchStep,
) -> bool {
    let key = reply_key(method, room_name, headers);
    let (options, filter) = body_split(body);
    match request_refusal(mm, method, room_name, body) {
        Some(x) => r matches MatchStep::Reply(h) && h@ == x,
        None => if key matches Some(k) && replies.dom().contains(k) && live_reply(replies[k], now) {
            r matches MatchStep::Reply(h) && h@ == (HttpView {
                status: 200,
                body: BodyView::Json(replies[key->Some_0].body),
            })
        } else {
            match action_of(
                method,
                options,
                request_filter(mm, method, room_name, filter)->Ok_0,
            ) {
                Err(e) => r matches MatchStep::Reply(h) && h@ == error_view(e),
                Ok(a) => r matches MatchStep::Run(x, auth, k) && x@ == a && text_option(k) == key
                    && is_auth(auth, headers),
            }
        },
    }
}

/// `auth` is what a request's headers say of who makes it.
pub open spec fn is_auth(auth: AuthContext, headers: Seq<(String, String)>) -> bool {
    &&& text_option(auth.token) == bearer_of(headers)
    &&& auth.headers@ == headers
    &&& text_option(auth.ip) == match header_value(headers, "x-forwarded-for"@) {
        Some(ip) => Some(ip),
        None => header_value(headers, "x-real-ip"@),
    }
}

/// Reads who makes a request.
pub fn read_auth(headers: Vec<(String, String)>) -> (r: AuthContext)
    ensures
        is_auth(r, headers@),
{
    let token: Option<String> = bearer_token(&headers);
    let ip: Option<String> = match header(&headers, "x-forwarded-for") {
        Some(ip) => Some(ip),
        None => header(&headers, "x-real-ip"),
    };
    AuthContext { token, headers, ip }
}

fn make_key(method: &str, room_name: &str, headers: &Vec<(String, String)>) -> (r: Option<String>)
    ensures
        text_option(r) == reply_key(method@, room_name@, headers@),
{
    match find_header(headers, "idempotency-key") {
        Some(v) => {
            let k: String = trim_text(v.as_str());
            if is_blank(k.as_str()) {
                return None;
            }
            let mut r: String = write_part(method);
            let name: String = write_part(room_name);
            r.append(name.as_str());
            r.append(k.as_str());
            proof {
                assert(r@ =~= key_part(method@) + (key_part(room_name@) + k@));
            }
            Some(r)
        },
        None => None,
    }
}

fn choose_action(method: &str, options: Json, filter: Vec<(String, Condition)>) -> (r: Result<
    MatchAction,
    ServerError,
>)
    ensures
        match r {
            Ok(a) => action_of(method@, options@, conditions_view(filter@)) == Ok::<
                ActionView,
                ErrorView,
            >(a@),
            Err(e) => action_of(method@, options@, conditions_view(filter@)) == Err::<
                ActionView,
                ErrorView,
            >(e@),
        },
{
    if same_text(method, "joinOrCreate") {
        Ok(MatchAction::JoinOrCreate(options, filter))
    } else if same_text(method, "create") {
        Ok(MatchAction::Create(options))
    } else if same_text(method, "join") {
        Ok(MatchAction::Join(options, filter))
    } else if same_text(method, "joinById") {
        Ok(MatchAction::JoinById(options))
    } else if same_text(method, "reconnect") {
        match get_field(&options, "reconnectionToken") {
            Some(Json::Str(t)) => {
                if !is_blank(t.as_str()) {
                    return Ok(MatchAction::Reconnect(t.clone()));
                }
            },
            _ => {},
        }
        Err(
            ServerError::new(
                codes::MATCHMAKE_UNHANDLED,
                "'reconnectionToken' must be provided for reconnection".to_owned(),
            ),
        )
    } else {
        Err(
            ServerError::new(
                codes::MATCHMAKE_NO_HANDLER,
                join_quoted("invalid matchmaking method ", method),
            ),
        )
    }
}

/// The kept replies after one was looked for: one that is too old is dropped.
pub open spec fn replies_after(
    replies: Map<Seq<char>, ReplyView>,
    key: Option<Seq<char>>,
    now: u64,
) -> Map<Seq<char>, ReplyView> {
    match key {
        Some(k) => if replies.dom().contains(k) && live_reply(replies[k], now) {
            replies
        } else {
            replies.remove(k)
        },
        None => replies,
    }
}

/// Clients cannot create rooms of an internal type: every such request is refused
/// as if there were no such type.
pub proof fn law_internal_rooms_not_created(
    mm: MatchMaker,
    method: Seq<char>,
    room_name: Seq<char>,
    body: JsonView,
)
    requires
        !mm.shutting_down,
        may_create(method),
        table_get(mm.handlers@, room_name) matches Some(h) && h.internal,
    ensures
        request_refusal(mm, method, room_name, body) matches Some(h) && h.status
            == codes::MATCHMAKE_NO_HANDLER,
{
}

/// While the server shuts down no request is carried out.
pub proof fn law_no_matchmaking_while_shutting_down(
    mm: MatchMaker,
    replies: Map<Seq<char>, ReplyView>,
    method: Seq<char>,
    room_name: Seq<char>,
    headers: Seq<(String, String)>,
    body: JsonView,
    now: u64,
    r: MatchStep,
)
    requires
        mm.shutting_down,
        is_match_step(mm, replies, method, room_name, headers, body, now, r),
    ensures
        r is Reply,
        r->Reply_0@.status == 503,
{
}

/// A request that is repeated with its key while the reply is young enough is
/// answered with the same reservation, and nothing is carried out.
pub proof fn law_repeated_request_replayed(
    mm: MatchMaker,
    kept: Map<Seq<char>, ReplyView>,
    reservation: ReservationView,
    method: Seq<char>,
    room_name: Seq<char>,
    headers: Seq<(String, String)>,
    body: JsonView,
    at: u64,
    now: u64,
    r: MatchStep,
)
    requires
        at <= now,
        now - at <= IDEMPOTENCY_TTL_MS,
        reply_key(method, room_name, headers) is Some,
        request_refusal(mm, method, room_name, body) is None,
        is_match_step(
            mm,
            kept.insert(
                reply_key(method, room_name, headers)->Some_0,
                ReplyView { at, body: reservation_json(reservation) },
            ),
            method,
            room_name,
            headers,
            body,
            now,
            r,
        ),
    ensures
        r is Reply,
        r->Reply_0@ == (HttpView {
            status: 200,
            body: BodyView::Json(reservation_json(reservation)),
        }),
{
}

/// Reads a matchmaking request and decides what is done for it.
pub fn matchmake_begin(
    mm: &MatchMaker,
    cache: &mut ReplyCache,
    method: &str,
    room_name: &str,
    headers: Vec<(String, String)>,
    body: Json,
    now: u64,
) -> (r: MatchStep)
    ensures
        is_match_step(
            *mm,
            old(cache).replies(),
            method@,
            room_name@,
            headers@,
            body@,
            now,
            r,
        ),
        final(cache).replies() == replies_after(
            old(cache).replies(),
            if request_refusal(*mm, method@, room_name@, body@) is None {
                reply_key(method@, room_name@, headers@)
            } else {
                None
            },
            now,
        ),
{
    if mm.is_shutting_down() {
        return MatchStep::Reply(empty_reply(503));
    }
    let (options, filter): (Json, Option<Json>) = split_matchmake_body(body);
    let key: Option<String> = make_key(method, room_name, &headers);
    if same_text(method, "joinOrCreate") || same_text(method, "create") {
        if let Ok(h) = mm.handler(room_name) {
            if h.is_internal() {
                let mut message: String = join_quoted("room type ", room_name);
                message.append(" is internal");
                let e: ServerError = ServerError::new(codes::MATCHMAKE_NO_HANDLER, message);
                return MatchStep::Reply(error_response(&e));
            }
        }
    }
    let takes: bool = same_text(method, "joinOrCreate") || same_text(method, "join");
    let conditions: Vec<(String, Condition)> = match &filter {
        Some(f) => if takes {
            match mm.parse_match_filter(room_name, f) {
                Ok(cs) => cs,
                Err(e) => {
                    return MatchStep::Reply(error_response(&e));
                },
            }
        } else {
            Vec::new()
        },
        None => Vec::new(),
    };
    proof {
        if filter is None || !takes {
            assert(conditions_view(conditions@) =~= seq![]);
        }
    }
    if let Some(k) = &key {
        if let Some(kept) = cache.idempotency_get(k.as_str(), now) {
            return MatchStep::Reply(json_reply(200, kept));
        }
    }
    match choose_action(method, options, conditions) {
        Ok(action) => MatchStep::Run(action, read_auth(headers), key),
        Err(e) => MatchStep::Reply(error_response(&e)),
    }
}

/// Answers a matchmaking request that was carried out. A reservation is kept for
/// replay where the request has a key; an error is not.
pub fn matchmake_end(
    cache: &mut ReplyCache,
    key: Option<String>,
    result: Result<SeatReservation, ServerError>,
    now: u64,
) -> (r: HttpReply)
    ensures
        r@ == match reservation_result(result) {
            Ok(s) => HttpView { status: 200, body: BodyView::Json(reservation_json(s)) },
            Err(e) => error_view(e),
        },
        result is Ok && key is Some ==> exists|kept: Map<Seq<char>, ReplyView>| #[trigger]
            is_trimmed(
                live_replies(old(cache).replies(), now),
                kept,
            ) && final(cache).replies() == kept.insert(
                key->Some_0@,
                ReplyView {
                    at: now,
                    body: reservation_json(reservation_result(result)->Ok_0),
                },
            ),
        !(result is Ok && key is Some) ==> final(cache).replies() == old(cache).replies(),
{
    match result {
        Ok(reservation) => {
            let body: Json = reservation.to_json();
            if let Some(k) = key {
                cache.idempotency_put(k, body.clone(), now);
            }
            json_reply(200, body)
        },
        Err(e) => error_response(&e),
    }
}

// ---------------------------------------------------------------------
// listings
// ---------------------------------------------------------------------

/// Clamps a page's size, so that a single query cannot dump the whole room table.
pub fn cap_limit(query: RoomQuery, max: usize) -> (r: RoomQuery)
    ensures
        r@ == limited(query@, max),
{
    let limit: usize = match query.limit {
        Some(n) => if n <= max {
            n
        } else {
            max
        },
        None => max,
    };
    RoomQuery { limit: Some(limit), ..query }
}

/// A query for a page of at most `max` rooms.
pub open spec fn limited(q: QueryView, max: usize) -> QueryView {
    QueryView {
        limit: Some(
            match q.limit {
                Some(n) => if n <= max {
                    n
                } else {
                    max
                },
                None => max,
            },
        ),
        ..q
    }
}

pub open spec fn usize_or_null(n: Option<usize>) -> JsonView {
    match n {
        Some(n) => JsonView::Int(n as int),
        None => JsonView::Null,
    }
}

/// A page of listings as JSON.
pub open spec fn page_json(p: RoomQueryResult) -> JsonView {
    JsonView::Object(
        Map::<Seq<char>, JsonView>::empty().insert(
            "items"@,
            JsonView::Array(
                listing_views(p.items@).map_values(|l: ListingView| flat_view(l)),
            ),
        ).insert("total"@, JsonView::Int(p.total as int)).insert(
            "limit"@,
            usize_or_null(p.limit),
        ).insert("offset"@, JsonView::Int(p.offset as int)).insert(
            "nextOffset"@,
            usize_or_null(p.next_offset),
        ),
    )
}

/// A page of listings as it is sent.
pub fn page_to_json(page: &RoomQueryResult) -> (r: Json)
    ensures
        r@ == page_json(*page),
{
    let ghost views = listing_views(page.items@).map_values(|l: ListingView| flat_view(l));
    let mut items: Vec<Json> = Vec::new();
    let mut i: usize = 0;
    while i < page.items.len()
        invariant
            i <= page.items.len(),
            views == listing_views(page.items@).map_values(|l: ListingView| flat_view(l)),
            items.len() == i,
            forall|k: int| 0 <= k < i ==> (#[trigger] items@[k])@ == views[k],
        decreases page.items.len() - i,
    {
        items.push(page.items[i].to_flat_value());
        i = i + 1;
    }
    proof {
        assert(values_view(items@) =~= views);
    }
    let limit: Json = match page.limit {
        Some(n) => Json::Uint(n as u64),
        None => Json::Null,
    };
    let next: Json = match page.next_offset {
        Some(n) => Json::Uint(n as u64),
        None => Json::Null,
    };
    let mut es: Vec<(String, Json)> = Vec::new();
    put_field(&mut es, "items", Json::array(items));
    put_field(&mut es, "total", Json::Uint(page.total as u64));
    put_field(&mut es, "limit", limit);
    put_field(&mut es, "offset", Json::Uint(page.offset as u64));
    put_field(&mut es, "nextOffset", next);
    Json::Object(es)
}

/// The query that a request for listings stands for.
pub open spec fn listing_query(q: QueryView, room_name: Option<Seq<char>>, max: usize) -> QueryView {
    match room_name {
        Some(n) => QueryView { name: Some(n), ..limited(q, max) },
        None => limited(q, max),
    }
}

/// Answers a request for listings: of all rooms, or of one type.
pub fn list_rooms(
    mm: &MatchMaker,
    room_name: Option<&str>,
    params: &Vec<(String, String)>,
    max: usize,
) -> (r: HttpReply)
    ensures
        match query_of(params@) {
            Err(m) => r@ == bad_request_view(m),
            Ok(q) => {
                let name = match room_name {
                    Some(n) => Some(n@),
                    None => None,
                };
                let asked = listing_query(q, name, max);
                match query_refusal(mm.handlers@, asked) {
                    Some(e) => r@ == error_view(e),
                    None => exists|all: Seq<ListingView>, page: RoomQueryResult|
                        #![trigger is_walk(mm.driver.listings(), all), page_json(page)]
                        is_walk(mm.driver.listings(), all)
                            && is_answer(all, asked, page) && r@ == (HttpView {
                            status: 200,
                            body: BodyView::Json(page_json(page)),
                        }),
                }
            },
        },
{
    match RoomQuery::from_params(params) {
        Err(message) => bad_request(message.as_str()),
        Ok(query) => {
            let query: RoomQuery = cap_limit(query, max);
            match mm.query_rooms(room_name, query) {
                Ok(page) => json_reply(200, page_to_json(&page)),
                Err(e) => error_response(&e),
            }
        },
    }
}

// ---------------------------------------------------------------------
// sockets
// ---------------------------------------------------------------------

/// A frame that a client's socket brought.
#[derive(Debug)]
pub enum SocketFrame {
    Binary(Vec<u8>),
    /// A close frame, with its code if it has one.
    Close(Option<u16>),
    /// Anything else that is no error.
    Other,
    Broken,
}

/// What a frame leads to.
#[derive(Debug)]
pub enum SocketStep {
    /// The room is handed the message, and the socket is read on.
    Forward(ClientMessage),
    /// The room is handed the leave, and the socket is read no more.
    ForwardLeave,
    /// The client is told that its message could not be decoded.
    Undecodable,
    Ignore,
    /// The socket is read no more. The room is told of the disconnect, with the
    /// code.
    Stop(u16),
}

/// What a frame leads to, read through its views.
pub enum SocketView {
    Forward(MessageView),
    ForwardLeave,
    Undecodable,
    Ignore,
    Stop(u16),
}

impl View for SocketStep {
    type V = SocketView;

    open spec fn view(&self) -> SocketView {
        match self {
            SocketStep::Forward(m) => SocketView::Forward(m@),
            SocketStep::ForwardLeave => SocketView::ForwardLeave,
            SocketStep::Undecodable => SocketView::Undecodable,
            SocketStep::Ignore => SocketView::Ignore,
            SocketStep::Stop(c) => SocketView::Stop(*c),
        }
    }
}

/// What a frame leads to.
pub open spec fn socket_step(frame: SocketFrame) -> SocketView {
    match frame {
        SocketFrame::Binary(bytes) => message_step(decoded(bytes@)),
        SocketFrame::Close(Some(code)) => SocketView::Stop(code),
        SocketFrame::Close(None) => SocketView::Stop(close_codes::NORMAL_CLOSURE),
        SocketFrame::Other => SocketView::Ignore,
        SocketFrame::Broken => SocketView::Stop(close_codes::ABNORMAL_CLOSURE),
    }
}

/// What a decoded frame leads to.
pub open spec fn message_step(m: Option<MessageView>) -> SocketView {
    match m {
        Some(MessageView::Leave) => SocketView::ForwardLeave,
        Some(m) => SocketView::Forward(m),
        None => SocketView::Undecodable,
    }
}

/// Decides what a decoded frame leads to.
pub fn step_for_message(m: Option<ClientMessage>) -> (r: SocketStep)
    ensures
        r@ == message_step(message_option(m)),
{
    match m {
        Some(ClientMessage::Leave) => SocketStep::ForwardLeave,
        Some(m) => SocketStep::Forward(m),
        None => SocketStep::Undecodable,
    }
}

/// Decides what a frame leads to.
pub fn read_frame(frame: SocketFrame) -> (r: SocketStep)
    ensures
        r@ == socket_step(frame),
{
    match frame {
        SocketFrame::Binary(bytes) => step_for_message(decode_client_message(bytes.as_slice())),
        SocketFrame::Close(Some(code)) => SocketStep::Stop(code),
        SocketFrame::Close(None) => SocketStep::Stop(close_codes::NORMAL_CLOSURE),
        SocketFrame::Other => SocketStep::Ignore,
        SocketFrame::Broken => SocketStep::Stop(close_codes::ABNORMAL_CLOSURE),
    }
}

}
