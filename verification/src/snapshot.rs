//! Room persistence: snapshots, the envelope that they are stored in, the names
//! of their files and the order in which they are written.

use crate::checksum::{crc32, crc32_of, law_changed_byte_detected};
use crate::json::{clone_entries, entries_view, json_view, lookup, values_view, Json, JsonView};
use crate::query::{option_view, ref_view, text_option};
use crate::text::{chars_of, decimal, decimal_text, joined, slice_text};
use crate::utils::{is_id, is_id_char};
use crate::wire::{fits, max_depth, pack, packed, unpack, unpacked};
use std::collections::VecDeque;
use vstd::prelude::*;
use vstd::string::*;

verus! {

/// Current on-disk envelope format version.
pub const ENVELOPE_VERSION: u32 = 1;

/// A persisted reconnection entry. A client holding `token` may rejoin
/// `session_id` after a restart.
#[derive(Debug)]
pub struct PersistedReconnection {
    pub session_id: String,
    pub token: String,
    /// Wall-clock ms epoch. `None` = manual (never expires on its own).
    pub expires_at_ms: Option<u64>,
    pub auth: Option<Json>,
    pub user_data: Option<Json>,
}

/// A persisted, unconsumed seat reservation.
#[derive(Debug)]
pub struct PersistedSeat {
    pub session_id: String,
    pub options: Json,
    pub auth: Option<Json>,
    /// Wall-clock ms epoch.
    pub expires_at_ms: u64,
}

/// The complete serializable footprint of a room.
#[derive(Debug)]
pub struct RoomSnapshot {
    /// Schema version of the room type that produced this snapshot.
    pub schema_version: u32,
    pub room_id: String,
    pub room_name: String,
    /// Process id that wrote the snapshot (informational only).
    pub process_id: String,
    /// Wall-clock ms epoch the room was originally created.
    pub created_at: u64,
    /// Wall-clock ms epoch this snapshot was written.
    pub saved_at: u64,
    /// Restored into the room's clock.
    pub clock_elapsed_ms: u64,
    /// Original creation options.
    pub options: Json,
    /// Public, client-visible state (null when the room has none).
    pub state: Json,
    /// Private, server-only state (null when the room has none).
    pub internal: Json,
    pub metadata: Option<Json>,
    pub locked: bool,
    pub is_private: bool,
    pub max_clients: Option<u32>,
    pub filter_extra: Vec<(String, Json)>,
    pub reconnections: Vec<PersistedReconnection>,
    pub seats: Vec<PersistedSeat>,
}

/// What a persisted reconnection stands for.
pub struct ReconnectionView {
    pub session_id: Seq<char>,
    pub token: Seq<char>,
    pub expires_at_ms: Option<u64>,
    pub auth: Option<JsonView>,
    pub user_data: Option<JsonView>,
}

/// What a persisted seat stands for.
pub struct SeatView {
    pub session_id: Seq<char>,
    pub options: JsonView,
    pub auth: Option<JsonView>,
    pub expires_at_ms: u64,
}

/// What a snapshot stands for.
pub struct SnapshotView {
    pub schema_version: u32,
    pub room_id: Seq<char>,
    pub room_name: Seq<char>,
    pub process_id: Seq<char>,
    pub created_at: u64,
    pub saved_at: u64,
    pub clock_elapsed_ms: u64,
    pub options: JsonView,
    pub state: JsonView,
    pub internal: JsonView,
    pub metadata: Option<JsonView>,
    pub locked: bool,
    pub is_private: bool,
    pub max_clients: Option<u32>,
    pub filter_extra: Map<Seq<char>, JsonView>,
    pub reconnections: Seq<ReconnectionView>,
    pub seats: Seq<SeatView>,
}

impl View for PersistedReconnection {
    type V = ReconnectionView;

    open spec fn view(&self) -> ReconnectionView {
        ReconnectionView {
            session_id: self.session_id@,
            token: self.token@,
            expires_at_ms: self.expires_at_ms,
            auth: option_view(self.auth),
            user_data: option_view(self.user_data),
        }
    }
}

impl View for PersistedSeat {
    type V = SeatView;

    open spec fn view(&self) -> SeatView {
        SeatView {
            session_id: self.session_id@,
            options: self.options@,
            auth: option_view(self.auth),
            expires_at_ms: self.expires_at_ms,
        }
    }
}

impl View for RoomSnapshot {
    type V = SnapshotView;

    open spec fn view(&self) -> SnapshotView {
        SnapshotView {
            schema_version: self.schema_version,
            room_id: self.room_id@,
            room_name: self.room_name@,
            process_id: self.process_id@,
            created_at: self.created_at,
            saved_at: self.saved_at,
            clock_elapsed_ms: self.clock_elapsed_ms,
            options: self.options@,
            state: self.state@,
            internal: self.internal@,
            metadata: option_view(self.metadata),
            locked: self.locked,
            is_private: self.is_private,
            max_clients: self.max_clients,
            filter_extra: entries_view(self.filter_extra@),
            reconnections: self.reconnections@.map_values(|r: PersistedReconnection| r@),
            seats: self.seats@.map_values(|s: PersistedSeat| s@),
        }
    }
}

// ---------------------------------------------------------------------
// snapshots as JSON
// ---------------------------------------------------------------------

/// An optional value as JSON: null where there is none.
pub open spec fn or_null(v: Option<JsonView>) -> JsonView {
    match v {
        Some(j) => j,
        None => JsonView::Null,
    }
}

pub open spec fn u64_or_null(n: Option<u64>) -> JsonView {
    match n {
        Some(n) => JsonView::Int(n as int),
        None => JsonView::Null,
    }
}

pub open spec fn u32_or_null(n: Option<u32>) -> JsonView {
    match n {
        Some(n) => JsonView::Int(n as int),
        None => JsonView::Null,
    }
}

/// A reconnection as the array of its fields.
pub open spec fn reconnection_json(r: ReconnectionView) -> JsonView {
    JsonView::Array(
        seq![
            JsonView::Str(r.session_id),
            JsonView::Str(r.token),
            u64_or_null(r.expires_at_ms),
            or_null(r.auth),
            or_null(r.user_data),
        ],
    )
}

/// A seat as the array of its fields.
pub open spec fn seat_json(s: SeatView) -> JsonView {
    JsonView::Array(
        seq![
            JsonView::Str(s.session_id),
            s.options,
            or_null(s.auth),
            JsonView::Int(s.expires_at_ms as int),
        ],
    )
}

/// A snapshot as the array of its fields.
pub open spec fn snapshot_json(s: SnapshotView) -> JsonView {
    JsonView::Array(
        seq![
            JsonView::Int(s.schema_version as int),
            JsonView::Str(s.room_id),
            JsonView::Str(s.room_name),
            JsonView::Str(s.process_id),
            JsonView::Int(s.created_at as int),
            JsonView::Int(s.saved_at as int),
            JsonView::Int(s.clock_elapsed_ms as int),
            s.options,
            s.state,
            s.internal,
            or_null(s.metadata),
            JsonView::Bool(s.locked),
            JsonView::Bool(s.is_private),
            u32_or_null(s.max_clients),
            JsonView::Object(s.filter_extra),
            JsonView::Array(s.reconnections.map_values(|r: ReconnectionView| reconnection_json(r))),
            JsonView::Array(s.seats.map_values(|s: SeatView| seat_json(s))),
        ],
    )
}

/// A record of `n` fields: an array of them, or an object that names them.
pub open spec fn is_record(v: JsonView, n: nat) -> bool {
    match v {
        JsonView::Array(s) => s.len() == n,
        JsonView::Object(m) => true,
        _ => false,
    }
}

/// A record's field, by its place or by its name.
pub open spec fn record_field(v: JsonView, i: nat, name: Seq<char>) -> Option<JsonView> {
    match v {
        JsonView::Array(s) => if i < s.len() {
            Some(s[i as int])
        } else {
            None
        },
        JsonView::Object(m) => if m.dom().contains(name) {
            Some(m[name])
        } else {
            None
        },
        _ => None,
    }
}

pub open spec fn read_text(v: Option<JsonView>) -> Option<Seq<char>> {
    match v {
        Some(JsonView::Str(t)) => Some(t),
        _ => None,
    }
}

pub open spec fn read_uint(v: Option<JsonView>, max: int) -> Option<int> {
    match v {
        Some(JsonView::Int(n)) => if 0 <= n <= max {
            Some(n)
        } else {
            None
        },
        _ => None,
    }
}

pub open spec fn read_flag(v: Option<JsonView>) -> Option<bool> {
    match v {
        Some(JsonView::Bool(b)) => Some(b),
        _ => None,
    }
}

/// An optional number: absent where it is null or missing.
pub open spec fn read_opt_uint(v: Option<JsonView>, max: int) -> Option<Option<int>> {
    match v {
        None => Some(None),
        Some(JsonView::Null) => Some(None),
        _ => match read_uint(v, max) {
            Some(n) => Some(Some(n)),
            None => None,
        },
    }
}

/// An optional value: absent where it is null or missing.
pub open spec fn read_opt(v: Option<JsonView>) -> Option<JsonView> {
    match v {
        Some(JsonView::Null) => None,
        _ => v,
    }
}

/// The reconnection that a record stands for.
pub open spec fn reconnection_of(v: JsonView) -> Option<ReconnectionView> {
    let session_id = read_text(record_field(v, 0, "session_id"@));
    let token = read_text(record_field(v, 1, "token"@));
    let expires = read_opt_uint(record_field(v, 2, "expires_at_ms"@), u64::MAX as int);
    if is_record(v, 5) && session_id is Some && token is Some && expires is Some {
        Some(
            ReconnectionView {
                session_id: session_id->Some_0,
                token: token->Some_0,
                expires_at_ms: match expires->Some_0 {
                    Some(n) => Some(n as u64),
                    None => None,
                },
                auth: read_opt(record_field(v, 3, "auth"@)),
                user_data: read_opt(record_field(v, 4, "user_data"@)),
            },
        )
    } else {
        None
    }
}

/// The seat that a record stands for.
pub open spec fn seat_of(v: JsonView) -> Option<SeatView> {
    let session_id = read_text(record_field(v, 0, "session_id"@));
    let options = record_field(v, 1, "options"@);
    let expires = read_uint(record_field(v, 3, "expires_at_ms"@), u64::MAX as int);
    if is_record(v, 4) && session_id is Some && options is Some && expires is Some {
        Some(
            SeatView {
                session_id: session_id->Some_0,
                options: options->Some_0,
                auth: read_opt(record_field(v, 2, "auth"@)),
                expires_at_ms: expires->Some_0 as u64,
            },
        )
    } else {
        None
    }
}

/// The reconnections that records stand for, if each stands for one.
pub open spec fn reconnections_of(s: Seq<JsonView>) -> Option<Seq<ReconnectionView>>
    decreases s.len(),
{
    if s.len() == 0 {
        Some(seq![])
    } else {
        match (reconnections_of(s.drop_last()), reconnection_of(s.last())) {
            (Some(rs), Some(r)) => Some(rs.push(r)),
            _ => None,
        }
    }
}

/// The seats that records stand for, if each stands for one.
pub open spec fn seats_of(s: Seq<JsonView>) -> Option<Seq<SeatView>>
    decreases s.len(),
{
    if s.len() == 0 {
        Some(seq![])
    } else {
        match (seats_of(s.drop_last()), seat_of(s.last())) {
            (Some(rs), Some(r)) => Some(rs.push(r)),
            _ => None,
        }
    }
}

pub open spec fn read_reconnections(v: Option<JsonView>) -> Option<Seq<ReconnectionView>> {
    match v {
        Some(JsonView::Array(s)) => reconnections_of(s),
        _ => None,
    }
}

pub open spec fn read_seats(v: Option<JsonView>) -> Option<Seq<SeatView>> {
    match v {
        Some(JsonView::Array(s)) => seats_of(s),
        _ => None,
    }
}

pub open spec fn read_map(v: Option<JsonView>) -> Option<Map<Seq<char>, JsonView>> {
    match v {
        Some(JsonView::Object(m)) => Some(m),
        _ => None,
    }
}

/// The snapshot that a record stands for.
pub open spec fn snapshot_of(v: JsonView) -> Option<SnapshotView> {
    let schema_version = read_uint(record_field(v, 0, "schema_version"@), u32::MAX as int);
    let room_id = read_text(record_field(v, 1, "room_id"@));
    let room_name = read_text(record_field(v, 2, "room_name"@));
    let process_id = read_text(record_field(v, 3, "process_id"@));
    let created_at = read_uint(record_field(v, 4, "created_at"@), u64::MAX as int);
    let saved_at = read_uint(record_field(v, 5, "saved_at"@), u64::MAX as int);
    let clock = read_uint(record_field(v, 6, "clock_elapsed_ms"@), u64::MAX as int);
    let options = record_field(v, 7, "options"@);
    let state = record_field(v, 8, "state"@);
    let internal = record_field(v, 9, "internal"@);
    let locked = read_flag(record_field(v, 11, "locked"@));
    let is_private = read_flag(record_field(v, 12, "is_private"@));
    let max_clients = read_opt_uint(record_field(v, 13, "max_clients"@), u32::MAX as int);
    let extra = read_map(record_field(v, 14, "filter_extra"@));
    let reconnections = read_reconnections(record_field(v, 15, "reconnections"@));
    let seats = read_seats(record_field(v, 16, "seats"@));
    if is_record(v, 17) && schema_version is Some && room_id is Some && room_name is Some
        && process_id is Some && created_at is Some && saved_at is Some && clock is Some
        && options is Some && state is Some && internal is Some && locked is Some
        && is_private is Some && max_clients is Some && extra is Some && reconnections is Some
        && seats is Some {
        Some(
            SnapshotView {
                schema_version: schema_version->Some_0 as u32,
                room_id: room_id->Some_0,
                room_name: room_name->Some_0,
                process_id: process_id->Some_0,
                created_at: created_at->Some_0 as u64,
                saved_at: saved_at->Some_0 as u64,
                clock_elapsed_ms: clock->Some_0 as u64,
                options: options->Some_0,
                state: state->Some_0,
                internal: internal->Some_0,
                metadata: read_opt(record_field(v, 10, "metadata"@)),
                locked: locked->Some_0,
                is_private: is_private->Some_0,
                max_clients: match max_clients->Some_0 {
                    Some(n) => Some(n as u32),
                    None => None,
                },
                filter_extra: extra->Some_0,
                reconnections: reconnections->Some_0,
                seats: seats->Some_0,
            },
        )
    } else {
        None
    }
}

/// No optional value of the snapshot is a null that is there: on disk that cannot
/// be told from one that is not there.
pub open spec fn storable(s: SnapshotView) -> bool {
    &&& s.metadata != Some(JsonView::Null)
    &&& forall|i: int|
        0 <= i < s.reconnections.len() ==> (#[trigger] s.reconnections[i]).auth != Some(
            JsonView::Null,
        ) && s.reconnections[i].user_data != Some(JsonView::Null)
    &&& forall|i: int|
        0 <= i < s.seats.len() ==> (#[trigger] s.seats[i]).auth != Some(JsonView::Null)
}

proof fn lemma_reconnections_read_back(rs: Seq<ReconnectionView>)
    requires
        forall|i: int|
            0 <= i < rs.len() ==> (#[trigger] rs[i]).auth != Some(JsonView::Null)
                && rs[i].user_data != Some(JsonView::Null),
    ensures
        reconnections_of(rs.map_values(|r: ReconnectionView| reconnection_json(r))) == Some(rs),
    decreases rs.len(),
{
    let js = rs.map_values(|r: ReconnectionView| reconnection_json(r));
    if rs.len() > 0 {
        let init = rs.drop_last();
        assert forall|i: int| 0 <= i < init.len() implies (#[trigger] init[i]).auth != Some(
            JsonView::Null,
        ) && init[i].user_data != Some(JsonView::Null) by {
            assert(init[i] == rs[i]);
        }
        lemma_reconnections_read_back(init);
        assert(js.drop_last() =~= init.map_values(|r: ReconnectionView| reconnection_json(r)));
        let r = rs[rs.len() - 1];
        assert(js.last() == reconnection_json(r));
        assert(reconnection_of(js.last()) == Some(r));
        assert(rs =~= init.push(r));
    } else {
        assert(rs =~= seq![]);
    }
}

proof fn lemma_seats_read_back(ss: Seq<SeatView>)
    requires
        forall|i: int| 0 <= i < ss.len() ==> (#[trigger] ss[i]).auth != Some(JsonView::Null),
    ensures
        seats_of(ss.map_values(|s: SeatView| seat_json(s))) == Some(ss),
    decreases ss.len(),
{
    let js = ss.map_values(|s: SeatView| seat_json(s));
    if ss.len() > 0 {
        let init = ss.drop_last();
        assert forall|i: int| 0 <= i < init.len() implies (#[trigger] init[i]).auth != Some(
            JsonView::Null,
        ) by {
            assert(init[i] == ss[i]);
        }
        lemma_seats_read_back(init);
        assert(js.drop_last() =~= init.map_values(|s: SeatView| seat_json(s)));
        let s = ss[ss.len() - 1];
        assert(js.last() == seat_json(s));
        assert(seat_of(js.last()) == Some(s));
        assert(ss =~= init.push(s));
    } else {
        assert(ss =~= seq![]);
    }
}

/// A snapshot that is storable is read back from its JSON as it was.
pub proof fn law_snapshot_reads_back(s: SnapshotView)
    requires
        storable(s),
    ensures
        snapshot_of(snapshot_json(s)) == Some(s),
{
    lemma_reconnections_read_back(s.reconnections);
    lemma_seats_read_back(s.seats);
}

fn opt_json(v: &Option<Json>) -> (r: Json)
    ensures
        r@ == or_null(option_view(*v)),
{
    match v {
        Some(j) => j.clone(),
        None => Json::Null,
    }
}

impl PersistedReconnection {
    fn to_json(&self) -> (r: Json)
        ensures
            r@ == reconnection_json(self@),
    {
        let expires: Json = match self.expires_at_ms {
            Some(n) => Json::Uint(n),
            None => Json::Null,
        };
        let mut items: Vec<Json> = Vec::new();
        items.push(Json::Str(self.session_id.clone()));
        items.push(Json::Str(self.token.clone()));
        items.push(expires);
        items.push(opt_json(&self.auth));
        items.push(opt_json(&self.user_data));
        proof {
            assert(values_view(items@) =~= reconnection_json(self@)->Array_0);
        }
        Json::array(items)
    }
}

impl PersistedSeat {
    fn to_json(&self) -> (r: Json)
        ensures
            r@ == seat_json(self@),
    {
        let mut items: Vec<Json> = Vec::new();
        items.push(Json::Str(self.session_id.clone()));
        items.push(self.options.clone());
        items.push(opt_json(&self.auth));
        items.push(Json::Uint(self.expires_at_ms));
        proof {
            assert(values_view(items@) =~= seat_json(self@)->Array_0);
        }
        Json::array(items)
    }
}

impl RoomSnapshot {
    /// The snapshot as the array of its fields.
    pub fn to_json(&self) -> (r: Json)
        ensures
            r@ == snapshot_json(self@),
    {
        let mut reconnections: Vec<Json> = Vec::new();
        let mut i: usize = 0;
        while i < self.reconnections.len()
            invariant
                i <= self.reconnections.len(),
                reconnections.len() == i,
                forall|k: int|
                    0 <= k < i ==> json_view(#[trigger] reconnections@[k]) == reconnection_json(
                        self.reconnections@[k]@,
                    ),
            decreases self.reconnections.len() - i,
        {
            reconnections.push(self.reconnections[i].to_json());
            i = i + 1;
        }
        let mut seats: Vec<Json> = Vec::new();
        let mut j: usize = 0;
        while j < self.seats.len()
            invariant
                j <= self.seats.len(),
                seats.len() == j,
                forall|k: int|
                    0 <= k < j ==> json_view(#[trigger] seats@[k]) == seat_json(self.seats@[k]@),
            decreases self.seats.len() - j,
        {
            seats.push(self.seats[j].to_json());
            j = j + 1;
        }
        let max_clients: Json = match self.max_clients {
            Some(n) => Json::Uint(n as u64),
            None => Json::Null,
        };
        proof {
            assert(Json::Array(reconnections)@->Array_0 =~= self@.reconnections.map_values(
                |r: ReconnectionView| reconnection_json(r),
            ));
            assert(Json::Array(seats)@->Array_0 =~= self@.seats.map_values(
                |s: SeatView| seat_json(s),
            ));
        }
        let mut items: Vec<Json> = Vec::new();
        items.push(Json::Uint(self.schema_version as u64));
        items.push(Json::Str(self.room_id.clone()));
        items.push(Json::Str(self.room_name.clone()));
        items.push(Json::Str(self.process_id.clone()));
        items.push(Json::Uint(self.created_at));
        items.push(Json::Uint(self.saved_at));
        items.push(Json::Uint(self.clock_elapsed_ms));
        items.push(self.options.clone());
        items.push(self.state.clone());
        items.push(self.internal.clone());
        items.push(opt_json(&self.metadata));
        items.push(Json::Bool(self.locked));
        items.push(Json::Bool(self.is_private));
        items.push(max_clients);
        items.push(Json::Object(clone_entries(&self.filter_extra)));
        items.push(Json::Array(reconnections));
        items.push(Json::Array(seats));
        proof {
            assert(values_view(items@) =~= snapshot_json(self@)->Array_0);
        }
        Json::array(items)
    }

    /// The snapshot that a record stands for.
    pub fn from_json(v: &Json) -> (r: Option<RoomSnapshot>)
        ensures
            match r {
                Some(s) => snapshot_of(v@) == Some(s@),
                None => snapshot_of(v@) is None,
            },
    {
        if !has_fields(v, 17) {
            return None;
        }
        let schema_version: u64 = uint_field(v, 0, "schema_version", u32::MAX as u64)?;
        let room_id: String = text_field(v, 1, "room_id")?;
        let room_name: String = text_field(v, 2, "room_name")?;
        let process_id: String = text_field(v, 3, "process_id")?;
        let created_at: u64 = uint_field(v, 4, "created_at", u64::MAX)?;
        let saved_at: u64 = uint_field(v, 5, "saved_at", u64::MAX)?;
        let clock_elapsed_ms: u64 = uint_field(v, 6, "clock_elapsed_ms", u64::MAX)?;
        let options: Json = value_field(v, 7, "options")?;
        let state: Json = value_field(v, 8, "state")?;
        let internal: Json = value_field(v, 9, "internal")?;
        let metadata: Option<Json> = opt_field(v, 10, "metadata");
        let locked: bool = flag_field(v, 11, "locked")?;
        let is_private: bool = flag_field(v, 12, "is_private")?;
        let max_clients: Option<u64> = opt_uint_field(v, 13, "max_clients", u32::MAX as u64)?;
        let filter_extra: Vec<(String, Json)> = match value_field(v, 14, "filter_extra")? {
            Json::Object(es) => es,
            _ => {
                return None;
            },
        };
        let reconnections: Vec<PersistedReconnection> = reconnections_from(
            &value_field(v, 15, "reconnections")?,
        )?;
        let seats: Vec<PersistedSeat> = seats_from(&value_field(v, 16, "seats")?)?;
        let max_clients: Option<u32> = match max_clients {
            Some(n) => Some(n as u32),
            None => None,
        };
        Some(
            RoomSnapshot {
                schema_version: schema_version as u32,
                room_id,
                room_name,
                process_id,
                created_at,
                saved_at,
                clock_elapsed_ms,
                options,
                state,
                internal,
                metadata,
                locked,
                is_private,
                max_clients,
                filter_extra,
                reconnections,
                seats,
            },
        )
    }
}

fn has_fields(v: &Json, n: usize) -> (r: bool)
    ensures
        r == is_record(v@, n as nat),
{
    match v {
        Json::Array(items) => items.len() == n,
        Json::Object(_) => true,
        _ => false,
    }
}

fn field<'a>(v: &'a Json, i: usize, name: &str) -> (r: Option<&'a Json>)
    ensures
        ref_view(r) == record_field(v@, i as nat, name@),
{
    match v {
        Json::Array(items) => if i < items.len() {
            Some(&items[i])
        } else {
            None
        },
        Json::Object(es) => lookup(es, name),
        _ => None,
    }
}

fn text_field(v: &Json, i: usize, name: &str) -> (r: Option<String>)
    ensures
        match r {
            Some(t) => read_text(record_field(v@, i as nat, name@)) == Some(t@),
            None => read_text(record_field(v@, i as nat, name@)) is None,
        },
{
    match field(v, i, name) {
        Some(Json::Str(s)) => Some(s.clone()),
        _ => None,
    }
}

fn uint_of(v: &Json, max: u64) -> (r: Option<u64>)
    ensures
        match r {
            Some(n) => read_uint(Some(v@), max as int) == Some(n as int),
            None => read_uint(Some(v@), max as int) is None,
        },
{
    match v {
        Json::Uint(n) => if *n <= max {
            Some(*n)
        } else {
            None
        },
        Json::Int(n) => if *n >= 0 && *n as u64 <= max {
            Some(*n as u64)
        } else {
            None
        },
        _ => None,
    }
}

fn uint_field(v: &Json, i: usize, name: &str, max: u64) -> (r: Option<u64>)
    ensures
        match r {
            Some(n) => read_uint(record_field(v@, i as nat, name@), max as int) == Some(n as int),
            None => read_uint(record_field(v@, i as nat, name@), max as int) is None,
        },
{
    match field(v, i, name) {
        Some(j) => uint_of(j, max),
        None => None,
    }
}

fn opt_uint_field(v: &Json, i: usize, name: &str, max: u64) -> (r: Option<Option<u64>>)
    ensures
        match r {
            Some(Some(n)) => read_opt_uint(record_field(v@, i as nat, name@), max as int) == Some(
                Some(n as int),
            ),
            Some(None) => read_opt_uint(record_field(v@, i as nat, name@), max as int) == Some(
                None::<int>,
            ),
            None => read_opt_uint(record_field(v@, i as nat, name@), max as int) is None,
        },
{
    match field(v, i, name) {
        None => Some(None),
        Some(Json::Null) => Some(None),
        Some(j) => match uint_of(j, max) {
            Some(n) => Some(Some(n)),
            None => None,
        },
    }
}

fn flag_field(v: &Json, i: usize, name: &str) -> (r: Option<bool>)
    ensures
        r == read_flag(record_field(v@, i as nat, name@)),
{
    match field(v, i, name) {
        Some(Json::Bool(b)) => Some(*b),
        _ => None,
    }
}

fn value_field(v: &Json, i: usize, name: &str) -> (r: Option<Json>)
    ensures
        option_view(r) == record_field(v@, i as nat, name@),
{
    match field(v, i, name) {
        Some(j) => Some(j.clone()),
        None => None,
    }
}

fn opt_field(v: &Json, i: usize, name: &str) -> (r: Option<Json>)
    ensures
        option_view(r) == read_opt(record_field(v@, i as nat, name@)),
{
    match field(v, i, name) {
        Some(Json::Null) => None,
        Some(j) => Some(j.clone()),
        None => None,
    }
}

fn reconnection_from(v: &Json) -> (r: Option<PersistedReconnection>)
    ensures
        match r {
            Some(p) => reconnection_of(v@) == Some(p@),
            None => reconnection_of(v@) is None,
        },
{
    if !has_fields(v, 5) {
        return None;
    }
    let session_id: String = text_field(v, 0, "session_id")?;
    let token: String = text_field(v, 1, "token")?;
    let expires_at_ms: Option<u64> = opt_uint_field(v, 2, "expires_at_ms", u64::MAX)?;
    Some(
        PersistedReconnection {
            session_id,
            token,
            expires_at_ms,
            auth: opt_field(v, 3, "auth"),
            user_data: opt_field(v, 4, "user_data"),
        },
    )
}

fn seat_from(v: &Json) -> (r: Option<PersistedSeat>)
    ensures
        match r {
            Some(p) => seat_of(v@) == Some(p@),
            None => seat_of(v@) is None,
        },
{
    if !has_fields(v, 4) {
        return None;
    }
    let session_id: String = text_field(v, 0, "session_id")?;
    let options: Json = value_field(v, 1, "options")?;
    let expires_at_ms: u64 = uint_field(v, 3, "expires_at_ms", u64::MAX)?;
    Some(PersistedSeat { session_id, options, auth: opt_field(v, 2, "auth"), expires_at_ms })
}

proof fn lemma_reconnections_fail(s: Seq<JsonView>, i: int)
    requires
        0 <= i < s.len(),
        reconnection_of(s[i]) is None,
    ensures
        reconnections_of(s) is None,
    decreases s.len(),
{
    if i < s.len() - 1 {
        lemma_reconnections_fail(s.drop_last(), i);
    }
}

proof fn lemma_seats_fail(s: Seq<JsonView>, i: int)
    requires
        0 <= i < s.len(),
        seat_of(s[i]) is None,
    ensures
        seats_of(s) is None,
    decreases s.len(),
{
    if i < s.len() - 1 {
        lemma_seats_fail(s.drop_last(), i);
    }
}

fn reconnections_from(v: &Json) -> (r: Option<Vec<PersistedReconnection>>)
    ensures
        match r {
            Some(rs) => read_reconnections(Some(v@)) == Some(
                rs@.map_values(|r: PersistedReconnection| r@),
            ),
            None => read_reconnections(Some(v@)) is None,
        },
{
    match v {
        Json::Array(items) => {
            let ghost s = v@->Array_0;
            let mut rs: Vec<PersistedReconnection> = Vec::new();
            let mut i: usize = 0;
            proof {
                assert(s =~= values_view(items@));
                assert(rs@.map_values(|r: PersistedReconnection| r@) =~= seq![]);
            }
            while i < items.len()
                invariant
                    i <= items.len(),
                    v@ == JsonView::Array(s),
                    s == values_view(items@),
                    reconnections_of(s.take(i as int)) == Some(
                        rs@.map_values(|r: PersistedReconnection| r@),
                    ),
                decreases items.len() - i,
            {
                proof {
                    assert(s.take(i + 1).drop_last() =~= s.take(i as int));
                }
                match reconnection_from(&items[i]) {
                    Some(p) => {
                        let ghost before = rs@;
                        rs.push(p);
                        proof {
                            assert(rs@.map_values(|r: PersistedReconnection| r@)
                                =~= before.map_values(|r: PersistedReconnection| r@).push(p@));
                        }
                    },
                    None => {
                        proof {
                            lemma_reconnections_fail(s, i as int);
                        }
                        return None;
                    },
                }
                i = i + 1;
            }
            proof {
                assert(s.take(s.len() as int) =~= s);
            }
            Some(rs)
        },
        _ => None,
    }
}

fn seats_from(v: &Json) -> (r: Option<Vec<PersistedSeat>>)
    ensures
        match r {
            Some(rs) => read_seats(Some(v@)) == Some(rs@.map_values(|s: PersistedSeat| s@)),
            None => read_seats(Some(v@)) is None,
        },
{
    match v {
        Json::Array(items) => {
            let ghost s = v@->Array_0;
            let mut rs: Vec<PersistedSeat> = Vec::new();
            let mut i: usize = 0;
            proof {
                assert(s =~= values_view(items@));
                assert(rs@.map_values(|s: PersistedSeat| s@) =~= seq![]);
            }
            while i < items.len()
                invariant
                    i <= items.len(),
                    v@ == JsonView::Array(s),
                    s == values_view(items@),
                    seats_of(s.take(i as int)) == Some(rs@.map_values(|s: PersistedSeat| s@)),
                decreases items.len() - i,
            {
                proof {
                    assert(s.take(i + 1).drop_last() =~= s.take(i as int));
                }
                match seat_from(&items[i]) {
                    Some(p) => {
                        let ghost before = rs@;
                        rs.push(p);
                        proof {
                            assert(rs@.map_values(|s: PersistedSeat| s@) =~= before.map_values(
                                |s: PersistedSeat| s@,
                            ).push(p@));
                        }
                    },
                    None => {
                        proof {
                            lemma_seats_fail(s, i as int);
                        }
                        return None;
                    },
                }
                i = i + 1;
            }
            proof {
                assert(s.take(s.len() as int) =~= s);
            }
            Some(rs)
        },
        _ => None,
    }
}

// ---------------------------------------------------------------------
// the envelope
// ---------------------------------------------------------------------

/// A number as four bytes, the most significant first.
pub open spec fn be_bytes(n: u32) -> Seq<u8> {
    seq![
        (n / 0x100_0000) as u8,
        (n / 0x1_0000 % 0x100) as u8,
        (n / 0x100 % 0x100) as u8,
        (n % 0x100) as u8,
    ]
}

/// The number that four bytes stand for, the most significant first.
pub open spec fn be_value(b: Seq<u8>) -> int {
    b[0] * 0x100_0000 + b[1] * 0x1_0000 + b[2] * 0x100 + b[3]
}

/// The first bytes of every snapshot: "CLRS".
pub open spec fn magic() -> Seq<u8> {
    seq![0x43u8, 0x4cu8, 0x52u8, 0x53u8]
}

/// `magic | version | checksum | payload`
pub open spec fn sealed(payload: Seq<u8>) -> Seq<u8> {
    magic() + be_bytes(ENVELOPE_VERSION) + be_bytes(crc32_of(payload)) + payload
}

/// The payload of an envelope, or what is wrong with it.
pub open spec fn opened(bytes: Seq<u8>) -> Result<Seq<u8>, Seq<char>> {
    if bytes.len() < 12 {
        Err("snapshot too short"@)
    } else if bytes.subrange(0, 4) != magic() {
        Err("bad snapshot magic"@)
    } else if be_value(bytes.subrange(4, 8)) > ENVELOPE_VERSION {
        Err(
            "unsupported snapshot envelope version "@ + decimal(
                be_value(bytes.subrange(4, 8)) as nat,
            ),
        )
    } else if be_value(bytes.subrange(8, 12)) != crc32_of(bytes.skip(12)) {
        Err("snapshot checksum mismatch"@)
    } else {
        Ok(bytes.skip(12))
    }
}

/// Four bytes written for a number are read back as it.
pub proof fn lemma_be_bytes(n: u32)
    ensures
        be_value(be_bytes(n)) == n,
{
    assert(n == (n / 0x100_0000) * 0x100_0000 + (n / 0x1_0000 % 0x100) * 0x1_0000 + (n / 0x100
        % 0x100) * 0x100 + n % 0x100);
}

/// Where the parts of an envelope stand.
proof fn lemma_parts(m: Seq<u8>, v: Seq<u8>, c: Seq<u8>, p: Seq<u8>)
    requires
        m.len() == 4,
        v.len() == 4,
        c.len() == 4,
    ensures
        (m + v + c + p).len() == 12 + p.len(),
        (m + v + c + p).subrange(0, 4) == m,
        (m + v + c + p).subrange(4, 8) == v,
        (m + v + c + p).subrange(8, 12) == c,
        (m + v + c + p).skip(12) == p,
        (m + v + c + p).take(12) == m + v + c,
{
    let s = m + v + c + p;
    assert(s.subrange(0, 4) =~= m);
    assert(s.subrange(4, 8) =~= v);
    assert(s.subrange(8, 12) =~= c);
    assert(s.skip(12) =~= p);
    assert(s.take(12) =~= m + v + c);
}

/// What was sealed is what opening gives.
pub proof fn law_open_sealed(payload: Seq<u8>)
    ensures
        opened(sealed(payload)) == Ok::<Seq<u8>, Seq<char>>(payload),
{
    lemma_be_bytes(ENVELOPE_VERSION);
    lemma_be_bytes(crc32_of(payload));
    lemma_parts(magic(), be_bytes(ENVELOPE_VERSION), be_bytes(crc32_of(payload)), payload);
}

/// A payload that took the place of the sealed one is refused unless its checksum
/// is the same.
pub proof fn law_changed_payload_refused(payload: Seq<u8>, changed: Seq<u8>)
    requires
        crc32_of(payload) != crc32_of(changed),
    ensures
        opened(sealed(payload).take(12) + changed) == Err::<Seq<u8>, Seq<char>>(
            "snapshot checksum mismatch"@,
        ),
{
    lemma_be_bytes(ENVELOPE_VERSION);
    lemma_be_bytes(crc32_of(payload));
    lemma_parts(magic(), be_bytes(ENVELOPE_VERSION), be_bytes(crc32_of(payload)), payload);
    lemma_parts(magic(), be_bytes(ENVELOPE_VERSION), be_bytes(crc32_of(payload)), changed);
}

/// A sealed snapshot with one byte changed, in the magic, the checksum or the
/// payload, is refused, and so is one that was cut within its first twelve bytes.
pub proof fn law_corruption_detected(payload: Seq<u8>, i: int, byte: u8, n: int)
    requires
        0 <= i < 4 || 8 <= i < sealed(payload).len(),
        sealed(payload)[i] != byte,
        0 <= n < 12,
    ensures
        opened(sealed(payload).update(i, byte)) is Err,
        decode_result(sealed(payload).update(i, byte)) is Err,
        opened(sealed(payload).take(n)) is Err,
        decode_result(sealed(payload).take(n)) is Err,
{
    let v = be_bytes(ENVELOPE_VERSION);
    let c = be_bytes(crc32_of(payload));
    lemma_be_bytes(ENVELOPE_VERSION);
    lemma_be_bytes(crc32_of(payload));
    lemma_parts(magic(), v, c, payload);
    let all = sealed(payload);
    let bad = all.update(i, byte);
    if i < 4 {
        assert(bad.subrange(0, 4)[i] == byte);
        assert(all.subrange(0, 4)[i] == all[i]);
    } else if i < 12 {
        let d = c.update(i - 8, byte);
        assert(all.subrange(8, 12)[i - 8] == all[i]);
        assert(bad =~= magic() + v + d + payload);
        lemma_parts(magic(), v, d, payload);
        assert(be_value(d) != be_value(c));
    } else {
        let p = payload.update(i - 12, byte);
        assert(all.skip(12)[i - 12] == all[i]);
        assert(bad =~= magic() + v + c + p);
        lemma_parts(magic(), v, c, p);
        law_changed_byte_detected(payload, i - 12, byte);
    }
}

fn push_be(out: &mut Vec<u8>, n: u32)
    ensures
        final(out)@ == old(out)@ + be_bytes(n),
{
    let ghost before = out@;
    out.push((n / 0x100_0000) as u8);
    out.push((n / 0x1_0000 % 0x100) as u8);
    out.push((n / 0x100 % 0x100) as u8);
    out.push((n % 0x100) as u8);
    proof {
        assert(out@ =~= before + be_bytes(n));
    }
}

/// Puts a payload into an envelope.
pub fn seal(payload: &Vec<u8>) -> (r: Vec<u8>)
    ensures
        r@ == sealed(payload@),
{
    let checksum: u32 = crc32(payload.as_slice());
    let mut out: Vec<u8> = Vec::new();
    out.push(0x43);
    out.push(0x4c);
    out.push(0x52);
    out.push(0x53);
    proof {
        assert(out@ =~= magic());
    }
    push_be(&mut out, ENVELOPE_VERSION);
    push_be(&mut out, checksum);
    out.extend_from_slice(payload.as_slice());
    proof {
        assert(out@ =~= sealed(payload@));
    }
    out
}

fn read_be(bytes: &[u8], at: usize) -> (r: u32)
    requires
        at + 4 <= bytes.len(),
    ensures
        r == be_value(bytes@.subrange(at as int, at + 4)),
{
    bytes[at] as u32 * 0x100_0000 + bytes[at + 1] as u32 * 0x1_0000 + bytes[at + 2] as u32 * 0x100
        + bytes[at + 3] as u32
}

/// Takes the payload out of an envelope, checking magic, version and checksum.
pub fn open(bytes: &[u8]) -> (r: Result<Vec<u8>, String>)
    ensures
        match r {
            Ok(p) => opened(bytes@) == Ok::<Seq<u8>, Seq<char>>(p@),
            Err(e) => opened(bytes@) == Err::<Seq<u8>, Seq<char>>(e@),
        },
{
    if bytes.len() < 12 {
        return Err("snapshot too short".to_owned());
    }
    let marked: bool = bytes[0] == 0x43 && bytes[1] == 0x4c && bytes[2] == 0x52 && bytes[3] == 0x53;
    proof {
        assert(bytes@.subrange(0, 4).len() == 4);
        if marked {
            assert(bytes@.subrange(0, 4) =~= magic());
        } else {
            assert(bytes@.subrange(0, 4)[0] == bytes@[0]);
            assert(bytes@.subrange(0, 4)[1] == bytes@[1]);
            assert(bytes@.subrange(0, 4)[2] == bytes@[2]);
            assert(bytes@.subrange(0, 4)[3] == bytes@[3]);
        }
    }
    if !marked {
        return Err("bad snapshot magic".to_owned());
    }
    let version: u32 = read_be(bytes, 4);
    if version > ENVELOPE_VERSION {
        let digits: String = decimal_text(version as u64);
        return Err(joined("unsupported snapshot envelope version ", digits.as_str()));
    }
    let expected: u32 = read_be(bytes, 8);
    let mut payload: Vec<u8> = Vec::new();
    let mut i: usize = 12;
    while i < bytes.len()
        invariant
            12 <= i <= bytes.len(),
            payload@ == bytes@.subrange(12, i as int),
        decreases bytes.len() - i,
    {
        payload.push(bytes[i]);
        proof {
            assert(bytes@.subrange(12, i + 1) =~= bytes@.subrange(12, i as int).push(
                bytes@[i as int],
            ));
        }
        i = i + 1;
    }
    proof {
        assert(payload@ =~= bytes@.skip(12));
    }
    if crc32(payload.as_slice()) != expected {
        return Err("snapshot checksum mismatch".to_owned());
    }
    Ok(payload)
}

/// The snapshot that bytes on disk hold, given what their payload was read as.
pub open spec fn payload_result(v: Option<JsonView>) -> Result<SnapshotView, Seq<char>> {
    match v {
        Some(j) => match snapshot_of(j) {
            Some(s) => Ok(s),
            None => Err("invalid snapshot payload"@),
        },
        None => Err("invalid snapshot payload"@),
    }
}

/// The snapshot that bytes on disk hold, or what is wrong with them.
pub open spec fn decode_result(bytes: Seq<u8>) -> Result<SnapshotView, Seq<char>> {
    match opened(bytes) {
        Ok(p) => payload_result(unpacked(p)),
        Err(e) => Err(e),
    }
}

/// A result with a snapshot, read through its views.
pub open spec fn snapshot_result(r: Result<RoomSnapshot, String>) -> Result<
    SnapshotView,
    Seq<char>,
> {
    match r {
        Ok(s) => Ok(s@),
        Err(e) => Err(e@),
    }
}

/// Serializes a snapshot into the on-disk envelope. A storable snapshot that fits
/// is decoded as it was.
pub fn encode_snapshot(snapshot: &RoomSnapshot) -> (r: Vec<u8>)
    ensures
        r@ == sealed(packed(snapshot_json(snapshot@))),
        storable(snapshot@) && fits(snapshot_json(snapshot@), max_depth()) ==> decode_result(r@)
            == Ok::<SnapshotView, Seq<char>>(snapshot@),
{
    let json: Json = snapshot.to_json();
    let payload: Vec<u8> = pack(&json);
    proof {
        law_open_sealed(payload@);
        if storable(snapshot@) {
            law_snapshot_reads_back(snapshot@);
        }
    }
    seal(&payload)
}

/// The snapshot of a payload, given what it was read as.
pub fn interpret_payload(v: Option<Json>) -> (r: Result<RoomSnapshot, String>)
    ensures
        snapshot_result(r) == payload_result(option_view(v)),
{
    match v {
        Some(j) => match RoomSnapshot::from_json(&j) {
            Some(s) => Ok(s),
            None => Err("invalid snapshot payload".to_owned()),
        },
        None => Err("invalid snapshot payload".to_owned()),
    }
}

/// Parses a snapshot envelope, validating magic, version and checksum.
pub fn decode_snapshot(bytes: &[u8]) -> (r: Result<RoomSnapshot, String>)
    ensures
        snapshot_result(r) == decode_result(bytes@),
{
    match open(bytes) {
        Ok(payload) => interpret_payload(unpack(payload.as_slice())),
        Err(e) => Err(e),
    }
}


// ---------------------------------------------------------------------
// stores and writers
// ---------------------------------------------------------------------

/// Storage backend for room snapshots.
pub trait SnapshotStore {
    /// Atomically persists the serialized snapshot for `room_id`.
    fn save(&self, room_id: &str, bytes: &[u8]) -> Result<(), String>;

    /// Loads the serialized snapshot, if any.
    fn load(&self, room_id: &str) -> Option<Vec<u8>>;

    /// Deletes a snapshot (missing file is not an error).
    fn delete(&self, room_id: &str) -> Result<(), String>;

    /// All persisted room ids.
    fn list_room_ids(&self) -> Vec<String>;

    /// Moves a corrupt snapshot out of the way. Defaults to deleting it.
    fn quarantine(&self, room_id: &str, reason: &str) {
        let _deleted: Result<(), String> = self.delete(room_id);
    }
}

/// A character that stays as it is in a file name.
pub open spec fn is_safe_char(c: char) -> bool {
    ('a' <= c && c <= 'z') || ('A' <= c && c <= 'Z') || ('0' <= c && c <= '9') || c == '-' || c
        == '_'
}

/// A room id as a safe file name component: every other character becomes an
/// underscore.
pub open spec fn sanitized(room_id: Seq<char>) -> Seq<char> {
    room_id.map_values(
        |c: char|
            if is_safe_char(c) {
                c
            } else {
                '_'
            },
    )
}

/// Sanitizes a room id into a safe file name component.
pub fn sanitize(room_id: &str) -> (r: String)
    ensures
        r@ == sanitized(room_id@),
{
    let v: Vec<char> = chars_of(room_id);
    let mut r: String = String::new();
    let mut i: usize = 0;
    while i < v.len()
        invariant
            i <= v.len(),
            r@ == sanitized(v@.take(i as int)),
        decreases v.len() - i,
    {
        let c: char = v[i];
        let safe: bool = ('a' <= c && c <= 'z') || ('A' <= c && c <= 'Z') || ('0' <= c && c <= '9')
            || c == '-' || c == '_';
        if safe {
            r.push(c);
        } else {
            r.push('_');
        }
        proof {
            assert(v@.take(i + 1) =~= v@.take(i as int).push(c));
            assert(r@ =~= sanitized(v@.take(i + 1)));
        }
        i = i + 1;
    }
    proof {
        assert(v@.take(v@.len() as int) =~= v@);
    }
    r
}

/// A sanitized id holds safe characters only, is as long as the id, and an id of
/// safe characters, as generated ids are, is its own file name.
pub proof fn law_sanitized_is_safe(room_id: Seq<char>)
    ensures
        sanitized(room_id).len() == room_id.len(),
        forall|i: int|
            0 <= i < sanitized(room_id).len() ==> is_safe_char(#[trigger] sanitized(room_id)[i]),
        (forall|i: int| 0 <= i < room_id.len() ==> is_safe_char(#[trigger] room_id[i]))
            ==> sanitized(room_id) == room_id,
        sanitized(sanitized(room_id)) == sanitized(room_id),
        is_id(room_id) ==> sanitized(room_id) == room_id,
{
    if forall|i: int| 0 <= i < room_id.len() ==> is_safe_char(#[trigger] room_id[i]) {
        assert(sanitized(room_id) =~= room_id);
    }
    assert(sanitized(sanitized(room_id)) =~= sanitized(room_id));
    if is_id(room_id) {
        assert forall|i: int| 0 <= i < room_id.len() implies is_safe_char(#[trigger] room_id[i]) by {
            assert(is_id_char(room_id[i]));
        }
    }
}

/// A name in a directory.
pub open spec fn path_in(dir: Seq<char>, name: Seq<char>) -> Seq<char> {
    if dir.len() == 0 {
        name
    } else if dir.last() == '/' {
        dir + name
    } else {
        dir + seq!['/'] + name
    }
}

/// The name of a room's snapshot file.
pub open spec fn snapshot_name(room_id: Seq<char>) -> Seq<char> {
    sanitized(room_id) + ".snap"@
}

/// Where a file-backed store keeps its snapshots: one `<room_id>.snap` file per
/// room.
#[derive(Debug)]
pub struct FileSnapshotStore {
    dir: String,
}

impl FileSnapshotStore {
    /// The snapshot directory.
    pub closed spec fn dir(self) -> Seq<char> {
        self.dir@
    }

    /// Uses `dir` as the snapshot directory.
    pub fn new(dir: String) -> (r: Self)
        ensures
            r.dir() == dir@,
    {
        FileSnapshotStore { dir }
    }

    pub fn path(&self) -> (r: &str)
        ensures
            r@ == self.dir(),
    {
        self.dir.as_str()
    }

    fn in_dir(&self, name: &str) -> (r: String)
        ensures
            r@ == path_in(self.dir(), name@),
    {
        let v: Vec<char> = chars_of(self.dir.as_str());
        let mut r: String = self.dir.clone();
        if v.len() > 0 && v[v.len() - 1] != '/' {
            r.push('/');
        }
        r.append(name);
        proof {
            assert(self.dir().len() == 0 ==> r@ =~= name@);
            assert(r@ =~= path_in(self.dir(), name@));
        }
        r
    }

    /// The file of a room's snapshot.
    pub fn file_path(&self, room_id: &str) -> (r: String)
        ensures
            r@ == path_in(self.dir(), snapshot_name(room_id@)),
    {
        let mut name: String = sanitize(room_id);
        name.append(".snap");
        self.in_dir(name.as_str())
    }

    /// The file that a snapshot is written to before it is renamed.
    pub fn temp_path(&self, room_id: &str) -> (r: String)
        ensures
            r@ == path_in(self.dir(), "."@ + sanitized(room_id@) + ".tmp"@),
    {
        let stem: String = sanitize(room_id);
        let mut name: String = joined(".", stem.as_str());
        name.append(".tmp");
        self.in_dir(name.as_str())
    }

    /// The file that a corrupt snapshot is moved to.
    pub fn quarantine_path(&self, room_id: &str, at_ms: u64) -> (r: String)
        ensures
            r@ == path_in(
                self.dir(),
                sanitized(room_id@) + ".corrupt-"@ + decimal(at_ms as nat),
            ),
    {
        let mut name: String = sanitize(room_id);
        name.append(".corrupt-");
        let digits: String = decimal_text(at_ms);
        name.append(digits.as_str());
        self.in_dir(name.as_str())
    }

    /// The room id that a file's name stands for, if it is a snapshot's.
    pub fn room_id_of(name: &str) -> (r: Option<String>)
        ensures
            match r {
                Some(id) => name@ == id@ + ".snap"@,
                None => forall|id: Seq<char>| name@ != #[trigger] (id + ".snap"@),
            },
    {
        let v: Vec<char> = chars_of(name);
        proof {
            reveal_strlit(".snap");
        }
        let n: usize = v.len();
        if n >= 5 && v[n - 5] == '.' && v[n - 4] == 's' && v[n - 3] == 'n' && v[n - 2] == 'a' && v[n
            - 1] == 'p' {
            let id: String = slice_text(&v, 0, n - 5);
            proof {
                assert(name@ =~= id@ + ".snap"@);
            }
            Some(id)
        } else {
            proof {
                assert forall|id: Seq<char>| name@ != #[trigger] (id + ".snap"@) by {
                    let whole = id + ".snap"@;
                    if name@ == whole {
                        assert(whole.len() == id.len() + 5);
                        assert(whole[n - 5] == ".snap"@[0]);
                        assert(whole[n - 4] == ".snap"@[1]);
                        assert(whole[n - 3] == ".snap"@[2]);
                        assert(whole[n - 2] == ".snap"@[3]);
                        assert(whole[n - 1] == ".snap"@[4]);
                    }
                }
            }
            None
        }
    }
}

/// What waits for its turn at the snapshot writer.
#[derive(Debug)]
pub enum SnapshotOp {
    Save(String, Vec<u8>),
    Delete(String),
    /// Somebody waits until everything before this has been carried out.
    Flush(u64),
}

/// What a waiting write stands for.
pub enum OpView {
    Save(Seq<char>, Seq<u8>),
    Delete(Seq<char>),
    Flush(u64),
}

impl View for SnapshotOp {
    type V = OpView;

    open spec fn view(&self) -> OpView {
        match self {
            SnapshotOp::Save(id, bytes) => OpView::Save(id@, bytes@),
            SnapshotOp::Delete(id) => OpView::Delete(id@),
            SnapshotOp::Flush(waiter) => OpView::Flush(*waiter),
        }
    }
}

/// Waiting writes, read through their views.
pub open spec fn write_views(ops: Seq<SnapshotOp>) -> Seq<OpView> {
    ops.map_values(|o: SnapshotOp| o@)
}

/// What a store holds after writes, one after the other.
pub open spec fn stored(start: Map<Seq<char>, Seq<u8>>, ops: Seq<OpView>) -> Map<
    Seq<char>,
    Seq<u8>,
>
    decreases ops.len(),
{
    if ops.len() == 0 {
        start
    } else {
        let before = stored(start, ops.drop_last());
        match ops.last() {
            OpView::Save(id, bytes) => before.insert(id, bytes),
            OpView::Delete(id) => before.remove(id),
            OpView::Flush(_) => before,
        }
    }
}

/// The room that is written, if any is.
pub open spec fn op_room(op: OpView) -> Option<Seq<char>> {
    match op {
        OpView::Save(id, _) => Some(id),
        OpView::Delete(id) => Some(id),
        OpView::Flush(_) => None,
    }
}

/// Of the writes of one room the last one counts, whatever other rooms write
/// behind it.
pub proof fn law_last_write_counts(
    start: Map<Seq<char>, Seq<u8>>,
    before: Seq<OpView>,
    op: OpView,
    after: Seq<OpView>,
)
    requires
        forall|i: int| 0 <= i < after.len() ==> op_room(#[trigger] after[i]) != op_room(op),
    ensures
        match op {
            OpView::Save(id, bytes) => stored(start, before.push(op) + after).dom().contains(id)
                && stored(start, before.push(op) + after)[id] == bytes,
            OpView::Delete(id) => !stored(start, before.push(op) + after).dom().contains(id),
            OpView::Flush(_) => true,
        },
    decreases after.len(),
{
    let all = before.push(op) + after;
    if after.len() == 0 {
        assert(all.drop_last() =~= before);
    } else {
        let rest = after.drop_last();
        assert forall|i: int| 0 <= i < rest.len() implies op_room(#[trigger] rest[i]) != op_room(
            op,
        ) by {
            assert(rest[i] == after[i]);
        }
        law_last_write_counts(start, before, op, rest);
        assert(all.drop_last() =~= before.push(op) + rest);
        assert(op_room(after[after.len() - 1]) != op_room(op));
    }
}

/// What a snapshot writer stands for: what waits, in order, and the write that the
/// store is at: whether it saves, and which room.
pub struct WriterView {
    pub queue: Seq<OpView>,
    pub underway: Option<(bool, Seq<char>)>,
}

/// A writer that has nothing to do.
pub open spec fn idle_writer() -> WriterView {
    WriterView { queue: seq![], underway: None }
}

/// What is said of a write that failed.
pub open spec fn failed_write(save: bool, room_id: Seq<char>, e: Seq<char>) -> Seq<char> {
    if save {
        "snapshot save for "@ + room_id + " failed: "@ + e
    } else {
        "snapshot delete for "@ + room_id + " failed: "@ + e
    }
}

/// The write that the store is at after it was handed `op`.
pub open spec fn write_begun(op: OpView) -> Option<(bool, Seq<char>)> {
    match op {
        OpView::Save(id, _) => Some((true, id)),
        OpView::Delete(id) => Some((false, id)),
        OpView::Flush(_) => None,
    }
}

/// The writer's next step, given what came of the write that the store was at: the
/// writer after it, what is said of a failure, and what is to be done next. While
/// the store is at a write nothing else is handed out; a write that failed is over
/// like any other.
pub open spec fn writer_stepped(w: WriterView, outcome: Option<Result<(), Seq<char>>>) -> (
    WriterView,
    Option<Seq<char>>,
    Option<OpView>,
) {
    if w.underway is Some && outcome is None {
        (w, None, None)
    } else {
        let said = match (w.underway, outcome) {
            (Some(u), Some(Err(e))) => Some(failed_write(u.0, u.1, e)),
            _ => None,
        };
        if w.queue.len() == 0 {
            (idle_writer(), said, None)
        } else {
            (
                WriterView {
                    queue: w.queue.subrange(1, w.queue.len() as int),
                    underway: write_begun(w.queue[0]),
                },
                said,
                Some(w.queue[0]),
            )
        }
    }
}

/// Funnels snapshot writes into one queue, which keeps the writes of each room in
/// order and disk I/O off the room.
#[derive(Debug)]
pub struct SnapshotWriter {
    queue: VecDeque<SnapshotOp>,
    underway: Option<(bool, String)>,
}

impl View for SnapshotWriter {
    type V = WriterView;

    closed spec fn view(&self) -> WriterView {
        WriterView {
            queue: write_views(self.queue@),
            underway: match self.underway {
                Some(u) => Some((u.0, u.1@)),
                None => None,
            },
        }
    }
}

/// What came of a write, read through its view.
pub open spec fn outcome_view(outcome: Option<Result<(), String>>) -> Option<
    Result<(), Seq<char>>,
> {
    match outcome {
        Some(Ok(())) => Some(Ok(())),
        Some(Err(e)) => Some(Err(e@)),
        None => None,
    }
}

impl SnapshotWriter {
    pub fn new() -> (r: Self)
        ensures
            r@ == idle_writer(),
    {
        let r = SnapshotWriter { queue: VecDeque::new(), underway: None };
        proof {
            assert(r@.queue =~= seq![]);
        }
        r
    }

    pub fn save(&mut self, room_id: &str, bytes: Vec<u8>)
        ensures
            final(self)@ == (WriterView {
                queue: old(self)@.queue.push(OpView::Save(room_id@, bytes@)),
                ..old(self)@
            }),
    {
        self.put(SnapshotOp::Save(room_id.to_owned(), bytes));
    }

    pub fn delete(&mut self, room_id: &str)
        ensures
            final(self)@ == (WriterView {
                queue: old(self)@.queue.push(OpView::Delete(room_id@)),
                ..old(self)@
            }),
    {
        self.put(SnapshotOp::Delete(room_id.to_owned()));
    }

    /// Has `waiter` told once everything that waits now has been carried out.
    pub fn flush(&mut self, waiter: u64)
        ensures
            final(self)@ == (WriterView {
                queue: old(self)@.queue.push(OpView::Flush(waiter)),
                ..old(self)@
            }),
    {
        self.put(SnapshotOp::Flush(waiter));
    }

    fn put(&mut self, op: SnapshotOp)
        ensures
            final(self)@ == (WriterView { queue: old(self)@.queue.push(op@), ..old(self)@ }),
    {
        let ghost before = self.queue@;
        self.queue.push_back(op);
        proof {
            assert(write_views(self.queue@) =~= write_views(before).push(op@));
        }
    }

    /// Takes what came of the write that the store was at, if it was at one, and
    /// hands out what is to be done next. Returns what is to be said of a failure
    /// too.
    pub fn next(&mut self, outcome: Option<Result<(), String>>) -> (r: (
        Option<String>,
        Option<SnapshotOp>,
    ))
        ensures
            ({
                let (w, said, op) = writer_stepped(old(self)@, outcome_view(outcome));
                &&& final(self)@ == w
                &&& text_option(r.0) == said
                &&& op == match r.1 {
                    Some(op) => Some(op@),
                    None => None,
                }
            }),
    {
        if self.underway.is_some() && outcome.is_none() {
            return (None, None);
        }
        let said: Option<String> = match (&self.underway, outcome) {
            (Some((save, id)), Some(Err(e))) => {
                let kind: &str = if *save {
                    "snapshot save for "
                } else {
                    "snapshot delete for "
                };
                let mut text: String = joined(kind, id.as_str());
                text.append(" failed: ");
                text.append(e.as_str());
                Some(text)
            },
            _ => None,
        };
        let ghost before = self.queue@;
        let op: Option<SnapshotOp> = self.queue.pop_front();
        self.underway = match &op {
            Some(SnapshotOp::Save(id, _)) => Some((true, id.clone())),
            Some(SnapshotOp::Delete(id)) => Some((false, id.clone())),
            _ => None,
        };
        proof {
            if before.len() > 0 {
                assert(write_views(self.queue@) =~= write_views(before).subrange(
                    1,
                    before.len() as int,
                ));
                assert(write_views(before)[0] == before[0]@);
            } else {
                assert(self@.queue =~= seq![]);
            }
        }
        (said, op)
    }
}

/// What happens at a snapshot writer: something is queued, or it takes a step.
pub enum WriterEvent {
    Queue(OpView),
    Step(Option<Result<(), Seq<char>>>),
}

/// The writer after events, one after the other, and what it has handed out.
pub open spec fn writer_run(events: Seq<WriterEvent>) -> (WriterView, Seq<OpView>)
    decreases events.len(),
{
    if events.len() == 0 {
        (idle_writer(), seq![])
    } else {
        let (w, given) = writer_run(events.drop_last());
        match events.last() {
            WriterEvent::Queue(op) => (WriterView { queue: w.queue.push(op), ..w }, given),
            WriterEvent::Step(outcome) => {
                let (after, _, op) = writer_stepped(w, outcome);
                (
                    after,
                    match op {
                        Some(op) => given.push(op),
                        None => given,
                    },
                )
            },
        }
    }
}

/// What was queued in the course of events, in order.
pub open spec fn queued(events: Seq<WriterEvent>) -> Seq<OpView>
    decreases events.len(),
{
    if events.len() == 0 {
        seq![]
    } else {
        match events.last() {
            WriterEvent::Queue(op) => queued(events.drop_last()).push(op),
            WriterEvent::Step(_) => queued(events.drop_last()),
        }
    }
}

/// What was handed out and is over: all of it but the write that the store is at.
pub open spec fn carried_out(events: Seq<WriterEvent>) -> Seq<OpView> {
    let (w, given) = writer_run(events);
    if w.underway is Some {
        given.drop_last()
    } else {
        given
    }
}

/// What is handed out is what was queued, in the order in which it was queued and
/// each once; what is not handed out yet still waits. What comes of the writes makes
/// no difference.
pub proof fn law_writes_once_in_order(events: Seq<WriterEvent>)
    ensures
        writer_run(events).1 + writer_run(events).0.queue == queued(events),
        writer_run(events).0.underway is Some ==> writer_run(events).1.len() > 0,
    decreases events.len(),
{
    let (w, given) = writer_run(events);
    if events.len() > 0 {
        law_writes_once_in_order(events.drop_last());
        let (before, early) = writer_run(events.drop_last());
        match events.last() {
            WriterEvent::Queue(op) => {
                assert(given + w.queue =~= (early + before.queue).push(op));
            },
            WriterEvent::Step(_) => {
                assert(given + w.queue =~= early + before.queue);
            },
        }
    } else {
        assert(given + w.queue =~= queued(events));
    }
}

proof fn lemma_queued_parts(a: Seq<WriterEvent>, b: Seq<WriterEvent>)
    ensures
        queued(a + b) == queued(a) + queued(b),
    decreases b.len(),
{
    if b.len() == 0 {
        assert(a + b =~= a);
        assert(queued(a) + queued(b) =~= queued(a));
    } else {
        lemma_queued_parts(a, b.drop_last());
        assert((a + b).drop_last() =~= a + b.drop_last());
        assert(queued(a + b) =~= queued(a) + queued(b));
    }
}

/// Once a flush is answered, everything that was queued before it has been carried
/// out.
pub proof fn law_flush_waits(before: Seq<WriterEvent>, waiter: u64, after: Seq<WriterEvent>)
    requires
        writer_run(before.push(WriterEvent::Queue(OpView::Flush(waiter))) + after).1.len() > queued(
            before,
        ).len(),
    ensures
        ({
            let events = before.push(WriterEvent::Queue(OpView::Flush(waiter))) + after;
            &&& writer_run(events).1[queued(before).len() as int] == OpView::Flush(waiter)
            &&& queued(before).is_prefix_of(carried_out(events))
        }),
{
    let first = before.push(WriterEvent::Queue(OpView::Flush(waiter)));
    let events = first + after;
    let (w, given) = writer_run(events);
    let n = queued(before).len() as int;
    assert(first.drop_last() =~= before);
    lemma_queued_parts(first, after);
    law_writes_once_in_order(events);
    let all = queued(before).push(OpView::Flush(waiter)) + queued(after);
    assert(given + w.queue == all);
    assert(given[n] == (given + w.queue)[n]);
    assert(all[n] == OpView::Flush(waiter));
    let done = carried_out(events);
    assert forall|i: int| 0 <= i < n implies done[i] == #[trigger] queued(before)[i] by {
        assert(done[i] == given[i]);
        assert(given[i] == (given + w.queue)[i]);
        assert(all[i] == queued(before)[i]);
    }
    assert(done.take(n) =~= queued(before));
}

/// Steps that follow each other, each told what came of the last write.
pub open spec fn told_steps(outcomes: Seq<Result<(), Seq<char>>>) -> Seq<WriterEvent> {
    outcomes.map_values(|o: Result<(), Seq<char>>| WriterEvent::Step(Some(o)))
}

proof fn lemma_writer_goes_on(events: Seq<WriterEvent>, outcomes: Seq<Result<(), Seq<char>>>)
    ensures
        ({
            let before = writer_run(events).0.queue.len();
            let w = writer_run(events + told_steps(outcomes)).0;
            &&& outcomes.len() <= before ==> w.queue.len() == before - outcomes.len()
            &&& outcomes.len() > before ==> w == idle_writer()
        }),
        queued(events + told_steps(outcomes)) == queued(events),
    decreases outcomes.len(),
{
    let steps = told_steps(outcomes);
    if outcomes.len() == 0 {
        assert(events + steps =~= events);
    } else {
        let rest = outcomes.drop_last();
        lemma_writer_goes_on(events, rest);
        assert((events + steps).drop_last() =~= events + told_steps(rest));
        assert((events + steps).last() == WriterEvent::Step(Some(outcomes.last())));
        let w = writer_run(events + told_steps(rest)).0;
        if rest.len() >= writer_run(events).0.queue.len() {
            assert(w.queue.len() == 0);
        }
    }
}

/// A writer that goes on taking steps carries everything out that was queued, once
/// and in order, whichever of the writes fail.
pub proof fn law_failed_writes_stop_nothing(
    events: Seq<WriterEvent>,
    outcomes: Seq<Result<(), Seq<char>>>,
)
    requires
        outcomes.len() > writer_run(events).0.queue.len(),
    ensures
        carried_out(events + told_steps(outcomes)) == queued(events),
{
    let all = events + told_steps(outcomes);
    lemma_writer_goes_on(events, outcomes);
    law_writes_once_in_order(all);
    assert(writer_run(all).1 + writer_run(all).0.queue =~= writer_run(all).1);
}

/// Persistence configuration for a server or a room type.
#[derive(Debug, Clone, Copy)]
pub struct PersistenceConfig {
    /// Minimum time between automatic snapshot writes, in milliseconds.
    pub auto_save_interval: u64,
    /// Write a final snapshot when a room is disposed.
    pub save_on_dispose: bool,
    /// Delete the snapshot when a room is disposed (overrides
    /// `save_on_dispose`).
    pub delete_on_dispose: bool,
}

impl PersistenceConfig {
    /// Writes at most once a second and once more at the end, and keeps the
    /// snapshot, so that rooms remain resumable across restarts.
    pub fn new() -> (r: Self)
        ensures
            r == (PersistenceConfig {
                auto_save_interval: 1000,
                save_on_dispose: true,
                delete_on_dispose: false,
            }),
    {
        PersistenceConfig {
            auto_save_interval: 1000,
            save_on_dispose: true,
            delete_on_dispose: false,
        }
    }

    pub fn auto_save_interval(self, interval: u64) -> (r: Self)
        ensures
            r == (PersistenceConfig { auto_save_interval: interval, ..self }),
    {
        PersistenceConfig { auto_save_interval: interval, ..self }
    }

    pub fn save_on_dispose(self, save: bool) -> (r: Self)
        ensures
            r == (PersistenceConfig { save_on_dispose: save, ..self }),
    {
        PersistenceConfig { save_on_dispose: save, ..self }
    }

    pub fn delete_on_dispose(self, delete: bool) -> (r: Self)
        ensures
            r == (PersistenceConfig { delete_on_dispose: delete, ..self }),
    {
        PersistenceConfig { delete_on_dispose: delete, ..self }
    }
}

}
