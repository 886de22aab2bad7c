//! What a snapshot is on disk.

use crate::checksum::crc32_of;
use crate::json::JsonView;
use crate::server_laws::member;
use crate::snapshot::{
    be_bytes, opened, path_in, reconnection_json, reconnection_of, sealed, seat_json, seat_of,
    snapshot_json, snapshot_name, snapshot_of, writer_stepped, OpView, ReconnectionView, SeatView,
    SnapshotView, WriterView,
};
use vstd::prelude::*;

verus! {

/// A snapshot on disk starts with the letters CLRS and the version, one; then come the
/// checksum of the payload and the payload itself.
pub proof fn law_envelope_layout(payload: Seq<u8>)
    ensures
        ({
            let b = sealed(payload);
            &&& b.len() == payload.len() + 12
            &&& b[0] == 67 && b[1] == 76 && b[2] == 82 && b[3] == 83
            &&& b[4] == 0 && b[5] == 0 && b[6] == 0 && b[7] == 1
            &&& b[8] * 16777216 + b[9] * 65536 + b[10] * 256 + b[11] == crc32_of(payload)
            &&& b.skip(12) == payload
        }),
{
    let b = sealed(payload);
    let n = crc32_of(payload);
    assert(b.skip(12) =~= payload);
    assert(b[8] == be_bytes(n)[0]);
    assert(b[9] == be_bytes(n)[1]);
    assert(b[10] == be_bytes(n)[2]);
    assert(b[11] == be_bytes(n)[3]);
}

/// Bytes are opened exactly where they start with the letters, a version that is known
/// and the checksum of what follows; and what follows is the payload.
pub proof fn law_what_is_opened(b: Seq<u8>)
    ensures
        opened(b) is Ok <==> b.len() >= 12 && b[0] == 67 && b[1] == 76 && b[2] == 82 && b[3] == 83
            && b[4] * 16777216 + b[5] * 65536 + b[6] * 256 + b[7] <= 1 && b[8] * 16777216 + b[9]
            * 65536 + b[10] * 256 + b[11] == crc32_of(b.skip(12)),
        opened(b) matches Ok(p) ==> p == b.skip(12),
{
    if b.len() >= 12 {
        let head = b.subrange(0, 4);
        if b[0] == 67 && b[1] == 76 && b[2] == 82 && b[3] == 83 {
            assert(head =~= crate::snapshot::magic());
        } else if head == crate::snapshot::magic() {
            assert(head[0] == 67 && head[1] == 76 && head[2] == 82 && head[3] == 83);
        }
    }
}

/// A snapshot is written as the array of its seventeen fields, in a fixed order.
pub proof fn law_fields_of_snapshot(s: SnapshotView)
    ensures
        snapshot_json(s) matches JsonView::Array(a) && a.len() == 17 && a[0] == JsonView::Int(
            s.schema_version as int,
        ) && a[1] == JsonView::Str(s.room_id) && a[2] == JsonView::Str(s.room_name) && a[3]
            == JsonView::Str(s.process_id) && a[4] == JsonView::Int(s.created_at as int) && a[5]
            == JsonView::Int(s.saved_at as int) && a[6] == JsonView::Int(
            s.clock_elapsed_ms as int,
        ) && a[7] == s.options && a[8] == s.state && a[9] == s.internal && (s.metadata matches Some(
            m,
        ) ==> a[10] == m) && (s.metadata is None ==> a[10] is Null) && a[11] == JsonView::Bool(
            s.locked,
        ) && a[12] == JsonView::Bool(s.is_private) && (s.max_clients matches Some(n) ==> a[13]
            == JsonView::Int(n as int)) && (s.max_clients is None ==> a[13] is Null) && a[14]
            == JsonView::Object(s.filter_extra) && (a[15] matches JsonView::Array(rs) && rs.len()
            == s.reconnections.len()) && (a[16] matches JsonView::Array(ss) && ss.len()
            == s.seats.len()),
{
}

/// A reconnection is written as session, token, deadline, auth and user data, and a seat
/// as session, options, auth and deadline.
pub proof fn law_fields_of_waiting_clients(r: ReconnectionView, s: SeatView)
    ensures
        reconnection_json(r) matches JsonView::Array(a) && a.len() == 5 && a[0] == JsonView::Str(
            r.session_id,
        ) && a[1] == JsonView::Str(r.token) && (r.expires_at_ms matches Some(t) ==> a[2]
            == JsonView::Int(t as int)) && (r.expires_at_ms is None ==> a[2] is Null) && (
        r.auth matches Some(x) ==> a[3] == x) && (r.user_data matches Some(x) ==> a[4] == x),
        seat_json(s) matches JsonView::Array(a) && a.len() == 4 && a[0] == JsonView::Str(
            s.session_id,
        ) && a[1] == s.options && (s.auth matches Some(x) ==> a[2] == x) && a[3] == JsonView::Int(
            s.expires_at_ms as int,
        ),
{
}

/// A snapshot that names its fields is read by their names.
pub proof fn law_named_fields_are_read(m: Map<Seq<char>, JsonView>, s: SnapshotView)
    requires
        snapshot_of(JsonView::Object(m)) == Some(s),
    ensures
        ({
            let v = JsonView::Object(m);
            &&& member(v, "schema_version"@) == Some(JsonView::Int(s.schema_version as int))
            &&& member(v, "room_id"@) == Some(JsonView::Str(s.room_id))
            &&& member(v, "room_name"@) == Some(JsonView::Str(s.room_name))
            &&& member(v, "process_id"@) == Some(JsonView::Str(s.process_id))
            &&& member(v, "created_at"@) == Some(JsonView::Int(s.created_at as int))
            &&& member(v, "saved_at"@) == Some(JsonView::Int(s.saved_at as int))
            &&& member(v, "clock_elapsed_ms"@) == Some(JsonView::Int(s.clock_elapsed_ms as int))
            &&& member(v, "options"@) == Some(s.options)
            &&& member(v, "state"@) == Some(s.state)
            &&& member(v, "internal"@) == Some(s.internal)
            &&& s.metadata matches Some(x) ==> member(v, "metadata"@) == Some(x)
            &&& member(v, "locked"@) == Some(JsonView::Bool(s.locked))
            &&& member(v, "is_private"@) == Some(JsonView::Bool(s.is_private))
            &&& s.max_clients matches Some(n) ==> member(v, "max_clients"@) == Some(
                JsonView::Int(n as int),
            )
            &&& member(v, "filter_extra"@) == Some(JsonView::Object(s.filter_extra))
        }),
{
}

/// A reconnection and a seat that name their fields are read by their names.
pub proof fn law_named_waiting_clients_are_read(
    m: Map<Seq<char>, JsonView>,
    r: ReconnectionView,
    s: SeatView,
)
    ensures
        reconnection_of(JsonView::Object(m)) == Some(r) ==> {
            let v = JsonView::Object(m);
            &&& member(v, "session_id"@) == Some(JsonView::Str(r.session_id))
            &&& member(v, "token"@) == Some(JsonView::Str(r.token))
            &&& r.expires_at_ms matches Some(t) ==> member(v, "expires_at_ms"@) == Some(
                JsonView::Int(t as int),
            )
            &&& r.auth matches Some(x) ==> member(v, "auth"@) == Some(x)
            &&& r.user_data matches Some(x) ==> member(v, "user_data"@) == Some(x)
        },
        seat_of(JsonView::Object(m)) == Some(s) ==> {
            let v = JsonView::Object(m);
            &&& member(v, "session_id"@) == Some(JsonView::Str(s.session_id))
            &&& member(v, "options"@) == Some(s.options)
            &&& s.auth matches Some(x) ==> member(v, "auth"@) == Some(x)
            &&& member(v, "expires_at_ms"@) == Some(JsonView::Int(s.expires_at_ms as int))
        },
{
}

/// The file of a room is in its directory, under the room's id with everything that is
/// unsafe replaced, and ends in `.snap`.
pub proof fn law_file_of_room(dir: Seq<char>, room_id: Seq<char>, i: int)
    requires
        dir.len() > 0,
        0 <= i < room_id.len(),
    ensures
        ({
            let name = snapshot_name(room_id);
            let c = room_id[i];
            let safe = ('a' <= c && c <= 'z') || ('A' <= c && c <= 'Z') || ('0' <= c && c <= '9')
                || c == '-' || c == '_';
            &&& name.len() == room_id.len() + 5
            &&& name.skip(room_id.len() as int) == ".snap"@
            &&& safe ==> name[i] == c
            &&& !safe ==> name[i] == '_'
            &&& dir.last() == '/' ==> path_in(dir, name) == dir + name
            &&& dir.last() != '/' ==> path_in(dir, name) == dir + seq!['/'] + name
        }),
{
    reveal_strlit(".snap");
    let name = snapshot_name(room_id);
    assert(name.skip(room_id.len() as int) =~= ".snap"@);
}

/// The writer hands out what waits longest, one at a time: while a write is not over
/// nothing else is handed out.
pub proof fn law_writer_does_one_thing(w: WriterView, outcome: Result<(), Seq<char>>)
    ensures
        w.underway is Some ==> writer_stepped(w, None) == (
            w,
            None::<Seq<char>>,
            None::<OpView>,
        ),
        w.queue.len() > 0 ==> writer_stepped(w, Some(outcome)).2 == Some(w.queue[0])
            && writer_stepped(w, Some(outcome)).0.queue == w.queue.skip(1),
        w.queue.len() == 0 ==> writer_stepped(w, Some(outcome)).2 is None && writer_stepped(
            w,
            Some(outcome),
        ).0.queue.len() == 0,
        outcome is Ok ==> writer_stepped(w, Some(outcome)).1 is None,
        outcome is Err && w.underway is Some ==> writer_stepped(w, Some(outcome)).1 is Some,
{
    if w.queue.len() > 0 {
        assert(w.queue.skip(1) =~= w.queue.subrange(1, w.queue.len() as int));
    }
}

}
