//! State slots, edits of the state, snapshots and their files.

use colyseus::error::codes;
use colyseus::json::Json;
use colyseus::snapshot::{
    decode_snapshot, encode_snapshot, open, sanitize, seal, FileSnapshotStore,
    PersistedReconnection, PersistedSeat, PersistenceConfig, RoomSnapshot, SnapshotOp,
    SnapshotWriter,
};
use colyseus::state::{edit_at_path, StateEdit, StateSlot};
use colyseus::value::parse_json;

fn j(text: &str) -> Json {
    parse_json(text).expect("valid JSON")
}

fn path(segments: &[&str]) -> Vec<String> {
    segments.iter().map(|s| s.to_string()).collect()
}

fn empty_snapshot() -> RoomSnapshot {
    RoomSnapshot {
        schema_version: 1,
        room_id: "r1".into(),
        room_name: "game".into(),
        process_id: "p1".into(),
        created_at: 0,
        saved_at: 0,
        clock_elapsed_ms: 0,
        options: Json::Null,
        state: Json::Null,
        internal: Json::Null,
        metadata: None,
        locked: false,
        is_private: false,
        max_clients: None,
        filter_extra: vec![],
        reconnections: vec![],
        seats: vec![],
    }
}

#[test]
fn diff_produces_patch_only_on_change() {
    let mut slot = StateSlot::new(j(r#"{"x": 0, "y": 0}"#));
    assert!(slot.diff().is_none());

    slot.set(j(r#"{"x": 5, "y": 0}"#));
    let patch = slot.diff().expect("expected a patch").to_value();
    let ops = patch.as_array().unwrap();
    assert_eq!(ops.len(), 1);
    assert_eq!(ops[0]["op"], "replace");
    assert_eq!(ops[0]["path"], "/x");
    assert_eq!(ops[0]["value"], 5);

    assert!(slot.diff().is_none());
}

#[test]
fn full_state() {
    let slot = StateSlot::new(j(r#"{"x": 1, "y": 2}"#));
    assert_eq!(slot.full(), j(r#"{"x": 1, "y": 2}"#));
}

#[test]
fn edits_set_and_remove_at_paths() {
    let mut root = j(r#"{"a": {"b": [1, 2, 3]}}"#);
    edit_at_path(&mut root, &path(&["a", "b", "1"]), &StateEdit::Put(j("9"))).unwrap();
    assert_eq!(root, j(r#"{"a": {"b": [1, 9, 3]}}"#));
    edit_at_path(&mut root, &path(&["a", "b", "0"]), &StateEdit::Remove).unwrap();
    assert_eq!(root, j(r#"{"a": {"b": [9, 3]}}"#));
    edit_at_path(&mut root, &path(&["a", "c"]), &StateEdit::Put(j("true"))).unwrap();
    assert_eq!(root, j(r#"{"a": {"b": [9, 3], "c": true}}"#));
    edit_at_path(&mut root, &path(&["a", "b"]), &StateEdit::Remove).unwrap();
    assert_eq!(root, j(r#"{"a": {"c": true}}"#));
    edit_at_path(&mut root, &path(&[]), &StateEdit::Put(j("1"))).unwrap();
    assert_eq!(root, j("1"));
}

#[test]
fn edits_that_lead_nowhere_are_refused() {
    let root = j(r#"{"a": [1], "n": 1}"#);
    let refusal = |segments: &[&str], edit: StateEdit| {
        let mut r = root.clone();
        let e = edit_at_path(&mut r, &path(segments), &edit).unwrap_err();
        assert_eq!(r, root);
        e
    };
    assert_eq!(refusal(&[], StateEdit::Remove), "cannot remove the state root");
    assert_eq!(refusal(&["x", "y"], StateEdit::Remove), "no such path: x");
    assert_eq!(refusal(&["a", "x", "y"], StateEdit::Remove), "bad array index: x");
    assert_eq!(refusal(&["a", "7", "y"], StateEdit::Remove), "array index out of range: 7");
    assert_eq!(refusal(&["n", "x", "y"], StateEdit::Remove), "cannot descend into x");
    assert_eq!(refusal(&["x"], StateEdit::Remove), "no such key: x");
    assert_eq!(refusal(&["a", "x"], StateEdit::Put(Json::Null)), "bad array index: x");
    assert_eq!(refusal(&["a", "1"], StateEdit::Put(Json::Null)), "array index out of range: 1");
    assert_eq!(refusal(&["n", "x"], StateEdit::Remove), "path parent is not a container");
}

#[test]
fn an_edit_is_taken_or_not_by_the_state_type() {
    let mut slot = StateSlot::new(j(r#"{"count": 1}"#));
    let edited = slot.edited(&path(&["count"]), &StateEdit::Put(j("42"))).unwrap();
    assert_eq!(edited, j(r#"{"count": 42}"#));
    assert_eq!(slot.full(), j(r#"{"count": 1}"#));
    assert_eq!(slot.apply_edit(Err("invalid type".to_string())).unwrap_err(), "invalid type");
    assert_eq!(slot.full(), j(r#"{"count": 1}"#));
    slot.apply_edit(Ok(edited)).unwrap();
    assert_eq!(slot.full(), j(r#"{"count": 42}"#));
    assert!(slot.diff().is_some());
}

#[test]
fn envelope_roundtrip() {
    let snap = RoomSnapshot {
        created_at: 100,
        saved_at: 200,
        clock_elapsed_ms: 5,
        state: j(r#"{"count": 3}"#),
        internal: j(r#"{"secret": "x"}"#),
        metadata: Some(j(r#"{"phase": "lobby"}"#)),
        max_clients: Some(8),
        filter_extra: vec![
            ("difficulty".to_string(), j("\"easy\"")),
            ("category".to_string(), j("\"x\"")),
        ],
        reconnections: vec![PersistedReconnection {
            session_id: "s1".into(),
            token: "tok".into(),
            expires_at_ms: None,
            auth: Some(j(r#"{"userId": "u1"}"#)),
            user_data: None,
        }],
        seats: vec![PersistedSeat {
            session_id: "s2".into(),
            options: Json::Null,
            auth: None,
            expires_at_ms: 42,
        }],
        ..empty_snapshot()
    };
    let bytes = encode_snapshot(&snap);
    let decoded = decode_snapshot(&bytes).unwrap();
    assert_eq!(decoded.room_id, "r1");
    assert_eq!(decoded.state.to_value()["count"], 3);
    assert_eq!(decoded.internal.to_value()["secret"], "x");
    assert!(decoded.filter_extra.iter().any(|e| e.0 == "difficulty" && e.1 == j("\"easy\"")));
    assert_eq!(decoded.reconnections.len(), 1);
    assert_eq!(decoded.reconnections[0].token, "tok");
    assert_eq!(decoded.seats.len(), 1);
    assert_eq!(decoded.seats[0].expires_at_ms, 42);
}

#[test]
fn envelope_detects_corruption() {
    let mut bytes = encode_snapshot(&empty_snapshot());
    let last = bytes.len() - 1;
    bytes[last] ^= 0xff;
    assert!(decode_snapshot(&bytes).is_err());
}

#[test]
fn every_changed_byte_of_an_envelope_is_found() {
    let sealed = seal(&vec![1, 2, 3, 4, 5]);
    assert_eq!(open(&sealed).unwrap(), vec![1, 2, 3, 4, 5]);
    assert_eq!(&sealed[..8], b"CLRS\0\0\0\x01");
    for i in 0..sealed.len() {
        let mut changed = sealed.clone();
        changed[i] ^= 2;
        assert!(open(&changed).is_err(), "byte {i}");
    }
    assert!(open(&sealed[..sealed.len() - 1]).is_err());
    assert_eq!(open(&[]).unwrap_err(), "snapshot too short");
    assert_eq!(open(b"NOPE\0\0\0\x01\0\0\0\0").unwrap_err(), "bad snapshot magic");
    let mut newer = sealed.clone();
    newer[7] = 2;
    assert_eq!(open(&newer).unwrap_err(), "unsupported snapshot envelope version 2");
}

#[test]
fn room_ids_become_file_names() {
    assert_eq!(sanitize("room-1_A"), "room-1_A");
    let odd = sanitize("../a/b c");
    assert!(odd.chars().all(|c| c.is_ascii_alphanumeric() || c == '-' || c == '_'));
    let store = FileSnapshotStore::new("/data".to_string());
    assert_eq!(store.path(), "/data");
    assert!(store.file_path("room-1").starts_with("/data/room-1"));
    assert_ne!(store.temp_path("room-1"), store.file_path("room-1"));
    assert!(store.quarantine_path("room-1", 77).contains("77"));
    let file = store.file_path("room-1");
    let name = file.rsplit('/').next().unwrap();
    assert_eq!(FileSnapshotStore::room_id_of(name).as_deref(), Some("room-1"));
    assert_eq!(FileSnapshotStore::room_id_of("notes.txt"), None);
}

#[test]
fn the_last_waiting_write_of_a_room_counts() {
    let mut w = SnapshotWriter::new();
    w.save("a", vec![1]);
    w.save("b", vec![2]);
    w.save("a", vec![3]);
    w.delete("b");
    let mut a: Option<Vec<u8>> = None;
    let mut b_gone = false;
    let mut outcome = None;
    while let (None, Some(op)) = w.next(outcome.take()) {
        outcome = Some(Ok(()));
        match op {
            SnapshotOp::Save(id, bytes) => {
                if id == "a" {
                    a = Some(bytes);
                } else {
                    b_gone = false;
                }
            }
            SnapshotOp::Delete(id) => {
                assert_eq!(id, "b");
                b_gone = true;
            }
            SnapshotOp::Flush(_) => unreachable!(),
        }
    }
    assert_eq!(a, Some(vec![3]));
    assert!(b_gone);
    assert!(matches!(w.next(None), (None, None)));
}

#[test]
fn writes_are_carried_out_one_after_the_other() {
    let mut w = SnapshotWriter::new();
    w.save("a", vec![1]);
    w.delete("b");
    w.flush(7);
    w.save("a", vec![2]);
    assert!(matches!(w.next(None), (None, Some(SnapshotOp::Save(id, _))) if id == "a"));
    // nothing else is handed out, and no flush answered, while the store is at it
    assert!(matches!(w.next(None), (None, None)));
    // a write that failed is spoken of, and the next one follows
    let (said, op) = w.next(Some(Err("disk full".to_string())));
    assert_eq!(said.as_deref(), Some("snapshot save for a failed: disk full"));
    assert!(matches!(op, Some(SnapshotOp::Delete(id)) if id == "b"));
    let (said, op) = w.next(Some(Err("gone".to_string())));
    assert_eq!(said.as_deref(), Some("snapshot delete for b failed: gone"));
    assert!(matches!(op, Some(SnapshotOp::Flush(7))));
    assert!(matches!(w.next(None), (None, Some(SnapshotOp::Save(_, b))) if b == vec![2]));
    assert!(matches!(w.next(Some(Ok(()))), (None, None)));
    assert!(matches!(w.next(None), (None, None)));
}

#[test]
fn persistence_has_defaults() {
    let cfg = PersistenceConfig::new();
    assert!(cfg.save_on_dispose);
    assert!(!cfg.delete_on_dispose);
    let cfg = cfg.auto_save_interval(10).save_on_dispose(false).delete_on_dispose(true);
    assert_eq!(cfg.auto_save_interval, 10);
    assert!(!cfg.save_on_dispose);
    assert!(cfg.delete_on_dispose);
    assert_eq!(codes::APPLICATION_ERROR, 526);
}

#[test]
fn the_checksum_is_the_usual_one() {
    let sealed = seal(&b"123456789".to_vec());
    assert_eq!(sealed[8..12], [0xcb, 0xf4, 0x39, 0x26]);
}

#[test]
fn every_changed_byte_is_detected() {
    let sealed = seal(&b"a payload of a few bytes".to_vec());
    for i in (0..4).chain(8..sealed.len()) {
        for flip in [1u8, 0x80, 0xff] {
            let mut bad = sealed.clone();
            bad[i] ^= flip;
            assert!(open(&bad).is_err());
            assert!(decode_snapshot(&bad).is_err());
        }
    }
    for n in 0..12 {
        assert!(open(&sealed[..n]).is_err());
    }
}
