//! Protocol codes. Codes below 128 encode as a single MessagePack byte.

use vstd::prelude::*;

verus! {

pub const JOIN_ROOM: u8 = 10;

pub const ERROR: u8 = 11;

pub const LEAVE_ROOM: u8 = 12;

pub const ROOM_DATA: u8 = 13;

pub const ROOM_STATE: u8 = 14;

pub const ROOM_STATE_PATCH: u8 = 15;

pub const ROOM_DATA_BYTES: u8 = 17;

pub const PING: u8 = 18;

}
