//! Matchmaking and application error codes, also used as HTTP status codes.

use vstd::prelude::*;

verus! {

pub const MATCHMAKE_NO_HANDLER: u16 = 520;

pub const MATCHMAKE_INVALID_CRITERIA: u16 = 521;

pub const MATCHMAKE_INVALID_ROOM_ID: u16 = 522;

pub const MATCHMAKE_UNHANDLED: u16 = 523;

pub const MATCHMAKE_EXPIRED: u16 = 524;

pub const AUTH_FAILED: u16 = 525;

pub const APPLICATION_ERROR: u16 = 526;

pub const INVALID_PAYLOAD: u16 = 4217;

}
