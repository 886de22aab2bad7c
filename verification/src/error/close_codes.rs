//! WebSocket close codes.

use vstd::prelude::*;

verus! {

pub const NORMAL_CLOSURE: u16 = 1000;

pub const GOING_AWAY: u16 = 1001;

pub const ABNORMAL_CLOSURE: u16 = 1006;

/// The client explicitly consented to leave, or the room was disposed.
pub const CONSENTED: u16 = 4000;

pub const SERVER_SHUTDOWN: u16 = 4001;

pub const WITH_ERROR: u16 = 4002;

pub const FAILED_TO_RECONNECT: u16 = 4003;

pub const MAY_TRY_RECONNECT: u16 = 4010;

}
