//! The error type used across the framework.

pub mod close_codes;
pub mod codes;

use crate::text::{decimal, decimal_text, join_quoted, joined, with_quoted};
use vstd::prelude::*;
use vstd::string::*;

verus! {

/// An error with its code.
#[derive(Debug)]
pub struct ServerError {
    pub code: u16,
    pub message: String,
}

/// What an error stands for.
pub struct ErrorView {
    pub code: u16,
    pub message: Seq<char>,
}

impl View for ServerError {
    type V = ErrorView;

    open spec fn view(&self) -> ErrorView {
        ErrorView { code: self.code, message: self.message@ }
    }
}

impl Clone for ServerError {
    fn clone(&self) -> (r: Self)
        ensures
            r@ == self@,
    {
        ServerError { code: self.code, message: self.message.clone() }
    }
}

/// The error for a room name that has no handler.
pub open spec fn no_handler_error(room_name: Seq<char>) -> ErrorView {
    ErrorView {
        code: codes::MATCHMAKE_NO_HANDLER,
        message: with_quoted("provided room name "@, room_name) + " is not defined"@,
    }
}

/// The error for a room id that no room has.
pub open spec fn room_not_found_error(room_id: Seq<char>) -> ErrorView {
    ErrorView {
        code: codes::MATCHMAKE_INVALID_ROOM_ID,
        message: with_quoted("room "@, room_id) + " not found"@,
    }
}

/// The error for a seat that is not, or no longer, reserved.
pub open spec fn seat_expired_error() -> ErrorView {
    ErrorView { code: codes::MATCHMAKE_EXPIRED, message: "seat reservation expired"@ }
}

impl ServerError {
    pub fn new(code: u16, message: String) -> (r: Self)
        ensures
            r@ == (ErrorView { code, message: message@ }),
    {
        ServerError { code, message }
    }

    pub fn no_handler(room_name: &str) -> (r: Self)
        ensures
            r@ == no_handler_error(room_name@),
    {
        let mut message: String = join_quoted("provided room name ", room_name);
        message.append(" is not defined");
        ServerError::new(codes::MATCHMAKE_NO_HANDLER, message)
    }

    pub fn room_not_found(room_id: &str) -> (r: Self)
        ensures
            r@ == room_not_found_error(room_id@),
    {
        let mut message: String = join_quoted("room ", room_id);
        message.append(" not found");
        ServerError::new(codes::MATCHMAKE_INVALID_ROOM_ID, message)
    }

    pub fn seat_expired() -> (r: Self)
        ensures
            r@ == seat_expired_error(),
    {
        ServerError::new(codes::MATCHMAKE_EXPIRED, "seat reservation expired".to_owned())
    }

    /// Was this error caused by a failed seat reservation (full/locked room)?
    /// The matchmaker retries only for these.
    pub fn is_seat_reservation_failure(&self) -> (r: bool)
        ensures
            r == (self@.code == codes::MATCHMAKE_EXPIRED),
    {
        self.code == codes::MATCHMAKE_EXPIRED
    }

    /// The error as a line of text.
    pub fn describe(&self) -> (r: String)
        ensures
            r@ == "error "@ + decimal(self@.code as nat) + ": "@ + self@.message,
    {
        let digits: String = decimal_text(self.code as u64);
        let mut r: String = joined("error ", digits.as_str());
        r.append(": ");
        r.append(self.message.as_str());
        r
    }
}

/// A seat that expired is a failed reservation, and no other of these errors is.
pub proof fn law_only_expired_seats_retry(name: Seq<char>)
    ensures
        seat_expired_error().code == codes::MATCHMAKE_EXPIRED,
        no_handler_error(name).code != codes::MATCHMAKE_EXPIRED,
        room_not_found_error(name).code != codes::MATCHMAKE_EXPIRED,
{
}

}
