pub mod actor;
pub mod admin;
pub mod checksum;
pub mod client;
pub mod command;
pub mod context;
pub mod creation;
pub mod diff;
pub mod diff_laws;
pub mod driver;
pub mod edit_laws;
pub mod error;
pub mod events;
pub mod filter;
pub mod handler;
pub mod idempotency;
pub mod joining;
pub mod json;
pub mod lifecycle;
pub mod match_laws;
pub mod matchmaker;
pub mod paging;
pub mod pointer;
pub mod presence;
pub mod protocol;
pub mod query;
pub mod query_laws;
pub mod restart_laws;
pub mod room;
pub mod room_laws;
pub mod routes;
pub mod server;
pub mod server_laws;
pub mod snapshot;
pub mod snapshot_laws;
pub mod sorting;
pub mod state;
pub mod table;
pub mod text;
pub mod text_laws;
pub mod tictactoe;
pub mod tictactoe_laws;
pub mod trivia;
pub mod utils;
pub mod value;
pub mod wire;
