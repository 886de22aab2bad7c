//! Trivia: rounds of questions for up to four players, with spectators.

pub mod chat;
pub mod entry_laws;
pub mod game;
pub mod internal;
pub mod laws;
pub mod llm;
pub mod play_laws;
pub mod room;
pub mod state;
