//! Server-authoritative core of a two-player word duel: letters and words,
//! the per-match arena resolver, action authority, match lifecycle,
//! matchmaking and per-client visibility.
pub mod action;
pub mod arena;
pub mod dictionary;
pub mod letters;
pub mod message;
pub mod server;
pub mod side;
pub mod token;
pub mod visibility;
pub mod word;
pub mod world;
