//! Match server core for a two-player sowing game: the board rules, the
//! turn-by-turn referee that talks to two bots, and the scheduler that pairs
//! bots and settles ratings.

pub mod mancala;
pub mod matchmaker;
pub mod server;
