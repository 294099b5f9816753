//! The authoritative core of a small real-time game in which each player
//! commands units.
//!
//! A game advances in ticks of fixed length. The library owns everything
//! about a tick that is decided rather than computed: which units exist and
//! under which ids, whose orders are obeyed, when a unit has arrived, when a
//! summoned unit appears, who hits whom, who is dead and leaves the field,
//! and what is reported to the players. It stores numbers (positions,
//! speeds, hit points, timers) and compares them, but does no arithmetic:
//! the program around the library computes between the stages of a tick and
//! reports what came out.
pub mod game;
pub mod game_desc;
pub mod laws;
pub mod lemmas;
pub mod math;
pub mod model;
pub mod msg;
pub mod room;
pub mod tick;
pub mod unit;
