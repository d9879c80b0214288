//! A game of catch for three on a maze that wraps round at its edges, played
//! over a network: the world and its rules, the messages that keep the
//! participants' views of the world together, and the two roles, host and
//! guest, that exchange them.
pub mod axes;
pub mod bit_set;
pub mod game;
pub mod rng;
pub mod wrap_int;
