//! Real-time coordination core for a multiplayer blackjack service.
//!
//! The crate owns the two parts of the game with real invariants: the
//! table/hand engine (deck composition, deal order, blackjack hand scoring
//! and win determination) and the connection registry (the single owner of
//! the map from connection key to outbound sender, driven by a serialized
//! command stream). HTTP wiring, persistence and the transport itself live
//! outside the library.

pub mod account;
pub mod card;
pub mod deck;
pub mod game;
pub mod registry;
pub mod table;
