//! Group session layer for a gift-exchange ("secret santa") service: the
//! group model, the join rules, the single-cycle pairing engine, the live
//! connection registry and the decisions taken when a client connects.

pub mod errors;
pub mod models;
pub mod pairing;
pub mod registry;
pub mod session;
