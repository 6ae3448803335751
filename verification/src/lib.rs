//! A verified ledger of gamified tasks ("quests"), their completion records,
//! and collectible achievement tokens ("badges").
//!
//! The library is the state machine of the platform: quest creation,
//! activation, expiry, completion-count capping, exactly-once completion per
//! (user, quest) pair, and the ownership/transfer invariants of minted badges.
//! Each operation is a function from the current ledger state and the host's
//! inputs (the authenticated principal, the ledger timestamp) to the next
//! state and a result; the host that persists the state, checks authorization
//! proofs and delivers notifications is an external collaborator.

pub mod errors;
pub mod ids;
pub mod quests;
pub mod badges;
pub mod rewards;
