//! A small in-memory population registry of individual entities ("crabs")
//! living on a shared site ("beach"), grouped into named clans.
//!
//! The registry ([`beach::Beach`]) owns an append-only sequence of entities
//! and one clan directory ([`clans::ClanSystem`]), a mapping from clan
//! identifier to the ordered list of member names. Queries cover the fastest
//! entity, lookup by name, breeding of new entities, and a competition
//! between two clans ranked by the mean speed of their members.

pub mod beach;
pub mod clans;
pub mod crab;
