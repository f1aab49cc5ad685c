//! A persisted ledger for named, transferable packs of non-fungible items or
//! fungible-token allocations, with per-pack multi-owner royalty shares and
//! royalty-aware sale settlement.
//!
//! The contract state is held in explicit typed tables (`table`), one per
//! persisted key schema of the host's keyed store. Every operation is a
//! verified transition on that state: its contract states exactly which
//! inputs succeed, which error each rejected input draws, and how the state
//! changes, over a mathematical model of the whole state (`state::StateM`),
//! which also carries the cross-table invariant every operation preserves.

pub mod table;
pub mod types;
pub mod state;
pub mod items;
pub mod packs;
pub mod token_packs;
pub mod settle;
pub mod exec;
pub mod laws;
