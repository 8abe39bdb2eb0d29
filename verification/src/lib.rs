//! Balance changes of fungible tokens, derived from the receipts of a block
//! stream.
//!
//! Contracts report what they do in their logs (`events`, `event_types`,
//! `coin_events`); for the token contracts under `tkn.near`, which report
//! nothing, the changes are read off their calls (`tkn_near`). Before
//! anything is stored, the changes of a block are held against the balances
//! that the chain itself reports (`reconcile`): a contract whose accounts do
//! not end the block as its events predict is marked inconsistent
//! (`contracts`) and loses its events. What is kept gets its place in the
//! order of storage (`sequencer`).
//!
//! The library neither reads the stream nor asks the chain nor stores a
//! row: it takes plain values and hands plain values back.

pub mod amount;
pub mod cache;
pub mod coin;
pub mod coin_events;
pub mod contracts;
pub mod event_types;
pub mod events;
pub mod json;
pub mod legacy_args;
pub mod models;
pub mod outcome;
pub mod pipeline;
pub mod reconcile;
pub mod sequencer;
pub mod text;
pub mod tkn_near;
