//! A single-pass register allocator for SSA code: every virtual register is
//! given a physical register or a stack slot, and the moves that keep those
//! assignments correct are recorded as edits.
//!
//! `fast::run` allocates one function. `state` says what a run does, as
//! functions on values; `resolve`, `regfile`, `spill`, `edits` and `order`
//! hold the parts that do it; `laws`, `repair` and `trace` prove what holds
//! of every run. `lru` states what is taken on trust of the LRU cache that
//! the residency tracker is built on.

pub mod edits;
pub mod fast;
pub mod laws;
pub mod lru;
pub mod model;
pub mod order;
pub mod regfile;
pub mod repair;
pub mod residency;
pub mod resolve;
pub mod spill;
pub mod state;
pub mod trace;
