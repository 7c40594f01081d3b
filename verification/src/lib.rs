//! A delay-tolerant networking node: bundles, their local store, and the
//! store-carry-forward routing decisions, with contracts checked by Verus.

pub mod seqs;
pub mod clock;
pub mod ids;
pub mod model;
pub mod storage;
pub mod bundle_manager;
pub mod forward;
pub mod engine;
pub mod wire;
pub mod epidemic;
pub mod cli;
pub mod laws;
