//! The parts of the agent loop: what a request may cost, how a long history is shortened, in
//! which order tools run, and the life of a turn.

pub mod budget;
pub mod checkpoint_laws;
pub mod compaction;
pub mod context;
pub mod context_laws;
pub mod counter;
pub mod cut_laws;
pub mod events;
pub mod event_laws;
pub mod laws;
pub mod prepare;
pub mod provenance;
pub mod prune_laws;
pub mod retry;
pub mod scheduler;
pub mod summary;
pub mod summary_laws;
pub mod surface;
pub mod wire;
