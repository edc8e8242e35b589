//! A small scheduling layer for offloading units of work and polling,
//! non-blockingly, for their results.
//!
//! Two execution models are covered:
//!
//! * discrete one-shot jobs distributed over a fixed-size pool of worker
//!   slots, tracked by opaque [`Ticket`]s ([`PoolCore`]);
//! * a single long-running stateful worker that accepts repeated triggers
//!   and streams back events, exposing an ongoing/idle state machine
//!   ([`BackgroundCore`]).
//!
//! This crate holds the bookkeeping itself: ticket issuance, the FIFO
//! backlog, slot assignment, completion collection, and the ongoing/event
//! protocol. The transport that actually carries a job to an isolated
//! execution context (a thread, a message bridge) lives with the embedding
//! application, which drives these state machines through their public
//! operations.

mod ongoing_task;
mod task;
mod ticket;

pub use ongoing_task::{
    apply_input, fold_progress, lemma_merge_fold_three, merge_fold, BackgroundCore,
    BackgroundFunction, Input, StateProgress, StateTrait,
};
pub use task::{
    count_some, fill_from, idle_from, lemma_fill_backlog_excess, lemma_fill_fifo,
    lemma_fresh_pool_backlog, lemma_pool_capacity, Function, JobState, PoolCore,
};
pub use ticket::{lemma_ticket_identity, ticket_id_at, Ticket, TicketGenerator};
