//! Core of a peer-to-peer file-synchronization engine.
//!
//! A flat directory is kept convergent with the directories of other peers.
//! Every file carries a versioned index entry; updates travel between peers
//! as rumors, and file content is fetched on demand in fixed-size blocks.
//! This crate holds the verified state machine that reconciles local
//! filesystem events and incoming rumors against the index: the data model,
//! the transactional index store, the hasher's block-chain construction, the
//! three event handlers and the delta-download selection.

pub mod dir;
pub mod events;
pub mod file_event_produce;
pub mod hasher;
pub mod index;
pub mod keyed;
pub mod laws;
pub mod rumors;
pub mod sync_all;
pub mod transfer;
pub mod update;
pub mod watch;
