//! Cymbiont: a persistent, transactional multi-graph knowledge engine.
//!
//! The library is organised around three storage components — an in-memory
//! typed graph store with a dual node index, a write-ahead transaction log,
//! and a multi-graph registry — composed by an application state that routes
//! every mutation through a logged transaction against the active graph.

pub mod api;
pub mod app_state;
pub mod config;
pub mod kg_api;
pub mod transaction;
pub mod transaction_log;
pub mod graph_manager;
pub mod graph_registry;
pub mod logseq;
pub mod pkm_data;
pub mod reference_resolver;
pub mod saga;
pub mod text;
pub mod types;
pub mod websocket;
pub mod utils;
