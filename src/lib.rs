//! Network scan engine: expansion of target tokens and port specifications,
//! assembly of per-port results, a result store keyed by host with the
//! decisions of a scan run, and the key-driven front-end state.
pub mod app;
pub mod engine;
pub mod net;
pub mod scan;
pub mod store;
