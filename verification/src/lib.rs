//! Core of an interactive HTTP client: domain types, the request lifecycle
//! state machine, normalization of HTTP exchanges, and the persistence rules
//! for history and collections.

pub mod api;
pub mod config;
pub mod headers;
pub mod laws;
pub mod models;
pub mod reducer;
pub mod state;
pub mod store;
pub mod strings;
