//! In-memory telemetry store, service health tracking and alert rule engine.
pub mod alerts;
pub mod auth;
pub mod engine;
pub mod error;
pub mod evaluation;
pub mod guarantees;
pub mod ids;
pub mod alert_state;
pub mod laws;
pub mod models;
pub mod queries;
pub mod rounds;
pub mod rules;
pub mod search;
pub mod series;
pub mod settings;
pub mod socket;
pub mod sort;
pub mod store;
pub mod text;
pub mod time;
