//! Monitoring core of a tray client for Komari and probe-hub backends:
//! settings, snapshots, tray figures, wire payloads, history, sessions and
//! window placement, each stated as a contract and proved.

pub mod figure;
pub mod text;
pub mod decimal;
pub mod arithmetic;
pub mod rounding;
pub mod exact;
pub mod order;
pub mod table;
pub mod clock;
pub mod models;
pub mod readout;
pub mod json;
pub mod urls;
pub mod version;
pub mod calendar;
pub mod http;
pub mod wire;
pub mod providers;
pub mod ping;
pub mod state;
pub mod engine;
pub mod commands;
pub mod tray;
pub mod settings;
pub mod windows;
pub mod window_geometry;
pub mod monitor;
pub mod mock;
pub mod laws;
