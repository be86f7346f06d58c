//! Streaming detection of arbitrage windows on two-sided binary markets.
//!
//! Prices are carried as integer price keys (ten-thousandths of a unit), so
//! that every rule of the pipeline is stated and proved over integers.

pub mod audit;
pub mod book;
pub mod catalog;
pub mod classifier;
pub mod config;
pub mod control;
pub mod decimal;
pub mod detector;
pub mod display;
pub mod health;
pub mod ingest;
pub mod isotime;
pub mod laws;
pub mod messages;
pub mod refresh;
pub mod shared;
pub mod store;
pub mod text;
pub mod types;
pub mod watcher;
