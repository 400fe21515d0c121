//! Price collection and cache-consistent aggregation for a global price index.
//!
//! Quotes from independent market-data providers are written by a collector
//! into an expiring key/value store; an aggregator reads them back and serves
//! their rounded arithmetic mean. This crate holds the decisions of both
//! paths. Network, store and timer calls are made by the embedding program,
//! which hands their results to the functions here.
//!
//! - `price`, `decimal`: fixed-point prices, their rounding and their text.
//! - `exchanges`: the sources and how each one's replies give a mid-price.
//! - `cache`: the expiring store as both paths see it.
//! - `collector`: what a collection cycle writes, and the schedule of cycles.
//! - `aggregator`: the bounded poll of a request and the average it serves.
//! - `service`: both paths under one configuration.
//! - `config`, `controller`: the settings and the HTTP answers.
//! - `json`, `gzip`, `text`: what is trusted of `serde_json`, `flate2` and the
//!   standard library.

pub mod price;
pub mod decimal;
pub mod exchanges;
pub mod cache;
pub mod collector;
pub mod aggregator;
pub mod service;
pub mod config;
pub mod controller;
pub mod json;
pub mod gzip;
pub mod text;
