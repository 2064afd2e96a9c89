//! Portfolio tracking for crypto assets: a refresh scheduler that keeps price
//! histories fresh under a request-rate floor, and a valuation engine that
//! lays price samples and holding events onto one grid of time buckets.

pub mod alisms;
pub mod api;
pub mod error;
pub mod hmac_sha1;
pub mod models;
pub mod utils;
pub mod valuation;
pub mod worker;
