//! Gamma exposure analytics: per-price dealer gamma exposure built from an
//! option chain, and a statistics report over such a map.
//!
//! Prices are held in cents and gamma in fixed point (see `chain`), so every
//! sum, extreme and centroid in this crate is exact.
pub mod chain;
pub mod exposure_map;
pub mod direct;
pub mod stats;
pub mod date;
pub mod model;
pub mod query;
pub mod time_and_sales;
pub mod laws;
