//! Tabular data read from delimited text, and the charts drawn from it.
pub mod models;
pub mod repr;
