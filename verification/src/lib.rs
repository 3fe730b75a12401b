//! Mirror acquisition and normalization: fetch policy, parsing, filtering,
//! ordering and URL normalization for distribution mirror lists.

pub mod config;
pub mod countries;
pub mod fetch;
pub mod mirror;
pub mod sorting;
pub mod target_configs;
pub mod targets;
pub mod text;
pub mod urls;
