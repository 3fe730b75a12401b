//! Per-distribution strategies.

pub mod archlinux;
pub mod cachyos;
