//! Per-distribution parameters, supplied by the caller.

pub mod archlinux;
pub mod cachyos;
pub mod stdin;
