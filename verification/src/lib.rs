//! Core logic of an XDP throughput monitor: parsing of `ethtool`, `ip` and
//! `lspci` reports, per-queue packet counter sampling, NIC ranking, and the
//! keyboard/mouse state machine of the terminal interface.

pub mod text;
pub mod report;
pub mod stats;
pub mod ui;
pub mod app;
pub mod ranking;
pub mod input;
