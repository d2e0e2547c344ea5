//! A productivity DNS blocker: domain blocklist matching, schedule
//! evaluation, quiz-gated bypass, policy composition, the DNS wire
//! codec for blocked/failed answers, and the IPC command handler.

pub mod clock;
pub mod config;
pub mod configfmt;
pub mod dns;
pub mod domain;
pub mod ipc;
pub mod json;
pub mod quiz;
pub mod schedule;
pub mod state;
pub mod timeofday;
pub mod text;
