//! Quiz session and analytics engine for a rules-document web application.
//!
//! The library models quiz questions, answers and attempt logs as plain data,
//! and computes session scores, cross-session statistics and export rows from
//! them, with verified contracts.

pub mod aggregate;
pub mod answers;
pub mod auth;
pub mod config;
pub mod csv_out;
pub mod daily;
pub mod detail;
pub mod distribution;
pub mod export;
pub mod imports;
pub mod model;
pub mod refs;
pub mod rules_tree;
pub mod scorer;
pub mod selector;
pub mod seqtools;
pub mod session;
pub mod slug;
pub mod stats;
pub mod store;
pub mod text;
pub mod views;
