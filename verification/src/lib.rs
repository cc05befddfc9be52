//! A workout-tracking data engine: reusable exercise definitions, named
//! templates built from them, and live workout sessions with per-exercise
//! sets, all kept in an in-memory relational store with verified
//! lifecycle, numbering and query rules.

pub mod auth;
pub mod db;
pub mod error;
pub mod exercises;
pub mod laws;
pub mod models;
pub mod order;
pub mod sessions;
pub mod store;
pub mod templates;
