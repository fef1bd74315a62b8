//! Relational core of a question-and-answer service.
//!
//! Users post questions, attach answers to questions, and attach comments to
//! either a question or an answer (never both, never neither). This crate
//! holds the part of the service with real invariants: the entity model, an
//! in-memory relational store that is the sole authority for identifier and
//! timestamp assignment, the aggregation of a question together with its
//! answers and all applicable comments into one nested result, and a small
//! in-memory cache used before persistent storage is wired up. HTTP routing,
//! request decoding and the SQL connection layer live outside this crate and
//! talk to it through plain values.

pub mod answer;
pub mod cache;
pub mod comment;
pub mod detail;
pub mod error;
pub mod question;
pub mod store;
