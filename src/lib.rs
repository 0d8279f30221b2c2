//! A small task tracker: todos, optionally grouped into categories, kept in
//! an in-memory relational store whose operations are verified against a
//! mathematical model of its two tables.

pub mod command;
pub mod laws;
pub mod record;
pub mod store;
