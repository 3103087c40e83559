//! The core of an issue tracker that keeps its issues in a relational database.
//!
//! The library decides and computes; it performs no input or output. It composes the statements
//! that are run against the database and reads the rows that come back. Where a task alternates
//! between the database and decisions, it is a machine: each reply leads to the next action.

pub mod across;
pub mod asked;
pub mod assoc;
pub mod batch;
pub mod blocked;
pub mod caching;
pub mod chunk;
pub mod circuits;
pub mod clock;
pub mod close;
pub mod closing;
pub mod columns;
pub mod command;
pub mod comments;
pub mod cycles;
pub mod descend;
pub mod details;
pub mod error;
pub mod external;
pub mod issues;
pub mod json;
pub mod labels;
pub mod links;
pub mod model;
pub mod mutation;
pub mod order;
pub mod outcomes;
pub mod pattern;
pub mod queries;
pub mod reach;
pub mod route;
pub mod rows;
pub mod scan;
pub mod searching;
pub mod settings;
pub mod sql;
pub mod tables;
pub mod text;
pub mod update;
pub mod upsert;
pub mod written;
