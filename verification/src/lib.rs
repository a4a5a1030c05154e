//! A library for reconstructing a normalized course schedule record
//! (department / course / section / meeting period) from semi-structured
//! tabular or XML sources, and for answering room-occupancy and
//! room-availability queries against that record.

pub mod actions;
pub mod htmlparser;
pub mod models;
pub mod parser;
pub mod text;
