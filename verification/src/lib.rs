//! Verified core of the New York air-traffic loader and reporting tool.

pub mod batch;
pub mod cli;
pub mod config;
pub mod csv_input;
pub mod number;
pub mod report;
pub mod rows;
pub mod schema;
pub mod sql_script;
pub mod text;
