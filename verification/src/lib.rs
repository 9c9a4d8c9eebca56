//! Expiry annotations ("fuses") in source text: parsing, classification,
//! reporting and the edits that plant, delay and disarm them.

pub mod add;
pub mod armory;
pub mod baseline;
pub mod blame;
pub mod cli;
pub mod annotation;
pub mod commands;
pub mod config;
pub mod diff;
pub mod date;
pub mod error;
pub mod fix;
pub mod git;
pub mod hook;
pub mod order;
pub mod path;
pub mod output;
pub mod remove;
pub mod report;
pub mod scanner;
pub mod snooze;
pub mod stats;
pub mod style;
pub mod text;
pub mod trend;
