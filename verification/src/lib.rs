//! Keeping the `.env` file of a package in step with its `.env.example`.
//!
//! The library reads the text of both files into maps from variable name to raw
//! value, finds the variables that the file in use lacks and those that the template
//! no longer names, draws up what to show of them, and decides what an operator's
//! answer leads to. It touches no file and no terminal: its callers read, ask and
//! copy, and hand it plain text.

pub mod env_map;
pub mod listing;
pub mod order;
pub mod parser;
pub mod reconcile;
pub mod report;
pub mod resolver;
