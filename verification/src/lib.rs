//! The verified core of a code graph viewer: it reads the command line, decides what is asked of
//! the database, puts the graph together from the answers, and cuts source lines out of files.

pub mod config;
pub mod endpoints;
pub mod error;
pub mod graph;
pub mod paths;
pub mod rows;
pub mod snippet;
pub mod sql;
pub mod text;
