pub mod text;
pub mod pattern;
pub mod deadline;
pub mod model;
pub mod date_utils;
pub mod scanner;
pub mod config;
pub mod check;
pub mod sorting;
pub mod lint;
pub mod blame;
pub mod clean;
pub mod context;
pub mod tasks;
pub mod stats;
pub mod search;
pub mod report;
pub mod output;
pub mod relate;
pub mod init;
pub mod cli;
pub mod cmd;
pub mod diff;
pub mod keyed;
pub mod cache;
pub mod watch;
pub mod workspace;
pub mod manifest;
