pub mod filter;
pub mod blame;
pub mod search;
pub mod tasks;
pub mod diff;
pub mod workspace;
pub mod list;
