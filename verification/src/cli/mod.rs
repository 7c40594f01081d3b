//! The commands a user gives the demo program.
pub mod cli;
pub mod node_cli;
