//! The process page: rows, sampling, columns and actions.

pub mod accounts;
pub mod action_laws;
pub mod actions;
pub mod affinity;
pub mod affinity_laws;
pub mod attach;
pub mod columns;
pub mod command_line;
pub mod commands;
pub mod debugger;
pub mod debugger_laws;
pub mod events;
pub mod list_laws;
pub mod model;
pub mod operation_laws;
pub mod page;
pub mod row_laws;
pub mod sampler;
pub mod sampler_laws;
pub mod snapshot;
pub mod sort;
pub mod sort_laws;
pub mod tree;
pub mod tree_laws;
