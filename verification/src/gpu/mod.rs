//! Graphics adapters: counters, inventory, metadata, layout and page state.

pub mod adapter_history;
pub mod choice_laws;
pub mod collector;
pub mod collector_laws;
pub mod controls;
pub mod counter_array;
pub mod counter_laws;
pub mod counters;
pub mod engine_laws;
pub mod engines;
pub mod graph_heights;
pub mod graphs;
pub mod instances;
pub mod inventory;
pub mod layout;
pub mod layout_laws;
pub mod memory_laws;
pub mod metadata;
pub mod model;
pub mod page;
pub mod page_laws;
pub mod report_laws;
pub mod selection;
pub mod status;
pub mod values;
