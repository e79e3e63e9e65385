//! Sources of processor details: topology, counters, firmware.

pub mod collector;
pub mod collector_laws;
pub mod detail_laws;
pub mod features;
pub mod firmware;
pub mod frequency_laws;
pub mod model;
pub mod native;
pub mod pdh;
pub mod processor_set;
pub mod record_order;
pub mod topology_laws;
