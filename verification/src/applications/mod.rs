//! The application page: the windows of the desktop and their icons.

pub mod icons;
pub mod sampler;
pub mod task_laws;
pub mod walk_laws;
