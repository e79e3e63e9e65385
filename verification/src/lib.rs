//! The logic of a task manager for Windows.

pub mod applications;
pub mod bits;
pub mod bytes;
pub mod cpu;
pub mod gpu;
pub mod history;
pub mod options;
pub mod pdh;
pub mod percent;
pub mod perf_drawing;
pub mod perf_graphs;
pub mod perf_laws;
pub mod perf_layout;
pub mod perfpage;
pub mod process_identity;
pub mod processes;
pub mod rect;
pub mod resource;
pub mod seqs;
pub mod table;
pub mod text;
pub mod text_laws;
pub mod utf16;
pub mod win32;
