//! Reconstruction of a cooperative multi-core executor's runtime behaviour from the trace
//! records its firmware emits: parsing the records, replaying them through per-executor
//! and per-task state machines with time-windowed histories, and deriving utilization and
//! waiting-time statistics.
pub mod time;
pub mod text;
pub mod trace_data;
pub mod elf_file;
pub mod window;
pub mod task;
pub mod executor;
pub mod stats;
pub mod instance;
pub mod cargo_build;
pub mod output_lines;
pub mod log_view;
