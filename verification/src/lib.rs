//! Data model and decision logic of a terminal system monitor: turning raw
//! system samples into the figures shown on the dashboard, ordering the
//! process table, ranking directory sizes, and reacting to keyboard and mouse
//! input.
pub mod dirs;
pub mod gauge;
pub mod geometry;
pub mod input;
pub mod layout;
pub mod procs;
pub mod refresh;
pub mod sorting;
pub mod stats;
pub mod text;
