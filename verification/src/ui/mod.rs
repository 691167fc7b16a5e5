//! The text of the dashboard: numbers as the panels print them, and the
//! arrangement of the CPU and memory panels.
pub mod format;
pub mod layout;
