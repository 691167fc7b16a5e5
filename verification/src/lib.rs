//! Machine-level telemetry for a terminal system monitor: parsers for the
//! Linux `/proc` and `/sys` text formats, the derivation of rates and
//! percentages from consecutive samples, board profiles for sensor
//! grouping, and the text formatting used by the dashboard.

pub mod text;
pub mod metrics;
pub mod rank;
pub mod refresh;
pub mod ui;
