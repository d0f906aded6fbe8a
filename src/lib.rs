//! Telemetry persistence and chart layout for a CPU monitor.
//!
//! `csv_logger` keeps the day logs and the live display window, `log_format`
//! writes and reads the log text, `series` and `plotter` turn point series
//! into drawing primitives.
pub mod csv_logger;
pub mod log_format;
pub mod main_window;
pub mod plotter;
pub mod record;
pub mod series;
pub mod settings;
pub mod text;
