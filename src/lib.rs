//! A typing-speed session engine: keystroke log, edit operations, completion
//! rules, result statistics and the results-log format.
pub mod keystroke;
pub mod results_log;
pub mod session;
pub mod stats;
