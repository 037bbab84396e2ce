//! Screen-time logging: week-boundary detection, the text format of the
//! sample log, and the decisions of the polling loop.
pub mod daemon;
pub mod log;
pub mod week;
