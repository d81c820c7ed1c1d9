//! Multi-agent collaboration: message kinds, conflict detection and
//! resolution, and agent health monitoring.

pub mod conflict_detector;
pub mod health_monitor;
pub mod messages;
