//! A message-of-the-day library: parsers for Linux pseudo-files
//! (uptime, meminfo, cpuinfo, os-release, mount table), helpers that
//! scale raw counts into human-readable figures, a layered-configuration
//! merge, and a renderer that assembles the final report.
//!
//! All text is handled as raw bytes; callers convert to UTF-8 for display.

pub mod bytes;
pub mod config;
pub mod cpuinfo;
pub mod disk;
pub mod meminfo;
pub mod num;
pub mod osinfo;
pub mod report;
pub mod uptime;
pub mod users;
