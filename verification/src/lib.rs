//! Interval-driven health-check scheduling for a set of monitored backends.
//!
//! The crate follows the flow of the data:
//!
//! - [`duration`] reads duration strings into [`duration::Interval`] values;
//! - [`config`] reads the configuration document that lists the remotes;
//! - [`model`] holds the backends and their health checks as the engine
//!   sees them;
//! - [`scheduler`] keeps one timer per check and says which are due;
//! - [`health`] prepares probes, judges what came of them, and keeps the
//!   verdict on each check;
//! - [`url`] splits the url of a remote into host, port and path;
//! - [`yaml`] states what is taken on trust from the YAML reader.
//!
//! The crate holds no clock and opens no socket. Its caller polls the
//! scheduler with the current time, carries out the probes it is handed,
//! and reports back what it observed.

pub mod config;
pub mod duration;
pub mod health;
pub mod model;
pub mod scheduler;
pub mod url;
pub mod yaml;
