//! Liveness forwarding for a supervised program: the configuration taken from
//! the command line and the environment, the launcher's plan, and the state
//! machine of the health forwarder.
pub mod config;
pub mod forwarder;
pub mod launcher;
pub mod text;
