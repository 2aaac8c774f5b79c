//! Relay hub connecting canvas displays and controller agents.
//!
//! A canvas registers with its display configuration and is assigned a fresh
//! identifier; controllers attach to a canvas by identifier and push `Create`
//! commands into its bounded outbound queue. The registry keeps one handle
//! (queue + last-known configuration) per live canvas. The session module
//! holds the per-connection protocol decisions; the surrounding process runs
//! the transport loops and calls into them.

pub mod ids;
pub mod messages;
pub mod registry;
pub mod session;
