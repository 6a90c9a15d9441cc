//! Transparent redirector core: a verified classification and redirection
//! engine that correlates raw network packets with socket lifecycle events,
//! applies a process-level intercept policy, and routes each packet either
//! back into the kernel or to a controller process.
//!
//! The surrounding process (diverter handles, the IPC pipe, the event loop)
//! lives outside this crate; it feeds [`engine::Redirector::handle_event`]
//! with plain events and performs the returned outputs.

pub mod cache;
pub mod engine;
pub mod events;
pub mod laws;
pub mod model;
pub mod net;
pub mod packet;
pub mod policy;
