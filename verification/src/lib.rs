//! Instrumentation lifecycle manager for a fleet tracing agent.
//!
//! An operator pushes tracing scripts to hosts through a coordination
//! service; each host runs one execution session per assigned script and
//! forwards the captured records through a pluggable byte transport.
//! This crate holds the verified core of that agent: the session registry,
//! the session state machine, the watcher event handling, the assignment
//! configuration parser, and the transport plugin dispatch.  Process glue
//! (sockets, signals, the coordination client, the tracing engine itself)
//! lives outside and talks to this crate through plain values.

pub mod config;
pub mod endpoint;
pub mod manager;
pub mod registry;
pub mod session;
pub mod transport;
