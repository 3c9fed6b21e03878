//! Sentinel core: the confinement, tool-dispatch and agent-loop subsystem of a
//! chat-operated autonomous agent.
//!
//! The library holds the pure, verifiable heart of the system: the capability
//! checker, the lexical path canonicalizer, the configuration and skill
//! manifest parsers, the audit record renderer, the tool-dispatch planner, the
//! conversation history with its invariants, the agent turn-loop decisions,
//! and the seccomp/Landlock rule builders.  Everything that touches the
//! operating system (files, processes, sockets, clocks) lives outside and
//! hands the library plain values.

pub mod agent;
pub mod audit;
pub mod capability;
pub mod config;
pub mod http;
pub mod manifest;
pub mod messaging;
pub mod num;
pub mod platform;
pub mod sandbox;
pub mod skills;
pub mod sse;
pub mod supervisor;
pub mod text;
pub mod tools;
