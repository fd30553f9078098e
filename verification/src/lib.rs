//! A process-backed session manager, verified with Verus.
//!
//! The core is a registry of live child-process sessions and the command
//! dispatcher over it: spawning registers a session under a fresh
//! identifier, commands are admitted exactly for live sessions, teardown
//! is idempotent and leaves nothing behind. Two managers share that core:
//! [`pty::PtyManager`] for terminal sessions attached to a pseudo
//! terminal, and [`bridge::ClaudeManager`] for a helper child spoken to
//! in line-oriented JSON, whose wire format is produced and parsed by
//! verified code ([`bridge`], [`events`], [`json`]). Around the core
//! stand verified parsers for git output ([`git`]), conversation
//! transcripts ([`conversation`]), directory listings ([`dirtree`]) and
//! tab-title heuristics ([`title`]).
//!
//! The embedding application owns every OS resource — processes, pipes,
//! ptys, threads, files — and performs the I/O that the verified
//! decisions call for.
pub mod bridge;
pub mod config;
pub mod conversation;
pub mod dirtree;
pub mod events;
pub mod git;
pub mod ids;
pub mod json;
pub mod pty;
pub mod registry;
pub mod text;
pub mod title;

use vstd::prelude::*;

verus! {

/// Errors reported by the session managers.
///
/// A lookup of an unknown identifier yields `SessionNotFound`; an attempt
/// to write to a session whose input stream is gone yields `WriteFailure`.
#[derive(Debug, Clone, Copy, PartialEq, Eq, Structural)]
pub enum SessionError {
    SpawnFailure,
    SessionNotFound,
    WriteFailure,
}

impl SessionError {
    /// A short human-readable description of the error.
    pub fn message(&self) -> (r: &'static str)
        ensures
            *self == SessionError::SpawnFailure ==> r@ == "failed to spawn session"@,
            *self == SessionError::SessionNotFound ==> r@ == "session not found"@,
            *self == SessionError::WriteFailure ==> r@ == "write failed: input stream closed"@,
    {
        match self {
            SessionError::SpawnFailure => "failed to spawn session",
            SessionError::SessionNotFound => "session not found",
            SessionError::WriteFailure => "write failed: input stream closed",
        }
    }
}

} // verus!
