//! The terminal-mode session manager.
//!
//! A session is a child process attached to a pseudo-terminal. This module
//! owns the registry state and the decisions of the command dispatcher:
//! which operations are admitted, what they change, and which errors they
//! report. The embedding application owns the OS resources (the pty pair,
//! its writer and the child handle, keyed by the session identifier),
//! performs the I/O that an admitted operation calls for, and drives one
//! [`PtyRelay`] per session from the pty reader thread.
use vstd::prelude::*;

use crate::SessionError;
use crate::ids::uuid_string;
use crate::registry::Registry;

verus! {

pub type SessionId = String;

/// One unit of terminal output: a raw byte chunk, or the single final exit
/// event carrying the child's exit code if it was available.
#[derive(Debug, Clone, PartialEq, Eq)]
pub enum PtyOutputEvent {
    Data(Vec<u8>),
    Exit(Option<u32>),
}

/// The registry record for one terminal session: the spawn-time working
/// directory (reference only) and the current pseudo-terminal dimensions.
pub struct PtySession {
    pub project_path: String,
    pub cols: u16,
    pub rows: u16,
}

impl Clone for PtySession {
    fn clone(&self) -> (r: Self)
        ensures
            r@ == self@,
    {
        PtySession { project_path: self.project_path.clone(), cols: self.cols, rows: self.rows }
    }
}

/// The mathematical model of a session record.
pub ghost struct PtySessionModel {
    pub project_path: Seq<char>,
    pub cols: u16,
    pub rows: u16,
}

impl View for PtySession {
    type V = PtySessionModel;

    open spec fn view(&self) -> PtySessionModel {
        PtySessionModel { project_path: self.project_path@, cols: self.cols, rows: self.rows }
    }
}

/// Registry and dispatcher state for terminal-mode sessions.
pub struct PtyManager {
    sessions: Registry<PtySession>,
}

impl PtyManager {
    pub closed spec fn wf(self) -> bool {
        self.sessions.wf()
    }

    /// The sessions, as a map from identifier to record: membership in
    /// this map is the sole source of truth for "session exists".
    pub closed spec fn spec_sessions(self) -> Map<Seq<char>, PtySessionModel> {
        self.sessions.spec_map().map_values(|v: PtySession| v@)
    }

    pub open spec fn spec_contains(self, id: Seq<char>) -> bool {
        self.spec_sessions().dom().contains(id)
    }

    pub fn new() -> (r: Self)
        ensures
            r.wf(),
            r.spec_sessions() == Map::<Seq<char>, PtySessionModel>::empty(),
    {
        let r = PtyManager { sessions: Registry::new() };
        proof {
            assert(r.spec_sessions() =~= Map::<Seq<char>, PtySessionModel>::empty());
        }
        r
    }

    /// Register a session that the caller has just spawned, under a fresh
    /// identifier. Either the returned identifier was previously unused
    /// and now has a registry entry, or nothing was registered and the
    /// spawn attempt fails; no other entry is touched. Failure can only
    /// come from the drawn identifier colliding with a registered one, so
    /// on an empty registry success is guaranteed.
    pub fn spawn(&mut self, project_path: &str, cols: u16, rows: u16) -> (r: Result<
        SessionId,
        SessionError,
    >)
        requires
            old(self).wf(),
            cols >= 1,
            rows >= 1,
        ensures
            final(self).wf(),
            old(self).spec_sessions() == Map::<Seq<char>, PtySessionModel>::empty() ==> r is Ok,
            match r {
                Ok(id) => !old(self).spec_contains(id@) && final(self).spec_sessions() == old(
                    self,
                ).spec_sessions().insert(
                    id@,
                    PtySessionModel { project_path: project_path@, cols, rows },
                ),
                Err(e) => e == SessionError::SpawnFailure && *final(self) == *old(self),
            },
    {
        let id = uuid_string();
        let ghost idv = id@;
        let r = self.register(id, project_path, cols, rows);
        proof {
            if old(self).spec_sessions() == Map::<Seq<char>, PtySessionModel>::empty() {
                assert(!old(self).spec_contains(idv));
            }
        }
        r
    }

    /// Register a session under a caller-supplied identifier: exactly the
    /// identifiers not already present are admitted.
    pub fn register(&mut self, id: SessionId, project_path: &str, cols: u16, rows: u16) -> (r:
        Result<SessionId, SessionError>)
        requires
            old(self).wf(),
            cols >= 1,
            rows >= 1,
        ensures
            final(self).wf(),
            r is Ok <==> !old(self).spec_contains(id@),
            match r {
                Ok(out) => out@ == id@ && final(self).spec_sessions() == old(
                    self,
                ).spec_sessions().insert(
                    id@,
                    PtySessionModel { project_path: project_path@, cols, rows },
                ),
                Err(e) => e == SessionError::SpawnFailure && *final(self) == *old(self),
            },
    {
        if self.sessions.contains_key(&id) {
            return Err(SessionError::SpawnFailure);
        }
        let info = PtySession { project_path: project_path.to_owned(), cols, rows };
        let ghost m0 = self.spec_sessions();
        let ghost key = id@;
        let ghost model = info@;
        let out = id.clone();
        self.sessions.insert_fresh(id, info);
        proof {
            assert(self.spec_sessions() =~= m0.insert(key, model));
        }
        Ok(out)
    }

    /// Admit a write to the session's input stream: the identifier must
    /// name a registered session. The caller then forwards the bytes to
    /// the pty writer; the registry is not changed.
    pub fn write(&self, session_id: &str) -> (r: Result<(), SessionError>)
        requires
            self.wf(),
        ensures
            r is Ok <==> self.spec_contains(session_id@),
            r is Err ==> r == Err::<(), SessionError>(SessionError::SessionNotFound),
    {
        let key = session_id.to_owned();
        if self.sessions.contains_key(&key) {
            Ok(())
        } else {
            Err(SessionError::SessionNotFound)
        }
    }

    /// Record new pseudo-terminal dimensions for the session; the caller
    /// then applies them to the pty master. Exactly the registered
    /// identifiers succeed, and only the named session is changed.
    pub fn resize(&mut self, session_id: &str, cols: u16, rows: u16) -> (r: Result<
        (),
        SessionError,
    >)
        requires
            old(self).wf(),
            cols >= 1,
            rows >= 1,
        ensures
            final(self).wf(),
            r is Ok <==> old(self).spec_contains(session_id@),
            r is Ok ==> final(self).spec_sessions() == old(self).spec_sessions().insert(
                session_id@,
                PtySessionModel {
                    project_path: old(self).spec_sessions()[session_id@].project_path,
                    cols,
                    rows,
                },
            ),
            r is Err ==> r == Err::<(), SessionError>(SessionError::SessionNotFound)
                && *final(self) == *old(self),
    {
        let key = session_id.to_owned();
        let ghost m0 = self.spec_sessions();
        match self.sessions.remove(&key) {
            Some(info) => {
                self.sessions.insert_fresh(
                    key,
                    PtySession { project_path: info.project_path, cols, rows },
                );
                proof {
                    assert(self.spec_sessions() =~= m0.insert(
                        session_id@,
                        PtySessionModel { project_path: m0[session_id@].project_path, cols, rows },
                    ));
                }
                Ok(())
            },
            None => Err(SessionError::SessionNotFound),
        }
    }

    /// The record of a session, if the identifier names one.
    pub fn session(&self, session_id: &str) -> (r: Option<PtySession>)
        requires
            self.wf(),
        ensures
            match r {
                Some(info) => self.spec_contains(session_id@) && info@ == self.spec_sessions()[
                    session_id@
                ],
                None => !self.spec_contains(session_id@),
            },
    {
        let key = session_id.to_owned();
        match self.sessions.get(&key) {
            Some(info) => Some(info.clone()),
            None => None,
        }
    }

    /// Remove the session from the registry; reports whether it was
    /// present, so that the caller can kill and reap the child. Removing
    /// an absent identifier is a successful no-op: kill is idempotent.
    pub fn kill(&mut self, session_id: &str) -> (had: bool)
        requires
            old(self).wf(),
        ensures
            final(self).wf(),
            final(self).spec_sessions() == old(self).spec_sessions().remove(session_id@),
            had == old(self).spec_contains(session_id@),
    {
        let key = session_id.to_owned();
        let ghost m0 = self.spec_sessions();
        let had = self.sessions.remove(&key).is_some();
        proof {
            assert(self.spec_sessions() =~= m0.remove(session_id@));
        }
        had
    }

    /// Remove every session, returning the identifiers that were present
    /// so that the caller can kill and reap each child. The registry is
    /// left empty.
    pub fn kill_all(&mut self) -> (ids: Vec<SessionId>)
        requires
            old(self).wf(),
        ensures
            final(self).wf(),
            final(self).spec_sessions() == Map::<Seq<char>, PtySessionModel>::empty(),
            forall|k: Seq<char>|
                old(self).spec_contains(k) <==> exists|i: int|
                    0 <= i < ids@.len() && ids@[i]@ == k,
    {
        let ids = self.sessions.drain_keys();
        proof {
            assert(self.spec_sessions() =~= Map::<Seq<char>, PtySessionModel>::empty());
            assert forall|k: Seq<char>|
                old(self).spec_contains(k) <==> exists|i: int|
                    0 <= i < ids@.len() && ids@[i]@ == k by {
                assert(old(self).sessions.spec_contains(k) <==> exists|i: int|
                    0 <= i < ids@.len() && ids@[i]@ == k);
                assert(old(self).spec_contains(k) == old(self).sessions.spec_map().dom().contains(
                    k,
                ));
            }
        }
        ids
    }
}

/// Killing twice is as killing once: `kill` leaves the registry without
/// the identifier, a second `kill` of the same identifier finds nothing
/// to remove and still succeeds, and the registry after both calls is the
/// registry after the first.
pub proof fn lemma_kill_idempotent(m: Map<Seq<char>, PtySessionModel>, id: Seq<char>)
    ensures
        m.remove(id).remove(id) == m.remove(id),
        !m.remove(id).dom().contains(id),
{
    assert(m.remove(id).remove(id) =~= m.remove(id));
}

/// A write after a kill fails with `SessionNotFound`: `kill` leaves the
/// registry without the identifier, and `write` errs exactly on
/// identifiers outside the registry.
pub proof fn lemma_write_after_kill(before: PtyManager, after: PtyManager, id: Seq<char>)
    requires
        after.spec_sessions() == before.spec_sessions().remove(id),
    ensures
        !after.spec_contains(id),
{
}


/// The command line for a terminal session's child: the shell runs the
/// interactive CLI, with a flag to continue the previous conversation.
/// The first element is the program, the rest its arguments.
pub fn claude_shell_command(continue_session: bool) -> (r: Vec<String>)
    ensures
        r@.len() == (if continue_session {
            4int
        } else {
            3int
        }),
        r@[0]@ == "cmd.exe"@,
        r@[1]@ == "/c"@,
        r@[2]@ == "agent"@,
        continue_session ==> r@[3]@ == "--continue"@,
{
    let mut r: Vec<String> = Vec::new();
    r.push("cmd.exe".to_owned());
    r.push("/c".to_owned());
    r.push("agent".to_owned());
    if continue_session {
        r.push("--continue".to_owned());
    }
    r
}

/// The per-session output relay: folds what the reader thread observes
/// into the stream of events handed to the sink, in observation order.
///
/// The ghost `emitted` sequence records every event produced so far.
pub struct PtyRelay {
    exited: bool,
    emitted: Ghost<Seq<PtyOutputEvent>>,
}

impl PtyRelay {
    /// Events produced so far, oldest first.
    pub closed spec fn spec_emitted(self) -> Seq<PtyOutputEvent> {
        self.emitted@
    }

    /// Whether the terminal exit event has been produced.
    pub closed spec fn spec_exited(self) -> bool {
        self.exited
    }

    /// An exit event can only stand last in the stream, and it stands
    /// there exactly when the relay has exited.
    pub open spec fn wf(self) -> bool {
        &&& forall|i: int|
            0 <= i < self.spec_emitted().len() && self.spec_emitted()[i] is Exit ==> i
                == self.spec_emitted().len() - 1
        &&& self.spec_exited() <==> (self.spec_emitted().len() > 0 && self.spec_emitted().last()
            is Exit)
    }

    pub fn new() -> (r: Self)
        ensures
            r.wf(),
            r.spec_emitted() == Seq::<PtyOutputEvent>::empty(),
            !r.spec_exited(),
    {
        PtyRelay { exited: false, emitted: Ghost(Seq::empty()) }
    }

    /// Fold one chunk read from the pty: every non-empty chunk becomes a
    /// data event, appended to the stream in arrival order; empty chunks
    /// produce nothing; nothing at all is produced after the exit event.
    pub fn on_chunk(&mut self, data: Vec<u8>) -> (r: Option<PtyOutputEvent>)
        requires
            old(self).wf(),
        ensures
            final(self).wf(),
            old(self).spec_exited() ==> r is None && *final(self) == *old(self),
            !old(self).spec_exited() && data@.len() > 0 ==> r == Some(
                PtyOutputEvent::Data(data),
            ) && final(self).spec_emitted() == old(self).spec_emitted().push(
                PtyOutputEvent::Data(data),
            ) && !final(self).spec_exited(),
            !old(self).spec_exited() && data@.len() == 0 ==> r is None && *final(self) == *old(
                self,
            ),
    {
        if self.exited {
            return None;
        }
        if data.len() == 0 {
            return None;
        }
        proof {
            if self.spec_emitted().len() > 0 {
                assert(!(self.spec_emitted().last() is Exit));
            }
        }
        self.emitted = Ghost(self.emitted@.push(PtyOutputEvent::Data(data)));
        Some(PtyOutputEvent::Data(data))
    }

    /// Fold the end of the output stream: the single exit event, carrying
    /// the exit code if the child's status was available. At most one exit
    /// event is ever produced.
    pub fn on_eof(&mut self, exit_code: Option<u32>) -> (r: Option<PtyOutputEvent>)
        requires
            old(self).wf(),
        ensures
            final(self).wf(),
            old(self).spec_exited() ==> r is None && *final(self) == *old(self),
            !old(self).spec_exited() ==> r == Some(PtyOutputEvent::Exit(exit_code))
                && final(self).spec_emitted() == old(self).spec_emitted().push(
                PtyOutputEvent::Exit(exit_code),
            ) && final(self).spec_exited(),
    {
        if self.exited {
            return None;
        }
        proof {
            if self.spec_emitted().len() > 0 {
                assert(!(self.spec_emitted().last() is Exit));
            }
        }
        self.exited = true;
        self.emitted = Ghost(self.emitted@.push(PtyOutputEvent::Exit(exit_code)));
        Some(PtyOutputEvent::Exit(exit_code))
    }
}

/// Exactly one terminal exit event per session, and nothing follows it:
/// in any relay stream, exit events are unique and final.
pub proof fn lemma_exit_is_final(r: PtyRelay)
    requires
        r.wf(),
    ensures
        forall|i: int, j: int|
            0 <= i < r.spec_emitted().len() && 0 <= j < r.spec_emitted().len()
                && r.spec_emitted()[i] is Exit && r.spec_emitted()[j] is Exit ==> i == j,
        forall|i: int|
            0 <= i < r.spec_emitted().len() && (#[trigger] r.spec_emitted()[i]) is Exit ==> i
                == r.spec_emitted().len() - 1,
{
}

} // verus!
