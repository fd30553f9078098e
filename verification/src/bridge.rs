//! The bridge-mode session manager.
//!
//! A session is a helper child process spoken to over pipes in
//! line-oriented JSON: outbound commands on its stdin, inbound events on
//! its stdout. This module owns the registry state, the dispatcher
//! decisions, and the wire format itself — every command line handed to
//! the embedding application is produced by the verified encoder here.
//! The application owns the child process and its pipes, writes the lines
//! this module hands it, and drives one [`BridgeRelay`] per session from
//! the stdout reader thread.
use vstd::prelude::*;

use crate::SessionError;
use crate::events::ClaudeEvent;
use crate::events::ClaudeEventModel;
use crate::events::parse_bridge_event;
use crate::events::spec_bridge_event;
use crate::ids::uuid_string;
use crate::json::JsonModel;
use crate::json::JsonValue;
use crate::json::json_parse;
use crate::json::jv_fields;
use crate::json::parse_json_line;
use crate::json::push_json;
use crate::json::push_quoted;
use crate::json::spec_encode_json;
use crate::json::spec_quoted;
use crate::registry::Registry;
use crate::text::chars_to_string;
use crate::text::str_chars;
use crate::text::trim_chars;
use crate::text::trim_ws;

verus! {

/// One outbound command, serialized as one JSON object per line on the
/// child's stdin.
#[derive(Debug, PartialEq)]
pub enum BridgeCommand {
    Init { project_path: String },
    Message { text: String },
    PermissionResponse {
        id: String,
        allowed: bool,
        message: Option<String>,
        updated_input: Option<JsonValue>,
    },
    Abort,
}

pub ghost enum BridgeCommandModel {
    Init { project_path: Seq<char> },
    Message { text: Seq<char> },
    PermissionResponse {
        id: Seq<char>,
        allowed: bool,
        message: Option<Seq<char>>,
        updated_input: Option<JsonModel>,
    },
    Abort,
}

impl View for BridgeCommand {
    type V = BridgeCommandModel;

    open spec fn view(&self) -> BridgeCommandModel {
        match *self {
            BridgeCommand::Init { project_path } => BridgeCommandModel::Init {
                project_path: project_path@,
            },
            BridgeCommand::Message { text } => BridgeCommandModel::Message { text: text@ },
            BridgeCommand::PermissionResponse { id, allowed, message, updated_input } =>
                BridgeCommandModel::PermissionResponse {
                id: id@,
                allowed,
                message: match message {
                    Some(m) => Some(m@),
                    None => None,
                },
                updated_input: match updated_input {
                    Some(u) => Some(u@),
                    None => None,
                },
            },
            BridgeCommand::Abort => BridgeCommandModel::Abort,
        }
    }
}

pub open spec fn spec_bool_chars(b: bool) -> Seq<char> {
    if b {
        seq!['t', 'r', 'u', 'e']
    } else {
        seq!['f', 'a', 'l', 's', 'e']
    }
}

/// The JSON object written for one command: a `type` discriminator first,
/// then the command's fields in a fixed order; an absent free-text message
/// is written as null, an absent replacement input is omitted entirely.
pub open spec fn spec_command_json(c: BridgeCommandModel) -> Seq<char> {
    match c {
        BridgeCommandModel::Init { project_path } => seq!['{'] + spec_quoted("type"@) + seq![':']
            + spec_quoted("init"@) + seq![','] + spec_quoted("projectPath"@) + seq![':']
            + spec_quoted(project_path) + seq!['}'],
        BridgeCommandModel::Message { text } => seq!['{'] + spec_quoted("type"@) + seq![':']
            + spec_quoted("message"@) + seq![','] + spec_quoted("text"@) + seq![':']
            + spec_quoted(text) + seq!['}'],
        BridgeCommandModel::PermissionResponse { id, allowed, message, updated_input } => seq!['{']
            + spec_quoted("type"@) + seq![':'] + spec_quoted("permission_response"@) + seq![',']
            + spec_quoted("id"@) + seq![':'] + spec_quoted(id) + seq![','] + spec_quoted(
            "allowed"@,
        ) + seq![':'] + spec_bool_chars(allowed) + seq![','] + spec_quoted("message"@) + seq![':']
            + (match message {
            Some(m) => spec_quoted(m),
            None => seq!['n', 'u', 'l', 'l'],
        }) + (match updated_input {
            Some(u) => seq![','] + spec_quoted("updatedInput"@) + seq![':'] + spec_encode_json(u),
            None => Seq::empty(),
        }) + seq!['}'],
        BridgeCommandModel::Abort => seq!['{'] + spec_quoted("type"@) + seq![':'] + spec_quoted(
            "abort"@,
        ) + seq!['}'],
    }
}

/// The full line for one command: its JSON object and the terminating
/// newline.
pub open spec fn spec_command_line(c: BridgeCommandModel) -> Seq<char> {
    spec_command_json(c) + seq!['\n']
}

fn push_bool(b: bool, out: &mut Vec<char>)
    ensures
        final(out)@ == old(out)@ + spec_bool_chars(b),
{
    if b {
        out.push('t');
        out.push('r');
        out.push('u');
        out.push('e');
    } else {
        out.push('f');
        out.push('a');
        out.push('l');
        out.push('s');
        out.push('e');
    }
    assert(out@ =~= old(out)@ + spec_bool_chars(b));
}

/// Serialize one command as its wire line, newline included.
#[verifier::rlimit(60)]
pub fn encode_command_line(c: &BridgeCommand) -> (r: String)
    ensures
        r@ == spec_command_line(c@),
{
    let mut out: Vec<char> = Vec::new();
    out.push('{');
    match c {
        BridgeCommand::Init { project_path } => {
            push_quoted("type", &mut out);
            out.push(':');
            push_quoted("init", &mut out);
            out.push(',');
            push_quoted("projectPath", &mut out);
            out.push(':');
            push_quoted(project_path.as_str(), &mut out);
        },
        BridgeCommand::Message { text } => {
            push_quoted("type", &mut out);
            out.push(':');
            push_quoted("message", &mut out);
            out.push(',');
            push_quoted("text", &mut out);
            out.push(':');
            push_quoted(text.as_str(), &mut out);
        },
        BridgeCommand::PermissionResponse { id, allowed, message, updated_input } => {
            push_quoted("type", &mut out);
            out.push(':');
            push_quoted("permission_response", &mut out);
            out.push(',');
            push_quoted("id", &mut out);
            out.push(':');
            push_quoted(id.as_str(), &mut out);
            out.push(',');
            push_quoted("allowed", &mut out);
            out.push(':');
            push_bool(*allowed, &mut out);
            out.push(',');
            push_quoted("message", &mut out);
            out.push(':');
            match message {
                Some(m) => {
                    push_quoted(m.as_str(), &mut out);
                },
                None => {
                    out.push('n');
                    out.push('u');
                    out.push('l');
                    out.push('l');
                },
            }
            match updated_input {
                Some(u) => {
                    out.push(',');
                    push_quoted("updatedInput", &mut out);
                    out.push(':');
                    push_json(u, &mut out);
                },
                None => {},
            }
        },
        BridgeCommand::Abort => {
            push_quoted("type", &mut out);
            out.push(':');
            push_quoted("abort", &mut out);
        },
    }
    out.push('}');
    out.push('\n');
    proof {
        assert(out@ =~= spec_command_line(c@));
    }
    chars_to_string(&out)
}

/// The initialize command for a working directory: the first line a
/// freshly spawned bridge child must receive, before any other command.
pub fn init_command_line(project_path: &str) -> (r: String)
    ensures
        r@ == spec_command_line(BridgeCommandModel::Init { project_path: project_path@ }),
{
    let cmd = BridgeCommand::Init { project_path: project_path.to_owned() };
    encode_command_line(&cmd)
}

/// The registry record for one bridge session. The input stream is open
/// exactly until the child signals end-of-input or exits; the child is
/// alive exactly until it has been reaped.
pub struct ClaudeSession {
    pub project_path: String,
    pub stdin_open: bool,
    pub child_alive: bool,
}

impl Clone for ClaudeSession {
    fn clone(&self) -> (r: Self)
        ensures
            r@ == self@,
    {
        ClaudeSession {
            project_path: self.project_path.clone(),
            stdin_open: self.stdin_open,
            child_alive: self.child_alive,
        }
    }
}

pub ghost struct ClaudeSessionModel {
    pub project_path: Seq<char>,
    pub stdin_open: bool,
    pub child_alive: bool,
}

impl View for ClaudeSession {
    type V = ClaudeSessionModel;

    open spec fn view(&self) -> ClaudeSessionModel {
        ClaudeSessionModel {
            project_path: self.project_path@,
            stdin_open: self.stdin_open,
            child_alive: self.child_alive,
        }
    }
}

/// Registry and dispatcher state for bridge-mode sessions.
pub struct ClaudeManager {
    bridge_path: String,
    sessions: Registry<ClaudeSession>,
}

impl ClaudeManager {
    pub closed spec fn wf(self) -> bool {
        self.sessions.wf()
    }

    /// The sessions, as a map from identifier to record: membership in
    /// this map is the sole source of truth for "session exists".
    pub closed spec fn spec_sessions(self) -> Map<Seq<char>, ClaudeSessionModel> {
        self.sessions.spec_map().map_values(|v: ClaudeSession| v@)
    }

    pub open spec fn spec_contains(self, id: Seq<char>) -> bool {
        self.spec_sessions().dom().contains(id)
    }

    /// Whether a command can be delivered: the session exists and its
    /// input stream is still open.
    pub open spec fn spec_writable(self, id: Seq<char>) -> bool {
        self.spec_contains(id) && self.spec_sessions()[id].stdin_open
    }

    pub closed spec fn spec_bridge_path(self) -> Seq<char> {
        self.bridge_path@
    }

    pub fn new(bridge_path: String) -> (r: Self)
        ensures
            r.wf(),
            r.spec_sessions() == Map::<Seq<char>, ClaudeSessionModel>::empty(),
            r.spec_bridge_path() == bridge_path@,
    {
        let r = ClaudeManager { bridge_path, sessions: Registry::new() };
        proof {
            assert(r.spec_sessions() =~= Map::<Seq<char>, ClaudeSessionModel>::empty());
        }
        r
    }

    /// The path of the bridge helper script the embedder launches.
    pub fn bridge_path(&self) -> (r: &String)
        ensures
            r@ == self.spec_bridge_path(),
    {
        &self.bridge_path
    }

    /// Register a session the caller has just spawned and initialized,
    /// under a fresh identifier. Either the returned identifier was
    /// previously unused and now has a registry entry with its input
    /// stream open, or nothing was registered and the attempt fails; no
    /// other entry is touched. Failure can only come from the drawn
    /// identifier colliding with a registered one, so on an empty
    /// registry success is guaranteed.
    pub fn create_session(&mut self, project_path: &str) -> (r: Result<String, SessionError>)
        requires
            old(self).wf(),
        ensures
            final(self).wf(),
            final(self).spec_bridge_path() == old(self).spec_bridge_path(),
            old(self).spec_sessions() == Map::<Seq<char>, ClaudeSessionModel>::empty() ==> r
                is Ok,
            match r {
                Ok(id) => !old(self).spec_contains(id@) && final(self).spec_sessions() == old(
                    self,
                ).spec_sessions().insert(
                    id@,
                    ClaudeSessionModel {
                        project_path: project_path@,
                        stdin_open: true,
                        child_alive: true,
                    },
                ),
                Err(e) => e == SessionError::SpawnFailure && *final(self) == *old(self),
            },
    {
        let id = uuid_string();
        let ghost idv = id@;
        let r = self.register(id, project_path);
        proof {
            if old(self).spec_sessions() == Map::<Seq<char>, ClaudeSessionModel>::empty() {
                assert(!old(self).spec_contains(idv));
            }
        }
        r
    }

    /// Register a session under a caller-supplied identifier: exactly the
    /// identifiers not already present are admitted, and an admitted
    /// session starts with its input stream open and its child alive.
    pub fn register(&mut self, id: String, project_path: &str) -> (r: Result<
        String,
        SessionError,
    >)
        requires
            old(self).wf(),
        ensures
            final(self).wf(),
            final(self).spec_bridge_path() == old(self).spec_bridge_path(),
            r is Ok <==> !old(self).spec_contains(id@),
            match r {
                Ok(out) => out@ == id@ && final(self).spec_sessions() == old(
                    self,
                ).spec_sessions().insert(
                    id@,
                    ClaudeSessionModel {
                        project_path: project_path@,
                        stdin_open: true,
                        child_alive: true,
                    },
                ),
                Err(e) => e == SessionError::SpawnFailure && *final(self) == *old(self),
            },
    {
        if self.sessions.contains_key(&id) {
            return Err(SessionError::SpawnFailure);
        }
        let info = ClaudeSession {
            project_path: project_path.to_owned(),
            stdin_open: true,
            child_alive: true,
        };
        let ghost m0 = self.spec_sessions();
        let ghost key = id@;
        let ghost model = info@;
        let out = id.clone();
        self.sessions.insert_fresh(id, info);
        proof {
            assert(self.spec_sessions() =~= m0.insert(key, model));
        }
        Ok(out)
    }

    /// Admit one command for the session and serialize it: the caller
    /// writes the returned line to the child's stdin. Exactly the sessions
    /// that exist and still have an open input stream accept a command.
    fn write_command(&self, tab_id: &str, cmd: &BridgeCommand) -> (r: Result<
        String,
        SessionError,
    >)
        requires
            self.wf(),
        ensures
            r is Ok <==> self.spec_writable(tab_id@),
            match r {
                Ok(line) => line@ == spec_command_line(cmd@),
                Err(e) => if self.spec_contains(tab_id@) {
                    e == SessionError::WriteFailure
                } else {
                    e == SessionError::SessionNotFound
                },
            },
    {
        let key = tab_id.to_owned();
        match self.sessions.get(&key) {
            Some(session) => {
                if session.stdin_open {
                    Ok(encode_command_line(cmd))
                } else {
                    Err(SessionError::WriteFailure)
                }
            },
            None => Err(SessionError::SessionNotFound),
        }
    }

    /// Serialize a user message for the session.
    pub fn send_message(&self, tab_id: &str, message: &str) -> (r: Result<String, SessionError>)
        requires
            self.wf(),
        ensures
            r is Ok <==> self.spec_writable(tab_id@),
            match r {
                Ok(line) => line@ == spec_command_line(
                    BridgeCommandModel::Message { text: message@ },
                ),
                Err(e) => if self.spec_contains(tab_id@) {
                    e == SessionError::WriteFailure
                } else {
                    e == SessionError::SessionNotFound
                },
            },
    {
        let cmd = BridgeCommand::Message { text: message.to_owned() };
        self.write_command(tab_id, &cmd)
    }

    /// Serialize a permission decision for the session.
    pub fn respond_to_permission(
        &self,
        tab_id: &str,
        id: &str,
        allowed: bool,
        message: Option<String>,
    ) -> (r: Result<String, SessionError>)
        requires
            self.wf(),
        ensures
            r is Ok <==> self.spec_writable(tab_id@),
            match r {
                Ok(line) => line@ == spec_command_line(
                    BridgeCommandModel::PermissionResponse {
                        id: id@,
                        allowed,
                        message: message.deep_view(),
                        updated_input: None,
                    },
                ),
                Err(e) => if self.spec_contains(tab_id@) {
                    e == SessionError::WriteFailure
                } else {
                    e == SessionError::SessionNotFound
                },
            },
    {
        let cmd = BridgeCommand::PermissionResponse {
            id: id.to_owned(),
            allowed,
            message,
            updated_input: None,
        };
        self.write_command(tab_id, &cmd)
    }

    /// Serialize the answers to a structured question: modelled as an
    /// always-allowed permission decision whose replacement input carries
    /// the answers, since an answered prompt is a specialization of the
    /// permission protocol.
    pub fn respond_to_question(&self, tab_id: &str, id: &str, answers: JsonValue) -> (r: Result<
        String,
        SessionError,
    >)
        requires
            self.wf(),
        ensures
            r is Ok <==> self.spec_writable(tab_id@),
            match r {
                Ok(line) => line@ == spec_command_line(
                    BridgeCommandModel::PermissionResponse {
                        id: id@,
                        allowed: true,
                        message: None,
                        updated_input: Some(
                            JsonModel::Obj(seq![("answers"@, answers@)]),
                        ),
                    },
                ),
                Err(e) => if self.spec_contains(tab_id@) {
                    e == SessionError::WriteFailure
                } else {
                    e == SessionError::SessionNotFound
                },
            },
    {
        let ghost answers_model = answers@;
        let mut updated_fields: Vec<(String, JsonValue)> = Vec::new();
        updated_fields.push(("answers".to_owned(), answers));
        proof {
            reveal_with_fuel(jv_fields, 2);
            assert(updated_fields@.drop_last() =~= Seq::<(String, JsonValue)>::empty());
            assert(jv_fields(updated_fields@) =~= seq![("answers"@, answers_model)]);
        }
        let updated = JsonValue::Obj(updated_fields);
        let cmd = BridgeCommand::PermissionResponse {
            id: id.to_owned(),
            allowed: true,
            message: None,
            updated_input: Some(updated),
        };
        self.write_command(tab_id, &cmd)
    }

    /// Serialize an abort for the session's current turn.
    pub fn interrupt_session(&self, tab_id: &str) -> (r: Result<String, SessionError>)
        requires
            self.wf(),
        ensures
            r is Ok <==> self.spec_writable(tab_id@),
            match r {
                Ok(line) => line@ == spec_command_line(BridgeCommandModel::Abort),
                Err(e) => if self.spec_contains(tab_id@) {
                    e == SessionError::WriteFailure
                } else {
                    e == SessionError::SessionNotFound
                },
            },
    {
        let cmd = BridgeCommand::Abort;
        self.write_command(tab_id, &cmd)
    }

    /// The record of a session, if the identifier names one.
    pub fn session(&self, tab_id: &str) -> (r: Option<ClaudeSession>)
        requires
            self.wf(),
        ensures
            match r {
                Some(info) => self.spec_contains(tab_id@) && info@ == self.spec_sessions()[
                    tab_id@
                ],
                None => !self.spec_contains(tab_id@),
            },
    {
        let key = tab_id.to_owned();
        match self.sessions.get(&key) {
            Some(info) => Some(info.clone()),
            None => None,
        }
    }

    /// Record that the session's reader thread has seen the end of the
    /// child's output: the input stream is gone and the child has been
    /// reaped. The reader's death is the authoritative exit signal; the
    /// session entry itself stays until it is destroyed.
    pub fn on_reader_exit(&mut self, tab_id: &str) -> (had: bool)
        requires
            old(self).wf(),
        ensures
            final(self).wf(),
            final(self).spec_bridge_path() == old(self).spec_bridge_path(),
            had == old(self).spec_contains(tab_id@),
            had ==> final(self).spec_sessions() == old(self).spec_sessions().insert(
                tab_id@,
                ClaudeSessionModel {
                    project_path: old(self).spec_sessions()[tab_id@].project_path,
                    stdin_open: false,
                    child_alive: false,
                },
            ),
            !had ==> *final(self) == *old(self),
    {
        let key = tab_id.to_owned();
        let ghost m0 = self.spec_sessions();
        match self.sessions.remove(&key) {
            Some(info) => {
                self.sessions.insert_fresh(
                    key,
                    ClaudeSession {
                        project_path: info.project_path,
                        stdin_open: false,
                        child_alive: false,
                    },
                );
                proof {
                    assert(self.spec_sessions() =~= m0.insert(
                        tab_id@,
                        ClaudeSessionModel {
                            project_path: m0[tab_id@].project_path,
                            stdin_open: false,
                            child_alive: false,
                        },
                    ));
                }
                true
            },
            None => false,
        }
    }

    /// Remove the session from the registry; reports whether it was
    /// present, so that the caller can drop the child's stdin, kill it
    /// and wait for it. Destroying an absent identifier is a successful
    /// no-op: destroy is idempotent.
    pub fn destroy_session(&mut self, tab_id: &str) -> (had: bool)
        requires
            old(self).wf(),
        ensures
            final(self).wf(),
            final(self).spec_bridge_path() == old(self).spec_bridge_path(),
            final(self).spec_sessions() == old(self).spec_sessions().remove(tab_id@),
            had == old(self).spec_contains(tab_id@),
    {
        let key = tab_id.to_owned();
        let ghost m0 = self.spec_sessions();
        let had = self.sessions.remove(&key).is_some();
        proof {
            assert(self.spec_sessions() =~= m0.remove(tab_id@));
        }
        had
    }

    /// Remove every session, returning the identifiers that were present
    /// so that the caller can kill and reap each child. The registry is
    /// left empty: invoked at process-wide shutdown so that no child
    /// outlives the manager.
    pub fn destroy_all(&mut self) -> (ids: Vec<String>)
        requires
            old(self).wf(),
        ensures
            final(self).wf(),
            final(self).spec_bridge_path() == old(self).spec_bridge_path(),
            final(self).spec_sessions() == Map::<Seq<char>, ClaudeSessionModel>::empty(),
            forall|k: Seq<char>|
                old(self).spec_contains(k) <==> exists|i: int|
                    0 <= i < ids@.len() && ids@[i]@ == k,
    {
        let ids = self.sessions.drain_keys();
        proof {
            assert(self.spec_sessions() =~= Map::<Seq<char>, ClaudeSessionModel>::empty());
            assert forall|k: Seq<char>|
                old(self).spec_contains(k) <==> exists|i: int|
                    0 <= i < ids@.len() && ids@[i]@ == k by {
                assert(old(self).sessions.spec_contains(k) <==> exists|i: int|
                    0 <= i < ids@.len() && ids@[i]@ == k);
                assert(old(self).spec_contains(k) == old(self).sessions.spec_map().dom().contains(
                    k,
                ));
            }
        }
        ids
    }
}


/// Destroying twice is as destroying once: `destroy_session` leaves the
/// registry without the identifier, a second destroy of the same
/// identifier finds nothing to remove and still succeeds, and the
/// registry after both calls is the registry after the first.
pub proof fn lemma_destroy_idempotent(m: Map<Seq<char>, ClaudeSessionModel>, id: Seq<char>)
    ensures
        m.remove(id).remove(id) == m.remove(id),
        !m.remove(id).dom().contains(id),
{
    assert(m.remove(id).remove(id) =~= m.remove(id));
}

/// A command after a destroy fails with `SessionNotFound`:
/// `destroy_session` leaves the registry without the identifier, and the
/// dispatcher errs that way exactly on identifiers outside the registry.
pub proof fn lemma_no_command_after_destroy(
    before: ClaudeManager,
    after: ClaudeManager,
    id: Seq<char>,
)
    requires
        after.spec_sessions() == before.spec_sessions().remove(id),
    ensures
        !after.spec_contains(id),
        !after.spec_writable(id),
{
}

/// A command after the child has exited fails with `WriteFailure`: the
/// reader's death closes the session's input stream, and a session whose
/// input stream is closed accepts no command, while the session itself is
/// still registered.
pub proof fn lemma_no_command_after_reader_exit(
    before: ClaudeManager,
    after: ClaudeManager,
    id: Seq<char>,
    path: Seq<char>,
)
    requires
        after.spec_sessions() == before.spec_sessions().insert(
            id,
            ClaudeSessionModel { project_path: path, stdin_open: false, child_alive: false },
        ),
    ensures
        after.spec_contains(id),
        !after.spec_writable(id),
{
}

/// What one line of the child's stdout means: nothing for a blank line,
/// nothing for an unparseable or unrecognised line (such lines are
/// silently dropped), otherwise the typed event.
pub open spec fn spec_line_event(line: Seq<char>) -> Option<ClaudeEventModel> {
    let t = trim_ws(line);
    if t.len() == 0 {
        None
    } else {
        match json_parse(t) {
            Some(m) => spec_bridge_event(m),
            None => None,
        }
    }
}

/// The per-session output relay for bridge mode: folds the lines the
/// reader thread observes into the stream of typed events handed to the
/// sink, in observation order.
pub struct BridgeRelay {
    emitted: Ghost<Seq<ClaudeEventModel>>,
}

impl BridgeRelay {
    /// Events produced so far, oldest first.
    pub closed spec fn spec_emitted(self) -> Seq<ClaudeEventModel> {
        self.emitted@
    }

    pub fn new() -> (r: Self)
        ensures
            r.spec_emitted() == Seq::<ClaudeEventModel>::empty(),
    {
        BridgeRelay { emitted: Ghost(Seq::empty()) }
    }

    /// Fold one line of the child's stdout: the line's event, if any, is
    /// appended to the stream in arrival order; blank, unparseable and
    /// unrecognised lines produce nothing and change nothing.
    pub fn on_line(&mut self, line: &str) -> (r: Option<ClaudeEvent>)
        ensures
            match r {
                Some(e) => spec_line_event(line@) == Some(e@) && final(self).spec_emitted() == old(
                    self,
                ).spec_emitted().push(e@),
                None => spec_line_event(line@) is None && *final(self) == *old(self),
            },
    {
        let chars = str_chars(line);
        let trimmed = trim_chars(&chars);
        if trimmed.len() == 0 {
            return None;
        }
        let s = chars_to_string(&trimmed);
        match parse_json_line(s.as_str()) {
            Some(v) => match parse_bridge_event(&v) {
                Some(e) => {
                    self.emitted = Ghost(self.emitted@.push(e@));
                    Some(e)
                },
                None => None,
            },
            None => None,
        }
    }
}

} // verus!
