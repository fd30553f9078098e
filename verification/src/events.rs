//! Typed events parsed from the bridge child's output stream.
//!
//! The bridge process writes one JSON object per line; each carries a
//! `type` discriminator. A recognised discriminator becomes one
//! [`ClaudeEvent`] variant; unknown discriminators and non-object lines are
//! dropped without error, so a forward-incompatible line can never crash
//! the relay.
use vstd::prelude::*;

use crate::json::JsonModel;
use crate::json::JsonValue;
use crate::json::json_clone;
use crate::json::lemma_jv_fields_index;
use crate::text::string_eq_str;

verus! {

/// Per-model token usage carried by a turn-result event.
#[derive(Debug, Clone, PartialEq)]
pub struct ModelUsage {
    pub model: String,
    pub input_tokens: u32,
    pub output_tokens: u32,
    pub cache_read_input_tokens: u32,
    pub cache_creation_input_tokens: u32,
    pub context_window: u32,
}

pub ghost struct ModelUsageModel {
    pub model: Seq<char>,
    pub input_tokens: u32,
    pub output_tokens: u32,
    pub cache_read_input_tokens: u32,
    pub cache_creation_input_tokens: u32,
    pub context_window: u32,
}

impl View for ModelUsage {
    type V = ModelUsageModel;

    open spec fn view(&self) -> ModelUsageModel {
        ModelUsageModel {
            model: self.model@,
            input_tokens: self.input_tokens,
            output_tokens: self.output_tokens,
            cache_read_input_tokens: self.cache_read_input_tokens,
            cache_creation_input_tokens: self.cache_creation_input_tokens,
            context_window: self.context_window,
        }
    }
}

/// One unit of bridge output, parsed from a line of the child's stdout.
///
/// The duration of a turn result is carried in whole milliseconds.
#[derive(Debug, PartialEq)]
pub enum ClaudeEvent {
    MessageStart,
    Text { text: String },
    Thinking { text: String },
    ToolUse { id: String, name: String, input: JsonValue },
    ToolResult { tool_use_id: String, content: String, is_error: bool },
    PermissionRequest { id: String, tool: String, input: JsonValue, description: String },
    UserQuestion { id: String, questions: JsonValue },
    Result {
        subtype: String,
        duration_ms: u64,
        is_error: bool,
        num_turns: u32,
        session_id: String,
        model_usage: Option<ModelUsage>,
    },
    Error { message: String },
    System { session_id: String, model: String },
    Ready,
    MessageStop,
}

pub ghost enum ClaudeEventModel {
    MessageStart,
    Text { text: Seq<char> },
    Thinking { text: Seq<char> },
    ToolUse { id: Seq<char>, name: Seq<char>, input: JsonModel },
    ToolResult { tool_use_id: Seq<char>, content: Seq<char>, is_error: bool },
    PermissionRequest { id: Seq<char>, tool: Seq<char>, input: JsonModel, description: Seq<char> },
    UserQuestion { id: Seq<char>, questions: JsonModel },
    Result {
        subtype: Seq<char>,
        duration_ms: u64,
        is_error: bool,
        num_turns: u32,
        session_id: Seq<char>,
        model_usage: Option<ModelUsageModel>,
    },
    Error { message: Seq<char> },
    System { session_id: Seq<char>, model: Seq<char> },
    Ready,
    MessageStop,
}

impl View for ClaudeEvent {
    type V = ClaudeEventModel;

    open spec fn view(&self) -> ClaudeEventModel {
        match *self {
            ClaudeEvent::MessageStart => ClaudeEventModel::MessageStart,
            ClaudeEvent::Text { text } => ClaudeEventModel::Text { text: text@ },
            ClaudeEvent::Thinking { text } => ClaudeEventModel::Thinking { text: text@ },
            ClaudeEvent::ToolUse { id, name, input } => ClaudeEventModel::ToolUse {
                id: id@,
                name: name@,
                input: input@,
            },
            ClaudeEvent::ToolResult { tool_use_id, content, is_error } =>
                ClaudeEventModel::ToolResult {
                tool_use_id: tool_use_id@,
                content: content@,
                is_error,
            },
            ClaudeEvent::PermissionRequest { id, tool, input, description } =>
                ClaudeEventModel::PermissionRequest {
                id: id@,
                tool: tool@,
                input: input@,
                description: description@,
            },
            ClaudeEvent::UserQuestion { id, questions } => ClaudeEventModel::UserQuestion {
                id: id@,
                questions: questions@,
            },
            ClaudeEvent::Result {
                subtype,
                duration_ms,
                is_error,
                num_turns,
                session_id,
                model_usage,
            } => ClaudeEventModel::Result {
                subtype: subtype@,
                duration_ms,
                is_error,
                num_turns,
                session_id: session_id@,
                model_usage: match model_usage {
                    Some(u) => Some(u@),
                    None => None,
                },
            },
            ClaudeEvent::Error { message } => ClaudeEventModel::Error { message: message@ },
            ClaudeEvent::System { session_id, model } => ClaudeEventModel::System {
                session_id: session_id@,
                model: model@,
            },
            ClaudeEvent::Ready => ClaudeEventModel::Ready,
            ClaudeEvent::MessageStop => ClaudeEventModel::MessageStop,
        }
    }
}

// ---------------------------------------------------------------------------
// Field extraction
// ---------------------------------------------------------------------------

/// The string under `key`, or `dflt` when the field is missing or not a
/// string.
pub open spec fn spec_str_field_or(m: JsonModel, key: Seq<char>, dflt: Seq<char>) -> Seq<char> {
    match m.spec_get(key) {
        Some(f) => match f.spec_as_str() {
            Some(s) => s,
            None => dflt,
        },
        None => dflt,
    }
}

pub open spec fn spec_str_field(m: JsonModel, key: Seq<char>) -> Seq<char> {
    spec_str_field_or(m, key, Seq::empty())
}

/// The boolean under `key`, or false.
pub open spec fn spec_bool_field(m: JsonModel, key: Seq<char>) -> bool {
    match m.spec_get(key) {
        Some(f) => match f.spec_as_bool() {
            Some(b) => b,
            None => false,
        },
        None => false,
    }
}

/// The unsigned number under `key`, or 0.
pub open spec fn spec_u64_field(m: JsonModel, key: Seq<char>) -> u64 {
    match m.spec_get(key) {
        Some(f) => match f.spec_as_u64() {
            Some(n) => n,
            None => 0,
        },
        None => 0,
    }
}

/// The value under `key`, or null.
pub open spec fn spec_val_field(m: JsonModel, key: Seq<char>) -> JsonModel {
    match m.spec_get(key) {
        Some(f) => f,
        None => JsonModel::Null,
    }
}

pub fn str_field_or(v: &JsonValue, key: &str, dflt: &str) -> (r: String)
    ensures
        r@ == spec_str_field_or(v@, key@, dflt@),
{
    match v.get(key) {
        Some(f) => match f.as_str() {
            Some(s) => s.clone(),
            None => dflt.to_owned(),
        },
        None => dflt.to_owned(),
    }
}

pub fn str_field(v: &JsonValue, key: &str) -> (r: String)
    ensures
        r@ == spec_str_field(v@, key@),
{
    proof {
        reveal_strlit("");
        assert(""@ =~= Seq::<char>::empty());
    }
    str_field_or(v, key, "")
}

pub fn bool_field(v: &JsonValue, key: &str) -> (r: bool)
    ensures
        r == spec_bool_field(v@, key@),
{
    match v.get(key) {
        Some(f) => match f.as_bool() {
            Some(b) => b,
            None => false,
        },
        None => false,
    }
}

pub fn u64_field(v: &JsonValue, key: &str) -> (r: u64)
    ensures
        r == spec_u64_field(v@, key@),
{
    match v.get(key) {
        Some(f) => match f.as_u64() {
            Some(n) => n,
            None => 0,
        },
        None => 0,
    }
}

pub fn val_field(v: &JsonValue, key: &str) -> (r: JsonValue)
    ensures
        r@ == spec_val_field(v@, key@),
{
    match v.get(key) {
        Some(f) => json_clone(f),
        None => JsonValue::Null,
    }
}

// ---------------------------------------------------------------------------
// Token-usage extraction
// ---------------------------------------------------------------------------

/// A count read under a camel-case key, falling back to the snake-case
/// key, truncated to 32 bits; 0 when absent or not a number.
pub open spec fn spec_usage_num(u: JsonModel, camel: Seq<char>, snake: Seq<char>) -> u32 {
    let picked = match u.spec_get(camel) {
        Some(x) => Some(x),
        None => u.spec_get(snake),
    };
    match picked {
        Some(x) => match x.spec_as_u64() {
            Some(n) => n as u32,
            None => 0,
        },
        None => 0,
    }
}

fn usage_num(u: &JsonValue, camel: &str, snake: &str) -> (r: u32)
    ensures
        r == spec_usage_num(u@, camel@, snake@),
{
    let picked = match u.get(camel) {
        Some(x) => Some(x),
        None => u.get(snake),
    };
    match picked {
        Some(x) => match x.as_u64() {
            Some(n) => #[verifier::truncate] (n as u32),
            None => 0,
        },
        None => 0,
    }
}

/// The first entry of the `model_usage` object, read as a usage record;
/// `None` when the field is absent, not an object, or empty.
pub open spec fn spec_model_usage(m: JsonModel) -> Option<ModelUsageModel> {
    match m.spec_get("model_usage"@) {
        Some(mu) => match mu {
            JsonModel::Obj(fields) => if fields.len() == 0 {
                None
            } else {
                Some(
                    ModelUsageModel {
                        model: fields[0].0,
                        input_tokens: spec_usage_num(fields[0].1, "inputTokens"@, "input_tokens"@),
                        output_tokens: spec_usage_num(
                            fields[0].1,
                            "outputTokens"@,
                            "output_tokens"@,
                        ),
                        cache_read_input_tokens: spec_usage_num(
                            fields[0].1,
                            "cacheReadInputTokens"@,
                            "cache_read_input_tokens"@,
                        ),
                        cache_creation_input_tokens: spec_usage_num(
                            fields[0].1,
                            "cacheCreationInputTokens"@,
                            "cache_creation_input_tokens"@,
                        ),
                        context_window: spec_usage_num(
                            fields[0].1,
                            "contextWindow"@,
                            "context_window"@,
                        ),
                    },
                )
            },
            _ => None,
        },
        None => None,
    }
}

fn model_usage_of(v: &JsonValue) -> (r: Option<ModelUsage>)
    ensures
        match r {
            Some(u) => spec_model_usage(v@) == Some(u@),
            None => spec_model_usage(v@) is None,
        },
{
    match v.get("model_usage") {
        Some(mu) => match mu.as_object() {
            Some(fields) => {
                if fields.len() == 0 {
                    None
                } else {
                    proof {
                        lemma_jv_fields_index(fields@, 0);
                    }
                    let usage = &fields[0].1;
                    Some(
                        ModelUsage {
                            model: fields[0].0.clone(),
                            input_tokens: usage_num(usage, "inputTokens", "input_tokens"),
                            output_tokens: usage_num(usage, "outputTokens", "output_tokens"),
                            cache_read_input_tokens: usage_num(
                                usage,
                                "cacheReadInputTokens",
                                "cache_read_input_tokens",
                            ),
                            cache_creation_input_tokens: usage_num(
                                usage,
                                "cacheCreationInputTokens",
                                "cache_creation_input_tokens",
                            ),
                            context_window: usage_num(usage, "contextWindow", "context_window"),
                        },
                    )
                }
            },
            None => None,
        },
        None => None,
    }
}

// ---------------------------------------------------------------------------
// Classification
// ---------------------------------------------------------------------------

/// What one parsed bridge line means: the event for a recognised `type`
/// discriminator, `None` for everything else.
pub open spec fn spec_bridge_event(m: JsonModel) -> Option<ClaudeEventModel> {
    match m.spec_get("type"@) {
        Some(tv) => match tv.spec_as_str() {
            Some(t) => if t == "ready"@ {
                Some(ClaudeEventModel::Ready)
            } else if t == "system"@ {
                Some(
                    ClaudeEventModel::System {
                        session_id: spec_str_field(m, "session_id"@),
                        model: spec_str_field(m, "model"@),
                    },
                )
            } else if t == "message_start"@ {
                Some(ClaudeEventModel::MessageStart)
            } else if t == "message_stop"@ {
                Some(ClaudeEventModel::MessageStop)
            } else if t == "text"@ {
                Some(ClaudeEventModel::Text { text: spec_str_field(m, "text"@) })
            } else if t == "thinking"@ {
                Some(ClaudeEventModel::Thinking { text: spec_str_field(m, "text"@) })
            } else if t == "tool_use"@ {
                Some(
                    ClaudeEventModel::ToolUse {
                        id: spec_str_field(m, "id"@),
                        name: spec_str_field(m, "name"@),
                        input: spec_val_field(m, "input"@),
                    },
                )
            } else if t == "tool_result"@ {
                Some(
                    ClaudeEventModel::ToolResult {
                        tool_use_id: spec_str_field(m, "tool_use_id"@),
                        content: spec_str_field(m, "content"@),
                        is_error: spec_bool_field(m, "is_error"@),
                    },
                )
            } else if t == "permission_request"@ {
                Some(
                    ClaudeEventModel::PermissionRequest {
                        id: spec_str_field(m, "id"@),
                        tool: spec_str_field(m, "tool"@),
                        input: spec_val_field(m, "input"@),
                        description: spec_str_field(m, "description"@),
                    },
                )
            } else if t == "user_question"@ {
                Some(
                    ClaudeEventModel::UserQuestion {
                        id: spec_str_field(m, "id"@),
                        questions: match m.spec_get("questions"@) {
                            Some(q) => q,
                            None => JsonModel::Arr(Seq::empty()),
                        },
                    },
                )
            } else if t == "result"@ {
                Some(
                    ClaudeEventModel::Result {
                        subtype: spec_str_field_or(m, "subtype"@, "success"@),
                        duration_ms: spec_u64_field(m, "duration_ms"@),
                        is_error: spec_bool_field(m, "is_error"@),
                        num_turns: spec_u64_field(m, "num_turns"@) as u32,
                        session_id: spec_str_field(m, "session_id"@),
                        model_usage: spec_model_usage(m),
                    },
                )
            } else if t == "error"@ {
                Some(
                    ClaudeEventModel::Error {
                        message: spec_str_field_or(m, "message"@, "Unknown error"@),
                    },
                )
            } else {
                None
            },
            None => None,
        },
        None => None,
    }
}

/// Map one parsed bridge line to its typed event. Exactly the recognised
/// `type` discriminators produce an event; every other value yields
/// `None` and is thereby dropped.
pub fn parse_bridge_event(val: &JsonValue) -> (r: Option<ClaudeEvent>)
    ensures
        match r {
            Some(e) => spec_bridge_event(val@) == Some(e@),
            None => spec_bridge_event(val@) is None,
        },
{
    let tv = match val.get("type") {
        Some(t) => t,
        None => {
            return None;
        },
    };
    let t = match tv.as_str() {
        Some(s) => s,
        None => {
            return None;
        },
    };
    if string_eq_str(t, "ready") {
        Some(ClaudeEvent::Ready)
    } else if string_eq_str(t, "system") {
        Some(
            ClaudeEvent::System {
                session_id: str_field(val, "session_id"),
                model: str_field(val, "model"),
            },
        )
    } else if string_eq_str(t, "message_start") {
        Some(ClaudeEvent::MessageStart)
    } else if string_eq_str(t, "message_stop") {
        Some(ClaudeEvent::MessageStop)
    } else if string_eq_str(t, "text") {
        Some(ClaudeEvent::Text { text: str_field(val, "text") })
    } else if string_eq_str(t, "thinking") {
        Some(ClaudeEvent::Thinking { text: str_field(val, "text") })
    } else if string_eq_str(t, "tool_use") {
        Some(
            ClaudeEvent::ToolUse {
                id: str_field(val, "id"),
                name: str_field(val, "name"),
                input: val_field(val, "input"),
            },
        )
    } else if string_eq_str(t, "tool_result") {
        Some(
            ClaudeEvent::ToolResult {
                tool_use_id: str_field(val, "tool_use_id"),
                content: str_field(val, "content"),
                is_error: bool_field(val, "is_error"),
            },
        )
    } else if string_eq_str(t, "permission_request") {
        Some(
            ClaudeEvent::PermissionRequest {
                id: str_field(val, "id"),
                tool: str_field(val, "tool"),
                input: val_field(val, "input"),
                description: str_field(val, "description"),
            },
        )
    } else if string_eq_str(t, "user_question") {
        let questions = match val.get("questions") {
            Some(q) => json_clone(q),
            None => JsonValue::Arr(Vec::new()),
        };
        Some(ClaudeEvent::UserQuestion { id: str_field(val, "id"), questions })
    } else if string_eq_str(t, "result") {
        let num_turns_raw = u64_field(val, "num_turns");
        Some(
            ClaudeEvent::Result {
                subtype: str_field_or(val, "subtype", "success"),
                duration_ms: u64_field(val, "duration_ms"),
                is_error: bool_field(val, "is_error"),
                num_turns: #[verifier::truncate] (num_turns_raw as u32),
                session_id: str_field(val, "session_id"),
                model_usage: model_usage_of(val),
            },
        )
    } else if string_eq_str(t, "error") {
        Some(ClaudeEvent::Error { message: str_field_or(val, "message", "Unknown error") })
    } else {
        None
    }
}

} // verus!
