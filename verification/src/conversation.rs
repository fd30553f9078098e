//! Reading a conversation transcript: one JSON object per line, reduced
//! to the ordered, deduplicated user and assistant messages.
//!
//! The file itself is read outside the library; its contents are handed
//! in as text. Lines that do not parse, carry other record types, or are
//! side-chain or meta records are skipped; messages are deduplicated by
//! their identifier, a later record replacing an earlier one in place, so
//! the order of first appearance is kept.
use vstd::prelude::*;
use vstd::string::StrSliceExecFns;

use crate::json::JsonModel;
use crate::json::JsonValue;
use crate::json::json_parse;
use crate::json::parse_json_line;
use crate::json::jv_models;
use crate::json::lemma_jv_models_index;
use crate::json::lemma_jv_models_len;
use crate::text::chars_to_string;
use crate::text::spec_ascii_alphanumeric;
use crate::text::is_ascii_alphanumeric_char;
use crate::text::spec_lines;
use crate::text::split_lines;
use crate::text::str_chars;
use crate::text::string_eq_str;
use crate::text::trim_chars;
use crate::text::trim_ws;
use crate::events::str_field;
use crate::events::spec_str_field;

verus! {

/// One message of a conversation transcript, normalized for display:
/// user messages carry the role `human`.
#[derive(Debug, PartialEq, Eq)]
pub struct ConversationMessage {
    pub uuid: String,
    pub role: String,
    pub text: String,
    pub timestamp: String,
}

pub ghost struct ConversationMessageModel {
    pub uuid: Seq<char>,
    pub role: Seq<char>,
    pub text: Seq<char>,
    pub timestamp: Seq<char>,
}

impl View for ConversationMessage {
    type V = ConversationMessageModel;

    open spec fn view(&self) -> ConversationMessageModel {
        ConversationMessageModel {
            uuid: self.uuid@,
            role: self.role@,
            text: self.text@,
            timestamp: self.timestamp@,
        }
    }
}

impl DeepView for ConversationMessage {
    type V = ConversationMessageModel;

    open spec fn deep_view(&self) -> ConversationMessageModel {
        self.view()
    }
}

/// The project-directory encoding used for transcript directories: every
/// character that is not ASCII alphanumeric becomes a hyphen.
pub open spec fn spec_encode_project_dir(s: Seq<char>) -> Seq<char> {
    s.map_values(
        |c: char|
            if spec_ascii_alphanumeric(c) {
                c
            } else {
                '-'
            },
    )
}

/// Encode a project directory path as the transcript store names it.
pub fn encode_project_dir(path: &str) -> (r: String)
    ensures
        r@ == spec_encode_project_dir(path@),
{
    let chars = str_chars(path);
    let ghost cs = chars@;
    let mut out: Vec<char> = Vec::new();
    let mut i: usize = 0;
    proof {
        assert(out@ =~= spec_encode_project_dir(cs).take(0));
    }
    while i < chars.len()
        invariant
            i <= cs.len(),
            cs == chars@,
            cs == path@,
            out@ == spec_encode_project_dir(cs).take(i as int),
        decreases cs.len() - i,
    {
        if is_ascii_alphanumeric_char(chars[i]) {
            out.push(chars[i]);
        } else {
            out.push('-');
        }
        assert(out@ =~= spec_encode_project_dir(cs).take(i + 1));
        i += 1;
    }
    proof {
        assert(spec_encode_project_dir(cs).take(cs.len() as int) =~= spec_encode_project_dir(cs));
    }
    chars_to_string(&out)
}

// ---------------------------------------------------------------------------
// One transcript record
// ---------------------------------------------------------------------------

/// The text block one content item contributes: the `text` of a
/// `type: text` block, or a bare string item; anything else contributes
/// nothing.
pub open spec fn spec_item_block(it: JsonModel) -> Option<Seq<char>> {
    let type_is_text = match it.spec_get("type"@) {
        Some(tv) => match tv.spec_as_str() {
            Some(t) => t == "text"@,
            None => false,
        },
        None => false,
    };
    if type_is_text {
        match it.spec_get("text"@) {
            Some(x) => x.spec_as_str(),
            None => None,
        }
    } else {
        match it {
            JsonModel::Str(s) => Some(s),
            _ => None,
        }
    }
}

pub open spec fn spec_content_blocks(items: Seq<JsonModel>) -> Seq<Seq<char>>
    decreases items.len(),
{
    if items.len() == 0 {
        Seq::empty()
    } else {
        spec_content_blocks(items.drop_last()) + (match spec_item_block(items.last()) {
            Some(b) => seq![b],
            None => Seq::empty(),
        })
    }
}

/// Blocks joined by a blank line.
pub open spec fn spec_join_blocks(blocks: Seq<Seq<char>>) -> Seq<char>
    decreases blocks.len(),
{
    if blocks.len() == 0 {
        Seq::empty()
    } else if blocks.len() == 1 {
        blocks[0]
    } else {
        spec_join_blocks(blocks.drop_last()) + "\n\n"@ + blocks.last()
    }
}

/// The display text of a record: a plain string content as it stands, an
/// array content as its text blocks joined by blank lines, anything else
/// as empty.
pub open spec fn spec_record_text(m: JsonModel) -> Seq<char> {
    let content = match m.spec_get("message"@) {
        Some(msg) => msg.spec_get("content"@),
        None => None,
    };
    match content {
        Some(c) => match c {
            JsonModel::Str(s) => s,
            JsonModel::Arr(items) => spec_join_blocks(spec_content_blocks(items)),
            _ => Seq::empty(),
        },
        None => Seq::empty(),
    }
}

/// The message identifier of a record: an assistant record's
/// `message.id`, else the record's own `uuid`.
pub open spec fn spec_record_uuid(m: JsonModel) -> Option<Seq<char>> {
    let from_message = match m.spec_get("message"@) {
        Some(msg) => match msg.spec_get("id"@) {
            Some(idv) => idv.spec_as_str(),
            None => None,
        },
        None => None,
    };
    match from_message {
        Some(id) => Some(id),
        None => match m.spec_get("uuid"@) {
            Some(u) => u.spec_as_str(),
            None => None,
        },
    }
}

pub open spec fn spec_flag(m: JsonModel, key: Seq<char>) -> bool {
    match m.spec_get(key) {
        Some(f) => f.spec_as_bool() == Some(true),
        None => false,
    }
}

/// What one parsed transcript record contributes: a message for user and
/// assistant records that are not side-chain or meta records, have an
/// identifier, and have non-empty text; user messages are normalized to
/// the role `human`.
pub open spec fn spec_conv_message(m: JsonModel) -> Option<ConversationMessageModel> {
    let role = match m.spec_get("type"@) {
        Some(tv) => match tv.spec_as_str() {
            Some(t) => if t == "assistant"@ {
                Some("assistant"@)
            } else if t == "user"@ {
                Some("human"@)
            } else {
                None
            },
            None => None,
        },
        None => None,
    };
    match role {
        Some(r) => if spec_flag(m, "isSidechain"@) || spec_flag(m, "isMeta"@) {
            None
        } else {
            match spec_record_uuid(m) {
                Some(uuid) => {
                    let text = spec_record_text(m);
                    if text.len() == 0 {
                        None
                    } else {
                        Some(
                            ConversationMessageModel {
                                uuid: uuid,
                                role: r,
                                text: text,
                                timestamp: spec_str_field(m, "timestamp"@),
                            },
                        )
                    }
                },
                None => None,
            }
        },
        None => None,
    }
}

// ---------------------------------------------------------------------------
// Deduplication
// ---------------------------------------------------------------------------

/// The index of the first message with this identifier, or the length.
pub open spec fn find_uuid(acc: Seq<ConversationMessageModel>, uuid: Seq<char>) -> int
    decreases acc.len(),
{
    if acc.len() == 0 {
        0
    } else if acc[0].uuid == uuid {
        0
    } else {
        1 + find_uuid(acc.drop_first(), uuid)
    }
}

/// Keep-last deduplication: a message whose identifier is already present
/// replaces the earlier one in place; a new identifier is appended.
pub open spec fn spec_upsert(
    acc: Seq<ConversationMessageModel>,
    msg: ConversationMessageModel,
) -> Seq<ConversationMessageModel> {
    let i = find_uuid(acc, msg.uuid);
    if i < acc.len() {
        acc.update(i, msg)
    } else {
        acc.push(msg)
    }
}

pub open spec fn spec_conv_step(
    acc: Seq<ConversationMessageModel>,
    line: Seq<char>,
) -> Seq<ConversationMessageModel> {
    let t = trim_ws(line);
    if t.len() == 0 {
        acc
    } else {
        match json_parse(t) {
            Some(m) => match spec_conv_message(m) {
                Some(msg) => spec_upsert(acc, msg),
                None => acc,
            },
            None => acc,
        }
    }
}

pub open spec fn spec_conv_fold(lines: Seq<Seq<char>>) -> Seq<ConversationMessageModel>
    decreases lines.len(),
{
    if lines.len() == 0 {
        Seq::empty()
    } else {
        spec_conv_step(spec_conv_fold(lines.drop_last()), lines.last())
    }
}

/// The messages of a transcript: its lines folded in order.
pub open spec fn spec_extract_conversation(content: Seq<char>) -> Seq<ConversationMessageModel> {
    spec_conv_fold(spec_lines(content))
}

// ---------------------------------------------------------------------------
// Execution
// ---------------------------------------------------------------------------

fn item_block(it: &JsonValue) -> (r: Option<String>)
    ensures
        match r {
            Some(b) => spec_item_block(it@) == Some(b@),
            None => spec_item_block(it@) is None,
        },
{
    let type_is_text = match it.get("type") {
        Some(tv) => match tv.as_str() {
            Some(t) => string_eq_str(t, "text"),
            None => false,
        },
        None => false,
    };
    if type_is_text {
        match it.get("text") {
            Some(x) => match x.as_str() {
                Some(s) => Some(s.clone()),
                None => None,
            },
            None => None,
        }
    } else {
        match it {
            JsonValue::Str(s) => Some(s.clone()),
            _ => None,
        }
    }
}

fn record_text(m: &JsonValue) -> (r: String)
    ensures
        r@ == spec_record_text(m@),
{
    let content = match m.get("message") {
        Some(msg) => msg.get("content"),
        None => None,
    };
    match content {
        Some(c) => match c {
            JsonValue::Str(s) => s.clone(),
            JsonValue::Arr(items) => {
                let ghost ms = jv_models(items@);
                proof {
                    lemma_jv_models_len(items@);
                    assert(c@ == JsonModel::Arr(ms));
                }
                let mut out: Vec<char> = Vec::new();
                let mut blocks_seen: usize = 0;
                let mut i: usize = 0;
                proof {
                    assert(ms.take(0) =~= Seq::<JsonModel>::empty());
                    assert(spec_content_blocks(ms.take(0)) =~= Seq::<Seq<char>>::empty());
                    assert(out@ =~= spec_join_blocks(spec_content_blocks(ms.take(0))));
                }
                while i < items.len()
                    invariant
                        i <= items@.len(),
                        ms == jv_models(items@),
                        ms.len() == items@.len(),
                        blocks_seen <= i,
                        blocks_seen == spec_content_blocks(ms.take(i as int)).len(),
                        out@ == spec_join_blocks(spec_content_blocks(ms.take(i as int))),
                    decreases items@.len() - i,
                {
                    proof {
                        lemma_jv_models_index(items@, i as int);
                        assert(ms.take(i as int + 1).drop_last() =~= ms.take(i as int));
                        assert(ms.take(i as int + 1).last() == ms[i as int]);
                    }
                    let ghost blocks0 = spec_content_blocks(ms.take(i as int));
                    let ghost blocks1 = spec_content_blocks(ms.take(i as int + 1));
                    match item_block(&items[i]) {
                        Some(b) => {
                            proof {
                                assert(blocks1 =~= blocks0 + seq![b@]);
                                assert(blocks1.drop_last() =~= blocks0);
                                assert(blocks1.last() == b@);
                            }
                            if blocks_seen > 0 {
                                out.push('\n');
                                out.push('\n');
                                proof {
                                    reveal_strlit("\n\n");
                                    assert(out@ =~= spec_join_blocks(blocks0) + "\n\n"@);
                                }
                            }
                            let bc = str_chars(b.as_str());
                            let ghost mid = out@;
                            let mut k: usize = 0;
                            proof {
                                assert(mid + bc@.take(0) =~= mid);
                            }
                            while k < bc.len()
                                invariant
                                    k <= bc@.len(),
                                    out@ == mid + bc@.take(k as int),
                                decreases bc@.len() - k,
                            {
                                out.push(bc[k]);
                                assert(out@ =~= mid + bc@.take(k + 1));
                                k += 1;
                            }
                            proof {
                                assert(bc@.take(bc@.len() as int) =~= bc@);
                                if blocks0.len() == 0 {
                                    assert(out@ =~= spec_join_blocks(blocks1));
                                } else {
                                    assert(out@ =~= spec_join_blocks(blocks1));
                                }
                            }
                            blocks_seen = blocks_seen + 1;
                        },
                        None => {
                            proof {
                                assert(blocks1 =~= blocks0);
                            }
                        },
                    }
                    i += 1;
                }
                proof {
                    assert(ms.take(ms.len() as int) =~= ms);
                }
                chars_to_string(&out)
            },
            _ => String::new(),
        },
        None => String::new(),
    }
}

fn record_uuid(m: &JsonValue) -> (r: Option<String>)
    ensures
        match r {
            Some(u) => spec_record_uuid(m@) == Some(u@),
            None => spec_record_uuid(m@) is None,
        },
{
    let from_message = match m.get("message") {
        Some(msg) => match msg.get("id") {
            Some(idv) => match idv.as_str() {
                Some(s) => Some(s.clone()),
                None => None,
            },
            None => None,
        },
        None => None,
    };
    match from_message {
        Some(id) => Some(id),
        None => match m.get("uuid") {
            Some(u) => match u.as_str() {
                Some(s) => Some(s.clone()),
                None => None,
            },
            None => None,
        },
    }
}

fn record_flag(m: &JsonValue, key: &str) -> (r: bool)
    ensures
        r == spec_flag(m@, key@),
{
    match m.get(key) {
        Some(f) => match f.as_bool() {
            Some(b) => b,
            None => false,
        },
        None => false,
    }
}

/// The message one parsed transcript record contributes, if any.
pub fn conv_message_of(m: &JsonValue) -> (r: Option<ConversationMessage>)
    ensures
        match r {
            Some(msg) => spec_conv_message(m@) == Some(msg@),
            None => spec_conv_message(m@) is None,
        },
{
    let role: &str = match m.get("type") {
        Some(tv) => match tv.as_str() {
            Some(t) => {
                if string_eq_str(t, "assistant") {
                    "assistant"
                } else if string_eq_str(t, "user") {
                    "human"
                } else {
                    return None;
                }
            },
            None => {
                return None;
            },
        },
        None => {
            return None;
        },
    };
    if record_flag(m, "isSidechain") || record_flag(m, "isMeta") {
        return None;
    }
    let uuid = match record_uuid(m) {
        Some(u) => u,
        None => {
            return None;
        },
    };
    let text = record_text(m);
    if text.as_str().unicode_len() == 0 {
        return None;
    }
    Some(
        ConversationMessage {
            uuid,
            role: role.to_owned(),
            text,
            timestamp: str_field(m, "timestamp"),
        },
    )
}

/// Insert one message, replacing an earlier message with the same
/// identifier in place.
fn upsert(acc: &mut Vec<ConversationMessage>, msg: ConversationMessage)
    ensures
        final(acc).deep_view() == spec_upsert(old(acc).deep_view(), msg@),
{
    let ghost a0 = acc.deep_view();
    let ghost target = find_uuid(a0, msg@.uuid);
    proof {
        assert(a0.skip(0) =~= a0);
        assert(acc@.len() == a0.len());
    }
    let mut i: usize = 0;
    while i < acc.len()
        invariant
            i <= acc@.len(),
            acc@.len() == a0.len(),
            a0 == acc.deep_view(),
            a0 == old(acc).deep_view(),
            find_uuid(a0, msg@.uuid) == i + find_uuid(a0.skip(i as int), msg@.uuid),
            forall|j: int| 0 <= j < i ==> a0[j].uuid != msg@.uuid,
        decreases acc@.len() - i,
    {
        proof {
            assert(acc@[i as int].deep_view() == a0[i as int]);
            assert(a0.skip(i as int)[0] == a0[i as int]);
        }
        if string_eq_str(&acc[i].uuid, msg.uuid.as_str()) {
            proof {
                assert(find_uuid(a0.skip(i as int), msg@.uuid) == 0);
                assert(find_uuid(a0, msg@.uuid) == i);
            }
            let ghost m0 = msg@;
            acc.set(i, msg);
            proof {
                assert(acc.deep_view() =~~= a0.update(i as int, m0));
                assert(i < a0.len());
                assert(acc.deep_view() == spec_upsert(a0, m0));
            }
            return ;
        }
        proof {
            assert(a0.skip(i as int).drop_first() =~= a0.skip(i as int + 1));
        }
        i += 1;
    }
    proof {
        assert(a0.skip(a0.len() as int) =~= Seq::<ConversationMessageModel>::empty());
        assert(find_uuid(a0, msg@.uuid) == a0.len());
    }
    let ghost m0 = msg@;
    acc.push(msg);
    proof {
        assert(acc.deep_view() =~~= a0.push(m0));
    }
}

/// Extract the conversation from a transcript's contents: its user and
/// assistant messages, in order of first appearance, deduplicated by
/// identifier with the last record winning.
pub fn extract_conversation(content: &str) -> (r: Vec<ConversationMessage>)
    ensures
        r.deep_view() == spec_extract_conversation(content@),
{
    let chars = str_chars(content);
    let lines = split_lines(&chars);
    let ghost ls = lines.deep_view();
    let mut r: Vec<ConversationMessage> = Vec::new();
    let mut i: usize = 0;
    proof {
        assert(ls.take(0) =~= Seq::<Seq<char>>::empty());
        assert(r.deep_view() =~= spec_conv_fold(ls.take(0)));
        assert(lines@.len() == ls.len());
    }
    while i < lines.len()
        invariant
            i <= lines@.len(),
            lines@.len() == ls.len(),
            ls == lines.deep_view(),
            ls == spec_lines(chars@),
            chars@ == content@,
            r.deep_view() == spec_conv_fold(ls.take(i as int)),
        decreases lines@.len() - i,
    {
        proof {
            assert(lines@[i as int]@ == ls[i as int]);
            assert(ls.take(i as int + 1).drop_last() =~= ls.take(i as int));
            assert(ls.take(i as int + 1).last() == ls[i as int]);
        }
        let trimmed = trim_chars(&lines[i]);
        if trimmed.len() > 0 {
            let s = chars_to_string(&trimmed);
            match parse_json_line(s.as_str()) {
                Some(v) => {
                    match conv_message_of(&v) {
                        Some(msg) => {
                            upsert(&mut r, msg);
                        },
                        None => {},
                    }
                },
                None => {},
            }
        }
        proof {
            assert(r.deep_view() == spec_conv_fold(ls.take(i as int + 1)));
        }
        i += 1;
    }
    proof {
        assert(ls.take(ls.len() as int) =~= ls);
    }
    r
}

} // verus!
