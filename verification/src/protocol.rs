//! The guest/host wire protocol: two closed tagged-union message families
//! carried as UTF-8 JSON frames over a byte-stream channel.
//!
//! A frame larger than the configured maximum is rejected before any decode
//! is attempted; any decode failure — malformed JSON, an unknown `type` tag,
//! a missing required field — yields a typed error, never a panic. Encoding
//! does not enforce the cap: the sending side is produced locally, so the
//! caller bounds it before transmission.

use vstd::prelude::*;

use crate::decimal::{i32_to_string, parse_i32_str, spec_i32_digits, spec_parse_i32};
use crate::error::SentinelError;
use crate::json::{
    json_view, json_view_list, json_view_members, lemma_json_round_trip, lemma_json_view_list,
    lemma_json_view_members, parse_json, spec_parse_json, spec_ser, to_json_bytes, wf_view,
    JsonValue, JsonView,
};
use crate::text::str_eq;

verus! {

/// Maximum size of a single vsock message in bytes (1 MiB).
pub const MAX_VSOCK_MESSAGE_SIZE: usize = 1048576;

/// Messages sent from the operative (guest) to the sentinel (host).
///
/// `data`, `output` and `params` are schema-free trees; their contents vary
/// by task type and tool, and are validated downstream, never here.
#[derive(Debug)]
pub enum OperativeMessage {
    Progress { id: String, step: String, status: String, data: Option<JsonValue> },
    Result { id: String, output: JsonValue, exit_code: i32 },
    Error { id: String, error: String, exit_code: i32 },
    ToolCall { id: String, call_id: String, tool: String, params: JsonValue },
}

/// Messages sent from the sentinel (host) to the operative (guest).
#[derive(Debug)]
pub enum SentinelMessage {
    Task { id: String, payload: JsonValue, tools: Vec<String> },
    ToolResult { id: String, call_id: String, result: JsonValue },
}

/// The mathematical shape of an `OperativeMessage`.
pub enum OperativeView {
    Progress { id: Seq<char>, step: Seq<char>, status: Seq<char>, data: Option<JsonView> },
    Result { id: Seq<char>, output: JsonView, exit_code: i32 },
    Error { id: Seq<char>, error: Seq<char>, exit_code: i32 },
    ToolCall { id: Seq<char>, call_id: Seq<char>, tool: Seq<char>, params: JsonView },
}

/// The mathematical shape of a `SentinelMessage`.
pub enum SentinelView {
    Task { id: Seq<char>, payload: JsonView, tools: Seq<Seq<char>> },
    ToolResult { id: Seq<char>, call_id: Seq<char>, result: JsonView },
}

impl View for OperativeMessage {
    type V = OperativeView;

    open spec fn view(&self) -> OperativeView {
        match self {
            OperativeMessage::Progress { id, step, status, data } => OperativeView::Progress {
                id: id@,
                step: step@,
                status: status@,
                data: match data {
                    Some(d) => Some(json_view(*d)),
                    None => None,
                },
            },
            OperativeMessage::Result { id, output, exit_code } => OperativeView::Result {
                id: id@,
                output: json_view(*output),
                exit_code: *exit_code,
            },
            OperativeMessage::Error { id, error, exit_code } => OperativeView::Error {
                id: id@,
                error: error@,
                exit_code: *exit_code,
            },
            OperativeMessage::ToolCall { id, call_id, tool, params } => OperativeView::ToolCall {
                id: id@,
                call_id: call_id@,
                tool: tool@,
                params: json_view(*params),
            },
        }
    }
}

/// The views of a sequence of strings.
pub open spec fn strings_view(ss: Seq<String>) -> Seq<Seq<char>> {
    Seq::new(ss.len(), |i: int| ss[i]@)
}

impl View for SentinelMessage {
    type V = SentinelView;

    open spec fn view(&self) -> SentinelView {
        match self {
            SentinelMessage::Task { id, payload, tools } => SentinelView::Task {
                id: id@,
                payload: json_view(*payload),
                tools: strings_view(tools@),
            },
            SentinelMessage::ToolResult { id, call_id, result } => SentinelView::ToolResult {
                id: id@,
                call_id: call_id@,
                result: json_view(*result),
            },
        }
    }
}

// ---------------------------------------------------------------------------
// The JSON shape of each message
// ---------------------------------------------------------------------------

/// Text nodes for a list of strings.
pub open spec fn texts_of(ss: Seq<Seq<char>>) -> Seq<JsonView> {
    Seq::new(ss.len(), |i: int| JsonView::Text(ss[i]))
}

/// The JSON document a host-to-guest message is written as.
pub open spec fn spec_sentinel_json(m: SentinelView) -> JsonView {
    match m {
        SentinelView::Task { id, payload, tools } => JsonView::Object(
            seq![
                ("type"@, JsonView::Text("task"@)),
                ("id"@, JsonView::Text(id)),
                ("payload"@, payload),
                ("tools"@, JsonView::Array(texts_of(tools))),
            ],
        ),
        SentinelView::ToolResult { id, call_id, result } => JsonView::Object(
            seq![
                ("type"@, JsonView::Text("tool_result"@)),
                ("id"@, JsonView::Text(id)),
                ("call_id"@, JsonView::Text(call_id)),
                ("result"@, result),
            ],
        ),
    }
}

/// The JSON document a guest-to-host message is written as. A progress
/// message without `data` writes an explicit null.
pub open spec fn spec_operative_json(m: OperativeView) -> JsonView {
    match m {
        OperativeView::Progress { id, step, status, data } => JsonView::Object(
            seq![
                ("type"@, JsonView::Text("progress"@)),
                ("id"@, JsonView::Text(id)),
                ("step"@, JsonView::Text(step)),
                ("status"@, JsonView::Text(status)),
                (
                    "data"@,
                    match data {
                        Some(d) => d,
                        None => JsonView::Null,
                    },
                ),
            ],
        ),
        OperativeView::Result { id, output, exit_code } => JsonView::Object(
            seq![
                ("type"@, JsonView::Text("result"@)),
                ("id"@, JsonView::Text(id)),
                ("output"@, output),
                ("exit_code"@, JsonView::Number(spec_i32_digits(exit_code as int))),
            ],
        ),
        OperativeView::Error { id, error, exit_code } => JsonView::Object(
            seq![
                ("type"@, JsonView::Text("error"@)),
                ("id"@, JsonView::Text(id)),
                ("error"@, JsonView::Text(error)),
                ("exit_code"@, JsonView::Number(spec_i32_digits(exit_code as int))),
            ],
        ),
        OperativeView::ToolCall { id, call_id, tool, params } => JsonView::Object(
            seq![
                ("type"@, JsonView::Text("tool_call"@)),
                ("id"@, JsonView::Text(id)),
                ("call_id"@, JsonView::Text(call_id)),
                ("tool"@, JsonView::Text(tool)),
                ("params"@, params),
            ],
        ),
    }
}

// ---------------------------------------------------------------------------
// Reading a message back out of a JSON document
// ---------------------------------------------------------------------------

/// First member of an object with the given key.
pub open spec fn spec_obj_get(ms: Seq<(Seq<char>, JsonView)>, key: Seq<char>) -> Option<JsonView>
    decreases ms.len(),
{
    if ms.len() == 0 {
        None
    } else if ms[0].0 == key {
        Some(ms[0].1)
    } else {
        spec_obj_get(ms.drop_first(), key)
    }
}

/// A required text field.
pub open spec fn spec_get_text(ms: Seq<(Seq<char>, JsonView)>, key: Seq<char>) -> Option<
    Seq<char>,
> {
    match spec_obj_get(ms, key) {
        Some(JsonView::Text(s)) => Some(s),
        _ => None,
    }
}

/// A required integer field: a JSON number with a plain integer lexeme that
/// fits an `i32`.
pub open spec fn spec_get_i32(ms: Seq<(Seq<char>, JsonView)>, key: Seq<char>) -> Option<i32> {
    match spec_obj_get(ms, key) {
        Some(JsonView::Number(lex)) => spec_parse_i32(lex),
        _ => None,
    }
}

/// The strings of an all-text JSON array, or `None` if any element is not
/// text.
pub open spec fn spec_texts_back(elems: Seq<JsonView>) -> Option<Seq<Seq<char>>>
    decreases elems.len(),
{
    if elems.len() == 0 {
        Some(Seq::empty())
    } else {
        match elems[0] {
            JsonView::Text(s) => match spec_texts_back(elems.drop_first()) {
                Some(rest) => Some(seq![s] + rest),
                None => None,
            },
            _ => None,
        }
    }
}

/// The host-to-guest message a JSON document denotes, if any: an object
/// whose `type` tag selects the variant and whose required fields are all
/// present and well-typed. Unknown extra members are ignored; of a repeated
/// key the first occurrence counts.
pub open spec fn spec_sentinel_of_json(v: JsonView) -> Option<SentinelView> {
    match v {
        JsonView::Object(ms) => match spec_get_text(ms, "type"@) {
            Some(t) => if t == "task"@ {
                match (spec_get_text(ms, "id"@), spec_obj_get(ms, "payload"@), spec_obj_get(
                    ms,
                    "tools"@,
                )) {
                    (Some(id), Some(payload), Some(JsonView::Array(elems))) => match
                        spec_texts_back(elems) {
                        Some(tools) => Some(SentinelView::Task { id, payload, tools }),
                        None => None,
                    },
                    _ => None,
                }
            } else if t == "tool_result"@ {
                match (spec_get_text(ms, "id"@), spec_get_text(ms, "call_id"@), spec_obj_get(
                    ms,
                    "result"@,
                )) {
                    (Some(id), Some(call_id), Some(result)) => Some(
                        SentinelView::ToolResult { id, call_id, result },
                    ),
                    _ => None,
                }
            } else {
                None
            },
            None => None,
        },
        _ => None,
    }
}

/// The guest-to-host message a JSON document denotes, if any. A `data`
/// member that is missing or null reads back as no data.
pub open spec fn spec_operative_of_json(v: JsonView) -> Option<OperativeView> {
    match v {
        JsonView::Object(ms) => match spec_get_text(ms, "type"@) {
            Some(t) => if t == "progress"@ {
                match (spec_get_text(ms, "id"@), spec_get_text(ms, "step"@), spec_get_text(
                    ms,
                    "status"@,
                )) {
                    (Some(id), Some(step), Some(status)) => Some(
                        OperativeView::Progress {
                            id,
                            step,
                            status,
                            data: match spec_obj_get(ms, "data"@) {
                                Some(JsonView::Null) => None,
                                Some(d) => Some(d),
                                None => None,
                            },
                        },
                    ),
                    _ => None,
                }
            } else if t == "result"@ {
                match (spec_get_text(ms, "id"@), spec_obj_get(ms, "output"@), spec_get_i32(
                    ms,
                    "exit_code"@,
                )) {
                    (Some(id), Some(output), Some(exit_code)) => Some(
                        OperativeView::Result { id, output, exit_code },
                    ),
                    _ => None,
                }
            } else if t == "error"@ {
                match (spec_get_text(ms, "id"@), spec_get_text(ms, "error"@), spec_get_i32(
                    ms,
                    "exit_code"@,
                )) {
                    (Some(id), Some(error), Some(exit_code)) => Some(
                        OperativeView::Error { id, error, exit_code },
                    ),
                    _ => None,
                }
            } else if t == "tool_call"@ {
                match (spec_get_text(ms, "id"@), spec_get_text(ms, "call_id"@), spec_get_text(
                    ms,
                    "tool"@,
                ), spec_obj_get(ms, "params"@)) {
                    (Some(id), Some(call_id), Some(tool), Some(params)) => Some(
                        OperativeView::ToolCall { id, call_id, tool, params },
                    ),
                    _ => None,
                }
            } else {
                None
            },
            None => None,
        },
        _ => None,
    }
}

/// What decoding a raw guest-to-host frame yields, sizes aside.
pub open spec fn spec_operative_decode(bytes: Seq<u8>) -> Option<OperativeView> {
    match spec_parse_json(bytes) {
        None => None,
        Some(v) => spec_operative_of_json(v),
    }
}

/// What decoding a raw host-to-guest frame yields, sizes aside.
pub open spec fn spec_sentinel_decode(bytes: Seq<u8>) -> Option<SentinelView> {
    match spec_parse_json(bytes) {
        None => None,
        Some(v) => spec_sentinel_of_json(v),
    }
}

/// The oversize-rejection message for a frame of `len` bytes.
pub open spec fn spec_size_error_msg(len: nat) -> Seq<char> {
    "message too large: "@ + crate::decimal::spec_u64_digits(len) + " bytes (max "@
        + crate::decimal::spec_u64_digits(1048576) + ")"@
}

/// The malformed-frame message.
pub open spec fn spec_malformed_msg() -> Seq<char> {
    "invalid message: malformed frame"@
}

// ---------------------------------------------------------------------------
// Executable conversions
// ---------------------------------------------------------------------------

/// Deep copy of a JSON tree.
pub fn clone_json(v: &JsonValue) -> (r: JsonValue)
    ensures
        r@ == v@,
    decreases v,
{
    match v {
        JsonValue::Null => JsonValue::Null,
        JsonValue::Bool(b) => JsonValue::Bool(*b),
        JsonValue::Number(s) => JsonValue::Number(s.clone()),
        JsonValue::Text(s) => JsonValue::Text(s.clone()),
        JsonValue::Array(items) => {
            let n = items.len();
            let mut out: Vec<JsonValue> = Vec::new();
            let mut i: usize = 0;
            while i < n
                invariant
                    0 <= i <= n,
                    n == items@.len(),
                    *v == JsonValue::Array(*items),
                    out@.len() == i,
                    forall|k: int| 0 <= k < i ==> json_view(#[trigger] out@[k]) == json_view(
                        items@[k],
                    ),
                decreases n - i,
            {
                proof {
                    assert(decreases_to!(*items => items@[i as int]));
                    assert(decreases_to!(*v => (*v)->Array_0));
                    assert((*v)->Array_0 == *items);
                    assert(decreases_to!(*v => items@[i as int]));
                }
                let c = clone_json(&items[i]);
                out.push(c);
                i = i + 1;
            }
            proof {
                lemma_json_view_list(out@);
                lemma_json_view_list(items@);
                assert forall|k: int| 0 <= k < n implies json_view_list(out@)[k]
                    == json_view_list(items@)[k] by {
                    assert(json_view(out@[k]) == json_view(items@[k]));
                }
                assert(json_view_list(out@) =~= json_view_list(items@));
            }
            JsonValue::Array(out)
        },
        JsonValue::Object(members) => {
            let n = members.len();
            let mut out: Vec<(String, JsonValue)> = Vec::new();
            let mut i: usize = 0;
            while i < n
                invariant
                    0 <= i <= n,
                    n == members@.len(),
                    *v == JsonValue::Object(*members),
                    out@.len() == i,
                    forall|k: int| 0 <= k < i ==> (#[trigger] out@[k]).0@ == members@[k].0@
                        && json_view(out@[k].1) == json_view(members@[k].1),
                decreases n - i,
            {
                proof {
                    assert(decreases_to!(*members => members@[i as int]));
                    assert(decreases_to!(*v => (*v)->Object_0));
                    assert((*v)->Object_0 == *members);
                    assert(decreases_to!(*v => members@[i as int].1));
                }
                let k = members[i].0.clone();
                let c = clone_json(&members[i].1);
                out.push((k, c));
                i = i + 1;
            }
            proof {
                lemma_json_view_members(out@);
                lemma_json_view_members(members@);
                assert forall|k: int| 0 <= k < n implies json_view_members(out@)[k]
                    == json_view_members(members@)[k] by {
                    assert(out@[k].0@ == members@[k].0@ && json_view(out@[k].1) == json_view(
                        members@[k].1,
                    ));
                }
                assert(json_view_members(out@) =~= json_view_members(members@));
            }
            JsonValue::Object(out)
        },
    }
}

/// First member with the given key, if any.
fn obj_get<'a>(members: &'a Vec<(String, JsonValue)>, key: &str) -> (r: Option<&'a JsonValue>)
    ensures
        r is None ==> spec_obj_get(json_view_members(members@), key@) is None,
        r matches Some(v) ==> spec_obj_get(json_view_members(members@), key@) == Some(v@),
{
    let ghost mv = json_view_members(members@);
    proof {
        lemma_json_view_members(members@);
        assert(mv.skip(0) =~= mv);
    }
    let n = members.len();
    let mut i: usize = 0;
    while i < n
        invariant
            0 <= i <= n,
            n == members@.len(),
            mv == json_view_members(members@),
            mv.len() == n,
            forall|k: int| 0 <= k < n ==> #[trigger] mv[k] == (members@[k].0@, json_view(
                members@[k].1,
            )),
            spec_obj_get(mv, key@) == spec_obj_get(mv.skip(i as int), key@),
        decreases n - i,
    {
        proof {
            assert(mv.skip(i as int)[0] == mv[i as int]);
        }
        if str_eq(members[i].0.as_str(), key) {
            proof {
                assert(spec_obj_get(mv.skip(i as int), key@) == Some(mv[i as int].1));
            }
            return Some(&members[i].1);
        }
        proof {
            assert(mv.skip(i as int).drop_first() =~= mv.skip(i + 1));
        }
        i = i + 1;
    }
    proof {
        assert(mv.skip(n as int) =~= Seq::<(Seq<char>, JsonView)>::empty());
    }
    None
}

/// A required text field, copied out.
fn get_text(members: &Vec<(String, JsonValue)>, key: &str) -> (r: Option<String>)
    ensures
        r is None ==> spec_get_text(json_view_members(members@), key@) is None,
        r matches Some(s) ==> spec_get_text(json_view_members(members@), key@) == Some(s@),
{
    match obj_get(members, key) {
        Some(v) => match v {
            JsonValue::Text(s) => Some(s.clone()),
            _ => None,
        },
        None => None,
    }
}

/// A required integer field.
fn get_i32(members: &Vec<(String, JsonValue)>, key: &str) -> (r: Option<i32>)
    ensures
        r == spec_get_i32(json_view_members(members@), key@),
{
    match obj_get(members, key) {
        Some(v) => match v {
            JsonValue::Number(lex) => parse_i32_str(lex.as_str()),
            _ => None,
        },
        None => None,
    }
}

/// The strings of an all-text array, copied out.
fn texts_back(items: &Vec<JsonValue>) -> (r: Option<Vec<String>>)
    ensures
        r is None ==> spec_texts_back(json_view_list(items@)) is None,
        r matches Some(ss) ==> spec_texts_back(json_view_list(items@)) == Some(strings_view(ss@)),
{
    let ghost ev = json_view_list(items@);
    proof {
        lemma_json_view_list(items@);
        assert(ev.skip(0) =~= ev);
        if spec_texts_back(ev) is Some {
            assert(strings_view(Seq::<String>::empty()) + spec_texts_back(ev)->0
                =~= spec_texts_back(ev)->0);
        }
        assert(strings_view(Seq::<String>::empty()) =~= Seq::<Seq<char>>::empty());
    }
    let n = items.len();
    let mut out: Vec<String> = Vec::new();
    let mut i: usize = 0;
    while i < n
        invariant
            0 <= i <= n,
            n == items@.len(),
            ev == json_view_list(items@),
            ev.len() == n,
            forall|k: int| 0 <= k < n ==> #[trigger] ev[k] == json_view(items@[k]),
            spec_texts_back(ev) == (match spec_texts_back(ev.skip(i as int)) {
                Some(rest) => Some(strings_view(out@) + rest),
                None => None,
            }),
        decreases n - i,
    {
        proof {
            assert(ev.skip(i as int)[0] == ev[i as int]);
            assert(ev.skip(i as int).drop_first() =~= ev.skip(i + 1));
        }
        let item = &items[i];
        match item {
            JsonValue::Text(s) => {
                let ghost out0 = out@;
                out.push(s.clone());
                proof {
                    assert(strings_view(out@) =~= strings_view(out0) + seq![s@]);
                    assert forall|rest: Seq<Seq<char>>| true implies strings_view(out0) + (
                    seq![s@] + rest) =~= strings_view(out@) + rest by {}
                }
                i = i + 1;
            },
            _ => {
                proof {
                    assert(!(ev[i as int] is Text));
                    assert(spec_texts_back(ev.skip(i as int)) is None);
                }
                return None;
            },
        }
    }
    proof {
        assert(ev.skip(n as int) =~= Seq::<JsonView>::empty());
        assert(spec_texts_back(Seq::<JsonView>::empty()) == Some(Seq::<Seq<char>>::empty()));
        assert(strings_view(out@) + Seq::<Seq<char>>::empty() =~= strings_view(out@));
    }
    Some(out)
}

/// Read a guest-to-host message out of a parsed document.
fn operative_of_json(v: &JsonValue) -> (r: Option<OperativeMessage>)
    ensures
        r is None ==> spec_operative_of_json(v@) is None,
        r matches Some(m) ==> spec_operative_of_json(v@) == Some(m@),
{
    match v {
        JsonValue::Object(members) => {
            let t = match get_text(members, "type") {
                Some(t) => t,
                None => {
                    return None;
                },
            };
            if str_eq(t.as_str(), "progress") {
                let id = match get_text(members, "id") {
                    Some(x) => x,
                    None => {
                        return None;
                    },
                };
                let step = match get_text(members, "step") {
                    Some(x) => x,
                    None => {
                        return None;
                    },
                };
                let status = match get_text(members, "status") {
                    Some(x) => x,
                    None => {
                        return None;
                    },
                };
                let data = match obj_get(members, "data") {
                    None => None,
                    Some(d) => match d {
                        JsonValue::Null => None,
                        _ => Some(clone_json(d)),
                    },
                };
                Some(OperativeMessage::Progress { id, step, status, data })
            } else if str_eq(t.as_str(), "result") {
                let id = match get_text(members, "id") {
                    Some(x) => x,
                    None => {
                        return None;
                    },
                };
                let output = match obj_get(members, "output") {
                    Some(d) => clone_json(d),
                    None => {
                        return None;
                    },
                };
                let exit_code = match get_i32(members, "exit_code") {
                    Some(x) => x,
                    None => {
                        return None;
                    },
                };
                Some(OperativeMessage::Result { id, output, exit_code })
            } else if str_eq(t.as_str(), "error") {
                let id = match get_text(members, "id") {
                    Some(x) => x,
                    None => {
                        return None;
                    },
                };
                let error = match get_text(members, "error") {
                    Some(x) => x,
                    None => {
                        return None;
                    },
                };
                let exit_code = match get_i32(members, "exit_code") {
                    Some(x) => x,
                    None => {
                        return None;
                    },
                };
                Some(OperativeMessage::Error { id, error, exit_code })
            } else if str_eq(t.as_str(), "tool_call") {
                let id = match get_text(members, "id") {
                    Some(x) => x,
                    None => {
                        return None;
                    },
                };
                let call_id = match get_text(members, "call_id") {
                    Some(x) => x,
                    None => {
                        return None;
                    },
                };
                let tool = match get_text(members, "tool") {
                    Some(x) => x,
                    None => {
                        return None;
                    },
                };
                let params = match obj_get(members, "params") {
                    Some(d) => clone_json(d),
                    None => {
                        return None;
                    },
                };
                Some(OperativeMessage::ToolCall { id, call_id, tool, params })
            } else {
                None
            }
        },
        _ => None,
    }
}

/// Read a host-to-guest message out of a parsed document.
fn sentinel_of_json(v: &JsonValue) -> (r: Option<SentinelMessage>)
    ensures
        r is None ==> spec_sentinel_of_json(v@) is None,
        r matches Some(m) ==> spec_sentinel_of_json(v@) == Some(m@),
{
    match v {
        JsonValue::Object(members) => {
            let t = match get_text(members, "type") {
                Some(t) => t,
                None => {
                    return None;
                },
            };
            if str_eq(t.as_str(), "task") {
                let id = match get_text(members, "id") {
                    Some(x) => x,
                    None => {
                        return None;
                    },
                };
                let payload = match obj_get(members, "payload") {
                    Some(d) => clone_json(d),
                    None => {
                        return None;
                    },
                };
                let tools = match obj_get(members, "tools") {
                    Some(d) => match d {
                        JsonValue::Array(items) => match texts_back(items) {
                            Some(ss) => ss,
                            None => {
                                return None;
                            },
                        },
                        _ => {
                            return None;
                        },
                    },
                    None => {
                        return None;
                    },
                };
                Some(SentinelMessage::Task { id, payload, tools })
            } else if str_eq(t.as_str(), "tool_result") {
                let id = match get_text(members, "id") {
                    Some(x) => x,
                    None => {
                        return None;
                    },
                };
                let call_id = match get_text(members, "call_id") {
                    Some(x) => x,
                    None => {
                        return None;
                    },
                };
                let result = match obj_get(members, "result") {
                    Some(d) => clone_json(d),
                    None => {
                        return None;
                    },
                };
                Some(SentinelMessage::ToolResult { id, call_id, result })
            } else {
                None
            }
        },
        _ => None,
    }
}

/// Build the JSON document of a host-to-guest message.
fn sentinel_to_json(m: &SentinelMessage) -> (r: JsonValue)
    ensures
        r@ == spec_sentinel_json(m@),
{
    match m {
        SentinelMessage::Task { id, payload, tools } => {
            let n = tools.len();
            let mut texts: Vec<JsonValue> = Vec::new();
            let mut i: usize = 0;
            while i < n
                invariant
                    0 <= i <= n,
                    n == tools@.len(),
                    texts@.len() == i,
                    forall|k: int| 0 <= k < i ==> #[trigger] texts@[k]
                        == JsonValue::Text(tools@[k]),
                decreases n - i,
            {
                texts.push(JsonValue::Text(tools[i].clone()));
                i = i + 1;
            }
            proof {
                lemma_json_view_list(texts@);
                assert forall|k: int| 0 <= k < n implies json_view_list(texts@)[k] == texts_of(
                    strings_view(tools@),
                )[k] by {
                    assert(json_view(texts@[k]) == JsonView::Text(tools@[k]@));
                }
                assert(json_view_list(texts@) =~= texts_of(strings_view(tools@)));
            }
            let mut members: Vec<(String, JsonValue)> = Vec::new();
            members.push((String::from_str("type"), JsonValue::Text(String::from_str("task"))));
            members.push((String::from_str("id"), JsonValue::Text(id.clone())));
            members.push((String::from_str("payload"), clone_json(payload)));
            members.push((String::from_str("tools"), JsonValue::Array(texts)));
            proof {
                lemma_json_view_members(members@);
                assert(json_view_members(members@)[0] == (members@[0].0@, json_view(
                    members@[0].1,
                )));
                assert(json_view_members(members@)[1] == (members@[1].0@, json_view(
                    members@[1].1,
                )));
                assert(json_view_members(members@)[2] == (members@[2].0@, json_view(
                    members@[2].1,
                )));
                assert(json_view_members(members@)[3] == (members@[3].0@, json_view(
                    members@[3].1,
                )));
                assert(json_view_members(members@) =~= spec_sentinel_json(m@)->Object_0);
            }
            JsonValue::Object(members)
        },
        SentinelMessage::ToolResult { id, call_id, result } => {
            let mut members: Vec<(String, JsonValue)> = Vec::new();
            members.push(
                (String::from_str("type"), JsonValue::Text(String::from_str("tool_result"))),
            );
            members.push((String::from_str("id"), JsonValue::Text(id.clone())));
            members.push((String::from_str("call_id"), JsonValue::Text(call_id.clone())));
            members.push((String::from_str("result"), clone_json(result)));
            proof {
                lemma_json_view_members(members@);
                assert(json_view_members(members@)[0] == (members@[0].0@, json_view(
                    members@[0].1,
                )));
                assert(json_view_members(members@)[1] == (members@[1].0@, json_view(
                    members@[1].1,
                )));
                assert(json_view_members(members@)[2] == (members@[2].0@, json_view(
                    members@[2].1,
                )));
                assert(json_view_members(members@)[3] == (members@[3].0@, json_view(
                    members@[3].1,
                )));
                assert(json_view_members(members@) =~= spec_sentinel_json(m@)->Object_0);
            }
            JsonValue::Object(members)
        },
    }
}

/// Build the JSON document of a guest-to-host message: the guest-side
/// mirror of `sentinel_to_json`.
fn operative_to_json(m: &OperativeMessage) -> (r: JsonValue)
    ensures
        r@ == spec_operative_json(m@),
{
    match m {
        OperativeMessage::Progress { id, step, status, data } => {
            let datum = match data {
                Some(d) => clone_json(d),
                None => JsonValue::Null,
            };
            let mut members: Vec<(String, JsonValue)> = Vec::new();
            members.push(
                (String::from_str("type"), JsonValue::Text(String::from_str("progress"))),
            );
            members.push((String::from_str("id"), JsonValue::Text(id.clone())));
            members.push((String::from_str("step"), JsonValue::Text(step.clone())));
            members.push((String::from_str("status"), JsonValue::Text(status.clone())));
            members.push((String::from_str("data"), datum));
            proof {
                lemma_json_view_members(members@);
                assert(json_view_members(members@)[0] == (members@[0].0@, json_view(
                    members@[0].1,
                )));
                assert(json_view_members(members@)[1] == (members@[1].0@, json_view(
                    members@[1].1,
                )));
                assert(json_view_members(members@)[2] == (members@[2].0@, json_view(
                    members@[2].1,
                )));
                assert(json_view_members(members@)[3] == (members@[3].0@, json_view(
                    members@[3].1,
                )));
                assert(json_view_members(members@)[4] == (members@[4].0@, json_view(
                    members@[4].1,
                )));
                assert(json_view_members(members@) =~= spec_operative_json(m@)->Object_0);
            }
            JsonValue::Object(members)
        },
        OperativeMessage::Result { id, output, exit_code } => {
            let mut members: Vec<(String, JsonValue)> = Vec::new();
            members.push((String::from_str("type"), JsonValue::Text(String::from_str("result"))));
            members.push((String::from_str("id"), JsonValue::Text(id.clone())));
            members.push((String::from_str("output"), clone_json(output)));
            members.push(
                (String::from_str("exit_code"), JsonValue::Number(i32_to_string(*exit_code))),
            );
            proof {
                lemma_json_view_members(members@);
                assert(json_view_members(members@)[0] == (members@[0].0@, json_view(
                    members@[0].1,
                )));
                assert(json_view_members(members@)[1] == (members@[1].0@, json_view(
                    members@[1].1,
                )));
                assert(json_view_members(members@)[2] == (members@[2].0@, json_view(
                    members@[2].1,
                )));
                assert(json_view_members(members@)[3] == (members@[3].0@, json_view(
                    members@[3].1,
                )));
                assert(json_view_members(members@) =~= spec_operative_json(m@)->Object_0);
            }
            JsonValue::Object(members)
        },
        OperativeMessage::Error { id, error, exit_code } => {
            let mut members: Vec<(String, JsonValue)> = Vec::new();
            members.push((String::from_str("type"), JsonValue::Text(String::from_str("error"))));
            members.push((String::from_str("id"), JsonValue::Text(id.clone())));
            members.push((String::from_str("error"), JsonValue::Text(error.clone())));
            members.push(
                (String::from_str("exit_code"), JsonValue::Number(i32_to_string(*exit_code))),
            );
            proof {
                lemma_json_view_members(members@);
                assert(json_view_members(members@)[0] == (members@[0].0@, json_view(
                    members@[0].1,
                )));
                assert(json_view_members(members@)[1] == (members@[1].0@, json_view(
                    members@[1].1,
                )));
                assert(json_view_members(members@)[2] == (members@[2].0@, json_view(
                    members@[2].1,
                )));
                assert(json_view_members(members@)[3] == (members@[3].0@, json_view(
                    members@[3].1,
                )));
                assert(json_view_members(members@) =~= spec_operative_json(m@)->Object_0);
            }
            JsonValue::Object(members)
        },
        OperativeMessage::ToolCall { id, call_id, tool, params } => {
            let mut members: Vec<(String, JsonValue)> = Vec::new();
            members.push(
                (String::from_str("type"), JsonValue::Text(String::from_str("tool_call"))),
            );
            members.push((String::from_str("id"), JsonValue::Text(id.clone())));
            members.push((String::from_str("call_id"), JsonValue::Text(call_id.clone())));
            members.push((String::from_str("tool"), JsonValue::Text(tool.clone())));
            members.push((String::from_str("params"), clone_json(params)));
            proof {
                lemma_json_view_members(members@);
                assert(json_view_members(members@)[0] == (members@[0].0@, json_view(
                    members@[0].1,
                )));
                assert(json_view_members(members@)[1] == (members@[1].0@, json_view(
                    members@[1].1,
                )));
                assert(json_view_members(members@)[2] == (members@[2].0@, json_view(
                    members@[2].1,
                )));
                assert(json_view_members(members@)[3] == (members@[3].0@, json_view(
                    members@[3].1,
                )));
                assert(json_view_members(members@)[4] == (members@[4].0@, json_view(
                    members@[4].1,
                )));
                assert(json_view_members(members@) =~= spec_operative_json(m@)->Object_0);
            }
            JsonValue::Object(members)
        },
    }
}

// ---------------------------------------------------------------------------
// Public frame functions
// ---------------------------------------------------------------------------

fn size_error_message(len: usize) -> (s: String)
    ensures
        s@ == spec_size_error_msg(len as nat),
{
    let s = String::from_str("message too large: ").concat(
        crate::decimal::u64_to_string(len as u64).as_str(),
    ).concat(" bytes (max ").concat(crate::decimal::u64_to_string(1048576).as_str()).concat(")");
    proof {
        assert(s@ =~= spec_size_error_msg(len as nat));
    }
    s
}

fn malformed_message() -> (s: String)
    ensures
        s@ == spec_malformed_msg(),
{
    String::from_str("invalid message: malformed frame")
}

/// Decode a guest-to-host frame: reject an oversized frame before any
/// decode, then parse the JSON and read the tagged union out of it.
pub fn parse_operative_message(raw: &[u8]) -> (r: Result<OperativeMessage, SentinelError>)
    ensures
        raw@.len() > 1048576 ==> (r matches Err(e) && e matches SentinelError::Vsock(msg)
            && msg@ == spec_size_error_msg(raw@.len())),
        raw@.len() <= 1048576 ==> (match spec_operative_decode(raw@) {
            Some(mv) => r matches Ok(m) && m@ == mv,
            None => r matches Err(e) && e matches SentinelError::Vsock(msg) && msg@
                == spec_malformed_msg(),
        }),
{
    if raw.len() > MAX_VSOCK_MESSAGE_SIZE {
        return Err(SentinelError::Vsock(size_error_message(raw.len())));
    }
    match parse_json(raw) {
        None => Err(SentinelError::Vsock(malformed_message())),
        Some(v) => match operative_of_json(&v) {
            Some(m) => Ok(m),
            None => Err(SentinelError::Vsock(malformed_message())),
        },
    }
}

/// Decode a host-to-guest frame with the mirrored schema: the guest-side
/// counterpart of `parse_operative_message`.
pub fn parse_sentinel_message(raw: &[u8]) -> (r: Result<SentinelMessage, SentinelError>)
    ensures
        raw@.len() > 1048576 ==> (r matches Err(e) && e matches SentinelError::Vsock(msg)
            && msg@ == spec_size_error_msg(raw@.len())),
        raw@.len() <= 1048576 ==> (match spec_sentinel_decode(raw@) {
            Some(mv) => r matches Ok(m) && m@ == mv,
            None => r matches Err(e) && e matches SentinelError::Vsock(msg) && msg@
                == spec_malformed_msg(),
        }),
{
    if raw.len() > MAX_VSOCK_MESSAGE_SIZE {
        return Err(SentinelError::Vsock(size_error_message(raw.len())));
    }
    match parse_json(raw) {
        None => Err(SentinelError::Vsock(malformed_message())),
        Some(v) => match sentinel_of_json(&v) {
            Some(m) => Ok(m),
            None => Err(SentinelError::Vsock(malformed_message())),
        },
    }
}

/// Encode a host-to-guest message as one JSON frame. The size ceiling is
/// the caller's to enforce before transmission: this side is produced
/// locally, so it is size-controllable before the fact.
pub fn encode_sentinel_message(m: &SentinelMessage) -> (out: Vec<u8>)
    ensures
        out@ == spec_ser(spec_sentinel_json(m@)),
{
    let v = sentinel_to_json(m);
    to_json_bytes(&v)
}

/// Encode a guest-to-host message as one JSON frame: the guest-side mirror
/// of `encode_sentinel_message`. A missing progress datum is written as an
/// explicit null.
pub fn encode_operative_message(m: &OperativeMessage) -> (out: Vec<u8>)
    ensures
        out@ == spec_ser(spec_operative_json(m@)),
{
    let v = operative_to_json(m);
    to_json_bytes(&v)
}

// ---------------------------------------------------------------------------
// Round-trip laws
// ---------------------------------------------------------------------------

/// A host-to-guest message whose opaque payload tree is well formed.
pub open spec fn wf_sentinel_view(m: SentinelView) -> bool {
    match m {
        SentinelView::Task { payload, .. } => wf_view(payload),
        SentinelView::ToolResult { result, .. } => wf_view(result),
    }
}

/// A guest-to-host message whose opaque trees are well formed. A progress
/// message carrying an explicit null datum is excluded: it is encoded the
/// same as one carrying none, so only the latter reads back.
pub open spec fn wf_operative_view(m: OperativeView) -> bool {
    match m {
        OperativeView::Progress { data, .. } => match data {
            Some(d) => wf_view(d) && !(d is Null),
            None => true,
        },
        OperativeView::Result { output, .. } => wf_view(output),
        OperativeView::Error { .. } => true,
        OperativeView::ToolCall { params, .. } => wf_view(params),
    }
}

proof fn lemma_texts_back_of(ss: Seq<Seq<char>>)
    ensures
        spec_texts_back(texts_of(ss)) == Some(ss),
    decreases ss.len(),
{
    if ss.len() == 0 {
        assert(texts_of(ss) =~= Seq::<JsonView>::empty());
        assert(ss =~= Seq::<Seq<char>>::empty());
    } else {
        assert(texts_of(ss).drop_first() =~= texts_of(ss.drop_first()));
        lemma_texts_back_of(ss.drop_first());
        assert(texts_of(ss)[0] == JsonView::Text(ss[0]));
        assert(seq![ss[0]] + ss.drop_first() =~= ss);
    }
}

/// Every element of the Text array of a tool list is well formed.
proof fn lemma_texts_wf(ss: Seq<Seq<char>>)
    ensures
        forall|k: int| 0 <= k < texts_of(ss).len() ==> wf_view(#[trigger] texts_of(ss)[k]),
{
}

/// The rendering of an `i32` is a well-formed number lexeme.
proof fn lemma_int_lexeme_wf(n: i32)
    ensures
        crate::json::wf_number_lexeme(spec_i32_digits(n as int)),
{
    let lex = spec_i32_digits(n as int);
    if n >= 0 {
        crate::decimal::lemma_u64_digits_val(n as nat);
    } else {
        crate::decimal::lemma_u64_digits_val((-(n as int)) as nat);
    }
    assert forall|k: int| 0 <= k < lex.len() implies crate::json::is_lexeme_char(
        #[trigger] lex[k],
    ) by {
        if n >= 0 {
            assert(crate::decimal::is_digit(lex[k]));
        } else {
            if k == 0 {
                assert(lex[0] == '-');
            } else {
                assert(lex[k] == spec_u64_digits_at((-(n as int)) as nat, k - 1));
                assert(crate::decimal::is_digit(lex[k]));
            }
        }
        lemma_digit_char_byte(lex[k]);
    }
    let bytes = crate::json::ascii_bytes(lex);
    lemma_int_lexeme_grammar(n);
}

/// Helper naming a digit of the magnitude's rendering.
spec fn spec_u64_digits_at(m: nat, k: int) -> char {
    crate::decimal::spec_u64_digits(m)[k]
}

/// Digit characters and the minus sign are ASCII number characters.
proof fn lemma_digit_char_byte(c: char)
    requires
        crate::decimal::is_digit(c) || c == '-',
    ensures
        crate::json::is_lexeme_char(c),
{
}

/// The rendered integer obeys the JSON number grammar end to end.
proof fn lemma_int_lexeme_grammar(n: i32)
    ensures
        crate::json::spec_number_end(
            crate::json::ascii_bytes(spec_i32_digits(n as int)),
            0,
        ) == Some(spec_i32_digits(n as int).len() as int),
{
    let lex = spec_i32_digits(n as int);
    let bytes = crate::json::ascii_bytes(lex);
    let mag: nat = if n >= 0 {
        n as nat
    } else {
        (-(n as int)) as nat
    };
    crate::decimal::lemma_u64_digits_val(mag);
    let digits = crate::decimal::spec_u64_digits(mag);
    let off: int = if n >= 0 {
        0
    } else {
        1
    };
    assert forall|k: int| 0 <= k < digits.len() implies crate::json::is_digit_byte(
        #[trigger] bytes[off + k],
    ) by {
        assert(lex[off + k] == digits[k]);
        assert(crate::decimal::is_digit(digits[k]));
    }
    if n < 0 {
        assert(lex[0] == '-');
        assert(bytes[0] == 0x2Du8);
    }
    let m: int = off;
    assert(crate::json::is_digit_byte(bytes[m]));
    lemma_scan_all(bytes, m + 1);
    if mag == 0 {
        assert(digits =~= seq![crate::decimal::spec_digit_char(0)]);
        assert(lex[off] == '0');
        assert(bytes[m] == 0x30u8);
    } else {
        assert(digits[0] != '0');
        assert(lex[off] == digits[0]);
        assert(bytes[m] != 0x30u8);
    }
}

/// A scan over trailing digit bytes runs to the end.
proof fn lemma_scan_all(bytes: Seq<u8>, i: int)
    requires
        0 <= i <= bytes.len(),
        forall|k: int| i <= k < bytes.len() ==> crate::json::is_digit_byte(#[trigger] bytes[k]),
    ensures
        crate::json::scan_digit_bytes(bytes, i) == bytes.len(),
    decreases bytes.len() - i,
{
    if i < bytes.len() {
        lemma_scan_all(bytes, i + 1);
    }
}

/// The member keys and type tags of the wire schema are pairwise distinct
/// where a lookup must pass one to reach another.
proof fn lemma_keys_distinct()
    ensures
        "type"@ != "id"@,
        "type"@ != "payload"@,
        "type"@ != "tools"@,
        "type"@ != "step"@,
        "type"@ != "status"@,
        "type"@ != "data"@,
        "type"@ != "output"@,
        "type"@ != "exit_code"@,
        "type"@ != "error"@,
        "type"@ != "call_id"@,
        "type"@ != "tool"@,
        "type"@ != "params"@,
        "type"@ != "result"@,
        "id"@ != "payload"@,
        "id"@ != "tools"@,
        "id"@ != "step"@,
        "id"@ != "status"@,
        "id"@ != "data"@,
        "id"@ != "output"@,
        "id"@ != "exit_code"@,
        "id"@ != "error"@,
        "id"@ != "call_id"@,
        "id"@ != "tool"@,
        "id"@ != "params"@,
        "id"@ != "result"@,
        "payload"@ != "tools"@,
        "step"@ != "status"@,
        "step"@ != "data"@,
        "status"@ != "data"@,
        "output"@ != "exit_code"@,
        "error"@ != "exit_code"@,
        "call_id"@ != "tool"@,
        "call_id"@ != "result"@,
        "call_id"@ != "params"@,
        "tool"@ != "params"@,
        "task"@ != "tool_result"@,
        "result"@ != "progress"@,
        "error"@ != "progress"@,
        "error"@ != "result"@,
        "tool_call"@ != "progress"@,
        "tool_call"@ != "result"@,
        "tool_call"@ != "error"@,
{
    reveal_strlit("type");
    reveal_strlit("id");
    reveal_strlit("payload");
    reveal_strlit("tools");
    reveal_strlit("step");
    reveal_strlit("status");
    reveal_strlit("data");
    reveal_strlit("output");
    reveal_strlit("exit_code");
    reveal_strlit("error");
    reveal_strlit("call_id");
    reveal_strlit("tool");
    reveal_strlit("params");
    reveal_strlit("result");
    reveal_strlit("task");
    reveal_strlit("tool_result");
    reveal_strlit("progress");
    reveal_strlit("tool_call");
    assert("type"@[0] == 't' && "id"@[0] == 'i' && "payload"@[0] == 'p' && "tools"@[0] == 't'
        && "step"@[0] == 's' && "status"@[0] == 's' && "data"@[0] == 'd' && "output"@[0] == 'o'
        && "exit_code"@[0] == 'e' && "error"@[0] == 'e' && "call_id"@[0] == 'c' && "tool"@[0]
        == 't' && "params"@[0] == 'p' && "result"@[0] == 'r' && "task"@[0] == 't'
        && "tool_result"@[0] == 't' && "progress"@[0] == 'p' && "tool_call"@[0] == 't');
    assert("type"@[1] == 'y' && "tools"@[1] == 'o' && "tool"@[1] == 'o' && "task"@[1] == 'a'
        && "tool_result"@[1] == 'o' && "tool_call"@[1] == 'o' && "error"@[1] == 'r'
        && "exit_code"@[1] == 'x');
    assert("step"@[2] == 'e' && "status"@[2] == 'a');
    assert("tools"@[4] == 's');
    assert("tool"@.len() == 4 && "tools"@.len() == 5);
}

/// Reading the JSON document of a host-to-guest message yields the message
/// back.
proof fn lemma_sentinel_msg_json(m: SentinelView)
    requires
        wf_sentinel_view(m),
    ensures
        wf_view(spec_sentinel_json(m)),
        spec_sentinel_of_json(spec_sentinel_json(m)) == Some(m),
{
    lemma_keys_distinct();
    match m {
        SentinelView::Task { id, payload, tools } => {
            let ms = spec_sentinel_json(m)->Object_0;
            lemma_texts_wf(tools);
            assert(wf_view(spec_sentinel_json(m))) by {
                assert(forall|k: int| 0 <= k < ms.len() ==> wf_view((#[trigger] ms[k]).1));
            }
            let ms1 = ms.drop_first();
            let ms2 = ms1.drop_first();
            let ms3 = ms2.drop_first();
            assert(ms1[0] == ms[1] && ms2[0] == ms[2] && ms3[0] == ms[3]);
            assert(ms1.drop_first() =~= ms2 && ms2.drop_first() =~= ms3);
            assert(spec_obj_get(ms, "type"@) == Some(JsonView::Text("task"@)));
            assert(spec_obj_get(ms, "id"@) == spec_obj_get(ms1, "id"@));
            assert(spec_obj_get(ms1, "id"@) == Some(ms[1].1));
            assert(spec_obj_get(ms, "payload"@) == spec_obj_get(ms1, "payload"@));
            assert(spec_obj_get(ms1, "payload"@) == spec_obj_get(ms2, "payload"@));
            assert(spec_obj_get(ms2, "payload"@) == Some(ms[2].1));
            assert(spec_obj_get(ms, "tools"@) == spec_obj_get(ms1, "tools"@));
            assert(spec_obj_get(ms1, "tools"@) == spec_obj_get(ms2, "tools"@));
            assert(spec_obj_get(ms2, "tools"@) == spec_obj_get(ms3, "tools"@));
            assert(spec_obj_get(ms3, "tools"@) == Some(ms[3].1));
            lemma_texts_back_of(tools);
        },
        SentinelView::ToolResult { id, call_id, result } => {
            let ms = spec_sentinel_json(m)->Object_0;
            assert(wf_view(spec_sentinel_json(m))) by {
                assert(forall|k: int| 0 <= k < ms.len() ==> wf_view((#[trigger] ms[k]).1));
            }
            let ms1 = ms.drop_first();
            let ms2 = ms1.drop_first();
            let ms3 = ms2.drop_first();
            assert(ms1[0] == ms[1] && ms2[0] == ms[2] && ms3[0] == ms[3]);
            assert(ms1.drop_first() =~= ms2 && ms2.drop_first() =~= ms3);
            assert(spec_obj_get(ms, "type"@) == Some(JsonView::Text("tool_result"@)));
            assert(spec_obj_get(ms, "id"@) == spec_obj_get(ms1, "id"@));
            assert(spec_obj_get(ms1, "id"@) == Some(ms[1].1));
            assert(spec_obj_get(ms, "call_id"@) == spec_obj_get(ms1, "call_id"@));
            assert(spec_obj_get(ms1, "call_id"@) == spec_obj_get(ms2, "call_id"@));
            assert(spec_obj_get(ms2, "call_id"@) == Some(ms[2].1));
            assert(spec_obj_get(ms, "result"@) == spec_obj_get(ms1, "result"@));
            assert(spec_obj_get(ms1, "result"@) == spec_obj_get(ms2, "result"@));
            assert(spec_obj_get(ms2, "result"@) == spec_obj_get(ms3, "result"@));
            assert(spec_obj_get(ms3, "result"@) == Some(ms[3].1));
        },
    }
}

/// Reading the JSON document of a guest-to-host message yields the message
/// back.
proof fn lemma_operative_msg_json(m: OperativeView)
    requires
        wf_operative_view(m),
    ensures
        wf_view(spec_operative_json(m)),
        spec_operative_of_json(spec_operative_json(m)) == Some(m),
{
    lemma_keys_distinct();
    match m {
        OperativeView::Progress { id, step, status, data } => {
            let ms = spec_operative_json(m)->Object_0;
            assert(wf_view(spec_operative_json(m))) by {
                assert(forall|k: int| 0 <= k < ms.len() ==> wf_view((#[trigger] ms[k]).1));
            }
            let ms1 = ms.drop_first();
            let ms2 = ms1.drop_first();
            let ms3 = ms2.drop_first();
            let ms4 = ms3.drop_first();
            assert(ms1[0] == ms[1] && ms2[0] == ms[2] && ms3[0] == ms[3] && ms4[0] == ms[4]);
            assert(ms1.drop_first() =~= ms2 && ms2.drop_first() =~= ms3 && ms3.drop_first()
                =~= ms4);
            assert(spec_obj_get(ms, "type"@) == Some(JsonView::Text("progress"@)));
            assert(spec_obj_get(ms, "id"@) == spec_obj_get(ms1, "id"@));
            assert(spec_obj_get(ms1, "id"@) == Some(ms[1].1));
            assert(spec_obj_get(ms, "step"@) == spec_obj_get(ms1, "step"@));
            assert(spec_obj_get(ms1, "step"@) == spec_obj_get(ms2, "step"@));
            assert(spec_obj_get(ms2, "step"@) == Some(ms[2].1));
            assert(spec_obj_get(ms, "status"@) == spec_obj_get(ms1, "status"@));
            assert(spec_obj_get(ms1, "status"@) == spec_obj_get(ms2, "status"@));
            assert(spec_obj_get(ms2, "status"@) == spec_obj_get(ms3, "status"@));
            assert(spec_obj_get(ms3, "status"@) == Some(ms[3].1));
            assert(spec_obj_get(ms, "data"@) == spec_obj_get(ms1, "data"@));
            assert(spec_obj_get(ms1, "data"@) == spec_obj_get(ms2, "data"@));
            assert(spec_obj_get(ms2, "data"@) == spec_obj_get(ms3, "data"@));
            assert(spec_obj_get(ms3, "data"@) == spec_obj_get(ms4, "data"@));
            assert(spec_obj_get(ms4, "data"@) == Some(ms[4].1));
        },
        OperativeView::Result { id, output, exit_code } => {
            let ms = spec_operative_json(m)->Object_0;
            lemma_int_lexeme_wf(exit_code);
            assert(wf_view(spec_operative_json(m))) by {
                assert(forall|k: int| 0 <= k < ms.len() ==> wf_view((#[trigger] ms[k]).1));
            }
            let ms1 = ms.drop_first();
            let ms2 = ms1.drop_first();
            let ms3 = ms2.drop_first();
            assert(ms1[0] == ms[1] && ms2[0] == ms[2] && ms3[0] == ms[3]);
            assert(ms1.drop_first() =~= ms2 && ms2.drop_first() =~= ms3);
            assert(spec_obj_get(ms, "type"@) == Some(JsonView::Text("result"@)));
            assert(spec_obj_get(ms, "id"@) == spec_obj_get(ms1, "id"@));
            assert(spec_obj_get(ms1, "id"@) == Some(ms[1].1));
            assert(spec_obj_get(ms, "output"@) == spec_obj_get(ms1, "output"@));
            assert(spec_obj_get(ms1, "output"@) == spec_obj_get(ms2, "output"@));
            assert(spec_obj_get(ms2, "output"@) == Some(ms[2].1));
            assert(spec_obj_get(ms, "exit_code"@) == spec_obj_get(ms1, "exit_code"@));
            assert(spec_obj_get(ms1, "exit_code"@) == spec_obj_get(ms2, "exit_code"@));
            assert(spec_obj_get(ms2, "exit_code"@) == spec_obj_get(ms3, "exit_code"@));
            assert(spec_obj_get(ms3, "exit_code"@) == Some(ms[3].1));
            crate::decimal::lemma_i32_round_trip(exit_code);
        },
        OperativeView::Error { id, error, exit_code } => {
            let ms = spec_operative_json(m)->Object_0;
            lemma_int_lexeme_wf(exit_code);
            assert(wf_view(spec_operative_json(m))) by {
                assert(forall|k: int| 0 <= k < ms.len() ==> wf_view((#[trigger] ms[k]).1));
            }
            let ms1 = ms.drop_first();
            let ms2 = ms1.drop_first();
            let ms3 = ms2.drop_first();
            assert(ms1[0] == ms[1] && ms2[0] == ms[2] && ms3[0] == ms[3]);
            assert(ms1.drop_first() =~= ms2 && ms2.drop_first() =~= ms3);
            assert(spec_obj_get(ms, "type"@) == Some(JsonView::Text("error"@)));
            assert(spec_obj_get(ms, "id"@) == spec_obj_get(ms1, "id"@));
            assert(spec_obj_get(ms1, "id"@) == Some(ms[1].1));
            assert(spec_obj_get(ms, "error"@) == spec_obj_get(ms1, "error"@));
            assert(spec_obj_get(ms1, "error"@) == spec_obj_get(ms2, "error"@));
            assert(spec_obj_get(ms2, "error"@) == Some(ms[2].1));
            assert(spec_obj_get(ms, "exit_code"@) == spec_obj_get(ms1, "exit_code"@));
            assert(spec_obj_get(ms1, "exit_code"@) == spec_obj_get(ms2, "exit_code"@));
            assert(spec_obj_get(ms2, "exit_code"@) == spec_obj_get(ms3, "exit_code"@));
            assert(spec_obj_get(ms3, "exit_code"@) == Some(ms[3].1));
            crate::decimal::lemma_i32_round_trip(exit_code);
        },
        OperativeView::ToolCall { id, call_id, tool, params } => {
            let ms = spec_operative_json(m)->Object_0;
            assert(wf_view(spec_operative_json(m))) by {
                assert(forall|k: int| 0 <= k < ms.len() ==> wf_view((#[trigger] ms[k]).1));
            }
            let ms1 = ms.drop_first();
            let ms2 = ms1.drop_first();
            let ms3 = ms2.drop_first();
            let ms4 = ms3.drop_first();
            assert(ms1[0] == ms[1] && ms2[0] == ms[2] && ms3[0] == ms[3] && ms4[0] == ms[4]);
            assert(ms1.drop_first() =~= ms2 && ms2.drop_first() =~= ms3 && ms3.drop_first()
                =~= ms4);
            assert(spec_obj_get(ms, "type"@) == Some(JsonView::Text("tool_call"@)));
            assert(spec_obj_get(ms, "id"@) == spec_obj_get(ms1, "id"@));
            assert(spec_obj_get(ms1, "id"@) == Some(ms[1].1));
            assert(spec_obj_get(ms, "call_id"@) == spec_obj_get(ms1, "call_id"@));
            assert(spec_obj_get(ms1, "call_id"@) == spec_obj_get(ms2, "call_id"@));
            assert(spec_obj_get(ms2, "call_id"@) == Some(ms[2].1));
            assert(spec_obj_get(ms, "tool"@) == spec_obj_get(ms1, "tool"@));
            assert(spec_obj_get(ms1, "tool"@) == spec_obj_get(ms2, "tool"@));
            assert(spec_obj_get(ms2, "tool"@) == spec_obj_get(ms3, "tool"@));
            assert(spec_obj_get(ms3, "tool"@) == Some(ms[3].1));
            assert(spec_obj_get(ms, "params"@) == spec_obj_get(ms1, "params"@));
            assert(spec_obj_get(ms1, "params"@) == spec_obj_get(ms2, "params"@));
            assert(spec_obj_get(ms2, "params"@) == spec_obj_get(ms3, "params"@));
            assert(spec_obj_get(ms3, "params"@) == spec_obj_get(ms4, "params"@));
            assert(spec_obj_get(ms4, "params"@) == Some(ms[4].1));
        },
    }
}

/// Protocol round trip, host-to-guest: encoding any `SentinelMessage` and
/// decoding the bytes with the mirrored guest-side parser yields a message
/// equal to the original — type tag and all fields preserved.
pub proof fn lemma_sentinel_round_trip(m: SentinelView)
    requires
        wf_sentinel_view(m),
    ensures
        spec_sentinel_decode(spec_ser(spec_sentinel_json(m))) == Some(m),
{
    lemma_sentinel_msg_json(m);
    lemma_json_round_trip(spec_sentinel_json(m));
}

/// Protocol round trip, guest-to-host: encoding any `OperativeMessage`
/// (with a present datum not the explicit null) and decoding the bytes with
/// the host-side parser yields a message equal to the original.
pub proof fn lemma_operative_round_trip(m: OperativeView)
    requires
        wf_operative_view(m),
    ensures
        spec_operative_decode(spec_ser(spec_operative_json(m))) == Some(m),
{
    lemma_operative_msg_json(m);
    lemma_json_round_trip(spec_operative_json(m));
}

} // verus!
