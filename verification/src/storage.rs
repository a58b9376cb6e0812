//! Messages as rows of the session database, and back.
use vstd::prelude::*;
use crate::json;
use crate::json::Json;
use crate::text;
use crate::types;
use crate::types::{ContentPart, Message, ToolCall, ToolResultValue};

verus! {

/// What is known of a session without its messages.
pub struct SessionInfo {
    pub id: String,
    pub title: String,
    pub model: String,
    pub parent_id: Option<String>,
    pub message_count: i64,
    pub input_tokens: u64,
    pub output_tokens: u64,
    pub created_at: String,
    pub updated_at: String,
}

/// A part of a message: its kind, its place, and its data.
pub type PartRow = (String, i64, String);

/// A tool result: the call's id, the tool's name, the status, and the result.
pub type ResultRow = (String, String, String, String);

/// A message as it is stored.
pub struct MessageRows {
    pub id: String,
    pub role: String,
    pub parts: Vec<PartRow>,
    pub results: Vec<ResultRow>,
}

/// The contents of a `PartRow`.
pub type PartRowView = (Seq<char>, i64, Seq<char>);

/// The contents of a `ResultRow`.
pub type ResultRowView = (Seq<char>, Seq<char>, Seq<char>, Seq<char>);

/// The contents of a `MessageRows`.
pub struct MessageRowsView {
    pub id: Seq<char>,
    pub role: Seq<char>,
    pub parts: Seq<PartRowView>,
    pub results: Seq<ResultRowView>,
}

impl DeepView for MessageRows {
    type V = MessageRowsView;

    open spec fn deep_view(&self) -> MessageRowsView {
        MessageRowsView {
            id: self.id@,
            role: self.role@,
            parts: self.parts.deep_view(),
            results: self.results.deep_view(),
        }
    }
}

// ── Results ──

/// A result as JSON.
pub open spec fn result_json(r: types::ResultView) -> Seq<char> {
    match r {
        types::ResultView::Text { value } => json::json_object(
            seq![("type"@, json::json_quote("Text"@)), ("value"@, json::json_quote(value))],
        ),
        types::ResultView::Json { value } => json::json_object(
            seq![("type"@, json::json_quote("Json"@)), ("value"@, value)],
        ),
        types::ResultView::Error { value } => json::json_object(
            seq![("type"@, json::json_quote("Error"@)), ("value"@, json::json_quote(value))],
        ),
    }
}

/// The tag and the value in the JSON value `v`: the members `type` and `value`
/// of an object, or the two items of an array.
pub open spec fn tagged(v: Seq<char>) -> Option<(Seq<char>, Seq<char>)> {
    let (tag, value) = match json::json_member(v, "type"@) {
        Some(tag) => (json::json_str(tag), json::json_member(v, "value"@)),
        None => match json::json_items(v) {
            Some(items) => if items.len() == 2 {
                (json::json_str(items[0]), Some(items[1]))
            } else {
                (None, None)
            },
            None => (None, None),
        },
    };
    match (tag, value) {
        (Some(tag), Some(value)) => Some((tag, value)),
        _ => None,
    }
}

/// The result that the JSON value `v` denotes.
pub open spec fn result_of(v: Seq<char>) -> Option<types::ResultView> {
    match tagged(v) {
        None => None,
        Some((tag, value)) => if tag == "Text"@ {
            match json::json_str(value) {
                Some(value) => Some(types::ResultView::Text { value }),
                None => None,
            }
        } else if tag == "Json"@ {
            Some(types::ResultView::Json { value })
        } else if tag == "Error"@ {
            match json::json_str(value) {
                Some(value) => Some(types::ResultView::Error { value }),
                None => None,
            }
        } else {
            None
        },
    }
}

/// The result that is stored as `stored`. An object that names its tag or its
/// value twice denotes none.
pub open spec fn stored_result(stored: Seq<char>) -> Option<types::ResultView> {
    if json::key_count(stored, "type"@) > 1 || json::key_count(stored, "value"@) > 1 {
        None
    } else {
        result_of(stored)
    }
}

/// Whether the JSON in a result is compact and can be read back.
pub open spec fn result_readable(r: types::ResultView) -> bool {
    r matches types::ResultView::Json { value } ==> json::is_compact(value) && json::json_compact(
        result_json(r),
    ) is Some
}

/// A result as JSON. A readable one is read back.
pub fn result_to_json(result: &ToolResultValue) -> (r: Json)
    ensures
        r@ == result_json(result.deep_view()),
        result_readable(result.deep_view()) ==> json::is_compact(r@) && stored_result(r@) == Some(
            result.deep_view(),
        ),
{
    proof {
        reveal_strlit("type");
        reveal_strlit("value");
        reveal_strlit("Text");
        reveal_strlit("Json");
        reveal_strlit("Error");
        assert("type"@.len() != "value"@.len());
        assert("Text"@[0] != "Json"@[0]);
        assert("Error"@.len() == 5);
    }
    match result {
        ToolResultValue::Text { value } => {
            let tag = Json::string("Text");
            let v = Json::string(value.as_str());
            let ghost fields = seq![("type"@, tag@), ("value"@, v@)];
            let r = Json::object2("type", tag, "value", v);
            proof {
                lemma_two_quoted(r@, fields);
            }
            r
        },
        ToolResultValue::Json { value } => {
            let tag = Json::string("Json");
            let v = value.clone();
            let ghost fields = seq![("type"@, tag@), ("value"@, v@)];
            let r = Json::object2("type", tag, "value", v);
            proof {
                if result_readable(result.deep_view()) {
                    lemma_two_compact(r@, fields);
                }
            }
            r
        },
        ToolResultValue::Error { value } => {
            let tag = Json::string("Error");
            let v = Json::string(value.as_str());
            let ghost fields = seq![("type"@, tag@), ("value"@, v@)];
            let r = Json::object2("type", tag, "value", v);
            proof {
                lemma_two_quoted(r@, fields);
            }
            r
        },
    }
}

fn tag_and_value(v: &Json) -> (r: Option<(String, Json)>)
    ensures
        r.deep_view() == tagged(v@),
{
    if let Some(tag) = v.get("type") {
        return match (tag.as_str(), v.get("value")) {
            (Some(tag), Some(value)) => Some((tag, value)),
            _ => None,
        };
    }
    match v.as_array() {
        Some(items) => {
            assert(items.deep_view().len() == items@.len());
            if items.len() != 2 {
                return None;
            }
            assert(items.deep_view()[0] == items@[0]@);
            assert(items.deep_view()[1] == items@[1]@);
            match items[0].as_str() {
                Some(tag) => Some((tag, items[1].clone())),
                None => None,
            }
        },
        None => None,
    }
}

/// The result that a JSON value denotes.
pub fn result_from_json(v: &Json) -> (r: Option<ToolResultValue>)
    ensures
        r.deep_view() == result_of(v@),
{
    let (tag, value) = match tag_and_value(v) {
        Some(parts) => parts,
        None => return None,
    };
    if text::same(tag.as_str(), "Text") {
        match value.as_str() {
            Some(value) => Some(ToolResultValue::Text { value }),
            None => None,
        }
    } else if text::same(tag.as_str(), "Json") {
        Some(ToolResultValue::Json { value })
    } else if text::same(tag.as_str(), "Error") {
        match value.as_str() {
            Some(value) => Some(ToolResultValue::Error { value }),
            None => None,
        }
    } else {
        None
    }
}

/// The result that is stored as `stored`.
pub fn result_from_text(stored: &str) -> (r: Option<ToolResultValue>)
    ensures
        r.deep_view() == stored_result(stored@),
{
    if json::key_repeats(stored, "type") || json::key_repeats(stored, "value") {
        return None;
    }
    result_from_json(&Json { text: stored.to_owned() })
}

proof fn lemma_two_compact(r: Seq<char>, fields: Seq<(Seq<char>, Seq<char>)>)
    requires
        json::reads_back(r, fields),
        fields.len() == 2,
        fields[0].0 != fields[1].0,
        json::is_compact(fields[0].1),
        json::is_compact(fields[1].1),
        json::json_compact(r) is Some,
    ensures
        json::is_compact(r),
        json::json_member(r, fields[0].0) == Some(fields[0].1),
        json::json_member(r, fields[1].0) == Some(fields[1].1),
{
    assert(json::key_once(fields, 0));
    assert(json::key_once(fields, 1));
}

proof fn lemma_two_quoted(r: Seq<char>, fields: Seq<(Seq<char>, Seq<char>)>)
    requires
        json::reads_back(r, fields),
        fields.len() == 2,
        fields[0].0 != fields[1].0,
        json::is_quoted(fields[0].1),
        json::is_quoted(fields[1].1),
        json::is_compact(fields[0].1),
        json::is_compact(fields[1].1),
    ensures
        json::is_compact(r),
        json::json_member(r, fields[0].0) == Some(fields[0].1),
        json::json_member(r, fields[1].0) == Some(fields[1].1),
{
    lemma_two_compact(r, fields);
}

// ── Rows ──

/// The kind of a part.
pub open spec fn part_kind(p: types::PartView) -> Seq<char> {
    match p {
        types::PartView::Text { .. } => "text"@,
        types::PartView::Reasoning { .. } => "reasoning"@,
        types::PartView::File { .. } => "file"@,
    }
}

/// The data of a part.
pub open spec fn part_data(p: types::PartView) -> Seq<char> {
    match p {
        types::PartView::Text { text } => json::json_object(
            seq![("text"@, json::json_quote(text))],
        ),
        types::PartView::Reasoning { text } => json::json_object(
            seq![("text"@, json::json_quote(text))],
        ),
        types::PartView::File { uri, mime } => json::json_object(
            seq![("uri"@, json::json_quote(uri)), ("mime"@, json::json_quote(mime))],
        ),
    }
}

/// The data of a tool call.
pub open spec fn call_data(c: types::ToolCallView) -> Seq<char> {
    json::json_object(
        seq![
            ("id"@, json::json_quote(c.id)),
            ("name"@, json::json_quote(c.name)),
            ("input"@, c.input),
        ],
    )
}

/// The rows of parts.
pub open spec fn part_rows(parts: Seq<types::PartView>) -> Seq<PartRowView> {
    Seq::new(parts.len(), |i: int| (part_kind(parts[i]), i as i64, part_data(parts[i])))
}

/// The rows of tool calls, behind `first` parts.
pub open spec fn call_rows(calls: Seq<types::ToolCallView>, first: nat) -> Seq<PartRowView> {
    Seq::new(calls.len(), |i: int| ("tool_call"@, (first + i) as i64, call_data(calls[i])))
}

/// The status under which a result is stored.
pub open spec fn status_of(r: types::ResultView) -> Seq<char> {
    if r is Error {
        "error"@
    } else {
        "success"@
    }
}

/// A message as it is stored.
pub open spec fn rows_of(m: types::MessageView) -> MessageRowsView {
    let (parts, results) = match m {
        types::MessageView::System { content, .. } => (
            seq![
                (
                    "system"@,
                    0i64,
                    json::json_object(seq![("content"@, json::json_quote(content))]),
                ),
            ],
            Seq::empty(),
        ),
        types::MessageView::User { content, .. } => (part_rows(content), Seq::empty()),
        types::MessageView::Assistant { content, tool_calls, .. } => (
            part_rows(content) + call_rows(tool_calls, content.len()),
            Seq::empty(),
        ),
        types::MessageView::Tool { tool_call_id, tool_name, result, .. } => (
            seq![
                (
                    "tool_result"@,
                    0i64,
                    json::json_object(
                        seq![
                            ("tool_call_id"@, json::json_quote(tool_call_id)),
                            ("tool_name"@, json::json_quote(tool_name)),
                            ("result"@, result_json(result)),
                        ],
                    ),
                ),
            ],
            seq![(tool_call_id, tool_name, status_of(result), result_json(result))],
        ),
    };
    MessageRowsView { id: types::id_of(m), role: types::role_of(m), parts, results }
}

// ── Back ──

/// The string member `key` of the value `v`; `null` is none.
pub open spec fn str_at(v: Seq<char>, key: Seq<char>) -> Option<Seq<char>> {
    json::json_str(json::json_index(v, key))
}

/// The content part of this kind that the JSON value `v` denotes.
pub open spec fn part_of(kind: Seq<char>, v: Seq<char>) -> Option<types::PartView> {
    if kind == "text"@ {
        match str_at(v, "text"@) {
            Some(text) => Some(types::PartView::Text { text }),
            None => None,
        }
    } else if kind == "reasoning"@ {
        match str_at(v, "text"@) {
            Some(text) => Some(types::PartView::Reasoning { text }),
            None => None,
        }
    } else if kind == "file"@ {
        match (str_at(v, "uri"@), str_at(v, "mime"@)) {
            (Some(uri), Some(mime)) => Some(types::PartView::File { uri, mime }),
            _ => None,
        }
    } else {
        None
    }
}

/// The kinds of content parts.
pub open spec fn is_content(kind: Seq<char>) -> bool {
    kind == "text"@ || kind == "reasoning"@ || kind == "file"@
}

/// The parts of a user's message: what cannot be read is left out.
pub open spec fn user_content(rows: Seq<PartRowView>) -> Seq<types::PartView>
    decreases rows.len(),
{
    if rows.len() == 0 {
        Seq::empty()
    } else {
        let before = user_content(rows.drop_last());
        match json::json_compact(rows.last().2) {
            None => before,
            Some(v) => match part_of(rows.last().0, v) {
                None => before,
                Some(p) => before.push(p),
            },
        }
    }
}

/// The parts and calls of a reply: a row that is no JSON, or a content part
/// that lacks something, makes the whole unreadable; an incomplete call and
/// rows of other kinds are left out.
pub open spec fn reply_content(rows: Seq<PartRowView>) -> Option<
    (Seq<types::PartView>, Seq<types::ToolCallView>),
>
    decreases rows.len(),
{
    if rows.len() == 0 {
        Some((Seq::empty(), Seq::empty()))
    } else {
        let (kind, _, data) = rows.last();
        match (reply_content(rows.drop_last()), json::json_compact(data)) {
            (Some((parts, calls)), Some(v)) => if is_content(kind) {
                match part_of(kind, v) {
                    Some(p) => Some((parts.push(p), calls)),
                    None => None,
                }
            } else if kind == "tool_call"@ {
                match types::call_of_json(v) {
                    Some(c) => Some((parts, calls.push(c))),
                    None => Some((parts, calls)),
                }
            } else {
                Some((parts, calls))
            },
            _ => None,
        }
    }
}

/// The text of a system message; one that cannot be read is empty.
pub open spec fn system_content(rows: Seq<PartRowView>) -> Seq<char> {
    if rows.len() == 0 {
        Seq::empty()
    } else {
        match json::json_compact(rows[0].2) {
            None => Seq::empty(),
            Some(v) => match str_at(v, "content"@) {
                Some(content) => content,
                None => Seq::empty(),
            },
        }
    }
}

/// A tool's message: from its result row where there is one, else from its
/// part.
pub open spec fn tool_message(
    id: Seq<char>,
    rows: Seq<PartRowView>,
    results: Seq<ResultRowView>,
) -> Option<types::MessageView> {
    if results.len() > 0 {
        let (tool_call_id, tool_name, _, stored) = results[0];
        match stored_result(stored) {
            None => None,
            Some(result) => Some(
                types::MessageView::Tool { id, tool_call_id, tool_name, result },
            ),
        }
    } else if rows.len() == 0 {
        None
    } else {
        match json::json_compact(rows[0].2) {
            None => None,
            Some(v) => match (
                result_of(json::json_index(v, "result"@)),
                str_at(v, "tool_call_id"@),
                str_at(v, "tool_name"@),
            ) {
                (Some(result), Some(tool_call_id), Some(tool_name)) => Some(
                    types::MessageView::Tool { id, tool_call_id, tool_name, result },
                ),
                _ => None,
            },
        }
    }
}

/// The message that rows denote.
pub open spec fn message_of(m: MessageRowsView) -> Option<types::MessageView> {
    if m.role == "system"@ {
        Some(types::MessageView::System { id: m.id, content: system_content(m.parts) })
    } else if m.role == "user"@ {
        Some(types::MessageView::User { id: m.id, content: user_content(m.parts) })
    } else if m.role == "assistant"@ {
        match reply_content(m.parts) {
            Some((content, tool_calls)) => Some(
                types::MessageView::Assistant { id: m.id, content, tool_calls },
            ),
            None => None,
        }
    } else if m.role == "tool"@ {
        tool_message(m.id, m.parts, m.results)
    } else {
        None
    }
}

/// The messages that can be read, in order.
pub open spec fn messages_of(rows: Seq<MessageRowsView>) -> Seq<types::MessageView>
    decreases rows.len(),
{
    if rows.len() == 0 {
        Seq::empty()
    } else {
        let before = messages_of(rows.drop_last());
        match message_of(rows.last()) {
            Some(m) => before.push(m),
            None => before,
        }
    }
}

fn str_in(v: &Json, key: &str) -> (r: Option<String>)
    ensures
        r.deep_view() == str_at(v@, key@),
{
    v.index(key).as_str()
}

fn read_part(kind: &str, v: &Json) -> (r: Option<ContentPart>)
    ensures
        r.deep_view() == part_of(kind@, v@),
{
    if text::same(kind, "text") {
        match str_in(v, "text") {
            Some(text) => Some(ContentPart::Text { text }),
            None => None,
        }
    } else if text::same(kind, "reasoning") {
        match str_in(v, "text") {
            Some(text) => Some(ContentPart::Reasoning { text }),
            None => None,
        }
    } else if text::same(kind, "file") {
        match (str_in(v, "uri"), str_in(v, "mime")) {
            (Some(uri), Some(mime)) => Some(ContentPart::File { uri, mime }),
            _ => None,
        }
    } else {
        None
    }
}

fn read_user(rows: &Vec<PartRow>) -> (r: Vec<ContentPart>)
    ensures
        r.deep_view() == user_content(rows.deep_view()),
{
    let ghost all = rows.deep_view();
    let mut r: Vec<ContentPart> = Vec::new();
    let mut i: usize = 0;
    assert(r.deep_view() =~= Seq::<types::PartView>::empty());
    while i < rows.len()
        invariant
            i <= rows@.len(),
            all == rows.deep_view(),
            r.deep_view() == user_content(all.take(i as int)),
        decreases rows@.len() - i,
    {
        assert(all.take(i + 1).drop_last() =~= all.take(i as int));
        let ghost before = r.deep_view();
        let row = &rows[i];
        assert(all[i as int] == row.deep_view());
        if let Some(v) = Json::parse(row.2.as_str()) {
            if let Some(p) = read_part(row.0.as_str(), &v) {
                let ghost pv = p.deep_view();
                r.push(p);
                assert(r.deep_view() =~= before.push(pv));
            }
        }
        i = i + 1;
    }
    assert(all.take(i as int) =~= all);
    r
}

fn read_reply(rows: &Vec<PartRow>) -> (r: Option<(Vec<ContentPart>, Vec<ToolCall>)>)
    ensures
        r.deep_view() == reply_content(rows.deep_view()),
{
    let ghost all = rows.deep_view();
    let mut parts: Vec<ContentPart> = Vec::new();
    let mut calls: Vec<ToolCall> = Vec::new();
    let mut i: usize = 0;
    assert(parts.deep_view() =~= Seq::<types::PartView>::empty());
    assert(calls.deep_view() =~= Seq::<types::ToolCallView>::empty());
    while i < rows.len()
        invariant
            i <= rows@.len(),
            all == rows.deep_view(),
            reply_content(all.take(i as int)) == Some((parts.deep_view(), calls.deep_view())),
        decreases rows@.len() - i,
    {
        assert(all.take(i + 1).drop_last() =~= all.take(i as int));
        let ghost before = (parts.deep_view(), calls.deep_view());
        let row = &rows[i];
        assert(all[i as int] == row.deep_view());
        let kind = row.0.as_str();
        let v = match Json::parse(row.2.as_str()) {
            Some(v) => v,
            None => {
                proof {
                    lemma_unreadable(all, i + 1);
                }
                return None;
            },
        };
        if text::same(kind, "text") || text::same(kind, "reasoning") || text::same(kind, "file") {
            match read_part(kind, &v) {
                Some(p) => {
                    let ghost pv = p.deep_view();
                    parts.push(p);
                    assert(parts.deep_view() =~= before.0.push(pv));
                },
                None => {
                    proof {
                        lemma_unreadable(all, i + 1);
                    }
                    return None;
                },
            }
        } else if text::same(kind, "tool_call") {
            if let Some(c) = ToolCall::from_json_value(&v) {
                let ghost cv = c.deep_view();
                calls.push(c);
                assert(calls.deep_view() =~= before.1.push(cv));
            }
        }
        i = i + 1;
    }
    assert(all.take(i as int) =~= all);
    Some((parts, calls))
}

proof fn lemma_unreadable(rows: Seq<PartRowView>, n: int)
    requires
        0 <= n <= rows.len(),
        reply_content(rows.take(n)) is None,
    ensures
        reply_content(rows) is None,
    decreases rows.len() - n,
{
    if n == rows.len() {
        assert(rows.take(n) =~= rows);
    } else {
        assert(rows.take(n + 1).drop_last() =~= rows.take(n));
        lemma_unreadable(rows, n + 1);
    }
}

fn read_system(rows: &Vec<PartRow>) -> (r: String)
    ensures
        r@ == system_content(rows.deep_view()),
{
    if rows.len() == 0 {
        return String::new();
    }
    assert(rows.deep_view()[0] == rows@[0].deep_view());
    match Json::parse(rows[0].2.as_str()) {
        None => String::new(),
        Some(v) => match str_in(&v, "content") {
            Some(content) => content,
            None => String::new(),
        },
    }
}

fn read_tool(id: &str, rows: &Vec<PartRow>, results: &Vec<ResultRow>) -> (r: Option<Message>)
    ensures
        r.deep_view() == tool_message(id@, rows.deep_view(), results.deep_view()),
{
    if results.len() > 0 {
        let row = &results[0];
        assert(results.deep_view()[0] == row.deep_view());
        match result_from_text(row.3.as_str()) {
            Some(result) => Some(
                Message::Tool {
                    id: id.to_owned(),
                    tool_call_id: row.0.clone(),
                    tool_name: row.1.clone(),
                    result,
                },
            ),
            None => None,
        }
    } else if rows.len() == 0 {
        None
    } else {
        assert(rows.deep_view()[0] == rows@[0].deep_view());
        let v = match Json::parse(rows[0].2.as_str()) {
            Some(v) => v,
            None => return None,
        };
        let result = result_from_json(&v.index("result"));
        match (result, str_in(&v, "tool_call_id"), str_in(&v, "tool_name")) {
            (Some(result), Some(tool_call_id), Some(tool_name)) => Some(
                Message::Tool { id: id.to_owned(), tool_call_id, tool_name, result },
            ),
            _ => None,
        }
    }
}

/// The message that rows denote.
pub fn reconstruct_message(
    id: &str,
    role: &str,
    parts: &Vec<PartRow>,
    tool_results: &Vec<ResultRow>,
) -> (r: Option<Message>)
    ensures
        r.deep_view() == message_of(
            MessageRowsView {
                id: id@,
                role: role@,
                parts: parts.deep_view(),
                results: tool_results.deep_view(),
            },
        ),
{
    if text::same(role, "system") {
        Some(Message::System { id: id.to_owned(), content: read_system(parts) })
    } else if text::same(role, "user") {
        Some(Message::User { id: id.to_owned(), content: read_user(parts) })
    } else if text::same(role, "assistant") {
        match read_reply(parts) {
            Some((content, tool_calls)) => Some(
                Message::Assistant { id: id.to_owned(), content, tool_calls },
            ),
            None => None,
        }
    } else if text::same(role, "tool") {
        read_tool(id, parts, tool_results)
    } else {
        None
    }
}

/// The messages of a session, from their rows. Those that cannot be read are
/// left out.
pub fn load_session_messages(rows: &Vec<MessageRows>) -> (r: Vec<Message>)
    ensures
        r.deep_view() == messages_of(rows.deep_view()),
{
    let ghost all = rows.deep_view();
    let mut r: Vec<Message> = Vec::new();
    let mut i: usize = 0;
    assert(r.deep_view() =~= Seq::<types::MessageView>::empty());
    while i < rows.len()
        invariant
            i <= rows@.len(),
            all == rows.deep_view(),
            r.deep_view() == messages_of(all.take(i as int)),
        decreases rows@.len() - i,
    {
        assert(all.take(i + 1).drop_last() =~= all.take(i as int));
        let ghost before = r.deep_view();
        let row = &rows[i];
        assert(all[i as int] == row.deep_view());
        if let Some(m) = reconstruct_message(
            row.id.as_str(),
            row.role.as_str(),
            &row.parts,
            &row.results,
        ) {
            let ghost mv = m.deep_view();
            r.push(m);
            assert(r.deep_view() =~= before.push(mv));
        }
        i = i + 1;
    }
    assert(all.take(i as int) =~= all);
    r
}

// ── Saving ──

/// Whether a part is read back from its row.
pub open spec fn part_readable(p: types::PartView) -> bool {
    json::is_compact(part_data(p)) && part_of(part_kind(p), part_data(p)) == Some(p)
}

/// Whether a tool call is read back from its row.
pub open spec fn call_readable(c: types::ToolCallView) -> bool {
    json::is_compact(call_data(c)) && types::call_of_json(call_data(c)) == Some(c)
}

/// Whether the JSON in a message is compact and not nested too deep to be
/// read back. Text always is.
pub open spec fn storable(m: types::MessageView) -> bool {
    match m {
        types::MessageView::Assistant { tool_calls, .. } => forall|i: int|
            0 <= i < tool_calls.len() ==> json::is_compact((#[trigger] tool_calls[i]).input)
                && json::json_compact(call_data(tool_calls[i])) is Some,
        types::MessageView::Tool { result, .. } => result_readable(result),
        _ => true,
    }
}

fn save_part(p: &ContentPart) -> (r: (&'static str, Json))
    ensures
        r.0@ == part_kind(p.deep_view()),
        r.1@ == part_data(p.deep_view()),
        part_readable(p.deep_view()),
{
    proof {
        reveal_strlit("text");
        reveal_strlit("reasoning");
        reveal_strlit("file");
        reveal_strlit("uri");
        reveal_strlit("mime");
        assert("text"@[0] != "file"@[0]);
        assert("uri"@.len() != "mime"@.len());
    }
    match p {
        ContentPart::Text { text } => {
            let v = Json::string(text.as_str());
            let ghost fields = seq![("text"@, v@)];
            let r = Json::object1("text", v);
            proof {
                assert(json::is_quoted(fields[0].1));
                assert(json::key_once(fields, 0));
            }
            ("text", r)
        },
        ContentPart::Reasoning { text } => {
            let v = Json::string(text.as_str());
            let ghost fields = seq![("text"@, v@)];
            let r = Json::object1("text", v);
            proof {
                assert(json::is_quoted(fields[0].1));
                assert(json::key_once(fields, 0));
            }
            ("reasoning", r)
        },
        ContentPart::File { uri, mime } => {
            let v = Json::string(uri.as_str());
            let w = Json::string(mime.as_str());
            let ghost fields = seq![("uri"@, v@), ("mime"@, w@)];
            let r = Json::object2("uri", v, "mime", w);
            proof {
                lemma_two_quoted(r@, fields);
            }
            ("file", r)
        },
    }
}

fn save_call(c: &ToolCall) -> (r: Json)
    ensures
        r@ == call_data(c.deep_view()),
        json::is_compact(c.input@) && json::json_compact(r@) is Some ==> call_readable(
            c.deep_view(),
        ),
{
    proof {
        reveal_strlit("id");
        reveal_strlit("name");
        reveal_strlit("input");
        assert("id"@.len() == 2 && "name"@.len() == 4 && "input"@.len() == 5);
    }
    let id = Json::string(c.id.as_str());
    let name = Json::string(c.name.as_str());
    let ghost fields = seq![("id"@, id@), ("name"@, name@), ("input"@, c.input@)];
    let r = Json::object3("id", id, "name", name, "input", c.input.clone());
    proof {
        if json::is_compact(c.input@) && json::json_compact(r@) is Some {
            assert(json::key_once(fields, 0));
            assert(json::key_once(fields, 1));
            assert(json::key_once(fields, 2));
            assert(json::json_member(r@, fields[0].0) == Some(fields[0].1));
            assert(json::json_member(r@, fields[1].0) == Some(fields[1].1));
            assert(json::json_member(r@, fields[2].0) == Some(fields[2].1));
        }
    }
    r
}

fn save_parts(parts: &Vec<ContentPart>) -> (r: Vec<PartRow>)
    ensures
        r.deep_view() == part_rows(parts.deep_view()),
        forall|i: int| 0 <= i < parts@.len() ==> part_readable(#[trigger] parts.deep_view()[i]),
{
    let ghost all = parts.deep_view();
    let mut r: Vec<PartRow> = Vec::new();
    let mut i: usize = 0;
    while i < parts.len()
        invariant
            i <= parts@.len(),
            all == parts.deep_view(),
            r@.len() == i,
            forall|j: int|
                0 <= j < i ==> (#[trigger] r@[j]).deep_view() == (
                    part_kind(all[j]),
                    j as i64,
                    part_data(all[j]),
                ) && part_readable(all[j]),
        decreases parts@.len() - i,
    {
        let (kind, data) = save_part(&parts[i]);
        assert(all[i as int] == parts@[i as int].deep_view());
        let row: PartRow = (kind.to_owned(), i as i64, data.text);
        r.push(row);
        i = i + 1;
    }
    assert(r.deep_view() =~= part_rows(all));
    assert forall|j: int| 0 <= j < parts@.len() implies part_readable(#[trigger] all[j]) by {
        assert(r@[j].deep_view().0 == part_kind(all[j]));
    }
    r
}

proof fn lemma_user_back(parts: Seq<types::PartView>)
    requires
        forall|i: int| 0 <= i < parts.len() ==> part_readable(#[trigger] parts[i]),
    ensures
        user_content(part_rows(parts)) == parts,
    decreases parts.len(),
{
    let rows = part_rows(parts);
    if parts.len() == 0 {
        assert(parts =~= Seq::<types::PartView>::empty());
    } else {
        let rest = parts.drop_last();
        assert forall|i: int| 0 <= i < rest.len() implies part_readable(#[trigger] rest[i]) by {
            assert(rest[i] == parts[i]);
        }
        lemma_user_back(rest);
        assert(rows.drop_last() =~= part_rows(rest));
        assert(part_readable(parts.last()));
        assert(rest.push(parts.last()) =~= parts);
    }
}

proof fn lemma_reply_parts_back(parts: Seq<types::PartView>)
    requires
        forall|i: int| 0 <= i < parts.len() ==> part_readable(#[trigger] parts[i]),
    ensures
        reply_content(part_rows(parts)) == Some((parts, Seq::<types::ToolCallView>::empty())),
    decreases parts.len(),
{
    let rows = part_rows(parts);
    if parts.len() == 0 {
        assert(parts =~= Seq::<types::PartView>::empty());
    } else {
        let rest = parts.drop_last();
        assert forall|i: int| 0 <= i < rest.len() implies part_readable(#[trigger] rest[i]) by {
            assert(rest[i] == parts[i]);
        }
        lemma_reply_parts_back(rest);
        assert(rows.drop_last() =~= part_rows(rest));
        assert(part_readable(parts.last()));
        assert(rest.push(parts.last()) =~= parts);
    }
}

proof fn lemma_reply_back(parts: Seq<types::PartView>, calls: Seq<types::ToolCallView>)
    requires
        forall|i: int| 0 <= i < parts.len() ==> part_readable(#[trigger] parts[i]),
        forall|i: int| 0 <= i < calls.len() ==> call_readable(#[trigger] calls[i]),
    ensures
        reply_content(part_rows(parts) + call_rows(calls, parts.len())) == Some((parts, calls)),
    decreases calls.len(),
{
    let rows = part_rows(parts) + call_rows(calls, parts.len());
    if calls.len() == 0 {
        lemma_reply_parts_back(parts);
        assert(rows =~= part_rows(parts));
        assert(calls =~= Seq::<types::ToolCallView>::empty());
    } else {
        let rest = calls.drop_last();
        assert forall|i: int| 0 <= i < rest.len() implies call_readable(#[trigger] rest[i]) by {
            assert(rest[i] == calls[i]);
        }
        lemma_reply_back(parts, rest);
        assert(rows.drop_last() =~= part_rows(parts) + call_rows(rest, parts.len()));
        assert(call_readable(calls.last()));
        assert(rest.push(calls.last()) =~= calls);
        lemma_kinds_differ();
    }
}

proof fn lemma_kinds_differ()
    ensures
        !is_content("tool_call"@),
{
    reveal_strlit("tool_call");
    reveal_strlit("text");
    reveal_strlit("reasoning");
    reveal_strlit("file");
    assert("tool_call"@[0] == 't' && "reasoning"@[0] == 'r');
    assert("tool_call"@.len() == 9 && "text"@.len() == 4 && "file"@.len() == 4);
}

proof fn lemma_roles_differ()
    ensures
        "system"@ != "user"@,
        "system"@ != "assistant"@,
        "system"@ != "tool"@,
        "user"@ != "assistant"@,
        "user"@ != "tool"@,
        "assistant"@ != "tool"@,
{
    reveal_strlit("system");
    reveal_strlit("user");
    reveal_strlit("assistant");
    reveal_strlit("tool");
    assert("system"@.len() == 6 && "assistant"@.len() == 9);
    assert("user"@[0] == 'u' && "tool"@[0] == 't');
}

/// The rows under which a message is stored. A message whose JSON can be read
/// back is read back from them as it was.
pub fn save_message(message: &Message) -> (r: MessageRows)
    ensures
        r.deep_view() == rows_of(message.deep_view()),
        storable(message.deep_view()) ==> message_of(r.deep_view()) == Some(message.deep_view()),
        message is Tool && storable(message.deep_view()) && json::json_compact(
            r.deep_view().parts[0].2,
        ) is Some ==> message_of(MessageRowsView { results: Seq::empty(), ..r.deep_view() }) == Some(
            message.deep_view(),
        ),
{
    let ghost m = message.deep_view();
    let id = message.id().to_owned();
    let role = message.role_str().to_owned();
    proof {
        lemma_roles_differ();
    }
    match message {
        Message::System { content, .. } => {
            let v = Json::string(content.as_str());
            let ghost fields = seq![("content"@, v@)];
            let data = Json::object1("content", v);
            proof {
                assert(json::is_quoted(fields[0].1));
                assert(json::key_once(fields, 0));
                assert(json::json_member(data@, fields[0].0) == Some(fields[0].1));
            }
            let parts: Vec<PartRow> = vec![("system".to_owned(), 0i64, data.text)];
            let results: Vec<ResultRow> = Vec::new();
            assert(parts.deep_view() =~= rows_of(m).parts);
            assert(results.deep_view() =~= rows_of(m).results);
            MessageRows { id, role, parts, results }
        },
        Message::User { content, .. } => {
            let parts = save_parts(content);
            let results: Vec<ResultRow> = Vec::new();
            proof {
                lemma_user_back(content.deep_view());
            }
            assert(results.deep_view() =~= rows_of(m).results);
            MessageRows { id, role, parts, results }
        },
        Message::Assistant { content, tool_calls, .. } => {
            let mut parts = save_parts(content);
            let ghost pv = content.deep_view();
            let ghost cv = tool_calls.deep_view();
            let n: usize = content.len();
            let mut i: usize = 0;
            assert(parts.deep_view().len() == n);
            while i < tool_calls.len()
                invariant
                    i <= tool_calls@.len(),
                    n == pv.len(),
                    cv == tool_calls.deep_view(),
                    parts@.len() == n + i,
                    forall|j: int|
                        0 <= j < n ==> (#[trigger] parts@[j]).deep_view() == part_rows(pv)[j],
                    forall|j: int|
                        n <= j < n + i ==> (#[trigger] parts@[j]).deep_view() == call_rows(
                            cv,
                            pv.len(),
                        )[j - n],
                    forall|j: int|
                        0 <= j < i && json::is_compact((#[trigger] cv[j]).input)
                            && json::json_compact(call_data(cv[j])) is Some ==> call_readable(cv[j]),
                decreases tool_calls@.len() - i,
            {
                assert(parts.len() <= usize::MAX);
                let position: usize = n + i;
                let data = save_call(&tool_calls[i]);
                assert(cv[i as int] == tool_calls@[i as int].deep_view());
                let row: PartRow = ("tool_call".to_owned(), position as i64, data.text);
                parts.push(row);
                i = i + 1;
            }
            let results: Vec<ResultRow> = Vec::new();
            assert(parts.deep_view() =~= rows_of(m).parts);
            assert(results.deep_view() =~= rows_of(m).results);
            proof {
                if storable(m) {
                    assert forall|j: int| 0 <= j < cv.len() implies call_readable(#[trigger] cv[j]) by {
                        assert(json::is_compact(cv[j].input));
                    }
                    lemma_reply_back(pv, cv);
                }
            }
            MessageRows { id, role, parts, results }
        },
        Message::Tool { tool_call_id, tool_name, result, .. } => {
            let status = match result {
                ToolResultValue::Error { .. } => "error",
                _ => "success",
            };
            let stored = result_to_json(result);
            let call = Json::string(tool_call_id.as_str());
            let name = Json::string(tool_name.as_str());
            let ghost fields = seq![
                ("tool_call_id"@, call@),
                ("tool_name"@, name@),
                ("result"@, stored@),
            ];
            let data = Json::object3(
                "tool_call_id",
                call,
                "tool_name",
                name,
                "result",
                stored.clone(),
            );
            proof {
                if storable(m) && json::json_compact(data@) is Some {
                    reveal_strlit("tool_call_id");
                    reveal_strlit("tool_name");
                    reveal_strlit("result");
                    assert("tool_call_id"@.len() == 12 && "tool_name"@.len() == 9);
                    assert("result"@.len() == 6);
                    assert(json::key_once(fields, 0));
                    assert(json::key_once(fields, 1));
                    assert(json::key_once(fields, 2));
                    assert(json::json_member(data@, fields[0].0) == Some(fields[0].1));
                    assert(json::json_member(data@, fields[1].0) == Some(fields[1].1));
                    assert(json::json_member(data@, fields[2].0) == Some(fields[2].1));
                }
            }
            let parts: Vec<PartRow> = vec![("tool_result".to_owned(), 0i64, data.text)];
            let results: Vec<ResultRow> = vec![
                (tool_call_id.clone(), tool_name.clone(), status.to_owned(), stored.text),
            ];
            assert(parts.deep_view() =~= rows_of(m).parts);
            assert(results.deep_view() =~= rows_of(m).results);
            MessageRows { id, role, parts, results }
        },
    }
}

/// The rows under which messages are stored, in order.
pub fn save_messages(messages: &Vec<Message>) -> (r: Vec<MessageRows>)
    ensures
        r.deep_view() == messages.deep_view().map_values(|m: types::MessageView| rows_of(m)),
        (forall|i: int| 0 <= i < messages@.len() ==> storable(#[trigger] messages.deep_view()[i]))
            ==> messages_of(r.deep_view()) == messages.deep_view(),
{
    let ghost all = messages.deep_view();
    let mut r: Vec<MessageRows> = Vec::new();
    let mut i: usize = 0;
    while i < messages.len()
        invariant
            i <= messages@.len(),
            all == messages.deep_view(),
            r@.len() == i,
            forall|j: int|
                0 <= j < i ==> (#[trigger] r@[j]).deep_view() == rows_of(all[j]) && (storable(
                    all[j],
                ) ==> message_of(r@[j].deep_view()) == Some(all[j])),
        decreases messages@.len() - i,
    {
        assert(all[i as int] == messages@[i as int].deep_view());
        r.push(save_message(&messages[i]));
        i = i + 1;
    }
    assert(r.deep_view() =~= all.map_values(|m: types::MessageView| rows_of(m)));
    proof {
        if forall|i: int| 0 <= i < all.len() ==> storable(#[trigger] all[i]) {
            assert forall|j: int| 0 <= j < all.len() implies message_of(
                #[trigger] r.deep_view()[j],
            ) == Some(all[j]) by {
                assert(r@[j].deep_view() == rows_of(all[j]));
                assert(storable(all[j]));
            }
            lemma_all_back(r.deep_view(), all);
        }
    }
    r
}

proof fn lemma_all_back(rows: Seq<MessageRowsView>, all: Seq<types::MessageView>)
    requires
        rows.len() == all.len(),
        forall|j: int| 0 <= j < all.len() ==> message_of(#[trigger] rows[j]) == Some(all[j]),
    ensures
        messages_of(rows) == all,
    decreases rows.len(),
{
    if rows.len() == 0 {
        assert(all =~= Seq::<types::MessageView>::empty());
    } else {
        let rest = rows.drop_last();
        assert forall|j: int| 0 <= j < rest.len() implies message_of(#[trigger] rest[j]) == Some(
            all.drop_last()[j],
        ) by {
            assert(rest[j] == rows[j]);
        }
        lemma_all_back(rest, all.drop_last());
        assert(all.drop_last().push(all.last()) =~= all);
        assert(rows.last() == rows[rows.len() - 1]);
    }
}

// ── Laws ──

/// The rows of a message stand under its id and its role. A tool's result is
/// stored with the id of its call, the name of the tool, and whether it failed.
pub proof fn rows_name_their_message(m: types::MessageView)
    ensures
        rows_of(m).id == types::id_of(m),
        rows_of(m).role == types::role_of(m),
        m matches types::MessageView::Tool { tool_call_id, tool_name, result, .. } ==> rows_of(
            m,
        ).results.len() == 1 && rows_of(m).results[0].0 == tool_call_id && rows_of(m).results[0].1
            == tool_name && rows_of(m).results[0].2 == (if result is Error {
            "error"@
        } else {
            "success"@
        }),
        !(m is Tool) ==> rows_of(m).results.len() == 0,
        m matches types::MessageView::Assistant { content, tool_calls, .. } ==> rows_of(
            m,
        ).parts.len() == content.len() + tool_calls.len(),
        m matches types::MessageView::User { content, .. } ==> rows_of(m).parts.len()
            == content.len(),
{
}

/// The rows of a message are numbered in order, parts before calls.
pub proof fn rows_are_numbered(m: types::MessageView, i: int)
    requires
        0 <= i < rows_of(m).parts.len(),
        i <= i64::MAX,
    ensures
        rows_of(m).parts[i].1 == i,
        m matches types::MessageView::Assistant { content, .. } ==> (rows_of(m).parts[i].0
            == "tool_call"@ <==> i >= content.len()),
{
    if let types::MessageView::Assistant { content, tool_calls, .. } = m {
        lemma_kinds_differ();
        if i < content.len() {
            assert(rows_of(m).parts[i] == part_rows(content)[i]);
            assert(is_content(part_kind(content[i])));
        } else {
            assert(rows_of(m).parts[i] == call_rows(tool_calls, content.len())[i - content.len()]);
        }
    }
}

/// Messages are read in order, each by itself; one that cannot be read is left
/// out and does not harm the others.
pub proof fn sessions_are_read_in_order(
    a: Seq<MessageRowsView>,
    b: Seq<MessageRowsView>,
    m: MessageRowsView,
)
    ensures
        messages_of(a + b) == messages_of(a) + messages_of(b),
        messages_of(seq![m]) == (match message_of(m) {
            Some(message) => seq![message],
            None => Seq::empty(),
        }),
    decreases b.len(),
{
    let none = Seq::<MessageRowsView>::empty();
    assert(seq![m].drop_last() =~= none);
    assert(messages_of(none) =~= Seq::<types::MessageView>::empty());
    assert(messages_of(seq![m]) =~= (match message_of(m) {
        Some(message) => seq![message],
        None => Seq::empty(),
    }));
    if b.len() == 0 {
        assert(a + b =~= a);
        assert(messages_of(a) + messages_of(b) =~= messages_of(a));
    } else {
        sessions_are_read_in_order(a, b.drop_last(), m);
        assert((a + b).drop_last() =~= a + b.drop_last());
        assert(messages_of(a + b) =~= messages_of(a) + messages_of(b));
    }
}

/// A message that is read has the id and the role of its rows.
pub proof fn messages_keep_their_id(m: MessageRowsView)
    ensures
        message_of(m) matches Some(message) ==> types::id_of(message) == m.id && types::role_of(
            message,
        ) == m.role,
        m.role == "system"@ || m.role == "user"@ ==> message_of(m) is Some,
{
}

/// The parts of a user's message are read in order, each by itself; what cannot
/// be read is left out.
pub proof fn user_parts_are_read_in_order(
    a: Seq<PartRowView>,
    b: Seq<PartRowView>,
    row: PartRowView,
)
    ensures
        user_content(a + b) == user_content(a) + user_content(b),
        user_content(seq![row]) == (match json::json_compact(row.2) {
            Some(v) => match part_of(row.0, v) {
                Some(p) => seq![p],
                None => Seq::empty(),
            },
            None => Seq::empty(),
        }),
    decreases b.len(),
{
    let none = Seq::<PartRowView>::empty();
    assert(seq![row].drop_last() =~= none);
    assert(seq![row].last() == row);
    assert(user_content(none) =~= Seq::<types::PartView>::empty());
    assert(user_content(seq![row]) =~= (match json::json_compact(row.2) {
        Some(v) => match part_of(row.0, v) {
            Some(p) => seq![p],
            None => Seq::empty(),
        },
        None => Seq::empty(),
    }));
    if b.len() == 0 {
        assert(a + b =~= a);
        assert(user_content(a) + user_content(b) =~= user_content(a));
    } else {
        user_parts_are_read_in_order(a, b.drop_last(), row);
        assert((a + b).drop_last() =~= a + b.drop_last());
        assert(user_content(a + b) =~= user_content(a) + user_content(b));
    }
}

/// The parts and the calls of a reply are read in order.
pub proof fn replies_are_read_in_order(a: Seq<PartRowView>, b: Seq<PartRowView>)
    ensures
        match (reply_content(a), reply_content(b)) {
            (Some((p, c)), Some((q, d))) => reply_content(a + b) == Some((p + q, c + d)),
            _ => reply_content(a + b) is None,
        },
    decreases b.len(),
{
    if b.len() == 0 {
        assert(a + b =~= a);
        if let Some((p, c)) = reply_content(a) {
            assert(p + Seq::<types::PartView>::empty() =~= p);
            assert(c + Seq::<types::ToolCallView>::empty() =~= c);
        }
    } else {
        replies_are_read_in_order(a, b.drop_last());
        let all = a + b;
        assert(all.drop_last() =~= a + b.drop_last());
        assert(all.last() == b.last());
        if let (Some((p, c)), Some((q, d))) = (reply_content(a), reply_content(b)) {
            let (q0, d0) = reply_content(b.drop_last()).unwrap();
            let (r, e) = reply_content(all).unwrap();
            assert(r =~= p + q);
            assert(e =~= c + d);
        }
    }
}

/// Whether a row of a reply can be read: it is JSON, and a content part lacks
/// nothing.
pub open spec fn row_readable(row: PartRowView) -> bool {
    match json::json_compact(row.2) {
        Some(v) => is_content(row.0) ==> part_of(row.0, v) is Some,
        None => false,
    }
}

/// A reply can be read exactly where each of its rows can.
pub proof fn replies_need_all_their_rows(rows: Seq<PartRowView>)
    ensures
        reply_content(rows) is Some <==> forall|i: int|
            0 <= i < rows.len() ==> row_readable(#[trigger] rows[i]),
    decreases rows.len(),
{
    if rows.len() > 0 {
        let rest = rows.drop_last();
        replies_need_all_their_rows(rest);
        assert(rows[rows.len() - 1] == rows.last());
        assert forall|i: int| 0 <= i < rest.len() implies #[trigger] rest[i] == rows[i] by {}
        if forall|i: int| 0 <= i < rows.len() ==> row_readable(#[trigger] rows[i]) {
            assert forall|i: int| 0 <= i < rest.len() implies row_readable(#[trigger] rest[i]) by {
                assert(row_readable(rows[i]));
            }
            assert(row_readable(rows[rows.len() - 1]));
        }
        if reply_content(rows) is Some {
            assert(row_readable(rows.last()));
            assert forall|i: int| 0 <= i < rows.len() implies row_readable(#[trigger] rows[i]) by {
                if i < rest.len() {
                    assert(row_readable(rest[i]));
                }
            }
        }
    }
}

/// What a row adds to a reply: a content part its part, a complete call its
/// call, any other row nothing.
pub proof fn rows_add_to_a_reply(row: PartRowView)
    requires
        row_readable(row),
    ensures
        ({
            let v = json::json_compact(row.2).unwrap();
            let (parts, calls) = reply_content(seq![row]).unwrap();
            &&& parts == (if is_content(row.0) {
                seq![part_of(row.0, v).unwrap()]
            } else {
                Seq::empty()
            })
            &&& calls == (if row.0 == "tool_call"@ && types::call_of_json(v) is Some {
                seq![types::call_of_json(v).unwrap()]
            } else {
                Seq::empty()
            })
        }),
{
    lemma_kinds_differ();
    let none = Seq::<PartRowView>::empty();
    assert(seq![row].drop_last() =~= none);
    assert(seq![row].last() == row);
    assert(reply_content(none) == Some(
        (Seq::<types::PartView>::empty(), Seq::<types::ToolCallView>::empty()),
    ));
    let v = json::json_compact(row.2).unwrap();
    let (parts, calls) = reply_content(seq![row]).unwrap();
    assert(parts =~= (if is_content(row.0) {
        seq![part_of(row.0, v).unwrap()]
    } else {
        Seq::empty()
    }));
    assert(calls =~= (if row.0 == "tool_call"@ && types::call_of_json(v) is Some {
        seq![types::call_of_json(v).unwrap()]
    } else {
        Seq::empty()
    }));
}

/// A part is read from the members of its data: the text of a text and of
/// reasoning, the address and the kind of a file.
pub proof fn parts_are_read(v: Seq<char>, s: Seq<char>, t: Seq<char>)
    ensures
        str_at(v, "text"@) == Some(s) ==> part_of("text"@, v) == Some(
            types::PartView::Text { text: s },
        ) && part_of("reasoning"@, v) == Some(types::PartView::Reasoning { text: s }),
        str_at(v, "uri"@) == Some(s) && str_at(v, "mime"@) == Some(t) ==> part_of("file"@, v)
            == Some(types::PartView::File { uri: s, mime: t }),
        str_at(v, "text"@) is None ==> part_of("text"@, v) is None && part_of(
            "reasoning"@,
            v,
        ) is None,
{
    reveal_strlit("text");
    reveal_strlit("reasoning");
    reveal_strlit("file");
    assert("text"@[0] == 't' && "reasoning"@[0] == 'r' && "file"@[0] == 'f');
}

/// A stored result is read by its tag: text and errors as strings, anything
/// else as JSON.
pub proof fn results_are_read_by_tag(v: Seq<char>, tag: Seq<char>, value: Seq<char>, s: Seq<char>)
    requires
        json::json_str_member(v, "type"@) == Some(tag),
        json::json_member(v, "value"@) == Some(value),
    ensures
        tag == "Text"@ && json::json_str(value) == Some(s) ==> result_of(v) == Some(
            types::ResultView::Text { value: s },
        ),
        tag == "Error"@ && json::json_str(value) == Some(s) ==> result_of(v) == Some(
            types::ResultView::Error { value: s },
        ),
        tag == "Json"@ ==> result_of(v) == Some(types::ResultView::Json { value }),
        tag != "Text"@ && tag != "Error"@ && tag != "Json"@ ==> result_of(v) is None,
{
    reveal_strlit("Text");
    reveal_strlit("Json");
    reveal_strlit("Error");
    assert("Text"@[0] == 'T' && "Json"@[0] == 'J' && "Error"@[0] == 'E');
}

} // verus!
