//! Messages, tool calls and results, stream events and the message history.
use vstd::prelude::*;
use crate::json;
use crate::json::Json;
use crate::llm;
use crate::text;

verus! {

pub type MessageId = String;

/// A value whose copy has the same contents.
pub trait Duplicate: DeepView + Sized {
    fn duplicate(&self) -> (r: Self)
        ensures
            r.deep_view() == self.deep_view(),
    ;
}

pub fn duplicate_all<T: Duplicate>(items: &Vec<T>) -> (r: Vec<T>)
    ensures
        r.deep_view() == items.deep_view(),
{
    let mut r: Vec<T> = Vec::new();
    let mut i: usize = 0;
    while i < items.len()
        invariant
            i <= items@.len(),
            r.deep_view() == items.deep_view().take(i as int),
        decreases items@.len() - i,
    {
        let ghost before = r.deep_view();
        let item = items[i].duplicate();
        r.push(item);
        assert(r.deep_view() =~= before.push(items.deep_view()[i as int]));
        assert(before.push(items.deep_view()[i as int]) =~= items.deep_view().take(i + 1));
        i = i + 1;
    }
    assert(items.deep_view().take(i as int) =~= items.deep_view());
    r
}

impl Duplicate for Json {
    fn duplicate(&self) -> Self {
        self.clone()
    }
}

impl Duplicate for String {
    fn duplicate(&self) -> Self {
        self.clone()
    }
}

/// What the model is told of a tool.
pub struct ToolDefinition {
    pub name: String,
    pub description: String,
    pub input_schema: Json,
    pub output_schema: Option<Json>,
}

/// The contents of a `ToolDefinition`.
pub struct ToolDefinitionView {
    pub name: Seq<char>,
    pub description: Seq<char>,
    pub input_schema: Seq<char>,
    pub output_schema: Option<Seq<char>>,
}

impl DeepView for ToolDefinition {
    type V = ToolDefinitionView;

    open spec fn deep_view(&self) -> ToolDefinitionView {
        ToolDefinitionView {
            name: self.name@,
            description: self.description@,
            input_schema: self.input_schema@,
            output_schema: self.output_schema.deep_view(),
        }
    }
}

impl Duplicate for ToolDefinition {
    fn duplicate(&self) -> Self {
        ToolDefinition {
            name: self.name.clone(),
            description: self.description.clone(),
            input_schema: self.input_schema.clone(),
            output_schema: match &self.output_schema {
                Some(s) => Some(s.clone()),
                None => None,
            },
        }
    }
}

/// A call of a tool that the model asked for.
pub struct ToolCall {
    pub id: String,
    pub name: String,
    pub input: Json,
}

/// The contents of a `ToolCall`.
pub struct ToolCallView {
    pub id: Seq<char>,
    pub name: Seq<char>,
    pub input: Seq<char>,
}

impl DeepView for ToolCall {
    type V = ToolCallView;

    open spec fn deep_view(&self) -> ToolCallView {
        ToolCallView { id: self.id@, name: self.name@, input: self.input@ }
    }
}

impl Duplicate for ToolCall {
    fn duplicate(&self) -> Self {
        ToolCall { id: self.id.clone(), name: self.name.clone(), input: self.input.clone() }
    }
}

impl Clone for ToolCall {
    fn clone(&self) -> (r: Self)
        ensures
            r.deep_view() == self.deep_view(),
    {
        self.duplicate()
    }
}

/// The call that the object `v` describes.
pub open spec fn call_of_json(v: Seq<char>) -> Option<ToolCallView> {
    match (json::json_str(json::json_index(v, "id"@)), json::json_str(json::json_index(v, "name"@))) {
        (Some(id), Some(name)) => Some(
            ToolCallView { id, name, input: json::json_index(v, "input"@) },
        ),
        _ => None,
    }
}

impl ToolCall {
    /// Reads `id`, `name` and `input` of an object. The first two must be
    /// strings; a missing `input` is `null`.
    pub fn from_json_value(v: &Json) -> (r: Option<ToolCall>)
        ensures
            r.deep_view() == call_of_json(v@),
    {
        let id = match v.index("id").as_str() {
            Some(id) => id,
            None => return None,
        };
        let name = match v.index("name").as_str() {
            Some(name) => name,
            None => return None,
        };
        Some(ToolCall { id, name, input: v.index("input") })
    }
}

/// What a tool gave.
#[allow(inconsistent_fields)]
pub enum ToolResultValue {
    Text { value: String },
    Json { value: Json },
    Error { value: String },
}

/// The contents of a `ToolResultValue`.
pub enum ResultView {
    Text { value: Seq<char> },
    Json { value: Seq<char> },
    Error { value: Seq<char> },
}

impl DeepView for ToolResultValue {
    type V = ResultView;

    open spec fn deep_view(&self) -> ResultView {
        match *self {
            ToolResultValue::Text { value } => ResultView::Text { value: value@ },
            ToolResultValue::Json { value } => ResultView::Json { value: value@ },
            ToolResultValue::Error { value } => ResultView::Error { value: value@ },
        }
    }
}

impl Duplicate for ToolResultValue {
    fn duplicate(&self) -> Self {
        match self {
            ToolResultValue::Text { value } => ToolResultValue::Text { value: value.clone() },
            ToolResultValue::Json { value } => ToolResultValue::Json { value: value.clone() },
            ToolResultValue::Error { value } => ToolResultValue::Error { value: value.clone() },
        }
    }
}

impl Clone for ToolResultValue {
    fn clone(&self) -> (r: Self)
        ensures
            r.deep_view() == self.deep_view(),
    {
        self.duplicate()
    }
}

/// Part of what a tool shows beside its result.
pub enum ToolContent {
    Text { text: String },
    File { uri: String, mime: String, name: Option<String> },
}

/// The contents of a `ToolContent`.
pub enum ToolContentView {
    Text { text: Seq<char> },
    File { uri: Seq<char>, mime: Seq<char>, name: Option<Seq<char>> },
}

impl DeepView for ToolContent {
    type V = ToolContentView;

    open spec fn deep_view(&self) -> ToolContentView {
        match *self {
            ToolContent::Text { text } => ToolContentView::Text { text: text@ },
            ToolContent::File { uri, mime, name } => ToolContentView::File {
                uri: uri@,
                mime: mime@,
                name: name.deep_view(),
            },
        }
    }
}

impl Duplicate for ToolContent {
    fn duplicate(&self) -> Self {
        match self {
            ToolContent::Text { text } => ToolContent::Text { text: text.clone() },
            ToolContent::File { uri, mime, name } => ToolContent::File {
                uri: uri.clone(),
                mime: mime.clone(),
                name: match name {
                    Some(n) => Some(n.clone()),
                    None => None,
                },
            },
        }
    }
}

/// What a tool shows beside its result.
pub struct ToolOutput {
    pub content: Vec<ToolContent>,
}

impl DeepView for ToolOutput {
    type V = Seq<ToolContentView>;

    open spec fn deep_view(&self) -> Seq<ToolContentView> {
        self.content.deep_view()
    }
}

impl Duplicate for ToolOutput {
    fn duplicate(&self) -> Self {
        ToolOutput { content: duplicate_all(&self.content) }
    }
}

/// The result of one tool call.
pub struct ToolResult {
    pub id: String,
    pub name: String,
    pub result: ToolResultValue,
    pub output: Option<ToolOutput>,
}

/// The contents of a `ToolResult`.
pub struct ToolResultView {
    pub id: Seq<char>,
    pub name: Seq<char>,
    pub result: ResultView,
    pub output: Option<Seq<ToolContentView>>,
}

impl DeepView for ToolResult {
    type V = ToolResultView;

    open spec fn deep_view(&self) -> ToolResultView {
        ToolResultView {
            id: self.id@,
            name: self.name@,
            result: self.result.deep_view(),
            output: self.output.deep_view(),
        }
    }
}

/// Part of what a user or the model says.
pub enum ContentPart {
    Text { text: String },
    Reasoning { text: String },
    File { uri: String, mime: String },
}

/// The contents of a `ContentPart`.
pub enum PartView {
    Text { text: Seq<char> },
    Reasoning { text: Seq<char> },
    File { uri: Seq<char>, mime: Seq<char> },
}

impl DeepView for ContentPart {
    type V = PartView;

    open spec fn deep_view(&self) -> PartView {
        match *self {
            ContentPart::Text { text } => PartView::Text { text: text@ },
            ContentPart::Reasoning { text } => PartView::Reasoning { text: text@ },
            ContentPart::File { uri, mime } => PartView::File { uri: uri@, mime: mime@ },
        }
    }
}

impl Duplicate for ContentPart {
    fn duplicate(&self) -> Self {
        match self {
            ContentPart::Text { text } => ContentPart::Text { text: text.clone() },
            ContentPart::Reasoning { text } => ContentPart::Reasoning { text: text.clone() },
            ContentPart::File { uri, mime } => ContentPart::File {
                uri: uri.clone(),
                mime: mime.clone(),
            },
        }
    }
}

impl Clone for ContentPart {
    fn clone(&self) -> (r: Self)
        ensures
            r.deep_view() == self.deep_view(),
    {
        self.duplicate()
    }
}

/// One message of a conversation.
#[allow(inconsistent_fields)]
pub enum Message {
    System { id: MessageId, content: String },
    User { id: MessageId, content: Vec<ContentPart> },
    Assistant { id: MessageId, content: Vec<ContentPart>, tool_calls: Vec<ToolCall> },
    Tool { id: MessageId, tool_call_id: String, tool_name: String, result: ToolResultValue },
}

/// The contents of a `Message`.
#[allow(inconsistent_fields)]
pub enum MessageView {
    System { id: Seq<char>, content: Seq<char> },
    User { id: Seq<char>, content: Seq<PartView> },
    Assistant { id: Seq<char>, content: Seq<PartView>, tool_calls: Seq<ToolCallView> },
    Tool { id: Seq<char>, tool_call_id: Seq<char>, tool_name: Seq<char>, result: ResultView },
}

impl DeepView for Message {
    type V = MessageView;

    open spec fn deep_view(&self) -> MessageView {
        match *self {
            Message::System { id, content } => MessageView::System { id: id@, content: content@ },
            Message::User { id, content } => MessageView::User {
                id: id@,
                content: content.deep_view(),
            },
            Message::Assistant { id, content, tool_calls } => MessageView::Assistant {
                id: id@,
                content: content.deep_view(),
                tool_calls: tool_calls.deep_view(),
            },
            Message::Tool { id, tool_call_id, tool_name, result } => MessageView::Tool {
                id: id@,
                tool_call_id: tool_call_id@,
                tool_name: tool_name@,
                result: result.deep_view(),
            },
        }
    }
}

impl Duplicate for Message {
    fn duplicate(&self) -> Self {
        match self {
            Message::System { id, content } => Message::System {
                id: id.clone(),
                content: content.clone(),
            },
            Message::User { id, content } => Message::User {
                id: id.clone(),
                content: duplicate_all(content),
            },
            Message::Assistant { id, content, tool_calls } => Message::Assistant {
                id: id.clone(),
                content: duplicate_all(content),
                tool_calls: duplicate_all(tool_calls),
            },
            Message::Tool { id, tool_call_id, tool_name, result } => Message::Tool {
                id: id.clone(),
                tool_call_id: tool_call_id.clone(),
                tool_name: tool_name.clone(),
                result: result.clone(),
            },
        }
    }
}

impl Clone for Message {
    fn clone(&self) -> (r: Self)
        ensures
            r.deep_view() == self.deep_view(),
    {
        self.duplicate()
    }
}

/// The id of a message.
pub open spec fn id_of(m: MessageView) -> Seq<char> {
    match m {
        MessageView::System { id, .. } => id,
        MessageView::User { id, .. } => id,
        MessageView::Assistant { id, .. } => id,
        MessageView::Tool { id, .. } => id,
    }
}

/// The role under which a message is sent and stored.
pub open spec fn role_of(m: MessageView) -> Seq<char> {
    match m {
        MessageView::System { .. } => "system"@,
        MessageView::User { .. } => "user"@,
        MessageView::Assistant { .. } => "assistant"@,
        MessageView::Tool { .. } => "tool"@,
    }
}

impl Message {
    pub fn id(&self) -> (r: &str)
        ensures
            r@ == id_of(self.deep_view()),
    {
        match self {
            Message::System { id, .. } => id.as_str(),
            Message::User { id, .. } => id.as_str(),
            Message::Assistant { id, .. } => id.as_str(),
            Message::Tool { id, .. } => id.as_str(),
        }
    }

    pub fn role_str(&self) -> (r: &'static str)
        ensures
            r@ == role_of(self.deep_view()),
    {
        match self {
            Message::System { .. } => "system",
            Message::User { .. } => "user",
            Message::Assistant { .. } => "assistant",
            Message::Tool { .. } => "tool",
        }
    }
}

/// Why the model stopped.
pub enum FinishReason {
    Stop,
    Length,
    ContentFiltered,
    ToolCalls,
    Error,
    Other(String),
}

/// The contents of a `FinishReason`.
pub enum FinishView {
    Stop,
    Length,
    ContentFiltered,
    ToolCalls,
    Error,
    Other(Seq<char>),
}

impl DeepView for FinishReason {
    type V = FinishView;

    open spec fn deep_view(&self) -> FinishView {
        match *self {
            FinishReason::Stop => FinishView::Stop,
            FinishReason::Length => FinishView::Length,
            FinishReason::ContentFiltered => FinishView::ContentFiltered,
            FinishReason::ToolCalls => FinishView::ToolCalls,
            FinishReason::Error => FinishView::Error,
            FinishReason::Other(s) => FinishView::Other(s@),
        }
    }
}

impl Duplicate for FinishReason {
    fn duplicate(&self) -> Self {
        match self {
            FinishReason::Stop => FinishReason::Stop,
            FinishReason::Length => FinishReason::Length,
            FinishReason::ContentFiltered => FinishReason::ContentFiltered,
            FinishReason::ToolCalls => FinishReason::ToolCalls,
            FinishReason::Error => FinishReason::Error,
            FinishReason::Other(s) => FinishReason::Other(s.clone()),
        }
    }
}

impl Clone for FinishReason {
    fn clone(&self) -> (r: Self)
        ensures
            r.deep_view() == self.deep_view(),
    {
        self.duplicate()
    }
}

/// Tokens used by one or more requests.
#[derive(Debug, Clone, Copy, PartialEq, Eq)]
pub struct Usage {
    pub input_tokens: u64,
    pub output_tokens: u64,
    pub cache_read_input_tokens: Option<u64>,
    pub cache_write_input_tokens: Option<u64>,
}

impl DeepView for Usage {
    type V = Usage;

    open spec fn deep_view(&self) -> Usage {
        *self
    }
}

impl Default for Usage {
    fn default() -> (r: Self)
        ensures
            r == no_usage(),
    {
        Usage {
            input_tokens: 0,
            output_tokens: 0,
            cache_read_input_tokens: None,
            cache_write_input_tokens: None,
        }
    }
}

/// The usage of no request.
pub open spec fn no_usage() -> Usage {
    Usage {
        input_tokens: 0,
        output_tokens: 0,
        cache_read_input_tokens: None,
        cache_write_input_tokens: None,
    }
}

/// `n`, or the greatest machine number where `n` does not fit.
pub open spec fn capped(n: nat) -> u64 {
    if n <= u64::MAX {
        n as u64
    } else {
        u64::MAX
    }
}

/// A missing count is zero.
pub open spec fn counted(n: Option<u64>) -> nat {
    match n {
        Some(n) => n as nat,
        None => 0,
    }
}

/// The sum of two usages. Both cache counts are present in it.
pub open spec fn merged(a: Usage, b: Usage) -> Usage {
    Usage {
        input_tokens: capped((a.input_tokens + b.input_tokens) as nat),
        output_tokens: capped((a.output_tokens + b.output_tokens) as nat),
        cache_read_input_tokens: Some(
            capped(counted(a.cache_read_input_tokens) + counted(b.cache_read_input_tokens)),
        ),
        cache_write_input_tokens: Some(
            capped(counted(a.cache_write_input_tokens) + counted(b.cache_write_input_tokens)),
        ),
    }
}

fn count(n: Option<u64>) -> (r: u64)
    ensures
        r == counted(n),
{
    match n {
        Some(n) => n,
        None => 0,
    }
}

impl Usage {
    /// Adds `other` to the counts.
    pub fn merge(&mut self, other: &Usage)
        ensures
            *final(self) == merged(*old(self), *other),
    {
        self.input_tokens = self.input_tokens.saturating_add(other.input_tokens);
        self.output_tokens = self.output_tokens.saturating_add(other.output_tokens);
        self.cache_read_input_tokens = Some(
            count(self.cache_read_input_tokens).saturating_add(count(other.cache_read_input_tokens)),
        );
        self.cache_write_input_tokens = Some(
            count(self.cache_write_input_tokens).saturating_add(count(other.cache_write_input_tokens)),
        );
    }
}

/// Sums of usage do not depend on the order in which two requests are added.
pub proof fn merge_commutes(a: Usage, b: Usage)
    ensures
        merged(a, b) == merged(b, a),
{
}

/// Sums of usage do not depend on how three requests are grouped.
pub proof fn merge_associates(a: Usage, b: Usage, c: Usage)
    ensures
        merged(merged(a, b), c) == merged(a, merged(b, c)),
{
}

/// What happens while a reply is received.
pub enum LlmEvent {
    StepStart { index: u32 },
    TextStart { id: String },
    TextDelta { id: String, text: String },
    TextEnd { id: String },
    ReasoningStart { id: String },
    ReasoningDelta { id: String, text: String },
    ReasoningEnd { id: String },
    ToolCallStart { id: String, name: String },
    ToolCallDelta { id: String, name: String, text: String },
    ToolCallEnd { id: String, name: String },
    ToolCallReceived { id: String, name: String, input: Json },
    ToolResultReceived { id: String, name: String, result: ToolResultValue, output: Option<ToolOutput> },
    ToolError { id: String, name: String, message: String },
    StepFinish { index: u32, reason: FinishReason, usage: Option<Usage> },
    Finish { reason: FinishReason, usage: Option<Usage> },
    ProviderError { message: String, retryable: bool },
}

/// The contents of an `LlmEvent`.
pub enum EventView {
    StepStart { index: u32 },
    TextStart { id: Seq<char> },
    TextDelta { id: Seq<char>, text: Seq<char> },
    TextEnd { id: Seq<char> },
    ReasoningStart { id: Seq<char> },
    ReasoningDelta { id: Seq<char>, text: Seq<char> },
    ReasoningEnd { id: Seq<char> },
    ToolCallStart { id: Seq<char>, name: Seq<char> },
    ToolCallDelta { id: Seq<char>, name: Seq<char>, text: Seq<char> },
    ToolCallEnd { id: Seq<char>, name: Seq<char> },
    ToolCallReceived { id: Seq<char>, name: Seq<char>, input: Seq<char> },
    ToolResultReceived {
        id: Seq<char>,
        name: Seq<char>,
        result: ResultView,
        output: Option<Seq<ToolContentView>>,
    },
    ToolError { id: Seq<char>, name: Seq<char>, message: Seq<char> },
    StepFinish { index: u32, reason: FinishView, usage: Option<Usage> },
    Finish { reason: FinishView, usage: Option<Usage> },
    ProviderError { message: Seq<char>, retryable: bool },
}

impl DeepView for LlmEvent {
    type V = EventView;

    open spec fn deep_view(&self) -> EventView {
        match *self {
            LlmEvent::StepStart { index } => EventView::StepStart { index },
            LlmEvent::TextStart { id } => EventView::TextStart { id: id@ },
            LlmEvent::TextDelta { id, text } => EventView::TextDelta { id: id@, text: text@ },
            LlmEvent::TextEnd { id } => EventView::TextEnd { id: id@ },
            LlmEvent::ReasoningStart { id } => EventView::ReasoningStart { id: id@ },
            LlmEvent::ReasoningDelta { id, text } => EventView::ReasoningDelta {
                id: id@,
                text: text@,
            },
            LlmEvent::ReasoningEnd { id } => EventView::ReasoningEnd { id: id@ },
            LlmEvent::ToolCallStart { id, name } => EventView::ToolCallStart {
                id: id@,
                name: name@,
            },
            LlmEvent::ToolCallDelta { id, name, text } => EventView::ToolCallDelta {
                id: id@,
                name: name@,
                text: text@,
            },
            LlmEvent::ToolCallEnd { id, name } => EventView::ToolCallEnd { id: id@, name: name@ },
            LlmEvent::ToolCallReceived { id, name, input } => EventView::ToolCallReceived {
                id: id@,
                name: name@,
                input: input@,
            },
            LlmEvent::ToolResultReceived { id, name, result, output } => EventView::ToolResultReceived {
                id: id@,
                name: name@,
                result: result.deep_view(),
                output: output.deep_view(),
            },
            LlmEvent::ToolError { id, name, message } => EventView::ToolError {
                id: id@,
                name: name@,
                message: message@,
            },
            LlmEvent::StepFinish { index, reason, usage } => EventView::StepFinish {
                index,
                reason: reason.deep_view(),
                usage,
            },
            LlmEvent::Finish { reason, usage } => EventView::Finish {
                reason: reason.deep_view(),
                usage,
            },
            LlmEvent::ProviderError { message, retryable } => EventView::ProviderError {
                message: message@,
                retryable,
            },
        }
    }
}

// ── Token estimate ──

/// The bytes of a user's parts: their texts and the addresses of their files.
pub open spec fn user_bytes(parts: Seq<PartView>) -> nat
    decreases parts.len(),
{
    if parts.len() == 0 {
        0
    } else {
        user_bytes(parts.drop_last()) + match parts.last() {
            PartView::Text { text } => text::byte_len(text),
            PartView::Reasoning { text } => text::byte_len(text),
            PartView::File { uri, .. } => text::byte_len(uri),
        }
    }
}

/// The bytes of the model's text parts.
pub open spec fn reply_bytes(parts: Seq<PartView>) -> nat
    decreases parts.len(),
{
    if parts.len() == 0 {
        0
    } else {
        reply_bytes(parts.drop_last()) + match parts.last() {
            PartView::Text { text } => text::byte_len(text),
            _ => 0,
        }
    }
}

/// The bytes of the inputs of tool calls.
pub open spec fn input_bytes(calls: Seq<ToolCallView>) -> nat
    decreases calls.len(),
{
    if calls.len() == 0 {
        0
    } else {
        input_bytes(calls.drop_last()) + text::byte_len(calls.last().input)
    }
}

/// The bytes of a message that count for its estimate.
pub open spec fn message_bytes(m: MessageView) -> nat {
    match m {
        MessageView::System { content, .. } => text::byte_len(content),
        MessageView::User { content, .. } => user_bytes(content),
        MessageView::Assistant { content, tool_calls, .. } => reply_bytes(content) + input_bytes(
            tool_calls,
        ),
        MessageView::Tool { result, .. } => match result {
            ResultView::Text { value } => text::byte_len(value),
            ResultView::Json { value } => text::byte_len(value),
            ResultView::Error { value } => text::byte_len(value),
        },
    }
}

/// The estimate of a message: four bytes count as one token.
pub open spec fn estimate(m: MessageView) -> u64 {
    capped(message_bytes(m)) / 4
}

/// The estimate of a conversation.
pub open spec fn estimate_all(ms: Seq<MessageView>) -> u64
    decreases ms.len(),
{
    if ms.len() == 0 {
        0
    } else {
        capped((estimate_all(ms.drop_last()) + estimate(ms.last())) as nat)
    }
}

fn sum_user(parts: &Vec<ContentPart>) -> (n: u64)
    ensures
        n == capped(user_bytes(parts.deep_view())),
{
    let mut n: u64 = 0;
    let mut i: usize = 0;
    while i < parts.len()
        invariant
            i <= parts@.len(),
            n == capped(user_bytes(parts.deep_view().take(i as int))),
        decreases parts@.len() - i,
    {
        let ghost next = parts.deep_view().take(i + 1);
        assert(next.drop_last() =~= parts.deep_view().take(i as int));
        let len: usize = match &parts[i] {
            ContentPart::Text { text } => text::len_bytes(text.as_str()),
            ContentPart::Reasoning { text } => text::len_bytes(text.as_str()),
            ContentPart::File { uri, .. } => text::len_bytes(uri.as_str()),
        };
        n = n.saturating_add(len as u64);
        i = i + 1;
    }
    assert(parts.deep_view().take(i as int) =~= parts.deep_view());
    n
}

fn sum_reply(parts: &Vec<ContentPart>) -> (n: u64)
    ensures
        n == capped(reply_bytes(parts.deep_view())),
{
    let mut n: u64 = 0;
    let mut i: usize = 0;
    while i < parts.len()
        invariant
            i <= parts@.len(),
            n == capped(reply_bytes(parts.deep_view().take(i as int))),
        decreases parts@.len() - i,
    {
        let ghost next = parts.deep_view().take(i + 1);
        assert(next.drop_last() =~= parts.deep_view().take(i as int));
        let len: usize = match &parts[i] {
            ContentPart::Text { text } => text::len_bytes(text.as_str()),
            _ => 0,
        };
        n = n.saturating_add(len as u64);
        i = i + 1;
    }
    assert(parts.deep_view().take(i as int) =~= parts.deep_view());
    n
}

fn sum_inputs(calls: &Vec<ToolCall>) -> (n: u64)
    ensures
        n == capped(input_bytes(calls.deep_view())),
{
    let mut n: u64 = 0;
    let mut i: usize = 0;
    while i < calls.len()
        invariant
            i <= calls@.len(),
            n == capped(input_bytes(calls.deep_view().take(i as int))),
        decreases calls@.len() - i,
    {
        let ghost next = calls.deep_view().take(i + 1);
        assert(next.drop_last() =~= calls.deep_view().take(i as int));
        n = n.saturating_add(text::len_bytes(calls[i].input.text.as_str()) as u64);
        i = i + 1;
    }
    assert(calls.deep_view().take(i as int) =~= calls.deep_view());
    n
}

/// The estimated tokens of a message.
pub fn estimate_tokens(msg: &Message) -> (r: u64)
    ensures
        r == estimate(msg.deep_view()),
{
    let bytes: u64 = match msg {
        Message::System { content, .. } => text::len_bytes(content.as_str()) as u64,
        Message::User { content, .. } => sum_user(content),
        Message::Assistant { content, tool_calls, .. } => sum_reply(content).saturating_add(
            sum_inputs(tool_calls),
        ),
        Message::Tool { result, .. } => match result {
            ToolResultValue::Text { value } => text::len_bytes(value.as_str()) as u64,
            ToolResultValue::Json { value } => text::len_bytes(value.text.as_str()) as u64,
            ToolResultValue::Error { value } => text::len_bytes(value.as_str()) as u64,
        },
    };
    bytes / 4
}

// ── History ──

/// The messages of a conversation, with their estimated tokens.
pub struct MessageHistory {
    pub messages: Vec<Message>,
    pub max_tokens: u64,
    pub current_tokens: u64,
}

/// The contents of a `MessageHistory`.
pub struct HistoryView {
    pub messages: Seq<MessageView>,
    pub max_tokens: u64,
    pub current_tokens: u64,
}

impl DeepView for MessageHistory {
    type V = HistoryView;

    open spec fn deep_view(&self) -> HistoryView {
        HistoryView {
            messages: self.messages.deep_view(),
            max_tokens: self.max_tokens,
            current_tokens: self.current_tokens,
        }
    }
}

impl Duplicate for MessageHistory {
    fn duplicate(&self) -> Self {
        MessageHistory {
            messages: duplicate_all(&self.messages),
            max_tokens: self.max_tokens,
            current_tokens: self.current_tokens,
        }
    }
}

/// The history after `m` was added to it.
pub open spec fn with_message(h: HistoryView, m: MessageView) -> HistoryView {
    HistoryView {
        messages: h.messages.push(m),
        max_tokens: h.max_tokens,
        current_tokens: capped((h.current_tokens + estimate(m)) as nat),
    }
}

/// Whether the token count is the estimate of the messages.
pub open spec fn counts_right(h: HistoryView) -> bool {
    h.current_tokens == estimate_all(h.messages)
}

/// Adding a message keeps the token count right.
pub proof fn push_counts_right(h: HistoryView, m: MessageView)
    requires
        counts_right(h),
    ensures
        counts_right(with_message(h, m)),
{
    assert(h.messages.push(m).drop_last() =~= h.messages);
}

/// An object as its fields.
pub type Fields = Vec<(String, Json)>;

/// What a user's part is sent as. Reasoning is sent as an empty object.
pub open spec fn part_json(p: PartView) -> Seq<char> {
    match p {
        PartView::Text { text } => json::json_object(
            seq![("type"@, json::json_quote("text"@)), ("text"@, json::json_quote(text))],
        ),
        PartView::File { uri, mime } => json::json_object(
            seq![
                ("type"@, json::json_quote("file"@)),
                ("uri"@, json::json_quote(uri)),
                ("mime"@, json::json_quote(mime)),
            ],
        ),
        PartView::Reasoning { .. } => json::json_object(Seq::empty()),
    }
}

/// What a tool call is sent as. Its arguments are the text of the input.
pub open spec fn call_json(c: ToolCallView) -> Seq<char> {
    json::json_object(
        seq![
            ("id"@, json::json_quote(c.id)),
            ("type"@, json::json_quote("function"@)),
            (
                "function"@,
                json::json_object(
                    seq![
                        ("name"@, json::json_quote(c.name)),
                        ("arguments"@, json::json_quote(c.input)),
                    ],
                ),
            ),
        ],
    )
}

/// The texts of the text parts, one after the other.
pub open spec fn reply_text(parts: Seq<PartView>) -> Seq<char>
    decreases parts.len(),
{
    if parts.len() == 0 {
        Seq::empty()
    } else {
        reply_text(parts.drop_last()) + match parts.last() {
            PartView::Text { text } => text,
            _ => Seq::empty(),
        }
    }
}

/// What the model is told of a tool's result.
pub open spec fn result_text(r: ResultView) -> Seq<char> {
    match r {
        ResultView::Text { value } => value,
        ResultView::Json { value } => value,
        ResultView::Error { value } => "Error: "@ + value,
    }
}

/// The fields under which a message is sent.
pub open spec fn llm_message(m: MessageView) -> Seq<(Seq<char>, Seq<char>)> {
    match m {
        MessageView::System { content, .. } => seq![
            ("role"@, json::json_quote("system"@)),
            ("content"@, json::json_quote(content)),
        ],
        MessageView::User { content, .. } => seq![
            ("role"@, json::json_quote("user"@)),
            ("content"@, json::json_array(content.map_values(|p: PartView| part_json(p)))),
        ],
        MessageView::Assistant { content, tool_calls, .. } => {
            let head = seq![
                ("role"@, json::json_quote("assistant"@)),
                ("content"@, json::json_quote(reply_text(content))),
            ];
            if tool_calls.len() == 0 {
                head
            } else {
                head.push(
                    (
                        "tool_calls"@,
                        json::json_array(tool_calls.map_values(|c: ToolCallView| call_json(c))),
                    ),
                )
            }
        },
        MessageView::Tool { tool_call_id, result, .. } => seq![
            ("role"@, json::json_quote("tool"@)),
            ("tool_call_id"@, json::json_quote(tool_call_id)),
            ("content"@, json::json_quote(result_text(result))),
        ],
    }
}

pub fn part_to_json(p: &ContentPart) -> (r: Json)
    ensures
        r@ == part_json(p.deep_view()),
{
    match p {
        ContentPart::Text { text } => Json::object2(
            "type",
            Json::string("text"),
            "text",
            Json::string(text.as_str()),
        ),
        ContentPart::File { uri, mime } => Json::object3(
            "type",
            Json::string("file"),
            "uri",
            Json::string(uri.as_str()),
            "mime",
            Json::string(mime.as_str()),
        ),
        ContentPart::Reasoning { .. } => {
            let none: Fields = Vec::new();
            assert(none.deep_view() =~= Seq::<(Seq<char>, Seq<char>)>::empty());
            Json::object(&none)
        },
    }
}

pub fn call_to_json(c: &ToolCall) -> (r: Json)
    ensures
        r@ == call_json(c.deep_view()),
{
    let function = Json::object2(
        "name",
        Json::string(c.name.as_str()),
        "arguments",
        Json::string(c.input.text.as_str()),
    );
    Json::object3(
        "id",
        Json::string(c.id.as_str()),
        "type",
        Json::string("function"),
        "function",
        function,
    )
}

fn parts_to_json(parts: &Vec<ContentPart>) -> (r: Vec<Json>)
    ensures
        r.deep_view() == parts.deep_view().map_values(|p: PartView| part_json(p)),
{
    let mut r: Vec<Json> = Vec::new();
    let mut i: usize = 0;
    while i < parts.len()
        invariant
            i <= parts@.len(),
            r@.len() == i,
            forall|j: int| 0 <= j < i ==> (#[trigger] r@[j])@ == part_json(parts@[j].deep_view()),
        decreases parts@.len() - i,
    {
        r.push(part_to_json(&parts[i]));
        i = i + 1;
    }
    assert(r.deep_view() =~= parts.deep_view().map_values(|p: PartView| part_json(p)));
    r
}

fn calls_to_json(calls: &Vec<ToolCall>) -> (r: Vec<Json>)
    ensures
        r.deep_view() == calls.deep_view().map_values(|c: ToolCallView| call_json(c)),
{
    let mut r: Vec<Json> = Vec::new();
    let mut i: usize = 0;
    while i < calls.len()
        invariant
            i <= calls@.len(),
            r@.len() == i,
            forall|j: int| 0 <= j < i ==> (#[trigger] r@[j])@ == call_json(calls@[j].deep_view()),
        decreases calls@.len() - i,
    {
        r.push(call_to_json(&calls[i]));
        i = i + 1;
    }
    assert(r.deep_view() =~= calls.deep_view().map_values(|c: ToolCallView| call_json(c)));
    r
}

/// The texts of the text parts, one after the other.
pub fn text_of_parts(parts: &Vec<ContentPart>) -> (r: String)
    ensures
        r@ == reply_text(parts.deep_view()),
{
    let mut r = String::new();
    let mut i: usize = 0;
    while i < parts.len()
        invariant
            i <= parts@.len(),
            r@ == reply_text(parts.deep_view().take(i as int)),
        decreases parts@.len() - i,
    {
        let ghost next = parts.deep_view().take(i + 1);
        assert(next.drop_last() =~= parts.deep_view().take(i as int));
        match &parts[i] {
            ContentPart::Text { text } => r.append(text.as_str()),
            _ => {
                assert(r@ + Seq::<char>::empty() =~= r@);
            },
        }
        i = i + 1;
    }
    assert(parts.deep_view().take(i as int) =~= parts.deep_view());
    r
}

/// What the model is told of a tool's result.
pub fn text_of_result(result: &ToolResultValue) -> (r: String)
    ensures
        r@ == result_text(result.deep_view()),
{
    match result {
        ToolResultValue::Text { value } => value.clone(),
        ToolResultValue::Json { value } => value.text.clone(),
        ToolResultValue::Error { value } => text::cat2("Error: ", value.as_str()),
    }
}

fn field(key: &str, value: Json) -> (r: (String, Json))
    ensures
        r.deep_view() == (key@, value@),
{
    (key.to_owned(), value)
}

/// The fields under which a message is sent.
pub fn message_fields(msg: &Message) -> (r: Fields)
    ensures
        r.deep_view() == llm_message(msg.deep_view()),
{
    let mut r: Fields = Vec::new();
    r.push(field("role", Json::string(msg.role_str())));
    match msg {
        Message::System { content, .. } => {
            r.push(field("content", Json::string(content.as_str())));
        },
        Message::User { content, .. } => {
            r.push(field("content", Json::array(&parts_to_json(content))));
        },
        Message::Assistant { content, tool_calls, .. } => {
            r.push(field("content", Json::string(text_of_parts(content).as_str())));
            if tool_calls.len() > 0 {
                r.push(field("tool_calls", Json::array(&calls_to_json(tool_calls))));
            }
        },
        Message::Tool { tool_call_id, result, .. } => {
            r.push(field("tool_call_id", Json::string(tool_call_id.as_str())));
            r.push(field("content", Json::string(text_of_result(result).as_str())));
        },
    }
    assert(r.deep_view() =~= llm_message(msg.deep_view()));
    r
}

impl MessageHistory {
    pub fn new(max_tokens: u64) -> (r: Self)
        ensures
            r.deep_view() == (HistoryView {
                messages: Seq::empty(),
                max_tokens,
                current_tokens: 0,
            }),
            counts_right(r.deep_view()),
    {
        let r = MessageHistory { messages: Vec::new(), max_tokens, current_tokens: 0 };
        assert(r.messages.deep_view() =~= Seq::<MessageView>::empty());
        r
    }

    /// Adds a message at the end and its estimate to the count.
    pub fn push(&mut self, message: Message)
        ensures
            final(self).deep_view() == with_message(old(self).deep_view(), message.deep_view()),
            counts_right(old(self).deep_view()) ==> counts_right(final(self).deep_view()),
    {
        proof {
            if counts_right(self.deep_view()) {
                push_counts_right(self.deep_view(), message.deep_view());
            }
        }
        let ghost before = self.messages.deep_view();
        self.current_tokens = self.current_tokens.saturating_add(estimate_tokens(&message));
        self.messages.push(message);
        assert(self.messages.deep_view() =~= before.push(message.deep_view()));
    }

    /// Whether the conversation is estimated above its limit.
    pub fn is_overflow(&self) -> (r: bool)
        ensures
            r == (self.current_tokens > self.max_tokens),
    {
        self.current_tokens > self.max_tokens
    }

    /// Each message as the fields under which it is sent, in order.
    pub fn as_llm_messages(&self) -> (r: Vec<Fields>)
        ensures
            r.deep_view() == self.deep_view().messages.map_values(|m: MessageView| llm_message(m)),
    {
        let mut r: Vec<Fields> = Vec::new();
        let mut i: usize = 0;
        while i < self.messages.len()
            invariant
                i <= self.messages@.len(),
                r@.len() == i,
                forall|j: int|
                    0 <= j < i ==> (#[trigger] r@[j]).deep_view() == llm_message(
                        self.messages@[j].deep_view(),
                    ),
            decreases self.messages@.len() - i,
        {
            r.push(message_fields(&self.messages[i]));
            i = i + 1;
        }
        assert(r.deep_view() =~= self.deep_view().messages.map_values(
            |m: MessageView| llm_message(m),
        ));
        r
    }
}

// ── Laws ──

/// The text of a message is that of its text parts in order, and of no other
/// part.
pub proof fn texts_are_put_together(a: Seq<PartView>, b: Seq<PartView>, p: PartView)
    ensures
        reply_text(a + b) == reply_text(a) + reply_text(b),
        reply_text(seq![p]) == (match p {
            PartView::Text { text } => text,
            _ => Seq::empty(),
        }),
        reply_text(Seq::empty()) == Seq::<char>::empty(),
    decreases b.len(),
{
    let none = Seq::<PartView>::empty();
    assert(seq![p].drop_last() =~= none);
    assert(reply_text(none) =~= Seq::<char>::empty());
    assert(reply_text(seq![p]) =~= (match p {
        PartView::Text { text } => text,
        _ => Seq::empty(),
    }));
    if b.len() == 0 {
        assert(a + b =~= a);
        assert(reply_text(a) + reply_text(b) =~= reply_text(a));
    } else {
        texts_are_put_together(a, b.drop_last(), p);
        assert((a + b).drop_last() =~= a + b.drop_last());
        assert(reply_text(a + b) =~= reply_text(a) + reply_text(b));
    }
}

proof fn lemma_sent(m: MessageView)
    ensures
        llm::field_of(llm_message(m), "role"@) == Some(llm_message(m)[0].1),
        m is System || m is User || m is Assistant ==> llm::field_of(llm_message(m), "content"@)
            == Some(llm_message(m)[1].1),
        m is Tool ==> llm::field_of(llm_message(m), "tool_call_id"@) == Some(llm_message(m)[1].1)
            && llm::field_of(llm_message(m), "content"@) == Some(llm_message(m)[2].1),
        llm_message(m).len() == 3 && m is Assistant ==> llm::field_of(
            llm_message(m),
            "tool_calls"@,
        ) == Some(llm_message(m)[2].1),
        llm_message(m).len() == 2 ==> llm::field_of(llm_message(m), "tool_calls"@) is None,
{
    reveal_strlit("role");
    reveal_strlit("content");
    reveal_strlit("tool_calls");
    reveal_strlit("tool_call_id");
    assert("role"@.len() == 4 && "content"@.len() == 7);
    assert("tool_calls"@.len() == 10 && "tool_call_id"@.len() == 12);
    reveal_with_fuel(llm::field_of, 4);
}

/// What the model is sent of a message: the role, and all of its contents. The
/// text of a reply is whole, a result stands under the id of its call, and an
/// error says that it is one.
pub proof fn messages_are_sent_whole(m: MessageView)
    ensures
        ({
            let fields = llm_message(m);
            match m {
                MessageView::System { content, .. } => {
                    &&& llm::field_of(fields, "role"@) == Some(json::json_quote("system"@))
                    &&& llm::field_of(fields, "content"@) == Some(json::json_quote(content))
                },
                MessageView::User { content, .. } => {
                    &&& llm::field_of(fields, "role"@) == Some(json::json_quote("user"@))
                    &&& exists|parts: Seq<Seq<char>>|
                        #![trigger json::json_array(parts)]
                        parts.len() == content.len() && (forall|i: int|
                            0 <= i < content.len() ==> #[trigger] parts[i] == part_json(content[i]))
                            && llm::field_of(fields, "content"@) == Some(json::json_array(parts))
                },
                MessageView::Assistant { content, tool_calls, .. } => {
                    &&& llm::field_of(fields, "role"@) == Some(json::json_quote("assistant"@))
                    &&& llm::field_of(fields, "content"@) == Some(
                        json::json_quote(reply_text(content)),
                    )
                    &&& tool_calls.len() == 0 ==> llm::field_of(fields, "tool_calls"@) is None
                    &&& tool_calls.len() > 0 ==> exists|calls: Seq<Seq<char>>|
                        #![trigger json::json_array(calls)]
                        calls.len() == tool_calls.len() && (forall|i: int|
                            0 <= i < calls.len() ==> #[trigger] calls[i] == call_json(tool_calls[i]))
                            && llm::field_of(fields, "tool_calls"@) == Some(json::json_array(calls))
                },
                MessageView::Tool { tool_call_id, result, .. } => {
                    &&& llm::field_of(fields, "role"@) == Some(json::json_quote("tool"@))
                    &&& llm::field_of(fields, "tool_call_id"@) == Some(json::json_quote(tool_call_id))
                    &&& llm::field_of(fields, "content"@) == Some(
                        json::json_quote(
                            match result {
                                ResultView::Text { value } => value,
                                ResultView::Json { value } => value,
                                ResultView::Error { value } => "Error: "@ + value,
                            },
                        ),
                    )
                },
            }
        }),
{
    lemma_sent(m);
    match m {
        MessageView::User { content, .. } => {
            let parts = content.map_values(|p: PartView| part_json(p));
            assert(llm::field_of(llm_message(m), "content"@) == Some(json::json_array(parts)));
        },
        MessageView::Assistant { content, tool_calls, .. } => {
            if tool_calls.len() > 0 {
                let calls = tool_calls.map_values(|c: ToolCallView| call_json(c));
                assert(llm::field_of(llm_message(m), "tool_calls"@) == Some(
                    json::json_array(calls),
                ));
            }
        },
        _ => {},
    }
}

/// A call is sent as a function call under its id, with its name and the text
/// of its input as arguments.
pub proof fn calls_are_sent_whole(c: ToolCallView)
    ensures
        exists|outer: Seq<(Seq<char>, Seq<char>)>, inner: Seq<(Seq<char>, Seq<char>)>|
            #![trigger json::json_object(outer), json::json_object(inner)]
            call_json(c) == json::json_object(outer) && llm::field_of(outer, "id"@) == Some(
                json::json_quote(c.id),
            ) && llm::field_of(outer, "type"@) == Some(json::json_quote("function"@))
                && llm::field_of(outer, "function"@) == Some(json::json_object(inner))
                && llm::field_of(inner, "name"@) == Some(json::json_quote(c.name))
                && llm::field_of(inner, "arguments"@) == Some(json::json_quote(c.input)),
{
    reveal_strlit("id");
    reveal_strlit("type");
    reveal_strlit("function");
    reveal_strlit("name");
    reveal_strlit("arguments");
    assert("id"@.len() == 2 && "type"@.len() == 4 && "function"@.len() == 8);
    assert("name"@.len() == 4 && "arguments"@.len() == 9);
    reveal_with_fuel(llm::field_of, 4);
    let inner = seq![
        ("name"@, json::json_quote(c.name)),
        ("arguments"@, json::json_quote(c.input)),
    ];
    let outer = seq![
        ("id"@, json::json_quote(c.id)),
        ("type"@, json::json_quote("function"@)),
        ("function"@, json::json_object(inner)),
    ];
    assert(call_json(c) == json::json_object(outer));
    assert(llm::field_of(inner, "name"@) == Some(json::json_quote(c.name)));
    assert(llm::field_of(inner, "arguments"@) == Some(json::json_quote(c.input)));
    assert(llm::field_of(outer, "id"@) == Some(json::json_quote(c.id)));
}

/// A user's text is sent as it is, and a file by its address and kind.
pub proof fn parts_are_sent_whole(p: PartView)
    ensures
        !(p is Reasoning) ==> exists|fields: Seq<(Seq<char>, Seq<char>)>|
            #![trigger json::json_object(fields)]
            part_json(p) == json::json_object(fields) && match p {
                PartView::Text { text } => llm::field_of(fields, "type"@) == Some(
                    json::json_quote("text"@),
                ) && llm::field_of(fields, "text"@) == Some(json::json_quote(text)),
                PartView::File { uri, mime } => llm::field_of(fields, "type"@) == Some(
                    json::json_quote("file"@),
                ) && llm::field_of(fields, "uri"@) == Some(json::json_quote(uri)) && llm::field_of(
                    fields,
                    "mime"@,
                ) == Some(json::json_quote(mime)),
                PartView::Reasoning { .. } => true,
            },
{
    reveal_strlit("type");
    reveal_strlit("text");
    reveal_strlit("uri");
    reveal_strlit("mime");
    assert("type"@[1] == 'y' && "text"@[1] == 'e' && "mime"@[0] == 'm' && "type"@[0] == 't');
    assert("uri"@.len() == 3 && "mime"@.len() == 4 && "type"@.len() == 4);
    reveal_with_fuel(llm::field_of, 4);
    match p {
        PartView::Text { text } => {
            let fields = seq![
                ("type"@, json::json_quote("text"@)),
                ("text"@, json::json_quote(text)),
            ];
            assert(part_json(p) == json::json_object(fields));
            assert(llm::field_of(fields, "text"@) == Some(json::json_quote(text)));
        },
        PartView::File { uri, mime } => {
            let fields = seq![
                ("type"@, json::json_quote("file"@)),
                ("uri"@, json::json_quote(uri)),
                ("mime"@, json::json_quote(mime)),
            ];
            assert(part_json(p) == json::json_object(fields));
            assert(llm::field_of(fields, "uri"@) == Some(json::json_quote(uri)));
            assert(llm::field_of(fields, "type"@) == Some(json::json_quote("file"@)));
        },
        _ => {},
    }
}

/// The bytes of parts and of inputs add up, part by part.
pub proof fn bytes_add_up(
    a: Seq<PartView>,
    b: Seq<PartView>,
    p: PartView,
    x: Seq<ToolCallView>,
    y: Seq<ToolCallView>,
    c: ToolCallView,
)
    ensures
        user_bytes(a + b) == user_bytes(a) + user_bytes(b),
        reply_bytes(a + b) == reply_bytes(a) + reply_bytes(b),
        input_bytes(x + y) == input_bytes(x) + input_bytes(y),
        user_bytes(seq![p]) == (match p {
            PartView::Text { text } => text::byte_len(text),
            PartView::Reasoning { text } => text::byte_len(text),
            PartView::File { uri, .. } => text::byte_len(uri),
        }),
        reply_bytes(a) == text::byte_len(reply_text(a)),
        input_bytes(seq![c]) == text::byte_len(c.input),
    decreases a.len() + b.len() + y.len(),
{
    let none = Seq::<PartView>::empty();
    let no_call = Seq::<ToolCallView>::empty();
    assert(seq![p].drop_last() =~= none);
    assert(user_bytes(none) == 0);
    assert(seq![c].drop_last() =~= no_call);
    assert(input_bytes(no_call) == 0);
    if y.len() == 0 {
        assert(x + y =~= x);
    } else {
        bytes_add_up(a, b, p, x, y.drop_last(), c);
        assert((x + y).drop_last() =~= x + y.drop_last());
    }
    if b.len() == 0 {
        assert(a + b =~= a);
    } else {
        bytes_add_up(a, b.drop_last(), p, x, y, c);
        assert((a + b).drop_last() =~= a + b.drop_last());
    }
    if a.len() > 0 {
        bytes_add_up(a.drop_last(), none, p, x, no_call, c);
        match a.last() {
            PartView::Text { text } => {
                text::bytes_of_both(reply_text(a.drop_last()), text);
            },
            _ => {
                assert(reply_text(a) =~= reply_text(a.drop_last()));
            },
        }
    } else {
        text::no_bytes();
    }
}

/// A message is estimated at a token for four bytes of what is sent of it, as
/// far as that is text.
pub proof fn estimates_follow_the_text(m: MessageView)
    requires
        message_bytes(m) <= u64::MAX,
    ensures
        estimate(m) == message_bytes(m) / 4,
        message_bytes(m) == (match m {
            MessageView::System { content, .. } => text::byte_len(content),
            MessageView::User { content, .. } => user_bytes(content),
            MessageView::Assistant { content, tool_calls, .. } => text::byte_len(
                reply_text(content),
            ) + input_bytes(tool_calls),
            MessageView::Tool { result, .. } => text::byte_len(
                match result {
                    ResultView::Text { value } => value,
                    ResultView::Json { value } => value,
                    ResultView::Error { value } => value,
                },
            ),
        }),
{
    if let MessageView::Assistant { content, tool_calls, .. } = m {
        let call = ToolCallView { id: Seq::empty(), name: Seq::empty(), input: Seq::empty() };
        let part = PartView::Text { text: Seq::empty() };
        bytes_add_up(content, Seq::empty(), part, tool_calls, Seq::empty(), call);
    }
}

/// Usage is added count by count.
pub proof fn usage_adds_up(a: Usage, b: Usage)
    ensures
        a.input_tokens + b.input_tokens <= u64::MAX ==> merged(a, b).input_tokens == a.input_tokens
            + b.input_tokens,
        a.output_tokens + b.output_tokens <= u64::MAX ==> merged(a, b).output_tokens
            == a.output_tokens + b.output_tokens,
        merged(a, no_usage()).input_tokens == a.input_tokens,
        merged(a, no_usage()).output_tokens == a.output_tokens,
        merged(a, b).cache_read_input_tokens matches Some(n) && (counted(a.cache_read_input_tokens)
            + counted(b.cache_read_input_tokens) <= u64::MAX ==> n == counted(
            a.cache_read_input_tokens,
        ) + counted(b.cache_read_input_tokens)),
        merged(a, b).cache_write_input_tokens matches Some(n) && (counted(
            a.cache_write_input_tokens,
        ) + counted(b.cache_write_input_tokens) <= u64::MAX ==> n == counted(
            a.cache_write_input_tokens,
        ) + counted(b.cache_write_input_tokens)),
        merged(a, b).input_tokens >= a.input_tokens,
        merged(a, b).output_tokens >= a.output_tokens,
{
}

/// A call is read from an object that names its id and its name; its input is
/// taken as it is, and is `null` where there is none.
pub proof fn calls_are_read(v: Seq<char>, id: Seq<char>, name: Seq<char>)
    ensures
        json::json_str_member(v, "id"@) == Some(id) && json::json_str_member(v, "name"@) == Some(
            name,
        ) ==> (call_of_json(v) matches Some(c) && c.id == id && c.name == name && (json::json_member(
            v,
            "input"@,
        ) matches Some(input) ==> c.input == input) && (json::json_member(v, "input"@) is None
            ==> c.input == "null"@)),
        json::json_member(v, "id"@) matches Some(m) ==> (json::json_str(m) is None ==> call_of_json(
            v,
        ) is None),
        json::json_member(v, "name"@) matches Some(m) ==> (json::json_str(m) is None
            ==> call_of_json(v) is None),
{
}

} // verus!
