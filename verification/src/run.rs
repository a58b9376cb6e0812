//! The run of an agent: ask the model, carry out its tool calls, tell it the
//! results, until it is done.
//!
//! The functions here decide; whoever drives the run sends the requests, hands
//! in the events of the replies, and carries out the tools.
use vstd::prelude::*;
use crate::agent;
use crate::agent::{AgentConfig, AgentOutput, ProgressEvent};
use crate::context;
use crate::context::ContextManager;
use crate::ids;
use crate::json;
use crate::json::Json;
use crate::llm::{LlmClient, LlmConfig};
use crate::number;
use crate::sse;
use crate::text;
use crate::tool;
use crate::tool::{Tool, ToolContext, ToolRegistry, ToolResult};
use crate::types;
use crate::types::{
    ContentPart, Duplicate, FinishReason, LlmEvent, Message, ToolCall, ToolOutput, ToolResultValue,
    Usage,
};

verus! {

/// The rounds in a row without text after which a run is given up.
pub const MAX_STERILE_ROUNDS: u32 = 6;

/// The rounds in a row in which every tool failed after which a run is given
/// up.
pub const MAX_ERROR_ROUNDS: u32 = 3;

/// An agent: its settings, its tools, and its conversation.
pub struct Agent<H> {
    pub config: AgentConfig,
    pub llm: LlmClient,
    pub registry: ToolRegistry<H>,
    pub context: ContextManager,
    pub session_id: Option<String>,
    pub total_usage: Usage,
}

/// The results of tool calls: the call's id, the tool's name, and the result.
pub type ToolResults = Vec<(String, String, ToolResultValue)>;

/// How far a run has come.
pub struct Run {
    pub iteration: u32,
    pub sterile_rounds: u32,
    pub tool_error_rounds: u32,
    pub tool_results: ToolResults,
    pub usage: Usage,
}

/// The contents of a `Run`.
pub struct RunView {
    pub iteration: u32,
    pub sterile_rounds: u32,
    pub tool_error_rounds: u32,
    pub tool_results: Seq<(Seq<char>, Seq<char>, types::ResultView)>,
    pub usage: Usage,
}

impl DeepView for Run {
    type V = RunView;

    open spec fn deep_view(&self) -> RunView {
        RunView {
            iteration: self.iteration,
            sterile_rounds: self.sterile_rounds,
            tool_error_rounds: self.tool_error_rounds,
            tool_results: self.tool_results.deep_view(),
            usage: self.usage,
        }
    }
}

impl Run {
    pub fn new() -> (r: Self)
        ensures
            r.deep_view() == start(),
    {
        let r = Run {
            iteration: 0,
            sterile_rounds: 0,
            tool_error_rounds: 0,
            tool_results: Vec::new(),
            usage: Usage::default(),
        };
        assert(r.tool_results.deep_view() =~= start().tool_results);
        r
    }
}

/// A run that has not begun.
pub open spec fn start() -> RunView {
    RunView {
        iteration: 0,
        sterile_rounds: 0,
        tool_error_rounds: 0,
        tool_results: Seq::empty(),
        usage: types::no_usage(),
    }
}

/// What holds of every run that goes on: the limit on rounds is kept, and
/// neither rounds without text nor rounds in which every tool failed have come
/// too often in a row.
pub open spec fn sound(r: RunView, max_iterations: u32) -> bool {
    &&& r.iteration <= max_iterations
    &&& r.tool_error_rounds < MAX_ERROR_ROUNDS
    &&& r.sterile_rounds < MAX_STERILE_ROUNDS
}

/// A request to the model.
pub struct Prompt {
    pub system: String,
    pub messages: Vec<Message>,
    pub tools: Vec<Json>,
}

/// The contents of a `Prompt`.
pub struct PromptView {
    pub system: Seq<char>,
    pub messages: Seq<types::MessageView>,
    pub tools: Seq<Seq<char>>,
}

impl DeepView for Prompt {
    type V = PromptView;

    open spec fn deep_view(&self) -> PromptView {
        PromptView {
            system: self.system@,
            messages: self.messages.deep_view(),
            tools: self.tools.deep_view(),
        }
    }
}

/// What a run does next.
pub enum Step {
    /// Ask for a summary and go on with it in place of the conversation.
    Compact { prompt: Prompt },
    /// Ask for a reply.
    Ask { iteration: u32, prompt: Prompt },
    /// Ask for a last reply without tools, and end.
    Conclude { prompt: Prompt },
}

// ── What is asked ──

/// Whether the conversation is to be compacted before the next request.
pub open spec fn needs_compact(h: types::HistoryView, percent: u64) -> bool {
    context::crowded(h) && h.current_tokens * 100 > percent * h.max_tokens
}

/// The definitions of the tools.
pub open spec fn tool_definitions<H>(r: ToolRegistry<H>) -> Seq<Seq<char>> {
    r.tools@.map_values(|t: tool::BuiltTool<H>| tool::definition_json(tool::definition(t.described())))
}

/// What is asked for a summary of a conversation.
pub open spec fn compact_prompt(messages: nat, tokens: u64) -> Seq<char> {
    "Summarize the conversation so far. Keep all important context, including completed tool operations and their results. The summary will replace the conversation history. Be concise but complete. Conversation has "@
        + number::decimal(messages) + " messages and ~"@ + number::decimal(tokens as nat)
        + " tokens."@
}

pub const SUMMARIZER_PROMPT: &'static str = "You are a conversation summarizer. Produce a concise summary.";

/// The system prompt of the last request of a run that used up its rounds.
pub open spec fn conclude_prompt(system: Seq<char>, max_iterations: u32) -> Seq<char> {
    system
        + "\n\n## IMPORTANT\nYou have reached the tool-call step limit ("@ + number::decimal(
        max_iterations as nat,
    )
        + " steps). You MUST now write a complete final answer for the user based on all information gathered. Do NOT call any tools. Provide a clear summary, analysis, or conclusion."@
}

/// The message that takes the place of a conversation.
pub open spec fn summary_text(system: Seq<char>, summary: Seq<char>) -> Seq<char> {
    system + "\n\n--- Conversation Summary ---\n"@ + summary
}

/// What is said where the last reply is blank.
pub open spec fn no_conclusion(max_iterations: u32) -> Seq<char> {
    "Reached the "@ + number::decimal(max_iterations as nat)
        + "-step tool limit before finishing. I gathered tool results but could not produce a summary. Try asking a more specific question, or say \"continue\" to keep going."@
}

// ── One reply ──

/// What has been received of a reply.
pub struct Round {
    pub text: String,
    pub reasoning: String,
    pub calls: Vec<ToolCall>,
    pub should_stop: bool,
    pub finish_reason: FinishReason,
}

/// The contents of a `Round`.
pub struct RoundView {
    pub text: Seq<char>,
    pub reasoning: Seq<char>,
    pub calls: Seq<types::ToolCallView>,
    pub should_stop: bool,
    pub finish_reason: types::FinishView,
}

impl DeepView for Round {
    type V = RoundView;

    open spec fn deep_view(&self) -> RoundView {
        RoundView {
            text: self.text@,
            reasoning: self.reasoning@,
            calls: self.calls.deep_view(),
            should_stop: self.should_stop,
            finish_reason: self.finish_reason.deep_view(),
        }
    }
}

/// A reply of which nothing has been received.
pub open spec fn silence() -> RoundView {
    RoundView {
        text: Seq::empty(),
        reasoning: Seq::empty(),
        calls: Seq::empty(),
        should_stop: false,
        finish_reason: types::FinishView::Stop,
    }
}

/// The reply after an event.
pub open spec fn heard(r: RoundView, e: types::EventView) -> RoundView {
    match e {
        types::EventView::TextDelta { text, .. } => RoundView { text: r.text + text, ..r },
        types::EventView::ReasoningDelta { text, .. } => RoundView {
            reasoning: r.reasoning + text,
            ..r
        },
        types::EventView::ToolCallReceived { id, name, input } => RoundView {
            calls: r.calls.push(types::ToolCallView { id, name, input }),
            ..r
        },
        types::EventView::StepFinish { reason, .. } => RoundView {
            finish_reason: reason,
            should_stop: r.should_stop || reason == types::FinishView::Stop,
            ..r
        },
        types::EventView::Finish { reason, .. } => RoundView {
            finish_reason: reason,
            should_stop: true,
            ..r
        },
        types::EventView::ProviderError { retryable, .. } => RoundView {
            should_stop: r.should_stop || retryable,
            ..r
        },
        _ => r,
    }
}

/// The usage after an event. The end of a reply reports what the reply used,
/// as the end of its step did before: it counts once, at the end of the reply.
pub open spec fn used(u: Usage, e: types::EventView) -> Usage {
    match e {
        types::EventView::Finish { usage: Some(more), .. } => types::merged(u, more),
        _ => u,
    }
}

/// What of an event is shown while the reply comes in.
pub open spec fn shown(e: types::EventView) -> Option<agent::ProgressView> {
    match e {
        types::EventView::TextDelta { text, .. } => Some(agent::ProgressView::Token { text }),
        types::EventView::ReasoningDelta { text, .. } => Some(
            agent::ProgressView::ReasoningToken { text },
        ),
        _ => None,
    }
}

/// The error with which an event ends the run.
pub open spec fn fatal(e: types::EventView) -> Option<Seq<char>> {
    match e {
        types::EventView::ProviderError { message, retryable: false } => Some(
            "Provider error: "@ + message,
        ),
        _ => None,
    }
}

/// Adds what was reported, where something was.
fn count_usage(usage: &mut Usage, reported: &Option<Usage>)
    ensures
        *final(usage) == (match *reported {
            Some(more) => types::merged(*old(usage), more),
            None => *old(usage),
        }),
{
    if let Some(more) = reported {
        usage.merge(more);
    }
}

/// Adds what an event reports of usage.
pub fn note_usage(usage: &mut Usage, event: &LlmEvent)
    ensures
        *final(usage) == used(*old(usage), event.deep_view()),
{
    if let LlmEvent::Finish { usage: reported, .. } = event {
        count_usage(usage, reported);
    }
}

impl Round {
    pub fn new() -> (r: Self)
        ensures
            r.deep_view() == silence(),
    {
        let r = Round {
            text: String::new(),
            reasoning: String::new(),
            calls: Vec::new(),
            should_stop: false,
            finish_reason: FinishReason::Stop,
        };
        assert(r.calls.deep_view() =~= silence().calls);
        r
    }

    /// Takes an event in. What is to be shown of it comes back, or the error
    /// with which the run ends.
    pub fn observe(&mut self, usage: &mut Usage, event: LlmEvent) -> (r: Result<
        Option<ProgressEvent>,
        String,
    >)
        ensures
            final(self).deep_view() == heard(old(self).deep_view(), event.deep_view()),
            *final(usage) == used(*old(usage), event.deep_view()),
            match r {
                Ok(p) => fatal(event.deep_view()) is None && p.deep_view() == shown(
                    event.deep_view(),
                ),
                Err(e) => fatal(event.deep_view()) == Some(e@),
            },
    {
        match event {
            LlmEvent::TextDelta { text, .. } => {
                self.text.append(text.as_str());
                Ok(Some(ProgressEvent::Token { text }))
            },
            LlmEvent::ReasoningDelta { text, .. } => {
                self.reasoning.append(text.as_str());
                Ok(Some(ProgressEvent::ReasoningToken { text }))
            },
            LlmEvent::ToolCallReceived { id, name, input } => {
                let ghost before = self.calls.deep_view();
                let call = ToolCall { id, name, input };
                self.calls.push(call);
                assert(self.calls.deep_view() =~= before.push(call.deep_view()));
                Ok(None)
            },
            LlmEvent::StepFinish { reason, .. } => {
                if matches!(reason, FinishReason::Stop) {
                    self.should_stop = true;
                }
                self.finish_reason = reason;
                Ok(None)
            },
            LlmEvent::Finish { reason, usage: reported } => {
                count_usage(usage, &reported);
                self.finish_reason = reason;
                self.should_stop = true;
                Ok(None)
            },
            LlmEvent::ProviderError { message, retryable } => {
                if !retryable {
                    return Err(text::cat2("Provider error: ", message.as_str()));
                }
                self.should_stop = true;
                Ok(None)
            },
            _ => Ok(None),
        }
    }
}

/// Reasoning that is empty is none.
pub open spec fn some_reasoning(s: Seq<char>) -> Option<Seq<char>> {
    if s.len() == 0 {
        None
    } else {
        Some(s)
    }
}

fn reasoning_of(s: &String) -> (r: Option<String>)
    ensures
        r.deep_view() == some_reasoning(s@),
{
    if s.as_str().is_empty() {
        None
    } else {
        Some(s.clone())
    }
}

// ── Ends and results ──

impl Duplicate for (String, String, ToolResultValue) {
    fn duplicate(&self) -> Self {
        (self.0.clone(), self.1.clone(), self.2.clone())
    }
}

/// How a round ends.
pub enum RoundEnd {
    /// The run makes no progress.
    GaveUp { output: AgentOutput },
    /// The tool calls of the reply are to be carried out.
    Tools,
    /// The run is done.
    Done { output: AgentOutput },
    /// The reply gave no reason to stop.
    Again,
}

/// The contents of a `RoundEnd`.
pub enum RoundEndView {
    GaveUp { output: agent::OutputView },
    Tools,
    Done { output: agent::OutputView },
    Again,
}

impl DeepView for RoundEnd {
    type V = RoundEndView;

    open spec fn deep_view(&self) -> RoundEndView {
        match *self {
            RoundEnd::GaveUp { output } => RoundEndView::GaveUp { output: output.deep_view() },
            RoundEnd::Tools => RoundEndView::Tools,
            RoundEnd::Done { output } => RoundEndView::Done { output: output.deep_view() },
            RoundEnd::Again => RoundEndView::Again,
        }
    }
}

/// The rounds without text, one after the other, up to this one. A reply with
/// neither text nor calls does not count.
pub open spec fn sterile_after(sterile: u32, round: RoundView) -> int {
    if round.text.len() > 0 {
        0
    } else if round.calls.len() > 0 {
        sterile + 1
    } else {
        sterile as int
    }
}

/// What is said when a run is given up for want of text.
pub open spec fn loop_text(rounds: int) -> Seq<char> {
    "I encountered a loop and couldn't make progress after "@ + number::decimal(rounds as nat)
        + " attempts. Please try rephrasing your request."@
}

/// What is said when a run is given up because its tools fail.
pub open spec fn errors_text(rounds: int) -> Seq<char> {
    "I encountered repeated errors and couldn't make progress after "@ + number::decimal(
        rounds as nat,
    ) + " attempts."@
}

/// The output of a run that was given up.
pub open spec fn given_up(said: Seq<char>, run: RunView, total: Usage) -> agent::OutputView {
    agent::OutputView {
        text: said,
        reasoning: None,
        tool_calls: Seq::empty(),
        tool_results: run.tool_results,
        finish_reason: types::FinishView::Error,
        usage: Some(total),
    }
}

/// How a round ends, where `total` is the usage before it.
pub open spec fn round_end(run: RunView, round: RoundView, total: Usage) -> RoundEndView {
    let sterile = sterile_after(run.sterile_rounds, round);
    if round.text.len() == 0 && round.calls.len() > 0 && sterile >= MAX_STERILE_ROUNDS {
        RoundEndView::GaveUp {
            output: given_up(loop_text(sterile), run, types::merged(total, run.usage)),
        }
    } else if round.calls.len() > 0 {
        RoundEndView::Tools
    } else if round.should_stop {
        RoundEndView::Done {
            output: agent::OutputView {
                text: round.text,
                reasoning: some_reasoning(round.reasoning),
                tool_calls: Seq::empty(),
                tool_results: run.tool_results,
                finish_reason: round.finish_reason,
                usage: Some(types::merged(total, run.usage)),
            },
        }
    } else {
        RoundEndView::Again
    }
}

/// The total usage after a round: a run that ends adds its own.
pub open spec fn total_after(run: RunView, round: RoundView, total: Usage) -> Usage {
    match round_end(run, round, total) {
        RoundEndView::GaveUp { .. } => types::merged(total, run.usage),
        RoundEndView::Done { .. } => types::merged(total, run.usage),
        _ => total,
    }
}

/// The result that a tool's outcome is told as.
pub open spec fn told(outcome: ToolResult<ToolOutput>) -> types::ResultView {
    match outcome {
        Ok(output) => types::ResultView::Text {
            value: text::joined(agent::output_texts(output.deep_view()), "\n"@),
        },
        Err(e) => types::ResultView::Error { value: tool::error_text(e.deep_view()) },
    }
}

/// What is shown when a tool is done.
pub open spec fn tool_done(name: Seq<char>, outcome: ToolResult<ToolOutput>, ts: i64) -> agent::ProgressView {
    match outcome {
        Ok(_) => agent::ProgressView::ToolCallFinished { name, status: "done"@, error: None, ts },
        Err(e) => agent::ProgressView::ToolCallFinished {
            name,
            status: "error"@,
            error: Some(tool::error_text(e.deep_view())),
            ts,
        },
    }
}

/// The rounds in a row in which every tool failed, up to this one.
pub open spec fn errors_after(errors: u32, ok: Seq<bool>) -> int {
    if ok.contains(true) {
        0
    } else {
        errors + 1
    }
}

/// The run after its tools were carried out, where `ok` says which worked. A
/// round without text stays one, whatever its tools gave.
pub open spec fn tools_done(run: RunView, ok: Seq<bool>) -> RunView {
    RunView { tool_error_rounds: errors_after(run.tool_error_rounds, ok) as u32, ..run }
}

/// What is shown when a tool starts.
pub open spec fn tool_started(call: types::ToolCallView, ts: i64) -> agent::ProgressView {
    agent::ProgressView::ToolCallStarted {
        name: call.name,
        input: agent::shortened(
            agent::telling(call.input),
            if call.name == "write"@ {
                200
            } else {
                80
            },
        ),
        ts,
    }
}

/// Whether the tool of a call modifies files.
pub open spec fn modifies<H>(r: ToolRegistry<H>, name: Seq<char>) -> bool {
    match tool::found(r.tools@, name) {
        Some(t) => t.is_modifier,
        None => false,
    }
}

/// The files that calls are about to modify.
pub open spec fn touched<H>(r: ToolRegistry<H>, calls: Seq<types::ToolCallView>) -> Seq<Seq<char>>
    decreases calls.len(),
{
    if calls.len() == 0 {
        Seq::empty()
    } else {
        let before = touched(r, calls.drop_last());
        let path = json::json_str_member(calls.last().input, "path"@);
        if modifies(r, calls.last().name) && path is Some {
            before.push(path.unwrap())
        } else {
            before
        }
    }
}

/// What is shown of a file after a tool worked.
pub enum Shown {
    Nothing,
    /// The file with this content.
    Content { path: String, content: String },
    /// The file as it is now.
    Read { path: String },
}

/// The contents of a `Shown`.
pub enum ShownView {
    Nothing,
    Content { path: Seq<char>, content: Seq<char> },
    Read { path: Seq<char> },
}

impl DeepView for Shown {
    type V = ShownView;

    open spec fn deep_view(&self) -> ShownView {
        match *self {
            Shown::Nothing => ShownView::Nothing,
            Shown::Content { path, content } => ShownView::Content { path: path@, content: content@ },
            Shown::Read { path } => ShownView::Read { path: path@ },
        }
    }
}

/// A written file is shown with what was written, an edited one as it is now.
pub open spec fn shown_after(call: types::ToolCallView) -> ShownView {
    let path = json::json_str_member(call.input, "path"@);
    let content = json::json_str_member(call.input, "content"@);
    if call.name == "write"@ {
        if path is Some && content is Some {
            ShownView::Content { path: path.unwrap(), content: content.unwrap() }
        } else {
            ShownView::Nothing
        }
    } else if call.name == "edit"@ && path is Some {
        ShownView::Read { path: path.unwrap() }
    } else {
        ShownView::Nothing
    }
}

pub fn show_after(call: &ToolCall) -> (r: Shown)
    ensures
        r.deep_view() == shown_after(call.deep_view()),
{
    let path = call.input.str_member("path");
    if text::same(call.name.as_str(), "write") {
        let content = call.input.str_member("content");
        match (path, content) {
            (Some(path), Some(content)) => Shown::Content { path, content },
            _ => Shown::Nothing,
        }
    } else if text::same(call.name.as_str(), "edit") {
        match path {
            Some(path) => Shown::Read { path },
            None => Shown::Nothing,
        }
    } else {
        Shown::Nothing
    }
}

/// What is shown when the tools of a reply start.
pub fn started_events(calls: &Vec<ToolCall>, ts: i64) -> (r: Vec<ProgressEvent>)
    ensures
        r.deep_view() == calls.deep_view().map_values(
            |c: types::ToolCallView| tool_started(c, ts),
        ),
{
    let mut r: Vec<ProgressEvent> = Vec::new();
    let mut i: usize = 0;
    while i < calls.len()
        invariant
            i <= calls@.len(),
            r@.len() == i,
            forall|j: int|
                0 <= j < i ==> (#[trigger] r@[j]).deep_view() == tool_started(
                    calls@[j].deep_view(),
                    ts,
                ),
        decreases calls@.len() - i,
    {
        let call = &calls[i];
        let max: usize = if text::same(call.name.as_str(), "write") {
            200
        } else {
            80
        };
        r.push(
            ProgressEvent::ToolCallStarted {
                name: call.name.clone(),
                input: agent::summarize_value(&call.input, max),
                ts,
            },
        );
        i = i + 1;
    }
    assert(r.deep_view() =~= calls.deep_view().map_values(
        |c: types::ToolCallView| tool_started(c, ts),
    ));
    r
}

/// A diff is shown unless it is empty.
pub fn diff_event(diff: String) -> (r: Option<ProgressEvent>)
    ensures
        r.deep_view() == (if diff@.len() == 0 {
            None
        } else {
            Some(agent::ProgressView::DiffAvailable { diff: diff@ })
        }),
{
    if diff.as_str().is_empty() {
        None
    } else {
        Some(ProgressEvent::DiffAvailable { diff })
    }
}

/// What is shown of a line of the repository's status.
pub fn status_event(line: String, ts: i64) -> (r: ProgressEvent)
    ensures
        r.deep_view() == (agent::ProgressView::ToolCallStarted {
            name: "git status"@,
            input: line@,
            ts,
        }),
{
    ProgressEvent::ToolCallStarted { name: "git status".to_owned(), input: line, ts }
}

/// A round after its reply is complete.
pub struct RoundOutcome {
    /// The reply as it stands in the conversation.
    pub message: Message,
    pub end: RoundEnd,
    /// What is shown.
    pub progress: Option<ProgressEvent>,
}

/// What is shown when a reply calls no tool.
pub open spec fn done_event(run: RunView, round: RoundView) -> Option<agent::ProgressView> {
    if round.calls.len() > 0 {
        None
    } else {
        Some(
            agent::ProgressView::Done {
                text_len: text::byte_len(round.text),
                tool_count: run.tool_results.len(),
            },
        )
    }
}

// ── The agent ──

/// Whether two states of an agent have the same settings, tools and session.
pub open spec fn same_setup<H>(a: Agent<H>, b: Agent<H>) -> bool {
    &&& a.config == b.config
    &&& a.llm == b.llm
    &&& a.registry == b.registry
    &&& a.session_id == b.session_id
}

/// Whether two states of an agent have the same settings and tools.
pub open spec fn same_settings<H>(a: Agent<H>, b: Agent<H>) -> bool {
    &&& a.config == b.config
    &&& a.llm == b.llm
    &&& a.registry == b.registry
}

/// A conversation after messages were added to it.
pub open spec fn with_messages(h: types::HistoryView, ms: Seq<types::MessageView>) -> types::HistoryView
    decreases ms.len(),
{
    if ms.len() == 0 {
        h
    } else {
        types::with_message(with_messages(h, ms.drop_last()), ms.last())
    }
}

/// The message that holds what the user says.
pub open spec fn user_message(id: Seq<char>, input: Seq<char>) -> types::MessageView {
    types::MessageView::User { id, content: seq![types::PartView::Text { text: input }] }
}

fn last_message(history: &types::MessageHistory) -> (r: Message)
    requires
        history.messages@.len() > 0,
    ensures
        r.deep_view() == history.deep_view().messages.last(),
{
    history.messages[history.messages.len() - 1].duplicate()
}

fn one_text(input: &str) -> (r: Vec<ContentPart>)
    ensures
        r.deep_view() == seq![types::PartView::Text { text: input@ }],
{
    let r = vec![ContentPart::Text { text: input.to_owned() }];
    assert(r.deep_view() =~= seq![types::PartView::Text { text: input@ }]);
    r
}

impl<H> Agent<H> {
    pub fn new(config: AgentConfig, llm_config: LlmConfig, registry: ToolRegistry<H>) -> (r: Self)
        ensures
            r.config == config,
            r.llm.config == llm_config,
            r.registry == registry,
            r.session_id is None,
            r.total_usage == types::no_usage(),
            r.context.deep_view() == (context::ContextView {
                system_prompt: config.system_prompt@,
                history: types::HistoryView {
                    messages: Seq::empty(),
                    max_tokens: config.max_tokens,
                    current_tokens: 0,
                },
                max_tool_output_chars: context::MAX_TOOL_OUTPUT,
            }),
    {
        let context = ContextManager::new(config.system_prompt.clone(), config.max_tokens);
        Agent {
            config,
            llm: LlmClient::new(llm_config),
            registry,
            context,
            session_id: None,
            total_usage: Usage::default(),
        }
    }

    /// Says in which session the agent works.
    pub fn with_storage(self, session_id: String) -> (r: Self)
        ensures
            r == (Agent { session_id: Some(session_id), ..self }),
    {
        let mut r = self;
        r.session_id = Some(session_id);
        r
    }

    /// Begins a run with what the user says. The message comes back to be
    /// stored.
    pub fn run(&mut self, user_input: &str) -> (r: (Message, Run))
        ensures
            same_setup(*final(self), *old(self)),
            final(self).total_usage == old(self).total_usage,
            ids::is_fresh_form(types::id_of(r.0.deep_view())),
            r.0.deep_view() == user_message(types::id_of(r.0.deep_view()), user_input@),
            final(self).context.deep_view() == context::said(
                old(self).context.deep_view(),
                r.0.deep_view(),
            ),
            r.1.deep_view() == start(),
    {
        let id = self.context.add_user_message(one_text(user_input));
        assert(self.context.history.messages.deep_view().len() > 0);
        (last_message(&self.context.history), Run::new())
    }

    /// Adds earlier messages to the conversation.
    pub fn load_history(&mut self, messages: Vec<Message>)
        ensures
            same_setup(*final(self), *old(self)),
            final(self).total_usage == old(self).total_usage,
            final(self).context.deep_view() == (context::ContextView {
                history: with_messages(
                    old(self).context.deep_view().history,
                    messages.deep_view(),
                ),
                ..old(self).context.deep_view()
            }),
    {
        let ghost all = messages.deep_view();
        let ghost before = self.context.deep_view();
        for m in it: messages
            invariant
                it.seq().len() == all.len(),
                forall|j: int| 0 <= j < all.len() ==> (#[trigger] it.seq()[j]).deep_view() == all[j],
                same_setup(*self, *old(self)),
                self.total_usage == old(self).total_usage,
                self.context.deep_view() == (context::ContextView {
                    history: with_messages(before.history, all.take(it.index())),
                    ..before
                }),
        {
            assert(all.take(it.index() + 1).drop_last() =~= all.take(it.index()));
            self.context.history.push(m);
        }
        assert(all.take(all.len() as int) =~= all);
    }

    /// Begins a run with given messages.
    pub fn run_with_messages(&mut self, messages: Vec<Message>) -> (r: Run)
        ensures
            same_setup(*final(self), *old(self)),
            final(self).total_usage == old(self).total_usage,
            final(self).context.deep_view() == (context::ContextView {
                history: with_messages(
                    old(self).context.deep_view().history,
                    messages.deep_view(),
                ),
                ..old(self).context.deep_view()
            }),
            r.deep_view() == start(),
    {
        self.load_history(messages);
        Run::new()
    }

    /// What the run does next. Every request but the last counts as a round.
    pub fn next_step(&mut self, run: &mut Run) -> (r: Step)
        ensures
            same_setup(*final(self), *old(self)),
            final(self).context == old(self).context,
            final(self).total_usage == old(self).total_usage,
            ({
                let config = old(self).config;
                let history = old(self).context.deep_view().history;
                if old(run).iteration >= config.max_iterations {
                    &&& r matches Step::Conclude { prompt } && prompt.deep_view() == (PromptView {
                        system: conclude_prompt(
                            old(self).context.system_prompt@,
                            config.max_iterations,
                        ),
                        messages: history.messages,
                        tools: Seq::empty(),
                    })
                    &&& final(run).deep_view() == old(run).deep_view()
                } else {
                    &&& final(run).deep_view() == (RunView {
                        iteration: (old(run).iteration + 1) as u32,
                        ..old(run).deep_view()
                    })
                    &&& if needs_compact(history, config.compact_threshold_percent) {
                        r matches Step::Compact { prompt } && {
                            let id = types::id_of(prompt.deep_view().messages[0]);
                            ids::is_fresh_form(id) && prompt.deep_view() == (PromptView {
                                system: SUMMARIZER_PROMPT@,
                                messages: seq![
                                    user_message(
                                        id,
                                        compact_prompt(
                                            history.messages.len(),
                                            history.current_tokens,
                                        ),
                                    ),
                                ],
                                tools: Seq::empty(),
                            })
                        }
                    } else {
                        r matches Step::Ask { iteration, prompt } && iteration == old(run).iteration
                            + 1 && prompt.deep_view() == (PromptView {
                            system: old(self).context.system_prompt@,
                            messages: history.messages,
                            tools: tool_definitions(old(self).registry),
                        })
                    }
                }
            }),
            sound(old(run).deep_view(), old(self).config.max_iterations) ==> sound(
                final(run).deep_view(),
                old(self).config.max_iterations,
            ),
    {
        if run.iteration >= self.config.max_iterations {
            let (system, messages, tools) = self.context.build_request();
            let system = text::cat4(
                system.as_str(),
                "\n\n## IMPORTANT\nYou have reached the tool-call step limit (",
                number::u64_text(self.config.max_iterations as u64).as_str(),
                " steps). You MUST now write a complete final answer for the user based on all information gathered. Do NOT call any tools. Provide a clear summary, analysis, or conclusion.",
            );
            assert(tools.deep_view() =~= Seq::<Seq<char>>::empty());
            return Step::Conclude { prompt: Prompt { system, messages, tools } };
        }
        run.iteration = run.iteration + 1;
        let h = &self.context.history;
        let percent: u64 = self.config.compact_threshold_percent;
        assert(h.max_tokens * percent <= u64::MAX * u64::MAX) by (nonlinear_arith)
            requires
                h.max_tokens <= u64::MAX,
                percent <= u64::MAX,
        ;
        let full = h.current_tokens as u128 * 100 > h.max_tokens as u128 * percent as u128;
        assert(h.max_tokens * percent == percent * h.max_tokens) by (nonlinear_arith);
        if self.context.needs_compaction() && full {
            return Step::Compact { prompt: self.compact() };
        }
        let (system, messages, _) = self.context.build_request();
        Step::Ask {
            iteration: run.iteration,
            prompt: Prompt { system, messages, tools: self.registry.definitions_as_value() },
        }
    }

    /// The request for a summary of the conversation.
    fn compact(&self) -> (r: Prompt)
        ensures
            ({
                let history = self.context.deep_view().history;
                let id = types::id_of(r.deep_view().messages[0]);
                &&& ids::is_fresh_form(id)
                &&& r.deep_view() == (PromptView {
                    system: SUMMARIZER_PROMPT@,
                    messages: seq![
                        user_message(
                            id,
                            compact_prompt(history.messages.len(), history.current_tokens),
                        ),
                    ],
                    tools: Seq::empty(),
                })
            }),
    {
        let ask = text::cat5(
            "Summarize the conversation so far. Keep all important context, including completed tool operations and their results. The summary will replace the conversation history. Be concise but complete. Conversation has ",
            number::usize_text(self.context.history.messages.len()).as_str(),
            " messages and ~",
            number::u64_text(self.context.history.current_tokens).as_str(),
            " tokens.",
        );
        let mut summary = ContextManager::new(SUMMARIZER_PROMPT.to_owned(), self.config.max_tokens);
        let id = summary.add_user_message(one_text(ask.as_str()));
        let (system, messages, tools) = summary.build_request();
        assert(tools.deep_view() =~= Seq::<Seq<char>>::empty());
        assert(messages.deep_view() =~= seq![user_message(id@, ask@)]);
        Prompt { system, messages, tools }
    }

    /// Puts a summary in the place of the conversation. The message that holds
    /// it comes back to be stored.
    pub fn keep_summary(&mut self, summary: &str) -> (r: Message)
        ensures
            same_setup(*final(self), *old(self)),
            final(self).total_usage == old(self).total_usage,
            ids::is_fresh_form(types::id_of(r.deep_view())),
            r.deep_view() == (types::MessageView::System {
                id: types::id_of(r.deep_view()),
                content: summary_text(old(self).config.system_prompt@, summary@),
            }),
            final(self).context.deep_view() == (context::ContextView {
                history: types::HistoryView {
                    messages: seq![r.deep_view()],
                    max_tokens: old(self).context.history.max_tokens,
                    current_tokens: types::estimate(r.deep_view()),
                },
                ..old(self).context.deep_view()
            }),
    {
        let message = Message::System {
            id: ids::fresh_id(),
            content: text::cat3(
                self.config.system_prompt.as_str(),
                "\n\n--- Conversation Summary ---\n",
                summary,
            ),
        };
        self.context.history.messages = Vec::new();
        self.context.history.current_tokens = 0;
        self.context.history.push(message.duplicate());
        assert(self.context.history.messages.deep_view() =~= seq![message.deep_view()]);
        message
    }

    /// Puts a summary in the place of the conversation and goes on in the
    /// session `child`, which was made for it. The message that holds the
    /// summary comes back to be stored there.
    pub fn finish_compaction(&mut self, summary: &str, child: String) -> (r: Message)
        ensures
            same_settings(*final(self), *old(self)),
            final(self).session_id == Some(child),
            final(self).total_usage == old(self).total_usage,
            ids::is_fresh_form(types::id_of(r.deep_view())),
            r.deep_view() == (types::MessageView::System {
                id: types::id_of(r.deep_view()),
                content: summary_text(old(self).config.system_prompt@, summary@),
            }),
            final(self).context.deep_view() == (context::ContextView {
                history: types::HistoryView {
                    messages: seq![r.deep_view()],
                    max_tokens: old(self).context.history.max_tokens,
                    current_tokens: types::estimate(r.deep_view()),
                },
                ..old(self).context.deep_view()
            }),
    {
        let message = self.keep_summary(summary);
        self.session_id = Some(child);
        message
    }

    /// Adds a complete reply to the conversation and says how the round ends.
    pub fn end_round(&mut self, run: &mut Run, round: Round) -> (r: RoundOutcome)
        requires
            old(run).sterile_rounds < MAX_STERILE_ROUNDS,
        ensures
            same_setup(*final(self), *old(self)),
            ids::is_fresh_form(types::id_of(r.message.deep_view())),
            r.message.deep_view() == (types::MessageView::Assistant {
                id: types::id_of(r.message.deep_view()),
                content: context::reply_parts(round.text@, some_reasoning(round.reasoning@)),
                tool_calls: round.calls.deep_view(),
            }),
            final(self).context.deep_view() == context::said(
                old(self).context.deep_view(),
                r.message.deep_view(),
            ),
            final(run).deep_view() == (RunView {
                sterile_rounds: sterile_after(old(run).sterile_rounds, round.deep_view()) as u32,
                ..old(run).deep_view()
            }),
            r.end.deep_view() == round_end(
                old(run).deep_view(),
                round.deep_view(),
                old(self).total_usage,
            ),
            final(self).total_usage == total_after(
                old(run).deep_view(),
                round.deep_view(),
                old(self).total_usage,
            ),
            r.progress.deep_view() == done_event(old(run).deep_view(), round.deep_view()),
    {
        let ghost v = round.deep_view();
        let ghost before = run.deep_view();
        let reasoning = reasoning_of(&round.reasoning);
        let id = self.context.add_assistant_message(
            round.text.clone(),
            reasoning_of(&round.reasoning),
            types::duplicate_all(&round.calls),
        );
        let message = last_message(&self.context.history);
        let silent = round.text.as_str().is_empty();
        let has_calls = round.calls.len() > 0;
        assert(v.calls.len() == round.calls@.len());
        if silent && has_calls {
            run.sterile_rounds = run.sterile_rounds + 1;
            if run.sterile_rounds >= MAX_STERILE_ROUNDS {
                self.total_usage.merge(&run.usage);
                let said = text::cat3(
                    "I encountered a loop and couldn't make progress after ",
                    number::u64_text(run.sterile_rounds as u64).as_str(),
                    " attempts. Please try rephrasing your request.",
                );
                let output = AgentOutput {
                    text: said,
                    reasoning: None,
                    tool_calls: Vec::new(),
                    tool_results: types::duplicate_all(&run.tool_results),
                    finish_reason: FinishReason::Error,
                    usage: Some(self.total_usage),
                };
                assert(output.tool_calls.deep_view() =~= Seq::<types::ToolCallView>::empty());
                return RoundOutcome { message, end: RoundEnd::GaveUp { output }, progress: None };
            }
        } else if !silent {
            run.sterile_rounds = 0;
        }
        if has_calls {
            return RoundOutcome { message, end: RoundEnd::Tools, progress: None };
        }
        let progress = Some(
            ProgressEvent::Done {
                text_len: text::len_bytes(round.text.as_str()),
                tool_count: run.tool_results.len(),
            },
        );
        if round.should_stop {
            self.total_usage.merge(&run.usage);
            let output = AgentOutput {
                text: round.text,
                reasoning,
                tool_calls: Vec::new(),
                tool_results: types::duplicate_all(&run.tool_results),
                finish_reason: round.finish_reason,
                usage: Some(self.total_usage),
            };
            assert(output.tool_calls.deep_view() =~= Seq::<types::ToolCallView>::empty());
            RoundOutcome { message, end: RoundEnd::Done { output }, progress }
        } else {
            RoundOutcome { message, end: RoundEnd::Again, progress }
        }
    }

    /// Whether one of the calls modifies files.
    pub fn has_modifier(&self, calls: &Vec<ToolCall>) -> (r: bool)
        ensures
            r == exists|i: int| 0 <= i < calls@.len() && modifies(self.registry, (#[trigger] calls@[i]).name@),
    {
        let mut i: usize = 0;
        while i < calls.len()
            invariant
                i <= calls@.len(),
                forall|j: int| 0 <= j < i ==> !modifies(self.registry, (#[trigger] calls@[j]).name@),
            decreases calls@.len() - i,
        {
            if self.is_modifier(calls[i].name.as_str()) {
                return true;
            }
            i = i + 1;
        }
        false
    }

    fn is_modifier(&self, name: &str) -> (r: bool)
        ensures
            r == modifies(self.registry, name@),
    {
        match self.registry.get(name) {
            Some(t) => t.is_modifier(),
            None => false,
        }
    }

    /// The files to keep a copy of before the calls are carried out.
    pub fn snapshot_paths(&self, calls: &Vec<ToolCall>) -> (r: Vec<String>)
        ensures
            r.deep_view() == touched(self.registry, calls.deep_view()),
    {
        let ghost all = calls.deep_view();
        let mut r: Vec<String> = Vec::new();
        let mut i: usize = 0;
        assert(r.deep_view() =~= Seq::<Seq<char>>::empty());
        while i < calls.len()
            invariant
                i <= calls@.len(),
                all == calls.deep_view(),
                r.deep_view() == touched(self.registry, all.take(i as int)),
            decreases calls@.len() - i,
        {
            assert(all.take(i + 1).drop_last() =~= all.take(i as int));
            let call = &calls[i];
            let ghost before = r.deep_view();
            if self.is_modifier(call.name.as_str()) {
                if let Some(path) = call.input.str_member("path") {
                    let ghost p = path@;
                    r.push(path);
                    assert(r.deep_view() =~= before.push(p));
                }
            }
            i = i + 1;
        }
        assert(all.take(i as int) =~= all);
        r
    }

    /// Where the tool calls of a run come from.
    pub fn tool_context(&self) -> (r: ToolContext)
        ensures
            r.deep_view() == (tool::ToolContextView {
                session_id: match self.session_id {
                    Some(s) => s@,
                    None => "session_1"@,
                },
                agent_id: "agent_1"@,
                tool_call_id: Seq::empty(),
                assistant_message_id: Seq::empty(),
            }),
    {
        ToolContext {
            session_id: match &self.session_id {
                Some(s) => s.clone(),
                None => "session_1".to_owned(),
            },
            agent_id: "agent_1".to_owned(),
            tool_call_id: String::new(),
            assistant_message_id: String::new(),
        }
    }

    /// Adds the outcome of a tool call to the conversation and to the results
    /// of the run. The message comes back to be stored, with what is shown.
    pub fn record_result(
        &mut self,
        run: &mut Run,
        call: &ToolCall,
        outcome: &ToolResult<ToolOutput>,
        ts: i64,
    ) -> (r: (Message, ProgressEvent))
        ensures
            same_setup(*final(self), *old(self)),
            final(self).total_usage == old(self).total_usage,
            ids::is_fresh_form(types::id_of(r.0.deep_view())),
            r.0.deep_view() == (types::MessageView::Tool {
                id: types::id_of(r.0.deep_view()),
                tool_call_id: call.id@,
                tool_name: call.name@,
                result: context::cut_result(
                    told(*outcome),
                    old(self).context.max_tool_output_chars,
                ),
            }),
            final(self).context.deep_view() == context::said(
                old(self).context.deep_view(),
                r.0.deep_view(),
            ),
            final(run).deep_view() == (RunView {
                tool_results: old(run).deep_view().tool_results.push(
                    (call.id@, call.name@, told(*outcome)),
                ),
                ..old(run).deep_view()
            }),
            r.1.deep_view() == tool_done(call.name@, *outcome, ts),
    {
        let ghost before = run.tool_results.deep_view();
        let (value, progress) = match outcome {
            Ok(output) => (
                agent::extract_tool_result_value(output),
                ProgressEvent::ToolCallFinished {
                    name: call.name.clone(),
                    status: "done".to_owned(),
                    error: None,
                    ts,
                },
            ),
            Err(e) => (
                ToolResultValue::Error { value: e.to_string() },
                ProgressEvent::ToolCallFinished {
                    name: call.name.clone(),
                    status: "error".to_owned(),
                    error: Some(e.to_string()),
                    ts,
                },
            ),
        };
        let id = self.context.add_tool_result(call.id.clone(), call.name.clone(), value.clone());
        assert(self.context.history.messages.deep_view().len() > 0);
        let message = last_message(&self.context.history);
        run.tool_results.push((call.id.clone(), call.name.clone(), value));
        assert(run.tool_results.deep_view() =~= before.push((call.id@, call.name@, told(*outcome))));
        (message, progress)
    }

    /// Closes a round of tool calls, of which `ok` says which worked. The
    /// output of the run comes back where it is given up.
    pub fn end_tools(&mut self, run: &mut Run, ok: &Vec<bool>) -> (r: Option<AgentOutput>)
        requires
            old(run).tool_error_rounds < MAX_ERROR_ROUNDS,
        ensures
            same_setup(*final(self), *old(self)),
            final(self).context == old(self).context,
            final(run).deep_view() == tools_done(old(run).deep_view(), ok@),
            final(self).total_usage == (if errors_after(old(run).tool_error_rounds, ok@)
                >= MAX_ERROR_ROUNDS {
                types::merged(old(self).total_usage, old(run).usage)
            } else {
                old(self).total_usage
            }),
            r.deep_view() == (if errors_after(old(run).tool_error_rounds, ok@) >= MAX_ERROR_ROUNDS {
                Some(
                    given_up(
                        errors_text(errors_after(old(run).tool_error_rounds, ok@)),
                        old(run).deep_view(),
                        types::merged(old(self).total_usage, old(run).usage),
                    ),
                )
            } else {
                None
            }),
    {
        let mut any = false;
        let mut i: usize = 0;
        while i < ok.len()
            invariant
                i <= ok@.len(),
                any == ok@.take(i as int).contains(true),
            decreases ok@.len() - i,
        {
            assert(ok@.take(i + 1) =~= ok@.take(i as int).push(ok@[i as int]));
            proof {
                lemma_contains_push(ok@.take(i as int), ok@[i as int]);
            }
            if ok[i] {
                any = true;
            }
            i = i + 1;
        }
        assert(ok@.take(i as int) =~= ok@);
        if any {
            run.tool_error_rounds = 0;
            return None;
        }
        run.tool_error_rounds = run.tool_error_rounds + 1;
        if run.tool_error_rounds >= MAX_ERROR_ROUNDS {
            self.total_usage.merge(&run.usage);
            let said = text::cat3(
                "I encountered repeated errors and couldn't make progress after ",
                number::u64_text(run.tool_error_rounds as u64).as_str(),
                " attempts.",
            );
            let output = AgentOutput {
                text: said,
                reasoning: None,
                tool_calls: Vec::new(),
                tool_results: types::duplicate_all(&run.tool_results),
                finish_reason: FinishReason::Error,
                usage: Some(self.total_usage),
            };
            assert(output.tool_calls.deep_view() =~= Seq::<types::ToolCallView>::empty());
            Some(output)
        } else {
            None
        }
    }

    /// Adds what a run used to the total, where the run ends without an output.
    pub fn drop_run(&mut self, run: &Run)
        ensures
            same_setup(*final(self), *old(self)),
            final(self).context == old(self).context,
            final(self).total_usage == types::merged(old(self).total_usage, run.usage),
    {
        self.total_usage.merge(&run.usage);
    }

    /// The output of a run that used up its rounds, after the last reply.
    pub fn force_final_response(&mut self, run: &Run, reply: String, reasoning: String) -> (r:
        AgentOutput)
        ensures
            same_setup(*final(self), *old(self)),
            final(self).context == old(self).context,
            final(self).total_usage == types::merged(old(self).total_usage, run.usage),
            r.deep_view() == (agent::OutputView {
                text: if text::trim(reply@).len() == 0 {
                    no_conclusion(old(self).config.max_iterations)
                } else {
                    reply@
                },
                reasoning: some_reasoning(reasoning@),
                tool_calls: Seq::empty(),
                tool_results: run.deep_view().tool_results,
                finish_reason: types::FinishView::Length,
                usage: Some(types::merged(old(self).total_usage, run.usage)),
            }),
    {
        self.total_usage.merge(&run.usage);
        let blank = text::trimmed(reply.as_str()).as_str().is_empty();
        let said = if blank {
            text::cat3(
                "Reached the ",
                number::u64_text(self.config.max_iterations as u64).as_str(),
                "-step tool limit before finishing. I gathered tool results but could not produce a summary. Try asking a more specific question, or say \"continue\" to keep going.",
            )
        } else {
            reply
        };
        let output = AgentOutput {
            text: said,
            reasoning: reasoning_of(&reasoning),
            tool_calls: Vec::new(),
            tool_results: types::duplicate_all(&run.tool_results),
            finish_reason: FinishReason::Length,
            usage: Some(self.total_usage),
        };
        assert(output.tool_calls.deep_view() =~= Seq::<types::ToolCallView>::empty());
        output
    }
}

proof fn lemma_contains_push(s: Seq<bool>, b: bool)
    ensures
        s.push(b).contains(true) == (s.contains(true) || b),
{
    assert(s.push(b)[s.len() as int] == b);
    assert forall|i: int| 0 <= i < s.len() implies s.push(b)[i] == #[trigger] s[i] by {}
    if s.contains(true) {
        let i = choose|i: int| 0 <= i < s.len() && s[i] == true;
        assert(s.push(b)[i] == true);
    }
}

// ── Laws ──

/// A reply after events, one after the other.
pub open spec fn heard_all(r: RoundView, es: Seq<types::EventView>) -> RoundView
    decreases es.len(),
{
    if es.len() == 0 {
        r
    } else {
        heard(heard_all(r, es.drop_last()), es.last())
    }
}

/// The pieces of text in events, put together.
pub open spec fn text_in(es: Seq<types::EventView>) -> Seq<char>
    decreases es.len(),
{
    if es.len() == 0 {
        Seq::empty()
    } else {
        text_in(es.drop_last()) + match es.last() {
            types::EventView::TextDelta { text, .. } => text,
            _ => Seq::empty(),
        }
    }
}

/// The pieces of reasoning in events, put together.
pub open spec fn reasoning_in(es: Seq<types::EventView>) -> Seq<char>
    decreases es.len(),
{
    if es.len() == 0 {
        Seq::empty()
    } else {
        reasoning_in(es.drop_last()) + match es.last() {
            types::EventView::ReasoningDelta { text, .. } => text,
            _ => Seq::empty(),
        }
    }
}

/// The complete tool calls in events.
pub open spec fn calls_in(es: Seq<types::EventView>) -> Seq<types::ToolCallView>
    decreases es.len(),
{
    if es.len() == 0 {
        Seq::empty()
    } else {
        calls_in(es.drop_last()) + match es.last() {
            types::EventView::ToolCallReceived { id, name, input } => seq![
                types::ToolCallView { id, name, input },
            ],
            _ => Seq::empty(),
        }
    }
}

/// A reply is what was streamed: its text, its reasoning and its calls are
/// those of the events, in order, and nothing else.
pub proof fn replies_are_what_was_streamed(r: RoundView, es: Seq<types::EventView>)
    ensures
        heard_all(r, es).text == r.text + text_in(es),
        heard_all(r, es).reasoning == r.reasoning + reasoning_in(es),
        heard_all(r, es).calls == r.calls + calls_in(es),
    decreases es.len(),
{
    let none = Seq::<char>::empty();
    if es.len() == 0 {
        assert(r.text + none =~= r.text);
        assert(r.reasoning + none =~= r.reasoning);
        assert(r.calls + Seq::<types::ToolCallView>::empty() =~= r.calls);
    } else {
        let rest = es.drop_last();
        replies_are_what_was_streamed(r, rest);
        assert(heard_all(r, es).text =~= r.text + text_in(es));
        assert(heard_all(r, es).reasoning =~= r.reasoning + reasoning_in(es));
        assert(heard_all(r, es).calls =~= r.calls + calls_in(es));
    }
}

/// A complete stream stops the round, for the reason that it names.
pub proof fn complete_streams_stop(r: RoundView, a: sse::AssemblyView)
    ensures
        heard_all(r, sse::ending(a)).should_stop,
        heard_all(r, sse::ending(a)).finish_reason == sse::last_reason(a),
{
    let es = sse::ending(a);
    assert(es.last() == (types::EventView::Finish {
        reason: sse::last_reason(a),
        usage: a.usage,
    }));
}

/// The usage after events, one after the other.
pub open spec fn used_all(u: Usage, es: Seq<types::EventView>) -> Usage
    decreases es.len(),
{
    if es.len() == 0 {
        u
    } else {
        used(used_all(u, es.drop_last()), es.last())
    }
}

proof fn lemma_unused(u: Usage, es: Seq<types::EventView>)
    requires
        forall|i: int| 0 <= i < es.len() ==> !((#[trigger] es[i]) is Finish),
    ensures
        used_all(u, es) == u,
    decreases es.len(),
{
    if es.len() > 0 {
        let rest = es.drop_last();
        assert forall|i: int| 0 <= i < rest.len() implies !((#[trigger] rest[i]) is Finish) by {
            assert(rest[i] == es[i]);
        }
        lemma_unused(u, rest);
        assert(!(es[es.len() - 1] is Finish));
    }
}

/// The usage of a reply counts once, though the end of its step and its own
/// end both report it: after any events of the reply and these two, the usage
/// has grown by what was reported.
pub proof fn a_reply_is_counted_once(
    u: Usage,
    es: Seq<types::EventView>,
    reason: types::FinishView,
    usage: Usage,
)
    requires
        forall|i: int| 0 <= i < es.len() ==> !((#[trigger] es[i]) is Finish),
    ensures
        used_all(
            u,
            es + seq![
                types::EventView::StepFinish { index: 0, reason, usage: Some(usage) },
                types::EventView::Finish { reason, usage: Some(usage) },
            ],
        ) == types::merged(u, usage),
{
    let step = types::EventView::StepFinish { index: 0, reason, usage: Some(usage) };
    let end = types::EventView::Finish { reason, usage: Some(usage) };
    let all = es + seq![step, end];
    let before = all.drop_last();
    assert forall|i: int| 0 <= i < before.len() implies !((#[trigger] before[i]) is Finish) by {
        if i < es.len() {
            assert(before[i] == es[i]);
        } else {
            assert(before[i] == step);
        }
    }
    lemma_unused(u, before);
    assert(all.last() == end);
}

/// The end of a reply counts the usage that came with it, once.
pub proof fn endings_count_once(u: Usage, a: sse::AssemblyView)
    ensures
        used_all(u, sse::ending(a)) == (match a.usage {
            Some(more) => types::merged(u, more),
            None => u,
        }),
{
    let all = sse::ending(a);
    let before = all.drop_last();
    lemma_ends_are_silent(a.calls);
    let closed = if a.reason is Some {
        Seq::empty()
    } else {
        sse::closing(a)
    };
    assert forall|i: int| 0 <= i < before.len() implies !((#[trigger] before[i]) is Finish) by {
        if i < closed.len() {
            assert(before[i] == sse::closing(a)[i]);
            lemma_closing(a, i);
        }
    }
    lemma_unused(u, before);
    assert(all.last() == (types::EventView::Finish {
        reason: sse::last_reason(a),
        usage: a.usage,
    }));
}

proof fn lemma_closing(a: sse::AssemblyView, i: int)
    requires
        0 <= i < sse::closing(a).len(),
    ensures
        !(sse::closing(a)[i] is Finish),
        !(sse::closing(a)[i] is TextDelta),
{
    lemma_ends_are_silent(a.calls);
    let head = sse::ends_of_text(a);
    if i >= head.len() {
        assert(sse::closing(a)[i] == sse::ends_of_calls(a.calls)[i - head.len()]);
    } else {
        assert(sse::closing(a)[i] == head[i]);
    }
}

/// The run that begins is sound.
pub proof fn runs_begin_sound(max_iterations: u32)
    ensures
        sound(start(), max_iterations),
{
}

/// A sound run stays sound through a round of tools, or is given up in it.
pub proof fn runs_stay_sound(
    run: RunView,
    round: RoundView,
    ok: Seq<bool>,
    total: Usage,
    max_iterations: u32,
)
    requires
        sound(run, max_iterations),
        round.calls.len() > 0,
    ensures
        round_end(run, round, total) is GaveUp || errors_after(run.tool_error_rounds, ok)
            >= MAX_ERROR_ROUNDS || sound(
            tools_done(
                RunView {
                    sterile_rounds: sterile_after(run.sterile_rounds, round) as u32,
                    ..run
                },
                ok,
            ),
            max_iterations,
        ),
{
}

/// A round that calls no tool keeps a run sound.
pub proof fn quiet_rounds_stay_sound(run: RunView, round: RoundView, max_iterations: u32)
    requires
        sound(run, max_iterations),
        round.calls.len() == 0,
    ensures
        sound(
            RunView { sterile_rounds: sterile_after(run.sterile_rounds, round) as u32, ..run },
            max_iterations,
        ),
{
}

/// Three rounds in a row in which every tool failed end a run; one tool that
/// works starts the count again.
pub proof fn three_failures_end_a_run(errors: u32, ok: Seq<bool>)
    requires
        errors < MAX_ERROR_ROUNDS,
    ensures
        errors_after(errors, ok) >= MAX_ERROR_ROUNDS <==> errors == 2 && !ok.contains(true),
        ok.contains(true) ==> errors_after(errors, ok) == 0,
{
}

/// Whether a reply calls tools and says nothing.
pub open spec fn is_sterile(round: RoundView) -> bool {
    round.text.len() == 0 && round.calls.len() > 0
}

/// The run after replies whose tools were carried out, where `oks` says of
/// each reply which of its tools worked.
pub open spec fn after_rounds(run: RunView, rounds: Seq<RoundView>, oks: Seq<Seq<bool>>) -> RunView
    decreases rounds.len(),
{
    if rounds.len() == 0 {
        run
    } else {
        let before = after_rounds(run, rounds.drop_last(), oks);
        tools_done(
            RunView {
                sterile_rounds: sterile_after(before.sterile_rounds, rounds.last()) as u32,
                ..before
            },
            oks[rounds.len() - 1],
        )
    }
}

proof fn lemma_sterile_rounds(run: RunView, rounds: Seq<RoundView>, oks: Seq<Seq<bool>>)
    requires
        run.sterile_rounds + rounds.len() <= MAX_STERILE_ROUNDS,
        forall|i: int| 0 <= i < rounds.len() ==> is_sterile(#[trigger] rounds[i]),
    ensures
        after_rounds(run, rounds, oks).sterile_rounds == run.sterile_rounds + rounds.len(),
        after_rounds(run, rounds, oks).usage == run.usage,
        after_rounds(run, rounds, oks).tool_results == run.tool_results,
    decreases rounds.len(),
{
    if rounds.len() > 0 {
        let rest = rounds.drop_last();
        assert forall|i: int| 0 <= i < rest.len() implies is_sterile(#[trigger] rest[i]) by {
            assert(rest[i] == rounds[i]);
        }
        lemma_sterile_rounds(run, rest, oks);
        assert(is_sterile(rounds[rounds.len() - 1]));
    }
}

/// Six replies in a row that call tools and say nothing end a run with a
/// friendly error, whatever the tools gave: the sixth is not followed by
/// another round.
pub proof fn six_sterile_rounds_end_a_run(
    run: RunView,
    rounds: Seq<RoundView>,
    oks: Seq<Seq<bool>>,
    total: Usage,
)
    requires
        run.sterile_rounds == 0,
        rounds.len() == MAX_STERILE_ROUNDS,
        forall|i: int| 0 <= i < rounds.len() ==> is_sterile(#[trigger] rounds[i]),
    ensures
        round_end(after_rounds(run, rounds.take(5), oks), rounds[5], total)
            == (RoundEndView::GaveUp {
            output: given_up(loop_text(6), run, types::merged(total, run.usage)),
        }),
        loop_text(6).len() > 0,
{
    let first = rounds.take(5);
    assert forall|i: int| 0 <= i < first.len() implies is_sterile(#[trigger] first[i]) by {
        assert(first[i] == rounds[i]);
    }
    lemma_sterile_rounds(run, first, oks);
    assert(is_sterile(rounds[5]));
    reveal_strlit("I encountered a loop and couldn't make progress after ");
}

/// A reply with text starts the count of silent replies again.
pub proof fn text_ends_a_silence(run: RunView, round: RoundView, ok: Seq<bool>)
    requires
        round.text.len() > 0,
    ensures
        after_rounds(run, seq![round], seq![ok]).sterile_rounds == 0,
{
    assert(seq![round].drop_last() =~= Seq::<RoundView>::empty());
    assert(after_rounds(run, Seq::<RoundView>::empty(), seq![ok]) == run);
}

/// The calls that have an id and a name, with their inputs.
pub open spec fn complete_calls(calls: Seq<sse::AccView>) -> Seq<types::ToolCallView>
    decreases calls.len(),
{
    if calls.len() == 0 {
        Seq::empty()
    } else {
        let before = complete_calls(calls.drop_last());
        let c = calls.last();
        if c.id.len() == 0 || c.name.len() == 0 {
            before
        } else {
            before.push(
                types::ToolCallView { id: c.id, name: c.name, input: sse::input_of(c.args) },
            )
        }
    }
}

proof fn lemma_calls_in_append(a: Seq<types::EventView>, b: Seq<types::EventView>)
    ensures
        calls_in(a + b) == calls_in(a) + calls_in(b),
    decreases b.len(),
{
    if b.len() == 0 {
        assert(a + b =~= a);
        assert(calls_in(a) + calls_in(b) =~= calls_in(a));
    } else {
        lemma_calls_in_append(a, b.drop_last());
        assert((a + b).drop_last() =~= a + b.drop_last());
        assert(calls_in(a + b) =~= calls_in(a) + calls_in(b));
    }
}

proof fn lemma_calls_in_one(e: types::EventView)
    ensures
        calls_in(seq![e]) == (match e {
            types::EventView::ToolCallReceived { id, name, input } => seq![
                types::ToolCallView { id, name, input },
            ],
            _ => Seq::empty(),
        }),
{
    assert(seq![e].drop_last() =~= Seq::<types::EventView>::empty());
    assert(calls_in(Seq::<types::EventView>::empty()) =~= Seq::<types::ToolCallView>::empty());
    assert(calls_in(seq![e]) =~= (match e {
        types::EventView::ToolCallReceived { id, name, input } => seq![
            types::ToolCallView { id, name, input },
        ],
        _ => Seq::<types::ToolCallView>::empty(),
    }));
}

proof fn lemma_calls_in_ends(calls: Seq<sse::AccView>)
    ensures
        calls_in(sse::ends_of_calls(calls)) == complete_calls(calls),
    decreases calls.len(),
{
    if calls.len() > 0 {
        let rest = calls.drop_last();
        let c = calls.last();
        lemma_calls_in_ends(rest);
        lemma_calls_in_append(sse::ends_of_calls(rest), sse::end_of_call(c));
        if c.id.len() == 0 || c.name.len() == 0 {
            assert(calls_in(sse::end_of_call(c)) =~= Seq::<types::ToolCallView>::empty());
            assert(complete_calls(rest) + Seq::<types::ToolCallView>::empty() =~= complete_calls(
                rest,
            ));
        } else {
            let ended = types::EventView::ToolCallEnd { id: c.id, name: c.name };
            let received = types::EventView::ToolCallReceived {
                id: c.id,
                name: c.name,
                input: sse::input_of(c.args),
            };
            lemma_calls_in_one(ended);
            lemma_calls_in_one(received);
            lemma_calls_in_append(seq![ended], seq![received]);
            assert(sse::end_of_call(c) =~= seq![ended] + seq![received]);
            assert(calls_in(sse::ends_of_calls(calls)) =~= complete_calls(calls));
        }
    }
}

/// The calls that a run carries out are those that were received whole, in the
/// order of their indices.
pub proof fn complete_calls_are_heard(a: sse::AssemblyView)
    ensures
        calls_in(sse::closing(a)) == complete_calls(a.calls),
        calls_in(sse::ending(a)) == (if a.reason is Some {
            Seq::empty()
        } else {
            complete_calls(a.calls)
        }),
        text_in(sse::closing(a)) == Seq::<char>::empty(),
        text_in(sse::ending(a)) == Seq::<char>::empty(),
{
    let head = sse::ends_of_text(a);
    let middle = sse::ends_of_calls(a.calls);
    let reason = sse::last_reason(a);
    let step = types::EventView::StepFinish { index: 0, reason, usage: a.usage };
    let end = types::EventView::Finish { reason, usage: a.usage };
    let tail = seq![step, end];
    let none = Seq::<types::EventView>::empty();
    lemma_calls_in_ends(a.calls);
    lemma_calls_in_append(head, middle);
    assert forall|i: int| 0 <= i < head.len() implies !((#[trigger] head[i]) is ToolCallReceived) by {}
    lemma_no_calls(head);
    assert(calls_in(sse::closing(a)) =~= complete_calls(a.calls));
    lemma_calls_in_append(sse::closing(a), tail);
    lemma_calls_in_append(none, tail);
    lemma_no_calls(tail);
    assert(calls_in(sse::ending(a)) =~= (if a.reason is Some {
        Seq::empty()
    } else {
        complete_calls(a.calls)
    }));
    let all = sse::ending(a);
    assert forall|i: int| 0 <= i < sse::closing(a).len() implies !((#[trigger] sse::closing(
        a,
    )[i]) is TextDelta) by {
        lemma_closing(a, i);
    }
    lemma_silent(sse::closing(a));
    assert forall|i: int| 0 <= i < all.len() implies !((#[trigger] all[i]) is TextDelta) by {
        if a.reason is None && i < sse::closing(a).len() {
            assert(all[i] == sse::closing(a)[i]);
        }
    }
    lemma_silent(all);
}

proof fn lemma_no_calls(es: Seq<types::EventView>)
    requires
        forall|i: int| 0 <= i < es.len() ==> !((#[trigger] es[i]) is ToolCallReceived),
    ensures
        calls_in(es) == Seq::<types::ToolCallView>::empty(),
    decreases es.len(),
{
    if es.len() > 0 {
        assert forall|i: int| 0 <= i < es.drop_last().len() implies !((
        #[trigger] es.drop_last()[i]) is ToolCallReceived) by {
            assert(es.drop_last()[i] == es[i]);
        }
        lemma_no_calls(es.drop_last());
        assert(!(es[es.len() - 1] is ToolCallReceived));
        assert(calls_in(es) =~= Seq::<types::ToolCallView>::empty());
    }
}

proof fn lemma_ends_are_silent(calls: Seq<sse::AccView>)
    ensures
        forall|i: int|
            0 <= i < sse::ends_of_calls(calls).len() ==> !((#[trigger] sse::ends_of_calls(
                calls,
            )[i]) is TextDelta) && !(sse::ends_of_calls(calls)[i] is Finish),
    decreases calls.len(),
{
    if calls.len() > 0 {
        let rest = calls.drop_last();
        lemma_ends_are_silent(rest);
        let before = sse::ends_of_calls(rest);
        let all = sse::ends_of_calls(calls);
        assert forall|i: int| 0 <= i < all.len() implies !((#[trigger] all[i]) is TextDelta) && !(
        all[i] is Finish) by {
            if i < before.len() {
                assert(all[i] == before[i]);
            } else {
                assert(all[i] == sse::end_of_call(calls.last())[i - before.len()]);
            }
        }
    }
}

proof fn lemma_silent(es: Seq<types::EventView>)
    requires
        forall|i: int| 0 <= i < es.len() ==> !((#[trigger] es[i]) is TextDelta),
    ensures
        text_in(es) == Seq::<char>::empty(),
    decreases es.len(),
{
    if es.len() > 0 {
        assert forall|i: int| 0 <= i < es.drop_last().len() implies !((
        #[trigger] es.drop_last()[i]) is TextDelta) by {
            assert(es.drop_last()[i] == es[i]);
        }
        lemma_silent(es.drop_last());
        assert(!(es[es.len() - 1] is TextDelta));
        assert(text_in(es) =~= Seq::<char>::empty());
    }
}

// ── What is streamed ──

/// The text in choices, put together.
pub open spec fn contents_of(cs: Seq<sse::ChoiceView>) -> Seq<char>
    decreases cs.len(),
{
    if cs.len() == 0 {
        Seq::empty()
    } else {
        contents_of(cs.drop_last()) + match cs.last().content {
            Some(text) => text,
            None => Seq::empty(),
        }
    }
}

/// The reasoning in choices, put together.
pub open spec fn reasonings_of(cs: Seq<sse::ChoiceView>) -> Seq<char>
    decreases cs.len(),
{
    if cs.len() == 0 {
        Seq::empty()
    } else {
        reasonings_of(cs.drop_last()) + match cs.last().reasoning {
            Some(text) => text,
            None => Seq::empty(),
        }
    }
}

/// The fragments of tool calls in choices, one after the other.
pub open spec fn fragments_of(cs: Seq<sse::ChoiceView>) -> Seq<sse::FragmentView>
    decreases cs.len(),
{
    if cs.len() == 0 {
        Seq::empty()
    } else {
        fragments_of(cs.drop_last()) + cs.last().fragments
    }
}

/// Whether no choice gives a reason to finish.
pub open spec fn goes_on(cs: Seq<sse::ChoiceView>) -> bool {
    forall|i: int| 0 <= i < cs.len() ==> (#[trigger] cs[i]).finish_reason is None
}

proof fn lemma_streams_append(a: Seq<types::EventView>, b: Seq<types::EventView>)
    ensures
        text_in(a + b) == text_in(a) + text_in(b),
        reasoning_in(a + b) == reasoning_in(a) + reasoning_in(b),
        calls_in(a + b) == calls_in(a) + calls_in(b),
    decreases b.len(),
{
    lemma_calls_in_append(a, b);
    if b.len() == 0 {
        assert(a + b =~= a);
        assert(text_in(a) + text_in(b) =~= text_in(a));
        assert(reasoning_in(a) + reasoning_in(b) =~= reasoning_in(a));
    } else {
        lemma_streams_append(a, b.drop_last());
        assert((a + b).drop_last() =~= a + b.drop_last());
        assert(text_in(a + b) =~= text_in(a) + text_in(b));
        assert(reasoning_in(a + b) =~= reasoning_in(a) + reasoning_in(b));
    }
}

proof fn lemma_streams_one(e: types::EventView)
    ensures
        text_in(seq![e]) == (match e {
            types::EventView::TextDelta { text, .. } => text,
            _ => Seq::empty(),
        }),
        reasoning_in(seq![e]) == (match e {
            types::EventView::ReasoningDelta { text, .. } => text,
            _ => Seq::empty(),
        }),
{
    let none = Seq::<types::EventView>::empty();
    assert(seq![e].drop_last() =~= none);
    assert(text_in(none) =~= Seq::<char>::empty());
    assert(reasoning_in(none) =~= Seq::<char>::empty());
    assert(text_in(seq![e]) =~= (match e {
        types::EventView::TextDelta { text, .. } => text,
        _ => Seq::empty(),
    }));
    assert(reasoning_in(seq![e]) =~= (match e {
        types::EventView::ReasoningDelta { text, .. } => text,
        _ => Seq::empty(),
    }));
}

/// The pieces of arguments that events report of calls under way.
pub open spec fn arguments_in(es: Seq<types::EventView>) -> Seq<char>
    decreases es.len(),
{
    if es.len() == 0 {
        Seq::empty()
    } else {
        arguments_in(es.drop_last()) + match es.last() {
            types::EventView::ToolCallDelta { text, .. } => text,
            _ => Seq::empty(),
        }
    }
}

proof fn lemma_fragments_say_nothing(calls: Seq<sse::AccView>, fs: Seq<sse::FragmentView>)
    ensures
        text_in(sse::with_fragments(calls, fs).1) == Seq::<char>::empty(),
        reasoning_in(sse::with_fragments(calls, fs).1) == Seq::<char>::empty(),
        calls_in(sse::with_fragments(calls, fs).1) == Seq::<types::ToolCallView>::empty(),
    decreases fs.len(),
{
    if fs.len() > 0 {
        let (before, events) = sse::with_fragments(calls, fs.drop_last());
        let more = sse::fragment_events(before, fs.last());
        lemma_fragments_say_nothing(calls, fs.drop_last());
        lemma_streams_append(events, more);
        assert forall|i: int| 0 <= i < more.len() implies !((#[trigger] more[i]) is TextDelta) && !(
        more[i] is ReasoningDelta) && !(more[i] is ToolCallReceived) by {}
        lemma_silent(more);
        lemma_thoughtless(more);
        lemma_no_calls(more);
        assert(text_in(sse::with_fragments(calls, fs).1) =~= Seq::<char>::empty());
        assert(reasoning_in(sse::with_fragments(calls, fs).1) =~= Seq::<char>::empty());
        assert(calls_in(sse::with_fragments(calls, fs).1) =~= Seq::<types::ToolCallView>::empty());
    }
}

proof fn lemma_thoughtless(es: Seq<types::EventView>)
    requires
        forall|i: int| 0 <= i < es.len() ==> !((#[trigger] es[i]) is ReasoningDelta),
    ensures
        reasoning_in(es) == Seq::<char>::empty(),
    decreases es.len(),
{
    if es.len() > 0 {
        assert forall|i: int| 0 <= i < es.drop_last().len() implies !((
        #[trigger] es.drop_last()[i]) is ReasoningDelta) by {
            assert(es.drop_last()[i] == es[i]);
        }
        lemma_thoughtless(es.drop_last());
        assert(!(es[es.len() - 1] is ReasoningDelta));
        assert(reasoning_in(es) =~= Seq::<char>::empty());
    }
}

proof fn lemma_text_step(a: sse::AssemblyView, content: Option<Seq<char>>, id: Seq<char>)
    ensures
        text_in(sse::text_step(a, content, id).1) == (match content {
            Some(text) => text,
            None => Seq::empty(),
        }),
        reasoning_in(sse::text_step(a, content, id).1) == Seq::<char>::empty(),
        calls_in(sse::text_step(a, content, id).1) == Seq::<types::ToolCallView>::empty(),
        sse::text_step(a, content, id).0.reason == a.reason,
        sse::text_step(a, content, id).0.calls == a.calls,
        sse::text_step(a, content, id).0.usage == a.usage,
{
    let es = sse::text_step(a, content, id).1;
    if let Some(text) = content {
        let last = es.last();
        assert(last is TextDelta && last->TextDelta_text == text);
        let head = es.drop_last();
        assert(es =~= head + seq![last]);
        assert forall|i: int| 0 <= i < head.len() implies !((#[trigger] head[i]) is TextDelta) by {}
        lemma_silent(head);
        lemma_streams_append(head, seq![last]);
        lemma_streams_one(last);
        assert(text_in(es) =~= text);
    } else {
        assert(text_in(es) =~= Seq::<char>::empty());
    }
    assert forall|i: int| 0 <= i < es.len() implies !((#[trigger] es[i]) is ReasoningDelta) && !(
    es[i] is ToolCallReceived) by {}
    lemma_thoughtless(es);
    lemma_no_calls(es);
}

proof fn lemma_reasoning_step(a: sse::AssemblyView, reasoning: Option<Seq<char>>, id: Seq<char>)
    ensures
        reasoning_in(sse::reasoning_step(a, reasoning, id).1) == (match reasoning {
            Some(text) => text,
            None => Seq::empty(),
        }),
        text_in(sse::reasoning_step(a, reasoning, id).1) == Seq::<char>::empty(),
        calls_in(sse::reasoning_step(a, reasoning, id).1) == Seq::<types::ToolCallView>::empty(),
        sse::reasoning_step(a, reasoning, id).0.reason == a.reason,
        sse::reasoning_step(a, reasoning, id).0.calls == a.calls,
        sse::reasoning_step(a, reasoning, id).0.usage == a.usage,
{
    let es = sse::reasoning_step(a, reasoning, id).1;
    if let Some(text) = reasoning {
        let last = es.last();
        assert(last is ReasoningDelta && last->ReasoningDelta_text == text);
        let head = es.drop_last();
        assert(es =~= head + seq![last]);
        assert forall|i: int| 0 <= i < head.len() implies !((
        #[trigger] head[i]) is ReasoningDelta) by {}
        lemma_thoughtless(head);
        lemma_streams_append(head, seq![last]);
        lemma_streams_one(last);
        assert(reasoning_in(es) =~= text);
    } else {
        assert(reasoning_in(es) =~= Seq::<char>::empty());
    }
    assert forall|i: int| 0 <= i < es.len() implies !((#[trigger] es[i]) is TextDelta) && !(
    es[i] is ToolCallReceived) by {}
    lemma_silent(es);
    lemma_no_calls(es);
}

proof fn lemma_with_fragments_append(
    calls: Seq<sse::AccView>,
    a: Seq<sse::FragmentView>,
    b: Seq<sse::FragmentView>,
)
    ensures
        sse::with_fragments(calls, a + b).0 == sse::with_fragments(
            sse::with_fragments(calls, a).0,
            b,
        ).0,
    decreases b.len(),
{
    if b.len() == 0 {
        assert(a + b =~= a);
    } else {
        lemma_with_fragments_append(calls, a, b.drop_last());
        assert((a + b).drop_last() =~= a + b.drop_last());
    }
}

proof fn lemma_choices(
    a: sse::AssemblyView,
    cs: Seq<sse::ChoiceView>,
    text_id: Seq<char>,
    reasoning_id: Seq<char>,
)
    requires
        a.reason is None,
        goes_on(cs),
    ensures
        ({
            let step = sse::choices_step(a, cs, text_id, reasoning_id);
            &&& text_in(step.events) == contents_of(cs)
            &&& reasoning_in(step.events) == reasonings_of(cs)
            &&& calls_in(step.events) == Seq::<types::ToolCallView>::empty()
            &&& step.state.reason is None
            &&& step.state.usage == a.usage
            &&& step.state.calls == sse::with_fragments(a.calls, fragments_of(cs)).0
        }),
    decreases cs.len(),
{
    let none = Seq::<char>::empty();
    let step = sse::choices_step(a, cs, text_id, reasoning_id);
    if cs.len() == 0 {
        assert(text_in(step.events) =~= none);
        assert(reasoning_in(step.events) =~= none);
    } else {
        let rest = cs.drop_last();
        let c = cs.last();
        assert forall|i: int| 0 <= i < rest.len() implies (#[trigger] rest[i]).finish_reason is None by {
            assert(rest[i] == cs[i]);
        }
        assert(cs[cs.len() - 1].finish_reason is None);
        lemma_choices(a, rest, text_id, reasoning_id);
        let before = sse::choices_step(a, rest, text_id, reasoning_id);
        let s = before.state;
        let (calls, call_events) = sse::with_fragments(s.calls, c.fragments);
        let b = sse::AssemblyView { calls, ..s };
        let (d, text_events) = sse::text_step(b, c.content, text_id);
        let (e, reasoning_events) = sse::reasoning_step(d, c.reasoning, reasoning_id);
        lemma_fragments_say_nothing(s.calls, c.fragments);
        lemma_text_step(b, c.content, text_id);
        lemma_reasoning_step(d, c.reasoning, reasoning_id);
        lemma_streams_append(call_events, text_events);
        lemma_streams_append(call_events + text_events, reasoning_events);
        lemma_streams_append(before.events, call_events + text_events + reasoning_events);
        lemma_with_fragments_append(a.calls, fragments_of(rest), c.fragments);
        assert(text_in(step.events) =~= contents_of(cs));
        assert(reasoning_in(step.events) =~= reasonings_of(cs));
        assert(calls_in(step.events) =~= Seq::<types::ToolCallView>::empty());
    }
}

/// What a chunk says is reported as it came: the text in the events of a chunk
/// is the content of its choices put together, character for character, and so
/// is the reasoning. Its fragments of calls are kept, behind those that came
/// before.
pub proof fn chunks_are_reported_as_they_came(
    a: sse::AssemblyView,
    cs: Seq<sse::ChoiceView>,
    usage: Option<sse::StreamUsage>,
    text_id: Seq<char>,
    reasoning_id: Seq<char>,
)
    requires
        a.reason is None,
        goes_on(cs),
    ensures
        ({
            let step = sse::chunk_step(a, cs, usage, text_id, reasoning_id);
            &&& text_in(step.events) == contents_of(cs)
            &&& reasoning_in(step.events) == reasonings_of(cs)
            &&& calls_in(step.events) == Seq::<types::ToolCallView>::empty()
            &&& step.state.reason is None
            &&& step.state.calls == sse::with_fragments(a.calls, fragments_of(cs)).0
        }),
{
    lemma_choices(
        sse::AssemblyView { usage: sse::usage_after(a.usage, usage), ..a },
        cs,
        text_id,
        reasoning_id,
    );
}

/// A chunk of a stream: its choices, the usage it reports, and the ids that
/// text and reasoning take which start in it.
pub struct ArrivalView {
    pub choices: Seq<sse::ChoiceView>,
    pub usage: Option<sse::StreamUsage>,
    pub text_id: Seq<char>,
    pub reasoning_id: Seq<char>,
}

/// What chunks give, one after the other.
pub open spec fn arrived(a: sse::AssemblyView, chunks: Seq<ArrivalView>) -> sse::StepView
    decreases chunks.len(),
{
    if chunks.len() == 0 {
        sse::StepView { state: a, events: Seq::empty() }
    } else {
        let before = arrived(a, chunks.drop_last());
        let c = chunks.last();
        let last = sse::chunk_step(before.state, c.choices, c.usage, c.text_id, c.reasoning_id);
        sse::StepView { state: last.state, events: before.events + last.events }
    }
}

/// All choices of chunks.
pub open spec fn choices_of(chunks: Seq<ArrivalView>) -> Seq<sse::ChoiceView>
    decreases chunks.len(),
{
    if chunks.len() == 0 {
        Seq::empty()
    } else {
        choices_of(chunks.drop_last()) + chunks.last().choices
    }
}

proof fn lemma_contents_append(a: Seq<sse::ChoiceView>, b: Seq<sse::ChoiceView>)
    ensures
        contents_of(a + b) == contents_of(a) + contents_of(b),
        reasonings_of(a + b) == reasonings_of(a) + reasonings_of(b),
        fragments_of(a + b) == fragments_of(a) + fragments_of(b),
    decreases b.len(),
{
    if b.len() == 0 {
        assert(a + b =~= a);
        assert(contents_of(a) + contents_of(b) =~= contents_of(a));
        assert(reasonings_of(a) + reasonings_of(b) =~= reasonings_of(a));
        assert(fragments_of(a) + fragments_of(b) =~= fragments_of(a));
    } else {
        lemma_contents_append(a, b.drop_last());
        assert((a + b).drop_last() =~= a + b.drop_last());
        assert(contents_of(a + b) =~= contents_of(a) + contents_of(b));
        assert(reasonings_of(a + b) =~= reasonings_of(a) + reasonings_of(b));
        assert(fragments_of(a + b) =~= fragments_of(a) + fragments_of(b));
    }
}

/// The text of a reply is the content of all chunks of its stream put together,
/// and its reasoning is their reasoning. Its calls are put together from all
/// their fragments.
pub proof fn streams_are_put_together(a: sse::AssemblyView, chunks: Seq<ArrivalView>, r: RoundView)
    requires
        a.reason is None,
        goes_on(choices_of(chunks)),
    ensures
        heard_all(r, arrived(a, chunks).events).text == r.text + contents_of(choices_of(chunks)),
        heard_all(r, arrived(a, chunks).events).reasoning == r.reasoning + reasonings_of(
            choices_of(chunks),
        ),
        arrived(a, chunks).state.reason is None,
        arrived(a, chunks).state.calls == sse::with_fragments(
            a.calls,
            fragments_of(choices_of(chunks)),
        ).0,
{
    lemma_arrived(a, chunks);
    replies_are_what_was_streamed(r, arrived(a, chunks).events);
}

proof fn lemma_arrived(a: sse::AssemblyView, chunks: Seq<ArrivalView>)
    requires
        a.reason is None,
        goes_on(choices_of(chunks)),
    ensures
        ({
            let step = arrived(a, chunks);
            let cs = choices_of(chunks);
            &&& text_in(step.events) == contents_of(cs)
            &&& reasoning_in(step.events) == reasonings_of(cs)
            &&& calls_in(step.events) == Seq::<types::ToolCallView>::empty()
            &&& step.state.reason is None
            &&& step.state.calls == sse::with_fragments(a.calls, fragments_of(cs)).0
        }),
    decreases chunks.len(),
{
    let step = arrived(a, chunks);
    let cs = choices_of(chunks);
    if chunks.len() == 0 {
        assert(text_in(step.events) =~= Seq::<char>::empty());
        assert(reasoning_in(step.events) =~= Seq::<char>::empty());
    } else {
        let rest = chunks.drop_last();
        let c = chunks.last();
        let first = choices_of(rest);
        assert forall|i: int| 0 <= i < first.len() implies (
        #[trigger] first[i]).finish_reason is None by {
            assert(cs[i] == first[i]);
        }
        assert forall|i: int| 0 <= i < c.choices.len() implies (
        #[trigger] c.choices[i]).finish_reason is None by {
            assert(cs[first.len() + i] == c.choices[i]);
        }
        lemma_arrived(a, rest);
        let before = arrived(a, rest);
        chunks_are_reported_as_they_came(
            before.state,
            c.choices,
            c.usage,
            c.text_id,
            c.reasoning_id,
        );
        let last = sse::chunk_step(before.state, c.choices, c.usage, c.text_id, c.reasoning_id);
        lemma_streams_append(before.events, last.events);
        lemma_contents_append(first, c.choices);
        lemma_with_fragments_append(a.calls, fragments_of(first), fragments_of(c.choices));
        assert(calls_in(step.events) =~= Seq::<types::ToolCallView>::empty());
    }
}

/// A reason to finish ends a reply: the calls that were received whole are
/// reported with it, nothing is said with it, and the reason is the one that
/// the model names.
pub proof fn reasons_end_a_reply(
    a: sse::AssemblyView,
    c: sse::ChoiceView,
    reason: Seq<char>,
    text_id: Seq<char>,
    reasoning_id: Seq<char>,
)
    requires
        a.reason is None,
        c.finish_reason == Some(reason),
    ensures
        ({
            let step = sse::chunk_step(a, seq![c], None, text_id, reasoning_id);
            &&& calls_in(step.events) == complete_calls(a.calls)
            &&& text_in(step.events) == Seq::<char>::empty()
            &&& reasoning_in(step.events) == Seq::<char>::empty()
            &&& step.state.reason == Some(sse::reason_of(reason))
            &&& step.state.usage == a.usage
        }),
{
    let step = sse::chunk_step(a, seq![c], None, text_id, reasoning_id);
    assert(seq![c].drop_last() =~= Seq::<sse::ChoiceView>::empty());
    assert(sse::choices_step(a, seq![c].drop_last(), text_id, reasoning_id) == (sse::StepView {
        state: a,
        events: Seq::empty(),
    }));
    assert(step.events =~= sse::closing(a));
    complete_calls_are_heard(a);
    assert forall|i: int| 0 <= i < step.events.len() implies !((
    #[trigger] step.events[i]) is ReasoningDelta) by {
        lemma_closing_thoughtless(a, i);
    }
    lemma_thoughtless(step.events);
}

proof fn lemma_closing_thoughtless(a: sse::AssemblyView, i: int)
    requires
        0 <= i < sse::closing(a).len(),
    ensures
        !(sse::closing(a)[i] is ReasoningDelta),
{
    lemma_ends_thoughtless(a.calls);
    let head = sse::ends_of_text(a);
    if i >= head.len() {
        assert(sse::closing(a)[i] == sse::ends_of_calls(a.calls)[i - head.len()]);
    } else {
        assert(sse::closing(a)[i] == head[i]);
    }
}

proof fn lemma_ends_thoughtless(calls: Seq<sse::AccView>)
    ensures
        forall|i: int|
            0 <= i < sse::ends_of_calls(calls).len() ==> !((#[trigger] sse::ends_of_calls(
                calls,
            )[i]) is ReasoningDelta),
    decreases calls.len(),
{
    if calls.len() > 0 {
        let rest = calls.drop_last();
        lemma_ends_thoughtless(rest);
        let before = sse::ends_of_calls(rest);
        let all = sse::ends_of_calls(calls);
        assert forall|i: int| 0 <= i < all.len() implies !((#[trigger] all[i]) is ReasoningDelta) by {
            if i < before.len() {
                assert(all[i] == before[i]);
            } else {
                assert(all[i] == sse::end_of_call(calls.last())[i - before.len()]);
            }
        }
    }
}

// ── Files to keep ──

/// The files to keep a copy of are those that the calls of modifying tools
/// name: the path of every call whose tool is registered and modifies files is
/// among them, and no other path is.
pub proof fn modified_files_are_kept<H>(
    r: ToolRegistry<H>,
    calls: Seq<types::ToolCallView>,
    path: Seq<char>,
)
    ensures
        touched(r, calls).contains(path) <==> exists|i: int|
            0 <= i < calls.len() && (tool::found(r.tools@, (#[trigger] calls[i]).name) matches Some(t)
                && t.is_modifier) && json::json_str_member(calls[i].input, "path"@) == Some(path),
    decreases calls.len(),
{
    let all = touched(r, calls);
    if calls.len() > 0 {
        let rest = calls.drop_last();
        let c = calls.last();
        modified_files_are_kept(r, rest, path);
        let before = touched(r, rest);
        let named = json::json_str_member(c.input, "path"@);
        let adds = (tool::found(r.tools@, c.name) matches Some(t) && t.is_modifier) && named
            == Some(path);
        assert(calls[calls.len() - 1] == c);
        if all.contains(path) {
            let k = choose|k: int| 0 <= k < all.len() && all[k] == path;
            if k < before.len() {
                assert(before[k] == path);
                let i = choose|i: int|
                    0 <= i < rest.len() && (tool::found(
                        r.tools@,
                        (#[trigger] rest[i]).name,
                    ) matches Some(t) && t.is_modifier) && json::json_str_member(
                        rest[i].input,
                        "path"@,
                    ) == Some(path);
                assert(calls[i] == rest[i]);
            } else {
                assert(adds);
            }
        }
        if adds {
            assert(all[before.len() as int] == path);
        }
        if before.contains(path) {
            let k = choose|k: int| 0 <= k < before.len() && before[k] == path;
            assert(all[k] == path);
        }
        if exists|i: int|
            0 <= i < calls.len() && (tool::found(r.tools@, (#[trigger] calls[i]).name) matches Some(t)
                && t.is_modifier) && json::json_str_member(calls[i].input, "path"@) == Some(path) {
            let i = choose|i: int|
                0 <= i < calls.len() && (tool::found(
                    r.tools@,
                    (#[trigger] calls[i]).name,
                ) matches Some(t) && t.is_modifier) && json::json_str_member(
                    calls[i].input,
                    "path"@,
                ) == Some(path);
            if i < rest.len() {
                assert(rest[i] == calls[i]);
            }
        }
    }
}

/// The files to keep come in the order of the calls, one for each call.
pub proof fn kept_files_follow_the_calls<H>(
    r: ToolRegistry<H>,
    a: Seq<types::ToolCallView>,
    b: Seq<types::ToolCallView>,
)
    ensures
        touched(r, a + b) == touched(r, a) + touched(r, b),
    decreases b.len(),
{
    if b.len() == 0 {
        assert(a + b =~= a);
        assert(touched(r, a) + touched(r, b) =~= touched(r, a));
    } else {
        kept_files_follow_the_calls(r, a, b.drop_last());
        assert((a + b).drop_last() =~= a + b.drop_last());
        assert(touched(r, a + b) =~= touched(r, a) + touched(r, b));
    }
}

proof fn lemma_arguments_append(a: Seq<types::EventView>, b: Seq<types::EventView>)
    ensures
        arguments_in(a + b) == arguments_in(a) + arguments_in(b),
    decreases b.len(),
{
    if b.len() == 0 {
        assert(a + b =~= a);
        assert(arguments_in(a) + arguments_in(b) =~= arguments_in(a));
    } else {
        lemma_arguments_append(a, b.drop_last());
        assert((a + b).drop_last() =~= a + b.drop_last());
        assert(arguments_in(a + b) =~= arguments_in(a) + arguments_in(b));
    }
}

/// What is reported of a fragment while a call comes in: its arguments as they
/// came, under the id and the name that are known by then. The call is
/// announced before its first arguments.
pub proof fn fragments_are_reported_as_they_came(calls: Seq<sse::AccView>, f: sse::FragmentView)
    requires
        sse::in_order(calls),
    ensures
        arguments_in(sse::fragment_events(calls, f)) == (match f.arguments {
            Some(more) => more,
            None => Seq::empty(),
        }),
        f.arguments is None ==> sse::fragment_events(calls, f).len() == 0,
        f.arguments is Some ==> sse::fragment_events(calls, f).last()
            == (types::EventView::ToolCallDelta {
            id: sse::call_at(sse::with_fragment(calls, f), f.index).id,
            name: sse::call_at(sse::with_fragment(calls, f), f.index).name,
            text: f.arguments.unwrap(),
        }),
        sse::fragment_events(calls, f).len() > 0 ==> (sse::fragment_events(
            calls,
            f,
        )[0] is ToolCallStart <==> forall|i: int|
            0 <= i < calls.len() ==> (#[trigger] calls[i]).index != f.index),
{
    let es = sse::fragment_events(calls, f);
    let other: u64 = if f.index == 0 {
        1
    } else {
        0
    };
    sse::fragments_keep_apart(calls, f, other);
    sse::known_calls(calls, f.index);
    let none = Seq::<types::EventView>::empty();
    assert(arguments_in(none) =~= Seq::<char>::empty());
    if f.arguments is Some {
        let last = es.last();
        let head = es.drop_last();
        assert(seq![last].drop_last() =~= none);
        assert(arguments_in(seq![last]) =~= f.arguments.unwrap());
        if head.len() > 0 {
            assert(head.drop_last() =~= none);
            assert(arguments_in(head) =~= Seq::<char>::empty());
        } else {
            assert(head =~= none);
        }
        lemma_arguments_append(head, seq![last]);
        assert(es =~= head + seq![last]);
        assert(arguments_in(es) =~= f.arguments.unwrap());
    }
}

// ── Rounds and runs ──

/// What is shown while a reply comes in is what is heard of it: its text and
/// its reasoning, piece by piece, and nothing else.
pub proof fn what_is_heard_is_shown(r: RoundView, e: types::EventView)
    ensures
        match shown(e) {
            Some(agent::ProgressView::Token { text }) => heard(r, e).text == r.text + text
                && heard(r, e).reasoning == r.reasoning,
            Some(agent::ProgressView::ReasoningToken { text }) => heard(r, e).reasoning
                == r.reasoning + text && heard(r, e).text == r.text,
            Some(_) => false,
            None => heard(r, e).text == r.text && heard(r, e).reasoning == r.reasoning,
        },
{
}

/// A reply stops with its end, and where its stream breaks off or its step ends
/// with a stop; nothing else stops it, and once stopped it stays so.
pub proof fn only_ends_stop_a_reply(r: RoundView, e: types::EventView)
    ensures
        heard(r, e).should_stop <==> (r.should_stop || e is Finish || e == (
        types::EventView::StepFinish {
            index: e->StepFinish_index,
            reason: types::FinishView::Stop,
            usage: e->StepFinish_usage,
        }) || e == (types::EventView::ProviderError {
            message: e->ProviderError_message,
            retryable: true,
        })),
        !(e is Finish) && !(e is StepFinish) ==> heard(r, e).finish_reason == r.finish_reason,
        e matches types::EventView::Finish { reason, .. } ==> heard(r, e).finish_reason == reason,
{
}

/// A run fails exactly where the provider reports an error that does not pass,
/// and the failure says what the provider said.
pub proof fn lasting_errors_are_fatal(e: types::EventView)
    ensures
        fatal(e) is Some <==> e is ProviderError && !e->ProviderError_retryable,
        fatal(e) matches Some(error) ==> text::holds(error, e->ProviderError_message),
{
    if let types::EventView::ProviderError { message, .. } = e {
        let none = Seq::<char>::empty();
        text::holds_itself(message);
        text::whole_holds_parts("Provider error: "@, message, none, message);
        assert("Provider error: "@ + message + none =~= "Provider error: "@ + message);
    }
}

/// A reply that calls tools has them carried out, unless it is one silent reply
/// too many. One that calls none and has stopped ends the run, and its text and
/// reasoning are the output, with all results of the run and its usage. One
/// that has not stopped is asked for again.
pub proof fn replies_decide_what_follows(run: RunView, round: RoundView, total: Usage)
    requires
        run.sterile_rounds < MAX_STERILE_ROUNDS,
    ensures
        round.calls.len() > 0 && (round.text.len() > 0 || run.sterile_rounds < 5) ==> round_end(
            run,
            round,
            total,
        ) is Tools,
        round.calls.len() > 0 && round.text.len() == 0 && run.sterile_rounds == 5 ==> round_end(
            run,
            round,
            total,
        ) is GaveUp,
        round.calls.len() == 0 && !round.should_stop ==> round_end(run, round, total) is Again,
        round.calls.len() == 0 && round.should_stop ==> (round_end(
            run,
            round,
            total,
        ) matches RoundEndView::Done { output } && output.text == round.text && (
        round.reasoning.len() > 0 ==> output.reasoning == Some(round.reasoning)) && (
        round.reasoning.len() == 0 ==> output.reasoning is None) && output.tool_results
            == run.tool_results && output.tool_calls.len() == 0 && output.finish_reason
            == round.finish_reason && output.usage == Some(types::merged(total, run.usage))),
{
}

/// Reasoning is kept as it is; empty reasoning is none.
pub proof fn reasoning_is_kept(s: Seq<char>)
    ensures
        s.len() > 0 ==> some_reasoning(s) == Some(s),
        s.len() == 0 ==> some_reasoning(s) is None,
{
}

/// A run that is given up ends with an error, says something, and keeps the
/// results that its tools gave.
pub proof fn runs_given_up_keep_results(said: Seq<char>, run: RunView, total: Usage, rounds: int)
    ensures
        given_up(said, run, total).text == said,
        given_up(said, run, total).tool_results == run.tool_results,
        given_up(said, run, total).finish_reason is Error,
        given_up(said, run, total).usage == Some(total),
        text::holds(loop_text(rounds), number::decimal(rounds as nat)),
        text::holds(errors_text(rounds), number::decimal(rounds as nat)),
{
    let n = number::decimal(rounds as nat);
    text::holds_itself(n);
    text::whole_holds_parts(
        "I encountered a loop and couldn't make progress after "@,
        n,
        " attempts. Please try rephrasing your request."@,
        n,
    );
    text::whole_holds_parts(
        "I encountered repeated errors and couldn't make progress after "@,
        n,
        " attempts."@,
        n,
    );
}

/// The model is told all that a tool put out, and of a failed tool what went
/// wrong. A failure is never told as a result, nor a result as a failure.
pub proof fn outcomes_are_told(outcome: ToolResult<ToolOutput>, i: int)
    ensures
        outcome matches Ok(output) ==> (told(outcome) matches types::ResultView::Text { value } && (
        0 <= i < output.deep_view().len() ==> text::holds(
            value,
            agent::output_texts(output.deep_view())[i],
        )) && (output.deep_view() == seq![
            types::ToolContentView::Text { text: output.deep_view()[0]->Text_text },
        ] ==> value == output.deep_view()[0]->Text_text)),
        outcome matches Err(e) ==> (told(outcome) matches types::ResultView::Error { value } && value
            == tool::error_text(e.deep_view())),
{
    if let Ok(output) = outcome {
        let all = output.deep_view();
        if 0 <= i < all.len() {
            agent::outputs_are_told_whole(all, i);
        }
        if all == seq![types::ToolContentView::Text { text: all[0]->Text_text }] {
            agent::outputs_are_told_whole(all, 0);
        }
    }
}

/// The end of a tool is shown under its name, as done or with its error.
pub proof fn ends_of_tools_are_shown(name: Seq<char>, outcome: ToolResult<ToolOutput>, ts: i64)
    ensures
        tool_done(name, outcome, ts) matches agent::ProgressView::ToolCallFinished {
            name: shown_name,
            status,
            error,
            ts: at,
        } && shown_name == name && at == ts && (outcome is Ok ==> status == "done"@ && error is None)
            && (outcome matches Err(e) ==> status == "error"@ && error == Some(
            tool::error_text(e.deep_view()),
        )),
{
}

/// The start of a tool is shown under its name, with what its input tells: up
/// to 200 bytes of it for a file that is written, else up to 80.
pub proof fn starts_of_tools_are_shown(call: types::ToolCallView, ts: i64)
    ensures
        tool_started(call, ts) matches agent::ProgressView::ToolCallStarted {
            name,
            input,
            ts: at,
        } && name == call.name && at == ts && (text::byte_len(agent::telling(call.input)) <= 80
            ==> input == agent::telling(call.input)) && (call.name == "write"@ && text::byte_len(
            agent::telling(call.input),
        ) <= 200 ==> input == agent::telling(call.input)),
{
}

/// After a file was written what was written is shown, after one was edited the
/// file is; after any other tool nothing is.
pub proof fn changed_files_are_shown(call: types::ToolCallView, path: Seq<char>, content: Seq<char>)
    ensures
        call.name == "write"@ && json::json_str_member(call.input, "path"@) == Some(path)
            && json::json_str_member(call.input, "content"@) == Some(content) ==> shown_after(call)
            == (ShownView::Content { path, content }),
        call.name == "edit"@ && json::json_str_member(call.input, "path"@) == Some(path)
            ==> shown_after(call) == (ShownView::Read { path }),
        call.name != "write"@ && call.name != "edit"@ ==> shown_after(call) is Nothing,
        json::json_str_member(call.input, "path"@) is None ==> shown_after(call) is Nothing,
{
    reveal_strlit("write");
    reveal_strlit("edit");
    assert("write"@.len() == 5 && "edit"@.len() == 4);
}

/// A conversation that is loaded stands behind what was said before, message by
/// message in order, and nothing else changes but the count of tokens.
pub proof fn loaded_messages_stand_in_order(h: types::HistoryView, ms: Seq<types::MessageView>)
    ensures
        with_messages(h, ms).messages == h.messages + ms,
        with_messages(h, ms).max_tokens == h.max_tokens,
        types::counts_right(h) ==> types::counts_right(with_messages(h, ms)),
    decreases ms.len(),
{
    if ms.len() == 0 {
        assert(h.messages + ms =~= h.messages);
    } else {
        loaded_messages_stand_in_order(h, ms.drop_last());
        assert(with_messages(h, ms).messages =~= h.messages + ms);
        if types::counts_right(h) {
            types::push_counts_right(with_messages(h, ms.drop_last()), ms.last());
        }
    }
}

/// What the user says is the text of the message, whole.
pub proof fn the_user_is_quoted(id: Seq<char>, input: Seq<char>)
    ensures
        user_message(id, input) matches types::MessageView::User { id: i, content } && i == id
            && types::reply_text(content) == input && content.len() == 1,
{
    let p = types::PartView::Text { text: input };
    let none = Seq::<types::PartView>::empty();
    types::texts_are_put_together(none, none, p);
}

/// A summary takes the place of a conversation whole, behind the system prompt;
/// the last request keeps the system prompt and names the limit.
pub proof fn prompts_keep_what_counts(
    system: Seq<char>,
    summary: Seq<char>,
    max_iterations: u32,
    messages: nat,
    tokens: u64,
)
    ensures
        system.is_prefix_of(summary_text(system, summary)),
        summary.is_suffix_of(summary_text(system, summary)),
        system.is_prefix_of(conclude_prompt(system, max_iterations)),
        text::holds(
            conclude_prompt(system, max_iterations),
            number::decimal(max_iterations as nat),
        ),
        text::holds(no_conclusion(max_iterations), number::decimal(max_iterations as nat)),
        text::holds(compact_prompt(messages, tokens), number::decimal(messages)),
        text::holds(compact_prompt(messages, tokens), number::decimal(tokens as nat)),
{
    let none = Seq::<char>::empty();
    let n = number::decimal(max_iterations as nat);
    let m = number::decimal(messages);
    let k = number::decimal(tokens as nat);
    text::holds_itself(n);
    text::holds_itself(m);
    text::holds_itself(k);
    let all = summary_text(system, summary);
    assert(all.subrange(0, system.len() as int) =~= system);
    assert(all.subrange(all.len() - summary.len(), all.len() as int) =~= summary);
    let head = system + "\n\n## IMPORTANT\nYou have reached the tool-call step limit ("@;
    let tail =
        " steps). You MUST now write a complete final answer for the user based on all information gathered. Do NOT call any tools. Provide a clear summary, analysis, or conclusion."@;
    text::whole_holds_parts(head, n, tail, n);
    let last = conclude_prompt(system, max_iterations);
    assert(last =~= head + n + tail);
    assert(last.subrange(0, system.len() as int) =~= system);
    text::whole_holds_parts(
        "Reached the "@,
        n,
        "-step tool limit before finishing. I gathered tool results but could not produce a summary. Try asking a more specific question, or say \"continue\" to keep going."@,
        n,
    );
    let ask =
        "Summarize the conversation so far. Keep all important context, including completed tool operations and their results. The summary will replace the conversation history. Be concise but complete. Conversation has "@;
    text::whole_holds_parts(ask, m, " messages and ~"@ + k + " tokens."@, m);
    assert(compact_prompt(messages, tokens) =~= ask + m + (" messages and ~"@ + k + " tokens."@));
    text::whole_holds_parts(ask + m + " messages and ~"@, k, " tokens."@, k);
}

/// A conversation is compacted once it takes more than the given percentage of
/// its limit, and never below three quarters of it.
pub proof fn only_full_conversations_are_compacted(h: types::HistoryView, percent: u64)
    ensures
        h.current_tokens * 4 <= h.max_tokens * 3 ==> !needs_compact(h, percent),
        percent == 75 ==> (needs_compact(h, percent) <==> h.current_tokens > (3 * h.max_tokens) / 4),
        percent >= 75 && needs_compact(h, percent) ==> h.current_tokens * 100 > percent
            * h.max_tokens,
        percent <= 75 && h.current_tokens * 4 > h.max_tokens * 3 ==> needs_compact(h, percent),
{
    if percent <= 75 {
        assert(percent * h.max_tokens <= 75 * h.max_tokens) by (nonlinear_arith)
            requires
                0 <= percent <= 75,
                h.max_tokens >= 0,
        ;
    }
}

/// Every registered tool is offered to the model, in order.
pub proof fn all_tools_are_offered<H>(r: ToolRegistry<H>, i: int)
    ensures
        tool_definitions(r).len() == r.tools@.len(),
        0 <= i < r.tools@.len() ==> tool_definitions(r)[i] == tool::definition_json(
            tool::definition(r.tools@[i].described()),
        ),
{
}

/// A run begins with no rounds, no results and no usage.
pub proof fn runs_begin_empty()
    ensures
        start().iteration == 0,
        start().sterile_rounds == 0,
        start().tool_error_rounds == 0,
        start().tool_results.len() == 0,
        start().usage == types::no_usage(),
        silence().text.len() == 0,
        silence().reasoning.len() == 0,
        silence().calls.len() == 0,
        !silence().should_stop,
{
}

/// When a reply calls no tool, its length and the number of results are shown.
pub proof fn ends_of_replies_are_shown(run: RunView, round: RoundView)
    ensures
        round.calls.len() > 0 ==> done_event(run, round) is None,
        round.calls.len() == 0 ==> (done_event(run, round) matches Some(
            agent::ProgressView::Done { text_len, tool_count },
        ) && text_len == text::byte_len(round.text) && tool_count == run.tool_results.len()),
{
}

/// Every call that was received whole is reported where the reply is closed,
/// with its id, its name and its input, and no other call is.
pub proof fn whole_calls_are_received(calls: Seq<sse::AccView>, call: types::ToolCallView)
    ensures
        calls_in(sse::ends_of_calls(calls)).contains(call) <==> exists|i: int|
            0 <= i < calls.len() && (#[trigger] calls[i]).id.len() > 0 && calls[i].name.len() > 0
                && call == (types::ToolCallView {
                id: calls[i].id,
                name: calls[i].name,
                input: sse::input_of(calls[i].args),
            }),
    decreases calls.len(),
{
    lemma_calls_in_ends(calls);
    let all = complete_calls(calls);
    if calls.len() > 0 {
        let rest = calls.drop_last();
        let c = calls.last();
        whole_calls_are_received(rest, call);
        lemma_calls_in_ends(rest);
        let before = complete_calls(rest);
        let whole = c.id.len() > 0 && c.name.len() > 0;
        let made = types::ToolCallView { id: c.id, name: c.name, input: sse::input_of(c.args) };
        assert(calls[calls.len() - 1] == c);
        if all.contains(call) {
            let k = choose|k: int| 0 <= k < all.len() && all[k] == call;
            if k < before.len() {
                assert(before[k] == call);
                let i = choose|i: int|
                    0 <= i < rest.len() && (#[trigger] rest[i]).id.len() > 0 && rest[i].name.len()
                        > 0 && call == (types::ToolCallView {
                        id: rest[i].id,
                        name: rest[i].name,
                        input: sse::input_of(rest[i].args),
                    });
                assert(calls[i] == rest[i]);
            }
        }
        if before.contains(call) {
            let k = choose|k: int| 0 <= k < before.len() && before[k] == call;
            assert(all[k] == call);
        }
        if whole && call == made {
            assert(all[before.len() as int] == call);
        }
        if exists|i: int|
            0 <= i < calls.len() && (#[trigger] calls[i]).id.len() > 0 && calls[i].name.len() > 0
                && call == (types::ToolCallView {
                id: calls[i].id,
                name: calls[i].name,
                input: sse::input_of(calls[i].args),
            }) {
            let i = choose|i: int|
                0 <= i < calls.len() && (#[trigger] calls[i]).id.len() > 0 && calls[i].name.len() > 0
                    && call == (types::ToolCallView {
                    id: calls[i].id,
                    name: calls[i].name,
                    input: sse::input_of(calls[i].args),
                });
            if i < rest.len() {
                assert(rest[i] == calls[i]);
            }
        }
    }
}

/// The calls are reported in the order of their indices, each by itself.
pub proof fn calls_are_received_in_order(a: Seq<sse::AccView>, b: Seq<sse::AccView>)
    ensures
        sse::ends_of_calls(a + b) == sse::ends_of_calls(a) + sse::ends_of_calls(b),
    decreases b.len(),
{
    if b.len() == 0 {
        assert(a + b =~= a);
        assert(sse::ends_of_calls(a) + sse::ends_of_calls(b) =~= sse::ends_of_calls(a));
    } else {
        calls_are_received_in_order(a, b.drop_last());
        assert((a + b).drop_last() =~= a + b.drop_last());
        assert(sse::ends_of_calls(a + b) =~= sse::ends_of_calls(a) + sse::ends_of_calls(b));
    }
}

/// A tool modifies files where it is registered as one that does.
pub proof fn modifiers_are_registered<H>(r: ToolRegistry<H>, i: int)
    requires
        r.wf(),
        0 <= i < r.tools@.len(),
    ensures
        modifies(r, r.tools@[i].name@) == r.tools@[i].is_modifier,
{
    tool::tools_are_found_by_name(r.tools@, r.tools@[i].name@);
}

} // verus!
