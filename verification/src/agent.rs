//! The kinds of agent, their settings, and what a run gives.
use vstd::prelude::*;
use crate::json;
use crate::json::Json;
use crate::text;
use crate::types;
use crate::types::{
    FinishReason, ToolCall, ToolContent, ToolOutput, ToolResultValue, Usage,
};

pub use crate::run::Agent;

verus! {

/// What a run reports while it goes on.
pub enum ProgressEvent {
    LlmCall { iteration: u32 },
    Token { text: String },
    ReasoningToken { text: String },
    ToolCallStarted { name: String, input: String, ts: i64 },
    ToolCallFinished { name: String, status: String, error: Option<String>, ts: i64 },
    StepFinished { iteration: u32, tool_count: usize },
    DiffAvailable { diff: String },
    ContentWritten { path: String, content: String },
    Done { text_len: usize, tool_count: usize },
}

/// The contents of a `ProgressEvent`.
pub enum ProgressView {
    LlmCall { iteration: u32 },
    Token { text: Seq<char> },
    ReasoningToken { text: Seq<char> },
    ToolCallStarted { name: Seq<char>, input: Seq<char>, ts: i64 },
    ToolCallFinished { name: Seq<char>, status: Seq<char>, error: Option<Seq<char>>, ts: i64 },
    StepFinished { iteration: u32, tool_count: nat },
    DiffAvailable { diff: Seq<char> },
    ContentWritten { path: Seq<char>, content: Seq<char> },
    Done { text_len: nat, tool_count: nat },
}

impl DeepView for ProgressEvent {
    type V = ProgressView;

    open spec fn deep_view(&self) -> ProgressView {
        match *self {
            ProgressEvent::LlmCall { iteration } => ProgressView::LlmCall { iteration },
            ProgressEvent::Token { text } => ProgressView::Token { text: text@ },
            ProgressEvent::ReasoningToken { text } => ProgressView::ReasoningToken { text: text@ },
            ProgressEvent::ToolCallStarted { name, input, ts } => ProgressView::ToolCallStarted {
                name: name@,
                input: input@,
                ts,
            },
            ProgressEvent::ToolCallFinished { name, status, error, ts } => ProgressView::ToolCallFinished {
                name: name@,
                status: status@,
                error: error.deep_view(),
                ts,
            },
            ProgressEvent::StepFinished { iteration, tool_count } => ProgressView::StepFinished {
                iteration,
                tool_count: tool_count as nat,
            },
            ProgressEvent::DiffAvailable { diff } => ProgressView::DiffAvailable { diff: diff@ },
            ProgressEvent::ContentWritten { path, content } => ProgressView::ContentWritten {
                path: path@,
                content: content@,
            },
            ProgressEvent::Done { text_len, tool_count } => ProgressView::Done {
                text_len: text_len as nat,
                tool_count: tool_count as nat,
            },
        }
    }
}

#[derive(Debug, Clone, Copy, PartialEq, Eq, Structural)]
pub enum AgentKind {
    Build,
    Plan,
    General,
}

/// The name of a kind.
pub open spec fn kind_name(kind: AgentKind) -> Seq<char> {
    match kind {
        AgentKind::Build => "build"@,
        AgentKind::Plan => "plan"@,
        AgentKind::General => "general"@,
    }
}

impl AgentKind {
    pub fn name(&self) -> (r: &'static str)
        ensures
            r@ == kind_name(*self),
    {
        match self {
            AgentKind::Build => "build",
            AgentKind::Plan => "plan",
            AgentKind::General => "general",
        }
    }
}

pub const BUILD_PROMPT: &'static str = r#"You are a full-access coding agent on macOS.

RULES:
1. CREATE new files → use `write`
2. MODIFY existing files → use `edit` (SEARCH/REPLACE). The `edit` tool reads the file internally. Do NOT `read` first.
3. To see code for reference → use `read`
4. Each `edit` call is one SEARCH/REPLACE block, showing only the changed portion.

PROJECT ANALYSIS:
- Start with `glob` (e.g. "src/**/*.rs", "Cargo.toml") — do NOT run `find .` over the whole tree
- Read key files: Cargo.toml, README.md, src/lib.rs or src/main.rs — not every file
- After gathering enough context, STOP calling tools and write a complete summary for the user
- Never read the same file twice unless it changed

Available: read, write, edit, glob, grep, bash, webfetch, websearch, git_commit, git_status, git_diff, undo.
"#;

pub const PLAN_PROMPT: &'static str = r#"You are a read-only architect assistant running on macOS.
You can read files, search code, and browse the web.
You CANNOT modify files or execute shell commands without explicit user approval.
Focus on analysis, planning, and providing recommendations.
If file modifications are needed, describe the changes and ask the user to approve.
"#;

pub const GENERAL_PROMPT: &'static str = r#"You are a general-purpose assistant running on macOS.
You have access to tools for reading, writing, searching, and executing commands.
Use the appropriate tool to help the user with their request.

When analyzing a project: use `glob` and read key files (Cargo.toml, README, entry points).
Avoid scanning the entire directory tree with bash find. After enough exploration, give a complete written answer — do not keep calling tools indefinitely.
"#;

/// What an agent of some kind is told and may do.
pub struct AgentDef {
    pub kind: AgentKind,
    pub name: &'static str,
    pub description: &'static str,
    pub default_allowed: Vec<String>,
    pub ask_patterns: Vec<String>,
    pub system_prompt: String,
}

/// The contents of an `AgentDef`.
pub struct AgentDefView {
    pub kind: AgentKind,
    pub name: Seq<char>,
    pub description: Seq<char>,
    pub default_allowed: Seq<Seq<char>>,
    pub ask_patterns: Seq<Seq<char>>,
    pub system_prompt: Seq<char>,
}

impl DeepView for AgentDef {
    type V = AgentDefView;

    open spec fn deep_view(&self) -> AgentDefView {
        AgentDefView {
            kind: self.kind,
            name: self.name@,
            description: self.description@,
            default_allowed: self.default_allowed.deep_view(),
            ask_patterns: self.ask_patterns.deep_view(),
            system_prompt: self.system_prompt@,
        }
    }
}

/// The definition of a kind. A planning agent may read and search, and is to
/// ask before it changes files or runs commands; the others may do anything.
pub open spec fn definition_of(kind: AgentKind) -> AgentDefView {
    match kind {
        AgentKind::Build => AgentDefView {
            kind,
            name: "build"@,
            description: "Full-access development agent"@,
            default_allowed: seq!["*"@],
            ask_patterns: Seq::empty(),
            system_prompt: BUILD_PROMPT@,
        },
        AgentKind::Plan => AgentDefView {
            kind,
            name: "plan"@,
            description: "Read-only architect for analysis and planning"@,
            default_allowed: seq!["read"@, "glob"@, "grep"@, "webfetch"@, "websearch"@],
            ask_patterns: seq!["write"@, "edit"@, "bash"@, "undo"@],
            system_prompt: PLAN_PROMPT@,
        },
        AgentKind::General => AgentDefView {
            kind,
            name: "general"@,
            description: "General-purpose assistant"@,
            default_allowed: seq!["*"@],
            ask_patterns: Seq::empty(),
            system_prompt: GENERAL_PROMPT@,
        },
    }
}

/// The definition of a kind.
pub fn agent_def_for(kind: AgentKind) -> (r: AgentDef)
    ensures
        r.deep_view() == definition_of(kind),
{
    let r = match kind {
        AgentKind::Build => AgentDef {
            kind: AgentKind::Build,
            name: "build",
            description: "Full-access development agent",
            default_allowed: vec!["*".to_owned()],
            ask_patterns: Vec::new(),
            system_prompt: BUILD_PROMPT.to_owned(),
        },
        AgentKind::Plan => AgentDef {
            kind: AgentKind::Plan,
            name: "plan",
            description: "Read-only architect for analysis and planning",
            default_allowed: vec![
                "read".to_owned(),
                "glob".to_owned(),
                "grep".to_owned(),
                "webfetch".to_owned(),
                "websearch".to_owned(),
            ],
            ask_patterns: vec![
                "write".to_owned(),
                "edit".to_owned(),
                "bash".to_owned(),
                "undo".to_owned(),
            ],
            system_prompt: PLAN_PROMPT.to_owned(),
        },
        AgentKind::General => AgentDef {
            kind: AgentKind::General,
            name: "general",
            description: "General-purpose assistant",
            default_allowed: vec!["*".to_owned()],
            ask_patterns: Vec::new(),
            system_prompt: GENERAL_PROMPT.to_owned(),
        },
    };
    assert(r.default_allowed.deep_view() =~= definition_of(kind).default_allowed);
    assert(r.ask_patterns.deep_view() =~= definition_of(kind).ask_patterns);
    r
}

/// The definitions of all kinds.
pub fn builtin_agents() -> (r: Vec<AgentDef>)
    ensures
        r.deep_view() == seq![
            definition_of(AgentKind::Build),
            definition_of(AgentKind::Plan),
            definition_of(AgentKind::General),
        ],
{
    let r = vec![
        agent_def_for(AgentKind::Build),
        agent_def_for(AgentKind::Plan),
        agent_def_for(AgentKind::General),
    ];
    assert(r.deep_view() =~= seq![
        definition_of(AgentKind::Build),
        definition_of(AgentKind::Plan),
        definition_of(AgentKind::General),
    ]);
    r
}

/// The settings of an agent. The conversation is compacted when it takes more
/// than `compact_threshold_percent` of `max_tokens`.
pub struct AgentConfig {
    pub kind: AgentKind,
    pub max_iterations: u32,
    pub max_tokens: u64,
    pub compact_threshold_percent: u64,
    pub system_prompt: String,
}

impl Default for AgentConfig {
    fn default() -> (r: Self)
        ensures
            r.kind == AgentKind::Build,
            r.max_iterations == 25,
            r.max_tokens == 128_000,
            r.compact_threshold_percent == 75,
            r.system_prompt@ == definition_of(AgentKind::Build).system_prompt,
    {
        let def = agent_def_for(AgentKind::Build);
        AgentConfig {
            kind: AgentKind::Build,
            max_iterations: 25,
            max_tokens: 128_000,
            compact_threshold_percent: 75,
            system_prompt: def.system_prompt,
        }
    }
}

/// What an agent does next.
#[derive(Debug, Clone, Copy, PartialEq, Eq, Structural)]
pub enum AgentAction {
    Continue,
    Stop,
    Compact,
}

/// What a run gives.
pub struct AgentOutput {
    pub text: String,
    pub reasoning: Option<String>,
    pub tool_calls: Vec<ToolCall>,
    pub tool_results: Vec<(String, String, ToolResultValue)>,
    pub finish_reason: FinishReason,
    pub usage: Option<Usage>,
}

/// The contents of an `AgentOutput`.
pub struct OutputView {
    pub text: Seq<char>,
    pub reasoning: Option<Seq<char>>,
    pub tool_calls: Seq<types::ToolCallView>,
    pub tool_results: Seq<(Seq<char>, Seq<char>, types::ResultView)>,
    pub finish_reason: types::FinishView,
    pub usage: Option<Usage>,
}

impl DeepView for AgentOutput {
    type V = OutputView;

    open spec fn deep_view(&self) -> OutputView {
        OutputView {
            text: self.text@,
            reasoning: self.reasoning.deep_view(),
            tool_calls: self.tool_calls.deep_view(),
            tool_results: self.tool_results.deep_view(),
            finish_reason: self.finish_reason.deep_view(),
            usage: self.usage,
        }
    }
}

// ── Summaries ──

/// A text over `max` bytes is cut to what fits, with dots behind it.
pub open spec fn shortened(s: Seq<char>, max: nat) -> Seq<char> {
    if text::byte_len(s) <= max {
        s
    } else {
        text::fit(s, max) + "..."@
    }
}

pub fn truncate_str(s: &str, max: usize) -> (r: String)
    ensures
        r@ == shortened(s@, max as nat),
{
    if text::len_bytes(s) <= max {
        s.to_owned()
    } else {
        text::cat2(text::fitting(s, max).as_str(), "...")
    }
}

/// What stands for an input: its command, path, expression, query or address,
/// the first that is a string; else its own text.
pub open spec fn telling(v: Seq<char>) -> Seq<char> {
    if json::json_str_member(v, "command"@) is Some {
        json::json_str_member(v, "command"@).unwrap()
    } else if json::json_str_member(v, "path"@) is Some {
        json::json_str_member(v, "path"@).unwrap()
    } else if json::json_str_member(v, "expression"@) is Some {
        json::json_str_member(v, "expression"@).unwrap()
    } else if json::json_str_member(v, "query"@) is Some {
        json::json_str_member(v, "query"@).unwrap()
    } else if json::json_str_member(v, "url"@) is Some {
        json::json_str_member(v, "url"@).unwrap()
    } else if json::json_str(v) is Some {
        json::json_str(v).unwrap()
    } else {
        v
    }
}

/// One line for an input, of at most `max` bytes and dots.
pub fn summarize_value(v: &Json, max: usize) -> (r: String)
    ensures
        r@ == shortened(telling(v@), max as nat),
{
    if let Some(s) = v.str_member("command") {
        return truncate_str(s.as_str(), max);
    }
    if let Some(s) = v.str_member("path") {
        return truncate_str(s.as_str(), max);
    }
    if let Some(s) = v.str_member("expression") {
        return truncate_str(s.as_str(), max);
    }
    if let Some(s) = v.str_member("query") {
        return truncate_str(s.as_str(), max);
    }
    if let Some(s) = v.str_member("url") {
        return truncate_str(s.as_str(), max);
    }
    match v.as_str() {
        Some(s) => truncate_str(s.as_str(), max),
        None => truncate_str(v.text.as_str(), max),
    }
}

/// What one part of a tool's output says.
pub open spec fn content_text(c: types::ToolContentView) -> Seq<char> {
    match c {
        types::ToolContentView::Text { text } => text,
        types::ToolContentView::File { uri, .. } => "[File: "@ + uri + "]"@,
    }
}

/// What a tool's output says, part by part.
pub open spec fn output_texts(content: Seq<types::ToolContentView>) -> Seq<Seq<char>> {
    content.map_values(|c: types::ToolContentView| content_text(c))
}

/// The result that stands for a tool's output: its texts, a line each.
pub fn extract_tool_result_value(output: &ToolOutput) -> (r: ToolResultValue)
    ensures
        r.deep_view() == (types::ResultView::Text {
            value: text::joined(output_texts(output.deep_view()), "\n"@),
        }),
{
    let mut texts: Vec<String> = Vec::new();
    let mut i: usize = 0;
    while i < output.content.len()
        invariant
            i <= output.content@.len(),
            texts@.len() == i,
            forall|j: int|
                0 <= j < i ==> (#[trigger] texts@[j])@ == content_text(
                    output.content@[j].deep_view(),
                ),
        decreases output.content@.len() - i,
    {
        let t = match &output.content[i] {
            ToolContent::Text { text } => text.clone(),
            ToolContent::File { uri, .. } => text::cat3("[File: ", uri.as_str(), "]"),
        };
        texts.push(t);
        i = i + 1;
    }
    assert(texts.deep_view() =~= output_texts(output.deep_view()));
    ToolResultValue::Text { value: text::join(&texts, "\n") }
}

// ── Laws ──

/// A text within the limit is kept; of a longer one a start is kept that fills
/// the limit, with dots behind it.
pub proof fn short_texts_are_kept(s: Seq<char>, max: nat)
    ensures
        text::byte_len(s) <= max ==> shortened(s, max) == s,
        text::byte_len(s) > max ==> exists|kept: Seq<char>|
            #![trigger text::byte_len(kept)]
            kept.is_prefix_of(s) && text::byte_len(kept) <= max && max < text::byte_len(kept) + 4
                && shortened(s, max) == kept + "..."@,
{
    if text::byte_len(s) > max {
        text::fit_is_longest(s, max);
        text::fit_is_tight(s, max);
        assert(text::byte_len(text::fit(s, max)) <= max);
    }
}

/// An input is told by its command where it has one, then by its path, its
/// expression, its query or its address; else by its own text.
pub proof fn inputs_are_told(v: Seq<char>, s: Seq<char>)
    ensures
        json::json_str_member(v, "command"@) == Some(s) ==> telling(v) == s,
        json::json_str_member(v, "command"@) is None ==> {
            &&& json::json_str_member(v, "path"@) == Some(s) ==> telling(v) == s
            &&& json::json_str_member(v, "path"@) is None ==> {
                &&& json::json_str_member(v, "expression"@) == Some(s) ==> telling(v) == s
                &&& json::json_str_member(v, "expression"@) is None ==> {
                    &&& json::json_str_member(v, "query"@) == Some(s) ==> telling(v) == s
                    &&& json::json_str_member(v, "query"@) is None ==> {
                        &&& json::json_str_member(v, "url"@) == Some(s) ==> telling(v) == s
                        &&& json::json_str_member(v, "url"@) is None ==> {
                            &&& json::json_str(v) == Some(s) ==> telling(v) == s
                            &&& json::json_str(v) is None ==> telling(v) == v
                        }
                    }
                }
            }
        },
{
}

/// A tool's output is told whole: its texts as they are, its files by their
/// addresses, in order.
pub proof fn outputs_are_told_whole(content: Seq<types::ToolContentView>, i: int)
    requires
        0 <= i < content.len(),
    ensures
        output_texts(content).len() == content.len(),
        match content[i] {
            types::ToolContentView::Text { text } => output_texts(content)[i] == text,
            types::ToolContentView::File { uri, .. } => text::holds(output_texts(content)[i], uri),
        },
        text::holds(text::joined(output_texts(content), "\n"@), output_texts(content)[i]),
        content.len() == 1 ==> text::joined(output_texts(content), "\n"@) == output_texts(
            content,
        )[0],
{
    if let types::ToolContentView::File { uri, .. } = content[i] {
        text::holds_itself(uri);
        text::whole_holds_parts("[File: "@, uri, "]"@, uri);
    }
    text::joined_holds_parts(output_texts(content), "\n"@, i);
}

/// Each kind of agent goes by its own name. A planning agent may use tools that
/// read and search, and has the user asked for those that write, edit, run
/// commands or undo; the others may use everything.
pub proof fn kinds_differ(kind: AgentKind)
    ensures
        definition_of(kind).kind == kind,
        definition_of(kind).name == kind_name(kind),
        kind != AgentKind::Plan ==> definition_of(kind).default_allowed.contains("*"@),
        ({
            let plan = definition_of(AgentKind::Plan);
            &&& forall|name: Seq<char>|
                plan.default_allowed.contains(name) <==> (name == "read"@ || name == "glob"@ || name
                    == "grep"@ || name == "webfetch"@ || name == "websearch"@)
            &&& forall|name: Seq<char>|
                plan.ask_patterns.contains(name) <==> (name == "write"@ || name == "edit"@ || name
                    == "bash"@ || name == "undo"@)
        }),
{
    let plan = definition_of(AgentKind::Plan);
    assert(plan.default_allowed[0] == "read"@ && plan.default_allowed[1] == "glob"@
        && plan.default_allowed[2] == "grep"@ && plan.default_allowed[3] == "webfetch"@
        && plan.default_allowed[4] == "websearch"@);
    assert(plan.ask_patterns[0] == "write"@ && plan.ask_patterns[1] == "edit"@
        && plan.ask_patterns[2] == "bash"@ && plan.ask_patterns[3] == "undo"@);
    if kind != AgentKind::Plan {
        assert(definition_of(kind).default_allowed[0] == "*"@);
    }
}

} // verus!
