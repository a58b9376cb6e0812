//! The program around the agent: its arguments, its commands, and what each
//! kind of agent may do.
use vstd::prelude::*;
use crate::agent;
use crate::agent::{AgentConfig, AgentKind};
use crate::app_state;
use crate::app_state::{AppState, AppView};
use crate::builtin;
use crate::builtin::Builtin;
use crate::export;
use crate::pattern;
use crate::permission;
use crate::permission::DefaultPermissionChecker;
use crate::storage::SessionInfo;
use crate::text;
use crate::tool;
use crate::tool::{BuiltTool, Tool, ToolRegistry};
use crate::tui;
use crate::types;
use crate::types::Message;

verus! {

// ── Arguments ──

/// The kind of agent that a name stands for.
pub open spec fn kind_of(name: Seq<char>) -> Option<AgentKind> {
    if name == "build"@ {
        Some(AgentKind::Build)
    } else if name == "plan"@ {
        Some(AgentKind::Plan)
    } else if name == "general"@ {
        Some(AgentKind::General)
    } else {
        None
    }
}

pub fn parse_agent_kind(name: &str) -> (r: Option<AgentKind>)
    ensures
        r == kind_of(name@),
{
    if text::same(name, "build") {
        Some(AgentKind::Build)
    } else if text::same(name, "plan") {
        Some(AgentKind::Plan)
    } else if text::same(name, "general") {
        Some(AgentKind::General)
    } else {
        None
    }
}

/// The kind that is asked for at `i`; where there is none, or no such kind,
/// the building agent.
pub open spec fn kind_at(args: Seq<Seq<char>>, i: int) -> AgentKind {
    if i < args.len() && kind_of(args[i]) is Some {
        kind_of(args[i]).unwrap()
    } else {
        AgentKind::Build
    }
}

/// The settings after the arguments from `i` on, where `kind` and `new` are
/// those before. The last setting counts.
pub open spec fn settings_from(args: Seq<Seq<char>>, i: int, kind: AgentKind, new: bool) -> (
    AgentKind,
    bool,
)
    decreases args.len() - i + 1,
{
    if i >= args.len() {
        (kind, new)
    } else if args[i] == "--agent"@ || args[i] == "-a"@ {
        settings_from(args, i + 2, kind_at(args, i + 1), new)
    } else if args[i] == "--new"@ || args[i] == "-n"@ {
        settings_from(args, i + 1, kind, true)
    } else {
        settings_from(args, i + 1, kind, new)
    }
}

/// The kind of agent, and whether to begin a new session. The first argument
/// is the name of the program.
pub fn parse_args(args: &Vec<String>) -> (r: (AgentKind, bool))
    ensures
        r == settings_from(args.deep_view(), 1, AgentKind::Build, false),
{
    let ghost all = args.deep_view();
    let mut kind = AgentKind::Build;
    let mut new_session = false;
    let mut i: usize = 1;
    assert(all.len() == args@.len());
    while i < args.len()
        invariant
            1 <= i,
            all == args.deep_view(),
            all.len() == args@.len(),
            settings_from(all, 1, AgentKind::Build, false) == settings_from(
                all,
                i as int,
                kind,
                new_session,
            ),
        decreases args@.len() - i,
    {
        let arg = args[i].as_str();
        assert(all[i as int] == args@[i as int]@);
        if text::same(arg, "--agent") || text::same(arg, "-a") {
            kind = AgentKind::Build;
            if i + 1 < args.len() {
                assert(all[i + 1] == args@[i + 1]@);
                if let Some(k) = parse_agent_kind(args[i + 1].as_str()) {
                    kind = k;
                }
            } else {
                assert(settings_from(all, i + 2, kind, new_session) == (kind, new_session));
                return (kind, new_session);
            }
            i = i + 2;
        } else {
            if text::same(arg, "--new") || text::same(arg, "-n") {
                new_session = true;
            }
            i = i + 1;
        }
    }
    (kind, new_session)
}

// ── Agents ──

/// The names of the built-in tools.
pub open spec fn builtin_names() -> Seq<Seq<char>> {
    seq![
        "read"@,
        "write"@,
        "edit"@,
        "glob"@,
        "grep"@,
        "bash"@,
        "webfetch"@,
        "websearch"@,
        "undo"@,
        "git_commit"@,
        "git_status"@,
        "git_diff"@,
        "git_log"@,
    ]
}

/// The checker of an agent: a planning one is to ask before it changes
/// anything, the others may use every tool. What the user allowed before,
/// `saved`, stays allowed.
pub open spec fn checker_for(kind: AgentKind, saved: Seq<Seq<char>>, approver: bool) -> permission::CheckerView {
    let def = agent::definition_of(kind);
    let base = if kind == AgentKind::Plan {
        permission::agent_checker(def.default_allowed, def.ask_patterns, approver)
    } else {
        permission::CheckerView {
            allowed_tools: permission::with_names(Seq::empty(), builtin_names()),
            ..permission::strict()
        }
    };
    permission::CheckerView {
        allowed_tools: permission::with_names(base.allowed_tools, saved),
        ..base
    }
}

fn allow_all(checker: DefaultPermissionChecker, names: &Vec<String>) -> (r: DefaultPermissionChecker)
    ensures
        r.deep_view() == (permission::CheckerView {
            allowed_tools: permission::with_names(
                checker.deep_view().allowed_tools,
                names.deep_view(),
            ),
            ..checker.deep_view()
        }),
{
    let ghost all = names.deep_view();
    let ghost first = checker.deep_view();
    let mut c = checker;
    let mut i: usize = 0;
    while i < names.len()
        invariant
            i <= names@.len(),
            all == names.deep_view(),
            c.deep_view() == (permission::CheckerView {
                allowed_tools: permission::with_names(first.allowed_tools, all.take(i as int)),
                ..first
            }),
        decreases names@.len() - i,
    {
        assert(all.take(i + 1).drop_last() =~= all.take(i as int));
        assert(all[i as int] == names@[i as int]@);
        c = c.allow_tool(names[i].as_str());
        i = i + 1;
    }
    assert(all.take(i as int) =~= all);
    c
}

fn all_names() -> (r: Vec<String>)
    ensures
        r.deep_view() == builtin_names(),
{
    let r: Vec<String> = vec![
        "read".to_owned(),
        "write".to_owned(),
        "edit".to_owned(),
        "glob".to_owned(),
        "grep".to_owned(),
        "bash".to_owned(),
        "webfetch".to_owned(),
        "websearch".to_owned(),
        "undo".to_owned(),
        "git_commit".to_owned(),
        "git_status".to_owned(),
        "git_diff".to_owned(),
        "git_log".to_owned(),
    ];
    assert(r.deep_view() =~= builtin_names());
    r
}

proof fn lemma_register_fresh<H>(more: Seq<BuiltTool<H>>)
    requires
        tool::names_differ(more),
    ensures
        tool::registered_all(Seq::empty(), more) == more,
    decreases more.len(),
{
    if more.len() > 0 {
        let rest = more.drop_last();
        assert forall|i: int, j: int| 0 <= i < j < rest.len() implies (#[trigger] rest[i]).name@ != (
        #[trigger] rest[j]).name@ by {
            assert(rest[i] == more[i]);
            assert(rest[j] == more[j]);
        }
        lemma_register_fresh(rest);
        lemma_absent(rest, more.last().name@);
        assert(rest.push(more.last()) =~= more);
    } else {
        assert(more =~= Seq::<BuiltTool<H>>::empty());
    }
}

proof fn lemma_absent<H>(tools: Seq<BuiltTool<H>>, name: Seq<char>)
    requires
        forall|i: int| 0 <= i < tools.len() ==> (#[trigger] tools[i]).name@ != name,
    ensures
        tool::position(tools, name) is None,
    decreases tools.len(),
{
    if tools.len() > 0 {
        let rest = tools.drop_first();
        assert forall|i: int| 0 <= i < rest.len() implies (#[trigger] rest[i]).name@ != name by {
            assert(rest[i] == tools[i + 1]);
        }
        lemma_absent(rest, name);
    }
}

/// The tools of an agent, with the checker that admits their calls. `saved`
/// are the tools that the user allowed before; `approver` says whether the
/// user can be asked.
pub fn build_registry(kind: AgentKind, saved: &Vec<String>, approver: bool) -> (r: ToolRegistry<
    Builtin,
>)
    ensures
        r.wf(),
        r.tools@.len() == builtin::builtins().len(),
        forall|i: int|
            0 <= i < r.tools@.len() ==> (#[trigger] r.tools@[i]).handler == builtin::builtins()[i]
                && r.tools@[i].described() == builtin::description_of(builtin::builtins()[i]),
        r.permission_checker matches Some(c) && c.deep_view() == checker_for(
            kind,
            saved.deep_view(),
            approver,
        ),
{
    let mut registry: ToolRegistry<Builtin> = ToolRegistry::new();
    let tools = builtin::all_tools();
    proof {
        lemma_register_fresh(tools@);
        assert(registry.tools@ =~= Seq::<BuiltTool<Builtin>>::empty());
    }
    registry.register_many(tools);
    let checker = if matches!(kind, AgentKind::Plan) {
        let def = agent::agent_def_for(kind);
        DefaultPermissionChecker::from_agent(&def.default_allowed, &def.ask_patterns, approver)
    } else {
        allow_all(DefaultPermissionChecker::new(), &all_names())
    };
    let checker = allow_all(checker, saved);
    registry.with_permission_checker(checker)
}

/// What an agent is told of the directory that it works in.
pub open spec fn workspace_note(dir: Seq<char>) -> Seq<char> {
    "\n\nWORKSPACE:\n- Working directory: "@ + dir
        + "\n- Use paths RELATIVE to this directory (e.g. Cargo.toml, src/main.rs, GOALS.md)\n- Do NOT guess absolute paths under other folders\n- Prefer `glob` first if unsure where files are"@
}

/// The settings of an agent that works in a directory.
pub fn agent_config(kind: AgentKind, workspace_dir: &str) -> (r: AgentConfig)
    ensures
        r.kind == kind,
        r.max_iterations == 25,
        r.max_tokens == 128_000,
        r.compact_threshold_percent == 75,
        r.system_prompt@ == agent::definition_of(kind).system_prompt + workspace_note(
            workspace_dir@,
        ),
{
    let def = agent::agent_def_for(kind);
    let note = text::cat3(
        "\n\nWORKSPACE:\n- Working directory: ",
        workspace_dir,
        "\n- Use paths RELATIVE to this directory (e.g. Cargo.toml, src/main.rs, GOALS.md)\n- Do NOT guess absolute paths under other folders\n- Prefer `glob` first if unsure where files are",
    );
    AgentConfig {
        kind,
        max_iterations: 25,
        max_tokens: 128_000,
        compact_threshold_percent: 75,
        system_prompt: text::cat2(def.system_prompt.as_str(), note.as_str()),
    }
}

// ── Sessions ──

/// The session to go on with: the first there is, unless a new one is asked
/// for. With it comes whether it has messages.
pub fn choose_session(force_new: bool, sessions: &Option<Vec<SessionInfo>>) -> (r: Option<
    (String, bool),
>)
    ensures
        match r {
            Some((id, has_messages)) => !force_new && sessions is Some && sessions->0@.len() > 0
                && id@ == sessions->0@[0].id@ && has_messages == (sessions->0@[0].message_count > 0),
            None => force_new || sessions is None || sessions->0@.len() == 0,
        },
{
    if force_new {
        return None;
    }
    match sessions {
        Some(s) => if s.len() == 0 {
            None
        } else {
            Some((s[0].id.clone(), s[0].message_count > 0))
        },
        None => None,
    }
}

/// The messages of the transcript that a stored message gives: each text of
/// the user, and the text of a reply unless it is empty.
pub open spec fn restored_message(m: types::MessageView) -> Seq<tui::ChatView> {
    match m {
        types::MessageView::User { content, .. } => tui::user_texts(content),
        types::MessageView::Assistant { content, .. } => if types::reply_text(content).len() == 0 {
            Seq::empty()
        } else {
            seq![tui::text_message("assistant"@, types::reply_text(content))]
        },
        _ => Seq::empty(),
    }
}

/// The messages of the transcript that stored messages give.
pub open spec fn restored_messages(ms: Seq<types::MessageView>) -> Seq<tui::ChatView>
    decreases ms.len(),
{
    if ms.len() == 0 {
        Seq::empty()
    } else {
        restored_messages(ms.drop_last()) + restored_message(ms.last())
    }
}

/// Whether one of the messages shows what the user said.
pub open spec fn user_speaks(ms: Seq<types::MessageView>) -> bool
    decreases ms.len(),
{
    ms.len() > 0 && (user_speaks(ms.drop_last()) || (ms.last() is User && restored_message(
        ms.last(),
    ).len() > 0))
}

/// Shows the messages of a stored session.
pub fn restore_messages(state: &mut AppState, messages: &Vec<Message>)
    ensures
        final(state).deep_view() == (AppView {
            messages: old(state).deep_view().messages + restored_messages(messages.deep_view()),
            scroll: if user_speaks(messages.deep_view()) {
                usize::MAX
            } else {
                old(state).scroll
            },
            ..old(state).deep_view()
        }),
{
    let ghost first = state.deep_view();
    let ghost all = messages.deep_view();
    let mut i: usize = 0;
    assert(first.messages + Seq::<tui::ChatView>::empty() =~= first.messages);
    while i < messages.len()
        invariant
            i <= messages@.len(),
            all == messages.deep_view(),
            state.deep_view() == (AppView {
                messages: first.messages + restored_messages(all.take(i as int)),
                scroll: if user_speaks(all.take(i as int)) {
                    usize::MAX
                } else {
                    first.scroll
                },
                ..first
            }),
        decreases messages@.len() - i,
    {
        assert(all.take(i + 1).drop_last() =~= all.take(i as int));
        assert(all[i as int] == messages@[i as int].deep_view());
        let ghost held = state.deep_view().messages;
        match &messages[i] {
            Message::User { content, .. } => {
                let before: usize = state.messages.len();
                assert(state.messages.deep_view().len() == before);
                tui::push_user_texts(&mut state.messages, content);
                assert(state.messages.deep_view().len() == state.messages@.len());
                if state.messages.len() > before {
                    state.scroll = usize::MAX;
                }
            },
            Message::Assistant { content, .. } => {
                let s = types::text_of_parts(content);
                if !s.as_str().is_empty() {
                    tui::push_message(
                        &mut state.messages,
                        tui::make_text_message("assistant", s.as_str()),
                    );
                }
            },
            _ => {},
        }
        assert(state.messages.deep_view() =~= first.messages + restored_messages(all.take(i + 1)));
        i = i + 1;
    }
    assert(all.take(i as int) =~= all);
}

// ── Commands ──

/// A command of the user.
#[derive(Debug, Clone, Copy, PartialEq, Eq, Structural)]
pub enum Command {
    Quit,
    Help,
    Copy { all: bool },
    Thinking,
    New,
    Agent { kind: AgentKind },
    AgentUsage,
    Unknown,
}

/// The word at `i` of a command, empty where there is none.
pub open spec fn word_at(input: Seq<char>, i: int) -> Seq<char> {
    if i < text::words(input).len() {
        text::words(input)[i]
    } else {
        ""@
    }
}

/// The command that a line stands for.
pub open spec fn command_of(input: Seq<char>) -> Command {
    let cmd = word_at(input, 0);
    if cmd == "/quit"@ || cmd == "/exit"@ || cmd == "/q"@ {
        Command::Quit
    } else if cmd == "/help"@ {
        Command::Help
    } else if cmd == "/copy"@ {
        Command::Copy { all: word_at(input, 1) == "all"@ }
    } else if cmd == "/thinking"@ {
        Command::Thinking
    } else if cmd == "/new"@ || cmd == "/clear"@ {
        Command::New
    } else if cmd == "/agent"@ {
        match kind_of(word_at(input, 1)) {
            Some(kind) => Command::Agent { kind },
            None => Command::AgentUsage,
        }
    } else {
        Command::Unknown
    }
}

fn read_word(input: &str, i: usize) -> (r: String)
    ensures
        r@ == word_at(input@, i as int),
{
    let words = text::words_of(input);
    assert(words.deep_view().len() == words@.len());
    if i < words.len() {
        assert(words.deep_view()[i as int] == words@[i as int]@);
        words[i].clone()
    } else {
        "".to_owned()
    }
}

pub fn parse_command(input: &str) -> (r: Command)
    ensures
        r == command_of(input@),
{
    let first = read_word(input, 0);
    let second = read_word(input, 1);
    let cmd = first.as_str();
    if text::same(cmd, "/quit") || text::same(cmd, "/exit") || text::same(cmd, "/q") {
        Command::Quit
    } else if text::same(cmd, "/help") {
        Command::Help
    } else if text::same(cmd, "/copy") {
        Command::Copy { all: text::same(second.as_str(), "all") }
    } else if text::same(cmd, "/thinking") {
        Command::Thinking
    } else if text::same(cmd, "/new") || text::same(cmd, "/clear") {
        Command::New
    } else if text::same(cmd, "/agent") {
        match parse_agent_kind(second.as_str()) {
            Some(kind) => Command::Agent { kind },
            None => Command::AgentUsage,
        }
    } else {
        Command::Unknown
    }
}

/// What is to be done for a command.
pub enum CommandAction {
    Nothing,
    Quit,
    /// Copy the text, or say why there is none.
    Copy { copy: Result<String, String> },
    /// Begin a new session.
    NewSession,
    /// Go on with another kind of agent.
    SwitchAgent { kind: AgentKind },
}

/// The contents of a `CommandAction`.
pub enum CommandActionView {
    Nothing,
    Quit,
    Copy { copy: Result<Seq<char>, Seq<char>> },
    NewSession,
    SwitchAgent { kind: AgentKind },
}

impl DeepView for CommandAction {
    type V = CommandActionView;

    open spec fn deep_view(&self) -> CommandActionView {
        match *self {
            CommandAction::Nothing => CommandActionView::Nothing,
            CommandAction::Quit => CommandActionView::Quit,
            CommandAction::Copy { copy } => CommandActionView::Copy {
                copy: export::copy_view(copy),
            },
            CommandAction::NewSession => CommandActionView::NewSession,
            CommandAction::SwitchAgent { kind } => CommandActionView::SwitchAgent { kind },
        }
    }
}

pub const COMMANDS: &'static str = "/quit · /new · /copy · /copy all · /agent build|plan|general · /thinking · Ctrl+Y";

/// The state after the system said something.
pub open spec fn told(a: AppView, s: Seq<char>) -> AppView {
    AppView {
        messages: a.messages.push(tui::text_message("system"@, s)),
        scroll: usize::MAX,
        ..a
    }
}

/// What a command does.
pub open spec fn command_step(a: AppView, input: Seq<char>) -> (AppView, CommandActionView) {
    match command_of(input) {
        Command::Quit => (a, CommandActionView::Quit),
        Command::Help => (told(a, COMMANDS@), CommandActionView::Nothing),
        Command::Copy { all } => (
            a,
            CommandActionView::Copy {
                copy: export::copyable(
                    if all {
                        Some(export::conversation_text(a))
                    } else {
                        export::current_reply(a)
                    },
                ),
            },
        ),
        Command::Thinking => (
            told(
                AppView { show_reasoning: !a.show_reasoning, ..a },
                if a.show_reasoning {
                    "Thinking blocks hidden."@
                } else {
                    "Thinking blocks visible."@
                },
            ),
            CommandActionView::Nothing,
        ),
        Command::New => (a, CommandActionView::NewSession),
        Command::Agent { kind } => (
            AppView { agent_kind: agent::kind_name(kind), ..a },
            CommandActionView::SwitchAgent { kind },
        ),
        Command::AgentUsage => (
            told(a, "Usage: /agent build|plan|general"@),
            CommandActionView::Nothing,
        ),
        Command::Unknown => (
            told(a, "Unknown: "@ + word_at(input, 0) + ". Try /help"@),
            CommandActionView::Nothing,
        ),
    }
}

/// Carries out a command as far as it concerns the interface, and says what
/// else is to be done.
pub fn handle_slash_command(state: &mut AppState, input: &str) -> (r: CommandAction)
    ensures
        (final(state).deep_view(), r.deep_view()) == command_step(old(state).deep_view(), input@),
{
    match parse_command(input) {
        Command::Quit => CommandAction::Quit,
        Command::Help => {
            state.add_system_message(COMMANDS);
            CommandAction::Nothing
        },
        Command::Copy { all } => {
            let copy = if all {
                state.copy_conversation()
            } else {
                state.copy_last_assistant()
            };
            CommandAction::Copy { copy }
        },
        Command::Thinking => {
            let said = if state.show_reasoning {
                "Thinking blocks hidden."
            } else {
                "Thinking blocks visible."
            };
            state.show_reasoning = !state.show_reasoning;
            state.add_system_message(said);
            CommandAction::Nothing
        },
        Command::New => CommandAction::NewSession,
        Command::Agent { kind } => {
            state.agent_kind = kind.name().to_owned();
            CommandAction::SwitchAgent { kind }
        },
        Command::AgentUsage => {
            state.add_system_message("Usage: /agent build|plan|general");
            CommandAction::Nothing
        },
        Command::Unknown => {
            let said = text::cat3("Unknown: ", read_word(input, 0).as_str(), ". Try /help");
            state.add_system_message(said.as_str());
            CommandAction::Nothing
        },
    }
}

/// Shows a new session.
pub fn show_new_session(state: &mut AppState, id: &str)
    requires
        app_state::can_shorten(id@),
    ensures
        final(state).deep_view() == told(
            AppView {
                messages: Seq::empty(),
                session_label: app_state::label_of(id@),
                ..old(state).deep_view()
            },
            "New session."@,
        ),
{
    state.messages = Vec::new();
    assert(state.messages.deep_view() =~= Seq::<tui::ChatView>::empty());
    state.session_label = app_state::session_label(id);
    state.add_system_message("New session.");
}

/// Shows in which session the agent works.
pub fn show_session(state: &mut AppState, id: &str)
    requires
        app_state::can_shorten(id@),
    ensures
        final(state).deep_view() == (AppView {
            session_label: app_state::label_of(id@),
            ..old(state).deep_view()
        }),
{
    state.session_label = app_state::session_label(id);
}

/// Says that another kind of agent goes on.
pub fn show_switched(state: &mut AppState, kind: AgentKind)
    ensures
        final(state).deep_view() == told(
            old(state).deep_view(),
            "Switched to "@ + agent::kind_name(kind) + " mode."@,
        ),
{
    let said = text::cat3("Switched to ", kind.name(), " mode.");
    state.add_system_message(said.as_str());
}

// ── Laws ──

proof fn lemma_with_names(names: Seq<Seq<char>>, more: Seq<Seq<char>>, name: Seq<char>)
    ensures
        permission::with_names(names, more).contains(name) <==> names.contains(name) || more.contains(
            name,
        ),
    decreases more.len(),
{
    permission::names_are_added(names, more, name);
}

/// Building and general agents may use every built-in tool without asking.
pub proof fn full_agents_may_use_all(
    kind: AgentKind,
    saved: Seq<Seq<char>>,
    approver: bool,
    i: int,
    approved: bool,
)
    requires
        kind != AgentKind::Plan,
        0 <= i < builtin_names().len(),
    ensures
        permission::refusal(checker_for(kind, saved, approver), builtin_names()[i], approved) is None,
{
    let name = builtin_names()[i];
    lemma_with_names(Seq::empty(), builtin_names(), name);
    lemma_with_names(permission::with_names(Seq::empty(), builtin_names()), saved, name);
}

/// A planning agent does nothing without approval but read and search, and
/// what the user allowed before.
pub proof fn planning_needs_approval(saved: Seq<Seq<char>>, approver: bool, name: Seq<char>)
    requires
        !agent::definition_of(AgentKind::Plan).default_allowed.contains(name),
        !saved.contains(name),
    ensures
        permission::refusal(checker_for(AgentKind::Plan, saved, approver), name, false) is Some,
{
    let def = agent::definition_of(AgentKind::Plan);
    lemma_plan_has_no_star();
    lemma_with_names(Seq::empty(), def.default_allowed, name);
    lemma_with_names(permission::with_names(Seq::empty(), def.default_allowed), saved, name);
    assert(!Seq::<Seq<char>>::empty().contains(name));
}

/// What the user allowed before stays allowed.
pub proof fn approvals_last(kind: AgentKind, saved: Seq<Seq<char>>, approver: bool, i: int, approved: bool)
    requires
        0 <= i < saved.len(),
    ensures
        permission::refusal(checker_for(kind, saved, approver), saved[i], approved) is None,
{
    let c = checker_for(kind, saved, approver);
    let base = if kind == AgentKind::Plan {
        permission::agent_checker(
            agent::definition_of(kind).default_allowed,
            agent::definition_of(kind).ask_patterns,
            approver,
        ).allowed_tools
    } else {
        permission::with_names(Seq::empty(), builtin_names())
    };
    lemma_with_names(base, saved, saved[i]);
    assert(saved.contains(saved[i]));
}

proof fn lemma_plan_has_no_star()
    ensures
        !agent::definition_of(AgentKind::Plan).default_allowed.contains("*"@),
{
    reveal_strlit("*");
    reveal_strlit("read");
    reveal_strlit("glob");
    reveal_strlit("grep");
    reveal_strlit("webfetch");
    reveal_strlit("websearch");
    let allowed = agent::definition_of(AgentKind::Plan).default_allowed;
    assert forall|i: int| 0 <= i < allowed.len() implies #[trigger] allowed[i] != "*"@ by {
        assert(allowed[i].len() >= 4);
        assert("*"@.len() == 1);
    }
}

/// A kind of agent is asked for by its name, and by no other.
pub proof fn kinds_go_by_their_names(kind: AgentKind, name: Seq<char>)
    ensures
        kind_of(agent::kind_name(kind)) == Some(kind),
        kind_of(name) == Some(kind) <==> name == agent::kind_name(kind),
        kind_of(name) is None <==> forall|k: AgentKind| name != #[trigger] agent::kind_name(k),
{
    reveal_strlit("build");
    reveal_strlit("plan");
    reveal_strlit("general");
    assert("build"@.len() == 5 && "plan"@.len() == 4 && "general"@.len() == 7);
    assert(agent::kind_name(AgentKind::Build) == "build"@);
    assert(agent::kind_name(AgentKind::Plan) == "plan"@);
    assert(agent::kind_name(AgentKind::General) == "general"@);
}

/// Whether an argument asks for a kind of agent.
pub open spec fn asks_for_kind(arg: Seq<char>) -> bool {
    arg == "--agent"@ || arg == "-a"@
}

/// Whether an argument asks for a new session.
pub open spec fn asks_for_new(arg: Seq<char>) -> bool {
    arg == "--new"@ || arg == "-n"@
}

proof fn lemma_flags_differ(arg: Seq<char>)
    ensures
        !(asks_for_kind(arg) && asks_for_new(arg)),
{
    reveal_strlit("--agent");
    reveal_strlit("-a");
    reveal_strlit("--new");
    reveal_strlit("-n");
    assert("--agent"@.len() == 7 && "-a"@.len() == 2 && "--new"@.len() == 5 && "-n"@.len() == 2);
    assert("-a"@[1] == 'a' && "-n"@[1] == 'n');
}

/// Without an argument that asks for a kind the kind stays as it was, and a new
/// session is begun exactly where an argument asks for one.
pub proof fn new_sessions_are_asked_for(args: Seq<Seq<char>>, i: int, kind: AgentKind, new: bool)
    requires
        0 <= i,
        forall|j: int| i <= j < args.len() ==> !asks_for_kind(#[trigger] args[j]),
    ensures
        settings_from(args, i, kind, new).0 == kind,
        settings_from(args, i, kind, new).1 <==> new || exists|j: int|
            i <= j < args.len() && asks_for_new(#[trigger] args[j]),
    decreases args.len() - i,
{
    if i < args.len() {
        lemma_flags_differ(args[i]);
        if asks_for_new(args[i]) {
            new_sessions_are_asked_for(args, i + 1, kind, true);
        } else {
            new_sessions_are_asked_for(args, i + 1, kind, new);
        }
    }
}

/// The kind that is asked for last counts, and asking for a new session is not
/// taken back.
pub proof fn the_last_kind_counts(
    args: Seq<Seq<char>>,
    i: int,
    kind: AgentKind,
    new: bool,
    asked: AgentKind,
)
    requires
        0 <= i,
        i + 1 < args.len(),
        asks_for_kind(args[i]),
        args[i + 1] == agent::kind_name(asked),
        forall|j: int| i + 2 <= j < args.len() ==> !asks_for_kind(#[trigger] args[j]),
    ensures
        settings_from(args, i, kind, new).0 == asked,
        settings_from(args, i, kind, true).1,
{
    kinds_go_by_their_names(asked, args[i + 1]);
    new_sessions_are_asked_for(args, i + 2, asked, new);
    new_sessions_are_asked_for(args, i + 2, asked, true);
}

/// Arguments that are not known change nothing.
pub proof fn other_arguments_are_skipped(args: Seq<Seq<char>>, i: int, kind: AgentKind, new: bool)
    requires
        0 <= i < args.len(),
        !asks_for_kind(args[i]),
        !asks_for_new(args[i]),
    ensures
        settings_from(args, i, kind, new) == settings_from(args, i + 1, kind, new),
{
}

/// The names that building and general agents may use are those of the built-in
/// tools.
pub proof fn builtins_are_named(i: int)
    requires
        0 <= i < builtin::builtins().len(),
    ensures
        builtin_names().len() == builtin::builtins().len(),
        builtin_names()[i] == builtin::description_of(builtin::builtins()[i]).name,
{
}

/// A planning agent reads and searches without asking; with the user's consent
/// it may also write, edit, run commands and undo.
pub proof fn planning_agents_read_and_ask(saved: Seq<Seq<char>>, name: Seq<char>, approved: bool)
    ensures
        name == "read"@ || name == "glob"@ || name == "grep"@ || name == "webfetch"@ || name
            == "websearch"@ ==> permission::refusal(
            checker_for(AgentKind::Plan, saved, true),
            name,
            approved,
        ) is None,
        (name == "write"@ || name == "edit"@ || name == "bash"@ || name == "undo"@)
            && pattern::wildcard(name, name) && !saved.contains(name) ==> (permission::refusal(
            checker_for(AgentKind::Plan, saved, true),
            name,
            approved,
        ) is None <==> approved),
{
    let def = agent::definition_of(AgentKind::Plan);
    let c = checker_for(AgentKind::Plan, saved, true);
    let none = Seq::<Seq<char>>::empty();
    agent::kinds_differ(AgentKind::Plan);
    lemma_plan_has_no_star();
    permission::names_are_added(none, def.default_allowed, name);
    permission::names_are_added(permission::with_names(none, def.default_allowed), saved, name);
    permission::first_match_is_first(c.allowed_patterns, name);
    permission::first_match_is_first(c.ask_patterns, name);
    permission::first_rule_is_first(c.rules, name);
    assert(!none.contains(name));
    reveal_strlit("read");
    reveal_strlit("glob");
    reveal_strlit("grep");
    reveal_strlit("webfetch");
    reveal_strlit("websearch");
    reveal_strlit("write");
    reveal_strlit("edit");
    reveal_strlit("bash");
    reveal_strlit("undo");
    assert("read"@[0] == 'r' && "glob"@[0] == 'g' && "grep"@[0] == 'g');
    assert("webfetch"@.len() == 8 && "websearch"@.len() == 9 && "write"@.len() == 5);
    assert("edit"@[0] == 'e' && "bash"@[0] == 'b' && "undo"@[0] == 'u');
    assert("read"@.len() == 4 && "glob"@.len() == 4 && "grep"@.len() == 4);
    if name == "write"@ || name == "edit"@ || name == "bash"@ || name == "undo"@ {
        assert(c.ask_patterns.contains(name));
        let k = choose|k: int| 0 <= k < c.ask_patterns.len() && c.ask_patterns[k] == name;
        assert(pattern::wildcard(c.ask_patterns[k], name) == pattern::wildcard(name, name));
    }
}

/// An agent is told all of what its kind is told, and the directory that it
/// works in.
pub proof fn workspaces_are_named(dir: Seq<char>)
    ensures
        text::holds(workspace_note(dir), dir),
{
    let tail =
        "\n- Use paths RELATIVE to this directory (e.g. Cargo.toml, src/main.rs, GOALS.md)\n- Do NOT guess absolute paths under other folders\n- Prefer `glob` first if unsure where files are"@;
    text::holds_itself(dir);
    text::whole_holds_parts("\n\nWORKSPACE:\n- Working directory: "@, dir, tail, dir);
}

/// A stored session is shown message by message in order: what the user said,
/// text by text, and each reply that says something.
pub proof fn stored_messages_are_shown_in_order(
    a: Seq<types::MessageView>,
    b: Seq<types::MessageView>,
    m: types::MessageView,
)
    ensures
        restored_messages(a + b) == restored_messages(a) + restored_messages(b),
        restored_messages(seq![m]) == restored_message(m),
        m matches types::MessageView::Assistant { content, .. } ==> (types::reply_text(
            content,
        ).len() > 0 ==> restored_message(m) == seq![
            tui::text_message("assistant"@, types::reply_text(content)),
        ]) && (types::reply_text(content).len() == 0 ==> restored_message(m).len() == 0),
        m matches types::MessageView::User { content, .. } ==> restored_message(m)
            == tui::user_texts(content),
        m is System || m is Tool ==> restored_message(m).len() == 0,
    decreases b.len(),
{
    let none = Seq::<types::MessageView>::empty();
    assert(seq![m].drop_last() =~= none);
    assert(restored_messages(none) =~= Seq::<tui::ChatView>::empty());
    assert(restored_messages(seq![m]) =~= restored_message(m));
    if b.len() == 0 {
        assert(a + b =~= a);
        assert(restored_messages(a) + restored_messages(b) =~= restored_messages(a));
    } else {
        stored_messages_are_shown_in_order(a, b.drop_last(), m);
        assert((a + b).drop_last() =~= a + b.drop_last());
        assert(restored_messages(a + b) =~= restored_messages(a) + restored_messages(b));
    }
}

/// The user speaks in messages exactly where one of the user's shows something.
pub proof fn the_user_speaks(ms: Seq<types::MessageView>)
    ensures
        user_speaks(ms) <==> exists|i: int|
            0 <= i < ms.len() && (#[trigger] ms[i]) is User && restored_message(ms[i]).len() > 0,
    decreases ms.len(),
{
    if ms.len() > 0 {
        let rest = ms.drop_last();
        the_user_speaks(rest);
        assert(ms[ms.len() - 1] == ms.last());
        if user_speaks(rest) {
            let i = choose|i: int|
                0 <= i < rest.len() && (#[trigger] rest[i]) is User && restored_message(
                    rest[i],
                ).len() > 0;
            assert(ms[i] == rest[i]);
        }
        if exists|i: int|
            0 <= i < ms.len() && (#[trigger] ms[i]) is User && restored_message(ms[i]).len() > 0 {
            let i = choose|i: int|
                0 <= i < ms.len() && (#[trigger] ms[i]) is User && restored_message(ms[i]).len() > 0;
            if i < rest.len() {
                assert(rest[i] == ms[i]);
            }
        }
    }
}

/// Each command goes by its words, and a line that is none of them is unknown.
pub proof fn commands_go_by_their_words(input: Seq<char>)
    requires
        text::words(input).len() > 0,
    ensures
        ({
            let first = text::words(input)[0];
            let second = if text::words(input).len() > 1 {
                text::words(input)[1]
            } else {
                Seq::empty()
            };
            let c = command_of(input);
            &&& c is Quit <==> first == "/quit"@ || first == "/exit"@ || first == "/q"@
            &&& c is Help <==> first == "/help"@
            &&& c == (Command::Copy { all: true }) <==> first == "/copy"@ && second == "all"@
            &&& c == (Command::Copy { all: false }) <==> first == "/copy"@ && second != "all"@
            &&& c is Thinking <==> first == "/thinking"@
            &&& c is New <==> first == "/new"@ || first == "/clear"@
            &&& forall|kind: AgentKind|
                c == (Command::Agent { kind }) <==> first == "/agent"@ && second
                    == #[trigger] agent::kind_name(kind)
            &&& c is AgentUsage ==> first == "/agent"@
        }),
{
    reveal_strlit("/quit");
    reveal_strlit("/exit");
    reveal_strlit("/q");
    reveal_strlit("/help");
    reveal_strlit("/copy");
    reveal_strlit("/thinking");
    reveal_strlit("/new");
    reveal_strlit("/clear");
    reveal_strlit("/agent");
    reveal_strlit("all");
    reveal_strlit("");
    let first = text::words(input)[0];
    let second = if text::words(input).len() > 1 {
        text::words(input)[1]
    } else {
        Seq::empty()
    };
    assert(word_at(input, 0) == first);
    assert(word_at(input, 1) =~= second);
    assert("all"@.len() == 3);
    assert("/quit"@[1] == 'q' && "/exit"@[1] == 'e' && "/q"@[1] == 'q' && "/help"@[1] == 'h');
    assert("/copy"@[1] == 'c' && "/thinking"@[1] == 't' && "/new"@[1] == 'n' && "/clear"@[1] == 'c');
    assert("/agent"@[1] == 'a' && "/copy"@[2] == 'o' && "/clear"@[2] == 'l');
    assert forall|kind: AgentKind|
        command_of(input) == (Command::Agent { kind }) <==> first == "/agent"@ && second
            == #[trigger] agent::kind_name(kind) by {
        kinds_go_by_their_names(kind, second);
    }
}

/// A command loses nothing that is shown: what was shown stays, at most one
/// message of the system follows it, and what is typed stays as it is.
pub proof fn commands_lose_nothing(a: AppView, input: Seq<char>)
    ensures
        ({
            let (b, _) = command_step(a, input);
            &&& a.messages.is_prefix_of(b.messages)
            &&& b.messages.len() <= a.messages.len() + 1
            &&& b.messages.len() == a.messages.len() + 1 ==> b.messages.last().role == "system"@
                && b.scroll == usize::MAX
            &&& b.input == a.input
            &&& b.session_label == a.session_label
            &&& b.thinking == a.thinking
        }),
{
    let b = command_step(a, input).0;
    assert(b.messages.subrange(0, a.messages.len() as int) =~= a.messages);
}

/// What a command does: it quits, begins a session or switches agents exactly
/// where it says so, copies the whole conversation or the last reply, and
/// turns the reasoning on and off.
pub proof fn commands_do_what_they_say(a: AppView, input: Seq<char>)
    ensures
        ({
            let (b, action) = command_step(a, input);
            let c = command_of(input);
            &&& action is Quit <==> c is Quit
            &&& action is NewSession <==> c is New
            &&& c matches Command::Agent { kind } ==> action == (CommandActionView::SwitchAgent {
                kind,
            }) && b.agent_kind == agent::kind_name(kind)
            &&& !(c is Agent) ==> !(action is SwitchAgent) && b.agent_kind == a.agent_kind
            &&& c == (Command::Copy { all: true }) ==> action == (CommandActionView::Copy {
                copy: export::copyable(Some(export::conversation_text(a))),
            })
            &&& c == (Command::Copy { all: false }) ==> action == (CommandActionView::Copy {
                copy: export::copyable(export::current_reply(a)),
            })
            &&& c is Thinking <==> b.show_reasoning != a.show_reasoning
            &&& c is Help || c is Thinking || c is AgentUsage || c is Unknown <==> b.messages.len()
                == a.messages.len() + 1
        }),
{
}

} // verus!
