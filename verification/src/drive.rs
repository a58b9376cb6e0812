//! A turn of an agent, event by event.
//!
//! Whoever drives a turn carries out what comes back and hands in what
//! happened; the order of things is decided here.
use vstd::prelude::*;
use crate::agent;
use crate::agent::{AgentOutput, ProgressEvent};
use crate::context;
use crate::ids;
use crate::run;
use crate::run::{Agent, Prompt, Round, RoundEnd, Run, Step};
use crate::text;
use crate::tool::ToolResult;
use crate::types;
use crate::types::{LlmEvent, Message, ToolCall, ToolOutput};

verus! {

/// What a turn waits for.
pub enum Phase {
    /// The next step is to be decided.
    Ready,
    /// A reply is coming in.
    Listening { round: Round },
    /// Tool calls are carried out; `ok` says which of the first ones worked.
    Acting { calls: Vec<ToolCall>, ok: Vec<bool> },
    /// A summary is coming in.
    Summarizing { summary: String },
    /// A session is being made for the summary.
    Branching { summary: String },
    /// The last reply is coming in.
    Concluding { text: String, reasoning: String },
    Ended,
}

/// The contents of a `Phase`.
pub enum PhaseView {
    Ready,
    Listening { round: run::RoundView },
    Acting { calls: Seq<types::ToolCallView>, ok: Seq<bool> },
    Summarizing { summary: Seq<char> },
    Branching { summary: Seq<char> },
    Concluding { text: Seq<char>, reasoning: Seq<char> },
    Ended,
}

impl DeepView for Phase {
    type V = PhaseView;

    open spec fn deep_view(&self) -> PhaseView {
        match *self {
            Phase::Ready => PhaseView::Ready,
            Phase::Listening { round } => PhaseView::Listening { round: round.deep_view() },
            Phase::Acting { calls, ok } => PhaseView::Acting { calls: calls.deep_view(), ok: ok@ },
            Phase::Summarizing { summary } => PhaseView::Summarizing { summary: summary@ },
            Phase::Branching { summary } => PhaseView::Branching { summary: summary@ },
            Phase::Concluding { text, reasoning } => PhaseView::Concluding {
                text: text@,
                reasoning: reasoning@,
            },
            Phase::Ended => PhaseView::Ended,
        }
    }
}

/// A turn: how far its run has come, and what it waits for.
pub struct Turn {
    pub run: Run,
    pub phase: Phase,
}

/// The contents of a `Turn`.
pub struct TurnView {
    pub run: run::RunView,
    pub phase: PhaseView,
}

impl DeepView for Turn {
    type V = TurnView;

    open spec fn deep_view(&self) -> TurnView {
        TurnView { run: self.run.deep_view(), phase: self.phase.deep_view() }
    }
}

/// What happened.
pub enum TurnEvent {
    /// Something came in of what was asked for.
    Heard { event: LlmEvent },
    /// What was asked for is complete.
    Closed,
    /// The next tool call was carried out.
    ToolDone { outcome: ToolResult<ToolOutput>, ts: i64 },
    /// All tool calls were carried out.
    ToolsClosed,
    /// The session `child` was made, or none could be.
    Branched { child: Option<String> },
}

/// What is to be done next.
pub enum Next {
    /// Decide on the next step.
    Decide,
    /// Send a request, and hand in the reply.
    Send { prompt: Prompt },
    /// Go on handing in the reply.
    Listen,
    /// Carry out tool calls, and hand in their outcomes in order.
    Act { calls: Vec<ToolCall> },
    /// Go on handing in the outcomes.
    More,
    /// Make a session whose parent is `parent`, and hand in its id.
    Branch { parent: String },
    /// The turn is over.
    Finished { output: AgentOutput },
    /// The turn failed.
    Failed { error: String },
    /// The turn does not wait for what happened.
    Ignored,
}

/// The contents of a `Next`.
pub enum NextView {
    Decide,
    Send { prompt: run::PromptView },
    Listen,
    Act { calls: Seq<types::ToolCallView> },
    More,
    Branch { parent: Seq<char> },
    Finished { output: agent::OutputView },
    Failed { error: Seq<char> },
    Ignored,
}

impl DeepView for Next {
    type V = NextView;

    open spec fn deep_view(&self) -> NextView {
        match *self {
            Next::Decide => NextView::Decide,
            Next::Send { prompt } => NextView::Send { prompt: prompt.deep_view() },
            Next::Listen => NextView::Listen,
            Next::Act { calls } => NextView::Act { calls: calls.deep_view() },
            Next::More => NextView::More,
            Next::Branch { parent } => NextView::Branch { parent: parent@ },
            Next::Finished { output } => NextView::Finished { output: output.deep_view() },
            Next::Failed { error } => NextView::Failed { error: error@ },
            Next::Ignored => NextView::Ignored,
        }
    }
}

/// What is to be done: a message to store, something to show, and what comes
/// next.
pub struct Directive {
    pub save: Option<Message>,
    pub show: Option<ProgressEvent>,
    pub next: Next,
}

/// The contents of a `Directive`.
pub struct DirectiveView {
    pub save: Option<types::MessageView>,
    pub show: Option<agent::ProgressView>,
    pub next: NextView,
}

impl DeepView for Directive {
    type V = DirectiveView;

    open spec fn deep_view(&self) -> DirectiveView {
        DirectiveView {
            save: self.save.deep_view(),
            show: self.show.deep_view(),
            next: self.next.deep_view(),
        }
    }
}

/// What a turn reads and changes of an agent.
pub struct AgentView {
    pub max_iterations: u32,
    pub percent: u64,
    pub system_prompt: Seq<char>,
    pub tools: Seq<Seq<char>>,
    pub context: context::ContextView,
    pub session: Option<Seq<char>>,
    pub total_usage: types::Usage,
}

/// The contents of an agent.
pub open spec fn agent_view<H>(a: Agent<H>) -> AgentView {
    AgentView {
        max_iterations: a.config.max_iterations,
        percent: a.config.compact_threshold_percent,
        system_prompt: a.config.system_prompt@,
        tools: run::tool_definitions(a.registry),
        context: a.context.deep_view(),
        session: a.session_id.deep_view(),
        total_usage: a.total_usage,
    }
}

/// The state of an agent and a turn, and what is to be done.
pub struct Outcome {
    pub agent: AgentView,
    pub turn: TurnView,
    pub directive: DirectiveView,
}

/// An outcome in which nothing is stored and nothing is shown.
pub open spec fn quietly(a: AgentView, t: TurnView, next: NextView) -> Outcome {
    Outcome { agent: a, turn: t, directive: DirectiveView { save: None, show: None, next } }
}

/// What a turn does next: a request for a reply, for a summary where the
/// conversation is crowded, or for the last reply where the rounds are used
/// up. A request for a summary has the id `id`.
pub open spec fn decided(a: AgentView, t: TurnView, id: Seq<char>) -> Outcome {
    let h = a.context.history;
    let further = run::RunView { iteration: (t.run.iteration + 1) as u32, ..t.run };
    if t.run.iteration >= a.max_iterations {
        quietly(
            a,
            TurnView {
                run: t.run,
                phase: PhaseView::Concluding { text: Seq::empty(), reasoning: Seq::empty() },
            },
            NextView::Send {
                prompt: run::PromptView {
                    system: run::conclude_prompt(a.context.system_prompt, a.max_iterations),
                    messages: h.messages,
                    tools: Seq::empty(),
                },
            },
        )
    } else if run::needs_compact(h, a.percent) {
        quietly(
            a,
            TurnView { run: further, phase: PhaseView::Summarizing { summary: Seq::empty() } },
            NextView::Send {
                prompt: run::PromptView {
                    system: run::SUMMARIZER_PROMPT@,
                    messages: seq![
                        run::user_message(
                            id,
                            run::compact_prompt(h.messages.len(), h.current_tokens),
                        ),
                    ],
                    tools: Seq::empty(),
                },
            },
        )
    } else {
        Outcome {
            agent: a,
            turn: TurnView {
                run: further,
                phase: PhaseView::Listening { round: run::silence() },
            },
            directive: DirectiveView {
                save: None,
                show: Some(agent::ProgressView::LlmCall { iteration: further.iteration }),
                next: NextView::Send {
                    prompt: run::PromptView {
                        system: a.context.system_prompt,
                        messages: h.messages,
                        tools: a.tools,
                    },
                },
            },
        }
    }
}

/// What an event of the reply does. One that ends the turn leaves what was
/// used in the total.
pub open spec fn listened(a: AgentView, t: TurnView, round: run::RoundView, e: types::EventView) -> Outcome {
    let heard = run::RunView { usage: run::used(t.run.usage, e), ..t.run };
    match run::fatal(e) {
        Some(error) => quietly(
            AgentView { total_usage: types::merged(a.total_usage, heard.usage), ..a },
            TurnView { run: heard, phase: PhaseView::Ended },
            NextView::Failed { error },
        ),
        None => Outcome {
            agent: a,
            turn: TurnView {
                run: heard,
                phase: PhaseView::Listening { round: run::heard(round, e) },
            },
            directive: DirectiveView {
                save: None,
                show: run::shown(e),
                next: NextView::Listen,
            },
        },
    }
}

/// What the end of the reply does. The reply is stored under the id `id`.
pub open spec fn replied(a: AgentView, t: TurnView, round: run::RoundView, id: Seq<char>) -> Outcome {
    let message = types::MessageView::Assistant {
        id,
        content: context::reply_parts(round.text, run::some_reasoning(round.reasoning)),
        tool_calls: round.calls,
    };
    let end = run::round_end(t.run, round, a.total_usage);
    let (phase, next) = match end {
        run::RoundEndView::GaveUp { output } => (PhaseView::Ended, NextView::Finished { output }),
        run::RoundEndView::Done { output } => (PhaseView::Ended, NextView::Finished { output }),
        run::RoundEndView::Tools => (
            PhaseView::Acting { calls: round.calls, ok: Seq::empty() },
            NextView::Act { calls: round.calls },
        ),
        run::RoundEndView::Again => (PhaseView::Ready, NextView::Decide),
    };
    Outcome {
        agent: AgentView {
            context: context::said(a.context, message),
            total_usage: run::total_after(t.run, round, a.total_usage),
            ..a
        },
        turn: TurnView {
            run: run::RunView {
                sterile_rounds: run::sterile_after(t.run.sterile_rounds, round) as u32,
                ..t.run
            },
            phase,
        },
        directive: DirectiveView {
            save: Some(message),
            show: run::done_event(t.run, round),
            next,
        },
    }
}

/// What the outcome of a tool call does. It is told under the id `id`.
pub open spec fn acted(
    a: AgentView,
    t: TurnView,
    calls: Seq<types::ToolCallView>,
    ok: Seq<bool>,
    outcome: ToolResult<ToolOutput>,
    ts: i64,
    id: Seq<char>,
) -> Outcome {
    let call = calls[ok.len() as int];
    let message = types::MessageView::Tool {
        id,
        tool_call_id: call.id,
        tool_name: call.name,
        result: context::cut_result(run::told(outcome), a.context.max_tool_output_chars),
    };
    Outcome {
        agent: AgentView { context: context::said(a.context, message), ..a },
        turn: TurnView {
            run: run::RunView {
                tool_results: t.run.tool_results.push((call.id, call.name, run::told(outcome))),
                ..t.run
            },
            phase: PhaseView::Acting { calls, ok: ok.push(outcome is Ok) },
        },
        directive: DirectiveView {
            save: Some(message),
            show: Some(run::tool_done(call.name, outcome, ts)),
            next: NextView::More,
        },
    }
}

/// What the end of the tool calls does.
pub open spec fn tools_closed(
    a: AgentView,
    t: TurnView,
    calls: Seq<types::ToolCallView>,
    ok: Seq<bool>,
) -> Outcome {
    let errors = run::errors_after(t.run.tool_error_rounds, ok);
    let after = run::tools_done(t.run, ok);
    let total = types::merged(a.total_usage, t.run.usage);
    if errors >= run::MAX_ERROR_ROUNDS {
        quietly(
            AgentView { total_usage: total, ..a },
            TurnView { run: after, phase: PhaseView::Ended },
            NextView::Finished {
                output: run::given_up(run::errors_text(errors), t.run, total),
            },
        )
    } else {
        Outcome {
            agent: a,
            turn: TurnView { run: after, phase: PhaseView::Ready },
            directive: DirectiveView {
                save: None,
                show: Some(
                    agent::ProgressView::StepFinished {
                        iteration: t.run.iteration,
                        tool_count: calls.len(),
                    },
                ),
                next: NextView::Decide,
            },
        }
    }
}

/// A summary after an event of it: its text goes on.
pub open spec fn summary_after(summary: Seq<char>, e: types::EventView) -> Seq<char> {
    match e {
        types::EventView::TextDelta { text, .. } => summary + text,
        _ => summary,
    }
}

/// What a complete summary does. It takes the place of the conversation, under
/// the id `id`, and the agent goes on in the session `child`, where one was
/// made.
pub open spec fn summarized(
    a: AgentView,
    t: TurnView,
    summary: Seq<char>,
    child: Option<Seq<char>>,
    id: Seq<char>,
) -> Outcome {
    let message = types::MessageView::System {
        id,
        content: run::summary_text(a.system_prompt, summary),
    };
    Outcome {
        agent: AgentView {
            context: context::ContextView {
                history: types::HistoryView {
                    messages: seq![message],
                    max_tokens: a.context.history.max_tokens,
                    current_tokens: types::estimate(message),
                },
                ..a.context
            },
            session: match child {
                Some(child) => Some(child),
                None => a.session,
            },
            ..a
        },
        turn: TurnView { run: t.run, phase: PhaseView::Ready },
        directive: DirectiveView { save: Some(message), show: None, next: NextView::Decide },
    }
}

/// What an event of the last reply does.
pub open spec fn concluding(a: AgentView, t: TurnView, text: Seq<char>, reasoning: Seq<char>, e: types::EventView) -> Outcome {
    let (more, why) = match e {
        types::EventView::TextDelta { text: piece, .. } => (text + piece, reasoning),
        types::EventView::ReasoningDelta { text: piece, .. } => (text, reasoning + piece),
        _ => (text, reasoning),
    };
    Outcome {
        agent: a,
        turn: TurnView {
            run: run::RunView { usage: run::used(t.run.usage, e), ..t.run },
            phase: PhaseView::Concluding { text: more, reasoning: why },
        },
        directive: DirectiveView { save: None, show: run::shown(e), next: NextView::Listen },
    }
}

/// What the end of the last reply does.
pub open spec fn concluded(a: AgentView, t: TurnView, text: Seq<char>, reasoning: Seq<char>) -> Outcome {
    let total = types::merged(a.total_usage, t.run.usage);
    quietly(
        AgentView { total_usage: total, ..a },
        TurnView { run: t.run, phase: PhaseView::Ended },
        NextView::Finished {
            output: agent::OutputView {
                text: if text::trim(text).len() == 0 {
                    run::no_conclusion(a.max_iterations)
                } else {
                    text
                },
                reasoning: run::some_reasoning(reasoning),
                tool_calls: Seq::empty(),
                tool_results: t.run.tool_results,
                finish_reason: types::FinishView::Length,
                usage: Some(total),
            },
        },
    )
}

/// What an event does to a turn. A message that is made has the id `id`.
pub open spec fn advanced(a: AgentView, t: TurnView, e: TurnEvent, id: Seq<char>) -> Outcome {
    match (t.phase, e) {
        (PhaseView::Listening { round }, TurnEvent::Heard { event }) => listened(
            a,
            t,
            round,
            event.deep_view(),
        ),
        (PhaseView::Listening { round }, TurnEvent::Closed) => replied(a, t, round, id),
        (PhaseView::Acting { calls, ok }, TurnEvent::ToolDone { outcome, ts }) => if ok.len()
            < calls.len() {
            acted(a, t, calls, ok, outcome, ts, id)
        } else {
            quietly(a, t, NextView::Ignored)
        },
        (PhaseView::Acting { calls, ok }, TurnEvent::ToolsClosed) => if ok.len() < calls.len() {
            quietly(a, t, NextView::Ignored)
        } else {
            tools_closed(a, t, calls, ok)
        },
        (PhaseView::Summarizing { summary }, TurnEvent::Heard { event }) => quietly(
            a,
            TurnView {
                run: run::RunView {
                    usage: run::used(t.run.usage, event.deep_view()),
                    ..t.run
                },
                phase: PhaseView::Summarizing {
                    summary: summary_after(summary, event.deep_view()),
                },
            },
            NextView::Listen,
        ),
        (PhaseView::Summarizing { summary }, TurnEvent::Closed) => match a.session {
            Some(parent) => quietly(
                a,
                TurnView { run: t.run, phase: PhaseView::Branching { summary } },
                NextView::Branch { parent },
            ),
            None => summarized(a, t, summary, None, id),
        },
        (PhaseView::Branching { summary }, TurnEvent::Branched { child }) => summarized(
            a,
            t,
            summary,
            child.deep_view(),
            id,
        ),
        (PhaseView::Concluding { text, reasoning }, TurnEvent::Heard { event }) => concluding(
            a,
            t,
            text,
            reasoning,
            event.deep_view(),
        ),
        (PhaseView::Concluding { text, reasoning }, TurnEvent::Closed) => concluded(
            a,
            t,
            text,
            reasoning,
        ),
        _ => quietly(a, t, NextView::Ignored),
    }
}

impl Turn {
    /// A turn that begins.
    pub fn new(run: Run) -> (r: Self)
        ensures
            r.deep_view() == (TurnView { run: run.deep_view(), phase: PhaseView::Ready }),
    {
        Turn { run, phase: Phase::Ready }
    }

    /// Whether a turn is in order, as every turn is that began so.
    pub fn is_orderly(&self, max_iterations: u32) -> (r: bool)
        ensures
            r == orderly(self.deep_view(), max_iterations),
    {
        let run = &self.run;
        match &self.phase {
            Phase::Ended => true,
            Phase::Acting { calls, ok } => {
                assert(calls.deep_view().len() == calls@.len());
                calls.len() > 0 && ok.len() <= calls.len() && run.iteration <= max_iterations
                    && run.tool_error_rounds < run::MAX_ERROR_ROUNDS && run.sterile_rounds
                    < run::MAX_STERILE_ROUNDS
            },
            _ => run.iteration <= max_iterations && run.tool_error_rounds < run::MAX_ERROR_ROUNDS
                && run.sterile_rounds < run::MAX_STERILE_ROUNDS,
        }
    }
}

/// The outcome that an agent, a turn and a directive show.
pub open spec fn outcome_of<H>(agent: Agent<H>, r: (Turn, Directive)) -> Outcome {
    Outcome {
        agent: agent_view(agent),
        turn: r.0.deep_view(),
        directive: r.1.deep_view(),
    }
}

/// Some id of the form of a new one.
spec fn some_id() -> Seq<char> {
    Seq::new(36, |i: int| 'a')
}

proof fn lemma_some_id()
    ensures
        ids::is_fresh_form(some_id()),
{
}

/// What holds of every turn: its run is sound while the turn goes on, and the
/// outcomes of tools are those of the calls at work.
pub open spec fn orderly(t: TurnView, max_iterations: u32) -> bool {
    match t.phase {
        PhaseView::Ended => true,
        PhaseView::Acting { calls, ok } => {
            &&& calls.len() > 0
            &&& ok.len() <= calls.len()
            &&& t.run.iteration <= max_iterations
            &&& t.run.tool_error_rounds < run::MAX_ERROR_ROUNDS
            &&& t.run.sterile_rounds < run::MAX_STERILE_ROUNDS
        },
        _ => run::sound(t.run, max_iterations),
    }
}

/// A turn that begins is orderly, and every step and every event keeps it so.
pub proof fn turns_stay_orderly(a: AgentView, t: TurnView, e: TurnEvent, id: Seq<char>)
    requires
        orderly(t, a.max_iterations),
    ensures
        orderly(TurnView { run: run::start(), phase: PhaseView::Ready }, a.max_iterations),
        t.phase is Ready ==> orderly(decided(a, t, id).turn, a.max_iterations),
        orderly(advanced(a, t, e, id).turn, a.max_iterations),
{
}

/// A turn ends only with an output or an error, and what follows its end is
/// ignored.
pub proof fn turns_end_once(a: AgentView, t: TurnView, e: TurnEvent, id: Seq<char>)
    ensures
        t.phase is Ended ==> advanced(a, t, e, id) == quietly(a, t, NextView::Ignored),
        !(t.phase is Ended) && advanced(a, t, e, id).turn.phase is Ended ==> advanced(
            a,
            t,
            e,
            id,
        ).directive.next is Finished || advanced(a, t, e, id).directive.next is Failed,
{
}

/// A summary is stored in a session of its own: once it is complete a child of
/// the present session is asked for and nothing is stored; once that is made
/// the agent works in it, and the summary is all that it holds.
pub proof fn compaction_moves_to_a_child(
    a: AgentView,
    t: TurnView,
    summary: Seq<char>,
    parent: Seq<char>,
    child: String,
    id: Seq<char>,
)
    requires
        t.phase == (PhaseView::Summarizing { summary }),
        a.session == Some(parent),
    ensures
        ({
            let asked = advanced(a, t, TurnEvent::Closed, id);
            let made = advanced(
                asked.agent,
                asked.turn,
                TurnEvent::Branched { child: Some(child) },
                id,
            );
            let message = types::MessageView::System {
                id,
                content: run::summary_text(a.system_prompt, summary),
            };
            &&& asked.directive == (DirectiveView {
                save: None,
                show: None,
                next: NextView::Branch { parent },
            })
            &&& asked.agent == a
            &&& made.agent.session == Some(child@)
            &&& made.agent.context.history.messages == seq![message]
            &&& made.agent.context.history.current_tokens == types::estimate(message)
            &&& made.directive == (DirectiveView {
                save: Some(message),
                show: None,
                next: NextView::Decide,
            })
        }),
{
}

/// A reply that is the sixth in a row to call tools and say nothing is the
/// last: the turn ends with an error, and its calls are not carried out.
pub proof fn the_sixth_silence_is_the_last(
    a: AgentView,
    t: TurnView,
    round: run::RoundView,
    id: Seq<char>,
)
    requires
        t.phase == (PhaseView::Listening { round }),
        t.run.sterile_rounds == 5,
        run::is_sterile(round),
    ensures
        ({
            let end = advanced(a, t, TurnEvent::Closed, id);
            &&& end.turn.phase is Ended
            &&& end.directive.next == (NextView::Finished {
                output: run::given_up(
                    run::loop_text(6),
                    t.run,
                    types::merged(a.total_usage, t.run.usage),
                ),
            })
        }),
{
}

/// A turn that ends, however it ends, leaves all that it used in the total,
/// once.
pub proof fn turns_are_paid_once(a: AgentView, t: TurnView, e: TurnEvent, id: Seq<char>)
    ensures
        ({
            let end = advanced(a, t, e, id);
            &&& !(t.phase is Ended) && end.turn.phase is Ended ==> end.agent.total_usage
                == types::merged(a.total_usage, end.turn.run.usage)
            &&& !(end.turn.phase is Ended) ==> end.agent.total_usage == a.total_usage
        }),
        decided(a, t, id).agent.total_usage == a.total_usage,
{
}

/// Every round is a request: none is sent beyond the limit but the last.
pub proof fn requests_are_limited(a: AgentView, t: TurnView, id: Seq<char>)
    requires
        t.run.iteration <= a.max_iterations,
    ensures
        decided(a, t, id).turn.run.iteration <= a.max_iterations,
        decided(a, t, id).turn.phase is Concluding <==> t.run.iteration == a.max_iterations,
        !(decided(a, t, id).turn.phase is Concluding) ==> decided(a, t, id).turn.run.iteration
            == t.run.iteration + 1,
{
}

fn directive(next: Next) -> (r: Directive)
    ensures
        r.deep_view() == (DirectiveView { save: None, show: None, next: next.deep_view() }),
{
    Directive { save: None, show: None, next }
}

impl<H> Agent<H> {
    /// Decides on the next step of a turn.
    pub fn decide(&mut self, turn: Turn) -> (r: (Turn, Directive))
        requires
            turn.phase is Ready,
        ensures
            run::same_setup(*final(self), *old(self)),
            exists|id: Seq<char>|
                ids::is_fresh_form(id) && #[trigger] decided(
                    agent_view(*old(self)),
                    turn.deep_view(),
                    id,
                ) == outcome_of(*final(self), r),
    {
        let ghost a = agent_view(*self);
        let ghost t = turn.deep_view();
        proof {
            lemma_some_id();
        }
        let mut run = turn.run;
        match self.next_step(&mut run) {
            Step::Conclude { prompt } => {
                let phase = Phase::Concluding { text: String::new(), reasoning: String::new() };
                let r = (Turn { run, phase }, directive(Next::Send { prompt }));
                assert(decided(a, t, some_id()) == outcome_of(*self, r));
                r
            },
            Step::Compact { prompt } => {
                let ghost id = types::id_of(prompt.deep_view().messages[0]);
                let phase = Phase::Summarizing { summary: String::new() };
                let r = (Turn { run, phase }, directive(Next::Send { prompt }));
                assert(decided(a, t, id) == outcome_of(*self, r));
                r
            },
            Step::Ask { iteration, prompt } => {
                let phase = Phase::Listening { round: Round::new() };
                let show = Some(ProgressEvent::LlmCall { iteration });
                let r = (
                    Turn { run, phase },
                    Directive { save: None, show, next: Next::Send { prompt } },
                );
                assert(decided(a, t, some_id()) == outcome_of(*self, r));
                r
            },
        }
    }

    fn on_reply_event(&mut self, run: Run, round: Round, event: LlmEvent) -> (r: (Turn, Directive))
        ensures
            run::same_setup(*final(self), *old(self)),
            listened(
                agent_view(*old(self)),
                TurnView {
                    run: run.deep_view(),
                    phase: PhaseView::Listening { round: round.deep_view() },
                },
                round.deep_view(),
                event.deep_view(),
            ) == outcome_of(*final(self), r),
    {
        let mut run = run;
        let mut round = round;
        match round.observe(&mut run.usage, event) {
            Ok(show) => {
                let phase = Phase::Listening { round };
                (Turn { run, phase }, Directive { save: None, show, next: Next::Listen })
            },
            Err(error) => {
                self.drop_run(&run);
                (Turn { run, phase: Phase::Ended }, directive(Next::Failed { error }))
            },
        }
    }

    fn on_reply(&mut self, run: Run, round: Round) -> (r: (Turn, Directive))
        requires
            run.sterile_rounds < run::MAX_STERILE_ROUNDS,
        ensures
            run::same_setup(*final(self), *old(self)),
            exists|id: Seq<char>|
                ids::is_fresh_form(id) && #[trigger] replied(
                    agent_view(*old(self)),
                    TurnView {
                        run: run.deep_view(),
                        phase: PhaseView::Listening { round: round.deep_view() },
                    },
                    round.deep_view(),
                    id,
                ) == outcome_of(*final(self), r),
    {
        let ghost a = agent_view(*self);
        let ghost rv = round.deep_view();
        let ghost t = TurnView {
            run: run.deep_view(),
            phase: PhaseView::Listening { round: rv },
        };
        let mut run = run;
        let calls = types::duplicate_all(&round.calls);
        let outcome = self.end_round(&mut run, round);
        let ghost id = types::id_of(outcome.message.deep_view());
        let (phase, next) = match outcome.end {
            RoundEnd::GaveUp { output } => (Phase::Ended, Next::Finished { output }),
            RoundEnd::Done { output } => (Phase::Ended, Next::Finished { output }),
            RoundEnd::Tools => {
                let again = types::duplicate_all(&calls);
                (Phase::Acting { calls, ok: Vec::new() }, Next::Act { calls: again })
            },
            RoundEnd::Again => (Phase::Ready, Next::Decide),
        };
        let r = (
            Turn { run, phase },
            Directive { save: Some(outcome.message), show: outcome.progress, next },
        );
        assert(r.0.phase.deep_view() == replied(a, t, rv, id).turn.phase);
        assert(replied(a, t, rv, id) == outcome_of(*self, r));
        r
    }

    fn on_tool(
        &mut self,
        run: Run,
        calls: Vec<ToolCall>,
        ok: Vec<bool>,
        outcome: ToolResult<ToolOutput>,
        ts: i64,
    ) -> (r: (Turn, Directive))
        requires
            ok@.len() < calls@.len(),
        ensures
            run::same_setup(*final(self), *old(self)),
            exists|id: Seq<char>|
                ids::is_fresh_form(id) && #[trigger] acted(
                    agent_view(*old(self)),
                    TurnView {
                        run: run.deep_view(),
                        phase: PhaseView::Acting { calls: calls.deep_view(), ok: ok@ },
                    },
                    calls.deep_view(),
                    ok@,
                    outcome,
                    ts,
                    id,
                ) == outcome_of(*final(self), r),
    {
        let ghost a = agent_view(*self);
        let ghost t = TurnView {
            run: run.deep_view(),
            phase: PhaseView::Acting { calls: calls.deep_view(), ok: ok@ },
        };
        let mut run = run;
        let mut done = ok;
        let i: usize = done.len();
        assert(calls.deep_view()[i as int] == calls@[i as int].deep_view());
        let (message, show) = self.record_result(&mut run, &calls[i], &outcome, ts);
        let ghost id = types::id_of(message.deep_view());
        done.push(outcome.is_ok());
        let r = (
            Turn { run, phase: Phase::Acting { calls, ok: done } },
            Directive { save: Some(message), show: Some(show), next: Next::More },
        );
        assert(acted(a, t, calls.deep_view(), ok@, outcome, ts, id) == outcome_of(*self, r));
        r
    }

    fn on_tools_closed(&mut self, run: Run, calls: Vec<ToolCall>, ok: Vec<bool>) -> (r: (
        Turn,
        Directive,
    ))
        requires
            run.tool_error_rounds < run::MAX_ERROR_ROUNDS,
        ensures
            run::same_setup(*final(self), *old(self)),
            tools_closed(
                agent_view(*old(self)),
                TurnView {
                    run: run.deep_view(),
                    phase: PhaseView::Acting { calls: calls.deep_view(), ok: ok@ },
                },
                calls.deep_view(),
                ok@,
            ) == outcome_of(*final(self), r),
    {
        let mut run = run;
        assert(calls.deep_view().len() == calls@.len());
        match self.end_tools(&mut run, &ok) {
            Some(output) => (
                Turn { run, phase: Phase::Ended },
                directive(Next::Finished { output }),
            ),
            None => {
                let show = Some(
                    ProgressEvent::StepFinished {
                        iteration: run.iteration,
                        tool_count: calls.len(),
                    },
                );
                (
                    Turn { run, phase: Phase::Ready },
                    Directive { save: None, show, next: Next::Decide },
                )
            },
        }
    }

    fn on_summary_event(&mut self, run: Run, summary: String, event: LlmEvent) -> (r: (
        Turn,
        Directive,
    ))
        ensures
            *final(self) == *old(self),
            quietly(
                agent_view(*old(self)),
                TurnView {
                    run: run::RunView {
                        usage: run::used(run.usage, event.deep_view()),
                        ..run.deep_view()
                    },
                    phase: PhaseView::Summarizing {
                        summary: summary_after(summary@, event.deep_view()),
                    },
                },
                NextView::Listen,
            ) == outcome_of(*final(self), r),
    {
        let mut run = run;
        let mut more = summary;
        run::note_usage(&mut run.usage, &event);
        if let LlmEvent::TextDelta { text, .. } = &event {
            more.append(text.as_str());
        }
        (
            Turn { run, phase: Phase::Summarizing { summary: more } },
            directive(Next::Listen),
        )
    }

    fn on_summary(&mut self, run: Run, summary: String, child: Option<String>) -> (r: (
        Turn,
        Directive,
    ))
        ensures
            run::same_settings(*final(self), *old(self)),
            exists|id: Seq<char>|
                ids::is_fresh_form(id) && #[trigger] summarized(
                    agent_view(*old(self)),
                    TurnView { run: run.deep_view(), phase: PhaseView::Ready },
                    summary@,
                    child.deep_view(),
                    id,
                ) == outcome_of(*final(self), r),
    {
        let ghost a = agent_view(*self);
        let ghost t = TurnView { run: run.deep_view(), phase: PhaseView::Ready };
        let ghost made = child.deep_view();
        let message = match child {
            Some(child) => self.finish_compaction(summary.as_str(), child),
            None => self.keep_summary(summary.as_str()),
        };
        let ghost id = types::id_of(message.deep_view());
        let r = (
            Turn { run, phase: Phase::Ready },
            Directive { save: Some(message), show: None, next: Next::Decide },
        );
        assert(summarized(a, t, summary@, made, id) == outcome_of(*self, r));
        r
    }

    fn on_last_event(&mut self, run: Run, text: String, reasoning: String, event: LlmEvent) -> (r: (
        Turn,
        Directive,
    ))
        ensures
            *final(self) == *old(self),
            concluding(
                agent_view(*old(self)),
                TurnView {
                    run: run.deep_view(),
                    phase: PhaseView::Concluding { text: text@, reasoning: reasoning@ },
                },
                text@,
                reasoning@,
                event.deep_view(),
            ) == outcome_of(*final(self), r),
    {
        let mut run = run;
        let mut said = text;
        let mut why = reasoning;
        run::note_usage(&mut run.usage, &event);
        let show = match event {
            LlmEvent::TextDelta { text: piece, .. } => {
                said.append(piece.as_str());
                Some(ProgressEvent::Token { text: piece })
            },
            LlmEvent::ReasoningDelta { text: piece, .. } => {
                why.append(piece.as_str());
                Some(ProgressEvent::ReasoningToken { text: piece })
            },
            _ => None,
        };
        (
            Turn { run, phase: Phase::Concluding { text: said, reasoning: why } },
            Directive { save: None, show, next: Next::Listen },
        )
    }

    fn on_last_reply(&mut self, run: Run, text: String, reasoning: String) -> (r: (Turn, Directive))
        ensures
            run::same_setup(*final(self), *old(self)),
            concluded(
                agent_view(*old(self)),
                TurnView {
                    run: run.deep_view(),
                    phase: PhaseView::Concluding { text: text@, reasoning: reasoning@ },
                },
                text@,
                reasoning@,
            ) == outcome_of(*final(self), r),
    {
        let output = self.force_final_response(&run, text, reasoning);
        (Turn { run, phase: Phase::Ended }, directive(Next::Finished { output }))
    }

    /// Takes in what happened, and says what is to be done.
    pub fn advance(&mut self, turn: Turn, event: TurnEvent) -> (r: (Turn, Directive))
        requires
            orderly(turn.deep_view(), old(self).config.max_iterations),
        ensures
            run::same_settings(*final(self), *old(self)),
            orderly(r.0.deep_view(), final(self).config.max_iterations),
            exists|id: Seq<char>|
                ids::is_fresh_form(id) && #[trigger] advanced(
                    agent_view(*old(self)),
                    turn.deep_view(),
                    event,
                    id,
                ) == outcome_of(*final(self), r),
    {
        let ghost a = agent_view(*self);
        let ghost t = turn.deep_view();
        proof {
            lemma_some_id();
        }
        let r = match (turn.phase, event) {
            (Phase::Listening { round }, TurnEvent::Heard { event }) => self.on_reply_event(
                turn.run,
                round,
                event,
            ),
            (Phase::Listening { round }, TurnEvent::Closed) => {
                let ghost rv = round.deep_view();
                let r = self.on_reply(turn.run, round);
                proof {
                    let got = outcome_of(*self, r);
                    let id = choose|id: Seq<char>|
                        ids::is_fresh_form(id) && #[trigger] replied(a, t, rv, id) == got;
                    assert(advanced(a, t, event, id) == got);
                }
                r
            },
            (Phase::Acting { calls, ok }, TurnEvent::ToolDone { outcome, ts }) => {
                assert(calls.deep_view().len() == calls@.len());
                if ok.len() < calls.len() {
                    let ghost cv = calls.deep_view();
                    let ghost done = ok@;
                    let r = self.on_tool(turn.run, calls, ok, outcome, ts);
                    proof {
                        let got = outcome_of(*self, r);
                        let id = choose|id: Seq<char>|
                            ids::is_fresh_form(id) && #[trigger] acted(
                                a,
                                t,
                                cv,
                                done,
                                outcome,
                                ts,
                                id,
                            ) == got;
                        assert(advanced(a, t, event, id) == got);
                    }
                    r
                } else {
                    (
                        Turn { run: turn.run, phase: Phase::Acting { calls, ok } },
                        directive(Next::Ignored),
                    )
                }
            },
            (Phase::Acting { calls, ok }, TurnEvent::ToolsClosed) => {
                assert(calls.deep_view().len() == calls@.len());
                if ok.len() < calls.len() {
                    (
                        Turn { run: turn.run, phase: Phase::Acting { calls, ok } },
                        directive(Next::Ignored),
                    )
                } else {
                    self.on_tools_closed(turn.run, calls, ok)
                }
            },
            (Phase::Summarizing { summary }, TurnEvent::Heard { event }) => {
                self.on_summary_event(turn.run, summary, event)
            },
            (Phase::Summarizing { summary }, TurnEvent::Closed) => {
                let parent = match &self.session_id {
                    Some(parent) => Some(parent.clone()),
                    None => None,
                };
                match parent {
                    Some(parent) => (
                        Turn { run: turn.run, phase: Phase::Branching { summary } },
                        directive(Next::Branch { parent }),
                    ),
                    None => {
                        let ghost sv = summary@;
                        let r = self.on_summary(turn.run, summary, None);
                        proof {
                            let got = outcome_of(*self, r);
                            let none: Option<Seq<char>> = None;
                            let id = choose|id: Seq<char>|
                                ids::is_fresh_form(id) && #[trigger] summarized(
                                    a,
                                    TurnView { run: t.run, phase: PhaseView::Ready },
                                    sv,
                                    none,
                                    id,
                                ) == got;
                            assert(advanced(a, t, event, id) == got);
                        }
                        r
                    },
                }
            },
            (Phase::Branching { summary }, TurnEvent::Branched { child }) => {
                let ghost sv = summary@;
                let ghost cv = child.deep_view();
                let r = self.on_summary(turn.run, summary, child);
                proof {
                    let got = outcome_of(*self, r);
                    let id = choose|id: Seq<char>|
                        ids::is_fresh_form(id) && #[trigger] summarized(
                            a,
                            TurnView { run: t.run, phase: PhaseView::Ready },
                            sv,
                            cv,
                            id,
                        ) == got;
                    assert(advanced(a, t, event, id) == got);
                }
                r
            },
            (Phase::Concluding { text, reasoning }, TurnEvent::Heard { event }) => {
                self.on_last_event(turn.run, text, reasoning, event)
            },
            (Phase::Concluding { text, reasoning }, TurnEvent::Closed) => self.on_last_reply(
                turn.run,
                text,
                reasoning,
            ),
            (phase, _) => (Turn { run: turn.run, phase }, directive(Next::Ignored)),
        };
        proof {
            let got = outcome_of(*self, r);
            if exists|id: Seq<char>|
                ids::is_fresh_form(id) && #[trigger] advanced(a, t, event, id) == got {
                let id = choose|id: Seq<char>|
                    ids::is_fresh_form(id) && #[trigger] advanced(a, t, event, id) == got;
                turns_stay_orderly(a, t, event, id);
            } else {
                assert(advanced(a, t, event, some_id()) == got);
            }
        }
        r
    }
}

// ── Laws ──

/// The request for a reply holds the whole conversation, the system prompt and
/// all tools; so does the last one, but it offers no tool. Sending it changes
/// nothing that was said.
pub proof fn requests_hold_what_was_said(a: AgentView, t: TurnView, id: Seq<char>)
    ensures
        ({
            let r = decided(a, t, id);
            &&& r.agent == a
            &&& r.directive.save is None
            &&& r.directive.next is Send
            &&& r.turn.phase is Listening ==> (r.directive.next matches NextView::Send { prompt }
                && prompt.messages == a.context.history.messages && prompt.system
                == a.context.system_prompt && prompt.tools == a.tools)
            &&& r.turn.phase is Concluding ==> (r.directive.next matches NextView::Send { prompt }
                && prompt.messages == a.context.history.messages && prompt.tools.len() == 0
                && a.context.system_prompt.is_prefix_of(prompt.system))
            &&& r.turn.phase is Listening || r.turn.phase is Concluding || r.turn.phase is Summarizing
            &&& r.turn.phase is Summarizing <==> t.run.iteration < a.max_iterations
                && run::needs_compact(a.context.history, a.percent)
            &&& r.turn.phase matches PhaseView::Listening { round } ==> round == run::silence()
            &&& r.turn.phase matches PhaseView::Summarizing { summary } ==> summary.len() == 0
            &&& r.turn.phase matches PhaseView::Concluding { text, reasoning } ==> text.len() == 0
                && reasoning.len() == 0
            &&& r.turn.run.tool_results == t.run.tool_results
            &&& r.turn.run.usage == t.run.usage
        }),
{
    run::prompts_keep_what_counts(
        a.context.system_prompt,
        Seq::empty(),
        a.max_iterations,
        0,
        0,
    );
}

/// A complete reply is recorded: it stands at the end of the conversation with
/// all its text, its reasoning and its calls, and it is stored so. Its calls are
/// the ones that are carried out, all of them in order, and the output of a
/// finished turn is its text.
pub proof fn replies_are_kept_and_carried_out(
    a: AgentView,
    t: TurnView,
    round: run::RoundView,
    id: Seq<char>,
)
    requires
        t.phase == (PhaseView::Listening { round }),
        t.run.sterile_rounds < 5,
    ensures
        ({
            let r = advanced(a, t, TurnEvent::Closed, id);
            let messages = r.agent.context.history.messages;
            &&& messages.drop_last() == a.context.history.messages
            &&& r.directive.save == Some(messages.last())
            &&& messages.last() matches types::MessageView::Assistant { id: i, content, tool_calls }
                && i == id && types::reply_text(content) == round.text && context::thoughts_in(
                content,
            ) == (if round.reasoning.len() > 0 {
                seq![round.reasoning]
            } else {
                Seq::empty()
            }) && tool_calls == round.calls
            &&& round.calls.len() > 0 ==> r.directive.next == (NextView::Act {
                calls: round.calls,
            }) && r.turn.phase == (PhaseView::Acting { calls: round.calls, ok: Seq::empty() })
            &&& round.calls.len() == 0 && round.should_stop ==> (
            r.directive.next matches NextView::Finished { output } && output.text == round.text
                && output.tool_results == t.run.tool_results)
            &&& round.calls.len() == 0 && !round.should_stop ==> r.directive.next is Decide
            &&& r.agent.session == a.session
        }),
{
    context::replies_are_recorded(round.text, run::some_reasoning(round.reasoning));
    let r = advanced(a, t, TurnEvent::Closed, id);
    let messages = r.agent.context.history.messages;
    assert(messages.drop_last() =~= a.context.history.messages);
}

/// The outcome of a tool is told under its own call: the calls are answered in
/// order, the answer stands at the end of the conversation and is stored so,
/// and it is among the results of the run, uncut.
pub proof fn outcomes_answer_their_calls(
    a: AgentView,
    t: TurnView,
    calls: Seq<types::ToolCallView>,
    ok: Seq<bool>,
    outcome: ToolResult<ToolOutput>,
    ts: i64,
    id: Seq<char>,
)
    requires
        t.phase == (PhaseView::Acting { calls, ok }),
        ok.len() < calls.len(),
    ensures
        ({
            let r = advanced(a, t, TurnEvent::ToolDone { outcome, ts }, id);
            let call = calls[ok.len() as int];
            let messages = r.agent.context.history.messages;
            &&& messages.drop_last() == a.context.history.messages
            &&& r.directive.save == Some(messages.last())
            &&& messages.last() matches types::MessageView::Tool {
                id: i,
                tool_call_id,
                tool_name,
                result,
            } && i == id && tool_call_id == call.id && tool_name == call.name && result
                == context::cut_result(run::told(outcome), a.context.max_tool_output_chars)
            &&& r.turn.run.tool_results.len() == t.run.tool_results.len() + 1
            &&& r.turn.run.tool_results.drop_last() == t.run.tool_results
            &&& r.turn.run.tool_results.last() == (call.id, call.name, run::told(outcome))
            &&& r.turn.phase == (PhaseView::Acting { calls, ok: ok.push(outcome is Ok) })
            &&& r.directive.next is More
            &&& r.agent.session == a.session
            &&& r.agent.total_usage == a.total_usage
        }),
{
    let r = advanced(a, t, TurnEvent::ToolDone { outcome, ts }, id);
    assert(r.agent.context.history.messages.drop_last() =~= a.context.history.messages);
    assert(r.turn.run.tool_results.drop_last() =~= t.run.tool_results);
}

/// Once all calls of a reply are answered the model is asked again, unless
/// every tool failed for the third time in a row. Before that the end of the
/// calls is not accepted.
pub proof fn answered_calls_are_followed_by_a_request(
    a: AgentView,
    t: TurnView,
    calls: Seq<types::ToolCallView>,
    ok: Seq<bool>,
    id: Seq<char>,
)
    requires
        t.phase == (PhaseView::Acting { calls, ok }),
        ok.len() <= calls.len(),
        t.run.tool_error_rounds < 3,
    ensures
        ({
            let r = advanced(a, t, TurnEvent::ToolsClosed, id);
            &&& ok.len() < calls.len() ==> r.directive.next is Ignored && r.agent == a && r.turn == t
            &&& ok.len() == calls.len() && (ok.contains(true) || t.run.tool_error_rounds < 2)
                ==> r.directive.next is Decide && r.turn.phase is Ready && r.agent == a
            &&& ok.len() == calls.len() && !ok.contains(true) && t.run.tool_error_rounds == 2
                ==> r.directive.next is Finished && r.turn.phase is Ended
            &&& r.agent.context == a.context
            &&& r.turn.run.tool_results == t.run.tool_results
        }),
{
}

/// What comes in of a reply is taken in piece by piece and shown; an error that
/// does not pass ends the turn with what the provider said.
pub proof fn pieces_are_taken_in(
    a: AgentView,
    t: TurnView,
    round: run::RoundView,
    event: LlmEvent,
    id: Seq<char>,
)
    requires
        t.phase == (PhaseView::Listening { round }),
    ensures
        ({
            let e = event.deep_view();
            let r = advanced(a, t, TurnEvent::Heard { event }, id);
            let lasting = e is ProviderError && !e->ProviderError_retryable;
            &&& r.agent.context == a.context
            &&& r.directive.save is None
            &&& lasting ==> r.turn.phase is Ended && (r.directive.next matches NextView::Failed {
                error,
            } && text::holds(error, e->ProviderError_message))
            &&& !lasting ==> r.turn.phase == (PhaseView::Listening { round: run::heard(round, e) })
                && r.directive.show == run::shown(e) && r.directive.next is Listen
            &&& r.turn.run.usage == run::used(t.run.usage, e)
        }),
{
    run::lasting_errors_are_fatal(event.deep_view());
}

/// A summary is the text of its reply, put together.
pub open spec fn summary_of(summary: Seq<char>, es: Seq<types::EventView>) -> Seq<char>
    decreases es.len(),
{
    if es.len() == 0 {
        summary
    } else {
        summary_after(summary_of(summary, es.drop_last()), es.last())
    }
}

/// A summary is all the text that was streamed for it, and nothing else.
pub proof fn summaries_are_what_was_streamed(summary: Seq<char>, es: Seq<types::EventView>)
    ensures
        summary_of(summary, es) == summary + run::text_in(es),
    decreases es.len(),
{
    if es.len() == 0 {
        assert(summary + run::text_in(es) =~= summary);
    } else {
        summaries_are_what_was_streamed(summary, es.drop_last());
        assert(summary_of(summary, es) =~= summary + run::text_in(es));
    }
}

/// What comes in of a summary goes on with it, and nothing is stored or shown
/// of it.
pub proof fn summaries_are_taken_in(
    a: AgentView,
    t: TurnView,
    summary: Seq<char>,
    event: LlmEvent,
    id: Seq<char>,
)
    requires
        t.phase == (PhaseView::Summarizing { summary }),
    ensures
        ({
            let r = advanced(a, t, TurnEvent::Heard { event }, id);
            &&& r.turn.phase == (PhaseView::Summarizing {
                summary: summary + run::text_in(seq![event.deep_view()]),
            })
            &&& r.agent == a
            &&& r.directive == (DirectiveView { save: None, show: None, next: NextView::Listen })
        }),
{
    let e = event.deep_view();
    assert(seq![e].drop_last() =~= Seq::<types::EventView>::empty());
    assert(run::text_in(Seq::<types::EventView>::empty()) =~= Seq::<char>::empty());
    assert(summary_after(summary, e) =~= summary + run::text_in(seq![e]));
}

/// The last reply is put together from its pieces, which are shown; its text is
/// the output of the turn unless it is blank, with its reasoning and with all
/// results.
pub proof fn last_replies_are_given(
    a: AgentView,
    t: TurnView,
    text: Seq<char>,
    reasoning: Seq<char>,
    event: LlmEvent,
    id: Seq<char>,
)
    requires
        t.phase == (PhaseView::Concluding { text, reasoning }),
    ensures
        ({
            let e = event.deep_view();
            let r = advanced(a, t, TurnEvent::Heard { event }, id);
            &&& r.turn.phase == (PhaseView::Concluding {
                text: text + run::text_in(seq![e]),
                reasoning: reasoning + run::reasoning_in(seq![e]),
            })
            &&& r.directive.show == run::shown(e)
            &&& r.directive.next is Listen
            &&& r.agent == a
        }),
        ({
            let r = advanced(a, t, TurnEvent::Closed, id);
            &&& r.turn.phase is Ended
            &&& r.directive.next matches NextView::Finished { output } && (text::trim(text).len() > 0
                ==> output.text == text) && output.text.len() > 0 && (reasoning.len() > 0
                ==> output.reasoning == Some(reasoning)) && output.tool_results
                == t.run.tool_results && output.finish_reason is Length
            &&& r.agent.context == a.context
        }),
{
    let e = event.deep_view();
    let none = Seq::<types::EventView>::empty();
    assert(seq![e].drop_last() =~= none);
    assert(run::text_in(none) =~= Seq::<char>::empty());
    assert(run::reasoning_in(none) =~= Seq::<char>::empty());
    let r = advanced(a, t, TurnEvent::Heard { event }, id);
    assert(r.turn.phase->Concluding_text =~= text + run::text_in(seq![e]));
    assert(r.turn.phase->Concluding_reasoning =~= reasoning + run::reasoning_in(seq![e]));
    reveal_strlit("Reached the ");
    text::trimming_takes_white_space(text);
}

/// Without a session to branch from, or where none could be made, the summary
/// takes the place of the conversation all the same, whole and behind the
/// system prompt, and the agent stays where it is.
pub proof fn summaries_replace_the_conversation(
    a: AgentView,
    t: TurnView,
    summary: Seq<char>,
    id: Seq<char>,
)
    ensures
        ({
            let alone = advanced(
                AgentView { session: None, ..a },
                TurnView { phase: PhaseView::Summarizing { summary }, ..t },
                TurnEvent::Closed,
                id,
            );
            let stuck = advanced(
                a,
                TurnView { phase: PhaseView::Branching { summary }, ..t },
                TurnEvent::Branched { child: None },
                id,
            );
            let message = stuck.agent.context.history.messages[0];
            &&& stuck.agent.context.history.messages.len() == 1
            &&& stuck.agent.session == a.session
            &&& stuck.agent.context.system_prompt == a.context.system_prompt
            &&& alone.agent.session is None
            &&& alone.agent.context == stuck.agent.context
            &&& stuck.directive.save == Some(message)
            &&& alone.directive.save == Some(message)
            &&& message matches types::MessageView::System { id: i, content } && i == id
                && a.system_prompt.is_prefix_of(content) && summary.is_suffix_of(content)
            &&& stuck.turn.phase is Ready
            &&& stuck.turn.run == t.run
        }),
{
    run::prompts_keep_what_counts(a.system_prompt, summary, 0, 0, 0);
}

} // verus!
