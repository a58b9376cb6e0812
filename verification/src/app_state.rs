//! The transcript and the input line of the terminal interface.
use vstd::prelude::*;
use crate::agent;
use crate::agent::{AgentOutput, ProgressEvent};
use crate::json::Json;
use crate::number;
use crate::text;
use crate::tui;
use crate::tui::ChatMessage;
use crate::turn;
use crate::turn::{ActiveTurn, TurnItem};
use crate::types;

verus! {

/// A tool that waits for the user's permission. The ticket says whom to
/// answer.
pub struct PendingPermission {
    pub tool_name: String,
    pub input_summary: String,
    pub ticket: u64,
}

/// A question to the user whether a tool may run.
pub struct PermissionRequest {
    pub tool_name: String,
    pub input_summary: String,
    pub ticket: u64,
}

/// The contents of a `PendingPermission`.
pub struct PendingView {
    pub tool_name: Seq<char>,
    pub input_summary: Seq<char>,
    pub ticket: u64,
}

impl DeepView for PendingPermission {
    type V = PendingView;

    open spec fn deep_view(&self) -> PendingView {
        PendingView {
            tool_name: self.tool_name@,
            input_summary: self.input_summary@,
            ticket: self.ticket,
        }
    }
}

/// An answer to the question with this ticket.
#[derive(Debug, Clone, Copy, PartialEq, Eq, Structural)]
pub struct PermissionAnswer {
    pub ticket: u64,
    pub allowed: bool,
}

impl PendingPermission {
    pub fn respond(self, allowed: bool) -> (r: PermissionAnswer)
        ensures
            r == (PermissionAnswer { ticket: self.ticket, allowed }),
    {
        PermissionAnswer { ticket: self.ticket, allowed }
    }
}

/// Puts the questions of tools to the user, each under a ticket of its own.
pub struct PermissionBridge {
    pub next_ticket: u64,
}

impl PermissionBridge {
    pub fn new() -> (r: Self)
        ensures
            r.next_ticket == 0,
    {
        PermissionBridge { next_ticket: 0 }
    }

    /// The question whether a tool may run on an input.
    pub fn ask(&mut self, tool_name: &str, input: &Json) -> (r: PermissionRequest)
        ensures
            r.tool_name@ == tool_name@,
            r.input_summary@ == tui::asked_input(input@),
            r.ticket == old(self).next_ticket,
            final(self).next_ticket == types::capped((old(self).next_ticket + 1) as nat),
    {
        let ticket: u64 = self.next_ticket;
        self.next_ticket = ticket.saturating_add(1);
        PermissionRequest {
            tool_name: tool_name.to_owned(),
            input_summary: tui::summarize_tool_input(input),
            ticket,
        }
    }

    /// The rule to keep after the user answered: a tool that was allowed once
    /// stays allowed.
    pub fn rule_to_save(tool_name: &str, allowed: bool) -> (r: Option<(String, String)>)
        ensures
            r.deep_view() == (if allowed {
                Some((tool_name@, "allow"@))
            } else {
                None
            }),
    {
        if allowed {
            Some((tool_name.to_owned(), "allow".to_owned()))
        } else {
            None
        }
    }
}

/// What the interface shows. `scroll` is the first line shown; the greatest
/// number stands for the end.
pub struct AppState {
    pub messages: Vec<ChatMessage>,
    pub agent_kind: String,
    pub model: String,
    pub session_label: String,
    pub input: String,
    pub scroll: usize,
    pub max_scroll: usize,
    pub thinking: bool,
    pub spinner: u64,
    pub active_turn: Option<ActiveTurn>,
    pub tool_starts: Vec<(String, i64)>,
    pub pending_permission: Option<PendingPermission>,
    pub usage_in: u64,
    pub usage_out: u64,
    pub usage_cache: u64,
    pub show_reasoning: bool,
}

/// The contents of an `AppState`.
pub struct AppView {
    pub messages: Seq<tui::ChatView>,
    pub agent_kind: Seq<char>,
    pub model: Seq<char>,
    pub session_label: Seq<char>,
    pub input: Seq<char>,
    pub scroll: usize,
    pub max_scroll: usize,
    pub thinking: bool,
    pub spinner: u64,
    pub active_turn: Option<Seq<turn::ItemView>>,
    pub tool_starts: Seq<(Seq<char>, i64)>,
    pub pending_permission: Option<PendingView>,
    pub usage_in: u64,
    pub usage_out: u64,
    pub usage_cache: u64,
    pub show_reasoning: bool,
}

impl DeepView for AppState {
    type V = AppView;

    open spec fn deep_view(&self) -> AppView {
        AppView {
            messages: self.messages.deep_view(),
            agent_kind: self.agent_kind@,
            model: self.model@,
            session_label: self.session_label@,
            input: self.input@,
            scroll: self.scroll,
            max_scroll: self.max_scroll,
            thinking: self.thinking,
            spinner: self.spinner,
            active_turn: self.active_turn.deep_view(),
            tool_starts: self.tool_starts.deep_view(),
            pending_permission: self.pending_permission.deep_view(),
            usage_in: self.usage_in,
            usage_out: self.usage_out,
            usage_cache: self.usage_cache,
            show_reasoning: self.show_reasoning,
        }
    }
}

/// Whether the first eight bytes of `id` are whole characters.
pub open spec fn can_shorten(id: Seq<char>) -> bool {
    text::byte_len(id) > 8 ==> text::byte_len(text::fit(id, 8)) == 8
}

/// The label of a session: the first eight bytes of its id.
pub open spec fn label_of(id: Seq<char>) -> Seq<char> {
    text::fit(id, 8)
}

/// Every ASCII id has a label: its first eight characters.
pub proof fn ascii_ids_have_labels(id: Seq<char>)
    requires
        vstd::utf8::is_ascii_chars(id),
    ensures
        can_shorten(id),
        id.len() > 8 ==> label_of(id) == id.take(8),
{
    text::ascii_fits(id, 8);
    if id.len() > 8 {
        let start = id.take(8);
        assert forall|i: int| 0 <= i < start.len() implies '\0' <= #[trigger] start[i] <= '\u{7f}' by {
            assert(start[i] == id[i]);
        }
        text::ascii_fits(start, 8);
    }
}

/// The label of a session.
pub fn session_label(id: &str) -> (r: String)
    requires
        can_shorten(id@),
    ensures
        r@ == label_of(id@),
        text::byte_len(id@) <= 8 ==> r@ == id@,
{
    proof {
        text::fit_is_longest(id@, 8);
    }
    text::fitting(id, 8)
}

// ── Starts of tools ──

/// Where the start of the tool `name` is noted.
pub open spec fn start_at(starts: Seq<(Seq<char>, i64)>, name: Seq<char>) -> Option<int>
    decreases starts.len(),
{
    if starts.len() == 0 {
        None
    } else if starts[0].0 == name {
        Some(0)
    } else {
        match start_at(starts.drop_first(), name) {
            Some(i) => Some(i + 1),
            None => None,
        }
    }
}

/// The starts after the tool `name` started.
pub open spec fn with_start(starts: Seq<(Seq<char>, i64)>, name: Seq<char>, ts: i64) -> Seq<
    (Seq<char>, i64),
> {
    match start_at(starts, name) {
        Some(i) => starts.update(i, (name, ts)),
        None => starts.push((name, ts)),
    }
}

/// The starts after the tool `name` ended.
pub open spec fn without_start(starts: Seq<(Seq<char>, i64)>, name: Seq<char>) -> Seq<
    (Seq<char>, i64),
> {
    match start_at(starts, name) {
        Some(i) => starts.remove(i),
        None => starts,
    }
}

/// `b - a`, kept within 64 bits.
pub open spec fn span_ms(a: i64, b: i64) -> i64 {
    if b - a > i64::MAX {
        i64::MAX
    } else if b - a < i64::MIN {
        i64::MIN
    } else {
        (b - a) as i64
    }
}

/// The milliseconds that the tool `name` took, none where its start was not
/// noted.
pub open spec fn took(starts: Seq<(Seq<char>, i64)>, name: Seq<char>, ts: i64) -> i64 {
    match start_at(starts, name) {
        Some(i) => span_ms(starts[i].1, ts),
        None => 0,
    }
}

fn find_start(starts: &Vec<(String, i64)>, name: &str) -> (r: Option<usize>)
    ensures
        match r {
            Some(i) => i < starts@.len() && start_at(starts.deep_view(), name@) == Some(i as int),
            None => start_at(starts.deep_view(), name@) is None,
        },
{
    let ghost all = starts.deep_view();
    let mut i: usize = 0;
    assert(all.skip(0) =~= all);
    while i < starts.len()
        invariant
            i <= starts@.len(),
            all == starts.deep_view(),
            start_at(all, name@) == (match start_at(all.skip(i as int), name@) {
                Some(k) => Some(k + i),
                None => None,
            }),
        decreases starts@.len() - i,
    {
        assert(all[i as int] == starts@[i as int].deep_view());
        if text::same(starts[i].0.as_str(), name) {
            return Some(i);
        }
        assert(all.skip(i as int).drop_first() =~= all.skip(i + 1));
        i = i + 1;
    }
    None
}

fn note_start(starts: &mut Vec<(String, i64)>, name: &str, ts: i64)
    ensures
        final(starts).deep_view() == with_start(old(starts).deep_view(), name@, ts),
{
    let ghost before = starts.deep_view();
    match find_start(starts, name) {
        Some(i) => {
            starts.set(i, (name.to_owned(), ts));
            assert(starts.deep_view() =~= before.update(i as int, (name@, ts)));
        },
        None => {
            starts.push((name.to_owned(), ts));
            assert(starts.deep_view() =~= before.push((name@, ts)));
        },
    }
}

fn take_start(starts: &mut Vec<(String, i64)>, name: &str, ts: i64) -> (r: Option<i64>)
    ensures
        final(starts).deep_view() == without_start(old(starts).deep_view(), name@),
        match r {
            Some(ms) => ms == took(old(starts).deep_view(), name@, ts),
            None => took(old(starts).deep_view(), name@, ts) == 0,
        },
{
    let ghost before = starts.deep_view();
    match find_start(starts, name) {
        Some(i) => {
            assert(before[i as int] == starts@[i as int].deep_view());
            let (_, start) = starts.remove(i);
            assert(starts.deep_view() =~= before.remove(i as int));
            let span: i128 = ts as i128 - start as i128;
            if span > i64::MAX as i128 {
                Some(i64::MAX)
            } else if span < i64::MIN as i128 {
                Some(i64::MIN)
            } else {
                Some(span as i64)
            }
        },
        None => None,
    }
}

// ── Replies ──

/// Whether an entry is reasoning.
pub open spec fn has_reasoning(items: Seq<turn::ItemView>) -> bool {
    exists|i: int| 0 <= i < items.len() && (#[trigger] items[i]) is Reasoning
}

/// Whether there is text that is not empty.
pub open spec fn has_text(items: Seq<turn::ItemView>) -> bool {
    exists|i: int|
        0 <= i < items.len() && (#[trigger] items[i]) is Text && items[i]->Text_0.len() > 0
}

/// Whether there is text that ends in `s`, up to white space at the ends.
pub open spec fn shows(items: Seq<turn::ItemView>, s: Seq<char>) -> bool {
    exists|i: int|
        0 <= i < items.len() && (#[trigger] items[i]) is Text && text::trim(s).is_suffix_of(
            text::trim(items[i]->Text_0),
        )
}

/// The timeline with the reasoning of the reply before it, unless it shows
/// reasoning already.
pub open spec fn with_thought(items: Seq<turn::ItemView>, reasoning: Option<Seq<char>>) -> Seq<
    turn::ItemView,
> {
    match reasoning {
        Some(r) => if r.len() > 0 && !has_reasoning(items) {
            items.insert(0, turn::ItemView::Reasoning(r))
        } else {
            items
        },
        None => items,
    }
}

/// The timeline with the complete reply in place of the part of it that was
/// streamed last.
pub open spec fn completed(items: Seq<turn::ItemView>, s: Seq<char>) -> Seq<turn::ItemView> {
    if items.len() > 0 && items.last() is Text && items.last()->Text_0.is_prefix_of(s)
        && items.last()->Text_0.len() < s.len() {
        items.update(items.len() - 1, turn::ItemView::Text(s))
    } else {
        items
    }
}

/// The timeline of a turn that ended with a reply: the reply stands in it,
/// behind the tools.
pub open spec fn concluded(
    items: Seq<turn::ItemView>,
    s: Seq<char>,
    reasoning: Option<Seq<char>>,
) -> Seq<turn::ItemView> {
    let thought = with_thought(items, reasoning);
    if s.len() == 0 {
        if thought.len() == 0 {
            seq![turn::ItemView::Text("(no response)"@)]
        } else {
            thought
        }
    } else {
        let whole = completed(thought, s);
        if !shows(whole, s) || !has_text(thought) {
            whole.push(turn::ItemView::Text(s))
        } else {
            whole
        }
    }
}

/// What is said of the tokens of a turn.
pub open spec fn usage_text(u: types::Usage) -> Seq<char> {
    number::decimal(u.input_tokens as nat) + "↑ "@ + number::decimal(u.output_tokens as nat) + "↓"@
        + (match u.cache_read_input_tokens {
        Some(c) => if c > 0 {
            " cache:"@ + number::decimal(c as nat)
        } else {
            Seq::empty()
        },
        None => Seq::empty(),
    })
}

fn say_usage(u: &types::Usage) -> (r: String)
    ensures
        r@ == usage_text(*u),
{
    let head = text::cat4(
        number::u64_text(u.input_tokens).as_str(),
        "↑ ",
        number::u64_text(u.output_tokens).as_str(),
        "↓",
    );
    let cache = match u.cache_read_input_tokens {
        Some(c) => if c > 0 {
            text::cat2(" cache:", number::u64_text(c).as_str())
        } else {
            String::new()
        },
        None => String::new(),
    };
    text::cat2(head.as_str(), cache.as_str())
}

fn any_reasoning(items: &Vec<TurnItem>) -> (r: bool)
    ensures
        r == has_reasoning(items.deep_view()),
{
    let ghost all = items.deep_view();
    let mut i: usize = 0;
    while i < items.len()
        invariant
            i <= items@.len(),
            all == items.deep_view(),
            forall|j: int| 0 <= j < i ==> !((#[trigger] all[j]) is Reasoning),
        decreases items@.len() - i,
    {
        assert(all[i as int] == items@[i as int].deep_view());
        if matches!(items[i], TurnItem::Reasoning(_)) {
            assert(all[i as int] is Reasoning);
            return true;
        }
        i = i + 1;
    }
    false
}

fn any_text(items: &Vec<TurnItem>) -> (r: bool)
    ensures
        r == has_text(items.deep_view()),
{
    let ghost all = items.deep_view();
    let mut i: usize = 0;
    while i < items.len()
        invariant
            i <= items@.len(),
            all == items.deep_view(),
            forall|j: int| 0 <= j < i ==> !((#[trigger] all[j]) is Text && all[j]->Text_0.len() > 0),
        decreases items@.len() - i,
    {
        assert(all[i as int] == items@[i as int].deep_view());
        if let TurnItem::Text(t) = &items[i] {
            if !t.as_str().is_empty() {
                assert(all[i as int] is Text);
                return true;
            }
        }
        i = i + 1;
    }
    false
}

fn any_shows(items: &Vec<TurnItem>, s: &str) -> (r: bool)
    ensures
        r == shows(items.deep_view(), s@),
{
    let ghost all = items.deep_view();
    let last = text::trimmed(s);
    let mut i: usize = 0;
    while i < items.len()
        invariant
            i <= items@.len(),
            all == items.deep_view(),
            last@ == text::trim(s@),
            forall|j: int|
                0 <= j < i ==> !((#[trigger] all[j]) is Text && text::trim(s@).is_suffix_of(
                    text::trim(all[j]->Text_0),
                )),
        decreases items@.len() - i,
    {
        assert(all[i as int] == items@[i as int].deep_view());
        if let TurnItem::Text(t) = &items[i] {
            let shown = text::trimmed(t.as_str());
            if text::has_suffix(shown.as_str(), last.as_str()) {
                assert(all[i as int] is Text);
                return true;
            }
        }
        i = i + 1;
    }
    false
}

fn conclude(items: Vec<TurnItem>, output: &AgentOutput) -> (r: Vec<TurnItem>)
    ensures
        r.deep_view() == concluded(
            items.deep_view(),
            output.text@,
            output.reasoning.deep_view(),
        ),
{
    let ghost first = items.deep_view();
    let mut items = items;
    if let Some(r) = &output.reasoning {
        if !r.as_str().is_empty() && !any_reasoning(&items) {
            items.insert(0, TurnItem::Reasoning(r.clone()));
            assert(items.deep_view() =~= first.insert(0, turn::ItemView::Reasoning(r@)));
        }
    }
    let ghost thought = items.deep_view();
    assert(thought.len() == items@.len());
    let s = output.text.as_str();
    if s.is_empty() {
        if items.len() == 0 {
            turn::push_item(&mut items, TurnItem::Text("(no response)".to_owned()));
            assert(items.deep_view() =~= seq![turn::ItemView::Text("(no response)"@)]);
        }
        return items;
    }
    let had_text = any_text(&items);
    let n: usize = items.len();
    let mut replace = false;
    if n > 0 {
        assert(thought.last() == items@[n - 1].deep_view());
        if let TurnItem::Text(t) = &items[n - 1] {
            if text::has_prefix(s, t.as_str()) {
                replace = text::chars_of(t.as_str()).len() < text::chars_of(s).len();
            }
        }
    }
    if replace {
        turn::set_item(&mut items, n - 1, TurnItem::Text(output.text.clone()));
    }
    assert(items.deep_view() == completed(thought, s@));
    if !any_shows(&items, s) || !had_text {
        turn::push_item(&mut items, TurnItem::Text(output.text.clone()));
    }
    items
}

/// The state after a reply.
pub open spec fn replied(a: AppView, o: agent::OutputView) -> AppView {
    let items = match a.active_turn {
        Some(items) => items,
        None => Seq::empty(),
    };
    AppView {
        messages: a.messages.push(
            tui::ChatView {
                role: "assistant"@,
                items: concluded(items, o.text, o.reasoning),
                usage: match o.usage {
                    Some(u) => Some(usage_text(u)),
                    None => None,
                },
            },
        ),
        active_turn: None,
        thinking: false,
        usage_in: match o.usage {
            Some(u) => u.input_tokens,
            None => a.usage_in,
        },
        usage_out: match o.usage {
            Some(u) => u.output_tokens,
            None => a.usage_out,
        },
        usage_cache: match o.usage {
            Some(u) => types::counted(u.cache_read_input_tokens) as u64,
            None => a.usage_cache,
        },
        ..a
    }
}

/// The timeline of the turn under way, empty where there is none.
pub open spec fn under_way(a: AppView) -> Seq<turn::ItemView> {
    match a.active_turn {
        Some(items) => items,
        None => Seq::empty(),
    }
}

/// The state after a report of the run.
pub open spec fn progressed(a: AppView, e: agent::ProgressView) -> AppView {
    let items = under_way(a);
    match e {
        agent::ProgressView::LlmCall { iteration } => AppView {
            active_turn: Some(
                if iteration > 1 {
                    items.push(turn::ItemView::Step(iteration))
                } else {
                    items
                },
            ),
            ..a
        },
        agent::ProgressView::Token { text } => AppView {
            active_turn: Some(turn::with_text(items, text)),
            ..a
        },
        agent::ProgressView::ReasoningToken { text } => AppView {
            active_turn: Some(turn::with_reasoning(items, text)),
            ..a
        },
        agent::ProgressView::ToolCallStarted { name, input, ts } => AppView {
            tool_starts: with_start(a.tool_starts, name, ts),
            active_turn: Some(
                items.push(
                    turn::ItemView::Tool(
                        turn::ToolLineView {
                            name,
                            target: tui::target_in(name, input),
                            status: turn::StatusView::Running,
                        },
                    ),
                ),
            ),
            ..a
        },
        agent::ProgressView::ToolCallFinished { name, status, error, ts } => AppView {
            tool_starts: without_start(a.tool_starts, name),
            active_turn: Some(
                turn::with_status(
                    items,
                    name,
                    turn::end_status(status, error, took(a.tool_starts, name, ts)),
                ),
            ),
            ..a
        },
        agent::ProgressView::DiffAvailable { diff } => AppView {
            active_turn: Some(turn::with_diff(items, diff)),
            ..a
        },
        agent::ProgressView::ContentWritten { path, content } => AppView {
            active_turn: Some(turn::with_file(items, path, content)),
            ..a
        },
        _ => AppView { active_turn: Some(items), ..a },
    }
}

impl AppState {
    pub fn new(agent_kind: &str, session_id: &str) -> (r: Self)
        requires
            can_shorten(session_id@),
        ensures
            r.deep_view() == (AppView {
                messages: Seq::empty(),
                agent_kind: agent_kind@,
                model: "deepseek-chat"@,
                session_label: label_of(session_id@),
                input: Seq::empty(),
                scroll: usize::MAX,
                max_scroll: 0,
                thinking: false,
                spinner: 0,
                active_turn: None,
                tool_starts: Seq::empty(),
                pending_permission: None,
                usage_in: 0,
                usage_out: 0,
                usage_cache: 0,
                show_reasoning: true,
            }),
    {
        let r = AppState {
            messages: Vec::new(),
            agent_kind: agent_kind.to_owned(),
            model: "deepseek-chat".to_owned(),
            session_label: session_label(session_id),
            input: String::new(),
            scroll: usize::MAX,
            max_scroll: 0,
            thinking: false,
            spinner: 0,
            active_turn: None,
            tool_starts: Vec::new(),
            pending_permission: None,
            usage_in: 0,
            usage_out: 0,
            usage_cache: 0,
            show_reasoning: true,
        };
        assert(r.messages.deep_view() =~= Seq::<tui::ChatView>::empty());
        assert(r.tool_starts.deep_view() =~= Seq::<(Seq<char>, i64)>::empty());
        r
    }

    pub fn begin_turn(&mut self)
        ensures
            final(self).deep_view() == (AppView {
                thinking: true,
                active_turn: Some(Seq::empty()),
                tool_starts: Seq::empty(),
                ..old(self).deep_view()
            }),
    {
        self.thinking = true;
        self.active_turn = Some(ActiveTurn::new());
        self.tool_starts = Vec::new();
        assert(self.tool_starts.deep_view() =~= Seq::<(Seq<char>, i64)>::empty());
    }

    pub fn clear_conversation(&mut self)
        ensures
            final(self).deep_view() == (AppView {
                messages: Seq::empty(),
                scroll: usize::MAX,
                thinking: false,
                active_turn: None,
                tool_starts: Seq::empty(),
                ..old(self).deep_view()
            }),
    {
        self.messages = Vec::new();
        self.scroll = usize::MAX;
        self.thinking = false;
        self.active_turn = None;
        self.tool_starts = Vec::new();
        assert(self.messages.deep_view() =~= Seq::<tui::ChatView>::empty());
        assert(self.tool_starts.deep_view() =~= Seq::<(Seq<char>, i64)>::empty());
    }

    pub fn add_user_message(&mut self, s: &str)
        ensures
            final(self).deep_view() == (AppView {
                messages: old(self).deep_view().messages.push(tui::text_message("user"@, s@)),
                scroll: usize::MAX,
                ..old(self).deep_view()
            }),
    {
        tui::push_message(&mut self.messages, tui::make_text_message("user", s));
        self.scroll = usize::MAX;
    }

    pub fn add_system_message(&mut self, s: &str)
        ensures
            final(self).deep_view() == (AppView {
                messages: old(self).deep_view().messages.push(tui::text_message("system"@, s@)),
                scroll: usize::MAX,
                ..old(self).deep_view()
            }),
    {
        tui::push_message(&mut self.messages, tui::make_text_message("system", s));
        self.scroll = usize::MAX;
    }

    /// Closes the turn with its reply.
    pub fn add_agent_message(&mut self, output: &AgentOutput)
        ensures
            final(self).deep_view() == replied(old(self).deep_view(), output.deep_view()),
    {
        let items = match self.active_turn.take() {
            Some(turn) => turn.items,
            None => {
                let none: Vec<TurnItem> = Vec::new();
                assert(none.deep_view() =~= Seq::<turn::ItemView>::empty());
                none
            },
        };
        let items = conclude(items, output);
        let mut usage: Option<String> = None;
        if let Some(u) = &output.usage {
            self.usage_in = u.input_tokens;
            self.usage_out = u.output_tokens;
            self.usage_cache = match u.cache_read_input_tokens {
                Some(c) => c,
                None => 0,
            };
            usage = Some(say_usage(u));
        }
        tui::push_message(
            &mut self.messages,
            ChatMessage { role: "assistant".to_owned(), items, usage },
        );
        self.thinking = false;
    }

    /// Takes in a report of the run.
    pub fn apply_progress(&mut self, ev: &ProgressEvent)
        ensures
            final(self).deep_view() == progressed(old(self).deep_view(), ev.deep_view()),
    {
        let mut turn = match self.active_turn.take() {
            Some(turn) => turn,
            None => ActiveTurn::new(),
        };
        match ev {
            ProgressEvent::LlmCall { iteration } => {
                turn.push_step(*iteration);
            },
            ProgressEvent::Token { text } => {
                turn.append_text(text.as_str());
            },
            ProgressEvent::ReasoningToken { text } => {
                turn.append_reasoning(text.as_str());
            },
            ProgressEvent::ToolCallStarted { name, input, ts } => {
                note_start(&mut self.tool_starts, name.as_str(), *ts);
                let target = tui::extract_tool_target(name.as_str(), input.as_str());
                turn.push_tool_start(name.as_str(), target.as_str());
            },
            ProgressEvent::ToolCallFinished { name, status, error, ts } => {
                let ms = take_start(&mut self.tool_starts, name.as_str(), *ts);
                turn.finish_tool(name.as_str(), status.as_str(), error, ms);
            },
            ProgressEvent::DiffAvailable { diff } => {
                turn.push_diff(diff.as_str());
            },
            ProgressEvent::ContentWritten { path, content } => {
                turn.push_written_file(path.as_str(), content.as_str());
            },
            _ => {},
        }
        self.active_turn = Some(turn);
    }

    /// Puts a question to the user. The ticket of a question that is given up
    /// for it comes back.
    pub fn take_permission_request(&mut self, req: PermissionRequest) -> (r: Option<u64>)
        ensures
            final(self).deep_view() == (AppView {
                pending_permission: Some(
                    PendingView {
                        tool_name: req.tool_name@,
                        input_summary: req.input_summary@,
                        ticket: req.ticket,
                    },
                ),
                ..old(self).deep_view()
            }),
            r == (match old(self).deep_view().pending_permission {
                Some(p) => Some(p.ticket),
                None => None,
            }),
    {
        let dropped = match &self.pending_permission {
            Some(p) => Some(p.ticket),
            None => None,
        };
        self.pending_permission = Some(
            PendingPermission {
                tool_name: req.tool_name,
                input_summary: req.input_summary,
                ticket: req.ticket,
            },
        );
        dropped
    }

    /// Answers the question that is pending.
    pub fn respond_permission(&mut self, allowed: bool) -> (r: Option<PermissionAnswer>)
        ensures
            final(self).deep_view() == (AppView {
                pending_permission: None,
                ..old(self).deep_view()
            }),
            r == (match old(self).deep_view().pending_permission {
                Some(p) => Some(PermissionAnswer { ticket: p.ticket, allowed }),
                None => None,
            }),
    {
        match self.pending_permission.take() {
            Some(p) => Some(p.respond(allowed)),
            None => None,
        }
    }

    /// Closes the turn with an error.
    pub fn push_turn_error(&mut self, message: &str)
        ensures
            final(self).deep_view() == (AppView {
                messages: old(self).deep_view().messages.push(
                    tui::ChatView {
                        role: "assistant"@,
                        items: under_way(old(self).deep_view()).push(
                            turn::ItemView::Text("✘ "@ + message@),
                        ),
                        usage: None,
                    },
                ),
                active_turn: None,
                thinking: false,
                ..old(self).deep_view()
            }),
    {
        let mut turn = match self.active_turn.take() {
            Some(turn) => turn,
            None => ActiveTurn::new(),
        };
        turn::push_item(&mut turn.items, TurnItem::Text(text::cat2("✘ ", message)));
        tui::push_message(
            &mut self.messages,
            ChatMessage { role: "assistant".to_owned(), items: turn.items, usage: None },
        );
        self.thinking = false;
    }

    pub fn has_pending_permission(&self) -> (r: bool)
        ensures
            r == self.deep_view().pending_permission is Some,
    {
        self.pending_permission.is_some()
    }

    /// Turns the spinner on.
    pub fn tick(&mut self)
        ensures
            final(self).deep_view() == (AppView {
                spinner: types::capped((old(self).spinner + 1) as nat),
                ..old(self).deep_view()
            }),
    {
        self.spinner = self.spinner.saturating_add(1);
    }
}

// ── Laws ──

/// A reply that is not empty is shown, whatever the turn held before.
pub proof fn replies_are_shown(
    items: Seq<turn::ItemView>,
    s: Seq<char>,
    reasoning: Option<Seq<char>>,
)
    requires
        s.len() > 0,
    ensures
        shows(concluded(items, s, reasoning), s),
{
    let thought = with_thought(items, reasoning);
    let whole = completed(thought, s);
    if !shows(whole, s) || !has_text(thought) {
        let after = whole.push(turn::ItemView::Text(s));
        let t = text::trim(s);
        assert(t.subrange(t.len() - t.len(), t.len() as int) =~= t);
        assert(after[whole.len() as int] == turn::ItemView::Text(s));
    }
}

/// A turn is never shown empty.
pub proof fn turns_are_not_empty(
    items: Seq<turn::ItemView>,
    s: Seq<char>,
    reasoning: Option<Seq<char>>,
)
    ensures
        concluded(items, s, reasoning).len() > 0,
{
    if s.len() > 0 {
        replies_are_shown(items, s, reasoning);
    }
}

/// A reply that was streamed whole is not shown twice.
pub proof fn streamed_replies_stand_once(items: Seq<turn::ItemView>, s: Seq<char>)
    requires
        s.len() > 0,
        items.len() > 0,
        items.last() == turn::ItemView::Text(s),
    ensures
        concluded(items, s, None) == items,
{
    let t = text::trim(s);
    assert(t.subrange(t.len() - t.len(), t.len() as int) =~= t);
    let i = items.len() - 1;
    assert(items[i] is Text);
    assert(shows(items, s));
    assert(has_text(items));
}

/// The time of a tool is counted from its last start.
pub proof fn tools_are_timed(starts: Seq<(Seq<char>, i64)>, name: Seq<char>, start: i64, end: i64)
    ensures
        took(with_start(starts, name, start), name, end) == span_ms(start, end),
    decreases starts.len(),
{
    lemma_start_at(starts, name);
    let after = with_start(starts, name, start);
    lemma_start_at(after, name);
    match start_at(starts, name) {
        Some(i) => {
            assert(after[i].0 == name);
            let k = start_at(after, name).unwrap();
            if k < i {
                assert(after[k] == starts[k]);
            }
        },
        None => {
            assert(after[starts.len() as int].0 == name);
            let k = start_at(after, name).unwrap();
            if k < starts.len() {
                assert(after[k] == starts[k]);
            }
        },
    }
}

proof fn lemma_start_at(starts: Seq<(Seq<char>, i64)>, name: Seq<char>)
    ensures
        match start_at(starts, name) {
            Some(i) => 0 <= i < starts.len() && starts[i].0 == name && forall|j: int|
                0 <= j < i ==> (#[trigger] starts[j]).0 != name,
            None => forall|j: int| 0 <= j < starts.len() ==> (#[trigger] starts[j]).0 != name,
        },
    decreases starts.len(),
{
    if starts.len() > 0 && starts[0].0 != name {
        let rest = starts.drop_first();
        lemma_start_at(rest, name);
        assert forall|j: int| 0 < j < starts.len() implies #[trigger] starts[j] == rest[j - 1] by {}
    }
}

/// What a run reports is shown in the turn under way and nowhere else: the
/// messages, the input and the rest of the state stay as they are.
pub proof fn reports_concern_the_turn(a: AppView, e: agent::ProgressView)
    ensures
        ({
            let b = progressed(a, e);
            &&& b.active_turn is Some
            &&& b == (AppView { active_turn: b.active_turn, tool_starts: b.tool_starts, ..a })
            &&& !(e is ToolCallStarted) && !(e is ToolCallFinished) ==> b.tool_starts
                == a.tool_starts
        }),
{
}

/// Text and reasoning that come in are shown as they come, behind what came
/// before.
pub proof fn tokens_are_shown(a: AppView, s: Seq<char>)
    ensures
        turn::text_of_items(
            progressed(a, agent::ProgressView::Token { text: s }).active_turn.unwrap(),
        ) == turn::text_of_items(under_way(a)) + s,
        turn::reasoning_of_items(
            progressed(a, agent::ProgressView::ReasoningToken { text: s }).active_turn.unwrap(),
        ) == turn::reasoning_of_items(under_way(a)) + s,
{
    turn::incoming_text_is_kept(under_way(a), s);
    turn::incoming_reasoning_is_kept(under_way(a), s);
}

/// A tool that starts is shown at the end, as running, under its name and with
/// its target; what was shown before stays.
pub proof fn started_tools_are_shown(a: AppView, name: Seq<char>, input: Seq<char>, ts: i64)
    ensures
        ({
            let b = progressed(a, agent::ProgressView::ToolCallStarted { name, input, ts });
            let items = b.active_turn.unwrap();
            &&& items.drop_last() == under_way(a)
            &&& items.last() == turn::ItemView::Tool(
                turn::ToolLineView {
                    name,
                    target: tui::target_in(name, input),
                    status: turn::StatusView::Running,
                },
            )
            &&& start_at(b.tool_starts, name) matches Some(i) && b.tool_starts[i] == (name, ts)
        }),
{
    let b = progressed(a, agent::ProgressView::ToolCallStarted { name, input, ts });
    assert(b.active_turn.unwrap().drop_last() =~= under_way(a));
    lemma_start_at(a.tool_starts, name);
    lemma_start_at(b.tool_starts, name);
    match start_at(a.tool_starts, name) {
        Some(i) => {
            assert(b.tool_starts[i].0 == name);
            let k = start_at(b.tool_starts, name).unwrap();
            if k < i {
                assert(b.tool_starts[k] == a.tool_starts[k]);
            }
        },
        None => {
            assert(b.tool_starts[a.tool_starts.len() as int].0 == name);
            let k = start_at(b.tool_starts, name).unwrap();
            if k < a.tool_starts.len() {
                assert(b.tool_starts[k] == a.tool_starts[k]);
            }
        },
    }
}

/// A tool that ends brings its last running call to an end, with the time since
/// it started and with its error where it failed.
pub proof fn ended_tools_are_shown(
    a: AppView,
    name: Seq<char>,
    status: Seq<char>,
    error: Option<Seq<char>>,
    ts: i64,
)
    ensures
        ({
            let b = progressed(
                a,
                agent::ProgressView::ToolCallFinished { name, status, error, ts },
            );
            let ms = took(a.tool_starts, name, ts);
            &&& status == "error"@ && error is Some ==> b.active_turn == Some(
                turn::with_status(
                    under_way(a),
                    name,
                    turn::StatusView::Error { msg: error.unwrap(), ms },
                ),
            )
            &&& status != "error"@ ==> b.active_turn == Some(
                turn::with_status(under_way(a), name, turn::StatusView::Done { ms }),
            )
        }),
{
}

/// Steps behind the first, changes and written files are shown at the end of
/// the turn.
pub proof fn steps_and_files_are_shown(
    a: AppView,
    iteration: u32,
    diff: Seq<char>,
    path: Seq<char>,
    content: Seq<char>,
)
    ensures
        ({
            let b = progressed(a, agent::ProgressView::LlmCall { iteration }).active_turn;
            &&& iteration > 1 ==> b == Some(under_way(a).push(turn::ItemView::Step(iteration)))
            &&& iteration <= 1 ==> b == Some(under_way(a))
        }),
        progressed(a, agent::ProgressView::DiffAvailable { diff }).active_turn == Some(
            turn::with_diff(under_way(a), diff),
        ),
        progressed(
            a,
            agent::ProgressView::ContentWritten { path, content },
        ).active_turn.unwrap().contains(turn::ItemView::WrittenFile { path, content }),
{
    turn::written_files_are_shown(under_way(a), path, content);
}

/// Starting and ending a tool leaves the starts of other tools as they are.
pub proof fn other_starts_stay(
    starts: Seq<(Seq<char>, i64)>,
    name: Seq<char>,
    other: Seq<char>,
    ts: i64,
    end: i64,
)
    requires
        name != other,
    ensures
        took(with_start(starts, name, ts), other, end) == took(starts, other, end),
        took(without_start(starts, name), other, end) == took(starts, other, end),
{
    lemma_start_at(starts, name);
    lemma_start_at(starts, other);
    let after = with_start(starts, name, ts);
    lemma_start_at(after, other);
    if let Some(i) = start_at(starts, other) {
        assert(after[i] == starts[i]);
        let k = start_at(after, other).unwrap();
        if k < starts.len() {
            assert(after[k].0 == other);
            assert(starts[k].0 == other || start_at(starts, name) == Some(k));
        }
    } else if start_at(after, other) is Some {
        let k = start_at(after, other).unwrap();
        if k < starts.len() {
            assert(after[k] == starts[k] || start_at(starts, name) == Some(k));
        }
    }
    let less = without_start(starts, name);
    lemma_start_at(less, other);
    if let Some(n) = start_at(starts, name) {
        assert forall|j: int| 0 <= j < n implies #[trigger] less[j] == starts[j] by {}
        assert forall|j: int| n <= j < less.len() implies #[trigger] less[j] == starts[j + 1] by {}
        if let Some(i) = start_at(starts, other) {
            if i < n {
                assert(less[i] == starts[i]);
            } else {
                assert(less[i - 1] == starts[i]);
            }
            let k = start_at(less, other).unwrap();
            if k < n {
                assert(starts[k].0 == other);
            } else {
                assert(starts[k + 1].0 == other);
            }
        } else if start_at(less, other) is Some {
            let k = start_at(less, other).unwrap();
            if k < n {
                assert(starts[k].0 == other);
            } else {
                assert(starts[k + 1].0 == other);
            }
        }
    }
}

/// The time of a tool is that between its start and its end, as far as it can
/// be told.
pub proof fn times_are_differences(a: i64, b: i64)
    ensures
        i64::MIN <= b - a <= i64::MAX ==> span_ms(a, b) == b - a,
        b >= a ==> span_ms(a, b) >= 0,
{
}

/// A reply closes the turn: it is shown as a message of the assistant behind
/// those there were, which stay, and the program waits for the user again. The
/// usage it reports is shown.
pub proof fn replies_close_the_turn(a: AppView, o: agent::OutputView)
    ensures
        ({
            let b = replied(a, o);
            &&& b.messages.drop_last() == a.messages
            &&& b.messages.last().role == "assistant"@
            &&& b.messages.last().items == concluded(under_way(a), o.text, o.reasoning)
            &&& b.active_turn is None
            &&& !b.thinking
            &&& b.input == a.input
            &&& o.usage matches Some(u) ==> b.usage_in == u.input_tokens && b.usage_out
                == u.output_tokens && b.usage_cache == types::counted(u.cache_read_input_tokens)
                && b.messages.last().usage == Some(usage_text(u))
            &&& o.usage is None ==> b.usage_in == a.usage_in && b.usage_out == a.usage_out
                && b.usage_cache == a.usage_cache && b.messages.last().usage is None
        }),
{
    assert(replied(a, o).messages.drop_last() =~= a.messages);
}

/// The usage of a turn is told by its counts.
pub proof fn usage_is_told(u: types::Usage)
    ensures
        text::holds(usage_text(u), number::decimal(u.input_tokens as nat)),
        text::holds(usage_text(u), number::decimal(u.output_tokens as nat)),
        u.cache_read_input_tokens matches Some(c) ==> (c > 0 ==> text::holds(
            usage_text(u),
            number::decimal(c as nat),
        )),
{
    let none = Seq::<char>::empty();
    let i = number::decimal(u.input_tokens as nat);
    let o = number::decimal(u.output_tokens as nat);
    let tail = match u.cache_read_input_tokens {
        Some(c) => if c > 0 {
            " cache:"@ + number::decimal(c as nat)
        } else {
            Seq::empty()
        },
        None => Seq::empty(),
    };
    let all = usage_text(u);
    text::holds_itself(i);
    text::holds_itself(o);
    text::whole_holds_parts(none, i, "↑ "@ + o + "↓"@ + tail, i);
    assert(all =~= none + i + ("↑ "@ + o + "↓"@ + tail));
    text::whole_holds_parts(i + "↑ "@, o, "↓"@ + tail, o);
    assert(all =~= i + "↑ "@ + o + ("↓"@ + tail));
    if let Some(c) = u.cache_read_input_tokens {
        if c > 0 {
            let d = number::decimal(c as nat);
            text::holds_itself(d);
            text::whole_holds_parts(i + "↑ "@ + o + "↓"@ + " cache:"@, d, none, d);
            assert(all =~= i + "↑ "@ + o + "↓"@ + " cache:"@ + d + none);
        }
    }
}

/// What a turn showed stays when it ends: its tools, changes and files are all
/// there, in order, and nothing that it showed is lost.
pub proof fn turns_keep_what_they_showed(
    items: Seq<turn::ItemView>,
    s: Seq<char>,
    reasoning: Option<Seq<char>>,
    i: int,
)
    requires
        0 <= i < items.len(),
    ensures
        ({
            let after = concluded(items, s, reasoning);
            let shift: int = if reasoning is Some && reasoning.unwrap().len() > 0
                && !has_reasoning(items) {
                1
            } else {
                0
            };
            &&& i + shift < after.len()
            &&& !(items[i] is Text) ==> after[i + shift] == items[i]
            &&& items[i] matches turn::ItemView::Text(t) ==> (after[i
                + shift] matches turn::ItemView::Text(u) && t.is_prefix_of(u))
            &&& shift == 1 ==> after[0] == turn::ItemView::Reasoning(reasoning.unwrap())
        }),
{
    let thought = with_thought(items, reasoning);
    let shift: int = if reasoning is Some && reasoning.unwrap().len() > 0 && !has_reasoning(items) {
        1
    } else {
        0
    };
    assert(thought[i + shift] == items[i]);
    let whole = completed(thought, s);
    if let turn::ItemView::Text(t) = items[i] {
        assert(t.subrange(0, t.len() as int) =~= t);
    }
}

/// The label of a session is the start of its id.
pub proof fn labels_start_the_id(id: Seq<char>)
    ensures
        label_of(id).is_prefix_of(id),
        text::byte_len(label_of(id)) <= 8,
        text::byte_len(id) <= 8 ==> label_of(id) == id,
{
    text::fit_is_longest(id, 8);
}

/// A reply of which only a start was streamed takes the place of that start; a
/// turn without a reply says so only where it showed nothing else.
pub proof fn replies_complete_what_was_streamed(
    items: Seq<turn::ItemView>,
    start: Seq<char>,
    s: Seq<char>,
)
    requires
        items.len() > 0,
        items.last() == turn::ItemView::Text(start),
        start.len() > 0,
        start.is_prefix_of(s),
        start.len() < s.len(),
    ensures
        concluded(items, s, None) == items.update(items.len() - 1, turn::ItemView::Text(s)),
        concluded(items, Seq::empty(), None) == items,
        concluded(Seq::empty(), Seq::empty(), None).len() == 1,
{
    let whole = items.update(items.len() - 1, turn::ItemView::Text(s));
    let t = text::trim(s);
    assert(t.subrange(t.len() - t.len(), t.len() as int) =~= t);
    assert(whole[items.len() - 1] is Text);
    assert(shows(whole, s));
    assert(items[items.len() - 1] is Text && items[items.len() - 1]->Text_0.len() > 0);
    assert(has_text(items));
}

/// A reply that was not streamed is added behind what the turn showed.
pub proof fn replies_that_were_not_streamed_are_added(items: Seq<turn::ItemView>, s: Seq<char>)
    requires
        s.len() > 0,
        forall|i: int| 0 <= i < items.len() ==> !((#[trigger] items[i]) is Text),
    ensures
        concluded(items, s, None) == items.push(turn::ItemView::Text(s)),
{
    if has_text(items) {
        let i = choose|i: int|
            0 <= i < items.len() && (#[trigger] items[i]) is Text && items[i]->Text_0.len() > 0;
        assert(!(items[i] is Text));
    }
    if items.len() > 0 {
        assert(!(items[items.len() - 1] is Text));
    }
}

} // verus!
