//! The streamed reply of the model: from bytes to lines, from lines to chunks,
//! from chunks to events.
use vstd::prelude::*;
use crate::ids;
use crate::json;
use crate::json::Json;
use crate::llm;
use crate::text;
use crate::types;
use crate::types::{FinishReason, LlmEvent, Usage};

verus! {

broadcast use vstd::seq::group_seq_axioms;

// ── Lines ──

/// What a line of the stream carries.
pub enum Frame {
    /// The stream is complete.
    Done,
    /// The text of a chunk.
    Data(String),
}

/// The contents of a `Frame`.
pub enum FrameView {
    Done,
    Data(Seq<char>),
}

impl DeepView for Frame {
    type V = FrameView;

    open spec fn deep_view(&self) -> FrameView {
        match *self {
            Frame::Done => FrameView::Done,
            Frame::Data(s) => FrameView::Data(s@),
        }
    }
}

/// What a trimmed line carries. Only lines that start with `data: ` carry
/// anything.
pub open spec fn frame_of(line: Seq<char>) -> Option<FrameView> {
    if !"data: "@.is_prefix_of(line) {
        None
    } else if line.skip(6) == "[DONE]"@ {
        Some(FrameView::Done)
    } else {
        Some(FrameView::Data(line.skip(6)))
    }
}

/// Where the first line of `s` ends.
pub open spec fn line_end(s: Seq<char>) -> Option<int> {
    text::find(s, "\n"@)
}

/// What the complete lines of `s` carry, and the incomplete line at the end.
pub open spec fn frames(s: Seq<char>) -> (Seq<FrameView>, Seq<char>)
    decreases s.len(),
    when true
    via frames_decreases
{
    match line_end(s) {
        None => (Seq::empty(), s),
        Some(n) => {
            let rest = frames(s.skip(n + 1));
            match frame_of(text::trim(s.take(n))) {
                Some(f) => (seq![f] + rest.0, rest.1),
                None => rest,
            }
        },
    }
}

#[via_fn]
proof fn frames_decreases(s: Seq<char>) {
    text::lemma_find(s, "\n"@);
    reveal_strlit("\n");
}

fn read_frame(line: &str) -> (r: Option<Frame>)
    ensures
        r.deep_view() == frame_of(line@),
{
    proof {
        reveal_strlit("data: ");
    }
    if !text::has_prefix(line, "data: ") {
        return None;
    }
    let v = text::chars_of(line);
    let data = text::string_of(&v, 6, v.len());
    assert(data@ =~= line@.skip(6));
    if text::same(data.as_str(), "[DONE]") {
        Some(Frame::Done)
    } else {
        Some(Frame::Data(data))
    }
}

/// The part of a stream that has been received and not read.
pub struct LineBuffer {
    pub buffer: String,
}

/// The first frame in a buffer and what follows its line; without a frame,
/// the incomplete line that is left.
pub open spec fn next_of(s: Seq<char>) -> (Option<FrameView>, Seq<char>)
    decreases s.len(),
    when true
    via next_of_decreases
{
    match line_end(s) {
        None => (None, s),
        Some(n) => match frame_of(text::trim(s.take(n))) {
            Some(f) => (Some(f), s.skip(n + 1)),
            None => next_of(s.skip(n + 1)),
        },
    }
}

#[via_fn]
proof fn next_of_decreases(s: Seq<char>) {
    text::lemma_find(s, "\n"@);
    reveal_strlit("\n");
}

impl LineBuffer {
    pub fn new() -> (r: Self)
        ensures
            r.buffer@ == Seq::<char>::empty(),
    {
        LineBuffer { buffer: String::new() }
    }

    /// Adds what was received.
    pub fn push_text(&mut self, received: &str)
        ensures
            final(self).buffer@ == old(self).buffer@ + received@,
    {
        self.buffer.append(received);
    }

    /// Adds bytes that were received, read as UTF-8. Each piece is read by
    /// itself: a character that is cut between two pieces is not put together.
    pub fn push_bytes(&mut self, bytes: &Vec<u8>)
        ensures
            final(self).buffer@ == old(self).buffer@ + text::utf8_lossy(bytes@),
    {
        let received = text::from_bytes(bytes);
        self.push_text(received.as_str());
    }

    /// Takes lines off the buffer up to the first that carries something.
    pub fn next_frame(&mut self) -> (r: Option<Frame>)
        ensures
            (r.deep_view(), final(self).buffer@) == next_of(old(self).buffer@),
    {
        let v = text::chars_of(self.buffer.as_str());
        let nl = text::chars_of("\n");
        proof {
            reveal_strlit("\n");
        }
        let mut i: usize = 0;
        assert(v@.skip(0) =~= v@);
        loop
            invariant
                i <= v@.len(),
                nl@ == "\n"@,
                nl@.len() == 1,
                v@ == old(self).buffer@,
                next_of(v@) == next_of(v@.skip(i as int)),
            decreases v@.len() - i,
        {
            let ghost rest = v@.skip(i as int);
            match text::find_from(&v, i, &nl) {
                None => {
                    assert(v@.subrange(i as int, v@.len() as int) =~= rest);
                    self.buffer = text::string_of(&v, i, v.len());
                    return None;
                },
                Some(k) => {
                    let line = text::string_of(&v, i, k);
                    assert(line@ =~= rest.take(k - i));
                    assert(rest.skip(k - i + 1) =~= v@.skip(k + 1));
                    let trimmed = text::trimmed(line.as_str());
                    assert(k < v.len());
                    i = k + 1;
                    if let Some(f) = read_frame(trimmed.as_str()) {
                        assert(v@.subrange(i as int, v@.len() as int) =~= v@.skip(i as int));
                        self.buffer = text::string_of(&v, i, v.len());
                        return Some(f);
                    }
                },
            }
        }
    }
}

proof fn lemma_line_end_append(a: Seq<char>, b: Seq<char>)
    requires
        line_end(a) is Some,
    ensures
        line_end(a + b) == line_end(a),
    decreases a.len(),
{
    reveal_strlit("\n");
    text::lemma_find(a, "\n"@);
    if "\n"@.is_prefix_of(a) {
        assert("\n"@.is_prefix_of(a + b)) by {
            assert((a + b).subrange(0, 1) =~= a.subrange(0, 1));
        }
    } else {
        assert(!"\n"@.is_prefix_of(a + b)) by {
            assert((a + b).subrange(0, 1) =~= a.subrange(0, 1));
        }
        assert((a + b).drop_first() =~= a.drop_first() + b);
        lemma_line_end_append(a.drop_first(), b);
    }
}

/// How the text of a stream is cut into pieces does not matter: what is read of one
/// piece, and then of its incomplete line with the next piece, is what is read
/// of both together.
pub proof fn pieces_do_not_matter(a: Seq<char>, b: Seq<char>)
    ensures
        frames(a + b).0 == frames(a).0 + frames(frames(a).1 + b).0,
        frames(a + b).1 == frames(frames(a).1 + b).1,
    decreases a.len(),
{
    reveal_strlit("\n");
    match line_end(a) {
        None => {
            assert(Seq::<FrameView>::empty() + frames(a + b).0 =~= frames(a + b).0);
        },
        Some(n) => {
            text::lemma_find(a, "\n"@);
            lemma_line_end_append(a, b);
            let rest = a.skip(n + 1);
            pieces_do_not_matter(rest, b);
            assert((a + b).take(n) =~= a.take(n));
            assert((a + b).skip(n + 1) =~= rest + b);
            match frame_of(text::trim(a.take(n))) {
                Some(f) => {
                    assert(seq![f] + (frames(rest).0 + frames(frames(rest).1 + b).0) =~= (seq![f]
                        + frames(rest).0) + frames(frames(rest).1 + b).0);
                },
                None => {},
            }
        },
    }
}

/// Taking frames one by one gives them all, in order.
pub proof fn taking_gives_all(s: Seq<char>)
    ensures
        match next_of(s) {
            (Some(f), rest) => frames(s) == (seq![f] + frames(rest).0, frames(rest).1),
            (None, rest) => frames(s) == (Seq::<FrameView>::empty(), rest),
        },
    decreases s.len(),
{
    reveal_strlit("\n");
    match line_end(s) {
        None => {},
        Some(n) => {
            text::lemma_find(s, "\n"@);
            if frame_of(text::trim(s.take(n))) is None {
                taking_gives_all(s.skip(n + 1));
            }
        },
    }
}

// ── Chunks ──

/// The usage that a chunk reports.
#[derive(Debug, Clone, Copy, PartialEq, Eq)]
pub struct StreamUsage {
    pub input_tokens: u64,
    pub output_tokens: u64,
    pub cache_read_input_tokens: Option<u64>,
}

/// One piece of the reply.
pub struct StreamChunk {
    pub choices: Vec<Choice>,
    pub usage: Option<StreamUsage>,
}

pub struct Choice {
    pub delta: Delta,
    pub finish_reason: Option<String>,
}

pub struct Delta {
    pub content: Option<String>,
    pub reasoning_content: Option<String>,
    pub tool_calls: Option<Vec<DeltaToolCall>>,
}

pub struct DeltaToolCall {
    pub index: u64,
    pub id: Option<String>,
    pub function: Option<DeltaFunction>,
}

pub struct DeltaFunction {
    pub name: Option<String>,
    pub arguments: Option<String>,
}

/// The contents of a `DeltaToolCall`.
pub struct FragmentView {
    pub index: u64,
    pub id: Option<Seq<char>>,
    pub name: Option<Seq<char>>,
    pub arguments: Option<Seq<char>>,
}

impl DeepView for DeltaToolCall {
    type V = FragmentView;

    open spec fn deep_view(&self) -> FragmentView {
        FragmentView {
            index: self.index,
            id: self.id.deep_view(),
            name: match self.function {
                Some(f) => f.name.deep_view(),
                None => None,
            },
            arguments: match self.function {
                Some(f) => f.arguments.deep_view(),
                None => None,
            },
        }
    }
}

/// The contents of a `Choice`.
pub struct ChoiceView {
    pub content: Option<Seq<char>>,
    pub reasoning: Option<Seq<char>>,
    pub fragments: Seq<FragmentView>,
    pub finish_reason: Option<Seq<char>>,
}

impl DeepView for Choice {
    type V = ChoiceView;

    open spec fn deep_view(&self) -> ChoiceView {
        ChoiceView {
            content: self.delta.content.deep_view(),
            reasoning: self.delta.reasoning_content.deep_view(),
            fragments: match self.delta.tool_calls {
                Some(c) => c.deep_view(),
                None => Seq::empty(),
            },
            finish_reason: self.finish_reason.deep_view(),
        }
    }
}

/// A tool call as far as it has been received.
pub struct AccToolCall {
    pub index: u64,
    pub id: String,
    pub name: String,
    pub args: String,
}

/// The contents of an `AccToolCall`.
pub struct AccView {
    pub index: u64,
    pub id: Seq<char>,
    pub name: Seq<char>,
    pub args: Seq<char>,
}

impl DeepView for AccToolCall {
    type V = AccView;

    open spec fn deep_view(&self) -> AccView {
        AccView { index: self.index, id: self.id@, name: self.name@, args: self.args@ }
    }
}

/// What has been received of a reply.
pub struct Assembly {
    pub text_id: String,
    pub reasoning_id: String,
    pub calls: Vec<AccToolCall>,
    pub usage: Option<Usage>,
    /// Why the model stopped, once it has said so.
    pub reason: Option<FinishReason>,
}

/// The contents of an `Assembly`.
pub struct AssemblyView {
    pub text_id: Seq<char>,
    pub reasoning_id: Seq<char>,
    pub calls: Seq<AccView>,
    pub usage: Option<Usage>,
    pub reason: Option<types::FinishView>,
}

impl DeepView for Assembly {
    type V = AssemblyView;

    open spec fn deep_view(&self) -> AssemblyView {
        AssemblyView {
            text_id: self.text_id@,
            reasoning_id: self.reasoning_id@,
            calls: self.calls.deep_view(),
            usage: self.usage,
            reason: self.reason.deep_view(),
        }
    }
}

/// Whether the calls stand in the order of their indices, each index once.
pub open spec fn in_order(calls: Seq<AccView>) -> bool {
    forall|i: int, j: int|
        0 <= i < j < calls.len() ==> (#[trigger] calls[i]).index < (#[trigger] calls[j]).index
}

/// Where the call with this index stands, or would stand.
pub open spec fn slot(calls: Seq<AccView>, index: u64) -> int
    decreases calls.len(),
{
    if calls.len() == 0 || calls[0].index >= index {
        0
    } else {
        1 + slot(calls.drop_first(), index)
    }
}

pub open spec fn is_known(calls: Seq<AccView>, index: u64) -> bool {
    let k = slot(calls, index);
    k < calls.len() && calls[k].index == index
}

/// The call with this index, as far as it has been received.
pub open spec fn call_at(calls: Seq<AccView>, index: u64) -> AccView {
    if is_known(calls, index) {
        calls[slot(calls, index)]
    } else {
        AccView { index, id: Seq::empty(), name: Seq::empty(), args: Seq::empty() }
    }
}

/// A call after a fragment of it: an id or a name replaces the one there was,
/// arguments go on.
pub open spec fn extended(call: AccView, f: FragmentView) -> AccView {
    AccView {
        index: call.index,
        id: match f.id {
            Some(id) => id,
            None => call.id,
        },
        name: match f.name {
            Some(name) => name,
            None => call.name,
        },
        args: match f.arguments {
            Some(more) => call.args + more,
            None => call.args,
        },
    }
}

/// The calls after a fragment.
pub open spec fn with_fragment(calls: Seq<AccView>, f: FragmentView) -> Seq<AccView> {
    let k = slot(calls, f.index);
    let call = extended(call_at(calls, f.index), f);
    if is_known(calls, f.index) {
        calls.update(k, call)
    } else {
        calls.insert(k, call)
    }
}

/// What a fragment is reported as: nothing without arguments; the first of a
/// call announces the call.
pub open spec fn fragment_events(calls: Seq<AccView>, f: FragmentView) -> Seq<types::EventView> {
    let call = extended(call_at(calls, f.index), f);
    match f.arguments {
        None => Seq::empty(),
        Some(more) => {
            let delta = seq![
                types::EventView::ToolCallDelta { id: call.id, name: call.name, text: more },
            ];
            if is_known(calls, f.index) {
                delta
            } else {
                seq![types::EventView::ToolCallStart { id: call.id, name: call.name }] + delta
            }
        },
    }
}

/// The calls after fragments, and what these are reported as.
pub open spec fn with_fragments(calls: Seq<AccView>, fs: Seq<FragmentView>) -> (
    Seq<AccView>,
    Seq<types::EventView>,
)
    decreases fs.len(),
{
    if fs.len() == 0 {
        (calls, Seq::empty())
    } else {
        let (before, events) = with_fragments(calls, fs.drop_last());
        (with_fragment(before, fs.last()), events + fragment_events(before, fs.last()))
    }
}

/// The input of a call: its arguments where they are JSON, else a string that
/// holds them.
pub open spec fn input_of(args: Seq<char>) -> Seq<char> {
    match json::json_compact(args) {
        Some(v) => v,
        None => json::json_quote(args),
    }
}

/// What the end of one call is reported as: nothing without an id or a name.
pub open spec fn end_of_call(call: AccView) -> Seq<types::EventView> {
    if call.id.len() == 0 || call.name.len() == 0 {
        Seq::empty()
    } else {
        seq![
            types::EventView::ToolCallEnd { id: call.id, name: call.name },
            types::EventView::ToolCallReceived {
                id: call.id,
                name: call.name,
                input: input_of(call.args),
            },
        ]
    }
}

/// What the ends of calls are reported as.
pub open spec fn ends_of_calls(calls: Seq<AccView>) -> Seq<types::EventView>
    decreases calls.len(),
{
    if calls.len() == 0 {
        Seq::empty()
    } else {
        ends_of_calls(calls.drop_last()) + end_of_call(calls.last())
    }
}

/// What the end of the text and of the reasoning is reported as.
pub open spec fn ends_of_text(a: AssemblyView) -> Seq<types::EventView> {
    (if a.text_id.len() == 0 {
        Seq::empty()
    } else {
        seq![types::EventView::TextEnd { id: a.text_id }]
    }) + (if a.reasoning_id.len() == 0 {
        Seq::empty()
    } else {
        seq![types::EventView::ReasoningEnd { id: a.reasoning_id }]
    })
}

/// What the end of the text, of the reasoning and of the calls is reported as.
pub open spec fn closing(a: AssemblyView) -> Seq<types::EventView> {
    ends_of_text(a) + ends_of_calls(a.calls)
}

/// Why a reply that ends now has stopped.
pub open spec fn last_reason(a: AssemblyView) -> types::FinishView {
    match a.reason {
        Some(reason) => reason,
        None => types::FinishView::Stop,
    }
}

/// What the end of the reply is reported as, with the usage that came by then.
/// Where the model said why it stopped, the rest has been closed before.
pub open spec fn ending(a: AssemblyView) -> Seq<types::EventView> {
    (if a.reason is Some {
        Seq::empty()
    } else {
        closing(a)
    }) + seq![
        types::EventView::StepFinish { index: 0, reason: last_reason(a), usage: a.usage },
        types::EventView::Finish { reason: last_reason(a), usage: a.usage },
    ]
}

/// What a reason to finish is called in the stream.
pub open spec fn reason_of(s: Seq<char>) -> types::FinishView {
    if s == "stop"@ {
        types::FinishView::Stop
    } else if s == "length"@ {
        types::FinishView::Length
    } else if s == "content_filter"@ {
        types::FinishView::ContentFiltered
    } else if s == "tool_calls"@ {
        types::FinishView::ToolCalls
    } else {
        types::FinishView::Other(s)
    }
}

/// What a step of the assembly gives: the state after it, and what is
/// reported.
pub struct StepView {
    pub state: AssemblyView,
    pub events: Seq<types::EventView>,
}

/// The text of a choice: the first text takes the id `fresh`.
pub open spec fn text_step(a: AssemblyView, content: Option<Seq<char>>, fresh: Seq<char>) -> (
    AssemblyView,
    Seq<types::EventView>,
) {
    match content {
        None => (a, Seq::empty()),
        Some(text) => if a.text_id.len() == 0 {
            (
                AssemblyView { text_id: fresh, ..a },
                seq![
                    types::EventView::TextStart { id: fresh },
                    types::EventView::TextDelta { id: fresh, text },
                ],
            )
        } else {
            (a, seq![types::EventView::TextDelta { id: a.text_id, text }])
        },
    }
}

/// The reasoning of a choice: the first reasoning takes the id `fresh`.
pub open spec fn reasoning_step(
    a: AssemblyView,
    reasoning: Option<Seq<char>>,
    fresh: Seq<char>,
) -> (AssemblyView, Seq<types::EventView>) {
    match reasoning {
        None => (a, Seq::empty()),
        Some(text) => if a.reasoning_id.len() == 0 {
            (
                AssemblyView { reasoning_id: fresh, ..a },
                seq![
                    types::EventView::ReasoningStart { id: fresh },
                    types::EventView::ReasoningDelta { id: fresh, text },
                ],
            )
        } else {
            (a, seq![types::EventView::ReasoningDelta { id: a.reasoning_id, text }])
        },
    }
}

/// One choice. A reason to finish is kept, and closes the text, the reasoning
/// and the calls; the rest of such a choice, and every choice behind it, is not
/// looked at.
pub open spec fn choice_step(
    a: AssemblyView,
    c: ChoiceView,
    text_id: Seq<char>,
    reasoning_id: Seq<char>,
) -> StepView {
    if a.reason is Some {
        StepView { state: a, events: Seq::empty() }
    } else {
        match c.finish_reason {
            Some(reason) => StepView {
                state: AssemblyView { reason: Some(reason_of(reason)), ..a },
                events: closing(a),
            },
            None => {
                let (calls, call_events) = with_fragments(a.calls, c.fragments);
                let (b, text_events) = text_step(AssemblyView { calls, ..a }, c.content, text_id);
                let (d, reasoning_events) = reasoning_step(b, c.reasoning, reasoning_id);
                StepView { state: d, events: call_events + text_events + reasoning_events }
            },
        }
    }
}

/// Choices one after the other.
pub open spec fn choices_step(
    a: AssemblyView,
    cs: Seq<ChoiceView>,
    text_id: Seq<char>,
    reasoning_id: Seq<char>,
) -> StepView
    decreases cs.len(),
{
    if cs.len() == 0 {
        StepView { state: a, events: Seq::empty() }
    } else {
        let before = choices_step(a, cs.drop_last(), text_id, reasoning_id);
        let last = choice_step(before.state, cs.last(), text_id, reasoning_id);
        StepView { state: last.state, events: before.events + last.events }
    }
}

/// The usage after a chunk: the last one reported counts.
pub open spec fn usage_after(before: Option<Usage>, reported: Option<StreamUsage>) -> Option<Usage> {
    match reported {
        Some(u) => Some(
            Usage {
                input_tokens: u.input_tokens,
                output_tokens: u.output_tokens,
                cache_read_input_tokens: u.cache_read_input_tokens,
                cache_write_input_tokens: None,
            },
        ),
        None => before,
    }
}

/// One chunk.
pub open spec fn chunk_step(
    a: AssemblyView,
    choices: Seq<ChoiceView>,
    usage: Option<StreamUsage>,
    text_id: Seq<char>,
    reasoning_id: Seq<char>,
) -> StepView {
    choices_step(
        AssemblyView { usage: usage_after(a.usage, usage), ..a },
        choices,
        text_id,
        reasoning_id,
    )
}

proof fn lemma_slot(calls: Seq<AccView>, index: u64)
    requires
        in_order(calls),
    ensures
        0 <= slot(calls, index) <= calls.len(),
        forall|j: int| 0 <= j < slot(calls, index) ==> (#[trigger] calls[j]).index < index,
        forall|j: int| slot(calls, index) <= j < calls.len() ==> (#[trigger] calls[j]).index >= index,
    decreases calls.len(),
{
    if calls.len() > 0 && calls[0].index < index {
        let rest = calls.drop_first();
        assert(in_order(rest)) by {
            assert forall|i: int, j: int| 0 <= i < j < rest.len() implies (#[trigger] rest[i]).index
                < (#[trigger] rest[j]).index by {
                assert(rest[i] == calls[i + 1]);
                assert(rest[j] == calls[j + 1]);
            }
        }
        lemma_slot(rest, index);
        assert forall|j: int| 0 < j < calls.len() implies #[trigger] calls[j] == rest[j - 1] by {}
    }
}

/// A fragment extends the call of its index, leaves every other call as it
/// was, and keeps the calls in order.
pub proof fn fragments_keep_apart(calls: Seq<AccView>, f: FragmentView, other: u64)
    requires
        in_order(calls),
        other != f.index,
    ensures
        in_order(with_fragment(calls, f)),
        call_at(with_fragment(calls, f), f.index) == extended(call_at(calls, f.index), f),
        call_at(with_fragment(calls, f), other) == call_at(calls, other),
{
    let after = with_fragment(calls, f);
    let k = slot(calls, f.index);
    lemma_slot(calls, f.index);
    lemma_slot(calls, other);
    if is_known(calls, f.index) {
        assert forall|j: int| 0 <= j < calls.len() implies (#[trigger] after[j]).index
            == calls[j].index by {}
    } else {
        assert forall|j: int| 0 <= j < k implies #[trigger] after[j] == calls[j] by {}
        assert forall|j: int| k < j < after.len() implies #[trigger] after[j] == calls[j - 1] by {}
    }
    assert(in_order(after));
    lemma_slot(after, f.index);
    lemma_slot(after, other);
    assert(after[k].index == f.index);
    let m = slot(calls, other);
    if is_known(calls, other) {
        if is_known(calls, f.index) || m < k {
            assert(after[m] == calls[m]);
        } else {
            assert(after[m + 1] == calls[m]);
        }
    } else if is_known(after, other) {
        let n = slot(after, other);
        if is_known(calls, f.index) || n < k {
            assert(calls[n].index == other);
        } else {
            assert(calls[n - 1].index == other);
        }
    }
}

/// Calls stay in order through any fragments.
pub proof fn fragments_keep_order(calls: Seq<AccView>, fs: Seq<FragmentView>)
    requires
        in_order(calls),
    ensures
        in_order(with_fragments(calls, fs).0),
    decreases fs.len(),
{
    if fs.len() > 0 {
        fragments_keep_order(calls, fs.drop_last());
        let before = with_fragments(calls, fs.drop_last()).0;
        let f = fs.last();
        let other: u64 = if f.index == 0 { 1 } else { 0 };
        fragments_keep_apart(before, f, other);
    }
}

/// The arguments in the fragments of one call, one after the other.
pub open spec fn arguments_of(fs: Seq<FragmentView>, index: u64) -> Seq<char>
    decreases fs.len(),
{
    if fs.len() == 0 {
        Seq::empty()
    } else {
        arguments_of(fs.drop_last(), index) + match fs.last().arguments {
            Some(more) => if fs.last().index == index {
                more
            } else {
                Seq::empty()
            },
            None => Seq::empty(),
        }
    }
}

/// The arguments of a call are those of its fragments put together, however
/// they are mixed with the fragments of other calls.
pub proof fn arguments_are_put_together(fs: Seq<FragmentView>, index: u64)
    ensures
        call_at(with_fragments(Seq::empty(), fs).0, index).args == arguments_of(fs, index),
    decreases fs.len(),
{
    if fs.len() > 0 {
        let rest = fs.drop_last();
        arguments_are_put_together(rest, index);
        fragments_keep_order(Seq::empty(), rest);
        let before = with_fragments(Seq::empty(), rest).0;
        let f = fs.last();
        if f.index == index {
            let other: u64 = if index == 0 { 1 } else { 0 };
            fragments_keep_apart(before, f, other);
        } else {
            fragments_keep_apart(before, f, index);
        }
        assert(arguments_of(rest, index) + Seq::<char>::empty() =~= arguments_of(rest, index));
    }
}

fn find_slot(calls: &Vec<AccToolCall>, index: u64) -> (k: usize)
    ensures
        k == slot(calls.deep_view(), index),
        k <= calls@.len(),
{
    let ghost all = calls.deep_view();
    let mut k: usize = 0;
    assert(all.skip(0) =~= all);
    while k < calls.len() && calls[k].index < index
        invariant
            k <= calls@.len(),
            all == calls.deep_view(),
            slot(all, index) == k + slot(all.skip(k as int), index),
        decreases calls@.len() - k,
    {
        assert(all.skip(k as int)[0] == calls@[k as int].deep_view());
        assert(all.skip(k as int).drop_first() =~= all.skip(k + 1));
        k = k + 1;
    }
    if k < calls.len() {
        assert(all.skip(k as int)[0] == calls@[k as int].deep_view());
    }
    k
}

fn read_input(args: &str) -> (r: Json)
    ensures
        r@ == input_of(args@),
{
    match Json::parse(args) {
        Some(v) => v,
        None => Json::string(args),
    }
}

/// The reason to finish that the stream names.
pub fn read_reason(s: &str) -> (r: FinishReason)
    ensures
        r.deep_view() == reason_of(s@),
{
    if text::same(s, "stop") {
        FinishReason::Stop
    } else if text::same(s, "length") {
        FinishReason::Length
    } else if text::same(s, "content_filter") {
        FinishReason::ContentFiltered
    } else if text::same(s, "tool_calls") {
        FinishReason::ToolCalls
    } else {
        FinishReason::Other(s.to_owned())
    }
}

fn push_event(events: &mut Vec<LlmEvent>, event: LlmEvent)
    ensures
        final(events).deep_view() == old(events).deep_view().push(event.deep_view()),
{
    events.push(event);
    assert(events.deep_view() =~= old(events).deep_view().push(event.deep_view()));
}

impl Assembly {
    /// Whether the calls stand in the order of their indices.
    pub open spec fn wf(&self) -> bool {
        in_order(self.calls.deep_view())
    }

    /// Nothing has been received.
    pub fn new() -> (r: Self)
        ensures
            r.wf(),
            r.deep_view() == (AssemblyView {
                text_id: Seq::empty(),
                reasoning_id: Seq::empty(),
                calls: Seq::empty(),
                usage: None,
                reason: None,
            }),
    {
        let r = Assembly {
            text_id: String::new(),
            reasoning_id: String::new(),
            calls: Vec::new(),
            usage: None,
            reason: None,
        };
        assert(r.calls.deep_view() =~= Seq::<AccView>::empty());
        r
    }

    /// What the start of the reply is reported as.
    pub fn start() -> (r: LlmEvent)
        ensures
            r.deep_view() == (types::EventView::StepStart { index: 0 }),
    {
        LlmEvent::StepStart { index: 0 }
    }

    fn add_fragment(&mut self, f: &DeltaToolCall, events: &mut Vec<LlmEvent>)
        ensures
            final(self).deep_view() == (AssemblyView {
                calls: with_fragment(old(self).deep_view().calls, f.deep_view()),
                ..old(self).deep_view()
            }),
            final(events).deep_view() == old(events).deep_view() + fragment_events(
                old(self).deep_view().calls,
                f.deep_view(),
            ),
    {
        let ghost calls = self.calls.deep_view();
        let ghost before = events.deep_view();
        let k: usize = find_slot(&self.calls, f.index);
        let is_new = !(k < self.calls.len() && self.calls[k].index == f.index);
        let mut call = if is_new {
            AccToolCall {
                index: f.index,
                id: String::new(),
                name: String::new(),
                args: String::new(),
            }
        } else {
            AccToolCall {
                index: f.index,
                id: self.calls[k].id.clone(),
                name: self.calls[k].name.clone(),
                args: self.calls[k].args.clone(),
            }
        };
        assert(is_new == !is_known(calls, f.index));
        assert(call.deep_view() == call_at(calls, f.index));
        if let Some(id) = &f.id {
            call.id = id.clone();
        }
        if let Some(function) = &f.function {
            if let Some(name) = &function.name {
                call.name = name.clone();
            }
            if let Some(more) = &function.arguments {
                if is_new {
                    push_event(
                        events,
                        LlmEvent::ToolCallStart { id: call.id.clone(), name: call.name.clone() },
                    );
                }
                push_event(
                    events,
                    LlmEvent::ToolCallDelta {
                        id: call.id.clone(),
                        name: call.name.clone(),
                        text: more.clone(),
                    },
                );
                call.args.append(more.as_str());
            }
        }
        assert(call.deep_view() == extended(call_at(calls, f.index), f.deep_view()));
        assert(events.deep_view() =~= before + fragment_events(calls, f.deep_view()));
        let ghost done = call.deep_view();
        if is_new {
            self.calls.insert(k, call);
            assert(self.calls.deep_view() =~= calls.insert(k as int, done));
        } else {
            self.calls.set(k, call);
            assert(self.calls.deep_view() =~= calls.update(k as int, done));
        }
    }

    fn add_fragments(&mut self, fs: &Vec<DeltaToolCall>, events: &mut Vec<LlmEvent>)
        ensures
            final(self).deep_view() == (AssemblyView {
                calls: with_fragments(old(self).deep_view().calls, fs.deep_view()).0,
                ..old(self).deep_view()
            }),
            final(events).deep_view() == old(events).deep_view() + with_fragments(
                old(self).deep_view().calls,
                fs.deep_view(),
            ).1,
    {
        let ghost first = self.deep_view();
        let ghost before = events.deep_view();
        let mut i: usize = 0;
        assert(before + Seq::<types::EventView>::empty() =~= before);
        while i < fs.len()
            invariant
                i <= fs@.len(),
                first == old(self).deep_view(),
                self.deep_view() == (AssemblyView {
                    calls: with_fragments(first.calls, fs.deep_view().take(i as int)).0,
                    ..first
                }),
                events.deep_view() == before + with_fragments(
                    first.calls,
                    fs.deep_view().take(i as int),
                ).1,
            decreases fs@.len() - i,
        {
            let ghost next = fs.deep_view().take(i + 1);
            let ghost so_far = with_fragments(first.calls, fs.deep_view().take(i as int));
            assert(next.drop_last() =~= fs.deep_view().take(i as int));
            self.add_fragment(&fs[i], events);
            assert(before + (so_far.1 + fragment_events(so_far.0, next.last())) =~= before
                + so_far.1 + fragment_events(so_far.0, next.last()));
            i = i + 1;
        }
        assert(fs.deep_view().take(i as int) =~= fs.deep_view());
    }

    fn end_calls(&self, events: &mut Vec<LlmEvent>)
        ensures
            final(events).deep_view() == old(events).deep_view() + ends_of_calls(
                self.deep_view().calls,
            ),
    {
        let ghost before = events.deep_view();
        let ghost calls = self.calls.deep_view();
        let mut i: usize = 0;
        assert(before + Seq::<types::EventView>::empty() =~= before);
        while i < self.calls.len()
            invariant
                i <= self.calls@.len(),
                calls == self.calls.deep_view(),
                events.deep_view() == before + ends_of_calls(calls.take(i as int)),
            decreases self.calls@.len() - i,
        {
            let ghost so_far = events.deep_view();
            assert(calls.take(i + 1).drop_last() =~= calls.take(i as int));
            let call = &self.calls[i];
            if !call.id.as_str().is_empty() && !call.name.as_str().is_empty() {
                push_event(
                    events,
                    LlmEvent::ToolCallEnd { id: call.id.clone(), name: call.name.clone() },
                );
                push_event(
                    events,
                    LlmEvent::ToolCallReceived {
                        id: call.id.clone(),
                        name: call.name.clone(),
                        input: read_input(call.args.as_str()),
                    },
                );
            }
            assert(events.deep_view() =~= so_far + end_of_call(call.deep_view()));
            assert(before + (ends_of_calls(calls.take(i as int)) + end_of_call(call.deep_view()))
                =~= so_far + end_of_call(call.deep_view()));
            i = i + 1;
        }
        assert(calls.take(i as int) =~= calls);
    }

    fn push_closing(&self, events: &mut Vec<LlmEvent>)
        ensures
            final(events).deep_view() == old(events).deep_view() + closing(self.deep_view()),
    {
        let ghost before = events.deep_view();
        let ghost a = self.deep_view();
        if !self.text_id.as_str().is_empty() {
            push_event(events, LlmEvent::TextEnd { id: self.text_id.clone() });
        }
        if !self.reasoning_id.as_str().is_empty() {
            push_event(events, LlmEvent::ReasoningEnd { id: self.reasoning_id.clone() });
        }
        assert(events.deep_view() =~= before + ends_of_text(a));
        self.end_calls(events);
        assert(events.deep_view() =~= before + closing(a));
    }

    /// What is reported when the reply ends: with the reason that the model
    /// gave, else as one that simply stopped, and with the usage that came.
    pub fn finish(&self) -> (r: Vec<LlmEvent>)
        ensures
            r.deep_view() == ending(self.deep_view()),
    {
        let mut r: Vec<LlmEvent> = Vec::new();
        let reason = match &self.reason {
            Some(reason) => reason.clone(),
            None => {
                self.push_closing(&mut r);
                FinishReason::Stop
            },
        };
        push_event(
            &mut r,
            LlmEvent::StepFinish { index: 0, reason: reason.clone(), usage: self.usage },
        );
        push_event(&mut r, LlmEvent::Finish { reason, usage: self.usage });
        assert(r.deep_view() =~= ending(self.deep_view()));
        r
    }

    fn on_choice(
        &mut self,
        c: &Choice,
        text_id: &str,
        reasoning_id: &str,
        events: &mut Vec<LlmEvent>,
    )
        ensures
            ({
                let step = choice_step(
                    old(self).deep_view(),
                    c.deep_view(),
                    text_id@,
                    reasoning_id@,
                );
                &&& final(self).deep_view() == step.state
                &&& final(events).deep_view() == old(events).deep_view() + step.events
            }),
    {
        let ghost before = events.deep_view();
        if self.reason.is_some() {
            assert(before + Seq::<types::EventView>::empty() =~= before);
            return ;
        }
        if let Some(reason) = &c.finish_reason {
            self.push_closing(events);
            self.reason = Some(read_reason(reason.as_str()));
            return ;
        }
        let ghost step = choice_step(self.deep_view(), c.deep_view(), text_id@, reasoning_id@);
        if let Some(fs) = &c.delta.tool_calls {
            self.add_fragments(fs, events);
        } else {
            assert(self.deep_view().calls == with_fragments(
                self.deep_view().calls,
                c.deep_view().fragments,
            ).0);
        }
        if let Some(content) = &c.delta.content {
            if self.text_id.as_str().is_empty() {
                self.text_id = text_id.to_owned();
                push_event(events, LlmEvent::TextStart { id: self.text_id.clone() });
            }
            push_event(
                events,
                LlmEvent::TextDelta { id: self.text_id.clone(), text: content.clone() },
            );
        }
        if let Some(reasoning) = &c.delta.reasoning_content {
            if self.reasoning_id.as_str().is_empty() {
                self.reasoning_id = reasoning_id.to_owned();
                push_event(events, LlmEvent::ReasoningStart { id: self.reasoning_id.clone() });
            }
            push_event(
                events,
                LlmEvent::ReasoningDelta { id: self.reasoning_id.clone(), text: reasoning.clone() },
            );
        }
        assert(events.deep_view() =~= before + step.events);
    }

    /// Takes a chunk in and says what is reported of it. Text and reasoning
    /// that start in it take the ids given.
    pub fn on_chunk(&mut self, chunk: &StreamChunk, text_id: &str, reasoning_id: &str) -> (r: Vec<
        LlmEvent,
    >)
        ensures
            ({
                let step = chunk_step(
                    old(self).deep_view(),
                    chunk.choices.deep_view(),
                    chunk.usage,
                    text_id@,
                    reasoning_id@,
                );
                &&& final(self).deep_view() == step.state
                &&& r.deep_view() == step.events
            }),
            old(self).wf() ==> final(self).wf(),
    {
        let ghost origin = self.deep_view();
        if let Some(u) = &chunk.usage {
            self.usage = Some(
                Usage {
                    input_tokens: u.input_tokens,
                    output_tokens: u.output_tokens,
                    cache_read_input_tokens: u.cache_read_input_tokens,
                    cache_write_input_tokens: None,
                },
            );
        }
        let ghost first = self.deep_view();
        assert(first == (AssemblyView { usage: usage_after(origin.usage, chunk.usage), ..origin }));
        let ghost cs = chunk.choices.deep_view();
        let mut events: Vec<LlmEvent> = Vec::new();
        let mut i: usize = 0;
        assert(events.deep_view() =~= Seq::<types::EventView>::empty());
        while i < chunk.choices.len()
            invariant
                i <= chunk.choices@.len(),
                cs == chunk.choices.deep_view(),
                first.calls == origin.calls,
                origin == old(self).deep_view(),
                first == (AssemblyView { usage: usage_after(origin.usage, chunk.usage), ..origin }),
                ({
                    let step = choices_step(first, cs.take(i as int), text_id@, reasoning_id@);
                    &&& self.deep_view() == step.state
                    &&& events.deep_view() == step.events
                }),
                in_order(origin.calls) ==> in_order(self.deep_view().calls),
            decreases chunk.choices@.len() - i,
        {
            assert(cs.take(i + 1).drop_last() =~= cs.take(i as int));
            let ghost before = self.deep_view();
            proof {
                if in_order(before.calls) {
                    fragments_keep_order(before.calls, cs[i as int].fragments);
                }
            }
            self.on_choice(&chunk.choices[i], text_id, reasoning_id, &mut events);
            i = i + 1;
        }
        assert(cs.take(i as int) =~= cs);
        events
    }

    /// Takes a chunk in. Text and reasoning that start in it take new ids.
    pub fn receive(&mut self, chunk: &StreamChunk) -> (r: Vec<LlmEvent>)
        ensures
            exists|text_id: Seq<char>, reasoning_id: Seq<char>|
                {
                    let step = #[trigger] chunk_step(
                        old(self).deep_view(),
                        chunk.choices.deep_view(),
                        chunk.usage,
                        text_id,
                        reasoning_id,
                    );
                    &&& ids::is_fresh_form(text_id)
                    &&& ids::is_fresh_form(reasoning_id)
                    &&& final(self).deep_view() == step.state
                    &&& r.deep_view() == step.events
                },
            old(self).wf() ==> final(self).wf(),
    {
        let text_id = ids::fresh_id();
        let reasoning_id = ids::fresh_id();
        self.on_chunk(chunk, text_id.as_str(), reasoning_id.as_str())
    }
}

/// The reason that the model gave is kept, whatever comes behind it.
pub proof fn the_first_reason_counts(
    a: AssemblyView,
    cs: Seq<ChoiceView>,
    usage: Option<StreamUsage>,
    text_id: Seq<char>,
    reasoning_id: Seq<char>,
)
    requires
        a.reason is Some,
    ensures
        chunk_step(a, cs, usage, text_id, reasoning_id) == (StepView {
            state: AssemblyView { usage: usage_after(a.usage, usage), ..a },
            events: Seq::empty(),
        }),
{
    lemma_nothing_behind(
        AssemblyView { usage: usage_after(a.usage, usage), ..a },
        cs,
        text_id,
        reasoning_id,
    );
}

proof fn lemma_nothing_behind(
    a: AssemblyView,
    cs: Seq<ChoiceView>,
    text_id: Seq<char>,
    reasoning_id: Seq<char>,
)
    requires
        a.reason is Some,
    ensures
        choices_step(a, cs, text_id, reasoning_id) == (StepView {
            state: a,
            events: Seq::empty(),
        }),
    decreases cs.len(),
{
    if cs.len() > 0 {
        lemma_nothing_behind(a, cs.drop_last(), text_id, reasoning_id);
        let none = Seq::<types::EventView>::empty();
        assert(none + none =~= none);
    }
}

/// Usage that comes behind the reason to finish is reported at the end, with
/// that reason.
pub proof fn late_usage_is_reported(
    a: AssemblyView,
    reason: types::FinishView,
    late: StreamUsage,
    text_id: Seq<char>,
    reasoning_id: Seq<char>,
)
    requires
        a.reason == Some(reason),
    ensures
        ({
            let usage = usage_after(None, Some(late));
            ending(chunk_step(a, Seq::empty(), Some(late), text_id, reasoning_id).state) == seq![
                types::EventView::StepFinish { index: 0, reason, usage },
                types::EventView::Finish { reason, usage },
            ]
        }),
{
    the_first_reason_counts(a, Seq::empty(), Some(late), text_id, reasoning_id);
    let usage = usage_after(None, Some(late));
    assert(ending(chunk_step(a, Seq::empty(), Some(late), text_id, reasoning_id).state) =~= seq![
        types::EventView::StepFinish { index: 0, reason, usage },
        types::EventView::Finish { reason, usage },
    ]);
}

// ── Receiving ──

/// A reply that is being received: what has not been read, what has been
/// understood, and whether it is complete.
pub struct Receiver {
    pub lines: LineBuffer,
    pub assembly: Assembly,
    pub complete: bool,
}

/// What a reply that is being received needs.
pub enum Wanted {
    /// More of the stream.
    Bytes,
    /// The chunk that this text denotes.
    Chunk { data: String },
    /// To report these events. The reply is complete.
    Report { events: Vec<LlmEvent> },
    /// Nothing: the reply is complete.
    Nothing,
}

/// The contents of a `Wanted`.
pub enum WantedView {
    Bytes,
    Chunk { data: Seq<char> },
    Report { events: Seq<types::EventView> },
    Nothing,
}

impl DeepView for Wanted {
    type V = WantedView;

    open spec fn deep_view(&self) -> WantedView {
        match *self {
            Wanted::Bytes => WantedView::Bytes,
            Wanted::Chunk { data } => WantedView::Chunk { data: data@ },
            Wanted::Report { events } => WantedView::Report { events: events.deep_view() },
            Wanted::Nothing => WantedView::Nothing,
        }
    }
}

/// What a reply needs, given the first frame that has not been read.
pub open spec fn wanted_for(complete: bool, frame: Option<FrameView>, a: AssemblyView) -> WantedView {
    if complete {
        WantedView::Nothing
    } else {
        match frame {
            None => WantedView::Bytes,
            Some(FrameView::Data(data)) => WantedView::Chunk { data },
            Some(FrameView::Done) => WantedView::Report {
                events: ending(a),
            },
        }
    }
}

impl Receiver {
    /// A reply of which nothing has been received.
    pub fn new() -> (r: Self)
        ensures
            r.lines.buffer@ == Seq::<char>::empty(),
            r.assembly.deep_view() == (AssemblyView {
                text_id: Seq::empty(),
                reasoning_id: Seq::empty(),
                calls: Seq::empty(),
                usage: None,
                reason: None,
            }),
            r.assembly.wf(),
            !r.complete,
    {
        Receiver { lines: LineBuffer::new(), assembly: Assembly::new(), complete: false }
    }

    /// Adds bytes that were received. Each piece is read by itself: a character
    /// that is cut between two pieces is not put together.
    pub fn push_bytes(&mut self, bytes: &Vec<u8>)
        ensures
            final(self).lines.buffer@ == old(self).lines.buffer@ + text::utf8_lossy(bytes@),
            final(self).assembly == old(self).assembly,
            final(self).complete == old(self).complete,
    {
        self.lines.push_bytes(bytes);
    }

    /// Reads on, and says what is needed.
    pub fn next(&mut self) -> (r: Wanted)
        ensures
            final(self).assembly == old(self).assembly,
            old(self).complete ==> *final(self) == *old(self) && r is Nothing,
            !old(self).complete ==> {
                let (frame, rest) = next_of(old(self).lines.buffer@);
                &&& final(self).lines.buffer@ == rest
                &&& r.deep_view() == wanted_for(false, frame, old(self).assembly.deep_view())
                &&& final(self).complete == (frame == Some(FrameView::Done))
            },
    {
        if self.complete {
            return Wanted::Nothing;
        }
        match self.lines.next_frame() {
            None => Wanted::Bytes,
            Some(Frame::Data(data)) => Wanted::Chunk { data },
            Some(Frame::Done) => {
                self.complete = true;
                Wanted::Report { events: self.assembly.finish() }
            },
        }
    }

    /// Takes a chunk in, and says what is reported of it. Text and reasoning
    /// that start in it take new ids. After the end nothing is reported.
    pub fn on_chunk(&mut self, chunk: &StreamChunk) -> (r: Vec<LlmEvent>)
        ensures
            final(self).lines == old(self).lines,
            old(self).complete ==> *final(self) == *old(self) && r@.len() == 0,
            !old(self).complete ==> exists|text_id: Seq<char>, reasoning_id: Seq<char>|
                {
                    let step = #[trigger] chunk_step(
                        old(self).assembly.deep_view(),
                        chunk.choices.deep_view(),
                        chunk.usage,
                        text_id,
                        reasoning_id,
                    );
                    &&& ids::is_fresh_form(text_id)
                    &&& ids::is_fresh_form(reasoning_id)
                    &&& final(self).assembly.deep_view() == step.state
                    &&& r.deep_view() == step.events
                    &&& !final(self).complete
                },
            old(self).assembly.wf() ==> final(self).assembly.wf(),
    {
        if self.complete {
            return Vec::new();
        }
        self.assembly.receive(chunk)
    }

    /// Closes a reply whose stream ended, and says what is reported of it. A
    /// reply that is complete has been reported.
    pub fn on_end(&mut self) -> (r: Vec<LlmEvent>)
        ensures
            final(self).lines == old(self).lines,
            final(self).assembly == old(self).assembly,
            final(self).complete,
            r.deep_view() == (if old(self).complete {
                Seq::empty()
            } else {
                ending(old(self).assembly.deep_view())
            }),
    {
        if self.complete {
            let none: Vec<LlmEvent> = Vec::new();
            assert(none.deep_view() =~= Seq::<types::EventView>::empty());
            return none;
        }
        self.complete = true;
        self.assembly.finish()
    }

    /// Closes a reply whose stream broke off, and says what is reported of it.
    /// Where the model had said why it stopped, nothing is missing but usage.
    pub fn on_failure(&mut self, error: &str) -> (r: Vec<LlmEvent>)
        ensures
            final(self).lines == old(self).lines,
            final(self).assembly == old(self).assembly,
            final(self).complete,
            r.deep_view() == (if old(self).complete {
                Seq::empty()
            } else if old(self).assembly.deep_view().reason is Some {
                ending(old(self).assembly.deep_view())
            } else {
                seq![
                    types::EventView::ProviderError {
                        message: "Stream error: "@ + error@,
                        retryable: true,
                    },
                ]
            }),
    {
        if self.complete || self.assembly.reason.is_some() {
            return self.on_end();
        }
        self.complete = true;
        let mut r: Vec<LlmEvent> = Vec::new();
        let event = llm::stream_failure(error);
        r.push(event);
        assert(r.deep_view() =~= seq![event.deep_view()]);
        r
    }
}

// ── Laws ──

/// A call is known where some call has its index.
pub proof fn known_calls(calls: Seq<AccView>, index: u64)
    requires
        in_order(calls),
    ensures
        is_known(calls, index) <==> exists|i: int|
            0 <= i < calls.len() && (#[trigger] calls[i]).index == index,
        forall|i: int| 0 <= i < calls.len() && (#[trigger] calls[i]).index == index ==> call_at(
            calls,
            index,
        ) == calls[i],
{
    lemma_slot(calls, index);
    let k = slot(calls, index);
    assert forall|i: int| 0 <= i < calls.len() && (#[trigger] calls[i]).index == index implies i
        == k by {
        if i > k {
            assert(calls[k].index < calls[i].index);
        }
    }
}

/// The id that the fragments of a call gave last.
pub open spec fn id_given(fs: Seq<FragmentView>, index: u64) -> Seq<char>
    decreases fs.len(),
{
    if fs.len() == 0 {
        Seq::empty()
    } else if fs.last().index == index && fs.last().id is Some {
        fs.last().id.unwrap()
    } else {
        id_given(fs.drop_last(), index)
    }
}

/// The name that the fragments of a call gave last.
pub open spec fn name_given(fs: Seq<FragmentView>, index: u64) -> Seq<char>
    decreases fs.len(),
{
    if fs.len() == 0 {
        Seq::empty()
    } else if fs.last().index == index && fs.last().name is Some {
        fs.last().name.unwrap()
    } else {
        name_given(fs.drop_last(), index)
    }
}

/// The calls of a reply are those that its fragments name: there is a call for
/// every index among them and no other, in the order of the indices, with the
/// id and the name that were given last and with all arguments.
pub proof fn calls_are_put_together(fs: Seq<FragmentView>, index: u64)
    ensures
        ({
            let calls = with_fragments(Seq::empty(), fs).0;
            &&& in_order(calls)
            &&& (exists|i: int| 0 <= i < calls.len() && (#[trigger] calls[i]).index == index) <==> (
            exists|j: int| 0 <= j < fs.len() && (#[trigger] fs[j]).index == index)
            &&& forall|i: int|
                0 <= i < calls.len() && (#[trigger] calls[i]).index == index ==> calls[i]
                    == (AccView {
                    index,
                    id: id_given(fs, index),
                    name: name_given(fs, index),
                    args: arguments_of(fs, index),
                })
        }),
{
    let calls = with_fragments(Seq::empty(), fs).0;
    fragments_keep_order(Seq::empty(), fs);
    known_calls(calls, index);
    lemma_put_together(fs, index);
    arguments_are_put_together(fs, index);
}

proof fn lemma_put_together(fs: Seq<FragmentView>, index: u64)
    ensures
        ({
            let calls = with_fragments(Seq::empty(), fs).0;
            &&& is_known(calls, index) <==> exists|j: int|
                0 <= j < fs.len() && (#[trigger] fs[j]).index == index
            &&& call_at(calls, index).id == id_given(fs, index)
            &&& call_at(calls, index).name == name_given(fs, index)
            &&& call_at(calls, index).index == index
        }),
    decreases fs.len(),
{
    if fs.len() > 0 {
        let rest = fs.drop_last();
        lemma_put_together(rest, index);
        fragments_keep_order(Seq::empty(), rest);
        fragments_keep_order(Seq::empty(), fs);
        let before = with_fragments(Seq::empty(), rest).0;
        let after = with_fragments(Seq::empty(), fs).0;
        let f = fs.last();
        assert(fs[fs.len() - 1] == f);
        if f.index == index {
            let other: u64 = if index == 0 { 1 } else { 0 };
            fragments_keep_apart(before, f, other);
            lemma_slot(before, index);
            known_calls(after, index);
            assert(after[slot(before, index)].index == index);
        } else {
            fragments_keep_apart(before, f, index);
            known_calls(before, index);
            known_calls(after, index);
            lemma_slot(before, f.index);
            let k = slot(before, f.index);
            if is_known(before, index) {
                let i = choose|i: int| 0 <= i < before.len() && (#[trigger] before[i]).index == index;
                if is_known(before, f.index) || i < k {
                    assert(after[i] == before[i]);
                } else {
                    assert(after[i + 1] == before[i]);
                }
            }
            if is_known(after, index) {
                let i = choose|i: int| 0 <= i < after.len() && (#[trigger] after[i]).index == index;
                if is_known(before, f.index) || i < k {
                    assert(before[i].index == after[i].index);
                } else {
                    assert(before[i - 1].index == after[i].index);
                }
            }
            if exists|j: int| 0 <= j < fs.len() && (#[trigger] fs[j]).index == index {
                let j = choose|j: int| 0 <= j < fs.len() && (#[trigger] fs[j]).index == index;
                assert(rest[j].index == index);
            }
            if exists|j: int| 0 <= j < rest.len() && (#[trigger] rest[j]).index == index {
                let j = choose|j: int| 0 <= j < rest.len() && (#[trigger] rest[j]).index == index;
                assert(fs[j].index == index);
            }
        }
    }
}

/// The input of a call is its arguments: the JSON value that they denote, and
/// where they denote none the string that holds them.
pub proof fn inputs_are_the_arguments(args: Seq<char>)
    ensures
        json::json_compact(args) is Some ==> Some(input_of(args)) == json::json_compact(args),
        json::json_compact(args) is None ==> input_of(args) == json::json_quote(args),
        json::is_compact(args) ==> input_of(args) == args,
{
}

/// Each reason to finish has a name of its own, and a name that is not known is
/// kept.
pub proof fn reasons_have_names(s: Seq<char>)
    ensures
        reason_of(s) is Stop <==> s == "stop"@,
        reason_of(s) is Length <==> s == "length"@,
        reason_of(s) is ContentFiltered <==> s == "content_filter"@,
        reason_of(s) is ToolCalls <==> s == "tool_calls"@,
        !(reason_of(s) is Error),
        reason_of(s) matches types::FinishView::Other(name) ==> name == s,
{
    reveal_strlit("stop");
    reveal_strlit("length");
    reveal_strlit("content_filter");
    reveal_strlit("tool_calls");
    assert("stop"@.len() == 4 && "length"@.len() == 6);
    assert("content_filter"@.len() == 14 && "tool_calls"@.len() == 10);
}

/// The usage that a chunk reports is kept, count by count, whatever its choices
/// say; a chunk that reports none leaves what was reported before.
pub proof fn usage_is_kept(
    a: AssemblyView,
    cs: Seq<ChoiceView>,
    usage: Option<StreamUsage>,
    text_id: Seq<char>,
    reasoning_id: Seq<char>,
)
    ensures
        ({
            let after = chunk_step(a, cs, usage, text_id, reasoning_id).state.usage;
            match usage {
                None => after == a.usage,
                Some(u) => after matches Some(kept) && kept.input_tokens == u.input_tokens
                    && kept.output_tokens == u.output_tokens && kept.cache_read_input_tokens
                    == u.cache_read_input_tokens && kept.cache_write_input_tokens is None,
            }
        }),
{
    lemma_choices_keep_usage(
        AssemblyView { usage: usage_after(a.usage, usage), ..a },
        cs,
        text_id,
        reasoning_id,
    );
}

proof fn lemma_choices_keep_usage(
    a: AssemblyView,
    cs: Seq<ChoiceView>,
    text_id: Seq<char>,
    reasoning_id: Seq<char>,
)
    ensures
        choices_step(a, cs, text_id, reasoning_id).state.usage == a.usage,
    decreases cs.len(),
{
    if cs.len() > 0 {
        lemma_choices_keep_usage(a, cs.drop_last(), text_id, reasoning_id);
    }
}

/// Whether an event starts, goes on with or ends a text, under an id.
pub open spec fn text_event_id(e: types::EventView) -> Option<Seq<char>> {
    match e {
        types::EventView::TextStart { id } => Some(id),
        types::EventView::TextDelta { id, .. } => Some(id),
        types::EventView::TextEnd { id } => Some(id),
        _ => None,
    }
}

/// Whether an event starts, goes on with or ends a reasoning, under an id.
pub open spec fn reasoning_event_id(e: types::EventView) -> Option<Seq<char>> {
    match e {
        types::EventView::ReasoningStart { id } => Some(id),
        types::EventView::ReasoningDelta { id, .. } => Some(id),
        types::EventView::ReasoningEnd { id } => Some(id),
        _ => None,
    }
}

/// A text keeps its id: one that is under way goes on under the id that it has,
/// and one that starts is announced and takes the new id.
pub proof fn texts_keep_their_id(a: AssemblyView, content: Seq<char>, fresh: Seq<char>)
    ensures
        ({
            let (after, events) = text_step(a, Some(content), fresh);
            let id = if a.text_id.len() > 0 {
                a.text_id
            } else {
                fresh
            };
            &&& after.text_id == id
            &&& after.reasoning_id == a.reasoning_id
            &&& after.reason == a.reason
            &&& events.last() == (types::EventView::TextDelta { id, text: content })
            &&& (exists|i: int| 0 <= i < events.len() && (#[trigger] events[i]) is TextStart)
                <==> a.text_id.len() == 0
            &&& forall|i: int| 0 <= i < events.len() ==> text_event_id(#[trigger] events[i]) == Some(id)
        }),
{
    let events = text_step(a, Some(content), fresh).1;
    if a.text_id.len() == 0 {
        assert(events[0] is TextStart);
    }
}

/// Reasoning keeps its id, as text does.
pub proof fn reasonings_keep_their_id(a: AssemblyView, content: Seq<char>, fresh: Seq<char>)
    ensures
        ({
            let (after, events) = reasoning_step(a, Some(content), fresh);
            let id = if a.reasoning_id.len() > 0 {
                a.reasoning_id
            } else {
                fresh
            };
            &&& after.reasoning_id == id
            &&& after.text_id == a.text_id
            &&& after.reason == a.reason
            &&& events.last() == (types::EventView::ReasoningDelta { id, text: content })
            &&& (exists|i: int| 0 <= i < events.len() && (#[trigger] events[i]) is ReasoningStart)
                <==> a.reasoning_id.len() == 0
            &&& forall|i: int|
                0 <= i < events.len() ==> reasoning_event_id(#[trigger] events[i]) == Some(id)
        }),
{
    let events = reasoning_step(a, Some(content), fresh).1;
    if a.reasoning_id.len() == 0 {
        assert(events[0] is ReasoningStart);
    }
}

/// What was started is ended, under its id, where the reply is closed.
pub proof fn what_starts_ends(a: AssemblyView)
    ensures
        a.text_id.len() > 0 <==> closing(a).contains(types::EventView::TextEnd { id: a.text_id }),
        a.reasoning_id.len() > 0 <==> closing(a).contains(
            types::EventView::ReasoningEnd { id: a.reasoning_id },
        ),
{
    let head = ends_of_text(a);
    let all = closing(a);
    let t = types::EventView::TextEnd { id: a.text_id };
    let r = types::EventView::ReasoningEnd { id: a.reasoning_id };
    lemma_ends_of_calls_are_calls(a.calls);
    assert forall|i: int| head.len() <= i < all.len() implies (#[trigger] all[i]) == ends_of_calls(
        a.calls,
    )[i - head.len()] by {}
    if a.text_id.len() > 0 {
        assert(all[0] == t);
    }
    if a.reasoning_id.len() > 0 {
        assert(all[head.len() - 1] == r);
    }
}

proof fn lemma_ends_of_calls_are_calls(calls: Seq<AccView>)
    ensures
        forall|i: int|
            0 <= i < ends_of_calls(calls).len() ==> (#[trigger] ends_of_calls(
                calls,
            )[i]) is ToolCallEnd || ends_of_calls(calls)[i] is ToolCallReceived,
    decreases calls.len(),
{
    if calls.len() > 0 {
        let before = ends_of_calls(calls.drop_last());
        lemma_ends_of_calls_are_calls(calls.drop_last());
        let all = ends_of_calls(calls);
        assert forall|i: int| 0 <= i < all.len() implies (#[trigger] all[i]) is ToolCallEnd
            || all[i] is ToolCallReceived by {
            if i < before.len() {
                assert(all[i] == before[i]);
            } else {
                assert(all[i] == end_of_call(calls.last())[i - before.len()]);
            }
        }
    }
}

/// The end of a reply comes last and once, with the reason that the model gave
/// or else as a stop, and with the usage that came; the end of the step before
/// it says the same.
pub proof fn replies_end_once(a: AssemblyView)
    ensures
        ({
            let es = ending(a);
            let reason = match a.reason {
                Some(reason) => reason,
                None => types::FinishView::Stop,
            };
            &&& es.len() >= 2
            &&& es.last() == (types::EventView::Finish { reason, usage: a.usage })
            &&& es[es.len() - 2] == (types::EventView::StepFinish {
                index: 0,
                reason,
                usage: a.usage,
            })
            &&& es.take(es.len() - 2) == (if a.reason is Some {
                Seq::empty()
            } else {
                closing(a)
            })
        }),
{
    let es = ending(a);
    assert(es.take(es.len() - 2) =~= (if a.reason is Some {
        Seq::empty()
    } else {
        closing(a)
    }));
}

/// A line that starts with `data: ` carries what follows; the word `[DONE]`
/// there completes the stream. Any other line carries nothing. What stands
/// behind the line is read as if the stream began there.
pub proof fn lines_are_read(line: Seq<char>, rest: Seq<char>)
    requires
        !line.contains('\n'),
    ensures
        ({
            let bare = text::trim(line);
            let (found, left) = frames(line + seq!['\n'] + rest);
            let (more, last) = frames(rest);
            &&& left == last
            &&& forall|data: Seq<char>|
                bare == #[trigger] ("data: "@ + data) ==> found == seq![
                    if data == "[DONE]"@ {
                        FrameView::Done
                    } else {
                        FrameView::Data(data)
                    },
                ] + more
            &&& !"data: "@.is_prefix_of(bare) ==> found == more
        }),
{
    reveal_strlit("\n");
    reveal_strlit("data: ");
    let s = line + seq!['\n'] + rest;
    let n = line.len() as int;
    text::lemma_find(s, "\n"@);
    assert("\n"@ =~= seq!['\n']);
    assert("\n"@.is_prefix_of(s.skip(n))) by {
        assert(s.skip(n).subrange(0, 1) =~= "\n"@);
    }
    match line_end(s) {
        Some(k) => {
            assert(s.subrange(k, k + 1)[0] == s[k]);
            if k < n {
                assert(line[k] == '\n');
            }
            assert(k == n);
        },
        None => {},
    }
    assert(s.take(n) =~= line);
    assert(s.skip(n + 1) =~= rest);
    let bare = text::trim(line);
    assert forall|data: Seq<char>| bare == #[trigger] ("data: "@ + data) implies "data: "@.is_prefix_of(
        bare,
    ) && bare.skip(6) == data by {
        assert(bare.subrange(0, 6) =~= "data: "@);
        assert(bare.skip(6) =~= data);
    }
}

/// A reply under way asks for bytes until there is a line that says something,
/// hands each chunk out whole, and is reported to its end once the stream says
/// that it is done; after that it asks for nothing.
pub proof fn frames_are_answered(a: AssemblyView, data: Seq<char>, frame: Option<FrameView>)
    ensures
        wanted_for(false, None, a) is Bytes,
        wanted_for(false, Some(FrameView::Data(data)), a) == (WantedView::Chunk { data }),
        wanted_for(false, Some(FrameView::Done), a) == (WantedView::Report { events: ending(a) }),
        wanted_for(true, frame, a) is Nothing,
{
}

} // verus!
