//! The conversation that is sent to the model.
use vstd::prelude::*;
use crate::ids;
use crate::json::Json;
use crate::number;
use crate::text;
use crate::types;
use crate::types::{
    ContentPart, Duplicate, Message, MessageHistory, MessageId, ToolCall, ToolResultValue,
};

verus! {

/// The bytes of one tool output that enter the conversation.
pub const MAX_TOOL_OUTPUT: u64 = 50_000;

/// A system prompt with the messages that follow it.
pub struct ContextManager {
    pub system_prompt: String,
    pub history: MessageHistory,
    pub max_tool_output_chars: u64,
}

/// The contents of a `ContextManager`.
pub struct ContextView {
    pub system_prompt: Seq<char>,
    pub history: types::HistoryView,
    pub max_tool_output_chars: u64,
}

impl DeepView for ContextManager {
    type V = ContextView;

    open spec fn deep_view(&self) -> ContextView {
        ContextView {
            system_prompt: self.system_prompt@,
            history: self.history.deep_view(),
            max_tool_output_chars: self.max_tool_output_chars,
        }
    }
}

impl Clone for ContextManager {
    fn clone(&self) -> (r: Self)
        ensures
            r.deep_view() == self.deep_view(),
    {
        ContextManager {
            system_prompt: self.system_prompt.clone(),
            history: self.history.duplicate(),
            max_tool_output_chars: self.max_tool_output_chars,
        }
    }
}

/// The conversation after `m` was added to it.
pub open spec fn said(c: ContextView, m: types::MessageView) -> ContextView {
    ContextView { history: types::with_message(c.history, m), ..c }
}

/// The parts of a reply: its reasoning where there is some, then its text
/// unless that is empty.
pub open spec fn reply_parts(text: Seq<char>, reasoning: Option<Seq<char>>) -> Seq<types::PartView> {
    let first = match reasoning {
        Some(r) => seq![types::PartView::Reasoning { text: r }],
        None => Seq::empty(),
    };
    if text.len() == 0 {
        first
    } else {
        first.push(types::PartView::Text { text })
    }
}

/// A text over `max` bytes is cut to what fits, and the cut is marked.
pub open spec fn cut(value: Seq<char>, max: u64) -> Seq<char> {
    if text::byte_len(value) > max {
        text::fit(value, max as nat) + "...[output truncated at "@ + number::decimal(max as nat)
            + " chars]"@
    } else {
        value
    }
}

/// What of a tool's result enters the conversation: a text or JSON over `max`
/// bytes is cut, and cut JSON is a text. Errors stay whole.
pub open spec fn cut_result(r: types::ResultView, max: u64) -> types::ResultView {
    match r {
        types::ResultView::Text { value } => types::ResultView::Text { value: cut(value, max) },
        types::ResultView::Json { value } => if text::byte_len(value) > max {
            types::ResultView::Text { value: cut(value, max) }
        } else {
            r
        },
        types::ResultView::Error { .. } => r,
    }
}

/// Whether more than three quarters of the limit are used.
pub open spec fn crowded(h: types::HistoryView) -> bool {
    h.current_tokens * 4 > h.max_tokens * 3
}

fn cut_text(value: &str, max: u64) -> (r: String)
    ensures
        r@ == cut(value@, max),
{
    let len: usize = text::len_bytes(value);
    if len as u64 > max {
        let start = text::fitting(value, max as usize);
        text::cat4(
            start.as_str(),
            "...[output truncated at ",
            number::u64_text(max).as_str(),
            " chars]",
        )
    } else {
        value.to_owned()
    }
}

impl ContextManager {
    pub fn new(system_prompt: String, max_tokens: u64) -> (r: Self)
        ensures
            r.deep_view() == (ContextView {
                system_prompt: system_prompt@,
                history: types::HistoryView {
                    messages: Seq::empty(),
                    max_tokens,
                    current_tokens: 0,
                },
                max_tool_output_chars: MAX_TOOL_OUTPUT,
            }),
    {
        ContextManager {
            system_prompt,
            history: MessageHistory::new(max_tokens),
            max_tool_output_chars: MAX_TOOL_OUTPUT,
        }
    }

    /// Adds what the user says, under the new id that is returned.
    pub fn add_user_message(&mut self, parts: Vec<ContentPart>) -> (id: MessageId)
        ensures
            ids::is_fresh_form(id@),
            final(self).deep_view() == said(
                old(self).deep_view(),
                types::MessageView::User { id: id@, content: parts.deep_view() },
            ),
    {
        let id = ids::fresh_id();
        self.history.push(Message::User { id: id.clone(), content: parts });
        id
    }

    /// Adds a reply, under the new id that is returned.
    pub fn add_assistant_message(
        &mut self,
        text: String,
        reasoning: Option<String>,
        tool_calls: Vec<ToolCall>,
    ) -> (id: MessageId)
        ensures
            ids::is_fresh_form(id@),
            final(self).deep_view() == said(
                old(self).deep_view(),
                types::MessageView::Assistant {
                    id: id@,
                    content: reply_parts(text@, reasoning.deep_view()),
                    tool_calls: tool_calls.deep_view(),
                },
            ),
    {
        let id = ids::fresh_id();
        let ghost want = reply_parts(text@, reasoning.deep_view());
        let mut content: Vec<ContentPart> = Vec::new();
        if let Some(r) = reasoning {
            content.push(ContentPart::Reasoning { text: r });
        }
        if !text.as_str().is_empty() {
            content.push(ContentPart::Text { text });
        }
        assert(content.deep_view() =~= want);
        self.history.push(Message::Assistant { id: id.clone(), content, tool_calls });
        id
    }

    /// Adds the result of a tool call, cut to the limit on tool output, under
    /// the new id that is returned.
    pub fn add_tool_result(
        &mut self,
        tool_call_id: String,
        tool_name: String,
        result: ToolResultValue,
    ) -> (id: MessageId)
        ensures
            ids::is_fresh_form(id@),
            final(self).deep_view() == said(
                old(self).deep_view(),
                types::MessageView::Tool {
                    id: id@,
                    tool_call_id: tool_call_id@,
                    tool_name: tool_name@,
                    result: cut_result(result.deep_view(), old(self).max_tool_output_chars),
                },
            ),
    {
        let id = ids::fresh_id();
        let max: u64 = self.max_tool_output_chars;
        let kept = match result {
            ToolResultValue::Text { value } => ToolResultValue::Text {
                value: cut_text(value.as_str(), max),
            },
            ToolResultValue::Json { value } => {
                let len: usize = text::len_bytes(value.text.as_str());
                if len as u64 > max {
                    ToolResultValue::Text { value: cut_text(value.text.as_str(), max) }
                } else {
                    ToolResultValue::Json { value }
                }
            },
            ToolResultValue::Error { value } => ToolResultValue::Error { value },
        };
        self.history.push(Message::Tool { id: id.clone(), tool_call_id, tool_name, result: kept });
        id
    }

    /// The system prompt and the messages of the next request. No tool is
    /// named in it.
    pub fn build_request(&self) -> (r: (String, Vec<Message>, Vec<Json>))
        ensures
            r.0@ == self.system_prompt@,
            r.1.deep_view() == self.deep_view().history.messages,
            r.2@.len() == 0,
    {
        (self.system_prompt.clone(), types::duplicate_all(&self.history.messages), Vec::new())
    }

    /// Whether more than three quarters of the token limit are used.
    pub fn needs_compaction(&self) -> (r: bool)
        ensures
            r == crowded(self.deep_view().history),
    {
        self.history.current_tokens as u128 * 4 > self.history.max_tokens as u128 * 3
    }

    pub fn estimated_tokens(&self) -> (r: u64)
        ensures
            r == self.history.current_tokens,
    {
        self.history.current_tokens
    }
}

/// Tool output within the limit is kept whole; longer output keeps a start of
/// at most the limit, and the mark follows it.
pub proof fn cut_is_bounded(value: Seq<char>, max: u64)
    ensures
        cut(value, max) != value ==> {
            &&& text::byte_len(value) > max
            &&& text::byte_len(text::fit(value, max as nat)) <= max
            &&& text::fit(value, max as nat).is_prefix_of(value)
            &&& text::fit(value, max as nat).is_prefix_of(cut(value, max))
        },
        text::byte_len(value) <= max ==> cut(value, max) == value,
{
    text::fit_is_longest(value, max as nat);
    let kept = text::fit(value, max as nat);
    if text::byte_len(value) > max {
        assert(cut(value, max).subrange(0, kept.len() as int) =~= kept);
    }
}

/// An overflowing conversation is one that asks for compaction.
pub proof fn overflow_is_crowded(h: types::HistoryView)
    requires
        h.current_tokens > h.max_tokens,
    ensures
        crowded(h),
{
}

// ── Laws ──

/// The reasoning in the parts of a message, piece by piece.
pub open spec fn thoughts_in(parts: Seq<types::PartView>) -> Seq<Seq<char>>
    decreases parts.len(),
{
    if parts.len() == 0 {
        Seq::empty()
    } else {
        thoughts_in(parts.drop_last()) + match parts.last() {
            types::PartView::Reasoning { text } => seq![text],
            _ => Seq::empty(),
        }
    }
}

/// A recorded reply holds what was said: its text is the text that was given,
/// whether or not there was reasoning, and its reasoning is the reasoning that
/// was given, in front of the text. It holds nothing else.
pub proof fn replies_are_recorded(text: Seq<char>, reasoning: Option<Seq<char>>)
    ensures
        types::reply_text(reply_parts(text, reasoning)) == text,
        thoughts_in(reply_parts(text, reasoning)) == (match reasoning {
            Some(r) => seq![r],
            None => Seq::empty(),
        }),
        forall|i: int|
            0 <= i < reply_parts(text, reasoning).len() ==> !((#[trigger] reply_parts(
                text,
                reasoning,
            )[i]) is File),
        forall|i: int|
            0 < i < reply_parts(text, reasoning).len() ==> !((#[trigger] reply_parts(
                text,
                reasoning,
            )[i]) is Reasoning),
{
    let parts = reply_parts(text, reasoning);
    let none = Seq::<types::PartView>::empty();
    reveal_with_fuel(types::reply_text, 3);
    reveal_with_fuel(thoughts_in, 3);
    if text.len() > 0 {
        assert(parts.last() == (types::PartView::Text { text }));
    }
    match reasoning {
        Some(r) => {
            if text.len() > 0 {
                assert(parts.drop_last() =~= seq![types::PartView::Reasoning { text: r }]);
            }
            assert(seq![types::PartView::Reasoning { text: r }].drop_last() =~= none);
        },
        None => {
            if text.len() > 0 {
                assert(parts.drop_last() =~= none);
            }
        },
    }
    assert(types::reply_text(parts) =~= text);
    assert(thoughts_in(parts) =~= (match reasoning {
        Some(r) => seq![r],
        None => Seq::empty(),
    }));
}

/// What is said stands at the end of the conversation; what was said before
/// stays where it was, and nothing else changes but the count of tokens.
pub proof fn conversations_grow_at_the_end(c: ContextView, m: types::MessageView)
    ensures
        said(c, m).history.messages.len() == c.history.messages.len() + 1,
        said(c, m).history.messages.last() == m,
        said(c, m).history.messages.drop_last() == c.history.messages,
        said(c, m).history.max_tokens == c.history.max_tokens,
        said(c, m).history.current_tokens >= c.history.current_tokens,
        said(c, m).system_prompt == c.system_prompt,
        said(c, m).max_tool_output_chars == c.max_tool_output_chars,
        c.history.current_tokens + types::estimate(m) <= u64::MAX ==> said(
            c,
            m,
        ).history.current_tokens == c.history.current_tokens + types::estimate(m),
{
    assert(said(c, m).history.messages.drop_last() =~= c.history.messages);
}

/// A cut output is a start of the whole and, behind it, a mark that names the
/// limit.
pub proof fn cuts_are_marked(value: Seq<char>, max: u64)
    requires
        text::byte_len(value) > max,
    ensures
        exists|kept: Seq<char>|
            #![trigger text::byte_len(kept)]
            kept.is_prefix_of(value) && text::byte_len(kept) <= max && max < text::byte_len(kept) + 4
                && cut(value, max) == kept + "...[output truncated at "@ + number::decimal(
                max as nat,
            ) + " chars]"@,
{
    let kept = text::fit(value, max as nat);
    text::fit_is_longest(value, max as nat);
    text::fit_is_tight(value, max as nat);
    assert(text::byte_len(kept) <= max);
}

/// Of a tool's result errors stay as they are, text and JSON within the limit
/// too; what is longer becomes a text that starts as it did.
pub proof fn results_are_kept_or_cut(r: types::ResultView, max: u64)
    ensures
        match r {
            types::ResultView::Error { .. } => cut_result(r, max) == r,
            types::ResultView::Text { value } => {
                &&& text::byte_len(value) <= max ==> cut_result(r, max) == r
                &&& text::byte_len(value) > max ==> (cut_result(r, max) matches types::ResultView::Text {
                    value: kept,
                } && text::fit(value, max as nat).is_prefix_of(kept))
            },
            types::ResultView::Json { value } => {
                &&& text::byte_len(value) <= max ==> cut_result(r, max) == r
                &&& text::byte_len(value) > max ==> (cut_result(r, max) matches types::ResultView::Text {
                    value: kept,
                } && text::fit(value, max as nat).is_prefix_of(kept))
            },
        },
{
    match r {
        types::ResultView::Text { value } => cut_is_bounded(value, max),
        types::ResultView::Json { value } => cut_is_bounded(value, max),
        _ => {},
    }
    if r is Text && text::byte_len(r->Text_value) > max {
        let kept = text::fit(r->Text_value, max as nat);
        assert(cut(r->Text_value, max).subrange(0, kept.len() as int) =~= kept);
    }
    if r is Json && text::byte_len(r->Json_value) > max {
        let kept = text::fit(r->Json_value, max as nat);
        assert(cut(r->Json_value, max).subrange(0, kept.len() as int) =~= kept);
    }
}

/// A conversation is crowded where it holds more tokens than three quarters of
/// its limit, rounded down.
pub proof fn crowded_is_over_three_quarters(h: types::HistoryView)
    ensures
        crowded(h) <==> h.current_tokens > (3 * h.max_tokens) / 4,
{
}

/// Fifty thousand bytes of a tool's output enter the conversation.
pub proof fn output_has_a_limit()
    ensures
        MAX_TOOL_OUTPUT == 50_000,
{
}

} // verus!
