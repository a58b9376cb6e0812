//! The state of the terminal interface.
use vstd::prelude::*;
use crate::json;
use crate::json::Json;
use crate::text;
use crate::turn;
pub use crate::turn::{ToolLine, ToolStatus, TurnItem};
use crate::types;
use crate::types::{ContentPart, Message, ToolCall, ToolResultValue};

pub use crate::app_state::{AppState, PendingPermission, PermissionBridge, PermissionRequest};
pub use crate::keys::{
    handle_scroll_key, handle_scroll_mouse, scroll_down, scroll_to_bottom, scroll_up, try_copy_key,
};

verus! {

// ── Short texts ──

/// At most `max` characters of `s`, the last an ellipsis where more follows.
pub open spec fn clipped(s: Seq<char>, max: nat) -> Seq<char> {
    if s.len() <= max {
        s
    } else {
        s.take(
            if max == 0 {
                0
            } else {
                max - 1
            },
        ) + "…"@
    }
}

pub fn truncate_chars(s: &str, max_chars: usize) -> (r: String)
    ensures
        r@ == clipped(s@, max_chars as nat),
{
    let v = text::chars_of(s);
    if v.len() <= max_chars {
        return s.to_owned();
    }
    let n: usize = max_chars.saturating_sub(1);
    let start = text::string_of(&v, 0, n);
    assert(start@ =~= s@.take(n as int));
    text::cat2(start.as_str(), "…")
}

/// What the user is told of the input of a tool that asks for permission: its
/// path, else its command, else all of it.
pub open spec fn asked_input(v: Seq<char>) -> Seq<char> {
    if json::json_str_member(v, "path"@) is Some {
        json::json_str_member(v, "path"@).unwrap()
    } else if json::json_str_member(v, "command"@) is Some {
        clipped(json::json_str_member(v, "command"@).unwrap(), 80)
    } else {
        clipped(v, 80)
    }
}

pub fn summarize_tool_input(input: &Json) -> (r: String)
    ensures
        r@ == asked_input(input@),
{
    if let Some(path) = input.str_member("path") {
        return path;
    }
    if let Some(cmd) = input.str_member("command") {
        return truncate_chars(cmd.as_str(), 80);
    }
    truncate_chars(input.text.as_str(), 80)
}

/// The command, path or pattern of an input, the first that is a string.
pub open spec fn aim(v: Seq<char>) -> Option<Seq<char>> {
    if json::json_str_member(v, "command"@) is Some {
        json::json_str_member(v, "command"@)
    } else if json::json_str_member(v, "path"@) is Some {
        json::json_str_member(v, "path"@)
    } else {
        json::json_str_member(v, "pattern"@)
    }
}

fn read_aim(v: &Json) -> (r: Option<String>)
    ensures
        r.deep_view() == aim(v@),
{
    if let Some(s) = v.str_member("command") {
        return Some(s);
    }
    if let Some(s) = v.str_member("path") {
        return Some(s);
    }
    v.str_member("pattern")
}

/// What a tool works on, as its input says.
pub open spec fn target_of(v: Seq<char>) -> Seq<char> {
    match aim(v) {
        Some(s) => clipped(s, 50),
        None => clipped(v, 50),
    }
}

pub fn extract_tool_target_from_value(input: &Json) -> (r: String)
    ensures
        r@ == target_of(input@),
{
    match read_aim(input) {
        Some(s) => truncate_chars(s.as_str(), 50),
        None => truncate_chars(input.text.as_str(), 50),
    }
}

/// What follows the first `key` in `s`, up to the next quotation mark.
pub open spec fn quoted_after(s: Seq<char>, key: Seq<char>) -> Option<Seq<char>> {
    match text::find(s, key) {
        None => None,
        Some(k) => {
            let rest = s.skip(k + key.len());
            match text::find(rest, "\""@) {
                None => Some(rest),
                Some(end) => Some(rest.take(end)),
            }
        },
    }
}

fn read_quoted_after(s: &str, key: &str) -> (r: Option<String>)
    ensures
        r.deep_view() == quoted_after(s@, key@),
{
    let v = text::chars_of(s);
    let k = text::chars_of(key);
    assert(v@.skip(0) =~= v@);
    let at: usize = match text::find_from(&v, 0, &k) {
        Some(p) => p,
        None => return None,
    };
    let from: usize = at + k.len();
    let rest = text::string_of(&v, from, v.len());
    assert(rest@ =~= s@.skip(from as int));
    match text::find_text(rest.as_str(), "\"") {
        None => Some(rest),
        Some(end) => {
            let w = text::chars_of(rest.as_str());
            let r = text::string_of(&w, 0, end);
            assert(r@ =~= rest@.take(end as int));
            Some(r)
        },
    }
}

/// `s` without white space and quotation marks at its ends.
pub open spec fn bare(s: Seq<char>) -> Seq<char> {
    text::strip(text::trim(s), '"')
}

/// The key of a path in the text of an input.
pub const PATH_KEY: &'static str = "\"path\":\"";

/// The key of a command in the text of an input.
pub const COMMAND_KEY: &'static str = "\"command\":\"";

/// What a tool works on, as far as the text of its input says. The text may be
/// JSON, the start of JSON, or the command or path itself.
pub open spec fn target_in(name: Seq<char>, input: Seq<char>) -> Seq<char> {
    let parsed = match json::json_compact(input) {
        Some(v) => aim(v),
        None => None,
    };
    if parsed is Some {
        clipped(parsed.unwrap(), 50)
    } else if name == "bash"@ || name == "git status"@ {
        clipped(bare(input), 50)
    } else if quoted_after(input, PATH_KEY@) is Some {
        quoted_after(input, PATH_KEY@).unwrap()
    } else if quoted_after(input, COMMAND_KEY@) is Some {
        clipped(quoted_after(input, COMMAND_KEY@).unwrap(), 50)
    } else {
        clipped(bare(input), 50)
    }
}

pub fn extract_tool_target(name: &str, input: &str) -> (r: String)
    ensures
        r@ == target_in(name@, input@),
{
    if let Some(v) = Json::parse(input) {
        if let Some(s) = read_aim(&v) {
            return truncate_chars(s.as_str(), 50);
        }
    }
    let short = text::stripped(text::trimmed(input).as_str(), '"');
    if text::same(name, "bash") || text::same(name, "git status") {
        return truncate_chars(short.as_str(), 50);
    }
    if let Some(path) = read_quoted_after(input, PATH_KEY) {
        return path;
    }
    if let Some(cmd) = read_quoted_after(input, COMMAND_KEY) {
        return truncate_chars(cmd.as_str(), 50);
    }
    truncate_chars(short.as_str(), 50)
}

// ── Messages ──

/// One message of the transcript.
pub struct ChatMessage {
    pub role: String,
    pub items: Vec<TurnItem>,
    pub usage: Option<String>,
}

/// The contents of a `ChatMessage`.
pub struct ChatView {
    pub role: Seq<char>,
    pub items: Seq<turn::ItemView>,
    pub usage: Option<Seq<char>>,
}

impl DeepView for ChatMessage {
    type V = ChatView;

    open spec fn deep_view(&self) -> ChatView {
        ChatView {
            role: self.role@,
            items: self.items.deep_view(),
            usage: self.usage.deep_view(),
        }
    }
}

/// A message of one text.
pub open spec fn text_message(role: Seq<char>, s: Seq<char>) -> ChatView {
    ChatView { role, items: seq![turn::ItemView::Text(s)], usage: None }
}

pub fn make_text_message(role: &str, s: &str) -> (r: ChatMessage)
    ensures
        r.deep_view() == text_message(role@, s@),
{
    let r = ChatMessage {
        role: role.to_owned(),
        items: vec![TurnItem::Text(s.to_owned())],
        usage: None,
    };
    assert(r.items.deep_view() =~= seq![turn::ItemView::Text(s@)]);
    r
}

pub fn push_message(out: &mut Vec<ChatMessage>, m: ChatMessage)
    ensures
        final(out).deep_view() == old(out).deep_view().push(m.deep_view()),
{
    out.push(m);
    assert(out.deep_view() =~= old(out).deep_view().push(m.deep_view()));
}

// ── Transcripts of stored sessions ──

/// A transcript in the making: the messages so far, and the turn that is
/// open.
pub struct HydrationView {
    pub out: Seq<ChatView>,
    pub open: Option<Seq<turn::ItemView>>,
}

/// The messages with the open turn behind them, unless it is empty.
pub open spec fn flushed(h: HydrationView) -> Seq<ChatView> {
    match h.open {
        Some(items) => if items.len() > 0 {
            h.out.push(ChatView { role: "assistant"@, items, usage: None })
        } else {
            h.out
        },
        None => h.out,
    }
}

/// The texts of a user's message, each a message of its own.
pub open spec fn user_texts(parts: Seq<types::PartView>) -> Seq<ChatView>
    decreases parts.len(),
{
    if parts.len() == 0 {
        Seq::empty()
    } else {
        let before = user_texts(parts.drop_last());
        match parts.last() {
            types::PartView::Text { text } => before.push(text_message("user"@, text)),
            _ => before,
        }
    }
}

/// The text and reasoning of a reply, without what is empty.
pub open spec fn reply_items(parts: Seq<types::PartView>) -> Seq<turn::ItemView>
    decreases parts.len(),
{
    if parts.len() == 0 {
        Seq::empty()
    } else {
        let before = reply_items(parts.drop_last());
        match parts.last() {
            types::PartView::Text { text } => if text.len() > 0 {
                before.push(turn::ItemView::Text(text))
            } else {
                before
            },
            types::PartView::Reasoning { text } => if text.len() > 0 {
                before.push(turn::ItemView::Reasoning(text))
            } else {
                before
            },
            _ => before,
        }
    }
}

/// A tool call that has no result yet.
pub open spec fn call_item(c: types::ToolCallView) -> turn::ItemView {
    turn::ItemView::Tool(
        turn::ToolLineView {
            name: c.name,
            target: target_of(c.input),
            status: turn::StatusView::Running,
        },
    )
}

/// The status of a call with a stored result.
pub open spec fn stored_status(r: types::ResultView) -> turn::StatusView {
    match r {
        types::ResultView::Error { value } => turn::StatusView::Error { msg: value, ms: 0 },
        _ => turn::StatusView::Done { ms: 0 },
    }
}

/// The transcript after a stored message. A reply and the results of its tools
/// go on with the open turn; what the user or the system says closes it.
pub open spec fn hydrate_step(h: HydrationView, m: types::MessageView) -> HydrationView {
    match m {
        types::MessageView::User { content, .. } => HydrationView {
            out: flushed(h) + user_texts(content),
            open: None,
        },
        types::MessageView::Assistant { content, tool_calls, .. } => HydrationView {
            out: h.out,
            open: Some(
                (match h.open {
                    Some(items) => items,
                    None => Seq::empty(),
                }) + reply_items(content) + tool_calls.map_values(
                    |c: types::ToolCallView| call_item(c),
                ),
            ),
        },
        types::MessageView::Tool { tool_name, result, .. } => match h.open {
            Some(items) => HydrationView {
                out: h.out,
                open: Some(turn::with_status(items, tool_name, stored_status(result))),
            },
            None => h,
        },
        types::MessageView::System { content, .. } => if content.len() > 0 {
            HydrationView {
                out: flushed(h).push(text_message("system"@, content)),
                open: None,
            }
        } else {
            h
        },
    }
}

/// The transcript after stored messages.
pub open spec fn hydrate_all(ms: Seq<types::MessageView>) -> HydrationView
    decreases ms.len(),
{
    if ms.len() == 0 {
        HydrationView { out: Seq::empty(), open: None }
    } else {
        hydrate_step(hydrate_all(ms.drop_last()), ms.last())
    }
}

/// The transcript of a stored session.
pub open spec fn transcript(ms: Seq<types::MessageView>) -> Seq<ChatView> {
    flushed(hydrate_all(ms))
}

fn flush_turn(out: &mut Vec<ChatMessage>, current: &mut Option<Vec<TurnItem>>)
    ensures
        final(out).deep_view() == flushed(
            HydrationView { out: old(out).deep_view(), open: old(current).deep_view() },
        ),
        *final(current) is None,
{
    let taken = current.take();
    if let Some(items) = taken {
        assert(items.deep_view().len() == items@.len());
        if items.len() > 0 {
            push_message(
                out,
                ChatMessage { role: "assistant".to_owned(), items, usage: None },
            );
        }
    }
}

pub fn push_user_texts(out: &mut Vec<ChatMessage>, parts: &Vec<ContentPart>)
    ensures
        final(out).deep_view() == old(out).deep_view() + user_texts(parts.deep_view()),
{
    let ghost before = out.deep_view();
    let ghost all = parts.deep_view();
    let mut i: usize = 0;
    assert(before + Seq::<ChatView>::empty() =~= before);
    while i < parts.len()
        invariant
            i <= parts@.len(),
            all == parts.deep_view(),
            out.deep_view() == before + user_texts(all.take(i as int)),
        decreases parts@.len() - i,
    {
        assert(all.take(i + 1).drop_last() =~= all.take(i as int));
        assert(all[i as int] == parts@[i as int].deep_view());
        let ghost held = out.deep_view();
        if let ContentPart::Text { text } = &parts[i] {
            push_message(out, make_text_message("user", text.as_str()));
            assert(out.deep_view() =~= before + user_texts(all.take(i + 1)));
        }
        i = i + 1;
    }
    assert(all.take(i as int) =~= all);
}

fn push_reply_items(items: &mut Vec<TurnItem>, parts: &Vec<ContentPart>)
    ensures
        final(items).deep_view() == old(items).deep_view() + reply_items(parts.deep_view()),
{
    let ghost before = items.deep_view();
    let ghost all = parts.deep_view();
    let mut i: usize = 0;
    assert(before + Seq::<turn::ItemView>::empty() =~= before);
    while i < parts.len()
        invariant
            i <= parts@.len(),
            all == parts.deep_view(),
            items.deep_view() == before + reply_items(all.take(i as int)),
        decreases parts@.len() - i,
    {
        assert(all.take(i + 1).drop_last() =~= all.take(i as int));
        assert(all[i as int] == parts@[i as int].deep_view());
        match &parts[i] {
            ContentPart::Text { text } => {
                if !text.as_str().is_empty() {
                    turn::push_item(items, TurnItem::Text(text.clone()));
                }
            },
            ContentPart::Reasoning { text } => {
                if !text.as_str().is_empty() {
                    turn::push_item(items, TurnItem::Reasoning(text.clone()));
                }
            },
            _ => {},
        }
        assert(items.deep_view() =~= before + reply_items(all.take(i + 1)));
        i = i + 1;
    }
    assert(all.take(i as int) =~= all);
}

fn push_call_items(items: &mut Vec<TurnItem>, calls: &Vec<ToolCall>)
    ensures
        final(items).deep_view() == old(items).deep_view() + calls.deep_view().map_values(
            |c: types::ToolCallView| call_item(c),
        ),
{
    let ghost before = items.deep_view();
    let ghost all = calls.deep_view().map_values(|c: types::ToolCallView| call_item(c));
    let mut i: usize = 0;
    assert(before + all.take(0) =~= before);
    while i < calls.len()
        invariant
            i <= calls@.len(),
            all == calls.deep_view().map_values(|c: types::ToolCallView| call_item(c)),
            items.deep_view() == before + all.take(i as int),
        decreases calls@.len() - i,
    {
        let call = &calls[i];
        assert(calls.deep_view()[i as int] == call.deep_view());
        let ghost held = items.deep_view();
        turn::push_item(
            items,
            TurnItem::Tool(
                ToolLine {
                    name: call.name.clone(),
                    target: extract_tool_target_from_value(&call.input),
                    status: ToolStatus::Running,
                },
            ),
        );
        assert(held.push(all[i as int]) =~= before + all.take(i + 1));
        i = i + 1;
    }
    assert(all.take(i as int) =~= all);
}

/// The transcript of a stored session: what the user and the system said, and
/// turns with their text, their reasoning and their tools.
pub fn hydrate_chat_messages(messages: &Vec<Message>) -> (r: Vec<ChatMessage>)
    ensures
        r.deep_view() == transcript(messages.deep_view()),
{
    let ghost all = messages.deep_view();
    let mut out: Vec<ChatMessage> = Vec::new();
    let mut current: Option<Vec<TurnItem>> = None;
    let mut i: usize = 0;
    assert(out.deep_view() =~= Seq::<ChatView>::empty());
    while i < messages.len()
        invariant
            i <= messages@.len(),
            all == messages.deep_view(),
            hydrate_all(all.take(i as int)) == (HydrationView {
                out: out.deep_view(),
                open: current.deep_view(),
            }),
        decreases messages@.len() - i,
    {
        assert(all.take(i + 1).drop_last() =~= all.take(i as int));
        assert(all[i as int] == messages@[i as int].deep_view());
        match &messages[i] {
            Message::User { content, .. } => {
                flush_turn(&mut out, &mut current);
                push_user_texts(&mut out, content);
            },
            Message::Assistant { content, tool_calls, .. } => {
                let mut items = match current.take() {
                    Some(items) => items,
                    None => {
                        let none: Vec<TurnItem> = Vec::new();
                        assert(none.deep_view() =~= Seq::<turn::ItemView>::empty());
                        none
                    },
                };
                push_reply_items(&mut items, content);
                push_call_items(&mut items, tool_calls);
                current = Some(items);
            },
            Message::Tool { tool_name, result, .. } => {
                if let Some(items) = current.take() {
                    let mut items = items;
                    let status = match result {
                        ToolResultValue::Error { value } => ToolStatus::Error {
                            msg: value.clone(),
                            ms: 0,
                        },
                        _ => ToolStatus::Done { ms: 0 },
                    };
                    turn::settle_tool(&mut items, tool_name.as_str(), status);
                    current = Some(items);
                }
            },
            Message::System { content, .. } => {
                if !content.as_str().is_empty() {
                    flush_turn(&mut out, &mut current);
                    push_message(&mut out, make_text_message("system", content.as_str()));
                }
            },
        }
        i = i + 1;
    }
    assert(all.take(i as int) =~= all);
    flush_turn(&mut out, &mut current);
    out
}

// ── Laws ──

/// A short text is kept; of a longer one as many characters are kept as there
/// is room for, the last of them an ellipsis.
pub proof fn short_texts_are_kept(s: Seq<char>, max: nat)
    ensures
        s.len() <= max ==> clipped(s, max) == s,
        s.len() > max && max > 0 ==> clipped(s, max).len() == max && clipped(s, max).drop_last()
            == s.take(max - 1) && clipped(s, max).last() == '…',
{
    reveal_strlit("…");
    if s.len() > max && max > 0 {
        assert(clipped(s, max).drop_last() =~= s.take(max - 1));
    }
}

/// The user is told the path of what a tool asks for, whole; without one its
/// command, and else all of its input, as far as there is room.
pub proof fn questions_tell_the_target(v: Seq<char>, s: Seq<char>)
    ensures
        json::json_str_member(v, "path"@) == Some(s) ==> asked_input(v) == s,
        json::json_str_member(v, "path"@) is None && json::json_str_member(v, "command"@) == Some(s)
            ==> (s.len() <= 80 ==> asked_input(v) == s) && (s.len() > 80 ==> s.take(
            79,
        ).is_prefix_of(asked_input(v)) && asked_input(v).len() == 80),
        json::json_str_member(v, "path"@) is None && json::json_str_member(v, "command"@) is None
            && v.len() <= 80 ==> asked_input(v) == v,
{
    short_texts_are_kept(s, 80);
    if s.len() > 80 {
        let c = clipped(s, 80);
        assert(c.subrange(0, 79) =~= s.take(79)) by {
            assert(c.drop_last() =~= c.subrange(0, 79));
        }
    }
}

/// A tool is shown with what it works on: its command, its path or its pattern,
/// the first that its input names.
pub proof fn tools_show_their_target(name: Seq<char>, v: Seq<char>, s: Seq<char>)
    requires
        s.len() <= 50,
    ensures
        ({
            let command = json::json_str_member(v, "command"@);
            let path = json::json_str_member(v, "path"@);
            let pattern = json::json_str_member(v, "pattern"@);
            let named = command == Some(s) || (command is None && path == Some(s)) || (
            command is None && path is None && pattern == Some(s));
            &&& named ==> target_of(v) == s && aim(v) == Some(s)
            &&& named && json::is_compact(v) ==> target_in(name, v) == s
            &&& command is None && path is None && pattern is None ==> aim(v) is None && (v.len()
                <= 50 ==> target_of(v) == v)
        }),
{
}

/// A message of one text shows that text under its role.
pub proof fn messages_show_their_text(role: Seq<char>, s: Seq<char>)
    ensures
        text_message(role, s).role == role,
        text_message(role, s).items.len() == 1,
        text_message(role, s).items[0] == turn::ItemView::Text(s),
        text_message(role, s).usage is None,
        turn::text_of_items(text_message(role, s).items) == s,
{
    let items = seq![turn::ItemView::Text(s)];
    assert(items.drop_last() =~= Seq::<turn::ItemView>::empty());
    assert(turn::text_of_items(Seq::<turn::ItemView>::empty()) =~= Seq::<char>::empty());
    assert(turn::text_of_items(items) =~= s);
}

/// What the user said is shown text by text, each whole and in order.
pub proof fn the_user_is_shown(a: Seq<types::PartView>, b: Seq<types::PartView>, p: types::PartView)
    ensures
        user_texts(a + b) == user_texts(a) + user_texts(b),
        user_texts(seq![p]) == (match p {
            types::PartView::Text { text } => seq![text_message("user"@, text)],
            _ => Seq::empty(),
        }),
    decreases b.len(),
{
    let none = Seq::<types::PartView>::empty();
    assert(seq![p].drop_last() =~= none);
    assert(user_texts(none) =~= Seq::<ChatView>::empty());
    assert(user_texts(seq![p]) =~= (match p {
        types::PartView::Text { text } => seq![text_message("user"@, text)],
        _ => Seq::empty(),
    }));
    if b.len() == 0 {
        assert(a + b =~= a);
        assert(user_texts(a) + user_texts(b) =~= user_texts(a));
    } else {
        the_user_is_shown(a, b.drop_last(), p);
        assert((a + b).drop_last() =~= a + b.drop_last());
        assert(user_texts(a + b) =~= user_texts(a) + user_texts(b));
    }
}

/// A reply is shown part by part in order: its text and its reasoning, whole.
pub proof fn replies_are_shown_in_parts(
    a: Seq<types::PartView>,
    b: Seq<types::PartView>,
    p: types::PartView,
)
    ensures
        reply_items(a + b) == reply_items(a) + reply_items(b),
        p matches types::PartView::Text { text } ==> (text.len() > 0 ==> reply_items(seq![p])
            == seq![turn::ItemView::Text(text)]) && (text.len() == 0 ==> reply_items(
            seq![p],
        ).len() == 0),
        p matches types::PartView::Reasoning { text } ==> (text.len() > 0 ==> reply_items(seq![p])
            == seq![turn::ItemView::Reasoning(text)]) && (text.len() == 0 ==> reply_items(
            seq![p],
        ).len() == 0),
        p is File ==> reply_items(seq![p]).len() == 0,
        turn::text_of_items(reply_items(a)) == types::reply_text(a),
    decreases a.len() + b.len(),
{
    let none = Seq::<types::PartView>::empty();
    let empty = Seq::<turn::ItemView>::empty();
    assert(seq![p].drop_last() =~= none);
    assert(reply_items(none) =~= empty);
    match p {
        types::PartView::Text { text } => {
            if text.len() > 0 {
                assert(reply_items(seq![p]) =~= seq![turn::ItemView::Text(text)]);
            }
        },
        types::PartView::Reasoning { text } => {
            if text.len() > 0 {
                assert(reply_items(seq![p]) =~= seq![turn::ItemView::Reasoning(text)]);
            }
        },
        _ => {},
    }
    if b.len() == 0 {
        assert(a + b =~= a);
        assert(reply_items(a) + reply_items(b) =~= reply_items(a));
        if a.len() > 0 {
            replies_are_shown_in_parts(a.drop_last(), none, p);
            let before = reply_items(a.drop_last());
            let after = reply_items(a);
            if after.len() > before.len() {
                assert(after.drop_last() =~= before);
            }
            assert(turn::text_of_items(after) =~= types::reply_text(a));
        } else {
            assert(turn::text_of_items(reply_items(a)) =~= types::reply_text(a));
        }
    } else {
        replies_are_shown_in_parts(a, b.drop_last(), p);
        assert((a + b).drop_last() =~= a + b.drop_last());
        assert(reply_items(a + b) =~= reply_items(a) + reply_items(b));
    }
}

/// What the user says next follows the transcript there was, which does not
/// change; so does what the system says.
pub proof fn transcripts_go_on(
    ms: Seq<types::MessageView>,
    id: Seq<char>,
    parts: Seq<types::PartView>,
    content: Seq<char>,
)
    ensures
        transcript(ms.push(types::MessageView::User { id, content: parts })) == transcript(ms)
            + user_texts(parts),
        content.len() > 0 ==> transcript(ms.push(types::MessageView::System { id, content }))
            == transcript(ms).push(text_message("system"@, content)),
{
    let u = types::MessageView::User { id, content: parts };
    let s = types::MessageView::System { id, content };
    assert(ms.push(u).drop_last() =~= ms);
    assert(ms.push(s).drop_last() =~= ms);
}

/// A reply that follows what the user said makes a message of its own, with
/// its text and reasoning and behind them its calls, none of which has ended.
/// One that follows the results of tools goes on with the message there is.
pub proof fn replies_join_their_turn(
    ms: Seq<types::MessageView>,
    id: Seq<char>,
    parts: Seq<types::PartView>,
    calls: Seq<types::ToolCallView>,
)
    ensures
        ({
            let m = types::MessageView::Assistant { id, content: parts, tool_calls: calls };
            let before = hydrate_all(ms);
            let after = hydrate_all(ms.push(m));
            let old = match before.open {
                Some(items) => items,
                None => Seq::empty(),
            };
            &&& after.out == before.out
            &&& after.open matches Some(items) && items.len() == old.len() + reply_items(
                parts,
            ).len() + calls.len() && old.is_prefix_of(items) && items.subrange(
                old.len() as int,
                (old.len() + reply_items(parts).len()) as int,
            ) == reply_items(parts) && forall|i: int|
                0 <= i < calls.len() ==> items[old.len() + reply_items(parts).len() + i]
                    == turn::ItemView::Tool(
                    turn::ToolLineView {
                        name: (#[trigger] calls[i]).name,
                        target: target_of(calls[i].input),
                        status: turn::StatusView::Running,
                    },
                )
            &&& before.open is None && reply_items(parts).len() + calls.len() > 0 ==> transcript(
                ms.push(m),
            ).drop_last() == transcript(ms) && transcript(ms.push(m)).last().role == "assistant"@
                && transcript(ms.push(m)).last().items == after.open.unwrap()
        }),
{
    let m = types::MessageView::Assistant { id, content: parts, tool_calls: calls };
    assert(ms.push(m).drop_last() =~= ms);
    let before = hydrate_all(ms);
    let after = hydrate_all(ms.push(m));
    let old = match before.open {
        Some(items) => items,
        None => Seq::empty(),
    };
    let items = after.open.unwrap();
    assert(items.subrange(0, old.len() as int) =~= old);
    assert(items.subrange(old.len() as int, (old.len() + reply_items(parts).len()) as int)
        =~= reply_items(parts));
    if before.open is None && items.len() > 0 {
        assert(transcript(ms.push(m)).drop_last() =~= transcript(ms));
    }
}

/// The stored result of a tool ends the last running call of it: an error shows
/// what it says, any other result is done. Nothing else changes.
pub proof fn stored_results_end_calls(
    ms: Seq<types::MessageView>,
    id: Seq<char>,
    tool_call_id: Seq<char>,
    tool_name: Seq<char>,
    result: types::ResultView,
)
    ensures
        ({
            let m = types::MessageView::Tool { id, tool_call_id, tool_name, result };
            let before = hydrate_all(ms);
            let after = hydrate_all(ms.push(m));
            &&& after.out == before.out
            &&& before.open is None ==> after.open is None
            &&& before.open matches Some(items) ==> after.open == Some(
                turn::with_status(items, tool_name, stored_status(result)),
            )
        }),
        result matches types::ResultView::Error { value } ==> stored_status(result)
            == (turn::StatusView::Error { msg: value, ms: 0 }),
        !(result is Error) ==> stored_status(result) == (turn::StatusView::Done { ms: 0 }),
{
    let m = types::MessageView::Tool { id, tool_call_id, tool_name, result };
    assert(ms.push(m).drop_last() =~= ms);
}

/// A quoted value is what stands between its key and the next quotation mark.
pub proof fn quoted_values_are_read(
    head: Seq<char>,
    key: Seq<char>,
    value: Seq<char>,
    rest: Seq<char>,
)
    requires
        text::find(head + key + value + seq!['"'] + rest, key) == Some(head.len() as int),
        !value.contains('"'),
    ensures
        quoted_after(head + key + value + seq!['"'] + rest, key) == Some(value),
{
    reveal_strlit("\"");
    assert("\""@ =~= seq!['"']);
    let s = head + key + value + seq!['"'] + rest;
    let tail = s.skip(head.len() as int + key.len());
    assert(tail =~= value + seq!['"'] + rest);
    text::lemma_find(tail, "\""@);
    let at = value.len() as int;
    assert(tail.skip(at).subrange(0, 1) =~= "\""@);
    assert("\""@.is_prefix_of(tail.skip(at)));
    match text::find(tail, "\""@) {
        Some(k) => {
            assert(tail.subrange(k, k + 1)[0] == tail[k]);
            if k < at {
                assert(value.contains(value[k]));
                assert(tail[k] == value[k]);
            }
            assert(k == at);
        },
        None => {},
    }
    assert(tail.take(at) =~= value);
}

/// Input that is no JSON is shown for a command as it is, up to white space and
/// quotation marks at its ends; for other tools by the path that it names, then
/// by its command, and else as it is.
pub proof fn raw_inputs_are_shown(name: Seq<char>, input: Seq<char>)
    requires
        json::json_compact(input) is None,
    ensures
        ({
            let plain = text::strip(text::trim(input), '"');
            let path = quoted_after(input, PATH_KEY@);
            let command = quoted_after(input, COMMAND_KEY@);
            &&& name == "bash"@ && plain.len() <= 50 ==> target_in(name, input) == plain
            &&& name != "bash"@ && name != "git status"@ ==> {
                &&& path is Some ==> target_in(name, input) == path.unwrap()
                &&& path is None && command is Some && command.unwrap().len() <= 50 ==> target_in(
                    name,
                    input,
                ) == command.unwrap()
                &&& path is None && command is None && plain.len() <= 50 ==> target_in(name, input)
                    == plain
            }
        }),
{
}

} // verus!
