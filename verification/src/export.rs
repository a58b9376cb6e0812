//! The transcript as plain text, to be copied.
use vstd::prelude::*;
use crate::app_state::{AppState, AppView};
use crate::number;
use crate::text;
use crate::tui;
use crate::turn;
use crate::turn::TurnItem;

verus! {

/// Lines, each with a line feed behind it.
pub open spec fn stacked(lines: Seq<Seq<char>>) -> Seq<char>
    decreases lines.len(),
{
    if lines.len() == 0 {
        Seq::empty()
    } else {
        stacked(lines.drop_last()) + lines.last() + "\n"@
    }
}

/// `s` with a line feed at its end.
pub open spec fn ended(s: Seq<char>) -> Seq<char> {
    if s.len() > 0 && s.last() == '\n' {
        s
    } else {
        s + "\n"@
    }
}

/// An entry of a timeline as text.
pub open spec fn item_text(item: turn::ItemView) -> Seq<char> {
    match item {
        turn::ItemView::Text(s) => if s.len() == 0 {
            Seq::empty()
        } else {
            ended(s)
        },
        turn::ItemView::Tool(t) => "  "@ + t.name + " "@ + t.target + "\n"@,
        turn::ItemView::Step(n) => "  step "@ + number::decimal(n as nat) + "\n"@,
        turn::ItemView::Reasoning(s) => if s.len() == 0 {
            Seq::empty()
        } else {
            "[thinking]\n"@ + s + "\n"@
        },
        turn::ItemView::Diff { lines } => "[changes]\n"@ + stacked(lines),
        turn::ItemView::WrittenFile { path, content } => "[file: "@ + path + "]\n"@ + content
            + "\n"@,
    }
}

/// A timeline as text.
pub open spec fn items_text(items: Seq<turn::ItemView>) -> Seq<char>
    decreases items.len(),
{
    if items.len() == 0 {
        Seq::empty()
    } else {
        items_text(items.drop_last()) + item_text(items.last())
    }
}

/// The texts among entries, each between `before` and `after`.
pub open spec fn texts_within(items: Seq<turn::ItemView>, before: Seq<char>, after: Seq<char>) -> Seq<
    char,
>
    decreases items.len(),
{
    if items.len() == 0 {
        Seq::empty()
    } else {
        texts_within(items.drop_last(), before, after) + match items.last() {
            turn::ItemView::Text(s) => before + s + after,
            _ => Seq::empty(),
        }
    }
}

/// The line that says what a turn used.
pub open spec fn usage_line(usage: Option<Seq<char>>) -> Seq<char> {
    match usage {
        Some(u) => "── "@ + u + " ──\n"@,
        None => Seq::empty(),
    }
}

/// A message as text.
pub open spec fn message_text(m: tui::ChatView) -> Seq<char> {
    if m.role == "user"@ {
        texts_within(m.items, "> "@, "\n"@)
    } else if m.role == "assistant"@ {
        items_text(m.items) + usage_line(m.usage)
    } else if m.role == "system"@ {
        texts_within(m.items, "["@, "]\n"@)
    } else {
        Seq::empty()
    }
}

/// Messages as text, with an empty line behind each.
pub open spec fn messages_text(ms: Seq<tui::ChatView>) -> Seq<char>
    decreases ms.len(),
{
    if ms.len() == 0 {
        Seq::empty()
    } else {
        messages_text(ms.drop_last()) + message_text(ms.last()) + "\n"@
    }
}

/// The last reply among messages, as text.
pub open spec fn last_reply(ms: Seq<tui::ChatView>) -> Option<Seq<char>>
    decreases ms.len(),
{
    if ms.len() == 0 {
        None
    } else if ms.last().role == "assistant"@ {
        Some(message_text(ms.last()))
    } else {
        last_reply(ms.drop_last())
    }
}

/// The whole transcript as text, with the turn under way at its end.
pub open spec fn conversation_text(a: AppView) -> Seq<char> {
    messages_text(a.messages) + (if a.thinking {
        match a.active_turn {
            Some(items) => items_text(items),
            None => Seq::empty(),
        }
    } else {
        Seq::empty()
    })
}

/// The reply that is coming in, else the last one, as text.
pub open spec fn current_reply(a: AppView) -> Option<Seq<char>> {
    if a.thinking && a.active_turn is Some && a.active_turn.unwrap().len() > 0 {
        Some(items_text(a.active_turn.unwrap()))
    } else {
        last_reply(a.messages)
    }
}

/// What is copied of a text: all of it, unless it is blank.
pub open spec fn copyable(s: Option<Seq<char>>) -> Result<Seq<char>, Seq<char>> {
    match s {
        Some(t) => if text::trim(t).len() > 0 {
            Ok(t)
        } else {
            Err("nothing to copy"@)
        },
        None => Err("nothing to copy"@),
    }
}

/// The contents of what is copied.
pub open spec fn copy_view(r: Result<String, String>) -> Result<Seq<char>, Seq<char>> {
    match r {
        Ok(s) => Ok(s@),
        Err(e) => Err(e@),
    }
}

fn push_item_text(out: &mut String, item: &TurnItem)
    ensures
        final(out)@ == old(out)@ + item_text(item.deep_view()),
{
    let ghost before = out@;
    match item {
        TurnItem::Text(s) => {
            if !s.as_str().is_empty() {
                out.append(s.as_str());
                proof {
                    reveal_strlit("\n");
                }
                let v = text::chars_of(s.as_str());
                if v[v.len() - 1] != '\n' {
                    out.append("\n");
                }
            }
        },
        TurnItem::Tool(t) => {
            let line = text::cat5("  ", t.name.as_str(), " ", t.target.as_str(), "\n");
            out.append(line.as_str());
        },
        TurnItem::Step(n) => {
            let line = text::cat3("  step ", number::u64_text(*n as u64).as_str(), "\n");
            out.append(line.as_str());
        },
        TurnItem::Reasoning(s) => {
            if !s.as_str().is_empty() {
                let block = text::cat3("[thinking]\n", s.as_str(), "\n");
                out.append(block.as_str());
            }
        },
        TurnItem::Diff { lines } => {
            out.append("[changes]\n");
            let ghost head = out@;
            let ghost all = lines.deep_view();
            let mut i: usize = 0;
            assert(head + Seq::<char>::empty() =~= head);
            while i < lines.len()
                invariant
                    i <= lines@.len(),
                    all == lines.deep_view(),
                    out@ == head + stacked(all.take(i as int)),
                decreases lines@.len() - i,
            {
                assert(all.take(i + 1).drop_last() =~= all.take(i as int));
                assert(all[i as int] == lines@[i as int]@);
                let ghost held = out@;
                out.append(lines[i].as_str());
                out.append("\n");
                assert(out@ =~= head + stacked(all.take(i + 1)));
                i = i + 1;
            }
            assert(all.take(i as int) =~= all);
        },
        TurnItem::WrittenFile { path, content } => {
            let block = text::cat5("[file: ", path.as_str(), "]\n", content.as_str(), "\n");
            out.append(block.as_str());
        },
    }
    assert(out@ =~= before + item_text(item.deep_view()));
}

/// A timeline as text.
pub fn turn_items_to_text(items: &Vec<TurnItem>) -> (r: String)
    ensures
        r@ == items_text(items.deep_view()),
{
    let ghost all = items.deep_view();
    let mut r = String::new();
    let mut i: usize = 0;
    while i < items.len()
        invariant
            i <= items@.len(),
            all == items.deep_view(),
            r@ == items_text(all.take(i as int)),
        decreases items@.len() - i,
    {
        assert(all.take(i + 1).drop_last() =~= all.take(i as int));
        assert(all[i as int] == items@[i as int].deep_view());
        push_item_text(&mut r, &items[i]);
        i = i + 1;
    }
    assert(all.take(i as int) =~= all);
    r
}

fn texts_between(items: &Vec<TurnItem>, before: &str, after: &str) -> (r: String)
    ensures
        r@ == texts_within(items.deep_view(), before@, after@),
{
    let ghost all = items.deep_view();
    let mut r = String::new();
    let mut i: usize = 0;
    while i < items.len()
        invariant
            i <= items@.len(),
            all == items.deep_view(),
            r@ == texts_within(all.take(i as int), before@, after@),
        decreases items@.len() - i,
    {
        assert(all.take(i + 1).drop_last() =~= all.take(i as int));
        assert(all[i as int] == items@[i as int].deep_view());
        let ghost held = r@;
        if let TurnItem::Text(s) = &items[i] {
            let block = text::cat3(before, s.as_str(), after);
            r.append(block.as_str());
        } else {
            assert(held + Seq::<char>::empty() =~= held);
        }
        i = i + 1;
    }
    assert(all.take(i as int) =~= all);
    r
}

fn message_to_text(m: &tui::ChatMessage) -> (r: String)
    ensures
        r@ == message_text(m.deep_view()),
{
    let role = m.role.as_str();
    if text::same(role, "user") {
        texts_between(&m.items, "> ", "\n")
    } else if text::same(role, "assistant") {
        let body = turn_items_to_text(&m.items);
        let usage = match &m.usage {
            Some(u) => text::cat3("── ", u.as_str(), " ──\n"),
            None => String::new(),
        };
        text::cat2(body.as_str(), usage.as_str())
    } else if text::same(role, "system") {
        texts_between(&m.items, "[", "]\n")
    } else {
        String::new()
    }
}

impl AppState {
    /// The whole transcript as text.
    pub fn export_conversation(&self) -> (r: String)
        ensures
            r@ == conversation_text(self.deep_view()),
    {
        let ghost all = self.messages.deep_view();
        let mut r = String::new();
        let mut i: usize = 0;
        while i < self.messages.len()
            invariant
                i <= self.messages@.len(),
                all == self.messages.deep_view(),
                r@ == messages_text(all.take(i as int)),
            decreases self.messages@.len() - i,
        {
            assert(all.take(i + 1).drop_last() =~= all.take(i as int));
            assert(all[i as int] == self.messages@[i as int].deep_view());
            r.append(message_to_text(&self.messages[i]).as_str());
            r.append("\n");
            i = i + 1;
        }
        assert(all.take(i as int) =~= all);
        let ghost held = r@;
        assert(held + Seq::<char>::empty() =~= held);
        if self.thinking {
            if let Some(turn) = &self.active_turn {
                r.append(turn_items_to_text(&turn.items).as_str());
            }
        }
        r
    }

    /// The reply that is coming in, else the last one, as text.
    pub fn export_last_assistant(&self) -> (r: Option<String>)
        ensures
            r.deep_view() == current_reply(self.deep_view()),
    {
        if self.thinking {
            if let Some(turn) = &self.active_turn {
                assert(turn.items.deep_view().len() == turn.items@.len());
                if turn.items.len() > 0 {
                    return Some(turn_items_to_text(&turn.items));
                }
            }
        }
        let ghost all = self.messages.deep_view();
        let mut n: usize = self.messages.len();
        assert(all.take(n as int) =~= all);
        while n > 0
            invariant
                n <= self.messages@.len(),
                all == self.messages.deep_view(),
                last_reply(all) == last_reply(all.take(n as int)),
                !(self.thinking && self.deep_view().active_turn is Some
                    && self.deep_view().active_turn.unwrap().len() > 0),
            decreases n,
        {
            let m = &self.messages[n - 1];
            assert(all.take(n as int).last() == m.deep_view());
            if text::same(m.role.as_str(), "assistant") {
                return Some(message_to_text(m));
            }
            assert(all.take(n as int).drop_last() =~= all.take(n - 1));
            n = n - 1;
        }
        None
    }

    /// The last reply, to be copied.
    pub fn copy_last_assistant(&self) -> (r: Result<String, String>)
        ensures
            copy_view(r) == copyable(current_reply(self.deep_view())),
    {
        match self.export_last_assistant() {
            Some(s) => {
                if text::trimmed(s.as_str()).as_str().is_empty() {
                    Err("nothing to copy".to_owned())
                } else {
                    Ok(s)
                }
            },
            None => Err("nothing to copy".to_owned()),
        }
    }

    /// The whole transcript, to be copied.
    pub fn copy_conversation(&self) -> (r: Result<String, String>)
        ensures
            copy_view(r) == copyable(Some(conversation_text(self.deep_view()))),
    {
        let s = self.export_conversation();
        if text::trimmed(s.as_str()).as_str().is_empty() {
            Err("nothing to copy".to_owned())
        } else {
            Ok(s)
        }
    }
}

// ── Laws ──

/// Lines are stacked in order, each with a line feed behind it.
pub proof fn lines_are_stacked(a: Seq<Seq<char>>, b: Seq<Seq<char>>, line: Seq<char>)
    ensures
        stacked(a + b) == stacked(a) + stacked(b),
        stacked(seq![line]) == line + "\n"@,
        stacked(Seq::empty()) == Seq::<char>::empty(),
    decreases b.len(),
{
    let none = Seq::<Seq<char>>::empty();
    assert(seq![line].drop_last() =~= none);
    assert(stacked(none) =~= Seq::<char>::empty());
    assert(stacked(seq![line]) =~= line + "\n"@);
    if b.len() == 0 {
        assert(a + b =~= a);
        assert(stacked(a) + stacked(b) =~= stacked(a));
    } else {
        lines_are_stacked(a, b.drop_last(), line);
        assert((a + b).drop_last() =~= a + b.drop_last());
        assert(stacked(a + b) =~= stacked(a) + stacked(b));
    }
}

/// An entry is exported whole: text, reasoning and written files with all they
/// hold, a tool with its name and target, a change with each of its lines.
pub proof fn entries_are_exported_whole(item: turn::ItemView, i: int)
    ensures
        match item {
            turn::ItemView::Text(s) => text::holds(item_text(item), s) && (s.len() > 0
                ==> s.is_prefix_of(item_text(item)) && item_text(item).len() <= s.len() + 1
                && item_text(item).last() == '\n'),
            turn::ItemView::Tool(t) => text::holds(item_text(item), t.name) && text::holds(
                item_text(item),
                t.target,
            ),
            turn::ItemView::Step(n) => text::holds(item_text(item), number::decimal(n as nat)),
            turn::ItemView::Reasoning(s) => text::holds(item_text(item), s),
            turn::ItemView::Diff { lines } => 0 <= i < lines.len() ==> text::holds(
                item_text(item),
                lines[i] + "\n"@,
            ),
            turn::ItemView::WrittenFile { path, content } => text::holds(item_text(item), path)
                && text::holds(item_text(item), content),
        },
{
    reveal_strlit("\n");
    let none = Seq::<char>::empty();
    match item {
        turn::ItemView::Text(s) => {
            text::holds_itself(s);
            if s.len() > 0 {
                let all = item_text(item);
                assert(all.subrange(0, s.len() as int) =~= s);
                text::whole_holds_parts(none, s, "\n"@, s);
                assert(none + s + "\n"@ =~= s + "\n"@);
            } else {
                assert(item_text(item) =~= s);
            }
        },
        turn::ItemView::Tool(t) => {
            text::holds_itself(t.name);
            text::holds_itself(t.target);
            text::whole_holds_parts("  "@, t.name, " "@ + t.target + "\n"@, t.name);
            assert(item_text(item) =~= "  "@ + t.name + (" "@ + t.target + "\n"@));
            text::whole_holds_parts("  "@ + t.name + " "@, t.target, "\n"@, t.target);
        },
        turn::ItemView::Step(n) => {
            let d = number::decimal(n as nat);
            text::holds_itself(d);
            text::whole_holds_parts("  step "@, d, "\n"@, d);
        },
        turn::ItemView::Reasoning(s) => {
            text::holds_itself(s);
            text::whole_holds_parts("[thinking]\n"@, s, "\n"@, s);
            if s.len() == 0 {
                assert(item_text(item) =~= s);
            }
        },
        turn::ItemView::Diff { lines } => {
            if 0 <= i < lines.len() {
                let line = lines[i] + "\n"@;
                text::holds_itself(line);
                lines_are_stacked(lines.take(i + 1), lines.skip(i + 1), lines[i]);
                lines_are_stacked(lines.take(i), seq![lines[i]], lines[i]);
                assert(lines.take(i + 1) =~= lines.take(i) + seq![lines[i]]);
                assert(lines =~= lines.take(i + 1) + lines.skip(i + 1));
                text::whole_holds_parts(
                    "[changes]\n"@ + stacked(lines.take(i)),
                    line,
                    stacked(lines.skip(i + 1)),
                    line,
                );
                assert(item_text(item) =~= "[changes]\n"@ + stacked(lines.take(i)) + line + stacked(
                    lines.skip(i + 1),
                ));
            }
        },
        turn::ItemView::WrittenFile { path, content } => {
            text::holds_itself(path);
            text::holds_itself(content);
            text::whole_holds_parts("[file: "@, path, "]\n"@ + content + "\n"@, path);
            assert(item_text(item) =~= "[file: "@ + path + ("]\n"@ + content + "\n"@));
            text::whole_holds_parts("[file: "@ + path + "]\n"@, content, "\n"@, content);
        },
    }
}

/// A timeline is exported entry by entry, in order.
pub proof fn timelines_are_exported_in_order(
    a: Seq<turn::ItemView>,
    b: Seq<turn::ItemView>,
    item: turn::ItemView,
    before: Seq<char>,
    after: Seq<char>,
)
    ensures
        items_text(a + b) == items_text(a) + items_text(b),
        items_text(seq![item]) == item_text(item),
        texts_within(a + b, before, after) == texts_within(a, before, after) + texts_within(
            b,
            before,
            after,
        ),
        texts_within(seq![item], before, after) == (match item {
            turn::ItemView::Text(s) => before + s + after,
            _ => Seq::empty(),
        }),
    decreases b.len(),
{
    let none = Seq::<turn::ItemView>::empty();
    assert(seq![item].drop_last() =~= none);
    assert(items_text(none) =~= Seq::<char>::empty());
    assert(texts_within(none, before, after) =~= Seq::<char>::empty());
    assert(items_text(seq![item]) =~= item_text(item));
    assert(texts_within(seq![item], before, after) =~= (match item {
        turn::ItemView::Text(s) => before + s + after,
        _ => Seq::empty(),
    }));
    if b.len() == 0 {
        assert(a + b =~= a);
        assert(items_text(a) + items_text(b) =~= items_text(a));
        assert(texts_within(a, before, after) + texts_within(b, before, after) =~= texts_within(
            a,
            before,
            after,
        ));
    } else {
        timelines_are_exported_in_order(a, b.drop_last(), item, before, after);
        assert((a + b).drop_last() =~= a + b.drop_last());
        assert(items_text(a + b) =~= items_text(a) + items_text(b));
        assert(texts_within(a + b, before, after) =~= texts_within(a, before, after)
            + texts_within(b, before, after));
    }
}

/// A message is exported under its role: what the user said behind a mark, a
/// reply with all its entries and its usage, what the system said in brackets.
pub proof fn messages_are_exported_whole(s: Seq<char>, items: Seq<turn::ItemView>, usage: Seq<char>)
    ensures
        message_text(tui::text_message("user"@, s)) == "> "@ + s + "\n"@,
        message_text(tui::text_message("system"@, s)) == "["@ + s + "]\n"@,
        message_text(tui::ChatView { role: "assistant"@, items, usage: None }) == items_text(items),
        message_text(tui::ChatView { role: "assistant"@, items, usage: Some(usage) }) == items_text(
            items,
        ) + "── "@ + usage + " ──\n"@,
{
    reveal_strlit("user");
    reveal_strlit("assistant");
    reveal_strlit("system");
    assert("user"@.len() == 4 && "assistant"@.len() == 9 && "system"@.len() == 6);
    let item = turn::ItemView::Text(s);
    let none = Seq::<turn::ItemView>::empty();
    timelines_are_exported_in_order(none, none, item, "> "@, "\n"@);
    timelines_are_exported_in_order(none, none, item, "["@, "]\n"@);
    assert(items_text(items) + Seq::<char>::empty() =~= items_text(items));
    assert(items_text(items) + ("── "@ + usage + " ──\n"@) =~= items_text(items) + "── "@ + usage
        + " ──\n"@);
}

/// The conversation is exported message by message in order, and what is under
/// way stands at its end.
pub proof fn conversations_are_exported_in_order(
    a: Seq<tui::ChatView>,
    b: Seq<tui::ChatView>,
    m: tui::ChatView,
)
    ensures
        messages_text(a + b) == messages_text(a) + messages_text(b),
        messages_text(seq![m]) == message_text(m) + "\n"@,
    decreases b.len(),
{
    let none = Seq::<tui::ChatView>::empty();
    assert(seq![m].drop_last() =~= none);
    assert(messages_text(none) =~= Seq::<char>::empty());
    assert(messages_text(seq![m]) =~= message_text(m) + "\n"@);
    if b.len() == 0 {
        assert(a + b =~= a);
        assert(messages_text(a) + messages_text(b) =~= messages_text(a));
    } else {
        conversations_are_exported_in_order(a, b.drop_last(), m);
        assert((a + b).drop_last() =~= a + b.drop_last());
        assert(messages_text(a + b) =~= messages_text(a) + messages_text(b));
    }
}

/// The whole conversation is exported: every message of it is held by the
/// export, and so is the turn under way.
pub proof fn nothing_said_is_left_out(a: AppView, i: int)
    ensures
        0 <= i < a.messages.len() ==> text::holds(
            conversation_text(a),
            message_text(a.messages[i]),
        ),
        messages_text(a.messages).is_prefix_of(conversation_text(a)),
        a.thinking && a.active_turn is Some ==> items_text(a.active_turn.unwrap()).is_suffix_of(
            conversation_text(a),
        ),
        !a.thinking ==> conversation_text(a) == messages_text(a.messages),
{
    let all = conversation_text(a);
    let none = Seq::<char>::empty();
    let head = messages_text(a.messages);
    let tail = if a.thinking {
        match a.active_turn {
            Some(items) => items_text(items),
            None => Seq::empty(),
        }
    } else {
        Seq::empty()
    };
    assert(all.subrange(0, head.len() as int) =~= head);
    assert(all.subrange(all.len() - tail.len(), all.len() as int) =~= tail);
    if !a.thinking {
        assert(all =~= head);
    }
    if 0 <= i < a.messages.len() {
        let m = a.messages[i];
        let ms = a.messages;
        text::holds_itself(message_text(m));
        conversations_are_exported_in_order(ms.take(i + 1), ms.skip(i + 1), m);
        conversations_are_exported_in_order(ms.take(i), seq![m], m);
        assert(ms.take(i + 1) =~= ms.take(i) + seq![m]);
        assert(ms =~= ms.take(i + 1) + ms.skip(i + 1));
        let before = messages_text(ms.take(i));
        let after = "\n"@ + messages_text(ms.skip(i + 1)) + tail;
        text::whole_holds_parts(before, message_text(m), after, message_text(m));
        assert(all =~= before + message_text(m) + after);
    }
}

/// The last reply is that of the last message of the assistant; what is under
/// way counts before it.
pub proof fn the_last_reply_is_copied(a: AppView, i: int)
    ensures
        0 <= i < a.messages.len() && a.messages[i].role == "assistant"@ && (forall|j: int|
            i < j < a.messages.len() ==> (#[trigger] a.messages[j]).role != "assistant"@)
            ==> last_reply(a.messages) == Some(message_text(a.messages[i])),
        (forall|j: int| 0 <= j < a.messages.len() ==> (#[trigger] a.messages[j]).role
            != "assistant"@) ==> last_reply(a.messages) is None,
        a.thinking && a.active_turn is Some && a.active_turn.unwrap().len() > 0 ==> current_reply(a)
            == Some(items_text(a.active_turn.unwrap())),
        !a.thinking ==> current_reply(a) == last_reply(a.messages),
{
    lemma_last_reply(a.messages, i);
}

proof fn lemma_last_reply(ms: Seq<tui::ChatView>, i: int)
    ensures
        0 <= i < ms.len() && ms[i].role == "assistant"@ && (forall|j: int|
            i < j < ms.len() ==> (#[trigger] ms[j]).role != "assistant"@) ==> last_reply(ms) == Some(
            message_text(ms[i]),
        ),
        (forall|j: int| 0 <= j < ms.len() ==> (#[trigger] ms[j]).role != "assistant"@)
            ==> last_reply(ms) is None,
    decreases ms.len(),
{
    if ms.len() > 0 {
        let rest = ms.drop_last();
        lemma_last_reply(rest, i);
        assert(ms[ms.len() - 1] == ms.last());
        assert forall|j: int| 0 <= j < rest.len() implies #[trigger] rest[j] == ms[j] by {}
    }
}

/// What is copied is the whole text, and only blank text is refused.
pub proof fn copies_are_whole(s: Seq<char>)
    ensures
        text::trim(s).len() > 0 ==> copyable(Some(s)) == Ok::<Seq<char>, Seq<char>>(s),
        text::trim(s).len() == 0 ==> copyable(Some(s)) is Err,
        copyable(None) is Err,
{
}

} // verus!
