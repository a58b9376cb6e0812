//! The timeline of a turn: steps, tools, changes, reasoning and text.
use vstd::prelude::*;
use crate::text;
use crate::types::{Duplicate, duplicate_all};

verus! {

/// How far a tool call has come.
pub enum ToolStatus {
    Running,
    Done { ms: i64 },
    Error { msg: String, ms: i64 },
}

/// The contents of a `ToolStatus`.
pub enum StatusView {
    Running,
    Done { ms: i64 },
    Error { msg: Seq<char>, ms: i64 },
}

impl DeepView for ToolStatus {
    type V = StatusView;

    open spec fn deep_view(&self) -> StatusView {
        match *self {
            ToolStatus::Running => StatusView::Running,
            ToolStatus::Done { ms } => StatusView::Done { ms },
            ToolStatus::Error { msg, ms } => StatusView::Error { msg: msg@, ms },
        }
    }
}

impl Duplicate for ToolStatus {
    fn duplicate(&self) -> Self {
        match self {
            ToolStatus::Running => ToolStatus::Running,
            ToolStatus::Done { ms } => ToolStatus::Done { ms: *ms },
            ToolStatus::Error { msg, ms } => ToolStatus::Error { msg: msg.clone(), ms: *ms },
        }
    }
}

/// A tool call: the tool, what it works on, and how far it has come.
pub struct ToolLine {
    pub name: String,
    pub target: String,
    pub status: ToolStatus,
}

/// The contents of a `ToolLine`.
pub struct ToolLineView {
    pub name: Seq<char>,
    pub target: Seq<char>,
    pub status: StatusView,
}

impl DeepView for ToolLine {
    type V = ToolLineView;

    open spec fn deep_view(&self) -> ToolLineView {
        ToolLineView {
            name: self.name@,
            target: self.target@,
            status: self.status.deep_view(),
        }
    }
}

/// One entry of a timeline.
pub enum TurnItem {
    Step(u32),
    Tool(ToolLine),
    Diff { lines: Vec<String> },
    WrittenFile { path: String, content: String },
    Reasoning(String),
    Text(String),
}

/// The contents of a `TurnItem`.
pub enum ItemView {
    Step(u32),
    Tool(ToolLineView),
    Diff { lines: Seq<Seq<char>> },
    WrittenFile { path: Seq<char>, content: Seq<char> },
    Reasoning(Seq<char>),
    Text(Seq<char>),
}

impl DeepView for TurnItem {
    type V = ItemView;

    open spec fn deep_view(&self) -> ItemView {
        match *self {
            TurnItem::Step(n) => ItemView::Step(n),
            TurnItem::Tool(t) => ItemView::Tool(t.deep_view()),
            TurnItem::Diff { lines } => ItemView::Diff { lines: lines.deep_view() },
            TurnItem::WrittenFile { path, content } => ItemView::WrittenFile {
                path: path@,
                content: content@,
            },
            TurnItem::Reasoning(s) => ItemView::Reasoning(s@),
            TurnItem::Text(s) => ItemView::Text(s@),
        }
    }
}

impl Duplicate for TurnItem {
    fn duplicate(&self) -> Self {
        match self {
            TurnItem::Step(n) => TurnItem::Step(*n),
            TurnItem::Tool(t) => TurnItem::Tool(
                ToolLine {
                    name: t.name.clone(),
                    target: t.target.clone(),
                    status: t.status.duplicate(),
                },
            ),
            TurnItem::Diff { lines } => TurnItem::Diff { lines: duplicate_all(lines) },
            TurnItem::WrittenFile { path, content } => TurnItem::WrittenFile {
                path: path.clone(),
                content: content.clone(),
            },
            TurnItem::Reasoning(s) => TurnItem::Reasoning(s.clone()),
            TurnItem::Text(s) => TurnItem::Text(s.clone()),
        }
    }
}

/// Adds an entry at the end.
pub fn push_item(items: &mut Vec<TurnItem>, item: TurnItem)
    ensures
        final(items).deep_view() == old(items).deep_view().push(item.deep_view()),
{
    items.push(item);
    assert(items.deep_view() =~= old(items).deep_view().push(item.deep_view()));
}

/// Replaces the entry at `i`.
pub fn set_item(items: &mut Vec<TurnItem>, i: usize, item: TurnItem)
    requires
        i < old(items)@.len(),
    ensures
        final(items).deep_view() == old(items).deep_view().update(i as int, item.deep_view()),
{
    items.set(i, item);
    assert(items.deep_view() =~= old(items).deep_view().update(i as int, item.deep_view()));
}

/// A turn that is under way.
pub struct ActiveTurn {
    pub items: Vec<TurnItem>,
}

impl DeepView for ActiveTurn {
    type V = Seq<ItemView>;

    open spec fn deep_view(&self) -> Seq<ItemView> {
        self.items.deep_view()
    }
}

// ── Tools ──

/// Whether an entry is a running call of the tool `name`.
pub open spec fn is_running(item: ItemView, name: Seq<char>) -> bool {
    match item {
        ItemView::Tool(t) => t.name == name && t.status is Running,
        _ => false,
    }
}

/// Where the last running call of the tool `name` stands.
pub open spec fn last_running(items: Seq<ItemView>, name: Seq<char>) -> Option<int>
    decreases items.len(),
{
    if items.len() == 0 {
        None
    } else if is_running(items.last(), name) {
        Some(items.len() - 1)
    } else {
        last_running(items.drop_last(), name)
    }
}

/// The timeline after the last running call of the tool `name` came to
/// `status`. Without such a call nothing changes.
pub open spec fn with_status(items: Seq<ItemView>, name: Seq<char>, status: StatusView) -> Seq<
    ItemView,
> {
    match last_running(items, name) {
        Some(i) => match items[i] {
            ItemView::Tool(t) => items.update(i, ItemView::Tool(ToolLineView { status, ..t })),
            _ => items,
        },
        None => items,
    }
}

fn find_running(items: &Vec<TurnItem>, name: &str) -> (r: Option<usize>)
    ensures
        match r {
            Some(i) => i < items@.len() && last_running(items.deep_view(), name@) == Some(i as int)
                && is_running(items@[i as int].deep_view(), name@),
            None => last_running(items.deep_view(), name@) is None,
        },
{
    let ghost all = items.deep_view();
    let mut n: usize = items.len();
    assert(all.take(n as int) =~= all);
    while n > 0
        invariant
            n <= items@.len(),
            all == items.deep_view(),
            last_running(all, name@) == last_running(all.take(n as int), name@),
        decreases n,
    {
        let i: usize = n - 1;
        assert(all.take(n as int).last() == items@[i as int].deep_view());
        if let TurnItem::Tool(t) = &items[i] {
            if matches!(t.status, ToolStatus::Running) && text::same(t.name.as_str(), name) {
                return Some(i);
            }
        }
        assert(all.take(n as int).drop_last() =~= all.take(i as int));
        n = i;
    }
    None
}

/// Brings the last running call of the tool `name` to `status`.
pub fn settle_tool(items: &mut Vec<TurnItem>, name: &str, status: ToolStatus)
    ensures
        final(items).deep_view() == with_status(
            old(items).deep_view(),
            name@,
            status.deep_view(),
        ),
{
    if let Some(i) = find_running(items, name) {
        assert(items.deep_view()[i as int] == items@[i as int].deep_view());
        let line = match &items[i] {
            TurnItem::Tool(t) => Some((t.name.clone(), t.target.clone())),
            _ => None,
        };
        if let Some((name, target)) = line {
            set_item(items, i, TurnItem::Tool(ToolLine { name, target, status }));
        }
    }
}

/// The status of a call that ended.
pub open spec fn end_status(status: Seq<char>, error: Option<Seq<char>>, ms: i64) -> StatusView {
    if status == "error"@ {
        StatusView::Error {
            msg: match error {
                Some(e) => e,
                None => "failed"@,
            },
            ms,
        }
    } else {
        StatusView::Done { ms }
    }
}

/// The timeline after more text: it goes on where the last entry is text.
pub open spec fn with_text(items: Seq<ItemView>, s: Seq<char>) -> Seq<ItemView> {
    if s.len() == 0 {
        items
    } else if items.len() > 0 && items.last() is Text {
        items.update(items.len() - 1, ItemView::Text(items.last()->Text_0 + s))
    } else {
        items.push(ItemView::Text(s))
    }
}

/// The timeline after more reasoning: it goes on where the last entry is
/// reasoning.
pub open spec fn with_reasoning(items: Seq<ItemView>, s: Seq<char>) -> Seq<ItemView> {
    if s.len() == 0 {
        items
    } else if items.len() > 0 && items.last() is Reasoning {
        items.update(items.len() - 1, ItemView::Reasoning(items.last()->Reasoning_0 + s))
    } else {
        items.push(ItemView::Reasoning(s))
    }
}

/// Whether an entry shows the file at `path`.
pub open spec fn shows_file(item: ItemView, file: Seq<char>) -> bool {
    match item {
        ItemView::WrittenFile { path, .. } => path == file,
        _ => false,
    }
}

/// Where the file at `path` was shown last.
pub open spec fn last_shown(items: Seq<ItemView>, path: Seq<char>) -> Option<int>
    decreases items.len(),
{
    if items.len() == 0 {
        None
    } else if shows_file(items.last(), path) {
        Some(items.len() - 1)
    } else {
        last_shown(items.drop_last(), path)
    }
}

/// The timeline after a file was written: an entry that showed it shows what
/// it holds now.
pub open spec fn with_file(items: Seq<ItemView>, path: Seq<char>, content: Seq<char>) -> Seq<ItemView> {
    let item = ItemView::WrittenFile { path, content };
    match last_shown(items, path) {
        Some(i) => items.update(i, item),
        None => items.push(item),
    }
}

// ── Changes ──

/// The lines of a diff that are shown.
pub const MAX_DIFF_LINES: usize = 200;

/// What is shown of a line of a diff.
pub open spec fn diff_line(line: Seq<char>) -> Option<Seq<char>> {
    if "+++"@.is_prefix_of(line) || "---"@.is_prefix_of(line) || line.len() == 0 {
        None
    } else if line[0] == '+' || line[0] == '-' || line[0] == '~' || line[0] == ' ' {
        Some(line)
    } else if "@@"@.is_prefix_of(line) {
        Some("~"@ + line)
    } else if line[0] == '\\' {
        Some(" "@ + line)
    } else {
        None
    }
}

/// What is shown of lines of a diff.
pub open spec fn diff_lines(lines: Seq<Seq<char>>) -> Seq<Seq<char>>
    decreases lines.len(),
{
    if lines.len() == 0 {
        Seq::empty()
    } else {
        let before = diff_lines(lines.drop_last());
        match diff_line(lines.last()) {
            Some(shown) => before.push(shown),
            None => before,
        }
    }
}

/// What is shown of a diff: its first lines, and how many more there are.
pub open spec fn shown_diff(diff: Seq<char>) -> Seq<Seq<char>> {
    let all = text::lines(diff);
    if all.len() <= MAX_DIFF_LINES {
        diff_lines(all)
    } else {
        diff_lines(all.take(MAX_DIFF_LINES as int)).push(
            "… ("@ + crate::number::decimal((all.len() - MAX_DIFF_LINES) as nat)
                + " more diff lines)"@,
        )
    }
}

/// The timeline after a diff; one that shows nothing is left out.
pub open spec fn with_diff(items: Seq<ItemView>, diff: Seq<char>) -> Seq<ItemView> {
    if shown_diff(diff).len() == 0 {
        items
    } else {
        items.push(ItemView::Diff { lines: shown_diff(diff) })
    }
}

fn show_diff_line(line: &str) -> (r: Option<String>)
    ensures
        r.deep_view() == diff_line(line@),
{
    if text::has_prefix(line, "+++") || text::has_prefix(line, "---") || line.is_empty() {
        return None;
    }
    let v = text::chars_of(line);
    let c = v[0];
    if c == '+' || c == '-' || c == '~' || c == ' ' {
        Some(line.to_owned())
    } else if text::has_prefix(line, "@@") {
        Some(text::cat2("~", line))
    } else if c == '\\' {
        Some(text::cat2(" ", line))
    } else {
        None
    }
}

fn show_diff(diff: &str) -> (r: Vec<String>)
    ensures
        r.deep_view() == shown_diff(diff@),
{
    let lines = text::lines_of(diff);
    let ghost all = lines.deep_view();
    assert(all.len() == lines@.len());
    let n: usize = if lines.len() <= MAX_DIFF_LINES {
        lines.len()
    } else {
        MAX_DIFF_LINES
    };
    let mut r: Vec<String> = Vec::new();
    let mut i: usize = 0;
    assert(r.deep_view() =~= Seq::<Seq<char>>::empty());
    while i < n
        invariant
            i <= n <= lines@.len(),
            all == lines.deep_view(),
            r.deep_view() == diff_lines(all.take(i as int)),
        decreases n - i,
    {
        assert(all.take(i + 1).drop_last() =~= all.take(i as int));
        assert(all[i as int] == lines@[i as int]@);
        let ghost before = r.deep_view();
        if let Some(shown) = show_diff_line(lines[i].as_str()) {
            let ghost sv = shown@;
            r.push(shown);
            assert(r.deep_view() =~= before.push(sv));
        }
        i = i + 1;
    }
    if lines.len() > MAX_DIFF_LINES {
        let ghost before = r.deep_view();
        let more = text::cat3(
            "… (",
            crate::number::usize_text(lines.len() - MAX_DIFF_LINES).as_str(),
            " more diff lines)",
        );
        let ghost mv = more@;
        r.push(more);
        assert(r.deep_view() =~= before.push(mv));
    } else {
        assert(all.take(i as int) =~= all);
    }
    r
}

impl ActiveTurn {
    pub fn new() -> (r: Self)
        ensures
            r.deep_view() == Seq::<ItemView>::empty(),
    {
        let r = ActiveTurn { items: Vec::new() };
        assert(r.items.deep_view() =~= Seq::<ItemView>::empty());
        r
    }

    /// Notes a step behind the first.
    pub fn push_step(&mut self, iteration: u32)
        ensures
            final(self).deep_view() == (if iteration > 1 {
                old(self).deep_view().push(ItemView::Step(iteration))
            } else {
                old(self).deep_view()
            }),
    {
        if iteration > 1 {
            push_item(&mut self.items, TurnItem::Step(iteration));
        }
    }

    /// Notes a tool call that starts.
    pub fn push_tool_start(&mut self, name: &str, target: &str)
        ensures
            final(self).deep_view() == old(self).deep_view().push(
                ItemView::Tool(
                    ToolLineView { name: name@, target: target@, status: StatusView::Running },
                ),
            ),
    {
        push_item(
            &mut self.items,
            TurnItem::Tool(
                ToolLine {
                    name: name.to_owned(),
                    target: target.to_owned(),
                    status: ToolStatus::Running,
                },
            ),
        );
    }

    /// Notes that the last running call of a tool ended.
    pub fn finish_tool(&mut self, name: &str, status: &str, error: &Option<String>, ms: Option<i64>)
        ensures
            final(self).deep_view() == with_status(
                old(self).deep_view(),
                name@,
                end_status(
                    status@,
                    error.deep_view(),
                    match ms {
                        Some(ms) => ms,
                        None => 0,
                    },
                ),
            ),
    {
        let ms: i64 = match ms {
            Some(ms) => ms,
            None => 0,
        };
        let end = if text::same(status, "error") {
            let msg = match error {
                Some(e) => e.clone(),
                None => "failed".to_owned(),
            };
            ToolStatus::Error { msg, ms }
        } else {
            ToolStatus::Done { ms }
        };
        settle_tool(&mut self.items, name, end);
    }

    pub fn append_text(&mut self, s: &str)
        ensures
            final(self).deep_view() == with_text(old(self).deep_view(), s@),
    {
        if s.is_empty() {
            return ;
        }
        let n: usize = self.items.len();
        assert(self.items.deep_view().len() == n);
        let mut joined: Option<String> = None;
        if n > 0 {
            assert(self.items.deep_view().last() == self.items@[n - 1].deep_view());
            if let TurnItem::Text(t) = &self.items[n - 1] {
                joined = Some(text::cat2(t.as_str(), s));
            }
        }
        match joined {
            Some(t) => set_item(&mut self.items, n - 1, TurnItem::Text(t)),
            None => push_item(&mut self.items, TurnItem::Text(s.to_owned())),
        }
    }

    pub fn append_reasoning(&mut self, s: &str)
        ensures
            final(self).deep_view() == with_reasoning(old(self).deep_view(), s@),
    {
        if s.is_empty() {
            return ;
        }
        let n: usize = self.items.len();
        assert(self.items.deep_view().len() == n);
        let mut joined: Option<String> = None;
        if n > 0 {
            assert(self.items.deep_view().last() == self.items@[n - 1].deep_view());
            if let TurnItem::Reasoning(t) = &self.items[n - 1] {
                joined = Some(text::cat2(t.as_str(), s));
            }
        }
        match joined {
            Some(t) => set_item(&mut self.items, n - 1, TurnItem::Reasoning(t)),
            None => push_item(&mut self.items, TurnItem::Reasoning(s.to_owned())),
        }
    }

    /// Notes what a file holds now.
    pub fn push_written_file(&mut self, path: &str, content: &str)
        ensures
            final(self).deep_view() == with_file(old(self).deep_view(), path@, content@),
    {
        let ghost all = self.items.deep_view();
        let item = TurnItem::WrittenFile { path: path.to_owned(), content: content.to_owned() };
        let mut n: usize = self.items.len();
        assert(all.take(n as int) =~= all);
        while n > 0
            invariant
                n <= self.items@.len(),
                all == self.items.deep_view(),
                *self == *old(self),
                item.deep_view() == (ItemView::WrittenFile { path: path@, content: content@ }),
                last_shown(all, path@) == last_shown(all.take(n as int), path@),
            decreases n,
        {
            let i: usize = n - 1;
            assert(all.take(n as int).last() == self.items@[i as int].deep_view());
            if let TurnItem::WrittenFile { path: p, .. } = &self.items[i] {
                if text::same(p.as_str(), path) {
                    set_item(&mut self.items, i, item);
                    return ;
                }
            }
            assert(all.take(n as int).drop_last() =~= all.take(i as int));
            n = i;
        }
        push_item(&mut self.items, item);
    }

    /// Notes what a diff shows.
    pub fn push_diff(&mut self, diff: &str)
        ensures
            final(self).deep_view() == with_diff(old(self).deep_view(), diff@),
    {
        let lines = show_diff(diff);
        assert(lines.deep_view().len() == lines@.len());
        if lines.len() > 0 {
            push_item(&mut self.items, TurnItem::Diff { lines });
        }
    }
}

// ── Laws ──

proof fn lemma_last_running(items: Seq<ItemView>, name: Seq<char>)
    ensures
        match last_running(items, name) {
            Some(i) => 0 <= i < items.len() && is_running(items[i], name) && forall|j: int|
                i < j < items.len() ==> !is_running(#[trigger] items[j], name),
            None => forall|j: int| 0 <= j < items.len() ==> !is_running(#[trigger] items[j], name),
        },
    decreases items.len(),
{
    if items.len() > 0 && !is_running(items.last(), name) {
        let rest = items.drop_last();
        lemma_last_running(rest, name);
        assert forall|j: int| 0 <= j < rest.len() implies #[trigger] items[j] == rest[j] by {}
    }
}

/// The end of a tool call changes one entry at most, the last running call of
/// that tool, and only its status.
pub proof fn one_call_ends(items: Seq<ItemView>, name: Seq<char>, status: StatusView, i: int)
    requires
        0 <= i < items.len(),
    ensures
        with_status(items, name, status).len() == items.len(),
        last_running(items, name) != Some(i) ==> with_status(items, name, status)[i] == items[i],
        last_running(items, name) == Some(i) ==> is_running(items[i], name) && with_status(
            items,
            name,
            status,
        )[i] == ItemView::Tool(
            ToolLineView {
                name,
                target: items[i]->Tool_0.target,
                status,
            },
        ),
{
    lemma_last_running(items, name);
}

/// Pieces of text that follow each other make one entry.
pub proof fn text_goes_on(items: Seq<ItemView>, a: Seq<char>, b: Seq<char>)
    ensures
        with_text(with_text(items, a), b) == with_text(items, a + b),
{
    let none = Seq::<char>::empty();
    if a.len() == 0 {
        assert(a + b =~= b);
    } else if b.len() == 0 {
        assert(a + b =~= a);
    } else if items.len() > 0 && items.last() is Text {
        let t = items.last()->Text_0;
        assert(t + a + b =~= t + (a + b));
        assert(with_text(with_text(items, a), b) =~= with_text(items, a + b));
    } else {
        assert(with_text(with_text(items, a), b) =~= with_text(items, a + b));
    }
}

/// A file that is written again is shown once, as it is now.
pub proof fn files_are_shown_once(
    items: Seq<ItemView>,
    path: Seq<char>,
    first: Seq<char>,
    second: Seq<char>,
)
    ensures
        with_file(with_file(items, path, first), path, second) == with_file(items, path, second),
{
    let a = with_file(items, path, first);
    lemma_last_shown(items, path);
    lemma_last_shown(a, path);
    match last_shown(items, path) {
        Some(i) => {
            assert(shows_file(a[i], path));
            assert(last_shown(a, path) == Some(i)) by {
                let k = last_shown(a, path).unwrap();
                if k != i {
                    assert(a[k] == items[k]);
                }
            }
            assert(with_file(a, path, second) =~= with_file(items, path, second));
        },
        None => {
            assert(a.last() == (ItemView::WrittenFile { path, content: first }));
            assert(with_file(a, path, second) =~= with_file(items, path, second));
        },
    }
}

proof fn lemma_last_shown(items: Seq<ItemView>, path: Seq<char>)
    ensures
        match last_shown(items, path) {
            Some(i) => 0 <= i < items.len() && shows_file(items[i], path) && forall|j: int|
                i < j < items.len() ==> !shows_file(#[trigger] items[j], path),
            None => forall|j: int| 0 <= j < items.len() ==> !shows_file(#[trigger] items[j], path),
        },
    decreases items.len(),
{
    if items.len() > 0 && !shows_file(items.last(), path) {
        let rest = items.drop_last();
        lemma_last_shown(rest, path);
        assert forall|j: int| 0 <= j < rest.len() implies #[trigger] items[j] == rest[j] by {}
    }
}

/// The text in a timeline, put together.
pub open spec fn text_of_items(items: Seq<ItemView>) -> Seq<char>
    decreases items.len(),
{
    if items.len() == 0 {
        Seq::empty()
    } else {
        text_of_items(items.drop_last()) + match items.last() {
            ItemView::Text(s) => s,
            _ => Seq::empty(),
        }
    }
}

/// The reasoning in a timeline, put together.
pub open spec fn reasoning_of_items(items: Seq<ItemView>) -> Seq<char>
    decreases items.len(),
{
    if items.len() == 0 {
        Seq::empty()
    } else {
        reasoning_of_items(items.drop_last()) + match items.last() {
            ItemView::Reasoning(s) => s,
            _ => Seq::empty(),
        }
    }
}

/// Text that comes in stands behind the text there was, character for
/// character; no other entry changes.
pub proof fn incoming_text_is_kept(items: Seq<ItemView>, s: Seq<char>)
    ensures
        text_of_items(with_text(items, s)) == text_of_items(items) + s,
        reasoning_of_items(with_text(items, s)) == reasoning_of_items(items),
        items.len() <= with_text(items, s).len() <= items.len() + 1,
        forall|i: int|
            0 <= i < items.len() && !((#[trigger] items[i]) is Text) ==> with_text(items, s)[i]
                == items[i],
{
    let after = with_text(items, s);
    if s.len() == 0 {
        assert(text_of_items(items) + s =~= text_of_items(items));
    } else if items.len() > 0 && items.last() is Text {
        let rest = items.drop_last();
        assert(after.drop_last() =~= rest);
        assert(text_of_items(after) =~= text_of_items(items) + s);
        assert(reasoning_of_items(after) =~= reasoning_of_items(items));
    } else {
        assert(after.drop_last() =~= items);
        assert(text_of_items(after) =~= text_of_items(items) + s);
        assert(reasoning_of_items(after) =~= reasoning_of_items(items));
    }
}

/// Reasoning that comes in stands behind the reasoning there was, character for
/// character; no other entry changes.
pub proof fn incoming_reasoning_is_kept(items: Seq<ItemView>, s: Seq<char>)
    ensures
        reasoning_of_items(with_reasoning(items, s)) == reasoning_of_items(items) + s,
        text_of_items(with_reasoning(items, s)) == text_of_items(items),
        items.len() <= with_reasoning(items, s).len() <= items.len() + 1,
        forall|i: int|
            0 <= i < items.len() && !((#[trigger] items[i]) is Reasoning) ==> with_reasoning(
                items,
                s,
            )[i] == items[i],
{
    let after = with_reasoning(items, s);
    if s.len() == 0 {
        assert(reasoning_of_items(items) + s =~= reasoning_of_items(items));
    } else if items.len() > 0 && items.last() is Reasoning {
        let rest = items.drop_last();
        assert(after.drop_last() =~= rest);
        assert(reasoning_of_items(after) =~= reasoning_of_items(items) + s);
        assert(text_of_items(after) =~= text_of_items(items));
    } else {
        assert(after.drop_last() =~= items);
        assert(reasoning_of_items(after) =~= reasoning_of_items(items) + s);
        assert(text_of_items(after) =~= text_of_items(items));
    }
}

/// Pieces of reasoning that follow each other make one entry.
pub proof fn reasoning_goes_on(items: Seq<ItemView>, a: Seq<char>, b: Seq<char>)
    ensures
        with_reasoning(with_reasoning(items, a), b) == with_reasoning(items, a + b),
{
    if a.len() == 0 {
        assert(a + b =~= b);
    } else if b.len() == 0 {
        assert(a + b =~= a);
    } else if items.len() > 0 && items.last() is Reasoning {
        let t = items.last()->Reasoning_0;
        assert(t + a + b =~= t + (a + b));
        assert(with_reasoning(with_reasoning(items, a), b) =~= with_reasoning(items, a + b));
    } else {
        assert(with_reasoning(with_reasoning(items, a), b) =~= with_reasoning(items, a + b));
    }
}

/// A tool that ends while a call of it runs leaves one running call of it less:
/// the last one has the new status. Where none runs nothing changes.
pub proof fn running_calls_end(items: Seq<ItemView>, name: Seq<char>, status: StatusView)
    ensures
        (exists|i: int| 0 <= i < items.len() && is_running(#[trigger] items[i], name)) ==> exists|
            i: int,
        |
            0 <= i < items.len() && is_running(#[trigger] items[i], name) && with_status(
                items,
                name,
                status,
            ) == items.update(
                i,
                ItemView::Tool(
                    ToolLineView { name, target: items[i]->Tool_0.target, status },
                ),
            ) && forall|j: int| i < j < items.len() ==> !is_running(#[trigger] items[j], name),
        (forall|i: int| 0 <= i < items.len() ==> !is_running(#[trigger] items[i], name))
            ==> with_status(items, name, status) == items,
{
    lemma_last_running(items, name);
    if let Some(i) = last_running(items, name) {
        assert(is_running(items[i], name));
        assert(with_status(items, name, status) =~= items.update(
            i,
            ItemView::Tool(ToolLineView { name, target: items[i]->Tool_0.target, status }),
        ));
    }
}

/// A call runs where it is of that tool and has not ended.
pub proof fn running_is_not_ended(t: ToolLineView, name: Seq<char>)
    ensures
        is_running(ItemView::Tool(t), name) <==> t.name == name && t.status is Running,
{
}

/// A call that ended with an error shows the error; any other end is done. Both
/// show the time.
pub proof fn ends_are_told(status: Seq<char>, error: Option<Seq<char>>, ms: i64)
    ensures
        status == "error"@ ==> (end_status(status, error, ms) matches StatusView::Error {
            msg,
            ms: m,
        } && m == ms && (error matches Some(e) ==> msg == e)),
        status != "error"@ ==> end_status(status, error, ms) == (StatusView::Done { ms }),
{
}

/// A file that was written is shown with what it holds, and no other entry
/// changes but one that showed it before.
pub proof fn written_files_are_shown(items: Seq<ItemView>, path: Seq<char>, content: Seq<char>)
    ensures
        with_file(items, path, content).contains(ItemView::WrittenFile { path, content }),
        items.len() <= with_file(items, path, content).len() <= items.len() + 1,
        forall|i: int|
            0 <= i < items.len() && !shows_file(#[trigger] items[i], path) ==> with_file(
                items,
                path,
                content,
            )[i] == items[i],
        (exists|i: int| 0 <= i < items.len() && shows_file(#[trigger] items[i], path))
            ==> with_file(items, path, content).len() == items.len(),
{
    lemma_last_shown(items, path);
    let after = with_file(items, path, content);
    let item = ItemView::WrittenFile { path, content };
    match last_shown(items, path) {
        Some(i) => {
            assert(after[i] == item);
        },
        None => {
            assert(after[items.len() as int] == item);
        },
    }
}

/// Of a diff the added and removed lines are shown as they are, and so is their
/// surrounding; the names of the files are not.
pub proof fn changes_are_shown(line: Seq<char>)
    requires
        line.len() > 0,
    ensures
        "+++"@.is_prefix_of(line) || "---"@.is_prefix_of(line) ==> diff_line(line) is None,
        !("+++"@.is_prefix_of(line)) && !("---"@.is_prefix_of(line)) && (line[0] == '+' || line[0]
            == '-' || line[0] == ' ' || line[0] == '~') ==> diff_line(line) == Some(line),
        "@@"@.is_prefix_of(line) ==> diff_line(line) == Some("~"@ + line),
        line[0] == '\\' ==> diff_line(line) == Some(" "@ + line),
        diff_line(line) matches Some(shown) ==> line.is_suffix_of(shown),
        line[0] != '+' && line[0] != '-' && line[0] != '~' && line[0] != ' ' && line[0] != '@'
            && line[0] != '\\' ==> diff_line(line) is None,
{
    reveal_strlit("+++");
    reveal_strlit("---");
    reveal_strlit("@@");
    if "@@"@.is_prefix_of(line) {
        assert(line.subrange(0, 2)[0] == line[0]);
    }
    if "+++"@.is_prefix_of(line) {
        assert(line.subrange(0, 3)[0] == line[0]);
    }
    if "---"@.is_prefix_of(line) {
        assert(line.subrange(0, 3)[0] == line[0]);
    }
    if let Some(shown) = diff_line(line) {
        assert(shown.subrange(shown.len() - line.len(), shown.len() as int) =~= line);
    }
}

/// The lines of a diff are shown in order, each by itself.
pub proof fn changes_are_shown_in_order(a: Seq<Seq<char>>, b: Seq<Seq<char>>, line: Seq<char>)
    ensures
        diff_lines(a + b) == diff_lines(a) + diff_lines(b),
        diff_lines(seq![line]) == (match diff_line(line) {
            Some(shown) => seq![shown],
            None => Seq::empty(),
        }),
    decreases b.len(),
{
    let none = Seq::<Seq<char>>::empty();
    assert(seq![line].drop_last() =~= none);
    assert(diff_lines(none) =~= none);
    assert(diff_lines(seq![line]) =~= (match diff_line(line) {
        Some(shown) => seq![shown],
        None => Seq::empty(),
    }));
    if b.len() == 0 {
        assert(a + b =~= a);
        assert(diff_lines(a) + diff_lines(b) =~= diff_lines(a));
    } else {
        changes_are_shown_in_order(a, b.drop_last(), line);
        assert((a + b).drop_last() =~= a + b.drop_last());
        assert(diff_lines(a + b) =~= diff_lines(a) + diff_lines(b));
    }
}

/// A diff of at most two hundred lines is shown whole; of a longer one the
/// first two hundred lines are shown, and how many more there are.
pub proof fn long_diffs_are_cut(items: Seq<ItemView>, diff: Seq<char>)
    ensures
        text::lines(diff).len() <= 200 ==> shown_diff(diff) == diff_lines(text::lines(diff)),
        text::lines(diff).len() > 200 ==> shown_diff(diff).drop_last() == diff_lines(
            text::lines(diff).take(200),
        ) && text::holds(
            shown_diff(diff).last(),
            crate::number::decimal((text::lines(diff).len() - 200) as nat),
        ),
        shown_diff(diff).len() > 0 ==> with_diff(items, diff) == items.push(
            ItemView::Diff { lines: shown_diff(diff) },
        ),
        shown_diff(diff).len() == 0 ==> with_diff(items, diff) == items,
{
    if text::lines(diff).len() > 200 {
        let n = crate::number::decimal((text::lines(diff).len() - 200) as nat);
        assert(shown_diff(diff).drop_last() =~= diff_lines(text::lines(diff).take(200)));
        text::holds_itself(n);
        text::whole_holds_parts("… ("@, n, " more diff lines)"@, n);
    }
}

} // verus!
