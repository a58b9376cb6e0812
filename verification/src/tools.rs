//! What the built-in tools decide: which input they accept, what they ask of
//! the system, and what they answer.
use vstd::prelude::*;
pub use crate::builtin::{
    all_tools, BashTool, EditTool, GitCommitTool, GitDiffTool, GitLogTool, GitStatusTool, GlobTool,
    GrepTool, ReadTool, UndoTool, WebFetchTool, WebSearchTool, WriteTool,
};
use crate::json;
use crate::json::Json;
use crate::number;
use crate::pattern;
use crate::text;
use crate::tool;
use crate::tool::{ToolError, ToolResult};
use crate::types;
use crate::types::{ToolContent, ToolOutput};

verus! {

/// The contents of what a tool gives.
pub open spec fn outcome(r: ToolResult<ToolOutput>) -> Result<
    Seq<types::ToolContentView>,
    tool::ToolErrorView,
> {
    match r {
        Ok(output) => Ok(output.deep_view()),
        Err(e) => Err(e.deep_view()),
    }
}

/// An answer that is one text.
pub open spec fn answer(s: Seq<char>) -> Result<Seq<types::ToolContentView>, tool::ToolErrorView> {
    Ok(seq![types::ToolContentView::Text { text: s }])
}

/// A failure while a tool worked.
pub open spec fn failure(s: Seq<char>) -> Result<Seq<types::ToolContentView>, tool::ToolErrorView> {
    Err(tool::ToolErrorView::Execution(s))
}

/// The string member of an input, `default` where there is none.
pub open spec fn str_or(input: Seq<char>, key: Seq<char>, default: Seq<char>) -> Seq<char> {
    match json::json_str_member(input, key) {
        Some(s) => s,
        None => default,
    }
}

fn read_str_or(input: &Json, key: &str, default: &str) -> (r: String)
    ensures
        r@ == str_or(input@, key@, default@),
{
    match input.str_member(key) {
        Some(s) => s,
        None => default.to_owned(),
    }
}

fn text_output(s: String) -> (r: ToolOutput)
    ensures
        r.deep_view() == seq![types::ToolContentView::Text { text: s@ }],
{
    let r = ToolOutput { content: vec![ToolContent::Text { text: s }] };
    assert(r.content.deep_view() =~= seq![types::ToolContentView::Text { text: s@ }]);
    r
}

fn invalid<T>(message: &str) -> (r: ToolResult<T>)
    ensures
        r matches Err(e) && e.deep_view() == tool::ToolErrorView::InvalidInput(message@),
{
    Err(ToolError::InvalidInput(message.to_owned()))
}

fn failed(what: &str, error: &str) -> (r: ToolResult<ToolOutput>)
    ensures
        outcome(r) == failure(what@ + error@),
{
    Err(ToolError::Execution(text::cat2(what, error)))
}

// ── Read, write ──

impl ReadTool {
    /// The file to read.
    pub fn plan(input: &Json) -> (r: ToolResult<String>)
        ensures
            match r {
                Ok(path) => path@ == str_or(input@, "path"@, ""@) && path@.len() > 0,
                Err(e) => str_or(input@, "path"@, ""@).len() == 0 && e.deep_view()
                    == tool::ToolErrorView::InvalidInput("path is required"@),
            },
    {
        let path = read_str_or(input, "path", "");
        if path.as_str().is_empty() {
            return invalid("path is required");
        }
        Ok(path)
    }

    /// The answer to what reading gave.
    pub fn finish(read: Result<String, String>) -> (r: ToolResult<ToolOutput>)
        ensures
            outcome(r) == (match read {
                Ok(content) => answer(content@),
                Err(e) => failure("Read error: "@ + e@),
            }),
    {
        match read {
            Ok(content) => Ok(text_output(content)),
            Err(e) => failed("Read error: ", e.as_str()),
        }
    }
}

impl WriteTool {
    /// The file to write, and what to write.
    pub fn plan(input: &Json) -> (r: ToolResult<(String, String)>)
        ensures
            match r {
                Ok((path, content)) => path@ == str_or(input@, "path"@, ""@) && path@.len() > 0
                    && content@ == str_or(input@, "content"@, ""@),
                Err(e) => str_or(input@, "path"@, ""@).len() == 0 && e.deep_view()
                    == tool::ToolErrorView::InvalidInput("path is required"@),
            },
    {
        let path = read_str_or(input, "path", "");
        let content = read_str_or(input, "content", "");
        if path.as_str().is_empty() {
            return invalid("path is required");
        }
        Ok((path, content))
    }

    /// The answer to what writing gave.
    pub fn finish(path: &str, content: &str, written: Result<(), String>) -> (r: ToolResult<
        ToolOutput,
    >)
        ensures
            outcome(r) == (match written {
                Ok(_) => answer(
                    "Successfully wrote "@ + number::decimal(text::byte_len(content@))
                        + " bytes to "@ + path@,
                ),
                Err(e) => failure("Write error: "@ + e@),
            }),
    {
        match written {
            Ok(_) => {
                let n: usize = text::len_bytes(content);
                Ok(
                    text_output(
                        text::cat4(
                            "Successfully wrote ",
                            number::usize_text(n).as_str(),
                            " bytes to ",
                            path,
                        ),
                    ),
                )
            },
            Err(e) => failed("Write error: ", e.as_str()),
        }
    }
}

// ── Edit ──

/// What an edit is asked to do.
pub struct EditPlan {
    pub path: String,
    pub old: String,
    pub new: String,
}

/// What an edit makes of a file.
pub struct Edit {
    pub content: String,
    pub diff: String,
}

/// `s` with each run of spaces and tabs as one space, where `prev` stands
/// before it; a space before it takes in a run at its start.
pub open spec fn collapse(s: Seq<char>, prev: char) -> Seq<char>
    decreases s.len(),
{
    if s.len() == 0 {
        Seq::empty()
    } else if s[0] == ' ' || s[0] == '\t' {
        if prev != ' ' {
            seq![' '] + collapse(s.drop_first(), ' ')
        } else {
            collapse(s.drop_first(), prev)
        }
    } else {
        seq![s[0]] + collapse(s.drop_first(), s[0])
    }
}

/// A line without white space at its ends, and with single spaces inside.
pub open spec fn normal_line(line: Seq<char>) -> Seq<char> {
    collapse(text::trim(line), ' ')
}

/// A text with each line in its normal form.
pub open spec fn normal(s: Seq<char>) -> Seq<char> {
    text::joined(text::lines(s).map_values(|line: Seq<char>| normal_line(line)), "\n"@)
}

/// The number of characters that are no white space.
pub open spec fn solid_count(s: Seq<char>) -> nat
    decreases s.len(),
{
    if s.len() == 0 {
        0
    } else {
        solid_count(s.drop_last()) + if text::is_white(s.last()) {
            0nat
        } else {
            1
        }
    }
}

/// Where the character stands that is no white space and has `n` such before
/// it.
pub open spec fn solid_at(s: Seq<char>, n: nat) -> Option<int>
    decreases s.len(),
{
    if s.len() == 0 {
        None
    } else if text::is_white(s[0]) {
        match solid_at(s.drop_first(), n) {
            Some(i) => Some(i + 1),
            None => None,
        }
    } else if n == 0 {
        Some(0)
    } else {
        match solid_at(s.drop_first(), (n - 1) as nat) {
            Some(i) => Some(i + 1),
            None => None,
        }
    }
}

/// How many characters that are no white space stand before `part` in the
/// normal form of `original`.
pub open spec fn solids_before(original: Seq<char>, part: Seq<char>) -> Option<nat> {
    match text::find(normal(original), part) {
        Some(p) => Some(solid_count(normal(original).take(p))),
        None => None,
    }
}

/// The place in `original`, in bytes, of `part`, a part of its normal form: the
/// first character with as much before it, white space apart. It is 0 where
/// there is none.
pub open spec fn orig_position(original: Seq<char>, part: Seq<char>) -> nat {
    match solids_before(original, part) {
        Some(n) => match solid_at(original, n) {
            Some(i) => text::byte_len(original.take(i)),
            None => 0,
        },
        None => 0,
    }
}

/// The part of `content` that `old` stands for: where it starts and how long
/// it is. An exact occurrence counts first; else one up to white space, from
/// its first to its last character that is none. Blank text stands for
/// nothing but itself.
pub open spec fn located(content: Seq<char>, old: Seq<char>) -> Option<(int, int)> {
    let wanted = normal(old);
    match text::find(content, old) {
        Some(p) => Some((p, old.len() as int)),
        None => match solids_before(content, wanted) {
            Some(n) => match (
                solid_at(content, n),
                solid_at(content, (n + solid_count(wanted) - 1) as nat),
            ) {
                (Some(first), Some(last)) => if solid_count(wanted) == 0 {
                    None
                } else {
                    Some((first, last + 1 - first))
                },
                _ => None,
            },
            None => None,
        },
    }
}

/// The characters of a text that are no white space.
pub open spec fn solids(s: Seq<char>) -> Seq<char>
    decreases s.len(),
{
    if s.len() == 0 {
        Seq::empty()
    } else if text::is_white(s.last()) {
        solids(s.drop_last())
    } else {
        solids(s.drop_last()).push(s.last())
    }
}

/// The characters of several texts that are no white space.
pub open spec fn solids_of_all(parts: Seq<Seq<char>>) -> Seq<char>
    decreases parts.len(),
{
    if parts.len() == 0 {
        Seq::empty()
    } else {
        solids_of_all(parts.drop_last()) + solids(parts.last())
    }
}

proof fn lemma_solid_count(s: Seq<char>)
    ensures
        solid_count(s) == solids(s).len(),
    decreases s.len(),
{
    if s.len() > 0 {
        lemma_solid_count(s.drop_last());
    }
}

proof fn lemma_solids_append(a: Seq<char>, b: Seq<char>)
    ensures
        solids(a + b) == solids(a) + solids(b),
    decreases b.len(),
{
    if b.len() == 0 {
        assert(a + b =~= a);
        assert(solids(a) + solids(b) =~= solids(a));
    } else {
        lemma_solids_append(a, b.drop_last());
        assert((a + b).drop_last() =~= a + b.drop_last());
        assert(solids(a + b) =~= solids(a) + solids(b));
    }
}

proof fn lemma_solids_one(c: char)
    ensures
        solids(seq![c]) == (if text::is_white(c) {
            Seq::empty()
        } else {
            seq![c]
        }),
{
    assert(seq![c].drop_last() =~= Seq::<char>::empty());
    assert(solids(Seq::<char>::empty()) =~= Seq::<char>::empty());
    assert(Seq::<char>::empty().push(c) =~= seq![c]);
}

proof fn lemma_solids_first(s: Seq<char>)
    requires
        s.len() > 0,
    ensures
        solids(s) == (if text::is_white(s[0]) {
            solids(s.drop_first())
        } else {
            seq![s[0]] + solids(s.drop_first())
        }),
{
    assert(s =~= seq![s[0]] + s.drop_first());
    lemma_solids_append(seq![s[0]], s.drop_first());
    lemma_solids_one(s[0]);
    assert(Seq::<char>::empty() + solids(s.drop_first()) =~= solids(s.drop_first()));
}

proof fn lemma_solids_collapse(s: Seq<char>, prev: char)
    ensures
        solids(collapse(s, prev)) == solids(s),
    decreases s.len(),
{
    if s.len() > 0 {
        let rest = s.drop_first();
        lemma_solids_first(s);
        if s[0] == ' ' || s[0] == '\t' {
            assert(text::is_white(s[0]));
            if prev != ' ' {
                lemma_solids_collapse(rest, ' ');
                let all = seq![' '] + collapse(rest, ' ');
                lemma_solids_append(seq![' '], collapse(rest, ' '));
                lemma_solids_one(' ');
                assert(solids(all) =~= solids(s));
            } else {
                lemma_solids_collapse(rest, prev);
            }
        } else {
            lemma_solids_collapse(rest, s[0]);
            lemma_solids_append(seq![s[0]], collapse(rest, s[0]));
            lemma_solids_one(s[0]);
            assert(solids(collapse(s, prev)) =~= solids(s));
        }
    }
}

proof fn lemma_solids_trim_start(s: Seq<char>)
    ensures
        solids(text::trim_start(s)) == solids(s),
    decreases s.len(),
{
    if s.len() > 0 && text::is_white(s[0]) {
        lemma_solids_first(s);
        lemma_solids_trim_start(s.drop_first());
    }
}

proof fn lemma_solids_trim_end(s: Seq<char>)
    ensures
        solids(text::trim_end(s)) == solids(s),
    decreases s.len(),
{
    if s.len() > 0 && text::is_white(s.last()) {
        lemma_solids_trim_end(s.drop_last());
    }
}

proof fn lemma_solids_normal_line(line: Seq<char>)
    ensures
        solids(normal_line(line)) == solids(line),
{
    lemma_solids_collapse(text::trim(line), ' ');
    lemma_solids_trim_end(text::trim_start(line));
    lemma_solids_trim_start(line);
}

proof fn lemma_solids_of_all_first(first: Seq<char>, rest: Seq<Seq<char>>)
    ensures
        solids_of_all(seq![first] + rest) == solids(first) + solids_of_all(rest),
    decreases rest.len(),
{
    let all = seq![first] + rest;
    if rest.len() == 0 {
        assert(all.drop_last() =~= Seq::<Seq<char>>::empty());
        assert(solids_of_all(Seq::<Seq<char>>::empty()) =~= Seq::<char>::empty());
        assert(all.last() == first);
        assert(solids_of_all(all) =~= solids(first) + solids_of_all(rest));
    } else {
        lemma_solids_of_all_first(first, rest.drop_last());
        assert(all.drop_last() =~= seq![first] + rest.drop_last());
        assert(solids_of_all(all) =~= solids(first) + solids_of_all(rest));
    }
}

proof fn lemma_solids_lines(head: Seq<char>, s: Seq<char>)
    ensures
        solids_of_all(text::lines_after(head, s)) == solids(head) + solids(s),
    decreases s.len(),
{
    let none = Seq::<Seq<char>>::empty();
    if s.len() == 0 {
        if head.len() > 0 {
            lemma_solids_of_all_first(head, none);
            assert(seq![head] + none =~= seq![head]);
        }
        assert(solids_of_all(text::lines_after(head, s)) =~= solids(head) + solids(s));
    } else {
        lemma_solids_first(s);
        let rest = s.drop_first();
        if s[0] == '\n' {
            lemma_solids_lines(Seq::empty(), rest);
            lemma_solids_of_all_first(text::chomp(head), text::lines_after(Seq::empty(), rest));
            assert(text::is_white('\n') && text::is_white('\r'));
            assert(solids(text::chomp(head)) == solids(head));
            assert(solids_of_all(text::lines_after(head, s)) =~= solids(head) + solids(s));
        } else {
            lemma_solids_lines(head.push(s[0]), rest);
            assert(head.push(s[0]).drop_last() =~= head);
            assert(solids_of_all(text::lines_after(head, s)) =~= solids(head) + solids(s));
        }
    }
}

proof fn lemma_solids_joined(parts: Seq<Seq<char>>)
    ensures
        solids(text::joined(parts, "\n"@)) == solids_of_all(parts),
    decreases parts.len(),
{
    reveal_strlit("\n");
    assert("\n"@ =~= seq!['\n']);
    if parts.len() == 1 {
        assert(parts.drop_last() =~= Seq::<Seq<char>>::empty());
        assert(solids_of_all(Seq::<Seq<char>>::empty()) =~= Seq::<char>::empty());
        assert(solids_of_all(parts) =~= solids(parts[0]));
    } else if parts.len() > 1 {
        let before = text::joined(parts.drop_last(), "\n"@);
        lemma_solids_joined(parts.drop_last());
        lemma_solids_append(before + "\n"@, parts.last());
        lemma_solids_append(before, "\n"@);
        lemma_solids_one('\n');
        assert(solids(text::joined(parts, "\n"@)) =~= solids_of_all(parts));
    }
}

proof fn lemma_solids_normal_lines(parts: Seq<Seq<char>>)
    ensures
        solids_of_all(parts.map_values(|line: Seq<char>| normal_line(line))) == solids_of_all(parts),
    decreases parts.len(),
{
    if parts.len() > 0 {
        let all = parts.map_values(|line: Seq<char>| normal_line(line));
        lemma_solids_normal_lines(parts.drop_last());
        lemma_solids_normal_line(parts.last());
        assert(all.drop_last() =~= parts.drop_last().map_values(
            |line: Seq<char>| normal_line(line),
        ));
    }
}

/// The normal form of a text differs from it in white space only.
pub proof fn normal_form_keeps_solids(s: Seq<char>)
    ensures
        solids(normal(s)) == solids(s),
{
    lemma_solids_joined(text::lines(s).map_values(|line: Seq<char>| normal_line(line)));
    lemma_solids_normal_lines(text::lines(s));
    lemma_solids_lines(Seq::empty(), s);
    assert(Seq::<char>::empty() + solids(s) =~= solids(s));
}

proof fn lemma_solid_at(s: Seq<char>, n: nat)
    requires
        n < solids(s).len(),
    ensures
        solid_at(s, n) matches Some(i) && 0 <= i < s.len() && !text::is_white(s[i]) && solids(
            s.take(i),
        ).len() == n,
    decreases s.len(),
{
    if s.len() > 0 {
        let rest = s.drop_first();
        lemma_solids_first(s);
        if !text::is_white(s[0]) && n == 0 {
            assert(s.take(0) =~= Seq::<char>::empty());
        } else {
            let m = if text::is_white(s[0]) {
                n
            } else {
                (n - 1) as nat
            };
            lemma_solid_at(rest, m);
            let i = solid_at(rest, m).unwrap();
            assert(s.take(i + 1).drop_first() =~= rest.take(i));
            lemma_solids_first(s.take(i + 1));
        }
    }
}

/// Between the character with `n` solid ones before it and the one with
/// `n + k - 1`, both included, stand the solid characters from `n` on, `k` of
/// them.
proof fn lemma_solid_range(s: Seq<char>, n: nat, k: nat)
    requires
        0 < k,
        n + k <= solids(s).len(),
    ensures
        solid_at(s, n) matches Some(i) && solid_at(s, (n + k - 1) as nat) matches Some(j) && 0 <= i
            <= j < s.len() && !text::is_white(s[i]) && !text::is_white(s[j]) && solids(
            s.subrange(i, j + 1),
        ) == solids(s).subrange(n as int, (n + k) as int),
{
    lemma_solid_at(s, n);
    lemma_solid_at(s, (n + k - 1) as nat);
    let i = solid_at(s, n).unwrap();
    let j = solid_at(s, (n + k - 1) as nat).unwrap();
    let through = s.take(j + 1);
    assert(through.drop_last() =~= s.take(j));
    assert(through.last() == s[j]);
    assert(solids(through).len() == n + k);
    if j < i {
        assert(s.take(i) =~= through + s.subrange(j + 1, i));
        lemma_solids_append(through, s.subrange(j + 1, i));
        assert(false);
    }
    let part = s.subrange(i, j + 1);
    assert(through =~= s.take(i) + part);
    lemma_solids_append(s.take(i), part);
    assert(s =~= through + s.skip(j + 1));
    lemma_solids_append(through, s.skip(j + 1));
    assert(solids(part) =~= solids(s).subrange(n as int, (n + k) as int));
}

/// The solid characters of a text that stands in another at `p` are those of
/// the other from as many on as stand before `p`.
proof fn lemma_solids_within(s: Seq<char>, t: Seq<char>, p: int)
    requires
        0 <= p,
        p + t.len() <= s.len(),
        s.subrange(p, p + t.len()) == t,
    ensures
        solids(s.take(p + t.len())).len() == solids(s.take(p)).len() + solids(t).len(),
        solids(s.take(p + t.len())).len() <= solids(s).len(),
        solids(t) == solids(s).subrange(
            solids(s.take(p)).len() as int,
            (solids(s.take(p)).len() + solids(t).len()) as int,
        ),
{
    let head = s.take(p);
    let upto = s.take(p + t.len());
    assert(upto =~= head + t);
    lemma_solids_append(head, t);
    assert(s =~= upto + s.skip(p + t.len()));
    lemma_solids_append(upto, s.skip(p + t.len()));
    assert(solids(t) =~= solids(s).subrange(
        solids(head).len() as int,
        (solids(head).len() + solids(t).len()) as int,
    ));
}

proof fn lemma_loose(content: Seq<char>, old: Seq<char>)
    requires
        solid_count(normal(old)) > 0,
    ensures
        solids_before(content, normal(old)) matches Some(n) ==> {
            &&& n + solid_count(normal(old)) <= content.len()
            &&& solid_at(content, n) matches Some(i)
            &&& solid_at(content, (n + solid_count(normal(old)) - 1) as nat) matches Some(j)
            &&& 0 <= i <= j < content.len()
            &&& !text::is_white(content[i])
            &&& !text::is_white(content[j])
            &&& solids(content.subrange(i, j + 1)) == solids(old)
        },
{
    let norm = normal(content);
    let wanted = normal(old);
    lemma_solid_count(wanted);
    if let Some(p) = text::find(norm, wanted) {
        text::lemma_find(norm, wanted);
        normal_form_keeps_solids(content);
        normal_form_keeps_solids(old);
        lemma_solid_count(norm.take(p));
        lemma_solids_within(norm, wanted, p);
        lemma_solid_range(content, solids(norm.take(p)).len(), solids(wanted).len());
        lemma_solids_fit(content);
    }
}

proof fn lemma_solids_fit(s: Seq<char>)
    ensures
        solids(s).len() <= s.len(),
    decreases s.len(),
{
    if s.len() > 0 {
        lemma_solids_fit(s.drop_last());
    }
}

/// The part of a file that a text stands for up to white space lies within the
/// file, starts and ends with a character that is no white space, and holds
/// the characters of that text, white space apart.
pub proof fn loose_matches_are_what_was_meant(content: Seq<char>, old: Seq<char>)
    requires
        text::find(content, old) is None,
    ensures
        located(content, old) matches Some((at, len)) ==> {
            &&& 0 <= at
            &&& 0 < len
            &&& at + len <= content.len()
            &&& !text::is_white(content[at])
            &&& !text::is_white(content[at + len - 1])
            &&& solids(content.subrange(at, at + len)) == solids(old)
        },
{
    if solid_count(normal(old)) > 0 {
        lemma_loose(content, old);
    }
}

/// An edit replaces what its text stands for, and leaves everything before and
/// behind it as it was.
pub proof fn edits_keep_the_rest(content: Seq<char>, old: Seq<char>, new: Seq<char>, at: int, len: int)
    requires
        located(content, old) == Some((at, len)),
    ensures
        0 <= at,
        0 <= len,
        at + len <= content.len(),
        spliced(content, at, len, new).take(at) == content.take(at),
        spliced(content, at, len, new).subrange(at, at + new.len()) == new,
        spliced(content, at, len, new).skip(at + new.len()) == content.skip(at + len),
        solids(content.subrange(at, at + len)) == solids(old),
{
    text::lemma_find(content, old);
    if text::find(content, old) is None {
        loose_matches_are_what_was_meant(content, old);
    }
    let edited = spliced(content, at, len, new);
    assert(edited.take(at) =~= content.take(at));
    assert(edited.subrange(at, at + new.len()) =~= new);
    assert(edited.skip(at + new.len()) =~= content.skip(at + len));
}

/// `content` with `new` in place of `len` characters at `at`.
pub open spec fn spliced(content: Seq<char>, at: int, len: int, new: Seq<char>) -> Seq<char> {
    content.take(at) + new + content.skip(at + len)
}

/// A line of the diff with a mark before it.
pub open spec fn marked(mark: Seq<char>, lines: Seq<Seq<char>>) -> Seq<char>
    decreases lines.len(),
{
    if lines.len() == 0 {
        Seq::empty()
    } else {
        marked(mark, lines.drop_last()) + mark + lines.last() + "\n"@
    }
}

/// A line of context, unless it is empty.
pub open spec fn context_line(line: Seq<char>) -> Seq<char> {
    if line.len() == 0 {
        Seq::empty()
    } else {
        "    "@ + line + "\n"@
    }
}

pub open spec fn first_line(s: Seq<char>) -> Seq<char> {
    if text::lines(s).len() == 0 {
        Seq::empty()
    } else {
        text::lines(s)[0]
    }
}

pub open spec fn last_line(s: Seq<char>) -> Seq<char> {
    if text::lines(s).len() == 0 {
        Seq::empty()
    } else {
        text::lines(s).last()
    }
}

/// What is shown of an edit: the lines that go and come, between the lines
/// around them.
pub open spec fn edit_diff(
    path: Seq<char>,
    content: Seq<char>,
    at: int,
    len: int,
    old: Seq<char>,
    new: Seq<char>,
) -> Seq<char> {
    "Edit "@ + path + "\n"@ + context_line(last_line(content.take(at))) + marked(
        "-"@,
        text::lines(old),
    ) + marked("+"@, text::lines(new)) + context_line(first_line(content.skip(at + len)))
}

fn collapsed(s: &str) -> (r: String)
    ensures
        r@ == collapse(s@, ' '),
{
    let v = text::chars_of(s);
    let mut r = String::new();
    let mut prev = ' ';
    let mut i: usize = 0;
    assert(v@.skip(0) =~= v@);
    assert(r@ + collapse(v@, ' ') =~= collapse(v@, ' '));
    while i < v.len()
        invariant
            i <= v@.len(),
            collapse(v@, ' ') == r@ + collapse(v@.skip(i as int), prev),
        decreases v@.len() - i,
    {
        let c = v[i];
        let ghost rest = v@.skip(i as int);
        let ghost before = r@;
        assert(rest.drop_first() =~= v@.skip(i + 1));
        if c == ' ' || c == '\t' {
            if prev != ' ' {
                r.push(' ');
                prev = ' ';
                assert(before + (seq![' '] + collapse(v@.skip(i + 1), ' ')) =~= r@ + collapse(
                    v@.skip(i + 1),
                    ' ',
                ));
            }
        } else {
            r.push(c);
            prev = c;
            assert(before + (seq![c] + collapse(v@.skip(i + 1), c)) =~= r@ + collapse(
                v@.skip(i + 1),
                c,
            ));
        }
        i = i + 1;
    }
    assert(r@ + Seq::<char>::empty() =~= r@);
    r
}

/// Each line without white space at its ends, and with single spaces inside.
pub fn normalize_whitespace(s: &str) -> (r: String)
    ensures
        r@ == normal(s@),
{
    let lines = text::lines_of(s);
    let mut out: Vec<String> = Vec::new();
    let mut i: usize = 0;
    while i < lines.len()
        invariant
            i <= lines@.len(),
            out@.len() == i,
            forall|j: int| 0 <= j < i ==> (#[trigger] out@[j])@ == normal_line(lines@[j]@),
        decreases lines@.len() - i,
    {
        let line = text::trimmed(lines[i].as_str());
        out.push(collapsed(line.as_str()));
        i = i + 1;
    }
    assert(out.deep_view() =~= text::lines(s@).map_values(|line: Seq<char>| normal_line(line)));
    text::join(&out, "\n")
}

fn count_solid(v: &Vec<char>, n: usize) -> (r: usize)
    requires
        n <= v@.len(),
    ensures
        r == solid_count(v@.take(n as int)),
        r <= n,
{
    let mut r: usize = 0;
    let mut i: usize = 0;
    while i < n
        invariant
            i <= n <= v@.len(),
            r == solid_count(v@.take(i as int)),
            r <= i,
        decreases n - i,
    {
        assert(v@.take(i + 1).drop_last() =~= v@.take(i as int));
        if !v[i].is_whitespace() {
            r = r + 1;
        }
        i = i + 1;
    }
    r
}

fn find_solid(v: &Vec<char>, n: usize) -> (r: Option<usize>)
    ensures
        match r {
            Some(i) => i < v@.len() && solid_at(v@, n as nat) == Some(i as int),
            None => solid_at(v@, n as nat) is None,
        },
{
    let mut left: usize = n;
    let mut i: usize = 0;
    assert(v@.skip(0) =~= v@);
    while i < v.len()
        invariant
            i <= v@.len(),
            solid_at(v@, n as nat) == (match solid_at(v@.skip(i as int), left as nat) {
                Some(k) => Some(k + i),
                None => None,
            }),
        decreases v@.len() - i,
    {
        assert(v@.skip(i as int).drop_first() =~= v@.skip(i + 1));
        if !v[i].is_whitespace() {
            if left == 0 {
                return Some(i);
            }
            left = left - 1;
        }
        i = i + 1;
    }
    None
}

fn count_before(original: &str, part: &Vec<char>) -> (r: Option<usize>)
    ensures
        match r {
            Some(n) => solids_before(original@, part@) == Some(n as nat),
            None => solids_before(original@, part@) is None,
        },
{
    let norm = text::chars_of(normalize_whitespace(original).as_str());
    assert(norm@.skip(0) =~= norm@);
    match text::find_from(&norm, 0, part) {
        Some(p) => Some(count_solid(&norm, p)),
        None => None,
    }
}

/// The place in the original text, in bytes, of a part of its normal form; 0
/// where there is none.
pub fn find_orig_position(original: &str, normalized_before: &str) -> (r: usize)
    ensures
        r == orig_position(original@, normalized_before@),
{
    let part = text::chars_of(normalized_before);
    let v = text::chars_of(original);
    match count_before(original, &part) {
        Some(n) => match find_solid(&v, n) {
            Some(i) => {
                let before = text::string_of(&v, 0, i);
                assert(before@ =~= original@.take(i as int));
                text::len_bytes(before.as_str())
            },
            None => 0,
        },
        None => 0,
    }
}

fn locate(content: &str, old: &str) -> (r: Option<(usize, usize)>)
    ensures
        match r {
            Some((at, len)) => located(content@, old@) == Some((at as int, len as int)) && at + len
                <= content@.len(),
            None => located(content@, old@) is None,
        },
{
    let v = text::chars_of(content);
    let o = text::chars_of(old);
    assert(v@.skip(0) =~= v@);
    if let Some(p) = text::find_from(&v, 0, &o) {
        return Some((p, o.len()));
    }
    let wanted = text::chars_of(normalize_whitespace(old).as_str());
    assert(wanted@.take(wanted@.len() as int) =~= wanted@);
    let k: usize = count_solid(&wanted, wanted.len());
    if k == 0 {
        return None;
    }
    match count_before(content, &wanted) {
        Some(n) => {
            proof {
                lemma_loose(content@, old@);
            }
            assert(n + k <= v.len());
            match (find_solid(&v, n), find_solid(&v, n + (k - 1))) {
                (Some(first), Some(last)) => {
                    assert(last < v.len());
                    Some((first, last + 1 - first))
                },
                _ => None,
            }
        },
        None => None,
    }
}

fn push_marked(s: &mut String, mark: &str, lines: &Vec<String>)
    ensures
        final(s)@ == old(s)@ + marked(mark@, lines.deep_view()),
{
    let ghost head = s@;
    let ghost all = lines.deep_view();
    let mut i: usize = 0;
    assert(head + Seq::<char>::empty() =~= head);
    while i < lines.len()
        invariant
            i <= lines@.len(),
            all == lines.deep_view(),
            s@ == head + marked(mark@, all.take(i as int)),
        decreases lines@.len() - i,
    {
        assert(all.take(i + 1).drop_last() =~= all.take(i as int));
        let ghost before = s@;
        s.append(mark);
        s.append(lines[i].as_str());
        s.append("\n");
        assert(s@ =~= before + mark@ + all[i as int] + "\n"@);
        assert(s@ =~= head + (marked(mark@, all.take(i as int)) + mark@ + all[i as int] + "\n"@));
        i = i + 1;
    }
    assert(all.take(i as int) =~= all);
}

fn push_context(s: &mut String, line: &str)
    ensures
        final(s)@ == old(s)@ + context_line(line@),
{
    let ghost head = s@;
    if !line.is_empty() {
        s.append("    ");
        s.append(line);
        s.append("\n");
    }
    assert(s@ =~= head + context_line(line@));
}

fn first_of_lines(s: &str) -> (r: String)
    ensures
        r@ == first_line(s@),
{
    let lines = text::lines_of(s);
    assert(lines.deep_view().len() == lines@.len());
    if lines.len() == 0 {
        String::new()
    } else {
        assert(lines.deep_view()[0] == lines@[0]@);
        lines[0].clone()
    }
}

fn last_of_lines(s: &str) -> (r: String)
    ensures
        r@ == last_line(s@),
{
    let lines = text::lines_of(s);
    assert(lines.deep_view().len() == lines@.len());
    if lines.len() == 0 {
        String::new()
    } else {
        let n: usize = lines.len() - 1;
        assert(lines.deep_view()[n as int] == lines@[n as int]@);
        lines[n].clone()
    }
}

/// The first lines of a text, at most `n`.
pub open spec fn first_lines(s: Seq<char>, n: nat) -> Seq<Seq<char>> {
    if text::lines(s).len() <= n {
        text::lines(s)
    } else {
        text::lines(s).take(n as int)
    }
}

fn preview(s: &str) -> (r: String)
    ensures
        r@ == text::joined(first_lines(s@, 5), "\n"@),
{
    let mut lines = text::lines_of(s);
    let ghost all = lines.deep_view();
    assert(all.len() == lines@.len());
    if lines.len() > 5 {
        lines.truncate(5);
        assert(lines.deep_view() =~= all.take(5));
    }
    text::join(&lines, "\n")
}

impl EditTool {
    /// The file to edit, what to look for, and what to put in its place.
    pub fn plan(input: &Json) -> (r: ToolResult<EditPlan>)
        ensures
            ({
                let path = str_or(input@, "path"@, ""@);
                let old = str_or(input@, "old"@, ""@);
                match r {
                    Ok(p) => p.path@ == path && path.len() > 0 && p.old@ == old && old.len() > 0
                        && p.new@ == str_or(input@, "new"@, ""@),
                    Err(e) => if path.len() == 0 {
                        e.deep_view() == tool::ToolErrorView::InvalidInput("path is required"@)
                    } else {
                        old.len() == 0 && e.deep_view() == tool::ToolErrorView::InvalidInput(
                            "old string is required"@,
                        )
                    },
                }
            }),
    {
        let path = read_str_or(input, "path", "");
        let old = read_str_or(input, "old", "");
        let new = read_str_or(input, "new", "");
        if path.as_str().is_empty() {
            return invalid("path is required");
        }
        if old.as_str().is_empty() {
            return invalid("old string is required");
        }
        Ok(EditPlan { path, old, new })
    }

    /// What the edit makes of a file with this content.
    pub fn apply(plan: &EditPlan, content: &str) -> (r: ToolResult<Edit>)
        ensures
            match located(content@, plan.old@) {
                Some((at, len)) => 0 <= at && 0 <= len && at + len <= content@.len() && solids(
                    content@.subrange(at, at + len),
                ) == solids(plan.old@) && (r matches Ok(edit) && edit.content@ == spliced(
                    content@,
                    at,
                    len,
                    plan.new@,
                ) && edit.diff@ == edit_diff(
                    plan.path@,
                    content@,
                    at,
                    len,
                    plan.old@,
                    plan.new@,
                )),
                None => r matches Err(e) && e.deep_view() == tool::ToolErrorView::Execution(
                    "Could not find text in "@ + plan.path@ + ". First 5 lines:\n"@ + text::joined(
                        first_lines(content@, 5),
                        "\n"@,
                    ),
                ),
            },
    {
        let (at, len) = match locate(content, plan.old.as_str()) {
            Some(found) => found,
            None => {
                return Err(
                    ToolError::Execution(
                        text::cat4(
                            "Could not find text in ",
                            plan.path.as_str(),
                            ". First 5 lines:\n",
                            preview(content).as_str(),
                        ),
                    ),
                );
            },
        };
        proof {
            edits_keep_the_rest(content@, plan.old@, plan.new@, at as int, len as int);
        }
        let v = text::chars_of(content);
        let before = text::string_of(&v, 0, at);
        assert(at + len <= v.len());
        let after = text::string_of(&v, at + len, v.len());
        assert(before@ =~= content@.take(at as int));
        assert(after@ =~= content@.skip(at + len));
        let changed = text::cat3(before.as_str(), plan.new.as_str(), after.as_str());
        let mut diff = text::cat3("Edit ", plan.path.as_str(), "\n");
        push_context(&mut diff, last_of_lines(before.as_str()).as_str());
        push_marked(&mut diff, "-", &text::lines_of(plan.old.as_str()));
        push_marked(&mut diff, "+", &text::lines_of(plan.new.as_str()));
        push_context(&mut diff, first_of_lines(after.as_str()).as_str());
        Ok(Edit { content: changed, diff })
    }

    /// The answer where the file cannot be read.
    pub fn unreadable(error: &str) -> (r: ToolResult<ToolOutput>)
        ensures
            outcome(r) == failure("Read error: "@ + error@),
    {
        failed("Read error: ", error)
    }

    /// The answer to what writing the file back gave.
    pub fn finish(diff: String, written: Result<(), String>) -> (r: ToolResult<ToolOutput>)
        ensures
            outcome(r) == (match written {
                Ok(_) => answer(diff@),
                Err(e) => failure("Write error: "@ + e@),
            }),
    {
        match written {
            Ok(_) => Ok(text_output(diff)),
            Err(e) => failed("Write error: ", e.as_str()),
        }
    }
}

/// An edit whose text stands in the file replaces its first occurrence and
/// leaves everything else as it was.
pub proof fn exact_edits_replace_the_first(content: Seq<char>, old: Seq<char>, new: Seq<char>, at: int)
    requires
        text::find(content, old) == Some(at),
    ensures
        located(content, old) == Some((at, old.len() as int)),
        spliced(content, at, old.len() as int, new).take(at) == content.take(at),
        spliced(content, at, old.len() as int, new).subrange(at, at + new.len()) == new,
        spliced(content, at, old.len() as int, new).skip(at + new.len()) == content.skip(
            at + old.len(),
        ),
{
    text::lemma_find(content, old);
    let edited = spliced(content, at, old.len() as int, new);
    assert(edited.take(at) =~= content.take(at));
    assert(edited.subrange(at, at + new.len()) =~= new);
    assert(edited.skip(at + new.len()) =~= content.skip(at + old.len()));
}

/// An edit is taken back by the opposite edit, where the new text is found
/// first at the place of the edit.
pub proof fn edits_can_be_reversed(content: Seq<char>, old: Seq<char>, new: Seq<char>, at: int)
    requires
        text::find(content, old) == Some(at),
        text::find(spliced(content, at, old.len() as int, new), new) == Some(at),
    ensures
        spliced(spliced(content, at, old.len() as int, new), at, new.len() as int, old) == content,
{
    text::lemma_find(content, old);
    let edited = spliced(content, at, old.len() as int, new);
    assert(spliced(edited, at, new.len() as int, old) =~= content.take(at) + content.subrange(
        at,
        at + old.len(),
    ) + content.skip(at + old.len()));
    assert(content =~= content.take(at) + content.subrange(at, at + old.len()) + content.skip(
        at + old.len(),
    ));
}

proof fn lemma_collapse(s: Seq<char>, prev: char)
    ensures
        forall|i: int| 0 <= i < collapse(s, prev).len() ==> #[trigger] collapse(s, prev)[i] != '\t',
        forall|i: int|
            0 < i < collapse(s, prev).len() && collapse(s, prev)[i - 1] == ' ' ==> #[trigger] collapse(
                s,
                prev,
            )[i] != ' ',
        prev == ' ' && collapse(s, prev).len() > 0 ==> collapse(s, prev)[0] != ' ',
    decreases s.len(),
{
    if s.len() > 0 {
        let rest = s.drop_first();
        let all = collapse(s, prev);
        if s[0] == ' ' || s[0] == '\t' {
            if prev != ' ' {
                let tail = collapse(rest, ' ');
                lemma_collapse(rest, ' ');
                assert(all[0] == ' ');
                assert forall|i: int| 0 < i < all.len() implies #[trigger] all[i] == tail[i - 1] by {}
            } else {
                lemma_collapse(rest, prev);
            }
        } else {
            let tail = collapse(rest, s[0]);
            lemma_collapse(rest, s[0]);
            assert(all[0] == s[0]);
            assert forall|i: int| 0 < i < all.len() implies #[trigger] all[i] == tail[i - 1] by {}
        }
    }
}

/// A line in its normal form holds no tab, does not start with a space, and
/// has single spaces only.
pub proof fn normal_lines_are_single_spaced(line: Seq<char>)
    ensures
        forall|i: int| 0 <= i < normal_line(line).len() ==> #[trigger] normal_line(line)[i] != '\t',
        normal_line(line).len() > 0 ==> normal_line(line)[0] != ' ',
        forall|i: int|
            0 < i < normal_line(line).len() && normal_line(line)[i - 1] == ' '
                ==> #[trigger] normal_line(line)[i] != ' ',
{
    lemma_collapse(text::trim(line), ' ');
}

// ── Glob ──

/// The pattern of a search in the directory `base`.
pub open spec fn based(base: Seq<char>, pattern: Seq<char>) -> Seq<char> {
    if base == "."@ {
        pattern
    } else {
        text::strip_end(base, '/') + "/"@ + pattern
    }
}

impl GlobTool {
    /// The pattern to look for.
    pub fn plan(input: &Json) -> (r: ToolResult<String>)
        ensures
            ({
                let pattern = str_or(input@, "pattern"@, ""@);
                match r {
                    Ok(p) => pattern.len() > 0 && p@ == based(
                        str_or(input@, "base"@, "."@),
                        pattern,
                    ),
                    Err(e) => pattern.len() == 0 && e.deep_view()
                        == tool::ToolErrorView::InvalidInput("pattern is required"@),
                }
            }),
    {
        let pattern = read_str_or(input, "pattern", "");
        let base = read_str_or(input, "base", ".");
        if pattern.as_str().is_empty() {
            return invalid("pattern is required");
        }
        if text::same(base.as_str(), ".") {
            Ok(pattern)
        } else {
            let dir = text::stripped_end(base.as_str(), '/');
            Ok(text::cat3(dir.as_str(), "/", pattern.as_str()))
        }
    }

    /// The answer to what was found.
    pub fn finish(found: Result<Vec<String>, String>) -> (r: ToolResult<ToolOutput>)
        ensures
            outcome(r) == (match found {
                Ok(paths) => answer(
                    if paths@.len() == 0 {
                        "No files found matching pattern"@
                    } else {
                        text::joined(paths.deep_view(), "\n"@)
                    },
                ),
                Err(e) => failure("Glob error: "@ + e@),
            }),
    {
        match found {
            Ok(paths) => {
                if paths.len() == 0 {
                    Ok(text_output("No files found matching pattern".to_owned()))
                } else {
                    Ok(text_output(text::join(&paths, "\n")))
                }
            },
            Err(e) => failed("Glob error: ", e.as_str()),
        }
    }
}

// ── Grep ──

/// The lines that a search gives at most.
pub const MAX_RESULTS: usize = 200;

/// What a search looks for: a regular expression in the files under `path`
/// whose names match `names`.
pub struct GrepQuery {
    pub pattern: String,
    pub names: Option<String>,
    pub path: String,
}

/// What a search has found.
pub struct GrepScan {
    pub results: Vec<String>,
    pub total_files: u64,
}

/// Whether a search goes into a directory or looks at a file. What is hidden
/// is left out, but not the directory that was asked for.
pub fn visits(name: &str, is_root: bool) -> (r: bool)
    ensures
        r == (is_root || !("."@.is_prefix_of(name@) || "node_modules"@.is_prefix_of(name@))),
{
    is_root || !(text::has_prefix(name, ".") || text::has_prefix(name, "node_modules"))
}

/// Whether a file of this name is searched. A pattern that is none excludes
/// nothing.
pub open spec fn included(names: Option<Seq<char>>, name: Seq<char>) -> bool {
    match names {
        None => true,
        Some(p) => pattern::glob_match(p, name) != Some(false),
    }
}

/// A line that matches, with its place.
pub open spec fn hit(path: Seq<char>, line_no: nat, line: Seq<char>) -> Seq<char> {
    path + ":"@ + number::decimal(line_no) + ":"@ + text::trim(line)
}

/// The lines of a file that match.
pub open spec fn hits(pattern: Seq<char>, path: Seq<char>, lines: Seq<Seq<char>>) -> Seq<Seq<char>>
    decreases lines.len(),
{
    if lines.len() == 0 {
        Seq::empty()
    } else {
        let before = hits(pattern, path, lines.drop_last());
        if pattern::regex_match(pattern, lines.last()) == Some(true) {
            before.push(hit(path, lines.len(), lines.last()))
        } else {
            before
        }
    }
}

/// The first of `s`, as many as a search gives.
pub open spec fn at_most(s: Seq<Seq<char>>) -> Seq<Seq<char>> {
    if s.len() <= MAX_RESULTS {
        s
    } else {
        s.take(MAX_RESULTS as int)
    }
}

proof fn lemma_hits_grow(pattern: Seq<char>, path: Seq<char>, lines: Seq<Seq<char>>, n: int)
    requires
        0 <= n <= lines.len(),
    ensures
        hits(pattern, path, lines.take(n)).is_prefix_of(hits(pattern, path, lines)),
    decreases lines.len() - n,
{
    let a = hits(pattern, path, lines.take(n));
    if n == lines.len() {
        assert(lines.take(n) =~= lines);
        assert(a.subrange(0, a.len() as int) =~= a);
    } else {
        lemma_hits_grow(pattern, path, lines, n + 1);
        assert(lines.take(n + 1).drop_last() =~= lines.take(n));
        let b = hits(pattern, path, lines.take(n + 1));
        let c = hits(pattern, path, lines);
        assert(b =~= c.subrange(0, b.len() as int));
        assert(a =~= c.subrange(0, a.len() as int));
    }
}

impl GrepTool {
    /// What to search for.
    pub fn plan(input: &Json) -> (r: ToolResult<GrepQuery>)
        ensures
            ({
                let pattern = str_or(input@, "pattern"@, ""@);
                match r {
                    Ok(q) => q.pattern@ == pattern && pattern.len() > 0 && pattern::regex_error(
                        pattern,
                    ) is None && q.names.deep_view() == json::json_str_member(input@, "include"@)
                        && q.path@ == str_or(input@, "path"@, "."@),
                    Err(e) => if pattern.len() == 0 {
                        e.deep_view() == tool::ToolErrorView::InvalidInput("pattern is required"@)
                    } else {
                        pattern::regex_error(pattern) matches Some(why) && e.deep_view()
                            == tool::ToolErrorView::InvalidInput("Invalid regex: "@ + why)
                    },
                }
            }),
    {
        let pattern = read_str_or(input, "pattern", "");
        let names = input.str_member("include");
        let path = read_str_or(input, "path", ".");
        if pattern.as_str().is_empty() {
            return invalid("pattern is required");
        }
        if let Some(why) = pattern::regex_refusal(pattern.as_str()) {
            return Err(ToolError::InvalidInput(text::cat2("Invalid regex: ", why.as_str())));
        }
        Ok(GrepQuery { pattern, names, path })
    }
}

impl GrepQuery {
    /// Whether a file of this name is searched.
    pub fn includes(&self, name: &str) -> (r: bool)
        ensures
            r == included(self.names.deep_view(), name@),
    {
        match &self.names {
            None => true,
            Some(p) => match pattern::glob_is_match(p.as_str(), name) {
                Some(m) => m,
                None => true,
            },
        }
    }
}

impl GrepScan {
    /// Whether no more lines are kept than a search gives.
    pub open spec fn wf(&self) -> bool {
        self.results@.len() <= MAX_RESULTS
    }

    pub fn new() -> (r: Self)
        ensures
            r.wf(),
            r.results.deep_view() == Seq::<Seq<char>>::empty(),
            r.total_files == 0,
    {
        let r = GrepScan { results: Vec::new(), total_files: 0 };
        assert(r.results.deep_view() =~= Seq::<Seq<char>>::empty());
        r
    }

    /// Counts a file that is searched, and says whether it is still to be
    /// read.
    pub fn count_file(&mut self) -> (r: bool)
        ensures
            final(self).results == old(self).results,
            final(self).total_files == types::capped((old(self).total_files + 1) as nat),
            r == (old(self).results@.len() < MAX_RESULTS),
    {
        self.total_files = self.total_files.saturating_add(1);
        self.results.len() < MAX_RESULTS
    }

    /// Adds the lines of a file that match, as many as there is room for.
    pub fn scan(&mut self, pattern: &str, path: &str, content: &str)
        requires
            old(self).wf(),
        ensures
            final(self).wf(),
            final(self).total_files == old(self).total_files,
            final(self).results.deep_view() == at_most(
                old(self).results.deep_view() + hits(pattern@, path@, text::lines(content@)),
            ),
    {
        let lines = text::lines_of(content);
        let ghost all = lines.deep_view();
        let ghost before = self.results.deep_view();
        let ghost every = hits(pattern@, path@, all);
        let mut i: usize = 0;
        assert(before + Seq::<Seq<char>>::empty() =~= before);
        while i < lines.len() && self.results.len() < MAX_RESULTS
            invariant
                i <= lines@.len(),
                all == lines.deep_view(),
                self.wf(),
                self.total_files == old(self).total_files,
                self.results.deep_view() == before + hits(pattern@, path@, all.take(i as int)),
            decreases lines@.len() - i,
        {
            let ghost so_far = hits(pattern@, path@, all.take(i as int));
            let ghost held = self.results.deep_view();
            assert(all.take(i + 1).drop_last() =~= all.take(i as int));
            let line = lines[i].as_str();
            let matched = match pattern::regex_is_match(pattern, line) {
                Some(m) => m,
                None => false,
            };
            if matched {
                let shown = text::cat5(
                    path,
                    ":",
                    number::usize_text(i + 1).as_str(),
                    ":",
                    text::trimmed(line).as_str(),
                );
                let ghost sv = shown@;
                self.results.push(shown);
                assert(self.results.deep_view() =~= held.push(sv));
                assert(held.push(sv) =~= before + so_far.push(sv));
            }
            i = i + 1;
        }
        proof {
            lemma_hits_grow(pattern@, path@, all, i as int);
            let part = hits(pattern@, path@, all.take(i as int));
            assert(part =~= every.subrange(0, part.len() as int));
            if i == lines@.len() {
                assert(all.take(i as int) =~= all);
            } else {
                assert(self.results.deep_view().len() == MAX_RESULTS);
                assert(self.results.deep_view() =~= (before + every).take(MAX_RESULTS as int));
                if (before + every).len() <= MAX_RESULTS {
                    assert(self.results.deep_view() =~= before + every);
                }
            }
        }
    }

    /// The answer of a search that is complete.
    pub fn finish(&self, path: &str) -> (r: ToolResult<ToolOutput>)
        ensures
            outcome(r) == answer(
                "Searched "@ + number::decimal(self.total_files as nat) + " files in "@ + path@
                    + "\n"@ + (if self.results@.len() == 0 {
                    "No matches found."@
                } else {
                    number::decimal(self.results@.len()) + " matches:\n"@ + text::joined(
                        self.results.deep_view(),
                        "\n"@,
                    )
                }),
            ),
    {
        let head = text::cat5(
            "Searched ",
            number::u64_text(self.total_files).as_str(),
            " files in ",
            path,
            "\n",
        );
        let tail = if self.results.len() == 0 {
            "No matches found.".to_owned()
        } else {
            text::cat3(
                number::usize_text(self.results.len()).as_str(),
                " matches:\n",
                text::join(&self.results, "\n").as_str(),
            )
        };
        Ok(text_output(text::cat2(head.as_str(), tail.as_str())))
    }
}

// ── Bash ──

/// What a finished command printed, and how it ended.
pub struct CommandOutput {
    pub stdout: Vec<u8>,
    pub stderr: Vec<u8>,
    pub success: bool,
    pub code: Option<i32>,
}

/// The text of bytes; no bytes give no text.
pub open spec fn lossy(bytes: Seq<u8>) -> Seq<char> {
    if bytes.len() == 0 {
        Seq::empty()
    } else {
        text::utf8_lossy(bytes)
    }
}

/// What a command printed: its output, and behind it its errors under a
/// heading.
pub open spec fn printed(stdout: Seq<u8>, stderr: Seq<u8>) -> Seq<char> {
    let out = lossy(stdout);
    if stderr.len() == 0 {
        out
    } else {
        out + (if out.len() == 0 {
            Seq::empty()
        } else {
            "\n"@
        }) + "STDERR:\n"@ + text::utf8_lossy(stderr)
    }
}

/// The answer to a finished command.
pub open spec fn command_answer(c: CommandOutput) -> Seq<char> {
    let shown = printed(c.stdout@, c.stderr@);
    if c.success {
        if shown.len() == 0 {
            "Command completed successfully (exit code 0)"@
        } else {
            shown
        }
    } else {
        "Command exited with code "@ + number::signed_decimal(
            match c.code {
                Some(code) => code as int,
                None => -1,
            },
        ) + ":\n"@ + shown
    }
}

/// How running a command ended.
pub enum CommandEnd {
    TimedOut,
    NotStarted { error: String },
    Finished { output: CommandOutput },
}

impl BashTool {
    /// The command to run, and the milliseconds that it may take.
    pub fn plan(input: &Json) -> (r: ToolResult<(String, u64)>)
        ensures
            ({
                let command = str_or(input@, "command"@, ""@);
                match r {
                    Ok((c, timeout)) => c@ == command && command.len() > 0 && timeout == (
                    match json::json_u64_member(input@, "timeout"@) {
                        Some(t) => t,
                        None => 30000,
                    }),
                    Err(e) => command.len() == 0 && e.deep_view()
                        == tool::ToolErrorView::InvalidInput("command is required"@),
                }
            }),
    {
        let command = read_str_or(input, "command", "");
        let timeout: u64 = match input.u64_member("timeout") {
            Some(t) => t,
            None => 30000,
        };
        if command.as_str().is_empty() {
            return invalid("command is required");
        }
        Ok((command, timeout))
    }

    /// The answer to a command.
    pub fn finish(end: &CommandEnd) -> (r: ToolResult<ToolOutput>)
        ensures
            outcome(r) == (match *end {
                CommandEnd::TimedOut => failure("Command timed out"@),
                CommandEnd::NotStarted { error } => failure(
                    "Failed to execute command: "@ + error@,
                ),
                CommandEnd::Finished { output } => answer(command_answer(output)),
            }),
    {
        let c = match end {
            CommandEnd::TimedOut => {
                return Err(ToolError::Execution("Command timed out".to_owned()));
            },
            CommandEnd::NotStarted { error } => {
                return failed("Failed to execute command: ", error.as_str());
            },
            CommandEnd::Finished { output } => output,
        };
        let mut shown = String::new();
        if c.stdout.len() > 0 {
            shown = text::from_bytes(&c.stdout);
        }
        assert(shown@ == lossy(c.stdout@));
        if c.stderr.len() > 0 {
            let errors = text::from_bytes(&c.stderr);
            let gap = if shown.as_str().is_empty() {
                ""
            } else {
                "\n"
            };
            proof {
                reveal_strlit("");
                assert(""@ =~= Seq::<char>::empty());
            }
            shown = text::cat4(shown.as_str(), gap, "STDERR:\n", errors.as_str());
        }
        assert(shown@ == printed(c.stdout@, c.stderr@));
        if c.success {
            if shown.as_str().is_empty() {
                shown = "Command completed successfully (exit code 0)".to_owned();
            }
        } else {
            let code: i32 = match c.code {
                Some(code) => code,
                None => -1,
            };
            shown = text::cat4(
                "Command exited with code ",
                number::i64_text(code as i64).as_str(),
                ":\n",
                shown.as_str(),
            );
        }
        Ok(text_output(shown))
    }
}

// ── Web ──

/// The bytes of a page that are shown.
pub const MAX_PAGE: usize = 102_400;

/// A page over the limit is cut to what fits, and the cut is marked.
pub open spec fn page(body: Seq<char>) -> Seq<char> {
    if text::byte_len(body) > MAX_PAGE {
        text::fit(body, MAX_PAGE as nat) + "...\n[Response truncated at "@ + number::decimal(
            MAX_PAGE as nat,
        ) + " bytes]"@
    } else {
        body
    }
}

impl WebFetchTool {
    /// The address to fetch.
    pub fn plan(input: &Json) -> (r: ToolResult<String>)
        ensures
            match r {
                Ok(url) => url@ == str_or(input@, "url"@, ""@) && url@.len() > 0,
                Err(e) => str_or(input@, "url"@, ""@).len() == 0 && e.deep_view()
                    == tool::ToolErrorView::InvalidInput("url is required"@),
            },
    {
        let url = read_str_or(input, "url", "");
        if url.as_str().is_empty() {
            return invalid("url is required");
        }
        Ok(url)
    }

    /// The answer to a page that was fetched.
    pub fn finish(status: u16, body: &str) -> (r: ToolResult<ToolOutput>)
        ensures
            outcome(r) == answer("HTTP "@ + number::decimal(status as nat) + ":\n"@ + page(body@)),
    {
        let shown = if text::len_bytes(body) > MAX_PAGE {
            text::cat4(
                text::fitting(body, MAX_PAGE).as_str(),
                "...\n[Response truncated at ",
                number::usize_text(MAX_PAGE).as_str(),
                " bytes]",
            )
        } else {
            body.to_owned()
        };
        Ok(
            text_output(
                text::cat4("HTTP ", number::u64_text(status as u64).as_str(), ":\n", shown.as_str()),
            ),
        )
    }
}

/// The number of results that an input asks for: five unless it says so, and
/// at most twenty.
pub open spec fn wanted(input: Seq<char>) -> u64 {
    match json::json_u64_member(input, "count"@) {
        Some(n) => if n < 20 {
            n
        } else {
            20
        },
        None => 5,
    }
}

fn read_count(input: &Json) -> (r: u64)
    ensures
        r == wanted(input@),
        r <= 20,
{
    match input.u64_member("count") {
        Some(n) => if n < 20 {
            n
        } else {
            20
        },
        None => 5,
    }
}

/// The string under `key` in a search result; none is empty.
pub open spec fn entry_str(v: Seq<char>, key: Seq<char>) -> Seq<char> {
    match json::json_str(json::json_index(v, key)) {
        Some(s) => s,
        None => Seq::empty(),
    }
}

fn read_entry_str(v: &Json, key: &str) -> (r: String)
    ensures
        r@ == entry_str(v@, key@),
{
    match v.index(key).as_str() {
        Some(s) => s,
        None => String::new(),
    }
}

/// The line of a search result; one without title and link has none.
pub open spec fn entry_line(v: Seq<char>) -> Option<Seq<char>> {
    let title = entry_str(v, "title"@);
    let link = entry_str(v, "link"@);
    if title.len() == 0 && link.len() == 0 {
        None
    } else {
        Some("- ["@ + title + "]("@ + link + ") "@ + entry_str(v, "snippet"@))
    }
}

/// The lines of search results.
pub open spec fn entry_lines(items: Seq<Seq<char>>) -> Seq<Seq<char>>
    decreases items.len(),
{
    if items.len() == 0 {
        Seq::empty()
    } else {
        let before = entry_lines(items.drop_last());
        match entry_line(items.last()) {
            Some(line) => before.push(line),
            None => before,
        }
    }
}

/// The results in the reply of the search service, at most `count` of them.
pub open spec fn search_results(body: Seq<char>, count: nat) -> Seq<char> {
    match json::json_items(json::json_index(body, "organic_results"@)) {
        None => "No results found."@,
        Some(items) => text::joined(
            entry_lines(
                if items.len() <= count {
                    items
                } else {
                    items.take(count as int)
                },
            ),
            "\n"@,
        ),
    }
}

impl WebSearchTool {
    /// What to search for, and how many results to give.
    pub fn plan(input: &Json) -> (r: ToolResult<(String, u64)>)
        ensures
            match r {
                Ok((query, count)) => query@ == str_or(input@, "query"@, ""@) && query@.len() > 0
                    && count == wanted(input@),
                Err(e) => str_or(input@, "query"@, ""@).len() == 0 && e.deep_view()
                    == tool::ToolErrorView::InvalidInput("query is required"@),
            },
    {
        let query = read_str_or(input, "query", "");
        let count: u64 = read_count(input);
        if query.as_str().is_empty() {
            return invalid("query is required");
        }
        Ok((query, count))
    }

    /// The answer where no key for a search service is configured.
    pub fn no_key() -> (r: ToolResult<ToolOutput>)
        ensures
            outcome(r) == failure(
                "SEARCH_API_KEY not set. Configure a search API (e.g. SerpAPI, Bing, Google Custom Search)"@,
            ),
    {
        Err(
            ToolError::Execution(
                "SEARCH_API_KEY not set. Configure a search API (e.g. SerpAPI, Bing, Google Custom Search)".to_owned(),
            ),
        )
    }

    /// The answer to the reply of the search service.
    pub fn finish(query: &str, count: u64, body: &Json) -> (r: ToolResult<ToolOutput>)
        ensures
            outcome(r) == answer(
                "Search results for '"@ + query@ + "':\n"@ + search_results(body@, count as nat),
            ),
    {
        let shown = match body.index("organic_results").as_array() {
            None => "No results found.".to_owned(),
            Some(items) => {
                let ghost all = items.deep_view();
                let n: usize = if items.len() as u64 <= count {
                    items.len()
                } else {
                    count as usize
                };
                let ghost part = if all.len() <= count {
                    all
                } else {
                    all.take(count as int)
                };
                assert(part =~= all.take(n as int));
                let mut lines: Vec<String> = Vec::new();
                let mut i: usize = 0;
                assert(lines.deep_view() =~= Seq::<Seq<char>>::empty());
                while i < n
                    invariant
                        i <= n <= items@.len(),
                        all == items.deep_view(),
                        lines.deep_view() == entry_lines(all.take(i as int)),
                    decreases n - i,
                {
                    assert(all.take(i + 1).drop_last() =~= all.take(i as int));
                    let ghost before = lines.deep_view();
                    let item = &items[i];
                    assert(all[i as int] == item@);
                    let title = read_entry_str(item, "title");
                    let link = read_entry_str(item, "link");
                    let snippet = read_entry_str(item, "snippet");
                    if !(title.as_str().is_empty() && link.as_str().is_empty()) {
                        let head = text::cat5("- [", title.as_str(), "](", link.as_str(), ") ");
                        let line = text::cat2(head.as_str(), snippet.as_str());
                        let ghost lv = line@;
                        lines.push(line);
                        assert(lines.deep_view() =~= before.push(lv));
                    }
                    i = i + 1;
                }
                text::join(&lines, "\n")
            },
        };
        Ok(text_output(text::cat4("Search results for '", query, "':\n", shown.as_str())))
    }
}

/// The answer to a request that failed at some stage.
pub fn request_failed(what: &str, error: &str) -> (r: ToolResult<ToolOutput>)
    ensures
        outcome(r) == failure(what@ + error@),
{
    failed(what, error)
}

// ── Git ──

/// The answer of a git tool without a repository.
pub fn git_missing() -> (r: ToolResult<ToolOutput>)
    ensures
        outcome(r) == failure("Git not initialized"@),
{
    Err(ToolError::Execution("Git not initialized".to_owned()))
}

/// The answer of a git tool whose work failed.
pub fn git_failed(error: &str) -> (r: ToolResult<ToolOutput>)
    ensures
        outcome(r) == failure(error@),
{
    Err(ToolError::Execution(error.to_owned()))
}

impl GitCommitTool {
    /// The message of the commit.
    pub fn plan(input: &Json) -> (r: String)
        ensures
            r@ == str_or(input@, "message"@, ""@),
    {
        read_str_or(input, "message", "")
    }

    /// The answer to a commit with this hash, of which eight bytes are shown.
    pub fn finish(hash: &str) -> (r: ToolResult<ToolOutput>)
        requires
            text::byte_len(text::fit(hash@, 8)) == 8,
        ensures
            outcome(r) == answer("Committed: "@ + text::fit(hash@, 8)),
    {
        Ok(text_output(text::cat2("Committed: ", text::fitting(hash, 8).as_str())))
    }
}

/// Lines one below the other, or what is said where there is none.
pub open spec fn lines_or(lines: Seq<Seq<char>>, none: Seq<char>) -> Seq<char> {
    if lines.len() == 0 {
        none
    } else {
        text::joined(lines, "\n"@)
    }
}

fn join_or(lines: &Vec<String>, none: &str) -> (r: String)
    ensures
        r@ == lines_or(lines.deep_view(), none@),
{
    assert(lines.deep_view().len() == lines@.len());
    if lines.len() == 0 {
        none.to_owned()
    } else {
        text::join(lines, "\n")
    }
}

impl GitStatusTool {
    /// The answer to the status of the repository.
    pub fn finish(status: &Vec<String>) -> (r: ToolResult<ToolOutput>)
        ensures
            outcome(r) == answer(lines_or(status.deep_view(), "Clean working tree"@)),
    {
        Ok(text_output(join_or(status, "Clean working tree")))
    }
}

impl GitDiffTool {
    /// The answer to the changes in the repository.
    pub fn finish(diff: &str) -> (r: ToolResult<ToolOutput>)
        ensures
            outcome(r) == answer(
                if diff@.len() == 0 {
                    "No changes"@
                } else {
                    diff@
                },
            ),
    {
        if diff.is_empty() {
            Ok(text_output("No changes".to_owned()))
        } else {
            Ok(text_output(diff.to_owned()))
        }
    }
}

impl GitLogTool {
    /// The number of commits to show.
    pub fn plan(input: &Json) -> (r: usize)
        ensures
            r == wanted(input@),
            r <= 20,
    {
        read_count(input) as usize
    }

    /// The answer to the last commits.
    pub fn finish(log: &Vec<String>) -> (r: ToolResult<ToolOutput>)
        ensures
            outcome(r) == answer(lines_or(log.deep_view(), "No commits yet"@)),
    {
        Ok(text_output(join_or(log, "No commits yet")))
    }
}

// ── Undo ──

impl UndoTool {
    /// The file to bring back.
    pub fn plan(input: &Json) -> (r: ToolResult<String>)
        ensures
            match r {
                Ok(path) => path@ == str_or(input@, "path"@, ""@) && path@.len() > 0,
                Err(e) => str_or(input@, "path"@, ""@).len() == 0 && e.deep_view()
                    == tool::ToolErrorView::InvalidInput("path is required"@),
            },
    {
        ReadTool::plan(input)
    }

    /// The answer to bringing a file back: `Some(true)` where it was, `None`
    /// where no session keeps copies.
    pub fn finish(path: &str, restored: Option<Result<bool, String>>) -> (r: ToolResult<ToolOutput>)
        ensures
            outcome(r) == (match restored {
                Some(Ok(true)) => answer("Restored previous version of "@ + path@),
                Some(Ok(false)) => failure("No snapshot found for "@ + path@),
                Some(Err(e)) => failure("Undo failed: "@ + e@),
                None => failure("Snapshot manager not available (no session)"@),
            }),
    {
        match restored {
            Some(Ok(done)) => if done {
                Ok(text_output(text::cat2("Restored previous version of ", path)))
            } else {
                failed("No snapshot found for ", path)
            },
            Some(Err(e)) => failed("Undo failed: ", e.as_str()),
            None => Err(
                ToolError::Execution("Snapshot manager not available (no session)".to_owned()),
            ),
        }
    }
}

/// A search gives no more lines than its limit, and the lines it gives are the
/// first ones.
pub proof fn searches_are_limited(found: Seq<Seq<char>>)
    ensures
        at_most(found).len() <= MAX_RESULTS,
        at_most(found).is_prefix_of(found),
{
    assert(at_most(found) =~= found.subrange(0, at_most(found).len() as int));
}

// ── Laws ──

proof fn lemma_printed(stdout: Seq<u8>, stderr: Seq<u8>)
    ensures
        text::holds(printed(stdout, stderr), lossy(stdout)),
        stderr.len() > 0 ==> text::holds(printed(stdout, stderr), text::utf8_lossy(stderr)),
        stderr.len() > 0 ==> printed(stdout, stderr).len() > 0,
        stderr.len() == 0 ==> printed(stdout, stderr) == lossy(stdout),
        lossy(stdout).is_prefix_of(printed(stdout, stderr)),
        stderr.len() > 0 ==> ("STDERR:\n"@ + text::utf8_lossy(stderr)).is_suffix_of(
            printed(stdout, stderr),
        ),
{
    reveal_strlit("STDERR:\n");
    let out = lossy(stdout);
    let err = text::utf8_lossy(stderr);
    let mark = "STDERR:\n"@;
    let none = Seq::<char>::empty();
    let shown = printed(stdout, stderr);
    text::holds_itself(out);
    text::holds_itself(err);
    if stderr.len() > 0 {
        let gap = if out.len() == 0 {
            none
        } else {
            "\n"@
        };
        let tail = mark + err;
        assert(shown =~= none + out + (gap + tail));
        text::whole_holds_parts(none, out, gap + tail, out);
        assert(shown =~= (out + gap + mark) + err + none);
        text::whole_holds_parts(out + gap + mark, err, none, err);
        assert(shown.subrange(shown.len() - tail.len(), shown.len() as int) =~= tail);
    }
    assert(shown.subrange(0, out.len() as int) =~= out);
}

/// What a command that failed with a code is answered with first.
pub open spec fn failed_with(code: Option<i32>) -> Seq<char> {
    "Command exited with code "@ + number::signed_decimal(
        match code {
            Some(code) => code as int,
            None => -1,
        },
    ) + ":\n"@
}

/// The answer to a command holds all that the command printed, on its output
/// and on its errors, whatever its exit. It is never empty.
pub proof fn commands_show_what_they_printed(c: CommandOutput)
    ensures
        c.stdout@.len() > 0 ==> text::holds(command_answer(c), text::utf8_lossy(c.stdout@)),
        c.stderr@.len() > 0 ==> text::holds(command_answer(c), text::utf8_lossy(c.stderr@)),
        command_answer(c).len() > 0,
{
    let shown = printed(c.stdout@, c.stderr@);
    let out = lossy(c.stdout@);
    let err = text::utf8_lossy(c.stderr@);
    let none = Seq::<char>::empty();
    let answer = command_answer(c);
    lemma_printed(c.stdout@, c.stderr@);
    if !c.success {
        let head = failed_with(c.code);
        failed_commands_say_so(c);
        assert(answer =~= head + shown + none);
        text::whole_holds_parts(head, shown, none, out);
        if c.stderr@.len() > 0 {
            text::whole_holds_parts(head, shown, none, err);
        }
    } else if shown.len() == 0 {
        reveal_strlit("Command completed successfully (exit code 0)");
        assert(out =~= none);
        let k: int = 0;
        assert(answer.subrange(k, k + out.len()) =~= out);
    }
}

/// The answer of a command that failed names its code, and then says what one
/// that succeeded with the same output does.
pub proof fn failed_commands_say_so(c: CommandOutput)
    requires
        !c.success,
    ensures
        failed_with(c.code).len() > 0,
        command_answer(c) == failed_with(c.code) + printed(c.stdout@, c.stderr@),
        printed(c.stdout@, c.stderr@).len() > 0 ==> command_answer(c) == failed_with(c.code)
            + command_answer(CommandOutput { success: true, ..c }),
        c.stdout@.len() == 0 && c.stderr@.len() == 0 ==> command_answer(c) == failed_with(c.code),
{
    reveal_strlit(":\n");
    let shown = printed(c.stdout@, c.stderr@);
    if c.stdout@.len() == 0 && c.stderr@.len() == 0 {
        assert(failed_with(c.code) + shown =~= failed_with(c.code));
    }
}

/// A command that succeeded is answered with its output as it is, and behind it
/// with its errors under a heading.
pub proof fn commands_that_worked_show_their_output(c: CommandOutput)
    requires
        c.success,
    ensures
        c.stderr@.len() == 0 && c.stdout@.len() > 0 && text::utf8_lossy(c.stdout@).len() > 0
            ==> command_answer(c) == text::utf8_lossy(c.stdout@),
        c.stderr@.len() > 0 ==> lossy(c.stdout@).is_prefix_of(command_answer(c)) && ("STDERR:\n"@
            + text::utf8_lossy(c.stderr@)).is_suffix_of(command_answer(c)),
{
    lemma_printed(c.stdout@, c.stderr@);
}

/// A search gives every line that matches, with the path, the number of the
/// line counted from one, and the line without white space at its ends; it
/// gives no other line, and it gives them in the order of the file.
pub proof fn searches_give_matching_lines(
    pattern: Seq<char>,
    path: Seq<char>,
    lines: Seq<Seq<char>>,
    n: int,
)
    requires
        0 <= n <= lines.len(),
    ensures
        forall|i: int|
            0 <= i < lines.len() && pattern::regex_match(pattern, #[trigger] lines[i]) == Some(true)
                ==> hits(pattern, path, lines).contains(
                path + ":"@ + number::decimal((i + 1) as nat) + ":"@ + text::trim(lines[i]),
            ),
        forall|h: int|
            0 <= h < hits(pattern, path, lines).len() ==> tells_of_a_line(
                #[trigger] hits(pattern, path, lines)[h],
                pattern,
                path,
                lines,
            ),
        hits(pattern, path, lines).len() == matches_in(pattern, lines),
        hits(pattern, path, lines.take(n)).is_prefix_of(hits(pattern, path, lines)),
    decreases lines.len(),
{
    lemma_hits_grow(pattern, path, lines, n);
    if lines.len() > 0 {
        let rest = lines.drop_last();
        let before = hits(pattern, path, rest);
        let all = hits(pattern, path, lines);
        let last = lines.last();
        searches_give_matching_lines(pattern, path, rest, 0);
        assert forall|i: int|
            0 <= i < lines.len() && pattern::regex_match(pattern, #[trigger] lines[i]) == Some(
                true,
            ) implies all.contains(
            path + ":"@ + number::decimal((i + 1) as nat) + ":"@ + text::trim(lines[i]),
        ) by {
            let shown = path + ":"@ + number::decimal((i + 1) as nat) + ":"@ + text::trim(lines[i]);
            if i < rest.len() {
                assert(rest[i] == lines[i]);
                assert(before.contains(shown));
                let h = choose|h: int| 0 <= h < before.len() && before[h] == shown;
                assert(all[h] == shown);
            } else {
                assert(all[before.len() as int] == shown);
            }
        }
        assert forall|h: int| 0 <= h < all.len() implies tells_of_a_line(
            #[trigger] all[h],
            pattern,
            path,
            lines,
        ) by {
            if h < before.len() {
                assert(all[h] == before[h]);
                assert(tells_of_a_line(before[h], pattern, path, rest));
                let i = choose|i: int|
                    0 <= i < rest.len() && pattern::regex_match(pattern, #[trigger] rest[i])
                        == Some(true) && before[h] == path + ":"@ + number::decimal((i + 1) as nat)
                        + ":"@ + text::trim(rest[i]);
                assert(lines[i] == rest[i]);
            } else {
                assert(lines[lines.len() - 1] == last);
            }
        }
    }
}

/// Whether a line of a search's answer tells of a line that matches.
pub open spec fn tells_of_a_line(
    told: Seq<char>,
    pattern: Seq<char>,
    path: Seq<char>,
    lines: Seq<Seq<char>>,
) -> bool {
    exists|i: int|
        0 <= i < lines.len() && pattern::regex_match(pattern, #[trigger] lines[i]) == Some(true)
            && told == path + ":"@ + number::decimal((i + 1) as nat) + ":"@ + text::trim(lines[i])
}

/// How many lines match.
pub open spec fn matches_in(pattern: Seq<char>, lines: Seq<Seq<char>>) -> nat
    decreases lines.len(),
{
    if lines.len() == 0 {
        0
    } else {
        matches_in(pattern, lines.drop_last()) + if pattern::regex_match(pattern, lines.last())
            == Some(true) {
            1nat
        } else {
            0
        }
    }
}

/// As long as a search has found no more than its limit, nothing it found is
/// left out; beyond it the limit is used up.
pub proof fn short_searches_are_complete(found: Seq<Seq<char>>)
    ensures
        found.len() <= 200 ==> at_most(found) == found,
        found.len() > 200 ==> at_most(found).len() == 200,
        at_most(found).is_prefix_of(found),
{
    searches_are_limited(found);
}

/// A file is searched unless a valid pattern for names is given that does not
/// match its name.
pub proof fn names_select_files(names: Option<Seq<char>>, name: Seq<char>)
    ensures
        names is None ==> included(names, name),
        names matches Some(p) ==> (included(names, name) <==> pattern::glob_match(p, name) is None
            || pattern::glob_match(p, name) == Some(true)),
{
    if let Some(p) = names {
        match pattern::glob_match(p, name) {
            Some(m) => {
                assert(m == true || m == false);
            },
            None => {},
        }
    }
}

/// A pattern is looked for under its base: in the present directory as it
/// stands, else behind the base and one slash, however many slashes the base
/// ends in.
pub proof fn patterns_stand_under_their_base(base: Seq<char>, pattern: Seq<char>)
    ensures
        based("."@, pattern) == pattern,
        base != "."@ && base.len() > 0 && base.last() != '/' ==> based(base, pattern) == base
            + seq!['/'] + pattern && based(base + seq!['/'], pattern) == base + seq!['/'] + pattern,
        pattern.is_suffix_of(based(base, pattern)),
{
    reveal_strlit(".");
    reveal_strlit("/");
    assert("/"@ =~= seq!['/']);
    assert((base + seq!['/']).drop_last() =~= base);
    let all = based(base, pattern);
    assert(all.subrange(all.len() - pattern.len(), all.len() as int) =~= pattern);
    if base.len() > 0 {
        assert((base + seq!['/']).len() == base.len() + 1);
        assert("."@.len() == 1);
    }
}

/// A page within the limit is shown whole; of a longer one a start is shown
/// that fills the limit, and a mark behind it names the limit.
pub proof fn pages_are_shown_or_cut(body: Seq<char>)
    ensures
        text::byte_len(body) <= MAX_PAGE ==> page(body) == body,
        text::byte_len(body) > MAX_PAGE ==> exists|kept: Seq<char>|
            #![trigger text::byte_len(kept)]
            kept.is_prefix_of(body) && text::byte_len(kept) <= MAX_PAGE && MAX_PAGE
                < text::byte_len(kept) + 4 && page(body) == kept + "...\n[Response truncated at "@
                + number::decimal(MAX_PAGE as nat) + " bytes]"@,
        MAX_PAGE == 102_400,
{
    if text::byte_len(body) > MAX_PAGE {
        text::fit_is_longest(body, MAX_PAGE as nat);
        text::fit_is_tight(body, MAX_PAGE as nat);
        assert(text::byte_len(text::fit(body, MAX_PAGE as nat)) <= MAX_PAGE);
    }
}

/// As many results are given as are asked for, up to twenty; five where nothing
/// is said.
pub proof fn results_are_counted(input: Seq<char>)
    ensures
        wanted(input) <= 20,
        json::json_u64_member(input, "count"@) matches Some(n) ==> (n <= 20 ==> wanted(input) == n)
            && (n >= 20 ==> wanted(input) == 20),
        json::json_u64_member(input, "count"@) is None ==> wanted(input) == 5,
{
}

proof fn lemma_link_line(title: Seq<char>, link: Seq<char>, snippet: Seq<char>)
    ensures
        ({
            let line = "- ["@ + title + "]("@ + link + ") "@ + snippet;
            text::holds(line, title) && text::holds(line, link) && text::holds(line, snippet)
        }),
{
    let a = "- ["@;
    let b = "]("@;
    let c = ") "@;
    let none = Seq::<char>::empty();
    let line = a + title + b + link + c + snippet;
    text::holds_itself(title);
    text::holds_itself(link);
    text::holds_itself(snippet);
    text::whole_holds_parts(a, title, b + link + c + snippet, title);
    assert(line =~= a + title + (b + link + c + snippet));
    text::whole_holds_parts(a + title + b, link, c + snippet, link);
    assert(line =~= a + title + b + link + (c + snippet));
    text::whole_holds_parts(a + title + b + link + c, snippet, none, snippet);
    assert(line =~= a + title + b + link + c + snippet + none);
}

/// A result of a search on the web is a line with its title, its address and
/// its excerpt; it is left out only without title and address.
pub proof fn results_are_told(v: Seq<char>)
    ensures
        entry_line(v) is None <==> entry_str(v, "title"@).len() == 0 && entry_str(
            v,
            "link"@,
        ).len() == 0,
        entry_line(v) matches Some(line) ==> text::holds(line, entry_str(v, "title"@))
            && text::holds(line, entry_str(v, "link"@)) && text::holds(
            line,
            entry_str(v, "snippet"@),
        ),
{
    lemma_link_line(entry_str(v, "title"@), entry_str(v, "link"@), entry_str(v, "snippet"@));
}

/// What a result says under a key is taken as it is; without it there is
/// nothing.
pub proof fn results_are_read(v: Seq<char>, key: Seq<char>, m: Seq<char>, s: Seq<char>)
    ensures
        json::json_member(v, key) == Some(m) && json::json_str(m) == Some(s) ==> entry_str(v, key)
            == s,
        json::json_member(v, key) == Some(m) && json::json_str(m) is None ==> entry_str(
            v,
            key,
        ).len() == 0,
{
}

/// The results of a search on the web come in order, each once, and no more of
/// them are looked at than were asked for.
pub proof fn results_come_in_order(a: Seq<Seq<char>>, b: Seq<Seq<char>>, v: Seq<char>)
    ensures
        entry_lines(a + b) == entry_lines(a) + entry_lines(b),
        entry_lines(seq![v]) == (match entry_line(v) {
            Some(line) => seq![line],
            None => Seq::empty(),
        }),
        entry_lines(a).len() <= a.len(),
    decreases a.len() + b.len(),
{
    let none = Seq::<Seq<char>>::empty();
    assert(seq![v].drop_last() =~= none);
    assert(entry_lines(none) =~= none);
    assert(entry_lines(seq![v]) =~= (match entry_line(v) {
        Some(line) => seq![line],
        None => Seq::empty(),
    }));
    if b.len() == 0 {
        assert(a + b =~= a);
        assert(entry_lines(a) + entry_lines(b) =~= entry_lines(a));
        if a.len() > 0 {
            results_come_in_order(a.drop_last(), none, v);
        }
    } else {
        results_come_in_order(a, b.drop_last(), v);
        assert((a + b).drop_last() =~= a + b.drop_last());
        assert(entry_lines(a + b) =~= entry_lines(a) + entry_lines(b));
    }
}

/// What a search on the web answers: that there are no results where the reply
/// lists none, else the lines of as many as were asked for.
pub proof fn web_searches_answer(body: Seq<char>, count: nat)
    ensures
        match json::json_member(body, "organic_results"@) {
            Some(list) => match json::json_items(list) {
                Some(items) => items.len() <= count ==> search_results(body, count)
                    == text::joined(entry_lines(items), "\n"@),
                None => search_results(body, count) == "No results found."@,
            },
            None => json::json_items("null"@) is None ==> search_results(body, count)
                == "No results found."@,
        },
        json::json_member(body, "organic_results"@) matches Some(list) ==> (json::json_items(
            list,
        ) matches Some(items) ==> items.len() > count ==> search_results(body, count)
            == text::joined(entry_lines(items.take(count as int)), "\n"@)),
{
}

/// Lines are answered all, one below the other; only where there is none
/// something else is said.
pub proof fn lines_are_answered(lines: Seq<Seq<char>>, none: Seq<char>, i: int)
    ensures
        lines.len() == 0 ==> lines_or(lines, none) == none,
        lines.len() == 1 ==> lines_or(lines, none) == lines[0],
        0 <= i < lines.len() ==> text::holds(lines_or(lines, none), lines[i]),
        lines.len() > 0 ==> lines_or(lines, none) == text::joined(lines, "\n"@),
{
    if 0 <= i < lines.len() {
        text::joined_holds_parts(lines, "\n"@, i);
    }
}

/// The diff of an edit shows the path, each line that goes behind a minus and
/// each that comes behind a plus.
pub proof fn edits_are_shown(
    path: Seq<char>,
    content: Seq<char>,
    at: int,
    len: int,
    old: Seq<char>,
    new: Seq<char>,
    i: int,
)
    ensures
        text::holds(edit_diff(path, content, at, len, old, new), path),
        0 <= i < text::lines(old).len() ==> text::holds(
            edit_diff(path, content, at, len, old, new),
            "-"@ + text::lines(old)[i] + "\n"@,
        ),
        0 <= i < text::lines(new).len() ==> text::holds(
            edit_diff(path, content, at, len, old, new),
            "+"@ + text::lines(new)[i] + "\n"@,
        ),
        text::holds(
            edit_diff(path, content, at, len, old, new),
            context_line(last_line(content.take(at))),
        ),
        context_line(first_line(content.skip(at + len))).is_suffix_of(
            edit_diff(path, content, at, len, old, new),
        ),
{
    let none = Seq::<char>::empty();
    let before = context_line(last_line(content.take(at)));
    let after = context_line(first_line(content.skip(at + len)));
    let gone = marked("-"@, text::lines(old));
    let come = marked("+"@, text::lines(new));
    let all = edit_diff(path, content, at, len, old, new);
    text::holds_itself(path);
    text::holds_itself(before);
    text::whole_holds_parts("Edit "@, path, "\n"@ + before + gone + come + after, path);
    assert(all =~= "Edit "@ + path + ("\n"@ + before + gone + come + after));
    text::whole_holds_parts("Edit "@ + path + "\n"@, before, gone + come + after, before);
    assert(all =~= "Edit "@ + path + "\n"@ + before + (gone + come + after));
    if 0 <= i < text::lines(old).len() {
        lines_are_marked("-"@, text::lines(old), i);
        let line = "-"@ + text::lines(old)[i] + "\n"@;
        text::whole_holds_parts("Edit "@ + path + "\n"@ + before, gone, come + after, line);
        assert(all =~= "Edit "@ + path + "\n"@ + before + gone + (come + after));
    }
    if 0 <= i < text::lines(new).len() {
        lines_are_marked("+"@, text::lines(new), i);
        let line = "+"@ + text::lines(new)[i] + "\n"@;
        text::whole_holds_parts("Edit "@ + path + "\n"@ + before + gone, come, after, line);
        assert(all =~= "Edit "@ + path + "\n"@ + before + gone + come + after);
    }
    assert(all.subrange(all.len() - after.len(), all.len() as int) =~= after);
}

/// Marked lines stand each behind the mark, on a line of its own, in order.
pub proof fn lines_are_marked(mark: Seq<char>, lines: Seq<Seq<char>>, i: int)
    requires
        0 <= i < lines.len(),
    ensures
        text::holds(marked(mark, lines), mark + lines[i] + "\n"@),
        marked(mark, lines.take(i)).is_prefix_of(marked(mark, lines)),
    decreases lines.len(),
{
    let none = Seq::<char>::empty();
    let rest = lines.drop_last();
    let before = marked(mark, rest);
    let line = mark + lines[i] + "\n"@;
    let all = marked(mark, lines);
    text::holds_itself(line);
    if i == lines.len() - 1 {
        assert(lines.take(i) =~= rest);
        assert(all =~= before + line + none);
        text::whole_holds_parts(before, line, none, line);
        assert(all.subrange(0, before.len() as int) =~= before);
    } else {
        lines_are_marked(mark, rest, i);
        assert(rest.take(i) =~= lines.take(i));
        assert(all =~= none + before + (mark + lines.last() + "\n"@));
        text::whole_holds_parts(none, before, mark + lines.last() + "\n"@, line);
        let first = marked(mark, rest.take(i));
        assert(first =~= before.subrange(0, first.len() as int));
        assert(all.subrange(0, first.len() as int) =~= first);
    }
}

/// A line of context is shown with its text, behind four spaces; an empty one
/// is not.
pub proof fn context_is_shown(line: Seq<char>)
    ensures
        line.len() == 0 ==> context_line(line).len() == 0,
        line.len() > 0 ==> text::holds(context_line(line), line) && context_line(line).len()
            == line.len() + 5,
{
    reveal_strlit("    ");
    reveal_strlit("\n");
    if line.len() > 0 {
        text::holds_itself(line);
        text::whole_holds_parts("    "@, line, "\n"@, line);
    }
}

/// The preview of a file is its first lines, all of them where there are no
/// more than asked for.
pub proof fn previews_are_first_lines(s: Seq<char>, n: nat)
    ensures
        first_lines(s, n).is_prefix_of(text::lines(s)),
        first_lines(s, n).len() == (if text::lines(s).len() <= n {
            text::lines(s).len()
        } else {
            n
        }),
        text::lines(s).len() > 0 ==> first_line(s) == text::lines(s)[0] && last_line(s)
            == text::lines(s)[text::lines(s).len() - 1],
{
    assert(first_lines(s, n) =~= text::lines(s).subrange(0, first_lines(s, n).len() as int));
}

/// An input's string is taken as it is; only where there is none the default
/// counts.
pub proof fn given_strings_are_taken(input: Seq<char>, key: Seq<char>, default: Seq<char>)
    ensures
        json::json_member(input, key) matches Some(m) ==> (json::json_str(m) matches Some(s)
            ==> str_or(input, key, default) == s),
        json::json_member(input, key) is None ==> str_or(input, key, default) == default,
{
}

/// An answer is its text, whole, and a failure says what failed.
pub proof fn answers_are_whole(s: Seq<char>)
    ensures
        answer(s) matches Ok(parts) && parts.len() == 1 && parts[0]
            == (types::ToolContentView::Text { text: s }),
        failure(s) matches Err(e) && e == tool::ToolErrorView::Execution(s),
{
}

/// What a tool gave is what is answered.
pub proof fn outcomes_are_handed_on(output: ToolOutput, e: ToolError)
    ensures
        outcome(Ok(output)) == Ok::<Seq<types::ToolContentView>, tool::ToolErrorView>(
            output.deep_view(),
        ),
        outcome(Err(e)) == Err::<Seq<types::ToolContentView>, tool::ToolErrorView>(e.deep_view()),
{
}

/// A text is found in a file wherever it stands there, exactly or up to white
/// space: only blank text, and text of which the normal form does not occur, is
/// not found.
pub proof fn edits_find_what_is_there(content: Seq<char>, old: Seq<char>)
    ensures
        located(content, old) is Some <==> text::holds(content, old) || (solids(old).len() > 0
            && text::holds(normal(content), normal(old))),
{
    text::found_is_held(content, old);
    text::found_is_held(normal(content), normal(old));
    lemma_solid_count(normal(old));
    normal_form_keeps_solids(old);
    if solid_count(normal(old)) > 0 {
        lemma_loose(content, old);
    }
}

/// Of several places that match up to white space the first is edited: as much
/// stands before it, white space apart, as before the first match of the normal
/// forms.
pub proof fn loose_edits_take_the_first(content: Seq<char>, old: Seq<char>)
    requires
        text::find(content, old) is None,
    ensures
        located(content, old) matches Some((at, len)) ==> (text::find(
            normal(content),
            normal(old),
        ) matches Some(p) && solids(content.take(at)) == solids(normal(content).take(p))),
{
    let norm = normal(content);
    let wanted = normal(old);
    if let Some((at, len)) = located(content, old) {
        let p = text::find(norm, wanted).unwrap();
        let n = solid_count(norm.take(p));
        text::lemma_find(norm, wanted);
        lemma_solid_count(norm.take(p));
        lemma_solid_count(wanted);
        lemma_loose(content, old);
        normal_form_keeps_solids(content);
        normal_form_keeps_solids(old);
        lemma_solids_within(norm, wanted, p);
        lemma_solid_at(content, n);
        assert(solid_at(content, n) == Some(at));
        assert(content =~= content.take(at) + content.skip(at));
        lemma_solids_append(content.take(at), content.skip(at));
        assert(norm =~= norm.take(p) + norm.skip(p));
        lemma_solids_append(norm.take(p), norm.skip(p));
        assert(solids(content.take(at)) =~= solids(content).take(n as int));
        assert(solids(norm.take(p)) =~= solids(norm).take(n as int));
    }
}

proof fn lemma_collapse_stays(s: Seq<char>, prev: char)
    requires
        !s.contains('\t'),
        forall|i: int| 0 < i < s.len() && s[i - 1] == ' ' ==> #[trigger] s[i] != ' ',
        prev == ' ' && s.len() > 0 ==> s[0] != ' ',
    ensures
        collapse(s, prev) == s,
    decreases s.len(),
{
    if s.len() > 0 {
        let rest = s.drop_first();
        assert(s.contains(s[0]));
        assert forall|i: int| 0 <= i < rest.len() implies rest[i] != '\t' by {
            assert(rest[i] == s[i + 1]);
            assert(s.contains(s[i + 1]));
        }
        assert forall|i: int| 0 < i < rest.len() && rest[i - 1] == ' ' implies #[trigger] rest[i]
            != ' ' by {
            assert(rest[i] == s[i + 1]);
            assert(rest[i - 1] == s[i]);
        }
        if rest.len() > 0 && s[0] == ' ' {
            assert(s[1] != ' ');
        }
        lemma_collapse_stays(rest, s[0]);
        assert(seq![s[0]] + rest =~= s);
    } else {
        assert(s =~= Seq::<char>::empty());
    }
}

/// A line that has no white space at its ends, no tabs and single spaces only
/// is its own normal form.
pub proof fn single_spaced_lines_stay(line: Seq<char>)
    requires
        line.len() > 0 ==> !text::is_white(line[0]) && !text::is_white(line.last()),
        !line.contains('\t'),
        forall|i: int| 0 < i < line.len() && line[i - 1] == ' ' ==> #[trigger] line[i] != ' ',
    ensures
        normal_line(line) == line,
{
    text::trimmed_stays(line);
    lemma_collapse_stays(line, ' ');
}

/// The normal form goes line by line.
pub proof fn normal_forms_go_by_lines(line: Seq<char>, rest: Seq<char>)
    requires
        !line.contains('\n'),
        line.len() > 0 ==> line.last() != '\r',
        text::lines(rest).len() > 0,
    ensures
        normal(line + seq!['\n'] + rest) == normal_line(line) + seq!['\n'] + normal(rest),
        line.len() > 0 ==> normal(line) == normal_line(line),
{
    reveal_strlit("\n");
    assert("\n"@ =~= seq!['\n']);
    text::lines_end_at_line_feeds(line, rest);
    let all = text::lines(line + seq!['\n'] + rest);
    let f = |l: Seq<char>| normal_line(l);
    let first = seq![normal_line(line)];
    let more = text::lines(rest).map_values(f);
    assert(all.map_values(f) =~= first + more);
    text::joining_keeps_parts(first, more, "\n"@);
    assert(text::lines(line).map_values(f) =~= (if line.len() == 0 {
        Seq::empty()
    } else {
        first
    }));
}

/// Where a part of the normal form stands in the original: at a character with
/// as much before it, white space apart, counted in bytes.
pub proof fn places_are_found_again(original: Seq<char>, part: Seq<char>)
    requires
        text::find(normal(original), part) is Some,
    ensures
        ({
            let p = text::find(normal(original), part).unwrap();
            solids(normal(original).take(p)).len() < solids(original).len() ==> exists|i: int|
                #![trigger original.take(i)]
                0 <= i < original.len() && !text::is_white(original[i]) && solids(original.take(i))
                    == solids(normal(original).take(p)) && orig_position(original, part)
                    == text::byte_len(original.take(i))
        }),
{
    let norm = normal(original);
    let p = text::find(norm, part).unwrap();
    let n = solids(norm.take(p)).len();
    lemma_solid_count(norm.take(p));
    if n < solids(original).len() {
        text::lemma_find(norm, part);
        lemma_solid_at(original, n);
        let i = solid_at(original, n).unwrap();
        normal_form_keeps_solids(original);
        assert(original =~= original.take(i) + original.skip(i));
        lemma_solids_append(original.take(i), original.skip(i));
        assert(norm =~= norm.take(p) + norm.skip(p));
        lemma_solids_append(norm.take(p), norm.skip(p));
        assert(solids(original.take(i)) =~= solids(original).take(n as int));
        assert(solids(norm.take(p)) =~= solids(norm).take(n as int));
    }
}

} // verus!
