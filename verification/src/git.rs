//! What is shown of a repository: its status and its changes.
use vstd::prelude::*;
use crate::text;

verus! {

/// How a file differs from the last commit, in the index and in the working
/// tree. `other` holds what the rest does not.
#[derive(Debug, Clone, Copy, PartialEq, Eq, Structural)]
pub struct StatusFlags {
    pub index_new: bool,
    pub wt_new: bool,
    pub index_modified: bool,
    pub wt_modified: bool,
    pub index_deleted: bool,
    pub wt_deleted: bool,
    pub other: bool,
}

/// Whether a file is as in the last commit.
pub open spec fn is_current(f: StatusFlags) -> bool {
    !(f.index_new || f.wt_new || f.index_modified || f.wt_modified || f.index_deleted || f.wt_deleted
        || f.other)
}

/// The line of a file: whether it is new, modified, deleted or else.
pub open spec fn label(path: Seq<char>, f: StatusFlags) -> Seq<char> {
    (if f.index_new || f.wt_new {
        "+ "@
    } else if f.index_modified || f.wt_modified {
        "~ "@
    } else if f.index_deleted || f.wt_deleted {
        "- "@
    } else {
        "? "@
    }) + path
}

/// The lines of the files that differ from the last commit.
pub open spec fn status_lines(entries: Seq<(Seq<char>, StatusFlags)>) -> Seq<Seq<char>>
    decreases entries.len(),
{
    if entries.len() == 0 {
        Seq::empty()
    } else {
        let before = status_lines(entries.drop_last());
        let (path, flags) = entries.last();
        if is_current(flags) {
            before
        } else {
            before.push(label(path, flags))
        }
    }
}

/// Entries with their paths as text.
pub open spec fn entries_view(entries: Seq<(String, StatusFlags)>) -> Seq<(Seq<char>, StatusFlags)> {
    Seq::new(entries.len(), |i: int| (entries[i].0@, entries[i].1))
}

/// A line for each file that differs from the last commit.
pub fn status(entries: &Vec<(String, StatusFlags)>) -> (r: Vec<String>)
    ensures
        r.deep_view() == status_lines(entries_view(entries@)),
{
    let ghost all = entries_view(entries@);
    let mut r: Vec<String> = Vec::new();
    let mut i: usize = 0;
    assert(r.deep_view() =~= Seq::<Seq<char>>::empty());
    while i < entries.len()
        invariant
            i <= entries@.len(),
            all == entries_view(entries@),
            r.deep_view() == status_lines(all.take(i as int)),
        decreases entries@.len() - i,
    {
        assert(all.take(i + 1).drop_last() =~= all.take(i as int));
        let ghost before = r.deep_view();
        let path = entries[i].0.as_str();
        let f = entries[i].1;
        let current = !(f.index_new || f.wt_new || f.index_modified || f.wt_modified
            || f.index_deleted || f.wt_deleted || f.other);
        if !current {
            let mark = if f.index_new || f.wt_new {
                "+ "
            } else if f.index_modified || f.wt_modified {
                "~ "
            } else if f.index_deleted || f.wt_deleted {
                "- "
            } else {
                "? "
            };
            let line = text::cat2(mark, path);
            let ghost lv = line@;
            r.push(line);
            assert(r.deep_view() =~= before.push(lv));
        }
        i = i + 1;
    }
    assert(all.take(i as int) =~= all);
    r
}

/// What happened to a file.
#[derive(Debug, Clone, Copy, PartialEq, Eq, Structural)]
pub enum FileChange {
    Added,
    Deleted,
    Modified,
    Other,
}

/// A line of a diff: the character that says where it comes from, and its
/// bytes.
pub struct DiffLine {
    pub origin: char,
    pub content: Vec<u8>,
}

/// The line of a file in a diff.
pub open spec fn file_line(change: FileChange, path: Seq<char>) -> Seq<char> {
    (match change {
        FileChange::Added => "+"@,
        FileChange::Deleted => "-"@,
        FileChange::Modified => "~"@,
        FileChange::Other => " "@,
    }) + " "@ + path
}

/// Each file of a diff with a line of its own.
pub open spec fn file_lines(files: Seq<(FileChange, String)>) -> Seq<char>
    decreases files.len(),
{
    if files.len() == 0 {
        Seq::empty()
    } else {
        file_lines(files.drop_last()) + file_line(files.last().0, files.last().1@) + "\n"@
    }
}

/// An added or removed line that is text is shown without white space at its
/// end; other lines are not shown.
pub open spec fn hunk_line(line: DiffLine) -> Seq<char> {
    if vstd::utf8::valid_utf8(line.content@) && (line.origin == '+' || line.origin == '-') {
        seq![line.origin] + text::trim_end(vstd::utf8::decode_utf8(line.content@)) + "\n"@
    } else {
        Seq::empty()
    }
}

/// The added and removed lines of a diff.
pub open spec fn hunk_lines(lines: Seq<DiffLine>) -> Seq<char>
    decreases lines.len(),
{
    if lines.len() == 0 {
        Seq::empty()
    } else {
        hunk_lines(lines.drop_last()) + hunk_line(lines.last())
    }
}

/// A diff as text: its files, then its added and removed lines.
pub fn format_diff(files: &Vec<(FileChange, String)>, lines: &Vec<DiffLine>) -> (r: String)
    ensures
        r@ == file_lines(files@) + hunk_lines(lines@),
{
    let mut r = String::new();
    let mut i: usize = 0;
    while i < files.len()
        invariant
            i <= files@.len(),
            r@ == file_lines(files@.take(i as int)),
        decreases files@.len() - i,
    {
        assert(files@.take(i + 1).drop_last() =~= files@.take(i as int));
        let ghost before = r@;
        let mark = match files[i].0 {
            FileChange::Added => "+",
            FileChange::Deleted => "-",
            FileChange::Modified => "~",
            FileChange::Other => " ",
        };
        let line = text::cat3(mark, " ", files[i].1.as_str());
        r.append(line.as_str());
        r.append("\n");
        assert(r@ =~= before + line@ + "\n"@);
        i = i + 1;
    }
    assert(files@.take(i as int) =~= files@);
    let ghost head = r@;
    let mut k: usize = 0;
    assert(head + Seq::<char>::empty() =~= head);
    while k < lines.len()
        invariant
            k <= lines@.len(),
            r@ == head + hunk_lines(lines@.take(k as int)),
        decreases lines@.len() - k,
    {
        assert(lines@.take(k + 1).drop_last() =~= lines@.take(k as int));
        let ghost before = r@;
        let line = &lines[k];
        if line.origin == '+' || line.origin == '-' {
            if let Some(s) = text::read_utf8(&line.content) {
                let shown = text::trimmed_end(s.as_str());
                r.push(line.origin);
                r.append(shown.as_str());
                r.append("\n");
                assert(r@ =~= before + hunk_line(*line));
            } else {
                assert(before + Seq::<char>::empty() =~= before);
            }
        } else {
            assert(before + Seq::<char>::empty() =~= before);
        }
        assert(head + (hunk_lines(lines@.take(k as int)) + hunk_line(*line)) =~= head + hunk_lines(
            lines@.take(k as int),
        ) + hunk_line(*line));
        k = k + 1;
    }
    assert(lines@.take(k as int) =~= lines@);
    r
}

/// What is said after the repository was set back to the commit `id`, or to
/// before the first.
pub fn reset_text(id: Option<&str>) -> (r: String)
    ensures
        r@ == (match id {
            Some(id) => "reset to "@ + id@,
            None => "reset to initial state"@,
        }),
{
    match id {
        Some(id) => text::cat2("reset to ", id),
        None => "reset to initial state".to_owned(),
    }
}

/// The line of a commit: the first eight characters of its id, and the first
/// line of its message.
pub fn log_line(id: &str, summary: &str) -> (r: String)
    ensures
        r@ == (if id@.len() <= 8 {
            id@
        } else {
            id@.take(8)
        }) + " "@ + summary@,
{
    let v = text::chars_of(id);
    let n: usize = if v.len() <= 8 {
        v.len()
    } else {
        8
    };
    let short = text::string_of(&v, 0, n);
    assert(short@ =~= (if id@.len() <= 8 {
        id@
    } else {
        id@.take(8)
    }));
    text::cat3(short.as_str(), " ", summary)
}

// ── Laws ──

/// The line of a file ends with its path, behind a mark: new files have a plus,
/// modified ones a tilde, deleted ones a minus.
pub proof fn files_are_marked(path: Seq<char>, f: StatusFlags)
    ensures
        label(path, f).len() == path.len() + 2,
        label(path, f).skip(2) == path,
        f.index_new || f.wt_new <==> label(path, f)[0] == '+',
        !(f.index_new || f.wt_new) && (f.index_modified || f.wt_modified) <==> label(path, f)[0]
            == '~',
        !(f.index_new || f.wt_new || f.index_modified || f.wt_modified) && (f.index_deleted
            || f.wt_deleted) <==> label(path, f)[0] == '-',
{
    reveal_strlit("+ ");
    reveal_strlit("~ ");
    reveal_strlit("- ");
    reveal_strlit("? ");
    assert(label(path, f).skip(2) =~= path);
}

/// The status has a line for each file that differs from the last commit, in
/// order, and for no other.
pub proof fn changed_files_are_listed(
    a: Seq<(Seq<char>, StatusFlags)>,
    b: Seq<(Seq<char>, StatusFlags)>,
    path: Seq<char>,
    f: StatusFlags,
)
    ensures
        status_lines(a + b) == status_lines(a) + status_lines(b),
        status_lines(seq![(path, f)]) == (if f.index_new || f.wt_new || f.index_modified
            || f.wt_modified || f.index_deleted || f.wt_deleted || f.other {
            seq![label(path, f)]
        } else {
            Seq::empty()
        }),
    decreases b.len(),
{
    let none = Seq::<(Seq<char>, StatusFlags)>::empty();
    let one = seq![(path, f)];
    assert(one.drop_last() =~= none);
    assert(one.last() == (path, f));
    assert(status_lines(none) =~= Seq::<Seq<char>>::empty());
    assert(status_lines(one) =~= (if is_current(f) {
        Seq::empty()
    } else {
        seq![label(path, f)]
    }));
    if b.len() == 0 {
        assert(a + b =~= a);
        assert(status_lines(a) + status_lines(b) =~= status_lines(a));
    } else {
        changed_files_are_listed(a, b.drop_last(), path, f);
        assert((a + b).drop_last() =~= a + b.drop_last());
        assert(status_lines(a + b) =~= status_lines(a) + status_lines(b));
    }
}

/// A diff names each of its files, in order, on a line that says what happened
/// to it.
pub proof fn diffs_name_their_files(
    a: Seq<(FileChange, String)>,
    b: Seq<(FileChange, String)>,
    change: FileChange,
    path: String,
)
    ensures
        file_lines(a + b) == file_lines(a) + file_lines(b),
        file_lines(seq![(change, path)]) == file_line(change, path@) + "\n"@,
        path@.is_suffix_of(file_line(change, path@)),
        file_line(change, path@)[0] == (match change {
            FileChange::Added => '+',
            FileChange::Deleted => '-',
            FileChange::Modified => '~',
            FileChange::Other => ' ',
        }),
    decreases b.len(),
{
    reveal_strlit("+");
    reveal_strlit("-");
    reveal_strlit("~");
    reveal_strlit(" ");
    let none = Seq::<(FileChange, String)>::empty();
    let one = seq![(change, path)];
    assert(one.drop_last() =~= none);
    assert(one.last() == (change, path));
    assert(file_lines(none) =~= Seq::<char>::empty());
    assert(file_lines(one) =~= file_line(change, path@) + "\n"@);
    let line = file_line(change, path@);
    assert(line.subrange(line.len() - path@.len(), line.len() as int) =~= path@);
    if b.len() == 0 {
        assert(a + b =~= a);
        assert(file_lines(a) + file_lines(b) =~= file_lines(a));
    } else {
        diffs_name_their_files(a, b.drop_last(), change, path);
        assert((a + b).drop_last() =~= a + b.drop_last());
        assert(file_lines(a + b) =~= file_lines(a) + file_lines(b));
    }
}

/// A diff shows its added and removed lines in order, each behind its sign and
/// without white space at its end; other lines are left out.
pub proof fn diffs_show_their_lines(a: Seq<DiffLine>, b: Seq<DiffLine>, line: DiffLine)
    ensures
        hunk_lines(a + b) == hunk_lines(a) + hunk_lines(b),
        hunk_lines(seq![line]) == hunk_line(line),
        line.origin != '+' && line.origin != '-' ==> hunk_line(line).len() == 0,
        (line.origin == '+' || line.origin == '-') && vstd::utf8::valid_utf8(line.content@)
            ==> hunk_line(line) == seq![line.origin] + text::trim_end(
            vstd::utf8::decode_utf8(line.content@),
        ) + "\n"@,
    decreases b.len(),
{
    let none = Seq::<DiffLine>::empty();
    assert(seq![line].drop_last() =~= none);
    assert(hunk_lines(none) =~= Seq::<char>::empty());
    assert(hunk_lines(seq![line]) =~= hunk_line(line));
    if b.len() == 0 {
        assert(a + b =~= a);
        assert(hunk_lines(a) + hunk_lines(b) =~= hunk_lines(a));
    } else {
        diffs_show_their_lines(a, b.drop_last(), line);
        assert((a + b).drop_last() =~= a + b.drop_last());
        assert(hunk_lines(a + b) =~= hunk_lines(a) + hunk_lines(b));
    }
}

} // verus!
