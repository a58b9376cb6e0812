//! Copies of files before they are changed, and the way back.
use vstd::prelude::*;
use crate::config;
use crate::number;
use crate::text;

verus! {

/// A copy of a file.
pub struct SnapshotEntry {
    pub file_path: String,
    pub backup_path: String,
    pub timestamp: String,
}

/// The contents of a `SnapshotEntry`.
pub struct EntryView {
    pub file_path: Seq<char>,
    pub backup_path: Seq<char>,
    pub timestamp: Seq<char>,
}

impl DeepView for SnapshotEntry {
    type V = EntryView;

    open spec fn deep_view(&self) -> EntryView {
        EntryView {
            file_path: self.file_path@,
            backup_path: self.backup_path@,
            timestamp: self.timestamp@,
        }
    }
}

impl Clone for SnapshotEntry {
    fn clone(&self) -> (r: Self)
        ensures
            r.deep_view() == self.deep_view(),
    {
        SnapshotEntry {
            file_path: self.file_path.clone(),
            backup_path: self.backup_path.clone(),
            timestamp: self.timestamp.clone(),
        }
    }
}

/// A copy of a file, with whether the file can be brought back.
pub struct SnapshotInfo {
    pub file_path: String,
    pub backup_path: String,
    pub timestamp: String,
    pub can_undo: bool,
}

/// The copies made in a session, the oldest first, and the directory that they
/// lie in.
pub struct SnapshotManager {
    pub snap_dir: String,
    pub index: Vec<SnapshotEntry>,
}

/// `id` with an underscore for each character that is no letter or number.
pub open spec fn safe_id(id: Seq<char>) -> Seq<char> {
    Seq::new(
        id.len(),
        |i: int|
            if text::is_alphanumeric(id[i]) {
                id[i]
            } else {
                '_'
            },
    )
}

/// `path` with an underscore for each slash and white space.
pub open spec fn safe_name(path: Seq<char>) -> Seq<char> {
    Seq::new(
        path.len(),
        |i: int|
            if path[i] == '/' || text::is_white(path[i]) {
                '_'
            } else {
                path[i]
            },
    )
}

pub fn sanitize_id(id: &str) -> (r: String)
    ensures
        r@ == safe_id(id@),
        vstd::utf8::is_ascii_chars(id@) ==> forall|i: int|
            0 <= i < r@.len() ==> ('a' <= #[trigger] r@[i] <= 'z' || 'A' <= r@[i] <= 'Z' || '0' <= r@[i]
                <= '9' || r@[i] == '_'),
{
    let v = text::chars_of(id);
    let mut r: Vec<char> = Vec::new();
    let mut i: usize = 0;
    while i < v.len()
        invariant
            i <= v@.len(),
            v@ == id@,
            r@ =~= safe_id(id@).take(i as int),
            vstd::utf8::is_ascii_chars(id@) ==> forall|j: int|
                0 <= j < i ==> ('a' <= #[trigger] r@[j] <= 'z' || 'A' <= r@[j] <= 'Z' || '0' <= r@[j]
                    <= '9' || r@[j] == '_'),
        decreases v@.len() - i,
    {
        if v[i].is_alphanumeric() {
            r.push(v[i]);
        } else {
            r.push('_');
        }
        i = i + 1;
    }
    assert(r@ =~= safe_id(id@));
    text::text_of(&r)
}

pub fn sanitize_filename(path: &str) -> (r: String)
    ensures
        r@ == safe_name(path@),
        !r@.contains('/'),
{
    let v = text::chars_of(path);
    let mut r: Vec<char> = Vec::new();
    let mut i: usize = 0;
    while i < v.len()
        invariant
            i <= v@.len(),
            v@ == path@,
            r@ =~= safe_name(path@).take(i as int),
        decreases v@.len() - i,
    {
        if v[i] == '/' || v[i].is_whitespace() {
            r.push('_');
        } else {
            r.push(v[i]);
        }
        i = i + 1;
    }
    assert(r@ =~= safe_name(path@));
    text::text_of(&r)
}

/// The directory of a session's copies.
pub open spec fn dir_of(home: Seq<char>, session_id: Seq<char>) -> Seq<char> {
    config::within(config::within(config::data_dir(home), "snapshots"@), safe_id(session_id))
}

/// Where the newest copy of `path` stands.
pub open spec fn newest(index: Seq<EntryView>, path: Seq<char>) -> Option<int>
    decreases index.len(),
{
    if index.len() == 0 {
        None
    } else if index.last().file_path == path {
        Some(index.len() - 1)
    } else {
        newest(index.drop_last(), path)
    }
}

/// The newest copy of `path`.
pub open spec fn newest_entry(index: Seq<EntryView>, path: Seq<char>) -> Option<EntryView> {
    match newest(index, path) {
        Some(i) => Some(index[i]),
        None => None,
    }
}

/// The copies without the newest of `path`.
pub open spec fn undone(index: Seq<EntryView>, path: Seq<char>) -> Seq<EntryView> {
    match newest(index, path) {
        Some(i) => index.remove(i),
        None => index,
    }
}

proof fn lemma_newest(index: Seq<EntryView>, path: Seq<char>)
    ensures
        match newest(index, path) {
            Some(i) => 0 <= i < index.len() && index[i].file_path == path && forall|j: int|
                i < j < index.len() ==> (#[trigger] index[j]).file_path != path,
            None => forall|j: int| 0 <= j < index.len() ==> (#[trigger] index[j]).file_path != path,
        },
    decreases index.len(),
{
    if index.len() > 0 && index.last().file_path != path {
        let rest = index.drop_last();
        lemma_newest(rest, path);
        assert forall|j: int| 0 <= j < rest.len() implies #[trigger] index[j] == rest[j] by {}
    }
}

impl SnapshotManager {
    /// A session without copies.
    pub fn new(home: &str, session_id: &str) -> (r: Self)
        ensures
            r.snap_dir@ == dir_of(home@, session_id@),
            r.index.deep_view() == Seq::<EntryView>::empty(),
    {
        let a = config::config_dir(home);
        let b = config::path_within(a.as_str(), "snapshots");
        let snap_dir = config::path_within(b.as_str(), sanitize_id(session_id).as_str());
        let r = SnapshotManager { snap_dir, index: Vec::new() };
        assert(r.index.deep_view() =~= Seq::<EntryView>::empty());
        r
    }

    /// Where the copy of `path` goes that is made at `millis`.
    pub fn backup_path(&self, path: &str, millis: i64) -> (r: String)
        ensures
            r@ == config::within(
                self.snap_dir@,
                number::signed_decimal(millis as int) + "_"@ + safe_name(path@),
            ),
    {
        let name = text::cat3(
            number::i64_text(millis).as_str(),
            "_",
            sanitize_filename(path).as_str(),
        );
        config::path_within(self.snap_dir.as_str(), name.as_str())
    }

    /// Notes that a copy was made.
    pub fn snapshot(&mut self, path: &str, backup_path: &str, timestamp: &str)
        ensures
            final(self).snap_dir == old(self).snap_dir,
            final(self).index.deep_view() == old(self).index.deep_view().push(
                EntryView {
                    file_path: path@,
                    backup_path: backup_path@,
                    timestamp: timestamp@,
                },
            ),
    {
        let ghost before = self.index.deep_view();
        let entry = SnapshotEntry {
            file_path: path.to_owned(),
            backup_path: backup_path.to_owned(),
            timestamp: timestamp.to_owned(),
        };
        self.index.push(entry);
        assert(self.index.deep_view() =~= before.push(entry.deep_view()));
    }

    fn find(&self, file_path: &str) -> (r: Option<usize>)
        ensures
            match r {
                Some(i) => i < self.index@.len() && newest(self.index.deep_view(), file_path@)
                    == Some(i as int),
                None => newest(self.index.deep_view(), file_path@) is None,
            },
    {
        let ghost all = self.index.deep_view();
        let mut n: usize = self.index.len();
        assert(all.take(n as int) =~= all);
        while n > 0
            invariant
                n <= self.index@.len(),
                all == self.index.deep_view(),
                newest(all, file_path@) == newest(all.take(n as int), file_path@),
            decreases n,
        {
            let last = &self.index[n - 1];
            assert(all.take(n as int).last() == last.deep_view());
            if text::same(last.file_path.as_str(), file_path) {
                return Some(n - 1);
            }
            assert(all.take(n as int).drop_last() =~= all.take(n - 1));
            n = n - 1;
        }
        None
    }

    /// Takes out the newest copy of a file, from which the file is to be
    /// brought back. None comes where there is no copy.
    pub fn undo(&mut self, file_path: &str) -> (r: Option<SnapshotEntry>)
        ensures
            final(self).snap_dir == old(self).snap_dir,
            r.deep_view() == newest_entry(old(self).index.deep_view(), file_path@),
            final(self).index.deep_view() == undone(old(self).index.deep_view(), file_path@),
    {
        let ghost before = self.index.deep_view();
        match self.find(file_path) {
            Some(i) => {
                assert(before[i as int] == self.index@[i as int].deep_view());
                let entry = self.index.remove(i);
                assert(self.index.deep_view() =~= before.remove(i as int));
                Some(entry)
            },
            None => None,
        }
    }

    /// All copies, the oldest first.
    pub fn list_snapshots(&self) -> (r: Vec<SnapshotEntry>)
        ensures
            r.deep_view() == self.index.deep_view(),
    {
        let mut r: Vec<SnapshotEntry> = Vec::new();
        let mut i: usize = 0;
        while i < self.index.len()
            invariant
                i <= self.index@.len(),
                r@.len() == i,
                forall|j: int| 0 <= j < i ==> (#[trigger] r@[j]).deep_view() == self.index@[j].deep_view(),
            decreases self.index@.len() - i,
        {
            r.push(self.index[i].clone());
            i = i + 1;
        }
        assert(r.deep_view() =~= self.index.deep_view());
        r
    }

    /// Whether a file can be brought back.
    pub fn can_undo(&self, file_path: &str) -> (r: bool)
        ensures
            r == newest(self.index.deep_view(), file_path@) is Some,
    {
        self.find(file_path).is_some()
    }
}

// ── Laws ──

/// Undo takes back the last snapshot of a file: the copy that was just made
/// comes out, and the others are as they were before it.
pub proof fn undo_reverts_snapshot(index: Seq<EntryView>, entry: EntryView)
    ensures
        newest_entry(index.push(entry), entry.file_path) == Some(entry),
        undone(index.push(entry), entry.file_path) == index,
{
    assert(index.push(entry).last() == entry);
    assert(index.push(entry).remove(index.len() as int) =~= index);
}

/// Undo of one file does not touch the copies of another.
pub proof fn undo_leaves_other_files(index: Seq<EntryView>, path: Seq<char>, other: Seq<char>)
    requires
        path != other,
    ensures
        newest_entry(undone(index, path), other) == newest_entry(index, other),
{
    lemma_newest(index, path);
    lemma_newest(index, other);
    let after = undone(index, path);
    lemma_newest(after, other);
    match newest(index, path) {
        None => {},
        Some(i) => {
            assert forall|j: int| 0 <= j < i implies #[trigger] after[j] == index[j] by {}
            assert forall|j: int| i <= j < after.len() implies #[trigger] after[j] == index[j + 1] by {}
            match newest(index, other) {
                Some(k) => {
                    if k < i {
                        assert(after[k] == index[k]);
                    } else {
                        assert(after[k - 1] == index[k]);
                    }
                    let m = newest(after, other).unwrap();
                    if m < i {
                        assert(index[m].file_path == other);
                    } else {
                        assert(index[m + 1].file_path == other);
                    }
                },
                None => {
                    if newest(after, other) is Some {
                        let m = newest(after, other).unwrap();
                        if m < i {
                            assert(index[m].file_path == other);
                        } else {
                            assert(index[m + 1].file_path == other);
                        }
                    }
                },
            }
        },
    }
}

/// A file can be brought back exactly where a copy of it is left.
pub proof fn undo_needs_a_copy(index: Seq<EntryView>, path: Seq<char>)
    ensures
        newest(index, path) is Some <==> exists|i: int|
            0 <= i < index.len() && (#[trigger] index[i]).file_path == path,
{
    lemma_newest(index, path);
}

/// The name of a copy stands for its file: it is as long as the path, and
/// differs from it only where the path has a slash or white space.
pub proof fn names_stand_for_files(path: Seq<char>, i: int)
    requires
        0 <= i < path.len(),
    ensures
        safe_name(path).len() == path.len(),
        path[i] != '/' && !text::is_white(path[i]) ==> safe_name(path)[i] == path[i],
        safe_name(path)[i] != '/',
        !text::is_white(safe_name(path)[i]),
        safe_id(path).len() == path.len(),
        text::is_alphanumeric(path[i]) ==> safe_id(path)[i] == path[i],
        !text::is_alphanumeric(path[i]) ==> safe_id(path)[i] == '_',
{
}

/// Copies come out in the reverse order in which they were made: after two
/// copies of a file undo gives the later one, then the earlier one.
pub proof fn undo_goes_back_in_time(index: Seq<EntryView>, first: EntryView, second: EntryView)
    requires
        first.file_path == second.file_path,
    ensures
        ({
            let both = index.push(first).push(second);
            let path = first.file_path;
            &&& newest_entry(both, path) == Some(second)
            &&& newest_entry(undone(both, path), path) == Some(first)
            &&& undone(undone(both, path), path) == index
        }),
{
    undo_reverts_snapshot(index.push(first), second);
    undo_reverts_snapshot(index, first);
}

/// The copy that comes out is one of those that were made of that file, and it
/// is the only one that goes.
pub proof fn undo_takes_one_copy(index: Seq<EntryView>, path: Seq<char>)
    ensures
        newest_entry(index, path) matches Some(e) ==> e.file_path == path && index.contains(e)
            && undone(index, path).len() == index.len() - 1,
        newest_entry(index, path) is None ==> undone(index, path) == index,
{
    lemma_newest(index, path);
    if let Some(i) = newest(index, path) {
        assert(index.contains(index[i]));
    }
}

/// The copies of a session lie under the data of the program, in a directory
/// that is named after the session.
pub proof fn sessions_have_their_directory(home: Seq<char>, session_id: Seq<char>)
    ensures
        config::data_dir(home).is_prefix_of(dir_of(home, session_id)),
        safe_id(session_id).is_suffix_of(dir_of(home, session_id)),
{
    let data = config::data_dir(home);
    let all = config::within(data, "snapshots"@);
    config::paths_have_one_slash(data, "snapshots"@);
    config::paths_have_one_slash(all, safe_id(session_id));
    let dir = dir_of(home, session_id);
    assert(all =~= dir.subrange(0, all.len() as int));
    assert(data =~= all.subrange(0, data.len() as int));
    assert(dir.subrange(0, data.len() as int) =~= data);
}

} // verus!
