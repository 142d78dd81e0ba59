//! Multi-file diff sessions: the files of a change set, each with its
//! texts, diff statistics and a navigator built on first use; and the
//! names of git revisions as shown in headers.

use crate::diff::{diff_model, well_formed, DiffEngine, DiffResult, DiffView};
use crate::foreign::{line_diff_hunks, push_str, str_is_empty};
use crate::step::{fresh_nav, nav_diff_ok, navigator_fits, DiffNavigator, NavView, StepDirection};
use crate::text::{str_equals, to_owned_string};
use vstd::prelude::*;

verus! {

/// How a file changed.
#[derive(Debug, Clone, Copy, PartialEq, Eq, Structural)]
pub enum FileStatus {
    Added,
    Modified,
    Deleted,
    Renamed,
    Untracked,
}

/// A changed file as the repository lists it.
#[derive(Debug, Clone)]
pub struct ChangedFile {
    pub path: String,
    pub old_path: Option<String>,
    pub status: FileStatus,
}

/// A file entry in a multi-file diff.
#[derive(Debug, Clone)]
pub struct FileEntry {
    pub path: String,
    pub old_path: Option<String>,
    pub display_name: String,
    pub status: FileStatus,
    pub insertions: usize,
    pub deletions: usize,
}

/// Why a multi-file diff could not be built: reading failed, or git did.
#[derive(Debug, Clone)]
pub enum MultiDiffError {
    Io(String),
    Git(String),
}

/// The message of an error: `IO error: ` or `Git error: ` before the
/// cause.
pub open spec fn error_message_spec(e: MultiDiffError) -> Seq<char> {
    match e {
        MultiDiffError::Io(m) => "IO error: "@ + m@,
        MultiDiffError::Git(m) => "Git error: "@ + m@,
    }
}

impl MultiDiffError {
    /// The error as shown (see `error_message_spec`).
    pub fn message(&self) -> (r: String)
        ensures
            r@ == error_message_spec(*self),
    {
        match self {
            MultiDiffError::Io(m) => {
                let mut r = to_owned_string("IO error: ");
                push_str(&mut r, m.as_str());
                r
            },
            MultiDiffError::Git(m) => {
                let mut r = to_owned_string("Git error: ");
                push_str(&mut r, m.as_str());
                r
            },
        }
    }
}

/// Which two sides a git session compares.
#[derive(Debug, Clone)]
pub enum GitDiffMode {
    /// HEAD against the working tree.
    Uncommitted,
    /// HEAD against the index.
    Staged,
    /// A revision against the index (`to_index`), or the index against it.
    IndexRange { from: String, to_index: bool },
    /// One revision against another.
    Range { from: String, to: String },
}

/// A text the line diff takes: shorter than `0x7fff_0000` characters.
pub open spec fn text_fits(s: Seq<char>) -> bool {
    s.len() < 0x7fff_0000
}

/// The diff of a file's two texts as a session computes it: three lines of
/// context, word-level spans.
pub open spec fn file_diff(old: Seq<char>, new: Seq<char>) -> DiffView {
    diff_model(old, new, line_diff_hunks(old, new), 3, true)
}

/// An entry with the given path, previous path and status, and the
/// statistics of the given diff; its display name is its path.
pub open spec fn entry_is(e: FileEntry, path: Seq<char>, old_path: Option<Seq<char>>, status: FileStatus, d: DiffView) -> bool {
    &&& e.path@ == path
    &&& e.display_name@ == path
    &&& (match e.old_path {
        Some(p) => old_path == Some(p@),
        None => old_path is None,
    })
    &&& e.status == status
    &&& e.insertions == d.insertions
    &&& e.deletions == d.deletions
}

/// The diff of two texts, as `file_diff` says.
fn diff_texts(old: &str, new: &str) -> (r: DiffResult)
    requires
        usize::BITS == 64,
        text_fits(old@),
        text_fits(new@),
    ensures
        r@ == file_diff(old@, new@),
        well_formed(r@),
{
    let engine = DiffEngine::new().with_word_level(true);
    engine.diff_strings(old, new)
}

/// The entry of a file with its statistics.
fn entry_for(path: String, old_path: Option<String>, status: FileStatus, old: &str, new: &str) -> (e: FileEntry)
    requires
        usize::BITS == 64,
        text_fits(old@),
        text_fits(new@),
    ensures
        entry_is(e, path@, match old_path { Some(p) => Some(p@), None => None }, status, file_diff(old@, new@)),
{
    let diff = diff_texts(old, new);
    let display_name = path.clone();
    FileEntry { path, old_path, display_name, status, insertions: diff.insertions, deletions: diff.deletions }
}

impl FileEntry {
    /// A copy of the entry.
    pub fn clone_entry(&self) -> (r: Self)
        ensures
            r == *self,
    {
        FileEntry {
            path: self.path.clone(),
            old_path: match &self.old_path {
                Some(p) => Some(p.clone()),
                None => None,
            },
            display_name: self.display_name.clone(),
            status: self.status,
            insertions: self.insertions,
            deletions: self.deletions,
        }
    }
}

/// Whether a changed file's old side has a text to read: not for an added
/// or untracked file (its old text is empty).
pub fn reads_old_side(status: FileStatus) -> (b: bool)
    ensures
        b == !(status == FileStatus::Added || status == FileStatus::Untracked),
{
    !(status == FileStatus::Added || status == FileStatus::Untracked)
}

/// Whether a changed file's new side has a text to read: not for a deleted
/// file (its new text is empty).
pub fn reads_new_side(status: FileStatus) -> (b: bool)
    ensures
        b == (status != FileStatus::Deleted),
{
    status != FileStatus::Deleted
}

/// Whether a directory walk passes over an entry: hidden names, and
/// `node_modules` and `target`.
pub open spec fn skips_dir_entry_spec(name: Seq<char>) -> bool {
    (name.len() > 0 && name[0] == '.') || name == "node_modules"@ || name == "target"@
}

/// Whether a directory walk passes over an entry (see
/// `skips_dir_entry_spec`).
pub fn skips_dir_entry(name: &str) -> (b: bool)
    ensures
        b == skips_dir_entry_spec(name@),
{
    if name.unicode_len() > 0 && name.get_char(0) == '.' {
        return true;
    }
    str_equals(name, "node_modules") || str_equals(name, "target")
}

/// A multi-file diff session.
pub struct MultiFileDiff {
    /// All files being diffed.
    pub files: Vec<FileEntry>,
    /// The selected file.
    pub selected_index: usize,
    /// Each file's navigator, built on first use.
    navigators: Vec<Option<DiffNavigator>>,
    /// The repository root (git sessions only).
    repo_root: Option<String>,
    /// What a git session compares.
    git_mode: Option<GitDiffMode>,
    /// Each file's old text.
    old_contents: Vec<String>,
    /// Each file's new text.
    new_contents: Vec<String>,
}

/// The text of an optional string.
pub open spec fn opt_text(o: Option<String>) -> Option<Seq<char>> {
    match o {
        Some(s) => Some(s@),
        None => None,
    }
}

/// A navigator slot that agrees with a file's texts: empty, or a navigator
/// that keeps its invariant over the diff of those texts.
pub open spec fn slot_ok(slot: Option<DiffNavigator>, old: Seq<char>, new: Seq<char>) -> bool {
    match slot {
        None => true,
        Some(n) => {
            &&& n.inv()
            &&& n@.diff == file_diff(old, new)
            &&& n@.old_content == old
            &&& n@.new_content == new
        },
    }
}

/// Sum of the insertions of the first `n` entries.
pub open spec fn sum_insertions(files: Seq<FileEntry>, n: int) -> int
    decreases n,
{
    if n <= 0 {
        0
    } else {
        sum_insertions(files, n - 1) + files[n - 1].insertions
    }
}

/// Sum of the deletions of the first `n` entries.
pub open spec fn sum_deletions(files: Seq<FileEntry>, n: int) -> int
    decreases n,
{
    if n <= 0 {
        0
    } else {
        sum_deletions(files, n - 1) + files[n - 1].deletions
    }
}

/// The sums only grow with `n`.
proof fn lemma_sums_grow(files: Seq<FileEntry>, m: int, n: int)
    requires
        m <= n,
    ensures
        sum_insertions(files, m) <= sum_insertions(files, n),
        sum_deletions(files, m) <= sum_deletions(files, n),
    decreases n - m,
{
    if m < n {
        lemma_sums_grow(files, m, n - 1);
    }
}

/// The sides of a git range as a header shows them: a revision range as
/// its two revisions, an index range with `STAGED` on the index's side;
/// nothing for the other sessions.
pub open spec fn range_display_spec(mode: Option<GitDiffMode>) -> Option<(Seq<char>, Seq<char>)> {
    match mode {
        Some(GitDiffMode::Range { from, to }) => Some((format_ref_spec(from@), format_ref_spec(to@))),
        Some(GitDiffMode::IndexRange { from, to_index }) => if to_index {
            Some((format_ref_spec(from@), "STAGED"@))
        } else {
            Some(("STAGED"@, format_ref_spec(from@)))
        },
        _ => None,
    }
}

/// The text of one side of a listed path: empty where the file is missing.
pub open spec fn listing_text(o: Option<String>) -> Seq<char> {
    match o {
        Some(t) => t@,
        None => Seq::empty(),
    }
}

/// The status of a listed path from where it exists.
pub open spec fn listing_status(old_exists: bool, new_exists: bool) -> FileStatus {
    if !old_exists {
        FileStatus::Added
    } else if !new_exists {
        FileStatus::Deleted
    } else {
        FileStatus::Modified
    }
}

/// The positions of the listed paths whose two texts differ, in order.
pub open spec fn listing_kept(l: Seq<(String, Option<String>, Option<String>)>) -> Seq<int>
    decreases l.len(),
{
    if l.len() == 0 {
        Seq::empty()
    } else {
        let before = listing_kept(l.drop_last());
        if listing_text(l.last().1) != listing_text(l.last().2) {
            before.push(l.len() - 1)
        } else {
            before
        }
    }
}

/// One more listed path adds its position when its texts differ.
proof fn lemma_listing_kept_step(l: Seq<(String, Option<String>, Option<String>)>, i: int)
    requires
        0 <= i < l.len(),
    ensures
        listing_kept(l.take(i + 1)) == (if listing_text(l[i].1) != listing_text(l[i].2) {
            listing_kept(l.take(i)).push(i)
        } else {
            listing_kept(l.take(i))
        }),
{
    assert(l.take(i + 1).drop_last() =~= l.take(i));
}

/// The kept positions lie within the listing.
proof fn lemma_listing_kept_bounds(l: Seq<(String, Option<String>, Option<String>)>)
    ensures
        forall|j: int| 0 <= j < listing_kept(l).len() ==> 0 <= #[trigger] listing_kept(l)[j] < l.len(),
    decreases l.len(),
{
    if l.len() > 0 {
        let before = listing_kept(l.drop_last());
        lemma_listing_kept_bounds(l.drop_last());
        assert forall|j: int| 0 <= j < listing_kept(l).len() implies 0 <= #[trigger] listing_kept(l)[j] < l.len() by {
            if j < before.len() {
                assert(listing_kept(l)[j] == before[j]);
            }
        }
    }
}

/// The selection after a move to the next file: one further when a file
/// follows, else where it was.
pub open spec fn next_selection(sel: usize, len: nat) -> usize {
    if sel + 1 < len {
        (sel + 1) as usize
    } else {
        sel
    }
}

/// The selection after a move to the previous file: one back unless on the
/// first.
pub open spec fn prev_selection(sel: usize) -> usize {
    if sel > 0 {
        (sel - 1) as usize
    } else {
        sel
    }
}

/// Moving to the next file and back returns to the same file, whenever the
/// move forward happened.
pub proof fn law_prev_file_undoes_next_file(sel: usize, len: nat)
    requires
        sel + 1 < len,
        len <= usize::MAX,
    ensures
        prev_selection(next_selection(sel, len)) == sel,
{
}

/// Switching files keeps every file's navigator, so each file's position
/// is where it was left: a session after any of the file moves has the same
/// files, texts and navigators as before.
pub proof fn law_switching_files_keeps_positions(before: MultiFileDiff, after: MultiFileDiff)
    requires
        after.same_but_selection(before),
    ensures
        after.entries() == before.entries(),
        after.root() == before.root(),
        after.mode() == before.mode(),
        forall|i: int| 0 <= i < before.entries().len() ==> #[trigger] after.slot(i) == before.slot(i) && after.old_text(i) == before.old_text(i) && after.new_text(i) == before.new_text(i),
{
}

/// Selecting a file never leaves the files: from a selection on a file,
/// both moves land on a file.
pub proof fn law_selection_stays_on_a_file(sel: usize, len: nat)
    requires
        sel < len,
    ensures
        next_selection(sel, len) < len,
        prev_selection(sel) < len,
{
}

impl MultiFileDiff {
    /// The file entries.
    pub closed spec fn entries(&self) -> Seq<FileEntry> {
        self.files@
    }

    /// The selected file.
    pub closed spec fn selected(&self) -> usize {
        self.selected_index
    }

    /// The diff of the selected file.
    pub open spec fn current_diff(&self) -> DiffView {
        file_diff(self.old_text(self.selected() as int), self.new_text(self.selected() as int))
    }

    /// Whether the selected file's diff fits a navigator.
    pub open spec fn current_fits(&self) -> bool {
        nav_diff_ok(self.current_diff())
    }

    /// The selected file's navigator as `current_navigator` hands it out:
    /// the one built before, or one at the start of the diff.
    pub open spec fn current_nav_view(&self) -> NavView {
        match self.slot(self.selected() as int) {
            Some(n) => n@,
            None => fresh_nav(self.current_diff(), self.old_text(self.selected() as int), self.new_text(self.selected() as int), false),
        }
    }

    /// Two sessions alike in all but the selection.
    pub closed spec fn same_but_selection(&self, other: Self) -> bool {
        &&& self.files == other.files
        &&& self.navigators == other.navigators
        &&& self.repo_root == other.repo_root
        &&& self.git_mode == other.git_mode
        &&& self.old_contents == other.old_contents
        &&& self.new_contents == other.new_contents
    }

    /// The old text of file `i`.
    pub closed spec fn old_text(&self, i: int) -> Seq<char> {
        self.old_contents@[i]@
    }

    /// The new text of file `i`.
    pub closed spec fn new_text(&self, i: int) -> Seq<char> {
        self.new_contents@[i]@
    }

    /// The navigator of file `i`, if built.
    pub closed spec fn slot(&self, i: int) -> Option<DiffNavigator> {
        self.navigators@[i]
    }

    /// The repository root, in a git session.
    pub closed spec fn root(&self) -> Option<Seq<char>> {
        opt_text(self.repo_root)
    }

    /// What a git session compares.
    pub closed spec fn mode(&self) -> Option<GitDiffMode> {
        self.git_mode
    }

    /// The session's invariant: one text pair and one slot per file, the
    /// selection on a file when there is one, texts the line diff takes,
    /// statistics that are those of each file's diff, and slots that agree
    /// with the texts.
    pub closed spec fn wf(&self) -> bool {
        &&& usize::BITS == 64
        &&& self.navigators@.len() == self.files@.len()
        &&& self.old_contents@.len() == self.files@.len()
        &&& self.new_contents@.len() == self.files@.len()
        &&& (self.files@.len() == 0 || self.selected_index < self.files@.len())
        &&& forall|i: int| 0 <= i < self.files@.len() ==> text_fits(#[trigger] self.old_contents@[i]@)
        &&& forall|i: int| 0 <= i < self.files@.len() ==> text_fits(#[trigger] self.new_contents@[i]@)
        &&& forall|i: int| 0 <= i < self.files@.len() ==> {
            let d = file_diff(self.old_contents@[i]@, self.new_contents@[i]@);
            &&& (#[trigger] self.files@[i]).insertions == d.insertions
            &&& self.files@[i].deletions == d.deletions
        }
        &&& forall|i: int| 0 <= i < self.files@.len() ==> slot_ok(#[trigger] self.navigators@[i], self.old_contents@[i]@, self.new_contents@[i]@)
    }

    /// A session over the given changes and their texts, with no navigator
    /// built and the first file selected.
    fn build(repo_root: Option<String>, git_mode: Option<GitDiffMode>, changes: &Vec<ChangedFile>, contents: &Vec<(String, String)>) -> (r: Self)
        requires
            usize::BITS == 64,
            changes@.len() == contents@.len(),
            forall|i: int| 0 <= i < contents@.len() ==> text_fits((#[trigger] contents@[i]).0@) && text_fits(contents@[i].1@),
        ensures
            r.wf(),
            r.files@.len() == changes@.len(),
            forall|i: int| 0 <= i < changes@.len() ==> entry_is(#[trigger] r.files@[i], changes@[i].path@, opt_text(changes@[i].old_path), changes@[i].status, file_diff(contents@[i].0@, contents@[i].1@)),
            forall|i: int| 0 <= i < changes@.len() ==> #[trigger] r.old_text(i) == contents@[i].0@ && r.new_text(i) == contents@[i].1@,
            forall|i: int| 0 <= i < changes@.len() ==> #[trigger] r.slot(i) is None,
            r.selected_index == 0,
            r.root() == opt_text(repo_root),
            r.mode() == git_mode,
    {
        let mut files: Vec<FileEntry> = Vec::new();
        let mut navigators: Vec<Option<DiffNavigator>> = Vec::new();
        let mut old_contents: Vec<String> = Vec::new();
        let mut new_contents: Vec<String> = Vec::new();
        let mut i: usize = 0;
        while i < changes.len()
            invariant
                usize::BITS == 64,
                i <= changes@.len(),
                changes@.len() == contents@.len(),
                forall|k: int| 0 <= k < contents@.len() ==> text_fits((#[trigger] contents@[k]).0@) && text_fits(contents@[k].1@),
                files@.len() == i,
                navigators@.len() == i,
                old_contents@.len() == i,
                new_contents@.len() == i,
                forall|k: int| 0 <= k < i ==> entry_is(#[trigger] files@[k], changes@[k].path@, opt_text(changes@[k].old_path), changes@[k].status, file_diff(contents@[k].0@, contents@[k].1@)),
                forall|k: int| 0 <= k < i ==> #[trigger] old_contents@[k]@ == contents@[k].0@ && new_contents@[k]@ == contents@[k].1@,
                forall|k: int| 0 <= k < i ==> #[trigger] navigators@[k] is None,
            decreases changes@.len() - i,
        {
            let change = &changes[i];
            let pair = &contents[i];
            let entry = entry_for(change.path.clone(), change.old_path.clone(), change.status, pair.0.as_str(), pair.1.as_str());
            files.push(entry);
            navigators.push(None);
            old_contents.push(pair.0.clone());
            new_contents.push(pair.1.clone());
            i = i + 1;
        }
        let r = MultiFileDiff { files, selected_index: 0, navigators, repo_root, git_mode, old_contents, new_contents };
        assert forall|k: int| 0 <= k < r.files@.len() implies text_fits(#[trigger] r.old_contents@[k]@) && text_fits(r.new_contents@[k]@) by {
            assert(old_contents@[k]@ == contents@[k].0@);
        }
        assert forall|k: int| 0 <= k < r.files@.len() implies text_fits(#[trigger] r.new_contents@[k]@) by {
            assert(old_contents@[k]@ == contents@[k].0@);
        }
        assert forall|k: int| 0 <= k < r.files@.len() implies {
            let d = file_diff(r.old_contents@[k]@, r.new_contents@[k]@);
            &&& (#[trigger] r.files@[k]).insertions == d.insertions
            &&& r.files@[k].deletions == d.deletions
        } by {
            assert(old_contents@[k]@ == contents@[k].0@);
            assert(entry_is(files@[k], changes@[k].path@, opt_text(changes@[k].old_path), changes@[k].status, file_diff(contents@[k].0@, contents@[k].1@)));
        }
        assert forall|k: int| 0 <= k < r.files@.len() implies slot_ok(#[trigger] r.navigators@[k], r.old_contents@[k]@, r.new_contents@[k]@) by {
            assert(r.navigators@[k] is None);
        }
        r
    }

    /// A session of one file pair: the new path names it, its status is
    /// `Modified`.
    pub fn from_file_pair(old_path: String, new_path: String, old_content: String, new_content: String) -> (r: Self)
        requires
            usize::BITS == 64,
            text_fits(old_content@),
            text_fits(new_content@),
        ensures
            r.wf(),
            r.entries().len() == 1,
            entry_is(r.entries()[0], new_path@, None, FileStatus::Modified, file_diff(old_content@, new_content@)),
            r.old_text(0) == old_content@,
            r.new_text(0) == new_content@,
            r.slot(0) is None,
            r.selected() == 0,
            r.root() is None,
            r.mode() is None,
    {
        let _ = old_path;
        let mut pairs: Vec<(String, String, String)> = Vec::new();
        pairs.push((new_path, old_content, new_content));
        let ghost p = pairs@;
        let r = Self::from_file_pairs(pairs);
        proof {
            assert(r.old_text(0) == p[0].1@ && r.new_text(0) == p[0].2@);
        }
        r
    }

    /// A session of several file pairs (path, old text, new text), each
    /// `Modified`, in the given order.
    pub fn from_file_pairs(pairs: Vec<(String, String, String)>) -> (r: Self)
        requires
            usize::BITS == 64,
            forall|i: int| 0 <= i < pairs@.len() ==> text_fits((#[trigger] pairs@[i]).1@) && text_fits(pairs@[i].2@),
        ensures
            r.wf(),
            r.entries().len() == pairs@.len(),
            forall|i: int| 0 <= i < pairs@.len() ==> entry_is(#[trigger] r.entries()[i], pairs@[i].0@, None, FileStatus::Modified, file_diff(pairs@[i].1@, pairs@[i].2@)),
            forall|i: int| 0 <= i < pairs@.len() ==> #[trigger] r.old_text(i) == pairs@[i].1@ && r.new_text(i) == pairs@[i].2@,
            forall|i: int| 0 <= i < pairs@.len() ==> #[trigger] r.slot(i) is None,
            r.selected() == 0,
            r.root() is None,
            r.mode() is None,
    {
        let mut changes: Vec<ChangedFile> = Vec::new();
        let mut contents: Vec<(String, String)> = Vec::new();
        let mut i: usize = 0;
        while i < pairs.len()
            invariant
                i <= pairs@.len(),
                changes@.len() == i,
                contents@.len() == i,
                forall|k: int| 0 <= k < i ==> (#[trigger] changes@[k]).path@ == pairs@[k].0@ && changes@[k].old_path is None && changes@[k].status == FileStatus::Modified,
                forall|k: int| 0 <= k < i ==> (#[trigger] contents@[k]).0@ == pairs@[k].1@ && contents@[k].1@ == pairs@[k].2@,
            decreases pairs@.len() - i,
        {
            let pair = &pairs[i];
            changes.push(ChangedFile { path: pair.0.clone(), old_path: None, status: FileStatus::Modified });
            contents.push((pair.1.clone(), pair.2.clone()));
            i = i + 1;
        }
        let r = Self::build(None, None, &changes, &contents);
        assert forall|k: int| 0 <= k < pairs@.len() implies entry_is(#[trigger] r.entries()[k], pairs@[k].0@, None, FileStatus::Modified, file_diff(pairs@[k].1@, pairs@[k].2@)) by {
            assert(changes@[k].path@ == pairs@[k].0@);
            assert(contents@[k].0@ == pairs@[k].1@);
        }
        assert forall|k: int| 0 <= k < pairs@.len() implies #[trigger] r.old_text(k) == pairs@[k].1@ && r.new_text(k) == pairs@[k].2@ by {
            assert(contents@[k].0@ == pairs@[k].1@);
        }
        r
    }

    /// A git session of uncommitted changes (HEAD against the working
    /// tree), from the listed changes and the texts read for them.
    pub fn from_git_changes(repo_root: String, changes: Vec<ChangedFile>, contents: Vec<(String, String)>) -> (r: Self)
        requires
            usize::BITS == 64,
            changes@.len() == contents@.len(),
            forall|i: int| 0 <= i < contents@.len() ==> text_fits((#[trigger] contents@[i]).0@) && text_fits(contents@[i].1@),
        ensures
            r.wf(),
            r.entries().len() == changes@.len(),
            forall|i: int| 0 <= i < changes@.len() ==> entry_is(#[trigger] r.entries()[i], changes@[i].path@, opt_text(changes@[i].old_path), changes@[i].status, file_diff(contents@[i].0@, contents@[i].1@)),
            forall|i: int| 0 <= i < changes@.len() ==> #[trigger] r.old_text(i) == contents@[i].0@ && r.new_text(i) == contents@[i].1@,
            forall|i: int| 0 <= i < changes@.len() ==> #[trigger] r.slot(i) is None,
            r.selected() == 0,
            r.root() == Some(repo_root@),
            r.mode() == Some(GitDiffMode::Uncommitted),
    {
        Self::build(Some(repo_root), Some(GitDiffMode::Uncommitted), &changes, &contents)
    }

    /// A git session of staged changes (HEAD against the index).
    pub fn from_git_staged(repo_root: String, changes: Vec<ChangedFile>, contents: Vec<(String, String)>) -> (r: Self)
        requires
            usize::BITS == 64,
            changes@.len() == contents@.len(),
            forall|i: int| 0 <= i < contents@.len() ==> text_fits((#[trigger] contents@[i]).0@) && text_fits(contents@[i].1@),
        ensures
            r.wf(),
            r.entries().len() == changes@.len(),
            forall|i: int| 0 <= i < changes@.len() ==> entry_is(#[trigger] r.entries()[i], changes@[i].path@, opt_text(changes@[i].old_path), changes@[i].status, file_diff(contents@[i].0@, contents@[i].1@)),
            forall|i: int| 0 <= i < changes@.len() ==> #[trigger] r.old_text(i) == contents@[i].0@ && r.new_text(i) == contents@[i].1@,
            forall|i: int| 0 <= i < changes@.len() ==> #[trigger] r.slot(i) is None,
            r.selected() == 0,
            r.root() == Some(repo_root@),
            r.mode() == Some(GitDiffMode::Staged),
    {
        Self::build(Some(repo_root), Some(GitDiffMode::Staged), &changes, &contents)
    }

    /// A git session of a revision against the index (`to_index`), or of
    /// the index against a revision.
    pub fn from_git_index_range(repo_root: String, changes: Vec<ChangedFile>, contents: Vec<(String, String)>, from: String, to_index: bool) -> (r: Self)
        requires
            usize::BITS == 64,
            changes@.len() == contents@.len(),
            forall|i: int| 0 <= i < contents@.len() ==> text_fits((#[trigger] contents@[i]).0@) && text_fits(contents@[i].1@),
        ensures
            r.wf(),
            r.entries().len() == changes@.len(),
            forall|i: int| 0 <= i < changes@.len() ==> entry_is(#[trigger] r.entries()[i], changes@[i].path@, opt_text(changes@[i].old_path), changes@[i].status, file_diff(contents@[i].0@, contents@[i].1@)),
            forall|i: int| 0 <= i < changes@.len() ==> #[trigger] r.old_text(i) == contents@[i].0@ && r.new_text(i) == contents@[i].1@,
            forall|i: int| 0 <= i < changes@.len() ==> #[trigger] r.slot(i) is None,
            r.selected() == 0,
            r.root() == Some(repo_root@),
            r.mode() == Some(GitDiffMode::IndexRange { from, to_index }),
    {
        Self::build(Some(repo_root), Some(GitDiffMode::IndexRange { from, to_index }), &changes, &contents)
    }

    /// A git session of one revision against another.
    pub fn from_git_range(repo_root: String, changes: Vec<ChangedFile>, contents: Vec<(String, String)>, from: String, to: String) -> (r: Self)
        requires
            usize::BITS == 64,
            changes@.len() == contents@.len(),
            forall|i: int| 0 <= i < contents@.len() ==> text_fits((#[trigger] contents@[i]).0@) && text_fits(contents@[i].1@),
        ensures
            r.wf(),
            r.entries().len() == changes@.len(),
            forall|i: int| 0 <= i < changes@.len() ==> entry_is(#[trigger] r.entries()[i], changes@[i].path@, opt_text(changes@[i].old_path), changes@[i].status, file_diff(contents@[i].0@, contents@[i].1@)),
            forall|i: int| 0 <= i < changes@.len() ==> #[trigger] r.old_text(i) == contents@[i].0@ && r.new_text(i) == contents@[i].1@,
            forall|i: int| 0 <= i < changes@.len() ==> #[trigger] r.slot(i) is None,
            r.selected() == 0,
            r.root() == Some(repo_root@),
            r.mode() == Some(GitDiffMode::Range { from, to }),
    {
        Self::build(Some(repo_root), Some(GitDiffMode::Range { from, to }), &changes, &contents)
    }

    /// The navigator of the selected file, built on first use (with full
    /// lookup tables); `None`, with nothing changed, when the file's diff
    /// is too large for a navigator. The session keeps its invariant as
    /// long as the navigator keeps its own over the same diff and texts.
    pub fn current_navigator(&mut self) -> (r: Option<&mut DiffNavigator>)
        requires
            old(self).wf(),
            old(self).entries().len() > 0,
        ensures
            old(self).current_fits() <==> r is Some,
            r is None ==> *final(self) == *old(self),
            r is Some ==> (*r.unwrap()).inv(),
            r is Some ==> (*r.unwrap())@ == old(self).current_nav_view(),
            r is Some ==> final(self).entries() == old(self).entries(),
            r is Some ==> final(self).selected() == old(self).selected(),
            r is Some ==> final(self).root() == old(self).root(),
            r is Some ==> final(self).mode() == old(self).mode(),
            r is Some ==> forall|k: int| 0 <= k < old(self).entries().len() ==> #[trigger] final(self).old_text(k) == old(self).old_text(k) && final(self).new_text(k) == old(self).new_text(k),
            r is Some ==> forall|k: int| 0 <= k < old(self).entries().len() && k != old(self).selected() ==> #[trigger] final(self).slot(k) == old(self).slot(k),
            r is Some ==> final(self).slot(old(self).selected() as int) == Some(*final(r.unwrap())),
            r is Some ==> (slot_ok(Some(*final(r.unwrap())), old(self).old_text(old(self).selected() as int), old(self).new_text(old(self).selected() as int)) ==> final(self).wf()),
    {
        let i = self.selected_index;
        proof {
            if let Some(n) = self.navigators@[i as int] {
                assert(slot_ok(self.navigators@[i as int], self.old_contents@[i as int]@, self.new_contents@[i as int]@));
                n.lemma_inv_diff();
            }
        }
        if self.navigators[i].is_none() {
            let diff = diff_texts(self.old_contents[i].as_str(), self.new_contents[i].as_str());
            if !navigator_fits(&diff) {
                return None;
            }
            let nav = DiffNavigator::new(diff, self.old_contents[i].clone(), self.new_contents[i].clone(), false);
            self.navigators.set(i, Some(nav));
        }
        proof {
            assert(slot_ok(self.navigators@[i as int], self.old_contents@[i as int]@, self.new_contents@[i as int]@));
        }
        let slot = &mut self.navigators[i];
        slot.as_mut()
    }

    /// Replaces the selected file's texts with ones read again, updates its
    /// statistics and drops its navigator (rebuilt on next use); the other
    /// files are untouched.
    pub fn refresh_current_file(&mut self, old_content: String, new_content: String)
        requires
            old(self).wf(),
            old(self).entries().len() > 0,
            text_fits(old_content@),
            text_fits(new_content@),
        ensures
            final(self).wf(),
            ({
                let i = old(self).selected() as int;
                let d = file_diff(old_content@, new_content@);
                &&& final(self).entries() == old(self).entries().update(i, FileEntry {
                    insertions: d.insertions,
                    deletions: d.deletions,
                    ..old(self).entries()[i]
                })
                &&& final(self).old_text(i) == old_content@
                &&& final(self).new_text(i) == new_content@
                &&& final(self).slot(i) is None
                &&& forall|k: int| 0 <= k < old(self).entries().len() && k != i ==> #[trigger] final(self).old_text(k) == old(self).old_text(k) && final(self).new_text(k) == old(self).new_text(k) && final(self).slot(k) == old(self).slot(k)
            }),
            final(self).selected() == old(self).selected(),
            final(self).root() == old(self).root(),
            final(self).mode() == old(self).mode(),
    {
        let i = self.selected_index;
        let diff = diff_texts(old_content.as_str(), new_content.as_str());
        let ghost d = diff@;
        let mut entry = self.files[i].clone_entry();
        entry.insertions = diff.insertions;
        entry.deletions = diff.deletions;
        self.files.set(i, entry);
        self.old_contents.set(i, old_content);
        self.new_contents.set(i, new_content);
        self.navigators.set(i, None);
        proof {
            assert(self.files@ =~= old(self).files@.update(i as int, FileEntry {
                insertions: d.insertions,
                deletions: d.deletions,
                ..old(self).files@[i as int]
            }));
            assert forall|k: int| 0 <= k < self.files@.len() implies slot_ok(#[trigger] self.navigators@[k], self.old_contents@[k]@, self.new_contents@[k]@) by {
                if k != i {
                    assert(slot_ok(old(self).navigators@[k], old(self).old_contents@[k]@, old(self).new_contents@[k]@));
                }
            }
            assert forall|k: int| 0 <= k < self.files@.len() implies text_fits(#[trigger] self.old_contents@[k]@) && text_fits(self.new_contents@[k]@) by {
                if k != i {
                    assert(text_fits(old(self).old_contents@[k]@) && text_fits(old(self).new_contents@[k]@));
                }
            }
            assert forall|k: int| 0 <= k < self.files@.len() implies text_fits(#[trigger] self.new_contents@[k]@) by {
                if k != i {
                    assert(text_fits(old(self).new_contents@[k]@));
                }
            }
            assert forall|k: int| 0 <= k < self.files@.len() implies {
                let dk = file_diff(self.old_contents@[k]@, self.new_contents@[k]@);
                &&& (#[trigger] self.files@[k]).insertions == dk.insertions
                &&& self.files@[k].deletions == dk.deletions
            } by {
                if k != i {
                    assert(old(self).files@[k] == self.files@[k]);
                }
            }
        }
    }

    /// Rebuilds a git session from a fresh listing of its changes and the
    /// texts read for them: every navigator dropped, the selection kept
    /// when it still names a file, else moved to the last file. Returns
    /// false, with nothing changed, outside a git session.
    pub fn refresh_all_from_git(&mut self, changes: Vec<ChangedFile>, contents: Vec<(String, String)>) -> (done: bool)
        requires
            old(self).wf(),
            changes@.len() == contents@.len(),
            forall|i: int| 0 <= i < contents@.len() ==> text_fits((#[trigger] contents@[i]).0@) && text_fits(contents@[i].1@),
        ensures
            done == (old(self).root() is Some && old(self).mode() is Some),
            !done ==> *final(self) == *old(self),
            final(self).wf(),
            done ==> final(self).entries().len() == changes@.len(),
            done ==> forall|i: int| 0 <= i < changes@.len() ==> entry_is(#[trigger] final(self).entries()[i], changes@[i].path@, opt_text(changes@[i].old_path), changes@[i].status, file_diff(contents@[i].0@, contents@[i].1@)),
            done ==> forall|i: int| 0 <= i < changes@.len() ==> #[trigger] final(self).old_text(i) == contents@[i].0@ && final(self).new_text(i) == contents@[i].1@,
            done ==> forall|i: int| 0 <= i < changes@.len() ==> #[trigger] final(self).slot(i) is None,
            done ==> final(self).selected() == (if old(self).selected() < changes@.len() {
                old(self).selected()
            } else if changes@.len() == 0 {
                0
            } else {
                (changes@.len() - 1) as usize
            }),
            done ==> final(self).root() == old(self).root() && final(self).mode() == old(self).mode(),
    {
        if self.repo_root.is_none() || self.git_mode.is_none() {
            return false;
        }
        let fresh = Self::build(None, None, &changes, &contents);
        let MultiFileDiff { files, navigators, old_contents, new_contents, .. } = fresh;
        self.files = files;
        self.navigators = navigators;
        self.old_contents = old_contents;
        self.new_contents = new_contents;
        if self.selected_index >= self.files.len() {
            self.selected_index = if self.files.len() == 0 {
                0
            } else {
                self.files.len() - 1
            };
        }
        proof {
            assert forall|i: int| 0 <= i < changes@.len() implies #[trigger] self.old_text(i) == contents@[i].0@ && self.new_text(i) == contents@[i].1@ by {
                assert(fresh.old_text(i) == contents@[i].0@);
            }
            assert forall|i: int| 0 <= i < changes@.len() implies #[trigger] self.slot(i) is None by {
                assert(fresh.slot(i) is None);
            }
        }
        true
    }

    /// A session of two directory trees, from their listing: each relative
    /// path (in order) with the old and the new text, `None` where the
    /// file is missing on that side. A path missing on the old side is
    /// `Added`, one missing on the new side `Deleted`, others `Modified`;
    /// paths whose two texts are equal are left out.
    pub fn from_directory_listing(listing: Vec<(String, Option<String>, Option<String>)>) -> (r: Self)
        requires
            usize::BITS == 64,
            forall|i: int| 0 <= i < listing@.len() ==> text_fits(listing_text((#[trigger] listing@[i]).1)) && text_fits(listing_text(listing@[i].2)),
        ensures
            ({
                let kept = listing_kept(listing@);
                &&& r.wf()
                &&& r.entries().len() == kept.len()
                &&& forall|j: int| 0 <= j < kept.len() ==> {
                    let e = listing@[kept[j]];
                    &&& entry_is(#[trigger] r.entries()[j], e.0@, None, listing_status(e.1 is Some, e.2 is Some), file_diff(listing_text(e.1), listing_text(e.2)))
                    &&& r.old_text(j) == listing_text(e.1)
                    &&& r.new_text(j) == listing_text(e.2)
                    &&& r.slot(j) is None
                }
                &&& r.selected() == 0
                &&& r.root() is None
                &&& r.mode() is None
            }),
    {
        let mut changes: Vec<ChangedFile> = Vec::new();
        let mut contents: Vec<(String, String)> = Vec::new();
        let mut i: usize = 0;
        while i < listing.len()
            invariant
                i <= listing@.len(),
                forall|k: int| 0 <= k < listing@.len() ==> text_fits(listing_text((#[trigger] listing@[k]).1)) && text_fits(listing_text(listing@[k].2)),
                changes@.len() == listing_kept(listing@.take(i as int)).len(),
                contents@.len() == changes@.len(),
                forall|j: int| 0 <= j < changes@.len() ==> {
                    let e = listing@[listing_kept(listing@.take(i as int))[j]];
                    &&& (#[trigger] changes@[j]).path@ == e.0@
                    &&& changes@[j].old_path is None
                    &&& changes@[j].status == listing_status(e.1 is Some, e.2 is Some)
                    &&& contents@[j].0@ == listing_text(e.1)
                    &&& contents@[j].1@ == listing_text(e.2)
                },
            decreases listing@.len() - i,
        {
            proof {
                lemma_listing_kept_step(listing@, i as int);
            }
            let entry = &listing[i];
            let old_text = match &entry.1 {
                Some(t) => t.clone(),
                None => String::new(),
            };
            let new_text = match &entry.2 {
                Some(t) => t.clone(),
                None => String::new(),
            };
            if old_text != new_text {
                let status = if entry.1.is_none() {
                    FileStatus::Added
                } else if entry.2.is_none() {
                    FileStatus::Deleted
                } else {
                    FileStatus::Modified
                };
                changes.push(ChangedFile { path: entry.0.clone(), old_path: None, status });
                contents.push((old_text, new_text));
            }
            i = i + 1;
        }
        proof {
            assert(listing@.take(listing@.len() as int) =~= listing@);
            lemma_listing_kept_bounds(listing@);
            let kept = listing_kept(listing@);
            assert forall|j: int| 0 <= j < contents@.len() implies text_fits((#[trigger] contents@[j]).0@) && text_fits(contents@[j].1@) by {
                assert(0 <= kept[j] < listing@.len());
                assert(changes@[j].path@ == listing@[kept[j]].0@);
                assert(text_fits(listing_text(listing@[kept[j]].1)) && text_fits(listing_text(listing@[kept[j]].2)));
            }
        }
        let r = Self::build(None, None, &changes, &contents);
        proof {
            let kept = listing_kept(listing@);
            assert forall|j: int| 0 <= j < kept.len() implies {
                let e = listing@[kept[j]];
                &&& entry_is(#[trigger] r.entries()[j], e.0@, None, listing_status(e.1 is Some, e.2 is Some), file_diff(listing_text(e.1), listing_text(e.2)))
                &&& r.old_text(j) == listing_text(e.1)
                &&& r.new_text(j) == listing_text(e.2)
                &&& r.slot(j) is None
            } by {
                assert(changes@[j].path@ == listing@[kept[j]].0@);
                assert(r.old_text(j) == contents@[j].0@);
                assert(r.slot(j) is None);
                assert(entry_is(r.entries()[j], changes@[j].path@, opt_text(changes@[j].old_path), changes@[j].status, file_diff(contents@[j].0@, contents@[j].1@)));
            }
        }
        r
    }

    /// The entry of the selected file, if there is one.
    pub fn current_file(&self) -> (r: Option<&FileEntry>)
        ensures
            match r {
                Some(e) => self.selected() < self.entries().len() && *e == self.entries()[self.selected() as int],
                None => self.selected() >= self.entries().len(),
            },
    {
        if self.selected_index < self.files.len() {
            Some(&self.files[self.selected_index])
        } else {
            None
        }
    }

    /// Selects the next file, if there is one after the selected one;
    /// whether it moved. Nothing else changes.
    pub fn next_file(&mut self) -> (moved: bool)
        ensures
            moved == (old(self).selected() + 1 < old(self).entries().len()),
            final(self).selected() == next_selection(old(self).selected(), old(self).entries().len()),
            final(self).same_but_selection(*old(self)),
            old(self).wf() ==> final(self).wf(),
    {
        if self.files.len() > 0 && self.selected_index < self.files.len() - 1 {
            self.selected_index = self.selected_index + 1;
            true
        } else {
            false
        }
    }

    /// Selects the previous file, if the selected one is not the first;
    /// whether it moved. Nothing else changes.
    pub fn prev_file(&mut self) -> (moved: bool)
        ensures
            moved == (old(self).selected() > 0),
            final(self).selected() == prev_selection(old(self).selected()),
            final(self).same_but_selection(*old(self)),
            old(self).wf() ==> final(self).wf(),
    {
        if self.selected_index > 0 {
            self.selected_index = self.selected_index - 1;
            true
        } else {
            false
        }
    }

    /// Selects the file at `index` if there is one; else nothing changes.
    pub fn select_file(&mut self, index: usize)
        ensures
            final(self).selected() == (if index < old(self).entries().len() { index } else { old(self).selected() }),
            final(self).same_but_selection(*old(self)),
            old(self).wf() ==> final(self).wf(),
    {
        if index < self.files.len() {
            self.selected_index = index;
        }
    }

    /// The number of files.
    pub fn file_count(&self) -> (n: usize)
        ensures
            n == self.entries().len(),
    {
        self.files.len()
    }

    /// The repository root, in a git session.
    pub fn repo_root(&self) -> (r: Option<&str>)
        ensures
            match r {
                Some(p) => self.root() == Some(p@),
                None => self.root() is None,
            },
    {
        match &self.repo_root {
            Some(root) => Some(root.as_str()),
            None => None,
        }
    }

    /// Whether the session was made from git changes.
    pub fn is_git_mode(&self) -> (b: bool)
        ensures
            b == self.root() is Some,
    {
        self.repo_root.is_some()
    }

    /// The two sides of a git range as shown in a header (see
    /// `range_display_spec`).
    pub fn git_range_display(&self) -> (r: Option<(String, String)>)
        ensures
            match r {
                Some(p) => range_display_spec(self.mode()) == Some((p.0@, p.1@)),
                None => range_display_spec(self.mode()) is None,
            },
    {
        proof {
            reveal_strlit("STAGED");
        }
        match &self.git_mode {
            Some(GitDiffMode::Range { from, to }) => Some((format_ref(from.as_str()), format_ref(to.as_str()))),
            Some(GitDiffMode::IndexRange { from, to_index }) => {
                let staged = to_owned_string("STAGED");
                if *to_index {
                    Some((format_ref(from.as_str()), staged))
                } else {
                    Some((staged, format_ref(from.as_str())))
                }
            },
            _ => None,
        }
    }

    /// The step direction of the selected file's navigator, `Unset` when
    /// it is not built.
    pub fn current_step_direction(&self) -> (d: StepDirection)
        requires
            self.wf(),
        ensures
            d == (if self.selected() < self.entries().len() {
                match self.slot(self.selected() as int) {
                    Some(n) => n@.state.step_direction,
                    None => StepDirection::Unset,
                }
            } else {
                StepDirection::Unset
            }),
    {
        if self.selected_index < self.navigators.len() {
            match &self.navigators[self.selected_index] {
                Some(nav) => {
                    proof {
                        assert(slot_ok(self.navigators@[self.selected_index as int], self.old_contents@[self.selected_index as int]@, self.new_contents@[self.selected_index as int]@));
                    }
                    nav.state().direction()
                },
                None => StepDirection::Unset,
            }
        } else {
            StepDirection::Unset
        }
    }

    /// Whether there is more than one file.
    pub fn is_multi_file(&self) -> (b: bool)
        ensures
            b == (self.entries().len() > 1),
    {
        self.files.len() > 1
    }

    /// The insertions and the deletions of all files, summed.
    pub fn total_stats(&self) -> (r: (usize, usize))
        requires
            sum_insertions(self.entries(), self.entries().len() as int) <= usize::MAX,
            sum_deletions(self.entries(), self.entries().len() as int) <= usize::MAX,
        ensures
            r.0 == sum_insertions(self.entries(), self.entries().len() as int),
            r.1 == sum_deletions(self.entries(), self.entries().len() as int),
    {
        let mut ins: usize = 0;
        let mut del: usize = 0;
        let mut i: usize = 0;
        while i < self.files.len()
            invariant
                i <= self.files@.len(),
                sum_insertions(self.files@, self.files@.len() as int) <= usize::MAX,
                sum_deletions(self.files@, self.files@.len() as int) <= usize::MAX,
                ins == sum_insertions(self.files@, i as int),
                del == sum_deletions(self.files@, i as int),
            decreases self.files@.len() - i,
        {
            proof {
                lemma_sums_grow(self.files@, i as int + 1, self.files@.len() as int);
            }
            ins = ins + self.files[i].insertions;
            del = del + self.files[i].deletions;
            i = i + 1;
        }
        (ins, del)
    }

    /// Whether the selected file's old text is empty (true when no file is
    /// selected).
    pub fn current_old_is_empty(&self) -> (b: bool)
        requires
            self.wf(),
        ensures
            b == (self.selected() >= self.entries().len() || self.old_text(self.selected() as int).len() == 0),
    {
        if self.selected_index < self.old_contents.len() {
            str_is_empty(self.old_contents[self.selected_index].as_str())
        } else {
            true
        }
    }

    /// Whether the selected file's new text is empty (true when no file is
    /// selected).
    pub fn current_new_is_empty(&self) -> (b: bool)
        requires
            self.wf(),
        ensures
            b == (self.selected() >= self.entries().len() || self.new_text(self.selected() as int).len() == 0),
    {
        if self.selected_index < self.new_contents.len() {
            str_is_empty(self.new_contents[self.selected_index].as_str())
        } else {
            true
        }
    }
}

/// The first seven characters of a hash (all of a shorter one).
pub open spec fn shorten_hash_spec(hash: Seq<char>) -> Seq<char> {
    if hash.len() <= 7 {
        hash
    } else {
        hash.subrange(0, 7)
    }
}

/// A hash cut to its first seven characters.
pub fn shorten_hash(hash: &str) -> (r: String)
    ensures
        r@ == shorten_hash_spec(hash@),
{
    let n = hash.unicode_len();
    let end = if n <= 7 {
        n
    } else {
        7
    };
    let r = to_owned_string(hash.substring_char(0, end));
    proof {
        if n <= 7 {
            assert(hash@.subrange(0, n as int) =~= hash@);
        }
    }
    r
}

/// A revision as shown: `HEAD` as is, `INDEX` as `STAGED`, a hash
/// shortened.
pub open spec fn format_ref_spec(reference: Seq<char>) -> Seq<char> {
    if reference == "HEAD"@ {
        "HEAD"@
    } else if reference == "INDEX"@ {
        "STAGED"@
    } else {
        shorten_hash_spec(reference)
    }
}

/// A revision as shown (see `format_ref_spec`).
pub fn format_ref(reference: &str) -> (r: String)
    ensures
        r@ == format_ref_spec(reference@),
{
    if str_equals(reference, "HEAD") {
        to_owned_string("HEAD")
    } else if str_equals(reference, "INDEX") {
        to_owned_string("STAGED")
    } else {
        shorten_hash(reference)
    }
}

} // verus!
