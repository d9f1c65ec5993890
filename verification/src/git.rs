//! Parsing of `git status --porcelain=v2 --branch` and `git log` output, and
//! the argument vectors of the git commands behind the `/git/*` routes.

use vstd::prelude::*;
use vstd::string::StringExecFns;
use crate::text::{
    chars_of, copy_range, dec, dec_string, first_index, lines, lines_of, split, split_chars, splitn, splitn_chars,
    starts_with, starts_with_chars, string_of, trim, trim_chars, views,
};

verus! {

/// Errors of the git routes.
#[derive(Debug, Clone, PartialEq, Eq)]
pub enum GitError {
    /// A git command could not run or exited with a failure status.
    CommandFailed { args: Vec<String>, status: String, stderr: String },
    /// A line of git output did not have the expected shape.
    ParseFailed { line_no: usize, line: String },
    /// `HEAD` is detached: no branch to compare with its upstream.
    DetachedHead,
    /// `git diff` failed for a path.
    DiffFailed { path: String, status: String, stderr: String },
    /// Nothing is staged.
    EmptyCommit,
    /// A path escapes the sandbox root.
    InvalidPath { path: String },
}

/// State of a changed file.
#[derive(Debug, Clone, Copy, PartialEq, Eq, Structural)]
pub enum FileState {
    Modified,
    Added,
    Deleted,
    Renamed,
    Untracked,
    Conflicted,
}

/// A changed file.
#[derive(Debug, Clone, PartialEq, Eq)]
pub struct FileEntry {
    pub path: String,
    pub state: FileState,
    pub staged: bool,
}

/// `git status` of the workspace.
#[derive(Debug, Clone, PartialEq, Eq)]
pub struct GitStatus {
    pub branch: String,
    pub files: Vec<FileEntry>,
    pub clean: bool,
}

/// A commit of `git log`.
#[derive(Debug, Clone, PartialEq, Eq)]
pub struct CommitEntry {
    pub sha: String,
    pub title: String,
    pub author: String,
    pub date: String,
}

/// Commits of the current branch that its upstream does not have.
#[derive(Debug, Clone, PartialEq, Eq)]
pub struct UnpushedStatus {
    pub branch: String,
    pub upstream: Option<String>,
    pub commits: Vec<CommitEntry>,
    pub truncated: bool,
}

/// Body of `/git/diff`.
#[derive(Debug, Clone, PartialEq, Eq)]
pub struct DiffResponse {
    pub path: String,
    pub diff: String,
}

/// Query of `/git/diff`.
#[derive(Debug, Clone, PartialEq, Eq)]
pub struct DiffParams {
    pub path: String,
    pub staged: Option<bool>,
}

/// Body of `/git/stage`.
#[derive(Debug, Clone, PartialEq, Eq)]
pub struct StageRequest {
    pub paths: Vec<String>,
}

/// Body of `/git/unstage`.
#[derive(Debug, Clone, PartialEq, Eq)]
pub struct UnstageRequest {
    pub paths: Vec<String>,
}

/// Success body of the mutating routes.
#[derive(Debug, Clone, Copy, PartialEq, Eq)]
pub struct OkResponse {
    pub ok: bool,
}

/// Body of `/git/commit`.
#[derive(Debug, Clone, PartialEq, Eq)]
pub struct CommitRequest {
    pub message: String,
}

/// Result of `/git/commit`: full sha and first line of the message.
#[derive(Debug, Clone, PartialEq, Eq)]
pub struct CommitResponse {
    pub sha: String,
    pub title: String,
}

// ── model of `git status --porcelain=v2 --branch` ───────────────────────────

/// Mathematical form of a `FileEntry`.
pub struct EntryView {
    pub path: Seq<char>,
    pub state: FileState,
    pub staged: bool,
}

/// The view of a `FileEntry`.
pub open spec fn entry_view(e: FileEntry) -> EntryView {
    EntryView { path: e.path@, state: e.state, staged: e.staged }
}

/// What a status line contributes.
pub enum LineOutcome {
    Skip,
    Branch(Seq<char>),
    Entry(EntryView),
    Bad,
}

/// One porcelain column letter: `T` (typechange) counts as modified, `C`
/// (copy) as renamed, `.` and any other letter have no state.
pub open spec fn state_of(c: char) -> Option<FileState> {
    if c == 'A' {
        Some(FileState::Added)
    } else if c == 'D' {
        Some(FileState::Deleted)
    } else if c == 'M' || c == 'T' {
        Some(FileState::Modified)
    } else if c == 'R' || c == 'C' {
        Some(FileState::Renamed)
    } else if c == 'U' {
        Some(FileState::Conflicted)
    } else {
        None
    }
}

/// The index column `X` wins (staged) unless it is `.`, then the worktree
/// column `Y` (unstaged).
pub open spec fn entry_of_xy(xy: Seq<char>, path: Seq<char>) -> Option<EntryView> {
    if xy.len() < 2 {
        None
    } else {
        let staged = xy[0] != '.';
        let eff = if staged {
            xy[0]
        } else {
            xy[1]
        };
        match state_of(eff) {
            Some(s) => Some(EntryView { path, state: s, staged }),
            None => None,
        }
    }
}

/// `1 <XY> <sub> <mH> <mI> <mW> <hH> <hI> <path>`.
pub open spec fn ordinary_entry(rem: Seq<char>) -> Option<EntryView> {
    let f = splitn(rem, 8, ' ');
    if f.len() == 8 {
        entry_of_xy(f[0], f[7])
    } else {
        None
    }
}

/// `2 <XY> ... <Xscore> <path>\t<origPath>`: the original path is dropped.
pub open spec fn rename_entry(rem: Seq<char>) -> Option<EntryView> {
    let f = splitn(rem, 9, ' ');
    if f.len() == 9 {
        entry_of_xy(f[0], split(f[8], '\t')[0])
    } else {
        None
    }
}

/// `u <XY> ... <path>`: always conflicted and staged.
pub open spec fn unmerged_entry(rem: Seq<char>) -> Option<EntryView> {
    let f = splitn(rem, 10, ' ');
    if f.len() == 10 {
        Some(EntryView { path: f[9], state: FileState::Conflicted, staged: true })
    } else {
        None
    }
}

/// The tag of a line (text before the first space) and the rest.
pub open spec fn tag_and_rest(line: Seq<char>) -> (Seq<char>, Seq<char>) {
    let p = splitn(line, 2, ' ');
    (p[0], if p.len() > 1 { p[1] } else { Seq::<char>::empty() })
}

/// What a non-empty status line contributes.
pub open spec fn classify_line(line: Seq<char>) -> LineOutcome {
    if line.len() == 0 {
        LineOutcome::Skip
    } else if starts_with(line, "# branch.head "@) {
        LineOutcome::Branch(line.skip("# branch.head "@.len() as int))
    } else if starts_with(line, "# branch."@) {
        LineOutcome::Skip
    } else {
        let (tag, rem) = tag_and_rest(line);
        if tag == seq!['1'] {
            match ordinary_entry(rem) {
                Some(e) => LineOutcome::Entry(e),
                None => LineOutcome::Bad,
            }
        } else if tag == seq!['2'] {
            match rename_entry(rem) {
                Some(e) => LineOutcome::Entry(e),
                None => LineOutcome::Bad,
            }
        } else if tag == seq!['u'] {
            match unmerged_entry(rem) {
                Some(e) => LineOutcome::Entry(e),
                None => LineOutcome::Bad,
            }
        } else if tag == seq!['?'] {
            LineOutcome::Entry(EntryView { path: rem, state: FileState::Untracked, staged: false })
        } else if tag == seq!['!'] {
            LineOutcome::Skip
        } else {
            LineOutcome::Bad
        }
    }
}

/// No space in a field.
pub open spec fn no_space(f: Seq<char>) -> bool {
    forall|k: int| 0 <= k < f.len() ==> f[k] != ' '
}

proof fn lemma_first_space(a: Seq<char>, b: Seq<char>)
    requires
        no_space(a),
    ensures
        first_index(a + seq![' '] + b, ' ') == a.len(),
    decreases a.len(),
{
    let s = a + seq![' '] + b;
    if a.len() > 0 {
        assert(s[0] == a[0]);
        assert(s.drop_first() =~= a.drop_first() + seq![' '] + b);
        lemma_first_space(a.drop_first(), b);
    } else {
        assert(s[0] == ' ');
    }
}

proof fn lemma_splitn_field(a: Seq<char>, b: Seq<char>, n: nat)
    requires
        no_space(a),
        n >= 2,
    ensures
        splitn(a + seq![' '] + b, n, ' ') == seq![a] + splitn(b, (n - 1) as nat, ' '),
{
    let s = a + seq![' '] + b;
    lemma_first_space(a, b);
    assert(s.take(a.len() as int) =~= a);
    assert(s.skip(a.len() as int + 1) =~= b);
}

/// A well-formed ordinary (`1`) line gives the entry of its path, the text
/// after its eighth field separator kept whole, spaces included: whatever
/// the first seven fields (without spaces) and the path, the line is an
/// entry for exactly that path or a bad line, and `.M` (unstaged
/// modification), `M.`-like (staged modification) and `A` (staged addition)
/// lines are entries for it.
pub proof fn lemma_ordinary_line_path(
    xy: Seq<char>,
    sub: Seq<char>,
    mh: Seq<char>,
    mi: Seq<char>,
    mw: Seq<char>,
    hh: Seq<char>,
    hi: Seq<char>,
    path: Seq<char>,
)
    requires
        no_space(xy),
        no_space(sub),
        no_space(mh),
        no_space(mi),
        no_space(mw),
        no_space(hh),
        no_space(hi),
    ensures
        ({
            let sp = seq![' '];
            let line = seq!['1'] + sp + xy + sp + sub + sp + mh + sp + mi + sp + mw + sp + hh + sp + hi + sp + path;
            &&& (classify_line(line) is Entry || classify_line(line) is Bad)
            &&& (classify_line(line) matches LineOutcome::Entry(e) ==> e.path == path)
            &&& (xy.len() == 2 && xy[0] == '.' && xy[1] == 'M' ==> classify_line(line) == LineOutcome::Entry(
                EntryView { path, state: FileState::Modified, staged: false },
            ))
            &&& (xy.len() == 2 && xy[0] == 'M' ==> classify_line(line) == LineOutcome::Entry(
                EntryView { path, state: FileState::Modified, staged: true },
            ))
            &&& (xy.len() == 2 && xy[0] == 'A' ==> classify_line(line) == LineOutcome::Entry(
                EntryView { path, state: FileState::Added, staged: true },
            ))
        }),
{
    let sp = seq![' '];
    let line = seq!['1'] + sp + xy + sp + sub + sp + mh + sp + mi + sp + mw + sp + hh + sp + hi + sp + path;
    let r7 = hi + sp + path;
    let r6 = hh + sp + r7;
    let r5 = mw + sp + r6;
    let r4 = mi + sp + r5;
    let r3 = mh + sp + r4;
    let r2 = sub + sp + r3;
    let rem = xy + sp + r2;
    assert(line =~= seq!['1'] + sp + rem);
    lemma_splitn_field(seq!['1'], rem, 2);
    assert(splitn(rem, 1, ' ') == seq![rem]);
    lemma_splitn_field(xy, r2, 8);
    lemma_splitn_field(sub, r3, 7);
    lemma_splitn_field(mh, r4, 6);
    lemma_splitn_field(mi, r5, 5);
    lemma_splitn_field(mw, r6, 4);
    lemma_splitn_field(hh, r7, 3);
    lemma_splitn_field(hi, path, 2);
    assert(splitn(path, 1, ' ') == seq![path]);
    let f = splitn(rem, 8, ' ');
    assert(f =~= seq![xy, sub, mh, mi, mw, hh, hi, path]);
    assert(tag_and_rest(line) == (seq!['1'], rem));
    reveal_strlit("# branch.head ");
    reveal_strlit("# branch.");
    assert(line[0] == '1');
    assert(!starts_with(line, "# branch.head "@)) by {
        if starts_with(line, "# branch.head "@) {
            assert(line.take(14)[0] == line[0]);
        }
    }
    assert(!starts_with(line, "# branch."@)) by {
        if starts_with(line, "# branch."@) {
            assert(line.take(9)[0] == line[0]);
        }
    }
}

/// State after the first `k` lines: the last branch header seen and the
/// entries, or the 1-based number and text of the first bad line.
pub open spec fn status_after(ls: Seq<Seq<char>>, k: nat) -> Result<
    (Option<Seq<char>>, Seq<EntryView>),
    (nat, Seq<char>),
>
    decreases k,
{
    if k == 0 || k > ls.len() {
        Ok((None, Seq::empty()))
    } else {
        match status_after(ls, (k - 1) as nat) {
            Err(e) => Err(e),
            Ok((b, fs)) => match classify_line(ls[k - 1]) {
                LineOutcome::Skip => Ok((b, fs)),
                LineOutcome::Branch(r) => Ok((Some(r), fs)),
                LineOutcome::Entry(e) => Ok((b, fs.push(e))),
                LineOutcome::Bad => Err((k, ls[k - 1])),
            },
        }
    }
}

/// Once a line fails, the later lines change nothing.
pub proof fn lemma_status_err_persists(ls: Seq<Seq<char>>, k: nat, m: nat)
    requires
        status_after(ls, k) is Err,
        0 < k <= m <= ls.len(),
    ensures
        status_after(ls, m) == status_after(ls, k),
    decreases m,
{
    if m > k {
        lemma_status_err_persists(ls, k, (m - 1) as nat);
    }
}

/// How many of the first `k` lines are entry lines.
pub open spec fn entry_line_count(ls: Seq<Seq<char>>, k: nat) -> nat
    decreases k,
{
    if k == 0 || k > ls.len() {
        0
    } else {
        entry_line_count(ls, (k - 1) as nat) + if classify_line(ls[k - 1]) is Entry {
            1nat
        } else {
            0nat
        }
    }
}

/// The branch named by the last `# branch.head ` line among the first `k`.
pub open spec fn last_branch_head(ls: Seq<Seq<char>>, k: nat) -> Option<Seq<char>>
    decreases k,
{
    if k == 0 || k > ls.len() {
        None
    } else {
        match classify_line(ls[k - 1]) {
            LineOutcome::Branch(r) => Some(r),
            _ => last_branch_head(ls, (k - 1) as nat),
        }
    }
}

proof fn lemma_status_after_counts(ls: Seq<Seq<char>>, k: nat)
    ensures
        status_after(ls, k) matches Ok((b, fs)) ==> b == last_branch_head(ls, k) && fs.len() == entry_line_count(ls, k),
    decreases k,
{
    if k > 0 && k <= ls.len() {
        lemma_status_after_counts(ls, (k - 1) as nat);
    }
}

/// Only lines tagged `1`, `2`, `u` or `?` are entry lines.
pub proof fn lemma_entry_tags(line: Seq<char>)
    ensures
        classify_line(line) is Entry ==> ({
            let tag = tag_and_rest(line).0;
            tag == seq!['1'] || tag == seq!['2'] || tag == seq!['u'] || tag == seq!['?']
        }),
{
}

/// A parsed status holds one entry per entry line (lines tagged `1`, `2`,
/// `u` or `?`), and its branch is the one of the last `# branch.head ` line.
pub proof fn lemma_status_one_entry_per_line(out: Seq<char>)
    ensures
        parse_status_spec(out) matches Ok((b, fs)) ==> fs.len() == entry_line_count(lines(out), lines(out).len())
            && Some(b) == last_branch_head(lines(out), lines(out).len()),
{
    lemma_status_after_counts(lines(out), lines(out).len());
}

/// A line tagged `1`, `2`, `u` or `?` (its text before the first space).
pub open spec fn entry_tagged(line: Seq<char>) -> bool {
    let tag = tag_and_rest(line).0;
    tag == seq!['1'] || tag == seq!['2'] || tag == seq!['u'] || tag == seq!['?']
}

/// How many of the first `k` lines are tagged `1`, `2`, `u` or `?`.
pub open spec fn tagged_line_count(ls: Seq<Seq<char>>, k: nat) -> nat
    decreases k,
{
    if k == 0 || k > ls.len() {
        0
    } else {
        tagged_line_count(ls, (k - 1) as nat) + if entry_tagged(ls[k - 1]) {
            1nat
        } else {
            0nat
        }
    }
}

/// A tagged line is an entry line, unless it is malformed.
proof fn lemma_tagged_is_entry(line: Seq<char>)
    ensures
        entry_tagged(line) ==> classify_line(line) is Entry || classify_line(line) is Bad,
        classify_line(line) is Entry ==> entry_tagged(line),
{
    if entry_tagged(line) {
        let i = first_index(line, ' ');
        let tag = tag_and_rest(line).0;
        assert(tag == line.take(i as int) || tag == line);
        assert(line.len() >= 1 && line[0] == tag[0]);
        reveal_strlit("# branch.head ");
        reveal_strlit("# branch.");
        assert(line[0] != '#');
        if starts_with(line, "# branch.head "@) {
            assert(line.take(14)[0] == '#');
        }
        if starts_with(line, "# branch."@) {
            assert(line.take(9)[0] == '#');
        }
    }
}

proof fn lemma_status_after_tagged(ls: Seq<Seq<char>>, k: nat)
    ensures
        status_after(ls, k) is Ok ==> entry_line_count(ls, k) == tagged_line_count(ls, k),
    decreases k,
{
    if k > 0 && k <= ls.len() {
        lemma_status_after_tagged(ls, (k - 1) as nat);
        lemma_tagged_is_entry(ls[k - 1]);
    }
}

/// A parsed status holds exactly one entry per line tagged `1`, `2`, `u` or
/// `?` (none for `!` lines, branch headers or blank lines).
pub proof fn lemma_status_entries_are_tagged_lines(out: Seq<char>)
    ensures
        parse_status_spec(out) matches Ok((b, fs)) ==> fs.len() == tagged_line_count(lines(out), lines(out).len()),
{
    lemma_status_after_counts(lines(out), lines(out).len());
    lemma_status_after_tagged(lines(out), lines(out).len());
}

/// Text of the error raised when no branch header was seen.
pub open spec fn missing_head_text() -> Seq<char> {
    "missing '# branch.head' header in git status output"@
}

/// `parse_status` as a function of the output text: `Ok((branch, entries))`
/// or `Err((line_no, line))` for a `ParseFailed` error.
pub open spec fn parse_status_spec(out: Seq<char>) -> Result<
    (Seq<char>, Seq<EntryView>),
    (nat, Seq<char>),
> {
    let ls = lines(out);
    match status_after(ls, ls.len()) {
        Err(e) => Err(e),
        Ok((None, _)) => Err((0, missing_head_text())),
        Ok((Some(b), fs)) => Ok((b, fs)),
    }
}

/// Porcelain letter to state.
fn map_state_char(c: char) -> (r: Option<FileState>)
    ensures
        r == state_of(c),
{
    match c {
        'A' => Some(FileState::Added),
        'D' => Some(FileState::Deleted),
        'M' | 'T' => Some(FileState::Modified),
        'R' | 'C' => Some(FileState::Renamed),
        'U' => Some(FileState::Conflicted),
        _ => None,
    }
}

/// `FileEntry` from the `XY` field and a path.
fn entry_from_xy(xy: &[char], path: &[char]) -> (r: Option<FileEntry>)
    ensures
        match entry_of_xy(xy@, path@) {
            Some(e) => r is Some && entry_view(r->0) == e,
            None => r is None,
        },
{
    if xy.len() < 2 {
        return None;
    }
    let x = xy[0];
    let y = xy[1];
    let (effective, staged) = if x != '.' {
        (x, true)
    } else {
        (y, false)
    };
    match map_state_char(effective) {
        Some(state) => Some(FileEntry { path: string_of(path), state, staged }),
        None => None,
    }
}

/// Ordinary changed-entry line (type `1`, tag already removed).
fn parse_ordinary(remainder: &[char]) -> (r: Option<FileEntry>)
    ensures
        match ordinary_entry(remainder@) {
            Some(e) => r is Some && entry_view(r->0) == e,
            None => r is None,
        },
{
    let fields = splitn_chars(remainder, 8, ' ');
    if fields.len() != 8 {
        return None;
    }
    proof {
        assert(views(fields@)[0] == fields@[0]@);
        assert(views(fields@)[7] == fields@[7]@);
    }
    entry_from_xy(fields[0].as_slice(), fields[7].as_slice())
}

/// Rename or copy line (type `2`, tag already removed).
fn parse_rename(remainder: &[char]) -> (r: Option<FileEntry>)
    ensures
        match rename_entry(remainder@) {
            Some(e) => r is Some && entry_view(r->0) == e,
            None => r is None,
        },
{
    let fields = splitn_chars(remainder, 9, ' ');
    if fields.len() != 9 {
        return None;
    }
    let parts = split_chars(fields[8].as_slice(), '\t');
    proof {
        assert(views(fields@)[0] == fields@[0]@);
        assert(views(fields@)[8] == fields@[8]@);
        assert(split(fields@[8]@, '\t').len() >= 1);
        assert(views(parts@)[0] == parts@[0]@);
    }
    entry_from_xy(fields[0].as_slice(), parts[0].as_slice())
}

/// Unmerged line (type `u`, tag already removed): conflicted and staged.
fn parse_unmerged(remainder: &[char]) -> (r: Option<FileEntry>)
    ensures
        match unmerged_entry(remainder@) {
            Some(e) => r is Some && entry_view(r->0) == e,
            None => r is None,
        },
{
    let fields = splitn_chars(remainder, 10, ' ');
    if fields.len() != 10 {
        return None;
    }
    proof {
        assert(views(fields@)[9] == fields@[9]@);
    }
    Some(FileEntry { path: string_of(fields[9].as_slice()), state: FileState::Conflicted, staged: true })
}

/// Executable form of `LineOutcome`.
enum LineClass {
    Skip,
    Branch(Vec<char>),
    Entry(FileEntry),
    Bad,
}

/// `true` when the exec outcome matches the spec outcome.
spec fn class_matches(c: LineClass, o: LineOutcome) -> bool {
    match (c, o) {
        (LineClass::Skip, LineOutcome::Skip) => true,
        (LineClass::Branch(b), LineOutcome::Branch(s)) => b@ == s,
        (LineClass::Entry(e), LineOutcome::Entry(s)) => entry_view(e) == s,
        (LineClass::Bad, LineOutcome::Bad) => true,
        _ => false,
    }
}

/// Lifts an entry parser result to a line class.
fn entry_class(r: Option<FileEntry>) -> (c: LineClass)
    ensures
        match r {
            Some(e) => c == LineClass::Entry(e),
            None => c == LineClass::Bad,
        },
{
    match r {
        Some(e) => LineClass::Entry(e),
        None => LineClass::Bad,
    }
}

/// What one line of status output contributes.
fn classify(line: &[char]) -> (c: LineClass)
    ensures
        class_matches(c, classify_line(line@)),
{
    if line.len() == 0 {
        return LineClass::Skip;
    }
    let head = chars_of("# branch.head ");
    if starts_with_chars(line, head.as_slice()) {
        return LineClass::Branch(copy_range(line, head.len(), line.len()));
    }
    let other = chars_of("# branch.");
    if starts_with_chars(line, other.as_slice()) {
        return LineClass::Skip;
    }
    let parts = splitn_chars(line, 2, ' ');
    proof {
        assert(splitn(line@, 2, ' ').len() >= 1);
        assert(views(parts@)[0] == parts@[0]@);
        if parts@.len() > 1 {
            assert(views(parts@)[1] == parts@[1]@);
        }
    }
    let rem: Vec<char> = if parts.len() > 1 {
        copy_range(parts[1].as_slice(), 0, parts[1].len())
    } else {
        Vec::new()
    };
    assert(parts@.len() > 1 ==> rem@ == parts@[1]@.subrange(0, parts@[1]@.len() as int));
    assert(parts@.len() > 1 ==> rem@ == parts@[1]@);
    let ghost (tag_s, rem_s) = tag_and_rest(line@);
    assert(rem@ == rem_s);
    let tag = &parts[0];
    if tag.len() == 1 && tag[0] == '1' {
        assert(tag_s == seq!['1']);
        entry_class(parse_ordinary(rem.as_slice()))
    } else if tag.len() == 1 && tag[0] == '2' {
        assert(tag_s == seq!['2']);
        entry_class(parse_rename(rem.as_slice()))
    } else if tag.len() == 1 && tag[0] == 'u' {
        assert(tag_s == seq!['u']);
        entry_class(parse_unmerged(rem.as_slice()))
    } else if tag.len() == 1 && tag[0] == '?' {
        assert(tag_s == seq!['?']);
        LineClass::Entry(
            FileEntry { path: string_of(rem.as_slice()), state: FileState::Untracked, staged: false },
        )
    } else if tag.len() == 1 && tag[0] == '!' {
        assert(tag_s == seq!['!']);
        LineClass::Skip
    } else {
        assert(tag_s != seq!['1'] && tag_s != seq!['2'] && tag_s != seq!['u'] && tag_s != seq![
            '?',
        ] && tag_s != seq!['!']) by {
            if tag_s.len() == 1 {
                assert(tag_s[0] == tag@[0]);
            }
        }
        LineClass::Bad
    }
}

/// The views of a vector of entries.
pub open spec fn entries_view(v: Seq<FileEntry>) -> Seq<EntryView> {
    v.map_values(|e: FileEntry| entry_view(e))
}

/// Parses the output of `git status --porcelain=v2 --branch`: the last
/// `# branch.head` header gives the branch, other `# branch.*` headers, empty
/// lines and ignored (`!`) entries are skipped, any other unknown or malformed
/// line fails with its 1-based number, and a missing branch header fails with
/// line number 0.
pub fn parse_status(output: &str) -> (r: Result<GitStatus, GitError>)
    ensures
        match parse_status_spec(output@) {
            Ok((b, fs)) => r matches Ok(st) && st.branch@ == b && entries_view(st.files@) == fs
                && st.clean == (fs.len() == 0),
            Err((n, l)) => r matches Err(GitError::ParseFailed { line_no, line }) && line_no
                == n && line@ == l,
        },
{
    let chars = chars_of(output);
    let ls = lines_of(chars.as_slice());
    let ghost lv = views(ls@);
    let mut branch: Option<Vec<char>> = None;
    let mut files: Vec<FileEntry> = Vec::new();
    let mut idx: usize = 0;
    assert(entries_view(files@) =~= Seq::<EntryView>::empty());
    while idx < ls.len()
        invariant
            lv == views(ls@),
            lv == lines(output@),
            idx <= ls@.len(),
            status_after(lv, idx as nat) == Ok::<
                (Option<Seq<char>>, Seq<EntryView>),
                (nat, Seq<char>),
            >((
                match branch {
                    Some(b) => Some(b@),
                    None => None,
                },
                entries_view(files@),
            )),
        decreases ls.len() - idx,
    {
        assert(lv[idx as int] == ls@[idx as int]@);
        let c = classify(ls[idx].as_slice());
        match c {
            LineClass::Skip => {},
            LineClass::Branch(b) => {
                branch = Some(b);
            },
            LineClass::Entry(e) => {
                let ghost old_files = files@;
                files.push(e);
                assert(entries_view(files@) =~= entries_view(old_files).push(entry_view(e)));
            },
            LineClass::Bad => {
                let line = string_of(ls[idx].as_slice());
                proof {
                    lemma_status_err_persists(lv, (idx + 1) as nat, lv.len());
                }
                return Err(GitError::ParseFailed { line_no: idx + 1, line });
            },
        }
        idx = idx + 1;
    }
    match branch {
        None => Err(GitError::ParseFailed {
            line_no: 0,
            line: String::from_str("missing '# branch.head' header in git status output"),
        }),
        Some(b) => {
            let clean = files.len() == 0;
            Ok(GitStatus { branch: string_of(b.as_slice()), files, clean })
        },
    }
}


// ── `git log` output ────────────────────────────────────────────────────────

/// Mathematical form of a `CommitEntry`.
pub struct CommitView {
    pub sha: Seq<char>,
    pub title: Seq<char>,
    pub author: Seq<char>,
    pub date: Seq<char>,
}

/// The view of a `CommitEntry`.
pub open spec fn commit_view(c: CommitEntry) -> CommitView {
    CommitView { sha: c.sha@, title: c.title@, author: c.author@, date: c.date@ }
}

/// The views of a vector of commits.
pub open spec fn commits_view(v: Seq<CommitEntry>) -> Seq<CommitView> {
    v.map_values(|c: CommitEntry| commit_view(c))
}

/// The field separator of the log format (`%x1f`).
pub open spec fn unit_sep() -> char {
    '\u{1f}'
}

/// The first `n` characters (all of them when fewer).
pub open spec fn take_at_most(s: Seq<char>, n: nat) -> Seq<char> {
    if s.len() <= n {
        s
    } else {
        s.take(n as int)
    }
}

/// Commits after the first `k` lines, or the 1-based number and text of the
/// first malformed line (not four separated fields).
pub open spec fn commits_after(ls: Seq<Seq<char>>, k: nat) -> Result<Seq<CommitView>, (nat, Seq<char>)>
    decreases k,
{
    if k == 0 || k > ls.len() {
        Ok(Seq::empty())
    } else {
        match commits_after(ls, (k - 1) as nat) {
            Err(e) => Err(e),
            Ok(cs) => {
                let line = ls[k - 1];
                let f = split(line, unit_sep());
                if line.len() == 0 {
                    Ok(cs)
                } else if f.len() == 4 {
                    Ok(
                        cs.push(
                            CommitView {
                                sha: take_at_most(f[0], 7),
                                title: f[1],
                                author: f[2],
                                date: f[3],
                            },
                        ),
                    )
                } else {
                    Err((k, line))
                }
            },
        }
    }
}

/// Once a line fails, the later lines change nothing.
pub proof fn lemma_commits_err_persists(ls: Seq<Seq<char>>, k: nat, m: nat)
    requires
        commits_after(ls, k) is Err,
        0 < k <= m <= ls.len(),
    ensures
        commits_after(ls, m) == commits_after(ls, k),
    decreases m,
{
    if m > k {
        lemma_commits_err_persists(ls, k, (m - 1) as nat);
    }
}

/// Parses `git log --pretty=format:%H%x1f%s%x1f%an%x1f%aI`: one commit per
/// non-empty line, sha cut to 7 characters; a line without exactly four
/// fields fails with its 1-based number.
pub fn parse_commits(output: &str) -> (r: Result<Vec<CommitEntry>, GitError>)
    ensures
        ({
            let ls = lines(output@);
            match commits_after(ls, ls.len()) {
                Ok(cs) => r matches Ok(v) && commits_view(v@) == cs,
                Err((n, l)) => r matches Err(GitError::ParseFailed { line_no, line }) && line_no
                    == n && line@ == l,
            }
        }),
{
    let chars = chars_of(output);
    let ls = lines_of(chars.as_slice());
    let ghost lv = views(ls@);
    let mut commits: Vec<CommitEntry> = Vec::new();
    let mut idx: usize = 0;
    assert(commits_view(commits@) =~= Seq::<CommitView>::empty());
    while idx < ls.len()
        invariant
            lv == views(ls@),
            lv == lines(output@),
            idx <= ls@.len(),
            commits_after(lv, idx as nat) == Ok::<Seq<CommitView>, (nat, Seq<char>)>(
                commits_view(commits@),
            ),
        decreases ls.len() - idx,
    {
        assert(lv[idx as int] == ls@[idx as int]@);
        let line = ls[idx].as_slice();
        if line.len() != 0 {
            let fields = split_chars(line, '\u{1f}');
            if fields.len() == 4 {
                proof {
                    assert(views(fields@)[0] == fields@[0]@);
                    assert(views(fields@)[1] == fields@[1]@);
                    assert(views(fields@)[2] == fields@[2]@);
                    assert(views(fields@)[3] == fields@[3]@);
                }
                let n = if fields[0].len() <= 7 {
                    fields[0].len()
                } else {
                    7
                };
                let sha = copy_range(fields[0].as_slice(), 0, n);
                assert(sha@ == take_at_most(fields@[0]@, 7));
                let entry = CommitEntry {
                    sha: string_of(sha.as_slice()),
                    title: string_of(fields[1].as_slice()),
                    author: string_of(fields[2].as_slice()),
                    date: string_of(fields[3].as_slice()),
                };
                let ghost old_c = commits@;
                commits.push(entry);
                assert(commits_view(commits@) =~= commits_view(old_c).push(commit_view(entry)));
            } else {
                proof {
                    lemma_commits_err_persists(lv, (idx + 1) as nat, lv.len());
                }
                return Err(GitError::ParseFailed { line_no: idx + 1, line: string_of(line) });
            }
        }
        idx = idx + 1;
    }
    Ok(commits)
}

/// At most this many unpushed commits are listed.
pub const UNPUSHED_MAX_COMMITS: usize = 200;

/// Assembles `/git/unpushed` from a log of at most `UNPUSHED_MAX_COMMITS + 1`
/// commits: the list is cut to the limit and `truncated` says whether
/// anything was cut.
pub fn unpushed_status(branch: String, upstream: Option<String>, commits: Vec<CommitEntry>) -> (r:
    UnpushedStatus)
    ensures
        r.branch == branch,
        r.upstream == upstream,
        r.truncated == (commits@.len() > UNPUSHED_MAX_COMMITS),
        r.commits@ == if commits@.len() > UNPUSHED_MAX_COMMITS {
            commits@.take(UNPUSHED_MAX_COMMITS as int)
        } else {
            commits@
        },
{
    let mut commits = commits;
    let truncated = commits.len() > UNPUSHED_MAX_COMMITS;
    commits.truncate(UNPUSHED_MAX_COMMITS);
    UnpushedStatus { branch, upstream, commits, truncated }
}

/// The branch name `HEAD` means a detached head.
pub fn check_not_detached(branch: &str) -> (r: Result<(), GitError>)
    ensures
        r is Err <==> branch@ == seq!['H', 'E', 'A', 'D'],
        r is Err ==> r == Err::<(), GitError>(GitError::DetachedHead),
{
    let v = chars_of(branch);
    if v.len() == 4 && v[0] == 'H' && v[1] == 'E' && v[2] == 'A' && v[3] == 'D' {
        assert(branch@ == seq!['H', 'E', 'A', 'D']);
        Err(GitError::DetachedHead)
    } else {
        Ok(())
    }
}

/// The default branch: the trimmed output of `symbolic-ref --short HEAD`, or
/// `main` when that command failed.
pub fn default_branch_from(symbolic_ref_output: Option<&str>) -> (r: String)
    ensures
        r@ == match symbolic_ref_output {
            Some(out) => trim(out@),
            None => "main"@,
        },
{
    match symbolic_ref_output {
        Some(out) => {
            let v = chars_of(out);
            let t = trim_chars(v.as_slice());
            string_of(t.as_slice())
        },
        None => String::from_str("main"),
    }
}

/// The reference that unpushed commits are counted against: the branch's own
/// remote branch when it exists (then also reported as the upstream), else
/// the remote default branch.
pub fn compare_target(branch: &str, origin_branch_exists: bool, default_branch: &str) -> (r: (
    Option<String>,
    String,
))
    ensures
        origin_branch_exists ==> r.0 is Some && r.0->0@ == "origin/"@ + branch@ && r.1@
            == "origin/"@ + branch@,
        !origin_branch_exists ==> r.0 is None && r.1@ == "origin/"@ + default_branch@,
{
    let mut target = chars_of("origin/");
    if origin_branch_exists {
        let b = chars_of(branch);
        crate::text::append_chars(&mut target, b.as_slice());
        (Some(string_of(target.as_slice())), string_of(target.as_slice()))
    } else {
        let d = chars_of(default_branch);
        crate::text::append_chars(&mut target, d.as_slice());
        (None, string_of(target.as_slice()))
    }
}

// ── argument vectors ────────────────────────────────────────────────────────

/// The views of a vector of strings.
pub open spec fn strs_view(v: Seq<String>) -> Seq<Seq<char>> {
    v.map_values(|s: String| s@)
}

/// Appends owned copies of `src` to `dst`.
fn push_all(dst: &mut Vec<String>, src: &[String])
    ensures
        strs_view(final(dst)@) == strs_view(old(dst)@) + strs_view(src@),
{
    let mut i: usize = 0;
    while i < src.len()
        invariant
            i <= src@.len(),
            strs_view(dst@) == strs_view(old(dst)@) + strs_view(src@.take(i as int)),
        decreases src.len() - i,
    {
        let s = string_of(chars_of(src[i].as_str()).as_slice());
        let ghost before = dst@;
        dst.push(s);
        assert(strs_view(dst@) =~= strs_view(before).push(src@[i as int]@));
        assert(strs_view(src@.take(i + 1)) =~= strs_view(src@.take(i as int)).push(
            src@[i as int]@,
        ));
        i = i + 1;
    }
    assert(src@.take(src@.len() as int) == src@);
}

/// The remote-tracking ref of `branch`: `refs/remotes/origin/<branch>`.
pub fn origin_branch_ref(branch: &str) -> (r: String)
    ensures
        r@ == "refs/remotes/origin/"@ + branch@,
{
    let mut v = chars_of("refs/remotes/origin/");
    let b = chars_of(branch);
    let mut k: usize = 0;
    let ghost start = v@;
    while k < b.len()
        invariant
            k <= b@.len(),
            v@ == start + b@.take(k as int),
        decreases b.len() - k,
    {
        v.push(b[k]);
        assert(b@.take(k + 1) == b@.take(k as int).push(b@[k as int]));
        k = k + 1;
    }
    assert(b@.take(b@.len() as int) == b@);
    string_of(v.as_slice())
}

/// The pretty format of the unpushed log: sha, title, author and date
/// separated by U+001F.
pub open spec fn unpushed_format() -> Seq<char> {
    "--pretty=format:%H\u{1f}%s\u{1f}%an\u{1f}%aI"@
}

/// `git -C <root> log <compare_ref>..HEAD --max-count=<limit + 1> --pretty=..`:
/// one commit more than is shown, to tell whether the list was cut.
pub open spec fn unpushed_log_args_spec(root: Seq<char>, compare_ref: Seq<char>) -> Seq<Seq<char>> {
    seq![
        "-C"@,
        root,
        "log"@,
        compare_ref + "..HEAD"@,
        "--max-count="@ + dec((UNPUSHED_MAX_COMMITS + 1) as nat),
        unpushed_format(),
    ]
}

/// The arguments of the unpushed log.
pub fn unpushed_log_args(root: &str, compare_ref: &str) -> (r: Vec<String>)
    ensures
        strs_view(r@) == unpushed_log_args_spec(root@, compare_ref@),
{
    let mut range = compare_ref.to_owned();
    range.append("..HEAD");
    let mut max = "--max-count=".to_owned();
    let n = dec_string((UNPUSHED_MAX_COMMITS + 1) as u64);
    max.append(n.as_str());
    let r = vec![
        "-C".to_owned(),
        root.to_owned(),
        "log".to_owned(),
        range,
        max,
        "--pretty=format:%H\u{1f}%s\u{1f}%an\u{1f}%aI".to_owned(),
    ];
    assert(strs_view(r@) =~= unpushed_log_args_spec(root@, compare_ref@));
    r
}

/// `git -C <root> commit -m <message>`.
pub fn commit_args(root: &str, message: &str) -> (r: Vec<String>)
    ensures
        strs_view(r@) == seq!["-C"@, root@, "commit"@, "-m"@, message@],
{
    let r = vec!["-C".to_owned(), root.to_owned(), "commit".to_owned(), "-m".to_owned(), message.to_owned()];
    assert(strs_view(r@) =~= seq!["-C"@, root@, "commit"@, "-m"@, message@]);
    r
}

/// `git diff [--staged] -- <path>` (without `-C`).
pub fn diff_args(path: &str, staged: bool) -> (r: Vec<String>)
    ensures
        strs_view(r@) == if staged {
            seq!["diff"@, "--staged"@, "--"@, path@]
        } else {
            seq!["diff"@, "--"@, path@]
        },
{
    let mut args: Vec<String> = Vec::new();
    args.push(String::from_str("diff"));
    if staged {
        args.push(String::from_str("--staged"));
    }
    args.push(String::from_str("--"));
    args.push(path.to_owned());
    assert(strs_view(args@) =~= if staged {
        seq!["diff"@, "--staged"@, "--"@, path@]
    } else {
        seq!["diff"@, "--"@, path@]
    });
    args
}

/// `git add -- <paths...>`.
pub fn stage_args(paths: &[String]) -> (r: Vec<String>)
    ensures
        strs_view(r@) == seq!["add"@, "--"@] + strs_view(paths@),
{
    let mut args: Vec<String> = Vec::new();
    args.push(String::from_str("add"));
    args.push(String::from_str("--"));
    assert(strs_view(args@) =~= seq!["add"@, "--"@]);
    push_all(&mut args, paths);
    args
}

/// `git restore --staged -- <paths...>`.
pub fn unstage_args(paths: &[String]) -> (r: Vec<String>)
    ensures
        strs_view(r@) == seq!["restore"@, "--staged"@, "--"@] + strs_view(paths@),
{
    let mut args: Vec<String> = Vec::new();
    args.push(String::from_str("restore"));
    args.push(String::from_str("--staged"));
    args.push(String::from_str("--"));
    assert(strs_view(args@) =~= seq!["restore"@, "--staged"@, "--"@]);
    push_all(&mut args, paths);
    args
}

/// Parses `git log -1 --pretty=format:%H%x1f%s` into `(sha, title)`: empty
/// output fails with line 0, a first line without exactly two fields fails
/// with line 1.
pub fn parse_commit_output(output: &str) -> (r: Result<(String, String), GitError>)
    ensures
        output@.len() == 0 ==> (r matches Err(GitError::ParseFailed { line_no, line }) && line_no
            == 0 && line@ == "empty output"@),
        output@.len() > 0 ==> ({
            let line = lines(output@)[0];
            let f = split(line, unit_sep());
            if f.len() == 2 {
                r matches Ok((sha, title)) && sha@ == f[0] && title@ == f[1]
            } else {
                r matches Err(GitError::ParseFailed { line_no, line: l }) && line_no == 1 && l@
                    == line
            }
        }),
{
    let chars = chars_of(output);
    if chars.len() == 0 {
        return Err(GitError::ParseFailed { line_no: 0, line: String::from_str("empty output") });
    }
    let ls = lines_of(chars.as_slice());
    assert(lines(output@).len() > 0);
    assert(views(ls@)[0] == ls@[0]@);
    let fields = split_chars(ls[0].as_slice(), '\u{1f}');
    if fields.len() == 2 {
        assert(views(fields@)[0] == fields@[0]@);
        assert(views(fields@)[1] == fields@[1]@);
        Ok((string_of(fields[0].as_slice()), string_of(fields[1].as_slice())))
    } else {
        Err(GitError::ParseFailed { line_no: 1, line: string_of(ls[0].as_slice()) })
    }
}

} // verus!
