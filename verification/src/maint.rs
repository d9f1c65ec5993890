//! Rules of the workspace maintenance utility: the on-disk layout of a
//! project workspace, the checks on branch names, repository URLs and sandbox
//! names, the git argument lists it runs, and language detection from the
//! files of the HEAD tree.

use vstd::prelude::*;
use vstd::string::StringExecFns;
use crate::text::{append_chars, chars_of, eq_chars, ends_with, ends_with_chars, lines, lines_of, string_of, trim, trim_chars, views};

verus! {

/// Directory (relative to the workspace) of the bare clone.
pub const BARE_REPO_DIR: &'static str = "repo.git";

/// Directory (relative to the workspace) of the worktrees.
pub const WORKTREES_DIR: &'static str = "worktrees";

/// Directory (relative to the workspace) holding the caches.
pub const CACHE_DIR: &'static str = "cache";

/// Why a maintenance command was refused or failed.
#[derive(Debug, Clone, PartialEq, Eq)]
pub enum MaintError {
    /// A branch name was refused.
    InvalidBranch { name: String, reason: String },
    /// A repository URL or path was refused.
    InvalidRepo { url: String, reason: String },
    /// A sandbox name was refused.
    InvalidSandboxName { name: String, reason: String },
    /// A git invocation could not be started or exited unsuccessfully.
    GitFailed { args: Vec<String>, status: String, stderr: String },
    /// A filesystem operation failed.
    Io { path: String, message: String },
    /// Patching the project status in the cluster failed.
    K8sPatch { project: String, message: String },
}

// ── cache layout ────────────────────────────────────────────────────────────

/// Name of the cache directory for a cache identifier: `pnpm` keeps its
/// store under `pnpm-store`, every other identifier is used as is.
pub open spec fn cache_dir_name_spec(cache: Seq<char>) -> Seq<char> {
    if cache == "pnpm"@ {
        "pnpm-store"@
    } else {
        cache
    }
}

/// Name of the cache directory for a cache identifier.
pub fn cache_dir_name(cache: &str) -> (r: String)
    ensures
        r@ == cache_dir_name_spec(cache@),
{
    let c = chars_of(cache);
    let pnpm = chars_of("pnpm");
    if eq_chars(c.as_slice(), pnpm.as_slice()) {
        "pnpm-store".to_owned()
    } else {
        cache.to_owned()
    }
}

/// Relative path of a cache directory: `cache/<cache_dir_name>`.
pub fn cache_path(cache: &str) -> (r: String)
    ensures
        r@ == "cache/"@ + cache_dir_name_spec(cache@),
{
    let mut out = chars_of("cache/");
    let name = cache_dir_name(cache);
    let n = chars_of(name.as_str());
    append_chars(&mut out, n.as_slice());
    string_of(out.as_slice())
}

/// Relative path of the worktree of a sandbox: `worktrees/<name>`.
pub fn worktree_path(sandbox_name: &str) -> (r: String)
    ensures
        r@ == "worktrees/"@ + sandbox_name@,
{
    let mut out = chars_of("worktrees/");
    let n = chars_of(sandbox_name);
    append_chars(&mut out, n.as_slice());
    string_of(out.as_slice())
}

// ── character classes ───────────────────────────────────────────────────────

/// `char::is_control`: the code points of general category Cc, that is
/// U+0000..U+001F and U+007F..U+009F.
pub open spec fn is_control(c: char) -> bool {
    (c as u32) < 0x20 || (0x7f <= (c as u32) && (c as u32) <= 0x9f)
}

/// `char::is_ascii_alphanumeric`.
pub open spec fn is_ascii_alnum(c: char) -> bool {
    ('a' <= c && c <= 'z') || ('A' <= c && c <= 'Z') || ('0' <= c && c <= '9')
}

/// Some character of `s` is a control character.
pub open spec fn has_control(s: Seq<char>) -> bool {
    exists|i: int| 0 <= i < s.len() && is_control(#[trigger] s[i])
}

/// `s` starts with a dash.
pub open spec fn leading_dash(s: Seq<char>) -> bool {
    s.len() > 0 && s[0] == '-'
}

/// A character allowed in a sandbox name: `[A-Za-z0-9._-]`.
pub open spec fn sandbox_name_char(c: char) -> bool {
    is_ascii_alnum(c) || c == '.' || c == '_' || c == '-'
}

/// Exec `char::is_control`.
pub fn char_is_control(c: char) -> (b: bool)
    ensures
        b == is_control(c),
{
    let u = c as u32;
    u < 0x20 || (0x7f <= u && u <= 0x9f)
}

/// Exec `char::is_ascii_alphanumeric`.
pub fn char_is_ascii_alnum(c: char) -> (b: bool)
    ensures
        b == is_ascii_alnum(c),
{
    ('a' <= c && c <= 'z') || ('A' <= c && c <= 'Z') || ('0' <= c && c <= '9')
}

/// Whether some character of `v` is a control character.
pub fn any_control(v: &[char]) -> (b: bool)
    ensures
        b == has_control(v@),
{
    let mut i: usize = 0;
    while i < v.len()
        invariant
            i <= v@.len(),
            forall|k: int| 0 <= k < i ==> !is_control(#[trigger] v@[k]),
        decreases v.len() - i,
    {
        if char_is_control(v[i]) {
            assert(is_control(v@[i as int]));
            return true;
        }
        i = i + 1;
    }
    false
}

/// Whether every character of `v` may appear in a sandbox name.
pub fn all_sandbox_name_chars(v: &[char]) -> (b: bool)
    ensures
        b == (forall|k: int| 0 <= k < v@.len() ==> sandbox_name_char(#[trigger] v@[k])),
{
    let mut i: usize = 0;
    while i < v.len()
        invariant
            i <= v@.len(),
            forall|k: int| 0 <= k < i ==> sandbox_name_char(#[trigger] v@[k]),
        decreases v.len() - i,
    {
        let c = v[i];
        if !(char_is_ascii_alnum(c) || c == '.' || c == '_' || c == '-') {
            assert(!sandbox_name_char(v@[i as int]));
            return false;
        }
        i = i + 1;
    }
    true
}

// ── input checks ────────────────────────────────────────────────────────────

/// Why a repository URL is refused, if it is: empty, leading dash, or a
/// control character (checked in that order).
pub open spec fn repo_problem(url: Seq<char>) -> Option<Seq<char>> {
    if url.len() == 0 {
        Some("repo url is empty"@)
    } else if leading_dash(url) {
        Some("repo url starts with '-'"@)
    } else if has_control(url) {
        Some("repo url contains control characters"@)
    } else {
        None
    }
}

/// Checks a plausible git repository URL or path: not empty, no leading dash
/// (no argument injection), no control character. URLs, paths and scp-like
/// forms are otherwise all accepted.
pub fn validate_repo(url: &str) -> (r: Result<(), MaintError>)
    ensures
        r is Ok <==> repo_problem(url@) is None,
        r matches Err(e) ==> (e matches MaintError::InvalidRepo { url: u, reason }
            && u@ == url@ && reason@ == repo_problem(url@)->Some_0),
{
    let v = chars_of(url);
    if v.len() == 0 {
        return Err(MaintError::InvalidRepo { url: url.to_owned(), reason: "repo url is empty".to_owned() });
    }
    if v[0] == '-' {
        return Err(MaintError::InvalidRepo {
            url: url.to_owned(),
            reason: "repo url starts with '-'".to_owned(),
        });
    }
    if any_control(v.as_slice()) {
        return Err(MaintError::InvalidRepo {
            url: url.to_owned(),
            reason: "repo url contains control characters".to_owned(),
        });
    }
    Ok(())
}

/// The reason given for `.` and `..` as sandbox names.
pub open spec fn traversal_reason(name: Seq<char>) -> Seq<char> {
    "sandbox name is '"@ + name + "', which is a path traversal"@
}

/// Why a sandbox name is refused, if it is: empty, leading dash, `.` or `..`,
/// or a character outside `[A-Za-z0-9._-]` (checked in that order).
pub open spec fn sandbox_name_problem(name: Seq<char>) -> Option<Seq<char>> {
    if name.len() == 0 {
        Some("sandbox name is empty"@)
    } else if leading_dash(name) {
        Some("sandbox name starts with '-'"@)
    } else if name == "."@ || name == ".."@ {
        Some(traversal_reason(name))
    } else if !(forall|k: int| 0 <= k < name.len() ==> sandbox_name_char(#[trigger] name[k])) {
        Some("sandbox name contains invalid characters (only A-Za-z0-9._-)"@)
    } else {
        None
    }
}

/// Checks a sandbox name as a safe path component: not empty, only
/// `[A-Za-z0-9._-]`, neither `.` nor `..`, no leading dash. The name becomes
/// `worktrees/<name>`, so this closes path traversal.
pub fn validate_sandbox_name(name: &str) -> (r: Result<(), MaintError>)
    ensures
        r is Ok <==> sandbox_name_problem(name@) is None,
        r matches Err(e) ==> (e matches MaintError::InvalidSandboxName { name: n, reason }
            && n@ == name@ && reason@ == sandbox_name_problem(name@)->Some_0),
{
    let v = chars_of(name);
    if v.len() == 0 {
        return Err(MaintError::InvalidSandboxName {
            name: name.to_owned(),
            reason: "sandbox name is empty".to_owned(),
        });
    }
    if v[0] == '-' {
        return Err(MaintError::InvalidSandboxName {
            name: name.to_owned(),
            reason: "sandbox name starts with '-'".to_owned(),
        });
    }
    let dot = chars_of(".");
    let dotdot = chars_of("..");
    if eq_chars(v.as_slice(), dot.as_slice()) || eq_chars(v.as_slice(), dotdot.as_slice()) {
        let mut reason = chars_of("sandbox name is '");
        append_chars(&mut reason, v.as_slice());
        let tail = chars_of("', which is a path traversal");
        append_chars(&mut reason, tail.as_slice());
        return Err(MaintError::InvalidSandboxName {
            name: name.to_owned(),
            reason: string_of(reason.as_slice()),
        });
    }
    if !all_sandbox_name_chars(v.as_slice()) {
        return Err(MaintError::InvalidSandboxName {
            name: name.to_owned(),
            reason: "sandbox name contains invalid characters (only A-Za-z0-9._-)".to_owned(),
        });
    }
    Ok(())
}

/// Why a branch name is refused before git is asked, if it is: empty,
/// leading dash, or a control character (checked in that order).
pub open spec fn branch_problem(name: Seq<char>) -> Option<Seq<char>> {
    if name.len() == 0 {
        Some("branch name is empty"@)
    } else if leading_dash(name) {
        Some("branch name starts with '-'"@)
    } else if has_control(name) {
        Some("branch name contains control characters"@)
    } else {
        None
    }
}

/// The checks made on a branch name before `git check-ref-format --branch`
/// is run on it: not empty, no leading dash, no control character.
pub fn branch_precheck(name: &str) -> (r: Result<(), MaintError>)
    ensures
        r is Ok <==> branch_problem(name@) is None,
        r matches Err(e) ==> (e matches MaintError::InvalidBranch { name: n, reason }
            && n@ == name@ && reason@ == branch_problem(name@)->Some_0),
{
    let v = chars_of(name);
    if v.len() == 0 {
        return Err(MaintError::InvalidBranch { name: name.to_owned(), reason: "branch name is empty".to_owned() });
    }
    if v[0] == '-' {
        return Err(MaintError::InvalidBranch {
            name: name.to_owned(),
            reason: "branch name starts with '-'".to_owned(),
        });
    }
    if any_control(v.as_slice()) {
        return Err(MaintError::InvalidBranch {
            name: name.to_owned(),
            reason: "branch name contains control characters".to_owned(),
        });
    }
    Ok(())
}

/// The verdict on a branch name once `git check-ref-format --branch` ran:
/// accepted when git succeeded, else refused with git's trimmed error output
/// as the reason.
pub fn branch_check_outcome(name: &str, git_succeeded: bool, stderr: &str) -> (r: Result<(), MaintError>)
    ensures
        r is Ok <==> git_succeeded,
        r matches Err(e) ==> (e matches MaintError::InvalidBranch { name: n, reason }
            && n@ == name@ && reason@ == trim(stderr@)),
{
    if git_succeeded {
        Ok(())
    } else {
        let v = chars_of(stderr);
        let t = trim_chars(v.as_slice());
        Err(MaintError::InvalidBranch { name: name.to_owned(), reason: string_of(t.as_slice()) })
    }
}

// ── checkout ────────────────────────────────────────────────────────────────

/// Whether checkout must ask git for the default branch: no default branch
/// was given, or an empty one.
pub open spec fn needs_default_lookup(default_branch: Option<Seq<char>>) -> bool {
    match default_branch {
        Some(d) => d.len() == 0,
        None => true,
    }
}

/// The base branch of a new worktree branch: the given default branch when
/// it is not empty, else the branch git reported (`main` when git could not
/// tell).
pub open spec fn default_branch_choice_spec(
    default_branch: Option<Seq<char>>,
    resolved: Option<Seq<char>>,
) -> Seq<char> {
    if !needs_default_lookup(default_branch) {
        default_branch->Some_0
    } else {
        match resolved {
            Some(b) => b,
            None => "main"@,
        }
    }
}

/// Whether checkout must ask git for the default branch.
pub fn needs_default_branch_lookup(default_branch: Option<&str>) -> (b: bool)
    ensures
        b == needs_default_lookup(
            match default_branch {
                Some(d) => Some(d@),
                None => None,
            },
        ),
{
    match default_branch {
        Some(d) => {
            let v = chars_of(d);
            v.len() == 0
        },
        None => true,
    }
}

/// The base branch of a new worktree branch.
pub fn default_branch_choice(default_branch: Option<&str>, resolved: Option<String>) -> (r: String)
    ensures
        r@ == default_branch_choice_spec(
            match default_branch {
                Some(d) => Some(d@),
                None => None,
            },
            match resolved {
                Some(b) => Some(b@),
                None => None,
            },
        ),
{
    if !needs_default_branch_lookup(default_branch) {
        match default_branch {
            Some(d) => d.to_owned(),
            None => "main".to_owned(),
        }
    } else {
        match resolved {
            Some(b) => b,
            None => "main".to_owned(),
        }
    }
}

/// Views of a sequence of strings.
pub open spec fn string_views(v: Seq<String>) -> Seq<Seq<char>> {
    v.map_values(|s: String| s@)
}

/// The arguments of `git show-ref` that tell whether `branch` exists in the
/// bare clone.
pub open spec fn show_ref_args_spec(branch: Seq<char>) -> Seq<Seq<char>> {
    seq!["--git-dir"@, BARE_REPO_DIR@, "show-ref"@, "--verify"@, "--quiet"@, "refs/heads/"@ + branch]
}

/// The arguments of `git show-ref` that tell whether `branch` exists.
pub fn show_ref_args(branch: &str) -> (r: Vec<String>)
    ensures
        string_views(r@) == show_ref_args_spec(branch@),
{
    let mut refname = chars_of("refs/heads/");
    let b = chars_of(branch);
    append_chars(&mut refname, b.as_slice());
    let r = vec![
        "--git-dir".to_owned(),
        BARE_REPO_DIR.to_owned(),
        "show-ref".to_owned(),
        "--verify".to_owned(),
        "--quiet".to_owned(),
        string_of(refname.as_slice()),
    ];
    assert(string_views(r@) =~= show_ref_args_spec(branch@));
    r
}

/// The arguments of `git worktree add` for checkout: an existing branch is
/// checked out into `worktree`; a missing one is created there from
/// `default_branch`.
pub open spec fn worktree_add_args_spec(
    worktree: Seq<char>,
    branch: Seq<char>,
    default_branch: Seq<char>,
    branch_exists: bool,
) -> Seq<Seq<char>> {
    if branch_exists {
        seq!["--git-dir"@, BARE_REPO_DIR@, "worktree"@, "add"@, worktree, branch]
    } else {
        seq!["--git-dir"@, BARE_REPO_DIR@, "worktree"@, "add"@, "-b"@, branch, worktree, default_branch]
    }
}

/// The arguments of `git worktree add` for checkout.
pub fn worktree_add_args(worktree: &str, branch: &str, default_branch: &str, branch_exists: bool) -> (r: Vec<String>)
    ensures
        string_views(r@) == worktree_add_args_spec(worktree@, branch@, default_branch@, branch_exists),
{
    let r = if branch_exists {
        vec![
            "--git-dir".to_owned(),
            BARE_REPO_DIR.to_owned(),
            "worktree".to_owned(),
            "add".to_owned(),
            worktree.to_owned(),
            branch.to_owned(),
        ]
    } else {
        vec![
            "--git-dir".to_owned(),
            BARE_REPO_DIR.to_owned(),
            "worktree".to_owned(),
            "add".to_owned(),
            "-b".to_owned(),
            branch.to_owned(),
            worktree.to_owned(),
            default_branch.to_owned(),
        ]
    };
    assert(string_views(r@) =~= worktree_add_args_spec(worktree@, branch@, default_branch@, branch_exists));
    r
}

// ── the other git invocations ───────────────────────────────────────────────

/// The fetch refspec set on the bare clone: remote branches land under
/// `refs/remotes/origin/`, so a fetch never overwrites the local branches
/// that checkout creates.
pub const FETCH_REFSPEC: &'static str = "+refs/heads/*:refs/remotes/origin/*";

/// `git clone --bare -- <repo> <bare>`: the `--` keeps the repository from
/// being read as an option.
pub open spec fn clone_args_spec(repo: Seq<char>, bare: Seq<char>) -> Seq<Seq<char>> {
    seq!["clone"@, "--bare"@, "--"@, repo, bare]
}

/// The arguments of the bare clone made by `init`.
pub fn clone_args(repo: &str, bare: &str) -> (r: Vec<String>)
    ensures
        string_views(r@) == clone_args_spec(repo@, bare@),
{
    let r = vec!["clone".to_owned(), "--bare".to_owned(), "--".to_owned(), repo.to_owned(), bare.to_owned()];
    assert(string_views(r@) =~= clone_args_spec(repo@, bare@));
    r
}

/// `git --git-dir <git_dir> fetch --prune`.
pub open spec fn fetch_args_spec(git_dir: Seq<char>) -> Seq<Seq<char>> {
    seq!["--git-dir"@, git_dir, "fetch"@, "--prune"@]
}

/// The arguments of `fetch`.
pub fn fetch_args(git_dir: &str) -> (r: Vec<String>)
    ensures
        string_views(r@) == fetch_args_spec(git_dir@),
{
    let r = vec!["--git-dir".to_owned(), git_dir.to_owned(), "fetch".to_owned(), "--prune".to_owned()];
    assert(string_views(r@) =~= fetch_args_spec(git_dir@));
    r
}

/// `git --git-dir <bare> config --replace-all remote.origin.fetch <refspec>`:
/// idempotent, run after every `init`.
pub open spec fn fetch_refspec_args_spec(bare: Seq<char>) -> Seq<Seq<char>> {
    seq!["--git-dir"@, bare, "config"@, "--replace-all"@, "remote.origin.fetch"@, FETCH_REFSPEC@]
}

/// The arguments that set the fetch refspec of the bare clone.
pub fn fetch_refspec_args(bare: &str) -> (r: Vec<String>)
    ensures
        string_views(r@) == fetch_refspec_args_spec(bare@),
{
    let r = vec![
        "--git-dir".to_owned(),
        bare.to_owned(),
        "config".to_owned(),
        "--replace-all".to_owned(),
        "remote.origin.fetch".to_owned(),
        FETCH_REFSPEC.to_owned(),
    ];
    assert(string_views(r@) =~= fetch_refspec_args_spec(bare@));
    r
}

/// `git --git-dir repo.git symbolic-ref --short HEAD`, run in the workspace.
pub open spec fn symbolic_ref_args_spec() -> Seq<Seq<char>> {
    seq!["--git-dir"@, BARE_REPO_DIR@, "symbolic-ref"@, "--short"@, "HEAD"@]
}

/// The arguments that ask the bare clone for its default branch.
pub fn symbolic_ref_args() -> (r: Vec<String>)
    ensures
        string_views(r@) == symbolic_ref_args_spec(),
{
    let r = vec![
        "--git-dir".to_owned(),
        BARE_REPO_DIR.to_owned(),
        "symbolic-ref".to_owned(),
        "--short".to_owned(),
        "HEAD".to_owned(),
    ];
    assert(string_views(r@) =~= symbolic_ref_args_spec());
    r
}

/// The default branch that `symbolic-ref` answered: its output trimmed when
/// it succeeded, nothing when it failed.
pub fn resolved_default_branch(succeeded: bool, stdout: &str) -> (r: Option<String>)
    ensures
        succeeded ==> r is Some && r->Some_0@ == trim(stdout@),
        !succeeded ==> r is None,
{
    if succeeded {
        let v = chars_of(stdout);
        let t = trim_chars(v.as_slice());
        Some(string_of(t.as_slice()))
    } else {
        None
    }
}

/// `git --git-dir repo.git worktree remove --force <worktree>`.
pub open spec fn worktree_remove_args_spec(worktree: Seq<char>) -> Seq<Seq<char>> {
    seq!["--git-dir"@, BARE_REPO_DIR@, "worktree"@, "remove"@, "--force"@, worktree]
}

/// The arguments of the first attempt of `remove`.
pub fn worktree_remove_args(worktree: &str) -> (r: Vec<String>)
    ensures
        string_views(r@) == worktree_remove_args_spec(worktree@),
{
    let r = vec![
        "--git-dir".to_owned(),
        BARE_REPO_DIR.to_owned(),
        "worktree".to_owned(),
        "remove".to_owned(),
        "--force".to_owned(),
        worktree.to_owned(),
    ];
    assert(string_views(r@) =~= worktree_remove_args_spec(worktree@));
    r
}

/// `git --git-dir repo.git worktree prune`.
pub open spec fn worktree_prune_args_spec() -> Seq<Seq<char>> {
    seq!["--git-dir"@, BARE_REPO_DIR@, "worktree"@, "prune"@]
}

/// The arguments of the prune that ends `remove`; its failure is an error.
pub fn worktree_prune_args() -> (r: Vec<String>)
    ensures
        string_views(r@) == worktree_prune_args_spec(),
{
    let r = vec!["--git-dir".to_owned(), BARE_REPO_DIR.to_owned(), "worktree".to_owned(), "prune".to_owned()];
    assert(string_views(r@) =~= worktree_prune_args_spec());
    r
}

/// `git --git-dir <bare> ls-tree -r --name-only HEAD`.
pub open spec fn ls_tree_args_spec(bare: Seq<char>) -> Seq<Seq<char>> {
    seq!["--git-dir"@, bare, "ls-tree"@, "-r"@, "--name-only"@, "HEAD"@]
}

/// The arguments that list the files of the HEAD tree.
pub fn ls_tree_args(bare: &str) -> (r: Vec<String>)
    ensures
        string_views(r@) == ls_tree_args_spec(bare@),
{
    let r = vec![
        "--git-dir".to_owned(),
        bare.to_owned(),
        "ls-tree".to_owned(),
        "-r".to_owned(),
        "--name-only".to_owned(),
        "HEAD".to_owned(),
    ];
    assert(string_views(r@) =~= ls_tree_args_spec(bare@));
    r
}

/// The directories that `purge` removes, in order.
pub open spec fn purge_dirs_spec() -> Seq<Seq<char>> {
    seq![BARE_REPO_DIR@, WORKTREES_DIR@, CACHE_DIR@]
}

/// The directories that `purge` removes, in order.
pub fn purge_dirs() -> (r: Vec<String>)
    ensures
        string_views(r@) == purge_dirs_spec(),
{
    let r = vec![BARE_REPO_DIR.to_owned(), WORKTREES_DIR.to_owned(), CACHE_DIR.to_owned()];
    assert(string_views(r@) =~= purge_dirs_spec());
    r
}

// ── language detection ──────────────────────────────────────────────────────

/// The file paths of `git ls-tree -r --name-only` output: its lines, empty
/// ones left out.
pub open spec fn tree_paths_spec(out: Seq<char>) -> Seq<Seq<char>> {
    lines(out).filter(|l: Seq<char>| l.len() > 0)
}

/// The file paths of `git ls-tree -r --name-only` output.
pub fn tree_paths(out: &str) -> (r: Vec<String>)
    ensures
        string_views(r@) == tree_paths_spec(out@),
{
    let v = chars_of(out);
    let ls = lines_of(v.as_slice());
    let ghost all = lines(out@);
    let mut r: Vec<String> = Vec::new();
    let mut i: usize = 0;
    while i < ls.len()
        invariant
            i <= ls@.len(),
            views(ls@) == all,
            all == lines(out@),
            string_views(r@) == all.take(i as int).filter(|l: Seq<char>| l.len() > 0),
        decreases ls.len() - i,
    {
        let ghost before = r@;
        assert(all.take(i + 1) == all.take(i as int).push(all[i as int]));
        assert(views(ls@)[i as int] == ls@[i as int]@);
        if ls[i].len() > 0 {
            r.push(string_of(ls[i].as_slice()));
            assert(string_views(r@) =~= string_views(before).push(ls@[i as int]@));
        }
        proof {
            all.take(i as int).lemma_filter_push(all[i as int], |l: Seq<char>| l.len() > 0);
        }
        i = i + 1;
    }
    assert(all.take(ls@.len() as int) == all);
    r
}

/// A path marks Rust: `Cargo.toml` at the root or in any subdirectory.
pub open spec fn rust_marker(p: Seq<char>) -> bool {
    p == "Cargo.toml"@ || ends_with(p, "/Cargo.toml"@)
}

/// A path marks JavaScript/TypeScript: `package.json` or `tsconfig.json` at
/// the root only.
pub open spec fn js_ts_marker(p: Seq<char>) -> bool {
    p == "package.json"@ || p == "tsconfig.json"@
}

/// The languages detected from the file paths of a tree, in the fixed order
/// `rust`, `js-ts`.
pub open spec fn languages_spec(paths: Seq<Seq<char>>) -> Seq<Seq<char>> {
    let rust: Seq<Seq<char>> = if exists|i: int| 0 <= i < paths.len() && rust_marker(#[trigger] paths[i]) {
        seq!["rust"@]
    } else {
        seq![]
    };
    let js: Seq<Seq<char>> = if exists|i: int| 0 <= i < paths.len() && js_ts_marker(#[trigger] paths[i]) {
        seq!["js-ts"@]
    } else {
        seq![]
    };
    rust + js
}

/// Whether `p` marks Rust.
fn is_rust_marker(p: &str) -> (b: bool)
    ensures
        b == rust_marker(p@),
{
    let v = chars_of(p);
    let whole = chars_of("Cargo.toml");
    let sub = chars_of("/Cargo.toml");
    eq_chars(v.as_slice(), whole.as_slice()) || ends_with_chars(v.as_slice(), sub.as_slice())
}

/// Whether `p` marks JavaScript/TypeScript.
fn is_js_ts_marker(p: &str) -> (b: bool)
    ensures
        b == js_ts_marker(p@),
{
    let v = chars_of(p);
    let pkg = chars_of("package.json");
    let ts = chars_of("tsconfig.json");
    eq_chars(v.as_slice(), pkg.as_slice()) || eq_chars(v.as_slice(), ts.as_slice())
}

/// Detects the languages of a project from the file paths of its HEAD tree
/// (as listed by `git ls-tree -r --name-only HEAD`): `rust` when a
/// `Cargo.toml` is at the root or under a subdirectory, `js-ts` when a
/// `package.json` or `tsconfig.json` is at the root; in that order.
pub fn detect_languages(paths: &Vec<String>) -> (r: Vec<String>)
    ensures
        string_views(r@) == languages_spec(string_views(paths@)),
{
    let ghost ps = string_views(paths@);
    let mut has_rust = false;
    let mut has_js = false;
    let mut i: usize = 0;
    while i < paths.len()
        invariant
            i <= paths@.len(),
            ps == string_views(paths@),
            has_rust == exists|k: int| 0 <= k < i && rust_marker(#[trigger] ps[k]),
            has_js == exists|k: int| 0 <= k < i && js_ts_marker(#[trigger] ps[k]),
        decreases paths.len() - i,
    {
        assert(ps[i as int] == paths@[i as int]@);
        if is_rust_marker(paths[i].as_str()) {
            has_rust = true;
        }
        if is_js_ts_marker(paths[i].as_str()) {
            has_js = true;
        }
        i = i + 1;
    }
    let mut r: Vec<String> = Vec::new();
    if has_rust {
        r.push("rust".to_owned());
    }
    if has_js {
        r.push("js-ts".to_owned());
    }
    assert(string_views(r@) =~= languages_spec(ps));
    r
}

// ── checkout, step by step ─────────────────────────────────────────────────

/// Where a checkout stands.
#[derive(Debug, Clone, Copy, PartialEq, Eq, Structural)]
pub enum CheckoutPhase {
    /// Nothing done yet.
    Start,
    /// `git check-ref-format --branch` runs on the branch.
    BranchRef,
    /// `git check-ref-format --branch` runs on the given default branch.
    DefaultRef,
    /// The worktree directory is looked for.
    Worktree,
    /// `symbolic-ref` is asked for the default branch.
    Resolving,
    /// `show-ref` tells whether the branch exists in the bare clone.
    ShowRef,
    /// `worktree add` runs.
    Adding,
    /// The checkout has finished.
    Done,
}

/// A checkout of `branch` into the worktree of `sandbox`, based (for a new
/// branch) on `default_branch` or, when it is absent or empty, on the
/// default branch of the bare clone.
pub struct Checkout {
    pub sandbox: String,
    pub branch: String,
    pub default_branch: Option<String>,
    pub phase: CheckoutPhase,
    /// The base of a new branch, once known.
    pub base: String,
    /// Whether `show-ref` found the branch.
    pub branch_exists: bool,
}

/// What the caller does next.
pub enum CheckoutAction {
    /// Run `git check-ref-format --branch <name>` (outside the workspace).
    CheckRefFormat(String),
    /// Tell whether `<workspace>/<path>` exists (the result's `succeeded`).
    WorktreeExists(String),
    /// Run git with these arguments in the workspace.
    Git(Vec<String>),
    /// The checkout is over, with this outcome.
    Finish(Result<(), MaintError>),
}

/// The outcome of the last action: whether the process could be started
/// (its error text in `status` otherwise), whether it succeeded (for
/// `WorktreeExists`, whether the path exists), its output and exit status.
pub struct StepResult {
    pub spawned: bool,
    pub succeeded: bool,
    pub stdout: String,
    pub stderr: String,
    pub status: String,
}

/// A checkout by its views.
pub struct CheckoutView {
    pub sandbox: Seq<char>,
    pub branch: Seq<char>,
    pub default_branch: Option<Seq<char>>,
    pub phase: CheckoutPhase,
    pub base: Seq<char>,
    pub branch_exists: bool,
}

/// A step result by its views.
pub struct StepView {
    pub spawned: bool,
    pub succeeded: bool,
    pub stdout: Seq<char>,
    pub stderr: Seq<char>,
    pub status: Seq<char>,
}

/// The view of a checkout.
pub open spec fn checkout_view(c: Checkout) -> CheckoutView {
    CheckoutView {
        sandbox: c.sandbox@,
        branch: c.branch@,
        default_branch: match c.default_branch {
            Some(d) => Some(d@),
            None => None,
        },
        phase: c.phase,
        base: c.base@,
        branch_exists: c.branch_exists,
    }
}

/// The view of a step result.
pub open spec fn step_view(r: StepResult) -> StepView {
    StepView { spawned: r.spawned, succeeded: r.succeeded, stdout: r.stdout@, stderr: r.stderr@, status: r.status@ }
}

/// An error by a tag (its variant) and its text fields, in order.
pub open spec fn maint_error_view(e: MaintError) -> (nat, Seq<Seq<char>>) {
    match e {
        MaintError::InvalidBranch { name, reason } => (0, seq![name@, reason@]),
        MaintError::InvalidRepo { url, reason } => (1, seq![url@, reason@]),
        MaintError::InvalidSandboxName { name, reason } => (2, seq![name@, reason@]),
        MaintError::GitFailed { args, status, stderr } => (3, string_views(args@) + seq![status@, stderr@]),
        MaintError::Io { path, message } => (4, seq![path@, message@]),
        MaintError::K8sPatch { project, message } => (5, seq![project@, message@]),
    }
}

/// An action by a tag and its texts: 0 check-ref-format of a name, 1 look
/// for a path, 2 run git with arguments, 3 finished well, 4 + an error's tag
/// finished with that error.
pub open spec fn checkout_action_view(a: CheckoutAction) -> (nat, Seq<Seq<char>>) {
    match a {
        CheckoutAction::CheckRefFormat(n) => (0, seq![n@]),
        CheckoutAction::WorktreeExists(p) => (1, seq![p@]),
        CheckoutAction::Git(args) => (2, string_views(args@)),
        CheckoutAction::Finish(Ok(())) => (3, seq![]),
        CheckoutAction::Finish(Err(e)) => (4 + maint_error_view(e).0, maint_error_view(e).1),
    }
}

/// Finishing with an error.
pub open spec fn checkout_fail(st: CheckoutView, e: (nat, Seq<Seq<char>>)) -> (CheckoutView, (nat, Seq<Seq<char>>)) {
    (CheckoutView { phase: CheckoutPhase::Done, ..st }, (4 + e.0, e.1))
}

/// Looking for the worktree.
pub open spec fn checkout_to_worktree(st: CheckoutView) -> (CheckoutView, (nat, Seq<Seq<char>>)) {
    (CheckoutView { phase: CheckoutPhase::Worktree, ..st }, (1, seq!["worktrees/"@ + st.sandbox]))
}

/// After the branch passed: check a given, non-empty default branch the
/// same way, else look for the worktree.
pub open spec fn checkout_after_branch(st: CheckoutView) -> (CheckoutView, (nat, Seq<Seq<char>>)) {
    match st.default_branch {
        Some(d) => if d.len() > 0 {
            match branch_problem(d) {
                Some(r) => checkout_fail(st, (0, seq![d, r])),
                None => (CheckoutView { phase: CheckoutPhase::DefaultRef, ..st }, (0, seq![d])),
            }
        } else {
            checkout_to_worktree(st)
        },
        None => checkout_to_worktree(st),
    }
}

/// The answer of `check-ref-format` on `name`: a process that could not run
/// or refused the name ends the checkout with `InvalidBranch`.
pub open spec fn checkout_ref_outcome(
    st: CheckoutView,
    name: Seq<char>,
    ev: StepView,
    next: (CheckoutView, (nat, Seq<Seq<char>>)),
) -> (CheckoutView, (nat, Seq<Seq<char>>)) {
    if !ev.spawned {
        checkout_fail(st, (0, seq![name, "git check-ref-format failed: "@ + ev.status]))
    } else if !ev.succeeded {
        checkout_fail(st, (0, seq![name, trim(ev.stderr)]))
    } else {
        next
    }
}

/// One step of a checkout: the sandbox name and the branch are checked
/// before any command, then git checks the branch (and a given default
/// branch); an existing worktree ends the checkout; otherwise the base of a
/// new branch is settled (asking git for its default branch when none was
/// given), `show-ref` tells whether the branch exists, and `worktree add`
/// checks it out or creates it from the base.
pub open spec fn checkout_step_spec(st: CheckoutView, ev: StepView) -> (CheckoutView, (nat, Seq<Seq<char>>)) {
    let wt = "worktrees/"@ + st.sandbox;
    match st.phase {
        CheckoutPhase::Start => match sandbox_name_problem(st.sandbox) {
            Some(r) => checkout_fail(st, (2, seq![st.sandbox, r])),
            None => match branch_problem(st.branch) {
                Some(r) => checkout_fail(st, (0, seq![st.branch, r])),
                None => (CheckoutView { phase: CheckoutPhase::BranchRef, ..st }, (0, seq![st.branch])),
            },
        },
        CheckoutPhase::BranchRef => checkout_ref_outcome(st, st.branch, ev, checkout_after_branch(st)),
        CheckoutPhase::DefaultRef => checkout_ref_outcome(
            st,
            match st.default_branch {
                Some(d) => d,
                None => Seq::<char>::empty(),
            },
            ev,
            checkout_to_worktree(st),
        ),
        CheckoutPhase::Worktree => if ev.succeeded {
            (CheckoutView { phase: CheckoutPhase::Done, ..st }, (3, seq![]))
        } else if needs_default_lookup(st.default_branch) {
            (CheckoutView { phase: CheckoutPhase::Resolving, ..st }, (2, symbolic_ref_args_spec()))
        } else {
            (
                CheckoutView { phase: CheckoutPhase::ShowRef, base: st.default_branch->Some_0, ..st },
                (2, show_ref_args_spec(st.branch)),
            )
        },
        CheckoutPhase::Resolving => {
            let resolved = if ev.spawned && ev.succeeded {
                Some(trim(ev.stdout))
            } else {
                None
            };
            (
                CheckoutView {
                    phase: CheckoutPhase::ShowRef,
                    base: default_branch_choice_spec(st.default_branch, resolved),
                    ..st
                },
                (2, show_ref_args_spec(st.branch)),
            )
        },
        CheckoutPhase::ShowRef => if !ev.spawned {
            checkout_fail(st, (3, show_ref_args_spec(st.branch) + seq![ev.status, Seq::<char>::empty()]))
        } else {
            (
                CheckoutView { phase: CheckoutPhase::Adding, branch_exists: ev.succeeded, ..st },
                (2, worktree_add_args_spec(wt, st.branch, st.base, ev.succeeded)),
            )
        },
        CheckoutPhase::Adding => {
            let args = worktree_add_args_spec(wt, st.branch, st.base, st.branch_exists);
            if !ev.spawned {
                checkout_fail(st, (3, args + seq![ev.status, Seq::<char>::empty()]))
            } else if !ev.succeeded {
                checkout_fail(st, (3, args + seq![ev.status, ev.stderr]))
            } else {
                (CheckoutView { phase: CheckoutPhase::Done, ..st }, (3, seq![]))
            }
        },
        CheckoutPhase::Done => (st, (3, seq![])),
    }
}

impl Checkout {
    /// A checkout that has not started.
    pub fn new(sandbox: &str, branch: &str, default_branch: Option<&str>) -> (r: Checkout)
        ensures
            checkout_view(r) == (CheckoutView {
                sandbox: sandbox@,
                branch: branch@,
                default_branch: match default_branch {
                    Some(d) => Some(d@),
                    None => None,
                },
                phase: CheckoutPhase::Start,
                base: Seq::<char>::empty(),
                branch_exists: false,
            }),
    {
        Checkout {
            sandbox: sandbox.to_owned(),
            branch: branch.to_owned(),
            default_branch: match default_branch {
                Some(d) => Some(d.to_owned()),
                None => None,
            },
            phase: CheckoutPhase::Start,
            base: String::new(),
            branch_exists: false,
        }
    }

    /// Whether the checkout has finished.
    pub fn is_done(&self) -> (b: bool)
        ensures
            b == (self.phase == CheckoutPhase::Done),
    {
        match self.phase {
            CheckoutPhase::Done => true,
            _ => false,
        }
    }

    /// Takes the outcome of the last action (ignored at the start) and says
    /// what to do next.
    pub fn step(&mut self, last: &StepResult) -> (a: CheckoutAction)
        requires
            old(self).phase != CheckoutPhase::Done,
        ensures
            (checkout_view(*final(self)), checkout_action_view(a)) == checkout_step_spec(
                checkout_view(*old(self)),
                step_view(*last),
            ),
    {
        let ghost st = checkout_view(*self);
        let ghost ev = step_view(*last);
        match self.phase {
            CheckoutPhase::Start => {
                match validate_sandbox_name(self.sandbox.as_str()) {
                    Err(e) => {
                        self.phase = CheckoutPhase::Done;
                        return CheckoutAction::Finish(Err(e));
                    },
                    Ok(()) => {},
                }
                match branch_precheck(self.branch.as_str()) {
                    Err(e) => {
                        self.phase = CheckoutPhase::Done;
                        return CheckoutAction::Finish(Err(e));
                    },
                    Ok(()) => {},
                }
                self.phase = CheckoutPhase::BranchRef;
                CheckoutAction::CheckRefFormat(self.branch.clone())
            },
            CheckoutPhase::BranchRef | CheckoutPhase::DefaultRef => {
                let is_branch = match self.phase {
                    CheckoutPhase::BranchRef => true,
                    _ => false,
                };
                let name: String = if is_branch {
                    self.branch.clone()
                } else {
                    match &self.default_branch {
                        Some(d) => d.clone(),
                        None => String::new(),
                    }
                };
                if !last.spawned {
                    let mut reason = "git check-ref-format failed: ".to_owned();
                    reason.append(last.status.as_str());
                    self.phase = CheckoutPhase::Done;
                    return CheckoutAction::Finish(Err(MaintError::InvalidBranch { name, reason }));
                }
                if !last.succeeded {
                    let v = chars_of(last.stderr.as_str());
                    let t = trim_chars(v.as_slice());
                    self.phase = CheckoutPhase::Done;
                    return CheckoutAction::Finish(Err(MaintError::InvalidBranch { name, reason: string_of(t.as_slice()) }));
                }
                if is_branch {
                    let given: Option<String> = match &self.default_branch {
                        Some(d) => if chars_of(d.as_str()).len() > 0 {
                            Some(d.clone())
                        } else {
                            None
                        },
                        None => None,
                    };
                    match given {
                        Some(d) => {
                            match branch_precheck(d.as_str()) {
                                Err(e) => {
                                    self.phase = CheckoutPhase::Done;
                                    return CheckoutAction::Finish(Err(e));
                                },
                                Ok(()) => {},
                            }
                            self.phase = CheckoutPhase::DefaultRef;
                            return CheckoutAction::CheckRefFormat(d);
                        },
                        None => {},
                    }
                }
                self.phase = CheckoutPhase::Worktree;
                CheckoutAction::WorktreeExists(worktree_path(self.sandbox.as_str()))
            },
            CheckoutPhase::Worktree => {
                if last.succeeded {
                    self.phase = CheckoutPhase::Done;
                    return CheckoutAction::Finish(Ok(()));
                }
                let given: Option<&str> = match &self.default_branch {
                    Some(d) => Some(d.as_str()),
                    None => None,
                };
                if needs_default_branch_lookup(given) {
                    self.phase = CheckoutPhase::Resolving;
                    CheckoutAction::Git(symbolic_ref_args())
                } else {
                    self.base = default_branch_choice(given, None);
                    self.phase = CheckoutPhase::ShowRef;
                    CheckoutAction::Git(show_ref_args(self.branch.as_str()))
                }
            },
            CheckoutPhase::Resolving => {
                let resolved = resolved_default_branch(last.spawned && last.succeeded, last.stdout.as_str());
                let given: Option<&str> = match &self.default_branch {
                    Some(d) => Some(d.as_str()),
                    None => None,
                };
                self.base = default_branch_choice(given, resolved);
                self.phase = CheckoutPhase::ShowRef;
                CheckoutAction::Git(show_ref_args(self.branch.as_str()))
            },
            CheckoutPhase::ShowRef => {
                if !last.spawned {
                    self.phase = CheckoutPhase::Done;
                    return CheckoutAction::Finish(Err(MaintError::GitFailed {
                        args: show_ref_args(self.branch.as_str()),
                        status: last.status.clone(),
                        stderr: String::new(),
                    }));
                }
                self.branch_exists = last.succeeded;
                self.phase = CheckoutPhase::Adding;
                let wt = worktree_path(self.sandbox.as_str());
                CheckoutAction::Git(worktree_add_args(wt.as_str(), self.branch.as_str(), self.base.as_str(), last.succeeded))
            },
            _ => {
                let wt = worktree_path(self.sandbox.as_str());
                let args = worktree_add_args(wt.as_str(), self.branch.as_str(), self.base.as_str(), self.branch_exists);
                self.phase = CheckoutPhase::Done;
                if !last.spawned {
                    CheckoutAction::Finish(Err(MaintError::GitFailed { args, status: last.status.clone(), stderr: String::new() }))
                } else if !last.succeeded {
                    CheckoutAction::Finish(Err(MaintError::GitFailed {
                        args,
                        status: last.status.clone(),
                        stderr: last.stderr.clone(),
                    }))
                } else {
                    CheckoutAction::Finish(Ok(()))
                }
            },
        }
    }
}

} // verus!
