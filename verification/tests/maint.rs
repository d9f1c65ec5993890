use vanyline_sandbox::maint::{
    clone_args, fetch_args, fetch_refspec_args, ls_tree_args, purge_dirs, resolved_default_branch,
    symbolic_ref_args, worktree_prune_args, worktree_remove_args, FETCH_REFSPEC,
    branch_check_outcome, branch_precheck, cache_dir_name, cache_path, default_branch_choice,
    detect_languages, needs_default_branch_lookup, show_ref_args, tree_paths, validate_repo,
    validate_sandbox_name, worktree_add_args, worktree_path, MaintError, BARE_REPO_DIR, CACHE_DIR,
    WORKTREES_DIR,
};

#[test]
fn layout_constants() {
    assert_eq!(BARE_REPO_DIR, "repo.git");
    assert_eq!(WORKTREES_DIR, "worktrees");
    assert_eq!(CACHE_DIR, "cache");
}

#[test]
fn cache_dir_name_mapping() {
    assert_eq!(cache_dir_name("cargo"), "cargo");
    assert_eq!(cache_dir_name("pnpm"), "pnpm-store");
    assert_eq!(cache_dir_name("custom"), "custom");
}

#[test]
fn cache_path_uses_mapping() {
    assert_eq!(cache_path("pnpm"), "cache/pnpm-store");
    assert_eq!(cache_path("cargo"), "cache/cargo");
}

#[test]
fn validate_repo_ok() {
    validate_repo("https://github.com/o/r.git").unwrap();
    validate_repo("git@github.com:o/r.git").unwrap();
    validate_repo("/srv/git/repo.git").unwrap();
}

#[test]
fn validate_repo_rejects() {
    let err = validate_repo("").unwrap_err();
    assert!(matches!(err, MaintError::InvalidRepo { .. }));

    let err = validate_repo("-flag").unwrap_err();
    assert!(matches!(err, MaintError::InvalidRepo { .. }));

    let err = validate_repo("a\nb").unwrap_err();
    assert!(matches!(err, MaintError::InvalidRepo { .. }));
}

#[test]
fn validate_sandbox_name_ok() {
    validate_sandbox_name("demo-branch").unwrap();
    validate_sandbox_name("sb1").unwrap();
    validate_sandbox_name("a.b_c").unwrap();
}

#[test]
fn validate_sandbox_name_rejects() {
    validate_sandbox_name("").expect_err("empty");
    validate_sandbox_name("a/b").expect_err("slash");
    validate_sandbox_name("..").expect_err("parent");
    validate_sandbox_name(".").expect_err("self");
    validate_sandbox_name("-x").expect_err("leading dash");
    validate_sandbox_name("a b").expect_err("space");
}

#[test]
fn worktree_path_value() {
    assert_eq!(worktree_path("sb1"), "worktrees/sb1");
}

// ── further cases ───────────────────────────────────────────────────────────

#[test]
fn branch_precheck_accepts_plain_names() {
    branch_precheck("main").unwrap();
    branch_precheck("feat/x").unwrap();
    branch_precheck("user/topic-1.2").unwrap();
}

#[test]
fn validate_branch_rejects_empty() {
    let err = branch_precheck("").unwrap_err();
    assert!(matches!(err, MaintError::InvalidBranch { .. }));
}

#[test]
fn validate_branch_rejects_leading_dash() {
    let err = branch_precheck("-oops").unwrap_err();
    assert!(matches!(err, MaintError::InvalidBranch { .. }));
}

#[test]
fn validate_branch_rejects_control_chars() {
    let err = branch_precheck("a\nb").unwrap_err();
    assert!(matches!(err, MaintError::InvalidBranch { .. }));
}

#[test]
fn branch_check_outcome_reports_git_stderr() {
    assert_eq!(branch_check_outcome("main", true, ""), Ok(()));
    match branch_check_outcome("a..b", false, "fatal: bad name\n") {
        Err(MaintError::InvalidBranch { name, reason }) => {
            assert_eq!(name, "a..b");
            assert_eq!(reason, "fatal: bad name");
        }
        other => panic!("unexpected {other:?}"),
    }
}

#[test]
fn invalid_sandbox_errors_name_the_input() {
    match validate_sandbox_name("a/b") {
        Err(MaintError::InvalidSandboxName { name, .. }) => assert_eq!(name, "a/b"),
        other => panic!("unexpected {other:?}"),
    }
}

#[test]
fn detect_languages_from_tree() {
    let paths: Vec<String> = vec!["src/lib.rs".into(), "crates/a/Cargo.toml".into(), "package.json".into()];
    assert_eq!(detect_languages(&paths), vec!["rust", "js-ts"]);
    let paths: Vec<String> = vec!["web/package.json".into(), "README.md".into()];
    assert!(detect_languages(&paths).is_empty());
    let paths: Vec<String> = vec!["tsconfig.json".into(), "Cargo.toml".into()];
    assert_eq!(detect_languages(&paths), vec!["rust", "js-ts"]);
}

#[test]
fn tree_paths_drop_empty_lines() {
    assert_eq!(tree_paths("a\n\nb/c\n"), vec!["a", "b/c"]);
    assert!(tree_paths("").is_empty());
}

#[test]
fn checkout_base_branch_choice() {
    assert!(needs_default_branch_lookup(None));
    assert!(needs_default_branch_lookup(Some("")));
    assert!(!needs_default_branch_lookup(Some("dev")));
    assert_eq!(default_branch_choice(Some("dev"), Some("main".into())), "dev");
    assert_eq!(default_branch_choice(None, Some("trunk".into())), "trunk");
    assert_eq!(default_branch_choice(Some(""), None), "main");
}

#[test]
fn checkout_git_arguments() {
    assert_eq!(
        show_ref_args("feat/x"),
        vec!["--git-dir", "repo.git", "show-ref", "--verify", "--quiet", "refs/heads/feat/x"]
    );
    assert_eq!(
        worktree_add_args("worktrees/sb1", "feat", "main", true),
        vec!["--git-dir", "repo.git", "worktree", "add", "worktrees/sb1", "feat"]
    );
    assert_eq!(
        worktree_add_args("worktrees/sb1", "feat", "main", false),
        vec!["--git-dir", "repo.git", "worktree", "add", "-b", "feat", "worktrees/sb1", "main"]
    );
}

fn strs(v: &[&str]) -> Vec<String> {
    v.iter().map(|s| s.to_string()).collect()
}

#[test]
fn clone_args_put_double_dash_before_repo() {
    assert_eq!(
        clone_args("https://x/r.git", "/ws/repo.git"),
        strs(&["clone", "--bare", "--", "https://x/r.git", "/ws/repo.git"])
    );
}

#[test]
fn fetch_args_prune() {
    assert_eq!(fetch_args("/ws/repo.git"), strs(&["--git-dir", "/ws/repo.git", "fetch", "--prune"]));
}

#[test]
fn fetch_refspec_targets_remote_refs() {
    assert_eq!(FETCH_REFSPEC, "+refs/heads/*:refs/remotes/origin/*");
    assert_eq!(
        fetch_refspec_args("/ws/repo.git"),
        strs(&[
            "--git-dir",
            "/ws/repo.git",
            "config",
            "--replace-all",
            "remote.origin.fetch",
            "+refs/heads/*:refs/remotes/origin/*"
        ])
    );
}

#[test]
fn symbolic_ref_and_its_outcome() {
    assert_eq!(symbolic_ref_args(), strs(&["--git-dir", "repo.git", "symbolic-ref", "--short", "HEAD"]));
    assert_eq!(resolved_default_branch(true, "develop\n"), Some("develop".to_string()));
    assert_eq!(resolved_default_branch(false, "develop\n"), None);
}

#[test]
fn remove_and_prune_args() {
    assert_eq!(
        worktree_remove_args("worktrees/sb"),
        strs(&["--git-dir", "repo.git", "worktree", "remove", "--force", "worktrees/sb"])
    );
    assert_eq!(worktree_prune_args(), strs(&["--git-dir", "repo.git", "worktree", "prune"]));
}

#[test]
fn ls_tree_args_and_purge_dirs() {
    assert_eq!(
        ls_tree_args("/ws/repo.git"),
        strs(&["--git-dir", "/ws/repo.git", "ls-tree", "-r", "--name-only", "HEAD"])
    );
    assert_eq!(purge_dirs(), strs(&["repo.git", "worktrees", "cache"]));
}


use vanyline_sandbox::maint::{Checkout, CheckoutAction, StepResult};

fn ran(succeeded: bool, stdout: &str, stderr: &str) -> StepResult {
    StepResult {
        spawned: true,
        succeeded,
        stdout: stdout.to_string(),
        stderr: stderr.to_string(),
        status: if succeeded { "exit status: 0".to_string() } else { "exit status: 1".to_string() },
    }
}

fn start() -> StepResult {
    StepResult { spawned: false, succeeded: false, stdout: String::new(), stderr: String::new(), status: String::new() }
}

fn git_args(a: CheckoutAction) -> Vec<String> {
    match a {
        CheckoutAction::Git(args) => args,
        _ => panic!("git expected"),
    }
}

#[test]
fn checkout_rejects_invalid_sandbox() {
    let mut c = Checkout::new("a/b", "main", None);
    assert!(matches!(c.step(&start()), CheckoutAction::Finish(Err(MaintError::InvalidSandboxName { .. }))));
    assert!(c.is_done());
}

#[test]
fn checkout_rejects_invalid_branch() {
    let mut c = Checkout::new("sb1", "a..b", None);
    assert!(matches!(c.step(&start()), CheckoutAction::CheckRefFormat(ref n) if n == "a..b"));
    let a = c.step(&ran(false, "", "fatal: 'a..b' is not a valid branch name\n"));
    match a {
        CheckoutAction::Finish(Err(MaintError::InvalidBranch { name, reason })) => {
            assert_eq!(name, "a..b");
            assert_eq!(reason, "fatal: 'a..b' is not a valid branch name");
        }
        _ => panic!("InvalidBranch expected"),
    }
}

#[test]
fn remove_rejects_invalid_sandbox() {
    assert!(matches!(validate_sandbox_name(".."), Err(MaintError::InvalidSandboxName { .. })));
}

#[test]
fn checkout_existing_worktree_is_idempotent() {
    let mut c = Checkout::new("sb1", "main", Some("develop"));
    assert!(matches!(c.step(&start()), CheckoutAction::CheckRefFormat(ref n) if n == "main"));
    assert!(matches!(c.step(&ran(true, "", "")), CheckoutAction::CheckRefFormat(ref n) if n == "develop"));
    assert!(matches!(c.step(&ran(true, "", "")), CheckoutAction::WorktreeExists(ref p) if p == "worktrees/sb1"));
    assert!(matches!(c.step(&ran(true, "", "")), CheckoutAction::Finish(Ok(()))));
}

#[test]
fn checkout_new_branch_from_resolved_default() {
    let mut c = Checkout::new("sb1", "feat", Some(""));
    c.step(&start());
    assert!(matches!(c.step(&ran(true, "", "")), CheckoutAction::WorktreeExists(_)));
    assert_eq!(git_args(c.step(&ran(false, "", ""))), strs(&["--git-dir", "repo.git", "symbolic-ref", "--short", "HEAD"]));
    assert_eq!(
        git_args(c.step(&ran(true, "trunk\n", ""))),
        strs(&["--git-dir", "repo.git", "show-ref", "--verify", "--quiet", "refs/heads/feat"])
    );
    assert_eq!(
        git_args(c.step(&ran(false, "", ""))),
        strs(&["--git-dir", "repo.git", "worktree", "add", "-b", "feat", "worktrees/sb1", "trunk"])
    );
    assert!(matches!(c.step(&ran(true, "", "")), CheckoutAction::Finish(Ok(()))));
}

#[test]
fn checkout_default_falls_back_to_main_and_reports_add_failure() {
    let mut c = Checkout::new("sb1", "feat", None);
    c.step(&start());
    c.step(&ran(true, "", ""));
    c.step(&ran(false, "", ""));
    c.step(&ran(false, "", "no HEAD"));
    let add = git_args(c.step(&ran(true, "", "")));
    assert_eq!(add, strs(&["--git-dir", "repo.git", "worktree", "add", "worktrees/sb1", "feat"]));
    match c.step(&ran(false, "", "boom")) {
        CheckoutAction::Finish(Err(MaintError::GitFailed { args, status, stderr })) => {
            assert_eq!(args, add);
            assert_eq!(status, "exit status: 1");
            assert_eq!(stderr, "boom");
        }
        _ => panic!("GitFailed expected"),
    }
}

#[test]
fn checkout_without_default_resolves_main_when_git_fails() {
    let mut c = Checkout::new("sb1", "feat", None);
    c.step(&start());
    c.step(&ran(true, "", ""));
    c.step(&ran(false, "", ""));
    c.step(&ran(false, "", ""));
    let add = git_args(c.step(&ran(false, "", "")));
    assert_eq!(add, strs(&["--git-dir", "repo.git", "worktree", "add", "-b", "feat", "worktrees/sb1", "main"]));
}
