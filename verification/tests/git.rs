use vanyline_sandbox::git::{
    commit_args, origin_branch_ref, unpushed_log_args,
    check_not_detached, compare_target, default_branch_from, diff_args, parse_commit_output,
    parse_commits, parse_status, stage_args, unpushed_status, unstage_args, CommitEntry, FileState,
    GitError,
};

fn clean_output() -> &'static str {
    "# branch.oid dce41965c9aa085042cef737c1eaa4141a055b5a\n\
     # branch.head main\n"
}

#[test]
fn clean_repo() {
    let result = parse_status(clean_output()).unwrap();
    assert_eq!(result.branch, "main");
    assert!(result.files.is_empty());
    assert!(result.clean);
}

#[test]
fn staged_added() {
    let output = "\
# branch.oid dce41965c9aa085042cef737c1eaa4141a055b5a\n\
# branch.head main\n\
1 A. N... 000000 100644 100644 0000000000000000000000000000000000000000 7864480e4202ea42b4c55eec46eff4cb8987a582 staged_add.txt\n\
";
    let result = parse_status(output).unwrap();
    assert_eq!(result.files.len(), 1);
    assert_eq!(result.files[0].path, "staged_add.txt");
    assert_eq!(result.files[0].state, FileState::Added);
    assert!(result.files[0].staged);
}

#[test]
fn unstaged_modified() {
    let output = "\
# branch.oid dce41965c9aa085042cef737c1eaa4141a055b5a\n\
# branch.head main\n\
1 .M N... 100644 100644 100644 78981922613b2afb6025042ff6bd878ac1994e85 78981922613b2afb6025042ff6bd878ac1994e85 tracked.txt\n\
";
    let result = parse_status(output).unwrap();
    assert_eq!(result.files.len(), 1);
    assert_eq!(result.files[0].path, "tracked.txt");
    assert_eq!(result.files[0].state, FileState::Modified);
    assert!(!result.files[0].staged);
}

#[test]
fn staged_and_unstaged_modified() {
    let output = "\
# branch.oid dce41965c9aa085042cef737c1eaa4141a055b5a\n\
# branch.head main\n\
1 MM N... 100644 100644 100644 76b5eb87f1cb631b7ae3229e54551d5de3530edb 5b33df4f36142872f4b5bb89fa44e08d8ad4594f tracked.txt\n\
";
    let result = parse_status(output).unwrap();
    assert_eq!(result.files.len(), 1);
    assert_eq!(result.files[0].path, "tracked.txt");
    assert_eq!(result.files[0].state, FileState::Modified);
    assert!(result.files[0].staged);
}

#[test]
fn renamed() {
    let output = "\
# branch.oid dce41965c9aa085042cef737c1eaa4141a055b5a\n\
# branch.head main\n\
2 R. N... 100644 100644 100644 f2ad6c76f0115a6ba5b00456a849810e7ec0af20 f2ad6c76f0115a6ba5b00456a849810e7ec0af20 R100 to_rename_new.txt\tto_rename_old.txt\n\
";
    let result = parse_status(output).unwrap();
    assert_eq!(result.files.len(), 1);
    assert_eq!(result.files[0].path, "to_rename_new.txt");
    assert_eq!(result.files[0].state, FileState::Renamed);
}

#[test]
fn untracked() {
    let output = "\
# branch.oid dce41965c9aa085042cef737c1eaa4141a055b5a\n\
# branch.head main\n\
? untracked.txt\n\
";
    let result = parse_status(output).unwrap();
    assert_eq!(result.files.len(), 1);
    assert_eq!(result.files[0].path, "untracked.txt");
    assert_eq!(result.files[0].state, FileState::Untracked);
    assert!(!result.files[0].staged);
}

#[test]
fn conflicted() {
    let output = "\
# branch.oid dce41965c9aa085042cef737c1eaa4141a055b5a\n\
# branch.head main\n\
u AA N... 000000 100644 100644 100644 0000000000000000000000000000000000000000 223b7836fb19fdf64ba2d3cd6173c6a283141f78 f70f10e4db19068f79bc43844b49f3eece45c4e8 conflict.txt\n\
";
    let result = parse_status(output).unwrap();
    assert_eq!(result.files.len(), 1);
    assert_eq!(result.files[0].path, "conflict.txt");
    assert_eq!(result.files[0].state, FileState::Conflicted);
    assert!(result.files[0].staged);
}

#[test]
fn detached_head() {
    let output = "\
# branch.oid dce41965c9aa085042cef737c1eaa4141a055b5a\n\
# branch.head (detached)\n\
";
    let result = parse_status(output).unwrap();
    assert_eq!(result.branch, "(detached)");
    assert!(result.files.is_empty());
}

#[test]
fn unrecognized_line_is_parse_error() {
    let output = "\
# branch.oid dce41965c9aa085042cef737c1eaa4141a055b5a\n\
# branch.head main\n\
X foo\n\
";
    let result = parse_status(output);
    assert!(result.is_err());
    match result.unwrap_err() {
        GitError::ParseFailed { line_no, line } => {
            assert_eq!(line_no, 3);
            assert_eq!(line, "X foo");
        }
        _ => panic!("expected ParseFailed"),
    }
}

#[test]
fn missing_branch_head_is_parse_error() {
    let output = "\
# branch.oid dce41965c9aa085042cef737c1eaa4141a055b5a\n\
";
    let result = parse_status(output);
    assert!(result.is_err());
    match result.unwrap_err() {
        GitError::ParseFailed { line_no, line } => {
            assert_eq!(line_no, 0);
            assert_eq!(line, "missing '# branch.head' header in git status output");
        }
        _ => panic!("expected ParseFailed"),
    }
}

// ── parse_commits (unpushed) ───────────────────────────────────────────

#[test]
fn parse_commits_nominal() {
    let sep = '\u{1f}';
    let output = format!(
        "abcdef123456{sep}Initial commit{sep}Alice{sep}2024-01-01T10:00:00Z\n\
         fedcba987654{sep}Second commit{sep}Bob{sep}2024-01-02T14:30:00Z",
        sep = sep,
    );
    let result = parse_commits(&output).unwrap();
    assert_eq!(result.len(), 2);
    assert_eq!(result[0].sha, "abcdef1");
    assert_eq!(result[0].title, "Initial commit");
    assert_eq!(result[0].author, "Alice");
    assert_eq!(result[0].date, "2024-01-01T10:00:00Z");
    assert_eq!(result[1].sha, "fedcba9");
    assert_eq!(result[1].title, "Second commit");
    assert_eq!(result[1].author, "Bob");
    assert_eq!(result[1].date, "2024-01-02T14:30:00Z");
}

#[test]
fn parse_commits_empty_output() {
    let result = parse_commits("").unwrap();
    assert!(result.is_empty());
}

#[test]
fn parse_commits_malformed_line_is_parse_error() {
    let result = parse_commits("abc123 no separator");
    assert!(result.is_err());
    match result.unwrap_err() {
        GitError::ParseFailed { line_no, line } => {
            assert_eq!(line_no, 1);
            assert_eq!(line, "abc123 no separator");
        }
        _ => panic!("expected ParseFailed"),
    }
}

// ── Helpers git (diff/stage/unstage/commit) ────────────────────────────

#[test]
fn diff_args_staged() {
    assert_eq!(
        diff_args("a/b.txt", true),
        vec!["diff", "--staged", "--", "a/b.txt"]
    );
    assert_eq!(
        diff_args("a/b.txt", false),
        vec!["diff", "--", "a/b.txt"]
    );
}

#[test]
fn stage_args_include_paths() {
    assert_eq!(
        stage_args(&["a.txt".to_string(), "b/c.txt".to_string()]),
        vec!["add", "--", "a.txt", "b/c.txt"]
    );
}

#[test]
fn unstage_args_include_paths() {
    assert_eq!(
        unstage_args(&["a.txt".to_string()]),
        vec!["restore", "--staged", "--", "a.txt"]
    );
}

#[test]
fn parse_commit_output_nominal() {
    let input = "dce41965c9aa085042cef737c1eaa4141a055b5a\u{1f}Initial commit";
    let result = parse_commit_output(input).unwrap();
    assert_eq!(
        result,
        ("dce41965c9aa085042cef737c1eaa4141a055b5a".to_string(), "Initial commit".to_string())
    );
}

#[test]
fn parse_commit_output_malformed() {
    let result = parse_commit_output("no separator");
    assert!(result.is_err());
    match result.unwrap_err() {
        GitError::ParseFailed { line_no, line } => {
            assert_eq!(line_no, 1);
            assert_eq!(line, "no separator");
        }
        _ => panic!("expected ParseFailed"),
    }
}

#[test]
fn parse_commit_output_empty() {
    let result = parse_commit_output("");
    assert!(result.is_err());
    match result.unwrap_err() {
        GitError::ParseFailed { line_no, line } => {
            assert_eq!(line_no, 0);
            assert_eq!(line, "empty output");
        }
        _ => panic!("expected ParseFailed"),
    }
}

// ── further cases ───────────────────────────────────────────────────────────

#[test]
fn deleted_and_added_states_from_xy() {
    let output = "# branch.head dev\n1 D. N... 100644 000000 000000 aaaa bbbb gone.txt\n1 .A N... 0 0 0 a b new.txt\n";
    let result = parse_status(output).unwrap();
    assert_eq!(result.branch, "dev");
    assert_eq!(result.files.len(), 2);
    assert_eq!(result.files[0].state, FileState::Deleted);
    assert!(result.files[0].staged);
    assert_eq!(result.files[1].state, FileState::Added);
    assert!(!result.files[1].staged);
    assert!(!result.clean);
}

#[test]
fn ignored_and_blank_lines_are_skipped() {
    let output = "# branch.head main\n! ignored.txt\n\n# branch.upstream origin/main\n";
    let result = parse_status(output).unwrap();
    assert!(result.files.is_empty());
    assert!(result.clean);
}

#[test]
fn path_with_spaces_is_kept_whole() {
    let output = "# branch.head main\n? dir/a file.txt\n";
    let result = parse_status(output).unwrap();
    assert_eq!(result.files[0].path, "dir/a file.txt");
}

#[test]
fn parse_commits_skips_empty_lines_and_keeps_short_sha() {
    let sep = '\u{1f}';
    let output = format!("abc{sep}t{sep}a{sep}d\n\n");
    let result = parse_commits(&output).unwrap();
    assert_eq!(result.len(), 1);
    assert_eq!(result[0].sha, "abc");
}

#[test]
fn unpushed_status_truncates_at_the_limit() {
    let c = CommitEntry { sha: "a".into(), title: "t".into(), author: "x".into(), date: "d".into() };
    let many: Vec<CommitEntry> = (0..201).map(|_| c.clone()).collect();
    let st = unpushed_status("main".into(), None, many);
    assert!(st.truncated);
    assert_eq!(st.commits.len(), 200);
    let few = vec![c.clone()];
    let st = unpushed_status("main".into(), Some("origin/main".into()), few);
    assert!(!st.truncated);
    assert_eq!(st.commits.len(), 1);
}

#[test]
fn detached_head_is_refused_for_unpushed() {
    assert_eq!(check_not_detached("HEAD"), Err(GitError::DetachedHead));
    assert_eq!(check_not_detached("main"), Ok(()));
}

#[test]
fn default_branch_from_symbolic_ref() {
    assert_eq!(default_branch_from(Some("develop\n")), "develop");
    assert_eq!(compare_target("feat", true, "main"), (Some("origin/feat".to_string()), "origin/feat".to_string()));
    assert_eq!(compare_target("feat", false, "main"), (None, "origin/main".to_string()));
    assert_eq!(default_branch_from(None), "main");
}

#[test]
fn origin_branch_ref_of_branch() {
    assert_eq!(origin_branch_ref("feat/x"), "refs/remotes/origin/feat/x");
}

#[test]
fn unpushed_log_asks_one_commit_more_than_shown() {
    assert_eq!(
        unpushed_log_args("/ws", "origin/main"),
        vec![
            "-C".to_string(),
            "/ws".to_string(),
            "log".to_string(),
            "origin/main..HEAD".to_string(),
            "--max-count=201".to_string(),
            "--pretty=format:%H\u{1f}%s\u{1f}%an\u{1f}%aI".to_string(),
        ]
    );
}

#[test]
fn commit_args_pass_message_as_one_argument() {
    assert_eq!(
        commit_args("/ws", "fix: a b"),
        vec!["-C".to_string(), "/ws".to_string(), "commit".to_string(), "-m".to_string(), "fix: a b".to_string()]
    );
}
