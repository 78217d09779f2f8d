use pty_sessions::git::{
    classify_line, command_outcome, commit_outcome, contains_text, status_from_lines, ChangeKind,
    GitError,
};

fn lines(v: &[&str]) -> Vec<String> {
    v.iter().map(|s| s.to_string()).collect()
}

#[test]
fn porcelain_lines_are_classified() {
    assert!(matches!(classify_line("?? new.txt"), Some((ChangeKind::Untracked, p)) if p == "new.txt"));
    assert!(matches!(classify_line("M  a.rs"), Some((ChangeKind::Staged, p)) if p == "a.rs"));
    assert!(matches!(classify_line("MM b.rs"), Some((ChangeKind::Staged, p)) if p == "b.rs"));
    assert!(matches!(classify_line(" M c.rs"), Some((ChangeKind::Unstaged, p)) if p == "c.rs"));
    assert!(matches!(classify_line(" D d.rs"), Some((ChangeKind::Unstaged, p)) if p == "d.rs"));
    assert!(classify_line("M").is_none());
    assert!(classify_line("").is_none());
    assert!(classify_line("   x").is_none());
}

#[test]
fn empty_status_has_no_changes() {
    let s = status_from_lines("master".to_string(), &Vec::new());
    assert_eq!(s.branch, "master");
    assert!(!s.has_changes);
    assert!(s.staged_files.is_empty() && s.unstaged_files.is_empty() && s.untracked_files.is_empty());
}

#[test]
fn status_sorts_paths_into_lists() {
    let s = status_from_lines(
        "main".to_string(),
        &lines(&[" M test.txt", "A  new.rs", "?? junk", "?? more", "x"]),
    );
    assert!(s.has_changes);
    assert_eq!(s.unstaged_files, lines(&["test.txt"]));
    assert_eq!(s.staged_files, lines(&["new.rs"]));
    assert_eq!(s.untracked_files, lines(&["junk", "more"]));
}

#[test]
fn text_search() {
    assert!(contains_text("On branch master\nnothing to commit, working tree clean", "nothing to commit"));
    assert!(contains_text("abc", ""));
    assert!(contains_text("abc", "abc"));
    assert!(!contains_text("ab", "abc"));
    assert!(!contains_text("nothing to comit", "nothing to commit"));
}

#[test]
fn commit_with_nothing_to_commit_succeeds() {
    assert!(commit_outcome(true, String::new()).is_ok());
    assert!(commit_outcome(false, "nothing to commit, working tree clean".to_string()).is_ok());
    assert!(commit_outcome(false, "no changes added to commit".to_string()).is_ok());
    match commit_outcome(false, "fatal: bad".to_string()) {
        Err(GitError::CommandFailed(m)) => assert_eq!(m, "fatal: bad"),
        _ => panic!("expected failure"),
    }
}

#[test]
fn failed_command_keeps_its_text() {
    assert!(command_outcome(true, "warning".to_string()).is_ok());
    match command_outcome(false, "fatal: no remote".to_string()) {
        Err(GitError::CommandFailed(m)) => assert_eq!(m, "fatal: no remote"),
        _ => panic!("expected failure"),
    }
}

#[test]
fn git_error_messages() {
    assert_eq!(GitError::CommandFailed("x".to_string()).message(), "Git command failed: x");
    assert_eq!(GitError::InvalidPath.message(), "Invalid path");
    assert_eq!(GitError::NotARepository.message(), "Not a git repository");
}
