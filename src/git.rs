//! Repository status as reported by git's porcelain format, and the errors of
//! the git commands.

use vstd::prelude::*;

verus! {

/// The state of a working tree.
#[derive(Debug)]
pub struct GitStatus {
    pub branch: String,
    pub has_changes: bool,
    pub staged_files: Vec<String>,
    pub unstaged_files: Vec<String>,
    pub untracked_files: Vec<String>,
}

/// Why a git operation failed.
#[derive(Debug)]
pub enum GitError {
    /// The command could not run, or reported failure with this text.
    CommandFailed(String),
    /// The repository directory does not exist.
    InvalidPath,
    /// The directory is not inside a repository.
    NotARepository,
}

impl GitError {
    pub open spec fn message_spec(&self) -> Seq<char> {
        match self {
            GitError::CommandFailed(m) => "Git command failed: "@ + m@,
            GitError::InvalidPath => "Invalid path"@,
            GitError::NotARepository => "Not a git repository"@,
        }
    }

    /// The human-readable text of the error.
    pub fn message(&self) -> (r: String)
        ensures
            r@ == self.message_spec(),
    {
        match self {
            GitError::CommandFailed(m) => String::from_str("Git command failed: ").concat(
                m.as_str(),
            ),
            GitError::InvalidPath => String::from_str("Invalid path"),
            GitError::NotARepository => String::from_str("Not a git repository"),
        }
    }
}

/// Which list a porcelain status line puts its path in.
#[derive(PartialEq, Eq, Structural, Clone, Copy, Debug)]
pub enum ChangeKind {
    Staged,
    Unstaged,
    Untracked,
}

/// The list of a porcelain line `XY path`: untracked for `??`; else staged
/// when X records a change; else unstaged when Y does; none for a line too
/// short to hold a path or with no change recorded.
pub open spec fn change_kind(line: Seq<char>) -> Option<ChangeKind> {
    if line.len() < 3 {
        None
    } else if line[0] == '?' && line[1] == '?' {
        Some(ChangeKind::Untracked)
    } else if line[0] != ' ' && line[0] != '?' {
        Some(ChangeKind::Staged)
    } else if line[1] != ' ' && line[1] != '?' {
        Some(ChangeKind::Unstaged)
    } else {
        None
    }
}

/// The path of a porcelain line: all that follows the two status letters and
/// the separator.
pub open spec fn line_path(line: Seq<char>) -> Seq<char> {
    line.subrange(3, line.len() as int)
}

/// The paths that the lines put in the list `kind`, in order.
pub open spec fn files_of(lines: Seq<Seq<char>>, kind: ChangeKind) -> Seq<Seq<char>>
    decreases lines.len(),
{
    if lines.len() == 0 {
        Seq::empty()
    } else {
        let rest = files_of(lines.drop_last(), kind);
        if change_kind(lines.last()) == Some(kind) {
            rest.push(line_path(lines.last()))
        } else {
            rest
        }
    }
}

pub open spec fn texts(v: Seq<String>) -> Seq<Seq<char>> {
    v.map_values(|s: String| s@)
}

/// The list and the path of one porcelain status line.
pub fn classify_line(line: &str) -> (r: Option<(ChangeKind, String)>)
    ensures
        match r {
            Some(p) => change_kind(line@) == Some(p.0) && p.1@ == line_path(line@),
            None => change_kind(line@) is None,
        },
{
    let n = line.unicode_len();
    if n < 3 {
        return None;
    }
    let x = line.get_char(0);
    let y = line.get_char(1);
    let kind = if x == '?' && y == '?' {
        ChangeKind::Untracked
    } else if x != ' ' && x != '?' {
        ChangeKind::Staged
    } else if y != ' ' && y != '?' {
        ChangeKind::Unstaged
    } else {
        return None;
    };
    let path = String::from_str(line.substring_char(3, n));
    Some((kind, path))
}

/// The status of a working tree on `branch` whose porcelain output has the
/// given lines.
pub fn status_from_lines(branch: String, lines: &Vec<String>) -> (r: GitStatus)
    ensures
        r.branch == branch,
        texts(r.staged_files@) == files_of(texts(lines@), ChangeKind::Staged),
        texts(r.unstaged_files@) == files_of(texts(lines@), ChangeKind::Unstaged),
        texts(r.untracked_files@) == files_of(texts(lines@), ChangeKind::Untracked),
        r.has_changes == (r.staged_files@.len() > 0 || r.unstaged_files@.len() > 0
            || r.untracked_files@.len() > 0),
{
    let mut staged: Vec<String> = Vec::new();
    let mut unstaged: Vec<String> = Vec::new();
    let mut untracked: Vec<String> = Vec::new();
    let mut i: usize = 0;
    while i < lines.len()
        invariant
            i <= lines@.len(),
            texts(staged@) == files_of(texts(lines@).take(i as int), ChangeKind::Staged),
            texts(unstaged@) == files_of(texts(lines@).take(i as int), ChangeKind::Unstaged),
            texts(untracked@) == files_of(texts(lines@).take(i as int), ChangeKind::Untracked),
        decreases lines@.len() - i,
    {
        let ghost before = texts(lines@).take(i as int);
        let ghost after = texts(lines@).take(i as int + 1);
        proof {
            assert(after.drop_last() =~= before);
            assert(after.last() == lines@[i as int]@);
        }
        let ghost (s0, u0, t0) = (staged@, unstaged@, untracked@);
        match classify_line(lines[i].as_str()) {
            Some((ChangeKind::Staged, p)) => staged.push(p),
            Some((ChangeKind::Unstaged, p)) => unstaged.push(p),
            Some((ChangeKind::Untracked, p)) => untracked.push(p),
            None => {},
        }
        proof {
            assert(texts(staged@) =~= files_of(after, ChangeKind::Staged)) by {
                if staged@.len() > s0.len() {
                    assert(texts(staged@) =~= texts(s0).push(staged@.last()@));
                }
            }
            assert(texts(unstaged@) =~= files_of(after, ChangeKind::Unstaged)) by {
                if unstaged@.len() > u0.len() {
                    assert(texts(unstaged@) =~= texts(u0).push(unstaged@.last()@));
                }
            }
            assert(texts(untracked@) =~= files_of(after, ChangeKind::Untracked)) by {
                if untracked@.len() > t0.len() {
                    assert(texts(untracked@) =~= texts(t0).push(untracked@.last()@));
                }
            }
        }
        i += 1;
    }
    proof {
        assert(texts(lines@).take(lines@.len() as int) =~= texts(lines@));
    }
    let has_changes = staged.len() > 0 || unstaged.len() > 0 || untracked.len() > 0;
    GitStatus {
        branch,
        has_changes,
        staged_files: staged,
        unstaged_files: unstaged,
        untracked_files: untracked,
    }
}

/// `needle` occurs in `hay` at some position.
pub open spec fn occurs_in(hay: Seq<char>, needle: Seq<char>) -> bool {
    exists|i: int| 0 <= i <= hay.len() - needle.len() && #[trigger] hay.subrange(i, i + needle.len()) == needle
}

/// Whether `needle` occurs in `hay`.
pub fn contains_text(hay: &str, needle: &str) -> (r: bool)
    ensures
        r == occurs_in(hay@, needle@),
{
    let h = hay.unicode_len();
    let m = needle.unicode_len();
    if m > h {
        return false;
    }
    let mut i: usize = 0;
    while i <= h - m
        invariant
            h == hay@.len(),
            m == needle@.len(),
            m <= h,
            i <= h - m + 1,
            forall|k: int| 0 <= k < i ==> #[trigger] hay@.subrange(k, k + m) != needle@,
        decreases h - m + 1 - i,
    {
        let mut j: usize = 0;
        let mut same = true;
        while j < m
            invariant
                h == hay@.len(),
                m == needle@.len(),
                i + m <= h,
                j <= m,
                same == forall|t: int| 0 <= t < j ==> hay@[i + t] == needle@[t],
            decreases m - j,
        {
            if hay.get_char(i + j) != needle.get_char(j) {
                same = false;
            }
            j += 1;
        }
        if same {
            assert(hay@.subrange(i as int, i + m) =~= needle@);
            return true;
        }
        proof {
            let t = choose|t: int| 0 <= t < m && hay@[i + t] != needle@[t];
            assert(hay@.subrange(i as int, i + m)[t] == hay@[i + t]);
        }
        i += 1;
    }
    false
}

/// The result of a command that ran, from whether it succeeded and what it
/// wrote to its error stream.
pub fn command_outcome(succeeded: bool, stderr: String) -> (r: Result<(), GitError>)
    ensures
        succeeded ==> r is Ok,
        !succeeded ==> (r matches Err(GitError::CommandFailed(m)) && m == stderr),
{
    if succeeded {
        Ok(())
    } else {
        Err(GitError::CommandFailed(stderr))
    }
}

/// The result of a commit: one that failed only because there was nothing
/// to commit counts as success.
pub fn commit_outcome(succeeded: bool, stderr: String) -> (r: Result<(), GitError>)
    ensures
        r is Ok <==> (succeeded || occurs_in(stderr@, "nothing to commit"@) || occurs_in(
            stderr@,
            "no changes added"@,
        )),
        r matches Err(GitError::CommandFailed(m)) ==> m == stderr,
        r matches Err(e) ==> e is CommandFailed,
{
    if succeeded || contains_text(stderr.as_str(), "nothing to commit") || contains_text(
        stderr.as_str(),
        "no changes added",
    ) {
        Ok(())
    } else {
        Err(GitError::CommandFailed(stderr))
    }
}

} // verus!
