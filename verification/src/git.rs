//! A snapshot of the repository state shown in the status bar.
use vstd::prelude::*;

use crate::text::{decimal, lines_of, push_char, push_decimal, push_str, split_lines, strs_view, trim, trim_owned};

verus! {

/// Lightweight snapshot of git repo state.
#[derive(Debug, Clone)]
pub struct GitInfo {
    /// Current branch name (e.g. "main", "feature/foo").
    pub branch: Option<String>,
    /// Number of dirty (modified/untracked) files.
    pub dirty_count: usize,
}

impl Default for GitInfo {
    fn default() -> (g: Self)
        ensures
            g.branch is None,
            g.dirty_count == 0,
    {
        GitInfo { branch: None, dirty_count: 0 }
    }
}

/// The status-bar text for a branch and a dirty count: " main", or
/// " main *3" when files are dirty.
pub open spec fn display_text(branch: Seq<char>, dirty: nat) -> Seq<char> {
    if dirty > 0 {
        " "@ + branch + " *"@ + decimal(dirty)
    } else {
        " "@ + branch
    }
}

impl GitInfo {
    /// Format for display in the status bar; `None` outside a branch.
    pub fn display(&self) -> (r: Option<String>)
        ensures
            match self.branch {
                Some(b) => r matches Some(s) && s@ == display_text(b@, self.dirty_count as nat),
                None => r is None,
            },
    {
        match &self.branch {
            Some(b) => {
                let mut s = String::new();
                push_char(&mut s, ' ');
                push_str(&mut s, b.as_str());
                if self.dirty_count > 0 {
                    push_str(&mut s, " *");
                    push_decimal(&mut s, self.dirty_count as u64);
                }
                proof {
                    reveal_strlit(" ");
                    assert(" "@ =~= seq![' ']);
                }
                Some(s)
            },
            None => None,
        }
    }

    /// Whether any file is dirty.
    pub fn is_dirty(&self) -> (r: bool)
        ensures
            r == (self.dirty_count > 0),
    {
        self.dirty_count > 0
    }
}

/// The branch named by the output of `git rev-parse --abbrev-ref HEAD`: the
/// trimmed text, or nothing when that is empty.
pub open spec fn branch_of_output(out: Seq<char>) -> Option<Seq<char>> {
    if trim(out).len() == 0 {
        None
    } else {
        Some(trim(out))
    }
}

/// How many of the lines of `out` are not empty.
pub open spec fn nonempty_lines(lines: Seq<Seq<char>>) -> nat
    decreases lines.len(),
{
    if lines.len() == 0 {
        0
    } else {
        nonempty_lines(lines.drop_last()) + if lines.last().len() > 0 {
            1nat
        } else {
            0nat
        }
    }
}

/// Reads the branch name out of `git rev-parse --abbrev-ref HEAD` output.
pub fn branch_from_output(out: &str) -> (r: Option<String>)
    ensures
        match r {
            Some(s) => branch_of_output(out@) == Some(s@),
            None => branch_of_output(out@) is None,
        },
{
    let s = trim_owned(out);
    if s.as_str().is_empty() {
        None
    } else {
        Some(s)
    }
}

/// Counts the dirty files listed in `git status --porcelain` output: its
/// non-empty lines.
pub fn dirty_count_from_output(out: &str) -> (n: usize)
    ensures
        n == nonempty_lines(lines_of(out@)),
{
    let lines = split_lines(out);
    let ghost ls = strs_view(lines@);
    let mut n: usize = 0;
    let mut i: usize = 0;
    while i < lines.len()
        invariant
            i <= lines.len(),
            n <= i,
            ls == strs_view(lines@),
            ls == lines_of(out@),
            n == nonempty_lines(ls.take(i as int)),
        decreases lines.len() - i,
    {
        proof {
            assert(ls.take(i + 1).drop_last() =~= ls.take(i as int));
            assert(ls.take(i + 1).last() == lines@[i as int]@);
        }
        if !lines[i].is_empty() {
            n = n + 1;
        }
        i = i + 1;
    }
    proof {
        assert(ls.take(lines.len() as int) =~= ls);
    }
    n
}

} // verus!
