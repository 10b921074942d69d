//! Repositories: their state, their patches, and the commands that tell.

use vstd::prelude::*;

use crate::text;

pub mod arc;
pub mod command;
pub mod patch;
pub mod pr;
pub mod status;
pub mod vcs;

pub use command::{
    branch_delete, branch_exists, fetch_pr_number, repo_root, run_git_capture, worktree_add,
    worktree_remove,
};
pub use pr::{PrCache, PR_CACHE_TTL};
pub use status::{fetch_git_data, GitReplies};
pub use vcs::{fetch_vcs_entries, fetch_vcs_entry, vcs_patch, vcs_patch_bytes};

verus! {

/// A file entry with its status indicator, name, and per-file diff stats.
#[derive(Debug, PartialEq)]
pub struct GitFileEntry {
    pub status: char,
    pub name: String,
    pub path: String,
    pub additions: usize,
    pub deletions: usize,
}

/// The model of a file entry.
pub struct FileModel {
    pub status: char,
    pub name: Seq<char>,
    pub path: Seq<char>,
    pub additions: usize,
    pub deletions: usize,
}

impl View for GitFileEntry {
    type V = FileModel;

    open spec fn view(&self) -> FileModel {
        FileModel {
            status: self.status,
            name: self.name@,
            path: self.path@,
            additions: self.additions,
            deletions: self.deletions,
        }
    }
}

/// The models of a list of file entries.
pub open spec fn file_models(entries: Seq<GitFileEntry>) -> Seq<FileModel> {
    entries.map_values(|entry: GitFileEntry| entry@)
}

/// All git information gathered in a single background pass
#[derive(Debug)]
pub struct GitData {
    pub diff_stat: Option<(usize, usize)>,
    pub branch: String,
    pub ahead_behind: Option<(usize, usize)>,
    pub staged_files: Vec<GitFileEntry>,
    pub unstaged_files: Vec<GitFileEntry>,
    pub untracked_files: Vec<String>,
    pub remote_url: String,
    pub pr_number: Option<String>,
}

impl GitData {
    /// Whether nothing is known.
    pub open spec fn blank(&self) -> bool {
        &&& self.diff_stat is None
        &&& self.branch@.len() == 0
        &&& self.ahead_behind is None
        &&& self.staged_files@.len() == 0
        &&& self.unstaged_files@.len() == 0
        &&& self.untracked_files@.len() == 0
        &&& self.remote_url@.len() == 0
        &&& self.pr_number is None
    }
}

/// The model of what is known of a checkout.
#[verifier::ext_equal]
pub struct DataModel {
    pub diff_stat: Option<(usize, usize)>,
    pub branch: Seq<char>,
    pub ahead_behind: Option<(usize, usize)>,
    pub staged_files: Seq<FileModel>,
    pub unstaged_files: Seq<FileModel>,
    pub untracked_files: Seq<Seq<char>>,
    pub remote_url: Seq<char>,
    pub pr_number: Option<Seq<char>>,
}

impl View for GitData {
    type V = DataModel;

    open spec fn view(&self) -> DataModel {
        DataModel {
            diff_stat: self.diff_stat,
            branch: self.branch@,
            ahead_behind: self.ahead_behind,
            staged_files: file_models(self.staged_files@),
            unstaged_files: file_models(self.unstaged_files@),
            untracked_files: text::texts(self.untracked_files@),
            remote_url: self.remote_url@,
            pr_number: text::opt(self.pr_number),
        }
    }
}

impl GitData {
    /// The number of files that differ from HEAD.
    pub fn changed_file_count(&self) -> (count: usize)
        requires
            self.staged_files@.len() + self.unstaged_files@.len() + self.untracked_files@.len()
                <= usize::MAX,
        ensures
            count == self@.staged_files.len() + self@.unstaged_files.len()
                + self@.untracked_files.len(),
    {
        self.staged_files.len() + self.unstaged_files.len() + self.untracked_files.len()
    }
}

impl Default for GitData {
    fn default() -> (data: Self)
        ensures
            data.blank(),
    {
        GitData {
            diff_stat: None,
            branch: String::new(),
            ahead_behind: None,
            staged_files: Vec::new(),
            unstaged_files: Vec::new(),
            untracked_files: Vec::new(),
            remote_url: String::new(),
            pr_number: None,
        }
    }
}

/// The version control system of a repository.
#[derive(Debug, Clone, Copy, PartialEq, Eq, Structural)]
pub enum VcsKind {
    Git,
    Arc,
}

/// The label of a version control system.
pub open spec fn kind_label(kind: VcsKind) -> Seq<char> {
    match kind {
        VcsKind::Git => "Git"@,
        VcsKind::Arc => "Arc"@,
    }
}

impl VcsKind {
    /// The label of a version control system.
    pub fn label(self) -> (label: &'static str)
        ensures
            label@ == kind_label(self),
    {
        match self {
            VcsKind::Git => "Git",
            VcsKind::Arc => "Arc",
        }
    }
}

/// A repository touched by one or more agent panes. `root` is the VCS root,
/// never a pane cwd, so worktree subdirectories collapse into one row.
#[derive(Debug, PartialEq, Eq)]
pub struct VcsEntry {
    pub kind: VcsKind,
    pub root: String,
    pub branch: String,
    pub diff_stat: Option<(usize, usize)>,
}

} // verus!
