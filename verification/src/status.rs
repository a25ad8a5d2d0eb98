//! What happened to each entry that was visited, and the lines that report it.
use vstd::prelude::*;
use vstd::string::StringExecFns;

verus! {

/// The fate of one visited entry.
#[derive(Clone, Copy, Debug, PartialEq, Eq, Structural)]
pub enum Outcome {
    /// The file was removed (or would have been, when nothing is removed).
    FileDeleted,
    /// The file is younger than the threshold, or its age could not be read.
    FileSkippedTooYoung,
    /// The file was old enough, but removing it failed.
    FileDeleteFailed,
    /// The directory was removed (or would have been, when nothing is removed).
    DirectoryDeleted,
    /// Something beneath the directory is still there, so it was left alone.
    DirectoryNotEmptyEnough,
    /// Everything beneath the directory is gone, but removing it failed.
    DirectoryDeleteFailed,
}

impl Outcome {
    /// Whether the entry counts as cleared away.
    pub open spec fn is_cleared(self) -> bool {
        self == Outcome::FileDeleted || self == Outcome::DirectoryDeleted
    }

    /// The words that introduce the entry's path in a status line.
    pub open spec fn label(self) -> Seq<char> {
        match self {
            Outcome::FileDeleted => "File deleted: "@,
            Outcome::FileSkippedTooYoung => "File not old enough to be deleted: "@,
            Outcome::FileDeleteFailed => "Failed to delete file: "@,
            Outcome::DirectoryDeleted => "Directory deleted: "@,
            Outcome::DirectoryNotEmptyEnough =>
                "Failed to delete all files/directories within directory: "@,
            Outcome::DirectoryDeleteFailed => "Failed to delete directory: "@,
        }
    }

    /// Computes [`Outcome::is_cleared`].
    pub fn cleared(&self) -> (b: bool)
        ensures
            b == self.is_cleared(),
    {
        match self {
            Outcome::FileDeleted => true,
            Outcome::DirectoryDeleted => true,
            _ => false,
        }
    }
}

/// One line of the audit trail: an entry's path and what happened to it.
#[derive(Debug, PartialEq, Eq)]
pub struct StatusLine {
    pub outcome: Outcome,
    pub path: String,
}

/// The mathematical content of a [`StatusLine`].
pub struct StatusLineView {
    pub outcome: Outcome,
    pub path: Seq<char>,
}

impl StatusLineView {
    /// The line as it is shown: the outcome's label, then the path.
    pub open spec fn text(self) -> Seq<char> {
        self.outcome.label() + self.path
    }
}

impl View for StatusLine {
    type V = StatusLineView;

    open spec fn view(&self) -> StatusLineView {
        StatusLineView { outcome: self.outcome, path: self.path@ }
    }
}

impl DeepView for StatusLine {
    type V = StatusLineView;

    open spec fn deep_view(&self) -> StatusLineView {
        self@
    }
}

impl StatusLine {
    /// The line that reports `outcome` for the entry at `path`.
    pub fn new(outcome: Outcome, path: String) -> (line: StatusLine)
        ensures
            line@ == (StatusLineView { outcome, path: path@ }),
    {
        StatusLine { outcome, path }
    }

    /// The line as it is shown: computes [`StatusLineView::text`].
    pub fn text(&self) -> (s: String)
        ensures
            s@ == self@.text(),
    {
        let label: &str = match self.outcome {
            Outcome::FileDeleted => "File deleted: ",
            Outcome::FileSkippedTooYoung => "File not old enough to be deleted: ",
            Outcome::FileDeleteFailed => "Failed to delete file: ",
            Outcome::DirectoryDeleted => "Directory deleted: ",
            Outcome::DirectoryNotEmptyEnough =>
                "Failed to delete all files/directories within directory: ",
            Outcome::DirectoryDeleteFailed => "Failed to delete directory: ",
        };
        let mut s = String::from_str(label);
        s.append(self.path.as_str());
        s
    }
}

/// The closing line of a run that came to an end: whether everything was
/// cleared away.
pub open spec fn summary_text(all_cleared: bool) -> Seq<char> {
    if all_cleared {
        "All files deleted: true"@
    } else {
        "All files deleted: false"@
    }
}

/// The single line shown when the traversal itself broke off.
pub open spec fn failure_text() -> Seq<char> {
    "An error occurred while deleting files."@
}

/// The line that closes a run: [`summary_text`] of the result when the run came
/// to an end, [`failure_text`] when the traversal broke off.
pub fn closing_line(finished: Option<bool>) -> (s: String)
    ensures
        s@ == match finished {
            Some(all_cleared) => summary_text(all_cleared),
            None => failure_text(),
        },
{
    match finished {
        Some(true) => String::from_str("All files deleted: true"),
        Some(false) => String::from_str("All files deleted: false"),
        None => String::from_str("An error occurred while deleting files."),
    }
}

} // verus!
