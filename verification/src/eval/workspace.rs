//! Workspaces: copies of a repository in which sessions run.
use vstd::prelude::*;

use crate::text;

verus! {

/// What a session finds in its workspace: only the repository, an index, or an index with
/// summaries.
#[derive(Clone, Copy, Debug, PartialEq, Eq, Structural)]
pub enum WorkspaceKind {
    Control,
    Treatment,
    Enriched,
}

impl WorkspaceKind {
    /// The name of the kind.
    pub open spec fn name(&self) -> Seq<char> {
        match self {
            WorkspaceKind::Control => "control"@,
            WorkspaceKind::Treatment => "treatment"@,
            WorkspaceKind::Enriched => "enriched"@,
        }
    }

    /// The name of the kind.
    pub fn label(&self) -> (r: &'static str)
        ensures
            r@ == self.name(),
    {
        match self {
            WorkspaceKind::Control => "control",
            WorkspaceKind::Treatment => "treatment",
            WorkspaceKind::Enriched => "enriched",
        }
    }
}

/// What a session with an index is told of it.
pub const CODEMAP_INSTRUCTIONS: &'static str = "\
## codemap — codebase intelligence
Use these commands in Bash for structural codebase queries:
- `codemap context \"<task>\"` — find the most relevant files for a task (start here)
- `codemap symbol <name>` — find where a symbol is defined and who uses it
- `codemap deps <file>` — imports and importers of a file
- `codemap map` — ranked overview of top files with signatures";

/// What a session is told before its task, given the map of the code: nothing without an index.
pub fn system_prompt(kind: WorkspaceKind, map_output: &str) -> (r: Option<String>)
    ensures
        text::opt_view(r) == (if kind == WorkspaceKind::Control {
            None
        } else {
            Some(map_output@ + "\n\n"@ + CODEMAP_INSTRUCTIONS@)
        }),
{
    match kind {
        WorkspaceKind::Control => None,
        _ => Some(map_output.to_string().concat("\n\n").concat(CODEMAP_INSTRUCTIONS)),
    }
}

/// What is left out of a copy of a repository.
pub const LEFT_OUT: [&'static str; 3] = [".git", ".codemap", "node_modules"];

/// How a repository is had.
pub enum RepoStep {
    /// It is there; this is told.
    Use { note: String },
    /// It has to be fetched; this is told.
    Clone { note: String },
    /// It cannot be had, and why.
    Stop { message: String },
}

/// How a repository is had, and what is told.
#[verifier::ext_equal]
pub enum RepoStepView {
    Use { note: Seq<char> },
    Clone { note: Seq<char> },
    Stop { message: Seq<char> },
}

impl View for RepoStep {
    type V = RepoStepView;

    open spec fn view(&self) -> RepoStepView {
        match self {
            RepoStep::Use { note } => RepoStepView::Use { note: note@ },
            RepoStep::Clone { note } => RepoStepView::Clone { note: note@ },
            RepoStep::Stop { message } => RepoStepView::Stop { message: message@ },
        }
    }
}

/// How a repository is had: from its directory if that exists, and else from its address.
pub open spec fn repo_step_for(exists: bool, url: Seq<char>, dir: Seq<char>) -> RepoStepView {
    if exists {
        RepoStepView::Use { note: "Using cached repo: "@ + dir + "\n"@ }
    } else if url.len() == 0 {
        RepoStepView::Stop {
            message: "No repo_url in dataset and no cached checkout at "@ + dir
                + ".\nAdd \"repo_url\": \"https://github.com/...\" to the dataset JSON."@,
        }
    } else {
        RepoStepView::Clone { note: "Cloning "@ + url + " into "@ + dir + "...\n"@ }
    }
}

/// How a repository is had.
pub fn repo_step(exists: bool, repo_url: &str, repo_dir: &str) -> (r: RepoStep)
    ensures
        r@ == repo_step_for(exists, repo_url@, repo_dir@),
{
    if exists {
        RepoStep::Use { note: "Using cached repo: ".to_string().concat(repo_dir).concat("\n") }
    } else if text::chars_of(repo_url).len() == 0 {
        RepoStep::Stop {
            message: "No repo_url in dataset and no cached checkout at ".to_string().concat(
                repo_dir,
            ).concat(".\nAdd \"repo_url\": \"https://github.com/...\" to the dataset JSON."),
        }
    } else {
        RepoStep::Clone {
            note: "Cloning ".to_string().concat(repo_url).concat(" into ").concat(
                repo_dir,
            ).concat("...\n"),
        }
    }
}

/// A checkout that is there is used, one that is not is made where an address is known, and nothing
/// goes on without either.
pub proof fn law_repo_step(exists: bool, url: Seq<char>, dir: Seq<char>)
    ensures
        repo_step_for(exists, url, dir) is Use == exists,
        repo_step_for(exists, url, dir) is Clone == (!exists && url.len() > 0),
        repo_step_for(exists, url, dir) is Stop == (!exists && url.len() == 0),
{
}

}
