//! The search for worktrees below a directory.
//!
//! The caller walks the directory tree, each directory before what it holds.
//! It tells the search of everything it meets, and is told how to go on.

use crate::text::same_text;
use vstd::prelude::*;

verus! {

/// The directories below a discovery root that are never entered.
pub open spec fn pruned_names() -> Seq<Seq<char>> {
    seq![
        ".git"@,
        ".hg"@,
        ".svn"@,
        "node_modules"@,
        ".direnv"@,
        ".cache"@,
        "target"@,
        "dist"@,
        "build"@,
        "__pycache__"@,
    ]
}

/// What lies below a discovery root.
#[derive(Debug, PartialEq, Eq)]
pub struct Entry {
    pub is_directory: bool,
    /// How far below the discovery root it lies; the root itself is at 0.
    pub depth: usize,
    /// Its name, where that is text.
    pub name: Option<String>,
}

/// What to do about an [`Entry`].
#[derive(Debug, Clone, Copy, PartialEq, Eq, Structural)]
pub enum Visit {
    /// Nothing; go on, into it if it is a directory.
    Pass,
    /// Do not go into it.
    Prune,
    /// Look whether it holds `.git`.
    Look,
    /// It is a worktree: note it, and do not go into it.
    Record,
}

/// What to do about an entry; `git` says whether it holds `.git`, where that is known.
pub open spec fn visit_of(
    is_directory: bool,
    depth: int,
    name: Option<Seq<char>>,
    git: Option<bool>,
) -> Visit {
    if !is_directory {
        Visit::Pass
    } else if depth > 0 && name is Some && pruned_names().contains(name->0) {
        Visit::Prune
    } else {
        match git {
            None => Visit::Look,
            Some(true) => Visit::Record,
            Some(false) => Visit::Pass,
        }
    }
}

fn pruned(name: &str) -> (yes: bool)
    ensures
        yes == pruned_names().contains(name@),
{
    let yes = same_text(name, ".git") || same_text(name, ".hg") || same_text(name, ".svn")
        || same_text(name, "node_modules") || same_text(name, ".direnv") || same_text(
        name,
        ".cache",
    ) || same_text(name, "target") || same_text(name, "dist") || same_text(name, "build")
        || same_text(name, "__pycache__");
    proof {
        let all = pruned_names();
        assert(all[0] == ".git"@ && all[1] == ".hg"@ && all[2] == ".svn"@ && all[3]
            == "node_modules"@ && all[4] == ".direnv"@ && all[5] == ".cache"@ && all[6]
            == "target"@ && all[7] == "dist"@ && all[8] == "build"@ && all[9] == "__pycache__"@);
    }
    yes
}

impl Entry {
    /// What to do about the entry; `git` says whether it holds `.git`, where
    /// that is known.
    pub fn visit(&self, git: Option<bool>) -> (visit: Visit)
        ensures
            visit == visit_of(self.is_directory, self.depth as int, self.name.deep_view(), git),
    {
        if !self.is_directory {
            return Visit::Pass;
        }
        if self.depth > 0 {
            if let Some(name) = &self.name {
                if pruned(name.as_str()) {
                    return Visit::Prune;
                }
            }
        }
        match git {
            None => Visit::Look,
            Some(true) => Visit::Record,
            Some(false) => Visit::Pass,
        }
    }
}

/// What an [`Entry`] says.
pub struct EntryView {
    pub is_directory: bool,
    pub depth: int,
    pub name: Option<Seq<char>>,
}

impl DeepView for Entry {
    type V = EntryView;

    open spec fn deep_view(&self) -> EntryView {
        EntryView {
            is_directory: self.is_directory,
            depth: self.depth as int,
            name: self.name.deep_view(),
        }
    }
}

/// What the search is told.
#[derive(Debug, PartialEq, Eq)]
pub enum SearchEvent {
    /// The walk has come to this.
    Entry(Entry),
    /// The walk has come to something that cannot be read.
    Unreadable,
    /// The walk has come to its end.
    End,
    /// Whether the directory that the walk has come to holds `.git`.
    Git(bool),
    /// The canonical path of the directory that the walk has come to, if it has one.
    Canonical(Option<String>),
}

/// What the search asks for.
#[derive(Debug, Clone, Copy, PartialEq, Eq, Structural)]
pub enum SearchCommand {
    /// Walk on, into a directory if the walk has come to one.
    Next,
    /// Walk on, past the directory that the walk has come to.
    SkipDirectory,
    /// Look whether the directory that the walk has come to holds `.git`.
    LookForGit,
    /// Find the canonical path of the directory that the walk has come to.
    Canonicalize,
    /// The search is over.
    Finish,
    /// The search cannot go on.
    Fail,
}

/// What the search waits for.
#[derive(Debug, Clone, Copy, PartialEq, Eq, Structural)]
pub enum Phase {
    Walking,
    Looking,
    Resolving,
    Ended,
}

/// A search for worktrees.
#[derive(Debug, PartialEq, Eq)]
pub struct Search {
    pub phase: Phase,
    /// The worktrees that were found, in the order of the walk.
    pub found: Vec<String>,
}

/// What a [`SearchEvent`] says.
pub enum SearchEventView {
    Entry(EntryView),
    Unreadable,
    End,
    Git(bool),
    Canonical(Option<Seq<char>>),
}

/// What a [`Search`] says.
pub struct SearchView {
    pub phase: Phase,
    pub found: Seq<Seq<char>>,
}

impl DeepView for SearchEvent {
    type V = SearchEventView;

    open spec fn deep_view(&self) -> SearchEventView {
        match self {
            SearchEvent::Entry(entry) => SearchEventView::Entry(entry.deep_view()),
            SearchEvent::Unreadable => SearchEventView::Unreadable,
            SearchEvent::End => SearchEventView::End,
            SearchEvent::Git(yes) => SearchEventView::Git(*yes),
            SearchEvent::Canonical(path) => SearchEventView::Canonical(path.deep_view()),
        }
    }
}

impl DeepView for Search {
    type V = SearchView;

    open spec fn deep_view(&self) -> SearchView {
        SearchView { phase: self.phase, found: self.found.deep_view() }
    }
}

impl SearchView {
    /// The search, waiting for something else.
    pub open spec fn waiting(self, phase: Phase) -> SearchView {
        SearchView { phase, found: self.found }
    }
}

/// How a search goes on when it is told something. What it does not wait for
/// ends it.
pub open spec fn searched(search: SearchView, event: SearchEventView) -> (
    SearchView,
    SearchCommand,
) {
    match (search.phase, event) {
        (Phase::Walking, SearchEventView::Unreadable) => (search, SearchCommand::Next),
        (Phase::Walking, SearchEventView::End) => (
            search.waiting(Phase::Ended),
            SearchCommand::Finish,
        ),
        (Phase::Walking, SearchEventView::Entry(entry)) => match visit_of(
            entry.is_directory,
            entry.depth,
            entry.name,
            None,
        ) {
            Visit::Prune => (search, SearchCommand::SkipDirectory),
            Visit::Look => (search.waiting(Phase::Looking), SearchCommand::LookForGit),
            _ => (search, SearchCommand::Next),
        },
        (Phase::Looking, SearchEventView::Git(false)) => (
            search.waiting(Phase::Walking),
            SearchCommand::Next,
        ),
        (Phase::Looking, SearchEventView::Git(true)) => (
            search.waiting(Phase::Resolving),
            SearchCommand::Canonicalize,
        ),
        (Phase::Resolving, SearchEventView::Canonical(Some(path))) => (
            SearchView { phase: Phase::Walking, found: search.found.push(path) },
            SearchCommand::SkipDirectory,
        ),
        _ => (search.waiting(Phase::Ended), SearchCommand::Fail),
    }
}

impl Search {
    /// A search that has found nothing yet.
    pub fn new() -> (search: Search)
        ensures
            search.deep_view() == (SearchView { phase: Phase::Walking, found: Seq::empty() }),
    {
        let search = Search { phase: Phase::Walking, found: Vec::new() };
        assert(search.found.deep_view() =~= Seq::empty());
        search
    }

    /// Goes on with the search.
    pub fn advance(&mut self, event: SearchEvent) -> (command: SearchCommand)
        ensures
            (final(self).deep_view(), command) == searched(
                old(self).deep_view(),
                event.deep_view(),
            ),
    {
        let ghost before = self.found.deep_view();
        match (self.phase, event) {
            (Phase::Walking, SearchEvent::Unreadable) => SearchCommand::Next,
            (Phase::Walking, SearchEvent::End) => {
                self.phase = Phase::Ended;
                SearchCommand::Finish
            },
            (Phase::Walking, SearchEvent::Entry(entry)) => match entry.visit(None) {
                Visit::Prune => SearchCommand::SkipDirectory,
                Visit::Look => {
                    self.phase = Phase::Looking;
                    SearchCommand::LookForGit
                },
                _ => SearchCommand::Next,
            },
            (Phase::Looking, SearchEvent::Git(false)) => {
                self.phase = Phase::Walking;
                SearchCommand::Next
            },
            (Phase::Looking, SearchEvent::Git(true)) => {
                self.phase = Phase::Resolving;
                SearchCommand::Canonicalize
            },
            (Phase::Resolving, SearchEvent::Canonical(Some(path))) => {
                self.phase = Phase::Walking;
                self.found.push(path);
                assert(self.found.deep_view() =~= before.push(path@));
                SearchCommand::SkipDirectory
            },
            _ => {
                self.phase = Phase::Ended;
                SearchCommand::Fail
            },
        }
    }
}

} // verus!
