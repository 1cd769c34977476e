//! The private history of a worktree: a bare Git repository beside it, with an
//! index of its own.

use crate::config::{ProjectSettings, SettingsView};
use crate::paths::{absolute, all_names, is_absolute, only_names, slashed, with_slashes, PathStyle};
use crate::procedure::{Failure, FailureView, Invocation, InvocationView};
use vstd::prelude::*;
use vstd::utf8::encode_utf8;

verus! {

/// The branch of the private repository that the snapshots are on.
pub const HISTORY_REF: &'static str = "refs/heads/history";

/// The name that the snapshots are committed under.
pub const IDENTITY_NAME: &'static str = "local-history";

pub const IDENTITY_EMAIL: &'static str = "local-history@localhost";

/// The history of one worktree.
#[derive(Debug, PartialEq, Eq)]
pub struct ProjectStore {
    pub style: PathStyle,
    pub settings: ProjectSettings,
    /// The worktree.
    pub root: String,
    /// Where everything about its history lies.
    pub project_dir: String,
    /// The private bare repository.
    pub git_dir: String,
    /// The private staging index.
    pub index_file: String,
}

/// What a [`ProjectStore`] says.
pub struct StoreView {
    pub style: PathStyle,
    pub settings: SettingsView,
    pub root: Seq<char>,
    pub project_dir: Seq<char>,
    pub git_dir: Seq<char>,
    pub index_file: Seq<char>,
}

impl DeepView for ProjectStore {
    type V = StoreView;

    open spec fn deep_view(&self) -> StoreView {
        StoreView {
            style: self.style,
            settings: self.settings.deep_view(),
            root: self.root@,
            project_dir: self.project_dir@,
            git_dir: self.git_dir@,
            index_file: self.index_file@,
        }
    }
}

/// Why a path cannot be a path of the history, if it cannot: it has to be
/// relative, and to consist of names alone.
pub open spec fn path_problem(style: PathStyle, path: Seq<char>) -> Option<FailureView> {
    if path.len() == 0 || absolute(style, path) {
        Some(FailureView::NotRelative)
    } else if !all_names(style, path) {
        Some(FailureView::UnsafePath(path))
    } else {
        None
    }
}

/// Checks that a path can be a path of the history.
pub fn validate_relative_path(style: PathStyle, path: &str) -> (r: Result<(), Failure>)
    ensures
        r is Ok <==> path_problem(style, path@) is None,
        r matches Err(f) ==> path_problem(style, path@) == Some(f.deep_view()),
{
    if path.is_empty() || is_absolute(style, path) {
        return Err(Failure::NotRelative);
    }
    if !only_names(style, path) {
        return Err(Failure::UnsafePath(path.to_owned()));
    }
    Ok(())
}

/// A path as Git writes it.
pub open spec fn git_form(style: PathStyle, path: Seq<char>) -> Seq<char> {
    if style == PathStyle::Windows {
        slashed(path)
    } else {
        path
    }
}

/// A path as Git writes it.
pub fn git_path(style: PathStyle, path: &str) -> (s: String)
    ensures
        s@ == git_form(style, path@),
{
    if style == PathStyle::Windows {
        with_slashes(path)
    } else {
        path.to_owned()
    }
}

/// A path that Watchman reports, as a path of the history.
pub fn normalize_watchman_path(style: PathStyle, path: &str) -> (r: Result<String, Failure>)
    ensures
        r is Ok <==> path_problem(style, git_form(style, path@)) is None,
        r matches Ok(s) ==> s@ == git_form(style, path@),
        r matches Err(f) ==> path_problem(style, git_form(style, path@)) == Some(f.deep_view()),
{
    let normalized = git_path(style, path);
    match validate_relative_path(style, normalized.as_str()) {
        Ok(_) => Ok(normalized),
        Err(f) => Err(f),
    }
}

/// The UTF-8 of each path, with a zero byte behind it.
pub open spec fn nul_terminated(paths: Seq<Seq<char>>) -> Seq<u8>
    decreases paths.len(),
{
    if paths.len() == 0 {
        Seq::empty()
    } else {
        (nul_terminated(paths.drop_last()) + encode_utf8(paths.last())).push(0)
    }
}

/// The UTF-8 of each path, with a zero byte behind it.
pub fn write_nul_paths(paths: &Vec<String>) -> (bytes: Vec<u8>)
    ensures
        bytes@ == nul_terminated(paths.deep_view()),
{
    let mut bytes: Vec<u8> = Vec::new();
    let mut i: usize = 0;
    while i < paths.len()
        invariant
            i <= paths@.len(),
            bytes@ == nul_terminated(paths.deep_view().take(i as int)),
        decreases paths@.len() - i,
    {
        let ghost before = bytes@;
        let utf8 = paths[i].as_str().as_bytes();
        let mut j: usize = 0;
        while j < utf8.len()
            invariant
                j <= utf8@.len(),
                bytes@ =~= before + utf8@.take(j as int),
            decreases utf8@.len() - j,
        {
            bytes.push(utf8[j]);
            j = j + 1;
        }
        assert(utf8@.take(utf8@.len() as int) =~= utf8@);
        bytes.push(0);
        assert(paths.deep_view().take(i + 1).drop_last() =~= paths.deep_view().take(i as int));
        i = i + 1;
    }
    assert(paths.deep_view().take(paths@.len() as int) =~= paths.deep_view());
    bytes
}

/// Git at work on the private repository.
pub open spec fn private_git(
    store: StoreView,
    arguments: Seq<Seq<char>>,
    input: Option<Seq<u8>>,
) -> InvocationView {
    InvocationView {
        program: "git"@,
        arguments,
        environment: seq![
            ("GIT_DIR"@, store.git_dir),
            ("GIT_WORK_TREE"@, store.root),
            ("GIT_INDEX_FILE"@, store.index_file),
            ("GIT_AUTHOR_NAME"@, IDENTITY_NAME@),
            ("GIT_AUTHOR_EMAIL"@, IDENTITY_EMAIL@),
            ("GIT_COMMITTER_NAME"@, IDENTITY_NAME@),
            ("GIT_COMMITTER_EMAIL"@, IDENTITY_EMAIL@),
        ],
        input,
    }
}

/// Git without an environment of its own.
pub open spec fn plain_git(arguments: Seq<Seq<char>>, input: Option<Seq<u8>>) -> InvocationView {
    InvocationView { program: "git"@, arguments, environment: Seq::empty(), input }
}

/// Git without an environment of its own.
pub fn plain_command(arguments: Vec<String>, input: Option<Vec<u8>>) -> (command: Invocation)
    ensures
        command.deep_view() == plain_git(
            arguments.deep_view(),
            match input {
                Some(bytes) => Some(bytes@),
                None => None,
            },
        ),
{
    let command = Invocation {
        program: "git".to_owned(),
        arguments,
        environment: Vec::new(),
        input,
    };
    assert(command.environment.deep_view() =~= Seq::empty());
    command
}

impl ProjectStore {
    /// Git at work on the private repository.
    pub fn git_command(&self, arguments: Vec<String>, input: Option<Vec<u8>>) -> (command:
        Invocation)
        ensures
            command.deep_view() == private_git(
                self.deep_view(),
                arguments.deep_view(),
                match input {
                    Some(bytes) => Some(bytes@),
                    None => None,
                },
            ),
    {
        let environment: Vec<(String, String)> = vec![
            ("GIT_DIR".to_owned(), self.git_dir.clone()),
            ("GIT_WORK_TREE".to_owned(), self.root.clone()),
            ("GIT_INDEX_FILE".to_owned(), self.index_file.clone()),
            ("GIT_AUTHOR_NAME".to_owned(), IDENTITY_NAME.to_owned()),
            ("GIT_AUTHOR_EMAIL".to_owned(), IDENTITY_EMAIL.to_owned()),
            ("GIT_COMMITTER_NAME".to_owned(), IDENTITY_NAME.to_owned()),
            ("GIT_COMMITTER_EMAIL".to_owned(), IDENTITY_EMAIL.to_owned()),
        ];
        let command = Invocation { program: "git".to_owned(), arguments, environment, input };
        assert(command.environment.deep_view() =~= private_git(
            self.deep_view(),
            arguments.deep_view(),
            None,
        ).environment);
        command
    }
}

} // verus!
