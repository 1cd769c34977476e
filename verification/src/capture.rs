//! Taking snapshots: of the whole worktree, or of the paths that have changed.

use crate::commit::{commit_step, has_history_step};
use crate::git_store::{
    git_form, normalize_watchman_path, nul_terminated, path_problem, plain_command, plain_git,
    private_git, write_nul_paths, ProjectStore, StoreView, HISTORY_REF,
};
use crate::ordered::{sort_texts, sorted_set};
use crate::paths::{file_name, join, joined, name_of, PathStyle};
use crate::procedure::{
    done, done_step, flag, flag_step, run, run_step, succeed, succeed_step, Action, ActionView,
    InvocationView, Reply, ReplyView, Step, StepView,
};
use crate::select::{listed_paths, read_nul_paths, select_step};
use crate::text::same_text;
use vstd::prelude::*;

verus! {

/// The file that a snapshot is taken under the lock of.
pub open spec fn lock_file(store: StoreView) -> Seq<char> {
    joined(store.style, store.project_dir, "lock"@)
}

pub open spec fn clear_index_command(store: StoreView) -> InvocationView {
    private_git(store, seq!["read-tree"@, "--empty"@], None)
}

pub open spec fn load_index_command(store: StoreView) -> InvocationView {
    private_git(store, seq!["read-tree"@, HISTORY_REF@], None)
}

/// The files of the worktree that Git tracks or would track.
pub open spec fn list_files_command(store: StoreView) -> InvocationView {
    plain_git(
        seq![
            "-C"@,
            store.root,
            "ls-files"@,
            "-z"@,
            "--cached"@,
            "--others"@,
            "--exclude-standard"@,
        ],
        None,
    )
}

/// Which of the paths the worktree's own rules ignore.
pub open spec fn check_ignore_command(
    store: StoreView,
    paths: Seq<Seq<char>>,
) -> InvocationView {
    plain_git(
        seq!["-C"@, store.root, "check-ignore"@, "-z"@, "--stdin"@],
        Some(nul_terminated(paths)),
    )
}

pub open spec fn stage_command(store: StoreView, paths: Seq<Seq<char>>) -> InvocationView {
    private_git(
        store,
        seq!["add"@, "-A"@, "-f"@, "--pathspec-from-file=-"@, "--pathspec-file-nul"@],
        Some(nul_terminated(paths)),
    )
}

pub open spec fn remove_command(store: StoreView, paths: Seq<Seq<char>>) -> InvocationView {
    private_git(
        store,
        seq!["update-index"@, "--force-remove"@, "-z"@, "--stdin"@],
        Some(nul_terminated(paths)),
    )
}

/// Empties the private index.
pub open spec fn clear_index_step(
    store: StoreView,
    replies: Seq<ReplyView>,
    at: int,
) -> StepView<()> {
    match succeed_step(
        replies,
        at,
        clear_index_command(store),
        "failed to clear history index"@,
        "git read-tree --empty"@,
    ) {
        StepView::Perform(a) => StepView::Perform(a),
        StepView::Failed(f) => StepView::Failed(f),
        StepView::Finished(_, n) => StepView::Finished((), n),
    }
}

/// Makes sure that there is a private index: that of the latest snapshot, or
/// an empty one where there is no snapshot.
pub open spec fn prepare_index_step(
    store: StoreView,
    replies: Seq<ReplyView>,
    at: int,
) -> StepView<()> {
    match flag_step(
        replies,
        at,
        ActionView::Exists(store.index_file),
        "failed to inspect history index"@,
    ) {
        StepView::Perform(a) => StepView::Perform(a),
        StepView::Failed(f) => StepView::Failed(f),
        StepView::Finished(true, n) => StepView::Finished((), n),
        StepView::Finished(false, n) => match has_history_step(store, replies, n) {
            StepView::Perform(a) => StepView::Perform(a),
            StepView::Failed(f) => StepView::Failed(f),
            StepView::Finished(false, n) => clear_index_step(store, replies, n),
            StepView::Finished(true, n) => match succeed_step(
                replies,
                n,
                load_index_command(store),
                "failed to initialize history index"@,
                "git read-tree"@,
            ) {
                StepView::Perform(a) => StepView::Perform(a),
                StepView::Failed(f) => StepView::Failed(f),
                StepView::Finished(_, n) => StepView::Finished((), n),
            },
        },
    }
}

/// Brings the paths into the private index as they are in the worktree.
pub open spec fn stage_step(
    store: StoreView,
    paths: Seq<Seq<char>>,
    replies: Seq<ReplyView>,
    at: int,
) -> StepView<()> {
    if paths.len() == 0 {
        StepView::Finished((), at)
    } else {
        match succeed_step(
            replies,
            at,
            stage_command(store, paths),
            "failed to start git add"@,
            "git add"@,
        ) {
            StepView::Perform(a) => StepView::Perform(a),
            StepView::Failed(f) => StepView::Failed(f),
            StepView::Finished(_, n) => StepView::Finished((), n),
        }
    }
}

/// Takes the paths out of the private index.
pub open spec fn remove_step(
    store: StoreView,
    paths: Seq<Seq<char>>,
    replies: Seq<ReplyView>,
    at: int,
) -> StepView<()> {
    if paths.len() == 0 {
        StepView::Finished((), at)
    } else {
        match succeed_step(
            replies,
            at,
            remove_command(store, paths),
            "failed to start git update-index"@,
            "git update-index"@,
        ) {
            StepView::Perform(a) => StepView::Perform(a),
            StepView::Failed(f) => StepView::Failed(f),
            StepView::Finished(_, n) => StepView::Finished((), n),
        }
    }
}

/// Which of the paths the worktree's own rules ignore: Git ends with 1 where
/// there are none.
pub open spec fn git_ignored_step(
    store: StoreView,
    paths: Seq<Seq<char>>,
    replies: Seq<ReplyView>,
    at: int,
) -> StepView<Seq<Seq<char>>> {
    if paths.len() == 0 {
        StepView::Finished(Seq::empty(), at)
    } else {
        match run_step(
            replies,
            at,
            check_ignore_command(store, paths),
            "failed to start git check-ignore"@,
        ) {
            StepView::Perform(a) => StepView::Perform(a),
            StepView::Failed(f) => StepView::Failed(f),
            StepView::Finished(output, n) => if output.success() || output.code == Some(1i32) {
                StepView::Finished(listed_paths(output.stdout), n)
            } else {
                StepView::Failed(output.failure("git check-ignore"@))
            },
        }
    }
}

/// Stages what a whole worktree holds, and takes the snapshot. The index is
/// empty before.
pub open spec fn capture_listed_step(
    store: StoreView,
    paths: Seq<Seq<char>>,
    source: Seq<char>,
    replies: Seq<ReplyView>,
    at: int,
) -> StepView<Option<Seq<char>>> {
    match select_step(store, Seq::empty(), paths, replies, at) {
        StepView::Perform(a) => StepView::Perform(a),
        StepView::Failed(f) => StepView::Failed(f),
        StepView::Finished(chosen, n) => match stage_step(store, chosen.included, replies, n) {
            StepView::Perform(a) => StepView::Perform(a),
            StepView::Failed(f) => StepView::Failed(f),
            StepView::Finished(_, n) => commit_step(
                store,
                chosen.included.len(),
                source,
                replies,
                n,
            ),
        },
    }
}

/// Takes the exclusive lock of the history.
pub open spec fn lock_step(store: StoreView, replies: Seq<ReplyView>, at: int) -> StepView<()> {
    match done_step(
        replies,
        at,
        ActionView::OpenLock(lock_file(store)),
        "failed to open project history lock"@,
    ) {
        StepView::Perform(a) => StepView::Perform(a),
        StepView::Failed(f) => StepView::Failed(f),
        StepView::Finished(_, n) => done_step(
            replies,
            n,
            ActionView::Lock,
            "failed to lock project history"@,
        ),
    }
}

/// Lets go of the lock, and ends with what came of the work under it.
pub open spec fn unlock_step(
    outcome: Option<Seq<char>>,
    replies: Seq<ReplyView>,
    at: int,
) -> StepView<Option<Seq<char>>> {
    match done_step(replies, at, ActionView::Unlock, "failed to unlock project history"@) {
        StepView::Perform(a) => StepView::Perform(a),
        StepView::Failed(f) => StepView::Failed(f),
        StepView::Finished(_, n) => StepView::Finished(outcome, n),
    }
}

/// What is done under the lock for a snapshot of the whole worktree.
pub open spec fn full_step(
    store: StoreView,
    source: Seq<char>,
    replies: Seq<ReplyView>,
    at: int,
) -> StepView<Option<Seq<char>>> {
    match clear_index_step(store, replies, at) {
        StepView::Perform(a) => StepView::Perform(a),
        StepView::Failed(f) => StepView::Failed(f),
        StepView::Finished(_, n) => match succeed_step(
            replies,
            n,
            list_files_command(store),
            "failed to enumerate source repository files"@,
            "git ls-files"@,
        ) {
            StepView::Perform(a) => StepView::Perform(a),
            StepView::Failed(f) => StepView::Failed(f),
            StepView::Finished(output, n) => capture_listed_step(
                store,
                listed_paths(output.stdout),
                source,
                replies,
                n,
            ),
        },
    }
}

/// A snapshot of the whole worktree.
pub open spec fn capture_full_step(
    store: StoreView,
    source: Seq<char>,
    replies: Seq<ReplyView>,
    at: int,
) -> StepView<Option<Seq<char>>> {
    match lock_step(store, replies, at) {
        StepView::Perform(a) => StepView::Perform(a),
        StepView::Failed(f) => StepView::Failed(f),
        StepView::Finished(_, n) => match full_step(store, source, replies, n) {
            StepView::Perform(a) => StepView::Perform(a),
            StepView::Failed(f) => StepView::Failed(f),
            StepView::Finished(outcome, n) => unlock_step(outcome, replies, n),
        },
    }
}

/// The reported paths that can be paths of the history.
pub open spec fn usable_paths(style: PathStyle, paths: Seq<Seq<char>>) -> Seq<Seq<char>>
    decreases paths.len(),
{
    if paths.len() == 0 {
        Seq::empty()
    } else {
        let before = usable_paths(style, paths.drop_last());
        let path = git_form(style, paths.last());
        if path_problem(style, path) is None {
            before.push(path)
        } else {
            before
        }
    }
}

/// What a report comes down to: its usable paths, each once, in order.
pub open spec fn batch_of(style: PathStyle, paths: Seq<Seq<char>>) -> Seq<Seq<char>> {
    sorted_set(usable_paths(style, paths))
}

/// Whether the rules of what to ignore have changed.
pub open spec fn changes_ignore_rules(style: PathStyle, batch: Seq<Seq<char>>) -> bool {
    exists|i: int|
        0 <= i < batch.len() && name_of(style, #[trigger] batch[i]) == Some(".gitignore"@)
}

/// Stages a batch, and takes the snapshot.
pub open spec fn capture_batch_step(
    store: StoreView,
    batch: Seq<Seq<char>>,
    source: Seq<char>,
    replies: Seq<ReplyView>,
    at: int,
) -> StepView<Option<Seq<char>>> {
    match git_ignored_step(store, batch, replies, at) {
        StepView::Perform(a) => StepView::Perform(a),
        StepView::Failed(f) => StepView::Failed(f),
        StepView::Finished(ignored, n) => match select_step(store, ignored, batch, replies, n) {
            StepView::Perform(a) => StepView::Perform(a),
            StepView::Failed(f) => StepView::Failed(f),
            StepView::Finished(chosen, n) => match stage_step(
                store,
                chosen.included,
                replies,
                n,
            ) {
                StepView::Perform(a) => StepView::Perform(a),
                StepView::Failed(f) => StepView::Failed(f),
                StepView::Finished(_, n) => match remove_step(store, chosen.removed, replies, n) {
                    StepView::Perform(a) => StepView::Perform(a),
                    StepView::Failed(f) => StepView::Failed(f),
                    StepView::Finished(_, n) => commit_step(
                        store,
                        batch.len(),
                        source,
                        replies,
                        n,
                    ),
                },
            },
        },
    }
}

/// A snapshot of the paths that were reported; of the whole worktree where the
/// rules of what to ignore have changed.
pub open spec fn capture_paths_step(
    store: StoreView,
    paths: Seq<Seq<char>>,
    source: Seq<char>,
    replies: Seq<ReplyView>,
    at: int,
) -> StepView<Option<Seq<char>>> {
    let batch = batch_of(store.style, paths);
    match lock_step(store, replies, at) {
        StepView::Perform(a) => StepView::Perform(a),
        StepView::Failed(f) => StepView::Failed(f),
        StepView::Finished(_, n) => match prepare_index_step(store, replies, n) {
            StepView::Perform(a) => StepView::Perform(a),
            StepView::Failed(f) => StepView::Failed(f),
            StepView::Finished(_, n) => if batch.len() == 0 {
                unlock_step(None, replies, n)
            } else if changes_ignore_rules(store.style, batch) {
                match unlock_step(None, replies, n) {
                    StepView::Perform(a) => StepView::Perform(a),
                    StepView::Failed(f) => StepView::Failed(f),
                    StepView::Finished(_, n) => capture_full_step(store, source, replies, n),
                }
            } else {
                match capture_batch_step(store, batch, source, replies, n) {
                    StepView::Perform(a) => StepView::Perform(a),
                    StepView::Failed(f) => StepView::Failed(f),
                    StepView::Finished(outcome, n) => unlock_step(outcome, replies, n),
                }
            },
        },
    }
}

/// The reported paths that can be paths of the history.
fn usable(style: PathStyle, paths: &Vec<String>) -> (list: Vec<String>)
    ensures
        list.deep_view() == usable_paths(style, paths.deep_view()),
{
    let mut list: Vec<String> = Vec::new();
    let ghost all = paths.deep_view();
    let mut i: usize = 0;
    assert(list.deep_view() =~= usable_paths(style, all.take(0)));
    while i < paths.len()
        invariant
            i <= paths@.len(),
            all == paths.deep_view(),
            list.deep_view() == usable_paths(style, all.take(i as int)),
        decreases paths@.len() - i,
    {
        let ghost before = list.deep_view();
        assert(all.take(i + 1).drop_last() =~= all.take(i as int));
        if let Ok(path) = normalize_watchman_path(style, paths[i].as_str()) {
            list.push(path);
            assert(list.deep_view() =~= before.push(path@));
        }
        i = i + 1;
    }
    assert(all.take(paths@.len() as int) =~= all);
    list
}

/// What a report comes down to.
pub fn report_batch(style: PathStyle, paths: &Vec<String>) -> (batch: Vec<String>)
    ensures
        batch.deep_view() == batch_of(style, paths.deep_view()),
{
    sort_texts(&usable(style, paths))
}

/// Whether the rules of what to ignore have changed.
pub fn ignore_rules_changed(style: PathStyle, batch: &Vec<String>) -> (yes: bool)
    ensures
        yes == changes_ignore_rules(style, batch.deep_view()),
{
    let mut i: usize = 0;
    while i < batch.len()
        invariant
            i <= batch@.len(),
            forall|j: int|
                0 <= j < i ==> name_of(style, #[trigger] batch.deep_view()[j]) != Some(
                    ".gitignore"@,
                ),
        decreases batch@.len() - i,
    {
        if let Some(name) = file_name(style, batch[i].as_str()) {
            if same_text(name.as_str(), ".gitignore") {
                assert(name_of(style, batch.deep_view()[i as int]) == Some(".gitignore"@));
                return true;
            }
        }
        i = i + 1;
    }
    false
}

impl ProjectStore {
    fn lock(&self, replies: &Vec<Reply>, at: usize) -> (step: Step<()>)
        ensures
            step.deep_view() == lock_step(self.deep_view(), replies.deep_view(), at as int),
    {
        let file = join(self.style, self.project_dir.as_str(), "lock");
        match done(replies, at, Action::OpenLock(file), "failed to open project history lock") {
            Step::Perform(a) => Step::Perform(a),
            Step::Failed(f) => Step::Failed(f),
            Step::Finished(_, n) => done(
                replies,
                n,
                Action::Lock,
                "failed to lock project history",
            ),
        }
    }

    fn unlock(&self, outcome: Option<String>, replies: &Vec<Reply>, at: usize) -> (step: Step<
        Option<String>,
    >)
        ensures
            step.deep_view() == unlock_step(outcome.deep_view(), replies.deep_view(), at as int),
    {
        match done(replies, at, Action::Unlock, "failed to unlock project history") {
            Step::Perform(a) => Step::Perform(a),
            Step::Failed(f) => Step::Failed(f),
            Step::Finished(_, n) => Step::Finished(outcome, n),
        }
    }

    /// Empties the private index.
    pub fn read_empty_tree(&self, replies: &Vec<Reply>, at: usize) -> (step: Step<()>)
        ensures
            step.deep_view() == clear_index_step(self.deep_view(), replies.deep_view(), at as int),
    {
        let arguments = vec!["read-tree".to_owned(), "--empty".to_owned()];
        assert(arguments.deep_view() =~= clear_index_command(self.deep_view()).arguments);
        match succeed(
            replies,
            at,
            self.git_command(arguments, None),
            "failed to clear history index",
            "git read-tree --empty",
        ) {
            Step::Perform(a) => Step::Perform(a),
            Step::Failed(f) => Step::Failed(f),
            Step::Finished(_, n) => Step::Finished((), n),
        }
    }

    /// Makes sure that there is a private index.
    pub fn prepare_index(&self, replies: &Vec<Reply>, at: usize) -> (step: Step<()>)
        ensures
            step.deep_view() == prepare_index_step(
                self.deep_view(),
                replies.deep_view(),
                at as int,
            ),
    {
        match flag(
            replies,
            at,
            Action::Exists(self.index_file.clone()),
            "failed to inspect history index",
        ) {
            Step::Perform(a) => Step::Perform(a),
            Step::Failed(f) => Step::Failed(f),
            Step::Finished(true, n) => Step::Finished((), n),
            Step::Finished(false, n) => match self.has_history(replies, n) {
                Step::Perform(a) => Step::Perform(a),
                Step::Failed(f) => Step::Failed(f),
                Step::Finished(false, n) => self.read_empty_tree(replies, n),
                Step::Finished(true, n) => {
                    let arguments = vec!["read-tree".to_owned(), HISTORY_REF.to_owned()];
                    assert(arguments.deep_view() =~= load_index_command(
                        self.deep_view(),
                    ).arguments);
                    match succeed(
                        replies,
                        n,
                        self.git_command(arguments, None),
                        "failed to initialize history index",
                        "git read-tree",
                    ) {
                        Step::Perform(a) => Step::Perform(a),
                        Step::Failed(f) => Step::Failed(f),
                        Step::Finished(_, n) => Step::Finished((), n),
                    }
                },
            },
        }
    }

    /// Brings the paths into the private index as they are in the worktree.
    pub fn stage_paths(&self, paths: &Vec<String>, replies: &Vec<Reply>, at: usize) -> (step:
        Step<()>)
        ensures
            step.deep_view() == stage_step(
                self.deep_view(),
                paths.deep_view(),
                replies.deep_view(),
                at as int,
            ),
    {
        if paths.len() == 0 {
            return Step::Finished((), at);
        }
        let arguments = vec![
            "add".to_owned(),
            "-A".to_owned(),
            "-f".to_owned(),
            "--pathspec-from-file=-".to_owned(),
            "--pathspec-file-nul".to_owned(),
        ];
        assert(arguments.deep_view() =~= stage_command(
            self.deep_view(),
            paths.deep_view(),
        ).arguments);
        match succeed(
            replies,
            at,
            self.git_command(arguments, Some(write_nul_paths(paths))),
            "failed to start git add",
            "git add",
        ) {
            Step::Perform(a) => Step::Perform(a),
            Step::Failed(f) => Step::Failed(f),
            Step::Finished(_, n) => Step::Finished((), n),
        }
    }

    /// Takes the paths out of the private index.
    pub fn remove_paths(&self, paths: &Vec<String>, replies: &Vec<Reply>, at: usize) -> (step:
        Step<()>)
        ensures
            step.deep_view() == remove_step(
                self.deep_view(),
                paths.deep_view(),
                replies.deep_view(),
                at as int,
            ),
    {
        if paths.len() == 0 {
            return Step::Finished((), at);
        }
        let arguments = vec![
            "update-index".to_owned(),
            "--force-remove".to_owned(),
            "-z".to_owned(),
            "--stdin".to_owned(),
        ];
        assert(arguments.deep_view() =~= remove_command(
            self.deep_view(),
            paths.deep_view(),
        ).arguments);
        match succeed(
            replies,
            at,
            self.git_command(arguments, Some(write_nul_paths(paths))),
            "failed to start git update-index",
            "git update-index",
        ) {
            Step::Perform(a) => Step::Perform(a),
            Step::Failed(f) => Step::Failed(f),
            Step::Finished(_, n) => Step::Finished((), n),
        }
    }

    /// Which of the paths the worktree's own rules ignore.
    pub fn git_ignored_paths(
        &self,
        paths: &Vec<String>,
        replies: &Vec<Reply>,
        at: usize,
    ) -> (step: Step<Vec<String>>)
        ensures
            step.deep_view() == git_ignored_step(
                self.deep_view(),
                paths.deep_view(),
                replies.deep_view(),
                at as int,
            ),
    {
        if paths.len() == 0 {
            let none: Vec<String> = Vec::new();
            assert(none.deep_view() =~= Seq::empty());
            return Step::Finished(none, at);
        }
        let arguments = vec![
            "-C".to_owned(),
            self.root.clone(),
            "check-ignore".to_owned(),
            "-z".to_owned(),
            "--stdin".to_owned(),
        ];
        assert(arguments.deep_view() =~= check_ignore_command(
            self.deep_view(),
            paths.deep_view(),
        ).arguments);
        match run(
            replies,
            at,
            plain_command(arguments, Some(write_nul_paths(paths))),
            "failed to start git check-ignore",
        ) {
            Step::Perform(a) => Step::Perform(a),
            Step::Failed(f) => Step::Failed(f),
            Step::Finished(output, n) => {
                let acceptable = match output.code {
                    Some(code) => code == 0 || code == 1,
                    None => false,
                };
                if acceptable {
                    Step::Finished(read_nul_paths(&output.stdout), n)
                } else {
                    Step::Failed(output.failure("git check-ignore"))
                }
            },
        }
    }

    fn capture_listed(
        &self,
        paths: &Vec<String>,
        source: &str,
        replies: &Vec<Reply>,
        at: usize,
    ) -> (step: Step<Option<String>>)
        ensures
            step.deep_view() == capture_listed_step(
                self.deep_view(),
                paths.deep_view(),
                source@,
                replies.deep_view(),
                at as int,
            ),
    {
        let none: Vec<String> = Vec::new();
        assert(none.deep_view() =~= Seq::empty());
        match self.select(&none, paths, replies, at) {
            Step::Perform(a) => Step::Perform(a),
            Step::Failed(f) => Step::Failed(f),
            Step::Finished(chosen, n) => match self.stage_paths(&chosen.included, replies, n) {
                Step::Perform(a) => Step::Perform(a),
                Step::Failed(f) => Step::Failed(f),
                Step::Finished(_, n) => self.commit(chosen.included.len(), source, replies, n),
            },
        }
    }

    fn full(&self, source: &str, replies: &Vec<Reply>, at: usize) -> (step: Step<Option<String>>)
        ensures
            step.deep_view() == full_step(
                self.deep_view(),
                source@,
                replies.deep_view(),
                at as int,
            ),
    {
        match self.read_empty_tree(replies, at) {
            Step::Perform(a) => Step::Perform(a),
            Step::Failed(f) => Step::Failed(f),
            Step::Finished(_, n) => {
                let arguments = vec![
                    "-C".to_owned(),
                    self.root.clone(),
                    "ls-files".to_owned(),
                    "-z".to_owned(),
                    "--cached".to_owned(),
                    "--others".to_owned(),
                    "--exclude-standard".to_owned(),
                ];
                assert(arguments.deep_view() =~= list_files_command(self.deep_view()).arguments);
                match succeed(
                    replies,
                    n,
                    plain_command(arguments, None),
                    "failed to enumerate source repository files",
                    "git ls-files",
                ) {
                    Step::Perform(a) => Step::Perform(a),
                    Step::Failed(f) => Step::Failed(f),
                    Step::Finished(output, n) => self.capture_listed(
                        &read_nul_paths(&output.stdout),
                        source,
                        replies,
                        n,
                    ),
                }
            },
        }
    }

    /// Takes a snapshot of the whole worktree, unless nothing has changed.
    pub fn capture_full(&self, source: &str, replies: &Vec<Reply>, at: usize) -> (step: Step<
        Option<String>,
    >)
        ensures
            step.deep_view() == capture_full_step(
                self.deep_view(),
                source@,
                replies.deep_view(),
                at as int,
            ),
    {
        match self.lock(replies, at) {
            Step::Perform(a) => Step::Perform(a),
            Step::Failed(f) => Step::Failed(f),
            Step::Finished(_, n) => match self.full(source, replies, n) {
                Step::Perform(a) => Step::Perform(a),
                Step::Failed(f) => Step::Failed(f),
                Step::Finished(outcome, n) => self.unlock(outcome, replies, n),
            },
        }
    }

    fn capture_batch(
        &self,
        batch: &Vec<String>,
        source: &str,
        replies: &Vec<Reply>,
        at: usize,
    ) -> (step: Step<Option<String>>)
        ensures
            step.deep_view() == capture_batch_step(
                self.deep_view(),
                batch.deep_view(),
                source@,
                replies.deep_view(),
                at as int,
            ),
    {
        match self.git_ignored_paths(batch, replies, at) {
            Step::Perform(a) => Step::Perform(a),
            Step::Failed(f) => Step::Failed(f),
            Step::Finished(ignored, n) => match self.select(&ignored, batch, replies, n) {
                Step::Perform(a) => Step::Perform(a),
                Step::Failed(f) => Step::Failed(f),
                Step::Finished(chosen, n) => match self.stage_paths(
                    &chosen.included,
                    replies,
                    n,
                ) {
                    Step::Perform(a) => Step::Perform(a),
                    Step::Failed(f) => Step::Failed(f),
                    Step::Finished(_, n) => match self.remove_paths(&chosen.removed, replies, n) {
                        Step::Perform(a) => Step::Perform(a),
                        Step::Failed(f) => Step::Failed(f),
                        Step::Finished(_, n) => self.commit(batch.len(), source, replies, n),
                    },
                },
            },
        }
    }

    /// Takes a snapshot of the paths that were reported, unless nothing has
    /// changed. Where a `.gitignore` is among them, paths that were not
    /// reported can have become eligible or ineligible, so the whole worktree
    /// is captured.
    pub fn capture_paths(
        &self,
        paths: &Vec<String>,
        source: &str,
        replies: &Vec<Reply>,
        at: usize,
    ) -> (step: Step<Option<String>>)
        ensures
            step.deep_view() == capture_paths_step(
                self.deep_view(),
                paths.deep_view(),
                source@,
                replies.deep_view(),
                at as int,
            ),
    {
        let batch = report_batch(self.style, paths);
        match self.lock(replies, at) {
            Step::Perform(a) => Step::Perform(a),
            Step::Failed(f) => Step::Failed(f),
            Step::Finished(_, n) => match self.prepare_index(replies, n) {
                Step::Perform(a) => Step::Perform(a),
                Step::Failed(f) => Step::Failed(f),
                Step::Finished(_, n) => {
                    if batch.len() == 0 {
                        return self.unlock(None, replies, n);
                    }
                    if ignore_rules_changed(self.style, &batch) {
                        return match self.unlock(None, replies, n) {
                            Step::Perform(a) => Step::Perform(a),
                            Step::Failed(f) => Step::Failed(f),
                            Step::Finished(_, n) => self.capture_full(source, replies, n),
                        };
                    }
                    match self.capture_batch(&batch, source, replies, n) {
                        Step::Perform(a) => Step::Perform(a),
                        Step::Failed(f) => Step::Failed(f),
                        Step::Finished(outcome, n) => self.unlock(outcome, replies, n),
                    }
                },
            },
        }
    }
}

} // verus!
