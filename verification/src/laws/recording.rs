//! What is captured can be read back. Git is taken for a repository that does
//! what Git's manual says of the few commands that matter here.

use crate::capture::{
    batch_of, capture_batch_step, capture_full_step, capture_paths_step, changes_ignore_rules,
    check_ignore_command, clear_index_command, clear_index_step, full_step, git_ignored_step,
    list_files_command, load_index_command, lock_file, lock_step, prepare_index_step,
    remove_command, remove_step, stage_command, stage_step,
};
use crate::commit::{
    changed_step, commit_step, commit_tree_command, gc_command, gc_step, head_step, message_of,
    record_step, resolve_head_command, tree_of_command, update_ref_command, write_tree_command,
};
use crate::git_store::{git_form, nul_terminated, path_problem, StoreView};
use crate::history::{inspect_object_command, is_revision, show_object_command, show_step};
use crate::laws::capture::{
    belongs, commands_work_where_they_should, selection_is_what_belongs, tells_what_lies,
    works_on_store,
};
use crate::laws::formats::paths_come_apart_at_zero_bytes;
use crate::laws::replay::{batch_keeps, capture_gives_the_lock_back};
use crate::procedure::{
    succeed_step, text_of_output, text_step, ActionView, InvocationView, OutputView, ReplyView,
    StatusView, StepView,
};
use crate::select::{listed_paths, looks, select_step, selection, SelectionView};
use crate::text::split;
use vstd::prelude::*;
use vstd::utf8::{encode_utf8, encode_utf8_decode_utf8};

verus! {

/// A file as Git records it.
pub struct FileView {
    pub bytes: Seq<u8>,
    pub executable: bool,
}

/// Files by their paths.
pub type FilesView = Map<Seq<char>, FileView>;

/// What a private repository holds.
pub struct RepositoryView {
    /// What the next snapshot will hold.
    pub index: FilesView,
    /// What the trees hold, by their names.
    pub trees: Map<Seq<char>, FilesView>,
    /// The trees of the commits, by the names of both.
    pub commits: Map<Seq<char>, Seq<char>>,
    /// The commits that the commits follow.
    pub parents: Map<Seq<char>, Option<Seq<char>>>,
    /// The commit that the history branch points to.
    pub branch: Option<Seq<char>>,
}

impl RepositoryView {
    /// Whether another repository has everything that was recorded in this one.
    pub open spec fn grows_to(self, later: RepositoryView) -> bool {
        self.trees.submap_of(later.trees) && self.commits.submap_of(later.commits)
            && self.parents.submap_of(later.parents)
    }

    /// Whether a commit has a file.
    pub open spec fn has_file(self, commit: Seq<char>, path: Seq<char>) -> bool {
        &&& self.commits.contains_key(commit)
        &&& self.trees.contains_key(self.commits[commit])
        &&& self.trees[self.commits[commit]].contains_key(path)
    }

    /// A commit's file.
    pub open spec fn file(self, commit: Seq<char>, path: Seq<char>) -> FileView {
        self.trees[self.commits[commit]][path]
    }

    /// The files of a commit.
    pub open spec fn files(self, commit: Seq<char>) -> FilesView {
        self.trees[self.commits[commit]]
    }

    /// Whether the newest snapshot is there.
    pub open spec fn has_its_newest(self) -> bool {
        self.branch matches Some(newest) ==> self.commits.contains_key(newest)
            && self.trees.contains_key(self.commits[newest])
    }

    /// Whether trees that hold the same have the same name.
    pub open spec fn names_trees_by_contents(self) -> bool {
        forall|one: Seq<char>, other: Seq<char>| #[trigger]
            self.trees.contains_key(one) && #[trigger] self.trees.contains_key(other)
                && self.trees[one] == self.trees[other] ==> one == other
    }
}

/// Whether a path is one of those in `input`, which have zero bytes behind them.
pub open spec fn is_named(input: Seq<u8>, path: Seq<char>) -> bool {
    path.len() > 0 && split(input, 0u8).contains(encode_utf8(path))
}

/// An index with the named paths as they are in the worktree.
pub open spec fn updated(index: FilesView, worktree: FilesView, input: Seq<u8>) -> FilesView {
    Map::new(
        |path: Seq<char>|
            if is_named(input, path) {
                worktree.contains_key(path)
            } else {
                index.contains_key(path)
            },
        |path: Seq<char>|
            if is_named(input, path) {
                worktree[path]
            } else {
                index[path]
            },
    )
}

/// An index without the named paths.
pub open spec fn without(index: FilesView, input: Seq<u8>) -> FilesView {
    Map::new(
        |path: Seq<char>| index.contains_key(path) && !is_named(input, path),
        |path: Seq<char>| index[path],
    )
}

/// Whether a command moves a branch.
pub open spec fn moves_branch(command: InvocationView) -> bool {
    command.arguments.len() > 0 && command.arguments[0] == "update-ref"@
}

/// What a command does to the private repository of a store when it ends like
/// this. Nothing that was recorded is ever lost.
pub open spec fn git_does(
    worktree: FilesView,
    store: StoreView,
    before: RepositoryView,
    command: InvocationView,
    output: OutputView,
    after: RepositoryView,
) -> bool {
    let words = command.arguments;
    let asks_head = works_on_store(store, command) && words == seq![
        "rev-parse"@,
        "--verify"@,
        "--quiet"@,
        "refs/heads/history"@,
    ];
    &&& before.grows_to(after)
    &&& !works_on_store(store, command) ==> after.index == before.index
    &&& !(works_on_store(store, command) && moves_branch(command)) ==> after.branch
        == before.branch
    &&& asks_head && output.code == Some(1i32) ==> before.branch is None
    &&& works_on_store(store, command) && output.success() ==> {
        &&& words == seq!["read-tree"@, "--empty"@] ==> after.index == FilesView::empty()
        &&& words == seq!["read-tree"@, "refs/heads/history"@] ==> {
            before.branch matches Some(commit) ==> after.index == before.files(commit)
        }
        &&& words == seq![
            "add"@,
            "-A"@,
            "-f"@,
            "--pathspec-from-file=-"@,
            "--pathspec-file-nul"@,
        ] ==> {
            command.input matches Some(input) ==> after.index == updated(
                before.index,
                worktree,
                input,
            )
        }
        &&& words == seq!["update-index"@, "--force-remove"@, "-z"@, "--stdin"@] ==> {
            command.input matches Some(input) ==> after.index == without(before.index, input)
        }
        &&& words == seq!["write-tree"@] ==> {
            text_of_output(output) matches Some(tree) ==> after.trees.contains_key(tree)
                && after.trees[tree] == before.index
        }
        &&& words.len() > 1 && words[0] == "commit-tree"@ ==> {
            text_of_output(output) matches Some(commit) ==> {
                &&& words.len() == 2 ==> makes(after, commit, words[1], None)
                &&& words.len() == 4 && words[2] == "-p"@ ==> makes(
                    after,
                    commit,
                    words[1],
                    Some(words[3]),
                )
            }
        }
        &&& words.len() > 2 && moves_branch(command) && words[1] == "refs/heads/history"@
            ==> after.branch == Some(words[2])
        &&& asks_head ==> {
            text_of_output(output) matches Some(commit) ==> before.branch == Some(commit)
        }
        &&& before.branch matches Some(commit) ==> words == seq![
            "rev-parse"@,
            commit + "^{tree}"@,
        ] ==> {
            text_of_output(output) matches Some(tree) ==> {
                &&& before.commits.contains_key(commit)
                &&& before.commits[commit] == tree
                &&& before.trees.contains_key(tree)
            }
        }
    }
}

/// Whether a commit is of this tree and follows this commit.
pub open spec fn makes(
    repository: RepositoryView,
    commit: Seq<char>,
    tree: Seq<char>,
    parent: Option<Seq<char>>,
) -> bool {
    &&& repository.commits.contains_key(commit)
    &&& repository.commits[commit] == tree
    &&& repository.parents.contains_key(commit)
    &&& repository.parents[commit] == parent
}

/// What a snapshot of the whole worktree comes to with the replies before `k`.
#[verifier::opaque]
pub open spec fn asked(
    store: StoreView,
    source: Seq<char>,
    replies: Seq<ReplyView>,
    at: int,
    k: int,
) -> StepView<Option<Seq<char>>> {
    capture_full_step(store, source, replies.take(k), at)
}

/// What a snapshot of reported paths comes to with the replies before `k`.
#[verifier::opaque]
pub open spec fn asked_for_paths(
    store: StoreView,
    paths: Seq<Seq<char>>,
    source: Seq<char>,
    replies: Seq<ReplyView>,
    at: int,
    k: int,
) -> StepView<Option<Seq<char>>> {
    capture_paths_step(store, paths, source, replies.take(k), at)
}

/// What a commit of the index comes to with the replies before `k`.
#[verifier::opaque]
spec fn committing(
    store: StoreView,
    path_count: nat,
    source: Seq<char>,
    replies: Seq<ReplyView>,
    start: int,
    k: int,
) -> StepView<Option<Seq<char>>> {
    commit_step(store, path_count, source, replies.take(k), start)
}

/// What happens to the private repository when a procedure has come to `step`
/// and this reply comes in.
pub open spec fn happens(
    worktree: FilesView,
    store: StoreView,
    step: StepView<Option<Seq<char>>>,
    reply: ReplyView,
    before: RepositoryView,
    after: RepositoryView,
) -> bool {
    match (step, reply) {
        (StepView::Perform(ActionView::Run(command)), ReplyView::Output(output)) => git_does(
            worktree,
            store,
            before,
            command,
            output,
            after,
        ),
        _ => after == before,
    }
}

/// Whether `history` tells what becomes of the private repository, reply by
/// reply, under a procedure that asks for this.
pub open spec fn witnesses(
    history: spec_fn(int) -> RepositoryView,
    worktree: FilesView,
    store: StoreView,
    asks: spec_fn(int) -> StepView<Option<Seq<char>>>,
    replies: Seq<ReplyView>,
    at: int,
    n: int,
) -> bool {
    forall|k: int|
        at <= k < n ==> happens(
            worktree,
            store,
            asks(k),
            replies[k],
            #[trigger] history(k),
            history(k + 1),
        )
}

proof fn recorded_stays(
    history: spec_fn(int) -> RepositoryView,
    worktree: FilesView,
    store: StoreView,
    asks: spec_fn(int) -> StepView<Option<Seq<char>>>,
    replies: Seq<ReplyView>,
    at: int,
    n: int,
    i: int,
    j: int,
)
    requires
        witnesses(history, worktree, store, asks, replies, at, n),
        at <= i <= j <= n,
    ensures
        history(i).grows_to(history(j)),
    decreases j - i,
{
    if i < j {
        let k = j - 1;
        recorded_stays(history, worktree, store, asks, replies, at, n, i, k);
        assert(happens(worktree, store, asks(k), replies[k], history(k), history(k + 1)));
        assert(history(k).grows_to(history(k + 1)));
        growth_adds_up(history(i), history(k), history(k + 1));
        assert(history(k + 1) == history(j));
    }
}

proof fn growth_keeps(first: RepositoryView, second: RepositoryView, name: Seq<char>)
    requires
        first.grows_to(second),
    ensures
        first.trees.contains_key(name) ==> second.trees.contains_key(name) && second.trees[name]
            == first.trees[name],
        first.commits.contains_key(name) ==> second.commits.contains_key(name)
            && second.commits[name] == first.commits[name],
        first.parents.contains_key(name) ==> second.parents.contains_key(name)
            && second.parents[name] == first.parents[name],
{
    assert(first.parents.dom().contains(name) ==> second.parents.dom().contains(name));
    assert(first.trees.dom().contains(name) ==> second.trees.dom().contains(name));
    assert(first.commits.dom().contains(name) ==> second.commits.dom().contains(name));
}

proof fn growth_adds_up(first: RepositoryView, second: RepositoryView, third: RepositoryView)
    requires
        first.grows_to(second),
        second.grows_to(third),
    ensures
        first.grows_to(third),
{
    assert forall|key: Seq<char>| #[trigger] first.trees.contains_key(key) implies third
        .trees.contains_key(key) && third.trees[key] == first.trees[key] by {
        assert(second.trees.contains_key(key));
    }
    assert forall|key: Seq<char>| #[trigger] first.commits.contains_key(key) implies third
        .commits.contains_key(key) && third.commits[key] == first.commits[key] by {
        assert(second.commits.contains_key(key));
    }
    assert forall|key: Seq<char>| #[trigger] first.parents.contains_key(key) implies third
        .parents.contains_key(key) && third.parents[key] == first.parents[key] by {
        assert(second.parents.contains_key(key));
    }
}

/// Where a snapshot of the whole worktree stands, up to what is looked at.
spec fn looked(
    store: StoreView,
    replies: Seq<ReplyView>,
    at: int,
    output: OutputView,
    statuses: Seq<StatusView>,
) -> bool {
    &&& at + 5 <= replies.len()
    &&& lock_step(store, replies, at) == StepView::<()>::Finished((), at + 2)
    &&& clear_index_step(store, replies, at + 2) == StepView::<()>::Finished((), at + 3)
    &&& succeed_step(
        replies,
        at + 3,
        list_files_command(store),
        "failed to enumerate source repository files"@,
        "git ls-files"@,
    ) == StepView::Finished(output, at + 4)
    &&& replies[at + 4] == ReplyView::Statuses(statuses)
}

/// What is asked for until the worktree has been looked at.
#[verifier::rlimit(40)]
proof fn asked_first(
    store: StoreView,
    source: Seq<char>,
    replies: Seq<ReplyView>,
    at: int,
    output: OutputView,
    statuses: Seq<StatusView>,
)
    requires
        0 <= at,
        looked(store, replies, at, output, statuses),
    ensures
        asked(store, source, replies, at, at + 2) == StepView::<
            Option<Seq<char>>,
        >::Perform(ActionView::Run(clear_index_command(store))),
        asked(store, source, replies, at, at + 3) == StepView::<
            Option<Seq<char>>,
        >::Perform(ActionView::Run(list_files_command(store))),
        asked(store, source, replies, at, at + 4) == StepView::<
            Option<Seq<char>>,
        >::Perform(ActionView::Inspect(looks(store, Seq::empty(), listed_paths(output.stdout)))),
{
    reveal(asked);
    assert(lock_step(store, replies.take(at + 2), at) == lock_step(store, replies, at));
    assert(lock_step(store, replies.take(at + 3), at) == lock_step(store, replies, at));
    assert(lock_step(store, replies.take(at + 4), at) == lock_step(store, replies, at));
    assert(clear_index_step(store, replies.take(at + 3), at + 2) == clear_index_step(
        store,
        replies,
        at + 2,
    ));
    assert(clear_index_step(store, replies.take(at + 4), at + 2) == clear_index_step(
        store,
        replies,
        at + 2,
    ));
}

/// With fewer replies, a snapshot has come as far as those lead.
#[verifier::rlimit(40)]
proof fn stages_with_fewer(
    store: StoreView,
    source: Seq<char>,
    replies: Seq<ReplyView>,
    at: int,
    output: OutputView,
    statuses: Seq<StatusView>,
    chosen: Seq<Seq<char>>,
    k: int,
)
    requires
        0 <= at,
        looked(store, replies, at, output, statuses),
        statuses.len() == looks(store, Seq::empty(), listed_paths(output.stdout)).len(),
        selection(store, Seq::empty(), listed_paths(output.stdout), statuses) matches Ok(s)
            && s.included == chosen,
        at + 5 <= k <= replies.len(),
    ensures
        full_step(store, source, replies.take(k), at + 2) == (match stage_step(
            store,
            chosen,
            replies.take(k),
            at + 5,
        ) {
            StepView::Perform(a) => StepView::<Option<Seq<char>>>::Perform(a),
            StepView::Failed(f) => StepView::Failed(f),
            StepView::Finished(_, n) => commit_step(
                store,
                chosen.len(),
                source,
                replies.take(k),
                n,
            ),
        }),
        lock_step(store, replies.take(k), at) == StepView::<()>::Finished((), at + 2),
{
    let fewer = replies.take(k);
    assert(lock_step(store, fewer, at) == lock_step(store, replies, at));
    assert(clear_index_step(store, fewer, at + 2) == clear_index_step(store, replies, at + 2));
    assert(fewer[at + 3] == replies[at + 3]);
    assert(fewer[at + 4] == replies[at + 4]);
    assert(select_step(store, Seq::empty(), listed_paths(output.stdout), fewer, at + 4)
        == select_step(store, Seq::empty(), listed_paths(output.stdout), replies, at + 4));
}

/// What a snapshot records once the index is as it should be.
spec fn records(
    store: StoreView,
    path_count: nat,
    source: Seq<char>,
    replies: Seq<ReplyView>,
    start: int,
    tree: Seq<char>,
    parent: Option<Seq<char>>,
    compared: int,
    commit: Seq<char>,
) -> bool {
    &&& start + 1 < compared < replies.len()
    &&& text_step(
        replies,
        start,
        write_tree_command(store),
        "failed to write snapshot tree"@,
        "git write-tree"@,
    ) == StepView::Finished(tree, start + 1)
    &&& head_step(store, replies, start + 1) == StepView::Finished(parent, start + 2)
    &&& changed_step(store, tree, parent, replies, start + 2) == StepView::Finished(true, compared)
    &&& text_step(
        replies,
        compared,
        commit_tree_command(store, tree, parent, message_of(path_count, source, store.root)),
        "failed to start git commit-tree"@,
        "git commit-tree"@,
    ) == StepView::Finished(commit, compared + 1)
}

/// With fewer replies, a commit has come as far as those lead.
#[verifier::rlimit(40)]
proof fn commits_with_fewer(
    store: StoreView,
    path_count: nat,
    source: Seq<char>,
    replies: Seq<ReplyView>,
    start: int,
    tree: Seq<char>,
    parent: Option<Seq<char>>,
    compared: int,
    commit: Seq<char>,
)
    requires
        0 <= start,
        records(store, path_count, source, replies, start, tree, parent, compared, commit),
    ensures
        committing(store, path_count, source, replies, start, start) == StepView::<
            Option<Seq<char>>,
        >::Perform(ActionView::Run(write_tree_command(store))),
        committing(store, path_count, source, replies, start, compared) == StepView::<
            Option<Seq<char>>,
        >::Perform(
            ActionView::Run(
                commit_tree_command(
                    store,
                    tree,
                    parent,
                    message_of(path_count, source, store.root),
                ),
            ),
        ),
{
    reveal(committing);
    let fewer = replies.take(compared);
    assert(fewer[start] == replies[start]);
    assert(fewer[start + 1] == replies[start + 1]);
    assert(head_step(store, fewer, start + 1) == head_step(store, replies, start + 1));
    assert(changed_step(store, tree, parent, fewer, start + 2) == changed_step(
        store,
        tree,
        parent,
        replies,
        start + 2,
    ));
}

/// A path is named in what is handed to Git exactly where it is one of the paths.
pub proof fn named_are_the_paths(paths: Seq<Seq<char>>, path: Seq<char>)
    requires
        forall|i: int| 0 <= i < paths.len() ==> !encode_utf8(#[trigger] paths[i]).contains(0u8),
        path.len() > 0,
    ensures
        is_named(nul_terminated(paths), path) <==> paths.contains(path),
{
    paths_come_apart_at_zero_bytes(paths);
    let bytes = encode_utf8(path);
    let pieces = split(nul_terminated(paths), 0u8);
    let encoded = paths.map_values(|p: Seq<char>| encode_utf8(p));
    encode_utf8_decode_utf8(path);
    if paths.contains(path) {
        let k = choose|k: int| 0 <= k < paths.len() && paths[k] == path;
        assert(pieces[k] == bytes);
    }
    if pieces.contains(bytes) {
        let k = choose|k: int| 0 <= k < pieces.len() && pieces[k] == bytes;
        if k < paths.len() {
            encode_utf8_decode_utf8(paths[k]);
            assert(paths[k] == path);
        } else {
            assert(bytes.len() == 0);
            encode_utf8_decode_utf8(Seq::empty());
            assert(encode_utf8(Seq::empty()) =~= bytes);
        }
    }
}

/// Where a snapshot of the whole worktree stood before it ended.
#[verifier::rlimit(40)]
proof fn the_worktree_was_looked_at(
    store: StoreView,
    source: Seq<char>,
    replies: Seq<ReplyView>,
    at: int,
    n: int,
    output: OutputView,
    statuses: Seq<StatusView>,
    outcome: Option<Seq<char>>,
) -> (r: (int, int))
    requires
        0 <= at,
        capture_full_step(store, source, replies, at) == StepView::Finished(outcome, n),
        replies[at + 3] == ReplyView::Output(output),
        replies[at + 4] == ReplyView::Statuses(statuses),
    ensures
        looked(store, replies, at, output, statuses),
        statuses.len() == looks(store, Seq::empty(), listed_paths(output.stdout)).len(),
        selection(store, Seq::empty(), listed_paths(output.stdout), statuses) matches Ok(s)
            && stage_step(store, s.included, replies, at + 5) == StepView::<()>::Finished((), r.0)
            && commit_step(store, s.included.len(), source, replies, r.0) == StepView::Finished(
            outcome,
            r.1,
        ),
        at + 5 <= r.0 <= at + 6,
        r.1 + 1 == n <= replies.len(),
{
    assert(lock_step(store, replies, at) == StepView::<()>::Finished((), at + 2));
    assert(full_step(store, source, replies, at + 2) is Finished);
    assert(clear_index_step(store, replies, at + 2) == StepView::<()>::Finished((), at + 3));
    let paths = listed_paths(output.stdout);
    let chosen = select_step(store, Seq::empty(), paths, replies, at + 4);
    assert(chosen is Finished);
    let included = chosen->Finished_0.included;
    let staged = stage_step(store, included, replies, at + 5)->Finished_1;
    let end = commit_step(store, included.len(), source, replies, staged)->Finished_1;
    (staged, end)
}

/// What a snapshot of the whole worktree that has ended had asked the worktree,
/// and what came back.
#[verifier::rlimit(40)]
pub proof fn what_a_full_capture_asked(
    store: StoreView,
    source: Seq<char>,
    replies: Seq<ReplyView>,
    at: int,
    n: int,
    outcome: Option<Seq<char>>,
) -> (r: (OutputView, Seq<StatusView>))
    requires
        0 <= at,
        capture_full_step(store, source, replies, at) == StepView::Finished(outcome, n),
    ensures
        at + 5 < n <= replies.len(),
        replies[at + 3] == ReplyView::Output(r.0),
        r.0.success(),
        replies[at + 4] == ReplyView::Statuses(r.1),
        selection(store, Seq::empty(), listed_paths(r.0.stdout), r.1) is Ok,
        asked(store, source, replies, at, at + 3) == StepView::<
            Option<Seq<char>>,
        >::Perform(ActionView::Run(list_files_command(store))),
        asked(store, source, replies, at, at + 4) == StepView::<
            Option<Seq<char>>,
        >::Perform(ActionView::Inspect(looks(store, Seq::empty(), listed_paths(r.0.stdout)))),
{
    assert(lock_step(store, replies, at) == StepView::<()>::Finished((), at + 2));
    assert(full_step(store, source, replies, at + 2) is Finished);
    assert(clear_index_step(store, replies, at + 2) == StepView::<()>::Finished((), at + 3));
    let output = replies[at + 3]->Output_0;
    assert(replies[at + 3] == ReplyView::Output(output));
    let statuses = replies[at + 4]->Statuses_0;
    assert(replies[at + 4] == ReplyView::Statuses(statuses));
    the_worktree_was_looked_at(store, source, replies, at, n, output, statuses, outcome);
    asked_first(store, source, replies, at, output, statuses);
    (output, statuses)
}

/// The tree that a snapshot has written, the snapshot before it, and whether
/// that has another tree.
spec fn compares(
    store: StoreView,
    replies: Seq<ReplyView>,
    start: int,
    tree: Seq<char>,
    parent: Option<Seq<char>>,
    changed: bool,
    compared: int,
) -> bool {
    &&& compared == start + 2 + (if parent is Some {
        1int
    } else {
        0
    })
    &&& compared <= replies.len()
    &&& text_step(
        replies,
        start,
        write_tree_command(store),
        "failed to write snapshot tree"@,
        "git write-tree"@,
    ) == StepView::Finished(tree, start + 1)
    &&& head_step(store, replies, start + 1) == StepView::Finished(parent, start + 2)
    &&& changed_step(store, tree, parent, replies, start + 2) == StepView::Finished(
        changed,
        compared,
    )
}

/// A commit is made where the tree has changed, and not otherwise.
#[verifier::rlimit(40)]
proof fn committing_compares(
    store: StoreView,
    path_count: nat,
    source: Seq<char>,
    replies: Seq<ReplyView>,
    start: int,
    outcome: Option<Seq<char>>,
    end: int,
) -> (r: (Seq<char>, Option<Seq<char>>, int))
    requires
        0 <= start,
        commit_step(store, path_count, source, replies, start) == StepView::Finished(outcome, end),
    ensures
        compares(store, replies, start, r.0, r.1, outcome is Some, r.2),
        outcome is None ==> end == r.2 && r.1 is Some,
        outcome matches Some(commit) ==> r.2 + 2 < end && records(
            store,
            path_count,
            source,
            replies,
            start,
            r.0,
            r.1,
            r.2,
            commit,
        ),
{
    let tree = text_step(
        replies,
        start,
        write_tree_command(store),
        "failed to write snapshot tree"@,
        "git write-tree"@,
    )->Finished_0;
    let parent = head_step(store, replies, start + 1)->Finished_0;
    let compared = changed_step(store, tree, parent, replies, start + 2)->Finished_1;
    (tree, parent, compared)
}

/// With fewer replies, the comparison has come as far as those lead.
#[verifier::rlimit(40)]
proof fn compares_with_fewer(
    store: StoreView,
    path_count: nat,
    source: Seq<char>,
    replies: Seq<ReplyView>,
    start: int,
    tree: Seq<char>,
    parent: Option<Seq<char>>,
    changed: bool,
    compared: int,
)
    requires
        0 <= start,
        compares(store, replies, start, tree, parent, changed, compared),
    ensures
        committing(store, path_count, source, replies, start, start) == StepView::<
            Option<Seq<char>>,
        >::Perform(ActionView::Run(write_tree_command(store))),
        committing(store, path_count, source, replies, start, start + 1) == StepView::<
            Option<Seq<char>>,
        >::Perform(ActionView::Run(resolve_head_command(store))),
        parent matches Some(commit) ==> committing(
            store,
            path_count,
            source,
            replies,
            start,
            start + 2,
        ) == StepView::<Option<Seq<char>>>::Perform(
            ActionView::Run(tree_of_command(store, commit)),
        ),
{
    reveal(committing);
    assert(replies.take(start + 1)[start] == replies[start]);
    let fewer = replies.take(start + 2);
    assert(fewer[start] == replies[start]);
    assert(fewer[start + 1] == replies[start + 1]);
    assert(head_step(store, fewer, start + 1) == head_step(store, replies, start + 1));
}

/// With fewer replies, a commit has been recorded as far as those lead.
#[verifier::rlimit(40)]
proof fn recorded_with_fewer(
    store: StoreView,
    path_count: nat,
    source: Seq<char>,
    replies: Seq<ReplyView>,
    start: int,
    tree: Seq<char>,
    parent: Option<Seq<char>>,
    compared: int,
    commit: Seq<char>,
    end: int,
    k: int,
)
    requires
        0 <= start,
        records(store, path_count, source, replies, start, tree, parent, compared, commit),
        commit_step(store, path_count, source, replies, start) == StepView::Finished(
            Some(commit),
            end,
        ),
        compared < k <= end <= replies.len(),
    ensures
        ({
            let step = committing(store, path_count, source, replies, start, k);
            if k == compared + 1 {
                step == StepView::<Option<Seq<char>>>::Perform(
                    ActionView::Run(update_ref_command(store, commit, parent)),
                )
            } else if k < end {
                ||| step == StepView::<Option<Seq<char>>>::Perform(
                    ActionView::Run(gc_command(store)),
                )
                ||| step matches StepView::Perform(ActionView::Tell(_))
            } else {
                step == StepView::Finished(Some(commit), end)
            }
        }),
        compared + 2 < end,
        replies[compared + 1] matches ReplyView::Output(output) && output.success(),
{
    reveal(committing);
    let fewer = replies.take(k);
    let message = message_of(path_count, source, store.root);
    assert(fewer[start] == replies[start]);
    assert(fewer[start + 1] == replies[start + 1]);
    assert(fewer[compared] == replies[compared]);
    assert(head_step(store, fewer, start + 1) == head_step(store, replies, start + 1));
    assert(changed_step(store, tree, parent, fewer, start + 2) == changed_step(
        store,
        tree,
        parent,
        replies,
        start + 2,
    ));
    assert(record_step(store, tree, parent, message, replies, compared) == StepView::Finished(
        commit,
        end,
    ));
    if k > compared + 1 {
        assert(fewer[compared + 1] == replies[compared + 1]);
    }
    if k > compared + 2 {
        assert(fewer[compared + 2] == replies[compared + 2]);
    }
    assert(gc_step(store, replies, compared + 2) == StepView::<()>::Finished((), end));
}

/// Whether a procedure that has come to `step` moves the history branch.
spec fn moves(store: StoreView, step: StepView<Option<Seq<char>>>) -> bool {
    step matches StepView::Perform(ActionView::Run(command)) && works_on_store(store, command)
        && moves_branch(command)
}

/// The branch stays where it was under what does not move it.
proof fn the_branch_stays(
    history: spec_fn(int) -> RepositoryView,
    worktree: FilesView,
    store: StoreView,
    asks: spec_fn(int) -> StepView<Option<Seq<char>>>,
    replies: Seq<ReplyView>,
    at: int,
    n: int,
    i: int,
    j: int,
)
    requires
        witnesses(history, worktree, store, asks, replies, at, n),
        at <= i <= j <= n,
        forall|k: int| i <= k < j ==> !moves(store, #[trigger] asks(k)),
    ensures
        history(j).branch == history(i).branch,
    decreases j - i,
{
    if i < j {
        let k = j - 1;
        the_branch_stays(history, worktree, store, asks, replies, at, n, i, k);
        assert(happens(worktree, store, asks(k), replies[k], history(k), history(k + 1)));
        assert(!moves(store, asks(k)));
    }
}

proof fn one_command_moves_the_branch()
    ensures
        "read-tree"@ != "update-ref"@,
        "add"@ != "update-ref"@,
        "write-tree"@ != "update-ref"@,
        "rev-parse"@ != "update-ref"@,
        "commit-tree"@ != "update-ref"@,
        "gc"@ != "update-ref"@,
        "update-index"@ != "update-ref"@,
{
    reveal_strlit("read-tree");
    reveal_strlit("add");
    reveal_strlit("write-tree");
    reveal_strlit("rev-parse");
    reveal_strlit("commit-tree");
    reveal_strlit("gc");
    reveal_strlit("update-index");
    reveal_strlit("update-ref");
    assert("write-tree"@[0] != "update-ref"@[0]);
    assert("update-index"@.len() != "update-ref"@.len());
}

/// What is asked for from the lock on.
#[verifier::rlimit(40)]
proof fn asked_later(
    store: StoreView,
    source: Seq<char>,
    replies: Seq<ReplyView>,
    at: int,
    output: OutputView,
    statuses: Seq<StatusView>,
    chosen: Seq<Seq<char>>,
    staged: int,
    k: int,
)
    requires
        0 <= at,
        looked(store, replies, at, output, statuses),
        statuses.len() == looks(store, Seq::empty(), listed_paths(output.stdout)).len(),
        selection(store, Seq::empty(), listed_paths(output.stdout), statuses) matches Ok(s)
            && s.included == chosen,
        stage_step(store, chosen, replies, at + 5) == StepView::<()>::Finished((), staged),
        at + 5 <= staged <= k <= replies.len(),
    ensures
        asked(store, source, replies, at, at) == StepView::<Option<Seq<char>>>::Perform(
            ActionView::OpenLock(lock_file(store)),
        ),
        asked(store, source, replies, at, at + 1) == StepView::<Option<Seq<char>>>::Perform(
            ActionView::Lock,
        ),
        chosen.len() > 0 ==> staged == at + 6 && asked(store, source, replies, at, at + 5)
            == StepView::<Option<Seq<char>>>::Perform(
            ActionView::Run(stage_command(store, chosen)),
        ),
        chosen.len() == 0 ==> staged == at + 5,
        committing(store, chosen.len(), source, replies, staged, k) matches StepView::Perform(
            action,
        ) ==> asked(store, source, replies, at, k) == StepView::<Option<Seq<char>>>::Perform(
            action,
        ),
{
    reveal(committing);
    reveal(asked);
    assert(replies.take(at + 1)[at] == replies[at]);
    stages_with_fewer(store, source, replies, at, output, statuses, chosen, at + 5);
    stages_with_fewer(store, source, replies, at, output, statuses, chosen, k);
    assert(chosen.len() > 0 ==> replies.take(k)[at + 5] == replies[at + 5]);
    assert(stage_step(store, chosen, replies.take(k), at + 5) == StepView::<()>::Finished(
        (),
        staged,
    ));
}

/// The index from which the tree of a snapshot is written holds what belongs
/// there, as it is in the worktree.
proof fn the_index_holds_what_belongs(
    history: spec_fn(int) -> RepositoryView,
    worktree: FilesView,
    store: StoreView,
    source: Seq<char>,
    replies: Seq<ReplyView>,
    at: int,
    n: int,
    output: OutputView,
    statuses: Seq<StatusView>,
    chosen: Seq<Seq<char>>,
    staged: int,
)
    requires
        0 <= at,
        witnesses(
            history,
            worktree,
            store,
            |k: int| asked(store, source, replies, at, k),
            replies,
            at,
            n,
        ),
        looked(store, replies, at, output, statuses),
        stage_step(store, chosen, replies, at + 5) == StepView::<()>::Finished((), staged),
        at + 5 <= staged < n,
        chosen.len() > 0 ==> asked(store, source, replies, at, at + 5) == StepView::<
            Option<Seq<char>>,
        >::Perform(ActionView::Run(stage_command(store, chosen))),
        forall|i: int| 0 <= i < chosen.len() ==> !encode_utf8(#[trigger] chosen[i]).contains(0u8),
    ensures
        forall|path: Seq<char>|
            path.len() > 0 ==> (#[trigger] history(staged).index.contains_key(path)
                <==> chosen.contains(path) && worktree.contains_key(path)),
        forall|path: Seq<char>|
            path.len() > 0 && #[trigger] history(staged).index.contains_key(path)
                ==> history(staged).index[path] == worktree[path],
        !history(staged).index.contains_key(Seq::empty()),
{
    asked_first(store, source, replies, at, output, statuses);
    assert(happens(
        worktree,
        store,
        asked(store, source, replies, at, at + 2),
        replies[at + 2],
        history(at + 2),
        history(at + 2 + 1),
    ));
    assert(happens(
        worktree,
        store,
        asked(store, source, replies, at, at + 3),
        replies[at + 3],
        history(at + 3),
        history(at + 3 + 1),
    ));
    assert(happens(
        worktree,
        store,
        asked(store, source, replies, at, at + 4),
        replies[at + 4],
        history(at + 4),
        history(at + 4 + 1),
    ));
    let clear = clear_index_command(store);
    commands_work_where_they_should(store, clear.arguments, clear.input, Seq::empty());
    assert(works_on_store(store, clear));
    assert(clear.arguments =~= seq!["read-tree"@, "--empty"@]);
    assert(history(at + 3).index == FilesView::empty());
    let list = list_files_command(store);
    commands_work_where_they_should(store, list.arguments, list.input, Seq::empty());
    assert(!works_on_store(store, list));
    assert(history(at + 4).index == FilesView::empty());
    assert(history(at + 5).index == FilesView::empty());
    if chosen.len() > 0 {
        assert(happens(
            worktree,
            store,
            asked(store, source, replies, at, at + 5),
            replies[at + 5],
            history(at + 5),
            history(at + 5 + 1),
        ));
        let stage = stage_command(store, chosen);
        commands_work_where_they_should(store, stage.arguments, stage.input, Seq::empty());
    assert(works_on_store(store, stage));
        assert(stage.arguments =~= seq![
            "add"@,
            "-A"@,
            "-f"@,
            "--pathspec-from-file=-"@,
            "--pathspec-file-nul"@,
        ]);
        assert(history(at + 6).index == updated(
            FilesView::empty(),
            worktree,
            nul_terminated(chosen),
        ));
        assert forall|path: Seq<char>| path.len() > 0 implies (
        #[trigger] history(staged).index.contains_key(path) <==> chosen.contains(path)
            && worktree.contains_key(path)) by {
            named_are_the_paths(chosen, path);
        }
        assert forall|path: Seq<char>|
            path.len() > 0 && #[trigger] history(staged).index.contains_key(path) implies history(
            staged,
        ).index[path] == worktree[path] by {
            named_are_the_paths(chosen, path);
        }
    }
}

/// The commit holds what the index held when its tree was written.
proof fn what_is_committed(
    history: spec_fn(int) -> RepositoryView,
    worktree: FilesView,
    store: StoreView,
    asks: spec_fn(int) -> StepView<Option<Seq<char>>>,
    path_count: nat,
    source: Seq<char>,
    replies: Seq<ReplyView>,
    at: int,
    n: int,
    start: int,
    tree: Seq<char>,
    parent: Option<Seq<char>>,
    compared: int,
    commit: Seq<char>,
)
    requires
        witnesses(history, worktree, store, asks, replies, at, n),
        records(store, path_count, source, replies, start, tree, parent, compared, commit),
        0 <= at <= start,
        compared < n,
        asks(start) == StepView::<Option<Seq<char>>>::Perform(
            ActionView::Run(write_tree_command(store)),
        ),
        asks(compared) == StepView::<Option<Seq<char>>>::Perform(
            ActionView::Run(
                commit_tree_command(
                    store,
                    tree,
                    parent,
                    message_of(path_count, source, store.root),
                ),
            ),
        ),
    ensures
        history(n).commits.contains_key(commit),
        history(n).commits[commit] == tree,
        history(n).parents.contains_key(commit),
        history(n).parents[commit] == parent,
        history(n).trees.contains_key(tree),
        history(n).trees[tree] == history(start).index,
{
    assert(happens(
        worktree,
        store,
        asks(start),
        replies[start],
        history(start),
        history(start + 1),
    ));
    assert(happens(
        worktree,
        store,
        asks(compared),
        replies[compared],
        history(compared),
        history(compared + 1),
    ));
    let write = write_tree_command(store);
    commands_work_where_they_should(store, write.arguments, write.input, Seq::empty());
    assert(works_on_store(store, write));
    assert(write.arguments =~= seq!["write-tree"@]);
    assert(history(start + 1).trees.contains_key(tree));
    assert(history(start + 1).trees[tree] == history(start).index);
    let record = commit_tree_command(
        store,
        tree,
        parent,
        message_of(path_count, source, store.root),
    );
    commands_work_where_they_should(store, record.arguments, record.input, Seq::empty());
    assert(works_on_store(store, record));
    assert(record.arguments[0] == "commit-tree"@ && record.arguments[1] == tree);
    assert(history(compared + 1).commits.contains_key(commit));
    assert(history(compared + 1).commits[commit] == tree);
    recorded_stays(history, worktree, store, asks, replies, at, n, start + 1, n);
    recorded_stays(history, worktree, store, asks, replies, at, n, compared + 1, n);
    growth_keeps(history(start + 1), history(n), tree);
    growth_keeps(history(compared + 1), history(n), commit);
}

/// The tree is written from the index, the snapshot before is what the branch
/// points to, and its tree is what it was committed with.
proof fn the_tree_is_written(
    history: spec_fn(int) -> RepositoryView,
    worktree: FilesView,
    store: StoreView,
    asks: spec_fn(int) -> StepView<Option<Seq<char>>>,
    replies: Seq<ReplyView>,
    at: int,
    n: int,
    start: int,
    tree: Seq<char>,
    parent: Option<Seq<char>>,
    changed: bool,
    compared: int,
)
    requires
        witnesses(history, worktree, store, asks, replies, at, n),
        compares(store, replies, start, tree, parent, changed, compared),
        0 <= at <= start,
        compared < n,
        asks(start) == StepView::<Option<Seq<char>>>::Perform(
            ActionView::Run(write_tree_command(store)),
        ),
        asks(start + 1) == StepView::<Option<Seq<char>>>::Perform(
            ActionView::Run(resolve_head_command(store)),
        ),
        parent matches Some(commit) ==> asks(start + 2) == StepView::<
            Option<Seq<char>>,
        >::Perform(ActionView::Run(tree_of_command(store, commit))),
    ensures
        history(n).trees.contains_key(tree),
        history(n).trees[tree] == history(start).index,
        parent == history(start + 1).branch,
        history(start + 2).branch == parent ==> (parent matches Some(commit) ==> {
            &&& history(n).commits.contains_key(commit)
            &&& history(n).trees.contains_key(history(n).commits[commit])
            &&& changed <==> history(n).commits[commit] != tree
        }),
{
    assert(happens(
        worktree,
        store,
        asks(start),
        replies[start],
        history(start),
        history(start + 1),
    ));
    assert(happens(
        worktree,
        store,
        asks(start + 1),
        replies[start + 1],
        history(start + 1),
        history(start + 1 + 1),
    ));
    let write = write_tree_command(store);
    commands_work_where_they_should(store, write.arguments, write.input, Seq::empty());
    assert(works_on_store(store, write));
    assert(write.arguments =~= seq!["write-tree"@]);
    assert(history(start + 1).trees.contains_key(tree));
    recorded_stays(history, worktree, store, asks, replies, at, n, start + 1, n);
    growth_keeps(history(start + 1), history(n), tree);
    let head = resolve_head_command(store);
    commands_work_where_they_should(store, head.arguments, head.input, Seq::empty());
    assert(head.arguments =~= seq![
        "rev-parse"@,
        "--verify"@,
        "--quiet"@,
        "refs/heads/history"@,
    ]);
    assert(works_on_store(store, head));
    if parent is Some {
        let commit = parent->0;
        assert(happens(
            worktree,
            store,
            asks(start + 2),
            replies[start + 2],
            history(start + 2),
            history(start + 2 + 1),
        ));
        let inspect = tree_of_command(store, commit);
        commands_work_where_they_should(store, inspect.arguments, inspect.input, Seq::empty());
        assert(inspect.arguments =~= seq!["rev-parse"@, commit + "^{tree}"@]);
        assert(works_on_store(store, inspect));
        recorded_stays(history, worktree, store, asks, replies, at, n, start + 2, n);
        growth_keeps(history(start + 2), history(n), commit);
        if history(start + 2).branch == parent {
            growth_keeps(history(start + 2), history(n), history(start + 2).commits[commit]);
        }
    }
}

/// What a procedure that ends with a commit of the index leaves behind: the
/// index in a tree, compared with that of the newest snapshot, and, where they
/// differ, a newest snapshot with that tree.
proof fn the_index_is_recorded(
    history: spec_fn(int) -> RepositoryView,
    worktree: FilesView,
    store: StoreView,
    asks: spec_fn(int) -> StepView<Option<Seq<char>>>,
    path_count: nat,
    source: Seq<char>,
    replies: Seq<ReplyView>,
    at: int,
    n: int,
    start: int,
    outcome: Option<Seq<char>>,
) -> (tree: Seq<char>)
    requires
        witnesses(history, worktree, store, asks, replies, at, n),
        0 <= at <= start,
        n <= replies.len(),
        commit_step(store, path_count, source, replies, start) == StepView::Finished(
            outcome,
            n - 1,
        ),
        forall|k: int|
            start <= k < n - 1 ==> (committing(
                store,
                path_count,
                source,
                replies,
                start,
                k,
            ) matches StepView::Perform(action) ==> #[trigger] asks(k) == StepView::<
                Option<Seq<char>>,
            >::Perform(action)),
        asks(n - 1) == StepView::<Option<Seq<char>>>::Perform(ActionView::Unlock),
    ensures
        history(n).trees.contains_key(tree),
        history(n).trees[tree] == history(start).index,
        history(n).branch matches Some(newest) && {
            &&& history(n).commits.contains_key(newest)
            &&& history(n).commits[newest] == tree
            &&& outcome matches Some(commit) ==> commit == newest && history(n).parents.contains_key(
                commit,
            ) && history(n).parents[commit] == history(start).branch
            &&& outcome is None ==> history(start).branch == Some(newest)
        },
        history(start).branch matches Some(before) ==> {
            &&& history(n).commits.contains_key(before)
            &&& outcome is Some <==> history(n).commits[before] != tree
        },
{
    let end = n - 1;
    let (tree, parent, compared) = committing_compares(
        store,
        path_count,
        source,
        replies,
        start,
        outcome,
        end,
    );
    let changed = outcome is Some;
    compares_with_fewer(
        store,
        path_count,
        source,
        replies,
        start,
        tree,
        parent,
        changed,
        compared,
    );
    assert(asks(start) == StepView::<Option<Seq<char>>>::Perform(
        ActionView::Run(write_tree_command(store)),
    ));
    assert(asks(start + 1) == StepView::<Option<Seq<char>>>::Perform(
        ActionView::Run(resolve_head_command(store)),
    ));
    assert(parent matches Some(commit) ==> asks(start + 2) == StepView::<
        Option<Seq<char>>,
    >::Perform(ActionView::Run(tree_of_command(store, commit))));
    the_tree_is_written(
        history,
        worktree,
        store,
        asks,
        replies,
        at,
        n,
        start,
        tree,
        parent,
        changed,
        compared,
    );
    one_command_moves_the_branch();
    assert forall|k: int| start <= k < compared implies !moves(store, #[trigger] asks(k)) by {
        assert(k == start || k == start + 1 || k == start + 2);
    }
    the_branch_stays(history, worktree, store, asks, replies, at, n, start, start + 1);
    the_branch_stays(history, worktree, store, asks, replies, at, n, start, start + 2);
    the_branch_stays(history, worktree, store, asks, replies, at, n, start, compared);
    match outcome {
        None => {
            the_branch_stays(history, worktree, store, asks, replies, at, n, compared, n);
        },
        Some(commit) => {
            commits_with_fewer(
                store,
                path_count,
                source,
                replies,
                start,
                tree,
                parent,
                compared,
                commit,
            );
            assert(asks(compared) is Perform);
            what_is_committed(
                history,
                worktree,
                store,
                asks,
                path_count,
                source,
                replies,
                at,
                n,
                start,
                tree,
                parent,
                compared,
                commit,
            );
            the_branch_is_moved(
                history,
                worktree,
                store,
                asks,
                path_count,
                source,
                replies,
                at,
                n,
                start,
                tree,
                parent,
                compared,
                commit,
            );
        },
    }
    tree
}

/// The branch is moved to the commit that was made, and stays there.
proof fn the_branch_is_moved(
    history: spec_fn(int) -> RepositoryView,
    worktree: FilesView,
    store: StoreView,
    asks: spec_fn(int) -> StepView<Option<Seq<char>>>,
    path_count: nat,
    source: Seq<char>,
    replies: Seq<ReplyView>,
    at: int,
    n: int,
    start: int,
    tree: Seq<char>,
    parent: Option<Seq<char>>,
    compared: int,
    commit: Seq<char>,
)
    requires
        witnesses(history, worktree, store, asks, replies, at, n),
        0 <= at <= start,
        n <= replies.len(),
        commit_step(store, path_count, source, replies, start) == StepView::Finished(
            Some(commit),
            n - 1,
        ),
        records(store, path_count, source, replies, start, tree, parent, compared, commit),
        compared + 2 < n - 1,
        forall|k: int|
            start <= k < n - 1 ==> (committing(
                store,
                path_count,
                source,
                replies,
                start,
                k,
            ) matches StepView::Perform(action) ==> #[trigger] asks(k) == StepView::<
                Option<Seq<char>>,
            >::Perform(action)),
        asks(n - 1) == StepView::<Option<Seq<char>>>::Perform(ActionView::Unlock),
    ensures
        history(n).branch == Some(commit),
{
    let end = n - 1;
    let next = compared + 1;
    one_command_moves_the_branch();
    assert forall|k: int| next < k < n implies !moves(store, #[trigger] asks(k)) by {
        if k < end {
            recorded_with_fewer(
                store,
                path_count,
                source,
                replies,
                start,
                tree,
                parent,
                compared,
                commit,
                end,
                k,
            );
        }
    }
    recorded_with_fewer(
        store,
        path_count,
        source,
        replies,
        start,
        tree,
        parent,
        compared,
        commit,
        end,
        next,
    );
    let update = update_ref_command(store, commit, parent);
    commands_work_where_they_should(store, update.arguments, update.input, Seq::empty());
    assert(works_on_store(store, update));
    assert(update.arguments[0] == "update-ref"@);
    assert(update.arguments[1] == "refs/heads/history"@);
    assert(update.arguments[2] == commit);
    assert(asks(next) == StepView::<Option<Seq<char>>>::Perform(ActionView::Run(update)));
    assert(happens(
        worktree,
        store,
        asks(next),
        replies[next],
        history(next),
        history(next + 1),
    ));
    the_branch_stays(history, worktree, store, asks, replies, at, n, next + 1, n);
}

/// Whether these are exactly those of the listed files which `should_include`
/// admits for what lies there, each as it is in the worktree.
pub open spec fn are_what_belongs(
    files: FilesView,
    lies: spec_fn(Seq<char>) -> StatusView,
    store: StoreView,
    listed: Seq<Seq<char>>,
    worktree: FilesView,
) -> bool {
    &&& forall|path: Seq<char>| #[trigger]
        files.contains_key(path) <==> path.len() > 0 && listed.contains(path) && belongs(
            lies,
            store,
            Seq::empty(),
            path,
        ) && worktree.contains_key(path)
    &&& forall|path: Seq<char>| #[trigger]
        files.contains_key(path) ==> files[path] == worktree[path]
}

/// What a snapshot of the whole worktree leaves behind.
proof fn the_worktree_is_recorded(
    lies: spec_fn(Seq<char>) -> StatusView,
    history: spec_fn(int) -> RepositoryView,
    worktree: FilesView,
    store: StoreView,
    source: Seq<char>,
    replies: Seq<ReplyView>,
    at: int,
    n: int,
    output: OutputView,
    statuses: Seq<StatusView>,
    outcome: Option<Seq<char>>,
) -> (tree: Seq<char>)
    requires
        0 <= at,
        capture_full_step(store, source, replies, at) == StepView::Finished(outcome, n),
        replies[at + 3] == ReplyView::Output(output),
        replies[at + 4] == ReplyView::Statuses(statuses),
        tells_what_lies(
            lies,
            looks(store, Seq::empty(), listed_paths(output.stdout)),
            statuses,
        ),
        forall|i: int|
            0 <= i < listed_paths(output.stdout).len() ==> !encode_utf8(
                #[trigger] listed_paths(output.stdout)[i],
            ).contains(0u8),
        witnesses(
            history,
            worktree,
            store,
            |k: int| asked(store, source, replies, at, k),
            replies,
            at,
            n,
        ),
    ensures
        history(n).trees.contains_key(tree),
        are_what_belongs(history(n).trees[tree], lies, store, listed_paths(output.stdout), worktree),
        history(n).branch matches Some(newest) && {
            &&& history(n).commits.contains_key(newest)
            &&& history(n).commits[newest] == tree
            &&& outcome matches Some(commit) ==> commit == newest && history(n).parents.contains_key(
                commit,
            ) && history(n).parents[commit] == history(at).branch
            &&& outcome is None ==> history(at).branch == Some(newest)
        },
        history(at).branch matches Some(before) ==> {
            &&& history(n).commits.contains_key(before)
            &&& outcome is Some <==> history(n).commits[before] != tree
        },
{
    let paths = listed_paths(output.stdout);
    let (staged, end) = the_worktree_was_looked_at(
        store,
        source,
        replies,
        at,
        n,
        output,
        statuses,
        outcome,
    );
    selection_is_what_belongs(lies, store, Seq::empty(), paths, statuses);
    let admits = |path: Seq<char>| belongs(lies, store, Seq::empty(), path);
    let chosen = paths.filter(admits);
    filtered_have_no_zeros(paths, admits);
    asked_first(store, source, replies, at, output, statuses);
    asked_later(store, source, replies, at, output, statuses, chosen, staged, staged);
    the_index_holds_what_belongs(
        history,
        worktree,
        store,
        source,
        replies,
        at,
        n,
        output,
        statuses,
        chosen,
        staged,
    );
    let index = history(staged).index;
    assert forall|path: Seq<char>| #[trigger] index.contains_key(path) <==> path.len() > 0
        && paths.contains(path) && belongs(lies, store, Seq::empty(), path)
        && worktree.contains_key(path) by {
        filtered_are(paths, admits, path);
        assert(path.len() == 0 ==> path =~= Seq::empty());
    }
    assert(are_what_belongs(index, lies, store, paths, worktree));
    let asks = |k: int| asked(store, source, replies, at, k);
    assert forall|k: int| staged <= k < n - 1 implies (committing(
        store,
        chosen.len(),
        source,
        replies,
        staged,
        k,
    ) matches StepView::Perform(action) ==> #[trigger] asks(k) == StepView::<
        Option<Seq<char>>,
    >::Perform(action)) by {
        asked_later(store, source, replies, at, output, statuses, chosen, staged, k);
    }
    asked_to_unlock(store, source, replies, at, n, outcome);
    one_command_moves_the_branch();
    assert forall|k: int| at <= k < staged implies !moves(store, #[trigger] asks(k)) by {
        let list = list_files_command(store);
        commands_work_where_they_should(store, list.arguments, list.input, Seq::empty());
        assert(k == at || k == at + 1 || k == at + 2 || k == at + 3 || k == at + 4 || k == at + 5);
    }
    the_branch_stays(history, worktree, store, asks, replies, at, n, at, staged);
    the_index_is_recorded(
        history,
        worktree,
        store,
        asks,
        chosen.len(),
        source,
        replies,
        at,
        n,
        staged,
        outcome,
    )
}

/// After a snapshot of the whole worktree, whether it made a commit or found
/// that nothing had changed, the newest snapshot holds exactly those of the
/// files that Git lists which `should_include` admits for what lies there, each
/// as it is in the worktree; and a commit that was made follows the snapshot
/// that was the newest before.
pub proof fn the_newest_snapshot_holds_what_belongs(
    lies: spec_fn(Seq<char>) -> StatusView,
    history: spec_fn(int) -> RepositoryView,
    worktree: FilesView,
    store: StoreView,
    source: Seq<char>,
    replies: Seq<ReplyView>,
    at: int,
    n: int,
    output: OutputView,
    statuses: Seq<StatusView>,
    outcome: Option<Seq<char>>,
)
    requires
        0 <= at,
        capture_full_step(store, source, replies, at) == StepView::Finished(outcome, n),
        replies[at + 3] == ReplyView::Output(output),
        replies[at + 4] == ReplyView::Statuses(statuses),
        tells_what_lies(
            lies,
            looks(store, Seq::empty(), listed_paths(output.stdout)),
            statuses,
        ),
        forall|i: int|
            0 <= i < listed_paths(output.stdout).len() ==> !encode_utf8(
                #[trigger] listed_paths(output.stdout)[i],
            ).contains(0u8),
        witnesses(
            history,
            worktree,
            store,
            |k: int| asked(store, source, replies, at, k),
            replies,
            at,
            n,
        ),
    ensures
        history(n).branch matches Some(newest) && {
            &&& outcome matches Some(commit) ==> commit == newest && history(n).parents.contains_key(
                commit,
            ) && history(n).parents[commit] == history(at).branch
            &&& outcome is None ==> history(at).branch == Some(newest)
            &&& history(n).commits.contains_key(newest)
            &&& history(n).trees.contains_key(history(n).commits[newest])
            &&& are_what_belongs(
                history(n).files(newest),
                lies,
                store,
                listed_paths(output.stdout),
                worktree,
            )
        },
{
    the_worktree_is_recorded(
        lies,
        history,
        worktree,
        store,
        source,
        replies,
        at,
        n,
        output,
        statuses,
        outcome,
    );
}

/// The last that is asked for is to let go of the lock.
proof fn asked_to_unlock(
    store: StoreView,
    source: Seq<char>,
    replies: Seq<ReplyView>,
    at: int,
    n: int,
    outcome: Option<Seq<char>>,
)
    requires
        0 <= at,
        capture_full_step(store, source, replies, at) == StepView::Finished(outcome, n),
    ensures
        asked(store, source, replies, at, n - 1) == StepView::<Option<Seq<char>>>::Perform(
            ActionView::Unlock,
        ),
{
    reveal(asked);
    capture_gives_the_lock_back(store, source, replies, at, outcome, n);
}

/// A second snapshot of a worktree in which nothing has changed, and of which
/// nothing was recorded since the first, makes no commit: whatever the first
/// ended with, the second ends with none.
pub proof fn a_second_snapshot_finds_nothing_new(
    lies: spec_fn(Seq<char>) -> StatusView,
    worktree: FilesView,
    store: StoreView,
    history: spec_fn(int) -> RepositoryView,
    source: Seq<char>,
    replies: Seq<ReplyView>,
    at: int,
    n: int,
    output: OutputView,
    statuses: Seq<StatusView>,
    outcome: Option<Seq<char>>,
    later: spec_fn(int) -> RepositoryView,
    source2: Seq<char>,
    replies2: Seq<ReplyView>,
    at2: int,
    n2: int,
    output2: OutputView,
    statuses2: Seq<StatusView>,
    outcome2: Option<Seq<char>>,
)
    requires
        0 <= at,
        capture_full_step(store, source, replies, at) == StepView::Finished(outcome, n),
        replies[at + 3] == ReplyView::Output(output),
        replies[at + 4] == ReplyView::Statuses(statuses),
        tells_what_lies(
            lies,
            looks(store, Seq::empty(), listed_paths(output.stdout)),
            statuses,
        ),
        forall|i: int|
            0 <= i < listed_paths(output.stdout).len() ==> !encode_utf8(
                #[trigger] listed_paths(output.stdout)[i],
            ).contains(0u8),
        witnesses(
            history,
            worktree,
            store,
            |k: int| asked(store, source, replies, at, k),
            replies,
            at,
            n,
        ),
        history(n).grows_to(later(at2)),
        later(at2).branch == history(n).branch,
        0 <= at2,
        capture_full_step(store, source2, replies2, at2) == StepView::Finished(outcome2, n2),
        replies2[at2 + 3] == ReplyView::Output(output2),
        replies2[at2 + 4] == ReplyView::Statuses(statuses2),
        tells_what_lies(
            lies,
            looks(store, Seq::empty(), listed_paths(output2.stdout)),
            statuses2,
        ),
        forall|i: int|
            0 <= i < listed_paths(output2.stdout).len() ==> !encode_utf8(
                #[trigger] listed_paths(output2.stdout)[i],
            ).contains(0u8),
        witnesses(
            later,
            worktree,
            store,
            |k: int| asked(store, source2, replies2, at2, k),
            replies2,
            at2,
            n2,
        ),
        forall|path: Seq<char>| #[trigger]
            listed_paths(output.stdout).contains(path) <==> listed_paths(
                output2.stdout,
            ).contains(path),
        later(n2).names_trees_by_contents(),
    ensures
        outcome2 is None,
        later(n2).branch == history(n).branch,
{
    the_newest_snapshot_holds_what_belongs(
        lies,
        history,
        worktree,
        store,
        source,
        replies,
        at,
        n,
        output,
        statuses,
        outcome,
    );
    let newest = history(n).branch->0;
    let tree = history(n).commits[newest];
    let tree2 = the_worktree_is_recorded(
        lies,
        later,
        worktree,
        store,
        source2,
        replies2,
        at2,
        n2,
        output2,
        statuses2,
        outcome2,
    );
    let asks = |k: int| asked(store, source2, replies2, at2, k);
    recorded_stays(later, worktree, store, asks, replies2, at2, n2, at2, n2);
    growth_adds_up(history(n), later(at2), later(n2));
    growth_keeps(history(n), later(n2), newest);
    growth_keeps(history(n), later(n2), tree);
    assert(later(n2).trees[tree] =~= later(n2).trees[tree2]) by {
        let files = later(n2).trees[tree];
        let files2 = later(n2).trees[tree2];
        assert forall|path: Seq<char>| #[trigger] files.contains_key(path)
            <==> files2.contains_key(path) by {
            assert(listed_paths(output.stdout).contains(path) <==> listed_paths(
                output2.stdout,
            ).contains(path));
        }
    }
    assert(tree == tree2);
    the_newest_snapshot_holds_what_belongs(
        lies,
        later,
        worktree,
        store,
        source2,
        replies2,
        at2,
        n2,
        output2,
        statuses2,
        outcome2,
    );
}

proof fn filtered_are(paths: Seq<Seq<char>>, keep: spec_fn(Seq<char>) -> bool, x: Seq<char>)
    ensures
        paths.filter(keep).contains(x) <==> paths.contains(x) && keep(x),
    decreases paths.len(),
{
    reveal(Seq::filter);
    if paths.len() > 0 {
        let init = paths.drop_last();
        let end = paths.len() - 1;
        filtered_are(init, keep, x);
        let before = init.filter(keep);
        let now = paths.filter(keep);
        if now.contains(x) {
            let k = choose|k: int| 0 <= k < now.len() && now[k] == x;
            if k < before.len() {
                assert(before[k] == x);
                let j = choose|j: int| 0 <= j < init.len() && init[j] == x;
                assert(paths[j] == x);
            } else {
                assert(paths[end] == x);
            }
        }
        if paths.contains(x) && keep(x) {
            let k = choose|k: int| 0 <= k < paths.len() && paths[k] == x;
            if k < end {
                assert(init[k] == x);
                let j = choose|j: int| 0 <= j < before.len() && before[j] == x;
                assert(now[j] == x);
            } else {
                assert(now[before.len() as int] == x);
            }
        }
    }
}

/// Whether Git answers for the files of commits by the words that it is asked
/// with, as this repository has them.
pub open spec fn answers_like(
    repository: RepositoryView,
    store: StoreView,
    command: InvocationView,
    output: OutputView,
) -> bool {
    let words = command.arguments;
    works_on_store(store, command) ==> {
        &&& words.len() == 3 && words[0] == "cat-file"@ && words[1] == "-e"@ ==> (forall|
            commit: Seq<char>,
            path: Seq<char>,
        |
            is_revision(commit) && words[2] == commit + ":"@ + path ==> (output.success()
                <==> #[trigger] repository.has_file(commit, path)))
        &&& words.len() == 2 && words[0] == "show"@ ==> (forall|
            commit: Seq<char>,
            path: Seq<char>,
        |
            is_revision(commit) && words[1] == commit + ":"@ + path
                && #[trigger] repository.has_file(commit, path) ==> output.success()
                && output.stdout == repository.file(commit, path).bytes)
    }
}

/// What is captured can be read back, and stays what it was whatever is
/// recorded later: a file that belonged in a snapshot of the whole worktree is
/// shown byte for byte as it was then, and any other is not found there.
pub proof fn a_captured_file_is_shown_as_it_was(
    lies: spec_fn(Seq<char>) -> StatusView,
    history: spec_fn(int) -> RepositoryView,
    worktree: FilesView,
    store: StoreView,
    source: Seq<char>,
    replies: Seq<ReplyView>,
    at: int,
    n: int,
    output: OutputView,
    statuses: Seq<StatusView>,
    outcome: Option<Seq<char>>,
    commit: Seq<char>,
    later: RepositoryView,
    other: StoreView,
    relative: Seq<char>,
    others: Seq<ReplyView>,
    start: int,
    inspected: OutputView,
    shown: OutputView,
)
    requires
        0 <= at,
        capture_full_step(store, source, replies, at) == StepView::Finished(outcome, n),
        replies[at + 3] == ReplyView::Output(output),
        replies[at + 4] == ReplyView::Statuses(statuses),
        tells_what_lies(
            lies,
            looks(store, Seq::empty(), listed_paths(output.stdout)),
            statuses,
        ),
        forall|i: int|
            0 <= i < listed_paths(output.stdout).len() ==> !encode_utf8(
                #[trigger] listed_paths(output.stdout)[i],
            ).contains(0u8),
        witnesses(
            history,
            worktree,
            store,
            |k: int| asked(store, source, replies, at, k),
            replies,
            at,
            n,
        ),
        history(n).branch == Some(commit),
        history(n).grows_to(later),
        is_revision(commit),
        path_problem(other.style, relative) is None,
        !relative.contains('\0'),
        0 <= start,
        start + 1 < others.len(),
        others[start] == ReplyView::Output(inspected),
        others[start + 1] == ReplyView::Output(shown),
        show_step(other, relative, commit, others.take(start), start) matches StepView::Perform(
            ActionView::Run(command),
        ) ==> answers_like(later, other, command, inspected),
        show_step(other, relative, commit, others.take(start + 1), start)
            matches StepView::Perform(ActionView::Run(command)) ==> answers_like(
            later,
            other,
            command,
            shown,
        ),
    ensures
        ({
            let path = git_form(other.style, relative);
            if listed_paths(output.stdout).contains(path) && belongs(
                lies,
                store,
                Seq::empty(),
                path,
            ) && worktree.contains_key(path) {
                show_step(other, relative, commit, others, start) == StepView::Finished(
                    Some(worktree[path].bytes),
                    start + 2,
                )
            } else {
                show_step(other, relative, commit, others, start) == StepView::Finished(
                    None::<Seq<u8>>,
                    start + 1,
                )
            }
        }),
{
    the_newest_snapshot_holds_what_belongs(
        lies,
        history,
        worktree,
        store,
        source,
        replies,
        at,
        n,
        output,
        statuses,
        outcome,
    );
    let path = git_form(other.style, relative);
    assert(path.len() > 0);
    growth_keeps(history(n), later, commit);
    growth_keeps(history(n), later, history(n).commits[commit]);
    assert(later.has_file(commit, path) <==> history(n).files(commit).contains_key(path));
    let object = commit + ":"@ + path;
    let inspect = inspect_object_command(other, object);
    let show = show_object_command(other, object);
    commands_work_where_they_should(other, inspect.arguments, inspect.input, Seq::empty());
    commands_work_where_they_should(other, show.arguments, show.input, Seq::empty());
    assert(others.take(start + 1)[start] == others[start]);
    assert(answers_like(later, other, inspect, inspected));
    assert(inspected.success() <==> later.has_file(commit, path));
    if later.has_file(commit, path) {
        assert(answers_like(later, other, show, shown));
    }
}

/// Where a snapshot of reported paths stands once these have been looked at.
spec fn weighed(
    store: StoreView,
    batch: Seq<Seq<char>>,
    replies: Seq<ReplyView>,
    start: int,
    checked: OutputView,
    statuses: Seq<StatusView>,
) -> bool {
    let ignored = listed_paths(checked.stdout);
    &&& batch.len() > 0
    &&& start + 2 <= replies.len()
    &&& replies[start] == ReplyView::Output(checked)
    &&& checked.success() || checked.code == Some(1i32)
    &&& replies[start + 1] == ReplyView::Statuses(statuses)
    &&& statuses.len() == looks(store, ignored, batch).len()
    &&& selection(store, ignored, batch, statuses) is Ok
}

/// What has been selected from the reported paths.
spec fn selected(
    store: StoreView,
    batch: Seq<Seq<char>>,
    checked: OutputView,
    statuses: Seq<StatusView>,
) -> SelectionView {
    selection(store, listed_paths(checked.stdout), batch, statuses)->Ok_0
}

#[verifier::rlimit(40)]
proof fn a_batch_was_weighed(
    store: StoreView,
    batch: Seq<Seq<char>>,
    source: Seq<char>,
    replies: Seq<ReplyView>,
    start: int,
    checked: OutputView,
    statuses: Seq<StatusView>,
    outcome: Option<Seq<char>>,
    end: int,
) -> (r: (int, int))
    requires
        0 <= start,
        batch.len() > 0,
        capture_batch_step(store, batch, source, replies, start) == StepView::Finished(outcome, end),
        replies[start] == ReplyView::Output(checked),
        replies[start + 1] == ReplyView::Statuses(statuses),
    ensures
        weighed(store, batch, replies, start, checked, statuses),
        stage_step(
            store,
            selected(store, batch, checked, statuses).included,
            replies,
            start + 2,
        ) == StepView::<()>::Finished((), r.0),
        remove_step(store, selected(store, batch, checked, statuses).removed, replies, r.0)
            == StepView::<()>::Finished((), r.1),
        commit_step(store, batch.len(), source, replies, r.1) == StepView::Finished(outcome, end),
        start + 2 <= r.0 <= r.1,
{
    let ignored = listed_paths(checked.stdout);
    assert(git_ignored_step(store, batch, replies, start) == StepView::Finished(
        ignored,
        start + 1,
    ));
    assert(select_step(store, ignored, batch, replies, start + 1) is Finished);
    let chosen = selected(store, batch, checked, statuses);
    let staged = stage_step(store, chosen.included, replies, start + 2)->Finished_1;
    let cleaned = remove_step(store, chosen.removed, replies, staged)->Finished_1;
    (staged, cleaned)
}

/// With fewer replies, a snapshot of reported paths has come as far as those lead.
#[verifier::rlimit(40)]
proof fn batches_with_fewer(
    store: StoreView,
    batch: Seq<Seq<char>>,
    source: Seq<char>,
    replies: Seq<ReplyView>,
    start: int,
    checked: OutputView,
    statuses: Seq<StatusView>,
    k: int,
)
    requires
        0 <= start,
        weighed(store, batch, replies, start, checked, statuses),
        start + 2 <= k <= replies.len(),
    ensures
        capture_batch_step(store, batch, source, replies.take(k), start) == (match stage_step(
            store,
            selected(store, batch, checked, statuses).included,
            replies.take(k),
            start + 2,
        ) {
            StepView::Perform(a) => StepView::<Option<Seq<char>>>::Perform(a),
            StepView::Failed(f) => StepView::Failed(f),
            StepView::Finished(_, n) => match remove_step(
                store,
                selected(store, batch, checked, statuses).removed,
                replies.take(k),
                n,
            ) {
                StepView::Perform(a) => StepView::<Option<Seq<char>>>::Perform(a),
                StepView::Failed(f) => StepView::Failed(f),
                StepView::Finished(_, n) => commit_step(
                    store,
                    batch.len(),
                    source,
                    replies.take(k),
                    n,
                ),
            },
        }),
{
    let fewer = replies.take(k);
    assert(fewer[start] == replies[start]);
    assert(fewer[start + 1] == replies[start + 1]);
    let ignored = listed_paths(checked.stdout);
    assert(git_ignored_step(store, batch, fewer, start) == StepView::Finished(ignored, start + 1));
    assert(select_step(store, ignored, batch, fewer, start + 1) == StepView::Finished(
        selected(store, batch, checked, statuses),
        start + 2,
    ));
}

/// Where a snapshot of reported paths begins its work: under the lock, with an
/// index, and with paths that change no ignore rules.
pub open spec fn begins_batch(
    store: StoreView,
    paths: Seq<Seq<char>>,
    replies: Seq<ReplyView>,
    at: int,
    start: int,
) -> bool {
    &&& 0 <= at
    &&& lock_step(store, replies, at) == StepView::<()>::Finished((), at + 2)
    &&& prepare_index_step(store, replies, at + 2) == StepView::<()>::Finished((), start)
    &&& batch_of(store.style, paths).len() > 0
    &&& !changes_ignore_rules(store.style, batch_of(store.style, paths))
}

#[verifier::rlimit(40)]
proof fn begins_with_fewer(
    store: StoreView,
    paths: Seq<Seq<char>>,
    source: Seq<char>,
    replies: Seq<ReplyView>,
    at: int,
    start: int,
    k: int,
)
    requires
        begins_batch(store, paths, replies, at, start),
        start <= k <= replies.len(),
    ensures
        at + 2 < start,
        capture_batch_step(store, batch_of(store.style, paths), source, replies.take(k), start)
            matches StepView::Perform(a) ==> asked_for_paths(store, paths, source, replies, at, k)
            == StepView::<Option<Seq<char>>>::Perform(a),
        capture_batch_step(store, batch_of(store.style, paths), source, replies.take(k), start)
            matches StepView::Finished(_, m) ==> k <= m ==> asked_for_paths(
            store,
            paths,
            source,
            replies,
            at,
            k,
        ) == StepView::<Option<Seq<char>>>::Perform(ActionView::Unlock),
{
    reveal(asked_for_paths);
    let fewer = replies.take(k);
    assert(lock_step(store, fewer, at) == lock_step(store, replies, at));
    assert(prepare_index_step(store, fewer, at + 2) == prepare_index_step(
        store,
        replies,
        at + 2,
    ));
}

/// What is asked for when the reported paths have been looked at.
#[verifier::rlimit(40)]
proof fn asked_of_a_batch(
    store: StoreView,
    paths: Seq<Seq<char>>,
    source: Seq<char>,
    replies: Seq<ReplyView>,
    at: int,
    start: int,
    checked: OutputView,
    statuses: Seq<StatusView>,
    staged: int,
    cleaned: int,
    k: int,
)
    requires
        begins_batch(store, paths, replies, at, start),
        weighed(store, batch_of(store.style, paths), replies, start, checked, statuses),
        stage_step(
            store,
            selected(store, batch_of(store.style, paths), checked, statuses).included,
            replies,
            start + 2,
        ) == StepView::<()>::Finished((), staged),
        remove_step(
            store,
            selected(store, batch_of(store.style, paths), checked, statuses).removed,
            replies,
            staged,
        ) == StepView::<()>::Finished((), cleaned),
        start + 2 <= staged <= cleaned <= k <= replies.len(),
    ensures
        ({
            let chosen = selected(store, batch_of(store.style, paths), checked, statuses);
            &&& staged == start + 2 + (if chosen.included.len() > 0 {
                1int
            } else {
                0
            })
            &&& cleaned == staged + (if chosen.removed.len() > 0 {
                1int
            } else {
                0
            })
            &&& chosen.included.len() > 0 ==> asked_for_paths(
                store,
                paths,
                source,
                replies,
                at,
                start + 2,
            ) == StepView::<Option<Seq<char>>>::Perform(
                ActionView::Run(stage_command(store, chosen.included)),
            )
            &&& chosen.removed.len() > 0 ==> asked_for_paths(
                store,
                paths,
                source,
                replies,
                at,
                staged,
            ) == StepView::<Option<Seq<char>>>::Perform(
                ActionView::Run(remove_command(store, chosen.removed)),
            )
        }),
        committing(
            store,
            batch_of(store.style, paths).len(),
            source,
            replies,
            cleaned,
            k,
        ) matches StepView::Perform(action) ==> asked_for_paths(
            store,
            paths,
            source,
            replies,
            at,
            k,
        ) == StepView::<Option<Seq<char>>>::Perform(action),
{
    reveal(committing);
    let batch = batch_of(store.style, paths);
    let chosen = selected(store, batch, checked, statuses);
    begins_with_fewer(store, paths, source, replies, at, start, start + 2);
    begins_with_fewer(store, paths, source, replies, at, start, staged);
    begins_with_fewer(store, paths, source, replies, at, start, k);
    batches_with_fewer(store, batch, source, replies, start, checked, statuses, start + 2);
    batches_with_fewer(store, batch, source, replies, start, checked, statuses, staged);
    batches_with_fewer(store, batch, source, replies, start, checked, statuses, k);
    assert(stage_step(store, chosen.included, replies.take(staged), start + 2) == StepView::<
        (),
    >::Finished((), staged));
    assert(stage_step(store, chosen.included, replies.take(k), start + 2) == StepView::<
        (),
    >::Finished((), staged));
    assert(remove_step(store, chosen.removed, replies.take(k), staged) == StepView::<
        (),
    >::Finished((), cleaned));
}

/// The index from which the tree of a snapshot of reported paths is written
/// holds of these what belongs there, as it is in the worktree, and of all
/// others what it held before.
proof fn the_index_follows_the_report(
    history: spec_fn(int) -> RepositoryView,
    worktree: FilesView,
    store: StoreView,
    asks: spec_fn(int) -> StepView<Option<Seq<char>>>,
    replies: Seq<ReplyView>,
    start: int,
    n: int,
    included: Seq<Seq<char>>,
    removed: Seq<Seq<char>>,
    staged: int,
    cleaned: int,
    path: Seq<char>,
)
    requires
        0 <= start,
        witnesses(history, worktree, store, asks, replies, start, n),
        asks(start) matches StepView::Perform(ActionView::Run(command)) && !works_on_store(
            store,
            command,
        ),
        !(asks(start + 1) matches StepView::Perform(ActionView::Run(_))),
        stage_step(store, included, replies, start + 2) == StepView::<()>::Finished((), staged),
        remove_step(store, removed, replies, staged) == StepView::<()>::Finished((), cleaned),
        start + 2 <= staged <= cleaned < n,
        included.len() > 0 ==> asks(start + 2) == StepView::<Option<Seq<char>>>::Perform(
            ActionView::Run(stage_command(store, included)),
        ),
        removed.len() > 0 ==> asks(staged) == StepView::<Option<Seq<char>>>::Perform(
            ActionView::Run(remove_command(store, removed)),
        ),
        forall|i: int|
            0 <= i < included.len() ==> !encode_utf8(#[trigger] included[i]).contains(0u8),
        forall|i: int| 0 <= i < removed.len() ==> !encode_utf8(#[trigger] removed[i]).contains(0u8),
        path.len() > 0,
        !(included.contains(path) && removed.contains(path)),
    ensures
        ({
            let before = history(start).index;
            let after = history(cleaned).index;
            if included.contains(path) {
                &&& after.contains_key(path) <==> worktree.contains_key(path)
                &&& after.contains_key(path) ==> after[path] == worktree[path]
            } else if removed.contains(path) {
                !after.contains_key(path)
            } else {
                &&& after.contains_key(path) <==> before.contains_key(path)
                &&& after.contains_key(path) ==> after[path] == before[path]
            }
        }),
{
    assert(happens(
        worktree,
        store,
        asks(start),
        replies[start],
        history(start),
        history(start + 1),
    ));
    assert(happens(
        worktree,
        store,
        asks(start + 1),
        replies[start + 1],
        history(start + 1),
        history(start + 1 + 1),
    ));
    assert(history(start + 2).index == history(start).index);
    named_are_the_paths(included, path);
    named_are_the_paths(removed, path);
    if included.len() > 0 {
        assert(happens(
            worktree,
            store,
            asks(start + 2),
            replies[start + 2],
            history(start + 2),
            history(start + 2 + 1),
        ));
        let stage = stage_command(store, included);
        commands_work_where_they_should(store, stage.arguments, stage.input, Seq::empty());
    assert(works_on_store(store, stage));
        assert(stage.arguments =~= seq![
            "add"@,
            "-A"@,
            "-f"@,
            "--pathspec-from-file=-"@,
            "--pathspec-file-nul"@,
        ]);
        assert(history(staged).index == updated(
            history(start + 2).index,
            worktree,
            nul_terminated(included),
        ));
    }
    if removed.len() > 0 {
        assert(happens(
            worktree,
            store,
            asks(staged),
            replies[staged],
            history(staged),
            history(staged + 1),
        ));
        let remove = remove_command(store, removed);
        commands_work_where_they_should(store, remove.arguments, remove.input, Seq::empty());
    assert(works_on_store(store, remove));
        assert(remove.arguments =~= seq![
            "update-index"@,
            "--force-remove"@,
            "-z"@,
            "--stdin"@,
        ]);
        assert(history(cleaned).index == without(
            history(staged).index,
            nul_terminated(removed),
        ));
    }
}

/// After a snapshot of reported paths, whether it made a commit or found that
/// nothing had changed, the newest snapshot holds of these exactly what belongs
/// there, as it is in the worktree, and of every other path what the private
/// index held when the work began.
pub proof fn a_report_is_recorded(
    lies: spec_fn(Seq<char>) -> StatusView,
    history: spec_fn(int) -> RepositoryView,
    worktree: FilesView,
    store: StoreView,
    paths: Seq<Seq<char>>,
    source: Seq<char>,
    replies: Seq<ReplyView>,
    at: int,
    start: int,
    n: int,
    checked: OutputView,
    statuses: Seq<StatusView>,
    outcome: Option<Seq<char>>,
    path: Seq<char>,
)
    requires
        begins_batch(store, paths, replies, at, start),
        capture_paths_step(store, paths, source, replies, at) == StepView::Finished(outcome, n),
        replies[start] == ReplyView::Output(checked),
        replies[start + 1] == ReplyView::Statuses(statuses),
        tells_what_lies(
            lies,
            looks(store, listed_paths(checked.stdout), batch_of(store.style, paths)),
            statuses,
        ),
        forall|i: int|
            0 <= i < batch_of(store.style, paths).len() ==> !encode_utf8(
                #[trigger] batch_of(store.style, paths)[i],
            ).contains(0u8),
        witnesses(
            history,
            worktree,
            store,
            |k: int| asked_for_paths(store, paths, source, replies, at, k),
            replies,
            start,
            n,
        ),
        path.len() > 0,
    ensures
        history(n).branch matches Some(newest) && {
            let ignored = listed_paths(checked.stdout);
            let before = history(start).index;
            let after = history(n);
            &&& outcome matches Some(commit) ==> commit == newest
            &&& outcome is None ==> history(start).branch == Some(newest)
            &&& if batch_of(store.style, paths).contains(path) {
                &&& after.has_file(newest, path) <==> belongs(lies, store, ignored, path)
                    && worktree.contains_key(path)
                &&& after.has_file(newest, path) ==> after.file(newest, path) == worktree[path]
            } else {
                &&& after.has_file(newest, path) <==> before.contains_key(path)
                &&& after.has_file(newest, path) ==> after.file(newest, path) == before[path]
            }
        },
{
    let batch = batch_of(store.style, paths);
    let ignored = listed_paths(checked.stdout);
    let asks = |k: int| asked_for_paths(store, paths, source, replies, at, k);
    the_batch_is_captured(store, paths, source, replies, at, start, outcome, n);
    let (staged, cleaned) = a_batch_was_weighed(
        store,
        batch,
        source,
        replies,
        start,
        checked,
        statuses,
        outcome,
        n - 1,
    );
    committing_compares(
        store,
        batch.len(),
        source,
        replies,
        cleaned,
        outcome,
        n - 1,
    );
    a_batch_gives_the_lock_back(store, paths, source, replies, at, start, outcome, n);
    asked_of_a_batch(
        store,
        paths,
        source,
        replies,
        at,
        start,
        checked,
        statuses,
        staged,
        cleaned,
        cleaned,
    );
    first_asked_of_a_batch(store, paths, source, replies, at, start, checked, statuses);
    selection_is_what_belongs(lies, store, ignored, batch, statuses);
    let admits = |p: Seq<char>| belongs(lies, store, ignored, p);
    let refuses = |p: Seq<char>| !belongs(lies, store, ignored, p);
    let included = batch.filter(admits);
    let removed = batch.filter(refuses);
    filtered_are(batch, admits, path);
    filtered_are(batch, refuses, path);
    filtered_have_no_zeros(batch, admits);
    filtered_have_no_zeros(batch, refuses);
    the_index_follows_the_report(
        history,
        worktree,
        store,
        asks,
        replies,
        start,
        n,
        included,
        removed,
        staged,
        cleaned,
        path,
    );
    assert forall|k: int| cleaned <= k < n - 1 implies (committing(
        store,
        batch.len(),
        source,
        replies,
        cleaned,
        k,
    ) matches StepView::Perform(action) ==> #[trigger] asks(k) == StepView::<
        Option<Seq<char>>,
    >::Perform(action)) by {
        asked_of_a_batch(
            store,
            paths,
            source,
            replies,
            at,
            start,
            checked,
            statuses,
            staged,
            cleaned,
            k,
        );
    }
    one_command_moves_the_branch();
    assert forall|k: int| start <= k < cleaned implies !moves(store, #[trigger] asks(k)) by {
        assert(k == start || k == start + 1 || k == start + 2 || k == staged);
    }
    the_branch_stays(history, worktree, store, asks, replies, start, n, start, cleaned);
    the_index_is_recorded(
        history,
        worktree,
        store,
        asks,
        batch.len(),
        source,
        replies,
        start,
        n,
        cleaned,
        outcome,
    );
}

proof fn filtered_have_no_zeros(paths: Seq<Seq<char>>, keep: spec_fn(Seq<char>) -> bool)
    requires
        forall|i: int| 0 <= i < paths.len() ==> !encode_utf8(#[trigger] paths[i]).contains(0u8),
    ensures
        forall|i: int|
            0 <= i < paths.filter(keep).len() ==> !encode_utf8(
                #[trigger] paths.filter(keep)[i],
            ).contains(0u8),
{
    let kept = paths.filter(keep);
    assert forall|i: int| 0 <= i < kept.len() implies !encode_utf8(#[trigger] kept[i]).contains(
        0u8,
    ) by {
        filtered_are(paths, keep, kept[i]);
        assert(kept.contains(kept[i]));
        let k = choose|k: int| 0 <= k < paths.len() && paths[k] == kept[i];
        assert(!encode_utf8(paths[k]).contains(0u8));
    }
}

/// Where a snapshot of reported paths stood before it ended.
#[verifier::rlimit(40)]
proof fn the_batch_is_captured(
    store: StoreView,
    paths: Seq<Seq<char>>,
    source: Seq<char>,
    replies: Seq<ReplyView>,
    at: int,
    start: int,
    outcome: Option<Seq<char>>,
    n: int,
)
    requires
        begins_batch(store, paths, replies, at, start),
        capture_paths_step(store, paths, source, replies, at) == StepView::Finished(outcome, n),
    ensures
        capture_batch_step(store, batch_of(store.style, paths), source, replies, start)
            == StepView::Finished(outcome, n - 1),
        n <= replies.len(),
        0 <= start,
{
}

/// The last that is asked for is to let go of the lock.
proof fn a_batch_gives_the_lock_back(
    store: StoreView,
    paths: Seq<Seq<char>>,
    source: Seq<char>,
    replies: Seq<ReplyView>,
    at: int,
    start: int,
    outcome: Option<Seq<char>>,
    n: int,
)
    requires
        begins_batch(store, paths, replies, at, start),
        0 <= start < n <= replies.len(),
        capture_batch_step(store, batch_of(store.style, paths), source, replies, start)
            == StepView::Finished(outcome, n - 1),
    ensures
        asked_for_paths(store, paths, source, replies, at, n - 1) == StepView::<
            Option<Seq<char>>,
        >::Perform(ActionView::Unlock),
{
    let batch = batch_of(store.style, paths);
    let sooner = replies.take(n - 1);
    let more = replies.skip(n - 1);
    assert(sooner + more =~= replies);
    batch_keeps(store, batch, source, sooner, more, start);
    begins_with_fewer(store, paths, source, replies, at, start, n - 1);
}

/// What a snapshot of reported paths that has ended had asked the worktree, and
/// what came back.
#[verifier::rlimit(60)]
pub proof fn what_a_batch_asked(
    store: StoreView,
    paths: Seq<Seq<char>>,
    source: Seq<char>,
    replies: Seq<ReplyView>,
    at: int,
    start: int,
    n: int,
    outcome: Option<Seq<char>>,
) -> (r: (OutputView, Seq<StatusView>))
    requires
        begins_batch(store, paths, replies, at, start),
        capture_paths_step(store, paths, source, replies, at) == StepView::Finished(outcome, n),
    ensures
        0 <= at < start,
        start + 2 < n <= replies.len(),
        replies[start] == ReplyView::Output(r.0),
        r.0.success() || r.0.code == Some(1i32),
        replies[start + 1] == ReplyView::Statuses(r.1),
        asked_for_paths(store, paths, source, replies, at, start) == StepView::<
            Option<Seq<char>>,
        >::Perform(ActionView::Run(check_ignore_command(store, batch_of(store.style, paths)))),
        asked_for_paths(store, paths, source, replies, at, start + 1) == StepView::<
            Option<Seq<char>>,
        >::Perform(
            ActionView::Inspect(
                looks(store, listed_paths(r.0.stdout), batch_of(store.style, paths)),
            ),
        ),
{
    let batch = batch_of(store.style, paths);
    the_batch_is_captured(store, paths, source, replies, at, start, outcome, n);
    let checked = replies[start]->Output_0;
    assert(git_ignored_step(store, batch, replies, start) is Finished);
    assert(replies[start] == ReplyView::Output(checked));
    let statuses = replies[start + 1]->Statuses_0;
    assert(replies[start + 1] == ReplyView::Statuses(statuses));
    let (_, cleaned) = a_batch_was_weighed(
        store,
        batch,
        source,
        replies,
        start,
        checked,
        statuses,
        outcome,
        n - 1,
    );
    committing_compares(store, batch.len(), source, replies, cleaned, outcome, n - 1);
    begins_with_fewer(store, paths, source, replies, at, start, start);
    begins_with_fewer(store, paths, source, replies, at, start, start + 1);
    let fewer = replies.take(start + 1);
    assert(fewer[start] == replies[start]);
    (checked, statuses)
}

/// What the private index is when the work on reported paths begins: what it
/// was, where there is one; else that of the newest snapshot, or nothing where
/// there is no snapshot.
pub open spec fn prepared_index(before: RepositoryView, there: bool) -> FilesView {
    if there {
        before.index
    } else {
        match before.branch {
            Some(commit) => before.files(commit),
            None => FilesView::empty(),
        }
    }
}

/// What is asked for until there is a private index.
#[verifier::rlimit(60)]
proof fn asked_to_prepare(
    store: StoreView,
    paths: Seq<Seq<char>>,
    source: Seq<char>,
    replies: Seq<ReplyView>,
    at: int,
    start: int,
)
    requires
        0 <= at,
        lock_step(store, replies, at) == StepView::<()>::Finished((), at + 2),
        prepare_index_step(store, replies, at + 2) == StepView::<()>::Finished((), start),
    ensures
        at + 2 < start <= replies.len(),
        replies[at + 2] matches ReplyView::Flags(flags) && flags.len() > 0 && (if flags[0] {
            start == at + 3
        } else {
            &&& start == at + 5
            &&& head_step(store, replies, at + 3) is Finished
            &&& replies[at + 4] matches ReplyView::Output(output) && output.success()
        }),
        asked_for_paths(store, paths, source, replies, at, at) == StepView::<
            Option<Seq<char>>,
        >::Perform(ActionView::OpenLock(lock_file(store))),
        asked_for_paths(store, paths, source, replies, at, at + 1) == StepView::<
            Option<Seq<char>>,
        >::Perform(ActionView::Lock),
        asked_for_paths(store, paths, source, replies, at, at + 2) == StepView::<
            Option<Seq<char>>,
        >::Perform(ActionView::Exists(store.index_file)),
        start == at + 5 ==> {
            &&& asked_for_paths(store, paths, source, replies, at, at + 3) == StepView::<
                Option<Seq<char>>,
            >::Perform(ActionView::Run(resolve_head_command(store)))
            &&& asked_for_paths(store, paths, source, replies, at, at + 4) == StepView::<
                Option<Seq<char>>,
            >::Perform(
                ActionView::Run(
                    match head_step(store, replies, at + 3)->Finished_0 {
                        Some(_) => load_index_command(store),
                        None => clear_index_command(store),
                    },
                ),
            )
        },
{
    reveal(asked_for_paths);
    assert(replies.take(at + 1)[at] == replies[at]);
    assert(lock_step(store, replies.take(at + 2), at) == lock_step(store, replies, at));
    let asked = replies.take(at + 3);
    assert(lock_step(store, asked, at) == lock_step(store, replies, at));
    assert(asked[at + 2] == replies[at + 2]);
    if start != at + 3 {
        let resolved = replies.take(at + 4);
        assert(lock_step(store, resolved, at) == lock_step(store, replies, at));
        assert(resolved[at + 2] == replies[at + 2]);
        assert(resolved[at + 3] == replies[at + 3]);
        assert(head_step(store, resolved, at + 3) == head_step(store, replies, at + 3));
    }
}

/// The private index is prepared from what there is.
pub proof fn the_index_is_prepared(
    history: spec_fn(int) -> RepositoryView,
    worktree: FilesView,
    store: StoreView,
    paths: Seq<Seq<char>>,
    source: Seq<char>,
    replies: Seq<ReplyView>,
    at: int,
    start: int,
    n: int,
)
    requires
        0 <= at,
        lock_step(store, replies, at) == StepView::<()>::Finished((), at + 2),
        prepare_index_step(store, replies, at + 2) == StepView::<()>::Finished((), start),
        start <= n,
        history(at).has_its_newest(),
        witnesses(
            history,
            worktree,
            store,
            |k: int| asked_for_paths(store, paths, source, replies, at, k),
            replies,
            at,
            n,
        ),
    ensures
        replies[at + 2] matches ReplyView::Flags(flags) && flags.len() > 0
            && history(start).index == prepared_index(history(at), flags[0]),
        history(start).branch == history(at).branch,
        history(at).grows_to(history(start)),
{
    asked_to_prepare(store, paths, source, replies, at, start);
    let asks = |k: int| asked_for_paths(store, paths, source, replies, at, k);
    recorded_stays(history, worktree, store, asks, replies, at, n, at, start);
    let first = at + 1;
    let second = at + 2;
    assert(happens(worktree, store, asks(at), replies[at], history(at), history(at + 1)));
    assert(happens(
        worktree,
        store,
        asks(first),
        replies[first],
        history(first),
        history(first + 1),
    ));
    assert(happens(
        worktree,
        store,
        asks(second),
        replies[second],
        history(second),
        history(second + 1),
    ));
    assert(history(at + 3) == history(at));
    if start == at + 5 {
        let third = at + 3;
        let fourth = at + 4;
        one_command_moves_the_branch();
        assert(happens(
            worktree,
            store,
            asks(third),
            replies[third],
            history(third),
            history(third + 1),
        ));
        assert(happens(
            worktree,
            store,
            asks(fourth),
            replies[fourth],
            history(fourth),
            history(fourth + 1),
        ));
        let head = resolve_head_command(store);
        commands_work_where_they_should(store, head.arguments, head.input, Seq::empty());
        assert(head.arguments =~= seq![
            "rev-parse"@,
            "--verify"@,
            "--quiet"@,
            "refs/heads/history"@,
        ]);
        assert(works_on_store(store, head));
        let parent = head_step(store, replies, third)->Finished_0;
        assert(parent == history(at).branch);
        assert(history(fourth).branch == history(at).branch);
        let load = load_index_command(store);
        commands_work_where_they_should(store, load.arguments, load.input, Seq::empty());
        assert(load.arguments =~= seq!["read-tree"@, "refs/heads/history"@]);
        let clear = clear_index_command(store);
        commands_work_where_they_should(store, clear.arguments, clear.input, Seq::empty());
        assert(clear.arguments =~= seq!["read-tree"@, "--empty"@]);
        assert(history(start).branch == history(at).branch);
        if let Some(commit) = parent {
            assert(history(start).index == history(fourth).files(commit));
            recorded_stays(history, worktree, store, asks, replies, at, n, at, fourth);
            growth_keeps(history(at), history(fourth), commit);
            growth_keeps(history(at), history(fourth), history(at).commits[commit]);
        }
    }
}

/// Where a report changes the rules of what to ignore, what is asked for behind
/// the first lock is what a snapshot of the whole worktree asks for.
#[verifier::rlimit(60)]
pub proof fn a_full_capture_takes_over(
    store: StoreView,
    paths: Seq<Seq<char>>,
    source: Seq<char>,
    replies: Seq<ReplyView>,
    at: int,
    n: int,
    outcome: Option<Seq<char>>,
) -> (start: int)
    requires
        0 <= at,
        batch_of(store.style, paths).len() > 0,
        changes_ignore_rules(store.style, batch_of(store.style, paths)),
        capture_paths_step(store, paths, source, replies, at) == StepView::Finished(outcome, n),
    ensures
        at + 2 < start < n <= replies.len(),
        lock_step(store, replies, at) == StepView::<()>::Finished((), at + 2),
        prepare_index_step(store, replies, at + 2) == StepView::<()>::Finished((), start),
        capture_full_step(store, source, replies, start + 1) == StepView::Finished(outcome, n),
        asked_for_paths(store, paths, source, replies, at, start) == StepView::<
            Option<Seq<char>>,
        >::Perform(ActionView::Unlock),
        forall|k: int|
            start < k <= replies.len() ==> #[trigger] asked_for_paths(
                store,
                paths,
                source,
                replies,
                at,
                k,
            ) == asked(store, source, replies, start + 1, k),
{
    reveal(asked_for_paths);
    reveal(asked);
    let start = prepare_index_step(store, replies, at + 2)->Finished_1;
    what_a_full_capture_asked(store, source, replies, start + 1, n, outcome);
    assert forall|k: int| start <= k <= replies.len() implies lock_step(
        store,
        #[trigger] replies.take(k),
        at,
    ) == lock_step(store, replies, at) && prepare_index_step(store, replies.take(k), at + 2)
        == prepare_index_step(store, replies, at + 2) by {
        preparing_with_fewer(store, replies, at, start, k);
    }
    assert(replies.take(start).len() == start);
    assert forall|k: int| start < k <= replies.len() implies #[trigger] asked_for_paths(
        store,
        paths,
        source,
        replies,
        at,
        k,
    ) == asked(store, source, replies, start + 1, k) by {
        assert(replies.take(k)[start] == replies[start]);
    }
    start
}

#[verifier::rlimit(40)]
proof fn preparing_with_fewer(
    store: StoreView,
    replies: Seq<ReplyView>,
    at: int,
    start: int,
    k: int,
)
    requires
        0 <= at,
        lock_step(store, replies, at) == StepView::<()>::Finished((), at + 2),
        prepare_index_step(store, replies, at + 2) == StepView::<()>::Finished((), start),
        start <= k <= replies.len(),
    ensures
        lock_step(store, replies.take(k), at) == lock_step(store, replies, at),
        prepare_index_step(store, replies.take(k), at + 2) == prepare_index_step(
            store,
            replies,
            at + 2,
        ),
{
}

/// Where a report changes no rules of what to ignore, the work on its paths
/// begins.
#[verifier::rlimit(40)]
pub proof fn a_batch_begins(
    store: StoreView,
    paths: Seq<Seq<char>>,
    source: Seq<char>,
    replies: Seq<ReplyView>,
    at: int,
    n: int,
    outcome: Option<Seq<char>>,
) -> (start: int)
    requires
        0 <= at,
        batch_of(store.style, paths).len() > 0,
        !changes_ignore_rules(store.style, batch_of(store.style, paths)),
        capture_paths_step(store, paths, source, replies, at) == StepView::Finished(outcome, n),
    ensures
        begins_batch(store, paths, replies, at, start),
{
    prepare_index_step(store, replies, at + 2)->Finished_1
}

/// What is asked for before the reported paths have been looked at.
#[verifier::rlimit(40)]
proof fn first_asked_of_a_batch(
    store: StoreView,
    paths: Seq<Seq<char>>,
    source: Seq<char>,
    replies: Seq<ReplyView>,
    at: int,
    start: int,
    checked: OutputView,
    statuses: Seq<StatusView>,
)
    requires
        begins_batch(store, paths, replies, at, start),
        weighed(store, batch_of(store.style, paths), replies, start, checked, statuses),
        0 <= start,
    ensures
        asked_for_paths(store, paths, source, replies, at, start) matches StepView::Perform(
            ActionView::Run(command),
        ) && !works_on_store(store, command),
        !(asked_for_paths(store, paths, source, replies, at, start + 1) matches StepView::Perform(
            ActionView::Run(_),
        )),
{
    let batch = batch_of(store.style, paths);
    begins_with_fewer(store, paths, source, replies, at, start, start);
    begins_with_fewer(store, paths, source, replies, at, start, start + 1);
    let check = check_ignore_command(store, batch);
    commands_work_where_they_should(store, check.arguments, check.input, batch);
    assert(capture_batch_step(store, batch, source, replies.take(start), start) == StepView::<
        Option<Seq<char>>,
    >::Perform(ActionView::Run(check)));
    let fewer = replies.take(start + 1);
    assert(fewer[start] == replies[start]);
    let ignored = listed_paths(checked.stdout);
    assert(capture_batch_step(store, batch, source, fewer, start) == StepView::<
        Option<Seq<char>>,
    >::Perform(ActionView::Inspect(looks(store, ignored, batch))));
}

} // verus!
