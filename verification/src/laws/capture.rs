//! Taking and reading snapshots.

use crate::capture::{
    batch_of, capture_batch_step, capture_full_step, capture_listed_step, capture_paths_step,
    changes_ignore_rules, check_ignore_command, clear_index_step, full_step, git_ignored_step,
    list_files_command, lock_file, lock_step, prepare_index_step, remove_command, remove_step,
    stage_command, stage_step, unlock_step, usable_paths,
};
use crate::commit::{
    changed_step, commit_step, commit_tree_command, head_step, message_of, tree_of_command,
    update_ref_command, write_tree_command,
};
use crate::git_store::{git_form, path_problem, private_git, StoreView};
use crate::history::{is_revision, list_step, show_step, SnapshotView};
use crate::ordered::{ascending, sorted_set_is_the_set};
use crate::paths::joined;
use crate::procedure::{
    succeed_step, text_step, ActionView, FailureView, InvocationView, OutputView, ReplyView,
    StatusView, StepView,
};
use crate::select::{
    in_ignored_directory, inclusion, keeps, listed_paths, looks, needs_look, select_step, selection,
    SelectionView,
};
use crate::native::readable;
use crate::numbers::decimal;
use vstd::prelude::*;
use vstd::utf8::encode_utf8;

verus! {

/// Whether a command works on the private repository, with the private index:
/// it is Git, told by its environment to work with these on the files of the
/// worktree, and under a name of its own.
pub open spec fn works_on_store(store: StoreView, command: InvocationView) -> bool {
    &&& command.program == "git"@
    &&& command.environment == seq![
        ("GIT_DIR"@, store.git_dir),
        ("GIT_WORK_TREE"@, store.root),
        ("GIT_INDEX_FILE"@, store.index_file),
        ("GIT_AUTHOR_NAME"@, "local-history"@),
        ("GIT_AUTHOR_EMAIL"@, "local-history@localhost"@),
        ("GIT_COMMITTER_NAME"@, "local-history"@),
        ("GIT_COMMITTER_EMAIL"@, "local-history@localhost"@),
    ]
}

/// Whether a command asks the worktree's own repository something, and changes
/// nothing there: Git, with nothing in its environment, is asked in the worktree
/// for its files, or for those of some paths that it ignores.
pub open spec fn asks_worktree(store: StoreView, command: InvocationView) -> bool {
    let words = command.arguments;
    &&& command.program == "git"@
    &&& command.environment.len() == 0
    &&& words.len() > 2 && words[0] == "-C"@ && words[1] == store.root
    &&& {
        ||| words.skip(2) == seq![
            "ls-files"@,
            "-z"@,
            "--cached"@,
            "--others"@,
            "--exclude-standard"@,
        ]
        ||| words.skip(2) == seq!["check-ignore"@, "-z"@, "--stdin"@]
    }
}

/// What the library runs on the private repository works on it, and what it
/// asks the worktree changes nothing there.
pub proof fn commands_work_where_they_should(
    store: StoreView,
    arguments: Seq<Seq<char>>,
    input: Option<Seq<u8>>,
    paths: Seq<Seq<char>>,
)
    ensures
        works_on_store(store, private_git(store, arguments, input)),
        asks_worktree(store, list_files_command(store)),
        asks_worktree(store, check_ignore_command(store, paths)),
        !works_on_store(store, list_files_command(store)),
        !works_on_store(store, check_ignore_command(store, paths)),
{
    assert(list_files_command(store).arguments.skip(2) =~= seq![
        "ls-files"@,
        "-z"@,
        "--cached"@,
        "--others"@,
        "--exclude-standard"@,
    ]);
    assert(check_ignore_command(store, paths).arguments.skip(2) =~= seq![
        "check-ignore"@,
        "-z"@,
        "--stdin"@,
    ]);
    let full = private_git(store, arguments, input).environment;
    assert(full.len() == 7);
    assert(list_files_command(store).environment.len() != full.len());
}

/// Whether an action leaves the worktree's branches, index and objects alone.
pub open spec fn leaves_worktree_alone(store: StoreView, action: ActionView) -> bool {
    match action {
        ActionView::OpenLock(file) => file == lock_file(store),
        ActionView::Lock => true,
        ActionView::Unlock => true,
        ActionView::Exists(file) => file == store.index_file,
        ActionView::Inspect(_) => true,
        ActionView::Tell(_) => true,
        ActionView::Run(command) => works_on_store(store, command) || asks_worktree(store, command),
        _ => false,
    }
}

#[verifier::rlimit(40)]
proof fn commit_stays_in_store(
    store: StoreView,
    path_count: nat,
    source: Seq<char>,
    replies: Seq<ReplyView>,
    at: int,
)
    ensures
        commit_step(store, path_count, source, replies, at) matches StepView::Perform(a)
            ==> leaves_worktree_alone(store, a),
{
}

proof fn staging_stays_in_store(
    store: StoreView,
    paths: Seq<Seq<char>>,
    replies: Seq<ReplyView>,
    at: int,
)
    ensures
        stage_step(store, paths, replies, at) matches StepView::Perform(a)
            ==> leaves_worktree_alone(store, a),
        remove_step(store, paths, replies, at) matches StepView::Perform(a)
            ==> leaves_worktree_alone(store, a),
        git_ignored_step(store, paths, replies, at) matches StepView::Perform(a)
            ==> leaves_worktree_alone(store, a),
        clear_index_step(store, replies, at) matches StepView::Perform(a)
            ==> leaves_worktree_alone(store, a),
        prepare_index_step(store, replies, at) matches StepView::Perform(a)
            ==> leaves_worktree_alone(store, a),
{
    commands_work_where_they_should(store, Seq::empty(), None, paths);
}

#[verifier::rlimit(40)]
proof fn full_stays_in_store(
    store: StoreView,
    source: Seq<char>,
    replies: Seq<ReplyView>,
    at: int,
)
    ensures
        full_step(store, source, replies, at) matches StepView::Perform(a)
            ==> leaves_worktree_alone(store, a),
{
    commands_work_where_they_should(store, Seq::empty(), None, Seq::empty());
    staging_stays_in_store(store, Seq::empty(), replies, at);
    if let StepView::Finished(_, n) = clear_index_step(store, replies, at) {
        if let StepView::Finished(output, n) = succeed_step(
            replies,
            n,
            list_files_command(store),
            "failed to enumerate source repository files"@,
            "git ls-files"@,
        ) {
            let paths = listed_paths(output.stdout);
            if let StepView::Finished(chosen, n) = select_step(
                store,
                Seq::empty(),
                paths,
                replies,
                n,
            ) {
                staging_stays_in_store(store, chosen.included, replies, n);
                if let StepView::Finished(_, n) = stage_step(store, chosen.included, replies, n) {
                    commit_stays_in_store(store, chosen.included.len(), source, replies, n);
                }
            }
        }
    }
}

/// A snapshot of the whole worktree is taken without touching its branches,
/// index or objects: whatever comes back, the next action leaves them alone.
pub proof fn full_capture_leaves_worktree_alone(
    store: StoreView,
    source: Seq<char>,
    replies: Seq<ReplyView>,
    at: int,
)
    ensures
        capture_full_step(store, source, replies, at) matches StepView::Perform(a)
            ==> leaves_worktree_alone(store, a),
{
    if let StepView::Finished(_, n) = lock_step(store, replies, at) {
        full_stays_in_store(store, source, replies, n);
    }
}

#[verifier::rlimit(40)]
proof fn batch_stays_in_store(
    store: StoreView,
    batch: Seq<Seq<char>>,
    source: Seq<char>,
    replies: Seq<ReplyView>,
    at: int,
)
    ensures
        capture_batch_step(store, batch, source, replies, at) matches StepView::Perform(a)
            ==> leaves_worktree_alone(store, a),
{
    staging_stays_in_store(store, batch, replies, at);
    if let StepView::Finished(ignored, n) = git_ignored_step(store, batch, replies, at) {
        if let StepView::Finished(chosen, n) = select_step(store, ignored, batch, replies, n) {
            staging_stays_in_store(store, chosen.included, replies, n);
            if let StepView::Finished(_, n) = stage_step(store, chosen.included, replies, n) {
                staging_stays_in_store(store, chosen.removed, replies, n);
                if let StepView::Finished(_, n) = remove_step(store, chosen.removed, replies, n) {
                    commit_stays_in_store(store, batch.len(), source, replies, n);
                }
            }
        }
    }
}

/// A snapshot of reported paths is taken without touching the worktree's
/// branches, index or objects.
pub proof fn path_capture_leaves_worktree_alone(
    store: StoreView,
    paths: Seq<Seq<char>>,
    source: Seq<char>,
    replies: Seq<ReplyView>,
    at: int,
)
    ensures
        capture_paths_step(store, paths, source, replies, at) matches StepView::Perform(a)
            ==> leaves_worktree_alone(store, a),
{
    let batch = batch_of(store.style, paths);
    if let StepView::Finished(_, n) = lock_step(store, replies, at) {
        staging_stays_in_store(store, batch, replies, n);
        if let StepView::Finished(_, n) = prepare_index_step(store, replies, n) {
            batch_stays_in_store(store, batch, source, replies, n);
            if let StepView::Finished(_, n) = unlock_step(None, replies, n) {
                full_capture_leaves_worktree_alone(store, source, replies, n);
            }
        }
    }
}

/// Reading the history runs nothing but Git on the private repository.
pub proof fn reading_works_on_the_store(
    store: StoreView,
    relative: Seq<char>,
    limit: nat,
    revision: Seq<char>,
    replies: Seq<ReplyView>,
    at: int,
)
    ensures
        list_step(store, relative, limit, replies, at) matches StepView::Perform(a) ==> (
        a matches ActionView::Run(command) && works_on_store(store, command)),
        show_step(store, relative, revision, replies, at) matches StepView::Perform(a) ==> (
        a matches ActionView::Run(command) && works_on_store(store, command)),
{
}

/// A path that cannot be in the history is refused before anything is asked,
/// and so is a text that cannot name a snapshot.
pub proof fn unsafe_requests_are_refused_at_once(
    store: StoreView,
    relative: Seq<char>,
    limit: nat,
    revision: Seq<char>,
    replies: Seq<ReplyView>,
    at: int,
)
    ensures
        path_problem(store.style, relative) matches Some(f) ==> {
            &&& list_step(store, relative, limit, replies, at) == StepView::<
                Seq<SnapshotView>,
            >::Failed(f)
            &&& show_step(store, relative, revision, replies, at) == StepView::<
                Option<Seq<u8>>,
            >::Failed(f)
        },
        path_problem(store.style, relative) is None && !is_revision(revision) ==> show_step(
            store,
            relative,
            revision,
            replies,
            at,
        ) == StepView::<Option<Seq<u8>>>::Failed(FailureView::InvalidRevision),
{
}

/// Where there is no snapshot, no file has one.
pub proof fn no_history_lists_nothing(
    store: StoreView,
    relative: Seq<char>,
    limit: nat,
    replies: Seq<ReplyView>,
    at: int,
    n: int,
)
    requires
        path_problem(store.style, relative) is None,
        head_step(store, replies, at) == StepView::<Option<Seq<char>>>::Finished(None, n),
    ensures
        list_step(store, relative, limit, replies, at) == StepView::<
            Seq<SnapshotView>,
        >::Finished(Seq::empty(), n),
{
}

/// The first thing to do for a snapshot is to open the lock file and to take
/// the lock, and without the lock nothing is done.
pub proof fn capture_locks_first(
    store: StoreView,
    paths: Seq<Seq<char>>,
    source: Seq<char>,
    replies: Seq<ReplyView>,
    at: int,
)
    ensures
        at >= replies.len() ==> {
            &&& capture_full_step(store, source, replies, at) == StepView::<
                Option<Seq<char>>,
            >::Perform(ActionView::OpenLock(lock_file(store)))
            &&& capture_paths_step(store, paths, source, replies, at) == StepView::<
                Option<Seq<char>>,
            >::Perform(ActionView::OpenLock(lock_file(store)))
        },
        0 <= at < replies.len() && replies[at] is Done && at + 1 >= replies.len() ==> {
            &&& capture_full_step(store, source, replies, at) == StepView::<
                Option<Seq<char>>,
            >::Perform(ActionView::Lock)
            &&& capture_paths_step(store, paths, source, replies, at) == StepView::<
                Option<Seq<char>>,
            >::Perform(ActionView::Lock)
        },
        0 <= at < replies.len() && !(replies[at] is Done) ==> {
            &&& capture_full_step(store, source, replies, at) is Failed
            &&& capture_paths_step(store, paths, source, replies, at) is Failed
        },
        0 <= at && at + 1 < replies.len() && !(replies[at + 1] is Done) ==> {
            &&& capture_full_step(store, source, replies, at) is Failed
            &&& capture_paths_step(store, paths, source, replies, at) is Failed
        },
{
}

/// Every path that stays in a snapshot is a safe path in the worktree, lies in
/// no ignored directory, is not one that Git ignores, and was looked at and
/// found to be something else than a regular file above the limit.
pub proof fn included_paths_pass_every_filter(
    store: StoreView,
    git_ignored: Seq<Seq<char>>,
    paths: Seq<Seq<char>>,
    statuses: Seq<StatusView>,
    path: Seq<char>,
)
    requires
        selection(store, git_ignored, paths, statuses) matches Ok(chosen)
            && chosen.included.contains(path),
    ensures
        paths.contains(path),
        path_problem(store.style, path) is None,
        !in_ignored_directory(store, path),
        !git_ignored.contains(path),
        exists|i: int|
            0 <= i < looks(store, git_ignored, paths).len() && #[trigger] looks(
                store,
                git_ignored,
                paths,
            )[i] == joined(store.style, store.root, path) && keeps(store, statuses[i])
                && !(statuses[i] is Unreadable),
    decreases paths.len(),
{
    let chosen = selection(store, git_ignored, paths, statuses)->Ok_0;
    let init = paths.drop_last();
    let before = selection(store, git_ignored, init, statuses)->Ok_0;
    let last = paths.last();
    let k = choose|k: int| 0 <= k < chosen.included.len() && chosen.included[k] == path;
    let earlier = looks(store, git_ignored, init);
    if before.included.contains(path) {
        included_paths_pass_every_filter(store, git_ignored, init, statuses, path);
        let j = choose|j: int| 0 <= j < init.len() && init[j] == path;
        assert(paths[j] == path);
        let i = choose|i: int|
            0 <= i < earlier.len() && #[trigger] earlier[i] == joined(
                store.style,
                store.root,
                path,
            ) && keeps(store, statuses[i]) && !(statuses[i] is Unreadable);
        assert(looks(store, git_ignored, paths)[i] == earlier[i]);
    } else {
        assert(chosen.included =~= before.included.push(last));
        assert(k == before.included.len()) by {
            if k < before.included.len() {
                assert(before.included[k] == path);
            }
        }
        assert(paths[paths.len() - 1] == path);
        assert(needs_look(store, git_ignored, path));
        assert(looks(store, git_ignored, paths)[earlier.len() as int] == joined(
            store.style,
            store.root,
            path,
        ));
    }
}

/// A selection loses no path of the batch and invents none: what stays and
/// what leaves make up the batch.
pub proof fn selection_divides_the_batch(
    store: StoreView,
    git_ignored: Seq<Seq<char>>,
    paths: Seq<Seq<char>>,
    statuses: Seq<StatusView>,
)
    ensures
        selection(store, git_ignored, paths, statuses) matches Ok(chosen)
            ==> chosen.included.to_multiset().add(chosen.removed.to_multiset())
            =~= paths.to_multiset(),
    decreases paths.len(),
{
    broadcast use vstd::seq_lib::group_to_multiset_ensures;

    if paths.len() == 0 {
        assert(paths =~= Seq::empty());
    } else {
        let init = paths.drop_last();
        selection_divides_the_batch(store, git_ignored, init, statuses);
        assert(paths =~= init.push(paths.last()));
        if let Ok(before) = selection(store, git_ignored, init, statuses) {
            assert(before.included.push(paths.last()).to_multiset()
                =~= before.included.to_multiset().insert(paths.last()));
            assert(before.removed.push(paths.last()).to_multiset()
                =~= before.removed.to_multiset().insert(paths.last()));
        }
    }
}

/// Whether a command brings paths into the private index.
pub open spec fn stages(command: InvocationView) -> bool {
    command.arguments.len() > 0 && command.arguments[0] == "add"@
}

/// Whether a command takes paths out of the private index.
pub open spec fn removes(command: InvocationView) -> bool {
    command.arguments.len() > 0 && command.arguments[0] == "update-index"@
}

/// Whether an action brings nothing into the private index but safe paths of
/// the batch that lie in no ignored directory, and takes nothing out of it but
/// paths of the batch.
pub open spec fn moves_only(store: StoreView, batch: Seq<Seq<char>>, action: ActionView) -> bool {
    action matches ActionView::Run(command) ==> {
        &&& stages(command) ==> exists|paths: Seq<Seq<char>>| #[trigger]
            stage_command(store, paths) == command && stageable(store, batch, paths)
        &&& removes(command) ==> exists|paths: Seq<Seq<char>>| #[trigger]
            remove_command(store, paths) == command && (forall|p: Seq<char>|
                paths.contains(p) ==> #[trigger] batch.contains(p))
    }
}

/// Whether the paths are safe paths of the batch that lie in no ignored directory.
pub open spec fn stageable(
    store: StoreView,
    batch: Seq<Seq<char>>,
    paths: Seq<Seq<char>>,
) -> bool {
    forall|p: Seq<char>| #[trigger]
        paths.contains(p) ==> batch.contains(p) && path_problem(store.style, p) is None
            && !in_ignored_directory(store, p)
}

proof fn selection_stays_in_batch(
    store: StoreView,
    git_ignored: Seq<Seq<char>>,
    paths: Seq<Seq<char>>,
    statuses: Seq<StatusView>,
)
    ensures
        selection(store, git_ignored, paths, statuses) matches Ok(chosen) ==> {
            &&& stageable(store, paths, chosen.included)
            &&& forall|p: Seq<char>| chosen.removed.contains(p) ==> #[trigger] paths.contains(p)
        },
{
    if let Ok(chosen) = selection(store, git_ignored, paths, statuses) {
        assert forall|p: Seq<char>| #[trigger] chosen.included.contains(p) implies paths.contains(p)
            && path_problem(store.style, p) is None && !in_ignored_directory(store, p) by {
            included_paths_pass_every_filter(store, git_ignored, paths, statuses, p);
        }
        selection_divides_the_batch(store, git_ignored, paths, statuses);
        assert forall|p: Seq<char>| chosen.removed.contains(p) implies #[trigger] paths.contains(
            p,
        ) by {
            broadcast use vstd::seq_lib::group_to_multiset_ensures;

            assert(chosen.removed.to_multiset().count(p) > 0);
            assert(paths.to_multiset().count(p) > 0);
        }
    }
}

#[verifier::rlimit(40)]
proof fn other_commands_move_nothing(
    store: StoreView,
    batch: Seq<Seq<char>>,
    path_count: nat,
    source: Seq<char>,
    replies: Seq<ReplyView>,
    at: int,
)
    ensures
        commit_step(store, path_count, source, replies, at) matches StepView::Perform(a)
            ==> moves_only(store, batch, a),
        prepare_index_step(store, replies, at) matches StepView::Perform(a) ==> moves_only(
            store,
            batch,
            a,
        ),
        git_ignored_step(store, batch, replies, at) matches StepView::Perform(a) ==> moves_only(
            store,
            batch,
            a,
        ),
        clear_index_step(store, replies, at) matches StepView::Perform(a) ==> moves_only(
            store,
            batch,
            a,
        ),
        moves_only(store, batch, ActionView::Run(list_files_command(store))),
{
    command_words_differ();
}

proof fn command_words_differ()
    ensures
        "add"@.len() == 3,
        "update-index"@.len() == 12,
        "write-tree"@.len() == 10,
        "rev-parse"@.len() == 9,
        "commit-tree"@.len() == 11,
        "update-ref"@.len() == 10,
        "gc"@.len() == 2,
        "read-tree"@.len() == 9,
        "-C"@.len() == 2,
{
    reveal_strlit("add");
    reveal_strlit("update-index");
    reveal_strlit("write-tree");
    reveal_strlit("rev-parse");
    reveal_strlit("commit-tree");
    reveal_strlit("update-ref");
    reveal_strlit("gc");
    reveal_strlit("read-tree");
    reveal_strlit("-C");
}

proof fn staging_moves_only(
    store: StoreView,
    batch: Seq<Seq<char>>,
    chosen: SelectionView,
    replies: Seq<ReplyView>,
    at: int,
)
    requires
        stageable(store, batch, chosen.included),
        forall|p: Seq<char>| chosen.removed.contains(p) ==> #[trigger] batch.contains(p),
    ensures
        stage_step(store, chosen.included, replies, at) matches StepView::Perform(a) ==> moves_only(
            store,
            batch,
            a,
        ),
        remove_step(store, chosen.removed, replies, at) matches StepView::Perform(a) ==> moves_only(
            store,
            batch,
            a,
        ),
{
    command_words_differ();
}

/// A snapshot of reported paths changes the private index for the reported
/// paths alone, unless the rules of what to ignore have changed.
#[verifier::rlimit(40)]
pub proof fn path_capture_moves_only_reported_paths(
    store: StoreView,
    paths: Seq<Seq<char>>,
    source: Seq<char>,
    replies: Seq<ReplyView>,
    at: int,
)
    requires
        !changes_ignore_rules(store.style, batch_of(store.style, paths)),
    ensures
        capture_paths_step(store, paths, source, replies, at) matches StepView::Perform(a)
            ==> moves_only(store, batch_of(store.style, paths), a),
{
    let batch = batch_of(store.style, paths);
    if let StepView::Finished(_, n) = lock_step(store, replies, at) {
        other_commands_move_nothing(store, batch, 0, source, replies, n);
        if let StepView::Finished(_, n) = prepare_index_step(store, replies, n) {
            other_commands_move_nothing(store, batch, 0, source, replies, n);
            if let StepView::Finished(ignored, n) = git_ignored_step(store, batch, replies, n) {
                if let StepView::Finished(chosen, m) = select_step(
                    store,
                    ignored,
                    batch,
                    replies,
                    n,
                ) {
                    let statuses = replies[n]->Statuses_0;
                    selection_stays_in_batch(store, ignored, batch, statuses);
                    staging_moves_only(store, batch, chosen, replies, m);
                    if let StepView::Finished(_, n) = stage_step(
                        store,
                        chosen.included,
                        replies,
                        m,
                    ) {
                        staging_moves_only(store, batch, chosen, replies, n);
                        if let StepView::Finished(_, n) = remove_step(
                            store,
                            chosen.removed,
                            replies,
                            n,
                        ) {
                            other_commands_move_nothing(
                                store,
                                batch,
                                batch.len(),
                                source,
                                replies,
                                n,
                            );
                        }
                    }
                }
            }
        }
    }
}

/// A snapshot of the whole worktree brings nothing into the private index but
/// what Git lists, and of that nothing from an ignored directory. The index is
/// emptied before.
pub proof fn full_capture_moves_only_listed_paths(
    store: StoreView,
    source: Seq<char>,
    replies: Seq<ReplyView>,
    at: int,
    cleared: int,
    output: OutputView,
    listed: int,
)
    requires
        clear_index_step(store, replies, at) == StepView::<()>::Finished((), cleared),
        succeed_step(
            replies,
            cleared,
            list_files_command(store),
            "failed to enumerate source repository files"@,
            "git ls-files"@,
        ) == StepView::Finished(output, listed),
    ensures
        full_step(store, source, replies, at) matches StepView::Perform(a) ==> moves_only(
            store,
            listed_paths(output.stdout),
            a,
        ),
{
    let paths = listed_paths(output.stdout);
    let none = Seq::<Seq<char>>::empty();
    if let StepView::Finished(chosen, n) = select_step(store, none, paths, replies, listed) {
        let statuses = replies[listed]->Statuses_0;
        selection_stays_in_batch(store, none, paths, statuses);
        staging_moves_only(store, paths, chosen, replies, n);
        if let StepView::Finished(_, n) = stage_step(store, chosen.included, replies, n) {
            other_commands_move_nothing(
                store,
                paths,
                chosen.included.len(),
                source,
                replies,
                n,
            );
        }
    }
}

/// Whether a path belongs in a snapshot, with what lies in the worktree.
pub open spec fn belongs(
    lies: spec_fn(Seq<char>) -> StatusView,
    store: StoreView,
    git_ignored: Seq<Seq<char>>,
    path: Seq<char>,
) -> bool {
    !git_ignored.contains(path) && inclusion(
        store,
        path,
        Some(lies(joined(store.style, store.root, path))),
    ) == Ok::<Option<bool>, FailureView>(Some(true))
}

/// Whether it can be said of a path if it belongs in a snapshot.
pub open spec fn decidable(
    lies: spec_fn(Seq<char>) -> StatusView,
    store: StoreView,
    git_ignored: Seq<Seq<char>>,
    path: Seq<char>,
) -> bool {
    git_ignored.contains(path) || inclusion(
        store,
        path,
        Some(lies(joined(store.style, store.root, path))),
    ) is Ok
}

/// Whether the statuses tell what lies at these places.
pub open spec fn tells_what_lies(
    lies: spec_fn(Seq<char>) -> StatusView,
    places: Seq<Seq<char>>,
    statuses: Seq<StatusView>,
) -> bool {
    &&& statuses.len() >= places.len()
    &&& forall|i: int| 0 <= i < places.len() ==> #[trigger] statuses[i] == lies(places[i])
}

/// What stays in a snapshot of a batch is what belongs there, in the order of
/// the batch, and what is taken out is the rest; there is no such selection
/// exactly where it cannot be said of a path if it belongs there.
pub proof fn selection_is_what_belongs(
    lies: spec_fn(Seq<char>) -> StatusView,
    store: StoreView,
    git_ignored: Seq<Seq<char>>,
    paths: Seq<Seq<char>>,
    statuses: Seq<StatusView>,
)
    requires
        tells_what_lies(lies, looks(store, git_ignored, paths), statuses),
    ensures
        selection(store, git_ignored, paths, statuses) is Ok <==> forall|i: int|
            0 <= i < paths.len() ==> decidable(lies, store, git_ignored, #[trigger] paths[i]),
        selection(store, git_ignored, paths, statuses) matches Ok(chosen) ==> {
            &&& chosen.included == paths.filter(
                |path: Seq<char>| belongs(lies, store, git_ignored, path),
            )
            &&& chosen.removed == paths.filter(
                |path: Seq<char>| !belongs(lies, store, git_ignored, path),
            )
        },
    decreases paths.len(),
{
    reveal(Seq::filter);
    if paths.len() > 0 {
        let init = paths.drop_last();
        let last = paths.last();
        let end = paths.len() - 1;
        let before = looks(store, git_ignored, init);
        let places = looks(store, git_ignored, paths);
        assert(tells_what_lies(lies, before, statuses)) by {
            assert forall|i: int| 0 <= i < before.len() implies #[trigger] statuses[i] == lies(
                before[i],
            ) by {
                assert(places[i] == before[i]);
            }
        }
        selection_is_what_belongs(lies, store, git_ignored, init, statuses);
        if needs_look(store, git_ignored, last) {
            assert(places[before.len() as int] == joined(store.style, store.root, last));
            assert(statuses[before.len() as int] == lies(places[before.len() as int]));
        }
        if forall|i: int|
            0 <= i < paths.len() ==> decidable(lies, store, git_ignored, #[trigger] paths[i]) {
            assert forall|i: int| 0 <= i < init.len() implies decidable(
                lies,
                store,
                git_ignored,
                #[trigger] init[i],
            ) by {
                assert(init[i] == paths[i]);
            }
            assert(decidable(lies, store, git_ignored, paths[end]));
        }
        if selection(store, git_ignored, paths, statuses) is Ok {
            assert forall|i: int| 0 <= i < paths.len() implies decidable(
                lies,
                store,
                git_ignored,
                #[trigger] paths[i],
            ) by {
                if i < end {
                    assert(init[i] == paths[i]);
                }
            }
        }
    }
}

/// A snapshot of the whole worktree brings into the private index, which was
/// emptied before, exactly those of the listed paths that `should_include`
/// admits for what lies there, in the order of the list, and commits that.
pub proof fn full_capture_stages_what_belongs(
    lies: spec_fn(Seq<char>) -> StatusView,
    store: StoreView,
    source: Seq<char>,
    replies: Seq<ReplyView>,
    at: int,
    cleared: int,
    output: OutputView,
    listed: int,
    statuses: Seq<StatusView>,
)
    requires
        clear_index_step(store, replies, at) == StepView::<()>::Finished((), cleared),
        succeed_step(
            replies,
            cleared,
            list_files_command(store),
            "failed to enumerate source repository files"@,
            "git ls-files"@,
        ) == StepView::Finished(output, listed),
        0 <= listed < replies.len(),
        replies[listed] == ReplyView::Statuses(statuses),
        statuses.len() == looks(store, Seq::empty(), listed_paths(output.stdout)).len(),
        tells_what_lies(
            lies,
            looks(store, Seq::empty(), listed_paths(output.stdout)),
            statuses,
        ),
    ensures
        ({
            let paths = listed_paths(output.stdout);
            let chosen = paths.filter(
                |path: Seq<char>| belongs(lies, store, Seq::empty(), path),
            );
            &&& full_step(store, source, replies, at) is Failed || forall|i: int|
                0 <= i < paths.len() ==> decidable(lies, store, Seq::empty(), #[trigger] paths[i])
            &&& (forall|i: int|
                0 <= i < paths.len() ==> decidable(lies, store, Seq::empty(), #[trigger] paths[i]))
                ==> full_step(store, source, replies, at) == (match stage_step(
                store,
                chosen,
                replies,
                listed + 1,
            ) {
                StepView::Perform(a) => StepView::Perform(a),
                StepView::Failed(f) => StepView::Failed(f),
                StepView::Finished(_, n) => commit_step(store, chosen.len(), source, replies, n),
            })
            &&& chosen.len() > 0 && listed + 1 >= replies.len() && (forall|i: int|
                0 <= i < paths.len() ==> decidable(lies, store, Seq::empty(), #[trigger] paths[i]))
                ==> full_step(store, source, replies, at) == StepView::<
                Option<Seq<char>>,
            >::Perform(ActionView::Run(stage_command(store, chosen)))
        }),
{
    let paths = listed_paths(output.stdout);
    selection_is_what_belongs(lies, store, Seq::empty(), paths, statuses);
}

/// What is reported and usable is what a batch holds: each path once, in
/// order, and each one safe.
pub proof fn batch_holds_the_usable_paths(store: StoreView, paths: Seq<Seq<char>>)
    ensures
        ascending(batch_of(store.style, paths)),
        forall|p: Seq<char>| #[trigger]
            batch_of(store.style, paths).contains(p) <==> path_problem(store.style, p) is None && (
            exists|i: int|
                0 <= i < paths.len() && git_form(store.style, #[trigger] paths[i]) == p),
{
    sorted_set_is_the_set(usable_paths(store.style, paths));
    assert forall|p: Seq<char>| #[trigger]
        batch_of(store.style, paths).contains(p) <==> path_problem(store.style, p) is None && (
        exists|i: int|
            0 <= i < paths.len() && git_form(store.style, #[trigger] paths[i]) == p) by {
        usable_paths_are(store, paths, p);
    }
}

proof fn usable_paths_are(store: StoreView, paths: Seq<Seq<char>>, p: Seq<char>)
    ensures
        usable_paths(store.style, paths).contains(p) <==> path_problem(store.style, p) is None && (
        exists|i: int| 0 <= i < paths.len() && git_form(store.style, #[trigger] paths[i]) == p),
    decreases paths.len(),
{
    if paths.len() > 0 {
        let init = paths.drop_last();
        usable_paths_are(store, init, p);
        let before = usable_paths(store.style, init);
        let now = usable_paths(store.style, paths);
        if now.contains(p) {
            let k = choose|k: int| 0 <= k < now.len() && now[k] == p;
            if k < before.len() {
                assert(before[k] == p);
                assert(before.contains(p));
                let i = choose|i: int|
                    0 <= i < init.len() && git_form(store.style, #[trigger] init[i]) == p;
                assert(git_form(store.style, paths[i]) == p);
            } else {
                assert(git_form(store.style, paths[paths.len() - 1]) == p);
            }
        }
        if path_problem(store.style, p) is None && exists|i: int|
            0 <= i < paths.len() && git_form(store.style, #[trigger] paths[i]) == p {
            let i = choose|i: int|
                0 <= i < paths.len() && git_form(store.style, #[trigger] paths[i]) == p;
            if i < init.len() {
                assert(git_form(store.style, init[i]) == p);
                assert(before.contains(p));
                let k = choose|k: int| 0 <= k < before.len() && before[k] == p;
                assert(now[k] == p);
            } else {
                assert(now[before.len() as int] == p);
            }
        }
    }
}

/// A change of the rules of what to ignore leads to a snapshot of the whole
/// worktree, under a lock of its own.
pub proof fn changed_ignore_rules_capture_everything(
    store: StoreView,
    paths: Seq<Seq<char>>,
    source: Seq<char>,
    replies: Seq<ReplyView>,
    at: int,
    locked: int,
    prepared: int,
    unlocked: int,
)
    requires
        changes_ignore_rules(store.style, batch_of(store.style, paths)),
        lock_step(store, replies, at) == StepView::<()>::Finished((), locked),
        prepare_index_step(store, replies, locked) == StepView::<()>::Finished((), prepared),
        unlock_step(None, replies, prepared) == StepView::<Option<Seq<char>>>::Finished(
            None,
            unlocked,
        ),
    ensures
        capture_paths_step(store, paths, source, replies, at) == capture_full_step(
            store,
            source,
            replies,
            unlocked,
        ),
{
}

/// A report without a usable path comes to no snapshot.
pub proof fn unusable_report_captures_nothing(
    store: StoreView,
    paths: Seq<Seq<char>>,
    source: Seq<char>,
    replies: Seq<ReplyView>,
    at: int,
)
    requires
        forall|i: int|
            0 <= i < paths.len() ==> path_problem(
                store.style,
                git_form(store.style, #[trigger] paths[i]),
            ) is Some,
    ensures
        capture_paths_step(store, paths, source, replies, at) matches StepView::Finished(
            outcome,
            _,
        ) ==> outcome is None,
{
    batch_holds_the_usable_paths(store, paths);
    let batch = batch_of(store.style, paths);
    if batch.len() > 0 {
        assert(batch.contains(batch[0]));
    }
}

/// An unchanged tree is not committed again.
pub proof fn unchanged_tree_is_not_committed(
    store: StoreView,
    path_count: nat,
    source: Seq<char>,
    replies: Seq<ReplyView>,
    at: int,
    tree: Seq<char>,
    written: int,
    parent: Seq<char>,
    resolved: int,
    compared: int,
)
    requires
        text_step(
            replies,
            at,
            write_tree_command(store),
            "failed to write snapshot tree"@,
            "git write-tree"@,
        ) == StepView::Finished(tree, written),
        head_step(store, replies, written) == StepView::Finished(Some(parent), resolved),
        text_step(
            replies,
            resolved,
            tree_of_command(store, parent),
            "failed to inspect previous snapshot"@,
            "git rev-parse"@,
        ) == StepView::Finished(tree, compared),
    ensures
        commit_step(store, path_count, source, replies, at) == StepView::<
            Option<Seq<char>>,
        >::Finished(None, compared),
{
}

/// A snapshot that is taken differs from the one before it, follows it, and
/// becomes the latest by a move of the branch away from that one.
pub proof fn commit_extends_the_history(
    store: StoreView,
    path_count: nat,
    source: Seq<char>,
    replies: Seq<ReplyView>,
    at: int,
    tree: Seq<char>,
    written: int,
    parent: Option<Seq<char>>,
    resolved: int,
    compared: int,
)
    requires
        text_step(
            replies,
            at,
            write_tree_command(store),
            "failed to write snapshot tree"@,
            "git write-tree"@,
        ) == StepView::Finished(tree, written),
        head_step(store, replies, written) == StepView::Finished(parent, resolved),
        changed_step(store, tree, parent, replies, resolved) == StepView::Finished(true, compared),
        0 <= compared,
    ensures
        compared >= replies.len() ==> commit_step(store, path_count, source, replies, at)
            == StepView::<Option<Seq<char>>>::Perform(
            ActionView::Run(
                commit_tree_command(
                    store,
                    tree,
                    parent,
                    message_of(path_count, source, store.root),
                ),
            ),
        ),
        text_step(
            replies,
            compared,
            commit_tree_command(store, tree, parent, message_of(path_count, source, store.root)),
            "failed to start git commit-tree"@,
            "git commit-tree"@,
        ) matches StepView::Finished(commit, committed) ==> {
            &&& committed >= replies.len() ==> commit_step(store, path_count, source, replies, at)
                == StepView::<Option<Seq<char>>>::Perform(
                ActionView::Run(update_ref_command(store, commit, parent)),
            )
            &&& commit_step(store, path_count, source, replies, at) matches StepView::Finished(
                outcome,
                _,
            ) ==> outcome == Some(commit)
        },
{
}

/// Whether a command moves the branch to a new commit that follows the latest
/// one, away from which it moves the branch.
pub open spec fn extends_the_branch(
    store: StoreView,
    message: Seq<char>,
    replies: Seq<ReplyView>,
    command: InvocationView,
    tree: Seq<char>,
    written: int,
    parent: Option<Seq<char>>,
    resolved: int,
    compared: int,
    commit: Seq<char>,
    committed: int,
) -> bool {
    &&& head_step(store, replies, written) == StepView::Finished(parent, resolved)
    &&& text_step(
        replies,
        compared,
        commit_tree_command(store, tree, parent, message),
        "failed to start git commit-tree"@,
        "git commit-tree"@,
    ) == StepView::Finished(commit, committed)
    &&& command == update_ref_command(store, commit, parent)
}

/// No snapshot is ever lost: the branch is moved in no other way than to a
/// commit behind the latest one.
pub proof fn the_branch_only_grows(
    store: StoreView,
    path_count: nat,
    source: Seq<char>,
    replies: Seq<ReplyView>,
    at: int,
)
    ensures
        commit_step(store, path_count, source, replies, at) matches StepView::Perform(
            ActionView::Run(command),
        ) ==> command.arguments[0] == "update-ref"@ ==> exists|
            tree: Seq<char>,
            written: int,
            parent: Option<Seq<char>>,
            resolved: int,
            compared: int,
            commit: Seq<char>,
            committed: int,
        | #[trigger]
            extends_the_branch(
                store,
                message_of(path_count, source, store.root),
                replies,
                command,
                tree,
                written,
                parent,
                resolved,
                compared,
                commit,
                committed,
            ),
{
    command_words_differ();
    words_of_the_same_length_differ();
    let message = message_of(path_count, source, store.root);
    if let StepView::Perform(ActionView::Run(command)) = commit_step(
        store,
        path_count,
        source,
        replies,
        at,
    ) {
        if command.arguments[0] == "update-ref"@ {
            let tree_step = text_step(
                replies,
                at,
                write_tree_command(store),
                "failed to write snapshot tree"@,
                "git write-tree"@,
            );
            let tree = tree_step->Finished_0;
            let written = tree_step->Finished_1;
            let parent = head_step(store, replies, written)->Finished_0;
            let resolved = head_step(store, replies, written)->Finished_1;
            let compared = changed_step(store, tree, parent, replies, resolved)->Finished_1;
            let made = text_step(
                replies,
                compared,
                commit_tree_command(store, tree, parent, message),
                "failed to start git commit-tree"@,
                "git commit-tree"@,
            );
            assert(extends_the_branch(
                store,
                message,
                replies,
                command,
                tree,
                written,
                parent,
                resolved,
                compared,
                made->Finished_0,
                made->Finished_1,
            ));
        }
    }
}

/// Whether a command makes a snapshot and says how many paths it is of, what it
/// was taken for, and of which worktree it is.
pub open spec fn says_where_it_came_from(
    store: StoreView,
    path_count: nat,
    source: Seq<char>,
    command: InvocationView,
) -> bool {
    command.input == Some(
        encode_utf8(
            "snapshot: "@ + decimal(path_count) + " changed path"@ + (if path_count == 1 {
                ""@
            } else {
                "s"@
            }) + "\n\nsource: "@ + source + "\nroot: "@ + readable(store.root) + "\n"@,
        ),
    )
}

/// The message of a snapshot says how many paths it is of, what it was taken
/// for, and of which worktree it is.
pub proof fn a_snapshot_says_where_it_came_from(
    store: StoreView,
    path_count: nat,
    source: Seq<char>,
    replies: Seq<ReplyView>,
    at: int,
)
    ensures
        commit_step(store, path_count, source, replies, at) matches StepView::Perform(
            ActionView::Run(command),
        ) ==> command.arguments[0] == "commit-tree"@ ==> says_where_it_came_from(
            store,
            path_count,
            source,
            command,
        ),
{
    command_words_differ();
}

/// A snapshot of a whole worktree is of as many paths as are chosen of those
/// that Git lists, and one of a report of as many as are reported and usable;
/// each says what it was asked for.
#[verifier::rlimit(60)]
pub proof fn a_snapshot_counts_its_paths(
    store: StoreView,
    paths: Seq<Seq<char>>,
    ignored: Seq<Seq<char>>,
    source: Seq<char>,
    replies: Seq<ReplyView>,
    at: int,
    looked: int,
    chosen: SelectionView,
    selected: int,
    staged: int,
    removed: int,
)
    requires
        select_step(store, ignored, paths, replies, looked) == StepView::Finished(
            chosen,
            selected,
        ),
        stage_step(store, chosen.included, replies, selected) == StepView::<()>::Finished(
            (),
            staged,
        ),
        remove_step(store, chosen.removed, replies, staged) == StepView::<()>::Finished(
            (),
            removed,
        ),
    ensures
        ignored.len() == 0 ==> (capture_listed_step(store, paths, source, replies, looked)
            matches StepView::Perform(ActionView::Run(command)) ==> command.arguments[0]
            == "commit-tree"@ ==> says_where_it_came_from(
            store,
            chosen.included.len(),
            source,
            command,
        )),
        git_ignored_step(store, paths, replies, at) == StepView::Finished(ignored, looked) ==> (
        capture_batch_step(store, paths, source, replies, at) matches StepView::Perform(
            ActionView::Run(command),
        ) ==> command.arguments[0] == "commit-tree"@ ==> says_where_it_came_from(
            store,
            paths.len(),
            source,
            command,
        )),
{
    command_words_differ();
    if ignored.len() == 0 {
        assert(ignored =~= Seq::empty());
    }
    a_snapshot_says_where_it_came_from(store, chosen.included.len(), source, replies, staged);
    a_snapshot_says_where_it_came_from(store, paths.len(), source, replies, removed);
}

/// Whatever a snapshot is taken of, its message says what it was asked for.
#[verifier::rlimit(60)]
pub proof fn every_snapshot_says_what_it_was_taken_for(
    store: StoreView,
    paths: Seq<Seq<char>>,
    source: Seq<char>,
    replies: Seq<ReplyView>,
    at: int,
)
    ensures
        capture_full_step(store, source, replies, at) matches StepView::Perform(
            ActionView::Run(command),
        ) ==> command.arguments[0] == "commit-tree"@ ==> exists|path_count: nat| #[trigger]
            says_where_it_came_from(store, path_count, source, command),
        capture_paths_step(store, paths, source, replies, at) matches StepView::Perform(
            ActionView::Run(command),
        ) ==> command.arguments[0] == "commit-tree"@ ==> exists|path_count: nat| #[trigger]
            says_where_it_came_from(store, path_count, source, command),
{
    command_words_differ();
    full_says_what_it_was_taken_for(store, source, replies, at);
    if let StepView::Finished(_, n) = lock_step(store, replies, at) {
        if let StepView::Finished(_, n) = prepare_index_step(store, replies, n) {
            let batch = batch_of(store.style, paths);
            batch_says_what_it_was_taken_for(store, batch, source, replies, n);
            if let StepView::Finished(_, n) = unlock_step(None, replies, n) {
                full_says_what_it_was_taken_for(store, source, replies, n);
            }
        }
    }
}

proof fn full_says_what_it_was_taken_for(
    store: StoreView,
    source: Seq<char>,
    replies: Seq<ReplyView>,
    at: int,
)
    ensures
        capture_full_step(store, source, replies, at) matches StepView::Perform(
            ActionView::Run(command),
        ) ==> command.arguments[0] == "commit-tree"@ ==> exists|path_count: nat| #[trigger]
            says_where_it_came_from(store, path_count, source, command),
{
    command_words_differ();
    if let StepView::Finished(_, n) = lock_step(store, replies, at) {
        if let StepView::Finished(_, n) = clear_index_step(store, replies, n) {
            if let StepView::Finished(output, n) = succeed_step(
                replies,
                n,
                list_files_command(store),
                "failed to enumerate source repository files"@,
                "git ls-files"@,
            ) {
                let listed = listed_paths(output.stdout);
                if let StepView::Finished(chosen, n) = select_step(
                    store,
                    Seq::empty(),
                    listed,
                    replies,
                    n,
                ) {
                    if let StepView::Finished(_, n) = stage_step(
                        store,
                        chosen.included,
                        replies,
                        n,
                    ) {
                        a_snapshot_says_where_it_came_from(
                            store,
                            chosen.included.len(),
                            source,
                            replies,
                            n,
                        );
                    }
                }
            }
        }
    }
}

proof fn batch_says_what_it_was_taken_for(
    store: StoreView,
    batch: Seq<Seq<char>>,
    source: Seq<char>,
    replies: Seq<ReplyView>,
    at: int,
)
    ensures
        capture_batch_step(store, batch, source, replies, at) matches StepView::Perform(
            ActionView::Run(command),
        ) ==> command.arguments[0] == "commit-tree"@ ==> exists|path_count: nat| #[trigger]
            says_where_it_came_from(store, path_count, source, command),
{
    command_words_differ();
    if let StepView::Finished(ignored, n) = git_ignored_step(store, batch, replies, at) {
        if let StepView::Finished(chosen, n) = select_step(store, ignored, batch, replies, n) {
            if let StepView::Finished(_, n) = stage_step(store, chosen.included, replies, n) {
                if let StepView::Finished(_, n) = remove_step(store, chosen.removed, replies, n) {
                    a_snapshot_says_where_it_came_from(store, batch.len(), source, replies, n);
                }
            }
        }
    }
}

proof fn words_of_the_same_length_differ()
    ensures
        "write-tree"@ != "update-ref"@,
{
    reveal_strlit("write-tree");
    reveal_strlit("update-ref");
    assert("write-tree"@[0] == 'w');
    assert("update-ref"@[0] == 'u');
}

} // verus!
