//! What fails is not passed over.

use crate::capture::{
    batch_of, capture_batch_step, capture_full_step, capture_paths_step, clear_index_step,
    git_ignored_step, lock_file, lock_step, prepare_index_step, remove_step, stage_step,
};
use crate::commit::{changed_step, commit_step, gc_step, has_history_step, head_step, record_step};
use crate::config::{config_path_step, write_default_step, RuntimeView, SettingsView};
use crate::discovery::{below_step, git_root_step, locate_step, walk_step};
use crate::git_store::{path_problem, StoreView};
use crate::laws::capture::works_on_store;
use crate::outside::{json_of_text, lossy_text};
use crate::json::JsonTree;
use crate::paths::{absolute, components, joined, name_of, parent_of, PathStyle};
use crate::platform::{expanded, EnvironmentView};
use crate::procedure::{
    run_step, succeed_step, ActionView, FailureView, InvocationView, OutputView, ReplyView,
    StatusView, StepView,
};
use crate::registering::renew_step;
use crate::select::{
    in_ignored_directory, inclusion, listed_paths, looks, select_step, selection, SelectionView,
};
use crate::text::trimmed;
use crate::history::{is_revision, list_step, show_step, SnapshotView};
use crate::opening::{absolute_step, for_file_step};
use vstd::prelude::*;

verus! {

/// What is said of a program that did not do what it was asked to do: what it
/// was for, how it ended, and what it said itself.
pub open spec fn said_of(operation: Seq<char>, output: OutputView) -> FailureView {
    FailureView::CommandFailed {
        operation,
        code: output.code,
        message: trimmed(lossy_text(output.stderr)),
    }
}

/// A program has succeeded where it ends with nothing to complain of, and with
/// no other end. What it could not be started for is told.
pub proof fn a_program_that_fails_is_told_of(
    command: InvocationView,
    context: Seq<char>,
    operation: Seq<char>,
    replies: Seq<ReplyView>,
    at: int,
)
    requires
        0 <= at < replies.len(),
    ensures
        replies[at] matches ReplyView::Output(output) ==> succeed_step(
            replies,
            at,
            command,
            context,
            operation,
        ) == (if output.code == Some(0i32) {
            StepView::Finished(output, at + 1)
        } else {
            StepView::<OutputView>::Failed(said_of(operation, output))
        }),
        replies[at] matches ReplyView::Failed(cause) ==> {
            &&& run_step(replies, at, command, context) == StepView::<OutputView>::Failed(
                FailureView::Unavailable { context, cause },
            )
            &&& succeed_step(replies, at, command, context, operation) == StepView::<
                OutputView,
            >::Failed(FailureView::Unavailable { context, cause })
        },
{
}

/// Where Git does not do what it is asked to do for a snapshot, that ends it.
/// Only where Git is asked whether there is something does it say so with its
/// end that there is nothing, and only its maintenance does not matter.
pub proof fn what_git_refuses_ends_the_work(
    store: StoreView,
    paths: Seq<Seq<char>>,
    path_count: nat,
    source: Seq<char>,
    tree: Seq<char>,
    parent: Seq<char>,
    message: Seq<char>,
    replies: Seq<ReplyView>,
    at: int,
    output: OutputView,
)
    requires
        0 <= at < replies.len(),
        replies[at] == ReplyView::Output(output),
        output.code != Some(0i32),
    ensures
        clear_index_step(store, replies, at) == StepView::<()>::Failed(
            said_of("git read-tree --empty"@, output),
        ),
        paths.len() > 0 ==> stage_step(store, paths, replies, at) == StepView::<()>::Failed(
            said_of("git add"@, output),
        ),
        paths.len() > 0 ==> remove_step(store, paths, replies, at) == StepView::<()>::Failed(
            said_of("git update-index"@, output),
        ),
        paths.len() > 0 ==> git_ignored_step(store, paths, replies, at) == (if output.code == Some(
            1i32,
        ) {
            StepView::Finished(listed_paths(output.stdout), at + 1)
        } else {
            StepView::<Seq<Seq<char>>>::Failed(said_of("git check-ignore"@, output))
        }),
        head_step(store, replies, at) == (if output.code == Some(1i32) {
            StepView::<Option<Seq<char>>>::Finished(None, at + 1)
        } else {
            StepView::<Option<Seq<char>>>::Failed(said_of("git rev-parse"@, output))
        }),
        has_history_step(store, replies, at) == (if output.code == Some(1i32) {
            StepView::Finished(false, at + 1)
        } else {
            StepView::<bool>::Failed(said_of("git rev-parse"@, output))
        }),
        commit_step(store, path_count, source, replies, at) == StepView::<
            Option<Seq<char>>,
        >::Failed(said_of("git write-tree"@, output)),
        changed_step(store, tree, Some(parent), replies, at) == StepView::<bool>::Failed(
            said_of("git rev-parse"@, output),
        ),
        record_step(store, tree, Some(parent), message, replies, at) == StepView::<
            Seq<char>,
        >::Failed(said_of("git commit-tree"@, output)),
        record_step(store, tree, None, message, replies, at) == StepView::<Seq<char>>::Failed(
            said_of("git commit-tree"@, output),
        ),
{
}

/// Behind every snapshot Git is asked to keep the history in order. Whatever
/// comes of that the snapshot stands; where it comes to nothing, that is told.
pub proof fn maintenance_does_not_matter(store: StoreView, replies: Seq<ReplyView>, at: int)
    requires
        0 <= at,
    ensures
        at >= replies.len() ==> (gc_step(store, replies, at) matches StepView::Perform(
            ActionView::Run(command),
        ) && works_on_store(store, command) && command.arguments == seq![
            "gc"@,
            "--auto"@,
            "--quiet"@,
        ] && command.input is None),
        !(gc_step(store, replies, at) is Failed),
        at < replies.len() ==> (replies[at] matches ReplyView::Output(output) ==> if output.code
            == Some(0i32) {
            gc_step(store, replies, at) == StepView::<()>::Finished((), at + 1)
        } else if at + 1 < replies.len() {
            gc_step(store, replies, at) == StepView::<()>::Finished((), at + 2)
        } else {
            gc_step(store, replies, at) == StepView::<()>::Perform(
                ActionView::Tell(
                    "automatic Git maintenance failed for "@ + store.root + ": "@ + trimmed(
                        lossy_text(output.stderr),
                    ),
                ),
            )
        }),
{
}

/// A snapshot of the whole worktree ends with the first thing that fails, and
/// with its failure.
#[verifier::rlimit(60)]
pub proof fn a_full_capture_ends_with_its_first_failure(
    store: StoreView,
    source: Seq<char>,
    replies: Seq<ReplyView>,
    at: int,
    locked: int,
    cleared: int,
)
    requires
        lock_step(store, replies, at) == StepView::<()>::Finished((), locked),
    ensures
        clear_index_step(store, replies, locked) matches StepView::Failed(why)
            ==> capture_full_step(store, source, replies, at) == StepView::<
            Option<Seq<char>>,
        >::Failed(why),
        clear_index_step(store, replies, locked) == StepView::<()>::Finished((), cleared) && 0
            <= cleared < replies.len() ==> (replies[cleared] matches ReplyView::Output(output)
            ==> {
            let listed = listed_paths(output.stdout);
            &&& output.code != Some(0i32) ==> capture_full_step(store, source, replies, at)
                == StepView::<Option<Seq<char>>>::Failed(said_of("git ls-files"@, output))
            &&& output.code == Some(0i32) ==> match select_step(
                store,
                Seq::empty(),
                listed,
                replies,
                cleared + 1,
            ) {
                StepView::Failed(why) => capture_full_step(store, source, replies, at)
                    == StepView::<Option<Seq<char>>>::Failed(why),
                StepView::Perform(_) => true,
                StepView::Finished(chosen, n) => match stage_step(
                    store,
                    chosen.included,
                    replies,
                    n,
                ) {
                    StepView::Failed(why) => capture_full_step(store, source, replies, at)
                        == StepView::<Option<Seq<char>>>::Failed(why),
                    StepView::Perform(_) => true,
                    StepView::Finished(_, n) => commit_step(
                        store,
                        chosen.included.len(),
                        source,
                        replies,
                        n,
                    ) matches StepView::Failed(why) ==> capture_full_step(
                        store,
                        source,
                        replies,
                        at,
                    ) == StepView::<Option<Seq<char>>>::Failed(why),
                },
            }
        }),
{
}

/// A snapshot of a report ends with the first thing that fails, and with its
/// failure.
#[verifier::rlimit(60)]
pub proof fn a_path_capture_ends_with_its_first_failure(
    store: StoreView,
    batch: Seq<Seq<char>>,
    source: Seq<char>,
    replies: Seq<ReplyView>,
    at: int,
)
    ensures
        match git_ignored_step(store, batch, replies, at) {
            StepView::Failed(why) => capture_batch_step(store, batch, source, replies, at)
                == StepView::<Option<Seq<char>>>::Failed(why),
            StepView::Perform(_) => true,
            StepView::Finished(ignored, n) => match select_step(
                store,
                ignored,
                batch,
                replies,
                n,
            ) {
                StepView::Failed(why) => capture_batch_step(store, batch, source, replies, at)
                    == StepView::<Option<Seq<char>>>::Failed(why),
                StepView::Perform(_) => true,
                StepView::Finished(chosen, n) => match stage_step(
                    store,
                    chosen.included,
                    replies,
                    n,
                ) {
                    StepView::Failed(why) => capture_batch_step(
                        store,
                        batch,
                        source,
                        replies,
                        at,
                    ) == StepView::<Option<Seq<char>>>::Failed(why),
                    StepView::Perform(_) => true,
                    StepView::Finished(_, n) => match remove_step(
                        store,
                        chosen.removed,
                        replies,
                        n,
                    ) {
                        StepView::Failed(why) => capture_batch_step(
                            store,
                            batch,
                            source,
                            replies,
                            at,
                        ) == StepView::<Option<Seq<char>>>::Failed(why),
                        StepView::Perform(_) => true,
                        StepView::Finished(_, n) => commit_step(
                            store,
                            batch.len(),
                            source,
                            replies,
                            n,
                        ) matches StepView::Failed(why) ==> capture_batch_step(
                            store,
                            batch,
                            source,
                            replies,
                            at,
                        ) == StepView::<Option<Seq<char>>>::Failed(why),
                    },
                },
            },
        },
{
}

/// What fails below a snapshot of a report is what that ends with: from the lock
/// on, over the preparation of the index, to the batch itself.
pub proof fn a_report_ends_with_its_first_failure(
    store: StoreView,
    paths: Seq<Seq<char>>,
    source: Seq<char>,
    replies: Seq<ReplyView>,
    at: int,
)
    ensures
        ({
            let batch = batch_of(store.style, paths);
            let step = capture_paths_step(store, paths, source, replies, at);
            match lock_step(store, replies, at) {
                StepView::Failed(why) => step == StepView::<Option<Seq<char>>>::Failed(why),
                StepView::Perform(_) => true,
                StepView::Finished(_, n) => match prepare_index_step(store, replies, n) {
                    StepView::Failed(why) => step == StepView::<Option<Seq<char>>>::Failed(why),
                    StepView::Perform(_) => true,
                    StepView::Finished(_, n) => batch.len() > 0 && (forall|i: int|
                        0 <= i < batch.len() ==> name_of(store.style, #[trigger] batch[i]) != Some(
                            ".gitignore"@,
                        )) ==> (capture_batch_step(store, batch, source, replies, n)
                        matches StepView::Failed(why) ==> step == StepView::<
                        Option<Seq<char>>,
                    >::Failed(why)),
                },
            }
        }),
{
}

/// The lock of a history is a file of that name in its directory.
pub proof fn where_the_lock_lies(store: StoreView)
    ensures
        lock_file(store) == joined(store.style, store.project_dir, "lock"@),
{
}

/// A trigger that Watchman refuses is not registered, and one that it takes is,
/// which the user is told.
pub proof fn a_refused_trigger_is_not_registered(
    config: RuntimeView,
    settings: SettingsView,
    store: StoreView,
    project: Seq<char>,
    watch_root: Seq<char>,
    relative_root: Option<Seq<char>>,
    name: Seq<char>,
    executable: Seq<char>,
    replies: Seq<ReplyView>,
    at: int,
    captured: int,
    output: OutputView,
    response: JsonTree,
)
    requires
        0 <= captured,
        captured + 1 < replies.len(),
        capture_full_step(store, "trigger-reconcile"@, replies, at) matches StepView::Finished(
            _,
            n,
        ) && n == captured,
        replies[captured] == ReplyView::Paths(seq![Some(executable)]),
        !executable.contains('\0'),
        !config.config_path.contains('\0'),
        !project.contains('\0'),
        replies[captured + 1] == ReplyView::Output(output),
        json_of_text(output.stdout) == Ok::<JsonTree, Seq<char>>(response),
    ensures
        ({
            let step = renew_step(
                config,
                settings,
                store,
                project,
                watch_root,
                relative_root,
                name,
                replies,
                at,
            );
            if output.code != Some(0i32) {
                step == StepView::<()>::Failed(said_of("Watchman request"@, output))
            } else if response.member("error"@) matches Some(JsonTree::Text(_)) {
                step == StepView::<()>::Failed(
                    FailureView::Watchman(response.member("error"@)->0->Text_0),
                )
            } else if captured + 2 == replies.len() {
                step == StepView::<()>::Perform(ActionView::Tell("watching "@ + project))
            } else {
                step == StepView::<()>::Finished((), captured + 3)
            }
        }),
{
    assert(seq![Some(executable)][0] == Some(executable));
}

/// What the user names and cannot be found is told, and does not keep the rest
/// from being found.
pub proof fn what_is_skipped_is_told(
    style: PathStyle,
    home: Option<Seq<char>>,
    value: Seq<char>,
    path: Seq<char>,
    depth: usize,
    replies: Seq<ReplyView>,
    at: int,
)
    requires
        0 <= at,
        expanded(style, value, home) == Some(path),
    ensures
        !absolute(style, path) ==> {
            &&& at >= replies.len() ==> {
                &&& locate_step(style, home, value, replies, at) == StepView::<
                    Option<Seq<char>>,
                >::Perform(
                    ActionView::Tell(
                        "repository path must be absolute or start with ~: "@ + value,
                    ),
                )
                &&& walk_step(style, home, seq![value], depth, replies, at) == StepView::<
                    Seq<Seq<char>>,
                >::Perform(
                    ActionView::Tell("discovery root must be absolute or start with ~: "@ + value),
                )
            }
            &&& at < replies.len() ==> locate_step(style, home, value, replies, at)
                == StepView::<Option<Seq<char>>>::Finished(None, at + 1)
        },
        at + 1 == replies.len() && replies[at] == ReplyView::Flags(seq![false]) ==> below_step(
            path,
            depth,
            replies,
            at,
        ) == StepView::<Seq<Seq<char>>>::Perform(
            ActionView::Tell("discovery root does not exist: "@ + path),
        ),
{
    reveal_with_fuel(walk_step, 2);
    assert(!seq![false][0]);
    assert(seq![value].drop_last() =~= Seq::<Seq<char>>::empty());
    assert(seq![value].last() == value);
}

/// `init` makes the directory that the configuration is to lie in, before it
/// writes it.
pub proof fn init_makes_the_directory(
    environment: EnvironmentView,
    chosen: Option<Seq<char>>,
    force: bool,
    replies: Seq<ReplyView>,
    at: int,
    path: Seq<char>,
    resolved: int,
    there: bool,
    directory: Seq<char>,
)
    requires
        config_path_step(environment, chosen, replies, at) == StepView::Finished(path, resolved),
        0 <= resolved,
        resolved + 1 == replies.len(),
        replies[resolved] == ReplyView::Flags(seq![there]),
        !there || force,
        parent_of(environment.style, path) == Some(directory),
    ensures
        write_default_step(environment, chosen, force, replies, at) == StepView::<
            Seq<char>,
        >::Perform(ActionView::CreateDirectory(directory)),
{
    assert(seq![there][0] == there);
}

/// A file that cannot be inspected is not passed over: nothing is chosen, and
/// it is told which one it was.
pub proof fn what_cannot_be_inspected_ends_a_capture(
    store: StoreView,
    ignored: Seq<Seq<char>>,
    paths: Seq<Seq<char>>,
    statuses: Seq<StatusView>,
    cause: Seq<char>,
    i: int,
)
    requires
        0 <= i < paths.len(),
        !ignored.contains(paths[i]),
        path_problem(store.style, paths[i]) is None,
        !in_ignored_directory(store, paths[i]),
        statuses[looks(store, ignored, paths.take(i)).len() as int] == StatusView::Unreadable(
            cause,
        ),
    ensures
        selection(store, ignored, paths, statuses) is Err,
        inclusion(store, paths[i], Some(StatusView::Unreadable(cause))) == Err::<
            Option<bool>,
            FailureView,
        >(
            FailureView::Unavailable {
                context: "failed to inspect "@ + joined(store.style, store.root, paths[i]),
                cause,
            },
        ),
        (forall|j: int|
            0 <= j < i ==> !ignored.contains(#[trigger] paths[j]) ==> path_problem(
                store.style,
                paths[j],
            ) is None && (in_ignored_directory(store, paths[j]) || !(
            statuses[looks(store, ignored, paths.take(j)).len() as int] is Unreadable)))
            ==> selection(store, ignored, paths, statuses) == Err::<SelectionView, FailureView>(
            FailureView::Unavailable {
                context: "failed to inspect "@ + joined(store.style, store.root, paths[i]),
                cause,
            },
        ),
    decreases paths.len(),
{
    let init = paths.drop_last();
    assert(init =~= paths.take(paths.len() - 1));
    if i < init.len() {
        assert(init[i] == paths[i]);
        assert(init.take(i) =~= paths.take(i));
        assert forall|j: int| 0 <= j < i implies #[trigger] init[j] == paths[j] && init.take(j)
            == paths.take(j) by {
            assert(init.take(j) =~= paths.take(j));
        }
        if forall|j: int|
            0 <= j < i ==> !ignored.contains(#[trigger] paths[j]) ==> path_problem(
                store.style,
                paths[j],
            ) is None && (in_ignored_directory(store, paths[j]) || !(
            statuses[looks(store, ignored, paths.take(j)).len() as int] is Unreadable)) {
            assert forall|j: int| 0 <= j < i && !ignored.contains(#[trigger] init[j]) implies
                path_problem(store.style, init[j]) is None && (in_ignored_directory(store, init[j])
                || !(statuses[looks(store, ignored, init.take(j)).len() as int] is Unreadable)) by {
                assert(init[j] == paths[j]);
            }
        }
        what_cannot_be_inspected_ends_a_capture(store, ignored, init, statuses, cause, i);
    } else {
        if forall|j: int|
            0 <= j < i ==> !ignored.contains(#[trigger] paths[j]) ==> path_problem(
                store.style,
                paths[j],
            ) is None && (in_ignored_directory(store, paths[j]) || !(
            statuses[looks(store, ignored, paths.take(j)).len() as int] is Unreadable)) {
            assert forall|j: int| 0 <= j < init.len() && !ignored.contains(#[trigger] init[j])
                implies path_problem(store.style, init[j]) is None && (in_ignored_directory(
                store,
                init[j],
            ) || !(statuses[looks(store, ignored, init.take(j)).len() as int] is Unreadable)) by {
                assert(init[j] == paths[j]);
                assert(init.take(j) =~= paths.take(j));
            }
            what_can_be_inspected_is_chosen_from(store, ignored, init, statuses);
        }
    }
}

/// Where every path can be in a history and everything can be inspected, there is
/// a choice.
pub proof fn what_can_be_inspected_is_chosen_from(
    store: StoreView,
    ignored: Seq<Seq<char>>,
    paths: Seq<Seq<char>>,
    statuses: Seq<StatusView>,
)
    requires
        forall|j: int|
            0 <= j < paths.len() && !ignored.contains(#[trigger] paths[j]) ==> path_problem(
                store.style,
                paths[j],
            ) is None && (in_ignored_directory(store, paths[j]) || !(
            statuses[looks(store, ignored, paths.take(j)).len() as int] is Unreadable)),
    ensures
        selection(store, ignored, paths, statuses) is Ok,
    decreases paths.len(),
{
    if paths.len() > 0 {
        let init = paths.drop_last();
        let end = paths.len() - 1;
        assert(init =~= paths.take(end));
        assert forall|j: int| 0 <= j < init.len() && !ignored.contains(#[trigger] init[j]) implies
            path_problem(store.style, init[j]) is None && (in_ignored_directory(store, init[j])
            || !(statuses[looks(store, ignored, init.take(j)).len() as int] is Unreadable)) by {
            assert(init[j] == paths[j]);
            assert(init.take(j) =~= paths.take(j));
        }
        what_can_be_inspected_is_chosen_from(store, ignored, init, statuses);
        assert(paths[end] == paths.last());
    }
}

/// Reading ends with what Git refuses. Only where Git is asked whether there is
/// something does it say by that that there is nothing.
pub proof fn what_git_refuses_is_not_read(
    store: StoreView,
    relative: Seq<char>,
    limit: nat,
    revision: Seq<char>,
    replies: Seq<ReplyView>,
    at: int,
    looked: int,
    output: OutputView,
)
    requires
        path_problem(store.style, relative) is None,
        0 <= looked < replies.len(),
        replies[looked] == ReplyView::Output(output),
        output.code != Some(0i32),
    ensures
        has_history_step(store, replies, at) == StepView::Finished(true, looked) ==> list_step(
            store,
            relative,
            limit,
            replies,
            at,
        ) == StepView::<Seq<SnapshotView>>::Failed(said_of("git log"@, output)),
        has_history_step(store, replies, at) == StepView::Finished(false, looked) ==> list_step(
            store,
            relative,
            limit,
            replies,
            at,
        ) == StepView::Finished(Seq::<SnapshotView>::empty(), looked),
        is_revision(revision) && !relative.contains('\0') ==> show_step(
            store,
            relative,
            revision,
            replies,
            looked,
        ) == StepView::<Option<Seq<u8>>>::Finished(None, looked + 1),
        is_revision(revision) && !relative.contains('\0') && looked > 0 ==> (replies[looked
            - 1] matches ReplyView::Output(found) ==> found.code == Some(0i32) ==> show_step(
            store,
            relative,
            revision,
            replies,
            looked - 1,
        ) == StepView::<Option<Seq<u8>>>::Failed(said_of("git show"@, output))),
{
}

/// A file that does not lie in the worktree that Git names for it has no
/// history, and that is told.
pub proof fn a_file_outside_the_worktree_is_refused(
    config: RuntimeView,
    file: Seq<char>,
    replies: Seq<ReplyView>,
    at: int,
    path: Seq<char>,
    found: int,
    root: Seq<char>,
    located: int,
)
    requires
        absolute_step(config.style, file, replies, at) == StepView::Finished(path, found),
        git_root_step(config.style, path, replies, found) == StepView::Finished(root, located),
        !components(config.style, root).is_prefix_of(components(config.style, path)),
    ensures
        for_file_step(config, file, replies, at) == StepView::<
            Option<(StoreView, Seq<char>)>,
        >::Failed(FailureView::OutsideRoot { path, root }),
{
}

} // verus!
