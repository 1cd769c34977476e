//! What goes well is gone on from.

use crate::capture::{
    batch_of, capture_full_step, capture_paths_step, clear_index_step, git_ignored_step, lock_step,
    prepare_index_step, remove_step, stage_step,
};
use crate::commit::{changed_step, commit_step, gc_step, has_history_step, head_step};
use crate::config::{
    config_path_step, config_problem, load_step, project_settings_step, ConfigView, RepositoryView,
    RuntimeView, SettingsView,
};
use crate::discovery::{below_step, explicit_step, git_root_step};
use crate::git_store::{path_problem, StoreView};
use crate::opening::{absolute_step, for_file_step, initialize_step, open_step};
use crate::paths::{absolute, joined, name_of, stripped, PathStyle};
use crate::platform::{expanded, EnvironmentView};
use crate::procedure::{FailureView, OutputView, ReplyView, StatusView, StepView};
use crate::select::{listed_paths, looks, select_step, selection, SelectionView};
use crate::numbers::hex;
use crate::native::readable;
use crate::outside::sha256;
use crate::text::trimmed;
use vstd::prelude::*;
use vstd::utf8::{decode_utf8, encode_utf8, valid_utf8};

verus! {

/// Where Git does what it is asked to do, the work goes on behind its reply.
pub proof fn what_git_does_is_gone_on_from(
    store: StoreView,
    paths: Seq<Seq<char>>,
    tree: Seq<char>,
    parent: Seq<char>,
    replies: Seq<ReplyView>,
    at: int,
    output: OutputView,
)
    requires
        0 <= at < replies.len(),
        replies[at] == ReplyView::Output(output),
        output.code == Some(0i32),
    ensures
        clear_index_step(store, replies, at) == StepView::<()>::Finished((), at + 1),
        paths.len() > 0 ==> {
            &&& stage_step(store, paths, replies, at) == StepView::<()>::Finished((), at + 1)
            &&& remove_step(store, paths, replies, at) == StepView::<()>::Finished((), at + 1)
            &&& git_ignored_step(store, paths, replies, at) == StepView::Finished(
                listed_paths(output.stdout),
                at + 1,
            )
        },
        valid_utf8(output.stdout) ==> {
            let text = trimmed(decode_utf8(output.stdout));
            &&& head_step(store, replies, at) == StepView::Finished(Some(text), at + 1)
            &&& has_history_step(store, replies, at) == StepView::Finished(true, at + 1)
            &&& changed_step(store, tree, Some(parent), replies, at) == StepView::Finished(
                text != tree,
                at + 1,
            )
        },
        gc_step(store, replies, at) == StepView::<()>::Finished((), at + 1),
{
}

/// Where there is nothing to stage, to remove or to ask for, Git is not asked,
/// and a first snapshot always has something new.
pub proof fn nothing_is_asked_for_nothing(
    store: StoreView,
    tree: Seq<char>,
    replies: Seq<ReplyView>,
    at: int,
)
    ensures
        stage_step(store, Seq::empty(), replies, at) == StepView::<()>::Finished((), at),
        remove_step(store, Seq::empty(), replies, at) == StepView::<()>::Finished((), at),
        git_ignored_step(store, Seq::empty(), replies, at) == StepView::Finished(
            Seq::<Seq<char>>::empty(),
            at,
        ),
        changed_step(store, tree, None, replies, at) == StepView::Finished(true, at),
{
}

/// A choice that can be made is made from what lies at the paths.
pub proof fn a_choice_is_made_from_what_lies_there(
    store: StoreView,
    ignored: Seq<Seq<char>>,
    paths: Seq<Seq<char>>,
    statuses: Seq<StatusView>,
    chosen: SelectionView,
    replies: Seq<ReplyView>,
    at: int,
)
    requires
        0 <= at < replies.len(),
        replies[at] == ReplyView::Statuses(statuses),
        statuses.len() == looks(store, ignored, paths).len(),
        selection(store, ignored, paths, statuses) == Ok::<SelectionView, FailureView>(chosen),
    ensures
        select_step(store, ignored, paths, replies, at) == StepView::Finished(chosen, at + 1),
{
}

/// A tree that differs from that of the latest snapshot is committed and becomes
/// the latest one: with Git doing what it is asked to do, the name that Git
/// gives it is what comes of it.
#[verifier::rlimit(60)]
pub proof fn a_changed_tree_is_committed(
    store: StoreView,
    path_count: nat,
    source: Seq<char>,
    replies: Seq<ReplyView>,
    at: int,
    parent: Option<Seq<char>>,
    resolved: int,
    compared: int,
    written: OutputView,
    made: OutputView,
    moved: OutputView,
    kept: OutputView,
)
    requires
        0 <= at < replies.len(),
        replies[at] == ReplyView::Output(written),
        written.code == Some(0i32),
        valid_utf8(written.stdout),
        head_step(store, replies, at + 1) == StepView::Finished(parent, resolved),
        changed_step(store, trimmed(decode_utf8(written.stdout)), parent, replies, resolved)
            == StepView::Finished(true, compared),
        0 <= compared,
        compared + 2 < replies.len(),
        replies[compared] == ReplyView::Output(made),
        made.code == Some(0i32),
        valid_utf8(made.stdout),
        replies[compared + 1] == ReplyView::Output(moved),
        moved.code == Some(0i32),
        replies[compared + 2] == ReplyView::Output(kept),
        kept.code == Some(0i32),
    ensures
        commit_step(store, path_count, source, replies, at) == StepView::Finished(
            Some(trimmed(decode_utf8(made.stdout))),
            compared + 3,
        ),
{
}

/// A snapshot of the whole worktree that nothing fails in comes to what the
/// commit comes to, and gives the lock back.
#[verifier::rlimit(60)]
pub proof fn a_full_capture_succeeds(
    store: StoreView,
    source: Seq<char>,
    replies: Seq<ReplyView>,
    at: int,
    locked: int,
    cleared: int,
    output: OutputView,
    chosen: SelectionView,
    selected: int,
    staged: int,
    outcome: Option<Seq<char>>,
    committed: int,
)
    requires
        lock_step(store, replies, at) == StepView::<()>::Finished((), locked),
        clear_index_step(store, replies, locked) == StepView::<()>::Finished((), cleared),
        0 <= cleared < replies.len(),
        replies[cleared] == ReplyView::Output(output),
        output.code == Some(0i32),
        select_step(store, Seq::empty(), listed_paths(output.stdout), replies, cleared + 1)
            == StepView::Finished(chosen, selected),
        stage_step(store, chosen.included, replies, selected) == StepView::<()>::Finished(
            (),
            staged,
        ),
        commit_step(store, chosen.included.len(), source, replies, staged) == StepView::Finished(
            outcome,
            committed,
        ),
        0 <= committed < replies.len(),
        replies[committed] is Done,
    ensures
        capture_full_step(store, source, replies, at) == StepView::Finished(
            outcome,
            committed + 1,
        ),
{
}

/// A snapshot of a report that nothing fails in comes to what the commit comes
/// to, and gives the lock back.
#[verifier::rlimit(60)]
pub proof fn a_path_capture_succeeds(
    store: StoreView,
    paths: Seq<Seq<char>>,
    source: Seq<char>,
    replies: Seq<ReplyView>,
    at: int,
    locked: int,
    prepared: int,
    ignored: Seq<Seq<char>>,
    asked: int,
    chosen: SelectionView,
    selected: int,
    staged: int,
    removed: int,
    outcome: Option<Seq<char>>,
    committed: int,
)
    requires
        lock_step(store, replies, at) == StepView::<()>::Finished((), locked),
        prepare_index_step(store, replies, locked) == StepView::<()>::Finished((), prepared),
        batch_of(store.style, paths).len() > 0,
        forall|i: int|
            0 <= i < batch_of(store.style, paths).len() ==> name_of(
                store.style,
                #[trigger] batch_of(store.style, paths)[i],
            ) != Some(".gitignore"@),
        git_ignored_step(store, batch_of(store.style, paths), replies, prepared)
            == StepView::Finished(ignored, asked),
        select_step(store, ignored, batch_of(store.style, paths), replies, asked)
            == StepView::Finished(chosen, selected),
        stage_step(store, chosen.included, replies, selected) == StepView::<()>::Finished(
            (),
            staged,
        ),
        remove_step(store, chosen.removed, replies, staged) == StepView::<()>::Finished(
            (),
            removed,
        ),
        commit_step(store, batch_of(store.style, paths).len(), source, replies, removed)
            == StepView::Finished(outcome, committed),
        0 <= committed < replies.len(),
        replies[committed] is Done,
    ensures
        capture_paths_step(store, paths, source, replies, at) == StepView::Finished(
            outcome,
            committed + 1,
        ),
{
}

/// A configuration that is accepted is loaded as it stands, with the histories
/// where it says, or where the platform keeps them; a place for them that is
/// not absolute is refused, and so is one that needs a home directory where
/// none is known.
pub proof fn a_sound_configuration_is_loaded(
    environment: EnvironmentView,
    chosen: Option<Seq<char>>,
    replies: Seq<ReplyView>,
    at: int,
    config_path: Seq<char>,
    resolved: int,
    values: ConfigView,
)
    requires
        config_path_step(environment, chosen, replies, at) == StepView::Finished(
            config_path,
            resolved,
        ),
        0 <= resolved,
        resolved + 1 < replies.len(),
        replies[resolved] == ReplyView::Flags(seq![true]),
        replies[resolved + 1] == ReplyView::Config(values),
    ensures
        ({
            let place = match values.store_dir {
                Some(path) => expanded(environment.style, path, environment.home),
                None => Some(environment.paths.data_dir),
            };
            let step = load_step(environment, chosen, replies, at);
            match config_problem(values) {
                Some(why) => step == StepView::<RuntimeView>::Failed(why),
                None => match place {
                    None => step == StepView::<RuntimeView>::Failed(FailureView::HomeUnknown),
                    Some(store_dir) => if absolute(environment.style, store_dir) {
                        step == StepView::Finished(
                            RuntimeView {
                                values,
                                config_path,
                                store_dir,
                                state_dir: environment.paths.state_dir,
                                home: environment.home,
                                style: environment.style,
                            },
                            resolved + 2,
                        )
                    } else {
                        step == StepView::<RuntimeView>::Failed(
                            FailureView::RelativeStore(store_dir),
                        )
                    },
                },
            }
        }),
{
    assert(seq![true][0]);
}

/// A history that can be made sure of is opened, for the worktree at the
/// canonical path and with the settings that hold there.
pub proof fn a_history_is_opened(
    config: RuntimeView,
    of: Seq<char>,
    replies: Seq<ReplyView>,
    at: int,
    root: Seq<char>,
    settings: SettingsView,
    decided: int,
    store: StoreView,
    n: int,
)
    requires
        0 <= at < replies.len(),
        replies[at] == ReplyView::Paths(seq![Some(root)]),
        project_settings_step(config, root, replies, at + 1) == StepView::Finished(
            settings,
            decided,
        ),
        store.style == config.style,
        store.settings == settings,
        store.root == root,
        store.project_dir == joined(
            config.style,
            joined(config.style, config.store_dir, "repos"@),
            hex(sha256(encode_utf8(readable(root))).take(12)),
        ),
        store.git_dir == joined(config.style, store.project_dir, "history.git"@),
        store.index_file == joined(config.style, store.project_dir, "index"@),
        initialize_step(store, replies, decided) == StepView::<()>::Finished((), n),
    ensures
        open_step(config, of, replies, at) == StepView::Finished(store, n),
{
    assert(seq![Some(root)][0] == Some(root));
}

/// A file in a worktree that has a history is found there, at its path below
/// the root.
#[verifier::rlimit(60)]
pub proof fn a_file_with_a_history_is_found(
    config: RuntimeView,
    file: Seq<char>,
    replies: Seq<ReplyView>,
    at: int,
    path: Seq<char>,
    found: int,
    root: Seq<char>,
    located: int,
    relative: Seq<char>,
    there: bool,
    store: StoreView,
    n: int,
)
    requires
        absolute_step(config.style, file, replies, at) == StepView::Finished(path, found),
        git_root_step(config.style, path, replies, found) == StepView::Finished(root, located),
        stripped(config.style, path, root) == Some(relative),
        path_problem(config.style, relative) is None,
        0 <= located < replies.len(),
        replies[located] == ReplyView::Flags(seq![there]),
        there ==> open_step(config, root, replies, located + 1) == StepView::Finished(store, n),
    ensures
        for_file_step(config, file, replies, at) == (if there {
            StepView::Finished(Some((store, relative)), n)
        } else {
            StepView::<Option<(StoreView, Seq<char>)>>::Finished(None, located + 1)
        }),
{
    assert(seq![there][0] == there);
}

/// A repository that cannot be found does not end discovery: only a home
/// directory that is needed and unknown does.
pub proof fn a_repository_that_is_not_found_stops_nothing(
    style: PathStyle,
    home: Option<Seq<char>>,
    repositories: Seq<RepositoryView>,
    replies: Seq<ReplyView>,
    at: int,
)
    requires
        forall|i: int|
            0 <= i < repositories.len() ==> expanded(
                style,
                (#[trigger] repositories[i]).path(),
                home,
            ) is Some,
    ensures
        !(explicit_step(style, home, repositories, replies, at) is Failed),
    decreases repositories.len(),
{
    if repositories.len() > 0 {
        let init = repositories.drop_last();
        assert forall|i: int| 0 <= i < init.len() implies expanded(
            style,
            (#[trigger] init[i]).path(),
            home,
        ) is Some by {
            assert(init[i] == repositories[i]);
        }
        a_repository_that_is_not_found_stops_nothing(style, home, init, replies, at);
        assert(repositories[repositories.len() - 1] == repositories.last());
    }
}

/// What a search below a discovery root finds is found, and a root that is not
/// there has nothing below it.
pub proof fn what_lies_below_a_root_is_found(
    root: Seq<char>,
    depth: usize,
    replies: Seq<ReplyView>,
    at: int,
    found: Seq<Seq<char>>,
)
    requires
        0 <= at,
        at + 1 < replies.len(),
    ensures
        replies[at] == ReplyView::Flags(seq![true]) && replies[at + 1] == ReplyView::Found(found)
            ==> below_step(root, depth, replies, at) == StepView::Finished(found, at + 2),
        replies[at] == ReplyView::Flags(seq![false]) ==> below_step(root, depth, replies, at)
            == StepView::Finished(Seq::<Seq<char>>::empty(), at + 2),
{
    assert(seq![true][0]);
    assert(!seq![false][0]);
}

} // verus!
