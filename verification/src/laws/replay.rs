//! Procedures do not take back what they have settled: more replies change
//! neither how a procedure ended nor which replies it used for that.

use crate::capture::{
    capture_batch_step, capture_full_step, capture_paths_step, clear_index_step, full_step,
    git_ignored_step, list_files_command, lock_step, prepare_index_step, remove_step, stage_step,
    unlock_step, batch_of,
};
use crate::commit::{
    changed_step, commit_step, has_history_step, head_step, message_of, record_step,
    write_tree_command,
};
use crate::config::{
    config_path_step, load_step, project_settings_step, values_step, write_default_step,
    RepositoryView, RuntimeView, SettingsView,
};
use crate::discovery::{
    canonical_step, discover_step, explicit_step, git_root_step, locate_step, try_git_root_step,
    walk_step,
};
use crate::git_store::StoreView;
use crate::history::{list_step, show_step};
use crate::opening::{
    absolute_step, claim_step, create_step, for_file_step, initialize_step, open_step, store_at,
};
use crate::paths::PathStyle;
use crate::platform::{expanded, EnvironmentView};
use crate::procedure::{succeed_step, text_step, ActionView, ReplyView, StepView};
use crate::reconcile::{
    capture_trigger_step, counting, ensure_all_step, load_registry_step, prepare_step,
    reconcile_step, retire_all_step, stale, TriggerEventView,
};
use crate::registering::{
    ensure_project_step, first_snapshot_step, renew_step, sweep_step, trigger_prefix, trigger_step,
};
use crate::select::{listed_paths, select_step};
use crate::watchman::{
    fingerprint_of, list_triggers_step, register_step, watch_project_step, RegistrationView,
};
use vstd::prelude::*;

verus! {

/// Whether `later` is what `sooner` comes to with more replies than `have`,
/// which makes a difference only as long as something is still to be done; and
/// whether replies are used in order.
pub open spec fn keeps<V>(have: nat, at: int, sooner: StepView<V>, later: StepView<V>) -> bool {
    &&& sooner is Perform || sooner == later
    &&& later matches StepView::Finished(_, used) ==> at <= used && (sooner is Perform ==> have
        < used)
}

#[verifier::rlimit(40)]
proof fn committing_keeps(
    store: StoreView,
    path_count: nat,
    source: Seq<char>,
    replies: Seq<ReplyView>,
    more: Seq<ReplyView>,
    at: int,
)
    requires
        0 <= at,
    ensures
        keeps(
            replies.len(),
            at,
            commit_step(store, path_count, source, replies, at),
            commit_step(store, path_count, source, replies + more, at),
        ),
{
    let all = replies + more;
    if let StepView::Finished(tree, n) = text_step(
        all,
        at,
        write_tree_command(store),
        "failed to write snapshot tree"@,
        "git write-tree"@,
    ) {
        head_keeps(store, replies, more, n);
        if let StepView::Finished(parent, n) = head_step(store, all, n) {
            assert(keeps(
                replies.len(),
                n,
                changed_step(store, tree, parent, replies, n),
                changed_step(store, tree, parent, all, n),
            ));
            if let StepView::Finished(true, n) = changed_step(store, tree, parent, all, n) {
                let message = message_of(path_count, source, store.root);
                assert(keeps(
                    replies.len(),
                    n,
                    record_step(store, tree, parent, message, replies, n),
                    record_step(store, tree, parent, message, all, n),
                ));
            }
        }
    }
}

proof fn head_keeps(store: StoreView, replies: Seq<ReplyView>, more: Seq<ReplyView>, at: int)
    requires
        0 <= at,
    ensures
        keeps(replies.len(), at, head_step(store, replies, at), head_step(store, replies + more, at)),
        keeps(replies.len(), at, has_history_step(store, replies, at), has_history_step(store, replies + more, at)),
{
}

#[verifier::rlimit(40)]
proof fn staging_keeps(
    store: StoreView,
    ignored: Seq<Seq<char>>,
    paths: Seq<Seq<char>>,
    replies: Seq<ReplyView>,
    more: Seq<ReplyView>,
    at: int,
)
    requires
        0 <= at,
    ensures
        keeps(
            replies.len(),
            at,
            stage_step(store, paths, replies, at),
            stage_step(store, paths, replies + more, at),
        ),
        keeps(
            replies.len(),
            at,
            remove_step(store, paths, replies, at),
            remove_step(store, paths, replies + more, at),
        ),
        keeps(
            replies.len(),
            at,
            git_ignored_step(store, paths, replies, at),
            git_ignored_step(store, paths, replies + more, at),
        ),
        keeps(
            replies.len(),
            at,
            select_step(store, ignored, paths, replies, at),
            select_step(store, ignored, paths, replies + more, at),
        ),
        keeps(replies.len(), at, clear_index_step(store, replies, at), clear_index_step(store, replies + more, at)),
        keeps(
            replies.len(),
            at,
            prepare_index_step(store, replies, at),
            prepare_index_step(store, replies + more, at),
        ),
        keeps(replies.len(), at, lock_step(store, replies, at), lock_step(store, replies + more, at)),
{
}

#[verifier::rlimit(40)]
proof fn full_keeps(
    store: StoreView,
    source: Seq<char>,
    replies: Seq<ReplyView>,
    more: Seq<ReplyView>,
    at: int,
)
    requires
        0 <= at,
    ensures
        keeps(
            replies.len(),
            at,
            full_step(store, source, replies, at),
            full_step(store, source, replies + more, at),
        ),
{
    let all = replies + more;
    let none = Seq::<Seq<char>>::empty();
    staging_keeps(store, none, none, replies, more, at);
    if let StepView::Finished(_, n) = clear_index_step(store, all, at) {
        if let StepView::Finished(output, n) = succeed_step(
            all,
            n,
            list_files_command(store),
            "failed to enumerate source repository files"@,
            "git ls-files"@,
        ) {
            let paths = listed_paths(output.stdout);
            staging_keeps(store, none, paths, replies, more, n);
            if let StepView::Finished(chosen, n) = select_step(store, none, paths, all, n) {
                staging_keeps(store, none, chosen.included, replies, more, n);
                if let StepView::Finished(_, n) = stage_step(store, chosen.included, all, n) {
                    committing_keeps(store, chosen.included.len(), source, replies, more, n);
                }
            }
        }
    }
}

/// A snapshot of the whole worktree does not depend on replies behind those it used.
pub proof fn full_capture_keeps(
    store: StoreView,
    source: Seq<char>,
    replies: Seq<ReplyView>,
    more: Seq<ReplyView>,
    at: int,
)
    requires
        0 <= at,
    ensures
        keeps(
            replies.len(),
            at,
            capture_full_step(store, source, replies, at),
            capture_full_step(store, source, replies + more, at),
        ),
{
    let all = replies + more;
    let none = Seq::<Seq<char>>::empty();
    staging_keeps(store, none, none, replies, more, at);
    if let StepView::Finished(_, n) = lock_step(store, all, at) {
        full_keeps(store, source, replies, more, n);
    }
}

/// The work under the lock for reported paths does not depend on replies behind
/// those it used.
#[verifier::rlimit(40)]
pub proof fn batch_keeps(
    store: StoreView,
    batch: Seq<Seq<char>>,
    source: Seq<char>,
    replies: Seq<ReplyView>,
    more: Seq<ReplyView>,
    at: int,
)
    requires
        0 <= at,
    ensures
        keeps(
            replies.len(),
            at,
            capture_batch_step(store, batch, source, replies, at),
            capture_batch_step(store, batch, source, replies + more, at),
        ),
{
    let all = replies + more;
    staging_keeps(store, batch, batch, replies, more, at);
    if let StepView::Finished(ignored, n) = git_ignored_step(store, batch, all, at) {
        staging_keeps(store, ignored, batch, replies, more, n);
        if let StepView::Finished(chosen, n) = select_step(store, ignored, batch, all, n) {
            staging_keeps(store, ignored, chosen.included, replies, more, n);
            if let StepView::Finished(_, n) = stage_step(store, chosen.included, all, n) {
                staging_keeps(store, ignored, chosen.removed, replies, more, n);
                if let StepView::Finished(_, n) = remove_step(store, chosen.removed, all, n) {
                    committing_keeps(store, batch.len(), source, replies, more, n);
                }
            }
        }
    }
}

/// A snapshot of reported paths does not depend on replies behind those it used.
pub proof fn path_capture_keeps(
    store: StoreView,
    paths: Seq<Seq<char>>,
    source: Seq<char>,
    replies: Seq<ReplyView>,
    more: Seq<ReplyView>,
    at: int,
)
    requires
        0 <= at,
    ensures
        keeps(
            replies.len(),
            at,
            capture_paths_step(store, paths, source, replies, at),
            capture_paths_step(store, paths, source, replies + more, at),
        ),
{
    let all = replies + more;
    let none = Seq::<Seq<char>>::empty();
    let batch = batch_of(store.style, paths);
    staging_keeps(store, none, none, replies, more, at);
    if let StepView::Finished(_, n) = lock_step(store, all, at) {
        staging_keeps(store, none, none, replies, more, n);
        if let StepView::Finished(_, n) = prepare_index_step(store, all, n) {
            batch_keeps(store, batch, source, replies, more, n);
            if let StepView::Finished(_, n) = unlock_step(None, all, n) {
                full_capture_keeps(store, source, replies, more, n);
            }
        }
    }
}

/// A snapshot ends with the lock given back: what it asks for with all but its
/// last reply is to let go of the lock.
pub proof fn capture_gives_the_lock_back(
    store: StoreView,
    source: Seq<char>,
    replies: Seq<ReplyView>,
    at: int,
    outcome: Option<Seq<char>>,
    used: int,
)
    requires
        0 <= at,
        capture_full_step(store, source, replies, at) == StepView::Finished(outcome, used),
    ensures
        0 < used <= replies.len(),
        capture_full_step(store, source, replies.take(used - 1), at) == StepView::<
            Option<Seq<char>>,
        >::Perform(ActionView::Unlock),
{
    let none = Seq::<Seq<char>>::empty();
    let sooner = replies.take(used - 1);
    let more = replies.skip(used - 1);
    let locked = lock_step(store, replies, at)->Finished_1;
    staging_keeps(store, none, none, Seq::empty(), replies, at);
    assert(Seq::<ReplyView>::empty() + replies =~= replies);
    full_keeps(store, source, Seq::empty(), replies, locked);
    assert(sooner + more =~= replies);
    staging_keeps(store, none, none, sooner, more, at);
    full_keeps(store, source, sooner, more, locked);
}

/// Reading the history does not depend on replies behind those it used.
pub proof fn reading_keeps(
    store: StoreView,
    relative: Seq<char>,
    limit: nat,
    revision: Seq<char>,
    replies: Seq<ReplyView>,
    more: Seq<ReplyView>,
    at: int,
)
    requires
        0 <= at,
    ensures
        keeps(
            replies.len(),
            at,
            list_step(store, relative, limit, replies, at),
            list_step(store, relative, limit, replies + more, at),
        ),
        keeps(
            replies.len(),
            at,
            show_step(store, relative, revision, replies, at),
            show_step(store, relative, revision, replies + more, at),
        ),
{
    head_keeps(store, replies, more, at);
}

/// Nor does loading a configuration, or writing the default one.
#[verifier::rlimit(40)]
pub proof fn configuration_keeps(
    environment: EnvironmentView,
    chosen: Option<Seq<char>>,
    force: bool,
    replies: Seq<ReplyView>,
    more: Seq<ReplyView>,
    at: int,
)
    requires
        0 <= at,
    ensures
        keeps(
            replies.len(),
            at,
            load_step(environment, chosen, replies, at),
            load_step(environment, chosen, replies + more, at),
        ),
        keeps(
            replies.len(),
            at,
            write_default_step(environment, chosen, force, replies, at),
            write_default_step(environment, chosen, force, replies + more, at),
        ),
{
    let all = replies + more;
    assert(keeps(
        replies.len(),
        at,
        config_path_step(environment, chosen, replies, at),
        config_path_step(environment, chosen, replies + more, at),
    ));
    if let StepView::Finished(path, n) = config_path_step(environment, chosen, all, at) {
        assert(keeps(
            replies.len(),
            n,
            values_step(path, replies, n),
            values_step(path, replies + more, n),
        ));
    }
}

#[verifier::rlimit(40)]
proof fn initializing_keeps(
    store: StoreView,
    replies: Seq<ReplyView>,
    more: Seq<ReplyView>,
    at: int,
)
    requires
        0 <= at,
    ensures
        keeps(replies.len(), at, initialize_step(store, replies, at), initialize_step(store, replies + more, at)),
{
    let all = replies + more;
    claiming_keeps(store, replies, more, at + 2);
    creating_keeps(store, replies, more, at + 2);
    if let StepView::Finished(_, n) = create_step(store, all, at + 2) {
        claiming_keeps(store, replies, more, n);
    }
}

#[verifier::rlimit(40)]
proof fn claiming_keeps(store: StoreView, replies: Seq<ReplyView>, more: Seq<ReplyView>, at: int)
    requires
        0 <= at,
    ensures
        keeps(replies.len(), at, claim_step(store, replies, at), claim_step(store, replies + more, at)),
{
}

#[verifier::rlimit(40)]
proof fn creating_keeps(store: StoreView, replies: Seq<ReplyView>, more: Seq<ReplyView>, at: int)
    requires
        0 <= at,
    ensures
        keeps(replies.len(), at, create_step(store, replies, at), create_step(store, replies + more, at)),
{
}

/// Opening a history does not depend on replies behind those it used.
#[verifier::rlimit(40)]
pub proof fn opening_keeps(
    config: RuntimeView,
    of: Seq<char>,
    replies: Seq<ReplyView>,
    more: Seq<ReplyView>,
    at: int,
)
    requires
        0 <= at,
    ensures
        keeps(
            replies.len(),
            at,
            open_step(config, of, replies, at),
            open_step(config, of, replies + more, at),
        ),
        keeps(
            replies.len(),
            at,
            project_settings_step(config, of, replies, at),
            project_settings_step(config, of, replies + more, at),
        ),
{
    let all = replies + more;
    if let StepView::Finished(root, n) = canonical_step(of, all, at) {
        assert(keeps(
            replies.len(),
            n,
            project_settings_step(config, root, replies, n),
            project_settings_step(config, root, all, n),
        ));
        if let StepView::Finished(settings, n) = project_settings_step(config, root, all, n) {
            initializing_keeps(store_at(config, root, settings), replies, more, n);
        }
    }
}

#[verifier::rlimit(40)]
proof fn git_root_keeps(
    style: PathStyle,
    of: Seq<char>,
    replies: Seq<ReplyView>,
    more: Seq<ReplyView>,
    at: int,
)
    requires
        0 <= at,
    ensures
        keeps(
            replies.len(),
            at,
            git_root_step(style, of, replies, at),
            git_root_step(style, of, replies + more, at),
        ),
{
}

/// Finding the history of a file does not depend on replies behind those it used.
#[verifier::rlimit(40)]
pub proof fn finding_keeps(
    config: RuntimeView,
    file: Seq<char>,
    replies: Seq<ReplyView>,
    more: Seq<ReplyView>,
    at: int,
)
    requires
        0 <= at,
    ensures
        keeps(
            replies.len(),
            at,
            for_file_step(config, file, replies, at),
            for_file_step(config, file, replies + more, at),
        ),
{
    let all = replies + more;
    assert(keeps(
        replies.len(),
        at,
        absolute_step(config.style, file, replies, at),
        absolute_step(config.style, file, replies + more, at),
    ));
    if let StepView::Finished(path, n) = absolute_step(config.style, file, all, at) {
        git_root_keeps(config.style, path, replies, more, n);
        if let StepView::Finished(root, n) = git_root_step(config.style, path, all, n) {
            opening_keeps(config, root, replies, more, n + 1);
        }
    }
}

pub proof fn locating_keeps(
    style: PathStyle,
    home: Option<Seq<char>>,
    repositories: Seq<RepositoryView>,
    replies: Seq<ReplyView>,
    more: Seq<ReplyView>,
    at: int,
)
    requires
        0 <= at,
    ensures
        keeps(
            replies.len(),
            at,
            explicit_step(style, home, repositories, replies, at),
            explicit_step(style, home, repositories, replies + more, at),
        ),
    decreases repositories.len(),
{
    let all = replies + more;
    if repositories.len() > 0 {
        let init = repositories.drop_last();
        locating_keeps(style, home, init, replies, more, at);
        if let StepView::Finished(_, n) = explicit_step(style, home, init, all, at) {
            let value = repositories.last().path();
            if let Some(candidate) = expanded(style, value, home) {
                assert(keeps(
                    replies.len(),
                    n,
                    try_git_root_step(style, candidate, replies, n),
                    try_git_root_step(style, candidate, all, n),
                ));
            }
            assert(keeps(
                replies.len(),
                n,
                locate_step(style, home, value, replies, n),
                locate_step(style, home, value, all, n),
            ));
        }
    }
}

pub proof fn walking_keeps(
    style: PathStyle,
    home: Option<Seq<char>>,
    roots: Seq<Seq<char>>,
    depth: usize,
    replies: Seq<ReplyView>,
    more: Seq<ReplyView>,
    at: int,
)
    requires
        0 <= at,
    ensures
        keeps(
            replies.len(),
            at,
            walk_step(style, home, roots, depth, replies, at),
            walk_step(style, home, roots, depth, replies + more, at),
        ),
    decreases roots.len(),
{
    if roots.len() > 0 {
        walking_keeps(style, home, roots.drop_last(), depth, replies, more, at);
    }
}

/// Discovery does not depend on replies behind those it used, as long as the
/// exclusions come to the same.
pub proof fn discovery_keeps(
    config: RuntimeView,
    refusal: Option<Seq<char>>,
    excluded: Seq<bool>,
    replies: Seq<ReplyView>,
    more: Seq<ReplyView>,
    at: int,
)
    requires
        0 <= at,
    ensures
        keeps(
            replies.len(),
            at,
            discover_step(config, refusal, excluded, replies, at),
            discover_step(config, refusal, excluded, replies + more, at),
        ),
{
    let all = replies + more;
    let repositories = config.values.repositories;
    locating_keeps(config.style, config.home, repositories, replies, more, at);
    if let StepView::Finished(_, n) = explicit_step(
        config.style,
        config.home,
        repositories,
        all,
        at,
    ) {
        walking_keeps(
            config.style,
            config.home,
            config.values.discovery_roots,
            config.values.discovery_max_depth,
            replies,
            more,
            n,
        );
    }
}

proof fn sweeping_keeps(
    watch_root: Seq<char>,
    prefix: Seq<char>,
    wanted: Seq<char>,
    names: Seq<Seq<char>>,
    replies: Seq<ReplyView>,
    more: Seq<ReplyView>,
    at: int,
)
    requires
        0 <= at,
    ensures
        keeps(
            replies.len(),
            at,
            sweep_step(watch_root, prefix, wanted, names, replies, at),
            sweep_step(watch_root, prefix, wanted, names, replies + more, at),
        ),
    decreases names.len(),
{
    if names.len() > 0 {
        sweeping_keeps(watch_root, prefix, wanted, names.drop_last(), replies, more, at);
    }
}

proof fn renewing_keeps(
    config: RuntimeView,
    settings: SettingsView,
    store: StoreView,
    project: Seq<char>,
    watch_root: Seq<char>,
    relative_root: Option<Seq<char>>,
    name: Seq<char>,
    replies: Seq<ReplyView>,
    more: Seq<ReplyView>,
    at: int,
)
    requires
        0 <= at,
    ensures
        keeps(
            replies.len(),
            at,
            renew_step(
                config,
                settings,
                store,
                project,
                watch_root,
                relative_root,
                name,
                replies,
                at,
            ),
            renew_step(
                config,
                settings,
                store,
                project,
                watch_root,
                relative_root,
                name,
                replies + more,
                at,
            ),
        ),
{
    let all = replies + more;
    full_capture_keeps(store, "trigger-reconcile"@, replies, more, at);
    if let StepView::Finished(_, n) = capture_full_step(
        store,
        "trigger-reconcile"@,
        all,
        at,
    ) {
        assert(keeps(
            replies.len(),
            n,
            register_step(
                config,
                settings,
                project,
                watch_root,
                relative_root,
                name,
                replies,
                n,
            ),
            register_step(
                config,
                settings,
                project,
                watch_root,
                relative_root,
                name,
                replies + more,
                n,
            ),
        ));
    }
}

#[verifier::rlimit(40)]
proof fn triggering_keeps(
    config: RuntimeView,
    settings: SettingsView,
    store: StoreView,
    project: Seq<char>,
    replies: Seq<ReplyView>,
    more: Seq<ReplyView>,
    at: int,
)
    requires
        0 <= at,
    ensures
        keeps(
            replies.len(),
            at,
            trigger_step(config, settings, store, project, replies, at),
            trigger_step(config, settings, store, project, replies + more, at),
        ),
{
    let all = replies + more;
    assert(keeps(
        replies.len(),
        at,
        watch_project_step(project, replies, at),
        watch_project_step(project, all, at),
    ));
    if let StepView::Finished((watch_root, relative_root), n) = watch_project_step(
        project,
        all,
        at,
    ) {
        let prefix = trigger_prefix(project);
        let name = prefix + fingerprint_of(settings);
        assert(keeps(
            replies.len(),
            n,
            list_triggers_step(watch_root, replies, n),
            list_triggers_step(watch_root, all, n),
        ));
        if let StepView::Finished(names, n) = list_triggers_step(watch_root, all, n) {
            sweeping_keeps(watch_root, prefix, name, names, replies, more, n);
            if let StepView::Finished(_, n) = sweep_step(
                watch_root,
                prefix,
                name,
                names,
                all,
                n,
            ) {
                renewing_keeps(
                    config,
                    settings,
                    store,
                    project,
                    watch_root,
                    relative_root,
                    name,
                    replies,
                    more,
                    n,
                );
            }
        }
    }
}

/// Registering a project does not depend on replies behind those it used.
#[verifier::rlimit(40)]
pub proof fn registering_keeps(
    config: RuntimeView,
    project: Seq<char>,
    replies: Seq<ReplyView>,
    more: Seq<ReplyView>,
    at: int,
)
    requires
        0 <= at,
    ensures
        keeps(
            replies.len(),
            at,
            ensure_project_step(config, project, replies, at),
            ensure_project_step(config, project, replies + more, at),
        ),
{
    let all = replies + more;
    opening_keeps(config, project, replies, more, at);
    if let StepView::Finished(settings, n) = project_settings_step(config, project, all, at) {
        opening_keeps(config, project, replies, more, n);
        if let StepView::Finished(store, n) = open_step(config, project, all, n) {
            head_keeps(store, replies, more, n);
            if let StepView::Finished(_, m) = has_history_step(store, all, n) {
                full_capture_keeps(store, "initial"@, replies, more, m);
            }
            if let StepView::Finished(_, n) = first_snapshot_step(store, project, all, n) {
                triggering_keeps(config, settings, store, project, replies, more, n);
            }
        }
    }
}

proof fn retiring_keeps(
    registrations: Seq<RegistrationView>,
    replies: Seq<ReplyView>,
    more: Seq<ReplyView>,
    at: int,
)
    requires
        0 <= at,
    ensures
        keeps(
            replies.len(),
            at,
            retire_all_step(registrations, replies, at),
            retire_all_step(registrations, replies + more, at),
        ),
    decreases registrations.len(),
{
    if registrations.len() > 0 {
        retiring_keeps(registrations.drop_last(), replies, more, at);
    }
}

proof fn ensuring_keeps(
    projects: Seq<Seq<char>>,
    replies: Seq<ReplyView>,
    more: Seq<ReplyView>,
    at: int,
)
    requires
        0 <= at,
    ensures
        keeps(
            replies.len(),
            at,
            ensure_all_step(projects, replies, at),
            ensure_all_step(projects, replies + more, at),
        ),
    decreases projects.len(),
{
    if projects.len() > 0 {
        ensuring_keeps(projects.drop_last(), replies, more, at);
    }
}

/// Reconciling does not depend on replies behind those it used, as long as the
/// exclusions come to the same.
#[verifier::rlimit(40)]
pub proof fn reconciling_keeps(
    config: RuntimeView,
    refusal: Option<Seq<char>>,
    excluded: Seq<bool>,
    replies: Seq<ReplyView>,
    more: Seq<ReplyView>,
    at: int,
)
    requires
        0 <= at,
    ensures
        keeps(
            replies.len(),
            at,
            reconcile_step(config, refusal, excluded, replies, at),
            reconcile_step(config, refusal, excluded, replies + more, at),
        ),
{
    let all = replies + more;
    assert(keeps(replies.len(), at, prepare_step(config, replies, at), prepare_step(config, all, at)));
    if let StepView::Finished(_, n) = prepare_step(config, all, at) {
        discovery_keeps(config, refusal, excluded, replies, more, n);
        if let StepView::Finished(projects, n) = discover_step(
            config,
            refusal,
            excluded,
            all,
            n,
        ) {
            assert(keeps(
                replies.len(),
                n,
                load_registry_step(config, replies, n),
                load_registry_step(config, all, n),
            ));
            if let StepView::Finished(previous, n) = load_registry_step(config, all, n) {
                let gone = stale(config.style, previous, projects);
                retiring_keeps(gone, replies, more, n);
                if let StepView::Finished(_, n) = retire_all_step(gone, all, n) {
                    ensuring_keeps(projects, replies, more, n);
                }
            }
        }
    }
}

/// What a trigger does does not depend on replies behind those it used.
pub proof fn trigger_capture_keeps(
    config: RuntimeView,
    project: Seq<char>,
    event: TriggerEventView,
    replies: Seq<ReplyView>,
    more: Seq<ReplyView>,
    at: int,
)
    requires
        0 <= at,
    ensures
        keeps(
            replies.len(),
            at,
            capture_trigger_step(config, project, event, replies, at),
            capture_trigger_step(config, project, event, replies + more, at),
        ),
{
    let all = replies + more;
    opening_keeps(config, project, replies, more, at);
    if let StepView::Finished(store, n) = open_step(config, project, all, at) {
        full_capture_keeps(store, event.source(), replies, more, n);
        head_keeps(store, replies, more, n);
        if let StepView::Finished(_, n) = has_history_step(store, all, n) {
            full_capture_keeps(store, event.source(), replies, more, n);
            if n < all.len() {
                if let ReplyView::Files(files) = all[n] {
                    path_capture_keeps(
                        store,
                        counting(files),
                        event.source(),
                        replies,
                        more,
                        n + 1,
                    );
                }
            }
        }
    }
}

} // verus!
