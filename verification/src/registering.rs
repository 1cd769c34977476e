//! Making sure that a project has a history and is watched.

use crate::capture::capture_full_step;
use crate::commit::has_history_step;
use crate::config::{
    project_settings_step, ProjectSettings, RuntimeConfig, RuntimeView, SettingsView,
};
use crate::git_store::{ProjectStore, StoreView};
use crate::opening::{id_of, open_step, project_id};
use crate::procedure::{tell, tell_step, Reply, ReplyView, Step, StepView};
use crate::text::{begins_with, join2, join3, same_text, starts_with};
use crate::watchman::{
    delete_trigger, delete_trigger_step, fingerprint_of, list_triggers, list_triggers_step,
    register_step, register_trigger, trigger_fingerprint, watch_project, watch_project_step,
    Registration, RegistrationView,
};
use vstd::prelude::*;
use vstd::utf8::{decode_utf8, encode_utf8, encode_utf8_decode_utf8, is_char_boundary};

verus! {

/// The beginning of a commit's name: twelve bytes of it, where they are text.
pub open spec fn short_of(hash: Seq<char>) -> Seq<char> {
    let bytes = encode_utf8(hash);
    if is_char_boundary(bytes, 12) {
        decode_utf8(bytes.subrange(0, 12))
    } else {
        hash
    }
}

/// The beginning of a commit's name.
pub fn short_hash(hash: &str) -> (short: String)
    ensures
        short@ == short_of(hash@),
{
    if hash.is_char_boundary(12) {
        let (short, _) = hash.split_at(12);
        proof {
            encode_utf8_decode_utf8(short@);
        }
        short.to_owned()
    } else {
        hash.to_owned()
    }
}

/// How the names of the triggers of a project begin.
pub open spec fn trigger_prefix(project: Seq<char>) -> Seq<char> {
    "yesterfile-"@ + id_of(project) + "-"@
}

/// Takes the first snapshot, where there is none.
pub open spec fn first_snapshot_step(
    store: StoreView,
    project: Seq<char>,
    replies: Seq<ReplyView>,
    at: int,
) -> StepView<()> {
    match has_history_step(store, replies, at) {
        StepView::Perform(a) => StepView::Perform(a),
        StepView::Failed(f) => StepView::Failed(f),
        StepView::Finished(true, n) => StepView::Finished((), n),
        StepView::Finished(false, n) => match capture_full_step(store, "initial"@, replies, n) {
            StepView::Perform(a) => StepView::Perform(a),
            StepView::Failed(f) => StepView::Failed(f),
            StepView::Finished(None, n) => StepView::Finished((), n),
            StepView::Finished(Some(commit), n) => tell_step(
                "initialized "@ + project + " at "@ + short_of(commit),
                replies,
                n,
            ),
        },
    }
}

/// Deletes the triggers of the project but for the one that is wanted, and
/// says whether that one is there.
pub open spec fn sweep_step(
    watch_root: Seq<char>,
    prefix: Seq<char>,
    wanted: Seq<char>,
    names: Seq<Seq<char>>,
    replies: Seq<ReplyView>,
    at: int,
) -> StepView<bool>
    decreases names.len(),
{
    if names.len() == 0 {
        StepView::Finished(false, at)
    } else {
        match sweep_step(watch_root, prefix, wanted, names.drop_last(), replies, at) {
            StepView::Perform(a) => StepView::Perform(a),
            StepView::Failed(f) => StepView::Failed(f),
            StepView::Finished(found, n) => if names.last() == wanted {
                StepView::Finished(true, n)
            } else if begins_with(names.last(), prefix) {
                match delete_trigger_step(watch_root, names.last(), replies, n) {
                    StepView::Perform(a) => StepView::Perform(a),
                    StepView::Failed(f) => StepView::Failed(f),
                    StepView::Finished(_, n) => StepView::Finished(found, n),
                }
            } else {
                StepView::Finished(found, n)
            },
        }
    }
}

/// Registers the trigger, behind a snapshot of the whole worktree: what the
/// filters let through may be something else than before.
pub open spec fn renew_step(
    config: RuntimeView,
    settings: SettingsView,
    store: StoreView,
    project: Seq<char>,
    watch_root: Seq<char>,
    relative_root: Option<Seq<char>>,
    name: Seq<char>,
    replies: Seq<ReplyView>,
    at: int,
) -> StepView<()> {
    match capture_full_step(store, "trigger-reconcile"@, replies, at) {
        StepView::Perform(a) => StepView::Perform(a),
        StepView::Failed(f) => StepView::Failed(f),
        StepView::Finished(_, n) => match register_step(
            config,
            settings,
            project,
            watch_root,
            relative_root,
            name,
            replies,
            n,
        ) {
            StepView::Perform(a) => StepView::Perform(a),
            StepView::Failed(f) => StepView::Failed(f),
            StepView::Finished(_, n) => tell_step("watching "@ + project, replies, n),
        },
    }
}

/// Makes sure that Watchman has the trigger of a project with these settings,
/// and no other of it.
pub open spec fn trigger_step(
    config: RuntimeView,
    settings: SettingsView,
    store: StoreView,
    project: Seq<char>,
    replies: Seq<ReplyView>,
    at: int,
) -> StepView<RegistrationView> {
    match watch_project_step(project, replies, at) {
        StepView::Perform(a) => StepView::Perform(a),
        StepView::Failed(f) => StepView::Failed(f),
        StepView::Finished((watch_root, relative_root), n) => {
            let prefix = trigger_prefix(project);
            let name = prefix + fingerprint_of(settings);
            let registration = RegistrationView { project, watch_root, trigger_name: name };
            match list_triggers_step(watch_root, replies, n) {
                StepView::Perform(a) => StepView::Perform(a),
                StepView::Failed(f) => StepView::Failed(f),
                StepView::Finished(names, n) => match sweep_step(
                    watch_root,
                    prefix,
                    name,
                    names,
                    replies,
                    n,
                ) {
                    StepView::Perform(a) => StepView::Perform(a),
                    StepView::Failed(f) => StepView::Failed(f),
                    StepView::Finished(true, n) => StepView::Finished(registration, n),
                    StepView::Finished(false, n) => match renew_step(
                        config,
                        settings,
                        store,
                        project,
                        watch_root,
                        relative_root,
                        name,
                        replies,
                        n,
                    ) {
                        StepView::Perform(a) => StepView::Perform(a),
                        StepView::Failed(f) => StepView::Failed(f),
                        StepView::Finished(_, n) => StepView::Finished(registration, n),
                    },
                },
            }
        },
    }
}

/// Makes sure that a project has a history and is watched.
pub open spec fn ensure_project_step(
    config: RuntimeView,
    project: Seq<char>,
    replies: Seq<ReplyView>,
    at: int,
) -> StepView<RegistrationView> {
    match project_settings_step(config, project, replies, at) {
        StepView::Perform(a) => StepView::Perform(a),
        StepView::Failed(f) => StepView::Failed(f),
        StepView::Finished(settings, n) => match open_step(config, project, replies, n) {
            StepView::Perform(a) => StepView::Perform(a),
            StepView::Failed(f) => StepView::Failed(f),
            StepView::Finished(store, n) => match first_snapshot_step(store, project, replies, n) {
                StepView::Perform(a) => StepView::Perform(a),
                StepView::Failed(f) => StepView::Failed(f),
                StepView::Finished(_, n) => trigger_step(
                    config,
                    settings,
                    store,
                    project,
                    replies,
                    n,
                ),
            },
        },
    }
}

fn first_snapshot(store: &ProjectStore, project: &str, replies: &Vec<Reply>, at: usize) -> (step:
    Step<()>)
    ensures
        step.deep_view() == first_snapshot_step(
            store.deep_view(),
            project@,
            replies.deep_view(),
            at as int,
        ),
{
    match store.has_history(replies, at) {
        Step::Perform(a) => Step::Perform(a),
        Step::Failed(f) => Step::Failed(f),
        Step::Finished(true, n) => Step::Finished((), n),
        Step::Finished(false, n) => match store.capture_full("initial", replies, n) {
            Step::Perform(a) => Step::Perform(a),
            Step::Failed(f) => Step::Failed(f),
            Step::Finished(None, n) => Step::Finished((), n),
            Step::Finished(Some(commit), n) => {
                let mut text = join3("initialized ", project, " at ");
                text.append(short_hash(commit.as_str()).as_str());
                tell(text, replies, n)
            },
        },
    }
}

proof fn sweep_stops_early(
    watch_root: Seq<char>,
    prefix: Seq<char>,
    wanted: Seq<char>,
    names: Seq<Seq<char>>,
    replies: Seq<ReplyView>,
    at: int,
    i: int,
)
    requires
        0 <= i <= names.len(),
        !(sweep_step(watch_root, prefix, wanted, names.take(i), replies, at) is Finished),
    ensures
        sweep_step(watch_root, prefix, wanted, names, replies, at) == sweep_step(
            watch_root,
            prefix,
            wanted,
            names.take(i),
            replies,
            at,
        ),
    decreases names.len() - i,
{
    if i < names.len() {
        assert(names.take(i + 1).drop_last() =~= names.take(i));
        sweep_stops_early(watch_root, prefix, wanted, names, replies, at, i + 1);
    } else {
        assert(names.take(i) =~= names);
    }
}

/// Deletes the triggers of the project but for the one that is wanted, and
/// says whether that one is there.
pub fn sweep_triggers(
    watch_root: &str,
    prefix: &str,
    wanted: &str,
    names: &Vec<String>,
    replies: &Vec<Reply>,
    at: usize,
) -> (step: Step<bool>)
    ensures
        step.deep_view() == sweep_step(
            watch_root@,
            prefix@,
            wanted@,
            names.deep_view(),
            replies.deep_view(),
            at as int,
        ),
{
    let ghost all = names.deep_view();
    let ghost given = replies.deep_view();
    let mut found = false;
    let mut n: usize = at;
    let mut i: usize = 0;
    while i < names.len()
        invariant
            i <= names@.len(),
            all == names.deep_view(),
            given == replies.deep_view(),
            sweep_step(watch_root@, prefix@, wanted@, all.take(i as int), given, at as int)
                == StepView::Finished(found, n as int),
        decreases names@.len() - i,
    {
        let name = names[i].as_str();
        proof {
            assert(all.take(i + 1).drop_last() =~= all.take(i as int));
            if !(sweep_step(watch_root@, prefix@, wanted@, all.take(i + 1), given, at as int)
                is Finished) {
                sweep_stops_early(watch_root@, prefix@, wanted@, all, given, at as int, i + 1);
            }
        }
        if same_text(name, wanted) {
            found = true;
        } else if starts_with(name, prefix) {
            match delete_trigger(watch_root, name, replies, n) {
                Step::Perform(a) => {
                    return Step::Perform(a);
                },
                Step::Failed(f) => {
                    return Step::Failed(f);
                },
                Step::Finished(_, used) => {
                    n = used;
                },
            }
        }
        i = i + 1;
    }
    assert(all.take(all.len() as int) =~= all);
    Step::Finished(found, n)
}

fn renew(
    config: &RuntimeConfig,
    settings: &ProjectSettings,
    store: &ProjectStore,
    project: &str,
    watch_root: &str,
    relative_root: &Option<String>,
    name: &str,
    replies: &Vec<Reply>,
    at: usize,
) -> (step: Step<()>)
    ensures
        step.deep_view() == renew_step(
            config.deep_view(),
            settings.deep_view(),
            store.deep_view(),
            project@,
            watch_root@,
            relative_root.deep_view(),
            name@,
            replies.deep_view(),
            at as int,
        ),
{
    match store.capture_full("trigger-reconcile", replies, at) {
        Step::Perform(a) => Step::Perform(a),
        Step::Failed(f) => Step::Failed(f),
        Step::Finished(_, n) => match register_trigger(
            config,
            settings,
            project,
            watch_root,
            relative_root,
            name,
            replies,
            n,
        ) {
            Step::Perform(a) => Step::Perform(a),
            Step::Failed(f) => Step::Failed(f),
            Step::Finished(_, n) => tell(join2("watching ", project), replies, n),
        },
    }
}

fn ensure_trigger(
    config: &RuntimeConfig,
    settings: &ProjectSettings,
    store: &ProjectStore,
    project: &str,
    replies: &Vec<Reply>,
    at: usize,
) -> (step: Step<Registration>)
    ensures
        step.deep_view() == trigger_step(
            config.deep_view(),
            settings.deep_view(),
            store.deep_view(),
            project@,
            replies.deep_view(),
            at as int,
        ),
{
    match watch_project(project, replies, at) {
        Step::Perform(a) => Step::Perform(a),
        Step::Failed(f) => Step::Failed(f),
        Step::Finished((watch_root, relative_root), n) => {
            let fingerprint = match trigger_fingerprint(settings) {
                Ok(fingerprint) => fingerprint,
                Err(f) => {
                    return Step::Failed(f);
                },
            };
            let prefix = join3("yesterfile-", project_id(project).as_str(), "-");
            let name = join2(prefix.as_str(), fingerprint.as_str());
            match list_triggers(watch_root.as_str(), replies, n) {
                Step::Perform(a) => Step::Perform(a),
                Step::Failed(f) => Step::Failed(f),
                Step::Finished(names, n) => {
                    let found = match sweep_triggers(
                        watch_root.as_str(),
                        prefix.as_str(),
                        name.as_str(),
                        &names,
                        replies,
                        n,
                    ) {
                        Step::Perform(a) => {
                            return Step::Perform(a);
                        },
                        Step::Failed(f) => {
                            return Step::Failed(f);
                        },
                        Step::Finished(found, n) => (found, n),
                    };
                    let n: usize = found.1;
                    let registration = Registration {
                        project: project.to_owned(),
                        watch_root: watch_root.clone(),
                        trigger_name: name.clone(),
                    };
                    if found.0 {
                        return Step::Finished(registration, n);
                    }
                    match renew(
                        config,
                        settings,
                        store,
                        project,
                        watch_root.as_str(),
                        &relative_root,
                        name.as_str(),
                        replies,
                        n,
                    ) {
                        Step::Perform(a) => Step::Perform(a),
                        Step::Failed(f) => Step::Failed(f),
                        Step::Finished(_, n) => Step::Finished(registration, n),
                    }
                },
            }
        },
    }
}

/// Makes sure that a project has a history and is watched.
pub fn ensure_project(
    config: &RuntimeConfig,
    project: &str,
    replies: &Vec<Reply>,
    at: usize,
) -> (step: Step<Registration>)
    ensures
        step.deep_view() == ensure_project_step(
            config.deep_view(),
            project@,
            replies.deep_view(),
            at as int,
        ),
{
    match config.project_settings(project, replies, at) {
        Step::Perform(a) => Step::Perform(a),
        Step::Failed(f) => Step::Failed(f),
        Step::Finished(settings, n) => match ProjectStore::open(config, project, replies, n) {
            Step::Perform(a) => Step::Perform(a),
            Step::Failed(f) => Step::Failed(f),
            Step::Finished(store, n) => match first_snapshot(&store, project, replies, n) {
                Step::Perform(a) => Step::Perform(a),
                Step::Failed(f) => Step::Failed(f),
                Step::Finished(_, n) => ensure_trigger(
                    config,
                    &settings,
                    &store,
                    project,
                    replies,
                    n,
                ),
            },
        },
    }
}

} // verus!
