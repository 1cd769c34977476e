//! Watchman's triggers, and the daemon.

use crate::capture::{capture_full_step, lock_file};
use crate::cli::{next_of, DaemonNextView};
use crate::commit::has_history_step;
use crate::config::{project_settings_step, RuntimeView, SettingsView};
use crate::discovery::discover_step;
use crate::git_store::StoreView;
use crate::json::{entry_of, text_array, JsonTree};
use crate::native::readable;
use crate::numbers::{decimal, hex, low_bytes};
use crate::opening::open_step;
use crate::outside::{json_of_text, sha256, text_of_json};
use crate::path_set::{holds_path, one_path};
use crate::paths::{components, joined, PathStyle};
use crate::procedure::{
    ActionView, AttemptView, FailureView, InvocationView, OutputView, ReplyView, StepView,
};
use crate::reconcile::{
    align_step, capture_trigger_step, counting, counts, ensure_all_step, load_registry_step,
    prepare_step, reconcile_step, retire_all_step, save_registry_step, stale, TriggerEventView,
};
use crate::registering::{
    ensure_project_step, first_snapshot_step, renew_step, sweep_step, trigger_prefix,
};
use crate::text::begins_with;
use crate::watchman::{
    at_depth, at_root, definition_of, delete_request, delete_trigger_step, directory_terms,
    expression_of, fingerprint_of, list_triggers_step, names_in, register_step, registry_file,
    trigger_request, watch_project_step, watchman_command, RegistrationView, TriggerView,
    WatchmanFileView,
};
use vstd::prelude::*;
use vstd::utf8::encode_utf8;

verus! {

/// The trigger's expression leaves out what lies below each ignored directory,
/// at the root of the worktree and at every other depth, and nothing else.
pub proof fn the_expression_covers_every_directory(directories: Seq<Seq<char>>)
    ensures
        directory_terms(directories).len() == 2 * directories.len(),
        forall|i: int|
            0 <= i < directories.len() ==> {
                &&& directory_terms(directories)[2 * i] == at_root(#[trigger] directories[i])
                &&& directory_terms(directories)[2 * i + 1] == at_depth(directories[i])
            },
        directories.len() > 0 ==> expression_of(directories) == JsonTree::Array(
            seq![
                JsonTree::Text("not"@),
                JsonTree::Array(seq![JsonTree::Text("anyof"@)] + directory_terms(directories)),
            ],
        ),
    decreases directories.len(),
{
    if directories.len() > 0 {
        let init = directories.drop_last();
        the_expression_covers_every_directory(init);
        assert forall|i: int| 0 <= i < directories.len() implies {
            &&& directory_terms(directories)[2 * i] == at_root(#[trigger] directories[i])
            &&& directory_terms(directories)[2 * i + 1] == at_depth(directories[i])
        } by {
            if i < init.len() {
                assert(init[i] == directories[i]);
                assert(directory_terms(directories)[2 * i] == directory_terms(init)[2 * i]);
                assert(directory_terms(directories)[2 * i + 1] == directory_terms(init)[2 * i + 1]);
            }
        }
    }
}

/// Whether an action asks Watchman to delete a trigger of the project other
/// than the one that is wanted.
pub open spec fn deletes_own(
    watch_root: Seq<char>,
    prefix: Seq<char>,
    wanted: Seq<char>,
    names: Seq<Seq<char>>,
    action: ActionView,
) -> bool {
    exists|i: int|
        0 <= i < names.len() && begins_with(#[trigger] names[i], prefix) && names[i] != wanted
            && asks_to_delete(watch_root, names[i], action)
}

/// Whether an action asks Watchman to delete a trigger.
pub open spec fn asks_to_delete(
    watch_root: Seq<char>,
    name: Seq<char>,
    action: ActionView,
) -> bool {
    asks_watchman(action, row(seq!["trigger-del"@, watch_root, name]))
}

proof fn a_deletion_is_asked_for(watch_root: Seq<char>, name: Seq<char>)
    ensures
        asks_to_delete(
            watch_root,
            name,
            ActionView::Run(watchman_command(text_of_json(delete_request(watch_root, name)))),
        ),
{
    text_arrays_are_rows(seq!["trigger-del"@, watch_root, name]);
    let text = text_of_json(row(seq!["trigger-del"@, watch_root, name]));
    assert(text.push(10u8) =~= text + seq![10u8]);
}

/// No trigger is deleted for a project but its own, and of those not the one
/// that is wanted.
pub proof fn only_own_triggers_are_swept(
    watch_root: Seq<char>,
    prefix: Seq<char>,
    wanted: Seq<char>,
    names: Seq<Seq<char>>,
    replies: Seq<ReplyView>,
    at: int,
)
    ensures
        sweep_step(watch_root, prefix, wanted, names, replies, at) matches StepView::Perform(a)
            ==> deletes_own(watch_root, prefix, wanted, names, a),
        sweep_step(watch_root, prefix, wanted, names, replies, at) matches StepView::Finished(
            found,
            _,
        ) ==> found == names.contains(wanted),
    decreases names.len(),
{
    if names.len() > 0 {
        let init = names.drop_last();
        let end = names.len() - 1;
        only_own_triggers_are_swept(watch_root, prefix, wanted, init, replies, at);
        if let StepView::Perform(a) = sweep_step(watch_root, prefix, wanted, names, replies, at) {
            if sweep_step(watch_root, prefix, wanted, init, replies, at) is Perform {
                let i = choose|i: int|
                    0 <= i < init.len() && begins_with(#[trigger] init[i], prefix) && init[i]
                        != wanted && asks_to_delete(watch_root, init[i], a);
                assert(names[i] == init[i]);
            } else {
                assert(begins_with(names[end], prefix));
                a_deletion_is_asked_for(watch_root, names[end]);
                assert(asks_to_delete(watch_root, names[end], a));
            }
        }
        if names.contains(wanted) {
            let k = choose|k: int| 0 <= k < names.len() && names[k] == wanted;
            if k < init.len() {
                assert(init[k] == wanted);
            }
        }
        if init.contains(wanted) {
            let k = choose|k: int| 0 <= k < init.len() && init[k] == wanted;
            assert(names[k] == wanted);
        }
        assert(names[end] == names.last());
    }
}

/// Whether, on the way to where it ended, a procedure asked Watchman to delete
/// a trigger.
pub open spec fn asked_to_delete<T>(
    so_far: spec_fn(int) -> StepView<T>,
    from: int,
    to: int,
    watch_root: Seq<char>,
    name: Seq<char>,
) -> bool {
    exists|m: int|
        from <= m < to && (#[trigger] so_far(m) matches StepView::Perform(action) && asks_to_delete(
            watch_root,
            name,
            action,
        ))
}

proof fn sweeping_takes_replies(
    watch_root: Seq<char>,
    prefix: Seq<char>,
    wanted: Seq<char>,
    names: Seq<Seq<char>>,
    replies: Seq<ReplyView>,
    at: int,
)
    requires
        0 <= at <= replies.len(),
    ensures
        sweep_step(watch_root, prefix, wanted, names, replies, at) matches StepView::Finished(_, n)
            ==> at <= n <= replies.len(),
    decreases names.len(),
{
    if names.len() > 0 {
        sweeping_takes_replies(watch_root, prefix, wanted, names.drop_last(), replies, at);
    }
}

proof fn sweeping_goes_on(
    watch_root: Seq<char>,
    prefix: Seq<char>,
    wanted: Seq<char>,
    names: Seq<Seq<char>>,
    replies: Seq<ReplyView>,
    at: int,
    m: int,
)
    requires
        0 <= at <= replies.len(),
        sweep_step(watch_root, prefix, wanted, names, replies, at) matches StepView::Finished(_, n)
            && n <= m <= replies.len(),
    ensures
        sweep_step(watch_root, prefix, wanted, names, replies.take(m), at) == sweep_step(
            watch_root,
            prefix,
            wanted,
            names,
            replies,
            at,
        ),
        at <= sweep_step(watch_root, prefix, wanted, names, replies, at)->Finished_1
            <= replies.len(),
    decreases names.len(),
{
    if names.len() > 0 {
        let init = names.drop_last();
        let before = sweep_step(watch_root, prefix, wanted, init, replies, at)->Finished_1;
        sweeping_goes_on(watch_root, prefix, wanted, init, replies, at, before);
        sweeping_goes_on(watch_root, prefix, wanted, init, replies, at, m);
        if before < m {
            assert(replies.take(m)[before] == replies[before]);
        }
    }
}

/// Of the triggers of a project every one is deleted but the one that is
/// wanted: what is left for the project is one trigger at most.
pub proof fn every_other_trigger_of_the_project_is_deleted(
    watch_root: Seq<char>,
    prefix: Seq<char>,
    wanted: Seq<char>,
    names: Seq<Seq<char>>,
    replies: Seq<ReplyView>,
    at: int,
    found: bool,
    n: int,
    i: int,
)
    requires
        0 <= at <= replies.len(),
        sweep_step(watch_root, prefix, wanted, names, replies, at) == StepView::Finished(found, n),
        0 <= i < names.len(),
        names[i] != wanted,
        prefix.len() <= names[i].len(),
        names[i].take(prefix.len() as int) == prefix,
    ensures
        asked_to_delete(
            |m: int| sweep_step(watch_root, prefix, wanted, names, replies.take(m), at),
            at,
            n,
            watch_root,
            names[i],
        ),
    decreases names.len(),
{
    let init = names.drop_last();
    let before = sweep_step(watch_root, prefix, wanted, init, replies, at)->Finished_1;
    let so_far = |m: int| sweep_step(watch_root, prefix, wanted, names, replies.take(m), at);
    sweeping_takes_replies(watch_root, prefix, wanted, init, replies, at);
    sweeping_takes_replies(watch_root, prefix, wanted, names, replies, at);
    sweeping_goes_on(watch_root, prefix, wanted, init, replies, at, before);
    sweeping_goes_on(watch_root, prefix, wanted, names, replies, at, n);
    if i < init.len() {
        let earlier = |m: int| sweep_step(watch_root, prefix, wanted, init, replies.take(m), at);
        assert(init[i] == names[i]);
        every_other_trigger_of_the_project_is_deleted(
            watch_root,
            prefix,
            wanted,
            init,
            replies,
            at,
            sweep_step(watch_root, prefix, wanted, init, replies, at)->Finished_0,
            before,
            i,
        );
        let m = choose|m: int|
            at <= m < before && (#[trigger] earlier(m) matches StepView::Perform(action)
                && asks_to_delete(watch_root, init[i], action));
        assert(so_far(m) == earlier(m));
    } else {
        a_deletion_is_asked_for(watch_root, names[i]);
        assert(so_far(before) matches StepView::Perform(action) && asks_to_delete(
            watch_root,
            names[i],
            action,
        ));
    }
}

/// Texts in a row, as JSON.
pub open spec fn row(words: Seq<Seq<char>>) -> JsonTree {
    JsonTree::Array(words.map_values(|word: Seq<char>| JsonTree::Text(word)))
}

/// Whether an action asks Watchman for this: it is run with `-j`, and gets the
/// request as a line of JSON.
pub open spec fn asks_watchman(action: ActionView, request: JsonTree) -> bool {
    action == ActionView::Run(
        InvocationView {
            program: "watchman"@,
            arguments: seq!["-j"@],
            environment: Seq::empty(),
            input: Some(text_of_json(request) + seq![10u8]),
        },
    )
}

/// Whether a term matches whole paths with this pattern, files with a leading
/// dot among them, and takes no character of it for an escape.
pub open spec fn matches_pattern(term: JsonTree, pattern: Seq<char>) -> bool {
    term matches JsonTree::Array(parts) && parts.len() == 4 && parts[0] == JsonTree::Text("match"@)
        && parts[1] == JsonTree::Text(pattern) && parts[2] == JsonTree::Text("wholename"@)
        && parts[3].member("includedotfiles"@) == Some(JsonTree::Bool(true))
        && parts[3].member("noescape"@) == Some(JsonTree::Bool(true))
}

/// Whether an expression is for everything but what lies below these
/// directories, at the root and at every other depth.
pub open spec fn leaves_out(expression: JsonTree, directories: Seq<Seq<char>>) -> bool {
    if directories.len() == 0 {
        expression == JsonTree::Text("true"@)
    } else {
        expression matches JsonTree::Array(parts) && parts.len() == 2 && parts[0]
            == JsonTree::Text("not"@) && (parts[1] matches JsonTree::Array(terms) && terms.len()
            == 2 * directories.len() + 1 && terms[0] == JsonTree::Text("anyof"@) && forall|i: int|
            0 <= i < directories.len() ==> {
                &&& matches_pattern(terms[2 * i + 1], #[trigger] directories[i] + "/**"@)
                &&& matches_pattern(terms[2 * i + 2], "**/"@ + directories[i] + "/**"@)
            })
    }
}

/// Whether a request registers, at a root that Watchman watches, a trigger that
/// runs a program for a project with a configuration, for everything but what
/// lies below these directories, and hands it the changes.
pub open spec fn registers(
    request: JsonTree,
    watch_root: Seq<char>,
    relative_root: Option<Seq<char>>,
    name: Seq<char>,
    executable: Seq<char>,
    config_path: Seq<char>,
    project: Seq<char>,
    directories: Seq<Seq<char>>,
) -> bool {
    request matches JsonTree::Array(parts) && parts.len() == 3 && parts[0] == JsonTree::Text(
        "trigger"@,
    ) && parts[1] == JsonTree::Text(watch_root) && {
        let trigger = parts[2];
        &&& trigger.member("name"@) == Some(JsonTree::Text(name))
        &&& trigger.member("command"@) == Some(
            row(
                seq![
                    executable,
                    "--config"@,
                    config_path,
                    "capture-trigger"@,
                    "--project"@,
                    project,
                ],
            ),
        )
        &&& trigger.member("expression"@) matches Some(expression) && leaves_out(
            expression,
            directories,
        )
        &&& trigger.member("stdin"@) == Some(row(seq!["name"@, "exists"@, "type"@, "size"@]))
        &&& trigger.member("max_files_stdin"@) == Some(JsonTree::Number(200000))
        &&& trigger.member("relative_root"@) == (match relative_root {
            Some(place) => Some(JsonTree::Text(place)),
            None => None,
        })
    }
}

proof fn terms_match(directory: Seq<char>)
    ensures
        matches_pattern(at_root(directory), directory + "/**"@),
        matches_pattern(at_depth(directory), "**/"@ + directory + "/**"@),
{
    reveal_strlit("includedotfiles");
    reveal_strlit("noescape");
    reveal_with_fuel(entry_of, 3);
    let options = seq![
        ("includedotfiles"@, JsonTree::Bool(true)),
        ("noescape"@, JsonTree::Bool(true)),
    ];
    assert(options.drop_first() =~= seq![("noescape"@, JsonTree::Bool(true))]);
    assert(entry_of(options, "includedotfiles"@) == Some(JsonTree::Bool(true)));
    assert(entry_of(options, "noescape"@) == Some(JsonTree::Bool(true)));
}

proof fn the_expression_leaves_out(directories: Seq<Seq<char>>)
    ensures
        leaves_out(expression_of(directories), directories),
{
    the_expression_covers_every_directory(directories);
    if directories.len() > 0 {
        let terms = seq![JsonTree::Text("anyof"@)] + directory_terms(directories);
        assert forall|i: int| 0 <= i < directories.len() implies {
            &&& matches_pattern(terms[2 * i + 1], #[trigger] directories[i] + "/**"@)
            &&& matches_pattern(terms[2 * i + 2], "**/"@ + directories[i] + "/**"@)
        } by {
            terms_match(directories[i]);
            assert(terms[2 * i + 1] == directory_terms(directories)[2 * i]);
            assert(terms[2 * i + 2] == directory_terms(directories)[2 * i + 1]);
            assert(directory_terms(directories)[2 * i] == at_root(directories[i]));
        }
    }
}

/// The definition of a trigger, entry by entry.
proof fn a_definition_says(trigger: TriggerView)
    ensures
        ({
            let definition = definition_of(trigger);
            &&& definition.member("name"@) == Some(JsonTree::Text(trigger.name))
            &&& definition.member("command"@) == Some(
                text_array(
                    seq![
                        trigger.executable,
                        "--config"@,
                        trigger.config_path,
                        "capture-trigger"@,
                        "--project"@,
                        trigger.project,
                    ],
                ),
            )
            &&& definition.member("expression"@) == Some(expression_of(trigger.ignore_directories))
            &&& definition.member("stdin"@) == Some(
                text_array(seq!["name"@, "exists"@, "type"@, "size"@]),
            )
            &&& definition.member("max_files_stdin"@) == Some(JsonTree::Number(200000))
            &&& definition.member("relative_root"@) == (match trigger.relative_root {
                Some(place) => Some(JsonTree::Text(place)),
                None => None,
            })
        }),
{
    reveal_strlit("name");
    reveal_strlit("command");
    reveal_strlit("expression");
    reveal_strlit("stdin");
    reveal_strlit("max_files_stdin");
    reveal_strlit("relative_root");
    let entries = definition_of(trigger)->Object_0;
    let one = entries.drop_first();
    let two = one.drop_first();
    let three = two.drop_first();
    let four = three.drop_first();
    let five = four.drop_first();
    assert(entries[0].0 == "name"@ && one[0].0 == "command"@ && two[0].0 == "expression"@
        && three[0].0 == "stdin"@ && four[0].0 == "max_files_stdin"@);
    assert(five.len() == entries.len() - 5);
    if trigger.relative_root is Some {
        assert(five[0].0 == "relative_root"@);
    }
    reveal_with_fuel(entry_of, 7);
}

/// A text array is a row of texts.
proof fn text_arrays_are_rows(words: Seq<Seq<char>>)
    ensures
        text_array(words) == row(words),
{
    assert(text_array(words)->Array_0 =~= row(words)->Array_0);
}

/// A trigger runs this program for the project that it is for, with the
/// configuration that it was registered under, and for everything but the
/// project's ignored directories: with `executable` where the program lies, that
/// is what Watchman is asked for, and nothing else is.
pub proof fn a_trigger_runs_the_program_for_its_project(
    config: RuntimeView,
    settings: SettingsView,
    project: Seq<char>,
    watch_root: Seq<char>,
    relative_root: Option<Seq<char>>,
    name: Seq<char>,
    executable: Seq<char>,
    replies: Seq<ReplyView>,
    at: int,
)
    requires
        0 <= at,
        at + 1 == replies.len(),
        replies[at] == ReplyView::Paths(seq![Some(executable)]),
        !executable.contains('\0'),
        !config.config_path.contains('\0'),
        !project.contains('\0'),
    ensures
        register_step(
            config,
            settings,
            project,
            watch_root,
            relative_root,
            name,
            replies.take(at),
            at,
        ) == StepView::<()>::Perform(ActionView::CurrentExecutable),
        register_step(
            config,
            settings,
            project,
            watch_root,
            relative_root,
            name,
            replies,
            at,
        ) matches StepView::Perform(action) && exists|request: JsonTree|
            #![trigger asks_watchman(action, request)]
            asks_watchman(action, request) && registers(
                request,
                watch_root,
                relative_root,
                name,
                executable,
                config.config_path,
                project,
                settings.ignore_directories,
            ),
{
    assert(seq![Some(executable)][0] == Some(executable));
    let trigger = TriggerView {
        name,
        executable,
        config_path: config.config_path,
        project,
        ignore_directories: settings.ignore_directories,
        relative_root,
    };
    let request = trigger_request(watch_root, definition_of(trigger));
    a_definition_says(trigger);
    the_expression_leaves_out(settings.ignore_directories);
    text_arrays_are_rows(
        seq![
            executable,
            "--config"@,
            config.config_path,
            "capture-trigger"@,
            "--project"@,
            project,
        ],
    );
    text_arrays_are_rows(seq!["name"@, "exists"@, "type"@, "size"@]);
    let step = register_step(
        config,
        settings,
        project,
        watch_root,
        relative_root,
        name,
        replies,
        at,
    );
    let text = text_of_json(request);
    assert(text.push(10u8) =~= text + seq![10u8]);
    assert(step is Perform);
    assert(asks_watchman(step->Perform_0, request));
}

/// Watchman is asked to watch a project, for the names of the triggers at a
/// root, and to delete a trigger there, in these words.
pub proof fn watchman_is_asked_in_these_words(
    project: Seq<char>,
    watch_root: Seq<char>,
    name: Seq<char>,
    replies: Seq<ReplyView>,
    at: int,
)
    requires
        replies.len() <= at,
    ensures
        !project.contains('\0') ==> (watch_project_step(project, replies, at)
            matches StepView::Perform(action) && asks_watchman(
            action,
            row(seq!["watch-project"@, project]),
        )),
        list_triggers_step(watch_root, replies, at) matches StepView::Perform(action)
            && asks_watchman(action, row(seq!["trigger-list"@, watch_root])),
        delete_trigger_step(watch_root, name, replies, at) matches StepView::Perform(action)
            && asks_watchman(action, row(seq!["trigger-del"@, watch_root, name])),
{
    text_arrays_are_rows(seq!["watch-project"@, project]);
    text_arrays_are_rows(seq!["trigger-list"@, watch_root]);
    text_arrays_are_rows(seq!["trigger-del"@, watch_root, name]);
    let one = text_of_json(row(seq!["watch-project"@, project]));
    let two = text_of_json(row(seq!["trigger-list"@, watch_root]));
    let three = text_of_json(row(seq!["trigger-del"@, watch_root, name]));
    assert(one.push(10u8) =~= one + seq![10u8]);
    assert(two.push(10u8) =~= two + seq![10u8]);
    assert(three.push(10u8) =~= three + seq![10u8]);
}

/// Where Watchman has no trigger for a project with its present filters, one is
/// registered behind a snapshot of the whole worktree; where it has, nothing is.
/// The trigger is that of the project's settings, and it is registered where
/// Watchman said that it watches the project.
#[verifier::rlimit(100)]
#[verifier::spinoff_prover]
pub proof fn a_project_has_the_trigger_of_its_settings(
    config: RuntimeView,
    project: Seq<char>,
    replies: Seq<ReplyView>,
    at: int,
    settings: SettingsView,
    decided: int,
    store: StoreView,
    opened: int,
    begun: int,
    watch_root: Seq<char>,
    relative_root: Option<Seq<char>>,
    watched: int,
    names: Seq<Seq<char>>,
    listed: int,
    swept: int,
    prefix: Seq<char>,
    name: Seq<char>,
    found: bool,
)
    requires
        prefix == "yesterfile-"@ + hex(sha256(encode_utf8(readable(project))).take(12)) + "-"@,
        name == prefix + hex(
            sha256(
                text_of_json(row(settings.ignore_directories)) + low_bytes(
                    if settings.max_file_size_mb * (1024 * 1024) <= u64::MAX {
                        (settings.max_file_size_mb * (1024 * 1024)) as nat
                    } else {
                        u64::MAX as nat
                    },
                    8,
                ),
            ).take(4),
        ),
        project_settings_step(config, project, replies, at) == StepView::Finished(
            settings,
            decided,
        ),
        open_step(config, project, replies, decided) == StepView::Finished(store, opened),
        first_snapshot_step(store, project, replies, opened) == StepView::<()>::Finished(
            (),
            begun,
        ),
        watch_project_step(project, replies, begun) == StepView::Finished(
            (watch_root, relative_root),
            watched,
        ),
        list_triggers_step(watch_root, replies, watched) == StepView::Finished(names, listed),
        sweep_step(watch_root, prefix, name, names, replies, listed) == StepView::Finished(
            found,
            swept,
        ),
    ensures
        ({
            let registration = RegistrationView { project, watch_root, trigger_name: name };
            let step = ensure_project_step(config, project, replies, at);
            if names.contains(name) {
                step == StepView::Finished(registration, swept)
            } else {
                match capture_full_step(store, "trigger-reconcile"@, replies, swept) {
                    StepView::Perform(action) => step == StepView::<RegistrationView>::Perform(
                        action,
                    ),
                    StepView::Failed(why) => step == StepView::<RegistrationView>::Failed(why),
                    StepView::Finished(_, n) => match register_step(
                        config,
                        settings,
                        project,
                        watch_root,
                        relative_root,
                        name,
                        replies,
                        n,
                    ) {
                        StepView::Perform(action) => step == StepView::<RegistrationView>::Perform(
                            action,
                        ),
                        StepView::Failed(why) => step == StepView::<RegistrationView>::Failed(why),
                        StepView::Finished(_, n) => step matches StepView::Finished(result, _)
                            ==> result == registration,
                    },
                }
            }
        }),
{
    only_own_triggers_are_swept(watch_root, prefix, name, names, replies, listed);
    text_arrays_are_rows(settings.ignore_directories);
    assert(name == prefix + fingerprint_of(settings));
}

/// The request that registering a project sends to Watchman has a command that
/// names the configuration that was loaded, behind `--config`, and the project,
/// behind `--project`, and an expression for everything but the directories that
/// the project's settings ignore: with `executable` where this program lies, it
/// is sent behind a snapshot of the whole worktree, where Watchman has no such
/// trigger yet.
#[verifier::rlimit(100)]
#[verifier::spinoff_prover]
pub proof fn registering_names_the_configuration_and_the_project(
    config: RuntimeView,
    project: Seq<char>,
    replies: Seq<ReplyView>,
    at: int,
    settings: SettingsView,
    decided: int,
    store: StoreView,
    opened: int,
    begun: int,
    watch_root: Seq<char>,
    relative_root: Option<Seq<char>>,
    watched: int,
    names: Seq<Seq<char>>,
    listed: int,
    swept: int,
    prefix: Seq<char>,
    name: Seq<char>,
    found: bool,
    captured: int,
    executable: Seq<char>,
)
    requires
        prefix == "yesterfile-"@ + hex(sha256(encode_utf8(readable(project))).take(12)) + "-"@,
        name == prefix + hex(
            sha256(
                text_of_json(row(settings.ignore_directories)) + low_bytes(
                    if settings.max_file_size_mb * (1024 * 1024) <= u64::MAX {
                        (settings.max_file_size_mb * (1024 * 1024)) as nat
                    } else {
                        u64::MAX as nat
                    },
                    8,
                ),
            ).take(4),
        ),
        project_settings_step(config, project, replies, at) == StepView::Finished(
            settings,
            decided,
        ),
        open_step(config, project, replies, decided) == StepView::Finished(store, opened),
        first_snapshot_step(store, project, replies, opened) == StepView::<()>::Finished(
            (),
            begun,
        ),
        watch_project_step(project, replies, begun) == StepView::Finished(
            (watch_root, relative_root),
            watched,
        ),
        list_triggers_step(watch_root, replies, watched) == StepView::Finished(names, listed),
        sweep_step(watch_root, prefix, name, names, replies, listed) == StepView::Finished(
            found,
            swept,
        ),
        !names.contains(name),
        capture_full_step(store, "trigger-reconcile"@, replies, swept) matches StepView::Finished(
            _,
            n,
        ) && n == captured,
        0 <= captured,
        captured + 1 == replies.len(),
        replies[captured] == ReplyView::Paths(seq![Some(executable)]),
        !executable.contains('\0'),
        !config.config_path.contains('\0'),
        !project.contains('\0'),
    ensures
        ensure_project_step(config, project, replies, at) matches StepView::Perform(action)
            && exists|request: JsonTree|
            #![trigger asks_watchman(action, request)]
            asks_watchman(action, request) && registers(
                request,
                watch_root,
                relative_root,
                name,
                executable,
                config.config_path,
                project,
                settings.ignore_directories,
            ),
{
    a_project_has_the_trigger_of_its_settings(
        config,
        project,
        replies,
        at,
        settings,
        decided,
        store,
        opened,
        begun,
        watch_root,
        relative_root,
        watched,
        names,
        listed,
        swept,
        prefix,
        name,
        found,
    );
    a_trigger_runs_the_program_for_its_project(
        config,
        settings,
        project,
        watch_root,
        relative_root,
        name,
        executable,
        replies,
        captured,
    );
}

/// A project gets its first snapshot when it is first seen, and none for that
/// where it has one.
pub proof fn a_project_has_a_first_snapshot(
    store: StoreView,
    project: Seq<char>,
    replies: Seq<ReplyView>,
    at: int,
    has_one: bool,
    n: int,
)
    requires
        has_history_step(store, replies, at) == StepView::Finished(has_one, n),
    ensures
        has_one ==> first_snapshot_step(store, project, replies, at) == StepView::<()>::Finished(
            (),
            n,
        ),
        !has_one ==> match capture_full_step(store, "initial"@, replies, n) {
            StepView::Perform(action) => first_snapshot_step(store, project, replies, at)
                == StepView::<()>::Perform(action),
            StepView::Failed(why) => first_snapshot_step(store, project, replies, at)
                == StepView::<()>::Failed(why),
            StepView::Finished(None, m) => first_snapshot_step(store, project, replies, at)
                == StepView::<()>::Finished((), m),
            StepView::Finished(Some(_), m) => {
                &&& m >= replies.len() ==> (first_snapshot_step(store, project, replies, at)
                    matches StepView::Perform(ActionView::Tell(_)))
                &&& m < replies.len() ==> first_snapshot_step(store, project, replies, at)
                    == StepView::<()>::Finished((), m + 1)
            },
        },
{
}

/// The registrations that are stale are those whose project is not one of the
/// worktrees to watch.
pub proof fn stale_registrations_are(
    style: PathStyle,
    previous: Seq<RegistrationView>,
    projects: Seq<Seq<char>>,
    registration: RegistrationView,
)
    ensures
        stale(style, previous, projects).contains(registration) <==> previous.contains(registration)
            && forall|i: int|
            0 <= i < projects.len() ==> components(style, #[trigger] projects[i]) != components(
                style,
                registration.project,
            ),
    decreases previous.len(),
{
    if previous.len() > 0 {
        let init = previous.drop_last();
        stale_registrations_are(style, init, projects, registration);
        assert(holds_path(style, projects, registration.project) <==> exists|i: int|
            0 <= i < projects.len() && components(style, #[trigger] projects[i]) == components(
                style,
                registration.project,
            )) by {
            if holds_path(style, projects, registration.project) {
                let i = choose|i: int|
                    0 <= i < projects.len() && one_path(
                        style,
                        #[trigger] projects[i],
                        registration.project,
                    );
                assert(components(style, projects[i]) == components(style, registration.project));
            }
            if exists|i: int|
                0 <= i < projects.len() && components(style, #[trigger] projects[i]) == components(
                    style,
                    registration.project,
                ) {
                let i = choose|i: int|
                    0 <= i < projects.len() && components(style, #[trigger] projects[i])
                        == components(style, registration.project);
                assert(one_path(style, projects[i], registration.project));
            }
        }
        let before = stale(style, init, projects);
        let now = stale(style, previous, projects);
        if previous.contains(registration) {
            let k = choose|k: int| 0 <= k < previous.len() && previous[k] == registration;
            if k < init.len() {
                assert(init[k] == registration);
            }
        }
        if init.contains(registration) {
            let k = choose|k: int| 0 <= k < init.len() && init[k] == registration;
            assert(previous[k] == registration);
        }
        assert(previous[previous.len() - 1] == previous.last());
        if !holds_path(style, projects, previous.last().project) {
            assert(now =~= before.push(previous.last()));
            if before.contains(registration) {
                let k = choose|k: int| 0 <= k < before.len() && before[k] == registration;
                assert(now[k] == registration);
            }
            assert(now[before.len() as int] == previous.last());
            if now.contains(registration) {
                let k = choose|k: int| 0 <= k < now.len() && now[k] == registration;
                assert(k < before.len() ==> before[k] == registration);
            }
        }
    }
}

/// Whether an action deletes the trigger of one of the registrations, or tells
/// the user that it could not be deleted.
pub open spec fn retires_one(registrations: Seq<RegistrationView>, action: ActionView) -> bool {
    exists|i: int|
        0 <= i < registrations.len() && (asks_to_delete(
            (#[trigger] registrations[i]).watch_root,
            registrations[i].trigger_name,
            action,
        ) || (action matches ActionView::Report(text, _) && text
            == "failed to remove stale trigger "@ + registrations[i].trigger_name))
}

/// Retiring registrations deletes their triggers and no other, and no failure
/// stops it.
pub proof fn retiring_deletes_only_the_stale_triggers(
    registrations: Seq<RegistrationView>,
    replies: Seq<ReplyView>,
    at: int,
)
    ensures
        retire_all_step(registrations, replies, at) matches StepView::Perform(a) ==> retires_one(
            registrations,
            a,
        ),
        !(retire_all_step(registrations, replies, at) is Failed),
    decreases registrations.len(),
{
    if registrations.len() > 0 {
        let init = registrations.drop_last();
        let end = registrations.len() - 1;
        retiring_deletes_only_the_stale_triggers(init, replies, at);
        if let StepView::Perform(a) = retire_all_step(registrations, replies, at) {
            if retire_all_step(init, replies, at) is Perform {
                let i = choose|i: int|
                    0 <= i < init.len() && (asks_to_delete(
                        (#[trigger] init[i]).watch_root,
                        init[i].trigger_name,
                        a,
                    ) || (a matches ActionView::Report(text, _) && text
                        == "failed to remove stale trigger "@ + init[i].trigger_name));
                assert(registrations[i] == init[i]);
            } else {
                assert(registrations[end] == registrations.last());
                a_deletion_is_asked_for(
                    registrations[end].watch_root,
                    registrations[end].trigger_name,
                );
            }
        }
    }
}

proof fn retiring_takes_replies(
    registrations: Seq<RegistrationView>,
    replies: Seq<ReplyView>,
    at: int,
)
    requires
        0 <= at <= replies.len(),
    ensures
        retire_all_step(registrations, replies, at) matches StepView::Finished(_, n) ==> at <= n
            <= replies.len(),
    decreases registrations.len(),
{
    if registrations.len() > 0 {
        retiring_takes_replies(registrations.drop_last(), replies, at);
    }
}

proof fn retiring_goes_on(
    registrations: Seq<RegistrationView>,
    replies: Seq<ReplyView>,
    at: int,
    m: int,
)
    requires
        0 <= at <= replies.len(),
        retire_all_step(registrations, replies, at) matches StepView::Finished(_, n) && n <= m
            <= replies.len(),
    ensures
        retire_all_step(registrations, replies.take(m), at) == retire_all_step(
            registrations,
            replies,
            at,
        ),
        at <= retire_all_step(registrations, replies, at)->Finished_1 <= replies.len(),
    decreases registrations.len(),
{
    if registrations.len() > 0 {
        let init = registrations.drop_last();
        let before = retire_all_step(init, replies, at)->Finished_1;
        retiring_goes_on(init, replies, at, before);
        retiring_goes_on(init, replies, at, m);
        if before < m {
            assert(replies.take(m)[before] == replies[before]);
        }
    }
}

/// Every stale trigger is deleted at the root where it was registered, whatever
/// comes of the others.
pub proof fn every_stale_trigger_is_deleted(
    registrations: Seq<RegistrationView>,
    replies: Seq<ReplyView>,
    at: int,
    n: int,
    i: int,
)
    requires
        0 <= at <= replies.len(),
        retire_all_step(registrations, replies, at) == StepView::<()>::Finished((), n),
        0 <= i < registrations.len(),
    ensures
        asked_to_delete(
            |m: int| retire_all_step(registrations, replies.take(m), at),
            at,
            n,
            registrations[i].watch_root,
            registrations[i].trigger_name,
        ),
    decreases registrations.len(),
{
    let init = registrations.drop_last();
    let before = retire_all_step(init, replies, at)->Finished_1;
    let so_far = |m: int| retire_all_step(registrations, replies.take(m), at);
    let place = registrations[i].watch_root;
    let name = registrations[i].trigger_name;
    retiring_deletes_only_the_stale_triggers(init, replies, at);
    retiring_takes_replies(init, replies, at);
    retiring_takes_replies(registrations, replies, at);
    retiring_goes_on(init, replies, at, before);
    retiring_goes_on(registrations, replies, at, n);
    if i < init.len() {
        let earlier = |m: int| retire_all_step(init, replies.take(m), at);
        assert(init[i] == registrations[i]);
        every_stale_trigger_is_deleted(init, replies, at, before, i);
        let m = choose|m: int|
            at <= m < before && (#[trigger] earlier(m) matches StepView::Perform(action)
                && asks_to_delete(place, name, action));
        assert(so_far(m) == earlier(m));
    } else {
        a_deletion_is_asked_for(place, name);
        assert(so_far(before) matches StepView::Perform(action) && asks_to_delete(
            place,
            name,
            action,
        ));
    }
}

/// The registry of a configuration is a file of its own below the state
/// directory: what is there is read, and nothing is registered where there is
/// none.
pub proof fn the_registry_is_kept_for_the_configuration(
    config: RuntimeView,
    replies: Seq<ReplyView>,
    at: int,
    list: Seq<RegistrationView>,
)
    requires
        0 <= at,
    ensures
        ({
            let file = joined(
                config.style,
                config.state_dir,
                "registrations-"@ + hex(sha256(encode_utf8(readable(config.config_path))).take(6))
                    + ".json"@,
            );
            let step = load_registry_step(config, replies, at);
            &&& registry_file(config) == file
            &&& at >= replies.len() ==> step == StepView::<Seq<RegistrationView>>::Perform(
                ActionView::Exists(file),
            )
            &&& at < replies.len() && replies[at] == ReplyView::Flags(seq![false]) ==> step
                == StepView::Finished(Seq::<RegistrationView>::empty(), at + 1)
            &&& at + 1 == replies.len() && replies[at] == ReplyView::Flags(seq![true]) ==> step
                == StepView::<Seq<RegistrationView>>::Perform(ActionView::ReadRegistry(file))
            &&& at + 1 < replies.len() && replies[at] == ReplyView::Flags(seq![true])
                && replies[at + 1] == ReplyView::Registry(list) ==> step == StepView::Finished(
                list,
                at + 2,
            )
        }),
{
    assert(seq![true][0]);
    assert(!seq![false][0]);
}

/// Before anything is brought in step, Git and Watchman are tried, and there
/// are directories for the state and for the histories that are for the user
/// alone, where the file system knows of such a thing.
pub proof fn reconciling_needs_git_and_watchman(
    config: RuntimeView,
    refusal: Option<Seq<char>>,
    excluded: Seq<bool>,
    replies: Seq<ReplyView>,
    at: int,
)
    requires
        0 <= at,
        forall|i: int|
            at + 2 <= i < replies.len() && i < at + 6 ==> #[trigger] replies[i] is Done,
    ensures
        ({
            let step = reconcile_step(config, refusal, excluded, replies, at);
            let repositories = joined(config.style, config.store_dir, "repos"@);
            &&& at >= replies.len() ==> step == StepView::<usize>::Perform(
                ActionView::Run(
                    InvocationView {
                        program: "git"@,
                        arguments: seq!["--version"@],
                        environment: Seq::empty(),
                        input: None,
                    },
                ),
            )
            &&& at < replies.len() ==> (replies[at] matches ReplyView::Output(git) ==> {
                &&& !git.success() ==> step == StepView::<usize>::Failed(
                    FailureView::Required { command: "git"@, code: git.code },
                )
                &&& git.success() && at + 1 == replies.len() ==> step == StepView::<
                    usize,
                >::Perform(
                    ActionView::Run(
                        InvocationView {
                            program: "watchman"@,
                            arguments: seq!["version"@],
                            environment: Seq::empty(),
                            input: None,
                        },
                    ),
                )
                &&& git.success() && at + 1 < replies.len() ==> (
                replies[at + 1] matches ReplyView::Output(watchman) ==> {
                    &&& !watchman.success() ==> step == StepView::<usize>::Failed(
                        FailureView::Required { command: "watchman"@, code: watchman.code },
                    )
                    &&& watchman.success() && at + 2 == replies.len() ==> step == StepView::<
                        usize,
                    >::Perform(ActionView::CreateDirectory(config.state_dir))
                    &&& watchman.success() && at + 3 == replies.len() ==> step == StepView::<
                        usize,
                    >::Perform(
                        if config.style == PathStyle::Posix {
                            ActionView::SecureDirectory(config.state_dir)
                        } else {
                            ActionView::CreateDirectory(repositories)
                        },
                    )
                    &&& watchman.success() && at + 4 == replies.len() && config.style
                        == PathStyle::Posix ==> step == StepView::<usize>::Perform(
                        ActionView::CreateDirectory(repositories),
                    )
                    &&& watchman.success() && at + 5 == replies.len() && config.style
                        == PathStyle::Posix ==> step == StepView::<usize>::Perform(
                        ActionView::SecureDirectory(repositories),
                    )
                    &&& watchman.success() && at + 6 <= replies.len() && config.style
                        == PathStyle::Posix ==> prepare_step(config, replies, at) == StepView::<
                        (),
                    >::Finished((), at + 6)
                })
            })
        }),
{
    if at + 2 < replies.len() {
        assert(replies[at + 2] is Done);
    }
    if at + 3 < replies.len() {
        assert(replies[at + 3] is Done);
    }
    if at + 4 < replies.len() {
        assert(replies[at + 4] is Done);
    }
    if at + 5 < replies.len() {
        assert(replies[at + 5] is Done);
    }
}

/// What Watchman answers is taken as it is: an error ends the request, a watch
/// is at the root that it names, with the way from there to the project where
/// there is one, and the triggers at a root are those that it lists.
pub proof fn watchman_is_taken_at_its_word(
    project: Seq<char>,
    watch_root: Seq<char>,
    replies: Seq<ReplyView>,
    at: int,
    output: OutputView,
    response: JsonTree,
)
    requires
        0 <= at < replies.len(),
        replies[at] == ReplyView::Output(output),
        output.success(),
        json_of_text(output.stdout) == Ok::<JsonTree, Seq<char>>(response),
        !project.contains('\0'),
    ensures
        response.member("error"@) matches Some(JsonTree::Text(error)) ==> {
            &&& watch_project_step(project, replies, at) == StepView::<
                (Seq<char>, Option<Seq<char>>),
            >::Failed(FailureView::Watchman(error))
            &&& list_triggers_step(watch_root, replies, at) == StepView::<Seq<Seq<char>>>::Failed(
                FailureView::Watchman(error),
            )
        },
        !(response.member("error"@) matches Some(JsonTree::Text(_))) ==> {
            &&& (match response.member("watch"@) {
                Some(JsonTree::Text(root)) => watch_project_step(project, replies, at)
                    == StepView::Finished(
                    (
                        root,
                        match response.member("relative_path"@) {
                            Some(JsonTree::Text(place)) => Some(place),
                            _ => None,
                        },
                    ),
                    at + 1,
                ),
                _ => watch_project_step(project, replies, at) == StepView::<
                    (Seq<char>, Option<Seq<char>>),
                >::Failed(FailureView::NoWatchRoot),
            })
            &&& list_triggers_step(watch_root, replies, at) matches StepView::Finished(names, n)
                && n == at + 1 && forall|name: Seq<char>| #[trigger]
                names.contains(name) <==> (response.member("triggers"@) matches Some(
                    JsonTree::Array(triggers),
                ) && exists|i: int|
                    0 <= i < triggers.len() && (#[trigger] triggers[i]).member("name"@) == Some(
                        JsonTree::Text(name),
                    ))
        },
{
    let triggers = response.array_member("triggers"@);
    assert forall|name: Seq<char>| #[trigger] names_in(triggers).contains(name) <==> exists|i: int|
        0 <= i < triggers.len() && (#[trigger] triggers[i]).member("name"@) == Some(
            JsonTree::Text(name),
        ) by {
        names_are_those_listed(triggers, name);
    }
}

proof fn names_are_those_listed(triggers: Seq<JsonTree>, name: Seq<char>)
    ensures
        names_in(triggers).contains(name) <==> exists|i: int|
            0 <= i < triggers.len() && (#[trigger] triggers[i]).member("name"@) == Some(
                JsonTree::Text(name),
            ),
    decreases triggers.len(),
{
    if triggers.len() > 0 {
        let init = triggers.drop_last();
        let end = triggers.len() - 1;
        let before = names_in(init);
        let now = names_in(triggers);
        names_are_those_listed(init, name);
        if now.contains(name) {
            let k = choose|k: int| 0 <= k < now.len() && now[k] == name;
            if k < before.len() {
                assert(before[k] == name);
                assert(before.contains(name));
                let i = choose|i: int|
                    0 <= i < init.len() && (#[trigger] init[i]).member("name"@) == Some(
                        JsonTree::Text(name),
                    );
                assert(triggers[i] == init[i]);
            } else {
                assert(triggers[end].member("name"@) == Some(JsonTree::Text(name)));
            }
        }
        if exists|i: int|
            0 <= i < triggers.len() && (#[trigger] triggers[i]).member("name"@) == Some(
                JsonTree::Text(name),
            ) {
            let i = choose|i: int|
                0 <= i < triggers.len() && (#[trigger] triggers[i]).member("name"@) == Some(
                    JsonTree::Text(name),
                );
            if i < init.len() {
                assert(init[i] == triggers[i]);
                assert(before.contains(name));
                let k = choose|k: int| 0 <= k < before.len() && before[k] == name;
                assert(now[k] == name);
            } else {
                assert(now[before.len() as int] == name);
            }
        }
    }
}

/// What is registered by these answers, in order.
pub open spec fn registered(answers: Seq<AttemptView<RegistrationView>>) -> Seq<RegistrationView>
    decreases answers.len(),
{
    if answers.len() == 0 {
        Seq::empty()
    } else {
        match answers.last() {
            AttemptView::Success(registration) => registered(answers.drop_last()).push(
                registration,
            ),
            AttemptView::Failure(_) => registered(answers.drop_last()),
        }
    }
}

/// How many replies these answers take: what failed is reported, and that has
/// a reply of its own.
pub open spec fn taken(answers: Seq<AttemptView<RegistrationView>>) -> nat
    decreases answers.len(),
{
    if answers.len() == 0 {
        0
    } else {
        match answers.last() {
            AttemptView::Success(_) => taken(answers.drop_last()) + 1,
            AttemptView::Failure(_) => taken(answers.drop_last()) + 2,
        }
    }
}

/// A project that cannot be registered does not keep the others from being
/// registered: what is registered is what the answers say, one for each
/// project, in order.
#[verifier::rlimit(100)]
#[verifier::spinoff_prover]
pub proof fn every_project_is_tried(
    projects: Seq<Seq<char>>,
    answers: Seq<AttemptView<RegistrationView>>,
    replies: Seq<ReplyView>,
    at: int,
)
    requires
        0 <= at,
        answers.len() == projects.len(),
        at + taken(answers) <= replies.len(),
        forall|i: int|
            0 <= i < answers.len() ==> replies[at + taken(answers.take(i))]
                == ReplyView::Registered(#[trigger] answers[i]),
    ensures
        ensure_all_step(projects, replies, at) == StepView::Finished(
            registered(answers),
            at + taken(answers),
        ),
    decreases projects.len(),
{
    if projects.len() > 0 {
        let end = projects.len() - 1;
        let init = answers.drop_last();
        assert forall|i: int| 0 <= i < init.len() implies replies[at + taken(init.take(i))]
            == ReplyView::Registered(#[trigger] init[i]) by {
            assert(init[i] == answers[i]);
            assert(init.take(i) =~= answers.take(i));
        }
        every_project_is_tried(projects.drop_last(), init, replies, at);
        assert(answers.take(end) =~= init);
        assert(replies[at + taken(init)] == ReplyView::Registered(answers[end]));
    }
}

/// The projects are made sure of one behind the other: with answers for the
/// first of them, the next one is asked for.
pub proof fn the_projects_are_asked_for_in_order(
    projects: Seq<Seq<char>>,
    answers: Seq<AttemptView<RegistrationView>>,
    replies: Seq<ReplyView>,
    at: int,
)
    requires
        0 <= at,
        answers.len() < projects.len(),
        answered(answers, replies, at),
        at + taken(answers) == replies.len(),
    ensures
        ensure_all_step(projects, replies, at) == StepView::<Seq<RegistrationView>>::Perform(
            ActionView::EnsureProject(projects[answers.len() as int]),
        ),
    decreases projects.len(),
{
    let init = projects.drop_last();
    if answers.len() == init.len() {
        every_project_is_tried(init, answers, replies, at);
        assert(projects[answers.len() as int] == projects.last());
    } else {
        the_projects_are_asked_for_in_order(init, answers, replies, at);
        assert(init[answers.len() as int] == projects[answers.len() as int]);
    }
}

/// What came of a project, when making sure of it with these replies has ended.
#[verifier::opaque]
pub open spec fn end_of(config: RuntimeView, project: Seq<char>, own: Seq<ReplyView>) -> Option<
    AttemptView<RegistrationView>,
> {
    match ensure_project_step(config, project, own, 0) {
        StepView::Perform(_) => None,
        StepView::Failed(why) => Some(AttemptView::Failure(why)),
        StepView::Finished(registration, _) => Some(AttemptView::Success(registration)),
    }
}

/// Whether these answers are what came of the projects, each with replies of
/// its own.
pub open spec fn came_of(
    config: RuntimeView,
    projects: Seq<Seq<char>>,
    own: Seq<Seq<ReplyView>>,
    answers: Seq<AttemptView<RegistrationView>>,
) -> bool {
    &&& own.len() == projects.len()
    &&& answers.len() == projects.len()
    &&& forall|i: int|
        0 <= i < projects.len() ==> end_of(config, #[trigger] projects[i], own[i]) == Some(
            answers[i],
        )
}

/// Whether the answers stand one behind the other among the replies, each that
/// says why a project is not watched with the reply to the report behind it.
pub open spec fn answered(
    answers: Seq<AttemptView<RegistrationView>>,
    replies: Seq<ReplyView>,
    at: int,
) -> bool {
    &&& at + taken(answers) <= replies.len()
    &&& forall|i: int|
        0 <= i < answers.len() ==> replies[at + taken(answers.take(i))] == ReplyView::Registered(
            #[trigger] answers[i],
        )
}

/// The registration of a project names the project, and the trigger that its
/// settings lead to.
pub proof fn a_registration_is_of_its_project(
    config: RuntimeView,
    project: Seq<char>,
    replies: Seq<ReplyView>,
    at: int,
    registration: RegistrationView,
    n: int,
)
    requires
        ensure_project_step(config, project, replies, at) == StepView::Finished(registration, n),
    ensures
        registration.project == project,
        project_settings_step(config, project, replies, at) matches StepView::Finished(settings, _)
            && registration.trigger_name == trigger_prefix(project) + fingerprint_of(settings),
{
}

proof fn registered_are(
    answers: Seq<AttemptView<RegistrationView>>,
    registration: RegistrationView,
)
    ensures
        registered(answers).contains(registration) <==> answers.contains(
            AttemptView::Success(registration),
        ),
    decreases answers.len(),
{
    if answers.len() > 0 {
        let wanted = AttemptView::Success(registration);
        let init = answers.drop_last();
        let before = registered(init);
        let now = registered(answers);
        let end = answers.len() - 1;
        registered_are(init, registration);
        if now.contains(registration) {
            let k = choose|k: int| 0 <= k < now.len() && now[k] == registration;
            if k < before.len() {
                assert(before[k] == registration);
                let i = choose|i: int| 0 <= i < init.len() && init[i] == wanted;
                assert(answers[i] == wanted);
            } else {
                assert(answers[end] == wanted);
            }
        }
        if answers.contains(wanted) {
            let i = choose|i: int| 0 <= i < answers.len() && answers[i] == wanted;
            if i < end {
                assert(init[i] == wanted);
                let k = choose|k: int| 0 <= k < before.len() && before[k] == registration;
                assert(now[k] == registration);
            } else {
                assert(now[before.len() as int] == registration);
            }
        }
    }
}

proof fn what_is_registered_came_of_a_project(
    config: RuntimeView,
    projects: Seq<Seq<char>>,
    own: Seq<Seq<ReplyView>>,
    answers: Seq<AttemptView<RegistrationView>>,
)
    requires
        came_of(config, projects, own, answers),
    ensures
        forall|registration: RegistrationView| #[trigger]
            registered(answers).contains(registration) <==> exists|i: int|
                0 <= i < projects.len() && end_of(config, #[trigger] projects[i], own[i]) == Some(
                    AttemptView::Success(registration),
                ),
        forall|registration: RegistrationView| #[trigger]
            registered(answers).contains(registration) ==> projects.contains(registration.project),
{
    assert forall|registration: RegistrationView| #[trigger]
        registered(answers).contains(registration) <==> exists|i: int|
            0 <= i < projects.len() && end_of(config, #[trigger] projects[i], own[i]) == Some(
                AttemptView::Success(registration),
            ) by {
        let wanted = AttemptView::Success(registration);
        registered_are(answers, registration);
        if answers.contains(wanted) {
            let i = choose|i: int| 0 <= i < answers.len() && answers[i] == wanted;
            assert(end_of(config, projects[i], own[i]) == Some(wanted));
        }
    }
    assert forall|registration: RegistrationView| #[trigger]
        registered(answers).contains(registration) implies projects.contains(
        registration.project,
    ) by {
        let i = choose|i: int|
            0 <= i < projects.len() && end_of(config, #[trigger] projects[i], own[i]) == Some(
                AttemptView::Success(registration),
            );
        a_success_is_of_its_project(config, projects[i], own[i], registration);
    }
}

proof fn a_success_is_of_its_project(
    config: RuntimeView,
    project: Seq<char>,
    own: Seq<ReplyView>,
    registration: RegistrationView,
)
    requires
        end_of(config, project, own) == Some(AttemptView::Success(registration)),
    ensures
        registration.project == project,
{
    reveal(end_of);
    let n = ensure_project_step(config, project, own, 0)->Finished_1;
    a_registration_is_of_its_project(config, project, own, 0, registration, n);
}

/// Where each answer is what came of its project, the registry that is written
/// holds the registrations of exactly those projects for which it came to one,
/// in the order of the projects; and no project that came to none keeps the
/// triggers from being brought in step.
pub proof fn the_registry_is_what_came_of_the_projects(
    config: RuntimeView,
    projects: Seq<Seq<char>>,
    own: Seq<Seq<ReplyView>>,
    answers: Seq<AttemptView<RegistrationView>>,
    previous: Seq<RegistrationView>,
    replies: Seq<ReplyView>,
    at: int,
    loaded: int,
    retired: int,
)
    requires
        came_of(config, projects, own, answers),
        load_registry_step(config, replies, at) == StepView::Finished(previous, loaded),
        retire_all_step(stale(config.style, previous, projects), replies, loaded) == StepView::<
            (),
        >::Finished((), retired),
        0 <= retired,
        answered(answers, replies, retired),
    ensures
        ({
            let end = retired + taken(answers);
            let file = registry_file(config);
            &&& align_step(config, projects, replies, at) == save_registry_step(
                config,
                registered(answers),
                replies,
                end,
            )
            &&& end == replies.len() ==> align_step(config, projects, replies, at) == StepView::<
                (),
            >::Perform(ActionView::WriteRegistry(file + ".tmp"@, registered(answers)))
            &&& end + 1 == replies.len() && replies[end] is Done ==> align_step(
                config,
                projects,
                replies,
                at,
            ) == StepView::<()>::Perform(ActionView::Replace(file + ".tmp"@, file))
            &&& end + 2 <= replies.len() && replies[end] is Done && replies[end + 1] is Done
                ==> align_step(config, projects, replies, at) == StepView::<()>::Finished(
                (),
                end + 2,
            )
        }),
        forall|registration: RegistrationView| #[trigger]
            registered(answers).contains(registration) <==> exists|i: int|
                0 <= i < projects.len() && end_of(config, #[trigger] projects[i], own[i]) == Some(
                    AttemptView::Success(registration),
                ),
        forall|registration: RegistrationView| #[trigger]
            registered(answers).contains(registration) ==> projects.contains(registration.project),
{
    every_project_is_tried(projects, answers, replies, retired);
    what_is_registered_came_of_a_project(config, projects, own, answers);
}

/// Where each answer is what came of its project, reconciling ends with the
/// number of worktrees to watch, however many of them came to a registration,
/// once the registry of those that did is written and in its place.
pub proof fn reconciling_counts_the_worktrees_to_watch(
    config: RuntimeView,
    refusal: Option<Seq<char>>,
    excluded: Seq<bool>,
    projects: Seq<Seq<char>>,
    own: Seq<Seq<ReplyView>>,
    answers: Seq<AttemptView<RegistrationView>>,
    previous: Seq<RegistrationView>,
    replies: Seq<ReplyView>,
    at: int,
    prepared: int,
    found: int,
    loaded: int,
    retired: int,
)
    requires
        prepare_step(config, replies, at) == StepView::<()>::Finished((), prepared),
        discover_step(config, refusal, excluded, replies, prepared) == StepView::Finished(
            projects,
            found,
        ),
        came_of(config, projects, own, answers),
        load_registry_step(config, replies, found) == StepView::Finished(previous, loaded),
        retire_all_step(stale(config.style, previous, projects), replies, loaded) == StepView::<
            (),
        >::Finished((), retired),
        0 <= retired,
        answered(answers, replies, retired),
    ensures
        ({
            let end = retired + taken(answers);
            let step = reconcile_step(config, refusal, excluded, replies, at);
            &&& end == replies.len() ==> step == StepView::<usize>::Perform(
                ActionView::WriteRegistry(
                    registry_file(config) + ".tmp"@,
                    registered(answers),
                ),
            )
            &&& end + 2 <= replies.len() && replies[end] is Done && replies[end + 1] is Done
                ==> step == StepView::Finished(projects.len() as usize, end + 2)
        }),
{
    the_registry_is_what_came_of_the_projects(
        config,
        projects,
        own,
        answers,
        previous,
        replies,
        found,
        loaded,
        retired,
    );
}

/// A project that cannot be registered is reported, with the reason.
pub proof fn what_cannot_be_registered_is_reported(
    projects: Seq<Seq<char>>,
    before: Seq<RegistrationView>,
    why: FailureView,
    replies: Seq<ReplyView>,
    at: int,
    n: int,
)
    requires
        projects.len() > 0,
        0 <= n < replies.len(),
        ensure_all_step(projects.drop_last(), replies, at) == StepView::Finished(before, n),
        replies[n] == ReplyView::Registered(AttemptView::Failure(why)),
    ensures
        n + 1 >= replies.len() ==> ensure_all_step(projects, replies, at) == StepView::<
            Seq<RegistrationView>,
        >::Perform(ActionView::Report("failed to register "@ + projects.last(), why)),
        n + 1 < replies.len() ==> ensure_all_step(projects, replies, at) == StepView::Finished(
            before,
            n + 2,
        ),
{
}

proof fn ensuring_asks_for_the_projects(
    projects: Seq<Seq<char>>,
    replies: Seq<ReplyView>,
    at: int,
)
    ensures
        ensure_all_step(projects, replies, at) matches StepView::Perform(a) ==> {
            ||| a matches ActionView::EnsureProject(project) && projects.contains(project)
            ||| a is Report
        },
    decreases projects.len(),
{
    if projects.len() > 0 {
        let init = projects.drop_last();
        ensuring_asks_for_the_projects(init, replies, at);
        if let StepView::Perform(ActionView::EnsureProject(project)) = ensure_all_step(
            init,
            replies,
            at,
        ) {
            let k = choose|k: int| 0 <= k < init.len() && init[k] == project;
            assert(projects[k] == project);
        }
        assert(projects[projects.len() - 1] == projects.last());
    }
}

/// Whether an action brings the triggers in step with the worktrees to watch:
/// it makes sure of one of these, deletes the trigger of another one, or keeps
/// the books. No history is deleted.
pub open spec fn aligns(config: RuntimeView, projects: Seq<Seq<char>>, action: ActionView) -> bool {
    match action {
        ActionView::Exists(file) => file == registry_file(config),
        ActionView::ReadRegistry(file) => file == registry_file(config),
        ActionView::WriteRegistry(temporary, _) => temporary == registry_file(config) + ".tmp"@,
        ActionView::Replace(temporary, file) => file == registry_file(config) && temporary == file
            + ".tmp"@,
        ActionView::EnsureProject(project) => projects.contains(project),
        ActionView::Report(_, _) => true,
        ActionView::Run(_) => exists|registration: RegistrationView| #[trigger]
            asks_to_delete(registration.watch_root, registration.trigger_name, action) && forall|
                i: int,
            |
                0 <= i < projects.len() ==> components(config.style, #[trigger] projects[i])
                    != components(config.style, registration.project),
        _ => false,
    }
}

/// Bringing the triggers in step touches nothing but the triggers of projects
/// that are not watched any more, the projects to watch, and the registry.
pub proof fn aligning_touches_nothing_else(
    config: RuntimeView,
    projects: Seq<Seq<char>>,
    replies: Seq<ReplyView>,
    at: int,
)
    ensures
        align_step(config, projects, replies, at) matches StepView::Perform(a) ==> aligns(
            config,
            projects,
            a,
        ),
{
    if let StepView::Finished(previous, n) = load_registry_step(config, replies, at) {
        let gone = stale(config.style, previous, projects);
        retiring_deletes_only_the_stale_triggers(gone, replies, n);
        if let StepView::Perform(a) = retire_all_step(gone, replies, n) {
            let i = choose|i: int|
                0 <= i < gone.len() && (asks_to_delete(
                    (#[trigger] gone[i]).watch_root,
                    gone[i].trigger_name,
                    a,
                ) || (a matches ActionView::Report(text, _) && text
                    == "failed to remove stale trigger "@ + gone[i].trigger_name));
            let registration = gone[i];
            assert(gone.contains(registration));
            stale_registrations_are(config.style, previous, projects, registration);
            assert(asks_to_delete(registration.watch_root, registration.trigger_name, a)
                || a is Report);
        }
        if let StepView::Finished(_, n) = retire_all_step(gone, replies, n) {
            ensuring_asks_for_the_projects(projects, replies, n);
        }
    }
}

/// A new trigger, or one with other filters than before, is registered only
/// behind a snapshot of the whole worktree.
pub proof fn new_filters_capture_everything_first(
    config: RuntimeView,
    settings: SettingsView,
    store: StoreView,
    project: Seq<char>,
    watch_root: Seq<char>,
    relative_root: Option<Seq<char>>,
    name: Seq<char>,
    replies: Seq<ReplyView>,
    at: int,
)
    ensures
        at >= replies.len() ==> renew_step(
            config,
            settings,
            store,
            project,
            watch_root,
            relative_root,
            name,
            replies,
            at,
        ) == StepView::<()>::Perform(ActionView::OpenLock(lock_file(store))),
        capture_full_step(store, "trigger-reconcile"@, replies, at) matches StepView::Perform(a)
            ==> renew_step(
            config,
            settings,
            store,
            project,
            watch_root,
            relative_root,
            name,
            replies,
            at,
        ) == StepView::<()>::Perform(a),
        capture_full_step(store, "trigger-reconcile"@, replies, at) matches StepView::Failed(f)
            ==> renew_step(
            config,
            settings,
            store,
            project,
            watch_root,
            relative_root,
            name,
            replies,
            at,
        ) == StepView::<()>::Failed(f),
{
}

/// A report that is not complete, or the first one, leads to a snapshot of the
/// whole worktree.
pub proof fn incomplete_reports_capture_everything(
    config: RuntimeView,
    project: Seq<char>,
    event: TriggerEventView,
    replies: Seq<ReplyView>,
    at: int,
    store: StoreView,
    opened: int,
)
    requires
        open_step(config, project, replies, at) == StepView::Finished(store, opened),
    ensures
        event.incomplete() ==> capture_trigger_step(config, project, event, replies, at)
            == capture_full_step(store, event.source(), replies, opened),
        !event.incomplete() ==> (has_history_step(store, replies, opened)
            matches StepView::Finished(false, n) ==> capture_trigger_step(
            config,
            project,
            event,
            replies,
            at,
        ) == capture_full_step(store, event.source(), replies, n)),
{
}

/// What is gone counts, and so does what is a file, a link or a pipe, or what
/// is not known to be anything else; nothing else does.
pub proof fn reported_files_that_count(files: Seq<WatchmanFileView>, name: Seq<char>)
    ensures
        counting(files).contains(name) <==> exists|i: int|
            0 <= i < files.len() && (#[trigger] files[i]).name == name && (!files[i].exists
                || files[i].kind is None || files[i].kind == Some("f"@) || files[i].kind == Some(
                "l"@,
            ) || files[i].kind == Some("p"@)),
    decreases files.len(),
{
    if files.len() > 0 {
        let init = files.drop_last();
        reported_files_that_count(init, name);
        let before = counting(init);
        let now = counting(files);
        let end = files.len() - 1;
        if now.contains(name) {
            let k = choose|k: int| 0 <= k < now.len() && now[k] == name;
            if k < before.len() {
                assert(before[k] == name);
                assert(before.contains(name));
                let i = choose|i: int|
                    0 <= i < init.len() && (#[trigger] init[i]).name == name && counts(init[i]);
                assert(files[i] == init[i]);
            } else {
                assert(counts(files[end]) && files[end].name == name);
            }
        }
        if exists|i: int|
            0 <= i < files.len() && (#[trigger] files[i]).name == name && counts(files[i]) {
            let i = choose|i: int|
                0 <= i < files.len() && (#[trigger] files[i]).name == name && counts(files[i]);
            if i < init.len() {
                assert(counts(init[i]) && init[i].name == name);
                assert(before.contains(name));
                let k = choose|k: int| 0 <= k < before.len() && before[k] == name;
                assert(now[k] == name);
            } else {
                assert(now[before.len() as int] == name);
            }
        }
    }
}

/// The daemon ends only where it was asked to run once: no failure of a
/// reconciliation ends it otherwise.
pub proof fn the_daemon_outlives_failures(
    once: bool,
    outcome: Result<usize, FailureView>,
    interval: u64,
)
    ensures
        next_of(once, outcome, interval) is Wait <==> !once,
        !once ==> next_of(once, outcome, interval) == DaemonNextView::Wait(
            match outcome {
                Ok(_) => None,
                Err(f) => Some(f),
            },
            interval,
        ),
        once ==> match outcome {
            Ok(count) => next_of(once, outcome, interval) == DaemonNextView::Stop(
                "watching "@ + decimal(count as nat) + " repositories"@,
            ),
            Err(f) => next_of(once, outcome, interval) == DaemonNextView::Fail(f),
        },
{
}

} // verus!
