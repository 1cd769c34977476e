//! The configuration.

use crate::config::{
    config_path_step, config_problem, default_config, detailed_count, detailed_paths, is_basename,
    load_step, names_problem, overridden, parent_directory_step, project_settings_step,
    repositories_problem, runtime_config, settings_for, with_added, without, write_default_step,
    ConfigView, OptionsView, RepositoryView, RuntimeView, SettingsView,
};
use crate::paths::{absolute, components, PathStyle};
use crate::platform::{expanded, EnvironmentView};
use crate::procedure::{flag_step, ActionView, FailureView, ReplyView, StepView};
use vstd::prelude::*;

verus! {

proof fn names_problem_is_exact(names: Seq<Seq<char>>)
    ensures
        names_problem(names) is None <==> forall|i: int|
            0 <= i < names.len() ==> is_basename(#[trigger] names[i]),
    decreases names.len(),
{
    if names.len() > 0 {
        let init = names.drop_last();
        names_problem_is_exact(init);
        if names_problem(names) is None {
            assert forall|i: int| 0 <= i < names.len() implies is_basename(
                #[trigger] names[i],
            ) by {
                if i < init.len() {
                    assert(init[i] == names[i]);
                }
            }
        } else if forall|i: int| 0 <= i < names.len() ==> is_basename(#[trigger] names[i]) {
            assert forall|i: int| 0 <= i < init.len() implies is_basename(#[trigger] init[i]) by {
                assert(init[i] == names[i]);
            }
            assert(is_basename(names[names.len() - 1]));
        }
    }
}

/// Whether a text is the name of a directory and no more: it is none of those
/// that stand for the directory itself or for the one above, and no path.
pub open spec fn names_a_directory(name: Seq<char>) -> bool {
    &&& name.len() > 0
    &&& name != "."@
    &&& name != ".."@
    &&& forall|i: int| 0 <= i < name.len() ==> #[trigger] name[i] != '/' && name[i] != '\\'
}

/// Whether every one of the names is the name of a directory and no more.
pub open spec fn all_basenames(names: Seq<Seq<char>>) -> bool {
    forall|i: int| 0 <= i < names.len() ==> names_a_directory(#[trigger] names[i])
}

proof fn a_basename_names_a_directory(name: Seq<char>)
    ensures
        is_basename(name) == names_a_directory(name),
{
    if name.contains('/') {
        let i = choose|i: int| 0 <= i < name.len() && name[i] == '/';
        assert(name[i] == '/');
    }
    if name.contains('\\') {
        let i = choose|i: int| 0 <= i < name.len() && name[i] == '\\';
        assert(name[i] == '\\');
    }
}

proof fn basenames_name_directories(names: Seq<Seq<char>>)
    ensures
        all_basenames(names) <==> forall|i: int|
            0 <= i < names.len() ==> is_basename(#[trigger] names[i]),
{
    assert forall|i: int| 0 <= i < names.len() implies is_basename(#[trigger] names[i])
        == names_a_directory(names[i]) by {
        a_basename_names_a_directory(names[i]);
    }
    if forall|i: int| 0 <= i < names.len() ==> is_basename(#[trigger] names[i]) {
        assert forall|i: int| 0 <= i < names.len() implies names_a_directory(
            #[trigger] names[i],
        ) by {
            assert(is_basename(names[i]));
        }
    }
}

/// Whether what a repository says of its own can be meant.
pub open spec fn sound_repository(repository: RepositoryView) -> bool {
    repository matches RepositoryView::Detailed(options) ==> all_basenames(options.add)
        && all_basenames(options.remove) && options.max_file_size_mb != Some(0u64)
}

proof fn repositories_problem_is_exact(repositories: Seq<RepositoryView>)
    ensures
        repositories_problem(repositories) is None <==> forall|i: int|
            0 <= i < repositories.len() ==> sound_repository(#[trigger] repositories[i]),
    decreases repositories.len(),
{
    if repositories.len() > 0 {
        let init = repositories.drop_last();
        repositories_problem_is_exact(init);
        if let RepositoryView::Detailed(options) = repositories.last() {
            names_problem_is_exact(options.add);
            names_problem_is_exact(options.remove);
            basenames_name_directories(options.add);
            basenames_name_directories(options.remove);
        }
        if repositories_problem(repositories) is None {
            assert forall|i: int| 0 <= i < repositories.len() implies sound_repository(
                #[trigger] repositories[i],
            ) by {
                if i < init.len() {
                    assert(init[i] == repositories[i]);
                }
            }
        } else if forall|i: int|
            0 <= i < repositories.len() ==> sound_repository(#[trigger] repositories[i]) {
            assert forall|i: int| 0 <= i < init.len() implies sound_repository(
                #[trigger] init[i],
            ) by {
                assert(init[i] == repositories[i]);
            }
            assert(sound_repository(repositories[repositories.len() - 1]));
        }
    }
}

/// A configuration is accepted exactly where the daemon has an interval and a
/// depth to search to, all ignored directories are given by their names, and
/// no repository has a limit of nothing.
pub proof fn accepted_configurations(config: ConfigView)
    ensures
        config_problem(config) is None <==> {
            &&& config.discovery_interval_seconds > 0
            &&& config.discovery_max_depth > 0
            &&& all_basenames(config.ignore_directories)
            &&& forall|i: int|
                0 <= i < config.repositories.len() ==> sound_repository(
                    #[trigger] config.repositories[i],
                )
        },
{
    names_problem_is_exact(config.ignore_directories);
    basenames_name_directories(config.ignore_directories);
    repositories_problem_is_exact(config.repositories);
}

proof fn the_first_bad_name_is_told(names: Seq<Seq<char>>)
    ensures
        names_problem(names) matches Some(failure) ==> exists|i: int|
            0 <= i < names.len() && failure == FailureView::NotABasename(#[trigger] names[i])
                && !names_a_directory(names[i]) && all_basenames(names.take(i)),
    decreases names.len(),
{
    if names.len() > 0 {
        let init = names.drop_last();
        the_first_bad_name_is_told(init);
        if let Some(failure) = names_problem(names) {
            if names_problem(init) is Some {
                let i = choose|i: int|
                    0 <= i < init.len() && failure == FailureView::NotABasename(#[trigger] init[i])
                        && !names_a_directory(init[i]) && all_basenames(init.take(i));
                assert(names[i] == init[i]);
                assert(names.take(i) =~= init.take(i));
            } else {
                let i = names.len() - 1;
                names_problem_is_exact(init);
                basenames_name_directories(init);
                a_basename_names_a_directory(names[i]);
                assert(names.take(i) =~= init);
                assert(failure == FailureView::NotABasename(names[i]));
            }
        }
    }
}

/// What is told of a configuration that is not accepted is wrong with it: an
/// interval or a depth of nothing first, and of the ignored directories the
/// first that is no name.
pub proof fn what_is_wrong_with_a_configuration(config: ConfigView)
    ensures
        config.discovery_interval_seconds == 0 ==> config_problem(config) == Some(
            FailureView::ZeroInterval,
        ),
        config.discovery_interval_seconds > 0 && config.discovery_max_depth == 0
            ==> config_problem(config) == Some(FailureView::ZeroDepth),
        config.discovery_interval_seconds > 0 && config.discovery_max_depth > 0 && !all_basenames(
            config.ignore_directories,
        ) ==> (config_problem(config) matches Some(failure) && exists|i: int|
            0 <= i < config.ignore_directories.len() && failure == FailureView::NotABasename(
                #[trigger] config.ignore_directories[i],
            ) && !names_a_directory(config.ignore_directories[i]) && all_basenames(
                config.ignore_directories.take(i),
            )),
        config.discovery_interval_seconds > 0 && config.discovery_max_depth > 0 && all_basenames(
            config.ignore_directories,
        ) ==> config_problem(config) == repositories_problem(config.repositories),
{
    names_problem_is_exact(config.ignore_directories);
    basenames_name_directories(config.ignore_directories);
    the_first_bad_name_is_told(config.ignore_directories);
}

/// What is told of the repositories is wrong with the first one that cannot be
/// meant: a name to add, else a name to remove, else a limit of nothing.
pub proof fn what_is_wrong_with_a_repository(repositories: Seq<RepositoryView>, i: int)
    requires
        0 <= i < repositories.len(),
        !sound_repository(repositories[i]),
        forall|j: int| 0 <= j < i ==> sound_repository(#[trigger] repositories[j]),
    ensures
        repositories_problem(repositories) matches Some(failure) && (
        repositories[i] matches RepositoryView::Detailed(options) && {
            &&& !all_basenames(options.add) ==> exists|k: int|
                0 <= k < options.add.len() && failure == FailureView::NotABasename(
                    #[trigger] options.add[k],
                ) && !names_a_directory(options.add[k])
            &&& all_basenames(options.add) && !all_basenames(options.remove) ==> exists|k: int|
                0 <= k < options.remove.len() && failure == FailureView::NotABasename(
                    #[trigger] options.remove[k],
                ) && !names_a_directory(options.remove[k])
            &&& all_basenames(options.add) && all_basenames(options.remove) ==> failure
                == FailureView::ZeroRepositorySize && options.max_file_size_mb == Some(0u64)
        }),
    decreases repositories.len(),
{
    let init = repositories.drop_last();
    if i < init.len() {
        assert(init[i] == repositories[i]);
        assert forall|j: int| 0 <= j < i implies sound_repository(#[trigger] init[j]) by {
            assert(init[j] == repositories[j]);
        }
        what_is_wrong_with_a_repository(init, i);
    } else {
        assert forall|j: int| 0 <= j < init.len() implies sound_repository(#[trigger] init[j]) by {
            assert(init[j] == repositories[j]);
        }
        repositories_problem_is_exact(init);
        if let RepositoryView::Detailed(options) = repositories[i] {
            names_problem_is_exact(options.add);
            names_problem_is_exact(options.remove);
            basenames_name_directories(options.add);
            basenames_name_directories(options.remove);
            the_first_bad_name_is_told(options.add);
            the_first_bad_name_is_told(options.remove);
        }
    }
}

/// The configuration of a user who has configured nothing is accepted.
pub proof fn default_configuration_is_accepted()
    ensures
        config_problem(default_config()) is None,
{
    accepted_configurations(default_config());
    reveal_strlit(".");
    reveal_strlit("..");
    reveal_strlit(".git");
    reveal_strlit(".hg");
    reveal_strlit(".svn");
    reveal_strlit("node_modules");
    reveal_strlit(".direnv");
    reveal_strlit(".cache");
    reveal_strlit("dist");
    reveal_strlit("build");
    reveal_strlit("target");
    reveal_strlit("coverage");
    reveal_strlit(".next");
    reveal_strlit(".turbo");
    reveal_strlit(".gradle");
    reveal_strlit("__pycache__");
    assert("."@.len() == 1);
    assert(".."@.len() == 2);
    assert(is_basename(".git"@));
    assert(is_basename(".hg"@));
    assert(is_basename(".svn"@));
    assert(is_basename("node_modules"@));
    assert(is_basename(".direnv"@));
    assert(is_basename(".cache"@));
    assert(is_basename("dist"@));
    assert(is_basename("build"@));
    assert(is_basename("target"@));
    assert(is_basename("coverage"@));
    assert(is_basename(".next"@));
    assert(is_basename(".turbo"@));
    assert(is_basename(".gradle"@));
    assert(is_basename("__pycache__"@));
}

proof fn added_names(names: Seq<Seq<char>>, extra: Seq<Seq<char>>, x: Seq<char>)
    ensures
        with_added(names, extra).contains(x) <==> names.contains(x) || extra.contains(x),
    decreases extra.len(),
{
    if extra.len() > 0 {
        let init = extra.drop_last();
        added_names(names, init, x);
        let before = with_added(names, init);
        let now = with_added(names, extra);
        if extra.contains(x) {
            let k = choose|k: int| 0 <= k < extra.len() && extra[k] == x;
            if k < init.len() {
                assert(init[k] == x);
            }
        }
        if init.contains(x) {
            let k = choose|k: int| 0 <= k < init.len() && init[k] == x;
            assert(extra[k] == x);
        }
        assert(extra[extra.len() - 1] == extra.last());
        if !before.contains(extra.last()) {
            assert(now =~= before.push(extra.last()));
            if before.contains(x) {
                let k = choose|k: int| 0 <= k < before.len() && before[k] == x;
                assert(now[k] == x);
            }
            assert(now[before.len() as int] == extra.last());
            if now.contains(x) {
                let k = choose|k: int| 0 <= k < now.len() && now[k] == x;
                assert(k < before.len() ==> before[k] == x);
            }
        }
    }
}

proof fn remaining_names(names: Seq<Seq<char>>, gone: Seq<Seq<char>>, x: Seq<char>)
    ensures
        without(names, gone).contains(x) <==> names.contains(x) && !gone.contains(x),
    decreases names.len(),
{
    if names.len() > 0 {
        let init = names.drop_last();
        remaining_names(init, gone, x);
        let before = without(init, gone);
        let now = without(names, gone);
        if names.contains(x) {
            let k = choose|k: int| 0 <= k < names.len() && names[k] == x;
            if k < init.len() {
                assert(init[k] == x);
            }
        }
        if init.contains(x) {
            let k = choose|k: int| 0 <= k < init.len() && init[k] == x;
            assert(names[k] == x);
        }
        assert(names[names.len() - 1] == names.last());
        if !gone.contains(names.last()) {
            assert(now =~= before.push(names.last()));
            if before.contains(x) {
                let k = choose|k: int| 0 <= k < before.len() && before[k] == x;
                assert(now[k] == x);
            }
            assert(now[before.len() as int] == names.last());
            if now.contains(x) {
                let k = choose|k: int| 0 <= k < now.len() && now[k] == x;
                assert(k < before.len() ==> before[k] == x);
            }
        }
    }
}

/// What a repository says of its own changes the global settings and does not
/// replace them: a directory is ignored where it was ignored before or is
/// added, and is not removed. A limit takes the place of the global one.
pub proof fn repository_settings_are_deltas(
    settings: SettingsView,
    options: OptionsView,
    directory: Seq<char>,
)
    ensures
        overridden(settings, options).ignore_directories.contains(directory) <==> (
        settings.ignore_directories.contains(directory) || options.add.contains(directory))
            && !options.remove.contains(directory),
        overridden(settings, options).max_file_size_mb == match options.max_file_size_mb {
            Some(size) => size,
            None => settings.max_file_size_mb,
        },
{
    added_names(settings.ignore_directories, options.add, directory);
    remaining_names(
        with_added(settings.ignore_directories, options.add),
        options.remove,
        directory,
    );
}

/// A worktree that no repository with settings of its own lies at has the
/// global settings.
pub proof fn other_worktrees_inherit_the_global_settings(
    style: PathStyle,
    global: SettingsView,
    repositories: Seq<RepositoryView>,
    found: Seq<Option<Seq<char>>>,
    root: Seq<char>,
)
    requires
        forall|i: int|
            0 <= i < found.len() ==> match #[trigger] found[i] {
                Some(place) => components(style, place) != components(style, root),
                None => true,
            },
        found.len() == detailed_count(repositories),
    ensures
        settings_for(style, global, repositories, found, root) == global,
{
    inherited(style, global, repositories, found, root);
}

proof fn inherited(
    style: PathStyle,
    global: SettingsView,
    repositories: Seq<RepositoryView>,
    found: Seq<Option<Seq<char>>>,
    root: Seq<char>,
)
    requires
        forall|i: int|
            0 <= i < found.len() ==> match #[trigger] found[i] {
                Some(place) => components(style, place) != components(style, root),
                None => true,
            },
        detailed_count(repositories) <= found.len(),
    ensures
        settings_for(style, global, repositories, found, root) == global,
    decreases repositories.len(),
{
    if repositories.len() > 0 {
        inherited(style, global, repositories.drop_last(), found, root);
    }
}

/// Whether what the repository at `i` says of its own holds for the worktree at
/// `root`: `lies` says where the files of the platform lie.
pub open spec fn is_of(
    config: RuntimeView,
    lies: spec_fn(Seq<char>) -> Option<Seq<char>>,
    root: Seq<char>,
    i: int,
) -> bool {
    config.values.repositories[i] matches RepositoryView::Detailed(options) && (expanded(
        config.style,
        options.path,
        config.home,
    ) matches Some(path) && (lies(path) matches Some(place) && components(config.style, place)
        == components(config.style, root)))
}

/// The repository at `i`, where it has settings of its own.
pub open spec fn options_of(config: RuntimeView, i: int) -> OptionsView {
    config.values.repositories[i]->Detailed_0
}

/// Whether a directory is ignored from the repository at `k` on: that one adds
/// it, or all worktrees ignore it where `k` is before the first, and none of
/// those that follow removes it, nor that one itself.
pub open spec fn ignores_from(
    config: RuntimeView,
    lies: spec_fn(Seq<char>) -> Option<Seq<char>>,
    root: Seq<char>,
    directory: Seq<char>,
    k: int,
    end: int,
) -> bool {
    &&& -1 <= k < end
    &&& if k < 0 {
        config.values.ignore_directories.contains(directory)
    } else {
        is_of(config, lies, root, k) && options_of(config, k).add.contains(directory)
    }
    &&& forall|j: int|
        0 <= j && k <= j < end && #[trigger] is_of(config, lies, root, j) ==> !options_of(
            config,
            j,
        ).remove.contains(directory)
}

/// Whether the limit is that of the repository at `k`, or the global one where
/// `k` is before the first, and none that follows has one of its own.
pub open spec fn limits_from(
    config: RuntimeView,
    lies: spec_fn(Seq<char>) -> Option<Seq<char>>,
    root: Seq<char>,
    limit: u64,
    k: int,
    end: int,
) -> bool {
    &&& -1 <= k < end
    &&& if k < 0 {
        limit == config.values.max_file_size_mb
    } else {
        is_of(config, lies, root, k) && options_of(config, k).max_file_size_mb == Some(limit)
    }
    &&& forall|j: int|
        k < j < end && #[trigger] is_of(config, lies, root, j) ==> options_of(
            config,
            j,
        ).max_file_size_mb is None
}

proof fn places_are_where_they_lie(
    config: RuntimeView,
    wanted: Seq<Seq<char>>,
    i: int,
)
    requires
        detailed_paths(config.style, config.home, config.values.repositories.take(i)) == Some(
            wanted,
        ),
        0 <= i <= config.values.repositories.len(),
    ensures
        wanted.len() == detailed_count(config.values.repositories.take(i)),
        forall|j: int|
            0 <= j < i && config.values.repositories[j] is Detailed ==> {
                let place = detailed_count(#[trigger] config.values.repositories.take(j)) as int;
                &&& 0 <= place < wanted.len()
                &&& Some(wanted[place]) == expanded(
                    config.style,
                    options_of(config, j).path,
                    config.home,
                )
            },
    decreases i,
{
    let repositories = config.values.repositories;
    if i > 0 {
        let part = repositories.take(i);
        let init = repositories.take(i - 1);
        assert(part.drop_last() =~= init);
        assert(part.last() == repositories[i - 1]);
        let before = detailed_paths(config.style, config.home, init)->0;
        places_are_where_they_lie(config, before, i - 1);
        assert forall|j: int| 0 <= j < i && repositories[j] is Detailed implies {
            let place = detailed_count(#[trigger] repositories.take(j)) as int;
            &&& 0 <= place < wanted.len()
            &&& Some(wanted[place]) == expanded(
                config.style,
                options_of(config, j).path,
                config.home,
            )
        } by {
            if j < i - 1 {
                let place = detailed_count(repositories.take(j)) as int;
                assert(wanted[place] == before[place]);
            }
        }
    }
}

/// Whether `found` says of the repository at `j`, in its place, where it lies.
spec fn is_placed(
    config: RuntimeView,
    lies: spec_fn(Seq<char>) -> Option<Seq<char>>,
    found: Seq<Option<Seq<char>>>,
    j: int,
) -> bool {
    expanded(config.style, options_of(config, j).path, config.home) matches Some(path)
        && found[detailed_count(config.values.repositories.take(j)) as int] == lies(path)
}

proof fn settings_add_up(
    config: RuntimeView,
    lies: spec_fn(Seq<char>) -> Option<Seq<char>>,
    root: Seq<char>,
    found: Seq<Option<Seq<char>>>,
    end: int,
    directory: Seq<char>,
)
    requires
        0 <= end <= config.values.repositories.len(),
        forall|j: int|
            0 <= j < config.values.repositories.len() && config.values.repositories[j] is Detailed
                ==> #[trigger] is_placed(config, lies, found, j),
    ensures
        ({
            let settings = settings_for(
                config.style,
                SettingsView {
                    ignore_directories: config.values.ignore_directories,
                    max_file_size_mb: config.values.max_file_size_mb,
                },
                config.values.repositories.take(end),
                found,
                root,
            );
            &&& settings.ignore_directories.contains(directory) <==> exists|k: int| #[trigger]
                ignores_from(config, lies, root, directory, k, end)
            &&& exists|k: int| #[trigger]
                limits_from(config, lies, root, settings.max_file_size_mb, k, end)
        }),
    decreases end,
{
    let repositories = config.values.repositories;
    let global = SettingsView {
        ignore_directories: config.values.ignore_directories,
        max_file_size_mb: config.values.max_file_size_mb,
    };
    let part = repositories.take(end);
    let settings = settings_for(config.style, global, part, found, root);
    if end == 0 {
        assert(settings == global);
        if settings.ignore_directories.contains(directory) {
            assert(ignores_from(config, lies, root, directory, -1, end));
        }
        assert(limits_from(config, lies, root, settings.max_file_size_mb, -1, end));
    } else {
        let last = end - 1;
        let init = repositories.take(last);
        assert(part.drop_last() =~= init);
        assert(part.last() == repositories[last]);
        let before = settings_for(config.style, global, init, found, root);
        settings_add_up(config, lies, root, found, last, directory);
        if repositories[last] is Detailed {
            assert(is_placed(config, lies, found, last));
        }
        if is_of(config, lies, root, last) {
            let options = options_of(config, last);
            assert(settings == overridden(before, options));
            repository_settings_are_deltas(before, options, directory);
            if options.remove.contains(directory) {
                assert forall|k: int| !#[trigger]
                    ignores_from(config, lies, root, directory, k, end) by {}
            } else {
                if options.add.contains(directory) {
                    assert(ignores_from(config, lies, root, directory, last, end));
                }
                if before.ignore_directories.contains(directory) {
                    let k = choose|k: int| ignores_from(config, lies, root, directory, k, last);
                    assert(ignores_from(config, lies, root, directory, k, end));
                }
                if exists|k: int| ignores_from(config, lies, root, directory, k, end) {
                    let k = choose|k: int| ignores_from(config, lies, root, directory, k, end);
                    if k < last {
                        assert(ignores_from(config, lies, root, directory, k, last));
                    }
                }
            }
            if options.max_file_size_mb is Some {
                assert(limits_from(config, lies, root, settings.max_file_size_mb, last, end));
            } else {
                let k = choose|k: int|
                    limits_from(config, lies, root, before.max_file_size_mb, k, last);
                assert(limits_from(config, lies, root, settings.max_file_size_mb, k, end));
            }
        } else {
            assert(settings == before);
            if before.ignore_directories.contains(directory) {
                let k = choose|k: int| ignores_from(config, lies, root, directory, k, last);
                assert(ignores_from(config, lies, root, directory, k, end));
            }
            if exists|k: int| ignores_from(config, lies, root, directory, k, end) {
                let k = choose|k: int| ignores_from(config, lies, root, directory, k, end);
                assert(k < last);
                assert(ignores_from(config, lies, root, directory, k, last));
            }
            let k = choose|k: int| limits_from(config, lies, root, before.max_file_size_mb, k, last);
            assert(limits_from(config, lies, root, settings.max_file_size_mb, k, end));
        }
    }
}

/// The settings of a worktree are the global ones with what each repository
/// says of its own that lies there, one behind the other. With `lies` saying
/// where the files of the platform lie, a directory is ignored where all
/// worktrees ignore it or one of these adds it, and none from there on removes
/// it; the limit is that of the last one that has a limit, or else the global
/// one.
pub proof fn the_settings_of_a_worktree(
    config: RuntimeView,
    root: Seq<char>,
    lies: spec_fn(Seq<char>) -> Option<Seq<char>>,
    replies: Seq<ReplyView>,
    at: int,
    wanted: Seq<Seq<char>>,
    settings: SettingsView,
    n: int,
    directory: Seq<char>,
)
    requires
        0 <= at < replies.len(),
        project_settings_step(config, root, replies.take(at), at) == StepView::<
            SettingsView,
        >::Perform(ActionView::Canonicalize(wanted)),
        replies[at] matches ReplyView::Paths(found) && found.len() == wanted.len() && forall|i: int|
            0 <= i < found.len() ==> #[trigger] found[i] == lies(wanted[i]),
        project_settings_step(config, root, replies, at) == StepView::Finished(settings, n),
    ensures
        n == at + 1,
        settings.ignore_directories.contains(directory) <==> exists|k: int| #[trigger]
            ignores_from(
                config,
                lies,
                root,
                directory,
                k,
                config.values.repositories.len() as int,
            ),
        exists|k: int| #[trigger]
            limits_from(
                config,
                lies,
                root,
                settings.max_file_size_mb,
                k,
                config.values.repositories.len() as int,
            ),
{
    let repositories = config.values.repositories;
    let end = repositories.len() as int;
    assert(repositories.take(end) =~= repositories);
    let found = replies[at]->Paths_0;
    assert(detailed_paths(config.style, config.home, repositories) == Some(wanted));
    places_are_where_they_lie(config, wanted, end);
    assert forall|j: int|
        0 <= j < repositories.len() && repositories[j] is Detailed implies #[trigger] is_placed(
        config,
        lies,
        found,
        j,
    ) by {
        let place = detailed_count(repositories.take(j)) as int;
        assert(found[place] == lies(wanted[place]));
    }
    settings_add_up(config, lies, root, found, end, directory);
}

/// The store is always at a path of its own, and where the user names none it
/// is the platform's.
pub proof fn the_store_is_absolute(
    values: ConfigView,
    config_path: Seq<char>,
    environment: EnvironmentView,
)
    ensures
        runtime_config(values, config_path, environment) matches Ok(config) ==> {
            &&& absolute(config.style, config.store_dir)
            &&& config_problem(values) is None
            &&& config.values == values
            &&& config.config_path == config_path
            &&& config.state_dir == environment.paths.state_dir
            &&& values.store_dir is None ==> config.store_dir == environment.paths.data_dir
        },
{
}

/// A configuration is overwritten only with `force`.
pub proof fn init_overwrites_only_with_force(
    environment: EnvironmentView,
    chosen: Option<Seq<char>>,
    replies: Seq<ReplyView>,
    at: int,
    config_path: Seq<char>,
    resolved: int,
    looked: int,
)
    requires
        config_path_step(environment, chosen, replies, at) == StepView::Finished(
            config_path,
            resolved,
        ),
        flag_step(
            replies,
            resolved,
            ActionView::Exists(config_path),
            "failed to write "@ + config_path,
        ) == StepView::Finished(true, looked),
    ensures
        write_default_step(environment, chosen, false, replies, at) == StepView::<
            Seq<char>,
        >::Failed(FailureView::ConfigExists(config_path)),
{
}

/// Without a configuration file the defaults hold.
pub proof fn a_missing_file_means_the_defaults(
    environment: EnvironmentView,
    chosen: Option<Seq<char>>,
    replies: Seq<ReplyView>,
    at: int,
    config_path: Seq<char>,
    resolved: int,
    looked: int,
)
    requires
        config_path_step(environment, chosen, replies, at) == StepView::Finished(
            config_path,
            resolved,
        ),
        flag_step(
            replies,
            resolved,
            ActionView::Exists(config_path),
            "failed to read "@ + config_path,
        ) == StepView::Finished(false, looked),
        absolute(environment.style, environment.paths.data_dir),
    ensures
        load_step(environment, chosen, replies, at) == StepView::Finished(
            RuntimeView {
                values: default_config(),
                config_path,
                store_dir: environment.paths.data_dir,
                state_dir: environment.paths.state_dir,
                home: environment.home,
                style: environment.style,
            },
            looked,
        ),
{
    default_configuration_is_accepted();
}

/// The last thing that `init` asks for is to write the default configuration
/// to the path that it ends with.
#[verifier::rlimit(40)]
pub proof fn init_writes_the_defaults(
    environment: EnvironmentView,
    chosen: Option<Seq<char>>,
    force: bool,
    replies: Seq<ReplyView>,
    at: int,
    path: Seq<char>,
    n: int,
)
    requires
        0 <= at,
        write_default_step(environment, chosen, force, replies, at) == StepView::Finished(path, n),
    ensures
        at < n <= replies.len(),
        write_default_step(environment, chosen, force, replies.take(n - 1), at) == StepView::<
            Seq<char>,
        >::Perform(ActionView::WriteConfig(path, default_config())),
        chosen matches Some(place) ==> absolute(environment.style, place) ==> path == place,
        chosen is None ==> path == environment.paths.config_file,
{
    let fewer = replies.take(n - 1);
    let looked = config_path_step(environment, chosen, replies, at)->Finished_1;
    assert(config_path_step(environment, chosen, fewer, at) == config_path_step(
        environment,
        chosen,
        replies,
        at,
    ));
    assert(fewer[looked] == replies[looked]);
    assert(parent_directory_step(environment.style, path, fewer, looked + 1)
        == parent_directory_step(environment.style, path, replies, looked + 1));
}

/// What `init` writes is what is loaded from there: with the file system giving
/// back the configuration that it was given last, the defaults hold, and the
/// configuration lies where `init` said.
pub proof fn what_init_writes_is_loaded(
    environment: EnvironmentView,
    chosen: Option<Seq<char>>,
    force: bool,
    replies: Seq<ReplyView>,
    at: int,
    path: Seq<char>,
    n: int,
    kept: ConfigView,
    others: Seq<ReplyView>,
    start: int,
    looked: int,
)
    requires
        0 <= at,
        absolute(environment.style, environment.paths.data_dir),
        write_default_step(environment, chosen, force, replies, at) == StepView::Finished(path, n),
        write_default_step(environment, chosen, force, replies.take(n - 1), at) == StepView::<
            Seq<char>,
        >::Perform(ActionView::WriteConfig(path, kept)),
        config_path_step(environment, chosen, others, start) == StepView::Finished(path, looked),
        0 <= looked,
        looked + 1 < others.len(),
        others[looked] == ReplyView::Flags(seq![true]),
        others[looked + 1] == ReplyView::Config(kept),
    ensures
        load_step(environment, chosen, others, start) == StepView::Finished(
            RuntimeView {
                values: default_config(),
                config_path: path,
                store_dir: environment.paths.data_dir,
                state_dir: environment.paths.state_dir,
                home: environment.home,
                style: environment.style,
            },
            looked + 2,
        ),
{
    init_writes_the_defaults(environment, chosen, force, replies, at, path, n);
    default_configuration_is_accepted();
    assert(seq![true][0]);
}

} // verus!
