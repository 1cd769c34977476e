//! What the commands of the program come to.

use crate::capture::{capture_full_step, capture_paths_step};
use crate::cli::{
    capture_command_step, discover_command_step, init_step, line_of, list_command_step, path_lines,
    project_lines, show_command_step, trigger_command_step,
};
use crate::commit::has_history_step;
use crate::config::{
    config_path_step, default_config, load_step, project_settings_step, values_step,
    write_default_step, RuntimeView,
};
use crate::discovery::{discover_step, git_root_step};
use crate::git_store::{git_form, path_problem, StoreView};
use crate::history::{is_revision, list_step, show_step, SnapshotView};
use crate::laws::capture::{reading_works_on_the_store, works_on_store};
use crate::laws::config::init_writes_the_defaults;
use crate::laws::history::{
    a_file_is_shown_as_git_holds_it, answers_for, first_of, fits_a_line, logs_by_words,
    the_newest_changes_are_listed,
};
use crate::laws::paths::{a_file_is_found_by_its_path_in_the_history, settled};
use crate::laws::replay::{configuration_keeps, finding_keeps, keeps};
use crate::numbers::{signed_decimal, unsigned_of};
use crate::opening::{absolute_step, for_file_step, open_step};
use crate::paths::{
    absolute, components, joined, parent_of, stripped, verbatim, PartKind, PathStyle,
};
use crate::platform::{app_paths, expanded, shown, AppPathsView, EnvironmentView};
use crate::procedure::{ActionView, FailureView, InvocationView, OutputView, ReplyView, StepView};
use crate::reconcile::{counting, TriggerEventView};
use crate::registering::short_of;
use crate::text::{begins_with, trimmed};
use crate::native::readable;
use vstd::prelude::*;
use vstd::utf8::{decode_utf8, encode_utf8, is_char_boundary, valid_utf8};

verus! {

/// The configuration is loaded from where the user says, and from the
/// platform's place where the user says nothing; what stands there holds, and
/// the defaults hold where nothing does.
#[verifier::rlimit(60)]
pub proof fn the_configuration_is_loaded_from_where_the_user_says(
    environment: EnvironmentView,
    chosen: Option<Seq<char>>,
    replies: Seq<ReplyView>,
    at: int,
    config: RuntimeView,
    n: int,
)
    requires
        0 <= at,
        load_step(environment, chosen, replies, at) == StepView::Finished(config, n),
    ensures
        config.style == environment.style,
        config.home == environment.home,
        config.state_dir == environment.paths.state_dir,
        chosen is None ==> config.config_path == environment.paths.config_file,
        chosen matches Some(place) ==> absolute(environment.style, place) ==> config.config_path
            == place,
        chosen matches Some(place) ==> !absolute(environment.style, place) ==> (
        replies[at] matches ReplyView::Paths(list) && list.len() == 1 && (
        list[0] matches Some(current) && config.config_path == joined(
            environment.style,
            current,
            place,
        ))),
        ({
            let relative = chosen is Some && !absolute(environment.style, chosen->0);
            let looked = if relative {
                at + 1
            } else {
                at
            };
            &&& relative ==> load_step(environment, chosen, replies.take(at), at) == StepView::<
                RuntimeView,
            >::Perform(ActionView::CurrentDirectory)
            &&& load_step(environment, chosen, replies.take(looked), at) == StepView::<
                RuntimeView,
            >::Perform(ActionView::Exists(config.config_path))
            &&& replies[looked] matches ReplyView::Flags(there) && there.len() == 1 && (
            if there[0] {
                &&& load_step(environment, chosen, replies.take(looked + 1), at) == StepView::<
                    RuntimeView,
                >::Perform(ActionView::ReadConfig(config.config_path))
                &&& replies[looked + 1] == ReplyView::Config(config.values)
                &&& n == looked + 2
            } else {
                config.values == default_config() && n == looked + 1
            })
        }),
        config.values.store_dir is None ==> config.store_dir == environment.paths.data_dir,
        config.values.store_dir matches Some(place) ==> expanded(
            environment.style,
            place,
            environment.home,
        ) == Some(config.store_dir),
        absolute(environment.style, config.store_dir),
{
    let relative = chosen is Some && !absolute(environment.style, chosen->0);
    let looked = config_path_step(environment, chosen, replies, at)->Finished_1;
    if relative {
        assert(replies.take(looked)[at] == replies[at]);
        assert(replies.take(looked + 1)[at] == replies[at]);
    }
    assert(values_step(config.config_path, replies, looked) is Finished);
    assert(replies.take(looked + 1)[looked] == replies[looked]);
}

/// Without a word from the user, the configuration is the documented one.
pub proof fn the_defaults_are_as_documented()
    ensures
        default_config().discovery_roots.len() == 0,
        default_config().repositories.len() == 0,
        default_config().exclude_repositories.len() == 0,
        default_config().ignore_directories == seq![
            ".git"@,
            ".hg"@,
            ".svn"@,
            "node_modules"@,
            ".direnv"@,
            ".cache"@,
            "dist"@,
            "build"@,
            "target"@,
            "coverage"@,
            ".next"@,
            ".turbo"@,
            ".gradle"@,
            "__pycache__"@,
        ],
        default_config().store_dir is None,
        default_config().max_file_size_mb == 10,
        default_config().discovery_max_depth == 4,
        default_config().discovery_interval_seconds == 60,
{
}

/// Where a file lies that the user names: at its canonical path; where it has
/// none, at the path itself, from the current directory on where it is relative.
#[verifier::rlimit(40)]
pub proof fn a_file_lies_where_the_user_says(
    config: RuntimeView,
    file: Seq<char>,
    replies: Seq<ReplyView>,
    at: int,
    path: Seq<char>,
    n: int,
)
    requires
        0 <= at,
        absolute_step(config.style, file, replies, at) == StepView::Finished(path, n),
    ensures
        absolute_step(config.style, file, replies.take(at), at) == StepView::<Seq<char>>::Perform(
            ActionView::Canonicalize(seq![file]),
        ),
        replies[at] matches ReplyView::Paths(list) && list.len() == 1 && (match list[0] {
            Some(canonical) => path == canonical && n == at + 1,
            None => if absolute(config.style, file) {
                path == file && n == at + 1
            } else {
                &&& absolute_step(config.style, file, replies.take(at + 1), at) == StepView::<
                    Seq<char>,
                >::Perform(ActionView::CurrentDirectory)
                &&& replies[at + 1] matches ReplyView::Paths(places) && places.len() == 1 && (
                places[0] matches Some(current) && path == joined(config.style, current, file))
                &&& n == at + 2
            },
        }),
{
    assert(replies.take(at + 1)[at] == replies[at]);
}

/// The worktree that a path lies in is what Git says, asked in the directory
/// that the path is, or in the one that it is in; its root is canonical.
#[verifier::rlimit(40)]
pub proof fn a_worktree_is_where_git_says(
    config: RuntimeView,
    of: Seq<char>,
    replies: Seq<ReplyView>,
    at: int,
    root: Seq<char>,
    n: int,
)
    requires
        0 <= at,
        git_root_step(config.style, of, replies, at) == StepView::Finished(root, n),
    ensures
        n == at + 3 <= replies.len(),
        git_root_step(config.style, of, replies.take(at), at) == StepView::<Seq<char>>::Perform(
            ActionView::AreDirectories(seq![of]),
        ),
        replies[at] matches ReplyView::Flags(flags) && flags.len() == 1 && {
            let directory = if flags[0] {
                Some(of)
            } else {
                parent_of(config.style, of)
            };
            directory matches Some(place) && git_root_step(
                config.style,
                of,
                replies.take(at + 1),
                at,
            ) == StepView::<Seq<char>>::Perform(
                ActionView::Run(
                    InvocationView {
                        program: "git"@,
                        arguments: seq![
                            "-C"@,
                            place,
                            "rev-parse"@,
                            "--path-format=absolute"@,
                            "--show-toplevel"@,
                        ],
                        environment: Seq::empty(),
                        input: None,
                    },
                ),
            )
        },
        replies[at + 1] matches ReplyView::Output(output) && output.success() && valid_utf8(
            output.stdout,
        ) && git_root_step(config.style, of, replies.take(at + 2), at) == StepView::<
            Seq<char>,
        >::Perform(ActionView::Resolve(trimmed(decode_utf8(output.stdout)))),
        replies[at + 2] == ReplyView::Paths(seq![Some(root)]),
{
    assert(replies.take(at + 1)[at] == replies[at]);
    assert(replies.take(at + 2)[at] == replies[at]);
    assert(replies.take(at + 2)[at + 1] == replies[at + 1]);
    assert(replies[at + 2] is Paths);
    assert(replies[at + 2]->Paths_0 =~= seq![Some(root)]);
}

/// A history is opened for the canonical path of a worktree, with the settings
/// that hold there.
#[verifier::rlimit(40)]
pub proof fn a_history_is_opened_for_the_canonical_root(
    config: RuntimeView,
    of: Seq<char>,
    replies: Seq<ReplyView>,
    at: int,
    store: StoreView,
    n: int,
)
    requires
        0 <= at,
        open_step(config, of, replies, at) == StepView::Finished(store, n),
    ensures
        at < n,
        open_step(config, of, replies.take(at), at) == StepView::<StoreView>::Perform(
            ActionView::Resolve(of),
        ),
        replies[at] == ReplyView::Paths(seq![Some(store.root)]),
        store.style == config.style,
        project_settings_step(config, store.root, replies, at + 1) matches StepView::Finished(
            settings,
            _,
        ) && settings == store.settings,
{
    assert(replies[at] is Paths);
    assert(replies[at]->Paths_0 =~= seq![Some(store.root)]);
}

/// Whether a file that the user names was found: it lies at `path`, in the
/// worktree at `root`, and `store` is the history of that one.
pub open spec fn is_found(
    config: RuntimeView,
    file: Seq<char>,
    replies: Seq<ReplyView>,
    at: int,
    path: Seq<char>,
    absolute: int,
    root: Seq<char>,
    located: int,
    store: StoreView,
    relative: Seq<char>,
    n: int,
) -> bool {
    &&& absolute_step(config.style, file, replies, at) == StepView::Finished(path, absolute)
    &&& git_root_step(config.style, path, replies, absolute) == StepView::Finished(root, located)
    &&& for_file_step(config, file, replies, at) == StepView::Finished(
        Some((store, relative)),
        n,
    )
    &&& store.root == root
}

/// Whether the root of a worktree and a path of the platform below it can be
/// told apart again, component by component.
pub open spec fn comes_apart(config: RuntimeView, root: Seq<char>, path: Seq<char>) -> bool {
    &&& absolute(config.style, root)
    &&& settled(config.style, root)
    &&& root.len() + path.len() + 2 <= usize::MAX
    &&& verbatim(config.style, root) ==> {
        &&& !path.contains('/')
        &&& forall|i: int|
            components(config.style, root).len() <= i < components(config.style, path).len() ==> (
            #[trigger] components(config.style, path)[i]).0 != PartKind::Current
    }
}

/// A file that was found has a path in the history that leads back to it.
#[verifier::rlimit(40)]
pub proof fn a_found_file_lies_below_the_root(
    config: RuntimeView,
    file: Seq<char>,
    replies: Seq<ReplyView>,
    at: int,
    path: Seq<char>,
    absolute: int,
    root: Seq<char>,
    located: int,
    store: StoreView,
    relative: Seq<char>,
    n: int,
)
    requires
        0 <= at,
        is_found(
            config,
            file,
            replies,
            at,
            path,
            absolute,
            root,
            located,
            store,
            relative,
            n,
        ),
    ensures
        store.style == config.style,
        path_problem(store.style, relative) is None,
        comes_apart(config, root, path) && (verbatim(config.style, root) ==> !relative.contains(
            '/',
        )) ==> components(config.style, joined(config.style, store.root, relative)) == components(
            config.style,
            path,
        ),
{
    assert(stripped(config.style, path, root) == Some(relative));
    if comes_apart(config, root, path) && (verbatim(config.style, root) ==> !relative.contains(
        '/',
    )) {
        a_file_is_found_by_its_path_in_the_history(config.style, root, path, relative);
    }
}

/// What `list` comes to with the replies before `k`.
#[verifier::opaque]
pub open spec fn listing(
    environment: EnvironmentView,
    chosen: Option<Seq<char>>,
    file: Seq<char>,
    limit: nat,
    replies: Seq<ReplyView>,
    at: int,
    k: int,
) -> StepView<Seq<SnapshotView>> {
    list_command_step(environment, chosen, file, limit, replies.take(k), at)
}

/// What `show` comes to with the replies before `k`.
#[verifier::opaque]
pub open spec fn showing(
    environment: EnvironmentView,
    chosen: Option<Seq<char>>,
    file: Seq<char>,
    revision: Seq<char>,
    replies: Seq<ReplyView>,
    at: int,
    k: int,
) -> StepView<Option<Seq<u8>>> {
    show_command_step(environment, chosen, file, revision, replies.take(k), at)
}

/// The configuration that is loaded, and the history and the path of a file
/// that are found, with the replies before `k`.
#[verifier::opaque]
spec fn reached(
    environment: EnvironmentView,
    chosen: Option<Seq<char>>,
    file: Seq<char>,
    replies: Seq<ReplyView>,
    at: int,
    k: int,
    store: StoreView,
    relative: Seq<char>,
    found: int,
) -> bool {
    load_step(environment, chosen, replies.take(k), at) matches StepView::Finished(config, loaded)
        && for_file_step(config, file, replies.take(k), loaded) == StepView::Finished(
        Some((store, relative)),
        found,
    )
}

proof fn kept_is_the_same<V>(have: nat, at: int, sooner: StepView<V>, later: StepView<V>)
    requires
        keeps(have, at, sooner, later),
        later matches StepView::Finished(_, used) && used <= have,
    ensures
        sooner == later,
        later matches StepView::Finished(_, used) && at <= used,
{
}

#[verifier::rlimit(100)]
#[verifier::spinoff_prover]
proof fn loading_needs_no_more(
    environment: EnvironmentView,
    chosen: Option<Seq<char>>,
    replies: Seq<ReplyView>,
    at: int,
    config: RuntimeView,
    loaded: int,
    k: int,
)
    requires
        0 <= at,
        load_step(environment, chosen, replies, at) == StepView::Finished(config, loaded),
        loaded <= k <= replies.len(),
    ensures
        at <= loaded,
        load_step(environment, chosen, replies.take(k), at) == StepView::Finished(config, loaded),
{
    let fewer = replies.take(k);
    let more = replies.skip(k);
    assert(fewer + more =~= replies);
    configuration_keeps(environment, chosen, false, fewer, more, at);
    kept_is_the_same(
        fewer.len(),
        at,
        load_step(environment, chosen, fewer, at),
        load_step(environment, chosen, fewer + more, at),
    );
}

#[verifier::rlimit(100)]
#[verifier::spinoff_prover]
proof fn finding_needs_no_more(
    config: RuntimeView,
    file: Seq<char>,
    replies: Seq<ReplyView>,
    at: int,
    store: StoreView,
    relative: Seq<char>,
    found: int,
    k: int,
)
    requires
        0 <= at,
        for_file_step(config, file, replies, at) == StepView::Finished(
            Some((store, relative)),
            found,
        ),
        found <= k <= replies.len(),
    ensures
        at <= found,
        for_file_step(config, file, replies.take(k), at) == StepView::Finished(
            Some((store, relative)),
            found,
        ),
{
    let fewer = replies.take(k);
    let more = replies.skip(k);
    assert(fewer + more =~= replies);
    finding_keeps(config, file, fewer, more, at);
    kept_is_the_same(
        fewer.len(),
        at,
        for_file_step(config, file, fewer, at),
        for_file_step(config, file, fewer + more, at),
    );
}

#[verifier::rlimit(100)]
#[verifier::spinoff_prover]
proof fn loading_and_finding_need_no_more(
    environment: EnvironmentView,
    chosen: Option<Seq<char>>,
    file: Seq<char>,
    replies: Seq<ReplyView>,
    at: int,
    config: RuntimeView,
    loaded: int,
    store: StoreView,
    relative: Seq<char>,
    found: int,
    k: int,
)
    requires
        0 <= at,
        load_step(environment, chosen, replies, at) == StepView::Finished(config, loaded),
        for_file_step(config, file, replies, loaded) == StepView::Finished(
            Some((store, relative)),
            found,
        ),
        0 <= loaded <= found,
        found <= k <= replies.len(),
    ensures
        reached(environment, chosen, file, replies, at, k, store, relative, found),
{
    reveal(reached);
    loading_needs_no_more(environment, chosen, replies, at, config, loaded, k);
    finding_needs_no_more(config, file, replies, loaded, store, relative, found, k);
}

/// Where a file has been found, what is left to do is to list or to show it.
#[verifier::rlimit(100)]
#[verifier::spinoff_prover]
proof fn commands_go_on(
    environment: EnvironmentView,
    chosen: Option<Seq<char>>,
    file: Seq<char>,
    limit: nat,
    revision: Seq<char>,
    replies: Seq<ReplyView>,
    at: int,
    store: StoreView,
    relative: Seq<char>,
    found: int,
    k: int,
)
    requires
        reached(environment, chosen, file, replies, at, k, store, relative, found),
    ensures
        listing(environment, chosen, file, limit, replies, at, k) == list_step(
            store,
            relative,
            limit,
            replies.take(k),
            found,
        ),
        showing(environment, chosen, file, revision, replies, at, k) == show_step(
            store,
            relative,
            revision,
            replies.take(k),
            found,
        ),
{
    reveal(reached);
    reveal(listing);
    reveal(showing);
}

#[verifier::rlimit(100)]
#[verifier::spinoff_prover]
proof fn the_order_of_the_replies(
    environment: EnvironmentView,
    chosen: Option<Seq<char>>,
    file: Seq<char>,
    replies: Seq<ReplyView>,
    at: int,
    config: RuntimeView,
    loaded: int,
    store: StoreView,
    relative: Seq<char>,
    found: int,
)
    requires
        0 <= at,
        load_step(environment, chosen, replies, at) == StepView::Finished(config, loaded),
        for_file_step(config, file, replies, loaded) == StepView::Finished(
            Some((store, relative)),
            found,
        ),
    ensures
        at <= loaded <= found,
{
    let none = Seq::<ReplyView>::empty();
    assert(none + replies =~= replies);
    configuration_keeps(environment, chosen, false, none, replies, at);
    finding_keeps(config, file, none, replies, loaded);
}

#[verifier::rlimit(100)]
#[verifier::spinoff_prover]
proof fn a_found_file_is_listed(
    environment: EnvironmentView,
    chosen: Option<Seq<char>>,
    file: Seq<char>,
    limit: nat,
    changes: spec_fn(Seq<char>) -> Seq<SnapshotView>,
    replies: Seq<ReplyView>,
    at: int,
    store: StoreView,
    relative: Seq<char>,
    found: int,
    n: int,
    output: OutputView,
)
    requires
        reached(environment, chosen, file, replies, at, n, store, relative, found),
        reached(
            environment,
            chosen,
            file,
            replies,
            at,
            replies.len() as int,
            store,
            relative,
            found,
        ),
        path_problem(store.style, relative) is None,
        has_history_step(store, replies, found) == StepView::Finished(true, n),
        0 <= found <= n < replies.len(),
        replies[n] == ReplyView::Output(output),
        output.success(),
        forall|of: Seq<char>, i: int|
            0 <= i < changes(of).len() ==> fits_a_line(#[trigger] changes(of)[i]),
        listing(environment, chosen, file, limit, replies, at, n)
            matches StepView::Perform(ActionView::Run(command)) ==> logs_by_words(
            changes,
            store,
            command,
            output,
        ),
    ensures
        listing(environment, chosen, file, limit, replies, at, n)
            matches StepView::Perform(ActionView::Run(command)) && works_on_store(store, command)
            && unsigned_of(command.arguments[4]) == Some(limit) && command.arguments[6] == relative,
        listing(environment, chosen, file, limit, replies, at, replies.len() as int) == StepView::Finished(
            first_of(changes(relative), limit),
            n + 1,
        ),
        first_of(changes(relative), limit).len() <= limit,
{
    assert(replies.take(replies.len() as int) =~= replies);
    commands_go_on(
        environment,
        chosen,
        file,
        limit,
        Seq::empty(),
        replies,
        at,
        store,
        relative,
        found,
        n,
    );
    commands_go_on(
        environment,
        chosen,
        file,
        limit,
        Seq::empty(),
        replies,
        at,
        store,
        relative,
        found,
        replies.len() as int,
    );
    the_newest_changes_are_listed(
        store,
        relative,
        limit,
        changes,
        replies,
        found,
        n,
        output,
    );
    reading_works_on_the_store(store, relative, limit, Seq::empty(), replies.take(n), found);
}

/// `list` lists the newest changes of the file that the user names, as many as
/// the user asks for: with Git logging by the words that it is asked with, the
/// list is the first `limit` of the snapshots in which the file changed. The path
/// that Git is asked about leads back to the file.
#[verifier::rlimit(100)]
#[verifier::spinoff_prover]
pub proof fn list_shows_the_newest_changes_of_the_file(
    environment: EnvironmentView,
    chosen: Option<Seq<char>>,
    file: Seq<char>,
    limit: nat,
    changes: spec_fn(Seq<char>) -> Seq<SnapshotView>,
    replies: Seq<ReplyView>,
    at: int,
    config: RuntimeView,
    loaded: int,
    path: Seq<char>,
    absolute: int,
    root: Seq<char>,
    located: int,
    store: StoreView,
    relative: Seq<char>,
    found: int,
    n: int,
    output: OutputView,
)
    requires
        0 <= at,
        load_step(environment, chosen, replies, at) == StepView::Finished(config, loaded),
        is_found(
            config,
            file,
            replies,
            loaded,
            path,
            absolute,
            root,
            located,
            store,
            relative,
            found,
        ),
        comes_apart(config, root, path),
        verbatim(config.style, root) ==> !relative.contains('/'),
        has_history_step(store, replies, found) == StepView::Finished(true, n),
        found <= n < replies.len(),
        replies[n] == ReplyView::Output(output),
        output.success(),
        forall|of: Seq<char>, i: int|
            0 <= i < changes(of).len() ==> fits_a_line(#[trigger] changes(of)[i]),
        listing(environment, chosen, file, limit, replies, at, n)
            matches StepView::Perform(ActionView::Run(command)) ==> logs_by_words(
            changes,
            store,
            command,
            output,
        ),
    ensures
        listing(environment, chosen, file, limit, replies, at, n)
            matches StepView::Perform(ActionView::Run(command)) && {
            let asked = command.arguments[6];
            &&& works_on_store(store, command)
            &&& unsigned_of(command.arguments[4]) == Some(limit)
            &&& components(config.style, joined(config.style, root, asked)) == components(
                config.style,
                path,
            )
            &&& listing(environment, chosen, file, limit, replies, at, replies.len() as int)
                == StepView::Finished(first_of(changes(asked), limit), n + 1)
        },
        first_of(changes(relative), limit).len() <= limit,
{
    a_found_file_lies_below_the_root(
        config,
        file,
        replies,
        loaded,
        path,
        absolute,
        root,
        located,
        store,
        relative,
        found,
    );
    the_order_of_the_replies(
        environment,
        chosen,
        file,
        replies,
        at,
        config,
        loaded,
        store,
        relative,
        found,
    );
    loading_and_finding_need_no_more(
        environment,
        chosen,
        file,
        replies,
        at,
        config,
        loaded,
        store,
        relative,
        found,
        n,
    );
    loading_and_finding_need_no_more(
        environment,
        chosen,
        file,
        replies,
        at,
        config,
        loaded,
        store,
        relative,
        found,
        replies.len() as int,
    );
    a_found_file_is_listed(
        environment,
        chosen,
        file,
        limit,
        changes,
        replies,
        at,
        store,
        relative,
        found,
        n,
        output,
    );
}

/// Where the file has no history, or the history no snapshot, nothing is
/// listed, and nothing is shown.
pub proof fn without_a_history_nothing_is_listed_or_shown(
    environment: EnvironmentView,
    chosen: Option<Seq<char>>,
    file: Seq<char>,
    limit: nat,
    revision: Seq<char>,
    replies: Seq<ReplyView>,
    at: int,
    config: RuntimeView,
    loaded: int,
)
    requires
        load_step(environment, chosen, replies, at) == StepView::Finished(config, loaded),
    ensures
        for_file_step(config, file, replies, loaded) matches StepView::Finished(None, found) ==> {
            &&& list_command_step(environment, chosen, file, limit, replies, at)
                == StepView::Finished(Seq::<SnapshotView>::empty(), found)
            &&& show_command_step(environment, chosen, file, revision, replies, at)
                == StepView::Finished(None::<Seq<u8>>, found)
        },
        for_file_step(config, file, replies, loaded) matches StepView::Finished(
            Some((store, relative)),
            found,
        ) ==> path_problem(store.style, relative) is None ==> (has_history_step(
            store,
            replies,
            found,
        ) matches StepView::Finished(false, n) ==> list_command_step(
            environment,
            chosen,
            file,
            limit,
            replies,
            at,
        ) == StepView::Finished(Seq::<SnapshotView>::empty(), n)),
{
}

#[verifier::rlimit(100)]
#[verifier::spinoff_prover]
proof fn a_found_file_is_shown(
    environment: EnvironmentView,
    chosen: Option<Seq<char>>,
    file: Seq<char>,
    revision: Seq<char>,
    objects: Map<Seq<char>, Seq<u8>>,
    replies: Seq<ReplyView>,
    at: int,
    config: RuntimeView,
    store: StoreView,
    relative: Seq<char>,
    found: int,
    inspected: OutputView,
    shown: OutputView,
)
    requires
        reached(environment, chosen, file, replies, at, found, store, relative, found),
        reached(environment, chosen, file, replies, at, found + 1, store, relative, found),
        reached(
            environment,
            chosen,
            file,
            replies,
            at,
            replies.len() as int,
            store,
            relative,
            found,
        ),
        store.style == config.style,
        path_problem(store.style, relative) is None,
        is_revision(revision),
        !relative.contains('\0'),
        0 <= found,
        found + 1 < replies.len(),
        replies[found] == ReplyView::Output(inspected),
        replies[found + 1] == ReplyView::Output(shown),
        showing(environment, chosen, file, revision, replies, at, found)
            matches StepView::Perform(ActionView::Run(command)) ==> answers_for(
            objects,
            store,
            command,
            inspected,
        ),
        showing(environment, chosen, file, revision, replies, at, found + 1)
            matches StepView::Perform(ActionView::Run(command)) ==> answers_for(
            objects,
            store,
            command,
            shown,
        ),
    ensures
        ({
            let object = revision + ":"@ + git_form(config.style, relative);
            &&& showing(environment, chosen, file, revision, replies, at, found)
                matches StepView::Perform(ActionView::Run(command)) && works_on_store(
                store,
                command,
            ) && command.arguments == seq!["cat-file"@, "-e"@, object]
            &&& if objects.contains_key(object) {
                &&& showing(environment, chosen, file, revision, replies, at, replies.len() as int)
                    == StepView::Finished(Some(objects[object]), found + 2)
                &&& showing(environment, chosen, file, revision, replies, at, found + 1) matches StepView::Perform(ActionView::Run(command)) && works_on_store(
                    store,
                    command,
                ) && command.arguments == seq!["show"@, object]
            } else {
                showing(environment, chosen, file, revision, replies, at, replies.len() as int)
                    == StepView::Finished(None::<Seq<u8>>, found + 1)
            }
        }),
{
    assert(replies.take(replies.len() as int) =~= replies);
    commands_go_on(
        environment,
        chosen,
        file,
        0,
        revision,
        replies,
        at,
        store,
        relative,
        found,
        found,
    );
    commands_go_on(
        environment,
        chosen,
        file,
        0,
        revision,
        replies,
        at,
        store,
        relative,
        found,
        found + 1,
    );
    commands_go_on(
        environment,
        chosen,
        file,
        0,
        revision,
        replies,
        at,
        store,
        relative,
        found,
        replies.len() as int,
    );
    a_file_is_shown_as_git_holds_it(
        objects,
        store,
        relative,
        revision,
        replies,
        found,
        inspected,
        shown,
    );
    reading_works_on_the_store(store, relative, 0, revision, replies.take(found), found);
    reading_works_on_the_store(store, relative, 0, revision, replies.take(found + 1), found);
}

/// `show` shows what the file that the user names held in the snapshot that the
/// user names: with Git answering by the words that it is asked with, it ends
/// with what Git holds for the revision and the path of the file below the root
/// of its worktree, and with nothing where Git holds nothing. The path that Git is
/// asked about leads back to the file.
#[verifier::rlimit(100)]
#[verifier::spinoff_prover]
pub proof fn show_shows_the_file_in_the_snapshot(
    environment: EnvironmentView,
    chosen: Option<Seq<char>>,
    file: Seq<char>,
    revision: Seq<char>,
    objects: Map<Seq<char>, Seq<u8>>,
    replies: Seq<ReplyView>,
    at: int,
    config: RuntimeView,
    loaded: int,
    path: Seq<char>,
    absolute: int,
    root: Seq<char>,
    located: int,
    store: StoreView,
    relative: Seq<char>,
    found: int,
    inspected: OutputView,
    shown: OutputView,
)
    requires
        0 <= at,
        load_step(environment, chosen, replies, at) == StepView::Finished(config, loaded),
        is_found(
            config,
            file,
            replies,
            loaded,
            path,
            absolute,
            root,
            located,
            store,
            relative,
            found,
        ),
        comes_apart(config, root, path),
        verbatim(config.style, root) ==> !relative.contains('/'),
        is_revision(revision),
        !relative.contains('\0'),
        0 <= found,
        found + 1 < replies.len(),
        replies[found] == ReplyView::Output(inspected),
        replies[found + 1] == ReplyView::Output(shown),
        showing(environment, chosen, file, revision, replies, at, found)
            matches StepView::Perform(ActionView::Run(command)) ==> answers_for(
            objects,
            store,
            command,
            inspected,
        ),
        showing(environment, chosen, file, revision, replies, at, found + 1)
            matches StepView::Perform(ActionView::Run(command)) ==> answers_for(
            objects,
            store,
            command,
            shown,
        ),
    ensures
        components(config.style, joined(config.style, root, relative)) == components(
            config.style,
            path,
        ),
        ({
            let object = revision + ":"@ + git_form(config.style, relative);
            &&& showing(environment, chosen, file, revision, replies, at, found)
                matches StepView::Perform(ActionView::Run(command)) && works_on_store(
                store,
                command,
            ) && command.arguments == seq!["cat-file"@, "-e"@, object]
            &&& if objects.contains_key(object) {
                &&& showing(environment, chosen, file, revision, replies, at, replies.len() as int)
                    == StepView::Finished(Some(objects[object]), found + 2)
                &&& showing(environment, chosen, file, revision, replies, at, found + 1) matches StepView::Perform(ActionView::Run(command)) && works_on_store(
                    store,
                    command,
                ) && command.arguments == seq!["show"@, object]
            } else {
                showing(environment, chosen, file, revision, replies, at, replies.len() as int)
                    == StepView::Finished(None::<Seq<u8>>, found + 1)
            }
        }),
{
    a_found_file_lies_below_the_root(
        config,
        file,
        replies,
        loaded,
        path,
        absolute,
        root,
        located,
        store,
        relative,
        found,
    );
    the_order_of_the_replies(
        environment,
        chosen,
        file,
        replies,
        at,
        config,
        loaded,
        store,
        relative,
        found,
    );
    loading_and_finding_need_no_more(
        environment,
        chosen,
        file,
        replies,
        at,
        config,
        loaded,
        store,
        relative,
        found,
        found,
    );
    loading_and_finding_need_no_more(
        environment,
        chosen,
        file,
        replies,
        at,
        config,
        loaded,
        store,
        relative,
        found,
        found + 1,
    );
    loading_and_finding_need_no_more(
        environment,
        chosen,
        file,
        replies,
        at,
        config,
        loaded,
        store,
        relative,
        found,
        replies.len() as int,
    );
    a_found_file_is_shown(
        environment,
        chosen,
        file,
        revision,
        objects,
        replies,
        at,
        config,
        store,
        relative,
        found,
        inspected,
        shown,
    );
}

/// `capture` takes a snapshot of the whole worktree that the path of the user
/// lies in, and says which one it is, by the beginning of its name; or that
/// nothing has changed.
pub proof fn capture_captures_the_worktree_of_the_path(
    environment: EnvironmentView,
    chosen: Option<Seq<char>>,
    project: Seq<char>,
    replies: Seq<ReplyView>,
    at: int,
    config: RuntimeView,
    loaded: int,
    root: Seq<char>,
    located: int,
    store: StoreView,
    opened: int,
)
    requires
        load_step(environment, chosen, replies, at) == StepView::Finished(config, loaded),
        git_root_step(config.style, project, replies, loaded) == StepView::Finished(root, located),
        open_step(config, root, replies, located) == StepView::Finished(store, opened),
    ensures
        match capture_full_step(store, "manual"@, replies, opened) {
            StepView::Perform(action) => capture_command_step(
                environment,
                chosen,
                project,
                replies,
                at,
            ) == StepView::<Seq<char>>::Perform(action),
            StepView::Failed(failure) => capture_command_step(
                environment,
                chosen,
                project,
                replies,
                at,
            ) == StepView::<Seq<char>>::Failed(failure),
            StepView::Finished(None, n) => capture_command_step(
                environment,
                chosen,
                project,
                replies,
                at,
            ) == StepView::Finished("unchanged"@, n),
            StepView::Finished(Some(commit), n) => {
                &&& capture_command_step(environment, chosen, project, replies, at)
                    == StepView::Finished(short_of(commit), n)
                &&& is_char_boundary(encode_utf8(commit), 12) ==> short_of(commit) == decode_utf8(
                    encode_utf8(commit).take(12),
                )
            },
        },
{
}

/// `capture-trigger` captures the worktree that Watchman reports on: everything,
/// where the report says that it is not complete, where it is the first one, or
/// where there is no snapshot yet; else what is reported, in order, but for what
/// is there and is a directory.
pub proof fn capture_trigger_captures_what_is_reported(
    environment: EnvironmentView,
    chosen: Option<Seq<char>>,
    project: Seq<char>,
    event: TriggerEventView,
    replies: Seq<ReplyView>,
    at: int,
    config: RuntimeView,
    loaded: int,
    store: StoreView,
    opened: int,
)
    requires
        load_step(environment, chosen, replies, at) == StepView::Finished(config, loaded),
        open_step(config, project, replies, loaded) == StepView::Finished(store, opened),
    ensures
        ({
            let source = "watchman:"@ + (match event.clock {
                Some(clock) => clock,
                None => "unknown"@,
            });
            let whole = capture_full_step(store, source, replies, opened);
            let step = trigger_command_step(environment, chosen, project, event, replies, at);
            let overflown = event.overflow matches Some(text) && is_true(text);
            &&& !event.since || overflown ==> ends_like(project, whole, step)
            &&& event.since && !overflown ==> match has_history_step(
                store,
                replies,
                opened,
            ) {
                StepView::Perform(action) => step == StepView::<Option<Seq<char>>>::Perform(action),
                StepView::Failed(failure) => step == StepView::<Option<Seq<char>>>::Failed(failure),
                StepView::Finished(false, n) => ends_like(
                    project,
                    capture_full_step(store, source, replies, n),
                    step,
                ),
                StepView::Finished(true, n) => {
                    &&& n >= replies.len() ==> step == StepView::<Option<Seq<char>>>::Perform(
                        ActionView::ReadChangedFiles,
                    )
                    &&& n < replies.len() ==> (replies[n] matches ReplyView::Files(files)
                        ==> ends_like(
                        project,
                        capture_paths_step(store, counting(files), source, replies, n + 1),
                        step,
                    ))
                },
            }
        }),
{
}

/// Whether a text is `true`, in large letters or small ones.
pub open spec fn is_true(text: Seq<char>) -> bool {
    &&& text.len() == 4
    &&& text[0] == 't' || text[0] == 'T'
    &&& text[1] == 'r' || text[1] == 'R'
    &&& text[2] == 'u' || text[2] == 'U'
    &&& text[3] == 'e' || text[3] == 'E'
}

/// Whether a command does what a capture does, and says something exactly where
/// a snapshot was made: of which worktree it is, and how its name begins.
pub open spec fn ends_like(
    project: Seq<char>,
    capture: StepView<Option<Seq<char>>>,
    command: StepView<Option<Seq<char>>>,
) -> bool {
    match capture {
        StepView::Perform(action) => command == StepView::<Option<Seq<char>>>::Perform(action),
        StepView::Failed(failure) => command == StepView::<Option<Seq<char>>>::Failed(failure),
        StepView::Finished(outcome, n) => command == StepView::Finished(
            match outcome {
                Some(commit) => Some("captured "@ + readable(project) + " at "@ + short_of(commit)),
                None => None,
            },
            n,
        ),
    }
}

/// `discover` finds what the configuration of the user leads to.
pub proof fn discover_goes_by_the_configuration(
    environment: EnvironmentView,
    chosen: Option<Seq<char>>,
    refusal: Option<Seq<char>>,
    excluded: Seq<bool>,
    replies: Seq<ReplyView>,
    at: int,
    config: RuntimeView,
    loaded: int,
)
    requires
        load_step(environment, chosen, replies, at) == StepView::Finished(config, loaded),
    ensures
        discover_command_step(environment, chosen, refusal, excluded, replies, at)
            == discover_step(config, refusal, excluded, replies, loaded),
{
}

/// `init` writes the documented configuration to where the user says, or to the
/// platform's place, and says where.
pub proof fn init_writes_the_documented_configuration(
    environment: EnvironmentView,
    chosen: Option<Seq<char>>,
    force: bool,
    replies: Seq<ReplyView>,
    at: int,
    said: Seq<char>,
    n: int,
)
    requires
        0 <= at,
        init_step(environment, chosen, force, replies, at) == StepView::Finished(said, n),
    ensures
        at < n <= replies.len(),
        init_step(environment, chosen, force, replies.take(n - 1), at) matches StepView::Perform(
            ActionView::WriteConfig(path, kept),
        ) && {
            &&& kept == default_config()
            &&& said == "created "@ + shown(environment.style, path, environment.home)
            &&& chosen is None ==> path == environment.paths.config_file
            &&& chosen matches Some(place) ==> absolute(environment.style, place) ==> path == place
        },
{
    let path = write_default_step(environment, chosen, force, replies, at)->Finished_0;
    init_writes_the_defaults(environment, chosen, force, replies, at, path, n);
}

/// `paths` says where the configuration, the histories and the state lie, each
/// in a line of its own.
pub proof fn paths_says_where_everything_lies(config: RuntimeView)
    ensures
        path_lines(config) == seq![
            "config: "@ + shown(config.style, config.config_path, config.home),
            "data:   "@ + shown(config.style, config.store_dir, config.home),
            "state:  "@ + shown(config.style, config.state_dir, config.home),
        ],
{
}

/// `discover` says where each worktree lies, in a line of its own, or that there
/// is none.
pub proof fn discover_says_where_the_worktrees_lie(projects: Seq<Seq<char>>)
    ensures
        projects.len() == 0 ==> project_lines(projects) == seq![
            "no repositories configured or discovered"@,
        ],
        projects.len() > 0 ==> project_lines(projects).len() == projects.len() && forall|i: int|
            0 <= i < projects.len() ==> project_lines(projects)[i] == readable(
                #[trigger] projects[i],
            ),
{
}

/// A snapshot is listed by its name, its time and its subject, between tabs.
pub proof fn a_snapshot_is_listed_in_a_line(snapshot: SnapshotView)
    ensures
        line_of(snapshot) == snapshot.commit + "\t"@ + signed_decimal(snapshot.timestamp as int)
            + "\t"@ + snapshot.summary,
{
}

/// A leading `~` stands for the home directory, alone or before a slash or a
/// backslash, and for nothing else.
pub proof fn a_leading_tilde_is_the_home_directory(
    style: PathStyle,
    home: Option<Seq<char>>,
    rest: Seq<char>,
)
    ensures
        expanded(style, "~"@, home) == home,
        expanded(style, "~/"@ + rest, home) == (match home {
            Some(directory) => Some(joined(style, directory, rest)),
            None => None,
        }),
        expanded(style, "~\\"@ + rest, home) == (match home {
            Some(directory) => Some(joined(style, directory, rest)),
            None => None,
        }),
        rest.len() == 0 || rest[0] != '~' ==> expanded(style, rest, home) == Some(rest),
        rest.len() > 0 && rest[0] != '/' && rest[0] != '\\' ==> expanded(style, "~"@ + rest, home)
            == Some("~"@ + rest),
{
    reveal_strlit("~");
    reveal_strlit("~/");
    reveal_strlit("~\\");
    assert(("~/"@ + rest).take(2) =~= "~/"@);
    assert(("~/"@ + rest).skip(2) =~= rest);
    assert(("~\\"@ + rest).take(2) =~= "~\\"@);
    assert(("~\\"@ + rest).skip(2) =~= rest);
    if begins_with(rest, "~/"@) {
        assert(rest.take(2)[0] == rest[0]);
    }
    if begins_with(rest, "~\\"@) {
        assert(rest.take(2)[0] == rest[0]);
    }
    let named = "~"@ + rest;
    if begins_with(named, "~/"@) {
        assert(named.take(2)[1] == rest[0]);
    }
    if begins_with(named, "~\\"@) {
        assert(named.take(2)[1] == rest[0]);
    }
}

/// The configuration, the histories and the state lie in directories of this
/// program's name below those that the platform has for them; the state lies
/// with the histories where the platform has none for it.
pub proof fn the_program_has_directories_of_its_own(
    style: PathStyle,
    config: Option<Seq<char>>,
    data: Option<Seq<char>>,
    state: Option<Seq<char>>,
)
    ensures
        config is None ==> app_paths(style, config, data, state) == Err::<
            AppPathsView,
            FailureView,
        >(FailureView::ConfigDirectoryUnknown),
        config is Some && data is None ==> app_paths(style, config, data, state) == Err::<
            AppPathsView,
            FailureView,
        >(FailureView::DataDirectoryUnknown),
        config is Some && data is Some ==> (app_paths(style, config, data, state) matches Ok(paths)
            && {
            &&& paths.config_file == joined(
                style,
                joined(style, config->0, "yesterfile"@),
                "config.json"@,
            )
            &&& paths.data_dir == joined(style, data->0, "yesterfile"@)
            &&& state matches Some(place) ==> paths.state_dir == joined(
                style,
                place,
                "yesterfile"@,
            )
            &&& state is None ==> paths.state_dir == joined(style, paths.data_dir, "state"@)
        }),
{
}

} // verus!
