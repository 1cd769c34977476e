//! What discovery finds on a platform.

use crate::config::{RepositoryView, RuntimeView};
use crate::discovery::{
    below_step, candidates_step, discover_step, exclusions, exclusions_allow, explicit_step,
    has_backslash, locate_step, matched_bytes, walk_step,
};
use crate::laws::discovery::discovered_worktrees;
use crate::laws::replay::{locating_keeps, walking_keeps};
use crate::outside::any_glob_matches;
use crate::path_set::{holds_path, paths_ascending};
use crate::paths::{absolute, parent_of, PathStyle};
use crate::platform::expanded;
use crate::procedure::{ActionView, FailureView, ReplyView, StepView};
use crate::text::trimmed;
use vstd::prelude::*;
use vstd::utf8::{decode_utf8, valid_utf8};

verus! {

/// The files of a platform, as far as worktrees are looked for among them.
pub struct PlatformView {
    /// Whether a path is that of a directory.
    pub directory: spec_fn(Seq<char>) -> bool,
    /// What Git says in a directory of the worktree that it lies in.
    pub toplevel: spec_fn(Seq<char>) -> Option<Seq<char>>,
    /// Where a path leads.
    pub canonical: spec_fn(Seq<char>) -> Seq<char>,
    /// The worktrees below a directory, as deep as that.
    pub below: spec_fn(Seq<char>, usize) -> Seq<Seq<char>>,
}

impl PlatformView {
    /// The worktree that a path lies in: a directory says it of itself, and for
    /// anything else the directory that it is in says it.
    pub open spec fn worktree(self, style: PathStyle, path: Seq<char>) -> Option<Seq<char>> {
        let start = if (self.directory)(path) {
            Some(path)
        } else {
            parent_of(style, path)
        };
        match start {
            Some(place) => match (self.toplevel)(place) {
                Some(root) => Some((self.canonical)(root)),
                None => None,
            },
            None => None,
        }
    }
}

/// Whether a reply is what the platform has to say to an action, which Git is
/// asked in these words.
pub open spec fn tells(platform: PlatformView, action: ActionView, reply: ReplyView) -> bool {
    match action {
        ActionView::AreDirectories(list) => list.len() == 1 ==> reply == ReplyView::Flags(
            seq![(platform.directory)(list[0])],
        ),
        ActionView::Resolve(path) => reply == ReplyView::Paths(
            seq![Some((platform.canonical)(path))],
        ),
        ActionView::Walk(root, depth) => reply == ReplyView::Found((platform.below)(root, depth)),
        ActionView::Run(command) => command.program == "git"@ && command.environment.len() == 0
            && command.input is None && command.arguments.len() == 5 && command.arguments
            == seq![
            "-C"@,
            command.arguments[1],
            "rev-parse"@,
            "--path-format=absolute"@,
            "--show-toplevel"@,
        ] ==> (reply matches ReplyView::Output(output) && match (platform.toplevel)(
            command.arguments[1],
        ) {
            Some(root) => output.success() && valid_utf8(output.stdout) && trimmed(
                decode_utf8(output.stdout),
            ) == root,
            None => !output.success(),
        }),
        _ => true,
    }
}

/// Whether a repository that the user names leads to the worktree at `x`.
pub open spec fn is_named(
    config: RuntimeView,
    platform: PlatformView,
    repository: RepositoryView,
    x: Seq<char>,
) -> bool {
    let value = match repository {
        RepositoryView::Path(path) => path,
        RepositoryView::Detailed(options) => options.path,
    };
    expanded(config.style, value, config.home) matches Some(path) && absolute(config.style, path)
        && platform.worktree(config.style, path) == Some(x)
}

/// Whether a discovery root leads to the worktree at `x`.
pub open spec fn is_below(
    config: RuntimeView,
    platform: PlatformView,
    value: Seq<char>,
    x: Seq<char>,
) -> bool {
    expanded(config.style, value, config.home) matches Some(root) && absolute(config.style, root)
        && (platform.directory)(root) && (platform.below)(
        root,
        config.values.discovery_max_depth,
    ).contains(x)
}

#[verifier::rlimit(40)]
proof fn locating_finds(
    config: RuntimeView,
    platform: PlatformView,
    repository: RepositoryView,
    replies: Seq<ReplyView>,
    at: int,
    result: Option<Seq<char>>,
    n: int,
)
    requires
        0 <= at,
        locate_step(config.style, config.home, repository.path(), replies, at)
            == StepView::Finished(result, n),
        forall|m: int|
            at <= m < n && m < replies.len() ==> (#[trigger] locate_step(
                config.style,
                config.home,
                repository.path(),
                replies.take(m),
                at,
            ) matches StepView::Perform(action) ==> tells(platform, action, replies[m])),
    ensures
        forall|x: Seq<char>|
            result == Some(x) <==> #[trigger] is_named(config, platform, repository, x),
{
    let style = config.style;
    let home = config.home;
    let value = repository.path();
    let path = expanded(style, value, home)->0;
    if absolute(style, path) {
        assert(locate_step(style, home, value, replies.take(at), at)
            == StepView::<Option<Seq<char>>>::Perform(ActionView::AreDirectories(seq![path])));
        assert(replies[at] == ReplyView::Flags(seq![(platform.directory)(path)]));
        assert(replies.take(at + 1)[at] == replies[at]);
        assert(replies.take(at + 2)[at] == replies[at]);
        assert(replies.take(at + 2)[at + 1] == replies[at + 1]);
        assert(seq![(platform.directory)(path)][0] == (platform.directory)(path));
        let start = if (platform.directory)(path) {
            Some(path)
        } else {
            parent_of(style, path)
        };
        if let Some(place) = start {
            let words = seq![
                "-C"@,
                place,
                "rev-parse"@,
                "--path-format=absolute"@,
                "--show-toplevel"@,
            ];
            let step = locate_step(style, home, value, replies.take(at + 1), at);
            assert(at + 1 < replies.len());
            assert(step matches StepView::Perform(ActionView::Run(command)) && command.arguments
                == words && command.arguments[1] == place);
            assert(replies[at + 1] is Output);
            let output = replies[at + 1]->Output_0;
            if let Some(root) = (platform.toplevel)(place) {
                let next = locate_step(style, home, value, replies.take(at + 2), at);
                assert(at + 2 < replies.len());
                assert(next == StepView::<Option<Seq<char>>>::Perform(ActionView::Resolve(root)));
                assert(replies[at + 2] == ReplyView::Paths(
                    seq![Some((platform.canonical)(root))],
                ));
                assert(seq![Some((platform.canonical)(root))][0] == Some(
                    (platform.canonical)(root),
                ));
            }
        }
    }
}

#[verifier::rlimit(40)]
proof fn naming_finds(
    config: RuntimeView,
    platform: PlatformView,
    repositories: Seq<RepositoryView>,
    replies: Seq<ReplyView>,
    at: int,
    list: Seq<Seq<char>>,
    n: int,
    x: Seq<char>,
)
    requires
        0 <= at,
        explicit_step(config.style, config.home, repositories, replies, at) == StepView::Finished(
            list,
            n,
        ),
        forall|m: int|
            at <= m < n && m < replies.len() ==> (#[trigger] explicit_step(
                config.style,
                config.home,
                repositories,
                replies.take(m),
                at,
            ) matches StepView::Perform(action) ==> tells(platform, action, replies[m])),
    ensures
        at <= n,
        list.contains(x) <==> exists|i: int|
            0 <= i < repositories.len() && is_named(
                config,
                platform,
                #[trigger] repositories[i],
                x,
            ),
    decreases repositories.len(),
{
    let style = config.style;
    let home = config.home;
    if repositories.len() > 0 {
        let init = repositories.drop_last();
        let last = repositories.last();
        let end = repositories.len() - 1;
        let earlier = explicit_step(style, home, init, replies, at);
        let before = earlier->Finished_0;
        let between = earlier->Finished_1;
        assert(replies + Seq::<ReplyView>::empty() =~= replies);
        locating_keeps(style, home, repositories, replies, Seq::empty(), at);
        locating_keeps(style, home, init, replies, Seq::empty(), at);
        assert forall|m: int| at <= m < between && m < replies.len() implies (
        #[trigger] explicit_step(style, home, init, replies.take(m), at) matches StepView::Perform(
            action,
        ) ==> tells(platform, action, replies[m])) by {
            if explicit_step(style, home, init, replies.take(m), at) is Perform {
                assert(explicit_step(style, home, repositories, replies.take(m), at) is Perform);
                assert(between <= n);
            }
        }
        assert forall|m: int| between <= m < n && m < replies.len() implies (#[trigger] locate_step(
            style,
            home,
            last.path(),
            replies.take(m),
            between,
        ) matches StepView::Perform(action) ==> tells(platform, action, replies[m])) by {
            assert(replies.take(m) + replies.skip(m) =~= replies);
            locating_keeps(style, home, init, replies.take(m), replies.skip(m), at);
            assert(explicit_step(style, home, init, replies.take(m), at) == earlier);
            assert(explicit_step(style, home, repositories, replies.take(m), at)
                matches StepView::Perform(action) ==> tells(platform, action, replies[m]));
        }
        naming_finds(config, platform, init, replies, at, before, between, x);
        let result = locate_step(style, home, last.path(), replies, between)->Finished_0;
        locating_finds(config, platform, last, replies, between, result, n);
        assert(result == Some(x) <==> is_named(config, platform, last, x));
        assert(repositories[end] == last);
        if before.contains(x) {
            let k = choose|k: int| 0 <= k < before.len() && before[k] == x;
            assert(list[k] == x);
        }
        if result == Some(x) {
            assert(list[before.len() as int] == x);
        }
        if list.contains(x) {
            let k = choose|k: int| 0 <= k < list.len() && list[k] == x;
            if k < before.len() {
                assert(before[k] == x);
                assert(before.contains(x));
            } else {
                assert(result == Some(x));
            }
        }
        if exists|i: int|
            0 <= i < init.len() && is_named(config, platform, #[trigger] init[i], x) {
            let i = choose|i: int|
                0 <= i < init.len() && is_named(config, platform, #[trigger] init[i], x);
            assert(is_named(config, platform, repositories[i], x));
        }
        if exists|i: int|
            0 <= i < repositories.len() && is_named(
                config,
                platform,
                #[trigger] repositories[i],
                x,
            ) {
            let i = choose|i: int|
                0 <= i < repositories.len() && is_named(
                    config,
                    platform,
                    #[trigger] repositories[i],
                    x,
                );
            if i < end {
                assert(is_named(config, platform, init[i], x));
            }
        }
    }
}

proof fn searching_finds(
    config: RuntimeView,
    platform: PlatformView,
    root: Seq<char>,
    replies: Seq<ReplyView>,
    at: int,
    list: Seq<Seq<char>>,
    n: int,
)
    requires
        0 <= at,
        below_step(root, config.values.discovery_max_depth, replies, at) == StepView::Finished(
            list,
            n,
        ),
        forall|m: int|
            at <= m < n && m < replies.len() ==> (#[trigger] below_step(
                root,
                config.values.discovery_max_depth,
                replies.take(m),
                at,
            ) matches StepView::Perform(action) ==> tells(platform, action, replies[m])),
    ensures
        list == (if (platform.directory)(root) {
            (platform.below)(root, config.values.discovery_max_depth)
        } else {
            Seq::empty()
        }),
{
    let depth = config.values.discovery_max_depth;
    assert(below_step(root, depth, replies.take(at), at) == StepView::<Seq<Seq<char>>>::Perform(
        ActionView::AreDirectories(seq![root]),
    ));
    assert(replies[at] == ReplyView::Flags(seq![(platform.directory)(root)]));
    assert(seq![(platform.directory)(root)][0] == (platform.directory)(root));
    assert(replies.take(at + 1)[at] == replies[at]);
    if (platform.directory)(root) {
        assert(below_step(root, depth, replies.take(at + 1), at) == StepView::<
            Seq<Seq<char>>,
        >::Perform(ActionView::Walk(root, depth)));
    }
}

#[verifier::rlimit(40)]
proof fn walking_finds(
    config: RuntimeView,
    platform: PlatformView,
    roots: Seq<Seq<char>>,
    replies: Seq<ReplyView>,
    at: int,
    list: Seq<Seq<char>>,
    n: int,
    x: Seq<char>,
)
    requires
        0 <= at,
        walk_step(
            config.style,
            config.home,
            roots,
            config.values.discovery_max_depth,
            replies,
            at,
        ) == StepView::Finished(list, n),
        forall|m: int|
            at <= m < n && m < replies.len() ==> (#[trigger] walk_step(
                config.style,
                config.home,
                roots,
                config.values.discovery_max_depth,
                replies.take(m),
                at,
            ) matches StepView::Perform(action) ==> tells(platform, action, replies[m])),
    ensures
        at <= n,
        list.contains(x) <==> exists|i: int|
            0 <= i < roots.len() && is_below(config, platform, #[trigger] roots[i], x),
    decreases roots.len(),
{
    let style = config.style;
    let home = config.home;
    let depth = config.values.discovery_max_depth;
    if roots.len() > 0 {
        let init = roots.drop_last();
        let end = roots.len() - 1;
        let earlier = walk_step(style, home, init, depth, replies, at);
        let before = earlier->Finished_0;
        let between = earlier->Finished_1;
        let root = expanded(style, roots.last(), home)->0;
        assert(replies + Seq::<ReplyView>::empty() =~= replies);
        walking_keeps(style, home, roots, depth, replies, Seq::empty(), at);
        walking_keeps(style, home, init, depth, replies, Seq::empty(), at);
        assert forall|m: int| at <= m < between && m < replies.len() implies (#[trigger] walk_step(
            style,
            home,
            init,
            depth,
            replies.take(m),
            at,
        ) matches StepView::Perform(action) ==> tells(platform, action, replies[m])) by {
            if walk_step(style, home, init, depth, replies.take(m), at) is Perform {
                assert(walk_step(style, home, roots, depth, replies.take(m), at) is Perform);
                assert(between <= n);
            }
        }
        walking_finds(config, platform, init, replies, at, before, between, x);
        let more = if absolute(style, root) {
            let found = below_step(root, depth, replies, between)->Finished_0;
            assert forall|m: int| between <= m < n && m < replies.len() implies (
            #[trigger] below_step(root, depth, replies.take(m), between) matches StepView::Perform(
                action,
            ) ==> tells(platform, action, replies[m])) by {
                assert(replies.take(m) + replies.skip(m) =~= replies);
                walking_keeps(style, home, init, depth, replies.take(m), replies.skip(m), at);
                assert(walk_step(style, home, init, depth, replies.take(m), at) == earlier);
                assert(walk_step(style, home, roots, depth, replies.take(m), at)
                    matches StepView::Perform(action) ==> tells(platform, action, replies[m]));
            }
            searching_finds(config, platform, root, replies, between, found, n);
            found
        } else {
            Seq::empty()
        };
        assert(list =~= before + more);
        assert(more.contains(x) <==> is_below(config, platform, roots[end], x));
        if before.contains(x) {
            let k = choose|k: int| 0 <= k < before.len() && before[k] == x;
            assert(list[k] == x);
        }
        if more.contains(x) {
            let k = choose|k: int| 0 <= k < more.len() && more[k] == x;
            assert(list[before.len() + k] == x);
        }
        if list.contains(x) {
            let k = choose|k: int| 0 <= k < list.len() && list[k] == x;
            if k < before.len() {
                assert(before[k] == x);
                assert(before.contains(x));
            } else {
                assert(more[k - before.len()] == x);
                assert(more.contains(x));
            }
        }
        if exists|i: int| 0 <= i < init.len() && is_below(config, platform, #[trigger] init[i], x) {
            let i = choose|i: int|
                0 <= i < init.len() && is_below(config, platform, #[trigger] init[i], x);
            assert(is_below(config, platform, roots[i], x));
        }
        if exists|i: int| 0 <= i < roots.len() && is_below(config, platform, #[trigger] roots[i], x) {
            let i = choose|i: int|
                0 <= i < roots.len() && is_below(config, platform, #[trigger] roots[i], x);
            if i < end {
                assert(is_below(config, platform, init[i], x));
            }
        }
    }
}

/// Whether the configuration leads to the worktree at `x`: a repository that
/// the user names lies in it, or it lies below a discovery root.
pub open spec fn leads_to(config: RuntimeView, platform: PlatformView, x: Seq<char>) -> bool {
    ||| exists|i: int|
        0 <= i < config.values.repositories.len() && is_named(
            config,
            platform,
            #[trigger] config.values.repositories[i],
            x,
        )
    ||| exists|i: int|
        0 <= i < config.values.discovery_roots.len() && is_below(
            config,
            platform,
            #[trigger] config.values.discovery_roots[i],
            x,
        )
}

/// With the platform telling how things are, the candidates are exactly the
/// worktrees that the configuration leads to.
#[verifier::rlimit(40)]
pub proof fn the_candidates_are_what_the_configuration_leads_to(
    config: RuntimeView,
    platform: PlatformView,
    replies: Seq<ReplyView>,
    at: int,
    candidates: Seq<Seq<char>>,
    n: int,
    x: Seq<char>,
)
    requires
        0 <= at,
        candidates_step(config, replies, at) == StepView::Finished(candidates, n),
        forall|m: int|
            at <= m < n && m < replies.len() ==> (#[trigger] candidates_step(
                config,
                replies.take(m),
                at,
            ) matches StepView::Perform(action) ==> tells(platform, action, replies[m])),
    ensures
        candidates.contains(x) <==> leads_to(config, platform, x),
{
    let style = config.style;
    let home = config.home;
    let repositories = config.values.repositories;
    let roots = config.values.discovery_roots;
    let depth = config.values.discovery_max_depth;
    let earlier = explicit_step(style, home, repositories, replies, at);
    let named = earlier->Finished_0;
    let between = earlier->Finished_1;
    let found = walk_step(style, home, roots, depth, replies, between)->Finished_0;
    assert(replies + Seq::<ReplyView>::empty() =~= replies);
    locating_keeps(style, home, repositories, replies, Seq::empty(), at);
    walking_keeps(style, home, roots, depth, replies, Seq::empty(), between);
    assert forall|m: int| at <= m < between && m < replies.len() implies (
    #[trigger] explicit_step(style, home, repositories, replies.take(m), at)
        matches StepView::Perform(action) ==> tells(platform, action, replies[m])) by {
        if explicit_step(style, home, repositories, replies.take(m), at) is Perform {
            assert(candidates_step(config, replies.take(m), at) is Perform);
        }
    }
    assert forall|m: int| between <= m < n && m < replies.len() implies (#[trigger] walk_step(
        style,
        home,
        roots,
        depth,
        replies.take(m),
        between,
    ) matches StepView::Perform(action) ==> tells(platform, action, replies[m])) by {
        assert(replies.take(m) + replies.skip(m) =~= replies);
        locating_keeps(style, home, repositories, replies.take(m), replies.skip(m), at);
        assert(explicit_step(style, home, repositories, replies.take(m), at) == earlier);
        assert(candidates_step(config, replies.take(m), at) matches StepView::Perform(action)
            ==> tells(platform, action, replies[m]));
    }
    naming_finds(config, platform, repositories, replies, at, named, between, x);
    walking_finds(config, platform, roots, replies, between, found, n, x);
    assert(candidates == named + found);
    if named.contains(x) {
        let k = choose|k: int| 0 <= k < named.len() && named[k] == x;
        assert(candidates[k] == x);
    }
    if found.contains(x) {
        let k = choose|k: int| 0 <= k < found.len() && found[k] == x;
        assert(candidates[named.len() + k] == x);
    }
    if candidates.contains(x) {
        let k = choose|k: int| 0 <= k < candidates.len() && candidates[k] == x;
        if k < named.len() {
            assert(named[k] == x);
            assert(named.contains(x));
        } else {
            assert(found[k - named.len()] == x);
            assert(found.contains(x));
        }
    }
}

/// With the platform telling how things are, discovery finds the worktrees that
/// the configuration leads to and that no exclusion matches, in order, each
/// once.
pub proof fn discovery_finds_what_the_configuration_leads_to(
    config: RuntimeView,
    platform: PlatformView,
    excluded: Seq<bool>,
    replies: Seq<ReplyView>,
    at: int,
    patterns: Seq<Seq<char>>,
    candidates: Seq<Seq<char>>,
    n: int,
    x: Seq<char>,
)
    requires
        0 <= at,
        exclusions(config.style, config.home, config.values.exclude_repositories)
            == Ok::<Seq<Seq<char>>, FailureView>(patterns),
        exclusions_allow(config, None, excluded, replies, at),
        candidates_step(config, replies, at) == StepView::Finished(candidates, n),
        forall|m: int|
            at <= m < n && m < replies.len() ==> (#[trigger] candidates_step(
                config,
                replies.take(m),
                at,
            ) matches StepView::Perform(action) ==> tells(platform, action, replies[m])),
    ensures
        discover_step(config, None, excluded, replies, at) matches StepView::Finished(list, used)
            && {
            &&& used == n
            &&& paths_ascending(config.style, list)
            &&& list.contains(x) ==> leads_to(config, platform, x) && (!has_backslash(
                config.style,
                x,
            ) ==> !any_glob_matches(patterns, matched_bytes(config.style, x)))
            &&& leads_to(config, platform, x) && !has_backslash(config.style, x)
                && !any_glob_matches(patterns, matched_bytes(config.style, x)) ==> holds_path(
                config.style,
                list,
                x,
            )
            &&& leads_to(config, platform, x) && patterns.len() == 0 ==> holds_path(
                config.style,
                list,
                x,
            )
        },
{
    the_candidates_are_what_the_configuration_leads_to(
        config,
        platform,
        replies,
        at,
        candidates,
        n,
        x,
    );
    discovered_worktrees(config, None, excluded, replies, at, patterns, candidates, n);
    if candidates.contains(x) {
        let i = choose|i: int| 0 <= i < candidates.len() && candidates[i] == x;
        assert(candidates[i] == x);
    }
}

} // verus!
