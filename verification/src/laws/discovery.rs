//! Which worktrees are found.

use crate::config::{RepositoryView, RuntimeView};
use crate::discovery::{
    admitted, below_step, candidates_step, discover_step, exclusions, exclusions_allow,
    explicit_step, has_backslash, locate_step, matched_bytes, toplevel_command, walk_step,
};
use crate::outside::{any_glob_matches, glob_problem};
use crate::path_set::{holds_path, one_path, path_set, path_set_is_the_set, paths_ascending};
use crate::paths::{absolute, slashed, PathStyle};
use crate::platform::expanded;
use crate::procedure::{ActionView, FailureView, ReplyView, StepView};
use crate::native::{a_backslash_is_its_byte, readable, the_bytes_of_text};
use crate::git_store::git_form;
use vstd::prelude::*;
use vstd::utf8::encode_utf8;

verus! {

proof fn admitted_are(candidates: Seq<Seq<char>>, excluded: Seq<bool>, x: Seq<char>)
    requires
        excluded.len() >= candidates.len(),
    ensures
        admitted(candidates, excluded).contains(x) <==> exists|i: int|
            0 <= i < candidates.len() && !#[trigger] excluded[i] && candidates[i] == x,
    decreases candidates.len(),
{
    if candidates.len() > 0 {
        let init = candidates.drop_last();
        let end = candidates.len() - 1;
        admitted_are(init, excluded, x);
        let before = admitted(init, excluded);
        let now = admitted(candidates, excluded);
        if now.contains(x) {
            let k = choose|k: int| 0 <= k < now.len() && now[k] == x;
            if k < before.len() {
                assert(before[k] == x);
                assert(before.contains(x));
                let i = choose|i: int|
                    0 <= i < init.len() && !#[trigger] excluded[i] && init[i] == x;
                assert(!excluded[i] && candidates[i] == x);
            } else {
                assert(!excluded[end] && candidates[end] == x);
            }
        }
        if exists|i: int| 0 <= i < candidates.len() && !#[trigger] excluded[i] && candidates[i] == x {
            let i = choose|i: int|
                0 <= i < candidates.len() && !#[trigger] excluded[i] && candidates[i] == x;
            if i < init.len() {
                assert(!excluded[i] && init[i] == x);
                assert(before.contains(x));
                let k = choose|k: int| 0 <= k < before.len() && before[k] == x;
                assert(now[k] == x);
            } else {
                assert(now[before.len() as int] == x);
            }
        }
    }
}

/// The worktrees to watch are in order and no two of them are the same; each
/// is one that the configuration leads to and that no exclusion matches, and
/// every such one is there.
pub proof fn discovered_worktrees(
    config: RuntimeView,
    refusal: Option<Seq<char>>,
    excluded: Seq<bool>,
    replies: Seq<ReplyView>,
    at: int,
    patterns: Seq<Seq<char>>,
    candidates: Seq<Seq<char>>,
    used: int,
)
    requires
        exclusions_allow(config, refusal, excluded, replies, at),
        refusal is None,
        exclusions(config.style, config.home, config.values.exclude_repositories)
            == Ok::<Seq<Seq<char>>, FailureView>(patterns),
        candidates_step(config, replies, at) == StepView::Finished(candidates, used),
    ensures
        discover_step(config, refusal, excluded, replies, at) matches StepView::Finished(list, n)
            && {
            &&& n == used
            &&& paths_ascending(config.style, list)
            &&& forall|x: Seq<char>| #[trigger]
                list.contains(x) ==> candidates.contains(x) && (!has_backslash(config.style, x)
                    ==> !any_glob_matches(patterns, matched_bytes(config.style, x)))
            &&& forall|i: int|
                0 <= i < candidates.len() && !has_backslash(config.style, candidates[i])
                    && !any_glob_matches(patterns, matched_bytes(config.style, candidates[i]))
                    ==> holds_path(config.style, list, #[trigger] candidates[i])
            &&& patterns.len() == 0 ==> forall|i: int|
                0 <= i < candidates.len() ==> holds_path(
                    config.style,
                    list,
                    #[trigger] candidates[i],
                )
        },
{
    let kept = admitted(candidates, excluded);
    let list = path_set(config.style, kept);
    path_set_is_the_set(config.style, kept);
    assert forall|x: Seq<char>| #[trigger] list.contains(x) implies candidates.contains(x) && (
    !has_backslash(config.style, x) ==> !any_glob_matches(patterns, matched_bytes(config.style, x))) by {
        admitted_are(candidates, excluded, x);
        let i = choose|i: int|
            0 <= i < candidates.len() && !#[trigger] excluded[i] && candidates[i] == x;
        assert(candidates[i] == x);
    }
    assert forall|i: int| 0 <= i < candidates.len() && !excluded[i] implies holds_path(
        config.style,
        list,
        #[trigger] candidates[i],
    ) by {
        let x = candidates[i];
        admitted_are(candidates, excluded, x);
        assert(kept.contains(x));
        let k = choose|k: int| 0 <= k < kept.len() && kept[k] == x;
        assert(one_path(config.style, kept[k], x));
        assert(holds_path(config.style, kept, x));
    }
    assert forall|i: int|
        0 <= i < candidates.len() && !has_backslash(config.style, candidates[i])
            && !any_glob_matches(patterns, matched_bytes(config.style, candidates[i])) implies holds_path(
        config.style,
        list,
        #[trigger] candidates[i],
    ) by {
        assert(!excluded[i]);
    }
    if patterns.len() == 0 {
        assert forall|i: int| 0 <= i < candidates.len() implies holds_path(
            config.style,
            list,
            #[trigger] candidates[i],
        ) by {
            assert(!excluded[i]);
        }
    }
}

/// The repositories that the user names are added to what is found below the
/// discovery roots, whatever that is; without discovery roots they are all
/// there is.
pub proof fn repositories_are_additive(
    config: RuntimeView,
    replies: Seq<ReplyView>,
    at: int,
    explicit: Seq<Seq<char>>,
    used: int,
)
    requires
        explicit_step(config.style, config.home, config.values.repositories, replies, at)
            == StepView::Finished(explicit, used),
    ensures
        candidates_step(config, replies, at) matches StepView::Finished(candidates, _) ==> forall|
            x: Seq<char>,
        | #[trigger] explicit.contains(x) ==> candidates.contains(x),
        config.values.discovery_roots.len() == 0 ==> candidates_step(config, replies, at)
            == StepView::Finished(explicit, used),
{
    if let StepView::Finished(found, _) = walk_step(
        config.style,
        config.home,
        config.values.discovery_roots,
        config.values.discovery_max_depth,
        replies,
        used,
    ) {
        let candidates = explicit + found;
        assert forall|x: Seq<char>| #[trigger] explicit.contains(x) implies candidates.contains(
            x,
        ) by {
            let k = choose|k: int| 0 <= k < explicit.len() && explicit[k] == x;
            assert(candidates[k] == x);
        }
    }
    assert(explicit + Seq::<Seq<char>>::empty() =~= explicit);
}

/// Whether the replies tell of every repository that it lies in the worktree
/// that `worktree` says.
pub open spec fn tells_worktrees(
    worktree: spec_fn(Seq<char>) -> Option<Seq<char>>,
    style: PathStyle,
    home: Option<Seq<char>>,
    repositories: Seq<RepositoryView>,
    replies: Seq<ReplyView>,
    at: int,
) -> bool
    decreases repositories.len(),
{
    repositories.len() > 0 ==> {
        let init = repositories.drop_last();
        let value = repositories.last().path();
        &&& tells_worktrees(worktree, style, home, init, replies, at)
        &&& explicit_step(style, home, init, replies, at) matches StepView::Finished(_, n) ==> {
            locate_step(style, home, value, replies, n) matches StepView::Finished(found, _)
                ==> found == worktree(value)
        }
    }
}

/// Whether the replies tell of every discovery root that the worktrees below
/// it are those that `below` says.
pub open spec fn tells_below(
    below: spec_fn(Seq<char>) -> Seq<Seq<char>>,
    style: PathStyle,
    home: Option<Seq<char>>,
    roots: Seq<Seq<char>>,
    depth: usize,
    replies: Seq<ReplyView>,
    at: int,
) -> bool
    decreases roots.len(),
{
    roots.len() > 0 ==> {
        let init = roots.drop_last();
        &&& tells_below(below, style, home, init, depth, replies, at)
        &&& walk_step(style, home, init, depth, replies, at) matches StepView::Finished(_, n) ==> {
            expanded(style, roots.last(), home) matches Some(root) ==> {
                below_step(root, depth, replies, n) matches StepView::Finished(found, _) ==> found
                    == below(root)
            }
        }
    }
}

/// Whether the replies tell of a file system in which these are the worktrees.
pub open spec fn tells_of(
    worktree: spec_fn(Seq<char>) -> Option<Seq<char>>,
    below: spec_fn(Seq<char>) -> Seq<Seq<char>>,
    config: RuntimeView,
    replies: Seq<ReplyView>,
    at: int,
) -> bool {
    &&& tells_worktrees(
        worktree,
        config.style,
        config.home,
        config.values.repositories,
        replies,
        at,
    )
    &&& explicit_step(config.style, config.home, config.values.repositories, replies, at)
        matches StepView::Finished(_, n) ==> tells_below(
        below,
        config.style,
        config.home,
        config.values.discovery_roots,
        config.values.discovery_max_depth,
        replies,
        n,
    )
}

/// Whether a discovery root leads to a worktree.
spec fn root_leads_to(
    below: spec_fn(Seq<char>) -> Seq<Seq<char>>,
    style: PathStyle,
    home: Option<Seq<char>>,
    root: Seq<char>,
    x: Seq<char>,
) -> bool {
    expanded(style, root, home) matches Some(place) && absolute(style, place) && below(
        place,
    ).contains(x)
}

proof fn one_of_two(first: Seq<Seq<char>>, second: Seq<Seq<char>>, x: Seq<char>)
    ensures
        (first + second).contains(x) <==> first.contains(x) || second.contains(x),
{
    let both = first + second;
    if first.contains(x) {
        let k = choose|k: int| 0 <= k < first.len() && first[k] == x;
        assert(both[k] == x);
    }
    if second.contains(x) {
        let k = choose|k: int| 0 <= k < second.len() && second[k] == x;
        assert(both[first.len() + k] == x);
    }
    if both.contains(x) {
        let k = choose|k: int| 0 <= k < both.len() && both[k] == x;
        if k < first.len() {
            assert(first[k] == x);
        } else {
            assert(second[k - first.len()] == x);
        }
    }
}

proof fn named_are(
    worktree: spec_fn(Seq<char>) -> Option<Seq<char>>,
    style: PathStyle,
    home: Option<Seq<char>>,
    repositories: Seq<RepositoryView>,
    replies: Seq<ReplyView>,
    at: int,
    x: Seq<char>,
)
    requires
        tells_worktrees(worktree, style, home, repositories, replies, at),
        explicit_step(style, home, repositories, replies, at) is Finished,
    ensures
        explicit_step(style, home, repositories, replies, at)->Finished_0.contains(x)
            <==> exists|i: int|
            0 <= i < repositories.len() && worktree((#[trigger] repositories[i]).path()) == Some(x),
    decreases repositories.len(),
{
    if repositories.len() > 0 {
        let init = repositories.drop_last();
        let end = repositories.len() - 1;
        named_are(worktree, style, home, init, replies, at, x);
        let before = explicit_step(style, home, init, replies, at)->Finished_0;
        let found = worktree(repositories.last().path());
        let more = match found {
            Some(root) => seq![root],
            None => Seq::empty(),
        };
        let now = explicit_step(style, home, repositories, replies, at)->Finished_0;
        assert(now =~= before + more);
        one_of_two(before, more, x);
        if more.contains(x) {
            assert(worktree(repositories[end].path()) == Some(x));
        }
        if before.contains(x) {
            let i = choose|i: int|
                0 <= i < init.len() && worktree((#[trigger] init[i]).path()) == Some(x);
            assert(worktree(repositories[i].path()) == Some(x));
        }
        if exists|i: int|
            0 <= i < repositories.len() && worktree((#[trigger] repositories[i]).path()) == Some(
                x,
            ) {
            let i = choose|i: int|
                0 <= i < repositories.len() && worktree((#[trigger] repositories[i]).path())
                    == Some(x);
            if i < end {
                assert(worktree(init[i].path()) == Some(x));
            } else {
                assert(more[0] == x);
            }
        }
    }
}

proof fn walked_are(
    below: spec_fn(Seq<char>) -> Seq<Seq<char>>,
    style: PathStyle,
    home: Option<Seq<char>>,
    roots: Seq<Seq<char>>,
    depth: usize,
    replies: Seq<ReplyView>,
    at: int,
    x: Seq<char>,
)
    requires
        tells_below(below, style, home, roots, depth, replies, at),
        walk_step(style, home, roots, depth, replies, at) is Finished,
    ensures
        walk_step(style, home, roots, depth, replies, at)->Finished_0.contains(x) <==> exists|i: int|
            0 <= i < roots.len() && root_leads_to(below, style, home, #[trigger] roots[i], x),
    decreases roots.len(),
{
    if roots.len() > 0 {
        let init = roots.drop_last();
        let end = roots.len() - 1;
        walked_are(below, style, home, init, depth, replies, at, x);
        let before = walk_step(style, home, init, depth, replies, at)->Finished_0;
        let root = expanded(style, roots.last(), home)->0;
        let more = if absolute(style, root) {
            below(root)
        } else {
            Seq::empty()
        };
        let now = walk_step(style, home, roots, depth, replies, at)->Finished_0;
        assert(now =~= before + more);
        one_of_two(before, more, x);
        if more.contains(x) {
            assert(root_leads_to(below, style, home, roots[end], x));
        }
        if before.contains(x) {
            let i = choose|i: int|
                0 <= i < init.len() && root_leads_to(below, style, home, #[trigger] init[i], x);
            assert(root_leads_to(below, style, home, roots[i], x));
        }
        if exists|i: int|
            0 <= i < roots.len() && root_leads_to(below, style, home, #[trigger] roots[i], x) {
            let i = choose|i: int|
                0 <= i < roots.len() && root_leads_to(below, style, home, #[trigger] roots[i], x);
            if i < end {
                assert(root_leads_to(below, style, home, init[i], x));
            } else {
                assert(more.contains(x));
            }
        }
    }
}

/// In one file system, further repositories and discovery roots in the
/// configuration only add candidates.
pub proof fn further_places_only_add_candidates(
    worktree: spec_fn(Seq<char>) -> Option<Seq<char>>,
    below: spec_fn(Seq<char>) -> Seq<Seq<char>>,
    config: RuntimeView,
    larger: RuntimeView,
    replies: Seq<ReplyView>,
    others: Seq<ReplyView>,
    at: int,
    start: int,
    x: Seq<char>,
)
    requires
        config.style == larger.style,
        config.home == larger.home,
        forall|i: int|
            0 <= i < config.values.repositories.len() ==> larger.values.repositories.contains(
                #[trigger] config.values.repositories[i],
            ),
        forall|i: int|
            0 <= i < config.values.discovery_roots.len() ==> larger.values.discovery_roots.contains(
                #[trigger] config.values.discovery_roots[i],
            ),
        tells_of(worktree, below, config, replies, at),
        tells_of(worktree, below, larger, others, start),
        candidates_step(config, replies, at) is Finished,
        candidates_step(larger, others, start) is Finished,
        candidates_step(config, replies, at)->Finished_0.contains(x),
    ensures
        candidates_step(larger, others, start)->Finished_0.contains(x),
{
    let style = config.style;
    let home = config.home;
    let few = config.values;
    let many = larger.values;
    named_are(worktree, style, home, few.repositories, replies, at, x);
    named_are(worktree, style, home, many.repositories, others, start, x);
    let named = explicit_step(style, home, few.repositories, replies, at);
    let more_named = explicit_step(style, home, many.repositories, others, start);
    let n = named->Finished_1;
    let m = more_named->Finished_1;
    walked_are(below, style, home, few.discovery_roots, few.discovery_max_depth, replies, n, x);
    walked_are(below, style, home, many.discovery_roots, many.discovery_max_depth, others, m, x);
    let walked = walk_step(
        style,
        home,
        few.discovery_roots,
        few.discovery_max_depth,
        replies,
        n,
    )->Finished_0;
    let more_walked = walk_step(
        style,
        home,
        many.discovery_roots,
        many.discovery_max_depth,
        others,
        m,
    )->Finished_0;
    one_of_two(named->Finished_0, walked, x);
    one_of_two(more_named->Finished_0, more_walked, x);
    if named->Finished_0.contains(x) {
        let i = choose|i: int|
            0 <= i < few.repositories.len() && worktree((#[trigger] few.repositories[i]).path())
                == Some(x);
        let repository = few.repositories[i];
        assert(many.repositories.contains(repository));
        let k = choose|k: int|
            0 <= k < many.repositories.len() && many.repositories[k] == repository;
        assert(worktree(many.repositories[k].path()) == Some(x));
    } else {
        let i = choose|i: int|
            0 <= i < few.discovery_roots.len() && root_leads_to(
                below,
                style,
                home,
                #[trigger] few.discovery_roots[i],
                x,
            );
        let root = few.discovery_roots[i];
        assert(many.discovery_roots.contains(root));
        let k = choose|k: int|
            0 <= k < many.discovery_roots.len() && many.discovery_roots[k] == root;
        assert(root_leads_to(below, style, home, many.discovery_roots[k], x));
    }
}

/// In one file system, further repositories and discovery roots in the
/// configuration never drop a worktree: every one that is found without them is
/// found with them. Of a path with a backslash in it that does not stand between
/// components, the exclusions have to say the same both times.
pub proof fn further_places_drop_no_worktree(
    worktree: spec_fn(Seq<char>) -> Option<Seq<char>>,
    below: spec_fn(Seq<char>) -> Seq<Seq<char>>,
    config: RuntimeView,
    larger: RuntimeView,
    excluded: Seq<bool>,
    more_excluded: Seq<bool>,
    replies: Seq<ReplyView>,
    others: Seq<ReplyView>,
    at: int,
    start: int,
    candidates: Seq<Seq<char>>,
    more_candidates: Seq<Seq<char>>,
    used: int,
    more_used: int,
)
    requires
        config.style == larger.style,
        config.home == larger.home,
        config.values.exclude_repositories == larger.values.exclude_repositories,
        forall|i: int|
            0 <= i < config.values.repositories.len() ==> larger.values.repositories.contains(
                #[trigger] config.values.repositories[i],
            ),
        forall|i: int|
            0 <= i < config.values.discovery_roots.len() ==> larger.values.discovery_roots.contains(
                #[trigger] config.values.discovery_roots[i],
            ),
        tells_of(worktree, below, config, replies, at),
        tells_of(worktree, below, larger, others, start),
        exclusions(config.style, config.home, config.values.exclude_repositories) is Ok,
        exclusions_allow(config, None, excluded, replies, at),
        exclusions_allow(larger, None, more_excluded, others, start),
        candidates_step(config, replies, at) == StepView::Finished(candidates, used),
        candidates_step(larger, others, start) == StepView::Finished(more_candidates, more_used),
        forall|i: int, k: int|
            0 <= i < candidates.len() && 0 <= k < more_candidates.len() && candidates[i]
                == more_candidates[k] && has_backslash(config.style, candidates[i])
                ==> #[trigger] excluded[i] == #[trigger] more_excluded[k],
    ensures
        discover_step(config, None, excluded, replies, at) matches StepView::Finished(list, _)
            && discover_step(larger, None, more_excluded, others, start)
            matches StepView::Finished(more, _) && forall|x: Seq<char>| #[trigger]
            list.contains(x) ==> holds_path(config.style, more, x),
{
    let style = config.style;
    let kept = admitted(candidates, excluded);
    let more_kept = admitted(more_candidates, more_excluded);
    let list = path_set(style, kept);
    let more = path_set(style, more_kept);
    path_set_is_the_set(style, kept);
    path_set_is_the_set(style, more_kept);
    assert forall|x: Seq<char>| #[trigger] list.contains(x) implies holds_path(style, more, x) by {
        admitted_are(candidates, excluded, x);
        let i = choose|i: int|
            0 <= i < candidates.len() && !#[trigger] excluded[i] && candidates[i] == x;
        assert(candidates[i] == x);
        further_places_only_add_candidates(
            worktree,
            below,
            config,
            larger,
            replies,
            others,
            at,
            start,
            x,
        );
        let k = choose|k: int| 0 <= k < more_candidates.len() && more_candidates[k] == x;
        assert(excluded[i] == more_excluded[k]);
        admitted_are(more_candidates, more_excluded, x);
        assert(more_kept.contains(x));
        let j = choose|j: int| 0 <= j < more_kept.len() && more_kept[j] == x;
        assert(one_path(style, more_kept[j], x));
        assert(holds_path(style, more_kept, x));
    }
}

/// Whether an action only looks for worktrees: below one of the roots that the
/// user names, no deeper than the user says, or by asking Git where a directory
/// belongs.
pub open spec fn only_looks(config: RuntimeView, action: ActionView) -> bool {
    match action {
        ActionView::AreDirectories(_) => true,
        ActionView::Resolve(_) => true,
        ActionView::Tell(_) => true,
        ActionView::Report(_, _) => true,
        ActionView::Run(command) => exists|start: Seq<char>|
            command == #[trigger] toplevel_command(start),
        ActionView::Walk(root, depth) => depth == config.values.discovery_max_depth && absolute(
            config.style,
            root,
        ) && is_root_of(config, root),
        _ => false,
    }
}

/// Whether a path is one of the roots that the user names.
pub open spec fn is_root_of(config: RuntimeView, root: Seq<char>) -> bool {
    exists|i: int|
        0 <= i < config.values.discovery_roots.len() && expanded(
            config.style,
            #[trigger] config.values.discovery_roots[i],
            config.home,
        ) == Some(root)
}

proof fn locating_only_looks(
    config: RuntimeView,
    repositories: Seq<RepositoryView>,
    replies: Seq<ReplyView>,
    at: int,
)
    ensures
        explicit_step(config.style, config.home, repositories, replies, at)
            matches StepView::Perform(a) ==> only_looks(config, a),
    decreases repositories.len(),
{
    if repositories.len() > 0 {
        locating_only_looks(config, repositories.drop_last(), replies, at);
    }
}

proof fn walking_only_looks(config: RuntimeView, count: nat, replies: Seq<ReplyView>, at: int)
    requires
        count <= config.values.discovery_roots.len(),
    ensures
        walk_step(
            config.style,
            config.home,
            config.values.discovery_roots.take(count as int),
            config.values.discovery_max_depth,
            replies,
            at,
        ) matches StepView::Perform(a) ==> only_looks(config, a),
    decreases count,
{
    if count > 0 {
        let roots = config.values.discovery_roots;
        walking_only_looks(config, (count - 1) as nat, replies, at);
        assert(roots.take(count as int).drop_last() =~= roots.take(count - 1));
        assert(roots.take(count as int).last() == roots[count - 1]);
        if let Some(root) = expanded(config.style, roots[count - 1], config.home) {
            assert(is_root_of(config, root));
        }
    }
}

/// Discovery only looks: it asks nothing that changes anything, and searches
/// nowhere but below the roots that the user names, no deeper than the user says.
pub proof fn discovery_only_looks(
    config: RuntimeView,
    refusal: Option<Seq<char>>,
    excluded: Seq<bool>,
    replies: Seq<ReplyView>,
    at: int,
)
    ensures
        discover_step(config, refusal, excluded, replies, at) matches StepView::Perform(a)
            ==> only_looks(config, a),
{
    let roots = config.values.discovery_roots;
    locating_only_looks(config, config.values.repositories, replies, at);
    if let StepView::Finished(_, n) = explicit_step(
        config.style,
        config.home,
        config.values.repositories,
        replies,
        at,
    ) {
        walking_only_looks(config, roots.len(), replies, n);
        assert(roots.take(roots.len() as int) =~= roots);
    }
}

/// Where nothing is configured nothing is found, and nothing is asked for.
pub proof fn nothing_configured_finds_nothing(
    config: RuntimeView,
    excluded: Seq<bool>,
    replies: Seq<ReplyView>,
    at: int,
)
    requires
        config.values.repositories.len() == 0,
        config.values.discovery_roots.len() == 0,
        config.values.exclude_repositories.len() == 0,
    ensures
        discover_step(config, None, excluded, replies, at) == StepView::<
            Seq<Seq<char>>,
        >::Finished(Seq::empty(), at),
{
    assert(Seq::<Seq<char>>::empty() + Seq::<Seq<char>>::empty() =~= Seq::<Seq<char>>::empty());
}

/// The exclusions are the patterns of the user, each with the home directory in
/// place and with slashes for backslashes, in order; they are refused where the
/// home directory is needed and unknown, or where one of them is no pattern.
pub proof fn the_exclusions_are_the_patterns_of_the_user(
    style: PathStyle,
    home: Option<Seq<char>>,
    values: Seq<Seq<char>>,
)
    ensures
        exclusions(style, home, values) matches Ok(patterns) ==> {
            &&& patterns.len() == values.len()
            &&& forall|i: int|
                0 <= i < values.len() ==> is_pattern_for(
                    style,
                    home,
                    #[trigger] values[i],
                    patterns[i],
                )
        },
        (forall|i: int| 0 <= i < values.len() ==> has_pattern(style, home, #[trigger] values[i]))
            ==> exclusions(style, home, values) is Ok,
    decreases values.len(),
{
    if values.len() > 0 {
        let init = values.drop_last();
        the_exclusions_are_the_patterns_of_the_user(style, home, init);
        assert forall|i: int| 0 <= i < init.len() implies #[trigger] init[i] == values[i] by {}
        if let Ok(patterns) = exclusions(style, home, values) {
            let before = exclusions(style, home, init)->Ok_0;
            assert forall|i: int| 0 <= i < values.len() implies is_pattern_for(
                style,
                home,
                #[trigger] values[i],
                patterns[i],
            ) by {
                if i < init.len() {
                    assert(is_pattern_for(style, home, init[i], before[i]));
                }
            }
        }
        if forall|i: int| 0 <= i < values.len() ==> has_pattern(style, home, #[trigger] values[i]) {
            assert forall|i: int| 0 <= i < init.len() implies has_pattern(
                style,
                home,
                #[trigger] init[i],
            ) by {
                assert(init[i] == values[i]);
            }
            let last = values[values.len() - 1];
            assert(has_pattern(style, home, last));
            let pattern = choose|pattern: Seq<char>| is_pattern_for(style, home, last, pattern);
            assert(pattern =~= slashed(readable(expanded(style, last, home)->0)));
        }
    }
}

/// Whether an exclusion of the user stands for a pattern.
pub open spec fn has_pattern(style: PathStyle, home: Option<Seq<char>>, value: Seq<char>) -> bool {
    exists|pattern: Seq<char>| is_pattern_for(style, home, value, pattern)
}

/// Whether a pattern stands for an exclusion of the user.
pub open spec fn is_pattern_for(
    style: PathStyle,
    home: Option<Seq<char>>,
    value: Seq<char>,
    pattern: Seq<char>,
) -> bool {
    expanded(style, value, home) matches Some(path) && {
        &&& glob_problem(pattern) is None
        &&& pattern.len() == readable(path).len()
        &&& forall|i: int|
            0 <= i < pattern.len() ==> #[trigger] pattern[i] == (if readable(path)[i] == '\\' {
                '/'
            } else {
                readable(path)[i]
            })
    }
}

/// The exclusions decide of every worktree whose path is text: on Windows by the
/// path with slashes, and elsewhere by the path itself, where no backslash is
/// part of a name in it.
pub proof fn the_exclusions_decide_by_the_path(style: PathStyle, path: Seq<char>)
    requires
        !path.contains('\0'),
        style == PathStyle::Posix ==> !path.contains('\\'),
    ensures
        !has_backslash(style, path),
        matched_bytes(style, path) == encode_utf8(git_form(style, path)),
{
    let form = git_form(style, path);
    assert forall|i: int| 0 <= i < form.len() implies #[trigger] form[i] != '\0' && form[i] != '\\' by {
        assert(path[i] != '\0');
        if style == PathStyle::Posix {
            assert(form[i] == path[i]);
        }
    }
    assert(!form.contains('\0'));
    assert(!form.contains('\\'));
    the_bytes_of_text(form);
    a_backslash_is_its_byte(form);
}

} // verus!
