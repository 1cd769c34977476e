//! The search for worktrees below a directory.

use crate::search::{
    pruned_names, searched, visit_of, EntryView, Phase, SearchCommand, SearchEventView, SearchView,
    Visit,
};
use vstd::prelude::*;

verus! {

/// A search in a state, told one thing behind the other.
pub open spec fn search_after(search: SearchView, events: Seq<SearchEventView>) -> SearchView
    decreases events.len(),
{
    if events.len() == 0 {
        search
    } else {
        searched(search_after(search, events.drop_last()), events.last()).0
    }
}

/// A worktree is noted and not entered; every other directory is entered,
/// unless it is one that is never watched.
pub proof fn the_search_stops_at_worktrees(
    search: SearchView,
    entry: EntryView,
    path: Seq<char>,
)
    requires
        search.phase == Phase::Walking,
        entry.is_directory,
    ensures
        entry.depth > 0 && entry.name is Some && pruned_names().contains(entry.name->0) ==> searched(
            search,
            SearchEventView::Entry(entry),
        ) == (search, SearchCommand::SkipDirectory),
        !(entry.depth > 0 && entry.name is Some && pruned_names().contains(entry.name->0)) ==> {
            let looking = searched(search, SearchEventView::Entry(entry));
            let plain = searched(looking.0, SearchEventView::Git(false));
            let worktree = searched(looking.0, SearchEventView::Git(true));
            let noted = searched(worktree.0, SearchEventView::Canonical(Some(path)));
            &&& looking.1 == SearchCommand::LookForGit
            &&& plain == (search, SearchCommand::Next)
            &&& worktree.1 == SearchCommand::Canonicalize
            &&& noted.0.found == search.found.push(path)
            &&& noted.0.phase == Phase::Walking
            &&& noted.1 == SearchCommand::SkipDirectory
        },
{
}

/// What a search has found it does not lose, and what it finds are the paths
/// that it was told to be canonical.
pub proof fn the_search_keeps_what_it_finds(search: SearchView, events: Seq<SearchEventView>)
    ensures
        search.found.is_prefix_of(search_after(search, events).found),
        forall|i: int|
            search.found.len() <= i < search_after(search, events).found.len() ==> events.contains(
                SearchEventView::Canonical(
                    Some(#[trigger] search_after(search, events).found[i]),
                ),
            ),
    decreases events.len(),
{
    if events.len() > 0 {
        let init = events.drop_last();
        the_search_keeps_what_it_finds(search, init);
        let before = search_after(search, init);
        let now = search_after(search, events);
        assert(events[events.len() - 1] == events.last());
        assert(search.found.is_prefix_of(now.found)) by {
            assert(search.found =~= now.found.subrange(0, search.found.len() as int));
        }
        assert forall|i: int| search.found.len() <= i < now.found.len() implies events.contains(
            SearchEventView::Canonical(Some(#[trigger] now.found[i])),
        ) by {
            if i < before.found.len() {
                assert(now.found[i] == before.found[i]);
                let told = SearchEventView::Canonical(Some(before.found[i]));
                assert(init.contains(told));
                let k = choose|k: int| 0 <= k < init.len() && init[k] == told;
                assert(events[k] == told);
            }
        }
    }
}

/// What the walk comes to below a discovery root, and what lies there.
pub enum TreeView {
    /// What cannot be read.
    Unreadable,
    /// What is no directory.
    File { name: Option<Seq<char>> },
    /// A directory: its name where that is text, whether it holds `.git`, its
    /// canonical path if it has one, and what else it holds, in the order of
    /// the walk.
    Directory {
        name: Option<Seq<char>>,
        git: bool,
        canonical: Option<Seq<char>>,
        below: Seq<TreeView>,
    },
}

/// A search that walks on to what a directory holds, where it asks for that.
pub open spec fn entered(
    next: (SearchView, SearchCommand),
    below: Seq<TreeView>,
    depth: int,
    max_depth: int,
) -> SearchView
    decreases below, 1int,
{
    if next.1 == SearchCommand::Next && depth < max_depth {
        walked_all(next.0, below, depth + 1, max_depth)
    } else {
        next.0
    }
}

/// A search that has been told of everything that the walk comes to in a tree
/// when it does what the search asks for.
pub open spec fn walked(
    search: SearchView,
    tree: TreeView,
    depth: int,
    max_depth: int,
) -> SearchView
    decreases tree, 0int,
{
    match tree {
        TreeView::Unreadable => searched(search, SearchEventView::Unreadable).0,
        TreeView::File { name } => searched(
            search,
            SearchEventView::Entry(EntryView { is_directory: false, depth, name }),
        ).0,
        TreeView::Directory { name, git, canonical, below } => {
            let met = searched(
                search,
                SearchEventView::Entry(EntryView { is_directory: true, depth, name }),
            );
            if met.1 == SearchCommand::LookForGit {
                let looked = searched(met.0, SearchEventView::Git(git));
                if looked.1 == SearchCommand::Canonicalize {
                    entered(
                        searched(looked.0, SearchEventView::Canonical(canonical)),
                        below,
                        depth,
                        max_depth,
                    )
                } else {
                    entered(looked, below, depth, max_depth)
                }
            } else {
                entered(met, below, depth, max_depth)
            }
        },
    }
}

/// A search that has been told of one tree behind the other.
pub open spec fn walked_all(
    search: SearchView,
    trees: Seq<TreeView>,
    depth: int,
    max_depth: int,
) -> SearchView
    decreases trees, 0int,
{
    if trees.len() == 0 {
        search
    } else {
        walked(
            walked_all(search, trees.drop_last(), depth, max_depth),
            trees.last(),
            depth,
            max_depth,
        )
    }
}

/// Whether a directory at this depth is one that is never entered.
pub open spec fn is_pruned(name: Option<Seq<char>>, depth: int) -> bool {
    depth > 0 && name is Some && pruned_names().contains(name->0)
}

/// What lies at the end of a route, which says of each directory on the way
/// which of the things that it holds comes next.
pub open spec fn lies_at(tree: TreeView, route: Seq<int>) -> Option<TreeView>
    decreases route.len(),
{
    if route.len() == 0 {
        Some(tree)
    } else {
        match tree {
            TreeView::Directory { below, .. } => if 0 <= route[0] < below.len() {
                lies_at(below[route[0]], route.skip(1))
            } else {
                None
            },
            _ => None,
        }
    }
}

/// Whether a directory is at the end of a route, which is not pruned when the
/// route starts at this depth.
pub open spec fn is_open_directory(tree: TreeView, route: Seq<int>, depth: int) -> bool {
    lies_at(tree, route) matches Some(TreeView::Directory { name, .. }) && !is_pruned(
        name,
        depth + route.len(),
    )
}

/// Whether the directory at the end of a route holds `.git`.
pub open spec fn has_git(tree: TreeView, route: Seq<int>) -> bool {
    lies_at(tree, route) matches Some(TreeView::Directory { git, .. }) && git
}

/// Whether a worktree lies at the end of a route from a tree at this depth: a
/// directory within the depth that holds `.git`, with no proper ancestor that
/// does, and with nothing on the way that is pruned.
pub open spec fn is_worktree(tree: TreeView, route: Seq<int>, depth: int, max_depth: int) -> bool {
    &&& route.len() > 0 ==> depth + route.len() <= max_depth
    &&& has_git(tree, route)
    &&& forall|k: int| 0 <= k < route.len() ==> !has_git(tree, #[trigger] route.take(k))
    &&& forall|k: int|
        0 <= k <= route.len() ==> is_open_directory(tree, #[trigger] route.take(k), depth)
}

/// The canonical path of the directory at the end of a route.
pub open spec fn canonical_at(tree: TreeView, route: Seq<int>) -> Option<Seq<char>> {
    match lies_at(tree, route) {
        Some(TreeView::Directory { canonical, .. }) => canonical,
        _ => None,
    }
}

/// Whether a route leads to a worktree with this canonical path, step by step.
spec fn leads(
    tree: TreeView,
    route: Seq<int>,
    depth: int,
    max_depth: int,
    to: Option<Seq<char>>,
) -> bool
    decreases route.len(),
{
    match tree {
        TreeView::Directory { name, git, canonical, below } => !is_pruned(name, depth) && (
        if route.len() == 0 {
            git && canonical == to
        } else {
            !git && depth < max_depth && 0 <= route[0] < below.len() && leads(
                below[route[0]],
                route.skip(1),
                depth + 1,
                max_depth,
                to,
            )
        }),
        _ => false,
    }
}

/// Whether a route through one of the trees leads to a worktree.
spec fn leads_among(
    trees: Seq<TreeView>,
    route: Seq<int>,
    depth: int,
    max_depth: int,
    to: Option<Seq<char>>,
) -> bool {
    route.len() > 0 && 0 <= route[0] < trees.len() && leads(
        trees[route[0]],
        route.skip(1),
        depth,
        max_depth,
        to,
    )
}

/// A route leads to a worktree exactly where one lies at its end.
proof fn routes_lead_to_worktrees(
    tree: TreeView,
    route: Seq<int>,
    depth: int,
    max_depth: int,
    to: Option<Seq<char>>,
)
    requires
        0 <= depth,
    ensures
        leads(tree, route, depth, max_depth, to) <==> is_worktree(tree, route, depth, max_depth)
            && canonical_at(tree, route) == to,
    decreases route.len(),
{
    assert(route.take(route.len() as int) =~= route);
    assert(route.take(0) =~= Seq::empty());
    if route.len() > 0 {
        if let TreeView::Directory { name, git, canonical, below } = tree {
            let next = route[0];
            let rest = route.skip(1);
            if 0 <= next < below.len() {
                let child = below[next];
                routes_lead_to_worktrees(child, rest, depth + 1, max_depth, to);
                assert forall|k: int| 0 < k <= route.len() implies #[trigger] lies_at(
                    tree,
                    route.take(k),
                ) == lies_at(child, rest.take(k - 1)) by {
                    assert(route.take(k).skip(1) =~= rest.take(k - 1));
                }
                assert(rest.take(rest.len() as int) =~= rest);
                if is_worktree(tree, route, depth, max_depth) {
                    assert(!has_git(tree, route.take(0)));
                    assert(is_open_directory(tree, route.take(0), depth));
                    assert forall|k: int| 0 <= k < rest.len() implies !has_git(
                        child,
                        #[trigger] rest.take(k),
                    ) by {
                        assert(!has_git(tree, route.take(k + 1)));
                        assert(lies_at(tree, route.take(k + 1)) == lies_at(child, rest.take(k)));
                    }
                    assert forall|k: int| 0 <= k <= rest.len() implies is_open_directory(
                        child,
                        #[trigger] rest.take(k),
                        depth + 1,
                    ) by {
                        assert(is_open_directory(tree, route.take(k + 1), depth));
                        assert(lies_at(tree, route.take(k + 1)) == lies_at(child, rest.take(k)));
                    }
                }
                if leads(tree, route, depth, max_depth, to) {
                    assert forall|k: int| 0 <= k < route.len() implies !has_git(
                        tree,
                        #[trigger] route.take(k),
                    ) by {
                        if k > 0 {
                            assert(!has_git(child, rest.take(k - 1)));
                        }
                    }
                    assert forall|k: int| 0 <= k <= route.len() implies is_open_directory(
                        tree,
                        #[trigger] route.take(k),
                        depth,
                    ) by {
                        if k > 0 {
                            assert(is_open_directory(child, rest.take(k - 1), depth + 1));
                        }
                    }
                }
            } else {
                assert(lies_at(tree, route) is None);
            }
        } else {
            assert(lies_at(tree, route) is None);
        }
    }
}

/// What a search has found when it has been through a tree.
spec fn went_through(
    before: SearchView,
    after: SearchView,
    found: spec_fn(Option<Seq<char>>) -> bool,
) -> bool {
    &&& after.phase == (if found(None) {
        Phase::Ended
    } else {
        Phase::Walking
    })
    &&& !found(None) ==> forall|path: Seq<char>| #[trigger]
        after.found.contains(path) <==> before.found.contains(path) || found(Some(path))
}

spec fn led(tree: TreeView, depth: int, max_depth: int, to: Option<Seq<char>>) -> bool {
    exists|route: Seq<int>| leads(tree, route, depth, max_depth, to)
}

spec fn led_among(
    trees: Seq<TreeView>,
    depth: int,
    max_depth: int,
    to: Option<Seq<char>>,
) -> bool {
    exists|route: Seq<int>| leads_among(trees, route, depth, max_depth, to)
}

proof fn walking_through(search: SearchView, tree: TreeView, depth: int, max_depth: int)
    requires
        search.phase == Phase::Walking,
        0 <= depth,
    ensures
        went_through(
            search,
            walked(search, tree, depth, max_depth),
            |to: Option<Seq<char>>| led(tree, depth, max_depth, to),
        ),
    decreases tree, 0int,
{
    let after = walked(search, tree, depth, max_depth);
    match tree {
        TreeView::Directory { name, git, canonical, below } => {
            if is_pruned(name, depth) {
                assert forall|to: Option<Seq<char>>| !led(tree, depth, max_depth, to) by {}
            } else if git {
                assert forall|to: Option<Seq<char>>|
                    led(tree, depth, max_depth, to) <==> to == canonical by {
                    assert(leads(tree, Seq::empty(), depth, max_depth, canonical));
                }
                if let Some(path) = canonical {
                    let found = search.found.push(path);
                    assert(after.found == found);
                    assert(found[search.found.len() as int] == path);
                    assert forall|x: Seq<char>| #[trigger] after.found.contains(x)
                        <==> search.found.contains(x) || x == path by {
                        if search.found.contains(x) {
                            let k = choose|k: int|
                                0 <= k < search.found.len() && search.found[k] == x;
                            assert(found[k] == x);
                        }
                    }
                }
            } else {
                let deeper = depth + 1;
                assert forall|to: Option<Seq<char>>| led(tree, depth, max_depth, to) <==> (depth
                    < max_depth && led_among(below, deeper, max_depth, to)) by {
                    if led(tree, depth, max_depth, to) {
                        let route = choose|route: Seq<int>|
                            leads(tree, route, depth, max_depth, to);
                        assert(leads_among(below, route, deeper, max_depth, to));
                    }
                    if depth < max_depth && led_among(below, deeper, max_depth, to) {
                        let route = choose|route: Seq<int>|
                            leads_among(below, route, deeper, max_depth, to);
                        assert(leads(tree, route, depth, max_depth, to));
                    }
                }
                if depth < max_depth {
                    walking_through_all(search, below, deeper, max_depth);
                }
            }
        },
        _ => {
            assert forall|to: Option<Seq<char>>| !led(tree, depth, max_depth, to) by {}
        },
    }
}

proof fn walking_through_all(
    search: SearchView,
    trees: Seq<TreeView>,
    depth: int,
    max_depth: int,
)
    requires
        search.phase == Phase::Walking,
        0 <= depth,
    ensures
        went_through(
            search,
            walked_all(search, trees, depth, max_depth),
            |to: Option<Seq<char>>| led_among(trees, depth, max_depth, to),
        ),
    decreases trees, 0int,
{
    if trees.len() == 0 {
        assert forall|to: Option<Seq<char>>| !led_among(trees, depth, max_depth, to) by {}
    } else {
        let init = trees.drop_last();
        let last = trees.last();
        let end = trees.len() - 1;
        let before = walked_all(search, init, depth, max_depth);
        walking_through_all(search, init, depth, max_depth);
        assert forall|to: Option<Seq<char>>| led_among(trees, depth, max_depth, to) <==> led_among(
            init,
            depth,
            max_depth,
            to,
        ) || led(last, depth, max_depth, to) by {
            if led_among(trees, depth, max_depth, to) {
                let route = choose|route: Seq<int>|
                    leads_among(trees, route, depth, max_depth, to);
                if route[0] < end {
                    assert(leads_among(init, route, depth, max_depth, to));
                } else {
                    assert(leads(last, route.skip(1), depth, max_depth, to));
                }
            }
            if led_among(init, depth, max_depth, to) {
                let route = choose|route: Seq<int>| leads_among(init, route, depth, max_depth, to);
                assert(leads_among(trees, route, depth, max_depth, to));
            }
            if led(last, depth, max_depth, to) {
                let route = choose|route: Seq<int>| leads(last, route, depth, max_depth, to);
                let longer = seq![end] + route;
                assert(longer.skip(1) =~= route);
                assert(leads_among(trees, longer, depth, max_depth, to));
            }
        }
        if before.phase == Phase::Walking {
            walking_through(before, last, depth, max_depth);
        }
    }
}

/// A search through everything below a discovery root finds every directory
/// within the depth that holds `.git`, that has no proper ancestor which does,
/// and on whose way from the root nothing is pruned; and it finds nothing
/// else. It fails only where one of these has no canonical path.
pub proof fn the_search_finds_exactly_the_worktrees(tree: TreeView, max_depth: int)
    ensures
        ({
            let start = SearchView { phase: Phase::Walking, found: Seq::empty() };
            let over = searched(walked(start, tree, 0, max_depth), SearchEventView::End);
            if exists|route: Seq<int>| #[trigger]
                is_worktree(tree, route, 0, max_depth) && canonical_at(tree, route) is None {
                over.1 == SearchCommand::Fail
            } else {
                &&& over.1 == SearchCommand::Finish
                &&& forall|path: Seq<char>| #[trigger]
                    over.0.found.contains(path) <==> exists|route: Seq<int>| #[trigger]
                        is_worktree(tree, route, 0, max_depth) && canonical_at(tree, route) == Some(
                            path,
                        )
            }
        }),
{
    let start = SearchView { phase: Phase::Walking, found: Seq::empty() };
    walking_through(start, tree, 0, max_depth);
    assert forall|to: Option<Seq<char>>| #[trigger] led(tree, 0, max_depth, to) <==> exists|
        route: Seq<int>,
    | #[trigger]
        is_worktree(tree, route, 0, max_depth) && canonical_at(tree, route) == to by {
        if led(tree, 0, max_depth, to) {
            let route = choose|route: Seq<int>| leads(tree, route, 0, max_depth, to);
            routes_lead_to_worktrees(tree, route, 0, max_depth, to);
        }
        if exists|route: Seq<int>| #[trigger]
            is_worktree(tree, route, 0, max_depth) && canonical_at(tree, route) == to {
            let route = choose|route: Seq<int>| #[trigger]
                is_worktree(tree, route, 0, max_depth) && canonical_at(tree, route) == to;
            routes_lead_to_worktrees(tree, route, 0, max_depth, to);
        }
    }
    assert(led(tree, 0, max_depth, None) <==> exists|route: Seq<int>| #[trigger]
        is_worktree(tree, route, 0, max_depth) && canonical_at(tree, route) is None);
}

/// The directories that a search does not enter are those of version control
/// and of what is built or fetched.
pub proof fn the_directories_that_are_not_entered(name: Seq<char>, git: Option<bool>, depth: int)
    ensures
        visit_of(true, depth, Some(name), git) == Visit::Prune <==> depth > 0 && (name == ".git"@
            || name == ".hg"@ || name == ".svn"@ || name == "node_modules"@ || name == ".direnv"@
            || name == ".cache"@ || name == "target"@ || name == "dist"@ || name == "build"@
            || name == "__pycache__"@),
{
    let all = pruned_names();
    assert(all[0] == ".git"@ && all[1] == ".hg"@ && all[2] == ".svn"@ && all[3]
        == "node_modules"@ && all[4] == ".direnv"@ && all[5] == ".cache"@ && all[6] == "target"@
        && all[7] == "dist"@ && all[8] == "build"@ && all[9] == "__pycache__"@);
}

} // verus!
