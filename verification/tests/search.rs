use yesterfile::search::{Entry, Search, SearchCommand, SearchEvent};

/// What lies below a discovery root.
struct Tree {
    name: &'static str,
    git: bool,
    below: Vec<Tree>,
}

fn tree(name: &'static str, git: bool, below: Vec<Tree>) -> Tree {
    Tree { name, git, below }
}

/// Tells the search of everything that it does not ask to be spared.
fn walk(search: &mut Search, tree: &Tree, path: &str, depth: usize, max_depth: usize) {
    let here = format!("{path}/{}", tree.name);
    let entry = Entry {
        is_directory: true,
        depth,
        name: Some(tree.name.into()),
    };
    let mut command = search.advance(SearchEvent::Entry(entry));
    loop {
        command = match command {
            SearchCommand::LookForGit => search.advance(SearchEvent::Git(tree.git)),
            SearchCommand::Canonicalize => {
                search.advance(SearchEvent::Canonical(Some(here.clone())))
            }
            SearchCommand::SkipDirectory => return,
            SearchCommand::Next => break,
            _ => panic!("the search failed"),
        };
    }
    if depth < max_depth {
        for child in &tree.below {
            walk(search, child, &here, depth + 1, max_depth);
        }
    }
}

fn found(tree: &Tree, max_depth: usize) -> Vec<String> {
    let mut search = Search::new();
    walk(&mut search, tree, "", 0, max_depth);
    assert_eq!(search.advance(SearchEvent::End), SearchCommand::Finish);
    search.found
}

#[test]
fn a_search_finds_the_worktrees_of_a_tree_and_nothing_else() {
    let root = tree(
        "build",
        false,
        vec![
            tree("a", true, vec![tree("nested", true, vec![])]),
            tree("node_modules", true, vec![tree("hidden", true, vec![])]),
            tree(
                "plain",
                false,
                vec![
                    tree("b", true, vec![]),
                    tree("target", false, vec![tree("hidden", true, vec![])]),
                    tree("deep", false, vec![tree("c", true, vec![])]),
                ],
            ),
        ],
    );
    assert_eq!(found(&root, 3), ["/build/a", "/build/plain/b", "/build/plain/deep/c"]);
    assert_eq!(found(&root, 2), ["/build/a", "/build/plain/b"]);
    assert_eq!(found(&root, 1), ["/build/a"]);
    assert!(found(&root, 0).is_empty());
    assert_eq!(found(&tree("r", true, vec![tree("a", true, vec![])]), 5), ["/r"]);
}
