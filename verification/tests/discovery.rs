use yesterfile::config::{Config, Repository, RuntimeConfig};
use yesterfile::discovery::{
    build_excludes, choose_admitted, discover, discover_among, git_root,
};
use yesterfile::native::path_of_bytes;
use yesterfile::paths::PathStyle;
use yesterfile::platform::{AppPaths, Environment};
use yesterfile::procedure::{Action, CommandOutput, Failure, Reply, Step};
use yesterfile::search::{Entry, Phase, Search, SearchCommand, SearchEvent, Visit};

const POSIX: PathStyle = PathStyle::Posix;

fn config(values: Config) -> RuntimeConfig {
    let environment = Environment {
        style: POSIX,
        home: Some("/home/me".into()),
        paths: AppPaths {
            config_file: "/c.json".into(),
            data_dir: "/data".into(),
            state_dir: "/state".into(),
        },
    };
    RuntimeConfig::from_values(values, "/c.json", &environment).unwrap()
}

fn strings(list: &[&str]) -> Vec<String> {
    list.iter().map(|item| item.to_string()).collect()
}

fn paths(list: &[&str]) -> Vec<Repository> {
    list.iter().map(|item| Repository::Path(item.to_string())).collect()
}

fn output(code: i32, stdout: &str) -> Reply {
    Reply::Output(CommandOutput {
        code: Some(code),
        stdout: stdout.as_bytes().to_vec(),
        stderr: vec![],
    })
}

/// The replies for paths that are directories in worktrees with these roots.
fn in_worktrees(roots: &[&str]) -> Vec<Reply> {
    let mut replies = Vec::new();
    for root in roots {
        replies.push(Reply::Flags(vec![true]));
        replies.push(output(0, root));
        replies.push(Reply::Paths(vec![Some(root.to_string())]));
    }
    replies
}

#[test]
fn nothing_is_found_where_nothing_is_configured() {
    let config = config(Config::default());
    assert_eq!(discover(&config, &vec![], 0), Step::Finished(vec![], 0));
}

#[test]
fn repositories_alone_are_all_there_is() {
    let config = config(Config {
        repositories: paths(&["~/b", "/a", "/a/sub"]),
        ..Config::default()
    });
    assert_eq!(
        discover(&config, &vec![], 0),
        Step::Perform(Action::AreDirectories(strings(&["/home/me/b"])))
    );
    assert_eq!(
        discover(&config, &in_worktrees(&["/home/me/b", "/a", "/a"]), 0),
        Step::Finished(strings(&["/a", "/home/me/b"]), 9)
    );
}

#[test]
fn repositories_in_no_worktree_are_skipped() {
    let config = config(Config {
        repositories: paths(&["/1", "/2", "/3", "/4", "/"]),
        ..Config::default()
    });
    let next = |replies: &Vec<Reply>| discover(&config, replies, 0);
    let skipping = |path: &str, failure: Failure| {
        Step::Perform(Action::Report(format!("skipping {path}"), failure))
    };
    let mut replies = vec![Reply::Flags(vec![true]), output(128, "")];
    assert_eq!(next(&replies), skipping("/1", Failure::NotInWorktree));
    replies.push(Reply::Done);
    replies.extend([Reply::Flags(vec![true]), Reply::Failed("no git".into())]);
    assert_eq!(
        next(&replies),
        skipping(
            "/2",
            Failure::Unavailable {
                context: "failed to run git for /2".into(),
                cause: "no git".into(),
            }
        )
    );
    replies.push(Reply::Done);
    replies.extend([Reply::Flags(vec![true]), output(0, "/3"), Reply::Failed("gone".into())]);
    assert_eq!(
        next(&replies),
        skipping(
            "/3",
            Failure::Unavailable {
                context: "failed to canonicalize Git root /3".into(),
                cause: "gone".into(),
            }
        )
    );
    replies.push(Reply::Done);
    replies.extend(in_worktrees(&["/4"]));
    replies.push(Reply::Flags(vec![false]));
    assert_eq!(next(&replies), skipping("/", Failure::NoParentDirectory));
    replies.push(Reply::Done);
    assert_eq!(next(&replies), Step::Finished(strings(&["/4"]), 15));
}

#[test]
fn repositories_are_added_to_what_is_found() {
    let config = config(Config {
        repositories: paths(&["/x"]),
        discovery_roots: strings(&["~/Projects", "/gone"]),
        discovery_max_depth: 7,
        ..Config::default()
    });
    let mut replies = in_worktrees(&["/x"]);
    assert_eq!(
        discover(&config, &replies, 0),
        Step::Perform(Action::AreDirectories(strings(&["/home/me/Projects"])))
    );
    replies.push(Reply::Flags(vec![true]));
    assert_eq!(
        discover(&config, &replies, 0),
        Step::Perform(Action::Walk("/home/me/Projects".into(), 7))
    );
    replies.push(Reply::Found(strings(&["/y", "/x", "/a"])));
    assert_eq!(
        discover(&config, &replies, 0),
        Step::Perform(Action::AreDirectories(strings(&["/gone"])))
    );
    replies.push(Reply::Flags(vec![false]));
    assert_eq!(
        discover(&config, &replies, 0),
        Step::Perform(Action::Tell("discovery root does not exist: /gone".into()))
    );
    replies.push(Reply::Done);
    assert_eq!(
        discover(&config, &replies, 0),
        Step::Finished(strings(&["/a", "/x", "/y"]), 7)
    );
}

#[test]
fn further_roots_drop_no_worktree() {
    let below = |root: &str| match root {
        "/p" => strings(&["/p/b", "/p/a"]),
        "/q" => strings(&["/q/a", "/p/a"]),
        _ => vec![],
    };
    let found = |roots: &[&str]| {
        let config = config(Config {
            repositories: paths(&["/x"]),
            discovery_roots: strings(roots),
            exclude_repositories: strings(&["/p/b"]),
            ..Config::default()
        });
        let mut replies = in_worktrees(&["/x"]);
        for root in roots {
            replies.extend([Reply::Flags(vec![true]), Reply::Found(below(root))]);
        }
        match discover(&config, &replies, 0) {
            Step::Finished(list, _) => list,
            other => panic!("unexpected step: {other:?}"),
        }
    };
    assert_eq!(found(&["/p"]), ["/p/a", "/x"]);
    for roots in [vec!["/p", "/q"], vec!["/q", "/p"], vec!["/q", "/p", "/r"]] {
        let more = found(&roots);
        for worktree in found(&["/p"]) {
            assert!(more.contains(&worktree), "{roots:?}");
        }
        assert_eq!(more, ["/p/a", "/q/a", "/x"]);
    }
}

#[test]
fn relative_entries_do_not_count() {
    let config = config(Config {
        repositories: paths(&["src/a"]),
        discovery_roots: strings(&["src"]),
        ..Config::default()
    });
    let mut replies = vec![];
    assert_eq!(
        discover(&config, &replies, 0),
        Step::Perform(Action::Tell(
            "repository path must be absolute or start with ~: src/a".into()
        ))
    );
    replies.push(Reply::Done);
    assert_eq!(
        discover(&config, &replies, 0),
        Step::Perform(Action::Tell(
            "discovery root must be absolute or start with ~: src".into()
        ))
    );
    replies.push(Reply::Done);
    assert_eq!(discover(&config, &replies, 0), Step::Finished(vec![], 2));
}

#[test]
fn exclusions_are_globs() {
    let config = config(Config {
        repositories: paths(&["/1", "/2", "/3", "/4", "/5"]),
        exclude_repositories: strings(&["~/Projects/archive/**", "/exact", "/*/one"]),
        ..Config::default()
    });
    let replies = in_worktrees(&[
        "/home/me/Projects/archive/old",
        "/exact",
        "/exact/sub",
        "/a/one",
        "/home/me/Projects/new",
    ]);
    assert_eq!(
        discover(&config, &replies, 0),
        Step::Finished(strings(&["/exact/sub", "/home/me/Projects/new"]), 15)
    );
}

#[test]
fn exclusions_can_be_given() {
    let config = config(Config {
        repositories: paths(&["/1", "/2", "/3"]),
        exclude_repositories: strings(&["/ignored"]),
        ..Config::default()
    });
    let set = build_excludes(POSIX, &None, &strings(&["/b", "/c/*"])).unwrap();
    let replies = in_worktrees(&["/c/d", "/b", "/a"]);
    assert_eq!(
        discover_among(&config, &set, &replies, 0),
        Step::Finished(strings(&["/a"]), 9)
    );
    let set = build_excludes(POSIX, &None, &vec![]).unwrap();
    assert_eq!(
        discover_among(&config, &set, &replies, 0),
        Step::Finished(strings(&["/a", "/b", "/c/d"]), 9)
    );
}

#[test]
fn worktrees_whose_paths_are_no_text_are_found() {
    let config = config(Config {
        discovery_roots: strings(&["/r"]),
        exclude_repositories: strings(&["/r/old/*"]),
        ..Config::default()
    });
    let odd = path_of_bytes(&b"/r/\xff".to_vec());
    let excluded = path_of_bytes(&b"/r/old/\xff".to_vec());
    let replies = vec![
        Reply::Flags(vec![true]),
        Reply::Found(vec![odd.clone(), excluded, "/r/a".into()]),
    ];
    assert_eq!(
        discover(&config, &replies, 0),
        Step::Finished(vec!["/r/a".into(), odd], 2)
    );
}

#[test]
fn exclusions_have_to_be_globs() {
    let mut config = config(Config {
        exclude_repositories: strings(&["/a/**", "/a/[b", "/{"]),
        ..Config::default()
    });
    assert_eq!(
        discover(&config, &vec![], 0),
        Step::Failed(Failure::InvalidPattern {
            pattern: "/a/[b".into(),
            cause: "error parsing glob '/a/[b': unclosed character class; missing ']'".into(),
        })
    );
    config.home = None;
    config.values.exclude_repositories = strings(&["~/x"]);
    assert_eq!(discover(&config, &vec![], 0), Step::Failed(Failure::HomeUnknown));
    assert!(build_excludes(POSIX, &None, &strings(&["/a\\b"])).is_ok());
    assert!(matches!(
        build_excludes(POSIX, &None, &strings(&["a{b"])),
        Err(Failure::InvalidPattern { .. })
    ));
}

#[test]
fn exclusions_can_be_too_large() {
    let large = vec![format!("/{}", "?".repeat(300_000))];
    assert!(matches!(
        build_excludes(POSIX, &None, &large),
        Err(Failure::PatternsRefused(cause)) if !cause.is_empty()
    ));
}

#[test]
fn an_unknown_home_fails_the_discovery() {
    let mut config = config(Config {
        repositories: paths(&["~/b"]),
        ..Config::default()
    });
    config.home = None;
    assert_eq!(discover(&config, &vec![], 0), Step::Failed(Failure::HomeUnknown));
    config.values.repositories.clear();
    config.values.discovery_roots = strings(&["~"]);
    assert_eq!(discover(&config, &vec![], 0), Step::Failed(Failure::HomeUnknown));
}

#[test]
fn a_failed_search_fails_the_discovery() {
    let config = config(Config {
        discovery_roots: strings(&["/p"]),
        ..Config::default()
    });
    let replies = vec![Reply::Flags(vec![true]), Reply::Failed("loop".into())];
    assert_eq!(
        discover(&config, &replies, 0),
        Step::Failed(Failure::Unavailable {
            context: "failed to search /p".into(),
            cause: "loop".into(),
        })
    );
    let replies = vec![
        Reply::Flags(vec![true]),
        Reply::Stuck("/p/a".into(), "gone".into()),
    ];
    assert_eq!(
        discover(&config, &replies, 0),
        Step::Failed(Failure::Unavailable {
            context: "failed to canonicalize /p/a".into(),
            cause: "gone".into(),
        })
    );
}

#[test]
fn candidates_that_are_not_excluded() {
    let candidates = strings(&["/c", "/a", "/b", "/a"]);
    assert_eq!(
        choose_admitted(POSIX, &candidates, &vec![false, false, true, false]),
        ["/a", "/c"]
    );
}

#[test]
fn the_search_stops_at_worktrees_and_skips_what_is_never_watched() {
    let entry = |is_directory: bool, depth: usize, name: Option<&str>| Entry {
        is_directory,
        depth,
        name: name.map(str::to_owned),
    };
    assert_eq!(entry(false, 1, Some("a")).visit(None), Visit::Pass);
    assert_eq!(entry(true, 1, Some("a")).visit(None), Visit::Look);
    assert_eq!(entry(true, 1, Some("a")).visit(Some(true)), Visit::Record);
    assert_eq!(entry(true, 1, Some("a")).visit(Some(false)), Visit::Pass);
    assert_eq!(entry(true, 1, None).visit(None), Visit::Look);
    for name in [
        ".git",
        ".hg",
        ".svn",
        "node_modules",
        ".direnv",
        ".cache",
        "target",
        "dist",
        "build",
        "__pycache__",
    ] {
        assert_eq!(entry(true, 1, Some(name)).visit(None), Visit::Prune);
        assert_eq!(entry(true, 2, Some(name)).visit(Some(true)), Visit::Prune);
        assert_eq!(entry(true, 0, Some(name)).visit(None), Visit::Look);
    }
    assert_eq!(entry(true, 1, Some("coverage")).visit(None), Visit::Look);
}

#[test]
fn a_search_step_by_step() {
    let directory = |depth: usize, name: &str| {
        SearchEvent::Entry(Entry {
            is_directory: true,
            depth,
            name: Some(name.into()),
        })
    };
    let mut search = Search::new();
    let script = [
        (directory(0, "build"), SearchCommand::LookForGit),
        (SearchEvent::Git(false), SearchCommand::Next),
        (directory(1, "node_modules"), SearchCommand::SkipDirectory),
        (
            SearchEvent::Entry(Entry { is_directory: false, depth: 1, name: None }),
            SearchCommand::Next,
        ),
        (SearchEvent::Unreadable, SearchCommand::Next),
        (directory(1, "a"), SearchCommand::LookForGit),
        (SearchEvent::Git(true), SearchCommand::Canonicalize),
        (SearchEvent::Canonical(Some("/real/a".into())), SearchCommand::SkipDirectory),
        (directory(1, "b"), SearchCommand::LookForGit),
        (SearchEvent::Git(true), SearchCommand::Canonicalize),
        (SearchEvent::Canonical(Some("/real/b".into())), SearchCommand::SkipDirectory),
        (SearchEvent::End, SearchCommand::Finish),
    ];
    for (event, command) in script {
        assert_eq!(search.advance(event), command);
    }
    assert_eq!(search.found, ["/real/a", "/real/b"]);
    assert_eq!(search.advance(SearchEvent::End), SearchCommand::Fail);

    let mut search = Search::new();
    search.advance(directory(1, "a"));
    search.advance(SearchEvent::Git(true));
    assert_eq!(search.advance(SearchEvent::Canonical(None)), SearchCommand::Fail);
    assert_eq!(search.phase, Phase::Ended);
}

#[test]
fn the_root_of_a_worktree() {
    let replies = vec![Reply::Flags(vec![true])];
    let Step::Perform(Action::Run(command)) = git_root(POSIX, "/w/a", &replies, 0) else {
        panic!("expected a command");
    };
    assert_eq!(command.arguments[1], "/w/a");
    let replies = vec![
        Reply::Flags(vec![true]),
        Reply::Output(CommandOutput {
            code: Some(0),
            stdout: b" /w \n".to_vec(),
            stderr: vec![],
        }),
        Reply::Paths(vec![Some("/real/w".into())]),
    ];
    assert_eq!(
        git_root(POSIX, "/w/a", &replies, 0),
        Step::Finished("/real/w".into(), 3)
    );
    let replies = vec![
        Reply::Flags(vec![true]),
        Reply::Output(CommandOutput {
            code: Some(0),
            stdout: b"/w\n".to_vec(),
            stderr: vec![],
        }),
        Reply::Failed("gone".into()),
    ];
    assert_eq!(
        git_root(POSIX, "/w/a", &replies, 0),
        Step::Failed(Failure::Unavailable {
            context: "failed to canonicalize Git root /w".into(),
            cause: "gone".into(),
        })
    );
}
