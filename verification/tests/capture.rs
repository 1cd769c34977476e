use std::collections::BTreeMap;

use yesterfile::commit::{snapshot_message, snapshot_summary};
use yesterfile::config::{Config, ProjectSettings, RuntimeConfig};
use yesterfile::git_store::ProjectStore;
use yesterfile::native::path_of_bytes;
use yesterfile::opening::project_id;
use yesterfile::paths::{join, PathStyle};
use yesterfile::platform::{AppPaths, Environment};
use yesterfile::procedure::{
    Action, CommandOutput, Failure, FileStatus, Invocation, Reply, Step,
};

/// A worktree and a Git in memory, as far as the library uses them.
#[derive(Default)]
struct World {
    files: BTreeMap<String, String>,
    ignored: Vec<String>,
    known: Vec<String>,
    made: Vec<String>,
    owner: Option<String>,
    index: Option<BTreeMap<String, String>>,
    trees: Vec<BTreeMap<String, String>>,
    commits: Vec<(usize, Option<usize>, String)>,
    head: Option<usize>,
    locked: bool,
    log: Vec<String>,
}

const ROOT: &str = "/work/demo";

fn output(code: i32, stdout: Vec<u8>) -> Reply {
    Reply::Output(CommandOutput {
        code: Some(code),
        stdout,
        stderr: Vec::new(),
    })
}

fn text(stdout: String) -> Reply {
    output(0, format!("{stdout}\n").into_bytes())
}

fn nul_list(input: &Option<Vec<u8>>) -> Vec<String> {
    String::from_utf8(input.clone().unwrap())
        .unwrap()
        .split_terminator('\0')
        .map(str::to_owned)
        .collect()
}

impl World {
    fn commit_name(&self, commit: usize) -> String {
        format!("{:040x}", commit + 1)
    }

    fn commit_number(&self, name: &str) -> usize {
        usize::from_str_radix(name, 16).unwrap() - 1
    }

    fn listed(&self) -> Vec<u8> {
        let mut bytes = Vec::new();
        for name in self.files.keys() {
            if self.known.contains(name) || !self.ignored.contains(name) {
                bytes.extend_from_slice(name.as_bytes());
                bytes.push(0);
            }
        }
        bytes
    }

    fn git(&mut self, command: &Invocation) -> Reply {
        assert_eq!(command.program, "git");
        let words: Vec<&str> = command.arguments.iter().map(String::as_str).collect();
        self.log.push(words.join(" "));
        let private = !command.environment.is_empty();
        if private {
            assert_eq!(command.environment[0].0, "GIT_DIR");
            assert!(command.environment[0].1.starts_with("/data/repos/"));
        }
        match (private, words.as_slice()) {
            (false, ["init", "--bare", "--quiet", dir]) => {
                self.made.push(format!("{dir}/HEAD"));
                output(0, vec![])
            }
            (false, [_, "config", _, _]) => output(0, vec![]),
            (false, ["-C", ROOT, "ls-files", ..]) => output(0, self.listed()),
            (false, ["-C", ROOT, "check-ignore", "-z", "--stdin"]) => {
                let mut bytes = Vec::new();
                for path in nul_list(&command.input) {
                    if self.ignored.contains(&path) && !self.known.contains(&path) {
                        bytes.extend_from_slice(path.as_bytes());
                        bytes.push(0);
                    }
                }
                output(if bytes.is_empty() { 1 } else { 0 }, bytes)
            }
            (true, ["read-tree", "--empty"]) => {
                assert!(self.locked);
                self.index = Some(BTreeMap::new());
                output(0, vec![])
            }
            (true, ["read-tree", "refs/heads/history"]) => {
                let commit = self.head.unwrap();
                self.index = Some(self.trees[self.commits[commit].0].clone());
                output(0, vec![])
            }
            (true, ["add", "-A", "-f", "--pathspec-from-file=-", "--pathspec-file-nul"]) => {
                assert!(self.locked);
                for path in nul_list(&command.input) {
                    match self.files.get(&path) {
                        Some(contents) => {
                            self.index.as_mut().unwrap().insert(path, contents.clone());
                        }
                        None => {
                            self.index.as_mut().unwrap().remove(&path);
                        }
                    }
                }
                output(0, vec![])
            }
            (true, ["update-index", "--force-remove", "-z", "--stdin"]) => {
                assert!(self.locked);
                for path in nul_list(&command.input) {
                    self.index.as_mut().unwrap().remove(&path);
                }
                output(0, vec![])
            }
            (true, ["write-tree"]) => {
                let index = self.index.clone().unwrap();
                let number = match self.trees.iter().position(|tree| *tree == index) {
                    Some(number) => number,
                    None => {
                        self.trees.push(index);
                        self.trees.len() - 1
                    }
                };
                text(format!("tree{number}"))
            }
            (true, ["rev-parse", "--verify", "--quiet", "refs/heads/history"]) => match self.head {
                Some(commit) => text(self.commit_name(commit)),
                None => output(1, vec![]),
            },
            (true, ["rev-parse", object]) => {
                let commit = self.commit_number(object.strip_suffix("^{tree}").unwrap());
                text(format!("tree{}", self.commits[commit].0))
            }
            (true, ["commit-tree", tree, rest @ ..]) => {
                let tree = tree.strip_prefix("tree").unwrap().parse().unwrap();
                let parent = match rest {
                    [] => None,
                    ["-p", parent] => Some(self.commit_number(parent)),
                    _ => panic!("unexpected arguments: {rest:?}"),
                };
                let message = String::from_utf8(command.input.clone().unwrap()).unwrap();
                self.commits.push((tree, parent, message));
                text(self.commit_name(self.commits.len() - 1))
            }
            (true, ["update-ref", "refs/heads/history", commit, rest @ ..]) => {
                let expected = rest.first().map(|name| self.commit_number(name));
                assert_eq!(self.head, expected);
                self.head = Some(self.commit_number(commit));
                output(0, vec![])
            }
            (true, ["gc", "--auto", "--quiet"]) => output(0, vec![]),
            (true, ["log", "refs/heads/history", _, "--max-count", limit, "--", path]) => {
                let mut lines = Vec::new();
                let mut next = self.head;
                while let Some(commit) = next {
                    let (tree, parent, message) = &self.commits[commit];
                    let here = self.trees[*tree].get(*path);
                    let before = parent.and_then(|p| self.trees[self.commits[p].0].get(*path));
                    if here != before {
                        let subject = message.lines().next().unwrap();
                        lines.push(format!("{}\t{commit}\t{subject}\n", self.commit_name(commit)));
                    }
                    next = *parent;
                }
                lines.truncate(limit.parse().unwrap());
                output(0, lines.concat().into_bytes())
            }
            (true, ["cat-file", "-e", object]) => {
                let (commit, path) = object.split_once(':').unwrap();
                let tree = &self.trees[self.commits[self.commit_number(commit)].0];
                output(if tree.contains_key(path) { 0 } else { 128 }, vec![])
            }
            (true, ["show", object]) => {
                let (commit, path) = object.split_once(':').unwrap();
                let tree = &self.trees[self.commits[self.commit_number(commit)].0];
                output(0, tree[path].clone().into_bytes())
            }
            other => panic!("unexpected command: {other:?}"),
        }
    }

    fn perform(&mut self, action: &Action) -> Reply {
        match action {
            Action::OpenLock(file) => {
                assert!(file.ends_with("/lock"));
                assert!(!self.locked);
                Reply::Done
            }
            Action::Lock => {
                assert!(!self.locked);
                self.locked = true;
                Reply::Done
            }
            Action::Unlock => {
                assert!(self.locked);
                self.locked = false;
                Reply::Done
            }
            Action::Run(command) => self.git(command),
            Action::Exists(path) if path.ends_with("/index") => {
                Reply::Flags(vec![self.index.is_some()])
            }
            Action::Exists(path) if path.ends_with("/project.json") => {
                Reply::Flags(vec![self.owner.is_some()])
            }
            Action::Exists(path) => Reply::Flags(vec![self.made.contains(path)]),
            Action::Canonicalize(paths) => {
                Reply::Paths(paths.iter().map(|path| Some(path.clone())).collect())
            }
            Action::Resolve(path) => Reply::Paths(vec![Some(path.clone())]),
            Action::CreateDirectory(path) => {
                self.made.push(path.clone());
                Reply::Done
            }
            Action::SecureDirectory(path) => {
                assert!(self.made.contains(path));
                Reply::Done
            }
            Action::ReadProject(_) => Reply::Paths(vec![self.owner.clone()]),
            Action::WriteProject(_, root) => {
                self.owner = Some(root.clone());
                Reply::Done
            }
            Action::Inspect(paths) => Reply::Statuses(
                paths
                    .iter()
                    .map(|path| {
                        let name = path.strip_prefix("/work/demo/").unwrap();
                        match self.files.get(name) {
                            Some(contents) => FileStatus::Regular(contents.len() as u64),
                            None => FileStatus::Missing,
                        }
                    })
                    .collect(),
            ),
            other => panic!("unexpected action: {other:?}"),
        }
    }

    fn run<T>(&mut self, procedure: impl Fn(&Vec<Reply>) -> Step<T>) -> Result<T, Failure> {
        let mut replies = Vec::new();
        loop {
            match procedure(&replies) {
                Step::Perform(action) => {
                    let reply = self.perform(&action);
                    replies.push(reply);
                }
                Step::Finished(value, used) => {
                    assert_eq!(used, replies.len());
                    return Ok(value);
                }
                Step::Failed(failure) => return Err(failure),
            }
        }
    }

    fn write(&mut self, name: &str, contents: &str) {
        self.files.insert(name.to_owned(), contents.to_owned());
    }
}

fn environment() -> Environment {
    Environment {
        style: PathStyle::Posix,
        home: None,
        paths: AppPaths {
            config_file: "/c.json".into(),
            data_dir: "/data".into(),
            state_dir: "/state".into(),
        },
    }
}

fn config() -> RuntimeConfig {
    RuntimeConfig::from_values(Config::default(), "/c.json", &environment()).unwrap()
}

fn store(ignored: &[&str], max_file_size_mb: u64) -> ProjectStore {
    let settings = ProjectSettings {
        ignore_directories: ignored.iter().map(|name| name.to_string()).collect(),
        max_file_size_mb,
    };
    ProjectStore::new(&config(), ROOT.to_owned(), settings)
}

fn strings(list: &[&str]) -> Vec<String> {
    list.iter().map(|item| item.to_string()).collect()
}

#[test]
fn captures_incremental_file_history_without_ignored_files() {
    let mut world = World::default();
    world.write(".gitignore", "ignored.txt\n");
    world.write("tracked.txt", "first\n");
    world.write("ignored.txt", "private\n");
    world.ignored = strings(&["ignored.txt"]);
    world.known = strings(&[".gitignore", "tracked.txt"]);

    let config = config();
    let store = world
        .run(|replies| ProjectStore::open(&config, ROOT, replies, 0))
        .unwrap();

    let first = world
        .run(|replies| store.capture_full("test", replies, 0))
        .unwrap()
        .unwrap();
    let list = |world: &mut World, path: &str| {
        world
            .run(|replies| store.list_file(path, 20, replies, 0))
            .unwrap()
    };
    let show = |world: &mut World, path: &str, revision: &str| {
        world
            .run(|replies| store.show_file(path, revision, replies, 0))
            .unwrap()
    };
    assert_eq!(list(&mut world, "tracked.txt").len(), 1);
    assert_eq!(
        show(&mut world, "tracked.txt", &first).unwrap(),
        b"first\n"
    );
    assert!(list(&mut world, "ignored.txt").is_empty());

    world.write(".gitignore", "");
    world.ignored.clear();
    world
        .run(|replies| store.capture_paths(&strings(&[".gitignore"]), "test", replies, 0))
        .unwrap()
        .unwrap();
    assert_eq!(list(&mut world, "ignored.txt").len(), 1);

    world.write("tracked.txt", "second\n");
    let second = world
        .run(|replies| store.capture_paths(&strings(&["tracked.txt"]), "test", replies, 0))
        .unwrap()
        .unwrap();
    assert_eq!(
        show(&mut world, "tracked.txt", &second).unwrap(),
        b"second\n"
    );

    world.files.remove("tracked.txt");
    let deleted = world
        .run(|replies| store.capture_paths(&strings(&["tracked.txt"]), "test", replies, 0))
        .unwrap()
        .unwrap();
    assert!(show(&mut world, "tracked.txt", &deleted).is_none());
    assert_eq!(list(&mut world, "tracked.txt").len(), 3);
}

#[test]
fn a_snapshot_is_read_back_whatever_is_captured_later() {
    let mut world = World::default();
    world.write("a", "one");
    world.write("b", "two");
    world.write("target/x", "three");
    world.known = strings(&["a", "b", "target/x"]);
    let store = store(&["target"], 1);
    let full = |world: &mut World| {
        world
            .run(|replies| store.capture_full("test", replies, 0))
            .unwrap()
            .unwrap()
    };
    let show = |world: &mut World, path: &str, revision: &str| {
        world
            .run(|replies| store.show_file(path, revision, replies, 0))
            .unwrap()
            .map(|bytes| String::from_utf8(bytes).unwrap())
    };
    let first = full(&mut world);
    let mut commits = vec![first.clone()];
    for contents in ["1", "2", "3"] {
        world.write("a", contents);
        commits.push(full(&mut world));
    }
    assert_eq!(show(&mut world, "a", &first).as_deref(), Some("one"));
    assert_eq!(show(&mut world, "b", &first).as_deref(), Some("two"));
    assert_eq!(show(&mut world, "target/x", &first), None);
    assert_eq!(show(&mut world, "a", &commits[2]).as_deref(), Some("2"));

    commits.reverse();
    for limit in 0..6 {
        let listed = world
            .run(|replies| store.list_file("a", limit, replies, 0))
            .unwrap();
        let names: Vec<String> = listed.into_iter().map(|snapshot| snapshot.commit).collect();
        assert_eq!(names, commits[..commits.len().min(limit as usize)]);
    }
}

#[test]
fn only_some_file_systems_keep_others_out() {
    let mut config = config();
    config.style = PathStyle::Windows;
    config.store_dir = "C:\\data".into();
    let root = "\\\\?\\C:\\work";
    let replies = vec![
        Reply::Paths(vec![Some(root.into())]),
        Reply::Paths(vec![]),
        Reply::Done,
    ];
    let head = format!("C:\\data\\repos\\{}\\history.git\\HEAD", project_id(root));
    assert_eq!(
        ProjectStore::open(&config, root, &replies, 0),
        Step::Perform(Action::Exists(head))
    );
}

#[test]
fn a_worktree_whose_path_is_no_text_has_no_history() {
    let config = config();
    let mut world = World::default();
    let odd = path_of_bytes(&b"/work/\xff".to_vec());
    assert_eq!(
        world.run(|replies| ProjectStore::open(&config, &odd, replies, 0)),
        Err(Failure::NotText("path contains invalid UTF-8 characters".into()))
    );
    assert_eq!(world.owner, None);
}

#[test]
fn an_unchanged_worktree_is_not_captured_again() {
    let mut world = World::default();
    world.write("a", "1");
    let store = store(&[], 10);
    let first = world.run(|replies| store.capture_full("test", replies, 0)).unwrap();
    assert!(first.is_some());
    let second = world.run(|replies| store.capture_full("test", replies, 0)).unwrap();
    assert_eq!(second, None);
    let third = world
        .run(|replies| store.capture_paths(&strings(&["a"]), "test", replies, 0))
        .unwrap();
    assert_eq!(third, None);
    assert_eq!(world.commits.len(), 1);
    assert!(!world.locked);
}

#[test]
fn the_filters_hold_for_both_kinds_of_snapshots() {
    let mut world = World::default();
    world.write("a", "1");
    world.write("target/b", "1");
    world.write("x/target/b", "1");
    world.write("large", &"x".repeat(1024 * 1024 + 1));
    world.write("limit", &"x".repeat(1024 * 1024));
    world.write("secret", "1");
    world.ignored = strings(&["secret"]);
    let store = store(&["target"], 1);
    world.run(|replies| store.capture_full("test", replies, 0)).unwrap();
    let names: Vec<String> = world.index.clone().unwrap().into_keys().collect();
    assert_eq!(names, ["a", "limit"]);

    world.write("a", &"x".repeat(1024 * 1024 + 1));
    let reported = strings(&["target/b", "secret", "a", "x/target/b", "../up", "/abs", ""]);
    world
        .run(|replies| store.capture_paths(&reported, "watchman:c:1", replies, 0))
        .unwrap()
        .unwrap();
    let names: Vec<String> = world.index.clone().unwrap().into_keys().collect();
    assert_eq!(names, ["limit"]);
    let (_, parent, message) = world.commits[1].clone();
    assert_eq!(parent, Some(0));
    assert_eq!(
        message,
        "snapshot: 4 changed paths\n\nsource: watchman:c:1\nroot: /work/demo\n"
    );
}

#[test]
fn a_report_of_nothing_usable_takes_no_snapshot() {
    let mut world = World::default();
    let store = store(&[], 1);
    let outcome = world
        .run(|replies| store.capture_paths(&strings(&["..", "/x"]), "test", replies, 0))
        .unwrap();
    assert_eq!(outcome, None);
    assert!(world.commits.is_empty());
    assert!(!world.locked);
    assert_eq!(
        world.log,
        ["rev-parse --verify --quiet refs/heads/history", "read-tree --empty"]
    );
}

#[test]
fn a_lost_index_is_that_of_the_latest_snapshot() {
    let mut world = World::default();
    world.write("a", "1");
    world.write("b", "1");
    let store = store(&[], 1);
    world.run(|replies| store.capture_full("test", replies, 0)).unwrap();
    world.index = None;
    world.write("b", "2");
    world
        .run(|replies| store.capture_paths(&strings(&["b"]), "test", replies, 0))
        .unwrap()
        .unwrap();
    let names: Vec<String> = world.index.clone().unwrap().into_keys().collect();
    assert_eq!(names, ["a", "b"]);
}

#[test]
fn the_lock_comes_first() {
    let store = store(&[], 1);
    let lock = Action::OpenLock(format!("/data/repos/{}/lock", project_id(ROOT)));
    let none = Vec::new();
    assert_eq!(store.capture_full("test", &none, 0), Step::Perform(lock));
    let unavailable = |context: &str, cause: &str| {
        Step::Failed(Failure::Unavailable {
            context: context.into(),
            cause: cause.into(),
        })
    };
    let refused = vec![Reply::Failed("denied".into())];
    assert_eq!(
        store.capture_full("test", &refused, 0),
        unavailable("failed to open project history lock", "denied")
    );
    let open = vec![Reply::Done];
    assert_eq!(store.capture_full("test", &open, 0), Step::Perform(Action::Lock));
    let busy = vec![Reply::Done, Reply::Failed("busy".into())];
    assert_eq!(
        store.capture_full("test", &busy, 0),
        unavailable("failed to lock project history", "busy")
    );
    let wrong = vec![Reply::Flags(vec![true])];
    assert_eq!(
        store.capture_paths(&strings(&["a"]), "test", &wrong, 0),
        Step::Failed(Failure::UnexpectedReply)
    );
}

#[test]
fn a_path_that_cannot_be_inspected_fails_the_snapshot() {
    let store = store(&["target"], 1);
    let replies = vec![
        Reply::Done,
        Reply::Done,
        output(0, vec![]),
        output(0, b"target/x\0a\0b\0".to_vec()),
        Reply::Statuses(vec![FileStatus::Other, FileStatus::Unreadable("denied".into())]),
    ];
    assert_eq!(
        store.capture_full("test", &replies, 0),
        Step::Failed(Failure::Unavailable {
            context: "failed to inspect /work/demo/b".into(),
            cause: "denied".into(),
        })
    );
    let replies = vec![
        Reply::Done,
        Reply::Done,
        output(0, vec![]),
        output(0, b"../x\0".to_vec()),
        Reply::Statuses(vec![]),
    ];
    assert_eq!(
        store.capture_full("test", &replies, 0),
        Step::Failed(Failure::UnsafePath("../x".into()))
    );
}

#[test]
fn failed_maintenance_does_not_fail_the_snapshot() {
    let store = store(&[], 1);
    let mut replies = vec![text("tree1".into()), output(1, vec![]), text("c0ffee".into()), output(0, vec![])];
    replies.push(Reply::Failed("no git".into()));
    assert_eq!(
        store.commit(1, "test", &replies, 0),
        Step::Perform(Action::Tell(
            "could not start automatic Git maintenance for /work/demo: no git".into()
        ))
    );
    replies.push(Reply::Done);
    assert_eq!(store.commit(1, "test", &replies, 0), Step::Finished(Some("c0ffee".into()), 6));
    replies[4] = Reply::Output(CommandOutput {
        code: Some(1),
        stdout: vec![],
        stderr: b"full\n".to_vec(),
    });
    assert_eq!(
        store.commit(1, "test", &replies[..5].iter().map(again).collect(), 0),
        Step::Perform(Action::Tell(
            "automatic Git maintenance failed for /work/demo: full".into()
        ))
    );
}

fn again(reply: &Reply) -> Reply {
    match reply {
        Reply::Output(o) => Reply::Output(CommandOutput {
            code: o.code,
            stdout: o.stdout.clone(),
            stderr: o.stderr.clone(),
        }),
        Reply::Failed(cause) => Reply::Failed(cause.clone()),
        _ => Reply::Done,
    }
}

fn broken<T>(operation: &str) -> Step<T> {
    Step::Failed(Failure::CommandFailed {
        operation: operation.into(),
        code: Some(9),
        message: "".into(),
    })
}

#[test]
fn failures_of_git_fail_the_snapshot() {
    let store = store(&[], 1);
    let bad = || output(9, vec![]);
    assert_eq!(store.commit(1, "t", &vec![bad()], 0), broken("git write-tree"));
    assert_eq!(
        store.commit(1, "t", &vec![text("t".into()), text("c".into()), bad()], 0),
        broken("git rev-parse")
    );
    assert_eq!(
        store.commit(1, "t", &vec![text("t".into()), output(1, vec![]), bad()], 0),
        broken("git commit-tree")
    );
    assert_eq!(
        store.commit(1, "t", &vec![text("t".into()), output(1, vec![]), text("c".into()), bad()], 0),
        broken("git update-ref")
    );
    let locked = |more: Vec<Reply>| {
        let mut replies = vec![Reply::Done, Reply::Done];
        replies.extend(more);
        store.capture_full("t", &replies, 0)
    };
    assert_eq!(locked(vec![bad()]), broken("git read-tree --empty"));
    assert_eq!(
        locked(vec![output(0, vec![]), bad()]),
        broken("git ls-files")
    );
    assert_eq!(store.stage_paths(&strings(&["a"]), &vec![bad()], 0), broken("git add"));
    assert_eq!(store.remove_paths(&strings(&["a"]), &vec![bad()], 0), broken("git update-index"));
    assert_eq!(
        store.git_ignored_paths(&strings(&["a"]), &vec![bad()], 0),
        broken("git check-ignore")
    );
}

#[test]
fn what_a_snapshot_says_of_itself() {
    assert_eq!(snapshot_summary(0), "snapshot: 0 changed paths");
    assert_eq!(snapshot_summary(1), "snapshot: 1 changed path");
    assert_eq!(
        snapshot_message(12, "manual", "/w"),
        "snapshot: 12 changed paths\n\nsource: manual\nroot: /w\n"
    );
}

#[test]
fn project_ids_are_stable_and_path_specific() {
    assert_eq!(project_id("/a"), project_id("/a"));
    assert_ne!(project_id("/a"), project_id("/b"));
}

#[test]
fn project_ids_are_the_start_of_a_digest() {
    assert_eq!(project_id("/a"), "6a50dc8584134c7de537c005");
    assert_eq!(project_id("/b"), "9812b0b9d61e09b927d03ff9");
    assert_eq!(project_id("/home/me/\u{e4}"), "1cdef312aebf41c02d9a17b9");
}

#[test]
fn a_store_is_created_once() {
    let mut world = World::default();
    let config = config();
    let opened = world.run(|replies| ProjectStore::open(&config, ROOT, replies, 0)).unwrap();
    let dir = "/data/repos/111b1182b4b056ca80f73359";
    assert_eq!(opened.project_dir, dir);
    assert_eq!(opened.git_dir, format!("{dir}/history.git"));
    assert_eq!(opened.index_file, format!("{dir}/index"));
    assert_eq!(opened.root, ROOT);
    assert_eq!(opened.settings.max_file_size_mb, 10);
    assert_eq!(
        world.log,
        [
            format!("init --bare --quiet {dir}/history.git"),
            format!("--git-dir={dir}/history.git config user.name local-history"),
            format!("--git-dir={dir}/history.git config user.email local-history@localhost"),
            format!("--git-dir={dir}/history.git config gc.auto 256"),
        ]
    );
    assert_eq!(world.owner.as_deref(), Some(ROOT));
    world.log.clear();
    world.run(|replies| ProjectStore::open(&config, ROOT, replies, 0)).unwrap();
    assert!(world.log.is_empty());

    world.owner = Some("/work/other".into());
    assert_eq!(
        world.run(|replies| ProjectStore::open(&config, ROOT, replies, 0)),
        Err(Failure::Collision {
            project_dir: dir.into(),
            owner: "/work/other".into(),
        })
    );
    let lost = vec![Reply::Failed("no such directory".into())];
    assert_eq!(
        ProjectStore::open(&config, ROOT, &lost, 0),
        Step::Failed(Failure::Unavailable {
            context: "failed to canonicalize /work/demo".into(),
            cause: "no such directory".into(),
        })
    );
    let opening = |more: Vec<Reply>| {
        let mut replies = vec![Reply::Paths(vec![Some(ROOT.into())]), Reply::Paths(vec![])];
        replies.extend(more);
        ProjectStore::open(&config, ROOT, &replies, 0)
    };
    let unavailable = |context: String| {
        Step::Failed(Failure::Unavailable {
            context,
            cause: "denied".into(),
        })
    };
    let denied = || Reply::Failed("denied".into());
    assert_eq!(opening(vec![]), Step::Perform(Action::CreateDirectory(dir.into())));
    assert_eq!(opening(vec![denied()]), unavailable(format!("failed to create {dir}")));
    assert_eq!(
        opening(vec![Reply::Done]),
        Step::Perform(Action::SecureDirectory(dir.into()))
    );
    assert_eq!(
        opening(vec![Reply::Done, denied()]),
        unavailable(format!("failed to secure {dir}"))
    );
}

#[test]
fn the_history_of_a_file_is_that_of_its_worktree() {
    let config = config();
    let find = |file: &str, replies: Vec<Reply>| ProjectStore::for_file(&config, file, &replies, 0);
    let file = "/work/demo/src/a.rs";
    let resolved = || Reply::Paths(vec![Some("/work/demo/src/a.rs".into())]);
    let toplevel = |root: &str| text(root.to_owned());
    let canonical = |root: &str| Reply::Paths(vec![Some(root.into())]);
    assert_eq!(
        find(file, vec![resolved(), Reply::Flags(vec![false])]),
        Step::Perform(Action::Run(Invocation {
            program: "git".into(),
            arguments: strings(&[
                "-C",
                "/work/demo/src",
                "rev-parse",
                "--path-format=absolute",
                "--show-toplevel",
            ]),
            environment: vec![],
            input: None,
        }))
    );
    let found = || {
        vec![
            resolved(),
            Reply::Flags(vec![false]),
            toplevel(ROOT),
            canonical(ROOT),
        ]
    };
    assert_eq!(
        find(file, found()),
        Step::Perform(Action::Exists(
            "/data/repos/111b1182b4b056ca80f73359/history.git/HEAD".into()
        ))
    );
    let mut replies = found();
    replies.push(Reply::Flags(vec![false]));
    assert_eq!(find(file, replies), Step::Finished(None, 5));
    let mut replies = found();
    replies.extend([
        Reply::Flags(vec![true]),
        canonical(ROOT),
        Reply::Paths(vec![]),
        Reply::Done,
        Reply::Done,
        Reply::Flags(vec![true]),
        Reply::Flags(vec![true]),
        canonical(ROOT),
    ]);
    let Step::Finished(Some((store, relative)), 12) = find(file, replies) else {
        panic!("expected a history");
    };
    assert_eq!(store.root, ROOT);
    assert_eq!(relative, "src/a.rs");
    assert_eq!(join(PathStyle::Posix, &store.root, &relative), file);

    let mut elsewhere = found();
    elsewhere[3] = canonical("/work/other");
    assert_eq!(
        find(file, elsewhere),
        Step::Failed(Failure::OutsideRoot {
            path: file.into(),
            root: "/work/other".into(),
        })
    );
    let mut itself = found();
    itself[0] = canonical(ROOT);
    assert_eq!(find(ROOT, itself), Step::Failed(Failure::NotRelative));
    let outside = vec![resolved(), Reply::Flags(vec![false]), output(128, vec![])];
    assert_eq!(find(file, outside), Step::Failed(Failure::NotInWorktree));
    let garbled = vec![resolved(), Reply::Flags(vec![false]), output(0, vec![0xff])];
    assert_eq!(
        find(file, garbled),
        Step::Failed(Failure::NotUtf8 {
            context: "Git returned a non-UTF-8 worktree path".into(),
            cause: "invalid utf-8 sequence of 1 bytes from index 0".into(),
        })
    );
    let top = vec![Reply::Paths(vec![None]), Reply::Flags(vec![false])];
    assert_eq!(find("/", top), Step::Failed(Failure::NoParentDirectory));
}

#[test]
fn a_deleted_file_is_found_by_where_it_was() {
    let config = config();
    let replies = vec![Reply::Paths(vec![None])];
    assert_eq!(
        ProjectStore::for_file(&config, "src/gone.rs", &replies, 0),
        Step::Perform(Action::CurrentDirectory)
    );
    let replies = vec![Reply::Paths(vec![None]), Reply::Paths(vec![Some(ROOT.into())])];
    assert_eq!(
        ProjectStore::for_file(&config, "src/gone.rs", &replies, 0),
        Step::Perform(Action::AreDirectories(strings(&["/work/demo/src/gone.rs"])))
    );
    let replies = vec![Reply::Paths(vec![None])];
    assert_eq!(
        ProjectStore::for_file(&config, "/work/demo/gone.rs", &replies, 0),
        Step::Perform(Action::AreDirectories(strings(&["/work/demo/gone.rs"])))
    );
}
