use yesterfile::cli::{
    daemon_next, discover_json, discover_lines, paths_lines, run_capture, run_capture_trigger,
    run_discover, run_init, run_list, run_show, DaemonNext,
};
use yesterfile::config::{Config, Repository, RuntimeConfig};
use yesterfile::paths::PathStyle;
use yesterfile::platform::{display_path, AppPaths, Environment};
use yesterfile::procedure::{Action, CommandOutput, Failure, Reply, Step};
use yesterfile::reconcile::TriggerEvent;

const ROOT: &str = "/work/demo";

fn environment() -> Environment {
    Environment {
        style: PathStyle::Posix,
        home: Some("/home/me".into()),
        paths: AppPaths {
            config_file: "/home/me/.config/yesterfile/config.json".into(),
            data_dir: "/home/me/data".into(),
            state_dir: "/state".into(),
        },
    }
}

fn output(code: i32, stdout: &str) -> Reply {
    Reply::Output(CommandOutput {
        code: Some(code),
        stdout: stdout.as_bytes().to_vec(),
        stderr: vec![],
    })
}

fn missing() -> Reply {
    Reply::Flags(vec![false])
}

fn opened() -> Vec<Reply> {
    vec![
        Reply::Paths(vec![Some(ROOT.into())]),
        Reply::Paths(vec![]),
        Reply::Done,
        Reply::Done,
        Reply::Flags(vec![true]),
        Reply::Flags(vec![true]),
        Reply::Paths(vec![Some(ROOT.into())]),
    ]
}

#[test]
fn init_says_where_the_configuration_is() {
    let replies = vec![missing(), Reply::Done, Reply::Done];
    assert_eq!(
        run_init(&environment(), None, false, &replies, 0),
        Step::Finished("created ~/.config/yesterfile/config.json".into(), 3)
    );
}

#[test]
fn discover_lists_the_worktrees() {
    let values = Config {
        repositories: vec![Repository::Path("/b".into()), Repository::Path("/a".into())],
        ..Config::default()
    };
    let replies = vec![
        Reply::Flags(vec![true]),
        Reply::Config(values),
        Reply::Flags(vec![true]),
        output(0, "/b"),
        Reply::Paths(vec![Some("/b".into())]),
        Reply::Flags(vec![true]),
        output(0, "/a"),
        Reply::Paths(vec![Some("/a".into())]),
    ];
    let Step::Finished(projects, 8) = run_discover(&environment(), None, &replies, 0) else {
        panic!("expected worktrees");
    };
    assert_eq!(discover_lines(&projects), ["/a", "/b"]);
    assert_eq!(discover_json(&projects), Ok(b"[\"/a\",\"/b\"]".to_vec()));
    assert_eq!(
        discover_json(&vec!["a\"b\\".into()]),
        Ok(b"[\"a\\\"b\\\\\"]".to_vec())
    );
    assert_eq!(
        discover_lines(&vec![]),
        ["no repositories configured or discovered"]
    );
}

#[test]
fn capture_says_what_came_of_it() {
    let mut replies = vec![
        missing(),
        Reply::Flags(vec![true]),
        output(0, "/work/demo\n"),
        Reply::Paths(vec![Some(ROOT.into())]),
    ];
    replies.extend(opened());
    replies.extend([
        Reply::Done,
        Reply::Done,
        output(0, ""),
        output(0, ""),
        Reply::Statuses(vec![]),
        output(0, "tree"),
    ]);
    let run = |replies: &Vec<Reply>| run_capture(&environment(), None, ".", replies, 0);
    let mut unchanged: Vec<Reply> = Vec::new();
    unchanged.append(&mut replies);
    unchanged.extend([output(0, "abc"), output(0, "tree"), Reply::Done]);
    assert_eq!(run(&unchanged), Step::Finished("unchanged".into(), 20));
    unchanged.truncate(17);
    unchanged.extend([
        output(1, ""),
        output(0, "0123456789abcdef"),
        output(0, ""),
        output(0, ""),
        Reply::Done,
    ]);
    assert_eq!(run(&unchanged), Step::Finished("0123456789ab".into(), 22));
}

fn located(there: bool) -> Vec<Reply> {
    let mut replies = vec![
        missing(),
        Reply::Paths(vec![Some("/work/demo/a".into())]),
        Reply::Flags(vec![false]),
        output(0, "/work/demo\n"),
        Reply::Paths(vec![Some(ROOT.into())]),
        Reply::Flags(vec![there]),
    ];
    if there {
        replies.extend(opened());
    }
    replies
}

#[test]
fn list_finds_the_snapshots_of_a_file() {
    let run = |replies: &Vec<Reply>| run_list(&environment(), None, "a", 500, replies, 0);
    assert_eq!(run(&located(false)), Step::Finished(vec![], 6));
    let mut replies = located(true);
    replies.extend([output(0, "abc"), output(0, "c1\t5\tone\n")]);
    let Step::Finished(snapshots, 15) = run(&replies) else {
        panic!("expected snapshots");
    };
    assert_eq!(snapshots[0].line(), "c1\t5\tone");
}

#[test]
fn show_finds_what_a_file_held() {
    let run = |replies: &Vec<Reply>| run_show(&environment(), None, "a", "0123456", replies, 0);
    assert_eq!(run(&located(false)), Step::Finished(None, 6));
    let mut replies = located(true);
    replies.extend([output(0, ""), output(0, "text")]);
    assert_eq!(run(&replies), Step::Finished(Some(b"text".to_vec()), 15));
}

#[test]
fn paths_says_where_everything_lies() {
    let config = RuntimeConfig::from_values(Config::default(), "/c.json", &environment()).unwrap();
    assert_eq!(
        paths_lines(&config),
        ["config: /c.json", "data:   ~/data", "state:  /state"]
    );
}

#[test]
fn a_trigger_says_what_it_captured() {
    let event = TriggerEvent {
        overflow: None,
        since: false,
        clock: Some("c:1".into()),
    };
    let run = |replies: &Vec<Reply>| {
        run_capture_trigger(&environment(), None, ROOT, &event, replies, 0)
    };
    let mut replies = vec![missing()];
    replies.extend(opened());
    replies.extend([
        Reply::Done,
        Reply::Done,
        output(0, ""),
        output(0, ""),
        Reply::Statuses(vec![]),
        output(0, "tree"),
        output(1, ""),
    ]);
    let Step::Perform(Action::Run(command)) = run(&replies) else {
        panic!("expected a command");
    };
    assert_eq!(command.arguments, ["commit-tree", "tree"]);
    assert_eq!(
        String::from_utf8(command.input.unwrap()).unwrap(),
        "snapshot: 0 changed paths\n\nsource: watchman:c:1\nroot: /work/demo\n"
    );
    replies.extend([output(0, "0123456789abcdef"), output(0, ""), output(0, ""), Reply::Done]);
    assert_eq!(
        run(&replies),
        Step::Finished(Some("captured /work/demo at 0123456789ab".into()), 19)
    );
}

#[test]
fn the_daemon_ends_only_where_it_runs_once() {
    assert_eq!(
        daemon_next(true, Ok(3), 60),
        DaemonNext::Stop("watching 3 repositories".into())
    );
    assert_eq!(
        daemon_next(true, Err(Failure::NoWatchRoot), 60),
        DaemonNext::Fail(Failure::NoWatchRoot)
    );
    assert_eq!(daemon_next(false, Ok(3), 60), DaemonNext::Wait(None, 60));
    assert_eq!(
        daemon_next(false, Err(Failure::NoWatchRoot), 5),
        DaemonNext::Wait(Some(Failure::NoWatchRoot), 5)
    );
}

#[test]
fn a_path_outside_every_home_is_shown_as_it_is() {
    assert_eq!(display_path(PathStyle::Posix, "relative/path"), "relative/path");
}

#[test]
fn the_current_user_has_an_environment_or_a_reason_for_none() {
    match Environment::detect(PathStyle::Posix) {
        Ok(found) => {
            assert_eq!(found.style, PathStyle::Posix);
            assert!(found.paths.config_file.ends_with("/yesterfile/config.json"));
            assert!(found.paths.data_dir.ends_with("/yesterfile"));
        }
        Err(failure) => assert!(matches!(
            failure,
            Failure::ConfigDirectoryUnknown | Failure::DataDirectoryUnknown
        )),
    }
}

#[test]
fn replies_behind_those_that_were_used_change_nothing() {
    let mut replies = located(false);
    let run = |replies: &Vec<Reply>| run_list(&environment(), None, "a", 1, replies, 0);
    for used in 0..replies.len() {
        let sooner: Vec<Reply> = located(false).into_iter().take(used).collect();
        assert!(matches!(run(&sooner), Step::Perform(_)));
    }
    assert_eq!(run(&replies), Step::Finished(vec![], 6));
    replies.push(Reply::Failed("late".into()));
    assert_eq!(run(&replies), Step::Finished(vec![], 6));
}
