use yesterfile::config::ProjectSettings;
use yesterfile::git_store::{
    git_path, normalize_watchman_path, validate_relative_path, write_nul_paths, ProjectStore,
};
use yesterfile::history::{parse_snapshot, Snapshot};
use yesterfile::native::path_of_bytes;
use yesterfile::numbers::{decimal_text, hex_text, le_bytes, parse_i64, signed_text};
use yesterfile::paths::PathStyle;
use yesterfile::procedure::{Action, CommandOutput, Failure, Reply, Step};
use yesterfile::select::read_nul_paths;

const POSIX: PathStyle = PathStyle::Posix;

fn store() -> ProjectStore {
    ProjectStore {
        style: POSIX,
        settings: ProjectSettings {
            ignore_directories: vec!["target".into()],
            max_file_size_mb: 1,
        },
        root: "/work/demo".into(),
        project_dir: "/data/repos/id".into(),
        git_dir: "/data/repos/id/history.git".into(),
        index_file: "/data/repos/id/index".into(),
    }
}

fn output(code: i32, stdout: &str, stderr: &str) -> Reply {
    Reply::Output(CommandOutput {
        code: Some(code),
        stdout: stdout.as_bytes().to_vec(),
        stderr: stderr.as_bytes().to_vec(),
    })
}

fn arguments<T: std::fmt::Debug>(step: Step<T>) -> Vec<String> {
    let Step::Perform(Action::Run(command)) = step else {
        panic!("expected a command: {step:?}");
    };
    assert_eq!(command.program, "git");
    assert_eq!(
        command.environment,
        [
            ("GIT_DIR", "/data/repos/id/history.git"),
            ("GIT_WORK_TREE", "/work/demo"),
            ("GIT_INDEX_FILE", "/data/repos/id/index"),
            ("GIT_AUTHOR_NAME", "local-history"),
            ("GIT_AUTHOR_EMAIL", "local-history@localhost"),
            ("GIT_COMMITTER_NAME", "local-history"),
            ("GIT_COMMITTER_EMAIL", "local-history@localhost"),
        ]
        .map(|(name, value)| (name.to_owned(), value.to_owned()))
    );
    command.arguments
}

#[test]
fn rejects_parent_components() {
    assert!(validate_relative_path(POSIX, "../secret").is_err());
    assert!(validate_relative_path(POSIX, "src/main.rs").is_ok());
}

#[test]
fn unsafe_paths_are_told_apart() {
    assert_eq!(validate_relative_path(POSIX, ""), Err(Failure::NotRelative));
    assert_eq!(validate_relative_path(POSIX, "/etc"), Err(Failure::NotRelative));
    assert_eq!(
        validate_relative_path(POSIX, "a/../b"),
        Err(Failure::UnsafePath("a/../b".into()))
    );
    assert_eq!(
        validate_relative_path(POSIX, "./a"),
        Err(Failure::UnsafePath("./a".into()))
    );
    assert_eq!(
        validate_relative_path(PathStyle::Windows, "\\a"),
        Err(Failure::UnsafePath("\\a".into()))
    );
    assert_eq!(validate_relative_path(POSIX, "a/./b"), Ok(()));
}

#[test]
fn reported_paths_are_normalized() {
    assert_eq!(normalize_watchman_path(POSIX, "a\\b").unwrap(), "a\\b");
    assert_eq!(normalize_watchman_path(PathStyle::Windows, "a\\b").unwrap(), "a/b");
    assert_eq!(normalize_watchman_path(POSIX, "/a"), Err(Failure::NotRelative));
    assert_eq!(git_path(PathStyle::Windows, "a\\b/c"), "a/b/c");
    assert_eq!(git_path(POSIX, "a\\b/c"), "a\\b/c");
}

#[test]
fn paths_between_zero_bytes() {
    let paths: Vec<String> = ["a", "b c/\u{e4}"].map(str::to_owned).to_vec();
    let bytes = write_nul_paths(&paths);
    assert_eq!(bytes, b"a\0b c/\xc3\xa4\0");
    assert_eq!(read_nul_paths(&bytes), paths);
    assert_eq!(read_nul_paths(&b"\0\0x\0y".to_vec()), ["x", "y"]);
    assert_eq!(read_nul_paths(&b"\xff\0".to_vec()), ["\u{fffd}"]);
    assert!(read_nul_paths(&Vec::new()).is_empty());
}

#[test]
fn numbers_as_text() {
    assert_eq!(decimal_text(0), "0");
    assert_eq!(decimal_text(u64::MAX), "18446744073709551615");
    assert_eq!(signed_text(-15), "-15");
    assert_eq!(signed_text(i64::MIN), "-9223372036854775808");
    assert_eq!(signed_text(1700000000), "1700000000");
    for text in ["0", "-1", "+7", "9223372036854775807", "-9223372036854775808"] {
        assert_eq!(parse_i64(text), text.parse().ok(), "{text}");
    }
    for text in ["", "-", "+", "1 ", "9223372036854775808", "-9223372036854775809", "0x1", "\u{661}"] {
        assert_eq!(parse_i64(text), None, "{text}");
    }
    assert_eq!(hex_text(&vec![0, 15, 171, 255], 3), "000fab");
    assert_eq!(le_bytes(258), [2, 1, 0, 0, 0, 0, 0, 0]);
    assert_eq!(le_bytes(u64::MAX), u64::MAX.to_le_bytes());
}

#[test]
fn a_line_of_the_log() {
    let snapshot = Snapshot {
        commit: "abc".into(),
        timestamp: 1700000000,
        summary: "one\ttwo".into(),
    };
    assert_eq!(snapshot.line(), "abc\t1700000000\tone\ttwo");
    assert_eq!(parse_snapshot(&snapshot.line()), Ok(snapshot));
    assert_eq!(
        parse_snapshot("abc\t-5"),
        Ok(Snapshot { commit: "abc".into(), timestamp: -5, summary: "".into() })
    );
    assert_eq!(parse_snapshot("abc"), Err(Failure::MissingTimestamp));
    assert_eq!(
        parse_snapshot("abc\tx\ty"),
        Err(Failure::InvalidTimestamp("invalid digit found in string".into()))
    );
}

#[test]
fn listing_asks_for_the_commits_of_a_file() {
    let list = |replies: Vec<Reply>| store().list_file("src/a.rs", 20, &replies, 0);
    assert_eq!(
        arguments(list(vec![])),
        ["rev-parse", "--verify", "--quiet", "refs/heads/history"]
    );
    assert_eq!(list(vec![output(1, "", "")]), Step::Finished(vec![], 1));
    assert_eq!(
        arguments(list(vec![output(0, "abc\n", "")])),
        [
            "log",
            "refs/heads/history",
            "--format=%H%x09%ct%x09%s",
            "--max-count",
            "20",
            "--",
            "src/a.rs",
        ]
    );
    let log = "c2\t20\tsecond\r\n\nc1\t10\tfirst\n";
    let Step::Finished(snapshots, 2) = list(vec![output(0, "abc\n", ""), output(0, log, "")])
    else {
        panic!("expected snapshots");
    };
    let lines: Vec<String> = snapshots.iter().map(Snapshot::line).collect();
    assert_eq!(lines, ["c2\t20\tsecond", "c1\t10\tfirst"]);
}

#[test]
fn listing_fails_as_git_does() {
    let list = |replies: Vec<Reply>| store().list_file("a", 1, &replies, 0);
    assert_eq!(
        list(vec![output(128, "", " broken \n")]),
        Step::Failed(Failure::CommandFailed {
            operation: "git rev-parse".into(),
            code: Some(128),
            message: "broken".into(),
        })
    );
    assert_eq!(
        list(vec![output(0, "abc", ""), output(2, "", "")]),
        Step::Failed(Failure::CommandFailed {
            operation: "git log".into(),
            code: Some(2),
            message: "".into(),
        })
    );
    let garbled = Reply::Output(CommandOutput {
        code: Some(0),
        stdout: vec![0xff],
        stderr: vec![],
    });
    assert_eq!(
        list(vec![output(0, "abc", ""), garbled]),
        Step::Failed(Failure::NotUtf8 {
            context: "git log returned non-UTF-8 data".into(),
            cause: "invalid utf-8 sequence of 1 bytes from index 0".into(),
        })
    );
    let killed = Reply::Output(CommandOutput {
        code: None,
        stdout: vec![],
        stderr: vec![],
    });
    assert!(matches!(
        list(vec![killed]),
        Step::Failed(Failure::CommandFailed { code: None, .. })
    ));
    assert_eq!(
        list(vec![output(0, "abc", ""), output(0, "c1\tsoon\tx", "")]),
        Step::Failed(Failure::InvalidTimestamp("invalid digit found in string".into()))
    );
}

#[test]
fn a_file_whose_path_is_no_text_is_listed_and_not_shown() {
    let odd = path_of_bytes(&b"src/\xff".to_vec());
    let listed = arguments(store().list_file(&odd, 1, &vec![output(0, "abc\n", "")], 0));
    assert_eq!(listed.last(), Some(&odd));
    assert_eq!(
        store().show_file(&odd, "abcdef1", &vec![], 0),
        Step::Failed(Failure::NotText(
            "non-UTF-8 paths are not supported by the Watchman integration".into()
        ))
    );
}

#[test]
fn showing_asks_for_a_file_in_a_snapshot() {
    let show = |replies: Vec<Reply>| store().show_file("src/a.rs", "abcdef1", &replies, 0);
    assert_eq!(
        arguments(show(vec![])),
        ["cat-file", "-e", "abcdef1:src/a.rs"]
    );
    assert_eq!(show(vec![output(128, "", "")]), Step::Finished(None, 1));
    assert_eq!(
        arguments(show(vec![output(0, "", "")])),
        ["show", "abcdef1:src/a.rs"]
    );
    assert_eq!(
        show(vec![output(0, "", ""), output(0, "text\n", "")]),
        Step::Finished(Some(b"text\n".to_vec()), 2)
    );
    assert!(matches!(
        show(vec![output(0, "", ""), output(1, "", "gone")]),
        Step::Failed(Failure::CommandFailed { .. })
    ));
}

#[test]
fn unsafe_requests_reach_no_program() {
    let none = Vec::new();
    assert_eq!(
        store().list_file("../a", 1, &none, 0),
        Step::Failed(Failure::UnsafePath("../a".into()))
    );
    assert_eq!(
        store().show_file("/a", "abcdef1", &none, 0),
        Step::Failed(Failure::NotRelative)
    );
    for revision in ["abcdef", "", "HEAD~1x", "abcdefg", "-abcdef1"] {
        assert_eq!(
            store().show_file("a", revision, &none, 0),
            Step::Failed(Failure::InvalidRevision),
            "{revision}"
        );
    }
}
