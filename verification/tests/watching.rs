use yesterfile::config::{Config, ProjectSettings, RuntimeConfig};
use yesterfile::paths::PathStyle;
use yesterfile::platform::{AppPaths, Environment};
use yesterfile::procedure::{Action, Attempt, CommandOutput, Failure, Reply, Step};
use yesterfile::reconcile::{
    align, capture_trigger, changed_names, reconcile, stale_registrations, verify_dependencies,
    TriggerEvent,
};
use yesterfile::registering::{ensure_project, short_hash, sweep_triggers};
use yesterfile::watchman::{
    list_triggers, registry_path, trigger_definition, trigger_fingerprint, watch_expression,
    watch_project, watchman_request, Registration, WatchmanFile,
};
use yesterfile::json::Json;

const ROOT: &str = "/work/demo";
const ID: &str = "111b1182b4b056ca80f73359";

fn config(values: Config) -> RuntimeConfig {
    let environment = Environment {
        style: PathStyle::Posix,
        home: None,
        paths: AppPaths {
            config_file: "/c.json".into(),
            data_dir: "/data".into(),
            state_dir: "/state".into(),
        },
    };
    RuntimeConfig::from_values(values, "/config.json", &environment).unwrap()
}

fn strings(list: &[&str]) -> Vec<String> {
    list.iter().map(|item| item.to_string()).collect()
}

fn output(code: i32, stdout: &str) -> Reply {
    Reply::Output(CommandOutput {
        code: Some(code),
        stdout: stdout.as_bytes().to_vec(),
        stderr: b"oops\n".to_vec(),
    })
}

fn request<T: std::fmt::Debug>(step: Step<T>) -> String {
    let Step::Perform(Action::Run(command)) = step else {
        panic!("expected a request: {step:?}");
    };
    assert_eq!(command.program, "watchman");
    assert_eq!(command.arguments, ["-j"]);
    assert!(command.environment.is_empty());
    String::from_utf8(command.input.unwrap()).unwrap()
}

fn settings(ignore_directories: &[&str], max_file_size_mb: u64) -> ProjectSettings {
    ProjectSettings {
        ignore_directories: strings(ignore_directories),
        max_file_size_mb,
    }
}

fn written(json: &Json) -> String {
    request(watchman_request(json, &vec![], 0))
}

#[test]
fn expression_contains_root_and_nested_ignores() {
    let expression = watch_expression(&vec!["node_modules".into()]);
    let encoded = written(&expression);
    assert!(encoded.contains("node_modules/**"));
    assert!(encoded.contains("**/node_modules/**"));
}

#[test]
fn expressions_in_full() {
    assert_eq!(written(&watch_expression(&vec![])), "\"true\"\n");
    assert_eq!(
        written(&watch_expression(&strings(&["a", "b"]))),
        concat_lines(&[
            "[\"not\",[\"anyof\",",
            "[\"match\",\"a/**\",\"wholename\",{\"includedotfiles\":true,\"noescape\":true}],",
            "[\"match\",\"**/a/**\",\"wholename\",{\"includedotfiles\":true,\"noescape\":true}],",
            "[\"match\",\"b/**\",\"wholename\",{\"includedotfiles\":true,\"noescape\":true}],",
            "[\"match\",\"**/b/**\",\"wholename\",{\"includedotfiles\":true,\"noescape\":true}]",
            "]]\n",
        ])
    );
}

fn concat_lines(lines: &[&str]) -> String {
    lines.concat()
}

#[test]
fn trigger_fingerprints_change_with_ignore_configuration() {
    let first = ProjectSettings {
        ignore_directories: vec!["node_modules".into()],
        max_file_size_mb: 10,
    };
    let mut second = first.clone();
    second.ignore_directories.push("vendor".into());
    assert_ne!(
        trigger_fingerprint(&first).unwrap(),
        trigger_fingerprint(&second).unwrap()
    );
}

#[test]
fn fingerprints_are_the_start_of_a_digest() {
    let fingerprint = |list: &[&str], size| trigger_fingerprint(&settings(list, size)).unwrap();
    assert_eq!(fingerprint(&["node_modules"], 10), "b5115a7e");
    assert_eq!(fingerprint(&["node_modules", "vendor"], 10), "b6ba9d64");
    assert_eq!(fingerprint(&["node_modules"], 11), "5f4d59fc");
    assert_eq!(fingerprint(&[], 10), "d90f8d7a");
    assert_eq!(fingerprint(&["a", "b", "c"], u64::MAX).len(), 8);
}

#[test]
fn every_configuration_has_a_registry() {
    assert_eq!(
        registry_path(&config(Config::default())),
        "/state/registrations-b2ebf86a95e6.json"
    );
}

#[test]
fn requests_and_responses() {
    let ask = |replies: Vec<Reply>| watchman_request(&Json::Text("version".into()), &replies, 0);
    assert_eq!(request(ask(vec![])), "\"version\"\n");
    assert_eq!(
        ask(vec![output(0, "{\"version\":\"1\",\"n\":7,\"l\":[null,false,-1]}")]),
        Step::Finished(
            Json::Object(vec![
                (
                    "l".into(),
                    Json::Array(vec![Json::Null, Json::Bool(false), Json::OtherNumber])
                ),
                ("n".into(), Json::Number(7)),
                ("version".into(), Json::Text("1".into())),
            ]),
            1
        )
    );
    assert_eq!(
        ask(vec![output(0, "{\"error\":\"no such root\"}")]),
        Step::Failed(Failure::Watchman("no such root".into()))
    );
    assert!(matches!(ask(vec![output(0, "{\"error\":1}")]), Step::Finished(_, 1)));
    assert_eq!(
        ask(vec![output(0, "{")]),
        Step::Failed(Failure::InvalidJson(
            "EOF while parsing an object at line 1 column 1".into()
        ))
    );
    assert_eq!(
        ask(vec![output(1, "{}")]),
        Step::Failed(Failure::CommandFailed {
            operation: "Watchman request".into(),
            code: Some(1),
            message: "oops".into(),
        })
    );
    assert_eq!(
        ask(vec![Reply::Failed("not found".into())]),
        Step::Failed(Failure::Unavailable {
            context: "failed to start Watchman".into(),
            cause: "not found".into(),
        })
    );
}

#[test]
fn watched_roots_and_their_triggers() {
    assert_eq!(
        request(watch_project(ROOT, &vec![], 0)),
        "[\"watch-project\",\"/work/demo\"]\n"
    );
    assert_eq!(
        watch_project(ROOT, &vec![output(0, "{\"watch\":\"/work\",\"relative_path\":\"demo\"}")], 0),
        Step::Finished(("/work".into(), Some("demo".into())), 1)
    );
    assert_eq!(
        watch_project(ROOT, &vec![output(0, "{\"watch\":\"/work/demo\"}")], 0),
        Step::Finished((ROOT.into(), None), 1)
    );
    assert_eq!(
        watch_project(ROOT, &vec![output(0, "{\"watch\":5}")], 0),
        Step::Failed(Failure::NoWatchRoot)
    );
    assert_eq!(
        request(list_triggers("/work", &vec![], 0)),
        "[\"trigger-list\",\"/work\"]\n"
    );
    let list = "{\"triggers\":[{\"name\":\"a\"},{\"name\":1},{},{\"name\":\"b\"}]}";
    assert_eq!(
        list_triggers("/work", &vec![output(0, list)], 0),
        Step::Finished(strings(&["a", "b"]), 1)
    );
    assert_eq!(
        list_triggers("/work", &vec![output(0, "{\"triggers\":{}}")], 0),
        Step::Finished(vec![], 1)
    );
}

#[test]
fn a_trigger_runs_this_program() {
    let definition = |relative_root: Option<&str>| {
        written(&trigger_definition(
            "t",
            "/bin/y",
            "/config.json",
            ROOT,
            &vec![],
            &relative_root.map(str::to_owned),
        ))
    };
    assert_eq!(
        definition(None),
        concat_lines(&[
            "{\"command\":[\"/bin/y\",\"--config\",\"/config.json\",\"capture-trigger\",",
            "\"--project\",\"/work/demo\"],\"expression\":\"true\",\"max_files_stdin\":200000,",
            "\"name\":\"t\",\"stdin\":[\"name\",\"exists\",\"type\",\"size\"]}\n",
        ])
    );
    assert!(definition(Some("demo")).contains("\"relative_root\":\"demo\""));
}

#[test]
fn only_triggers_of_the_project_are_swept() {
    let names = strings(&["other", "p-1", "p-2", "p", "p-3"]);
    let sweep = |replies: Vec<Reply>| sweep_triggers("/work", "p-", "p-2", &names, &replies, 0);
    let ok = || output(0, "{}");
    assert_eq!(request(sweep(vec![])), "[\"trigger-del\",\"/work\",\"p-1\"]\n");
    assert_eq!(request(sweep(vec![ok()])), "[\"trigger-del\",\"/work\",\"p-3\"]\n");
    assert_eq!(sweep(vec![ok(), ok()]), Step::Finished(true, 2));
    assert_eq!(
        sweep(vec![ok(), output(0, "{\"error\":\"e\"}")]),
        Step::Failed(Failure::Watchman("e".into()))
    );
    assert_eq!(
        sweep_triggers("/work", "p-", "p-9", &strings(&["x"]), &vec![], 0),
        Step::Finished(false, 0)
    );
}

fn opened() -> Vec<Reply> {
    vec![
        Reply::Paths(vec![]),
        Reply::Paths(vec![Some(ROOT.into())]),
        Reply::Paths(vec![]),
        Reply::Done,
        Reply::Done,
        Reply::Flags(vec![true]),
        Reply::Flags(vec![true]),
        Reply::Paths(vec![Some(ROOT.into())]),
    ]
}

#[test]
fn a_project_with_its_trigger_needs_nothing() {
    let config = config(Config {
        ignore_directories: strings(&["node_modules"]),
        ..Config::default()
    });
    let mut replies = opened();
    replies.push(output(0, "abc"));
    replies.push(output(0, "{\"watch\":\"/work\"}"));
    let name = format!("yesterfile-{ID}-b5115a7e");
    replies.push(output(0, &format!("{{\"triggers\":[{{\"name\":\"{name}\"}}]}}")));
    assert_eq!(
        ensure_project(&config, ROOT, &replies, 0),
        Step::Finished(
            Registration {
                project: ROOT.into(),
                watch_root: "/work".into(),
                trigger_name: name,
            },
            11
        )
    );
}

#[test]
fn a_project_with_other_filters_is_captured_and_registered() {
    let config = config(Config {
        ignore_directories: strings(&["node_modules"]),
        ..Config::default()
    });
    let name = format!("yesterfile-{ID}-b5115a7e");
    let old = format!("yesterfile-{ID}-00000000");
    let mut replies = opened();
    replies.push(output(0, "abc"));
    replies.push(output(0, "{\"watch\":\"/work\",\"relative_path\":\"demo\"}"));
    replies.push(output(0, &format!("{{\"triggers\":[{{\"name\":\"{old}\"}}]}}")));
    let next = |replies: &Vec<Reply>| ensure_project(&config, ROOT, replies, 0);
    assert_eq!(
        request(next(&replies)),
        format!("[\"trigger-del\",\"/work\",\"{old}\"]\n")
    );
    replies.push(output(0, "{}"));
    assert_eq!(
        next(&replies),
        Step::Perform(Action::OpenLock(format!("/data/repos/{ID}/lock")))
    );
    replies.push(Reply::Done);
    assert_eq!(next(&replies), Step::Perform(Action::Lock));
    replies.push(Reply::Done);
    replies.push(output(0, ""));
    replies.push(output(0, ""));
    replies.push(Reply::Statuses(vec![]));
    replies.push(output(0, "tree"));
    replies.push(output(0, "abc"));
    replies.push(output(0, "tree"));
    assert_eq!(next(&replies), Step::Perform(Action::Unlock));
    replies.push(Reply::Done);
    assert_eq!(next(&replies), Step::Perform(Action::CurrentExecutable));
    replies.push(Reply::Paths(vec![Some("/bin/y".into())]));
    let text = request(next(&replies));
    assert!(text.starts_with("[\"trigger\",\"/work\",{"));
    assert!(text.contains(&format!("\"name\":\"{name}\"")));
    assert!(text.contains("\"relative_root\":\"demo\""));
    replies.push(output(0, "{}"));
    assert_eq!(next(&replies), Step::Perform(Action::Tell("watching /work/demo".into())));
    replies.push(Reply::Done);
    let used = replies.len();
    let Step::Finished(registration, n) = next(&replies) else {
        panic!("expected a registration");
    };
    assert_eq!(n, used);
    assert_eq!(registration.trigger_name, name);
}

#[test]
fn a_new_project_is_captured_first() {
    let config = config(Config::default());
    let mut replies = opened();
    replies.push(output(1, ""));
    replies.push(Reply::Done);
    replies.push(Reply::Done);
    replies.push(output(0, ""));
    replies.push(output(0, ""));
    replies.push(Reply::Statuses(vec![]));
    replies.push(output(0, "tree"));
    replies.push(output(1, ""));
    replies.push(output(0, "0123456789abcdef"));
    replies.push(output(0, ""));
    replies.push(output(0, ""));
    replies.push(Reply::Done);
    assert_eq!(
        ensure_project(&config, ROOT, &replies, 0),
        Step::Perform(Action::Tell("initialized /work/demo at 0123456789ab".into()))
    );
}

#[test]
fn short_names_of_commits() {
    assert_eq!(short_hash("0123456789abcdef"), "0123456789ab");
    assert_eq!(short_hash("0123456789ab"), "0123456789ab");
    assert_eq!(short_hash("0123"), "0123");
    assert_eq!(short_hash("0123456789a\u{e4}bc"), "0123456789a\u{e4}bc");
}

#[test]
fn both_programs_are_needed() {
    assert_eq!(
        verify_dependencies(&vec![output(0, "git"), output(0, "{}")], 0),
        Step::Finished((), 2)
    );
    assert_eq!(
        verify_dependencies(&vec![output(3, "")], 0),
        Step::Failed(Failure::Required {
            command: "git".into(),
            code: Some(3),
        })
    );
    assert_eq!(
        verify_dependencies(&vec![output(0, ""), Reply::Failed("gone".into())], 0),
        Step::Failed(Failure::Unavailable {
            context: "watchman is required but could not be started".into(),
            cause: "gone".into(),
        })
    );
    let Step::Perform(Action::Run(command)) = verify_dependencies(&vec![output(0, "")], 0) else {
        panic!("expected a command");
    };
    assert_eq!((command.program.as_str(), command.arguments), ("watchman", strings(&["version"])));
}

fn registration(project: &str, name: &str) -> Registration {
    Registration {
        project: project.into(),
        watch_root: project.into(),
        trigger_name: name.into(),
    }
}

#[test]
fn registrations_of_other_projects_are_stale() {
    let previous = vec![registration("/a", "ta"), registration("/b/", "tb"), registration("/c", "tc")];
    let stale = stale_registrations(PathStyle::Posix, &previous, &strings(&["/b", "/d"]));
    assert_eq!(stale, [registration("/a", "ta"), registration("/c", "tc")]);
}

#[test]
fn triggers_follow_the_configuration() {
    let config = config(Config::default());
    let registry = "/state/registrations-b2ebf86a95e6.json";
    let projects = strings(&["/b", "/d"]);
    let next = |replies: &Vec<Reply>| align(&config, &projects, replies, 0);
    let mut replies = vec![];
    assert_eq!(next(&replies), Step::Perform(Action::Exists(registry.into())));
    replies.push(Reply::Flags(vec![true]));
    assert_eq!(next(&replies), Step::Perform(Action::ReadRegistry(registry.into())));
    replies.push(Reply::Registry(vec![
        registration("/a", "ta"),
        registration("/b", "tb"),
        registration("/c", "tc"),
    ]));
    assert_eq!(request(next(&replies)), "[\"trigger-del\",\"/a\",\"ta\"]\n");
    replies.push(output(0, "{\"error\":\"gone\"}"));
    assert_eq!(
        next(&replies),
        Step::Perform(Action::Report(
            "failed to remove stale trigger ta".into(),
            Failure::Watchman("gone".into())
        ))
    );
    replies.push(Reply::Done);
    assert_eq!(request(next(&replies)), "[\"trigger-del\",\"/c\",\"tc\"]\n");
    replies.push(output(0, "{}"));
    assert_eq!(next(&replies), Step::Perform(Action::EnsureProject("/b".into())));
    replies.push(Reply::Registered(Attempt::Failure(Failure::NoWatchRoot)));
    assert_eq!(
        next(&replies),
        Step::Perform(Action::Report("failed to register /b".into(), Failure::NoWatchRoot))
    );
    replies.push(Reply::Done);
    assert_eq!(next(&replies), Step::Perform(Action::EnsureProject("/d".into())));
    replies.push(Reply::Registered(Attempt::Success(registration("/d", "td"))));
    assert_eq!(
        next(&replies),
        Step::Perform(Action::WriteRegistry(
            format!("{registry}.tmp"),
            vec![registration("/d", "td")]
        ))
    );
    let failed = |context: String| {
        Step::Failed(Failure::Unavailable {
            context,
            cause: "full".into(),
        })
    };
    replies.push(Reply::Failed("full".into()));
    assert_eq!(next(&replies), failed(format!("failed to write {registry}.tmp")));
    replies.pop();
    replies.push(Reply::Done);
    assert_eq!(
        next(&replies),
        Step::Perform(Action::Replace(format!("{registry}.tmp"), registry.into()))
    );
    replies.push(Reply::Failed("full".into()));
    assert_eq!(next(&replies), failed(format!("failed to replace {registry}")));
    replies.pop();
    replies.push(Reply::Done);
    assert_eq!(next(&replies), Step::Finished((), 10));
}

#[test]
fn reconciling_prepares_and_counts() {
    let config = config(Config::default());
    let mut replies = vec![output(0, ""), output(0, "")];
    for path in ["/state", "/data/repos"] {
        assert_eq!(
            reconcile(&config, &replies, 0),
            Step::Perform(Action::CreateDirectory(path.into()))
        );
        replies.push(Reply::Done);
        assert_eq!(
            reconcile(&config, &replies, 0),
            Step::Perform(Action::SecureDirectory(path.into()))
        );
        replies.push(Reply::Done);
    }
    replies.push(Reply::Flags(vec![false]));
    assert!(matches!(
        reconcile(&config, &replies, 0),
        Step::Perform(Action::WriteRegistry(_, _))
    ));
    replies.push(Reply::Done);
    replies.push(Reply::Done);
    assert_eq!(reconcile(&config, &replies, 0), Step::Finished(0, 9));
    replies[6] = Reply::Flags(vec![true]);
    replies[7] = Reply::Malformed("bad".into());
    assert_eq!(
        reconcile(&config, &replies, 0),
        Step::Failed(Failure::Malformed("bad".into()))
    );
}

fn file(name: &str, exists: bool, kind: Option<&str>) -> WatchmanFile {
    WatchmanFile {
        name: name.into(),
        exists,
        kind: kind.map(str::to_owned),
    }
}

#[test]
fn reported_directories_do_not_count() {
    let files = vec![
        file("a", true, Some("f")),
        file("b", true, Some("l")),
        file("c", true, Some("p")),
        file("d", true, Some("d")),
        file("e", false, Some("d")),
        file("f", true, None),
        file("g", true, Some("?")),
    ];
    assert_eq!(changed_names(&files), ["a", "b", "c", "e", "f"]);
}

fn event(overflow: Option<&str>, since: bool, clock: Option<&str>) -> TriggerEvent {
    TriggerEvent {
        overflow: overflow.map(str::to_owned),
        since,
        clock: clock.map(str::to_owned),
    }
}

#[test]
fn what_watchman_says_of_a_report() {
    assert!(event(Some("true"), true, None).is_incomplete());
    assert!(event(Some("TrUe"), true, None).is_incomplete());
    assert!(event(None, false, None).is_incomplete());
    assert!(!event(Some("false"), true, None).is_incomplete());
    assert!(!event(Some("true "), true, None).is_incomplete());
    assert!(!event(None, true, None).is_incomplete());
    assert_eq!(event(None, true, Some("c:1:2")).source(), "watchman:c:1:2");
    assert_eq!(event(None, true, None).source(), "watchman:unknown");
}

#[test]
fn a_trigger_captures_what_is_reported_or_everything() {
    let config = config(Config::default());
    let opened = || opened().split_off(1);
    let next = |event: &TriggerEvent, replies: &Vec<Reply>| {
        capture_trigger(&config, ROOT, event, replies, 0)
    };
    let lock = || Step::Perform(Action::OpenLock(format!("/data/repos/{ID}/lock")));
    assert_eq!(next(&event(None, false, None), &opened()), lock());
    assert_eq!(next(&event(Some("true"), true, None), &opened()), lock());
    let complete = event(None, true, None);
    assert!(matches!(next(&complete, &opened()), Step::Perform(Action::Run(_))));
    let mut replies = opened();
    replies.push(output(1, ""));
    assert_eq!(next(&complete, &replies), lock());
    let mut replies = opened();
    replies.push(output(0, "abc"));
    assert_eq!(next(&complete, &replies), Step::Perform(Action::ReadChangedFiles));
    replies.push(Reply::Files(vec![file("a", true, Some("f")), file("d", true, Some("d"))]));
    assert_eq!(next(&complete, &replies), lock());
    replies.push(Reply::Done);
    replies.push(Reply::Done);
    replies.push(Reply::Flags(vec![true]));
    let Step::Perform(Action::Run(command)) = next(&complete, &replies) else {
        panic!("expected a command");
    };
    assert_eq!(command.arguments[2], "check-ignore");
    assert_eq!(command.input.as_deref(), Some(b"a\0".as_slice()));
}
