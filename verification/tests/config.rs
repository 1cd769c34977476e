use yesterfile::config::{
    validate, validate_directory_names, Config, IgnoreDirectoryOverrides, ProjectSettings,
    Repository, RepositoryOptions, RuntimeConfig, CONFIG_SCHEMA_URL,
};
use yesterfile::paths::PathStyle;
use yesterfile::platform::{AppPaths, Environment};
use yesterfile::procedure::{Action, Failure, Reply, Step};

fn environment() -> Environment {
    Environment {
        style: PathStyle::Posix,
        home: Some("/home/me".into()),
        paths: AppPaths {
            config_file: "/home/me/.config/yesterfile/config.json".into(),
            data_dir: "/home/me/.local/share/yesterfile".into(),
            state_dir: "/home/me/.local/state/yesterfile".into(),
        },
    }
}

fn options(path: &str) -> RepositoryOptions {
    RepositoryOptions {
        path: path.into(),
        ignore_directories: IgnoreDirectoryOverrides::default(),
        max_file_size_mb: None,
    }
}

fn detailed(path: &str) -> Repository {
    Repository::Detailed(options(path))
}

fn loaded(values: Config) -> RuntimeConfig {
    RuntimeConfig::from_values(values, "/config.json", &environment()).unwrap()
}

#[test]
fn empty_discovery_roots_preserve_explicit_repositories() {
    let config = Config {
        repositories: vec![Repository::Path("~/src/example".into())],
        ..Config::default()
    };
    assert!(config.discovery_roots.is_empty());
    assert_eq!(config.repositories[0].path(), "~/src/example");
}

#[test]
fn rejects_directory_paths_in_component_ignore_list() {
    let mut config = Config::default();
    config.ignore_directories.push("foo/bar".into());
    assert!(validate(&config).is_err());
}

#[test]
fn detailed_repository_settings_are_applied_as_deltas() {
    let root = "/tmp/root";
    let missing = vec![Reply::Flags(vec![false])];
    let step = RuntimeConfig::load(&environment(), Some("/tmp/root/missing.json"), &missing, 0);
    let Step::Finished(mut config, 1) = step else {
        panic!("expected a configuration: {step:?}");
    };
    config.values.repositories = vec![Repository::Detailed(RepositoryOptions {
        path: root.into(),
        ignore_directories: IgnoreDirectoryOverrides {
            add: vec!["generated".into()],
            remove: vec!["build".into()],
        },
        max_file_size_mb: Some(25),
    })];

    let found = vec![Reply::Paths(vec![Some(root.into())])];
    let step = config.project_settings(root, &found, 0);
    let Step::Finished(settings, 1) = step else {
        panic!("expected settings: {step:?}");
    };
    assert!(settings.ignore_directories.contains(&"generated".into()));
    assert!(!settings.ignore_directories.contains(&"build".into()));
    assert_eq!(settings.max_file_size_mb, 25);
}

#[test]
fn the_defaults_are_the_documented_ones() {
    let config = Config::default();
    assert_eq!(config.schema, CONFIG_SCHEMA_URL);
    assert_eq!(
        config.schema,
        "https://raw.githubusercontent.com/AkisArou/yesterfile/main/yesterfile.schema.json"
    );
    assert_eq!(
        config.ignore_directories,
        [
            ".git",
            ".hg",
            ".svn",
            "node_modules",
            ".direnv",
            ".cache",
            "dist",
            "build",
            "target",
            "coverage",
            ".next",
            ".turbo",
            ".gradle",
            "__pycache__",
        ]
    );
    assert!(config.repositories.is_empty());
    assert!(config.exclude_repositories.is_empty());
    assert_eq!(config.store_dir, None);
    assert_eq!(config.max_file_size_mb, 10);
    assert_eq!(config.discovery_max_depth, 4);
    assert_eq!(config.discovery_interval_seconds, 60);
    assert!(validate(&config).is_ok());
}

#[test]
fn a_limit_in_megabytes_is_a_limit_in_bytes() {
    let settings = |max_file_size_mb| ProjectSettings {
        ignore_directories: Vec::new(),
        max_file_size_mb,
    };
    assert_eq!(settings(10).max_file_size_bytes(), 10_485_760);
    assert_eq!(settings(0).max_file_size_bytes(), 0);
    assert_eq!(settings(u64::MAX).max_file_size_bytes(), u64::MAX);
    assert_eq!(settings(17_592_186_044_415).max_file_size_bytes(), 18_446_744_073_708_503_040);
    assert_eq!(settings(17_592_186_044_416).max_file_size_bytes(), u64::MAX);
}

#[test]
fn the_daemon_needs_an_interval_and_a_depth() {
    let config = Config {
        discovery_interval_seconds: 0,
        discovery_max_depth: 0,
        ..Config::default()
    };
    assert_eq!(validate(&config), Err(Failure::ZeroInterval));
    let config = Config {
        discovery_max_depth: 0,
        ..Config::default()
    };
    assert_eq!(validate(&config), Err(Failure::ZeroDepth));
}

#[test]
fn ignored_directories_are_given_by_name() {
    for bad in ["", ".", "..", "a/b", "a\\b", "/", "\\"] {
        let names = vec!["fine".to_owned(), bad.to_owned(), "".to_owned()];
        assert_eq!(
            validate_directory_names(&names),
            Err(Failure::NotABasename(bad.to_owned()))
        );
    }
    for good in ["...", ".a", "a b", "\u{e4}"] {
        assert_eq!(validate_directory_names(&vec![good.to_owned()]), Ok(()));
    }
    assert_eq!(validate_directory_names(&Vec::new()), Ok(()));
}

#[test]
fn repositories_are_validated_in_order() {
    let mut bad_add = options("/a");
    bad_add.ignore_directories.add.push("x/y".into());
    let mut bad_remove = options("/b");
    bad_remove.ignore_directories.remove.push("..".into());
    let mut no_limit = options("/c");
    no_limit.max_file_size_mb = Some(0);
    let mut config = Config {
        repositories: vec![
            Repository::Path("x/y".into()),
            Repository::Detailed(no_limit),
            Repository::Detailed(bad_remove),
            Repository::Detailed(bad_add),
        ],
        ..Config::default()
    };
    assert_eq!(validate(&config), Err(Failure::ZeroRepositorySize));
    config.repositories.remove(1);
    assert_eq!(validate(&config), Err(Failure::NotABasename("..".into())));
    config.repositories.remove(1);
    assert_eq!(validate(&config), Err(Failure::NotABasename("x/y".into())));
    config.repositories.remove(1);
    assert_eq!(validate(&config), Ok(()));
}

#[test]
fn names_are_added_once_and_then_removed() {
    let settings = ProjectSettings {
        ignore_directories: vec!["a".into(), "b".into(), "a".into()],
        max_file_size_mb: 7,
    };
    let mut own = options("/r");
    own.ignore_directories.add = vec!["b".into(), "c".into(), "c".into(), "d".into()];
    own.ignore_directories.remove = vec!["d".into(), "b".into()];
    let changed = settings.override_with(&own);
    assert_eq!(changed.ignore_directories, ["a", "a", "c"]);
    assert_eq!(changed.max_file_size_mb, 7);
}

#[test]
fn only_the_repository_at_the_root_changes_the_settings() {
    let mut first = options("~/one");
    first.max_file_size_mb = Some(1);
    let mut second = options("/two");
    second.max_file_size_mb = Some(2);
    let mut third = options("/missing");
    third.max_file_size_mb = Some(3);
    let config = loaded(Config {
        repositories: vec![
            Repository::Detailed(first),
            Repository::Path("/plain".into()),
            Repository::Detailed(second),
            Repository::Detailed(third),
        ],
        ..Config::default()
    });
    let none = Vec::new();
    assert_eq!(
        config.project_settings("/two", &none, 0),
        Step::Perform(Action::Canonicalize(vec![
            "/home/me/one".into(),
            "/two".into(),
            "/missing".into(),
        ]))
    );
    let found = vec![Reply::Paths(vec![Some("/one".into()), Some("/two/".into()), None])];
    let Step::Finished(settings, 1) = config.project_settings("/two", &found, 0) else {
        panic!("expected settings");
    };
    assert_eq!(settings.max_file_size_mb, 2);
    let Step::Finished(settings, 1) = config.project_settings("/other", &found, 0) else {
        panic!("expected settings");
    };
    assert_eq!(settings.max_file_size_mb, 10);
    let short = vec![Reply::Paths(vec![None])];
    assert_eq!(
        config.project_settings("/two", &short, 0),
        Step::Failed(Failure::UnexpectedReply)
    );
}

#[test]
fn a_home_that_is_unknown_is_missed_where_it_is_needed() {
    let mut config = loaded(Config {
        repositories: vec![detailed("~/one")],
        ..Config::default()
    });
    config.home = None;
    assert_eq!(
        config.project_settings("/one", &Vec::new(), 0),
        Step::Failed(Failure::HomeUnknown)
    );
    let mut bare = environment();
    bare.home = None;
    let values = Config {
        store_dir: Some("~".into()),
        ..Config::default()
    };
    assert_eq!(
        RuntimeConfig::from_values(values, "/c", &bare),
        Err(Failure::HomeUnknown)
    );
}

#[test]
fn the_store_is_where_the_user_or_the_platform_says() {
    let place = |store_dir: Option<&str>| {
        let values = Config {
            store_dir: store_dir.map(str::to_owned),
            ..Config::default()
        };
        RuntimeConfig::from_values(values, "/c.json", &environment())
    };
    assert_eq!(place(None).unwrap().store_dir, "/home/me/.local/share/yesterfile");
    assert_eq!(place(Some("~/data")).unwrap().store_dir, "/home/me/data");
    assert_eq!(place(Some("/data")).unwrap().store_dir, "/data");
    assert_eq!(
        place(Some("data")),
        Err(Failure::RelativeStore("data".into()))
    );
    let config = place(None).unwrap();
    assert_eq!(config.config_path, "/c.json");
    assert_eq!(config.state_dir, "/home/me/.local/state/yesterfile");
}

#[test]
fn the_configuration_lies_where_the_user_or_the_platform_says() {
    let first = |chosen| RuntimeConfig::load(&environment(), chosen, &Vec::new(), 0);
    assert_eq!(
        first(None),
        Step::Perform(Action::Exists("/home/me/.config/yesterfile/config.json".into()))
    );
    assert_eq!(first(Some("/c.json")), Step::Perform(Action::Exists("/c.json".into())));
    assert_eq!(first(Some("c.json")), Step::Perform(Action::CurrentDirectory));
    let here = vec![Reply::Paths(vec![Some("/work".into())])];
    assert_eq!(
        RuntimeConfig::load(&environment(), Some("c.json"), &here, 0),
        Step::Perform(Action::Exists("/work/c.json".into()))
    );
    let lost = vec![Reply::Failed("gone".into())];
    assert_eq!(
        RuntimeConfig::load(&environment(), Some("c.json"), &lost, 0),
        Step::Failed(Failure::Unavailable {
            context: "failed to resolve relative config path".into(),
            cause: "gone".into(),
        })
    );
}

#[test]
fn a_configuration_is_read_and_checked() {
    let load = |reply: Reply| {
        let replies = vec![Reply::Flags(vec![true]), reply];
        RuntimeConfig::load(&environment(), Some("/c.json"), &replies, 0)
    };
    let values = Config {
        max_file_size_mb: 3,
        discovery_roots: vec!["~/Projects".into()],
        repositories: vec![detailed("/a"), Repository::Path("/b".into())],
        ..Config::default()
    };
    let Step::Finished(config, 2) = load(Reply::Config(values.clone())) else {
        panic!("expected a configuration");
    };
    assert_eq!(config.values, values);
    let bad = Config {
        discovery_max_depth: 0,
        ..Config::default()
    };
    assert_eq!(load(Reply::Config(bad)), Step::Failed(Failure::ZeroDepth));
    assert_eq!(
        load(Reply::Malformed("line 1".into())),
        Step::Failed(Failure::Malformed("line 1".into()))
    );
    assert_eq!(
        load(Reply::Failed("denied".into())),
        Step::Failed(Failure::Unavailable {
            context: "failed to read /c.json".into(),
            cause: "denied".into(),
        })
    );
    assert_eq!(load(Reply::Done), Step::Failed(Failure::UnexpectedReply));
}

#[test]
fn a_default_configuration_replaces_another_only_with_force() {
    let write = |force: bool, replies: Vec<Reply>| {
        RuntimeConfig::write_default(&environment(), Some("/etc/y/c.json"), force, &replies, 0)
    };
    assert_eq!(
        write(false, vec![Reply::Flags(vec![true])]),
        Step::Failed(Failure::ConfigExists("/etc/y/c.json".into()))
    );
    for (force, there) in [(true, true), (true, false), (false, false)] {
        assert_eq!(
            write(force, vec![Reply::Flags(vec![there])]),
            Step::Perform(Action::CreateDirectory("/etc/y".into()))
        );
    }
    assert_eq!(
        write(true, vec![Reply::Flags(vec![true]), Reply::Done]),
        Step::Perform(Action::WriteConfig("/etc/y/c.json".into(), Config::default()))
    );
    assert_eq!(
        write(true, vec![Reply::Flags(vec![true]), Reply::Done, Reply::Done]),
        Step::Finished("/etc/y/c.json".into(), 3)
    );
    let read = vec![Reply::Flags(vec![true]), Reply::Config(Config::default())];
    let Step::Finished(loaded, 2) =
        RuntimeConfig::load(&environment(), Some("/etc/y/c.json"), &read, 0)
    else {
        panic!("expected a configuration");
    };
    assert_eq!(loaded.values, Config::default());
    assert_eq!(loaded.config_path, "/etc/y/c.json");
}
