//! The configuration: its defaults, what makes it valid, and what a single
//! repository makes of it.

use crate::paths::{
    absolute, components, is_absolute, join, joined, parent, parent_of, same_path, PathStyle,
};
use crate::platform::{expand_path_from, expanded, Environment, EnvironmentView};
use crate::procedure::{
    done, done_step, flag, flag_step, path, path_step, paths, paths_step, reply_step, reply_to,
    Action, ActionView, Failure, FailureView, Reply, ReplyView, Step, StepView,
};
use crate::text::{chars_of, contains_text, copy_texts, join2, same_text};
use vstd::prelude::*;

verus! {

pub const CONFIG_SCHEMA_URL: &'static str =
    "https://raw.githubusercontent.com/AkisArou/yesterfile/main/yesterfile.schema.json";

/// What the user has configured.
#[derive(Debug, Clone, PartialEq, Eq)]
pub struct Config {
    /// JSON Schema used by editors for validation and hover documentation.
    pub schema: String,
    /// Parent directories recursively searched for Git repositories.
    pub discovery_roots: Vec<String>,
    /// Explicit repositories. These are always included, even when discovery roots are present.
    pub repositories: Vec<Repository>,
    /// Repository paths or glob patterns that must not be watched.
    pub exclude_repositories: Vec<String>,
    /// Directory basenames omitted from Watchman events and snapshots.
    pub ignore_directories: Vec<String>,
    /// Optional data location. The platform data directory is used when absent.
    pub store_dir: Option<String>,
    pub max_file_size_mb: u64,
    pub discovery_max_depth: usize,
    pub discovery_interval_seconds: u64,
}

/// A repository that the user has named.
#[derive(Debug, Clone, PartialEq, Eq)]
pub enum Repository {
    Path(String),
    Detailed(RepositoryOptions),
}

/// A repository with settings of its own.
#[derive(Debug, Clone, PartialEq, Eq)]
pub struct RepositoryOptions {
    pub path: String,
    pub ignore_directories: IgnoreDirectoryOverrides,
    pub max_file_size_mb: Option<u64>,
}

/// What a repository adds to the ignored directories and takes from them.
#[derive(Debug, Clone, PartialEq, Eq)]
pub struct IgnoreDirectoryOverrides {
    pub add: Vec<String>,
    pub remove: Vec<String>,
}

/// The settings that hold for one worktree.
#[derive(Debug, Clone, PartialEq, Eq)]
pub struct ProjectSettings {
    pub ignore_directories: Vec<String>,
    pub max_file_size_mb: u64,
}

/// What a [`Config`] says.
pub struct ConfigView {
    pub schema: Seq<char>,
    pub discovery_roots: Seq<Seq<char>>,
    pub repositories: Seq<RepositoryView>,
    pub exclude_repositories: Seq<Seq<char>>,
    pub ignore_directories: Seq<Seq<char>>,
    pub store_dir: Option<Seq<char>>,
    pub max_file_size_mb: u64,
    pub discovery_max_depth: usize,
    pub discovery_interval_seconds: u64,
}

/// What a [`Repository`] says.
pub enum RepositoryView {
    Path(Seq<char>),
    Detailed(OptionsView),
}

/// What [`RepositoryOptions`] say.
pub struct OptionsView {
    pub path: Seq<char>,
    pub add: Seq<Seq<char>>,
    pub remove: Seq<Seq<char>>,
    pub max_file_size_mb: Option<u64>,
}

/// What [`ProjectSettings`] say.
pub struct SettingsView {
    pub ignore_directories: Seq<Seq<char>>,
    pub max_file_size_mb: u64,
}

impl DeepView for RepositoryOptions {
    type V = OptionsView;

    open spec fn deep_view(&self) -> OptionsView {
        OptionsView {
            path: self.path@,
            add: self.ignore_directories.add.deep_view(),
            remove: self.ignore_directories.remove.deep_view(),
            max_file_size_mb: self.max_file_size_mb,
        }
    }
}

impl DeepView for Repository {
    type V = RepositoryView;

    open spec fn deep_view(&self) -> RepositoryView {
        match self {
            Repository::Path(path) => RepositoryView::Path(path@),
            Repository::Detailed(options) => RepositoryView::Detailed(options.deep_view()),
        }
    }
}

impl DeepView for Config {
    type V = ConfigView;

    open spec fn deep_view(&self) -> ConfigView {
        ConfigView {
            schema: self.schema@,
            discovery_roots: self.discovery_roots.deep_view(),
            repositories: self.repositories.deep_view(),
            exclude_repositories: self.exclude_repositories.deep_view(),
            ignore_directories: self.ignore_directories.deep_view(),
            store_dir: self.store_dir.deep_view(),
            max_file_size_mb: self.max_file_size_mb,
            discovery_max_depth: self.discovery_max_depth,
            discovery_interval_seconds: self.discovery_interval_seconds,
        }
    }
}

impl DeepView for ProjectSettings {
    type V = SettingsView;

    open spec fn deep_view(&self) -> SettingsView {
        SettingsView {
            ignore_directories: self.ignore_directories.deep_view(),
            max_file_size_mb: self.max_file_size_mb,
        }
    }
}

impl RepositoryView {
    /// Where the repository is, as the user wrote it.
    pub open spec fn path(self) -> Seq<char> {
        match self {
            RepositoryView::Path(path) => path,
            RepositoryView::Detailed(options) => options.path,
        }
    }
}

impl Repository {
    /// Where the repository is, as the user wrote it.
    pub fn path(&self) -> (path: &str)
        ensures
            path@ == self.deep_view().path(),
    {
        match self {
            Repository::Path(path) => path.as_str(),
            Repository::Detailed(options) => options.path.as_str(),
        }
    }
}

pub fn default_schema_url() -> (url: String)
    ensures
        url@ == CONFIG_SCHEMA_URL@,
{
    CONFIG_SCHEMA_URL.to_owned()
}

/// The directories that hold dependencies, build output, caches and the data
/// of version control.
pub open spec fn default_ignored() -> Seq<Seq<char>> {
    seq![
        ".git"@,
        ".hg"@,
        ".svn"@,
        "node_modules"@,
        ".direnv"@,
        ".cache"@,
        "dist"@,
        "build"@,
        "target"@,
        "coverage"@,
        ".next"@,
        ".turbo"@,
        ".gradle"@,
        "__pycache__"@,
    ]
}

pub fn default_ignore_directories() -> (names: Vec<String>)
    ensures
        names.deep_view() == default_ignored(),
{
    let names: Vec<String> = vec![
        ".git".to_owned(),
        ".hg".to_owned(),
        ".svn".to_owned(),
        "node_modules".to_owned(),
        ".direnv".to_owned(),
        ".cache".to_owned(),
        "dist".to_owned(),
        "build".to_owned(),
        "target".to_owned(),
        "coverage".to_owned(),
        ".next".to_owned(),
        ".turbo".to_owned(),
        ".gradle".to_owned(),
        "__pycache__".to_owned(),
    ];
    assert(names.deep_view() =~= default_ignored());
    names
}

pub fn default_max_file_size_mb() -> (size: u64)
    ensures
        size == 10,
{
    10
}

pub fn default_discovery_max_depth() -> (depth: usize)
    ensures
        depth == 4,
{
    4
}

pub fn default_discovery_interval_seconds() -> (seconds: u64)
    ensures
        seconds == 60,
{
    60
}

/// The configuration of a user who has configured nothing.
pub open spec fn default_config() -> ConfigView {
    ConfigView {
        schema: CONFIG_SCHEMA_URL@,
        discovery_roots: Seq::empty(),
        repositories: Seq::empty(),
        exclude_repositories: Seq::empty(),
        ignore_directories: default_ignored(),
        store_dir: None,
        max_file_size_mb: 10,
        discovery_max_depth: 4,
        discovery_interval_seconds: 60,
    }
}

impl Default for Config {
    fn default() -> (config: Self)
        ensures
            config.deep_view() == default_config(),
    {
        let config = Config {
            schema: default_schema_url(),
            discovery_roots: Vec::new(),
            repositories: Vec::new(),
            exclude_repositories: Vec::new(),
            ignore_directories: default_ignore_directories(),
            store_dir: None,
            max_file_size_mb: default_max_file_size_mb(),
            discovery_max_depth: default_discovery_max_depth(),
            discovery_interval_seconds: default_discovery_interval_seconds(),
        };
        assert(config.discovery_roots.deep_view() =~= Seq::empty());
        assert(config.repositories.deep_view() =~= Seq::empty());
        assert(config.exclude_repositories.deep_view() =~= Seq::empty());
        config
    }
}

impl Default for IgnoreDirectoryOverrides {
    fn default() -> (overrides: Self)
        ensures
            overrides.add@.len() == 0,
            overrides.remove@.len() == 0,
    {
        IgnoreDirectoryOverrides { add: Vec::new(), remove: Vec::new() }
    }
}

impl SettingsView {
    /// The largest file that is kept, in bytes.
    pub open spec fn max_bytes(self) -> nat {
        let bytes = self.max_file_size_mb as nat * 1048576;
        if bytes <= u64::MAX {
            bytes
        } else {
            u64::MAX as nat
        }
    }
}

impl ProjectSettings {
    /// The largest file that is kept, in bytes; the largest number there is
    /// where that many bytes cannot be counted.
    pub fn max_file_size_bytes(&self) -> (bytes: u64)
        ensures
            bytes == self.deep_view().max_bytes(),
    {
        if self.max_file_size_mb <= 17592186044415 {
            self.max_file_size_mb * 1048576
        } else {
            u64::MAX
        }
    }
}

/// Whether a text can be the name of a directory, and nothing but its name.
pub open spec fn is_basename(name: Seq<char>) -> bool {
    &&& name.len() > 0
    &&& name != "."@
    &&& name != ".."@
    &&& !name.contains('/')
    &&& !name.contains('\\')
}

/// What is wrong with the first name that is no basename.
pub open spec fn names_problem(names: Seq<Seq<char>>) -> Option<FailureView>
    decreases names.len(),
{
    if names.len() == 0 {
        None
    } else {
        match names_problem(names.drop_last()) {
            Some(f) => Some(f),
            None => if is_basename(names.last()) {
                None
            } else {
                Some(FailureView::NotABasename(names.last()))
            },
        }
    }
}

/// What is wrong with a repository.
pub open spec fn repository_problem(repository: RepositoryView) -> Option<FailureView> {
    match repository {
        RepositoryView::Path(_) => None,
        RepositoryView::Detailed(options) => match names_problem(options.add) {
            Some(f) => Some(f),
            None => match names_problem(options.remove) {
                Some(f) => Some(f),
                None => if options.max_file_size_mb == Some(0u64) {
                    Some(FailureView::ZeroRepositorySize)
                } else {
                    None
                },
            },
        },
    }
}

/// What is wrong with the first repository with which something is.
pub open spec fn repositories_problem(repositories: Seq<RepositoryView>) -> Option<FailureView>
    decreases repositories.len(),
{
    if repositories.len() == 0 {
        None
    } else {
        match repositories_problem(repositories.drop_last()) {
            Some(f) => Some(f),
            None => repository_problem(repositories.last()),
        }
    }
}

/// What is wrong with a configuration, if anything is.
pub open spec fn config_problem(config: ConfigView) -> Option<FailureView> {
    if config.discovery_interval_seconds == 0 {
        Some(FailureView::ZeroInterval)
    } else if config.discovery_max_depth == 0 {
        Some(FailureView::ZeroDepth)
    } else {
        match names_problem(config.ignore_directories) {
            Some(f) => Some(f),
            None => repositories_problem(config.repositories),
        }
    }
}

fn basename(name: &str) -> (yes: bool)
    ensures
        yes == is_basename(name@),
{
    if name.is_empty() || same_text(name, ".") || same_text(name, "..") {
        return false;
    }
    let chars = chars_of(name);
    let mut i: usize = 0;
    while i < chars.len()
        invariant
            i <= chars@.len(),
            chars@ == name@,
            forall|j: int| 0 <= j < i ==> chars@[j] != '/' && chars@[j] != '\\',
        decreases chars@.len() - i,
    {
        if chars[i] == '/' || chars[i] == '\\' {
            assert(name@[i as int] == chars@[i as int]);
            return false;
        }
        i = i + 1;
    }
    true
}

proof fn names_problem_early(names: Seq<Seq<char>>, i: int)
    requires
        0 <= i <= names.len(),
        names_problem(names.take(i)) is Some,
    ensures
        names_problem(names) == names_problem(names.take(i)),
    decreases names.len() - i,
{
    if i < names.len() {
        assert(names.take(i + 1).drop_last() =~= names.take(i));
        names_problem_early(names, i + 1);
    } else {
        assert(names.take(i) =~= names);
    }
}

/// Checks that every name is a basename.
pub fn validate_directory_names(names: &Vec<String>) -> (r: Result<(), Failure>)
    ensures
        match names_problem(names.deep_view()) {
            None => r is Ok,
            Some(failure) => r matches Err(f) && f.deep_view() == failure,
        },
{
    let ghost all = names.deep_view();
    let mut i: usize = 0;
    while i < names.len()
        invariant
            i <= names@.len(),
            all == names.deep_view(),
            names_problem(all.take(i as int)) is None,
        decreases names@.len() - i,
    {
        assert(all.take(i + 1).drop_last() =~= all.take(i as int));
        if !basename(names[i].as_str()) {
            proof {
                names_problem_early(all, i + 1);
            }
            return Err(Failure::NotABasename(names[i].clone()));
        }
        i = i + 1;
    }
    assert(all.take(names@.len() as int) =~= all);
    Ok(())
}

fn validate_repository(repository: &Repository) -> (r: Result<(), Failure>)
    ensures
        match repository_problem(repository.deep_view()) {
            None => r is Ok,
            Some(failure) => r matches Err(f) && f.deep_view() == failure,
        },
{
    match repository {
        Repository::Path(_) => Ok(()),
        Repository::Detailed(options) => {
            if let Err(f) = validate_directory_names(&options.ignore_directories.add) {
                return Err(f);
            }
            if let Err(f) = validate_directory_names(&options.ignore_directories.remove) {
                return Err(f);
            }
            match options.max_file_size_mb {
                Some(0) => Err(Failure::ZeroRepositorySize),
                _ => Ok(()),
            }
        },
    }
}

proof fn repositories_problem_early(repositories: Seq<RepositoryView>, i: int)
    requires
        0 <= i <= repositories.len(),
        repositories_problem(repositories.take(i)) is Some,
    ensures
        repositories_problem(repositories) == repositories_problem(repositories.take(i)),
    decreases repositories.len() - i,
{
    if i < repositories.len() {
        assert(repositories.take(i + 1).drop_last() =~= repositories.take(i));
        repositories_problem_early(repositories, i + 1);
    } else {
        assert(repositories.take(i) =~= repositories);
    }
}

/// Checks a configuration.
pub fn validate(config: &Config) -> (r: Result<(), Failure>)
    ensures
        match config_problem(config.deep_view()) {
            None => r is Ok,
            Some(failure) => r matches Err(f) && f.deep_view() == failure,
        },
{
    if config.discovery_interval_seconds == 0 {
        return Err(Failure::ZeroInterval);
    }
    if config.discovery_max_depth == 0 {
        return Err(Failure::ZeroDepth);
    }
    if let Err(f) = validate_directory_names(&config.ignore_directories) {
        return Err(f);
    }
    let ghost all = config.repositories.deep_view();
    let mut i: usize = 0;
    while i < config.repositories.len()
        invariant
            i <= config.repositories@.len(),
            all == config.repositories.deep_view(),
            repositories_problem(all.take(i as int)) is None,
            config_problem(config.deep_view()) == repositories_problem(all),
        decreases config.repositories@.len() - i,
    {
        assert(all.take(i + 1).drop_last() =~= all.take(i as int));
        if let Err(f) = validate_repository(&config.repositories[i]) {
            proof {
                repositories_problem_early(all, i + 1);
            }
            return Err(f);
        }
        i = i + 1;
    }
    assert(all.take(all.len() as int) =~= all);
    Ok(())
}

/// `names`, and behind them those of `extra` that are not there yet.
pub open spec fn with_added(names: Seq<Seq<char>>, extra: Seq<Seq<char>>) -> Seq<Seq<char>>
    decreases extra.len(),
{
    if extra.len() == 0 {
        names
    } else {
        let before = with_added(names, extra.drop_last());
        if before.contains(extra.last()) {
            before
        } else {
            before.push(extra.last())
        }
    }
}

/// `names` without those that are in `gone`.
pub open spec fn without(names: Seq<Seq<char>>, gone: Seq<Seq<char>>) -> Seq<Seq<char>>
    decreases names.len(),
{
    if names.len() == 0 {
        Seq::empty()
    } else {
        let before = without(names.drop_last(), gone);
        if gone.contains(names.last()) {
            before
        } else {
            before.push(names.last())
        }
    }
}

/// Settings with what a repository says of its own.
pub open spec fn overridden(settings: SettingsView, options: OptionsView) -> SettingsView {
    SettingsView {
        ignore_directories: without(
            with_added(settings.ignore_directories, options.add),
            options.remove,
        ),
        max_file_size_mb: match options.max_file_size_mb {
            Some(size) => size,
            None => settings.max_file_size_mb,
        },
    }
}

fn add_names(names: &mut Vec<String>, extra: &Vec<String>)
    ensures
        final(names).deep_view() == with_added(old(names).deep_view(), extra.deep_view()),
{
    let ghost start = names.deep_view();
    let ghost all = extra.deep_view();
    let mut i: usize = 0;
    while i < extra.len()
        invariant
            i <= extra@.len(),
            all == extra.deep_view(),
            names.deep_view() == with_added(start, all.take(i as int)),
        decreases extra@.len() - i,
    {
        let ghost before = names.deep_view();
        assert(all.take(i + 1).drop_last() =~= all.take(i as int));
        if !contains_text(names, extra[i].as_str()) {
            names.push(extra[i].clone());
            assert(names.deep_view() =~= before.push(extra@[i as int]@));
        }
        i = i + 1;
    }
    assert(all.take(extra@.len() as int) =~= all);
}

fn remove_names(names: &Vec<String>, gone: &Vec<String>) -> (rest: Vec<String>)
    ensures
        rest.deep_view() == without(names.deep_view(), gone.deep_view()),
{
    let mut rest: Vec<String> = Vec::new();
    let ghost all = names.deep_view();
    let mut i: usize = 0;
    assert(rest.deep_view() =~= without(all.take(0), gone.deep_view()));
    while i < names.len()
        invariant
            i <= names@.len(),
            all == names.deep_view(),
            rest.deep_view() == without(all.take(i as int), gone.deep_view()),
        decreases names@.len() - i,
    {
        let ghost before = rest.deep_view();
        assert(all.take(i + 1).drop_last() =~= all.take(i as int));
        if !contains_text(gone, names[i].as_str()) {
            rest.push(names[i].clone());
            assert(rest.deep_view() =~= before.push(names@[i as int]@));
        }
        i = i + 1;
    }
    assert(all.take(names@.len() as int) =~= all);
    rest
}

impl ProjectSettings {
    /// The settings with what a repository says of its own.
    pub fn override_with(&self, options: &RepositoryOptions) -> (settings: ProjectSettings)
        ensures
            settings.deep_view() == overridden(self.deep_view(), options.deep_view()),
    {
        let mut names = copy_texts(&self.ignore_directories);
        add_names(&mut names, &options.ignore_directories.add);
        ProjectSettings {
            ignore_directories: remove_names(&names, &options.ignore_directories.remove),
            max_file_size_mb: match options.max_file_size_mb {
                Some(size) => size,
                None => self.max_file_size_mb,
            },
        }
    }
}

/// The configuration, and where everything lies.
#[derive(Debug, Clone, PartialEq, Eq)]
pub struct RuntimeConfig {
    pub values: Config,
    pub config_path: String,
    pub store_dir: String,
    pub state_dir: String,
    /// The home directory that `~` stands for.
    pub home: Option<String>,
    pub style: PathStyle,
}

/// What a [`RuntimeConfig`] says.
pub struct RuntimeView {
    pub values: ConfigView,
    pub config_path: Seq<char>,
    pub store_dir: Seq<char>,
    pub state_dir: Seq<char>,
    pub home: Option<Seq<char>>,
    pub style: PathStyle,
}

impl DeepView for RuntimeConfig {
    type V = RuntimeView;

    open spec fn deep_view(&self) -> RuntimeView {
        RuntimeView {
            values: self.values.deep_view(),
            config_path: self.config_path@,
            store_dir: self.store_dir@,
            state_dir: self.state_dir@,
            home: self.home.deep_view(),
            style: self.style,
        }
    }
}

/// Where the configuration lies: where the user says, or where the platform
/// keeps it.
pub open spec fn config_path_step(
    environment: EnvironmentView,
    chosen: Option<Seq<char>>,
    replies: Seq<ReplyView>,
    at: int,
) -> StepView<Seq<char>> {
    match chosen {
        None => StepView::Finished(environment.paths.config_file, at),
        Some(chosen) => if absolute(environment.style, chosen) {
            StepView::Finished(chosen, at)
        } else {
            match path_step(
                replies,
                at,
                ActionView::CurrentDirectory,
                "failed to resolve relative config path"@,
            ) {
                StepView::Perform(a) => StepView::Perform(a),
                StepView::Failed(f) => StepView::Failed(f),
                StepView::Finished(None, _) => StepView::Failed(FailureView::UnexpectedReply),
                StepView::Finished(Some(current), n) => StepView::Finished(
                    joined(environment.style, current, chosen),
                    n,
                ),
            }
        },
    }
}

/// What a configuration comes to in an environment.
pub open spec fn runtime_config(
    values: ConfigView,
    config_path: Seq<char>,
    environment: EnvironmentView,
) -> Result<RuntimeView, FailureView> {
    match config_problem(values) {
        Some(f) => Err(f),
        None => {
            let store_dir = match values.store_dir {
                Some(path) => expanded(environment.style, path, environment.home),
                None => Some(environment.paths.data_dir),
            };
            match store_dir {
                None => Err(FailureView::HomeUnknown),
                Some(store_dir) => if absolute(environment.style, store_dir) {
                    Ok(
                        RuntimeView {
                            values,
                            config_path,
                            store_dir,
                            state_dir: environment.paths.state_dir,
                            home: environment.home,
                            style: environment.style,
                        },
                    )
                } else {
                    Err(FailureView::RelativeStore(store_dir))
                },
            }
        },
    }
}

/// What the configuration file says; the defaults where there is none.
pub open spec fn values_step(
    config_path: Seq<char>,
    replies: Seq<ReplyView>,
    at: int,
) -> StepView<ConfigView> {
    match flag_step(
        replies,
        at,
        ActionView::Exists(config_path),
        "failed to read "@ + config_path,
    ) {
        StepView::Perform(a) => StepView::Perform(a),
        StepView::Failed(f) => StepView::Failed(f),
        StepView::Finished(false, n) => StepView::Finished(default_config(), n),
        StepView::Finished(true, n) => match reply_step(
            replies,
            n,
            ActionView::ReadConfig(config_path),
            "failed to read "@ + config_path,
        ) {
            StepView::Perform(a) => StepView::Perform(a),
            StepView::Failed(f) => StepView::Failed(f),
            StepView::Finished(ReplyView::Config(values), n) => StepView::Finished(values, n),
            StepView::Finished(_, _) => StepView::Failed(FailureView::UnexpectedReply),
        },
    }
}

/// The configuration in force.
pub open spec fn load_step(
    environment: EnvironmentView,
    chosen: Option<Seq<char>>,
    replies: Seq<ReplyView>,
    at: int,
) -> StepView<RuntimeView> {
    match config_path_step(environment, chosen, replies, at) {
        StepView::Perform(a) => StepView::Perform(a),
        StepView::Failed(f) => StepView::Failed(f),
        StepView::Finished(config_path, n) => match values_step(config_path, replies, n) {
            StepView::Perform(a) => StepView::Perform(a),
            StepView::Failed(f) => StepView::Failed(f),
            StepView::Finished(values, n) => match runtime_config(
                values,
                config_path,
                environment,
            ) {
                Ok(config) => StepView::Finished(config, n),
                Err(f) => StepView::Failed(f),
            },
        },
    }
}

/// Writes the default configuration; over another one only with `force`.
pub open spec fn write_default_step(
    environment: EnvironmentView,
    chosen: Option<Seq<char>>,
    force: bool,
    replies: Seq<ReplyView>,
    at: int,
) -> StepView<Seq<char>> {
    match config_path_step(environment, chosen, replies, at) {
        StepView::Perform(a) => StepView::Perform(a),
        StepView::Failed(f) => StepView::Failed(f),
        StepView::Finished(config_path, n) => match flag_step(
            replies,
            n,
            ActionView::Exists(config_path),
            "failed to write "@ + config_path,
        ) {
            StepView::Perform(a) => StepView::Perform(a),
            StepView::Failed(f) => StepView::Failed(f),
            StepView::Finished(exists_already, n) => if exists_already && !force {
                StepView::Failed(FailureView::ConfigExists(config_path))
            } else {
                match parent_directory_step(environment.style, config_path, replies, n) {
                    StepView::Perform(a) => StepView::Perform(a),
                    StepView::Failed(f) => StepView::Failed(f),
                    StepView::Finished(_, n) => match done_step(
                        replies,
                        n,
                        ActionView::WriteConfig(config_path, default_config()),
                        "failed to write "@ + config_path,
                    ) {
                        StepView::Perform(a) => StepView::Perform(a),
                        StepView::Failed(f) => StepView::Failed(f),
                        StepView::Finished(_, n) => StepView::Finished(config_path, n),
                    },
                }
            },
        },
    }
}

/// Makes sure that there is a directory for a file, where it needs one.
pub open spec fn parent_directory_step(
    style: PathStyle,
    file: Seq<char>,
    replies: Seq<ReplyView>,
    at: int,
) -> StepView<()> {
    match parent_of(style, file) {
        None => StepView::Finished((), at),
        Some(directory) => done_step(
            replies,
            at,
            ActionView::CreateDirectory(directory),
            "failed to create "@ + directory,
        ),
    }
}

/// The paths of the repositories with settings of their own, with the home
/// directory in place; nothing where it is needed and unknown.
pub open spec fn detailed_paths(
    style: PathStyle,
    home: Option<Seq<char>>,
    repositories: Seq<RepositoryView>,
) -> Option<Seq<Seq<char>>>
    decreases repositories.len(),
{
    if repositories.len() == 0 {
        Some(Seq::empty())
    } else {
        match (detailed_paths(style, home, repositories.drop_last()), repositories.last()) {
            (None, _) => None,
            (Some(before), RepositoryView::Path(_)) => Some(before),
            (Some(before), RepositoryView::Detailed(options)) => match expanded(
                style,
                options.path,
                home,
            ) {
                Some(path) => Some(before.push(path)),
                None => None,
            },
        }
    }
}

/// How many of the repositories have settings of their own.
pub open spec fn detailed_count(repositories: Seq<RepositoryView>) -> nat
    decreases repositories.len(),
{
    if repositories.len() == 0 {
        0
    } else {
        detailed_count(repositories.drop_last()) + (if repositories.last() is Detailed {
            1nat
        } else {
            0nat
        })
    }
}

/// The settings for the worktree at `root`: the global ones, with what each
/// repository that lies there says of its own, one behind the other.
/// `found` holds where the repositories with settings of their own lie.
pub open spec fn settings_for(
    style: PathStyle,
    global: SettingsView,
    repositories: Seq<RepositoryView>,
    found: Seq<Option<Seq<char>>>,
    root: Seq<char>,
) -> SettingsView
    decreases repositories.len(),
{
    if repositories.len() == 0 {
        global
    } else {
        let before = settings_for(style, global, repositories.drop_last(), found, root);
        match repositories.last() {
            RepositoryView::Path(_) => before,
            RepositoryView::Detailed(options) => match found[detailed_count(
                repositories.drop_last(),
            ) as int] {
                Some(place) => if components(style, place) == components(style, root) {
                    overridden(before, options)
                } else {
                    before
                },
                None => before,
            },
        }
    }
}

/// The settings for the worktree at `root`.
pub open spec fn project_settings_step(
    config: RuntimeView,
    root: Seq<char>,
    replies: Seq<ReplyView>,
    at: int,
) -> StepView<SettingsView> {
    match detailed_paths(config.style, config.home, config.values.repositories) {
        None => StepView::Failed(FailureView::HomeUnknown),
        Some(wanted) => match paths_step(
            replies,
            at,
            ActionView::Canonicalize(wanted),
            wanted.len() as int,
            "failed to inspect configured repositories"@,
        ) {
            StepView::Perform(a) => StepView::Perform(a),
            StepView::Failed(f) => StepView::Failed(f),
            StepView::Finished(found, n) => StepView::Finished(
                settings_for(
                    config.style,
                    SettingsView {
                        ignore_directories: config.values.ignore_directories,
                        max_file_size_mb: config.values.max_file_size_mb,
                    },
                    config.values.repositories,
                    found,
                    root,
                ),
                n,
            ),
        },
    }
}

fn copy_repository(repository: &Repository) -> (copy: Repository)
    ensures
        copy.deep_view() == repository.deep_view(),
{
    match repository {
        Repository::Path(path) => Repository::Path(path.clone()),
        Repository::Detailed(options) => Repository::Detailed(
            RepositoryOptions {
                path: options.path.clone(),
                ignore_directories: IgnoreDirectoryOverrides {
                    add: copy_texts(&options.ignore_directories.add),
                    remove: copy_texts(&options.ignore_directories.remove),
                },
                max_file_size_mb: options.max_file_size_mb,
            },
        ),
    }
}

fn copy_config(config: &Config) -> (copy: Config)
    ensures
        copy.deep_view() == config.deep_view(),
{
    let mut repositories: Vec<Repository> = Vec::new();
    let mut i: usize = 0;
    while i < config.repositories.len()
        invariant
            i <= config.repositories@.len(),
            repositories@.len() == i,
            forall|j: int|
                0 <= j < i ==> (#[trigger] repositories@[j]).deep_view()
                    == config.repositories@[j].deep_view(),
        decreases config.repositories@.len() - i,
    {
        repositories.push(copy_repository(&config.repositories[i]));
        i = i + 1;
    }
    assert(repositories.deep_view() =~= config.repositories.deep_view());
    Config {
        schema: config.schema.clone(),
        discovery_roots: copy_texts(&config.discovery_roots),
        repositories,
        exclude_repositories: copy_texts(&config.exclude_repositories),
        ignore_directories: copy_texts(&config.ignore_directories),
        store_dir: copy_text_option(&config.store_dir),
        max_file_size_mb: config.max_file_size_mb,
        discovery_max_depth: config.discovery_max_depth,
        discovery_interval_seconds: config.discovery_interval_seconds,
    }
}

fn copy_text_option(text: &Option<String>) -> (copy: Option<String>)
    ensures
        copy.deep_view() == text.deep_view(),
{
    match text {
        Some(s) => Some(s.clone()),
        None => None,
    }
}

fn resolve_config_path(
    environment: &Environment,
    chosen: Option<&str>,
    replies: &Vec<Reply>,
    at: usize,
) -> (step: Step<String>)
    ensures
        step.deep_view() == config_path_step(
            environment.deep_view(),
            chosen.deep_view(),
            replies.deep_view(),
            at as int,
        ),
{
    match chosen {
        None => Step::Finished(environment.paths.config_file.clone(), at),
        Some(chosen) => {
            if is_absolute(environment.style, chosen) {
                return Step::Finished(chosen.to_owned(), at);
            }
            match path(
                replies,
                at,
                Action::CurrentDirectory,
                "failed to resolve relative config path",
            ) {
                Step::Perform(a) => Step::Perform(a),
                Step::Failed(f) => Step::Failed(f),
                Step::Finished(None, _) => Step::Failed(Failure::UnexpectedReply),
                Step::Finished(Some(current), n) => Step::Finished(
                    join(environment.style, current.as_str(), chosen),
                    n,
                ),
            }
        },
    }
}

fn read_values(config_path: &str, replies: &Vec<Reply>, at: usize) -> (step: Step<Config>)
    ensures
        step.deep_view() == values_step(config_path@, replies.deep_view(), at as int),
{
    let context = join2("failed to read ", config_path);
    match flag(replies, at, Action::Exists(config_path.to_owned()), context.as_str()) {
        Step::Perform(a) => Step::Perform(a),
        Step::Failed(f) => Step::Failed(f),
        Step::Finished(false, n) => {
            let values: Config = Config::default();
            Step::Finished(values, n)
        },
        Step::Finished(true, n) => match reply_to(
            replies,
            n,
            Action::ReadConfig(config_path.to_owned()),
            context.as_str(),
        ) {
            Step::Perform(a) => Step::Perform(a),
            Step::Failed(f) => Step::Failed(f),
            Step::Finished(Reply::Config(values), n) => Step::Finished(copy_config(values), n),
            Step::Finished(_, _) => Step::Failed(Failure::UnexpectedReply),
        },
    }
}

fn create_parent(style: PathStyle, file: &str, replies: &Vec<Reply>, at: usize) -> (step: Step<()>)
    ensures
        step.deep_view() == parent_directory_step(style, file@, replies.deep_view(), at as int),
{
    match parent(style, file) {
        None => Step::Finished((), at),
        Some(directory) => {
            let context = join2("failed to create ", directory.as_str());
            done(replies, at, Action::CreateDirectory(directory), context.as_str())
        },
    }
}

impl RuntimeConfig {
    /// What a configuration comes to in an environment.
    pub fn from_values(values: Config, config_path: &str, environment: &Environment) -> (r: Result<
        RuntimeConfig,
        Failure,
    >)
        ensures
            match runtime_config(values.deep_view(), config_path@, environment.deep_view()) {
                Ok(config) => r matches Ok(c) && c.deep_view() == config,
                Err(failure) => r matches Err(f) && f.deep_view() == failure,
            },
    {
        if let Err(f) = validate(&values) {
            return Err(f);
        }
        let store_dir = match &values.store_dir {
            Some(path) => match expand_path_from(
                environment.style,
                path.as_str(),
                &environment.home,
            ) {
                Ok(path) => path,
                Err(f) => {
                    return Err(f);
                },
            },
            None => environment.paths.data_dir.clone(),
        };
        if !is_absolute(environment.style, store_dir.as_str()) {
            return Err(Failure::RelativeStore(store_dir));
        }
        Ok(
            RuntimeConfig {
                values,
                config_path: config_path.to_owned(),
                store_dir,
                state_dir: environment.paths.state_dir.clone(),
                home: copy_text_option(&environment.home),
                style: environment.style,
            },
        )
    }

    /// The configuration in force.
    pub fn load(
        environment: &Environment,
        path_override: Option<&str>,
        replies: &Vec<Reply>,
        at: usize,
    ) -> (step: Step<RuntimeConfig>)
        ensures
            step.deep_view() == load_step(
                environment.deep_view(),
                path_override.deep_view(),
                replies.deep_view(),
                at as int,
            ),
    {
        match resolve_config_path(environment, path_override, replies, at) {
            Step::Perform(a) => Step::Perform(a),
            Step::Failed(f) => Step::Failed(f),
            Step::Finished(config_path, n) => match read_values(
                config_path.as_str(),
                replies,
                n,
            ) {
                Step::Perform(a) => Step::Perform(a),
                Step::Failed(f) => Step::Failed(f),
                Step::Finished(values, n) => match RuntimeConfig::from_values(
                    values,
                    config_path.as_str(),
                    environment,
                ) {
                    Ok(config) => Step::Finished(config, n),
                    Err(f) => Step::Failed(f),
                },
            },
        }
    }

    /// Writes the default configuration; over another one only with `force`.
    pub fn write_default(
        environment: &Environment,
        path_override: Option<&str>,
        force: bool,
        replies: &Vec<Reply>,
        at: usize,
    ) -> (step: Step<String>)
        ensures
            step.deep_view() == write_default_step(
                environment.deep_view(),
                path_override.deep_view(),
                force,
                replies.deep_view(),
                at as int,
            ),
    {
        match resolve_config_path(environment, path_override, replies, at) {
            Step::Perform(a) => Step::Perform(a),
            Step::Failed(f) => Step::Failed(f),
            Step::Finished(config_path, n) => {
                let context = join2("failed to write ", config_path.as_str());
                match flag(replies, n, Action::Exists(config_path.clone()), context.as_str()) {
                    Step::Perform(a) => Step::Perform(a),
                    Step::Failed(f) => Step::Failed(f),
                    Step::Finished(exists_already, n) => {
                        if exists_already && !force {
                            return Step::Failed(Failure::ConfigExists(config_path));
                        }
                        match create_parent(environment.style, config_path.as_str(), replies, n) {
                            Step::Perform(a) => Step::Perform(a),
                            Step::Failed(f) => Step::Failed(f),
                            Step::Finished(_, n) => match done(
                                replies,
                                n,
                                Action::WriteConfig(config_path.clone(), Config::default()),
                                context.as_str(),
                            ) {
                                Step::Perform(a) => Step::Perform(a),
                                Step::Failed(f) => Step::Failed(f),
                                Step::Finished(_, n) => Step::Finished(config_path, n),
                            },
                        }
                    },
                }
            },
        }
    }

    fn detailed_places(&self) -> (r: Result<Vec<String>, Failure>)
        ensures
            match detailed_paths(self.style, self.home.deep_view(), self.values.repositories.deep_view()) {
                Some(paths) => r matches Ok(list) && list.deep_view() == paths,
                None => r matches Err(f) && f.deep_view() == FailureView::HomeUnknown,
            },
    {
        let mut list: Vec<String> = Vec::new();
        let ghost all = self.values.repositories.deep_view();
        let mut i: usize = 0;
        assert(list.deep_view() =~= Seq::empty());
        while i < self.values.repositories.len()
            invariant
                i <= self.values.repositories@.len(),
                all == self.values.repositories.deep_view(),
                detailed_paths(self.style, self.home.deep_view(), all.take(i as int)) == Some(
                    list.deep_view(),
                ),
            decreases self.values.repositories@.len() - i,
        {
            let ghost before = list.deep_view();
            assert(all.take(i + 1).drop_last() =~= all.take(i as int));
            if let Repository::Detailed(options) = &self.values.repositories[i] {
                match expand_path_from(self.style, options.path.as_str(), &self.home) {
                    Ok(path) => {
                        list.push(path);
                        assert(list.deep_view() =~= before.push(path@));
                    },
                    Err(f) => {
                        proof {
                            detailed_paths_fail_early(
                                self.style,
                                self.home.deep_view(),
                                all,
                                i + 1,
                            );
                        }
                        return Err(f);
                    },
                }
            }
            i = i + 1;
        }
        assert(all.take(all.len() as int) =~= all);
        Ok(list)
    }

    /// The settings for the worktree at `root`, given where the repositories
    /// with settings of their own lie.
    pub fn settings_at(&self, root: &str, found: &Vec<Option<String>>) -> (settings:
        ProjectSettings)
        requires
            found@.len() == detailed_count(self.values.repositories.deep_view()),
        ensures
            settings.deep_view() == settings_for(
                self.style,
                SettingsView {
                    ignore_directories: self.values.ignore_directories.deep_view(),
                    max_file_size_mb: self.values.max_file_size_mb,
                },
                self.values.repositories.deep_view(),
                found.deep_view(),
                root@,
            ),
    {
        let mut settings = ProjectSettings {
            ignore_directories: copy_texts(&self.values.ignore_directories),
            max_file_size_mb: self.values.max_file_size_mb,
        };
        let ghost global = settings.deep_view();
        let ghost all = self.values.repositories.deep_view();
        let ghost places = found.deep_view();
        let total: usize = found.len();
        let mut i: usize = 0;
        let mut next: usize = 0;
        while i < self.values.repositories.len()
            invariant
                i <= self.values.repositories@.len(),
                all == self.values.repositories.deep_view(),
                places == found.deep_view(),
                total == found@.len() == detailed_count(all),
                next == detailed_count(all.take(i as int)),
                settings.deep_view() == settings_for(
                    self.style,
                    global,
                    all.take(i as int),
                    places,
                    root@,
                ),
            decreases self.values.repositories@.len() - i,
        {
            proof {
                assert(all.take(i + 1).drop_last() =~= all.take(i as int));
                detailed_count_grows(all, i + 1);
            }
            if let Repository::Detailed(options) = &self.values.repositories[i] {
                assert(next < total);
                assert(places[next as int] == found@[next as int].deep_view());
                if let Some(place) = &found[next] {
                    if same_path(self.style, place.as_str(), root) {
                        settings = settings.override_with(options);
                    }
                }
                next = next + 1;
            }
            i = i + 1;
        }
        assert(all.take(all.len() as int) =~= all);
        settings
    }

    /// The settings for the worktree at `root`.
    pub fn project_settings(&self, root: &str, replies: &Vec<Reply>, at: usize) -> (step: Step<
        ProjectSettings,
    >)
        ensures
            step.deep_view() == project_settings_step(
                self.deep_view(),
                root@,
                replies.deep_view(),
                at as int,
            ),
    {
        match self.detailed_places() {
            Err(f) => Step::Failed(f),
            Ok(wanted) => {
                let count: usize = wanted.len();
                proof {
                    detailed_paths_count(
                        self.style,
                        self.home.deep_view(),
                        self.values.repositories.deep_view(),
                    );
                }
                match paths(
                    replies,
                    at,
                    Action::Canonicalize(wanted),
                    count,
                    "failed to inspect configured repositories",
                ) {
                    Step::Perform(a) => Step::Perform(a),
                    Step::Failed(f) => Step::Failed(f),
                    Step::Finished(found, n) => {
                        assert(found.deep_view().len() == count);
                        Step::Finished(self.settings_at(root, found), n)
                    },
                }
            },
        }
    }
}

proof fn detailed_paths_fail_early(
    style: PathStyle,
    home: Option<Seq<char>>,
    repositories: Seq<RepositoryView>,
    i: int,
)
    requires
        0 <= i <= repositories.len(),
        detailed_paths(style, home, repositories.take(i)) is None,
    ensures
        detailed_paths(style, home, repositories) is None,
    decreases repositories.len() - i,
{
    if i < repositories.len() {
        assert(repositories.take(i + 1).drop_last() =~= repositories.take(i));
        detailed_paths_fail_early(style, home, repositories, i + 1);
    } else {
        assert(repositories.take(i) =~= repositories);
    }
}

proof fn detailed_paths_count(
    style: PathStyle,
    home: Option<Seq<char>>,
    repositories: Seq<RepositoryView>,
)
    ensures
        detailed_paths(style, home, repositories) matches Some(list) ==> list.len()
            == detailed_count(repositories),
    decreases repositories.len(),
{
    if repositories.len() > 0 {
        detailed_paths_count(style, home, repositories.drop_last());
    }
}

proof fn detailed_count_grows(repositories: Seq<RepositoryView>, i: int)
    requires
        0 <= i <= repositories.len(),
    ensures
        detailed_count(repositories.take(i)) <= detailed_count(repositories),
    decreases repositories.len() - i,
{
    if i < repositories.len() {
        assert(repositories.take(i + 1).drop_last() =~= repositories.take(i));
        detailed_count_grows(repositories, i + 1);
    } else {
        assert(repositories.take(i) =~= repositories);
    }
}

} // verus!
