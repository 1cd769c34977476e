//! Procedures that need the outside world.
//!
//! A procedure is a function of the replies that it has had so far. It gives
//! the next [`Action`], or says how it ended. The caller performs the action,
//! puts the reply behind the others and asks again. So everything that a
//! procedure decides is decided by a function, for every reply that can come.

use crate::config::{Config, ConfigView};
use crate::outside::{lossy_text, text_lossy, text_strict, utf8_problem};
use crate::paths::PathStyle;
use crate::text::{join2, trim, trimmed};
use crate::watchman::{Registration, RegistrationView, WatchmanFile, WatchmanFileView};
use vstd::prelude::*;
use vstd::utf8::{decode_utf8, valid_utf8};

verus! {

/// A program to run.
#[derive(Debug, PartialEq, Eq)]
pub struct Invocation {
    pub program: String,
    pub arguments: Vec<String>,
    /// Variables to set, besides those that are set already.
    pub environment: Vec<(String, String)>,
    /// What to write to its standard input.
    pub input: Option<Vec<u8>>,
}

/// What a program did.
#[derive(Debug, PartialEq, Eq)]
pub struct CommandOutput {
    /// The exit code; none where a signal ended the program.
    pub code: Option<i32>,
    pub stdout: Vec<u8>,
    pub stderr: Vec<u8>,
}

/// What lies at a path, links not followed.
#[derive(Debug, PartialEq, Eq)]
pub enum FileStatus {
    /// A regular file of so many bytes.
    Regular(u64),
    /// Something else.
    Other,
    /// Nothing.
    Missing,
    /// It could not be found out, for this reason.
    Unreadable(String),
}

/// Something for the caller to do.
#[derive(Debug, PartialEq, Eq)]
pub enum Action {
    /// Open this lock file, and create it where it is missing. Reply: `Done`.
    OpenLock(String),
    /// Wait for the exclusive lock on the open lock file. Reply: `Done`.
    Lock,
    /// Let go of the lock. Reply: `Done`.
    Unlock,
    /// Run a program to its end. Reply: `Output`.
    Run(Invocation),
    /// Whether something lies at the path. Reply: `Flags`, of one.
    Exists(String),
    /// Which of the paths are directories. Reply: `Flags`.
    AreDirectories(Vec<String>),
    /// The canonical forms of the paths, where they have one. Reply: `Paths`.
    Canonicalize(Vec<String>),
    /// The canonical form of a path. Reply: `Paths`, of one.
    Resolve(String),
    /// The current directory. Reply: `Paths`, of one.
    CurrentDirectory,
    /// The path of this program. Reply: `Paths`, of one.
    CurrentExecutable,
    /// What lies at the paths. Reply: `Statuses`.
    Inspect(Vec<String>),
    /// Create a directory and those above it. Reply: `Done`.
    CreateDirectory(String),
    /// Keep everyone but the current user out of a directory. Reply: `Done`.
    SecureDirectory(String),
    /// The root that the project file names. Reply: `Paths`, of one.
    ReadProject(String),
    /// Write a project file that names the root. Reply: `Done`.
    WriteProject(String, String),
    /// Read a configuration. Reply: `Config`.
    ReadConfig(String),
    /// Write a configuration to a new file. Reply: `Done`.
    WriteConfig(String, Config),
    /// The worktrees below the directory, down to this depth. Reply: `Found` or `Stuck`.
    Walk(String, usize),
    /// Read the registry at the path. Reply: `Registry`.
    ReadRegistry(String),
    /// Write a registry to the path. Reply: `Done`.
    WriteRegistry(String, Vec<Registration>),
    /// Move the first file to the second path, in place of what lies there. Reply: `Done`.
    Replace(String, String),
    /// Make sure that a project is watched. Reply: `Registered`.
    EnsureProject(String),
    /// The files that Watchman reports. Reply: `Files`.
    ReadChangedFiles,
    /// Tell the user something. Reply: any.
    Tell(String),
    /// Tell the user that something failed, and why. Reply: any.
    Report(String, Failure),
}

/// What came of an action.
#[derive(Debug, PartialEq, Eq)]
pub enum Reply {
    Done,
    /// The action could not be performed, for this reason.
    Failed(String),
    /// What was read cannot be understood, for this reason.
    Malformed(String),
    Output(CommandOutput),
    Flags(Vec<bool>),
    Paths(Vec<Option<String>>),
    Statuses(Vec<FileStatus>),
    Config(Config),
    Found(Vec<String>),
    /// A search came to a worktree, at this path, that has no canonical path, for this reason.
    Stuck(String, String),
    Registry(Vec<Registration>),
    /// The registration, or why the project could not be registered.
    Registered(Attempt<Registration>),
    Files(Vec<WatchmanFile>),
}

/// Why a procedure failed.
#[derive(Debug, PartialEq, Eq)]
pub enum Failure {
    /// A history path is empty or absolute.
    NotRelative,
    /// A history path leads somewhere else than down.
    UnsafePath(String),
    InvalidRevision,
    HomeUnknown,
    ConfigDirectoryUnknown,
    DataDirectoryUnknown,
    /// An action could not be performed.
    Unavailable { context: String, cause: String },
    /// What was read cannot be understood.
    Malformed(String),
    /// A program that is needed does not work.
    Required { command: String, code: Option<i32> },
    /// A program ended with something else than success.
    CommandFailed { operation: String, code: Option<i32>, message: String },
    /// A program wrote something that is not text.
    NotUtf8 { context: String, cause: String },
    /// A path has to be text all through and is not.
    NotText(String),
    /// A reply does not belong to the action before it.
    UnexpectedReply,
    /// The store belongs to another worktree.
    Collision { project_dir: String, owner: String },
    /// A file does not lie in the worktree.
    OutsideRoot { path: String, root: String },
    NoParentDirectory,
    NotInWorktree,
    MissingTimestamp,
    /// A time is no number, for this reason.
    InvalidTimestamp(String),
    ZeroInterval,
    ZeroDepth,
    ZeroRepositorySize,
    /// An ignored directory is given by more than its name.
    NotABasename(String),
    RelativeStore(String),
    ConfigExists(String),
    /// An exclusion is no glob, for this reason.
    InvalidPattern { pattern: String, cause: String },
    /// The exclusions cannot be built, for this reason.
    PatternsRefused(String),
    /// Watchman said so.
    Watchman(String),
    /// Watchman wrote something that is not JSON, for this reason.
    InvalidJson(String),
    NoWatchRoot,
}

/// How far a procedure has come.
#[derive(Debug, PartialEq, Eq)]
pub enum Step<T> {
    /// It needs a reply to this.
    Perform(Action),
    /// It has ended, after so many replies.
    Finished(T, usize),
    /// It cannot go on.
    Failed(Failure),
}

/// What came of something that may fail without ending the procedure.
#[derive(Debug, PartialEq, Eq)]
pub enum Attempt<T> {
    Success(T),
    Failure(Failure),
}

/// What an [`Attempt`] says.
pub enum AttemptView<V> {
    Success(V),
    Failure(FailureView),
}

impl<T: DeepView> DeepView for Attempt<T> {
    type V = AttemptView<T::V>;

    open spec fn deep_view(&self) -> AttemptView<T::V> {
        match self {
            Attempt::Success(value) => AttemptView::Success(value.deep_view()),
            Attempt::Failure(failure) => AttemptView::Failure(failure.deep_view()),
        }
    }
}

/// What an attempt comes to where a failure ends the procedure.
pub open spec fn insisted<V>(step: StepView<AttemptView<V>>) -> StepView<V> {
    match step {
        StepView::Perform(a) => StepView::Perform(a),
        StepView::Failed(f) => StepView::Failed(f),
        StepView::Finished(AttemptView::Success(value), n) => StepView::Finished(value, n),
        StepView::Finished(AttemptView::Failure(f), _) => StepView::Failed(f),
    }
}

/// What an attempt comes to where a failure ends the procedure.
pub fn insist<T: DeepView>(step: Step<Attempt<T>>) -> (insisting: Step<T>)
    ensures
        insisting.deep_view() == insisted(step.deep_view()),
{
    match step {
        Step::Perform(a) => Step::Perform(a),
        Step::Failed(f) => Step::Failed(f),
        Step::Finished(Attempt::Success(value), n) => Step::Finished(value, n),
        Step::Finished(Attempt::Failure(f), _) => Step::Failed(f),
    }
}

/// What an [`Invocation`] says.
pub struct InvocationView {
    pub program: Seq<char>,
    pub arguments: Seq<Seq<char>>,
    pub environment: Seq<(Seq<char>, Seq<char>)>,
    pub input: Option<Seq<u8>>,
}

/// What a [`CommandOutput`] says.
pub struct OutputView {
    pub code: Option<i32>,
    pub stdout: Seq<u8>,
    pub stderr: Seq<u8>,
}

/// What a [`FileStatus`] says.
pub enum StatusView {
    Regular(u64),
    Other,
    Missing,
    Unreadable(Seq<char>),
}

/// What an [`Action`] says.
pub enum ActionView {
    OpenLock(Seq<char>),
    Lock,
    Unlock,
    Run(InvocationView),
    Exists(Seq<char>),
    AreDirectories(Seq<Seq<char>>),
    Canonicalize(Seq<Seq<char>>),
    Resolve(Seq<char>),
    CurrentDirectory,
    CurrentExecutable,
    Inspect(Seq<Seq<char>>),
    CreateDirectory(Seq<char>),
    SecureDirectory(Seq<char>),
    ReadProject(Seq<char>),
    WriteProject(Seq<char>, Seq<char>),
    ReadConfig(Seq<char>),
    WriteConfig(Seq<char>, ConfigView),
    Walk(Seq<char>, usize),
    ReadRegistry(Seq<char>),
    WriteRegistry(Seq<char>, Seq<RegistrationView>),
    Replace(Seq<char>, Seq<char>),
    EnsureProject(Seq<char>),
    ReadChangedFiles,
    Tell(Seq<char>),
    Report(Seq<char>, FailureView),
}

/// What a [`Reply`] says.
pub enum ReplyView {
    Done,
    Failed(Seq<char>),
    Malformed(Seq<char>),
    Output(OutputView),
    Flags(Seq<bool>),
    Paths(Seq<Option<Seq<char>>>),
    Statuses(Seq<StatusView>),
    Config(ConfigView),
    Found(Seq<Seq<char>>),
    Stuck(Seq<char>, Seq<char>),
    Registry(Seq<RegistrationView>),
    Registered(AttemptView<RegistrationView>),
    Files(Seq<WatchmanFileView>),
}

/// What a [`Failure`] says.
pub enum FailureView {
    NotRelative,
    UnsafePath(Seq<char>),
    InvalidRevision,
    HomeUnknown,
    ConfigDirectoryUnknown,
    DataDirectoryUnknown,
    Unavailable { context: Seq<char>, cause: Seq<char> },
    Malformed(Seq<char>),
    Required { command: Seq<char>, code: Option<i32> },
    CommandFailed { operation: Seq<char>, code: Option<i32>, message: Seq<char> },
    NotUtf8 { context: Seq<char>, cause: Seq<char> },
    NotText(Seq<char>),
    UnexpectedReply,
    Collision { project_dir: Seq<char>, owner: Seq<char> },
    OutsideRoot { path: Seq<char>, root: Seq<char> },
    NoParentDirectory,
    NotInWorktree,
    MissingTimestamp,
    InvalidTimestamp(Seq<char>),
    ZeroInterval,
    ZeroDepth,
    ZeroRepositorySize,
    NotABasename(Seq<char>),
    RelativeStore(Seq<char>),
    ConfigExists(Seq<char>),
    InvalidPattern { pattern: Seq<char>, cause: Seq<char> },
    PatternsRefused(Seq<char>),
    Watchman(Seq<char>),
    InvalidJson(Seq<char>),
    NoWatchRoot,
}

/// What a [`Step`] says.
pub enum StepView<V> {
    Perform(ActionView),
    Finished(V, int),
    Failed(FailureView),
}

impl DeepView for Invocation {
    type V = InvocationView;

    open spec fn deep_view(&self) -> InvocationView {
        InvocationView {
            program: self.program@,
            arguments: self.arguments.deep_view(),
            environment: self.environment.deep_view(),
            input: match self.input {
                Some(bytes) => Some(bytes@),
                None => None,
            },
        }
    }
}

impl DeepView for CommandOutput {
    type V = OutputView;

    open spec fn deep_view(&self) -> OutputView {
        OutputView { code: self.code, stdout: self.stdout@, stderr: self.stderr@ }
    }
}

impl DeepView for FileStatus {
    type V = StatusView;

    open spec fn deep_view(&self) -> StatusView {
        match self {
            FileStatus::Regular(size) => StatusView::Regular(*size),
            FileStatus::Other => StatusView::Other,
            FileStatus::Missing => StatusView::Missing,
            FileStatus::Unreadable(cause) => StatusView::Unreadable(cause@),
        }
    }
}

impl DeepView for Action {
    type V = ActionView;

    open spec fn deep_view(&self) -> ActionView {
        match self {
            Action::OpenLock(path) => ActionView::OpenLock(path@),
            Action::Lock => ActionView::Lock,
            Action::Unlock => ActionView::Unlock,
            Action::Run(command) => ActionView::Run(command.deep_view()),
            Action::Exists(path) => ActionView::Exists(path@),
            Action::AreDirectories(paths) => ActionView::AreDirectories(paths.deep_view()),
            Action::Canonicalize(paths) => ActionView::Canonicalize(paths.deep_view()),
            Action::Resolve(path) => ActionView::Resolve(path@),
            Action::CurrentDirectory => ActionView::CurrentDirectory,
            Action::CurrentExecutable => ActionView::CurrentExecutable,
            Action::Inspect(paths) => ActionView::Inspect(paths.deep_view()),
            Action::CreateDirectory(path) => ActionView::CreateDirectory(path@),
            Action::SecureDirectory(path) => ActionView::SecureDirectory(path@),
            Action::ReadProject(path) => ActionView::ReadProject(path@),
            Action::WriteProject(path, root) => ActionView::WriteProject(path@, root@),
            Action::ReadConfig(path) => ActionView::ReadConfig(path@),
            Action::WriteConfig(path, config) => ActionView::WriteConfig(path@, config.deep_view()),
            Action::Walk(root, depth) => ActionView::Walk(root@, *depth),
            Action::ReadRegistry(path) => ActionView::ReadRegistry(path@),
            Action::WriteRegistry(path, list) => ActionView::WriteRegistry(path@, list.deep_view()),
            Action::Replace(from, to) => ActionView::Replace(from@, to@),
            Action::EnsureProject(project) => ActionView::EnsureProject(project@),
            Action::ReadChangedFiles => ActionView::ReadChangedFiles,
            Action::Tell(text) => ActionView::Tell(text@),
            Action::Report(text, failure) => ActionView::Report(text@, failure.deep_view()),
        }
    }
}

impl DeepView for Reply {
    type V = ReplyView;

    open spec fn deep_view(&self) -> ReplyView {
        match self {
            Reply::Done => ReplyView::Done,
            Reply::Failed(cause) => ReplyView::Failed(cause@),
            Reply::Malformed(cause) => ReplyView::Malformed(cause@),
            Reply::Output(output) => ReplyView::Output(output.deep_view()),
            Reply::Flags(flags) => ReplyView::Flags(flags@),
            Reply::Paths(paths) => ReplyView::Paths(paths.deep_view()),
            Reply::Statuses(statuses) => ReplyView::Statuses(statuses.deep_view()),
            Reply::Config(config) => ReplyView::Config(config.deep_view()),
            Reply::Found(paths) => ReplyView::Found(paths.deep_view()),
            Reply::Stuck(path, cause) => ReplyView::Stuck(path@, cause@),
            Reply::Registry(list) => ReplyView::Registry(list.deep_view()),
            Reply::Registered(attempt) => ReplyView::Registered(attempt.deep_view()),
            Reply::Files(files) => ReplyView::Files(files.deep_view()),
        }
    }
}

impl DeepView for Failure {
    type V = FailureView;

    open spec fn deep_view(&self) -> FailureView {
        match self {
            Failure::NotRelative => FailureView::NotRelative,
            Failure::UnsafePath(path) => FailureView::UnsafePath(path@),
            Failure::InvalidRevision => FailureView::InvalidRevision,
            Failure::HomeUnknown => FailureView::HomeUnknown,
            Failure::ConfigDirectoryUnknown => FailureView::ConfigDirectoryUnknown,
            Failure::DataDirectoryUnknown => FailureView::DataDirectoryUnknown,
            Failure::Unavailable { context, cause } => FailureView::Unavailable {
                context: context@,
                cause: cause@,
            },
            Failure::Malformed(cause) => FailureView::Malformed(cause@),
            Failure::Required { command, code } => FailureView::Required {
                command: command@,
                code: *code,
            },
            Failure::CommandFailed { operation, code, message } => FailureView::CommandFailed {
                operation: operation@,
                code: *code,
                message: message@,
            },
            Failure::NotUtf8 { context, cause } => FailureView::NotUtf8 {
                context: context@,
                cause: cause@,
            },
            Failure::NotText(context) => FailureView::NotText(context@),
            Failure::UnexpectedReply => FailureView::UnexpectedReply,
            Failure::Collision { project_dir, owner } => FailureView::Collision {
                project_dir: project_dir@,
                owner: owner@,
            },
            Failure::OutsideRoot { path, root } => FailureView::OutsideRoot {
                path: path@,
                root: root@,
            },
            Failure::NoParentDirectory => FailureView::NoParentDirectory,
            Failure::NotInWorktree => FailureView::NotInWorktree,
            Failure::MissingTimestamp => FailureView::MissingTimestamp,
            Failure::InvalidTimestamp(cause) => FailureView::InvalidTimestamp(cause@),
            Failure::ZeroInterval => FailureView::ZeroInterval,
            Failure::ZeroDepth => FailureView::ZeroDepth,
            Failure::ZeroRepositorySize => FailureView::ZeroRepositorySize,
            Failure::NotABasename(name) => FailureView::NotABasename(name@),
            Failure::RelativeStore(path) => FailureView::RelativeStore(path@),
            Failure::ConfigExists(path) => FailureView::ConfigExists(path@),
            Failure::InvalidPattern { pattern, cause } => FailureView::InvalidPattern {
                pattern: pattern@,
                cause: cause@,
            },
            Failure::PatternsRefused(cause) => FailureView::PatternsRefused(cause@),
            Failure::Watchman(message) => FailureView::Watchman(message@),
            Failure::InvalidJson(cause) => FailureView::InvalidJson(cause@),
            Failure::NoWatchRoot => FailureView::NoWatchRoot,
        }
    }
}

/// The same failure once more.
pub fn copy_failure(failure: &Failure) -> (copy: Failure)
    ensures
        copy.deep_view() == failure.deep_view(),
{
    match failure {
        Failure::NotRelative => Failure::NotRelative,
        Failure::UnsafePath(path) => Failure::UnsafePath(path.clone()),
        Failure::InvalidRevision => Failure::InvalidRevision,
        Failure::HomeUnknown => Failure::HomeUnknown,
        Failure::ConfigDirectoryUnknown => Failure::ConfigDirectoryUnknown,
        Failure::DataDirectoryUnknown => Failure::DataDirectoryUnknown,
        Failure::Unavailable { context, cause } => Failure::Unavailable {
            context: context.clone(),
            cause: cause.clone(),
        },
        Failure::Malformed(cause) => Failure::Malformed(cause.clone()),
        Failure::Required { command, code } => Failure::Required {
            command: command.clone(),
            code: *code,
        },
        Failure::CommandFailed { operation, code, message } => Failure::CommandFailed {
            operation: operation.clone(),
            code: *code,
            message: message.clone(),
        },
        Failure::NotUtf8 { context, cause } => Failure::NotUtf8 {
            context: context.clone(),
            cause: cause.clone(),
        },
        Failure::NotText(context) => Failure::NotText(context.clone()),
        Failure::UnexpectedReply => Failure::UnexpectedReply,
        Failure::Collision { project_dir, owner } => Failure::Collision {
            project_dir: project_dir.clone(),
            owner: owner.clone(),
        },
        Failure::OutsideRoot { path, root } => Failure::OutsideRoot {
            path: path.clone(),
            root: root.clone(),
        },
        Failure::NoParentDirectory => Failure::NoParentDirectory,
        Failure::NotInWorktree => Failure::NotInWorktree,
        Failure::MissingTimestamp => Failure::MissingTimestamp,
        Failure::InvalidTimestamp(cause) => Failure::InvalidTimestamp(cause.clone()),
        Failure::ZeroInterval => Failure::ZeroInterval,
        Failure::ZeroDepth => Failure::ZeroDepth,
        Failure::ZeroRepositorySize => Failure::ZeroRepositorySize,
        Failure::NotABasename(name) => Failure::NotABasename(name.clone()),
        Failure::RelativeStore(path) => Failure::RelativeStore(path.clone()),
        Failure::ConfigExists(path) => Failure::ConfigExists(path.clone()),
        Failure::InvalidPattern { pattern, cause } => Failure::InvalidPattern {
            pattern: pattern.clone(),
            cause: cause.clone(),
        },
        Failure::PatternsRefused(cause) => Failure::PatternsRefused(cause.clone()),
        Failure::Watchman(message) => Failure::Watchman(message.clone()),
        Failure::InvalidJson(cause) => Failure::InvalidJson(cause.clone()),
        Failure::NoWatchRoot => Failure::NoWatchRoot,
    }
}

impl<T: DeepView> DeepView for Step<T> {
    type V = StepView<T::V>;

    open spec fn deep_view(&self) -> StepView<T::V> {
        match self {
            Step::Perform(action) => StepView::Perform(action.deep_view()),
            Step::Finished(value, used) => StepView::Finished(value.deep_view(), *used as int),
            Step::Failed(failure) => StepView::Failed(failure.deep_view()),
        }
    }
}

/// The reply to `action`, if it is there.
pub open spec fn reply_step(
    replies: Seq<ReplyView>,
    at: int,
    action: ActionView,
    context: Seq<char>,
) -> StepView<ReplyView> {
    if at >= replies.len() {
        StepView::Perform(action)
    } else {
        match replies[at] {
            ReplyView::Failed(cause) => StepView::Failed(
                FailureView::Unavailable { context, cause },
            ),
            ReplyView::Malformed(cause) => StepView::Failed(FailureView::Malformed(cause)),
            reply => StepView::Finished(reply, at + 1),
        }
    }
}

/// The reply to `action`, if it is there.
pub fn reply_to<'a>(
    replies: &'a Vec<Reply>,
    at: usize,
    action: Action,
    context: &str,
) -> (step: Step<&'a Reply>)
    ensures
        step.deep_view() == reply_step(
            replies.deep_view(),
            at as int,
            action.deep_view(),
            context@,
        ),
        step matches Step::Finished(_, used) ==> used == at + 1 && used <= replies@.len(),
{
    if at >= replies.len() {
        return Step::Perform(action);
    }
    match &replies[at] {
        Reply::Failed(cause) => Step::Failed(
            Failure::Unavailable { context: context.to_owned(), cause: cause.clone() },
        ),
        Reply::Malformed(cause) => Step::Failed(Failure::Malformed(cause.clone())),
        reply => Step::Finished(reply, at + 1),
    }
}

/// The reply to an action that has nothing to tell.
pub open spec fn done_step(
    replies: Seq<ReplyView>,
    at: int,
    action: ActionView,
    context: Seq<char>,
) -> StepView<()> {
    match reply_step(replies, at, action, context) {
        StepView::Perform(a) => StepView::Perform(a),
        StepView::Failed(f) => StepView::Failed(f),
        StepView::Finished(ReplyView::Done, n) => StepView::Finished((), n),
        StepView::Finished(_, _) => StepView::Failed(FailureView::UnexpectedReply),
    }
}

/// The reply to an action that has nothing to tell.
pub fn done(replies: &Vec<Reply>, at: usize, action: Action, context: &str) -> (step: Step<()>)
    ensures
        step.deep_view() == done_step(
            replies.deep_view(),
            at as int,
            action.deep_view(),
            context@,
        ),
{
    match reply_to(replies, at, action, context) {
        Step::Perform(a) => Step::Perform(a),
        Step::Failed(f) => Step::Failed(f),
        Step::Finished(Reply::Done, n) => Step::Finished((), n),
        Step::Finished(_, _) => Step::Failed(Failure::UnexpectedReply),
    }
}

/// Creates a directory that only the current user may enter, where the file
/// system knows of such a thing.
pub open spec fn private_directory_step(
    style: PathStyle,
    path: Seq<char>,
    replies: Seq<ReplyView>,
    at: int,
) -> StepView<()> {
    match done_step(replies, at, ActionView::CreateDirectory(path), "failed to create "@ + path) {
        StepView::Perform(a) => StepView::Perform(a),
        StepView::Failed(f) => StepView::Failed(f),
        StepView::Finished(_, n) => if style == PathStyle::Posix {
            done_step(replies, n, ActionView::SecureDirectory(path), "failed to secure "@ + path)
        } else {
            StepView::Finished((), n)
        },
    }
}

/// Creates a directory that only the current user may enter, where the file
/// system knows of such a thing.
pub fn create_private_directory(
    style: PathStyle,
    path: &str,
    replies: &Vec<Reply>,
    at: usize,
) -> (step: Step<()>)
    ensures
        step.deep_view() == private_directory_step(
            style,
            path@,
            replies.deep_view(),
            at as int,
        ),
{
    let creating = join2("failed to create ", path);
    match done(replies, at, Action::CreateDirectory(path.to_owned()), creating.as_str()) {
        Step::Perform(a) => Step::Perform(a),
        Step::Failed(f) => Step::Failed(f),
        Step::Finished(_, n) => if style == PathStyle::Posix {
            let securing = join2("failed to secure ", path);
            done(replies, n, Action::SecureDirectory(path.to_owned()), securing.as_str())
        } else {
            Step::Finished((), n)
        },
    }
}

/// Tells the user something.
pub open spec fn tell_step(text: Seq<char>, replies: Seq<ReplyView>, at: int) -> StepView<()> {
    if at >= replies.len() {
        StepView::Perform(ActionView::Tell(text))
    } else {
        StepView::Finished((), at + 1)
    }
}

/// Tells the user something.
pub fn tell(text: String, replies: &Vec<Reply>, at: usize) -> (step: Step<()>)
    ensures
        step.deep_view() == tell_step(text@, replies.deep_view(), at as int),
{
    if at >= replies.len() {
        Step::Perform(Action::Tell(text))
    } else {
        Step::Finished((), at + 1)
    }
}

/// Tells the user that something failed.
pub open spec fn report_step(
    text: Seq<char>,
    failure: FailureView,
    replies: Seq<ReplyView>,
    at: int,
) -> StepView<()> {
    if at >= replies.len() {
        StepView::Perform(ActionView::Report(text, failure))
    } else {
        StepView::Finished((), at + 1)
    }
}

/// Tells the user that something failed.
pub fn report(text: String, failure: Failure, replies: &Vec<Reply>, at: usize) -> (step: Step<()>)
    ensures
        step.deep_view() == report_step(text@, failure.deep_view(), replies.deep_view(), at as int),
{
    if at >= replies.len() {
        Step::Perform(Action::Report(text, failure))
    } else {
        Step::Finished((), at + 1)
    }
}

/// The answers to as many questions.
pub open spec fn flags_step(
    replies: Seq<ReplyView>,
    at: int,
    action: ActionView,
    count: int,
    context: Seq<char>,
) -> StepView<Seq<bool>> {
    match reply_step(replies, at, action, context) {
        StepView::Perform(a) => StepView::Perform(a),
        StepView::Failed(f) => StepView::Failed(f),
        StepView::Finished(ReplyView::Flags(flags), n) => if flags.len() == count {
            StepView::Finished(flags, n)
        } else {
            StepView::Failed(FailureView::UnexpectedReply)
        },
        StepView::Finished(_, _) => StepView::Failed(FailureView::UnexpectedReply),
    }
}

/// The answers to as many questions.
pub fn flags<'a>(
    replies: &'a Vec<Reply>,
    at: usize,
    action: Action,
    count: usize,
    context: &str,
) -> (step: Step<&'a Vec<bool>>)
    ensures
        step.deep_view() == flags_step(
            replies.deep_view(),
            at as int,
            action.deep_view(),
            count as int,
            context@,
        ),
{
    match reply_to(replies, at, action, context) {
        Step::Perform(a) => Step::Perform(a),
        Step::Failed(f) => Step::Failed(f),
        Step::Finished(Reply::Flags(flags), n) => if flags.len() == count {
            assert(flags.deep_view() =~= flags@);
            Step::Finished(flags, n)
        } else {
            Step::Failed(Failure::UnexpectedReply)
        },
        Step::Finished(_, _) => Step::Failed(Failure::UnexpectedReply),
    }
}

/// The answer to one question.
pub open spec fn flag_step(
    replies: Seq<ReplyView>,
    at: int,
    action: ActionView,
    context: Seq<char>,
) -> StepView<bool> {
    match flags_step(replies, at, action, 1, context) {
        StepView::Perform(a) => StepView::Perform(a),
        StepView::Failed(f) => StepView::Failed(f),
        StepView::Finished(flags, n) => StepView::Finished(flags[0], n),
    }
}

/// The answer to one question.
pub fn flag(replies: &Vec<Reply>, at: usize, action: Action, context: &str) -> (step: Step<bool>)
    ensures
        step.deep_view() == flag_step(
            replies.deep_view(),
            at as int,
            action.deep_view(),
            context@,
        ),
{
    match flags(replies, at, action, 1, context) {
        Step::Perform(a) => Step::Perform(a),
        Step::Failed(f) => Step::Failed(f),
        Step::Finished(answers, n) => {
            assert(answers.deep_view() =~= answers@);
            Step::Finished(answers[0], n)
        },
    }
}

/// A path, or none, for each of as many questions.
pub open spec fn paths_step(
    replies: Seq<ReplyView>,
    at: int,
    action: ActionView,
    count: int,
    context: Seq<char>,
) -> StepView<Seq<Option<Seq<char>>>> {
    match reply_step(replies, at, action, context) {
        StepView::Perform(a) => StepView::Perform(a),
        StepView::Failed(f) => StepView::Failed(f),
        StepView::Finished(ReplyView::Paths(paths), n) => if paths.len() == count {
            StepView::Finished(paths, n)
        } else {
            StepView::Failed(FailureView::UnexpectedReply)
        },
        StepView::Finished(_, _) => StepView::Failed(FailureView::UnexpectedReply),
    }
}

/// A path, or none, for each of as many questions.
pub fn paths<'a>(
    replies: &'a Vec<Reply>,
    at: usize,
    action: Action,
    count: usize,
    context: &str,
) -> (step: Step<&'a Vec<Option<String>>>)
    ensures
        step.deep_view() == paths_step(
            replies.deep_view(),
            at as int,
            action.deep_view(),
            count as int,
            context@,
        ),
{
    match reply_to(replies, at, action, context) {
        Step::Perform(a) => Step::Perform(a),
        Step::Failed(f) => Step::Failed(f),
        Step::Finished(Reply::Paths(paths), n) => if paths.len() == count {
            Step::Finished(paths, n)
        } else {
            Step::Failed(Failure::UnexpectedReply)
        },
        Step::Finished(_, _) => Step::Failed(Failure::UnexpectedReply),
    }
}

/// A path, or none.
pub open spec fn path_step(
    replies: Seq<ReplyView>,
    at: int,
    action: ActionView,
    context: Seq<char>,
) -> StepView<Option<Seq<char>>> {
    match paths_step(replies, at, action, 1, context) {
        StepView::Perform(a) => StepView::Perform(a),
        StepView::Failed(f) => StepView::Failed(f),
        StepView::Finished(paths, n) => StepView::Finished(paths[0], n),
    }
}

/// A path, or none.
pub fn path(replies: &Vec<Reply>, at: usize, action: Action, context: &str) -> (step: Step<
    Option<String>,
>)
    ensures
        step.deep_view() == path_step(
            replies.deep_view(),
            at as int,
            action.deep_view(),
            context@,
        ),
{
    match paths(replies, at, action, 1, context) {
        Step::Perform(a) => Step::Perform(a),
        Step::Failed(f) => Step::Failed(f),
        Step::Finished(found, n) => {
            assert(found.deep_view()[0] == found@[0].deep_view());
            match &found[0] {
                Some(p) => Step::Finished(Some(p.clone()), n),
                None => Step::Finished(None, n),
            }
        },
    }
}

/// What a program did.
pub open spec fn run_step(
    replies: Seq<ReplyView>,
    at: int,
    command: InvocationView,
    context: Seq<char>,
) -> StepView<OutputView> {
    match reply_step(replies, at, ActionView::Run(command), context) {
        StepView::Perform(a) => StepView::Perform(a),
        StepView::Failed(f) => StepView::Failed(f),
        StepView::Finished(ReplyView::Output(output), n) => StepView::Finished(output, n),
        StepView::Finished(_, _) => StepView::Failed(FailureView::UnexpectedReply),
    }
}

/// What a program did.
pub fn run<'a>(
    replies: &'a Vec<Reply>,
    at: usize,
    command: Invocation,
    context: &str,
) -> (step: Step<&'a CommandOutput>)
    ensures
        step.deep_view() == run_step(
            replies.deep_view(),
            at as int,
            command.deep_view(),
            context@,
        ),
{
    match reply_to(replies, at, Action::Run(command), context) {
        Step::Perform(a) => Step::Perform(a),
        Step::Failed(f) => Step::Failed(f),
        Step::Finished(Reply::Output(output), n) => Step::Finished(output, n),
        Step::Finished(_, _) => Step::Failed(Failure::UnexpectedReply),
    }
}

impl OutputView {
    /// Whether the program says that it did what it was asked to do.
    pub open spec fn success(self) -> bool {
        self.code == Some(0i32)
    }

    /// What it says otherwise.
    pub open spec fn failure(self, operation: Seq<char>) -> FailureView {
        FailureView::CommandFailed {
            operation,
            code: self.code,
            message: trimmed(lossy_text(self.stderr)),
        }
    }
}

impl CommandOutput {
    /// Whether the program says that it did what it was asked to do.
    pub fn succeeded(&self) -> (yes: bool)
        ensures
            yes == self.deep_view().success(),
    {
        match self.code {
            Some(code) => code == 0,
            None => false,
        }
    }

    /// What it says otherwise.
    pub fn failure(&self, operation: &str) -> (failure: Failure)
        ensures
            failure.deep_view() == self.deep_view().failure(operation@),
    {
        let stderr = text_lossy(&self.stderr);
        Failure::CommandFailed {
            operation: operation.to_owned(),
            code: self.code,
            message: trim(stderr.as_str()),
        }
    }
}

/// Fails unless the program succeeded.
pub fn ensure_success(output: &CommandOutput, operation: &str) -> (r: Result<(), Failure>)
    ensures
        r is Ok <==> output.deep_view().success(),
        r matches Err(f) ==> f.deep_view() == output.deep_view().failure(operation@),
{
    if output.succeeded() {
        Ok(())
    } else {
        Err(output.failure(operation))
    }
}

/// What a program did that has to succeed.
pub open spec fn succeed_step(
    replies: Seq<ReplyView>,
    at: int,
    command: InvocationView,
    context: Seq<char>,
    operation: Seq<char>,
) -> StepView<OutputView> {
    match run_step(replies, at, command, context) {
        StepView::Finished(output, _) => if output.success() {
            run_step(replies, at, command, context)
        } else {
            StepView::Failed(output.failure(operation))
        },
        step => step,
    }
}

/// What a program did that has to succeed.
pub fn succeed<'a>(
    replies: &'a Vec<Reply>,
    at: usize,
    command: Invocation,
    context: &str,
    operation: &str,
) -> (step: Step<&'a CommandOutput>)
    ensures
        step.deep_view() == succeed_step(
            replies.deep_view(),
            at as int,
            command.deep_view(),
            context@,
            operation@,
        ),
{
    match run(replies, at, command, context) {
        Step::Perform(a) => Step::Perform(a),
        Step::Failed(f) => Step::Failed(f),
        Step::Finished(output, n) => match ensure_success(output, operation) {
            Ok(_) => Step::Finished(output, n),
            Err(f) => Step::Failed(f),
        },
    }
}

/// The text that a program wrote, without the white space around it; nothing
/// where it is no text.
pub open spec fn text_of_output(output: OutputView) -> Option<Seq<char>> {
    if valid_utf8(output.stdout) {
        Some(trimmed(decode_utf8(output.stdout)))
    } else {
        None
    }
}

/// What is said of what a program wrote where it is no text.
pub open spec fn not_text(output: OutputView) -> FailureView {
    FailureView::NotUtf8 {
        context: "Git returned non-UTF-8 output"@,
        cause: utf8_problem(output.stdout),
    }
}

/// The text that a program wrote, without the white space around it.
pub fn output_text(output: &CommandOutput) -> (r: Result<String, Failure>)
    ensures
        r is Ok <==> text_of_output(output.deep_view()) is Some,
        r matches Ok(s) ==> text_of_output(output.deep_view()) == Some(s@),
        r matches Err(f) ==> f.deep_view() == not_text(output.deep_view()),
{
    match text_strict(&output.stdout) {
        Ok(s) => Ok(trim(s.as_str())),
        Err(cause) => Err(
            Failure::NotUtf8 { context: "Git returned non-UTF-8 output".to_owned(), cause },
        ),
    }
}

/// The text that a program wrote that has to succeed.
pub open spec fn text_step(
    replies: Seq<ReplyView>,
    at: int,
    command: InvocationView,
    context: Seq<char>,
    operation: Seq<char>,
) -> StepView<Seq<char>> {
    match succeed_step(replies, at, command, context, operation) {
        StepView::Perform(a) => StepView::Perform(a),
        StepView::Failed(f) => StepView::Failed(f),
        StepView::Finished(output, n) => match text_of_output(output) {
            Some(text) => StepView::Finished(text, n),
            None => StepView::Failed(not_text(output)),
        },
    }
}

/// The text that a program wrote that has to succeed.
pub fn run_for_text(
    replies: &Vec<Reply>,
    at: usize,
    command: Invocation,
    context: &str,
    operation: &str,
) -> (step: Step<String>)
    ensures
        step.deep_view() == text_step(
            replies.deep_view(),
            at as int,
            command.deep_view(),
            context@,
            operation@,
        ),
{
    match succeed(replies, at, command, context, operation) {
        Step::Perform(a) => Step::Perform(a),
        Step::Failed(f) => Step::Failed(f),
        Step::Finished(output, n) => match output_text(output) {
            Ok(text) => Step::Finished(text, n),
            Err(f) => Step::Failed(f),
        },
    }
}

} // verus!
