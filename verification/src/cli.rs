//! What the commands of the program do, and what they say.

use crate::capture::capture_full_step;
use crate::config::{load_step, write_default_step, RuntimeConfig, RuntimeView};
use crate::discovery::{discover, discover_step, exclusions_allow, git_root, git_root_step};
use crate::git_store::ProjectStore;
use crate::history::{list_step, show_step, Snapshot, SnapshotView};
use crate::json::{json_texts, text_array};
use crate::numbers::{decimal, decimal_text, signed_decimal, signed_text};
use crate::opening::{for_file_step, open_step};
use crate::outside::{text_of_json, write_json};
use crate::platform::{display_path_from, shown, Environment, EnvironmentView};
use crate::procedure::{Failure, FailureView, Reply, ReplyView, Step, StepView};
use crate::reconcile::{capture_trigger, capture_trigger_step, TriggerEvent, TriggerEventView};
use crate::registering::{short_hash, short_of};
use crate::text::{join2, join3};
use crate::native::{all_readable, is_text, readable, readable_text, readable_texts};
use vstd::prelude::*;

verus! {

/// What `init` does: it writes the default configuration, and says where.
pub open spec fn init_step(
    environment: EnvironmentView,
    chosen: Option<Seq<char>>,
    force: bool,
    replies: Seq<ReplyView>,
    at: int,
) -> StepView<Seq<char>> {
    match write_default_step(environment, chosen, force, replies, at) {
        StepView::Perform(a) => StepView::Perform(a),
        StepView::Failed(f) => StepView::Failed(f),
        StepView::Finished(path, n) => StepView::Finished(
            "created "@ + shown(environment.style, path, environment.home),
            n,
        ),
    }
}

/// What `init` does.
pub fn run_init(
    environment: &Environment,
    chosen: Option<&str>,
    force: bool,
    replies: &Vec<Reply>,
    at: usize,
) -> (step: Step<String>)
    ensures
        step.deep_view() == init_step(
            environment.deep_view(),
            chosen.deep_view(),
            force,
            replies.deep_view(),
            at as int,
        ),
{
    match RuntimeConfig::write_default(environment, chosen, force, replies, at) {
        Step::Perform(a) => Step::Perform(a),
        Step::Failed(f) => Step::Failed(f),
        Step::Finished(path, n) => {
            let place = display_path_from(environment.style, path.as_str(), &environment.home);
            Step::Finished(join2("created ", place.as_str()), n)
        },
    }
}

/// What `discover` does, given what the exclusions come to.
pub open spec fn discover_command_step(
    environment: EnvironmentView,
    chosen: Option<Seq<char>>,
    refusal: Option<Seq<char>>,
    excluded: Seq<bool>,
    replies: Seq<ReplyView>,
    at: int,
) -> StepView<Seq<Seq<char>>> {
    match load_step(environment, chosen, replies, at) {
        StepView::Perform(a) => StepView::Perform(a),
        StepView::Failed(f) => StepView::Failed(f),
        StepView::Finished(config, n) => discover_step(config, refusal, excluded, replies, n),
    }
}

/// Whether `refusal` and `excluded` are what the exclusions can come to for `discover`.
pub open spec fn discover_command_allows(
    environment: EnvironmentView,
    chosen: Option<Seq<char>>,
    refusal: Option<Seq<char>>,
    excluded: Seq<bool>,
    replies: Seq<ReplyView>,
    at: int,
) -> bool {
    match load_step(environment, chosen, replies, at) {
        StepView::Finished(config, n) => exclusions_allow(config, refusal, excluded, replies, n),
        _ => true,
    }
}

/// What `discover` does: it finds the worktrees to watch.
pub fn run_discover(
    environment: &Environment,
    chosen: Option<&str>,
    replies: &Vec<Reply>,
    at: usize,
) -> (step: Step<Vec<String>>)
    ensures
        exists|refusal: Option<Seq<char>>, excluded: Seq<bool>| #[trigger]
            discover_command_allows(
                environment.deep_view(),
                chosen.deep_view(),
                refusal,
                excluded,
                replies.deep_view(),
                at as int,
            ) && step.deep_view() == discover_command_step(
                environment.deep_view(),
                chosen.deep_view(),
                refusal,
                excluded,
                replies.deep_view(),
                at as int,
            ),
{
    let ghost view = environment.deep_view();
    let ghost place = chosen.deep_view();
    let ghost given = replies.deep_view();
    let ghost none = Seq::<bool>::empty();
    match RuntimeConfig::load(environment, chosen, replies, at) {
        Step::Perform(a) => {
            assert(discover_command_allows(view, place, None, none, given, at as int));
            Step::Perform(a)
        },
        Step::Failed(f) => {
            assert(discover_command_allows(view, place, None, none, given, at as int));
            Step::Failed(f)
        },
        Step::Finished(config, n) => {
            let found = discover(&config, replies, n);
            let ghost (refusal, excluded) = choose|refusal: Option<Seq<char>>, excluded: Seq<bool>| #[trigger]
                exclusions_allow(config.deep_view(), refusal, excluded, given, n as int)
                    && found.deep_view() == discover_step(
                    config.deep_view(),
                    refusal,
                    excluded,
                    given,
                    n as int,
                );
            assert(discover_command_allows(view, place, refusal, excluded, given, at as int));
            found
        },
    }
}

/// What `discover` says of the worktrees to watch.
pub open spec fn project_lines(projects: Seq<Seq<char>>) -> Seq<Seq<char>> {
    if projects.len() == 0 {
        seq!["no repositories configured or discovered"@]
    } else {
        all_readable(projects)
    }
}

/// What `discover` says of the worktrees to watch.
pub fn discover_lines(projects: &Vec<String>) -> (lines: Vec<String>)
    ensures
        lines.deep_view() == project_lines(projects.deep_view()),
{
    if projects.len() == 0 {
        let lines = vec!["no repositories configured or discovered".to_owned()];
        assert(lines.deep_view() =~= project_lines(projects.deep_view()));
        return lines;
    }
    readable_texts(projects)
}

/// What `discover` says to a program, which can be told only of paths that are text.
pub fn discover_json(projects: &Vec<String>) -> (r: Result<Vec<u8>, Failure>)
    ensures
        r is Ok <==> forall|i: int|
            0 <= i < projects@.len() ==> !(#[trigger] projects@[i])@.contains('\0'),
        r matches Ok(text) ==> text@ == text_of_json(text_array(projects.deep_view())),
        r matches Err(f) ==> f.deep_view() == FailureView::NotText(
            "path contains invalid UTF-8 characters"@,
        ),
{
    let mut i: usize = 0;
    while i < projects.len()
        invariant
            i <= projects@.len(),
            forall|j: int| 0 <= j < i ==> !(#[trigger] projects@[j])@.contains('\0'),
        decreases projects@.len() - i,
    {
        if !is_text(projects[i].as_str()) {
            return Err(Failure::NotText("path contains invalid UTF-8 characters".to_owned()));
        }
        i = i + 1;
    }
    Ok(write_json(&json_texts(projects)))
}

/// What is said of a snapshot that was asked for.
pub open spec fn capture_line(outcome: Option<Seq<char>>) -> Seq<char> {
    match outcome {
        Some(commit) => short_of(commit),
        None => "unchanged"@,
    }
}

/// What `capture` does: a snapshot of the whole worktree that a path lies in.
pub open spec fn capture_command_step(
    environment: EnvironmentView,
    chosen: Option<Seq<char>>,
    project: Seq<char>,
    replies: Seq<ReplyView>,
    at: int,
) -> StepView<Seq<char>> {
    match load_step(environment, chosen, replies, at) {
        StepView::Perform(a) => StepView::Perform(a),
        StepView::Failed(f) => StepView::Failed(f),
        StepView::Finished(config, n) => match git_root_step(config.style, project, replies, n) {
            StepView::Perform(a) => StepView::Perform(a),
            StepView::Failed(f) => StepView::Failed(f),
            StepView::Finished(root, n) => match open_step(config, root, replies, n) {
                StepView::Perform(a) => StepView::Perform(a),
                StepView::Failed(f) => StepView::Failed(f),
                StepView::Finished(store, n) => match capture_full_step(
                    store,
                    "manual"@,
                    replies,
                    n,
                ) {
                    StepView::Perform(a) => StepView::Perform(a),
                    StepView::Failed(f) => StepView::Failed(f),
                    StepView::Finished(outcome, n) => StepView::Finished(capture_line(outcome), n),
                },
            },
        },
    }
}

/// What `capture` does.
pub fn run_capture(
    environment: &Environment,
    chosen: Option<&str>,
    project: &str,
    replies: &Vec<Reply>,
    at: usize,
) -> (step: Step<String>)
    ensures
        step.deep_view() == capture_command_step(
            environment.deep_view(),
            chosen.deep_view(),
            project@,
            replies.deep_view(),
            at as int,
        ),
{
    match RuntimeConfig::load(environment, chosen, replies, at) {
        Step::Perform(a) => Step::Perform(a),
        Step::Failed(f) => Step::Failed(f),
        Step::Finished(config, n) => match git_root(config.style, project, replies, n) {
            Step::Perform(a) => Step::Perform(a),
            Step::Failed(f) => Step::Failed(f),
            Step::Finished(root, n) => match ProjectStore::open(
                &config,
                root.as_str(),
                replies,
                n,
            ) {
                Step::Perform(a) => Step::Perform(a),
                Step::Failed(f) => Step::Failed(f),
                Step::Finished(store, n) => match store.capture_full("manual", replies, n) {
                    Step::Perform(a) => Step::Perform(a),
                    Step::Failed(f) => Step::Failed(f),
                    Step::Finished(Some(commit), n) => Step::Finished(
                        short_hash(commit.as_str()),
                        n,
                    ),
                    Step::Finished(None, n) => Step::Finished("unchanged".to_owned(), n),
                },
            },
        },
    }
}

/// What `list` does: it finds the snapshots that changed a file.
pub open spec fn list_command_step(
    environment: EnvironmentView,
    chosen: Option<Seq<char>>,
    file: Seq<char>,
    limit: nat,
    replies: Seq<ReplyView>,
    at: int,
) -> StepView<Seq<SnapshotView>> {
    match load_step(environment, chosen, replies, at) {
        StepView::Perform(a) => StepView::Perform(a),
        StepView::Failed(f) => StepView::Failed(f),
        StepView::Finished(config, n) => match for_file_step(config, file, replies, n) {
            StepView::Perform(a) => StepView::Perform(a),
            StepView::Failed(f) => StepView::Failed(f),
            StepView::Finished(None, n) => StepView::Finished(Seq::empty(), n),
            StepView::Finished(Some((store, relative)), n) => list_step(
                store,
                relative,
                limit,
                replies,
                n,
            ),
        },
    }
}

/// What `list` does.
pub fn run_list(
    environment: &Environment,
    chosen: Option<&str>,
    file: &str,
    limit: usize,
    replies: &Vec<Reply>,
    at: usize,
) -> (step: Step<Vec<Snapshot>>)
    ensures
        step.deep_view() == list_command_step(
            environment.deep_view(),
            chosen.deep_view(),
            file@,
            limit as nat,
            replies.deep_view(),
            at as int,
        ),
{
    match RuntimeConfig::load(environment, chosen, replies, at) {
        Step::Perform(a) => Step::Perform(a),
        Step::Failed(f) => Step::Failed(f),
        Step::Finished(config, n) => match ProjectStore::for_file(&config, file, replies, n) {
            Step::Perform(a) => Step::Perform(a),
            Step::Failed(f) => Step::Failed(f),
            Step::Finished(None, n) => {
                let none: Vec<Snapshot> = Vec::new();
                assert(none.deep_view() =~= Seq::empty());
                Step::Finished(none, n)
            },
            Step::Finished(Some((store, relative)), n) => store.list_file(
                relative.as_str(),
                limit,
                replies,
                n,
            ),
        },
    }
}

/// A snapshot in a line: commit, time and subject between tabs.
pub open spec fn line_of(snapshot: SnapshotView) -> Seq<char> {
    snapshot.commit + "\t"@ + signed_decimal(snapshot.timestamp as int) + "\t"@ + snapshot.summary
}

impl Snapshot {
    /// The snapshot in a line.
    pub fn line(&self) -> (line: String)
        ensures
            line@ == line_of(self.deep_view()),
    {
        let mut line = join3(
            self.commit.as_str(),
            "\t",
            signed_text(self.timestamp).as_str(),
        );
        line.append("\t");
        line.append(self.summary.as_str());
        line
    }
}

/// What `show` does: it finds what a file held in a snapshot.
pub open spec fn show_command_step(
    environment: EnvironmentView,
    chosen: Option<Seq<char>>,
    file: Seq<char>,
    revision: Seq<char>,
    replies: Seq<ReplyView>,
    at: int,
) -> StepView<Option<Seq<u8>>> {
    match load_step(environment, chosen, replies, at) {
        StepView::Perform(a) => StepView::Perform(a),
        StepView::Failed(f) => StepView::Failed(f),
        StepView::Finished(config, n) => match for_file_step(config, file, replies, n) {
            StepView::Perform(a) => StepView::Perform(a),
            StepView::Failed(f) => StepView::Failed(f),
            StepView::Finished(None, n) => StepView::Finished(None, n),
            StepView::Finished(Some((store, relative)), n) => show_step(
                store,
                relative,
                revision,
                replies,
                n,
            ),
        },
    }
}

/// What `show` does.
pub fn run_show(
    environment: &Environment,
    chosen: Option<&str>,
    file: &str,
    revision: &str,
    replies: &Vec<Reply>,
    at: usize,
) -> (step: Step<Option<Vec<u8>>>)
    ensures
        step.deep_view() == show_command_step(
            environment.deep_view(),
            chosen.deep_view(),
            file@,
            revision@,
            replies.deep_view(),
            at as int,
        ),
{
    match RuntimeConfig::load(environment, chosen, replies, at) {
        Step::Perform(a) => Step::Perform(a),
        Step::Failed(f) => Step::Failed(f),
        Step::Finished(config, n) => match ProjectStore::for_file(&config, file, replies, n) {
            Step::Perform(a) => Step::Perform(a),
            Step::Failed(f) => Step::Failed(f),
            Step::Finished(None, n) => Step::Finished(None, n),
            Step::Finished(Some((store, relative)), n) => store.show_file(
                relative.as_str(),
                revision,
                replies,
                n,
            ),
        },
    }
}

/// What `paths` says.
pub open spec fn path_lines(config: RuntimeView) -> Seq<Seq<char>> {
    seq![
        "config: "@ + shown(config.style, config.config_path, config.home),
        "data:   "@ + shown(config.style, config.store_dir, config.home),
        "state:  "@ + shown(config.style, config.state_dir, config.home),
    ]
}

/// What `paths` says.
pub fn paths_lines(config: &RuntimeConfig) -> (lines: Vec<String>)
    ensures
        lines.deep_view() == path_lines(config.deep_view()),
{
    let file = display_path_from(config.style, config.config_path.as_str(), &config.home);
    let data = display_path_from(config.style, config.store_dir.as_str(), &config.home);
    let state = display_path_from(config.style, config.state_dir.as_str(), &config.home);
    let lines = vec![
        join2("config: ", file.as_str()),
        join2("data:   ", data.as_str()),
        join2("state:  ", state.as_str()),
    ];
    assert(lines.deep_view() =~= path_lines(config.deep_view()));
    lines
}

/// What is said of a snapshot that a trigger took; nothing where nothing changed.
pub open spec fn trigger_line(project: Seq<char>, outcome: Option<Seq<char>>) -> Option<Seq<char>> {
    match outcome {
        Some(commit) => Some("captured "@ + readable(project) + " at "@ + short_of(commit)),
        None => None,
    }
}

/// What `capture-trigger` does.
pub open spec fn trigger_command_step(
    environment: EnvironmentView,
    chosen: Option<Seq<char>>,
    project: Seq<char>,
    event: TriggerEventView,
    replies: Seq<ReplyView>,
    at: int,
) -> StepView<Option<Seq<char>>> {
    match load_step(environment, chosen, replies, at) {
        StepView::Perform(a) => StepView::Perform(a),
        StepView::Failed(f) => StepView::Failed(f),
        StepView::Finished(config, n) => match capture_trigger_step(
            config,
            project,
            event,
            replies,
            n,
        ) {
            StepView::Perform(a) => StepView::Perform(a),
            StepView::Failed(f) => StepView::Failed(f),
            StepView::Finished(outcome, n) => StepView::Finished(
                trigger_line(project, outcome),
                n,
            ),
        },
    }
}

/// What `capture-trigger` does.
pub fn run_capture_trigger(
    environment: &Environment,
    chosen: Option<&str>,
    project: &str,
    event: &TriggerEvent,
    replies: &Vec<Reply>,
    at: usize,
) -> (step: Step<Option<String>>)
    ensures
        step.deep_view() == trigger_command_step(
            environment.deep_view(),
            chosen.deep_view(),
            project@,
            event.deep_view(),
            replies.deep_view(),
            at as int,
        ),
{
    match RuntimeConfig::load(environment, chosen, replies, at) {
        Step::Perform(a) => Step::Perform(a),
        Step::Failed(f) => Step::Failed(f),
        Step::Finished(config, n) => match capture_trigger(&config, project, event, replies, n) {
            Step::Perform(a) => Step::Perform(a),
            Step::Failed(f) => Step::Failed(f),
            Step::Finished(None, n) => Step::Finished(None, n),
            Step::Finished(Some(commit), n) => {
                let mut line = join3("captured ", readable_text(project).as_str(), " at ");
                line.append(short_hash(commit.as_str()).as_str());
                Step::Finished(Some(line), n)
            },
        },
    }
}

/// What the daemon does next.
#[derive(Debug, PartialEq, Eq)]
pub enum DaemonNext {
    /// End, with this to say.
    Stop(String),
    /// End, and say why.
    Fail(Failure),
    /// Say why it failed, if it did, and begin again after so many seconds.
    Wait(Option<Failure>, u64),
}

/// What a [`DaemonNext`] says.
pub enum DaemonNextView {
    Stop(Seq<char>),
    Fail(FailureView),
    Wait(Option<FailureView>, u64),
}

impl DeepView for DaemonNext {
    type V = DaemonNextView;

    open spec fn deep_view(&self) -> DaemonNextView {
        match self {
            DaemonNext::Stop(line) => DaemonNextView::Stop(line@),
            DaemonNext::Fail(failure) => DaemonNextView::Fail(failure.deep_view()),
            DaemonNext::Wait(failure, seconds) => DaemonNextView::Wait(
                match failure {
                    Some(f) => Some(f.deep_view()),
                    None => None,
                },
                *seconds,
            ),
        }
    }
}

/// What the daemon does after a reconciliation. With `once` it ends; without,
/// not even a failure ends it.
pub open spec fn next_of(
    once: bool,
    outcome: Result<usize, FailureView>,
    interval: u64,
) -> DaemonNextView {
    match outcome {
        Ok(count) => if once {
            DaemonNextView::Stop("watching "@ + decimal(count as nat) + " repositories"@)
        } else {
            DaemonNextView::Wait(None, interval)
        },
        Err(failure) => if once {
            DaemonNextView::Fail(failure)
        } else {
            DaemonNextView::Wait(Some(failure), interval)
        },
    }
}

/// What the daemon does after a reconciliation.
pub fn daemon_next(once: bool, outcome: Result<usize, Failure>, interval: u64) -> (next: DaemonNext)
    ensures
        next.deep_view() == next_of(
            once,
            match outcome {
                Ok(count) => Ok(count),
                Err(f) => Err(f.deep_view()),
            },
            interval,
        ),
{
    match outcome {
        Ok(count) => {
            if once {
                let number = decimal_text(count as u64);
                DaemonNext::Stop(join3("watching ", number.as_str(), " repositories"))
            } else {
                DaemonNext::Wait(None, interval)
            }
        },
        Err(failure) => {
            if once {
                DaemonNext::Fail(failure)
            } else {
                DaemonNext::Wait(Some(failure), interval)
            }
        },
    }
}

} // verus!
