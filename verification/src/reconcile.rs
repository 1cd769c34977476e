//! Keeping Watchman's triggers in step with the configuration, and what a
//! trigger does when Watchman runs it.

use crate::capture::{capture_full_step, capture_paths_step};
use crate::commit::has_history_step;
use crate::config::{RuntimeConfig, RuntimeView};
use crate::discovery::{discover, discover_step, exclusions_allow};
use crate::git_store::{ProjectStore, StoreView};
use crate::opening::open_step;
use crate::path_set::{holds_path, one_path};
use crate::paths::{join, joined, same_path, PathStyle};
use crate::procedure::{
    copy_failure, create_private_directory, done, done_step, flag, flag_step,
    private_directory_step, reply_step, reply_to, report, report_step, run, run_step, Action,
    ActionView, Attempt, AttemptView, Failure, FailureView, Invocation, InvocationView, Reply,
    ReplyView, Step, StepView,
};
use crate::text::{chars_of, join2, same_text};
use crate::watchman::{
    registry_file, registry_path, try_delete_step, try_delete_trigger, Registration,
    RegistrationView, WatchmanFile, WatchmanFileView,
};
use vstd::prelude::*;

verus! {

/// A program with an argument.
pub open spec fn version_command(program: Seq<char>, argument: Seq<char>) -> InvocationView {
    InvocationView {
        program,
        arguments: seq![argument],
        environment: Seq::empty(),
        input: None,
    }
}

/// Makes sure that a program can be run.
pub open spec fn verify_step(
    program: Seq<char>,
    argument: Seq<char>,
    replies: Seq<ReplyView>,
    at: int,
) -> StepView<()> {
    match run_step(
        replies,
        at,
        version_command(program, argument),
        program + " is required but could not be started"@,
    ) {
        StepView::Perform(a) => StepView::Perform(a),
        StepView::Failed(f) => StepView::Failed(f),
        StepView::Finished(output, n) => if output.success() {
            StepView::Finished((), n)
        } else {
            StepView::Failed(FailureView::Required { command: program, code: output.code })
        },
    }
}

/// Makes sure that Git and Watchman can be run.
pub open spec fn dependencies_step(replies: Seq<ReplyView>, at: int) -> StepView<()> {
    match verify_step("git"@, "--version"@, replies, at) {
        StepView::Perform(a) => StepView::Perform(a),
        StepView::Failed(f) => StepView::Failed(f),
        StepView::Finished(_, n) => verify_step("watchman"@, "version"@, replies, n),
    }
}

fn verify_command(program: &str, argument: &str, replies: &Vec<Reply>, at: usize) -> (step: Step<()>)
    ensures
        step.deep_view() == verify_step(program@, argument@, replies.deep_view(), at as int),
{
    let context = join2(program, " is required but could not be started");
    let command = Invocation {
        program: program.to_owned(),
        arguments: vec![argument.to_owned()],
        environment: Vec::new(),
        input: None,
    };
    assert(command.arguments.deep_view() =~= seq![argument@]);
    assert(command.environment.deep_view() =~= Seq::empty());
    match run(replies, at, command, context.as_str()) {
        Step::Perform(a) => Step::Perform(a),
        Step::Failed(f) => Step::Failed(f),
        Step::Finished(output, n) => {
            if output.succeeded() {
                Step::Finished((), n)
            } else {
                Step::Failed(Failure::Required { command: program.to_owned(), code: output.code })
            }
        },
    }
}

/// Makes sure that Git and Watchman can be run.
pub fn verify_dependencies(replies: &Vec<Reply>, at: usize) -> (step: Step<()>)
    ensures
        step.deep_view() == dependencies_step(replies.deep_view(), at as int),
{
    match verify_command("git", "--version", replies, at) {
        Step::Perform(a) => Step::Perform(a),
        Step::Failed(f) => Step::Failed(f),
        Step::Finished(_, n) => verify_command("watchman", "version", replies, n),
    }
}

/// Makes sure that everything is there that the rest needs.
pub open spec fn prepare_step(config: RuntimeView, replies: Seq<ReplyView>, at: int) -> StepView<
    (),
> {
    match dependencies_step(replies, at) {
        StepView::Perform(a) => StepView::Perform(a),
        StepView::Failed(f) => StepView::Failed(f),
        StepView::Finished(_, n) => match private_directory_step(
            config.style,
            config.state_dir,
            replies,
            n,
        ) {
            StepView::Perform(a) => StepView::Perform(a),
            StepView::Failed(f) => StepView::Failed(f),
            StepView::Finished(_, n) => private_directory_step(
                config.style,
                joined(config.style, config.store_dir, "repos"@),
                replies,
                n,
            ),
        },
    }
}

/// The registrations of the last time; none where there was no last time.
pub open spec fn load_registry_step(
    config: RuntimeView,
    replies: Seq<ReplyView>,
    at: int,
) -> StepView<Seq<RegistrationView>> {
    let file = registry_file(config);
    match flag_step(replies, at, ActionView::Exists(file), "failed to read "@ + file) {
        StepView::Perform(a) => StepView::Perform(a),
        StepView::Failed(f) => StepView::Failed(f),
        StepView::Finished(false, n) => StepView::Finished(Seq::empty(), n),
        StepView::Finished(true, n) => match reply_step(
            replies,
            n,
            ActionView::ReadRegistry(file),
            "failed to read "@ + file,
        ) {
            StepView::Perform(a) => StepView::Perform(a),
            StepView::Failed(f) => StepView::Failed(f),
            StepView::Finished(ReplyView::Registry(list), n) => StepView::Finished(list, n),
            StepView::Finished(_, _) => StepView::Failed(FailureView::UnexpectedReply),
        },
    }
}

/// Those of the registrations whose project is not watched any more.
pub open spec fn stale(
    style: PathStyle,
    previous: Seq<RegistrationView>,
    projects: Seq<Seq<char>>,
) -> Seq<RegistrationView>
    decreases previous.len(),
{
    if previous.len() == 0 {
        Seq::empty()
    } else if holds_path(style, projects, previous.last().project) {
        stale(style, previous.drop_last(), projects)
    } else {
        stale(style, previous.drop_last(), projects).push(previous.last())
    }
}

/// Deletes the trigger of a registration. Where that fails, the user is told.
pub open spec fn retire_step(
    registration: RegistrationView,
    replies: Seq<ReplyView>,
    at: int,
) -> StepView<()> {
    match try_delete_step(registration.watch_root, registration.trigger_name, replies, at) {
        StepView::Perform(a) => StepView::Perform(a),
        StepView::Failed(f) => StepView::Failed(f),
        StepView::Finished(AttemptView::Success(_), n) => StepView::Finished((), n),
        StepView::Finished(AttemptView::Failure(f), n) => report_step(
            "failed to remove stale trigger "@ + registration.trigger_name,
            f,
            replies,
            n,
        ),
    }
}

/// Deletes the triggers of the registrations, one behind the other.
pub open spec fn retire_all_step(
    registrations: Seq<RegistrationView>,
    replies: Seq<ReplyView>,
    at: int,
) -> StepView<()>
    decreases registrations.len(),
{
    if registrations.len() == 0 {
        StepView::Finished((), at)
    } else {
        match retire_all_step(registrations.drop_last(), replies, at) {
            StepView::Perform(a) => StepView::Perform(a),
            StepView::Failed(f) => StepView::Failed(f),
            StepView::Finished(_, n) => retire_step(registrations.last(), replies, n),
        }
    }
}

/// Makes sure that the projects are watched, says which of them are, and
/// reports why the others are not.
pub open spec fn ensure_all_step(
    projects: Seq<Seq<char>>,
    replies: Seq<ReplyView>,
    at: int,
) -> StepView<Seq<RegistrationView>>
    decreases projects.len(),
{
    if projects.len() == 0 {
        StepView::Finished(Seq::empty(), at)
    } else {
        match ensure_all_step(projects.drop_last(), replies, at) {
            StepView::Perform(a) => StepView::Perform(a),
            StepView::Failed(f) => StepView::Failed(f),
            StepView::Finished(before, n) => match reply_step(
                replies,
                n,
                ActionView::EnsureProject(projects.last()),
                "failed to register "@ + projects.last(),
            ) {
                StepView::Perform(a) => StepView::Perform(a),
                StepView::Failed(f) => StepView::Failed(f),
                StepView::Finished(ReplyView::Registered(AttemptView::Success(registration)), n) =>
                    StepView::Finished(before.push(registration), n),
                StepView::Finished(ReplyView::Registered(AttemptView::Failure(why)), n) =>
                    match report_step(
                    "failed to register "@ + projects.last(),
                    why,
                    replies,
                    n,
                ) {
                    StepView::Perform(a) => StepView::Perform(a),
                    StepView::Failed(f) => StepView::Failed(f),
                    StepView::Finished(_, n) => StepView::Finished(before, n),
                },
                StepView::Finished(_, _) => StepView::Failed(FailureView::UnexpectedReply),
            },
        }
    }
}

/// Replaces the registry.
pub open spec fn save_registry_step(
    config: RuntimeView,
    registrations: Seq<RegistrationView>,
    replies: Seq<ReplyView>,
    at: int,
) -> StepView<()> {
    let file = registry_file(config);
    let temporary = file + ".tmp"@;
    match done_step(
        replies,
        at,
        ActionView::WriteRegistry(temporary, registrations),
        "failed to write "@ + temporary,
    ) {
        StepView::Perform(a) => StepView::Perform(a),
        StepView::Failed(f) => StepView::Failed(f),
        StepView::Finished(_, n) => done_step(
            replies,
            n,
            ActionView::Replace(temporary, file),
            "failed to replace "@ + file,
        ),
    }
}

/// Brings the triggers in step with the worktrees to watch.
pub open spec fn align_step(
    config: RuntimeView,
    projects: Seq<Seq<char>>,
    replies: Seq<ReplyView>,
    at: int,
) -> StepView<()> {
    match load_registry_step(config, replies, at) {
        StepView::Perform(a) => StepView::Perform(a),
        StepView::Failed(f) => StepView::Failed(f),
        StepView::Finished(previous, n) => match retire_all_step(
            stale(config.style, previous, projects),
            replies,
            n,
        ) {
            StepView::Perform(a) => StepView::Perform(a),
            StepView::Failed(f) => StepView::Failed(f),
            StepView::Finished(_, n) => match ensure_all_step(projects, replies, n) {
                StepView::Perform(a) => StepView::Perform(a),
                StepView::Failed(f) => StepView::Failed(f),
                StepView::Finished(registrations, n) => save_registry_step(
                    config,
                    registrations,
                    replies,
                    n,
                ),
            },
        },
    }
}

/// Brings the triggers in step with the configuration, and says how many
/// worktrees there are to watch.
pub open spec fn reconcile_step(
    config: RuntimeView,
    refusal: Option<Seq<char>>,
    excluded: Seq<bool>,
    replies: Seq<ReplyView>,
    at: int,
) -> StepView<usize> {
    match prepare_step(config, replies, at) {
        StepView::Perform(a) => StepView::Perform(a),
        StepView::Failed(f) => StepView::Failed(f),
        StepView::Finished(_, n) => match discover_step(config, refusal, excluded, replies, n) {
            StepView::Perform(a) => StepView::Perform(a),
            StepView::Failed(f) => StepView::Failed(f),
            StepView::Finished(projects, n) => match align_step(config, projects, replies, n) {
                StepView::Perform(a) => StepView::Perform(a),
                StepView::Failed(f) => StepView::Failed(f),
                StepView::Finished(_, n) => StepView::Finished(projects.len() as usize, n),
            },
        },
    }
}

/// Whether `refusal` and `excluded` are what the exclusions can come to when
/// the triggers are brought in step.
pub open spec fn reconcile_allows(
    config: RuntimeView,
    refusal: Option<Seq<char>>,
    excluded: Seq<bool>,
    replies: Seq<ReplyView>,
    at: int,
) -> bool {
    match prepare_step(config, replies, at) {
        StepView::Finished(_, n) => exclusions_allow(config, refusal, excluded, replies, n),
        _ => true,
    }
}

fn prepare(config: &RuntimeConfig, replies: &Vec<Reply>, at: usize) -> (step: Step<()>)
    ensures
        step.deep_view() == prepare_step(config.deep_view(), replies.deep_view(), at as int),
{
    match verify_dependencies(replies, at) {
        Step::Perform(a) => Step::Perform(a),
        Step::Failed(f) => Step::Failed(f),
        Step::Finished(_, n) => match create_private_directory(
            config.style,
            config.state_dir.as_str(),
            replies,
            n,
        ) {
            Step::Perform(a) => Step::Perform(a),
            Step::Failed(f) => Step::Failed(f),
            Step::Finished(_, n) => {
                let repos = join(config.style, config.store_dir.as_str(), "repos");
                create_private_directory(config.style, repos.as_str(), replies, n)
            },
        },
    }
}

fn copy_registration(registration: &Registration) -> (copy: Registration)
    ensures
        copy.deep_view() == registration.deep_view(),
{
    Registration {
        project: registration.project.clone(),
        watch_root: registration.watch_root.clone(),
        trigger_name: registration.trigger_name.clone(),
    }
}

fn copy_registrations(list: &Vec<Registration>) -> (copy: Vec<Registration>)
    ensures
        copy.deep_view() == list.deep_view(),
{
    let mut copy: Vec<Registration> = Vec::new();
    let mut i: usize = 0;
    while i < list.len()
        invariant
            i <= list@.len(),
            copy@.len() == i,
            forall|j: int|
                0 <= j < i ==> (#[trigger] copy@[j]).deep_view() == list@[j].deep_view(),
        decreases list@.len() - i,
    {
        copy.push(copy_registration(&list[i]));
        i = i + 1;
    }
    assert(copy.deep_view() =~= list.deep_view());
    copy
}

fn load_registry(config: &RuntimeConfig, replies: &Vec<Reply>, at: usize) -> (step: Step<
    Vec<Registration>,
>)
    ensures
        step.deep_view() == load_registry_step(config.deep_view(), replies.deep_view(), at as int),
{
    let file = registry_path(config);
    let context = join2("failed to read ", file.as_str());
    match flag(replies, at, Action::Exists(file.clone()), context.as_str()) {
        Step::Perform(a) => Step::Perform(a),
        Step::Failed(f) => Step::Failed(f),
        Step::Finished(false, n) => {
            let none: Vec<Registration> = Vec::new();
            assert(none.deep_view() =~= Seq::empty());
            Step::Finished(none, n)
        },
        Step::Finished(true, n) => match reply_to(
            replies,
            n,
            Action::ReadRegistry(file),
            context.as_str(),
        ) {
            Step::Perform(a) => Step::Perform(a),
            Step::Failed(f) => Step::Failed(f),
            Step::Finished(Reply::Registry(list), n) => Step::Finished(copy_registrations(list), n),
            Step::Finished(_, _) => Step::Failed(Failure::UnexpectedReply),
        },
    }
}

fn lists_path(style: PathStyle, list: &Vec<String>, path: &str) -> (yes: bool)
    ensures
        yes == holds_path(style, list.deep_view(), path@),
{
    let mut i: usize = 0;
    while i < list.len()
        invariant
            i <= list@.len(),
            forall|j: int|
                0 <= j < i ==> !one_path(
                    style,
                    #[trigger] list.deep_view()[j],
                    path@,
                ),
        decreases list@.len() - i,
    {
        if same_path(style, list[i].as_str(), path) {
            assert(one_path(style, list.deep_view()[i as int], path@));
            return true;
        }
        i = i + 1;
    }
    false
}

/// Those of the registrations whose project is not watched any more.
pub fn stale_registrations(
    style: PathStyle,
    previous: &Vec<Registration>,
    projects: &Vec<String>,
) -> (list: Vec<Registration>)
    ensures
        list.deep_view() == stale(style, previous.deep_view(), projects.deep_view()),
{
    let ghost all = previous.deep_view();
    let mut list: Vec<Registration> = Vec::new();
    let mut i: usize = 0;
    assert(list.deep_view() =~= stale(style, all.take(0), projects.deep_view()));
    while i < previous.len()
        invariant
            i <= previous@.len(),
            all == previous.deep_view(),
            list.deep_view() == stale(style, all.take(i as int), projects.deep_view()),
        decreases previous@.len() - i,
    {
        let ghost before = list.deep_view();
        assert(all.take(i + 1).drop_last() =~= all.take(i as int));
        assert(all.take(i + 1).last() == previous@[i as int].deep_view());
        if !lists_path(style, projects, previous[i].project.as_str()) {
            list.push(copy_registration(&previous[i]));
            assert(list.deep_view() =~= before.push(previous@[i as int].deep_view()));
        }
        i = i + 1;
    }
    assert(all.take(all.len() as int) =~= all);
    list
}

fn retire(registration: &Registration, replies: &Vec<Reply>, at: usize) -> (step: Step<()>)
    ensures
        step.deep_view() == retire_step(registration.deep_view(), replies.deep_view(), at as int),
{
    match try_delete_trigger(
        registration.watch_root.as_str(),
        registration.trigger_name.as_str(),
        replies,
        at,
    ) {
        Step::Perform(a) => Step::Perform(a),
        Step::Failed(f) => Step::Failed(f),
        Step::Finished(Attempt::Success(_), n) => Step::Finished((), n),
        Step::Finished(Attempt::Failure(f), n) => {
            let text = join2(
                "failed to remove stale trigger ",
                registration.trigger_name.as_str(),
            );
            report(text, f, replies, n)
        },
    }
}

proof fn retire_all_stops_early(
    registrations: Seq<RegistrationView>,
    replies: Seq<ReplyView>,
    at: int,
    i: int,
)
    requires
        0 <= i <= registrations.len(),
        !(retire_all_step(registrations.take(i), replies, at) is Finished),
    ensures
        retire_all_step(registrations, replies, at) == retire_all_step(
            registrations.take(i),
            replies,
            at,
        ),
    decreases registrations.len() - i,
{
    if i < registrations.len() {
        assert(registrations.take(i + 1).drop_last() =~= registrations.take(i));
        retire_all_stops_early(registrations, replies, at, i + 1);
    } else {
        assert(registrations.take(i) =~= registrations);
    }
}

fn retire_all(list: &Vec<Registration>, replies: &Vec<Reply>, at: usize) -> (step: Step<()>)
    ensures
        step.deep_view() == retire_all_step(list.deep_view(), replies.deep_view(), at as int),
{
    let ghost all = list.deep_view();
    let ghost given = replies.deep_view();
    let mut n: usize = at;
    let mut i: usize = 0;
    while i < list.len()
        invariant
            i <= list@.len(),
            all == list.deep_view(),
            given == replies.deep_view(),
            retire_all_step(all.take(i as int), given, at as int) == StepView::Finished(
                (),
                n as int,
            ),
        decreases list@.len() - i,
    {
        proof {
            assert(all.take(i + 1).drop_last() =~= all.take(i as int));
            assert(all.take(i + 1).last() == list@[i as int].deep_view());
            if !(retire_all_step(all.take(i + 1), given, at as int) is Finished) {
                retire_all_stops_early(all, given, at as int, i + 1);
            }
        }
        match retire(&list[i], replies, n) {
            Step::Perform(a) => {
                return Step::Perform(a);
            },
            Step::Failed(f) => {
                return Step::Failed(f);
            },
            Step::Finished(_, used) => {
                n = used;
            },
        }
        i = i + 1;
    }
    assert(all.take(all.len() as int) =~= all);
    Step::Finished((), n)
}

proof fn ensure_all_stops_early(
    projects: Seq<Seq<char>>,
    replies: Seq<ReplyView>,
    at: int,
    i: int,
)
    requires
        0 <= i <= projects.len(),
        !(ensure_all_step(projects.take(i), replies, at) is Finished),
    ensures
        ensure_all_step(projects, replies, at) == ensure_all_step(projects.take(i), replies, at),
    decreases projects.len() - i,
{
    if i < projects.len() {
        assert(projects.take(i + 1).drop_last() =~= projects.take(i));
        ensure_all_stops_early(projects, replies, at, i + 1);
    } else {
        assert(projects.take(i) =~= projects);
    }
}

fn ensure_all(projects: &Vec<String>, replies: &Vec<Reply>, at: usize) -> (step: Step<
    Vec<Registration>,
>)
    ensures
        step.deep_view() == ensure_all_step(projects.deep_view(), replies.deep_view(), at as int),
{
    let ghost all = projects.deep_view();
    let ghost given = replies.deep_view();
    let mut list: Vec<Registration> = Vec::new();
    let mut n: usize = at;
    let mut i: usize = 0;
    assert(list.deep_view() =~= Seq::empty());
    while i < projects.len()
        invariant
            i <= projects@.len(),
            all == projects.deep_view(),
            given == replies.deep_view(),
            ensure_all_step(all.take(i as int), given, at as int) == StepView::Finished(
                list.deep_view(),
                n as int,
            ),
        decreases projects@.len() - i,
    {
        let ghost before = list.deep_view();
        proof {
            assert(all.take(i + 1).drop_last() =~= all.take(i as int));
            if !(ensure_all_step(all.take(i + 1), given, at as int) is Finished) {
                ensure_all_stops_early(all, given, at as int, i + 1);
            }
        }
        let context = join2("failed to register ", projects[i].as_str());
        match reply_to(replies, n, Action::EnsureProject(projects[i].clone()), context.as_str()) {
            Step::Perform(a) => {
                return Step::Perform(a);
            },
            Step::Failed(f) => {
                return Step::Failed(f);
            },
            Step::Finished(Reply::Registered(Attempt::Success(registration)), used) => {
                list.push(copy_registration(registration));
                assert(list.deep_view() =~= before.push(registration.deep_view()));
                n = used;
            },
            Step::Finished(Reply::Registered(Attempt::Failure(why)), used) => {
                match report(context, copy_failure(why), replies, used) {
                    Step::Perform(a) => {
                        return Step::Perform(a);
                    },
                    Step::Failed(f) => {
                        return Step::Failed(f);
                    },
                    Step::Finished(_, used) => {
                        n = used;
                    },
                }
            },
            Step::Finished(_, _) => {
                return Step::Failed(Failure::UnexpectedReply);
            },
        }
        i = i + 1;
    }
    assert(all.take(all.len() as int) =~= all);
    Step::Finished(list, n)
}

fn save_registry(
    config: &RuntimeConfig,
    list: Vec<Registration>,
    replies: &Vec<Reply>,
    at: usize,
) -> (step: Step<()>)
    ensures
        step.deep_view() == save_registry_step(
            config.deep_view(),
            list.deep_view(),
            replies.deep_view(),
            at as int,
        ),
{
    let file = registry_path(config);
    let temporary = join2(file.as_str(), ".tmp");
    let writing = join2("failed to write ", temporary.as_str());
    match done(replies, at, Action::WriteRegistry(temporary.clone(), list), writing.as_str()) {
        Step::Perform(a) => Step::Perform(a),
        Step::Failed(f) => Step::Failed(f),
        Step::Finished(_, n) => {
            let replacing = join2("failed to replace ", file.as_str());
            done(replies, n, Action::Replace(temporary, file), replacing.as_str())
        },
    }
}

/// Brings the triggers in step with the worktrees to watch.
pub fn align(
    config: &RuntimeConfig,
    projects: &Vec<String>,
    replies: &Vec<Reply>,
    at: usize,
) -> (step: Step<()>)
    ensures
        step.deep_view() == align_step(
            config.deep_view(),
            projects.deep_view(),
            replies.deep_view(),
            at as int,
        ),
{
    match load_registry(config, replies, at) {
        Step::Perform(a) => Step::Perform(a),
        Step::Failed(f) => Step::Failed(f),
        Step::Finished(previous, n) => {
            let gone = stale_registrations(config.style, &previous, projects);
            match retire_all(&gone, replies, n) {
                Step::Perform(a) => Step::Perform(a),
                Step::Failed(f) => Step::Failed(f),
                Step::Finished(_, n) => match ensure_all(projects, replies, n) {
                    Step::Perform(a) => Step::Perform(a),
                    Step::Failed(f) => Step::Failed(f),
                    Step::Finished(list, n) => save_registry(config, list, replies, n),
                },
            }
        },
    }
}

/// Brings the triggers in step with the configuration, and says how many
/// worktrees there are to watch.
pub fn reconcile(config: &RuntimeConfig, replies: &Vec<Reply>, at: usize) -> (step: Step<usize>)
    ensures
        exists|refusal: Option<Seq<char>>, excluded: Seq<bool>| #[trigger]
            reconcile_allows(
                config.deep_view(),
                refusal,
                excluded,
                replies.deep_view(),
                at as int,
            ) && step.deep_view() == reconcile_step(
                config.deep_view(),
                refusal,
                excluded,
                replies.deep_view(),
                at as int,
            ),
{
    let ghost view = config.deep_view();
    let ghost given = replies.deep_view();
    let ghost none = Seq::<bool>::empty();
    match prepare(config, replies, at) {
        Step::Perform(a) => {
            assert(reconcile_allows(view, None, none, given, at as int));
            Step::Perform(a)
        },
        Step::Failed(f) => {
            assert(reconcile_allows(view, None, none, given, at as int));
            Step::Failed(f)
        },
        Step::Finished(_, n) => {
            let found = discover(config, replies, n);
            let ghost (refusal, excluded) = choose|refusal: Option<Seq<char>>, excluded: Seq<bool>| #[trigger]
                exclusions_allow(view, refusal, excluded, given, n as int) && found.deep_view()
                    == discover_step(view, refusal, excluded, given, n as int);
            assert(reconcile_allows(view, refusal, excluded, given, at as int));
            match found {
                Step::Perform(a) => Step::Perform(a),
                Step::Failed(f) => Step::Failed(f),
                Step::Finished(projects, n) => {
                    let count: usize = projects.len();
                    match align(config, &projects, replies, n) {
                        Step::Perform(a) => Step::Perform(a),
                        Step::Failed(f) => Step::Failed(f),
                        Step::Finished(_, n) => Step::Finished(count, n),
                    }
                },
            }
        },
    }
}

/// What Watchman says of the changes when it runs a trigger.
#[derive(Debug, PartialEq, Eq)]
pub struct TriggerEvent {
    /// Whether there were more changes than it handed over, in words.
    pub overflow: Option<String>,
    /// Whether it says since when it tells of changes.
    pub since: bool,
    /// The time of the changes, in Watchman's own words.
    pub clock: Option<String>,
}

/// What a [`TriggerEvent`] says.
pub struct TriggerEventView {
    pub overflow: Option<Seq<char>>,
    pub since: bool,
    pub clock: Option<Seq<char>>,
}

impl DeepView for TriggerEvent {
    type V = TriggerEventView;

    open spec fn deep_view(&self) -> TriggerEventView {
        TriggerEventView {
            overflow: self.overflow.deep_view(),
            since: self.since,
            clock: self.clock.deep_view(),
        }
    }
}

/// Whether a text is `true`, in capital or small letters.
pub open spec fn says_true(s: Seq<char>) -> bool {
    &&& s.len() == 4
    &&& s[0] == 't' || s[0] == 'T'
    &&& s[1] == 'r' || s[1] == 'R'
    &&& s[2] == 'u' || s[2] == 'U'
    &&& s[3] == 'e' || s[3] == 'E'
}

impl TriggerEventView {
    /// Whether the changes that are handed over are not all there are.
    pub open spec fn incomplete(self) -> bool {
        (self.overflow is Some && says_true(self.overflow->0)) || !self.since
    }

    /// What the snapshot says of where it came from.
    pub open spec fn source(self) -> Seq<char> {
        "watchman:"@ + (match self.clock {
            Some(clock) => clock,
            None => "unknown"@,
        })
    }
}

impl TriggerEvent {
    /// Whether the changes that are handed over are not all there are.
    pub fn is_incomplete(&self) -> (yes: bool)
        ensures
            yes == self.deep_view().incomplete(),
    {
        if !self.since {
            return true;
        }
        match &self.overflow {
            None => false,
            Some(text) => {
                let s = chars_of(text.as_str());
                s.len() == 4 && (s[0] == 't' || s[0] == 'T') && (s[1] == 'r' || s[1] == 'R') && (
                s[2] == 'u' || s[2] == 'U') && (s[3] == 'e' || s[3] == 'E')
            },
        }
    }

    /// What the snapshot says of where it came from.
    pub fn source(&self) -> (source: String)
        ensures
            source@ == self.deep_view().source(),
    {
        match &self.clock {
            Some(clock) => join2("watchman:", clock.as_str()),
            None => join2("watchman:", "unknown"),
        }
    }
}

/// Whether a reported file can be part of a snapshot: it is gone, or it is
/// not known to be something else than a file, a link or a pipe.
pub open spec fn counts(file: WatchmanFileView) -> bool {
    !file.exists || match file.kind {
        None => true,
        Some(kind) => kind == "f"@ || kind == "l"@ || kind == "p"@,
    }
}

/// The names of the reported files that can be part of a snapshot.
pub open spec fn counting(files: Seq<WatchmanFileView>) -> Seq<Seq<char>>
    decreases files.len(),
{
    if files.len() == 0 {
        Seq::empty()
    } else if counts(files.last()) {
        counting(files.drop_last()).push(files.last().name)
    } else {
        counting(files.drop_last())
    }
}

impl WatchmanFile {
    /// Whether the file can be part of a snapshot.
    pub fn matters(&self) -> (yes: bool)
        ensures
            yes == counts(self.deep_view()),
    {
        if !self.exists {
            return true;
        }
        match &self.kind {
            None => true,
            Some(kind) => {
                same_text(kind.as_str(), "f") || same_text(kind.as_str(), "l") || same_text(
                    kind.as_str(),
                    "p",
                )
            },
        }
    }
}

/// The names of the reported files that can be part of a snapshot.
pub fn changed_names(files: &Vec<WatchmanFile>) -> (names: Vec<String>)
    ensures
        names.deep_view() == counting(files.deep_view()),
{
    let ghost all = files.deep_view();
    let mut names: Vec<String> = Vec::new();
    let mut i: usize = 0;
    assert(names.deep_view() =~= counting(all.take(0)));
    while i < files.len()
        invariant
            i <= files@.len(),
            all == files.deep_view(),
            names.deep_view() == counting(all.take(i as int)),
        decreases files@.len() - i,
    {
        let ghost before = names.deep_view();
        assert(all.take(i + 1).drop_last() =~= all.take(i as int));
        assert(all.take(i + 1).last() == files@[i as int].deep_view());
        if files[i].matters() {
            names.push(files[i].name.clone());
            assert(names.deep_view() =~= before.push(files@[i as int].name@));
        }
        i = i + 1;
    }
    assert(all.take(all.len() as int) =~= all);
    names
}

/// Captures what Watchman reports.
pub open spec fn capture_reported_step(
    store: StoreView,
    source: Seq<char>,
    replies: Seq<ReplyView>,
    at: int,
) -> StepView<Option<Seq<char>>> {
    match reply_step(
        replies,
        at,
        ActionView::ReadChangedFiles,
        "failed to read Watchman trigger input"@,
    ) {
        StepView::Perform(a) => StepView::Perform(a),
        StepView::Failed(f) => StepView::Failed(f),
        StepView::Finished(ReplyView::Files(files), n) => capture_paths_step(
            store,
            counting(files),
            source,
            replies,
            n,
        ),
        StepView::Finished(_, _) => StepView::Failed(FailureView::UnexpectedReply),
    }
}

/// What a trigger does: it captures what is reported; everything where the
/// report is not complete or nothing was captured before.
pub open spec fn capture_trigger_step(
    config: RuntimeView,
    project: Seq<char>,
    event: TriggerEventView,
    replies: Seq<ReplyView>,
    at: int,
) -> StepView<Option<Seq<char>>> {
    match open_step(config, project, replies, at) {
        StepView::Perform(a) => StepView::Perform(a),
        StepView::Failed(f) => StepView::Failed(f),
        StepView::Finished(store, n) => if event.incomplete() {
            capture_full_step(store, event.source(), replies, n)
        } else {
            match has_history_step(store, replies, n) {
                StepView::Perform(a) => StepView::Perform(a),
                StepView::Failed(f) => StepView::Failed(f),
                StepView::Finished(false, n) => capture_full_step(
                    store,
                    event.source(),
                    replies,
                    n,
                ),
                StepView::Finished(true, n) => capture_reported_step(
                    store,
                    event.source(),
                    replies,
                    n,
                ),
            }
        },
    }
}

/// What a trigger does.
pub fn capture_trigger(
    config: &RuntimeConfig,
    project: &str,
    event: &TriggerEvent,
    replies: &Vec<Reply>,
    at: usize,
) -> (step: Step<Option<String>>)
    ensures
        step.deep_view() == capture_trigger_step(
            config.deep_view(),
            project@,
            event.deep_view(),
            replies.deep_view(),
            at as int,
        ),
{
    match ProjectStore::open(config, project, replies, at) {
        Step::Perform(a) => Step::Perform(a),
        Step::Failed(f) => Step::Failed(f),
        Step::Finished(store, n) => {
            let source = event.source();
            if event.is_incomplete() {
                return store.capture_full(source.as_str(), replies, n);
            }
            match store.has_history(replies, n) {
                Step::Perform(a) => Step::Perform(a),
                Step::Failed(f) => Step::Failed(f),
                Step::Finished(false, n) => store.capture_full(source.as_str(), replies, n),
                Step::Finished(true, n) => match reply_to(
                    replies,
                    n,
                    Action::ReadChangedFiles,
                    "failed to read Watchman trigger input",
                ) {
                    Step::Perform(a) => Step::Perform(a),
                    Step::Failed(f) => Step::Failed(f),
                    Step::Finished(Reply::Files(files), n) => {
                        let names = changed_names(files);
                        store.capture_paths(&names, source.as_str(), replies, n)
                    },
                    Step::Finished(_, _) => Step::Failed(Failure::UnexpectedReply),
                },
            }
        },
    }
}

} // verus!
