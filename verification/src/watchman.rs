//! Watchman: what it is asked to watch, and what follows from its answers.

use crate::commit::utf8_of;
use crate::config::{ProjectSettings, RuntimeConfig, RuntimeView, SettingsView};
use crate::json::{
    entries_of, json_array, json_object, json_text, json_texts, text_array, trees, Json, JsonTree,
};
use crate::numbers::{hex, hex_length, hex_text, le_bytes, low_bytes};
use crate::outside::{json_of_text, parse_json, sha256, sha256_digest, text_of_json, write_json};
use crate::paths::{join, joined};
use crate::procedure::{
    insist, insisted, path, path_step, run, run_step, Action, ActionView, Attempt, AttemptView,
    Failure, FailureView, Invocation, InvocationView, Reply, ReplyView, Step, StepView,
};
use crate::text::{join2, join3};
use crate::native::{is_text, readable, readable_text};
use vstd::prelude::*;
use vstd::utf8::encode_utf8;

verus! {

/// A trigger that was registered for a project.
#[derive(Debug, PartialEq, Eq)]
pub struct Registration {
    pub project: String,
    pub watch_root: String,
    pub trigger_name: String,
}

/// A file that Watchman reports.
#[derive(Debug, PartialEq, Eq)]
pub struct WatchmanFile {
    pub name: String,
    pub exists: bool,
    pub kind: Option<String>,
}

/// What a [`Registration`] says.
pub struct RegistrationView {
    pub project: Seq<char>,
    pub watch_root: Seq<char>,
    pub trigger_name: Seq<char>,
}

/// What a [`WatchmanFile`] says.
pub struct WatchmanFileView {
    pub name: Seq<char>,
    pub exists: bool,
    pub kind: Option<Seq<char>>,
}

impl DeepView for Registration {
    type V = RegistrationView;

    open spec fn deep_view(&self) -> RegistrationView {
        RegistrationView {
            project: self.project@,
            watch_root: self.watch_root@,
            trigger_name: self.trigger_name@,
        }
    }
}

impl DeepView for WatchmanFile {
    type V = WatchmanFileView;

    open spec fn deep_view(&self) -> WatchmanFileView {
        WatchmanFileView { name: self.name@, exists: self.exists, kind: self.kind.deep_view() }
    }
}

/// Matches the paths that a pattern does, files with a leading dot included.
pub open spec fn match_term(pattern: Seq<char>) -> JsonTree {
    JsonTree::Array(
        seq![
            JsonTree::Text("match"@),
            JsonTree::Text(pattern),
            JsonTree::Text("wholename"@),
            JsonTree::Object(
                seq![
                    ("includedotfiles"@, JsonTree::Bool(true)),
                    ("noescape"@, JsonTree::Bool(true)),
                ],
            ),
        ],
    )
}

/// Matches what lies below a directory at the root of a worktree.
pub open spec fn at_root(directory: Seq<char>) -> JsonTree {
    match_term(directory + "/**"@)
}

/// Matches what lies below a directory at any depth.
pub open spec fn at_depth(directory: Seq<char>) -> JsonTree {
    match_term("**/"@ + directory + "/**"@)
}

/// Matches what lies below one of the directories.
pub open spec fn directory_terms(directories: Seq<Seq<char>>) -> Seq<JsonTree>
    decreases directories.len(),
{
    if directories.len() == 0 {
        Seq::empty()
    } else {
        directory_terms(directories.drop_last()).push(at_root(directories.last())).push(
            at_depth(directories.last()),
        )
    }
}

/// Matches everything but what lies below one of the directories.
pub open spec fn expression_of(directories: Seq<Seq<char>>) -> JsonTree {
    if directories.len() == 0 {
        JsonTree::Text("true"@)
    } else {
        JsonTree::Array(
            seq![
                JsonTree::Text("not"@),
                JsonTree::Array(seq![JsonTree::Text("anyof"@)] + directory_terms(directories)),
            ],
        )
    }
}

fn term(pattern: &str) -> (json: Json)
    ensures
        json.tree() == match_term(pattern@),
{
    let options: Vec<(String, Json)> = vec![
        ("includedotfiles".to_owned(), Json::Bool(true)),
        ("noescape".to_owned(), Json::Bool(true)),
    ];
    assert(entries_of(options@) =~= seq![
        ("includedotfiles"@, JsonTree::Bool(true)),
        ("noescape"@, JsonTree::Bool(true)),
    ]);
    let items: Vec<Json> = vec![
        json_text("match"),
        json_text(pattern),
        json_text("wholename"),
        json_object(options),
    ];
    assert(trees(items@) =~= match_term(pattern@)->Array_0);
    json_array(items)
}

/// The expression that matches everything but what lies below one of the directories.
pub fn watch_expression(directories: &Vec<String>) -> (json: Json)
    ensures
        json.tree() == expression_of(directories.deep_view()),
{
    if directories.len() == 0 {
        return json_text("true");
    }
    let ghost all = directories.deep_view();
    let ghost word = seq![JsonTree::Text("anyof"@)];
    let mut items: Vec<Json> = vec![json_text("anyof")];
    let mut i: usize = 0;
    assert(trees(items@) =~= word + directory_terms(all.take(0)));
    while i < directories.len()
        invariant
            i <= directories@.len(),
            all == directories.deep_view(),
            word == seq![JsonTree::Text("anyof"@)],
            trees(items@) == word + directory_terms(all.take(i as int)),
        decreases directories@.len() - i,
    {
        let ghost before = trees(items@);
        assert(all.take(i + 1).drop_last() =~= all.take(i as int));
        let name = directories[i].as_str();
        let root = join2(name, "/**");
        let depth = join3("**/", name, "/**");
        items.push(term(root.as_str()));
        items.push(term(depth.as_str()));
        assert(trees(items@) =~= before.push(at_root(name@)).push(at_depth(name@)));
        assert(trees(items@) =~= word + directory_terms(all.take(i + 1)));
        i = i + 1;
    }
    assert(all.take(all.len() as int) =~= all);
    let parts: Vec<Json> = vec![json_text("not"), json_array(items)];
    assert(trees(parts@) =~= expression_of(all)->Array_0);
    json_array(parts)
}

/// What a trigger's name says of the filters: the start of a digest of them.
pub open spec fn fingerprint_of(settings: SettingsView) -> Seq<char> {
    let text = text_of_json(text_array(settings.ignore_directories));
    hex(sha256(text + low_bytes(settings.max_bytes() as nat, 8)).take(4))
}

/// The digest of the filters, whose directories were written down as `text`.
pub fn fingerprint_from(text: &Vec<u8>, max_bytes: u64) -> (fingerprint: String)
    ensures
        fingerprint@.len() == 8,
        fingerprint@ == hex(sha256(text@ + low_bytes(max_bytes as nat, 8)).take(4)),
{
    let mut message: Vec<u8> = Vec::new();
    let size = le_bytes(max_bytes);
    append_bytes(&mut message, text);
    append_bytes(&mut message, &size);
    assert(message@ =~= text@ + low_bytes(max_bytes as nat, 8));
    let digest = sha256_digest(&message);
    proof {
        hex_length(digest@.take(4));
    }
    hex_text(&digest, 4)
}

fn append_bytes(bytes: &mut Vec<u8>, more: &Vec<u8>)
    ensures
        final(bytes)@ == old(bytes)@ + more@,
{
    let ghost before = bytes@;
    let mut i: usize = 0;
    while i < more.len()
        invariant
            i <= more@.len(),
            bytes@ =~= before + more@.take(i as int),
        decreases more@.len() - i,
    {
        bytes.push(more[i]);
        i = i + 1;
    }
    assert(more@.take(more@.len() as int) =~= more@);
}

/// What a trigger's name says of the filters.
pub fn trigger_fingerprint(settings: &ProjectSettings) -> (r: Result<String, Failure>)
    ensures
        r matches Ok(s) && s@ == fingerprint_of(settings.deep_view()) && s@.len() == 8,
{
    let names = json_texts(&settings.ignore_directories);
    let text = write_json(&names);
    Ok(fingerprint_from(&text, settings.max_file_size_bytes()))
}

/// Where the registry of a configuration lies: every configuration has one of its own.
pub open spec fn registry_file(config: RuntimeView) -> Seq<char> {
    joined(
        config.style,
        config.state_dir,
        "registrations-"@ + hex(sha256(encode_utf8(readable(config.config_path))).take(6))
            + ".json"@,
    )
}

/// Where the registry of a configuration lies.
pub fn registry_path(config: &RuntimeConfig) -> (path: String)
    ensures
        path@ == registry_file(config.deep_view()),
{
    let message = utf8_of(readable_text(config.config_path.as_str()).as_str());
    let digest = sha256_digest(&message);
    let id = hex_text(&digest, 6);
    let name = join3("registrations-", id.as_str(), ".json");
    join(config.style, config.state_dir.as_str(), name.as_str())
}

/// Watchman, with a request to answer.
pub open spec fn watchman_command(text: Seq<u8>) -> InvocationView {
    InvocationView {
        program: "watchman"@,
        arguments: seq!["-j"@],
        environment: Seq::empty(),
        input: Some(text.push(10u8)),
    }
}

/// What Watchman's answer comes to.
pub open spec fn answer_of(stdout: Seq<u8>) -> Result<JsonTree, FailureView> {
    match json_of_text(stdout) {
        Err(cause) => Err(FailureView::InvalidJson(cause)),
        Ok(response) => response_of(response),
    }
}

/// What a response of Watchman comes to: it may tell of an error.
pub open spec fn response_of(response: JsonTree) -> Result<JsonTree, FailureView> {
    match response.text_member("error"@) {
        Some(error) => Err(FailureView::Watchman(error)),
        None => Ok(response),
    }
}

/// Tries to ask Watchman.
pub open spec fn try_request_step(request: JsonTree, replies: Seq<ReplyView>, at: int) -> StepView<
    AttemptView<JsonTree>,
> {
    match run_step(
        replies,
        at,
        watchman_command(text_of_json(request)),
        "failed to start Watchman"@,
    ) {
        StepView::Perform(a) => StepView::Perform(a),
        StepView::Failed(f) => StepView::Finished(AttemptView::Failure(f), at + 1),
        StepView::Finished(output, n) => if !output.success() {
            StepView::Finished(AttemptView::Failure(output.failure("Watchman request"@)), n)
        } else {
            match answer_of(output.stdout) {
                Ok(response) => StepView::Finished(AttemptView::Success(response), n),
                Err(f) => StepView::Finished(AttemptView::Failure(f), n),
            }
        },
    }
}

/// Asks Watchman.
pub open spec fn request_step(request: JsonTree, replies: Seq<ReplyView>, at: int) -> StepView<
    JsonTree,
> {
    insisted(try_request_step(request, replies, at))
}

/// What a response of Watchman comes to.
pub fn check_response(response: Json) -> (r: Result<Json, Failure>)
    ensures
        match response_of(response.tree()) {
            Ok(tree) => r matches Ok(json) && json.tree() == tree,
            Err(failure) => r matches Err(f) && f.deep_view() == failure,
        },
{
    match response.get_text("error") {
        Some(error) => Err(Failure::Watchman(error)),
        None => Ok(response),
    }
}

fn try_request(request: &Json, replies: &Vec<Reply>, at: usize) -> (step: Step<Attempt<Json>>)
    ensures
        step.deep_view() == try_request_step(request.tree(), replies.deep_view(), at as int),
{
    let total: usize = replies.len();
    let mut input = write_json(request);
    input.push(10);
    let command = Invocation {
        program: "watchman".to_owned(),
        arguments: vec!["-j".to_owned()],
        environment: Vec::new(),
        input: Some(input),
    };
    assert(command.arguments.deep_view() =~= seq!["-j"@]);
    assert(command.environment.deep_view() =~= Seq::empty());
    match run(replies, at, command, "failed to start Watchman") {
        Step::Perform(a) => Step::Perform(a),
        Step::Failed(f) => {
            assert(at < total);
            Step::Finished(Attempt::Failure(f), at + 1)
        },
        Step::Finished(output, n) => {
            if !output.succeeded() {
                return Step::Finished(Attempt::Failure(output.failure("Watchman request")), n);
            }
            match parse_json(&output.stdout) {
                Err(cause) => Step::Finished(Attempt::Failure(Failure::InvalidJson(cause)), n),
                Ok(response) => match check_response(response) {
                    Ok(response) => Step::Finished(Attempt::Success(response), n),
                    Err(f) => Step::Finished(Attempt::Failure(f), n),
                },
            }
        },
    }
}

/// Asks Watchman.
pub fn watchman_request(request: &Json, replies: &Vec<Reply>, at: usize) -> (step: Step<Json>)
    ensures
        step.deep_view() == request_step(request.tree(), replies.deep_view(), at as int),
{
    insist(try_request(request, replies, at))
}

/// The names of the triggers that a response lists.
pub open spec fn names_in(triggers: Seq<JsonTree>) -> Seq<Seq<char>>
    decreases triggers.len(),
{
    if triggers.len() == 0 {
        Seq::empty()
    } else {
        match triggers.last().text_member("name"@) {
            Some(name) => names_in(triggers.drop_last()).push(name),
            None => names_in(triggers.drop_last()),
        }
    }
}

/// The names of the triggers at a root.
pub open spec fn list_triggers_step(
    watch_root: Seq<char>,
    replies: Seq<ReplyView>,
    at: int,
) -> StepView<Seq<Seq<char>>> {
    match request_step(text_array(seq!["trigger-list"@, watch_root]), replies, at) {
        StepView::Perform(a) => StepView::Perform(a),
        StepView::Failed(f) => StepView::Failed(f),
        StepView::Finished(response, n) => StepView::Finished(
            names_in(response.array_member("triggers"@)),
            n,
        ),
    }
}

/// The names of the triggers that a response lists.
pub fn trigger_names(response: &Json) -> (names: Vec<String>)
    ensures
        names.deep_view() == names_in(response.tree().array_member("triggers"@)),
{
    let mut names: Vec<String> = Vec::new();
    let ghost all = response.tree().array_member("triggers"@);
    assert(names.deep_view() =~= Seq::empty());
    if let Some(Json::Array(items)) = response.get("triggers") {
        let mut i: usize = 0;
        assert(names.deep_view() =~= names_in(all.take(0)));
        while i < items.len()
            invariant
                i <= items@.len(),
                all.len() == items@.len(),
                forall|j: int| 0 <= j < all.len() ==> #[trigger] all[j] == items@[j].tree(),
                names.deep_view() == names_in(all.take(i as int)),
            decreases items@.len() - i,
        {
            let ghost before = names.deep_view();
            assert(all.take(i + 1).drop_last() =~= all.take(i as int));
            assert(all.take(i + 1).last() == items@[i as int].tree());
            if let Some(name) = items[i].get_text("name") {
                names.push(name);
                assert(names.deep_view() =~= before.push(name@));
            }
            i = i + 1;
        }
        assert(all.take(all.len() as int) =~= all);
    }
    names
}

/// The names of the triggers at a root.
pub fn list_triggers(watch_root: &str, replies: &Vec<Reply>, at: usize) -> (step: Step<Vec<String>>)
    ensures
        step.deep_view() == list_triggers_step(watch_root@, replies.deep_view(), at as int),
{
    let words = vec!["trigger-list".to_owned(), watch_root.to_owned()];
    assert(words.deep_view() =~= seq!["trigger-list"@, watch_root@]);
    let request = json_texts(&words);
    match watchman_request(&request, replies, at) {
        Step::Perform(a) => Step::Perform(a),
        Step::Failed(f) => Step::Failed(f),
        Step::Finished(response, n) => Step::Finished(trigger_names(&response), n),
    }
}

/// The request that deletes a trigger.
pub open spec fn delete_request(watch_root: Seq<char>, name: Seq<char>) -> JsonTree {
    text_array(seq!["trigger-del"@, watch_root, name])
}

/// Tries to delete a trigger.
pub open spec fn try_delete_step(
    watch_root: Seq<char>,
    name: Seq<char>,
    replies: Seq<ReplyView>,
    at: int,
) -> StepView<AttemptView<()>> {
    match try_request_step(delete_request(watch_root, name), replies, at) {
        StepView::Perform(a) => StepView::Perform(a),
        StepView::Failed(f) => StepView::Failed(f),
        StepView::Finished(AttemptView::Success(_), n) => StepView::Finished(
            AttemptView::Success(()),
            n,
        ),
        StepView::Finished(AttemptView::Failure(f), n) => StepView::Finished(
            AttemptView::Failure(f),
            n,
        ),
    }
}

/// Deletes a trigger.
pub open spec fn delete_trigger_step(
    watch_root: Seq<char>,
    name: Seq<char>,
    replies: Seq<ReplyView>,
    at: int,
) -> StepView<()> {
    insisted(try_delete_step(watch_root, name, replies, at))
}

/// Tries to delete a trigger.
pub fn try_delete_trigger(
    watch_root: &str,
    name: &str,
    replies: &Vec<Reply>,
    at: usize,
) -> (step: Step<Attempt<()>>)
    ensures
        step.deep_view() == try_delete_step(watch_root@, name@, replies.deep_view(), at as int),
{
    let words = vec!["trigger-del".to_owned(), watch_root.to_owned(), name.to_owned()];
    assert(words.deep_view() =~= seq!["trigger-del"@, watch_root@, name@]);
    let request = json_texts(&words);
    match try_request(&request, replies, at) {
        Step::Perform(a) => Step::Perform(a),
        Step::Failed(f) => Step::Failed(f),
        Step::Finished(Attempt::Success(_), n) => Step::Finished(Attempt::Success(()), n),
        Step::Finished(Attempt::Failure(f), n) => Step::Finished(Attempt::Failure(f), n),
    }
}

/// Deletes a trigger.
pub fn delete_trigger(watch_root: &str, name: &str, replies: &Vec<Reply>, at: usize) -> (step: Step<
    (),
>)
    ensures
        step.deep_view() == delete_trigger_step(
            watch_root@,
            name@,
            replies.deep_view(),
            at as int,
        ),
{
    insist(try_delete_trigger(watch_root, name, replies, at))
}

/// Where Watchman watches a project: the root of the watch, and the path from
/// there to the project, where they are not the same.
pub open spec fn watch_project_step(
    project: Seq<char>,
    replies: Seq<ReplyView>,
    at: int,
) -> StepView<(Seq<char>, Option<Seq<char>>)> {
    if project.contains('\0') {
        StepView::Failed(FailureView::NotText("path contains invalid UTF-8 characters"@))
    } else {
        match request_step(text_array(seq!["watch-project"@, project]), replies, at) {
            StepView::Perform(a) => StepView::Perform(a),
            StepView::Failed(f) => StepView::Failed(f),
            StepView::Finished(response, n) => match response.text_member("watch"@) {
                None => StepView::Failed(FailureView::NoWatchRoot),
                Some(root) => StepView::Finished(
                    (root, response.text_member("relative_path"@)),
                    n,
                ),
            },
        }
    }
}

/// Where Watchman watches a project.
pub fn watch_project(project: &str, replies: &Vec<Reply>, at: usize) -> (step: Step<
    (String, Option<String>),
>)
    ensures
        step.deep_view() == watch_project_step(project@, replies.deep_view(), at as int),
{
    if !is_text(project) {
        return Step::Failed(Failure::NotText("path contains invalid UTF-8 characters".to_owned()));
    }
    let words = vec!["watch-project".to_owned(), project.to_owned()];
    assert(words.deep_view() =~= seq!["watch-project"@, project@]);
    let request = json_texts(&words);
    match watchman_request(&request, replies, at) {
        Step::Perform(a) => Step::Perform(a),
        Step::Failed(f) => Step::Failed(f),
        Step::Finished(response, n) => match response.get_text("watch") {
            None => Step::Failed(Failure::NoWatchRoot),
            Some(root) => Step::Finished((root, response.get_text("relative_path")), n),
        },
    }
}

/// What Watchman has to know of a trigger.
pub struct TriggerView {
    pub name: Seq<char>,
    pub executable: Seq<char>,
    pub config_path: Seq<char>,
    pub project: Seq<char>,
    pub ignore_directories: Seq<Seq<char>>,
    pub relative_root: Option<Seq<char>>,
}

/// A trigger, as Watchman takes it: it runs this program for what is not
/// ignored, and hands it the changes.
pub open spec fn definition_of(trigger: TriggerView) -> JsonTree {
    let entries = seq![
        ("name"@, JsonTree::Text(trigger.name)),
        (
            "command"@,
            text_array(
                seq![
                    trigger.executable,
                    "--config"@,
                    trigger.config_path,
                    "capture-trigger"@,
                    "--project"@,
                    trigger.project,
                ],
            ),
        ),
        ("expression"@, expression_of(trigger.ignore_directories)),
        ("stdin"@, text_array(seq!["name"@, "exists"@, "type"@, "size"@])),
        ("max_files_stdin"@, JsonTree::Number(200000)),
    ];
    JsonTree::Object(
        match trigger.relative_root {
            Some(root) => entries.push(("relative_root"@, JsonTree::Text(root))),
            None => entries,
        },
    )
}

/// The request that registers a trigger.
pub open spec fn trigger_request(watch_root: Seq<char>, definition: JsonTree) -> JsonTree {
    JsonTree::Array(seq![JsonTree::Text("trigger"@), JsonTree::Text(watch_root), definition])
}

/// Registers a trigger that runs this program.
pub open spec fn register_step(
    config: RuntimeView,
    settings: SettingsView,
    project: Seq<char>,
    watch_root: Seq<char>,
    relative_root: Option<Seq<char>>,
    name: Seq<char>,
    replies: Seq<ReplyView>,
    at: int,
) -> StepView<()> {
    match path_step(
        replies,
        at,
        ActionView::CurrentExecutable,
        "cannot locate yesterfile executable"@,
    ) {
        StepView::Perform(a) => StepView::Perform(a),
        StepView::Failed(f) => StepView::Failed(f),
        StepView::Finished(None, _) => StepView::Failed(FailureView::UnexpectedReply),
        StepView::Finished(Some(executable), n) => if executable.contains('\0')
            || config.config_path.contains('\0') || project.contains('\0') {
            StepView::Failed(FailureView::NotText("path contains invalid UTF-8 characters"@))
        } else {
            match request_step(
                trigger_request(
                    watch_root,
                    definition_of(
                        TriggerView {
                            name,
                            executable,
                            config_path: config.config_path,
                            project,
                            ignore_directories: settings.ignore_directories,
                            relative_root,
                        },
                    ),
                ),
                replies,
                n,
            ) {
                StepView::Perform(a) => StepView::Perform(a),
                StepView::Failed(f) => StepView::Failed(f),
                StepView::Finished(_, n) => StepView::Finished((), n),
            }
        },
    }
}

/// A trigger, as Watchman takes it.
pub fn trigger_definition(
    name: &str,
    executable: &str,
    config_path: &str,
    project: &str,
    ignore_directories: &Vec<String>,
    relative_root: &Option<String>,
) -> (json: Json)
    ensures
        json.tree() == definition_of(
            (TriggerView {
                name: name@,
                executable: executable@,
                config_path: config_path@,
                project: project@,
                ignore_directories: ignore_directories.deep_view(),
                relative_root: relative_root.deep_view(),
            }),
        ),
{
    let command = vec![
        executable.to_owned(),
        "--config".to_owned(),
        config_path.to_owned(),
        "capture-trigger".to_owned(),
        "--project".to_owned(),
        project.to_owned(),
    ];
    assert(command.deep_view() =~= seq![
        executable@,
        "--config"@,
        config_path@,
        "capture-trigger"@,
        "--project"@,
        project@,
    ]);
    let columns = vec![
        "name".to_owned(),
        "exists".to_owned(),
        "type".to_owned(),
        "size".to_owned(),
    ];
    assert(columns.deep_view() =~= seq!["name"@, "exists"@, "type"@, "size"@]);
    let mut entries: Vec<(String, Json)> = vec![
        ("name".to_owned(), json_text(name)),
        ("command".to_owned(), json_texts(&command)),
        ("expression".to_owned(), watch_expression(ignore_directories)),
        ("stdin".to_owned(), json_texts(&columns)),
        ("max_files_stdin".to_owned(), Json::Number(200000)),
    ];
    if let Some(root) = relative_root {
        entries.push(("relative_root".to_owned(), json_text(root.as_str())));
    }
    assert(entries_of(entries@) =~= definition_of(
        TriggerView {
            name: name@,
            executable: executable@,
            config_path: config_path@,
            project: project@,
            ignore_directories: ignore_directories.deep_view(),
            relative_root: relative_root.deep_view(),
        },
    )->Object_0);
    json_object(entries)
}

/// Registers a trigger that runs this program.
pub fn register_trigger(
    config: &RuntimeConfig,
    settings: &ProjectSettings,
    project: &str,
    watch_root: &str,
    relative_root: &Option<String>,
    name: &str,
    replies: &Vec<Reply>,
    at: usize,
) -> (step: Step<()>)
    ensures
        step.deep_view() == register_step(
            config.deep_view(),
            settings.deep_view(),
            project@,
            watch_root@,
            relative_root.deep_view(),
            name@,
            replies.deep_view(),
            at as int,
        ),
{
    match path(
        replies,
        at,
        Action::CurrentExecutable,
        "cannot locate yesterfile executable",
    ) {
        Step::Perform(a) => Step::Perform(a),
        Step::Failed(f) => Step::Failed(f),
        Step::Finished(None, _) => Step::Failed(Failure::UnexpectedReply),
        Step::Finished(Some(executable), n) => {
            if !is_text(executable.as_str()) || !is_text(config.config_path.as_str()) || !is_text(
                project,
            ) {
                return Step::Failed(
                    Failure::NotText("path contains invalid UTF-8 characters".to_owned()),
                );
            }
            let definition = trigger_definition(
                name,
                executable.as_str(),
                config.config_path.as_str(),
                project,
                &settings.ignore_directories,
                relative_root,
            );
            let ghost tree = definition.tree();
            let items: Vec<Json> = vec![json_text("trigger"), json_text(watch_root), definition];
            assert(trees(items@) =~= trigger_request(watch_root@, tree)->Array_0);
            let request = json_array(items);
            match watchman_request(&request, replies, n) {
                Step::Perform(a) => Step::Perform(a),
                Step::Failed(f) => Step::Failed(f),
                Step::Finished(_, n) => Step::Finished((), n),
            }
        },
    }
}

} // verus!
