//! Opening the history of a worktree, which is made where it is not there yet.

use crate::commit::utf8_of;
use crate::config::{
    project_settings_step, ProjectSettings, RuntimeConfig, RuntimeView, SettingsView,
};
use crate::discovery::{canonical_step, canonicalize, git_root, git_root_step};
use crate::git_store::{
    path_problem, plain_command, plain_git, validate_relative_path, ProjectStore, StoreView,
    IDENTITY_EMAIL, IDENTITY_NAME,
};
use crate::numbers::{hex, hex_length, hex_text};
use crate::outside::{sha256, sha256_digest};
use crate::paths::{
    absolute, components, is_absolute, join, joined, same_path, strip_prefix, stripped, PathStyle,
};
use crate::procedure::{
    create_private_directory, done, done_step, flag, flag_step, path, path_step,
    private_directory_step, succeed, succeed_step, Action, ActionView, Failure, FailureView,
    InvocationView, Reply, ReplyView, Step, StepView,
};
use crate::text::join2;
use crate::native::{is_text, readable, readable_text};
use vstd::prelude::*;
use vstd::utf8::encode_utf8;

verus! {

/// The name of a worktree's directory in the store: the start of the digest of its path.
pub open spec fn id_of(root: Seq<char>) -> Seq<char> {
    hex(sha256(encode_utf8(readable(root))).take(12))
}

/// The name of a worktree's directory in the store.
pub fn project_id(root: &str) -> (id: String)
    ensures
        id@ == id_of(root@),
        id@.len() == 24,
{
    let message = utf8_of(readable_text(root).as_str());
    let digest = sha256_digest(&message);
    proof {
        hex_length(digest@.take(12));
    }
    hex_text(&digest, 12)
}

/// Where the history of a worktree lies.
pub open spec fn project_directory(
    style: PathStyle,
    store_dir: Seq<char>,
    root: Seq<char>,
) -> Seq<char> {
    joined(style, joined(style, store_dir, "repos"@), id_of(root))
}

/// The private bare repository below a project directory.
pub open spec fn repository_directory(style: PathStyle, project_dir: Seq<char>) -> Seq<char> {
    joined(style, project_dir, "history.git"@)
}

/// The file that is there as soon as the private repository is.
pub open spec fn head_file(style: PathStyle, git_dir: Seq<char>) -> Seq<char> {
    joined(style, git_dir, "HEAD"@)
}

/// The file that says whose history it is.
pub open spec fn project_file(style: PathStyle, project_dir: Seq<char>) -> Seq<char> {
    joined(style, project_dir, "project.json"@)
}

/// The history of the worktree at `root`.
pub open spec fn store_at(config: RuntimeView, root: Seq<char>, settings: SettingsView) -> StoreView {
    let project_dir = project_directory(config.style, config.store_dir, root);
    StoreView {
        style: config.style,
        settings,
        root,
        project_dir,
        git_dir: repository_directory(config.style, project_dir),
        index_file: joined(config.style, project_dir, "index"@),
    }
}

/// Creates the private repository.
pub open spec fn init_command(store: StoreView) -> InvocationView {
    plain_git(seq!["init"@, "--bare"@, "--quiet"@, store.git_dir], None)
}

/// Sets an option of the private repository.
pub open spec fn config_command(
    store: StoreView,
    key: Seq<char>,
    value: Seq<char>,
) -> InvocationView {
    plain_git(seq!["--git-dir="@ + readable(store.git_dir), "config"@, key, value], None)
}

/// Sets an option of the private repository.
pub open spec fn git_config_step(
    store: StoreView,
    key: Seq<char>,
    value: Seq<char>,
    replies: Seq<ReplyView>,
    at: int,
) -> StepView<()> {
    match succeed_step(
        replies,
        at,
        config_command(store, key, value),
        "failed to configure history repository"@,
        "git config"@,
    ) {
        StepView::Perform(a) => StepView::Perform(a),
        StepView::Failed(f) => StepView::Failed(f),
        StepView::Finished(_, n) => StepView::Finished((), n),
    }
}

/// Creates the private repository, with a committer of its own.
pub open spec fn create_step(store: StoreView, replies: Seq<ReplyView>, at: int) -> StepView<()> {
    match succeed_step(
        replies,
        at,
        init_command(store),
        "failed to initialize history repository"@,
        "git init --bare"@,
    ) {
        StepView::Perform(a) => StepView::Perform(a),
        StepView::Failed(f) => StepView::Failed(f),
        StepView::Finished(_, n) => match git_config_step(
            store,
            "user.name"@,
            IDENTITY_NAME@,
            replies,
            n,
        ) {
            StepView::Perform(a) => StepView::Perform(a),
            StepView::Failed(f) => StepView::Failed(f),
            StepView::Finished(_, n) => match git_config_step(
                store,
                "user.email"@,
                IDENTITY_EMAIL@,
                replies,
                n,
            ) {
                StepView::Perform(a) => StepView::Perform(a),
                StepView::Failed(f) => StepView::Failed(f),
                StepView::Finished(_, n) => git_config_step(
                    store,
                    "gc.auto"@,
                    "256"@,
                    replies,
                    n,
                ),
            },
        },
    }
}

/// Makes sure that the history belongs to the worktree.
pub open spec fn claim_step(store: StoreView, replies: Seq<ReplyView>, at: int) -> StepView<()> {
    let file = project_file(store.style, store.project_dir);
    match flag_step(replies, at, ActionView::Exists(file), "failed to read "@ + file) {
        StepView::Perform(a) => StepView::Perform(a),
        StepView::Failed(f) => StepView::Failed(f),
        StepView::Finished(true, n) => match path_step(
            replies,
            n,
            ActionView::ReadProject(file),
            "failed to read "@ + file,
        ) {
            StepView::Perform(a) => StepView::Perform(a),
            StepView::Failed(f) => StepView::Failed(f),
            StepView::Finished(None, _) => StepView::Failed(FailureView::UnexpectedReply),
            StepView::Finished(Some(owner), n) => if components(store.style, owner) == components(
                store.style,
                store.root,
            ) {
                StepView::Finished((), n)
            } else {
                StepView::Failed(
                    FailureView::Collision { project_dir: store.project_dir, owner },
                )
            },
        },
        StepView::Finished(false, n) => if store.root.contains('\0') {
            StepView::Failed(FailureView::NotText("path contains invalid UTF-8 characters"@))
        } else {
            done_step(
                replies,
                n,
                ActionView::WriteProject(file, store.root),
                "failed to write "@ + file,
            )
        },
    }
}

/// Makes sure that the history is there.
pub open spec fn initialize_step(store: StoreView, replies: Seq<ReplyView>, at: int) -> StepView<()> {
    match private_directory_step(store.style, store.project_dir, replies, at) {
        StepView::Perform(a) => StepView::Perform(a),
        StepView::Failed(f) => StepView::Failed(f),
        StepView::Finished(_, n) => {
            let head = head_file(store.style, store.git_dir);
            match flag_step(replies, n, ActionView::Exists(head), "failed to inspect "@ + head) {
                StepView::Perform(a) => StepView::Perform(a),
                StepView::Failed(f) => StepView::Failed(f),
                StepView::Finished(true, n) => claim_step(store, replies, n),
                StepView::Finished(false, n) => match create_step(store, replies, n) {
                    StepView::Perform(a) => StepView::Perform(a),
                    StepView::Failed(f) => StepView::Failed(f),
                    StepView::Finished(_, n) => claim_step(store, replies, n),
                },
            }
        },
    }
}

/// The history of the worktree at `of`.
pub open spec fn open_step(
    config: RuntimeView,
    of: Seq<char>,
    replies: Seq<ReplyView>,
    at: int,
) -> StepView<StoreView> {
    match canonical_step(of, replies, at) {
        StepView::Perform(a) => StepView::Perform(a),
        StepView::Failed(f) => StepView::Failed(f),
        StepView::Finished(root, n) => match project_settings_step(config, root, replies, n) {
            StepView::Perform(a) => StepView::Perform(a),
            StepView::Failed(f) => StepView::Failed(f),
            StepView::Finished(settings, n) => {
                let store = store_at(config, root, settings);
                match initialize_step(store, replies, n) {
                    StepView::Perform(a) => StepView::Perform(a),
                    StepView::Failed(f) => StepView::Failed(f),
                    StepView::Finished(_, n) => StepView::Finished(store, n),
                }
            },
        },
    }
}

/// A path from the root of the file system; canonical where it can be.
pub open spec fn absolute_step(
    style: PathStyle,
    file: Seq<char>,
    replies: Seq<ReplyView>,
    at: int,
) -> StepView<Seq<char>> {
    match path_step(
        replies,
        at,
        ActionView::Canonicalize(seq![file]),
        "failed to resolve "@ + file,
    ) {
        StepView::Perform(a) => StepView::Perform(a),
        StepView::Failed(f) => StepView::Failed(f),
        StepView::Finished(Some(found), n) => StepView::Finished(found, n),
        StepView::Finished(None, n) => if absolute(style, file) {
            StepView::Finished(file, n)
        } else {
            match path_step(
                replies,
                n,
                ActionView::CurrentDirectory,
                "failed to resolve "@ + file,
            ) {
                StepView::Perform(a) => StepView::Perform(a),
                StepView::Failed(f) => StepView::Failed(f),
                StepView::Finished(None, _) => StepView::Failed(FailureView::UnexpectedReply),
                StepView::Finished(Some(current), n) => StepView::Finished(
                    joined(style, current, file),
                    n,
                ),
            }
        },
    }
}

/// The history that a file is in, and the file's path there; nothing where
/// there is no history yet.
pub open spec fn for_file_step(
    config: RuntimeView,
    file: Seq<char>,
    replies: Seq<ReplyView>,
    at: int,
) -> StepView<Option<(StoreView, Seq<char>)>> {
    match absolute_step(config.style, file, replies, at) {
        StepView::Perform(a) => StepView::Perform(a),
        StepView::Failed(f) => StepView::Failed(f),
        StepView::Finished(path, n) => match git_root_step(config.style, path, replies, n) {
            StepView::Perform(a) => StepView::Perform(a),
            StepView::Failed(f) => StepView::Failed(f),
            StepView::Finished(root, n) => match stripped(config.style, path, root) {
                None => StepView::Failed(FailureView::OutsideRoot { path, root }),
                Some(relative) => match path_problem(config.style, relative) {
                    Some(f) => StepView::Failed(f),
                    None => {
                        let head = head_file(
                            config.style,
                            repository_directory(
                                config.style,
                                project_directory(config.style, config.store_dir, root),
                            ),
                        );
                        match flag_step(
                            replies,
                            n,
                            ActionView::Exists(head),
                            "failed to inspect "@ + head,
                        ) {
                            StepView::Perform(a) => StepView::Perform(a),
                            StepView::Failed(f) => StepView::Failed(f),
                            StepView::Finished(false, n) => StepView::Finished(None, n),
                            StepView::Finished(true, n) => match open_step(
                                config,
                                root,
                                replies,
                                n,
                            ) {
                                StepView::Perform(a) => StepView::Perform(a),
                                StepView::Failed(f) => StepView::Failed(f),
                                StepView::Finished(store, n) => StepView::Finished(
                                    Some((store, relative)),
                                    n,
                                ),
                            },
                        }
                    },
                },
            },
        },
    }
}

fn directory_of(style: PathStyle, store_dir: &str, root: &str) -> (path: String)
    ensures
        path@ == project_directory(style, store_dir@, root@),
{
    let repos = join(style, store_dir, "repos");
    let id = project_id(root);
    join(style, repos.as_str(), id.as_str())
}

fn make_absolute(style: PathStyle, file: &str, replies: &Vec<Reply>, at: usize) -> (step: Step<
    String,
>)
    ensures
        step.deep_view() == absolute_step(style, file@, replies.deep_view(), at as int),
{
    let context = join2("failed to resolve ", file);
    let one = vec![file.to_owned()];
    assert(one.deep_view() =~= seq![file@]);
    match path(replies, at, Action::Canonicalize(one), context.as_str()) {
        Step::Perform(a) => Step::Perform(a),
        Step::Failed(f) => Step::Failed(f),
        Step::Finished(Some(found), n) => Step::Finished(found, n),
        Step::Finished(None, n) => {
            if is_absolute(style, file) {
                return Step::Finished(file.to_owned(), n);
            }
            match path(replies, n, Action::CurrentDirectory, context.as_str()) {
                Step::Perform(a) => Step::Perform(a),
                Step::Failed(f) => Step::Failed(f),
                Step::Finished(None, _) => Step::Failed(Failure::UnexpectedReply),
                Step::Finished(Some(current), n) => Step::Finished(
                    join(style, current.as_str(), file),
                    n,
                ),
            }
        },
    }
}

impl ProjectStore {
    /// The history of the worktree at `root`.
    pub fn new(config: &RuntimeConfig, root: String, settings: ProjectSettings) -> (store:
        ProjectStore)
        ensures
            store.deep_view() == store_at(config.deep_view(), root@, settings.deep_view()),
    {
        let style = config.style;
        let project_dir = directory_of(style, config.store_dir.as_str(), root.as_str());
        ProjectStore {
            style,
            settings,
            root,
            git_dir: join(style, project_dir.as_str(), "history.git"),
            index_file: join(style, project_dir.as_str(), "index"),
            project_dir,
        }
    }

    fn git_config(&self, key: &str, value: &str, replies: &Vec<Reply>, at: usize) -> (step: Step<
        (),
    >)
        ensures
            step.deep_view() == git_config_step(
                self.deep_view(),
                key@,
                value@,
                replies.deep_view(),
                at as int,
            ),
    {
        let arguments = vec![
            join2("--git-dir=", readable_text(self.git_dir.as_str()).as_str()),
            "config".to_owned(),
            key.to_owned(),
            value.to_owned(),
        ];
        assert(arguments.deep_view() =~= config_command(self.deep_view(), key@, value@).arguments);
        match succeed(
            replies,
            at,
            plain_command(arguments, None),
            "failed to configure history repository",
            "git config",
        ) {
            Step::Perform(a) => Step::Perform(a),
            Step::Failed(f) => Step::Failed(f),
            Step::Finished(_, n) => Step::Finished((), n),
        }
    }

    fn create(&self, replies: &Vec<Reply>, at: usize) -> (step: Step<()>)
        ensures
            step.deep_view() == create_step(self.deep_view(), replies.deep_view(), at as int),
    {
        let arguments = vec![
            "init".to_owned(),
            "--bare".to_owned(),
            "--quiet".to_owned(),
            self.git_dir.clone(),
        ];
        assert(arguments.deep_view() =~= init_command(self.deep_view()).arguments);
        match succeed(
            replies,
            at,
            plain_command(arguments, None),
            "failed to initialize history repository",
            "git init --bare",
        ) {
            Step::Perform(a) => Step::Perform(a),
            Step::Failed(f) => Step::Failed(f),
            Step::Finished(_, n) => match self.git_config("user.name", IDENTITY_NAME, replies, n) {
                Step::Perform(a) => Step::Perform(a),
                Step::Failed(f) => Step::Failed(f),
                Step::Finished(_, n) => match self.git_config(
                    "user.email",
                    IDENTITY_EMAIL,
                    replies,
                    n,
                ) {
                    Step::Perform(a) => Step::Perform(a),
                    Step::Failed(f) => Step::Failed(f),
                    Step::Finished(_, n) => self.git_config("gc.auto", "256", replies, n),
                },
            },
        }
    }

    fn claim(&self, replies: &Vec<Reply>, at: usize) -> (step: Step<()>)
        ensures
            step.deep_view() == claim_step(self.deep_view(), replies.deep_view(), at as int),
    {
        let file = join(self.style, self.project_dir.as_str(), "project.json");
        let context = join2("failed to read ", file.as_str());
        match flag(replies, at, Action::Exists(file.clone()), context.as_str()) {
            Step::Perform(a) => Step::Perform(a),
            Step::Failed(f) => Step::Failed(f),
            Step::Finished(true, n) => match path(
                replies,
                n,
                Action::ReadProject(file),
                context.as_str(),
            ) {
                Step::Perform(a) => Step::Perform(a),
                Step::Failed(f) => Step::Failed(f),
                Step::Finished(None, _) => Step::Failed(Failure::UnexpectedReply),
                Step::Finished(Some(owner), n) => {
                    if same_path(self.style, owner.as_str(), self.root.as_str()) {
                        Step::Finished((), n)
                    } else {
                        Step::Failed(
                            Failure::Collision { project_dir: self.project_dir.clone(), owner },
                        )
                    }
                },
            },
            Step::Finished(false, n) => {
                if !is_text(self.root.as_str()) {
                    return Step::Failed(
                        Failure::NotText("path contains invalid UTF-8 characters".to_owned()),
                    );
                }
                let writing = join2("failed to write ", file.as_str());
                done(
                    replies,
                    n,
                    Action::WriteProject(file, self.root.clone()),
                    writing.as_str(),
                )
            },
        }
    }

    /// Makes sure that the history is there.
    pub fn ensure_initialized(&self, replies: &Vec<Reply>, at: usize) -> (step: Step<()>)
        ensures
            step.deep_view() == initialize_step(self.deep_view(), replies.deep_view(), at as int),
    {
        match create_private_directory(self.style, self.project_dir.as_str(), replies, at) {
            Step::Perform(a) => Step::Perform(a),
            Step::Failed(f) => Step::Failed(f),
            Step::Finished(_, n) => {
                let head = join(self.style, self.git_dir.as_str(), "HEAD");
                let context = join2("failed to inspect ", head.as_str());
                match flag(replies, n, Action::Exists(head), context.as_str()) {
                    Step::Perform(a) => Step::Perform(a),
                    Step::Failed(f) => Step::Failed(f),
                    Step::Finished(true, n) => self.claim(replies, n),
                    Step::Finished(false, n) => match self.create(replies, n) {
                        Step::Perform(a) => Step::Perform(a),
                        Step::Failed(f) => Step::Failed(f),
                        Step::Finished(_, n) => self.claim(replies, n),
                    },
                }
            },
        }
    }

    /// The history of the worktree at `of`.
    pub fn open(config: &RuntimeConfig, of: &str, replies: &Vec<Reply>, at: usize) -> (step: Step<
        ProjectStore,
    >)
        ensures
            step.deep_view() == open_step(
                config.deep_view(),
                of@,
                replies.deep_view(),
                at as int,
            ),
    {
        match canonicalize(of, replies, at) {
            Step::Perform(a) => Step::Perform(a),
            Step::Failed(f) => Step::Failed(f),
            Step::Finished(root, n) => match config.project_settings(root.as_str(), replies, n) {
                Step::Perform(a) => Step::Perform(a),
                Step::Failed(f) => Step::Failed(f),
                Step::Finished(settings, n) => {
                    let store = ProjectStore::new(config, root, settings);
                    match store.ensure_initialized(replies, n) {
                        Step::Perform(a) => Step::Perform(a),
                        Step::Failed(f) => Step::Failed(f),
                        Step::Finished(_, n) => Step::Finished(store, n),
                    }
                },
            },
        }
    }

    /// The history that a file is in, and the file's path there; nothing where
    /// there is no history yet.
    pub fn for_file(config: &RuntimeConfig, file: &str, replies: &Vec<Reply>, at: usize) -> (step:
        Step<Option<(ProjectStore, String)>>)
        ensures
            step.deep_view() == for_file_step(
                config.deep_view(),
                file@,
                replies.deep_view(),
                at as int,
            ),
    {
        let style = config.style;
        match make_absolute(style, file, replies, at) {
            Step::Perform(a) => Step::Perform(a),
            Step::Failed(f) => Step::Failed(f),
            Step::Finished(path, n) => match git_root(style, path.as_str(), replies, n) {
                Step::Perform(a) => Step::Perform(a),
                Step::Failed(f) => Step::Failed(f),
                Step::Finished(root, n) => match strip_prefix(style, path.as_str(), root.as_str()) {
                    None => Step::Failed(Failure::OutsideRoot { path, root }),
                    Some(relative) => {
                        if let Err(f) = validate_relative_path(style, relative.as_str()) {
                            return Step::Failed(f);
                        }
                        let project_dir = directory_of(
                            style,
                            config.store_dir.as_str(),
                            root.as_str(),
                        );
                        let git_dir = join(style, project_dir.as_str(), "history.git");
                        let head = join(style, git_dir.as_str(), "HEAD");
                        let context = join2("failed to inspect ", head.as_str());
                        match flag(replies, n, Action::Exists(head), context.as_str()) {
                            Step::Perform(a) => Step::Perform(a),
                            Step::Failed(f) => Step::Failed(f),
                            Step::Finished(false, n) => Step::Finished(None, n),
                            Step::Finished(true, n) => match ProjectStore::open(
                                config,
                                root.as_str(),
                                replies,
                                n,
                            ) {
                                Step::Perform(a) => Step::Perform(a),
                                Step::Failed(f) => Step::Failed(f),
                                Step::Finished(store, n) => Step::Finished(
                                    Some((store, relative)),
                                    n,
                                ),
                            },
                        }
                    },
                },
            },
        }
    }
}

} // verus!
