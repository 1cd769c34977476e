//! The directory that a history lies in.

use crate::config::RuntimeView;
use crate::git_store::StoreView;
use crate::opening::{
    claim_step, config_command, init_command, initialize_step, open_step, project_file,
};
use crate::paths::{components, joined, PathStyle};
use crate::procedure::{
    flag_step, path_step, private_directory_step, ActionView, FailureView, InvocationView,
    ReplyView, StepView,
};
use crate::numbers::hex;
use crate::outside::sha256;
use crate::native::readable;
use vstd::utf8::encode_utf8;
use vstd::prelude::*;

verus! {

/// Whether a command creates or configures the private repository.
pub open spec fn sets_up(store: StoreView, command: InvocationView) -> bool {
    ||| command == init_command(store)
    ||| exists|key: Seq<char>, value: Seq<char>|
        command == #[trigger] config_command(store, key, value)
}

/// Whether an action changes nothing outside the project directory.
pub open spec fn stays_in_project_directory(store: StoreView, action: ActionView) -> bool {
    match action {
        ActionView::CreateDirectory(path) => path == store.project_dir,
        ActionView::SecureDirectory(path) => path == store.project_dir,
        ActionView::Exists(_) => true,
        ActionView::Run(command) => sets_up(store, command),
        ActionView::ReadProject(_) => true,
        ActionView::WriteProject(path, root) => path == project_file(
            store.style,
            store.project_dir,
        ) && root == store.root,
        _ => false,
    }
}

/// Making sure that a history is there changes nothing outside its directory,
/// which is for the user alone.
pub proof fn initializing_stays_in_the_project_directory(
    store: StoreView,
    replies: Seq<ReplyView>,
    at: int,
)
    ensures
        initialize_step(store, replies, at) matches StepView::Perform(a)
            ==> stays_in_project_directory(store, a),
{
}

/// A history is not shared: where the directory says that it belongs to
/// another worktree, that is all that comes of opening it.
pub proof fn a_foreign_history_is_refused(
    store: StoreView,
    replies: Seq<ReplyView>,
    at: int,
    looked: int,
    owner: Seq<char>,
    read: int,
)
    requires
        flag_step(
            replies,
            at,
            ActionView::Exists(project_file(store.style, store.project_dir)),
            "failed to read "@ + project_file(store.style, store.project_dir),
        ) == StepView::Finished(true, looked),
        path_step(
            replies,
            looked,
            ActionView::ReadProject(project_file(store.style, store.project_dir)),
            "failed to read "@ + project_file(store.style, store.project_dir),
        ) == StepView::Finished(Some(owner), read),
        components(store.style, owner) != components(store.style, store.root),
    ensures
        claim_step(store, replies, at) == StepView::<()>::Failed(
            FailureView::Collision { project_dir: store.project_dir, owner },
        ),
{
}

/// A history that is there is neither created nor configured again, and one
/// that is claimed is not claimed again.
pub proof fn an_existing_history_is_left_as_it_is(
    store: StoreView,
    replies: Seq<ReplyView>,
    at: int,
    n: int,
)
    requires
        0 <= n < replies.len(),
        private_directory_step(store.style, store.project_dir, replies, at) == StepView::Finished(
            (),
            n,
        ),
        replies[n] == ReplyView::Flags(seq![true]),
    ensures
        initialize_step(store, replies, at) == claim_step(store, replies, n + 1),
{
    assert(seq![true][0]);
}

/// Every worktree has its history in a directory of its own below the store.
pub proof fn where_a_history_lies(config: RuntimeView, of: Seq<char>, replies: Seq<ReplyView>, at: int)
    ensures
        open_step(config, of, replies, at) matches StepView::Finished(store, _) ==> {
            &&& store.project_dir == joined(
                config.style,
                joined(config.style, config.store_dir, "repos"@),
                hex(sha256(encode_utf8(readable(store.root))).take(12)),
            )
            &&& store.git_dir == joined(config.style, store.project_dir, "history.git"@)
            &&& store.index_file == joined(config.style, store.project_dir, "index"@)
            &&& store.style == config.style
        },
{
}

/// Git, with these words, in no directory of its own.
pub open spec fn asks_git(words: Seq<Seq<char>>) -> ActionView {
    ActionView::Run(
        InvocationView {
            program: "git"@,
            arguments: words,
            environment: Seq::empty(),
            input: None,
        },
    )
}

/// A history that is not there yet is made: a bare repository in a directory
/// for the user alone, with a committer of its own; and it is claimed for the
/// worktree in a file beside it.
#[verifier::rlimit(60)]
pub proof fn a_new_history_is_set_up(store: StoreView, replies: Seq<ReplyView>, at: int, n: int)
    requires
        0 <= at,
        n == at + (if store.style == PathStyle::Posix {
            2int
        } else {
            1int
        }),
        !store.root.contains('\0'),
        forall|i: int| at <= i < n && i < replies.len() ==> #[trigger] replies[i] is Done,
        n < replies.len() ==> replies[n] == ReplyView::Flags(seq![false]),
        forall|i: int|
            n < i <= n + 4 && i < replies.len() ==> (#[trigger] replies[i] matches ReplyView::Output(
                output,
            ) && output.success()),
        n + 5 < replies.len() ==> replies[n + 5] == ReplyView::Flags(seq![false]),
        n + 6 < replies.len() ==> replies[n + 6] is Done,
    ensures
        ({
            let git = "--git-dir="@ + readable(store.git_dir);
            let file = joined(store.style, store.project_dir, "project.json"@);
            let count = replies.len() - n;
            let step = initialize_step(store, replies, at);
            let next = StepView::<()>::Perform(
                if count == 0 {
                    ActionView::Exists(joined(store.style, store.git_dir, "HEAD"@))
                } else if count == 1 {
                    asks_git(seq!["init"@, "--bare"@, "--quiet"@, store.git_dir])
                } else if count == 2 {
                    asks_git(seq![git, "config"@, "user.name"@, "local-history"@])
                } else if count == 3 {
                    asks_git(seq![git, "config"@, "user.email"@, "local-history@localhost"@])
                } else if count == 4 {
                    asks_git(seq![git, "config"@, "gc.auto"@, "256"@])
                } else if count == 5 {
                    ActionView::Exists(file)
                } else {
                    ActionView::WriteProject(file, store.root)
                },
            );
            &&& replies.len() == at ==> step == StepView::<()>::Perform(
                ActionView::CreateDirectory(store.project_dir),
            )
            &&& replies.len() == at + 1 && store.style == PathStyle::Posix ==> step == StepView::<
                (),
            >::Perform(ActionView::SecureDirectory(store.project_dir))
            &&& 0 <= count <= 6 ==> step == next
            &&& count >= 7 ==> step == StepView::<()>::Finished((), n + 7)
        }),
{
    assert(!seq![false][0]);
    if at < replies.len() {
        assert(replies[at] is Done);
    }
    if n <= replies.len() {
        assert(replies[n - 1] is Done);
        assert(private_directory_step(store.style, store.project_dir, replies, at)
            == StepView::<()>::Finished((), n));
    }
    if n + 1 < replies.len() {
        assert(replies[n + 1] is Output);
    }
    if n + 2 < replies.len() {
        assert(replies[n + 2] is Output);
    }
    if n + 3 < replies.len() {
        assert(replies[n + 3] is Output);
    }
    if n + 4 < replies.len() {
        assert(replies[n + 4] is Output);
    }
}

/// A history that belongs to the worktree is opened, and one that belongs to
/// another is not: the file beside it says to whom it belongs.
pub proof fn a_history_belongs_to_one_worktree(
    store: StoreView,
    replies: Seq<ReplyView>,
    at: int,
    owner: Seq<char>,
)
    requires
        0 <= at,
        at < replies.len() ==> replies[at] == ReplyView::Flags(seq![true]),
        at + 1 < replies.len() ==> replies[at + 1] == ReplyView::Paths(seq![Some(owner)]),
    ensures
        ({
            let file = joined(store.style, store.project_dir, "project.json"@);
            let step = claim_step(store, replies, at);
            &&& replies.len() == at ==> step == StepView::<()>::Perform(ActionView::Exists(file))
            &&& replies.len() == at + 1 ==> step == StepView::<()>::Perform(
                ActionView::ReadProject(file),
            )
            &&& replies.len() >= at + 2 ==> step == (if components(store.style, owner)
                == components(store.style, store.root) {
                StepView::<()>::Finished((), at + 2)
            } else {
                StepView::<()>::Failed(
                    FailureView::Collision { project_dir: store.project_dir, owner },
                )
            })
        }),
{
    assert(seq![true][0]);
    assert(seq![Some(owner)][0] == Some(owner));
}

} // verus!
