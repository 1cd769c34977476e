//! Writing a snapshot: from the private index to a commit on the history branch.

use crate::git_store::{private_git, ProjectStore, StoreView, HISTORY_REF};
use crate::numbers::{decimal, decimal_text};
use crate::outside::{lossy_text, text_lossy};
use crate::procedure::{
    not_text, output_text, run, run_for_text, run_step, succeed, succeed_step, tell, tell_step,
    text_of_output, text_step, Action, ActionView, InvocationView, Reply, ReplyView, Step, StepView,
};
use crate::text::{join2, join3, same_text, trim, trimmed};
use crate::native::{readable, readable_text};
use vstd::prelude::*;
use vstd::utf8::encode_utf8;

verus! {

/// The commit that the history branch points to.
pub open spec fn resolve_head_command(store: StoreView) -> InvocationView {
    private_git(store, seq!["rev-parse"@, "--verify"@, "--quiet"@, HISTORY_REF@], None)
}

/// The latest snapshot, if there is one: Git ends with 1 where there is none.
pub open spec fn head_step(store: StoreView, replies: Seq<ReplyView>, at: int) -> StepView<
    Option<Seq<char>>,
> {
    match run_step(
        replies,
        at,
        resolve_head_command(store),
        "failed to inspect snapshot reference"@,
    ) {
        StepView::Perform(a) => StepView::Perform(a),
        StepView::Failed(f) => StepView::Failed(f),
        StepView::Finished(output, n) => if output.success() {
            match text_of_output(output) {
                Some(text) => StepView::Finished(Some(text), n),
                None => StepView::Failed(not_text(output)),
            }
        } else if output.code == Some(1i32) {
            StepView::Finished(None, n)
        } else {
            StepView::Failed(output.failure("git rev-parse"@))
        },
    }
}

/// The subject of the commit of a snapshot.
pub open spec fn summary_of(path_count: nat) -> Seq<char> {
    "snapshot: "@ + decimal(path_count) + " changed path"@ + (if path_count == 1 {
        ""@
    } else {
        "s"@
    })
}

/// The message of the commit of a snapshot.
pub open spec fn message_of(path_count: nat, source: Seq<char>, root: Seq<char>) -> Seq<char> {
    summary_of(path_count) + "\n\nsource: "@ + source + "\nroot: "@ + readable(root)
        + "\n"@
}

pub open spec fn write_tree_command(store: StoreView) -> InvocationView {
    private_git(store, seq!["write-tree"@], None)
}

pub open spec fn tree_of_command(store: StoreView, commit: Seq<char>) -> InvocationView {
    private_git(store, seq!["rev-parse"@, commit + "^{tree}"@], None)
}

/// A commit of `tree` behind `parent`.
pub open spec fn commit_tree_command(
    store: StoreView,
    tree: Seq<char>,
    parent: Option<Seq<char>>,
    message: Seq<char>,
) -> InvocationView {
    private_git(
        store,
        match parent {
            Some(parent) => seq!["commit-tree"@, tree, "-p"@, parent],
            None => seq!["commit-tree"@, tree],
        },
        Some(encode_utf8(message)),
    )
}

/// Points the branch to `commit`, if it still points to `parent`.
pub open spec fn update_ref_command(
    store: StoreView,
    commit: Seq<char>,
    parent: Option<Seq<char>>,
) -> InvocationView {
    private_git(
        store,
        match parent {
            Some(parent) => seq!["update-ref"@, HISTORY_REF@, commit, parent],
            None => seq!["update-ref"@, HISTORY_REF@, commit],
        },
        None,
    )
}

pub open spec fn gc_command(store: StoreView) -> InvocationView {
    private_git(store, seq!["gc"@, "--auto"@, "--quiet"@], None)
}

/// Maintenance, whose outcome does not matter.
pub open spec fn gc_step(store: StoreView, replies: Seq<ReplyView>, at: int) -> StepView<()> {
    if at >= replies.len() {
        StepView::Perform(ActionView::Run(gc_command(store)))
    } else {
        match replies[at] {
            ReplyView::Output(output) => if output.success() {
                StepView::Finished((), at + 1)
            } else {
                tell_step(
                    "automatic Git maintenance failed for "@ + store.root + ": "@ + trimmed(
                        lossy_text(output.stderr),
                    ),
                    replies,
                    at + 1,
                )
            },
            ReplyView::Failed(cause) => tell_step(
                "could not start automatic Git maintenance for "@ + store.root + ": "@ + cause,
                replies,
                at + 1,
            ),
            _ => StepView::Finished((), at + 1),
        }
    }
}

/// Whether the tree differs from that of the latest snapshot.
pub open spec fn changed_step(
    store: StoreView,
    tree: Seq<char>,
    parent: Option<Seq<char>>,
    replies: Seq<ReplyView>,
    at: int,
) -> StepView<bool> {
    match parent {
        None => StepView::Finished(true, at),
        Some(commit) => match text_step(
            replies,
            at,
            tree_of_command(store, commit),
            "failed to inspect previous snapshot"@,
            "git rev-parse"@,
        ) {
            StepView::Perform(a) => StepView::Perform(a),
            StepView::Failed(f) => StepView::Failed(f),
            StepView::Finished(old_tree, n) => StepView::Finished(old_tree != tree, n),
        },
    }
}

/// Commits `tree` behind `parent`, and moves the branch to it.
pub open spec fn record_step(
    store: StoreView,
    tree: Seq<char>,
    parent: Option<Seq<char>>,
    message: Seq<char>,
    replies: Seq<ReplyView>,
    at: int,
) -> StepView<Seq<char>> {
    match text_step(
        replies,
        at,
        commit_tree_command(store, tree, parent, message),
        "failed to start git commit-tree"@,
        "git commit-tree"@,
    ) {
        StepView::Perform(a) => StepView::Perform(a),
        StepView::Failed(f) => StepView::Failed(f),
        StepView::Finished(commit, n) => match succeed_step(
            replies,
            n,
            update_ref_command(store, commit, parent),
            "failed to update snapshot reference"@,
            "git update-ref"@,
        ) {
            StepView::Perform(a) => StepView::Perform(a),
            StepView::Failed(f) => StepView::Failed(f),
            StepView::Finished(_, n) => match gc_step(store, replies, n) {
                StepView::Perform(a) => StepView::Perform(a),
                StepView::Failed(f) => StepView::Failed(f),
                StepView::Finished(_, n) => StepView::Finished(commit, n),
            },
        },
    }
}

/// A snapshot of the private index; none where nothing has changed.
pub open spec fn commit_step(
    store: StoreView,
    path_count: nat,
    source: Seq<char>,
    replies: Seq<ReplyView>,
    at: int,
) -> StepView<Option<Seq<char>>> {
    match text_step(
        replies,
        at,
        write_tree_command(store),
        "failed to write snapshot tree"@,
        "git write-tree"@,
    ) {
        StepView::Perform(a) => StepView::Perform(a),
        StepView::Failed(f) => StepView::Failed(f),
        StepView::Finished(tree, n) => match head_step(store, replies, n) {
            StepView::Perform(a) => StepView::Perform(a),
            StepView::Failed(f) => StepView::Failed(f),
            StepView::Finished(parent, n) => match changed_step(store, tree, parent, replies, n) {
                StepView::Perform(a) => StepView::Perform(a),
                StepView::Failed(f) => StepView::Failed(f),
                StepView::Finished(false, n) => StepView::Finished(None, n),
                StepView::Finished(true, n) => match record_step(
                    store,
                    tree,
                    parent,
                    message_of(path_count, source, store.root),
                    replies,
                    n,
                ) {
                    StepView::Perform(a) => StepView::Perform(a),
                    StepView::Failed(f) => StepView::Failed(f),
                    StepView::Finished(commit, n) => StepView::Finished(Some(commit), n),
                },
            },
        },
    }
}

/// The subject of the commit of a snapshot.
pub fn snapshot_summary(path_count: usize) -> (summary: String)
    ensures
        summary@ == summary_of(path_count as nat),
{
    let number = decimal_text(path_count as u64);
    let mut summary = join3("snapshot: ", number.as_str(), " changed path");
    summary.append(
        if path_count == 1 {
            ""
        } else {
            "s"
        },
    );
    summary
}

/// The message of the commit of a snapshot.
pub fn snapshot_message(path_count: usize, source: &str, root: &str) -> (message: String)
    ensures
        message@ == message_of(path_count as nat, source@, root@),
{
    let mut message = snapshot_summary(path_count);
    message.append("\n\nsource: ");
    message.append(source);
    message.append("\nroot: ");
    message.append(readable_text(root).as_str());
    message.append("\n");
    message
}

/// A copy of the bytes of a text.
pub fn utf8_of(text: &str) -> (bytes: Vec<u8>)
    ensures
        bytes@ == encode_utf8(text@),
{
    let utf8 = text.as_bytes();
    let mut bytes: Vec<u8> = Vec::new();
    let mut i: usize = 0;
    while i < utf8.len()
        invariant
            i <= utf8@.len(),
            bytes@ =~= utf8@.take(i as int),
        decreases utf8@.len() - i,
    {
        bytes.push(utf8[i]);
        i = i + 1;
    }
    assert(utf8@.take(utf8@.len() as int) =~= utf8@);
    bytes
}

impl ProjectStore {
    /// The latest snapshot, if there is one.
    pub fn resolve_head(&self, replies: &Vec<Reply>, at: usize) -> (step: Step<Option<String>>)
        ensures
            step.deep_view() == head_step(self.deep_view(), replies.deep_view(), at as int),
    {
        let arguments = vec![
            "rev-parse".to_owned(),
            "--verify".to_owned(),
            "--quiet".to_owned(),
            HISTORY_REF.to_owned(),
        ];
        assert(arguments.deep_view() =~= resolve_head_command(self.deep_view()).arguments);
        match run(
            replies,
            at,
            self.git_command(arguments, None),
            "failed to inspect snapshot reference",
        ) {
            Step::Perform(a) => Step::Perform(a),
            Step::Failed(f) => Step::Failed(f),
            Step::Finished(output, n) => {
                if output.succeeded() {
                    return match output_text(output) {
                        Ok(text) => Step::Finished(Some(text), n),
                        Err(f) => Step::Failed(f),
                    };
                }
                match output.code {
                    Some(1) => Step::Finished(None, n),
                    _ => Step::Failed(output.failure("git rev-parse")),
                }
            },
        }
    }

    /// Whether there is a snapshot.
    pub fn has_history(&self, replies: &Vec<Reply>, at: usize) -> (step: Step<bool>)
        ensures
            step.deep_view() == has_history_step(self.deep_view(), replies.deep_view(), at as int),
    {
        match self.resolve_head(replies, at) {
            Step::Perform(a) => Step::Perform(a),
            Step::Failed(f) => Step::Failed(f),
            Step::Finished(head, n) => Step::Finished(head.is_some(), n),
        }
    }

    fn changed(
        &self,
        tree: &str,
        parent: &Option<String>,
        replies: &Vec<Reply>,
        at: usize,
    ) -> (step: Step<bool>)
        ensures
            step.deep_view() == changed_step(
                self.deep_view(),
                tree@,
                parent.deep_view(),
                replies.deep_view(),
                at as int,
            ),
    {
        match parent {
            None => Step::Finished(true, at),
            Some(commit) => {
                let arguments = vec!["rev-parse".to_owned(), join2(commit.as_str(), "^{tree}")];
                assert(arguments.deep_view() =~= tree_of_command(
                    self.deep_view(),
                    commit@,
                ).arguments);
                match run_for_text(
                    replies,
                    at,
                    self.git_command(arguments, None),
                    "failed to inspect previous snapshot",
                    "git rev-parse",
                ) {
                    Step::Perform(a) => Step::Perform(a),
                    Step::Failed(f) => Step::Failed(f),
                    Step::Finished(old_tree, n) => Step::Finished(
                        !same_text(old_tree.as_str(), tree),
                        n,
                    ),
                }
            },
        }
    }

    /// Lets Git pack the private repository. Nothing depends on how that ends.
    pub fn auto_gc(&self, replies: &Vec<Reply>, at: usize) -> (step: Step<()>)
        ensures
            step.deep_view() == gc_step(self.deep_view(), replies.deep_view(), at as int),
    {
        if at >= replies.len() {
            let arguments = vec!["gc".to_owned(), "--auto".to_owned(), "--quiet".to_owned()];
            assert(arguments.deep_view() =~= gc_command(self.deep_view()).arguments);
            return Step::Perform(Action::Run(self.git_command(arguments, None)));
        }
        match &replies[at] {
            Reply::Output(output) => {
                if output.succeeded() {
                    return Step::Finished((), at + 1);
                }
                let stderr = text_lossy(&output.stderr);
                let mut text = join3(
                    "automatic Git maintenance failed for ",
                    self.root.as_str(),
                    ": ",
                );
                text.append(trim(stderr.as_str()).as_str());
                tell(text, replies, at + 1)
            },
            Reply::Failed(cause) => {
                let mut text = join3(
                    "could not start automatic Git maintenance for ",
                    self.root.as_str(),
                    ": ",
                );
                text.append(cause.as_str());
                tell(text, replies, at + 1)
            },
            _ => Step::Finished((), at + 1),
        }
    }

    fn record(
        &self,
        tree: &str,
        parent: &Option<String>,
        message: &str,
        replies: &Vec<Reply>,
        at: usize,
    ) -> (step: Step<String>)
        ensures
            step.deep_view() == record_step(
                self.deep_view(),
                tree@,
                parent.deep_view(),
                message@,
                replies.deep_view(),
                at as int,
            ),
    {
        let mut arguments = vec!["commit-tree".to_owned(), tree.to_owned()];
        if let Some(commit) = parent {
            arguments.push("-p".to_owned());
            arguments.push(commit.clone());
        }
        assert(arguments.deep_view() =~= commit_tree_command(
            self.deep_view(),
            tree@,
            parent.deep_view(),
            message@,
        ).arguments);
        match run_for_text(
            replies,
            at,
            self.git_command(arguments, Some(utf8_of(message))),
            "failed to start git commit-tree",
            "git commit-tree",
        ) {
            Step::Perform(a) => Step::Perform(a),
            Step::Failed(f) => Step::Failed(f),
            Step::Finished(commit, n) => {
                let mut arguments = vec![
                    "update-ref".to_owned(),
                    HISTORY_REF.to_owned(),
                    commit.clone(),
                ];
                if let Some(parent) = parent {
                    arguments.push(parent.clone());
                }
                assert(arguments.deep_view() =~= update_ref_command(
                    self.deep_view(),
                    commit@,
                    parent.deep_view(),
                ).arguments);
                match succeed(
                    replies,
                    n,
                    self.git_command(arguments, None),
                    "failed to update snapshot reference",
                    "git update-ref",
                ) {
                    Step::Perform(a) => Step::Perform(a),
                    Step::Failed(f) => Step::Failed(f),
                    Step::Finished(_, n) => match self.auto_gc(replies, n) {
                        Step::Perform(a) => Step::Perform(a),
                        Step::Failed(f) => Step::Failed(f),
                        Step::Finished(_, n) => Step::Finished(commit, n),
                    },
                }
            },
        }
    }

    /// Takes a snapshot of the private index, unless nothing has changed.
    pub fn commit(
        &self,
        path_count: usize,
        source: &str,
        replies: &Vec<Reply>,
        at: usize,
    ) -> (step: Step<Option<String>>)
        ensures
            step.deep_view() == commit_step(
                self.deep_view(),
                path_count as nat,
                source@,
                replies.deep_view(),
                at as int,
            ),
    {
        let arguments = vec!["write-tree".to_owned()];
        assert(arguments.deep_view() =~= write_tree_command(self.deep_view()).arguments);
        match run_for_text(
            replies,
            at,
            self.git_command(arguments, None),
            "failed to write snapshot tree",
            "git write-tree",
        ) {
            Step::Perform(a) => Step::Perform(a),
            Step::Failed(f) => Step::Failed(f),
            Step::Finished(tree, n) => match self.resolve_head(replies, n) {
                Step::Perform(a) => Step::Perform(a),
                Step::Failed(f) => Step::Failed(f),
                Step::Finished(parent, n) => match self.changed(
                    tree.as_str(),
                    &parent,
                    replies,
                    n,
                ) {
                    Step::Perform(a) => Step::Perform(a),
                    Step::Failed(f) => Step::Failed(f),
                    Step::Finished(false, n) => Step::Finished(None, n),
                    Step::Finished(true, n) => {
                        let message = snapshot_message(path_count, source, self.root.as_str());
                        match self.record(tree.as_str(), &parent, message.as_str(), replies, n) {
                            Step::Perform(a) => Step::Perform(a),
                            Step::Failed(f) => Step::Failed(f),
                            Step::Finished(commit, n) => Step::Finished(Some(commit), n),
                        }
                    },
                },
            },
        }
    }
}

/// Whether there is a snapshot.
pub open spec fn has_history_step(
    store: StoreView,
    replies: Seq<ReplyView>,
    at: int,
) -> StepView<bool> {
    match head_step(store, replies, at) {
        StepView::Perform(a) => StepView::Perform(a),
        StepView::Failed(f) => StepView::Failed(f),
        StepView::Finished(head, n) => StepView::Finished(head is Some, n),
    }
}

} // verus!
