//! What becomes of a worktree in its history. Git and the file system are taken
//! to answer by the words that they are asked with.

use crate::capture::{
    batch_of, capture_full_step, capture_paths_step, changes_ignore_rules, lock_step,
    prepare_index_step,
};
use crate::git_store::{git_form, nul_terminated, path_problem, StoreView};
use crate::laws::capture::{batch_holds_the_usable_paths, belongs, tells_what_lies};
use crate::laws::formats::paths_come_apart_at_zero_bytes;
use crate::laws::paths::{
    a_component_is_one_of_the_names, a_path_ends_in_the_name_behind_the_slash, is_one_name,
    the_name_is_the_last_component,
};
use crate::laws::recording::{
    a_batch_begins, a_full_capture_takes_over, a_report_is_recorded,
    a_second_snapshot_finds_nothing_new, asked, asked_for_paths, begins_batch, happens, is_named,
    named_are_the_paths, prepared_index, the_index_is_prepared,
    the_newest_snapshot_holds_what_belongs, what_a_batch_asked, what_a_full_capture_asked,
    witnesses, FilesView, RepositoryView,
};
use crate::paths::{components, joined, name_of, PartKind};
use crate::procedure::{ActionView, InvocationView, OutputView, ReplyView, StatusView, StepView};
use crate::select::{in_ignored_directory, listed_paths, looks, texts_between_nuls};
use crate::text::split;
use vstd::prelude::*;
use vstd::utf8::{encode_utf8, encode_utf8_decode_utf8, encode_utf8_valid_utf8};

verus! {

/// A worktree: its files, as Git would record them; what its own repository
/// tracks; what its rules ignore; and what lies at each path of the file system.
pub struct WorktreeView {
    pub files: FilesView,
    pub known: Set<Seq<char>>,
    pub ignored: Set<Seq<char>>,
    pub lies: spec_fn(Seq<char>) -> StatusView,
}

impl WorktreeView {
    /// Whether a path can be written between zero bytes.
    pub open spec fn names_paths(self) -> bool {
        forall|path: Seq<char>| #[trigger]
            self.known.contains(path) || self.files.contains_key(path) ==> path.len() > 0
                && !encode_utf8(path).contains(0u8)
    }

    /// Whether a path is of interest to Git: it is tracked, or it is a file
    /// that the rules do not ignore.
    pub open spec fn concerns_git(self, path: Seq<char>) -> bool {
        self.known.contains(path) || (self.files.contains_key(path) && !self.ignored.contains(
            path,
        ))
    }
}

/// Paths as Git writes them with `-z`: a zero byte behind each.
pub open spec fn zero_ended(paths: Seq<Seq<char>>) -> Seq<u8>
    decreases paths.len(),
{
    if paths.len() == 0 {
        Seq::empty()
    } else {
        zero_ended(paths.drop_last()) + encode_utf8(paths.last()) + seq![0u8]
    }
}

/// Whether a command runs Git in a directory, with nothing else to go by.
pub open spec fn runs_git_in(directory: Seq<char>, command: InvocationView) -> bool {
    &&& command.program == "git"@
    &&& command.environment.len() == 0
    &&& command.arguments.len() > 2
    &&& command.arguments[0] == "-C"@
    &&& command.arguments[1] == directory
}

/// Whether these are options of `git ls-files` that are spoken of here.
pub open spec fn listing_options(options: Seq<Seq<char>>) -> bool {
    forall|i: int|
        0 <= i < options.len() ==> {
            ||| #[trigger] options[i] == "-z"@
            ||| options[i] == "--cached"@
            ||| options[i] == "--others"@
            ||| options[i] == "--exclude-standard"@
        }
}

/// Whether `git ls-files` lists a path with these options: with `--cached` what
/// is tracked, with `--others` the files that are not, and with
/// `--exclude-standard` of these none that the rules ignore.
pub open spec fn lists(worktree: WorktreeView, options: Seq<Seq<char>>, path: Seq<char>) -> bool {
    ||| options.contains("--cached"@) && worktree.known.contains(path)
    ||| {
        &&& options.contains("--others"@)
        &&& worktree.files.contains_key(path) && !worktree.known.contains(path)
        &&& options.contains("--exclude-standard"@) ==> !worktree.ignored.contains(path)
    }
}

/// Whether the output says exactly which paths these are, with zero bytes.
pub open spec fn says_which(output: OutputView, which: spec_fn(Seq<char>) -> bool) -> bool {
    exists|list: Seq<Seq<char>>| #[trigger]
        zero_ended(list) == output.stdout && forall|path: Seq<char>| #[trigger]
            list.contains(path) <==> which(path)
}

/// Whether Git answers for a worktree by the words that it is asked with.
pub open spec fn git_answers(
    worktree: WorktreeView,
    root: Seq<char>,
    command: InvocationView,
    output: OutputView,
) -> bool {
    let words = command.arguments;
    runs_git_in(root, command) ==> {
        &&& words[2] == "ls-files"@ && output.success() && listing_options(words.skip(3))
            && words.skip(3).contains("-z"@) ==> says_which(
            output,
            |path: Seq<char>| lists(worktree, words.skip(3), path),
        )
        &&& words.skip(2) == seq!["check-ignore"@, "-z"@, "--stdin"@] && (output.success()
            || output.code == Some(1i32)) ==> (command.input matches Some(input) ==> says_which(
            output,
            |path: Seq<char>|
                is_named(input, path) && worktree.ignored.contains(path)
                    && !worktree.known.contains(path),
        ))
    }
}

/// Whether a reply tells of the worktree what is so.
pub open spec fn is_told(
    worktree: WorktreeView,
    root: Seq<char>,
    step: StepView<Option<Seq<char>>>,
    reply: ReplyView,
) -> bool {
    match (step, reply) {
        (StepView::Perform(ActionView::Run(command)), ReplyView::Output(output)) => git_answers(
            worktree,
            root,
            command,
            output,
        ),
        (StepView::Perform(ActionView::Inspect(places)), ReplyView::Statuses(statuses)) =>
            tells_what_lies(worktree.lies, places, statuses),
        _ => true,
    }
}

/// Whether the replies tell of the worktree what is so, to a procedure that
/// asks for this.
pub open spec fn all_is_told(
    worktree: WorktreeView,
    root: Seq<char>,
    asks: spec_fn(int) -> StepView<Option<Seq<char>>>,
    replies: Seq<ReplyView>,
    at: int,
    n: int,
) -> bool {
    forall|k: int| at <= k < n ==> is_told(worktree, root, asks(k), #[trigger] replies[k])
}

/// Whether the settings admit a path: it is a relative path of names, none of
/// which is that of an ignored directory, and what lies there is no regular
/// file above the limit.
pub open spec fn admits(store: StoreView, worktree: WorktreeView, path: Seq<char>) -> bool {
    let names = components(store.style, path);
    &&& path_problem(store.style, path) is None
    &&& forall|i: int|
        0 <= i < names.len() ==> (#[trigger] names[i]).0 == PartKind::Normal
            && !store.settings.ignore_directories.contains(names[i].1)
    &&& match (worktree.lies)(joined(store.style, store.root, path)) {
        StatusView::Regular(size) => size <= store.settings.max_file_size_mb * (1024 * 1024),
        StatusView::Other => true,
        StatusView::Missing => true,
        StatusView::Unreadable(_) => false,
    }
}

/// Whether the files are exactly those of the worktree that Git is concerned
/// with and the settings admit, each as it is there.
pub open spec fn are_the_files_to_keep(
    files: FilesView,
    store: StoreView,
    worktree: WorktreeView,
) -> bool {
    &&& forall|path: Seq<char>| #[trigger]
        files.contains_key(path) <==> worktree.files.contains_key(path) && worktree.concerns_git(
            path,
        ) && admits(store, worktree, path)
    &&& forall|path: Seq<char>| #[trigger]
        files.contains_key(path) ==> files[path] == worktree.files[path]
}

proof fn ends_are_zeros(paths: Seq<Seq<char>>)
    ensures
        zero_ended(paths) == nul_terminated(paths),
    decreases paths.len(),
{
    if paths.len() > 0 {
        ends_are_zeros(paths.drop_last());
        let before = nul_terminated(paths.drop_last()) + encode_utf8(paths.last());
        assert(before + seq![0u8] =~= before.push(0u8));
    }
}

/// What Git lists is read as it is listed.
proof fn a_listing_is_read(list: Seq<Seq<char>>)
    requires
        forall|i: int|
            0 <= i < list.len() ==> (#[trigger] list[i]).len() > 0 && !encode_utf8(
                list[i],
            ).contains(0u8),
    ensures
        listed_paths(zero_ended(list)) == list,
{
    ends_are_zeros(list);
    paths_come_apart_at_zero_bytes(list);
    let pieces = list.map_values(|path: Seq<char>| encode_utf8(path)).push(Seq::empty());
    assert(split(zero_ended(list), 0u8) =~= pieces);
    pieces_are_read(list, list.len() as int);
    assert(pieces.drop_last() =~= list.map_values(|path: Seq<char>| encode_utf8(path)).take(
        list.len() as int,
    ));
    assert(list.take(list.len() as int) =~= list);
}

proof fn pieces_are_read(list: Seq<Seq<char>>, count: int)
    requires
        0 <= count <= list.len(),
        forall|i: int| 0 <= i < list.len() ==> (#[trigger] list[i]).len() > 0,
    ensures
        texts_between_nuls(
            list.map_values(|path: Seq<char>| encode_utf8(path)).take(count),
        ) == list.take(count),
    decreases count,
{
    let pieces = list.map_values(|path: Seq<char>| encode_utf8(path));
    if count > 0 {
        pieces_are_read(list, count - 1);
        let path = list[count - 1];
        assert(path.len() > 0);
        assert(pieces.take(count).drop_last() =~= pieces.take(count - 1));
        assert(pieces.take(count).last() == encode_utf8(path));
        encode_utf8_valid_utf8(path);
        encode_utf8_decode_utf8(path);
        if encode_utf8(path).len() == 0 {
            encode_utf8_decode_utf8(Seq::empty());
            assert(encode_utf8(path) =~= encode_utf8(Seq::empty()));
        }
        assert(list.take(count) =~= list.take(count - 1).push(path));
    } else {
        assert(list.take(0) =~= Seq::empty());
        assert(pieces.take(0) =~= Seq::empty());
    }
}

/// What belongs in a snapshot is what the settings admit.
proof fn belonging_is_admission(
    store: StoreView,
    worktree: WorktreeView,
    git_ignored: Seq<Seq<char>>,
    path: Seq<char>,
)
    ensures
        belongs(worktree.lies, store, git_ignored, path) <==> !git_ignored.contains(path)
            && admits(store, worktree, path),
{
    if path_problem(store.style, path) is None {
        a_component_is_one_of_the_names(store.style, path, store.settings.ignore_directories);
        let names = components(store.style, path);
        assert(in_ignored_directory(store, path) <==> exists|i: int|
            0 <= i < names.len() && store.settings.ignore_directories.contains(
                (#[trigger] names[i]).1,
            ));
        let limit = store.settings.max_file_size_mb as nat;
        assert(1024 * 1024 == 1048576);
        assert(limit * 1048576 == limit * (1024 * 1024)) by (nonlinear_arith);
    }
}

/// What `git ls-files` says to the words that it is asked with.
proof fn the_listing_holds_what_concerns_git(
    store: StoreView,
    worktree: WorktreeView,
    source: Seq<char>,
    replies: Seq<ReplyView>,
    at: int,
    n: int,
    outcome: Option<Seq<char>>,
) -> (r: (OutputView, Seq<StatusView>))
    requires
        0 <= at,
        capture_full_step(store, source, replies, at) == StepView::Finished(outcome, n),
        worktree.names_paths(),
        all_is_told(
            worktree,
            store.root,
            |k: int| asked(store, source, replies, at, k),
            replies,
            at,
            n,
        ),
    ensures
        replies[at + 3] == ReplyView::Output(r.0),
        replies[at + 4] == ReplyView::Statuses(r.1),
        tells_what_lies(
            worktree.lies,
            looks(store, Seq::empty(), listed_paths(r.0.stdout)),
            r.1,
        ),
        forall|path: Seq<char>| #[trigger]
            listed_paths(r.0.stdout).contains(path) <==> worktree.concerns_git(path),
        forall|i: int|
            0 <= i < listed_paths(r.0.stdout).len() ==> !encode_utf8(
                #[trigger] listed_paths(r.0.stdout)[i],
            ).contains(0u8),
{
    let (output, statuses) = what_a_full_capture_asked(store, source, replies, at, n, outcome);
    let asks = |k: int| asked(store, source, replies, at, k);
    assert(is_told(worktree, store.root, asks(at + 3), replies[at + 3]));
    assert(is_told(worktree, store.root, asks(at + 4), replies[at + 4]));
    let command = asked(store, source, replies, at, at + 3)->Perform_0->Run_0;
    let options = command.arguments.skip(3);
    assert(options =~= seq!["-z"@, "--cached"@, "--others"@, "--exclude-standard"@]);
    assert(options[0] == "-z"@ && options[1] == "--cached"@ && options[2] == "--others"@
        && options[3] == "--exclude-standard"@);
    assert(git_answers(worktree, store.root, command, output));
    let which = |path: Seq<char>| lists(worktree, options, path);
    assert(says_which(output, which));
    let list = choose|list: Seq<Seq<char>>| #[trigger]
        zero_ended(list) == output.stdout && forall|path: Seq<char>| #[trigger]
            list.contains(path) <==> which(path);
    assert forall|i: int| 0 <= i < list.len() implies (#[trigger] list[i]).len() > 0
        && !encode_utf8(list[i]).contains(0u8) by {
        assert(list.contains(list[i]));
        assert(which(list[i]));
        assert(worktree.known.contains(list[i]) || worktree.files.contains_key(list[i]));
    }
    a_listing_is_read(list);
    assert forall|path: Seq<char>| #[trigger] listed_paths(output.stdout).contains(path)
        <==> worktree.concerns_git(path) by {
        assert(list.contains(path) <==> which(path));
    }
    (output, statuses)
}

/// A snapshot of the whole worktree: afterwards the newest snapshot holds every
/// file that is tracked or that is untracked and not ignored, as far as the
/// settings admit it, as it is in the worktree, and nothing else. A commit that
/// was made for that follows the newest snapshot before.
pub proof fn a_full_capture_keeps_tracked_and_untracked_files(
    worktree: WorktreeView,
    history: spec_fn(int) -> RepositoryView,
    store: StoreView,
    source: Seq<char>,
    replies: Seq<ReplyView>,
    at: int,
    n: int,
    outcome: Option<Seq<char>>,
)
    requires
        0 <= at,
        capture_full_step(store, source, replies, at) == StepView::Finished(outcome, n),
        worktree.names_paths(),
        all_is_told(
            worktree,
            store.root,
            |k: int| asked(store, source, replies, at, k),
            replies,
            at,
            n,
        ),
        witnesses(
            history,
            worktree.files,
            store,
            |k: int| asked(store, source, replies, at, k),
            replies,
            at,
            n,
        ),
    ensures
        history(n).branch matches Some(newest) && {
            &&& history(n).commits.contains_key(newest)
            &&& history(n).trees.contains_key(history(n).commits[newest])
            &&& are_the_files_to_keep(history(n).files(newest), store, worktree)
            &&& outcome matches Some(commit) ==> commit == newest && history(n).parents.contains_key(
                commit,
            ) && history(n).parents[commit] == history(at).branch
            &&& outcome is None ==> history(at).branch == Some(newest)
        },
{
    let (output, statuses) = the_listing_holds_what_concerns_git(
        store,
        worktree,
        source,
        replies,
        at,
        n,
        outcome,
    );
    the_newest_snapshot_holds_what_belongs(
        worktree.lies,
        history,
        worktree.files,
        store,
        source,
        replies,
        at,
        n,
        output,
        statuses,
        outcome,
    );
    let newest = history(n).branch->0;
    let files = history(n).files(newest);
    assert forall|path: Seq<char>| #[trigger] files.contains_key(path)
        <==> worktree.files.contains_key(path) && worktree.concerns_git(path) && admits(
        store,
        worktree,
        path,
    ) by {
        belonging_is_admission(store, worktree, Seq::empty(), path);
        assert(listed_paths(output.stdout).contains(path) <==> worktree.concerns_git(path));
        assert(worktree.files.contains_key(path) ==> path.len() > 0);
    }
}

/// A second snapshot of a worktree in which nothing has changed since the first,
/// with nothing recorded in between, makes no commit.
pub proof fn an_unchanged_worktree_is_captured_once(
    worktree: WorktreeView,
    store: StoreView,
    history: spec_fn(int) -> RepositoryView,
    source: Seq<char>,
    replies: Seq<ReplyView>,
    at: int,
    n: int,
    outcome: Option<Seq<char>>,
    later: spec_fn(int) -> RepositoryView,
    source2: Seq<char>,
    replies2: Seq<ReplyView>,
    at2: int,
    n2: int,
    outcome2: Option<Seq<char>>,
)
    requires
        worktree.names_paths(),
        0 <= at,
        capture_full_step(store, source, replies, at) == StepView::Finished(outcome, n),
        all_is_told(
            worktree,
            store.root,
            |k: int| asked(store, source, replies, at, k),
            replies,
            at,
            n,
        ),
        witnesses(
            history,
            worktree.files,
            store,
            |k: int| asked(store, source, replies, at, k),
            replies,
            at,
            n,
        ),
        history(n).grows_to(later(at2)),
        later(at2).branch == history(n).branch,
        0 <= at2,
        capture_full_step(store, source2, replies2, at2) == StepView::Finished(outcome2, n2),
        all_is_told(
            worktree,
            store.root,
            |k: int| asked(store, source2, replies2, at2, k),
            replies2,
            at2,
            n2,
        ),
        witnesses(
            later,
            worktree.files,
            store,
            |k: int| asked(store, source2, replies2, at2, k),
            replies2,
            at2,
            n2,
        ),
        later(n2).names_trees_by_contents(),
    ensures
        outcome2 is None,
        later(n2).branch == history(n).branch,
{
    let (output, statuses) = the_listing_holds_what_concerns_git(
        store,
        worktree,
        source,
        replies,
        at,
        n,
        outcome,
    );
    let (output2, statuses2) = the_listing_holds_what_concerns_git(
        store,
        worktree,
        source2,
        replies2,
        at2,
        n2,
        outcome2,
    );
    assert forall|path: Seq<char>| #[trigger] listed_paths(output.stdout).contains(path)
        <==> listed_paths(output2.stdout).contains(path) by {
        assert(listed_paths(output2.stdout).contains(path) <==> worktree.concerns_git(path));
    }
    a_second_snapshot_finds_nothing_new(
        worktree.lies,
        worktree.files,
        store,
        history,
        source,
        replies,
        at,
        n,
        output,
        statuses,
        outcome,
        later,
        source2,
        replies2,
        at2,
        n2,
        output2,
        statuses2,
        outcome2,
    );
}

/// Whether a path is reported in a way that the history can have it.
pub open spec fn is_reported(store: StoreView, paths: Seq<Seq<char>>, path: Seq<char>) -> bool {
    path_problem(store.style, path) is None && exists|i: int|
        0 <= i < paths.len() && git_form(store.style, #[trigger] paths[i]) == path
}

/// Whether a path is that of a `.gitignore`, at the root or in a directory.
pub open spec fn is_gitignore(directory: Seq<char>, path: Seq<char>) -> bool {
    path == ".gitignore"@ || path == directory + "/.gitignore"@
}

proof fn gitignore_is_one_name(directory: Seq<char>)
    ensures
        is_one_name(".gitignore"@),
        directory + "/.gitignore"@ == directory + seq!['/'] + ".gitignore"@,
        ".gitignore"@.len() == 10,
{
    reveal_strlit(".gitignore");
    reveal_strlit("/.gitignore");
    let name = ".gitignore"@;
    assert forall|j: int| 0 <= j < name.len() implies #[trigger] name[j] != '/' && name[j]
        != '\\' by {}
    assert(name.len() != seq!['.'].len());
    assert(name.len() != seq!['.', '.'].len());
    assert("/.gitignore"@ =~= seq!['/'] + name);
    assert(directory + "/.gitignore"@ =~= directory + seq!['/'] + name);
}

proof fn a_gitignore_changes_the_rules(
    store: StoreView,
    paths: Seq<Seq<char>>,
    directory: Seq<char>,
    path: Seq<char>,
)
    requires
        is_reported(store, paths, path),
        is_gitignore(directory, path),
        directory.len() + 12 < usize::MAX,
    ensures
        batch_of(store.style, paths).len() > 0,
        changes_ignore_rules(store.style, batch_of(store.style, paths)),
{
    let batch = batch_of(store.style, paths);
    batch_holds_the_usable_paths(store, paths);
    assert(batch.contains(path));
    gitignore_is_one_name(directory);
    a_path_ends_in_the_name_behind_the_slash(store.style, directory, ".gitignore"@);
    let i = choose|i: int| 0 <= i < batch.len() && batch[i] == path;
    assert(name_of(store.style, batch[i]) == Some(".gitignore"@));
}

/// A report of a changed `.gitignore`, at the root or in whatever directory,
/// goes on as a snapshot of the whole worktree, under a lock of its own,
/// whatever else is reported.
pub proof fn any_gitignore_leads_to_a_full_capture(
    store: StoreView,
    paths: Seq<Seq<char>>,
    directory: Seq<char>,
    path: Seq<char>,
    source: Seq<char>,
    replies: Seq<ReplyView>,
    at: int,
    prepared: int,
)
    requires
        is_reported(store, paths, path),
        is_gitignore(directory, path),
        directory.len() + 12 < usize::MAX,
        0 <= prepared,
        lock_step(store, replies, at) == StepView::<()>::Finished((), at + 2),
        prepare_index_step(store, replies, at + 2) == StepView::<()>::Finished((), prepared),
    ensures
        prepared >= replies.len() ==> capture_paths_step(store, paths, source, replies, at)
            == StepView::<Option<Seq<char>>>::Perform(ActionView::Unlock),
        prepared < replies.len() && replies[prepared] is Done ==> capture_paths_step(
            store,
            paths,
            source,
            replies,
            at,
        ) == capture_full_step(store, source, replies, prepared + 1),
{
    a_gitignore_changes_the_rules(store, paths, directory, path);
}

/// What a changed `.gitignore` brings in or takes out is not left to later
/// reports: after a report of one, in whatever directory, the newest snapshot
/// holds exactly the files of the worktree that are to be kept now.
pub proof fn a_changed_gitignore_reconciles_the_whole_worktree(
    worktree: WorktreeView,
    history: spec_fn(int) -> RepositoryView,
    store: StoreView,
    paths: Seq<Seq<char>>,
    directory: Seq<char>,
    path: Seq<char>,
    source: Seq<char>,
    replies: Seq<ReplyView>,
    at: int,
    n: int,
    outcome: Option<Seq<char>>,
)
    requires
        is_reported(store, paths, path),
        is_gitignore(directory, path),
        directory.len() + 12 < usize::MAX,
        0 <= at,
        capture_paths_step(store, paths, source, replies, at) == StepView::Finished(outcome, n),
        worktree.names_paths(),
        all_is_told(
            worktree,
            store.root,
            |k: int| asked_for_paths(store, paths, source, replies, at, k),
            replies,
            at,
            n,
        ),
        history(at).has_its_newest(),
        witnesses(
            history,
            worktree.files,
            store,
            |k: int| asked_for_paths(store, paths, source, replies, at, k),
            replies,
            at,
            n,
        ),
    ensures
        history(n).branch matches Some(newest) && {
            &&& history(n).commits.contains_key(newest)
            &&& history(n).trees.contains_key(history(n).commits[newest])
            &&& are_the_files_to_keep(history(n).files(newest), store, worktree)
            &&& outcome matches Some(commit) ==> commit == newest && history(n).parents.contains_key(
                commit,
            ) && history(n).parents[commit] == history(at).branch
            &&& outcome is None ==> history(at).branch == Some(newest)
        },
{
    a_gitignore_changes_the_rules(store, paths, directory, path);
    let start = a_full_capture_takes_over(store, paths, source, replies, at, n, outcome);
    the_index_is_prepared(
        history,
        worktree.files,
        store,
        paths,
        source,
        replies,
        at,
        start,
        n,
    );
    let asks = |k: int| asked_for_paths(store, paths, source, replies, at, k);
    let then_asks = |k: int| asked(store, source, replies, start + 1, k);
    assert(happens(
        worktree.files,
        store,
        asks(start),
        replies[start],
        history(start),
        history(start + 1),
    ));
    assert(history(start + 1) == history(start));
    assert forall|k: int| start + 1 <= k < n implies is_told(
        worktree,
        store.root,
        then_asks(k),
        #[trigger] replies[k],
    ) by {
        assert(is_told(worktree, store.root, asks(k), replies[k]));
        assert(asked_for_paths(store, paths, source, replies, at, k) == asked(
            store,
            source,
            replies,
            start + 1,
            k,
        ));
    }
    assert forall|k: int| start + 1 <= k < n implies happens(
        worktree.files,
        store,
        then_asks(k),
        replies[k],
        #[trigger] history(k),
        history(k + 1),
    ) by {
        assert(happens(
            worktree.files,
            store,
            asks(k),
            replies[k],
            history(k),
            history(k + 1),
        ));
        assert(asked_for_paths(store, paths, source, replies, at, k) == asked(
            store,
            source,
            replies,
            start + 1,
            k,
        ));
    }
    a_full_capture_keeps_tracked_and_untracked_files(
        worktree,
        history,
        store,
        source,
        replies,
        start + 1,
        n,
        outcome,
    );
}

/// Whether a report tells of no `.gitignore`: none of its paths has that name.
pub open spec fn tells_of_no_gitignore(store: StoreView, paths: Seq<Seq<char>>) -> bool {
    forall|path: Seq<char>| #[trigger]
        is_reported(store, paths, path) ==> components(store.style, path).last() != (
            PartKind::Normal,
            ".gitignore"@,
        )
}

proof fn no_gitignore_changes_no_rules(store: StoreView, paths: Seq<Seq<char>>)
    requires
        tells_of_no_gitignore(store, paths),
    ensures
        !changes_ignore_rules(store.style, batch_of(store.style, paths)),
{
    let batch = batch_of(store.style, paths);
    batch_holds_the_usable_paths(store, paths);
    if changes_ignore_rules(store.style, batch) {
        let i = choose|i: int|
            0 <= i < batch.len() && name_of(store.style, #[trigger] batch[i]) == Some(
                ".gitignore"@,
            );
        assert(batch.contains(batch[i]));
        assert(is_reported(store, paths, batch[i]));
        the_name_is_the_last_component(store.style, batch[i]);
    }
}

/// What `git check-ignore` says to the words that it is asked with.
proof fn the_ignored_paths_are_told(
    store: StoreView,
    worktree: WorktreeView,
    paths: Seq<Seq<char>>,
    source: Seq<char>,
    replies: Seq<ReplyView>,
    at: int,
    start: int,
    n: int,
    outcome: Option<Seq<char>>,
) -> (r: (OutputView, Seq<StatusView>))
    requires
        begins_batch(store, paths, replies, at, start),
        capture_paths_step(store, paths, source, replies, at) == StepView::Finished(outcome, n),
        forall|i: int|
            0 <= i < batch_of(store.style, paths).len() ==> !encode_utf8(
                #[trigger] batch_of(store.style, paths)[i],
            ).contains(0u8),
        all_is_told(
            worktree,
            store.root,
            |k: int| asked_for_paths(store, paths, source, replies, at, k),
            replies,
            at,
            n,
        ),
    ensures
        replies[start] == ReplyView::Output(r.0),
        replies[start + 1] == ReplyView::Statuses(r.1),
        start < n,
        tells_what_lies(
            worktree.lies,
            looks(store, listed_paths(r.0.stdout), batch_of(store.style, paths)),
            r.1,
        ),
        forall|path: Seq<char>| #[trigger]
            listed_paths(r.0.stdout).contains(path) <==> batch_of(store.style, paths).contains(path)
                && worktree.ignored.contains(path) && !worktree.known.contains(path),
{
    let batch = batch_of(store.style, paths);
    let (checked, statuses) = what_a_batch_asked(
        store,
        paths,
        source,
        replies,
        at,
        start,
        n,
        outcome,
    );
    let asks = |k: int| asked_for_paths(store, paths, source, replies, at, k);
    assert(is_told(worktree, store.root, asks(start), replies[start]));
    assert(is_told(worktree, store.root, asks(start + 1), replies[start + 1]));
    let command = asked_for_paths(store, paths, source, replies, at, start)->Perform_0->Run_0;
    assert(command.arguments.skip(2) =~= seq!["check-ignore"@, "-z"@, "--stdin"@]);
    assert(git_answers(worktree, store.root, command, checked));
    let input = nul_terminated(batch);
    let which = |path: Seq<char>|
        is_named(input, path) && worktree.ignored.contains(path) && !worktree.known.contains(path);
    assert(says_which(checked, which));
    let list = choose|list: Seq<Seq<char>>| #[trigger]
        zero_ended(list) == checked.stdout && forall|path: Seq<char>| #[trigger]
            list.contains(path) <==> which(path);
    batch_holds_the_usable_paths(store, paths);
    assert forall|i: int| 0 <= i < list.len() implies (#[trigger] list[i]).len() > 0
        && !encode_utf8(list[i]).contains(0u8) by {
        assert(list.contains(list[i]));
        assert(which(list[i]));
        named_are_the_paths(batch, list[i]);
        let k = choose|k: int| 0 <= k < batch.len() && batch[k] == list[i];
        assert(!encode_utf8(batch[k]).contains(0u8));
    }
    a_listing_is_read(list);
    assert forall|path: Seq<char>| #[trigger] listed_paths(checked.stdout).contains(path)
        <==> batch.contains(path) && worktree.ignored.contains(path) && !worktree.known.contains(
        path,
    ) by {
        assert(list.contains(path) <==> which(path));
        if path.len() > 0 {
            named_are_the_paths(batch, path);
        } else {
            assert(batch.contains(path) ==> path_problem(store.style, path) is None);
        }
    }
    (checked, statuses)
}

/// A report brings the history up to date with what it tells of, and with
/// nothing else: of a reported path, the newest snapshot holds what a snapshot of
/// the whole worktree would hold; of any other path, what the private index held
/// before, which is made from the newest snapshot where there is none.
pub proof fn a_report_brings_reported_paths_up_to_date(
    worktree: WorktreeView,
    history: spec_fn(int) -> RepositoryView,
    store: StoreView,
    paths: Seq<Seq<char>>,
    source: Seq<char>,
    replies: Seq<ReplyView>,
    at: int,
    n: int,
    outcome: Option<Seq<char>>,
    path: Seq<char>,
)
    requires
        0 <= at,
        tells_of_no_gitignore(store, paths),
        exists|usable: Seq<char>| is_reported(store, paths, usable),
        forall|usable: Seq<char>| #[trigger]
            is_reported(store, paths, usable) ==> !encode_utf8(usable).contains(0u8),
        capture_paths_step(store, paths, source, replies, at) == StepView::Finished(outcome, n),
        all_is_told(
            worktree,
            store.root,
            |k: int| asked_for_paths(store, paths, source, replies, at, k),
            replies,
            at,
            n,
        ),
        history(at).has_its_newest(),
        witnesses(
            history,
            worktree.files,
            store,
            |k: int| asked_for_paths(store, paths, source, replies, at, k),
            replies,
            at,
            n,
        ),
        path.len() > 0,
    ensures
        replies[at + 2] matches ReplyView::Flags(there) && there.len() > 0 && (
        history(n).branch matches Some(newest) && {
            let before = prepared_index(history(at), there[0]);
            let after = history(n);
            &&& outcome matches Some(commit) ==> commit == newest
            &&& outcome is None ==> history(at).branch == Some(newest)
            &&& if is_reported(store, paths, path) {
                &&& after.has_file(newest, path) <==> worktree.files.contains_key(path)
                    && worktree.concerns_git(path) && admits(store, worktree, path)
                &&& after.has_file(newest, path) ==> after.file(newest, path)
                    == worktree.files[path]
            } else {
                &&& after.has_file(newest, path) <==> before.contains_key(path)
                &&& after.has_file(newest, path) ==> after.file(newest, path) == before[path]
            }
        }),
{
    let batch = batch_of(store.style, paths);
    batch_holds_the_usable_paths(store, paths);
    let usable = choose|usable: Seq<char>| is_reported(store, paths, usable);
    assert(batch.contains(usable));
    no_gitignore_changes_no_rules(store, paths);
    let start = a_batch_begins(store, paths, source, replies, at, n, outcome);
    assert forall|i: int| 0 <= i < batch.len() implies !encode_utf8(#[trigger] batch[i]).contains(
        0u8,
    ) by {
        assert(batch.contains(batch[i]));
        assert(is_reported(store, paths, batch[i]));
    }
    let (checked, statuses) = the_ignored_paths_are_told(
        store,
        worktree,
        paths,
        source,
        replies,
        at,
        start,
        n,
        outcome,
    );
    the_index_is_prepared(
        history,
        worktree.files,
        store,
        paths,
        source,
        replies,
        at,
        start,
        n,
    );
    a_report_is_recorded(
        worktree.lies,
        history,
        worktree.files,
        store,
        paths,
        source,
        replies,
        at,
        start,
        n,
        checked,
        statuses,
        outcome,
        path,
    );
    let ignored = listed_paths(checked.stdout);
    belonging_is_admission(store, worktree, ignored, path);
    assert(ignored.contains(path) <==> batch.contains(path) && worktree.ignored.contains(path)
        && !worktree.known.contains(path));
    assert(batch.contains(path) <==> is_reported(store, paths, path));
}

} // verus!
