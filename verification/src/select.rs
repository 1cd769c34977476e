//! Which paths enter a snapshot and which leave it.

use crate::git_store::{path_problem, validate_relative_path, ProjectStore, StoreView};
use crate::ordered::{ascending, holds_text, sort_texts, sorted_set_is_the_set};
use crate::outside::{lossy_text, text_lossy};
use crate::paths::{any_component_in, has_component_in, join, joined};
use crate::procedure::{
    reply_step, reply_to, Action, ActionView, Failure, FailureView, FileStatus, Reply, ReplyView,
    StatusView, Step, StepView,
};
use crate::text::{join2, split, split_bytes};
use vstd::prelude::*;
use vstd::utf8::{decode_utf8, valid_utf8};

verus! {

/// The text that bytes are read as: what they encode, where they are UTF-8.
pub open spec fn read_text(bytes: Seq<u8>) -> Seq<char> {
    if valid_utf8(bytes) {
        decode_utf8(bytes)
    } else {
        lossy_text(bytes)
    }
}

/// The texts between zero bytes, but for empty ones.
pub open spec fn texts_between_nuls(pieces: Seq<Seq<u8>>) -> Seq<Seq<char>>
    decreases pieces.len(),
{
    if pieces.len() == 0 {
        Seq::empty()
    } else {
        let before = texts_between_nuls(pieces.drop_last());
        if pieces.last().len() == 0 {
            before
        } else {
            before.push(read_text(pieces.last()))
        }
    }
}

/// The paths that Git lists, each with a zero byte behind it.
pub open spec fn listed_paths(bytes: Seq<u8>) -> Seq<Seq<char>> {
    texts_between_nuls(split(bytes, 0u8))
}

/// The paths that Git lists, each with a zero byte behind it.
pub fn read_nul_paths(bytes: &Vec<u8>) -> (paths: Vec<String>)
    ensures
        paths.deep_view() == listed_paths(bytes@),
{
    let pieces = split_bytes(bytes, 0);
    let mut paths: Vec<String> = Vec::new();
    let mut i: usize = 0;
    assert(paths.deep_view() =~= texts_between_nuls(pieces.deep_view().take(0)));
    while i < pieces.len()
        invariant
            i <= pieces@.len(),
            paths.deep_view() == texts_between_nuls(pieces.deep_view().take(i as int)),
        decreases pieces@.len() - i,
    {
        let ghost before = paths.deep_view();
        let ghost all = pieces.deep_view();
        assert(all.take(i + 1).drop_last() =~= all.take(i as int));
        assert(all.take(i + 1).last() =~= pieces@[i as int]@);
        if pieces[i].len() > 0 {
            let text = text_lossy(&pieces[i]);
            paths.push(text);
            assert(paths.deep_view() =~= before.push(text@));
        }
        i = i + 1;
    }
    assert(pieces.deep_view().take(pieces@.len() as int) =~= pieces.deep_view());
    paths
}

/// The paths of a batch that stay in the snapshot, and those that leave it.
#[derive(Debug, PartialEq, Eq)]
pub struct Selection {
    pub included: Vec<String>,
    pub removed: Vec<String>,
}

/// What a [`Selection`] says.
pub struct SelectionView {
    pub included: Seq<Seq<char>>,
    pub removed: Seq<Seq<char>>,
}

impl DeepView for Selection {
    type V = SelectionView;

    open spec fn deep_view(&self) -> SelectionView {
        SelectionView { included: self.included.deep_view(), removed: self.removed.deep_view() }
    }
}

/// Whether a path lies in one of the ignored directories, or is one of them.
pub open spec fn in_ignored_directory(store: StoreView, path: Seq<char>) -> bool {
    has_component_in(store.style, path, store.settings.ignore_directories)
}

/// Whether what lies at the path decides.
pub open spec fn needs_look(store: StoreView, git_ignored: Seq<Seq<char>>, path: Seq<char>) -> bool {
    &&& !git_ignored.contains(path)
    &&& path_problem(store.style, path) is None
    &&& !in_ignored_directory(store, path)
}

/// The paths of a batch for which what lies there decides.
pub open spec fn looks(
    store: StoreView,
    git_ignored: Seq<Seq<char>>,
    paths: Seq<Seq<char>>,
) -> Seq<Seq<char>>
    decreases paths.len(),
{
    if paths.len() == 0 {
        Seq::empty()
    } else {
        let before = looks(store, git_ignored, paths.drop_last());
        if needs_look(store, git_ignored, paths.last()) {
            before.push(joined(store.style, store.root, paths.last()))
        } else {
            before
        }
    }
}

/// Whether what lies at a path is kept: everything but regular files that are
/// too large. Of what is missing, it is kept that it is missing.
pub open spec fn keeps(store: StoreView, status: StatusView) -> bool {
    match status {
        StatusView::Regular(size) => size <= store.settings.max_bytes(),
        _ => true,
    }
}

/// The failure to find out what lies at a path.
pub open spec fn inspect_failure(
    store: StoreView,
    path: Seq<char>,
    cause: Seq<char>,
) -> FailureView {
    FailureView::Unavailable {
        context: "failed to inspect "@ + joined(store.style, store.root, path),
        cause,
    }
}

/// Whether a path stays in the snapshot, given what lies there; nothing where
/// that has to be found out first.
pub open spec fn inclusion(
    store: StoreView,
    path: Seq<char>,
    status: Option<StatusView>,
) -> Result<Option<bool>, FailureView> {
    match path_problem(store.style, path) {
        Some(f) => Err(f),
        None => if in_ignored_directory(store, path) {
            Ok(Some(false))
        } else {
            match status {
                None => Ok(None),
                Some(StatusView::Unreadable(cause)) => Err(inspect_failure(store, path, cause)),
                Some(status) => Ok(Some(keeps(store, status))),
            }
        },
    }
}

/// The selection from a batch, given what Git ignores and what lies at the
/// paths that were looked at.
pub open spec fn selection(
    store: StoreView,
    git_ignored: Seq<Seq<char>>,
    paths: Seq<Seq<char>>,
    statuses: Seq<StatusView>,
) -> Result<SelectionView, FailureView>
    decreases paths.len(),
{
    if paths.len() == 0 {
        Ok(SelectionView { included: Seq::empty(), removed: Seq::empty() })
    } else {
        let path = paths.last();
        match selection(store, git_ignored, paths.drop_last(), statuses) {
            Err(f) => Err(f),
            Ok(before) => {
                let removed = SelectionView {
                    included: before.included,
                    removed: before.removed.push(path),
                };
                let included = SelectionView {
                    included: before.included.push(path),
                    removed: before.removed,
                };
                let status = statuses[looks(store, git_ignored, paths.drop_last()).len() as int];
                if git_ignored.contains(path) {
                    Ok(removed)
                } else {
                    match inclusion(store, path, Some(status)) {
                        Err(f) => Err(f),
                        Ok(answer) => if answer == Some(true) {
                            Ok(included)
                        } else {
                            Ok(removed)
                        },
                    }
                }
            },
        }
    }
}

/// The selection from a batch, given what Git ignores.
pub open spec fn select_step(
    store: StoreView,
    git_ignored: Seq<Seq<char>>,
    paths: Seq<Seq<char>>,
    replies: Seq<ReplyView>,
    at: int,
) -> StepView<SelectionView> {
    let wanted = looks(store, git_ignored, paths);
    match reply_step(
        replies,
        at,
        ActionView::Inspect(wanted),
        "failed to inspect the worktree"@,
    ) {
        StepView::Perform(a) => StepView::Perform(a),
        StepView::Failed(f) => StepView::Failed(f),
        StepView::Finished(ReplyView::Statuses(statuses), n) => if statuses.len() != wanted.len() {
            StepView::Failed(FailureView::UnexpectedReply)
        } else {
            match selection(store, git_ignored, paths, statuses) {
                Ok(chosen) => StepView::Finished(chosen, n),
                Err(f) => StepView::Failed(f),
            }
        },
        StepView::Finished(_, _) => StepView::Failed(FailureView::UnexpectedReply),
    }
}

proof fn looks_grow(store: StoreView, git_ignored: Seq<Seq<char>>, paths: Seq<Seq<char>>, i: int)
    requires
        0 <= i <= paths.len(),
    ensures
        looks(store, git_ignored, paths.take(i)).len() <= looks(store, git_ignored, paths).len(),
    decreases paths.len() - i,
{
    if i < paths.len() {
        looks_grow(store, git_ignored, paths, i + 1);
        assert(paths.take(i + 1).drop_last() =~= paths.take(i));
    } else {
        assert(paths.take(i) =~= paths);
    }
}

proof fn selection_fails_early(
    store: StoreView,
    git_ignored: Seq<Seq<char>>,
    paths: Seq<Seq<char>>,
    statuses: Seq<StatusView>,
    i: int,
)
    requires
        0 <= i <= paths.len(),
        selection(store, git_ignored, paths.take(i), statuses) is Err,
    ensures
        selection(store, git_ignored, paths, statuses) == selection(
            store,
            git_ignored,
            paths.take(i),
            statuses,
        ),
    decreases paths.len() - i,
{
    if i < paths.len() {
        assert(paths.take(i + 1).drop_last() =~= paths.take(i));
        selection_fails_early(store, git_ignored, paths, statuses, i + 1);
    } else {
        assert(paths.take(i) =~= paths);
    }
}

impl ProjectStore {
    /// Whether a path stays in the snapshot, given what lies there; nothing
    /// where that has to be found out first.
    pub fn should_include(&self, relative: &str, status: Option<&FileStatus>) -> (r: Result<
        Option<bool>,
        Failure,
    >)
        ensures
            match inclusion(self.deep_view(), relative@, status.deep_view()) {
                Ok(answer) => r == Ok::<Option<bool>, Failure>(answer),
                Err(failure) => r matches Err(f) && f.deep_view() == failure,
            },
    {
        match validate_relative_path(self.style, relative) {
            Err(f) => {
                return Err(f);
            },
            Ok(_) => {},
        }
        if any_component_in(self.style, relative, &self.settings.ignore_directories) {
            return Ok(Some(false));
        }
        match status {
            None => Ok(None),
            Some(FileStatus::Regular(size)) => Ok(
                Some(*size <= self.settings.max_file_size_bytes()),
            ),
            Some(FileStatus::Other) => Ok(Some(true)),
            Some(FileStatus::Missing) => Ok(Some(true)),
            Some(FileStatus::Unreadable(cause)) => {
                let absolute = join(self.style, self.root.as_str(), relative);
                Err(
                    Failure::Unavailable {
                        context: join2("failed to inspect ", absolute.as_str()),
                        cause: cause.clone(),
                    },
                )
            },
        }
    }

    /// The places that have to be looked at to select from a batch.
    pub fn places(&self, git_ignored: &Vec<String>, paths: &Vec<String>) -> (list: Vec<String>)
        ensures
            list.deep_view() == looks(
                self.deep_view(),
                git_ignored.deep_view(),
                paths.deep_view(),
            ),
    {
        let mut list: Vec<String> = Vec::new();
        let ghost all = paths.deep_view();
        let ignored = sort_texts(git_ignored);
        proof {
            sorted_set_is_the_set(git_ignored.deep_view());
        }
        let mut i: usize = 0;
        assert(list.deep_view() =~= looks(
            self.deep_view(),
            git_ignored.deep_view(),
            all.take(0),
        ));
        while i < paths.len()
            invariant
                i <= paths@.len(),
                all == paths.deep_view(),
                ascending(ignored.deep_view()),
                forall|x: Seq<char>| #[trigger]
                    ignored.deep_view().contains(x) <==> git_ignored.deep_view().contains(x),
                list.deep_view() == looks(
                    self.deep_view(),
                    git_ignored.deep_view(),
                    all.take(i as int),
                ),
            decreases paths@.len() - i,
        {
            let ghost before = list.deep_view();
            assert(all.take(i + 1).drop_last() =~= all.take(i as int));
            let path = paths[i].as_str();
            if !holds_text(&ignored, path) {
                if let Ok(None) = self.should_include(path, None) {
                    let place = join(self.style, self.root.as_str(), path);
                    list.push(place);
                    assert(list.deep_view() =~= before.push(place@));
                }
            }
            i = i + 1;
        }
        assert(all.take(paths@.len() as int) =~= all);
        list
    }

    /// Selects from a batch, given what Git ignores and what lies at the
    /// places that had to be looked at.
    pub fn choose_paths(
        &self,
        git_ignored: &Vec<String>,
        paths: &Vec<String>,
        statuses: &Vec<FileStatus>,
    ) -> (r: Result<Selection, Failure>)
        requires
            statuses@.len() == looks(
                self.deep_view(),
                git_ignored.deep_view(),
                paths.deep_view(),
            ).len(),
        ensures
            match selection(
                self.deep_view(),
                git_ignored.deep_view(),
                paths.deep_view(),
                statuses.deep_view(),
            ) {
                Ok(chosen) => r matches Ok(s) && s.deep_view() == chosen,
                Err(failure) => r matches Err(f) && f.deep_view() == failure,
            },
    {
        let ghost store = self.deep_view();
        let ghost ignored = git_ignored.deep_view();
        let ghost all = paths.deep_view();
        let ghost seen = statuses.deep_view();
        let mut included: Vec<String> = Vec::new();
        let mut removed: Vec<String> = Vec::new();
        let mut i: usize = 0;
        let mut next: usize = 0;
        let total: usize = statuses.len();
        let sorted = sort_texts(git_ignored);
        proof {
            sorted_set_is_the_set(ignored);
        }
        assert(included.deep_view() =~= Seq::empty());
        assert(removed.deep_view() =~= Seq::empty());
        while i < paths.len()
            invariant
                i <= paths@.len(),
                store == self.deep_view(),
                ignored == git_ignored.deep_view(),
                ascending(sorted.deep_view()),
                forall|x: Seq<char>| #[trigger]
                    sorted.deep_view().contains(x) <==> ignored.contains(x),
                all == paths.deep_view(),
                seen == statuses.deep_view(),
                seen.len() == looks(store, ignored, all).len(),
                total == seen.len(),
                next == looks(store, ignored, all.take(i as int)).len(),
                selection(store, ignored, all.take(i as int), seen) == Ok::<
                    SelectionView,
                    FailureView,
                >(
                    SelectionView {
                        included: included.deep_view(),
                        removed: removed.deep_view(),
                    },
                ),
            decreases paths@.len() - i,
        {
            let ghost kept = included.deep_view();
            let ghost gone = removed.deep_view();
            proof {
                assert(all.take(i + 1).drop_last() =~= all.take(i as int));
                assert(all.take(i + 1).last() == paths@[i as int]@);
                looks_grow(store, ignored, all, i + 1);
            }
            let path = paths[i].as_str();
            let mut keep = false;
            if !holds_text(&sorted, path) {
                match self.should_include(path, None) {
                    Err(f) => {
                        proof {
                            selection_fails_early(store, ignored, all, seen, i + 1);
                        }
                        return Err(f);
                    },
                    Ok(Some(_)) => {},
                    Ok(None) => {
                        assert(needs_look(store, ignored, path@));
                        assert(next < total);
                        assert(seen[next as int] == statuses@[next as int].deep_view());
                        match self.should_include(path, Some(&statuses[next])) {
                            Err(f) => {
                                proof {
                                    selection_fails_early(store, ignored, all, seen, i + 1);
                                }
                                return Err(f);
                            },
                            Ok(answer) => {
                                keep = match answer {
                                    Some(yes) => yes,
                                    None => false,
                                };
                            },
                        }
                        next = next + 1;
                    },
                }
            }
            if keep {
                included.push(paths[i].clone());
                assert(included.deep_view() =~= kept.push(paths@[i as int]@));
            } else {
                removed.push(paths[i].clone());
                assert(removed.deep_view() =~= gone.push(paths@[i as int]@));
            }
            i = i + 1;
        }
        assert(all.take(paths@.len() as int) =~= all);
        Ok(Selection { included, removed })
    }

    /// Selects from a batch, given what Git ignores.
    pub fn select(
        &self,
        git_ignored: &Vec<String>,
        paths: &Vec<String>,
        replies: &Vec<Reply>,
        at: usize,
    ) -> (step: Step<Selection>)
        ensures
            step.deep_view() == select_step(
                self.deep_view(),
                git_ignored.deep_view(),
                paths.deep_view(),
                replies.deep_view(),
                at as int,
            ),
    {
        let wanted = self.places(git_ignored, paths);
        let count: usize = wanted.len();
        match reply_to(replies, at, Action::Inspect(wanted), "failed to inspect the worktree") {
            Step::Perform(a) => Step::Perform(a),
            Step::Failed(f) => Step::Failed(f),
            Step::Finished(Reply::Statuses(statuses), n) => {
                if statuses.len() != count {
                    return Step::Failed(Failure::UnexpectedReply);
                }
                match self.choose_paths(git_ignored, paths, statuses) {
                    Ok(chosen) => Step::Finished(chosen, n),
                    Err(f) => Step::Failed(f),
                }
            },
            Step::Finished(_, _) => Step::Failed(Failure::UnexpectedReply),
        }
    }
}

} // verus!
