//! Reading the history of a file: its snapshots, and what it was in one.

use crate::commit::has_history_step;
use crate::git_store::{
    git_form, git_path, path_problem, private_git, validate_relative_path, ProjectStore, StoreView,
    HISTORY_REF,
};
use crate::numbers::{decimal, decimal_text, i64_of, parse_i64};
use crate::outside::{describe_i64, i64_problem, text_strict, utf8_problem};
use crate::procedure::{
    run, run_step, succeed, succeed_step, Failure, FailureView, InvocationView, Reply, ReplyView,
    Step, StepView,
};
use crate::text::{chars_of, join3, split, split_chars, text_between, text_of};
use crate::native::is_text;
use vstd::prelude::*;
use vstd::utf8::{decode_utf8, valid_utf8};

verus! {

/// A state that a file was in.
#[derive(Debug, PartialEq, Eq)]
pub struct Snapshot {
    pub commit: String,
    pub timestamp: i64,
    pub summary: String,
}

/// What a [`Snapshot`] says.
pub struct SnapshotView {
    pub commit: Seq<char>,
    pub timestamp: i64,
    pub summary: Seq<char>,
}

impl DeepView for Snapshot {
    type V = SnapshotView;

    open spec fn deep_view(&self) -> SnapshotView {
        SnapshotView {
            commit: self.commit@,
            timestamp: self.timestamp,
            summary: self.summary@,
        }
    }
}

/// The commits that changed the file: hash, time and subject between tabs.
pub open spec fn log_command(store: StoreView, relative: Seq<char>, limit: nat) -> InvocationView {
    private_git(
        store,
        seq![
            "log"@,
            HISTORY_REF@,
            "--format=%H%x09%ct%x09%s"@,
            "--max-count"@,
            decimal(limit),
            "--"@,
            relative,
        ],
        None,
    )
}

/// A line of the log: commit, time and subject between tabs. The subject can
/// hold tabs, or be missing.
pub open spec fn snapshot_of_line(line: Seq<char>) -> Result<SnapshotView, FailureView> {
    let fields = split(line, '\t');
    if fields.len() < 2 {
        Err(FailureView::MissingTimestamp)
    } else {
        match i64_of(fields[1]) {
            None => Err(FailureView::InvalidTimestamp(i64_problem(fields[1]))),
            Some(timestamp) => Ok(
                SnapshotView {
                    commit: fields[0],
                    timestamp,
                    summary: if fields.len() == 2 {
                        Seq::empty()
                    } else {
                        line.skip((fields[0].len() + fields[1].len() + 2) as int)
                    },
                },
            ),
        }
    }
}

/// A line as it is between line ends: a carriage return before a line feed
/// belongs to the line end.
pub open spec fn line_at(pieces: Seq<Seq<char>>, i: int) -> Seq<char> {
    let piece = pieces[i];
    if i < pieces.len() - 1 && piece.len() > 0 && piece.last() == '\r' {
        piece.drop_last()
    } else {
        piece
    }
}

/// The snapshots in the first `count` lines, but for empty ones; the first
/// failure where there is one.
pub open spec fn snapshots_in(pieces: Seq<Seq<char>>, count: int) -> Result<
    Seq<SnapshotView>,
    FailureView,
>
    decreases count,
{
    if count <= 0 {
        Ok(Seq::empty())
    } else {
        match snapshots_in(pieces, count - 1) {
            Err(f) => Err(f),
            Ok(before) => {
                let line = line_at(pieces, count - 1);
                if line.len() == 0 {
                    Ok(before)
                } else {
                    match snapshot_of_line(line) {
                        Ok(snapshot) => Ok(before.push(snapshot)),
                        Err(f) => Err(f),
                    }
                }
            },
        }
    }
}

/// The snapshots in a log.
pub open spec fn snapshots_of(log: Seq<u8>) -> Result<Seq<SnapshotView>, FailureView> {
    if valid_utf8(log) {
        let pieces = split(decode_utf8(log), '\n');
        snapshots_in(pieces, pieces.len() as int)
    } else {
        Err(
            FailureView::NotUtf8 {
                context: "git log returned non-UTF-8 data"@,
                cause: utf8_problem(log),
            },
        )
    }
}

/// The snapshots that changed a file, latest first, no more than `limit`.
pub open spec fn list_step(
    store: StoreView,
    relative: Seq<char>,
    limit: nat,
    replies: Seq<ReplyView>,
    at: int,
) -> StepView<Seq<SnapshotView>> {
    match path_problem(store.style, relative) {
        Some(f) => StepView::Failed(f),
        None => match has_history_step(store, replies, at) {
            StepView::Perform(a) => StepView::Perform(a),
            StepView::Failed(f) => StepView::Failed(f),
            StepView::Finished(false, n) => StepView::Finished(Seq::empty(), n),
            StepView::Finished(true, n) => match succeed_step(
                replies,
                n,
                log_command(store, relative, limit),
                "failed to query local history"@,
                "git log"@,
            ) {
                StepView::Perform(a) => StepView::Perform(a),
                StepView::Failed(f) => StepView::Failed(f),
                StepView::Finished(output, n) => match snapshots_of(output.stdout) {
                    Ok(snapshots) => StepView::Finished(snapshots, n),
                    Err(f) => StepView::Failed(f),
                },
            },
        },
    }
}

/// Whether a text can name a snapshot: seven hexadecimal digits, or more.
pub open spec fn is_revision(s: Seq<char>) -> bool {
    s.len() >= 7 && forall|i: int| 0 <= i < s.len() ==> is_hex_digit(#[trigger] s[i])
}

pub open spec fn is_hex_digit(c: char) -> bool {
    ('0' <= c <= '9') || ('a' <= c <= 'f') || ('A' <= c <= 'F')
}

/// A file in a snapshot, as Git names it.
pub open spec fn object_of(store: StoreView, relative: Seq<char>, revision: Seq<char>) -> Seq<
    char,
> {
    revision + ":"@ + git_form(store.style, relative)
}

pub open spec fn inspect_object_command(store: StoreView, object: Seq<char>) -> InvocationView {
    private_git(store, seq!["cat-file"@, "-e"@, object], None)
}

pub open spec fn show_object_command(store: StoreView, object: Seq<char>) -> InvocationView {
    private_git(store, seq!["show"@, object], None)
}

/// What a file was in a snapshot; nothing where it was not in it.
pub open spec fn show_step(
    store: StoreView,
    relative: Seq<char>,
    revision: Seq<char>,
    replies: Seq<ReplyView>,
    at: int,
) -> StepView<Option<Seq<u8>>> {
    let object = object_of(store, relative, revision);
    match path_problem(store.style, relative) {
        Some(f) => StepView::Failed(f),
        None => if !is_revision(revision) {
            StepView::Failed(FailureView::InvalidRevision)
        } else if relative.contains('\0') {
            StepView::Failed(
                FailureView::NotText(
                    "non-UTF-8 paths are not supported by the Watchman integration"@,
                ),
            )
        } else {
            match run_step(
                replies,
                at,
                inspect_object_command(store, object),
                "failed to inspect snapshot"@,
            ) {
                StepView::Perform(a) => StepView::Perform(a),
                StepView::Failed(f) => StepView::Failed(f),
                StepView::Finished(output, n) => if !output.success() {
                    StepView::Finished(None, n)
                } else {
                    match succeed_step(
                        replies,
                        n,
                        show_object_command(store, object),
                        "failed to read snapshot"@,
                        "git show"@,
                    ) {
                        StepView::Perform(a) => StepView::Perform(a),
                        StepView::Failed(f) => StepView::Failed(f),
                        StepView::Finished(output, n) => StepView::Finished(
                            Some(output.stdout),
                            n,
                        ),
                    }
                },
            }
        },
    }
}

proof fn split_lengths(s: Seq<char>, mark: char)
    ensures
        split(s, mark).len() >= 1,
        split(s, mark).len() == 1 ==> split(s, mark)[0].len() == s.len(),
        split(s, mark).len() == 2 ==> split(s, mark)[0].len() + split(s, mark)[1].len() + 1
            == s.len(),
        split(s, mark).len() >= 3 ==> split(s, mark)[0].len() + split(s, mark)[1].len() + 2
            <= s.len(),
    decreases s.len(),
{
    if s.len() > 0 {
        split_lengths(s.drop_last(), mark);
    }
}

/// Reads a line of the log.
pub fn parse_snapshot(line: &str) -> (r: Result<Snapshot, Failure>)
    ensures
        match snapshot_of_line(line@) {
            Ok(snapshot) => r matches Ok(s) && s.deep_view() == snapshot,
            Err(failure) => r matches Err(f) && f.deep_view() == failure,
        },
{
    let chars = chars_of(line);
    let length: usize = chars.len();
    let fields = split_chars(&chars, '\t');
    proof {
        split_lengths(line@, '\t');
    }
    if fields.len() < 2 {
        return Err(Failure::MissingTimestamp);
    }
    assert(fields.deep_view()[0] =~= fields@[0]@);
    assert(fields.deep_view()[1] =~= fields@[1]@);
    let time = text_of(&fields[1]);
    match parse_i64(time.as_str()) {
        None => Err(Failure::InvalidTimestamp(describe_i64(time.as_str()))),
        Some(timestamp) => {
            let summary = if fields.len() == 2 {
                String::new()
            } else {
                assert(fields@[0]@.len() + fields@[1]@.len() + 2 <= chars@.len());
                let from: usize = fields[0].len() + fields[1].len() + 2;
                assert(line@.skip(from as int) =~= chars@.subrange(
                    from as int,
                    chars@.len() as int,
                ));
                text_between(&chars, from, length)
            };
            Ok(Snapshot { commit: text_of(&fields[0]), timestamp, summary })
        },
    }
}

proof fn snapshots_fail_early(pieces: Seq<Seq<char>>, i: int, count: int)
    requires
        0 <= i <= count,
        snapshots_in(pieces, i) is Err,
    ensures
        snapshots_in(pieces, count) == snapshots_in(pieces, i),
    decreases count - i,
{
    if i < count {
        snapshots_fail_early(pieces, i, count - 1);
    }
}

/// Reads a log.
pub fn parse_log(log: &Vec<u8>) -> (r: Result<Vec<Snapshot>, Failure>)
    ensures
        match snapshots_of(log@) {
            Ok(snapshots) => r matches Ok(list) && list.deep_view() == snapshots,
            Err(failure) => r matches Err(f) && f.deep_view() == failure,
        },
{
    match text_strict(log) {
        Err(cause) => Err(
            Failure::NotUtf8 { context: "git log returned non-UTF-8 data".to_owned(), cause },
        ),
        Ok(text) => {
            let chars = chars_of(text.as_str());
            let pieces = split_chars(&chars, '\n');
            let ghost all = pieces.deep_view();
            let mut list: Vec<Snapshot> = Vec::new();
            let mut i: usize = 0;
            assert(list.deep_view() =~= Seq::empty());
            while i < pieces.len()
                invariant
                    i <= pieces@.len(),
                    all == pieces.deep_view(),
                    all == split(decode_utf8(log@), '\n'),
                    valid_utf8(log@),
                    snapshots_in(all, i as int) == Ok::<Seq<SnapshotView>, FailureView>(
                        list.deep_view(),
                    ),
                decreases pieces@.len() - i,
            {
                let ghost before = list.deep_view();
                let piece = &pieces[i];
                assert(all[i as int] =~= piece@);
                let end: usize = if i < pieces.len() - 1 && piece.len() > 0 && piece[piece.len() - 1]
                    == '\r' {
                    piece.len() - 1
                } else {
                    piece.len()
                };
                let line = text_between(piece, 0, end);
                assert(line@ =~= line_at(all, i as int));
                if end > 0 {
                    match parse_snapshot(line.as_str()) {
                        Ok(snapshot) => {
                            list.push(snapshot);
                            assert(list.deep_view() =~= before.push(snapshot.deep_view()));
                        },
                        Err(f) => {
                            proof {
                                snapshots_fail_early(all, i + 1, all.len() as int);
                            }
                            return Err(f);
                        },
                    }
                }
                i = i + 1;
            }
            Ok(list)
        },
    }
}

/// Whether a text can name a snapshot.
pub fn valid_revision(revision: &str) -> (yes: bool)
    ensures
        yes == is_revision(revision@),
{
    let chars = chars_of(revision);
    if chars.len() < 7 {
        return false;
    }
    let mut i: usize = 0;
    while i < chars.len()
        invariant
            i <= chars@.len(),
            chars@ == revision@,
            forall|j: int| 0 <= j < i ==> is_hex_digit(#[trigger] chars@[j]),
        decreases chars@.len() - i,
    {
        let c = chars[i];
        if !(('0' <= c && c <= '9') || ('a' <= c && c <= 'f') || ('A' <= c && c <= 'F')) {
            assert(!is_hex_digit(revision@[i as int]));
            return false;
        }
        i = i + 1;
    }
    true
}

impl ProjectStore {
    /// The snapshots that changed a file, latest first, no more than `limit`.
    pub fn list_file(
        &self,
        relative: &str,
        limit: usize,
        replies: &Vec<Reply>,
        at: usize,
    ) -> (step: Step<Vec<Snapshot>>)
        ensures
            step.deep_view() == list_step(
                self.deep_view(),
                relative@,
                limit as nat,
                replies.deep_view(),
                at as int,
            ),
    {
        if let Err(f) = validate_relative_path(self.style, relative) {
            return Step::Failed(f);
        }
        match self.has_history(replies, at) {
            Step::Perform(a) => Step::Perform(a),
            Step::Failed(f) => Step::Failed(f),
            Step::Finished(false, n) => {
                let none: Vec<Snapshot> = Vec::new();
                assert(none.deep_view() =~= Seq::empty());
                Step::Finished(none, n)
            },
            Step::Finished(true, n) => {
                let arguments = vec![
                    "log".to_owned(),
                    HISTORY_REF.to_owned(),
                    "--format=%H%x09%ct%x09%s".to_owned(),
                    "--max-count".to_owned(),
                    decimal_text(limit as u64),
                    "--".to_owned(),
                    relative.to_owned(),
                ];
                assert(arguments.deep_view() =~= log_command(
                    self.deep_view(),
                    relative@,
                    limit as nat,
                ).arguments);
                match succeed(
                    replies,
                    n,
                    self.git_command(arguments, None),
                    "failed to query local history",
                    "git log",
                ) {
                    Step::Perform(a) => Step::Perform(a),
                    Step::Failed(f) => Step::Failed(f),
                    Step::Finished(output, n) => match parse_log(&output.stdout) {
                        Ok(snapshots) => Step::Finished(snapshots, n),
                        Err(f) => Step::Failed(f),
                    },
                }
            },
        }
    }

    /// What a file was in a snapshot; nothing where it was not in it.
    pub fn show_file(
        &self,
        relative: &str,
        revision: &str,
        replies: &Vec<Reply>,
        at: usize,
    ) -> (step: Step<Option<Vec<u8>>>)
        ensures
            step.deep_view() == show_step(
                self.deep_view(),
                relative@,
                revision@,
                replies.deep_view(),
                at as int,
            ),
    {
        if let Err(f) = validate_relative_path(self.style, relative) {
            return Step::Failed(f);
        }
        if !valid_revision(revision) {
            return Step::Failed(Failure::InvalidRevision);
        }
        if !is_text(relative) {
            return Step::Failed(
                Failure::NotText(
                    "non-UTF-8 paths are not supported by the Watchman integration".to_owned(),
                ),
            );
        }
        let path = git_path(self.style, relative);
        let object = join3(revision, ":", path.as_str());
        let arguments = vec!["cat-file".to_owned(), "-e".to_owned(), object.clone()];
        assert(arguments.deep_view() =~= inspect_object_command(
            self.deep_view(),
            object@,
        ).arguments);
        match run(
            replies,
            at,
            self.git_command(arguments, None),
            "failed to inspect snapshot",
        ) {
            Step::Perform(a) => Step::Perform(a),
            Step::Failed(f) => Step::Failed(f),
            Step::Finished(output, n) => {
                if !output.succeeded() {
                    return Step::Finished(None, n);
                }
                let arguments = vec!["show".to_owned(), object];
                assert(arguments.deep_view() =~= show_object_command(
                    self.deep_view(),
                    object@,
                ).arguments);
                match succeed(
                    replies,
                    n,
                    self.git_command(arguments, None),
                    "failed to read snapshot",
                    "git show",
                ) {
                    Step::Perform(a) => Step::Perform(a),
                    Step::Failed(f) => Step::Failed(f),
                    Step::Finished(output, n) => {
                        let contents = copy_bytes(&output.stdout);
                        assert(contents.deep_view() =~= contents@);
                        Step::Finished(Some(contents), n)
                    },
                }
            },
        }
    }
}

/// A copy of some bytes.
fn copy_bytes(bytes: &Vec<u8>) -> (copy: Vec<u8>)
    ensures
        copy@ == bytes@,
{
    let mut copy: Vec<u8> = Vec::new();
    let mut i: usize = 0;
    while i < bytes.len()
        invariant
            i <= bytes@.len(),
            copy@ =~= bytes@.take(i as int),
        decreases bytes@.len() - i,
    {
        copy.push(bytes[i]);
        i = i + 1;
    }
    assert(bytes@.take(bytes@.len() as int) =~= bytes@);
    copy
}

} // verus!
