//! Reading the history back.

use crate::cli::line_of;
use crate::commit::has_history_step;
use crate::git_store::{git_form, path_problem, StoreView};
use crate::history::{
    inspect_object_command, is_hex_digit, is_revision, list_step, log_command, show_object_command,
    show_step, snapshot_of_line, snapshots_in, snapshots_of, SnapshotView,
};
use crate::laws::capture::{commands_work_where_they_should, works_on_store};
use crate::laws::formats::{decimal_round_trip, snapshot_lines_round_trip, split_line, split_none};
use crate::numbers::{decimal, unsigned_of};
use crate::procedure::{ActionView, FailureView, InvocationView, OutputView, ReplyView, StepView};
use crate::text::split;
use vstd::prelude::*;
use vstd::utf8::{encode_utf8, encode_utf8_decode_utf8, encode_utf8_valid_utf8};

verus! {

/// Snapshots as Git logs them for the library: a line for each.
pub open spec fn log_of(snapshots: Seq<SnapshotView>) -> Seq<char>
    decreases snapshots.len(),
{
    if snapshots.len() == 0 {
        Seq::empty()
    } else {
        log_of(snapshots.drop_last()) + line_of(snapshots.last()).push('\n')
    }
}

/// Whether a snapshot can stand in a line of a log: the commit's name holds no
/// tab, and neither it nor the summary holds a line end.
pub open spec fn fits_a_line(snapshot: SnapshotView) -> bool {
    &&& !snapshot.commit.contains('\t')
    &&& !line_of(snapshot).contains('\n')
    &&& line_of(snapshot).last() != '\r'
}

spec fn lines_of(snapshots: Seq<SnapshotView>) -> Seq<Seq<char>> {
    snapshots.map_values(|snapshot: SnapshotView| line_of(snapshot)).push(Seq::empty())
}

proof fn log_splits(snapshots: Seq<SnapshotView>)
    requires
        forall|i: int| 0 <= i < snapshots.len() ==> fits_a_line(#[trigger] snapshots[i]),
    ensures
        split(log_of(snapshots), '\n') == lines_of(snapshots),
    decreases snapshots.len(),
{
    if snapshots.len() == 0 {
        split_none('\n');
        assert(lines_of(snapshots) =~= seq![Seq::<char>::empty()]);
    } else {
        let init = snapshots.drop_last();
        assert forall|i: int| 0 <= i < init.len() implies fits_a_line(#[trigger] init[i]) by {
            assert(init[i] == snapshots[i]);
        }
        assert(fits_a_line(snapshots[snapshots.len() - 1]));
        log_splits(init);
        split_line(log_of(init), line_of(snapshots.last()), '\n');
        let before = lines_of(init);
        assert(before.last() + line_of(snapshots.last()) =~= line_of(snapshots.last()));
        assert(before.drop_last().push(line_of(snapshots.last())).push(Seq::empty())
            =~= lines_of(snapshots));
    }
}

proof fn lines_read_back(snapshots: Seq<SnapshotView>, count: int)
    requires
        0 <= count <= snapshots.len(),
        forall|i: int| 0 <= i < snapshots.len() ==> fits_a_line(#[trigger] snapshots[i]),
    ensures
        snapshots_in(lines_of(snapshots), count) == Ok::<Seq<SnapshotView>, FailureView>(
            snapshots.take(count),
        ),
    decreases count,
{
    if count == 0 {
        assert(snapshots.take(0) =~= Seq::empty());
    } else {
        lines_read_back(snapshots, count - 1);
        let snapshot = snapshots[count - 1];
        assert(fits_a_line(snapshot));
        assert(lines_of(snapshots)[count - 1] == line_of(snapshot));
        snapshot_lines_round_trip(snapshot);
        reveal_strlit("\t");
        assert(line_of(snapshot).len() > 0);
        assert(snapshots.take(count) =~= snapshots.take(count - 1).push(snapshot));
    }
}

/// Snapshots that Git logs are read as Git logs them, one for each line and in
/// the order of the lines.
pub proof fn a_log_is_read_as_it_is_written(snapshots: Seq<SnapshotView>)
    requires
        forall|i: int| 0 <= i < snapshots.len() ==> fits_a_line(#[trigger] snapshots[i]),
    ensures
        snapshots_of(encode_utf8(log_of(snapshots))) == Ok::<Seq<SnapshotView>, FailureView>(
            snapshots,
        ),
{
    let text = log_of(snapshots);
    encode_utf8_valid_utf8(text);
    encode_utf8_decode_utf8(text);
    log_splits(snapshots);
    lines_read_back(snapshots, snapshots.len() as int);
    let pieces = lines_of(snapshots);
    let end = snapshots.len() as int;
    assert(pieces[end] == Seq::<char>::empty());
    assert(snapshots_in(pieces, end + 1) == snapshots_in(pieces, end));
    assert(snapshots.take(end) =~= snapshots);
}

/// Whether Git logs what changed a path by the words that it is asked with:
/// with `changes` the snapshots of the history in which it finds a path changed,
/// newest first, it writes as many lines as `--max-count` says.
pub open spec fn logs_by_words(
    changes: spec_fn(Seq<char>) -> Seq<SnapshotView>,
    store: StoreView,
    command: InvocationView,
    output: OutputView,
) -> bool {
    let words = command.arguments;
    works_on_store(store, command) && output.success() && words.len() == 7 && words[0] == "log"@
        && words[1] == "refs/heads/history"@ && words[2] == "--format=%H%x09%ct%x09%s"@
        && words[3] == "--max-count"@ && words[5] == "--"@ ==> (unsigned_of(words[4]) matches Some(
        count,
    ) ==> output.stdout == encode_utf8(log_of(first_of(changes(words[6]), count))))
}

/// The snapshots of a file are the first of those in which it changed, newest
/// first, and no more than were asked for: with Git logging what it is asked
/// for, the list has exactly those. So a smaller limit gives the beginning of
/// the list that a larger one gives.
pub proof fn the_newest_changes_are_listed(
    store: StoreView,
    relative: Seq<char>,
    limit: nat,
    changes: spec_fn(Seq<char>) -> Seq<SnapshotView>,
    replies: Seq<ReplyView>,
    at: int,
    n: int,
    output: OutputView,
)
    requires
        path_problem(store.style, relative) is None,
        0 <= at,
        has_history_step(store, replies, at) == StepView::Finished(true, n),
        n < replies.len(),
        replies[n] == ReplyView::Output(output),
        output.success(),
        forall|i: int|
            0 <= i < changes(relative).len() ==> fits_a_line(#[trigger] changes(relative)[i]),
        list_step(store, relative, limit, replies.take(n), at) matches StepView::Perform(
            ActionView::Run(command),
        ) ==> logs_by_words(changes, store, command, output),
    ensures
        list_step(store, relative, limit, replies.take(n), at) == StepView::<
            Seq<SnapshotView>,
        >::Perform(ActionView::Run(log_command(store, relative, limit))),
        unsigned_of(log_command(store, relative, limit).arguments[4]) == Some(limit),
        list_step(store, relative, limit, replies, at) == StepView::Finished(
            first_of(changes(relative), limit),
            n + 1,
        ),
        first_of(changes(relative), limit).len() <= limit,
        forall|smaller: nat|
            smaller <= limit ==> (#[trigger] first_of(changes(relative), smaller)).is_prefix_of(
                first_of(changes(relative), limit),
            ),
{
    let listed = first_of(changes(relative), limit);
    assert forall|i: int| 0 <= i < listed.len() implies fits_a_line(#[trigger] listed[i]) by {
        assert(listed[i] == changes(relative)[i]);
    }
    a_log_is_read_as_it_is_written(listed);
    assert(has_history_step(store, replies.take(n), at) == has_history_step(store, replies, at));
    let command = log_command(store, relative, limit);
    commands_work_where_they_should(store, command.arguments, command.input, Seq::empty());
    decimal_round_trip(limit);
    assert(logs_by_words(changes, store, command, output));
}

/// The first so many of them.
pub open spec fn first_of(snapshots: Seq<SnapshotView>, count: nat) -> Seq<SnapshotView> {
    if count < snapshots.len() {
        snapshots.take(count as int)
    } else {
        snapshots
    }
}

/// Git is asked for the snapshots of a file in the same words for every limit,
/// but for the limit itself.
pub proof fn a_limit_changes_only_the_limit(
    store: StoreView,
    relative: Seq<char>,
    limit: nat,
    other: nat,
)
    ensures
        log_command(store, relative, limit).arguments.update(4, decimal(other)) == log_command(
            store,
            relative,
            other,
        ).arguments,
        log_command(store, relative, limit).program == log_command(store, relative, other).program,
        log_command(store, relative, limit).environment == log_command(
            store,
            relative,
            other,
        ).environment,
        log_command(store, relative, limit).input == log_command(store, relative, other).input,
{
    assert(log_command(store, relative, limit).arguments.update(4, decimal(other))
        =~= log_command(store, relative, other).arguments);
}

/// Whether Git answers by the words that it is asked with, as one does that
/// holds these objects.
pub open spec fn answers_for(
    objects: Map<Seq<char>, Seq<u8>>,
    store: StoreView,
    command: InvocationView,
    output: OutputView,
) -> bool {
    let words = command.arguments;
    works_on_store(store, command) ==> {
        &&& words.len() == 3 && words[0] == "cat-file"@ && words[1] == "-e"@ ==> (output.success()
            <==> objects.contains_key(words[2]))
        &&& words.len() == 2 && words[0] == "show"@ && objects.contains_key(words[1])
            ==> output.success() && output.stdout == objects[words[1]]
    }
}

/// What a file held in a snapshot is what Git holds for the snapshot and the
/// path, byte for byte, and nothing where Git holds nothing. Git is asked for
/// nothing else.
pub proof fn a_file_is_shown_as_git_holds_it(
    objects: Map<Seq<char>, Seq<u8>>,
    store: StoreView,
    relative: Seq<char>,
    revision: Seq<char>,
    replies: Seq<ReplyView>,
    at: int,
    inspected: OutputView,
    shown: OutputView,
)
    requires
        path_problem(store.style, relative) is None,
        is_revision(revision),
        !relative.contains('\0'),
        0 <= at,
        at + 1 < replies.len(),
        replies[at] == ReplyView::Output(inspected),
        replies[at + 1] == ReplyView::Output(shown),
        show_step(store, relative, revision, replies.take(at), at) matches StepView::Perform(
            ActionView::Run(command),
        ) ==> answers_for(objects, store, command, inspected),
        show_step(store, relative, revision, replies.take(at + 1), at) matches StepView::Perform(
            ActionView::Run(command),
        ) ==> answers_for(objects, store, command, shown),
    ensures
        ({
            let object = revision + ":"@ + git_form(store.style, relative);
            &&& show_step(store, relative, revision, replies.take(at), at) == StepView::<
                Option<Seq<u8>>,
            >::Perform(ActionView::Run(inspect_object_command(store, object)))
            &&& objects.contains_key(object) ==> {
                &&& show_step(store, relative, revision, replies.take(at + 1), at) == StepView::<
                    Option<Seq<u8>>,
                >::Perform(ActionView::Run(show_object_command(store, object)))
                &&& show_step(store, relative, revision, replies, at) == StepView::Finished(
                    Some(objects[object]),
                    at + 2,
                )
            }
            &&& !objects.contains_key(object) ==> show_step(store, relative, revision, replies, at)
                == StepView::Finished(None::<Seq<u8>>, at + 1)
        }),
{
    let object = revision + ":"@ + git_form(store.style, relative);
    let inspect = inspect_object_command(store, object);
    let show = show_object_command(store, object);
    commands_work_where_they_should(store, inspect.arguments, inspect.input, Seq::empty());
    commands_work_where_they_should(store, show.arguments, show.input, Seq::empty());
    assert(replies.take(at + 1)[at] == replies[at]);
    assert(answers_for(objects, store, inspect, inspected));
    if objects.contains_key(object) {
        assert(answers_for(objects, store, show, shown));
    }
}

/// What a file held in a snapshot stays what it was, whatever is captured
/// later, and whatever the settings come to: with Git holding every object
/// that it held before, and maybe more, the same is shown.
pub proof fn later_captures_change_no_snapshot(
    objects: Map<Seq<char>, Seq<u8>>,
    later: Map<Seq<char>, Seq<u8>>,
    store: StoreView,
    other: StoreView,
    relative: Seq<char>,
    revision: Seq<char>,
    replies: Seq<ReplyView>,
    at: int,
    inspected: OutputView,
    shown: OutputView,
    others: Seq<ReplyView>,
    start: int,
    inspected_later: OutputView,
    shown_later: OutputView,
)
    requires
        path_problem(store.style, relative) is None,
        is_revision(revision),
        !relative.contains('\0'),
        other.style == store.style,
        objects.submap_of(later),
        objects.contains_key(revision + ":"@ + git_form(store.style, relative)),
        0 <= at,
        at + 1 < replies.len(),
        replies[at] == ReplyView::Output(inspected),
        replies[at + 1] == ReplyView::Output(shown),
        show_step(store, relative, revision, replies.take(at), at) matches StepView::Perform(
            ActionView::Run(command),
        ) ==> answers_for(objects, store, command, inspected),
        show_step(store, relative, revision, replies.take(at + 1), at) matches StepView::Perform(
            ActionView::Run(command),
        ) ==> answers_for(objects, store, command, shown),
        0 <= start,
        start + 1 < others.len(),
        others[start] == ReplyView::Output(inspected_later),
        others[start + 1] == ReplyView::Output(shown_later),
        show_step(other, relative, revision, others.take(start), start) matches StepView::Perform(
            ActionView::Run(command),
        ) ==> answers_for(later, other, command, inspected_later),
        show_step(other, relative, revision, others.take(start + 1), start)
            matches StepView::Perform(ActionView::Run(command)) ==> answers_for(
            later,
            other,
            command,
            shown_later,
        ),
    ensures
        ({
            let bytes = objects[revision + ":"@ + git_form(store.style, relative)];
            &&& show_step(store, relative, revision, replies, at) == StepView::Finished(
                Some(bytes),
                at + 2,
            )
            &&& show_step(other, relative, revision, others, start) == StepView::Finished(
                Some(bytes),
                start + 2,
            )
        }),
{
    let object = revision + ":"@ + git_form(store.style, relative);
    assert(later.contains_key(object) && later[object] == objects[object]);
    a_file_is_shown_as_git_holds_it(
        objects,
        store,
        relative,
        revision,
        replies,
        at,
        inspected,
        shown,
    );
    a_file_is_shown_as_git_holds_it(
        later,
        other,
        relative,
        revision,
        others,
        start,
        inspected_later,
        shown_later,
    );
}

/// A snapshot is named by seven hexadecimal digits or more, in large letters or
/// small ones, and by nothing else.
pub proof fn a_snapshot_is_named_by_hexadecimal_digits(name: Seq<char>)
    ensures
        is_revision(name) <==> name.len() >= 7 && forall|i: int|
            0 <= i < name.len() ==> "0123456789abcdefABCDEF"@.contains(#[trigger] name[i]),
{
    let digits = "0123456789abcdefABCDEF"@;
    reveal_strlit("0123456789abcdefABCDEF");
    assert forall|c: char| #[trigger] digits.contains(c) <==> is_hex_digit(c) by {
        if is_hex_digit(c) {
            let i = if '0' <= c <= '9' {
                c as int - '0' as int
            } else if 'a' <= c <= 'f' {
                c as int - 'a' as int + 10
            } else {
                c as int - 'A' as int + 16
            };
            assert(digits[i] == c);
        }
    }
    if is_revision(name) {
        assert forall|i: int| 0 <= i < name.len() implies digits.contains(#[trigger] name[i]) by {
            assert(is_hex_digit(name[i]));
        }
    } else if name.len() >= 7 {
        let i = choose|i: int| 0 <= i < name.len() && !is_hex_digit(#[trigger] name[i]);
        assert(!digits.contains(name[i]));
    }
}

/// A log is read line by line: a line ends at a line feed, with or without a
/// carriage return before it, a line with nothing in it does not count, and a
/// line that cannot be read is not passed over.
pub proof fn a_log_is_read_line_by_line(pieces: Seq<Seq<char>>, count: int)
    requires
        0 < count <= pieces.len(),
    ensures
        ({
            let piece = pieces[count - 1];
            let line = if count < pieces.len() && piece.len() > 0 && piece[piece.len() - 1]
                == '\r' {
                piece.take(piece.len() - 1)
            } else {
                piece
            };
            match snapshots_in(pieces, count - 1) {
                Err(why) => snapshots_in(pieces, count) == Err::<Seq<SnapshotView>, FailureView>(
                    why,
                ),
                Ok(before) => if line.len() == 0 {
                    snapshots_in(pieces, count) == Ok::<Seq<SnapshotView>, FailureView>(before)
                } else {
                    match snapshot_of_line(line) {
                        Ok(snapshot) => snapshots_in(pieces, count) == Ok::<
                            Seq<SnapshotView>,
                            FailureView,
                        >(before.push(snapshot)),
                        Err(why) => snapshots_in(pieces, count) == Err::<
                            Seq<SnapshotView>,
                            FailureView,
                        >(why),
                    }
                },
            }
        }),
        snapshots_in(pieces, 0) == Ok::<Seq<SnapshotView>, FailureView>(Seq::empty()),
{
    let piece = pieces[count - 1];
    if piece.len() > 0 {
        assert(piece.drop_last() =~= piece.take(piece.len() - 1));
    }
}

} // verus!
