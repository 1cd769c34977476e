//! Texts that are written by one part and read by another.

use crate::cli::line_of;
use crate::git_store::nul_terminated;
use crate::history::{snapshot_of_line, SnapshotView};
use crate::numbers::{
    decimal, decimal_value, hex, hex_length, i64_of, is_decimal_digit, low_bytes, signed_decimal,
    unsigned_of,
};
use crate::procedure::FailureView;
use crate::text::{is_white_space, split, trim_end, trim_start, trimmed};
use vstd::prelude::*;
use vstd::utf8::encode_utf8;

verus! {

/// Text without the mark is one piece, whatever pieces stand before it.
proof fn split_plain_tail<T>(head: Seq<T>, tail: Seq<T>, mark: T)
    requires
        !tail.contains(mark),
    ensures
        split(head + tail, mark) == split(head, mark).drop_last().push(
            split(head, mark).last() + tail,
        ),
        split(head, mark).len() > 0,
    decreases tail.len(),
{
    split_is_not_empty(head, mark);
    if tail.len() == 0 {
        assert(head + tail =~= head);
        assert(split(head, mark).last() + tail =~= split(head, mark).last());
        assert(split(head, mark).drop_last().push(split(head, mark).last()) =~= split(head, mark));
    } else {
        let init = tail.drop_last();
        assert(!init.contains(mark)) by {
            if init.contains(mark) {
                let k = choose|k: int| 0 <= k < init.len() && init[k] == mark;
                assert(tail[k] == mark);
            }
        }
        split_plain_tail(head, init, mark);
        let s = head + tail;
        assert(s.drop_last() =~= head + init);
        assert(s.last() == tail.last());
        assert(tail[tail.len() - 1] == tail.last());
        let before = split(head, mark);
        let middle = before.drop_last().push(before.last() + init);
        assert(middle.drop_last() =~= before.drop_last());
        assert((before.last() + init).push(tail.last()) =~= before.last() + tail);
    }
}

proof fn split_is_not_empty<T>(s: Seq<T>, mark: T)
    ensures
        split(s, mark).len() > 0,
    decreases s.len(),
{
    if s.len() > 0 {
        split_is_not_empty(s.drop_last(), mark);
    }
}

/// A mark ends a piece and begins an empty one.
proof fn split_mark<T>(s: Seq<T>, mark: T)
    ensures
        split(s.push(mark), mark) == split(s, mark).push(Seq::empty()),
{
    assert(s.push(mark).drop_last() =~= s);
}

/// A text with nothing in it is one piece, with nothing in it.
pub proof fn split_none<T>(mark: T)
    ensures
        split(Seq::<T>::empty(), mark) == seq![Seq::<T>::empty()],
{
}

/// A line without the mark, and the mark behind it, make the last piece longer
/// and begin an empty one.
pub proof fn split_line<T>(head: Seq<T>, line: Seq<T>, mark: T)
    requires
        !line.contains(mark),
    ensures
        split(head + line.push(mark), mark) == split(head, mark).drop_last().push(
            split(head, mark).last() + line,
        ).push(Seq::empty()),
        split(head, mark).len() > 0,
{
    split_plain_tail(head, line, mark);
    split_mark(head + line, mark);
    assert(head + line.push(mark) =~= (head + line).push(mark));
}

/// The UTF-8 of each path, and an empty piece.
spec fn encoded(paths: Seq<Seq<char>>) -> Seq<Seq<u8>> {
    paths.map_values(|path: Seq<char>| encode_utf8(path)).push(Seq::empty())
}

/// Paths that are handed to Git with zero bytes behind them come apart at the
/// zero bytes as they were: the pieces are the paths, and an empty one.
pub proof fn paths_come_apart_at_zero_bytes(paths: Seq<Seq<char>>)
    requires
        forall|i: int| 0 <= i < paths.len() ==> !encode_utf8(#[trigger] paths[i]).contains(0u8),
    ensures
        split(nul_terminated(paths), 0u8) == paths.map_values(
            |path: Seq<char>| encode_utf8(path),
        ).push(Seq::empty()),
    decreases paths.len(),
{
    if paths.len() == 0 {
        assert(split(nul_terminated(paths), 0u8) =~= encoded(paths));
    } else {
        let init = paths.drop_last();
        let last = encode_utf8(paths.last());
        assert forall|i: int| 0 <= i < init.len() implies !encode_utf8(
            #[trigger] init[i],
        ).contains(0u8) by {
            assert(init[i] == paths[i]);
        }
        paths_come_apart_at_zero_bytes(init);
        assert(paths[paths.len() - 1] == paths.last());
        split_plain_tail(nul_terminated(init), last, 0u8);
        split_mark(nul_terminated(init) + last, 0u8);
        let before = split(nul_terminated(init), 0u8);
        assert(before =~= encoded(init));
        assert(before.last() + last =~= last);
        assert(before.drop_last().push(last).push(Seq::empty()) =~= encoded(paths));
    }
}

/// Decimal digits stand for the number that they were made from.
pub proof fn decimal_round_trip(n: nat)
    ensures
        unsigned_of(decimal(n)) == Some(n),
    decreases n,
{
    decimal_digits(n);
}

proof fn decimal_digits(n: nat)
    ensures
        decimal(n).len() > 0,
        forall|i: int| 0 <= i < decimal(n).len() ==> is_decimal_digit(#[trigger] decimal(n)[i]),
        decimal_value(decimal(n)) == n,
    decreases n,
{
    if n < 10 {
        assert(decimal(n).drop_last() =~= Seq::empty());
        assert(decimal_value(decimal(n).drop_last()) == 0);
    } else {
        decimal_digits(n / 10);
        assert(decimal(n).drop_last() =~= decimal(n / 10));
        assert forall|i: int| 0 <= i < decimal(n).len() implies is_decimal_digit(
            #[trigger] decimal(n)[i],
        ) by {
            if i < decimal(n / 10).len() {
                assert(decimal(n)[i] == decimal(n / 10)[i]);
            }
        }
    }
}

proof fn signed_round_trip(n: i64)
    ensures
        i64_of(signed_decimal(n as int)) == Some(n),
        !signed_decimal(n as int).contains('\t'),
{
    reveal_strlit("-");
    let size = if n < 0 {
        (-(n as int)) as nat
    } else {
        n as nat
    };
    decimal_digits(size);
    let digits = decimal(size);
    let s = signed_decimal(n as int);
    if n < 0 {
        assert(s[0] == '-');
        assert(s.drop_first() =~= digits);
        assert forall|i: int| 0 <= i < s.len() implies s[i] != '\t' by {
            if i > 0 {
                assert(s[i] == digits[i - 1]);
            }
        }
    } else {
        assert(is_decimal_digit(s[0]));
    }
}

/// A snapshot that is written in a line is read from the line as it was.
pub proof fn snapshot_lines_round_trip(snapshot: SnapshotView)
    requires
        !snapshot.commit.contains('\t'),
    ensures
        snapshot_of_line(line_of(snapshot)) == Ok::<SnapshotView, FailureView>(snapshot),
{
    reveal_strlit("\t");
    signed_round_trip(snapshot.timestamp);
    let commit = snapshot.commit;
    let time = signed_decimal(snapshot.timestamp as int);
    let summary = snapshot.summary;
    let line = line_of(snapshot);
    let tab = "\t"@;
    assert(tab =~= seq!['\t']);
    let none = Seq::<char>::empty();
    assert(split(none, '\t') =~= seq![none]);
    split_plain_tail(none, commit, '\t');
    assert(none + commit =~= commit);
    assert(split(commit, '\t') =~= seq![commit]);
    split_mark(commit, '\t');
    let first = commit.push('\t');
    assert(split(first, '\t') =~= seq![commit, none]);
    split_plain_tail(first, time, '\t');
    assert(none + time =~= time);
    let second = first + time;
    assert(split(second, '\t') =~= seq![commit, time]);
    split_mark(second, '\t');
    let third = second.push('\t');
    assert(split(third, '\t') =~= seq![commit, time, none]);
    fields_stay(third, summary, '\t');
    assert(line =~= third + summary);
    assert(line.skip((commit.len() + time.len() + 2) as int) =~= summary);
}

/// More text does not change the pieces that have ended.
proof fn fields_stay(head: Seq<char>, tail: Seq<char>, mark: char)
    ensures
        split(head + tail, mark).len() >= split(head, mark).len() > 0,
        forall|i: int|
            0 <= i < split(head, mark).len() - 1 ==> #[trigger] split(head + tail, mark)[i]
                == split(head, mark)[i],
    decreases tail.len(),
{
    split_is_not_empty(head, mark);
    if tail.len() == 0 {
        assert(head + tail =~= head);
    } else {
        fields_stay(head, tail.drop_last(), mark);
        let s = head + tail;
        assert(s.drop_last() =~= head + tail.drop_last());
        let before = split(head + tail.drop_last(), mark);
        assert forall|i: int| 0 <= i < split(head, mark).len() - 1 implies #[trigger] split(
            s,
            mark,
        )[i] == split(head, mark)[i] by {
            assert(split(s, mark)[i] == before[i]);
        }
    }
}

/// Whether a text is nothing but blanks and ends of lines.
pub open spec fn is_blank(text: Seq<char>) -> bool {
    forall|i: int|
        0 <= i < text.len() ==> #[trigger] text[i] == ' ' || text[i] == '\t' || text[i] == '\n'
            || text[i] == '\r'
}

proof fn blanks_are_taken_from_the_start(before: Seq<char>, rest: Seq<char>)
    requires
        is_blank(before),
    ensures
        trim_start(before + rest) == trim_start(rest),
    decreases before.len(),
{
    if before.len() == 0 {
        assert(before + rest =~= rest);
    } else {
        assert(before[0] == ' ' || before[0] == '\t' || before[0] == '\n' || before[0] == '\r');
        assert((before + rest).drop_first() =~= before.drop_first() + rest);
        assert forall|i: int| 0 <= i < before.drop_first().len() implies #[trigger] before.drop_first()[i]
            == ' ' || before.drop_first()[i] == '\t' || before.drop_first()[i] == '\n'
            || before.drop_first()[i] == '\r' by {
            assert(before.drop_first()[i] == before[i + 1]);
        }
        blanks_are_taken_from_the_start(before.drop_first(), rest);
    }
}

proof fn blanks_are_taken_from_the_end(rest: Seq<char>, after: Seq<char>)
    requires
        is_blank(after),
    ensures
        trim_end(rest + after) == trim_end(rest),
    decreases after.len(),
{
    if after.len() == 0 {
        assert(rest + after =~= rest);
    } else {
        let last = after.len() - 1;
        assert(after[last] == ' ' || after[last] == '\t' || after[last] == '\n' || after[last]
            == '\r');
        assert((rest + after).last() == after[last]);
        assert((rest + after).drop_last() =~= rest + after.drop_last());
        assert forall|i: int| 0 <= i < after.drop_last().len() implies #[trigger] after.drop_last()[i]
            == ' ' || after.drop_last()[i] == '\t' || after.drop_last()[i] == '\n'
            || after.drop_last()[i] == '\r' by {
            assert(after.drop_last()[i] == after[i]);
        }
        blanks_are_taken_from_the_end(rest, after.drop_last());
    }
}

/// What a program writes is read without the blanks and the ends of lines
/// around it, and with everything between.
pub proof fn blanks_around_a_text_are_left_out(
    before: Seq<char>,
    text: Seq<char>,
    after: Seq<char>,
)
    requires
        is_blank(before),
        is_blank(after),
        text.len() > 0 ==> !is_white_space(text[0]) && !is_white_space(text.last()),
    ensures
        trimmed(before + text + after) == text,
{
    assert(before + text + after =~= before + (text + after));
    blanks_are_taken_from_the_start(before, text + after);
    if text.len() > 0 {
        assert((text + after)[0] == text[0]);
        blanks_are_taken_from_the_end(text, after);
    } else {
        assert(text + after =~= after + text);
        blanks_are_taken_from_the_start(after, text);
    }
}

/// A digest is written with two digits for each byte, the higher one first.
pub proof fn a_digest_is_written_byte_by_byte(bytes: Seq<u8>, i: int)
    requires
        0 <= i < bytes.len(),
    ensures
        hex(bytes).len() == 2 * bytes.len(),
        hex(bytes)[2 * i] == "0123456789abcdef"@[bytes[i] as int / 16],
        hex(bytes)[2 * i + 1] == "0123456789abcdef"@[bytes[i] as int % 16],
    decreases bytes.len(),
{
    reveal_strlit("0123456789abcdef");
    let init = bytes.drop_last();
    hex_length(init);
    hex_length(bytes);
    if i < init.len() {
        assert(init[i] == bytes[i]);
        a_digest_is_written_byte_by_byte(init, i);
    }
}

/// The number that bytes stand for, the lowest first.
pub open spec fn lowest_first(bytes: Seq<u8>) -> nat
    decreases bytes.len(),
{
    if bytes.len() == 0 {
        0
    } else {
        bytes[0] as nat + 256 * lowest_first(bytes.drop_first())
    }
}

/// The numbers that so many bytes can stand for.
pub open spec fn room(count: nat) -> nat
    decreases count,
{
    if count == 0 {
        1
    } else {
        256 * room((count - 1) as nat)
    }
}

/// A number that has room in so many bytes can be read from them again.
pub proof fn a_number_is_read_from_its_bytes(n: nat, count: nat)
    requires
        n < room(count),
    ensures
        low_bytes(n, count).len() == count,
        lowest_first(low_bytes(n, count)) == n,
    decreases count,
{
    if count > 0 {
        let rest = low_bytes(n / 256, (count - 1) as nat);
        a_number_is_read_from_its_bytes(n / 256, (count - 1) as nat);
        assert(low_bytes(n, count).drop_first() =~= rest);
    }
}

/// A line of the log may have no subject, but it has a name and a time: without
/// a time, or with one that is no number, it is refused.
pub proof fn a_line_of_the_log_has_a_time(commit: Seq<char>, time: Seq<char>)
    requires
        !commit.contains('\t'),
        !time.contains('\t'),
    ensures
        snapshot_of_line(commit) == Err::<SnapshotView, FailureView>(
            FailureView::MissingTimestamp,
        ),
        match i64_of(time) {
            Some(timestamp) => snapshot_of_line(commit + seq!['\t'] + time) == Ok::<
                SnapshotView,
                FailureView,
            >(SnapshotView { commit, timestamp, summary: Seq::empty() }),
            None => snapshot_of_line(commit + seq!['\t'] + time) matches Err(
                FailureView::InvalidTimestamp(_),
            ),
        },
{
    let none = Seq::<char>::empty();
    split_none('\t');
    split_plain_tail(none, commit, '\t');
    assert(none + commit =~= commit);
    assert(split(commit, '\t') =~= seq![commit]);
    split_mark(commit, '\t');
    assert(split(commit.push('\t'), '\t') =~= seq![commit, none]);
    split_plain_tail(commit.push('\t'), time, '\t');
    assert(none + time =~= time);
    assert(split(commit.push('\t') + time, '\t') =~= seq![commit, time]);
    assert(commit + seq!['\t'] + time =~= commit.push('\t') + time);
}

} // verus!
