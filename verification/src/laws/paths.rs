//! Paths: what is joined to a path lies below it, and what is cut off one
//! leads back to it.

use crate::git_store::{git_form, path_problem};
use crate::paths::{
    absolute, all_followed, all_names, body_parts, body_start, components, has_component_in,
    has_root, head_parts, is_mark, is_separator, joined, leads, main_separator, marks_of, name_of,
    parent_of, part_text, part_value, parts_of, plain_marks, prefix_bounds, prefix_kind, prefix_len,
    prefix_value, segment_end, segment_kind, share_end, spellings, spells_root, stripped, verbatim,
    written, Marks, Part, PartKind, PathStyle, PrefixKind,
};
use crate::platform::{expanded, shown};
use crate::text::begins_with;
use crate::procedure::FailureView;
use vstd::prelude::*;

verus! {

/// What a component says that is no prefix.
spec fn body_value(s: Seq<char>, part: Part) -> (PartKind, Seq<char>) {
    (
        part.kind,
        if part.kind == PartKind::Normal {
            s.subrange(part.from as int, part.to as int)
        } else {
            Seq::empty()
        },
    )
}

/// What the components from `i` on say.
spec fn body_values(marks: Marks, s: Seq<char>, i: int, lead: bool) -> Seq<(
    PartKind,
    Seq<char>,
)> {
    body_parts(marks, s, i, lead).map_values(|part: Part| body_value(s, part))
}

proof fn segment_end_is_bounded(marks: Marks, s: Seq<char>, i: int)
    requires
        0 <= i <= s.len(),
    ensures
        i <= segment_end(marks, s, i) <= s.len(),
        forall|j: int| i <= j < segment_end(marks, s, i) ==> !is_mark(marks, #[trigger] s[j]),
        segment_end(marks, s, i) < s.len() ==> is_mark(marks, s[segment_end(marks, s, i)]),
        i < s.len() && !is_mark(marks, s[i]) ==> i < segment_end(marks, s, i),
    decreases s.len() - i,
{
    if i < s.len() && !is_mark(marks, s[i]) {
        segment_end_is_bounded(marks, s, i + 1);
    }
}

/// A segment ends where the first mark is.
proof fn segment_end_is(marks: Marks, s: Seq<char>, i: int, end: int)
    requires
        0 <= i <= end <= s.len(),
        forall|j: int| i <= j < end ==> !is_mark(marks, #[trigger] s[j]),
        end < s.len() ==> is_mark(marks, s[end]),
    ensures
        segment_end(marks, s, i) == end,
    decreases end - i,
{
    if i < end {
        segment_end_is(marks, s, i + 1, end);
    }
}

/// The first component decides what a row of components begins with.
proof fn body_values_unfold(marks: Marks, s: Seq<char>, i: int, lead: bool)
    requires
        0 <= i < s.len() <= usize::MAX,
    ensures
        is_mark(marks, s[i]) ==> body_values(marks, s, i, lead) == body_values(
            marks,
            s,
            i + 1,
            false,
        ),
        !is_mark(marks, s[i]) ==> {
            let end = segment_end(marks, s, i);
            let name = s.subrange(i, end);
            let rest = body_values(marks, s, end, false);
            body_values(marks, s, i, lead) == if segment_kind(name) == PartKind::Current && !lead && marks
                != Marks::Backslash {
                rest
            } else {
                seq![
                    (
                        segment_kind(name),
                        if segment_kind(name) == PartKind::Normal {
                            name
                        } else {
                            Seq::empty()
                        },
                    ),
                ] + rest
            }
        },
{
    if !is_mark(marks, s[i]) {
        segment_end_is_bounded(marks, s, i);
        let end = segment_end(marks, s, i);
        let kind = segment_kind(s.subrange(i, end));
        let part = Part { kind, from: i as usize, to: end as usize };
        let rest = body_parts(marks, s, end, false);
        if !(kind == PartKind::Current && !lead && marks != Marks::Backslash) {
            assert(body_parts(marks, s, i, lead) == seq![part] + rest);
            assert(body_values(marks, s, i, lead) =~= seq![body_value(s, part)] + body_values(
                marks,
                s,
                end,
                false,
            ));
        }
    }
}

/// What stands behind a text does not depend on the text.
proof fn body_values_shift(marks: Marks, head: Seq<char>, tail: Seq<char>, i: int)
    requires
        0 <= i <= tail.len(),
        head.len() + tail.len() <= usize::MAX,
    ensures
        body_values(marks, head + tail, head.len() + i, false) == body_values(
            marks,
            tail,
            i,
            false,
        ),
    decreases tail.len() - i,
{
    let s = head + tail;
    let at = head.len() + i;
    if i == tail.len() {
        assert(body_values(marks, s, at, false) =~= Seq::empty());
        assert(body_values(marks, tail, i, false) =~= Seq::empty());
    } else {
        assert(s[at] == tail[i]);
        body_values_unfold(marks, s, at, false);
        body_values_unfold(marks, tail, i, false);
        if is_mark(marks, tail[i]) {
            body_values_shift(marks, head, tail, i + 1);
        } else {
            segment_end_is_bounded(marks, tail, i);
            let end = segment_end(marks, tail, i);
            assert forall|j: int| at <= j < head.len() + end implies !is_mark(
                marks,
                #[trigger] s[j],
            ) by {
                assert(s[j] == tail[j - head.len()]);
            }
            segment_end_is(marks, s, at, head.len() + end);
            assert(s.subrange(at, head.len() + end) =~= tail.subrange(i, end));
            body_values_shift(marks, head, tail, end);
        }
    }
}

/// Components of two texts, one behind the other, with a mark between.
proof fn body_values_concat(marks: Marks, head: Seq<char>, tail: Seq<char>, i: int)
    requires
        0 <= i <= head.len(),
        head.len() + tail.len() <= usize::MAX,
        i == head.len() || is_mark(marks, head.last()) || (tail.len() > 0 && is_mark(
            marks,
            tail[0],
        )),
    ensures
        body_values(marks, head + tail, i, false) == body_values(marks, head, i, false)
            + body_values(marks, tail, 0, false),
    decreases head.len() - i,
{
    let s = head + tail;
    if i == head.len() {
        body_values_shift(marks, head, tail, 0);
        assert(body_values(marks, head, i, false) =~= Seq::empty());
        assert(body_values(marks, head, i, false) + body_values(marks, tail, 0, false)
            =~= body_values(marks, tail, 0, false));
    } else {
        assert(s[i] == head[i]);
        body_values_unfold(marks, s, i, false);
        body_values_unfold(marks, head, i, false);
        if is_mark(marks, head[i]) {
            body_values_concat(marks, head, tail, i + 1);
        } else {
            segment_end_is_bounded(marks, head, i);
            let end = segment_end(marks, head, i);
            assert forall|j: int| i <= j < end implies !is_mark(marks, #[trigger] s[j]) by {
                assert(s[j] == head[j]);
            }
            if end < head.len() {
                assert(s[end] == head[end]);
            } else {
                assert(!is_mark(marks, head[end - 1]));
                assert(s[end] == tail[0]);
            }
            segment_end_is(marks, s, i, end);
            assert(s.subrange(i, end) =~= head.subrange(i, end));
            body_values_concat(marks, head, tail, end);
            let first = body_values(marks, head, end, false);
            let second = body_values(marks, tail, 0, false);
            let name = head.subrange(i, end);
            let value = (
                segment_kind(name),
                if segment_kind(name) == PartKind::Normal {
                    name
                } else {
                    Seq::empty()
                },
            );
            assert(seq![value] + (first + second) =~= (seq![value] + first) + second);
        }
    }
}

/// Where a component lies, and what stands around it.
spec fn stands(marks: Marks, s: Seq<char>, i: int, part: Part) -> bool {
    &&& i <= part.from < part.to <= s.len()
    &&& part.kind == segment_kind(s.subrange(part.from as int, part.to as int))
    &&& forall|j: int| part.from <= j < part.to ==> !is_mark(marks, #[trigger] s[j])
    &&& part.to < s.len() ==> is_mark(marks, s[part.to as int])
}

proof fn body_parts_stand(marks: Marks, s: Seq<char>, i: int, lead: bool)
    requires
        0 <= i,
        s.len() <= usize::MAX,
    ensures
        forall|k: int|
            0 <= k < body_parts(marks, s, i, lead).len() ==> stands(
                marks,
                s,
                i,
                #[trigger] body_parts(marks, s, i, lead)[k],
            ),
    decreases s.len() - i,
{
    let list = body_parts(marks, s, i, lead);
    if i < s.len() {
        if is_mark(marks, s[i]) {
            body_parts_stand(marks, s, i + 1, false);
            assert forall|k: int| 0 <= k < list.len() implies stands(
                marks,
                s,
                i,
                #[trigger] list[k],
            ) by {
                assert(stands(marks, s, i + 1, body_parts(marks, s, i + 1, false)[k]));
            }
        } else {
            segment_end_is_bounded(marks, s, i);
            let end = segment_end(marks, s, i);
            let rest = body_parts(marks, s, end, false);
            body_parts_stand(marks, s, end, false);
            assert forall|k: int| 0 <= k < list.len() implies stands(
                marks,
                s,
                i,
                #[trigger] list[k],
            ) by {
                if list.len() == rest.len() {
                    assert(list == rest);
                    assert(stands(marks, s, end, rest[k]));
                } else if k > 0 {
                    assert(list[k] == rest[k - 1]);
                    assert(stands(marks, s, end, rest[k - 1]));
                }
            }
        }
    }
}

/// From any component on, the components are those from where it begins.
proof fn body_parts_from(marks: Marks, s: Seq<char>, i: int, k: int)
    requires
        0 <= i,
        s.len() <= usize::MAX,
        0 <= k < body_parts(marks, s, i, false).len(),
    ensures
        body_parts(marks, s, i, false).skip(k) == body_parts(
            marks,
            s,
            body_parts(marks, s, i, false)[k].from as int,
            false,
        ),
    decreases s.len() - i,
{
    let list = body_parts(marks, s, i, false);
    if is_mark(marks, s[i]) {
        body_parts_from(marks, s, i + 1, k);
    } else {
        segment_end_is_bounded(marks, s, i);
        let end = segment_end(marks, s, i);
        let kind = segment_kind(s.subrange(i, end));
        let rest = body_parts(marks, s, end, false);
        if kind == PartKind::Current && marks != Marks::Backslash {
            body_parts_from(marks, s, end, k);
        } else {
            let part = Part { kind, from: i as usize, to: end as usize };
            assert(list == seq![part] + rest);
            if k == 0 {
                assert(list.skip(0) =~= list);
            } else {
                assert(list[k] == rest[k - 1]);
                assert(list.skip(k) =~= rest.skip(k - 1));
                body_parts_from(marks, s, end, k - 1);
            }
        }
    }
}

/// Nothing stands behind the last component.
proof fn body_parts_end(marks: Marks, s: Seq<char>, i: int)
    requires
        0 <= i,
        s.len() <= usize::MAX,
        body_parts(marks, s, i, false).len() > 0,
    ensures
        body_parts(marks, s, body_parts(marks, s, i, false).last().to as int, false).len() == 0,
    decreases s.len() - i,
{
    let list = body_parts(marks, s, i, false);
    if is_mark(marks, s[i]) {
        body_parts_end(marks, s, i + 1);
    } else {
        segment_end_is_bounded(marks, s, i);
        let end = segment_end(marks, s, i);
        let kind = segment_kind(s.subrange(i, end));
        let rest = body_parts(marks, s, end, false);
        if rest.len() > 0 {
            body_parts_end(marks, s, end);
            assert(list.last() == rest.last());
        } else {
            let part = Part { kind, from: i as usize, to: end as usize };
            assert(list == seq![part] + rest);
            assert(list.last() == part);
        }
    }
}

/// A text cut out between two components has the components between them.
#[verifier::rlimit(60)]
#[verifier::spinoff_prover]
proof fn body_values_between(marks: Marks, s: Seq<char>, i: int, k: int)
    requires
        0 <= i <= s.len() <= usize::MAX,
        0 <= k < body_parts(marks, s, i, false).len(),
    ensures
        ({
            let list = body_parts(marks, s, i, false);
            let a = list[k].from as int;
            let b = list.last().to as int;
            &&& 0 <= a < b <= s.len()
            &&& !is_mark(marks, s[a])
            &&& body_values(marks, s.subrange(a, b), 0, false) == body_values(
                marks,
                s,
                i,
                false,
            ).skip(k)
        }),
{
    let list = body_parts(marks, s, i, false);
    let a = list[k].from as int;
    let b = list.last().to as int;
    body_parts_stand(marks, s, i, false);
    assert(stands(marks, s, i, list[k]));
    assert(stands(marks, s, i, list.last()));
    body_parts_from(marks, s, i, k);
    body_parts_end(marks, s, i);
    body_parts_stand(marks, s, a, false);
    assert(list.skip(k).last() == list.last());
    assert(stands(marks, s, a, body_parts(marks, s, a, false).last()));
    assert(body_values(marks, s, i, false).skip(k) =~= body_values(marks, s, a, false));
    let cut = s.subrange(a, b);
    let behind = s.skip(b);
    assert(s =~= s.take(a) + s.skip(a));
    body_values_shift(marks, s.take(a), s.skip(a), 0);
    assert(s.skip(a) =~= cut + behind);
    if b < s.len() {
        assert(behind[0] == s[b]);
        body_values_concat(marks, cut, behind, 0);
        assert(s =~= s.take(b) + behind);
        body_values_shift(marks, s.take(b), behind, 0);
        assert(body_values(marks, s, b, false) =~= Seq::empty());
        assert(body_values(marks, cut, 0, false) + body_values(marks, behind, 0, false)
            =~= body_values(marks, cut, 0, false));
    } else {
        assert(cut =~= s.skip(a));
    }
}

/// The prefix and the root of a path, by what they say.
spec fn head_values(style: PathStyle, s: Seq<char>) -> Seq<(PartKind, Seq<char>)> {
    head_parts(style, s).map_values(|part: Part| part_value(style, s, part))
}

/// What a path says: its prefix and its root, and the rest.
proof fn components_split(style: PathStyle, s: Seq<char>)
    requires
        s.len() <= usize::MAX,
    ensures
        components(style, s) == head_values(style, s) + body_values(
            marks_of(style, s),
            s,
            body_start(style, s),
            leads(style, s),
        ),
        components(style, s).len() == parts_of(style, s).len(),
        0 <= body_start(style, s) <= s.len(),
{
    reveal(components);
    prefix_bounds(style, s);
    let marks = marks_of(style, s);
    let i = body_start(style, s);
    let lead = leads(style, s);
    body_parts_stand(marks, s, i, lead);
    let body = body_parts(marks, s, i, lead);
    assert forall|k: int| 0 <= k < body.len() implies part_value(style, s, #[trigger] body[k])
        == body_value(s, body[k]) by {
        assert(stands(marks, s, i, body[k]));
    }
    assert(components(style, s) =~= head_values(style, s) + body_values(marks, s, i, lead));
}

/// A prefix and a root.
spec fn rooted_head(kind: PrefixKind, value: Seq<char>) -> Seq<(PartKind, Seq<char>)> {
    if kind != PrefixKind::Absent {
        seq![(PartKind::Prefix, value), (PartKind::Root, Seq::<char>::empty())]
    } else {
        seq![(PartKind::Root, Seq::<char>::empty())]
    }
}

/// A path with a root begins with it, and its names may be looked for behind
/// the prefix.
proof fn rooted_components(style: PathStyle, s: Seq<char>)
    requires
        has_root(style, s),
        !verbatim(style, s),
        s.len() <= usize::MAX,
    ensures
        components(style, s) == rooted_head(prefix_kind(style, s), prefix_value(style, s))
            + body_values(plain_marks(style), s, prefix_len(style, s), false),
        0 <= prefix_len(style, s) <= s.len(),
{
    components_split(style, s);
    prefix_bounds(style, s);
    assert(head_values(style, s) =~= rooted_head(prefix_kind(style, s), prefix_value(style, s)));
    if spells_root(style, s) {
        body_values_unfold(plain_marks(style), s, prefix_len(style, s), false);
    }
}

/// A path behind `\\?\` that spells its root begins with it.
proof fn verbatim_components(s: Seq<char>)
    requires
        verbatim(PathStyle::Windows, s),
        spells_root(PathStyle::Windows, s),
        s.len() <= usize::MAX,
    ensures
        components(PathStyle::Windows, s) == rooted_head(
            prefix_kind(PathStyle::Windows, s),
            prefix_value(PathStyle::Windows, s),
        ) + body_values(Marks::Backslash, s, prefix_len(PathStyle::Windows, s) + 1, false),
        4 <= prefix_len(PathStyle::Windows, s) < s.len(),
{
    let style = PathStyle::Windows;
    components_split(style, s);
    prefix_bounds(style, s);
    segment_end_is_bounded(Marks::Backslash, s, 4);
    if s.len() >= 8 {
        segment_end_is_bounded(Marks::Backslash, s, 8);
    }
    assert(head_values(style, s) =~= rooted_head(prefix_kind(style, s), prefix_value(style, s)));
}

/// Whether what is written behind a path leaves its prefix and its root alone.
/// That fails where the prefix is not complete: `\\?\C:` has no root yet, a
/// name behind `\\?\UNC\server\` becomes the share, and one behind `\\.\`
/// the device.
pub open spec fn settled(style: PathStyle, s: Seq<char>) -> bool {
    &&& verbatim(style, s) ==> spells_root(style, s)
    &&& prefix_kind(style, s) == PrefixKind::VerbatimShare ==> segment_end(Marks::Backslash, s, 8)
        != share_end(Marks::Backslash, s, 8)
    &&& prefix_kind(style, s) == PrefixKind::Device ==> s.len() > 4
}

/// A text behind a path with a root does not change the prefix.
proof fn prefix_stays(style: PathStyle, base: Seq<char>, tail: Seq<char>)
    requires
        absolute(style, base),
        settled(style, base),
        !verbatim(style, base),
        tail.len() == 0 || is_separator(style, base.last()) || is_separator(style, tail[0]),
    ensures
        prefix_kind(style, base + tail) == prefix_kind(style, base),
        prefix_len(style, base + tail) == prefix_len(style, base),
        prefix_value(style, base + tail) == prefix_value(style, base),
        has_root(style, base + tail),
        !verbatim(style, base + tail),
{
    let s = base + tail;
    if tail.len() == 0 {
        assert(s =~= base);
    } else if style == PathStyle::Posix {
        assert(s[0] == base[0]);
    } else {
        let kind = prefix_kind(style, base);
        let p = prefix_len(style, base);
        prefix_bounds(style, base);
        assert(base.len() >= 2);
        assert(s[0] == base[0] && s[1] == base[1]);
        assert(s.take(base.len() as int) =~= base);
        if kind == PrefixKind::Drive {
            assert(s[2] == base[2]);
            if verbatim(style, s) {
                assert(s.take(4)[0] == seq!['\\', '\\', '?', '\\'][0]);
            }
        } else {
            segment_end_is_bounded(Marks::Either, base, 2);
            let server = segment_end(Marks::Either, base, 2);
            if kind == PrefixKind::Share {
                segment_end_is_bounded(Marks::Either, base, server + 1);
                let share = segment_end(Marks::Either, base, server + 1);
                assert(p == share);
                same_segment(Marks::Either, base, s, 2, server);
                same_segment(Marks::Either, base, s, server + 1, share);
            } else {
                segment_end_is_bounded(Marks::Either, base, 4);
                same_segment(Marks::Either, base, s, 4, p);
            }
            assert(base.len() >= 4);
            assert(s[2] == base[2] && s[3] == base[3]);
            assert(s.take(4) =~= base.take(4));
            assert(s.subrange(4, p) =~= base.subrange(4, p));
            assert(s.subrange(2, p) =~= base.subrange(2, p));
        }
    }
}

/// A segment ends at the same place in a text that goes on.
proof fn same_segment(marks: Marks, base: Seq<char>, s: Seq<char>, i: int, end: int)
    requires
        0 <= i <= end <= base.len() < s.len(),
        end == segment_end(marks, base, i),
        s.take(base.len() as int) == base,
        end == base.len() ==> is_mark(marks, s[end]) || (i < end && is_mark(marks, base.last())),
    ensures
        segment_end(marks, s, i) == end,
{
    segment_end_is_bounded(marks, base, i);
    assert forall|j: int| i <= j < end implies !is_mark(marks, #[trigger] s[j]) by {
        assert(s[j] == s.take(base.len() as int)[j]);
    }
    if end < base.len() {
        assert(s[end] == s.take(base.len() as int)[end]);
    } else if i < end && is_mark(marks, base.last()) {
        assert(!is_mark(marks, base[end - 1]));
    }
    segment_end_is(marks, s, i, end);
}

/// A path with a separator before it where one is needed.
spec fn tail_of(style: PathStyle, root: Seq<char>, path: Seq<char>) -> Seq<char> {
    if is_separator(style, root.last()) {
        path
    } else {
        seq![main_separator(style)] + path
    }
}

/// The components of a relative path come behind those of the path that it is
/// joined to.
proof fn joined_components(style: PathStyle, root: Seq<char>, path: Seq<char>)
    requires
        absolute(style, root),
        settled(style, root),
        !verbatim(style, root),
        prefix_kind(style, path) == PrefixKind::Absent,
        !has_root(style, path),
        root.len() + path.len() < usize::MAX,
    ensures
        components(style, joined(style, root, path)) == components(style, root) + body_values(
            plain_marks(style),
            path,
            0,
            false,
        ),
{
    let marks = plain_marks(style);
    let tail = tail_of(style, root, path);
    let p = prefix_len(style, root);
    prefix_bounds(style, root);
    assert(root.len() > 0);
    if !is_separator(style, root.last()) {
        assert(tail[0] == main_separator(style));
        assert(root.push(main_separator(style)) + path =~= root + tail);
        body_values_unfold(marks, tail, 0, false);
        body_values_shift(marks, seq![main_separator(style)], path, 0);
    }
    if prefix_kind(style, root) == PrefixKind::Drive {
        assert(root.len() > 2);
    }
    assert(joined(style, root, path) == root + tail);
    prefix_stays(style, root, tail);
    rooted_components(style, root + tail);
    rooted_components(style, root);
    if tail.len() == 0 {
        assert(root + tail =~= root);
        assert(body_values(marks, path, 0, false) =~= Seq::empty());
        assert(components(style, root) + body_values(marks, path, 0, false) =~= components(
            style,
            root,
        ));
    } else {
        body_values_concat(marks, root, tail, p);
        let head = rooted_head(prefix_kind(style, root), prefix_value(style, root));
        let first = body_values(marks, root, p, false);
        let second = body_values(marks, path, 0, false);
        assert(head + (first + second) =~= (head + first) + second);
    }
}

/// What a path of the history says, behind a separator or not.
proof fn names_need_no_lead(style: PathStyle, rest: Seq<char>)
    requires
        path_problem(style, rest) is None,
        rest.len() <= usize::MAX,
    ensures
        components(style, rest) == body_values(plain_marks(style), rest, 0, false),
        components(style, rest).len() > 0,
        prefix_kind(style, rest) == PrefixKind::Absent,
        !has_root(style, rest),
        !verbatim(style, rest),
        parts_of(style, rest) == body_parts(plain_marks(style), rest, 0, false),
        forall|i: int|
            0 <= i < components(style, rest).len() ==> (#[trigger] components(style, rest)[i]).0
                == PartKind::Normal,
{
    let marks = plain_marks(style);
    if prefix_kind(style, rest) != PrefixKind::Absent {
        assert(parts_of(style, rest)[0].kind == PartKind::Prefix);
    }
    if has_root(style, rest) {
        assert(parts_of(style, rest)[0].kind == PartKind::Root);
    }
    components_split(style, rest);
    assert(head_values(style, rest) =~= Seq::empty());
    assert(parts_of(style, rest) =~= body_parts(marks, rest, 0, true));
    assert(components(style, rest) =~= body_values(marks, rest, 0, true));
    assert(!is_mark(marks, rest[0]));
    body_values_unfold(marks, rest, 0, true);
    body_values_unfold(marks, rest, 0, false);
    segment_end_is_bounded(marks, rest, 0);
    assert(parts_of(style, rest)[0].kind == segment_kind(
        rest.subrange(0, segment_end(marks, rest, 0)),
    ));
    reveal(components);
    assert forall|i: int| 0 <= i < components(style, rest).len() implies (
    #[trigger] components(style, rest)[i]).0 == PartKind::Normal by {
        assert(parts_of(style, rest)[i].kind == PartKind::Normal);
    }
}

/// A name, `.` or `..`, as it may stand between backslashes.
spec fn is_name(item: (PartKind, Seq<char>)) -> bool {
    &&& item.1.len() > 0
    &&& item.0 == segment_kind(item.1)
    &&& forall|j: int| 0 <= j < item.1.len() ==> #[trigger] item.1[j] != '\\'
}

/// What a spelled component says.
spec fn said(item: (PartKind, Seq<char>)) -> (PartKind, Seq<char>) {
    (
        item.0,
        if item.0 == PartKind::Normal {
            item.1
        } else {
            Seq::empty()
        },
    )
}

spec fn all_said(list: Seq<(PartKind, Seq<char>)>) -> Seq<(PartKind, Seq<char>)> {
    list.map_values(|item: (PartKind, Seq<char>)| said(item))
}

/// How many characters names take, each with a separator.
spec fn weight(list: Seq<(PartKind, Seq<char>)>) -> nat
    decreases list.len(),
{
    if list.len() == 0 {
        0
    } else {
        weight(list.drop_last()) + list.last().1.len() + 1
    }
}

proof fn weight_of_two(first: Seq<(PartKind, Seq<char>)>, second: Seq<(PartKind, Seq<char>)>)
    ensures
        weight(first + second) == weight(first) + weight(second),
    decreases second.len(),
{
    if second.len() == 0 {
        assert(first + second =~= first);
    } else {
        weight_of_two(first, second.drop_last());
        assert((first + second).drop_last() =~= first + second.drop_last());
    }
}

/// The names from `i` on, as they are spelled.
spec fn body_spellings(marks: Marks, s: Seq<char>, i: int) -> Seq<(PartKind, Seq<char>)> {
    body_parts(marks, s, i, false).map_values(
        |part: Part| (part.kind, s.subrange(part.from as int, part.to as int)),
    )
}

proof fn body_weight(marks: Marks, s: Seq<char>, i: int)
    requires
        0 <= i <= s.len() <= usize::MAX,
    ensures
        weight(body_spellings(marks, s, i)) <= s.len() - i + 1,
        i == s.len() || is_mark(marks, s[i]) ==> weight(body_spellings(marks, s, i)) <= s.len() - i,
    decreases s.len() - i,
{
    let list = body_spellings(marks, s, i);
    if i == s.len() {
        assert(list =~= Seq::empty());
    } else if is_mark(marks, s[i]) {
        body_weight(marks, s, i + 1);
        assert(list =~= body_spellings(marks, s, i + 1));
    } else {
        segment_end_is_bounded(marks, s, i);
        let end = segment_end(marks, s, i);
        body_weight(marks, s, end);
        let kind = segment_kind(s.subrange(i, end));
        let rest = body_spellings(marks, s, end);
        if kind == PartKind::Current && marks != Marks::Backslash {
            assert(list =~= rest);
        } else {
            let one = seq![(kind, s.subrange(i, end))];
            assert(list =~= one + rest);
            weight_of_two(one, rest);
            assert(one.drop_last() =~= Seq::empty());
            assert(weight(one.drop_last()) == 0);
            assert(weight(one) == end - i + 1);
        }
    }
}

/// Names of a path can stand between backslashes, and say what the path says.
proof fn body_names(marks: Marks, s: Seq<char>, i: int)
    requires
        0 <= i <= s.len() <= usize::MAX,
        marks != Marks::Slash,
    ensures
        forall|k: int|
            0 <= k < body_spellings(marks, s, i).len() ==> is_name(
                #[trigger] body_spellings(marks, s, i)[k],
            ),
        all_said(body_spellings(marks, s, i)) == body_values(marks, s, i, false),
{
    let list = body_spellings(marks, s, i);
    let parts = body_parts(marks, s, i, false);
    body_parts_stand(marks, s, i, false);
    assert forall|k: int| 0 <= k < list.len() implies is_name(#[trigger] list[k]) by {
        assert(stands(marks, s, i, parts[k]));
        let from = parts[k].from as int;
        assert forall|j: int| 0 <= j < list[k].1.len() implies #[trigger] list[k].1[j] != '\\' by {
            assert(list[k].1[j] == s[from + j]);
        }
    }
    assert(all_said(list) =~= body_values(marks, s, i, false));
}

/// A prefix, a root and names, written and read again.
proof fn written_reads_back(prefix: Seq<char>, names: Seq<(PartKind, Seq<char>)>)
    requires
        prefix.len() + 1 + weight(names) <= usize::MAX,
        forall|k: int| 0 <= k < names.len() ==> is_name(#[trigger] names[k]),
    ensures
        ({
            let text = written(
                seq![(PartKind::Prefix, prefix), (PartKind::Root, seq!['\\'])] + names,
            );
            &&& prefix.len() < text.len() <= prefix.len() + 1 + weight(names)
            &&& names.len() == 0 ==> text.len() == prefix.len() + 1
            &&& text.take(prefix.len() as int) == prefix
            &&& text[prefix.len() as int] == '\\'
            &&& body_values(Marks::Backslash, text, prefix.len() as int + 1, false) == all_said(names)
        }),
    decreases names.len(),
{
    let marks = Marks::Backslash;
    let head = seq![(PartKind::Prefix, prefix), (PartKind::Root, seq!['\\'])];
    let list = head + names;
    let text = written(list);
    let p = prefix.len() as int;
    if names.len() == 0 {
        let one = seq![(PartKind::Prefix, prefix)];
        assert(list.drop_last() =~= one);
        assert(one.drop_last() =~= Seq::empty());
        assert(written(one.drop_last()) =~= Seq::empty());
        assert(written(one) =~= prefix);
        assert(text =~= prefix + seq!['\\']);
        assert(body_values(marks, text, p + 1, false) =~= all_said(names));
    } else {
        let before = names.drop_last();
        let last = names.last();
        written_reads_back(prefix, before);
        assert(list.drop_last() =~= head + before);
        let start = written(head + before);
        let tail = if before.len() == 0 {
            last.1
        } else {
            seq!['\\'] + last.1
        };
        assert(is_name(names[names.len() - 1]));
        if before.len() > 0 {
            assert(is_name(names[names.len() - 2]));
            assert(list[list.len() - 2] == names[names.len() - 2]);
            assert(start.push('\\') + last.1 =~= start + tail);
        } else {
            assert(list[list.len() - 2] == head[1]);
        }
        assert(text == start + tail);
        assert(text.take(p) =~= start.take(p));
        body_values_concat(marks, start, tail, p + 1);
        one_name(last);
        if before.len() > 0 {
            body_values_unfold(marks, tail, 0, false);
            body_values_shift(marks, seq!['\\'], last.1, 0);
        }
        assert(all_said(names) =~= all_said(before) + seq![said(last)]);
    }
}

proof fn one_name(item: (PartKind, Seq<char>))
    requires
        is_name(item),
        item.1.len() <= usize::MAX,
    ensures
        body_values(Marks::Backslash, item.1, 0, false) == seq![said(item)],
{
    let marks = Marks::Backslash;
    let s = item.1;
    assert(s[0] != '\\');
    segment_end_is(marks, s, 0, s.len() as int);
    body_values_unfold(marks, s, 0, false);
    assert(s.subrange(0, s.len() as int) =~= s);
    assert(body_values(marks, s, s.len() as int, false) =~= Seq::empty());
    assert(body_values(marks, s, 0, false) =~= seq![said(item)]);
}

/// Another text with the same prefix behind `\\?\`, and a root.
proof fn verbatim_prefix_stays(root: Seq<char>, s: Seq<char>)
    requires
        verbatim(PathStyle::Windows, root),
        settled(PathStyle::Windows, root),
        ({
            let p = prefix_len(PathStyle::Windows, root);
            &&& 4 <= p < root.len()
            &&& p < s.len()
            &&& s.take(p) == root.take(p)
            &&& s[p] == '\\'
        }),
    ensures
        verbatim(PathStyle::Windows, s),
        prefix_kind(PathStyle::Windows, s) == prefix_kind(PathStyle::Windows, root),
        prefix_len(PathStyle::Windows, s) == prefix_len(PathStyle::Windows, root),
        prefix_value(PathStyle::Windows, s) == prefix_value(PathStyle::Windows, root),
        spells_root(PathStyle::Windows, s),
{
    let style = PathStyle::Windows;
    let marks = Marks::Backslash;
    let kind = prefix_kind(style, root);
    let p = prefix_len(style, root);
    assert forall|j: int| 0 <= j < p implies #[trigger] s[j] == root[j] by {
        assert(s.take(p)[j] == root.take(p)[j]);
    }
    assert(s.take(4) =~= root.take(4));
    if kind == PrefixKind::VerbatimShare {
        segment_end_is_bounded(marks, root, 8);
        let server = segment_end(marks, root, 8);
        segment_end_is_bounded(marks, root, server + 1);
        assert(server + 1 < p);
        segment_end_is(marks, s, 8, server);
        segment_end_is(marks, s, server + 1, p);
        assert(s.subrange(8, p) =~= root.subrange(8, p));
    } else if kind == PrefixKind::Verbatim {
        segment_end_is_bounded(marks, root, 4);
        segment_end_is(marks, s, 4, p);
        assert(s.subrange(4, p) =~= root.subrange(4, p));
        if p >= 5 {
            assert(s[4] == root[4]);
        }
        if p >= 6 {
            assert(s[5] == root[5]);
        }
        if p >= 7 {
            assert(s[6] == root[6]);
        }
        if p >= 8 {
            assert(s[7] == root[7]);
        }
    }
}

proof fn names_are_followed(
    list: Seq<(PartKind, Seq<char>)>,
    names: Seq<(PartKind, Seq<char>)>,
)
    requires
        forall|k: int| 0 <= k < names.len() ==> (#[trigger] names[k]).0 == PartKind::Normal,
    ensures
        all_followed(list, names) == list + names,
    decreases names.len(),
{
    if names.len() == 0 {
        assert(list + names =~= list);
    } else {
        assert(names[names.len() - 1].0 == PartKind::Normal);
        names_are_followed(list, names.drop_last());
        assert(list + names =~= (list + names.drop_last()).push(names.last()));
    }
}

/// A path of the history behind a root that begins with `\\?\`.
proof fn verbatim_joined_components(root: Seq<char>, path: Seq<char>)
    requires
        verbatim(PathStyle::Windows, root),
        settled(PathStyle::Windows, root),
        path_problem(PathStyle::Windows, path) is None,
        root.len() + path.len() + 2 <= usize::MAX,
    ensures
        components(PathStyle::Windows, joined(PathStyle::Windows, root, path)) == components(
            PathStyle::Windows,
            root,
        ) + components(PathStyle::Windows, path),
{
    let style = PathStyle::Windows;
    let p = prefix_len(style, root);
    names_need_no_lead(style, path);
    verbatim_components(root);
    let prefix = root.take(p);
    let head = seq![(PartKind::Prefix, prefix), (PartKind::Root, seq!['\\'])];
    let first = body_spellings(Marks::Backslash, root, p + 1);
    let second = body_spellings(Marks::Either, path, 0);
    body_names(Marks::Backslash, root, p + 1);
    body_names(Marks::Either, path, 0);
    body_parts_stand(Marks::Backslash, root, p + 1, false);
    body_parts_stand(Marks::Either, path, 0, false);
    let inner = body_parts(Marks::Backslash, root, p + 1, false);
    let outer = body_parts(Marks::Either, path, 0, false);
    assert forall|k: int| 0 <= k < inner.len() implies (#[trigger] inner[k]).kind
        != PartKind::Root by {
        assert(stands(Marks::Backslash, root, p + 1, inner[k]));
    }
    assert(root.subrange(0, p) =~= prefix);
    assert(spellings(style, root) =~= head + first);
    assert forall|k: int| 0 <= k < second.len() implies (#[trigger] second[k]).0
        == PartKind::Normal by {
        assert(components(style, path)[k].0 == PartKind::Normal);
        assert(second[k].0 == outer[k].kind);
    }
    assert(spellings(style, path) =~= second) by {
        assert forall|k: int| 0 <= k < outer.len() implies (#[trigger] outer[k]).kind
            != PartKind::Root by {
            assert(stands(Marks::Either, path, 0, outer[k]));
        }
    }
    names_are_followed(head + first, second);
    let names = first + second;
    assert((head + first) + second =~= head + names);
    body_weight(Marks::Backslash, root, p + 1);
    body_weight(Marks::Either, path, 0);
    weight_of_two(first, second);
    assert forall|k: int| 0 <= k < names.len() implies is_name(#[trigger] names[k]) by {
        if k < first.len() {
            assert(is_name(first[k]));
        } else {
            assert(is_name(second[k - first.len()]));
        }
    }
    written_reads_back(prefix, names);
    let text = joined(style, root, path);
    assert(text == written(head + names));
    verbatim_prefix_stays(root, text);
    verbatim_components(text);
    let lead = rooted_head(prefix_kind(style, root), prefix_value(style, root));
    assert(all_said(names) =~= all_said(first) + all_said(second));
    assert(lead + (all_said(first) + all_said(second)) =~= (lead + all_said(first)) + all_said(
        second,
    ));
}

/// A path of the history leads to something below the root of the worktree:
/// its components stand behind those of the root, there is at least one, and
/// all of them are names.
pub proof fn history_paths_stay_below_the_root(style: PathStyle, root: Seq<char>, path: Seq<char>)
    requires
        absolute(style, root),
        settled(style, root),
        path_problem(style, path) is None,
        root.len() + path.len() + 2 <= usize::MAX,
    ensures
        components(style, joined(style, root, path)) == components(style, root) + components(
            style,
            path,
        ),
        components(style, path).len() > 0,
        forall|i: int|
            0 <= i < components(style, path).len() ==> (#[trigger] components(style, path)[i]).0
                == PartKind::Normal,
{
    names_need_no_lead(style, path);
    if verbatim(style, root) {
        verbatim_joined_components(root, path);
    } else {
        joined_components(style, root, path);
    }
}

/// A path that begins with the components of another begins as that one does.
proof fn heads_agree(style: PathStyle, s: Seq<char>, base: Seq<char>)
    requires
        absolute(style, base),
        settled(style, base),
        s.len() <= usize::MAX,
        base.len() <= usize::MAX,
        components(style, base).is_prefix_of(components(style, s)),
    ensures
        !leads(style, s),
        head_parts(style, s).len() <= components(style, base).len(),
        verbatim(style, s) == verbatim(style, base),
{
    components_split(style, s);
    components_split(style, base);
    let have = components(style, s);
    let need = components(style, base);
    assert(head_values(style, base).len() >= 1);
    assert(need[0] == head_values(style, base)[0]);
    assert(have[0] == need[0]);
    if style == PathStyle::Windows {
        assert(head_values(style, base).len() == 2);
        assert(need[0] == (PartKind::Prefix, prefix_value(style, base)));
        if prefix_kind(style, s) == PrefixKind::Absent {
            if head_parts(style, s).len() > 0 {
                assert(have[0] == head_values(style, s)[0]);
            } else {
                let body = body_parts(marks_of(style, s), s, body_start(style, s), leads(style, s));
                body_parts_stand(marks_of(style, s), s, body_start(style, s), leads(style, s));
                assert(stands(marks_of(style, s), s, body_start(style, s), body[0]));
            }
        } else {
            assert(have[0] == head_values(style, s)[0]);
            assert(prefix_value(style, s)[0] == prefix_value(style, base)[0]);
        }
    } else {
        assert(need[0].0 == PartKind::Root);
        if !has_root(style, s) {
            let body = body_parts(marks_of(style, s), s, body_start(style, s), leads(style, s));
            body_parts_stand(marks_of(style, s), s, body_start(style, s), leads(style, s));
            assert(stands(marks_of(style, s), s, body_start(style, s), body[0]));
        }
    }
}

/// What is left of a path behind another one says what that one does not.
proof fn stripped_components(style: PathStyle, s: Seq<char>, base: Seq<char>)
    requires
        absolute(style, base),
        settled(style, base),
        s.len() <= usize::MAX,
        base.len() <= usize::MAX,
        stripped(style, s, base) is Some,
    ensures
        ({
            let rest = stripped(style, s, base)->0;
            &&& rest.len() <= s.len()
            &&& components(style, s) == components(style, base) + body_values(
                marks_of(style, s),
                rest,
                0,
                false,
            )
            &&& rest.len() > 0 ==> !is_mark(marks_of(style, s), rest[0])
            &&& forall|c: char| #[trigger] rest.contains(c) ==> s.contains(c)
        }),
{
    let n = parts_of(style, base).len() as int;
    let rest = stripped(style, s, base)->0;
    let marks = marks_of(style, s);
    let i = body_start(style, s);
    heads_agree(style, s, base);
    components_split(style, s);
    components_split(style, base);
    let list = parts_of(style, s);
    if n == list.len() {
        assert(body_values(marks, rest, 0, false) =~= Seq::empty());
        assert(components(style, s) =~= components(style, base) + body_values(
            marks,
            rest,
            0,
            false,
        ));
    } else {
        let h = head_parts(style, s).len() as int;
        let body = body_parts(marks, s, i, false);
        assert(list == head_parts(style, s) + body);
        assert(list[n] == body[n - h]);
        assert(list.last() == body.last());
        body_values_between(marks, s, i, n - h);
        assert forall|c: char| #[trigger] rest.contains(c) implies s.contains(c) by {
            let k = choose|k: int| 0 <= k < rest.len() && rest[k] == c;
            assert(s[body[n - h].from + k] == c);
        }
        assert(components(style, s).skip(n) =~= body_values(marks, s, i, false).skip(n - h));
        assert(components(style, s) =~= components(style, base) + components(style, s).skip(n));
    }
}

/// Without a slash in it, a text has the same names between backslashes alone
/// as between both marks, as long as no `.` counts.
proof fn same_between_backslashes(s: Seq<char>, i: int)
    requires
        0 <= i <= s.len() <= usize::MAX,
        !s.contains('/'),
        forall|k: int|
            0 <= k < body_values(Marks::Backslash, s, i, false).len() ==> (
            #[trigger] body_values(Marks::Backslash, s, i, false)[k]).0 != PartKind::Current,
    ensures
        body_values(Marks::Either, s, i, false) == body_values(Marks::Backslash, s, i, false),
    decreases s.len() - i,
{
    let list = body_values(Marks::Backslash, s, i, false);
    if i == s.len() {
        assert(list =~= Seq::empty());
        assert(body_values(Marks::Either, s, i, false) =~= Seq::empty());
    } else {
        assert(s.contains(s[i]));
        body_values_unfold(Marks::Backslash, s, i, false);
        body_values_unfold(Marks::Either, s, i, false);
        if is_mark(Marks::Backslash, s[i]) {
            same_between_backslashes(s, i + 1);
        } else {
            segment_end_is_bounded(Marks::Backslash, s, i);
            let end = segment_end(Marks::Backslash, s, i);
            assert forall|j: int| i <= j < end implies !is_mark(Marks::Either, #[trigger] s[j]) by {
                assert(s.contains(s[j]));
            }
            segment_end_is(Marks::Either, s, i, end);
            assert(list[0].0 != PartKind::Current);
            let rest = body_values(Marks::Backslash, s, end, false);
            assert forall|k: int| 0 <= k < rest.len() implies (#[trigger] rest[k]).0
                != PartKind::Current by {
                assert(rest[k] == list[k + 1]);
            }
            same_between_backslashes(s, end);
        }
    }
}

/// A file's path in the history leads back to the file: joined to the root of
/// the worktree, it says what the file's own path says. Behind `\\?\` that is
/// so of files that have no slash in a name and no component `.` below the
/// root.
pub proof fn a_file_is_found_by_its_path_in_the_history(
    style: PathStyle,
    root: Seq<char>,
    file: Seq<char>,
    relative: Seq<char>,
)
    requires
        absolute(style, root),
        settled(style, root),
        stripped(style, file, root) == Some(relative),
        path_problem(style, relative) is None,
        verbatim(style, root) ==> !relative.contains('/'),
        verbatim(style, root) ==> forall|i: int|
            components(style, root).len() <= i < components(style, file).len() ==> (
            #[trigger] components(style, file)[i]).0 != PartKind::Current,
        root.len() + file.len() + 2 <= usize::MAX,
    ensures
        components(style, joined(style, root, relative)) == components(style, file),
{
    heads_agree(style, file, root);
    stripped_components(style, file, root);
    history_paths_stay_below_the_root(style, root, relative);
    names_need_no_lead(style, relative);
    if verbatim(style, root) {
        let names = body_values(Marks::Backslash, relative, 0, false);
        assert forall|k: int| 0 <= k < names.len() implies (#[trigger] names[k]).0
            != PartKind::Current by {
            assert(names[k] == components(style, file)[components(style, root).len() + k]);
        }
        same_between_backslashes(relative, 0);
    }
}

/// A name that stands alone between separators.
pub open spec fn is_one_name(name: Seq<char>) -> bool {
    &&& name.len() > 0
    &&& !name.contains('/')
    &&& !name.contains('\\')
    &&& name != seq!['.']
    &&& name != seq!['.', '.']
}

proof fn one_name_is_one_component(marks: Marks, name: Seq<char>)
    requires
        is_one_name(name),
        name.len() <= usize::MAX,
    ensures
        body_values(marks, name, 0, false) == seq![(PartKind::Normal, name)],
{
    assert forall|j: int| 0 <= j < name.len() implies !is_mark(marks, #[trigger] name[j]) by {
        assert(name.contains(name[j]));
    }
    segment_end_is(marks, name, 0, name.len() as int);
    assert(name.subrange(0, name.len() as int) =~= name);
    body_values_unfold(marks, name, 0, false);
    assert(body_values(marks, name, name.len() as int, false) =~= Seq::empty());
    assert(body_values(marks, name, 0, false) =~= seq![(PartKind::Normal, name)]);
}

proof fn the_last_component_is_the_name(style: PathStyle, path: Seq<char>, name: Seq<char>)
    requires
        path_problem(style, path) is None,
        path.len() <= usize::MAX,
        components(style, path).len() > 0,
        components(style, path).last() == (PartKind::Normal, name),
    ensures
        name_of(style, path) == Some(name),
{
    reveal(components);
    let list = parts_of(style, path);
    assert(components(style, path).last() == part_value(style, path, list.last()));
}

/// A path of the history ends in the name that it is, or that stands behind its
/// last slash, in whatever directory that is.
pub proof fn a_path_ends_in_the_name_behind_the_slash(
    style: PathStyle,
    directory: Seq<char>,
    name: Seq<char>,
)
    requires
        is_one_name(name),
        directory.len() + name.len() < usize::MAX,
    ensures
        path_problem(style, name) is None ==> name_of(style, name) == Some(name)
            && components(style, name) == seq![(PartKind::Normal, name)],
        path_problem(style, directory + seq!['/'] + name) is None ==> name_of(
            style,
            directory + seq!['/'] + name,
        ) == Some(name) && components(style, directory + seq!['/'] + name).last() == (
            PartKind::Normal,
            name,
        ),
{
    let marks = plain_marks(style);
    one_name_is_one_component(marks, name);
    if path_problem(style, name) is None {
        names_need_no_lead(style, name);
        the_last_component_is_the_name(style, name, name);
    }
    let path = directory + seq!['/'] + name;
    if path_problem(style, path) is None {
        names_need_no_lead(style, path);
        let head = directory + seq!['/'];
        assert(head.last() == '/');
        body_values_concat(marks, head, name, 0);
        assert(components(style, path).last() == (PartKind::Normal, name));
        the_last_component_is_the_name(style, path, name);
    }
}

/// The name that a path of the history ends in is its last component.
pub proof fn the_name_is_the_last_component(style: PathStyle, path: Seq<char>)
    ensures
        name_of(style, path) matches Some(name) ==> components(style, path).len() > 0
            && components(style, path).last() == (PartKind::Normal, name),
        components(style, path).len() > 0 && components(style, path).last().0 == PartKind::Normal
            ==> name_of(style, path) == Some(components(style, path).last().1),
{
    reveal(components);
}

/// A path of the history lies in a directory of one of these names, or is one,
/// exactly where one of its components is.
pub proof fn a_component_is_one_of_the_names(
    style: PathStyle,
    path: Seq<char>,
    names: Seq<Seq<char>>,
)
    requires
        path_problem(style, path) is None,
    ensures
        has_component_in(style, path, names) <==> exists|i: int|
            0 <= i < components(style, path).len() && names.contains(
                (#[trigger] components(style, path)[i]).1,
            ),
        forall|i: int|
            0 <= i < components(style, path).len() ==> (#[trigger] components(style, path)[i]).0
                == PartKind::Normal,
{
    reveal(components);
    let list = parts_of(style, path);
    assert forall|i: int| 0 <= i < list.len() implies #[trigger] components(style, path)[i] == (
        PartKind::Normal,
        part_text(path, list[i]),
    ) by {
        assert(list[i].kind == PartKind::Normal);
    }
    if has_component_in(style, path, names) {
        let i = choose|i: int|
            0 <= i < parts_of(style, path).len() && names.contains(
                part_text(path, #[trigger] parts_of(style, path)[i]),
            );
        assert(names.contains(components(style, path)[i].1));
    }
    if exists|i: int|
        0 <= i < components(style, path).len() && names.contains(
            (#[trigger] components(style, path)[i]).1,
        ) {
        let i = choose|i: int|
            0 <= i < components(style, path).len() && names.contains(
                (#[trigger] components(style, path)[i]).1,
            );
        assert(names.contains(part_text(path, list[i])));
    }
}

/// A path that is text, as it is shown, leads back to the path: with `~` taken for the home
/// directory again, it says what the path says. On Windows that is so where the
/// home directory is absolute and does not begin with `\\?\`, and what lies
/// below it does not begin like a drive.
pub proof fn a_shown_path_leads_back(style: PathStyle, path: Seq<char>, home: Seq<char>)
    requires
        absolute(style, path),
        !path.contains('\0'),
        home.len() > 0,
        style == PathStyle::Windows ==> {
            &&& absolute(style, home)
            &&& settled(style, home)
            &&& !verbatim(style, home)
            &&& stripped(style, path, home) matches Some(rest) ==> prefix_kind(style, rest)
                == PrefixKind::Absent
        },
        path.len() + home.len() < usize::MAX,
    ensures
        expanded(style, shown(style, path, Some(home)), Some(home)) matches Some(again)
            && components(style, again) == components(style, path),
{
    reveal_strlit("~");
    reveal_strlit("~/");
    reveal_strlit("~\\");
    prefix_bounds(style, path);
    assert(path.len() > 0);
    match stripped(style, path, home) {
        Some(rest) => {
            if style == PathStyle::Posix && !has_root(style, home) {
                relative_is_no_start(path, home);
            }
            stripped_components(style, path, home);
            assert(!rest.contains('\0'));
            heads_agree(style, path, home);
            if rest.len() == 0 {
                assert(prefix_kind(style, rest) == PrefixKind::Absent);
            }
            joined_components(style, home, rest);
            let text = "~/"@ + rest;
            assert(text.take(2) =~= "~/"@);
            assert(text.skip(2) =~= rest);
            assert(text.len() != 1);
        },
        None => {
            not_at_home(style, path);
            assert("~"@[0] == '~');
            if begins_with(path, "~/"@) {
                assert(path.take(2)[0] == path[0] && "~/"@[0] == '~');
            }
            if begins_with(path, "~\\"@) {
                assert(path.take(2)[0] == path[0] && "~\\"@[0] == '~');
            }
        },
    }
}

/// A relative path is not the beginning of an absolute one.
proof fn relative_is_no_start(path: Seq<char>, home: Seq<char>)
    requires
        has_root(PathStyle::Posix, path),
        !has_root(PathStyle::Posix, home),
        0 < home.len() <= usize::MAX,
        path.len() <= usize::MAX,
    ensures
        stripped(PathStyle::Posix, path, home) is None,
{
    let style = PathStyle::Posix;
    components_split(style, path);
    components_split(style, home);
    assert(!is_mark(Marks::Slash, home[0]));
    body_values_unfold(Marks::Slash, home, 0, true);
    assert(head_values(style, home) =~= Seq::empty());
    assert(components(style, home)[0].0 != PartKind::Root);
    assert(components(style, path)[0] == head_values(style, path)[0]);
    assert(components(style, path)[0].0 == PartKind::Root);
}

/// An absolute path does not begin with `~`.
proof fn not_at_home(style: PathStyle, path: Seq<char>)
    requires
        absolute(style, path),
    ensures
        path.len() > 0,
        path[0] != '~',
{
    prefix_bounds(style, path);
    if style == PathStyle::Windows && verbatim(style, path) {
        assert(path.take(4)[0] == seq!['\\', '\\', '?', '\\'][0]);
    }
}

/// A path is shown behind `~/` if and only if it is the home directory or lies
/// in it, by whole components; any other absolute path that is text is shown as it is.
pub proof fn a_path_is_shown_behind_home_if_it_lies_there(
    style: PathStyle,
    path: Seq<char>,
    home: Seq<char>,
)
    requires
        absolute(style, path),
        !path.contains('\0'),
    ensures
        ({
            let text = shown(style, path, Some(home));
            &&& (text.len() >= 2 && text.take(2) == "~/"@) <==> components(
                style,
                home,
            ).is_prefix_of(components(style, path))
            &&& !components(style, home).is_prefix_of(components(style, path)) ==> text == path
        }),
{
    reveal_strlit("~/");
    not_at_home(style, path);
    let text = shown(style, path, Some(home));
    match stripped(style, path, home) {
        Some(rest) => {
            assert(text.take(2) =~= "~/"@);
        },
        None => {
            if text.len() >= 2 && text.take(2) == "~/"@ {
                assert(text.take(2)[0] == text[0]);
            }
        },
    }
}

/// A path can be in a history exactly where it is relative and consists of
/// names alone: neither of nothing, nor of the directory itself or the one
/// above.
pub proof fn the_paths_that_can_be_in_a_history(style: PathStyle, path: Seq<char>)
    ensures
        path_problem(style, path) is None <==> path.len() > 0 && !absolute(style, path) && forall|
            i: int,
        |
            0 <= i < components(style, path).len() ==> (#[trigger] components(style, path)[i]).0
                == PartKind::Normal,
        path.len() == 0 || absolute(style, path) ==> path_problem(style, path) == Some(
            FailureView::NotRelative,
        ),
        path.len() > 0 && !absolute(style, path) && path_problem(style, path) is Some
            ==> path_problem(style, path) == Some(FailureView::UnsafePath(path)),
{
    reveal(components);
    let list = parts_of(style, path);
    assert(components(style, path).len() == list.len());
    assert forall|i: int| 0 <= i < list.len() implies (#[trigger] components(style, path)[i]).0
        == list[i].kind by {}
    if all_names(style, path) {
        assert forall|i: int| 0 <= i < list.len() implies (#[trigger] components(style, path)[i]).0
            == PartKind::Normal by {
            assert(list[i].kind == PartKind::Normal);
        }
    } else {
        let i = choose|i: int|
            0 <= i < list.len() && (#[trigger] list[i]).kind != PartKind::Normal;
        assert(components(style, path)[i].0 != PartKind::Normal);
    }
}

/// Git writes paths with slashes: on Windows a slash stands for each backslash,
/// and elsewhere a path stands for itself.
pub proof fn git_writes_paths_with_slashes(path: Seq<char>, i: int)
    requires
        0 <= i < path.len(),
    ensures
        git_form(PathStyle::Posix, path) == path,
        git_form(PathStyle::Windows, path).len() == path.len(),
        git_form(PathStyle::Windows, path)[i] == (if path[i] == '\\' {
            '/'
        } else {
            path[i]
        }),
{
}

/// What is joined to a path and begins at a root of its own takes the path's
/// place.
pub proof fn a_path_of_its_own_takes_the_place(style: PathStyle, base: Seq<char>, path: Seq<char>)
    requires
        absolute(style, path),
    ensures
        joined(style, base, path) == path,
{
}

/// On Posix the directory that an absolute path is in is what it begins with,
/// up to its last component; only the root is in no directory.
pub proof fn the_directory_that_a_path_is_in(path: Seq<char>)
    requires
        0 < path.len() <= usize::MAX,
        path[0] == '/',
    ensures
        match parent_of(PathStyle::Posix, path) {
            None => components(PathStyle::Posix, path).len() == 1,
            Some(up) => {
                &&& components(PathStyle::Posix, path).len() > 1
                &&& up.len() <= path.len() && path.take(up.len() as int) == up
                &&& components(PathStyle::Posix, up) == components(
                    PathStyle::Posix,
                    path,
                ).drop_last()
            },
        },
{
    let style = PathStyle::Posix;
    let marks = marks_of(style, path);
    let i = body_start(style, path);
    components_split(style, path);
    let body = body_parts(marks, path, i, false);
    let list = parts_of(style, path);
    assert(list =~= head_parts(style, path) + body);
    body_parts_stand(marks, path, i, false);
    if body.len() == 0 {
        assert(list.last() == head_parts(style, path)[0]);
    } else {
        assert(list.last() == body.last());
        assert(stands(marks, path, i, body.last()));
        let up = parent_of(style, path)->0;
        if body.len() == 1 {
            assert(up =~= path.take(1));
            components_split(style, up);
            assert(body_values(marks, up, 1, false) =~= Seq::empty());
        } else {
            let k = body.len() - 2;
            let part = body[k];
            let end = part.to as int;
            assert(list[list.len() - 2] == part);
            assert(stands(marks, path, i, part));
            body_parts_from(marks, path, i, k);
            let rest = body_parts(marks, path, end, false);
            segment_end_is(marks, path, part.from as int, end);
            assert(body.skip(k).len() == 2);
            assert(body.skip(k)[0] == part);
            assert(!is_mark(marks, path[part.from as int]));
            body_parts_stand(marks, path, end, false);
            if body.skip(k) == rest {
                assert(stands(marks, path, end, rest[0]));
            }
            assert(body.skip(k) == seq![part] + rest);
            assert(rest.len() == 1);
            let behind = path.skip(end);
            assert(end < path.len());
            assert(up =~= path.take(end));
            assert(behind[0] == path[end]);
            assert(path =~= up + behind);
            body_values_concat(marks, up, behind, i);
            body_values_shift(marks, up, behind, 0);
            assert(body_values(marks, path, end, false).len() == 1);
            components_split(style, up);
            assert(head_values(style, up) =~= head_values(style, path));
        }
        assert(components(style, up) =~= components(style, path).drop_last());
    }
}

} // verus!
