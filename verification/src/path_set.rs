//! Sets of paths, kept as lists in ascending order. Paths are ordered by their
//! components, so what lies below a directory follows it at once.

use crate::ordered::{
    precedes, precedes_irreflexive, precedes_total, precedes_transitive, rank, Rank,
};
use crate::paths::{components, part_value, parts, value_of_prefix, PartKind, PathStyle};
use crate::text::{chars_of, text_between};
use crate::native::{bytes_of_path, path_bytes};
use vstd::prelude::*;

verus! {

/// Which kinds of components come before which.
pub open spec fn kind_order(kind: PartKind) -> int {
    match kind {
        PartKind::Prefix => 0,
        PartKind::Root => 1,
        PartKind::Current => 2,
        PartKind::Parent => 3,
        PartKind::Normal => 4,
    }
}

/// The bytes of a name, in a row of characters.
pub open spec fn name_bytes(name: Seq<char>) -> Seq<char> {
    path_bytes(name).map_values(|b: u8| b as char)
}

/// Whether what one component says comes before what another one says: names
/// by their bytes, prefixes as they are.
pub open spec fn value_precedes(kind: PartKind, a: Seq<char>, b: Seq<char>) -> bool {
    if kind == PartKind::Normal {
        precedes(name_bytes(a), name_bytes(b)) || (name_bytes(a) == name_bytes(b) && precedes(
            a,
            b,
        ))
    } else {
        precedes(a, b)
    }
}

/// Whether a component comes before another.
pub open spec fn part_precedes(a: (PartKind, Seq<char>), b: (PartKind, Seq<char>)) -> bool {
    kind_order(a.0) < kind_order(b.0) || (a.0 == b.0 && value_precedes(a.0, a.1, b.1))
}

proof fn value_precedes_irreflexive(kind: PartKind, a: Seq<char>)
    ensures
        !value_precedes(kind, a, a),
{
    precedes_irreflexive(a);
    precedes_irreflexive(name_bytes(a));
}

proof fn value_precedes_transitive(kind: PartKind, a: Seq<char>, b: Seq<char>, c: Seq<char>)
    requires
        value_precedes(kind, a, b),
        value_precedes(kind, b, c),
    ensures
        value_precedes(kind, a, c),
{
    if precedes(a, b) && precedes(b, c) {
        precedes_transitive(a, b, c);
    }
    if precedes(name_bytes(a), name_bytes(b)) && precedes(name_bytes(b), name_bytes(c)) {
        precedes_transitive(name_bytes(a), name_bytes(b), name_bytes(c));
    }
}

proof fn value_precedes_total(kind: PartKind, a: Seq<char>, b: Seq<char>)
    requires
        a != b,
    ensures
        value_precedes(kind, a, b) || value_precedes(kind, b, a),
{
    precedes_total(a, b);
    if name_bytes(a) != name_bytes(b) {
        precedes_total(name_bytes(a), name_bytes(b));
    }
}

/// Whether a row of components comes before another: component by component,
/// the beginning of a row before the row.
pub open spec fn parts_precede(
    a: Seq<(PartKind, Seq<char>)>,
    b: Seq<(PartKind, Seq<char>)>,
) -> bool
    decreases a.len(),
{
    if b.len() == 0 {
        false
    } else if a.len() == 0 {
        true
    } else if a[0] != b[0] {
        part_precedes(a[0], b[0])
    } else {
        parts_precede(a.drop_first(), b.drop_first())
    }
}

/// Whether a path comes before another.
pub open spec fn path_precedes(style: PathStyle, a: Seq<char>, b: Seq<char>) -> bool {
    parts_precede(components(style, a), components(style, b))
}

/// Whether two texts write one path.
pub open spec fn one_path(style: PathStyle, a: Seq<char>, b: Seq<char>) -> bool {
    components(style, a) == components(style, b)
}

proof fn parts_precede_irreflexive(a: Seq<(PartKind, Seq<char>)>)
    ensures
        !parts_precede(a, a),
    decreases a.len(),
{
    if a.len() > 0 {
        parts_precede_irreflexive(a.drop_first());
    }
}

proof fn parts_precede_transitive(
    a: Seq<(PartKind, Seq<char>)>,
    b: Seq<(PartKind, Seq<char>)>,
    c: Seq<(PartKind, Seq<char>)>,
)
    requires
        parts_precede(a, b),
        parts_precede(b, c),
    ensures
        parts_precede(a, c),
    decreases a.len(),
{
    if a.len() > 0 {
        if a[0] == b[0] && b[0] == c[0] {
            parts_precede_transitive(a.drop_first(), b.drop_first(), c.drop_first());
        } else if a[0] != b[0] && b[0] != c[0] {
            if a[0].0 == b[0].0 && b[0].0 == c[0].0 {
                value_precedes_transitive(a[0].0, a[0].1, b[0].1, c[0].1);
            }
            if a[0] == c[0] {
                value_precedes_irreflexive(a[0].0, a[0].1);
            }
        }
    }
}

proof fn parts_precede_total(a: Seq<(PartKind, Seq<char>)>, b: Seq<(PartKind, Seq<char>)>)
    requires
        a != b,
    ensures
        parts_precede(a, b) || parts_precede(b, a),
    decreases a.len(),
{
    if a.len() > 0 && b.len() > 0 {
        if a[0] == b[0] {
            if a.drop_first() == b.drop_first() {
                assert(a =~= seq![a[0]] + a.drop_first());
                assert(b =~= seq![b[0]] + b.drop_first());
            }
            parts_precede_total(a.drop_first(), b.drop_first());
        } else if a[0].0 == b[0].0 {
            value_precedes_total(a[0].0, a[0].1, b[0].1);
        }
    } else if a.len() == 0 && b.len() == 0 {
        assert(a =~= b);
    }
}

/// Whether a list of paths is in strictly ascending order.
pub open spec fn paths_ascending(style: PathStyle, list: Seq<Seq<char>>) -> bool {
    forall|i: int, j: int|
        0 <= i < j < list.len() ==> path_precedes(style, #[trigger] list[i], #[trigger] list[j])
}

/// An ascending list with `item` in its place; the list itself where it holds
/// the path already.
pub open spec fn path_inserted(
    style: PathStyle,
    list: Seq<Seq<char>>,
    item: Seq<char>,
) -> Seq<Seq<char>>
    decreases list.len(),
{
    if list.len() == 0 {
        seq![item]
    } else if path_precedes(style, list.last(), item) {
        list.push(item)
    } else if one_path(style, list.last(), item) {
        list
    } else {
        path_inserted(style, list.drop_last(), item).push(list.last())
    }
}

/// The set of the paths in `items`, as an ascending list. Of the texts that
/// write one path the first is in it.
pub open spec fn path_set(style: PathStyle, items: Seq<Seq<char>>) -> Seq<Seq<char>>
    decreases items.len(),
{
    if items.len() == 0 {
        Seq::empty()
    } else {
        path_inserted(style, path_set(style, items.drop_last()), items.last())
    }
}

/// Whether a list holds the path that a text writes.
pub open spec fn holds_path(style: PathStyle, list: Seq<Seq<char>>, path: Seq<char>) -> bool {
    exists|i: int| 0 <= i < list.len() && one_path(style, #[trigger] list[i], path)
}

proof fn path_inserted_keeps_order(style: PathStyle, list: Seq<Seq<char>>, item: Seq<char>)
    requires
        paths_ascending(style, list),
    ensures
        paths_ascending(style, path_inserted(style, list, item)),
        forall|x: Seq<char>| #[trigger]
            path_inserted(style, list, item).contains(x) ==> list.contains(x) || x == item,
        forall|x: Seq<char>| #[trigger]
            holds_path(style, path_inserted(style, list, item), x) <==> holds_path(
                style,
                list,
                x,
            ) || one_path(style, item, x),
    decreases list.len(),
{
    let result = path_inserted(style, list, item);
    if list.len() == 0 {
        assert(result[0] == item);
        assert forall|x: Seq<char>| #[trigger] holds_path(style, result, x) <==> holds_path(
            style,
            list,
            x,
        ) || one_path(style, item, x) by {
            assert(one_path(style, item, x) ==> one_path(style, result[0], x));
        }
    } else if path_precedes(style, list.last(), item) {
        assert forall|i: int, j: int| 0 <= i < j < result.len() implies path_precedes(
            style,
            #[trigger] result[i],
            #[trigger] result[j],
        ) by {
            if j == list.len() && i < list.len() - 1 {
                parts_precede_transitive(
                    components(style, list[i]),
                    components(style, list.last()),
                    components(style, item),
                );
            }
        }
        assert forall|x: Seq<char>| #[trigger] result.contains(x) implies list.contains(x)
            || x == item by {
            let k = choose|k: int| 0 <= k < result.len() && result[k] == x;
            assert(k < list.len() ==> list[k] == x);
        }
        assert forall|x: Seq<char>| #[trigger] holds_path(style, result, x) <==> holds_path(
            style,
            list,
            x,
        ) || one_path(style, item, x) by {
            if holds_path(style, list, x) {
                let k = choose|k: int| 0 <= k < list.len() && one_path(style, #[trigger] list[k], x);
                assert(one_path(style, result[k], x));
            }
            assert(result[list.len() as int] == item);
            if holds_path(style, result, x) {
                let k = choose|k: int|
                    0 <= k < result.len() && one_path(style, #[trigger] result[k], x);
                assert(k < list.len() ==> one_path(style, list[k], x));
            }
        }
    } else if one_path(style, list.last(), item) {
        assert forall|x: Seq<char>| #[trigger] holds_path(style, result, x) <==> holds_path(
            style,
            list,
            x,
        ) || one_path(style, item, x) by {
            assert(one_path(style, item, x) ==> one_path(style, list[list.len() - 1], x));
        }
    } else {
        let init = list.drop_last();
        let last = list.last();
        path_inserted_keeps_order(style, init, item);
        parts_precede_total(components(style, item), components(style, last));
        let shorter = path_inserted(style, init, item);
        assert forall|i: int| 0 <= i < shorter.len() implies path_precedes(
            style,
            #[trigger] shorter[i],
            last,
        ) by {
            assert(shorter.contains(shorter[i]));
            if shorter[i] != item {
                let k = choose|k: int| 0 <= k < init.len() && init[k] == shorter[i];
                assert(path_precedes(style, list[k], list[list.len() - 1]));
            }
        }
        assert forall|i: int, j: int| 0 <= i < j < result.len() implies path_precedes(
            style,
            #[trigger] result[i],
            #[trigger] result[j],
        ) by {
            if j < shorter.len() {
                assert(result[i] == shorter[i] && result[j] == shorter[j]);
            } else {
                assert(result[i] == shorter[i]);
            }
        }
        assert forall|x: Seq<char>| #[trigger] result.contains(x) implies list.contains(x)
            || x == item by {
            let k = choose|k: int| 0 <= k < result.len() && result[k] == x;
            if k < shorter.len() {
                assert(shorter[k] == x);
                assert(shorter.contains(x));
                if x != item {
                    let m = choose|m: int| 0 <= m < init.len() && init[m] == x;
                    assert(list[m] == x);
                }
            } else {
                assert(list[list.len() - 1] == x);
            }
        }
        assert forall|x: Seq<char>| #[trigger] holds_path(style, result, x) <==> holds_path(
            style,
            list,
            x,
        ) || one_path(style, item, x) by {
            if holds_path(style, result, x) {
                let k = choose|k: int|
                    0 <= k < result.len() && one_path(style, #[trigger] result[k], x);
                if k < shorter.len() {
                    assert(one_path(style, shorter[k], x));
                    assert(holds_path(style, shorter, x));
                    if holds_path(style, init, x) {
                        let m = choose|m: int|
                            0 <= m < init.len() && one_path(style, #[trigger] init[m], x);
                        assert(one_path(style, list[m], x));
                    }
                } else {
                    assert(one_path(style, list[list.len() - 1], x));
                }
            }
            if holds_path(style, list, x) || one_path(style, item, x) {
                if one_path(style, last, x) {
                    assert(one_path(style, result[shorter.len() as int], x));
                } else {
                    if holds_path(style, list, x) {
                        let k = choose|k: int|
                            0 <= k < list.len() && one_path(style, #[trigger] list[k], x);
                        assert(one_path(style, init[k], x));
                        assert(holds_path(style, init, x));
                    }
                    assert(holds_path(style, shorter, x));
                    let m = choose|m: int|
                        0 <= m < shorter.len() && one_path(style, #[trigger] shorter[m], x);
                    assert(one_path(style, result[m], x));
                }
            }
        }
    }
}

/// A set of paths is ascending, so no path occurs twice in it; every text in
/// it is one of those that it was made from, and it holds every path that
/// they write.
pub proof fn path_set_is_the_set(style: PathStyle, items: Seq<Seq<char>>)
    ensures
        paths_ascending(style, path_set(style, items)),
        forall|x: Seq<char>| #[trigger] path_set(style, items).contains(x) ==> items.contains(x),
        forall|x: Seq<char>| #[trigger]
            holds_path(style, path_set(style, items), x) <==> holds_path(style, items, x),
    decreases items.len(),
{
    if items.len() > 0 {
        let init = items.drop_last();
        path_set_is_the_set(style, init);
        path_inserted_keeps_order(style, path_set(style, init), items.last());
        assert forall|x: Seq<char>| #[trigger] path_set(style, items).contains(
            x,
        ) implies items.contains(x) by {
            if path_set(style, init).contains(x) {
                let k = choose|k: int| 0 <= k < init.len() && init[k] == x;
                assert(items[k] == x);
            } else {
                assert(items[items.len() - 1] == x);
            }
        }
        assert forall|x: Seq<char>| #[trigger]
            holds_path(style, path_set(style, items), x) <==> holds_path(style, items, x) by {
            if holds_path(style, items, x) {
                let k = choose|k: int|
                    0 <= k < items.len() && one_path(style, #[trigger] items[k], x);
                if k < init.len() {
                    assert(one_path(style, init[k], x));
                    assert(holds_path(style, init, x));
                }
            }
            if holds_path(style, init, x) {
                let k = choose|k: int|
                    0 <= k < init.len() && one_path(style, #[trigger] init[k], x);
                assert(one_path(style, items[k], x));
            }
            assert(one_path(style, items.last(), x) ==> one_path(
                style,
                items[items.len() - 1],
                x,
            ));
        }
    }
}

fn kind_number(kind: PartKind) -> (n: u8)
    ensures
        n == kind_order(kind),
{
    match kind {
        PartKind::Prefix => 0,
        PartKind::Root => 1,
        PartKind::Current => 2,
        PartKind::Parent => 3,
        PartKind::Normal => 4,
    }
}

fn byte_text(name: &str) -> (text: String)
    ensures
        text@ == name_bytes(name@),
{
    let bytes = bytes_of_path(name);
    let mut text = String::new();
    let mut i: usize = 0;
    while i < bytes.len()
        invariant
            i <= bytes@.len(),
            text@.len() == i,
            forall|j: int| 0 <= j < i ==> text@[j] == bytes@[j] as char,
        decreases bytes@.len() - i,
    {
        text.push(bytes[i] as char);
        i = i + 1;
    }
    assert(text@ =~= name_bytes(name@));
    text
}

fn value_rank(kind: PartKind, a: &str, b: &str) -> (r: Rank)
    ensures
        r == Rank::Before <==> value_precedes(kind, a@, b@),
        r == Rank::Same <==> a@ == b@,
        r == Rank::After <==> a@ != b@ && !value_precedes(kind, a@, b@),
{
    proof {
        precedes_irreflexive(name_bytes(a@));
    }
    if kind == PartKind::Normal {
        match rank(byte_text(a).as_str(), byte_text(b).as_str()) {
            Rank::Before => {
                return Rank::Before;
            },
            Rank::After => {
                return Rank::After;
            },
            Rank::Same => {},
        }
    }
    rank(a, b)
}

/// How the path `a` stands to the path `b`.
#[verifier::loop_isolation(false)]
pub fn path_rank(style: PathStyle, a: &str, b: &str) -> (r: Rank)
    ensures
        r == Rank::Before <==> path_precedes(style, a@, b@),
        r == Rank::Same <==> one_path(style, a@, b@),
        r == Rank::After <==> !one_path(style, a@, b@) && !path_precedes(style, a@, b@),
{
    let s = chars_of(a);
    let t = chars_of(b);
    let first = parts(style, &s);
    let second = parts(style, &t);
    let ghost x = components(style, a@);
    let ghost y = components(style, b@);
    proof {
        reveal(components);
    }
    let mut i: usize = 0;
    assert(x.skip(0) =~= x);
    assert(y.skip(0) =~= y);
    while i < first.len() && i < second.len()
        invariant
            i <= first@.len(),
            i <= second@.len(),
            forall|j: int| 0 <= j < i ==> x[j] == y[j],
            parts_precede(x, y) == parts_precede(x.skip(i as int), y.skip(i as int)),
        decreases first@.len() - i,
    {
        let p = first[i];
        let q = second[i];
        assert(x[i as int] == part_value(style, a@, p));
        assert(y[i as int] == part_value(style, b@, q));
        let m: u8 = kind_number(p.kind);
        let n: u8 = kind_number(q.kind);
        if m < n {
            assert(x[i as int].0 != y[i as int].0);
            return Rank::Before;
        }
        if n < m {
            assert(x[i as int].0 != y[i as int].0);
            return Rank::After;
        }
        if p.kind == PartKind::Normal || p.kind == PartKind::Prefix {
            let prefix = p.kind == PartKind::Prefix;
            let u = if prefix {
                value_of_prefix(style, &s)
            } else {
                text_between(&s, p.from, p.to)
            };
            let v = if prefix {
                value_of_prefix(style, &t)
            } else {
                text_between(&t, q.from, q.to)
            };
            match value_rank(p.kind, u.as_str(), v.as_str()) {
                Rank::Before => {
                    proof {
                        value_precedes_irreflexive(p.kind, u@);
                    }
                    assert(x[i as int] != y[i as int]);
                    return Rank::Before;
                },
                Rank::Same => {},
                Rank::After => {
                    assert(x[i as int] != y[i as int]);
                    return Rank::After;
                },
            }
        }
        assert(x[i as int] == y[i as int]);
        assert(x.skip(i as int).drop_first() =~= x.skip(i + 1));
        assert(y.skip(i as int).drop_first() =~= y.skip(i + 1));
        i = i + 1;
    }
    if i == first.len() && i == second.len() {
        assert(x =~= y);
        proof {
            parts_precede_irreflexive(x);
        }
        Rank::Same
    } else if i == second.len() {
        assert(x.len() != y.len());
        Rank::After
    } else {
        assert(x.len() != y.len());
        Rank::Before
    }
}

/// Puts `item` in its place in an ascending list, unless the path is in it.
#[verifier::loop_isolation(false)]
pub fn insert_path(style: PathStyle, list: &mut Vec<String>, item: String)
    ensures
        final(list).deep_view() == path_inserted(style, old(list).deep_view(), item@),
{
    let ghost before = list.deep_view();
    let mut at: usize = list.len();
    assert(before.take(at as int) =~= before);
    assert(before.skip(at as int) =~= Seq::<Seq<char>>::empty());
    assert(path_inserted(style, before, item@) =~= path_inserted(
        style,
        before.take(at as int),
        item@,
    ) + before.skip(at as int));
    while at > 0
        invariant
            at <= list@.len(),
            list.deep_view() == before,
            path_inserted(style, before, item@) == path_inserted(
                style,
                before.take(at as int),
                item@,
            ) + before.skip(at as int),
        decreases at,
    {
        let ghost head = before.take(at as int);
        assert(head.last() == list@[at - 1]@);
        match path_rank(style, list[at - 1].as_str(), item.as_str()) {
            Rank::Before => {
                break ;
            },
            Rank::Same => {
                assert(path_inserted(style, before, item@) =~= before);
                return ;
            },
            Rank::After => {
                assert(head.drop_last() =~= before.take(at - 1));
                assert(path_inserted(style, head, item@) + before.skip(at as int) =~= path_inserted(
                    style,
                    before.take(at - 1),
                    item@,
                ) + before.skip(at - 1));
                at = at - 1;
            },
        }
    }
    list.insert(at, item);
    assert(list.deep_view() =~= before.take(at as int).push(item@) + before.skip(at as int));
    assert(path_inserted(style, before.take(at as int), item@) =~= before.take(at as int).push(
        item@,
    ));
}

} // verus!
