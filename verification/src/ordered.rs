//! Sets of texts, kept as lists in ascending order.

use crate::text::chars_of;
use vstd::prelude::*;

verus! {

/// Whether `a` comes before `b`: character by character, a prefix first.
pub open spec fn precedes(a: Seq<char>, b: Seq<char>) -> bool
    decreases a.len(),
{
    if b.len() == 0 {
        false
    } else if a.len() == 0 {
        true
    } else if a[0] != b[0] {
        a[0] < b[0]
    } else {
        precedes(a.drop_first(), b.drop_first())
    }
}

/// How two texts stand to each other.
#[derive(Clone, Copy, PartialEq, Eq, Structural)]
pub enum Rank {
    Before,
    Same,
    After,
}

/// How `a` stands to `b`.
pub fn rank(a: &str, b: &str) -> (r: Rank)
    ensures
        r == Rank::Before <==> precedes(a@, b@),
        r == Rank::Same <==> a@ == b@,
        r == Rank::After <==> a@ != b@ && !precedes(a@, b@),
{
    let x = chars_of(a);
    let y = chars_of(b);
    let mut i: usize = 0;
    assert(a@.skip(0) =~= a@);
    assert(b@.skip(0) =~= b@);
    while i < x.len() && i < y.len() && x[i] == y[i]
        invariant
            i <= x@.len(),
            i <= y@.len(),
            x@ == a@,
            y@ == b@,
            forall|j: int| 0 <= j < i ==> x@[j] == y@[j],
            precedes(a@, b@) == precedes(a@.skip(i as int), b@.skip(i as int)),
        decreases x@.len() - i,
    {
        assert(a@.skip(i as int).drop_first() =~= a@.skip(i + 1));
        assert(b@.skip(i as int).drop_first() =~= b@.skip(i + 1));
        i = i + 1;
    }
    if i == x.len() && i == y.len() {
        assert(a@ =~= b@);
        proof {
            precedes_irreflexive(a@);
        }
        Rank::Same
    } else if i == y.len() {
        Rank::After
    } else if i == x.len() || x[i] < y[i] {
        Rank::Before
    } else {
        assert(a@[i as int] != b@[i as int]);
        Rank::After
    }
}

/// No text comes before itself.
pub proof fn precedes_irreflexive(a: Seq<char>)
    ensures
        !precedes(a, a),
    decreases a.len(),
{
    if a.len() > 0 {
        precedes_irreflexive(a.drop_first());
    }
}

/// The order is transitive.
pub proof fn precedes_transitive(a: Seq<char>, b: Seq<char>, c: Seq<char>)
    requires
        precedes(a, b),
        precedes(b, c),
    ensures
        precedes(a, c),
    decreases a.len(),
{
    if a.len() > 0 && b.len() > 0 && c.len() > 0 && a[0] == b[0] && b[0] == c[0] {
        precedes_transitive(a.drop_first(), b.drop_first(), c.drop_first());
    }
}

/// Of two different texts one comes before the other.
pub proof fn precedes_total(a: Seq<char>, b: Seq<char>)
    requires
        a != b,
    ensures
        precedes(a, b) || precedes(b, a),
    decreases a.len(),
{
    if a.len() > 0 && b.len() > 0 && a[0] == b[0] {
        if a.drop_first() == b.drop_first() {
            assert(a =~= seq![a[0]] + a.drop_first());
            assert(b =~= seq![b[0]] + b.drop_first());
        }
        precedes_total(a.drop_first(), b.drop_first());
    } else if a.len() == 0 && b.len() == 0 {
        assert(a =~= b);
    }
}

/// Whether a list is in strictly ascending order.
pub open spec fn ascending(list: Seq<Seq<char>>) -> bool {
    forall|i: int, j: int| 0 <= i < j < list.len() ==> precedes(#[trigger] list[i], #[trigger] list[j])
}

/// An ascending list with `item` in its place; the list itself where it holds `item`.
pub open spec fn inserted(list: Seq<Seq<char>>, item: Seq<char>) -> Seq<Seq<char>>
    decreases list.len(),
{
    if list.len() == 0 {
        seq![item]
    } else if precedes(list.last(), item) {
        list.push(item)
    } else if list.last() == item {
        list
    } else {
        inserted(list.drop_last(), item).push(list.last())
    }
}

/// The set of the texts in `items`, as an ascending list.
pub open spec fn sorted_set(items: Seq<Seq<char>>) -> Seq<Seq<char>>
    decreases items.len(),
{
    if items.len() == 0 {
        Seq::empty()
    } else {
        inserted(sorted_set(items.drop_last()), items.last())
    }
}

/// Inserting keeps a list ascending and adds exactly the item.
pub proof fn inserted_keeps_order(list: Seq<Seq<char>>, item: Seq<char>)
    requires
        ascending(list),
    ensures
        ascending(inserted(list, item)),
        forall|x: Seq<char>|
            #[trigger] inserted(list, item).contains(x) <==> list.contains(x) || x == item,
    decreases list.len(),
{
    let result = inserted(list, item);
    if list.len() == 0 {
        assert(result[0] == item);
    } else if precedes(list.last(), item) {
        assert forall|i: int, j: int| 0 <= i < j < result.len() implies precedes(
            #[trigger] result[i],
            #[trigger] result[j],
        ) by {
            if j == list.len() && i < list.len() - 1 {
                precedes_transitive(list[i], list.last(), item);
            }
        }
        assert forall|x: Seq<char>| #[trigger] result.contains(x) <==> list.contains(x)
            || x == item by {
            if list.contains(x) {
                let k = choose|k: int| 0 <= k < list.len() && list[k] == x;
                assert(result[k] == x);
            }
            assert(result[list.len() as int] == item);
        }
    } else if list.last() == item {
        assert(list[list.len() - 1] == item);
    } else {
        let init = list.drop_last();
        let last = list.last();
        inserted_keeps_order(init, item);
        precedes_total(item, last);
        let shorter = inserted(init, item);
        assert forall|i: int| 0 <= i < shorter.len() implies precedes(#[trigger] shorter[i], last) by {
            assert(shorter.contains(shorter[i]));
            if shorter[i] != item {
                let k = choose|k: int| 0 <= k < init.len() && init[k] == shorter[i];
                assert(precedes(list[k], list[list.len() - 1]));
            }
        }
        assert forall|i: int, j: int| 0 <= i < j < result.len() implies precedes(
            #[trigger] result[i],
            #[trigger] result[j],
        ) by {
            if j < shorter.len() {
                assert(result[i] == shorter[i] && result[j] == shorter[j]);
            } else {
                assert(result[i] == shorter[i]);
            }
        }
        assert forall|x: Seq<char>| #[trigger] result.contains(x) <==> list.contains(x)
            || x == item by {
            if result.contains(x) {
                let k = choose|k: int| 0 <= k < result.len() && result[k] == x;
                if k < shorter.len() {
                    assert(shorter[k] == x);
                    assert(shorter.contains(x));
                    if x != item {
                        let m = choose|m: int| 0 <= m < init.len() && init[m] == x;
                        assert(list[m] == x);
                    }
                } else {
                    assert(list[list.len() - 1] == x);
                }
            }
            if list.contains(x) || x == item {
                if list.contains(x) && x != last {
                    let k = choose|k: int| 0 <= k < list.len() && list[k] == x;
                    assert(init[k] == x);
                    assert(init.contains(x));
                }
                if x == last && x != item {
                    assert(result[shorter.len() as int] == x);
                } else {
                    assert(shorter.contains(x));
                    let m = choose|m: int| 0 <= m < shorter.len() && shorter[m] == x;
                    assert(result[m] == x);
                }
            }
        }
    }
}

/// A sorted set is ascending, so nothing occurs twice in it, and it holds
/// exactly what the list holds that it was made from.
pub proof fn sorted_set_is_the_set(items: Seq<Seq<char>>)
    ensures
        ascending(sorted_set(items)),
        forall|x: Seq<char>| #[trigger] sorted_set(items).contains(x) <==> items.contains(x),
    decreases items.len(),
{
    if items.len() > 0 {
        let init = items.drop_last();
        sorted_set_is_the_set(init);
        inserted_keeps_order(sorted_set(init), items.last());
        assert forall|x: Seq<char>| #[trigger] sorted_set(items).contains(x) <==> items.contains(
            x,
        ) by {
            if items.contains(x) {
                let k = choose|k: int| 0 <= k < items.len() && items[k] == x;
                if k < init.len() {
                    assert(init[k] == x);
                }
            }
            if init.contains(x) {
                let k = choose|k: int| 0 <= k < init.len() && init[k] == x;
                assert(items[k] == x);
            }
            assert(items[items.len() - 1] == items.last());
        }
    }
}

/// Two ascending lists that hold the same texts are the same list.
pub proof fn ascending_lists_are_sets(a: Seq<Seq<char>>, b: Seq<Seq<char>>)
    requires
        ascending(a),
        ascending(b),
        forall|x: Seq<char>| #[trigger] a.contains(x) <==> b.contains(x),
    ensures
        a == b,
    decreases a.len(),
{
    if a.len() == 0 {
        if b.len() > 0 {
            assert(b.contains(b[0]));
            assert(a.contains(b[0]));
        }
        assert(a =~= b);
    } else {
        let x = a.last();
        assert(a.contains(a[a.len() - 1]));
        assert(b.contains(x));
        let y = b.last();
        assert(b.contains(b[b.len() - 1]));
        assert(a.contains(y));
        if x != y {
            let i = choose|i: int| 0 <= i < b.len() && b[i] == x;
            assert(precedes(b[i], b[b.len() - 1]));
            let j = choose|j: int| 0 <= j < a.len() && a[j] == y;
            assert(precedes(a[j], a[a.len() - 1]));
            precedes_transitive(x, y, x);
            precedes_irreflexive(x);
        }
        all_but_the_last(a);
        all_but_the_last(b);
        ascending_lists_are_sets(a.drop_last(), b.drop_last());
        assert(a =~= a.drop_last().push(x));
        assert(b =~= b.drop_last().push(x));
    }
}

proof fn all_but_the_last(list: Seq<Seq<char>>)
    requires
        ascending(list),
        list.len() > 0,
    ensures
        ascending(list.drop_last()),
        forall|x: Seq<char>| #[trigger]
            list.drop_last().contains(x) <==> list.contains(x) && x != list.last(),
{
    assert forall|x: Seq<char>| #[trigger] list.drop_last().contains(x) <==> list.contains(x) && x
        != list.last() by {
        if list.drop_last().contains(x) {
            let i = choose|i: int| 0 <= i < list.len() - 1 && list.drop_last()[i] == x;
            assert(list[i] == x);
            assert(precedes(list[i], list[list.len() - 1]));
            precedes_irreflexive(x);
        }
        if list.contains(x) && x != list.last() {
            let i = choose|i: int| 0 <= i < list.len() && list[i] == x;
            assert(list.drop_last()[i] == x);
        }
    }
}

proof fn pushed_behind(list: Seq<Seq<char>>, item: Seq<char>)
    requires
        ascending(list),
        forall|i: int| 0 <= i < list.len() ==> precedes(#[trigger] list[i], item),
    ensures
        ascending(list.push(item)),
        forall|x: Seq<char>| #[trigger]
            list.push(item).contains(x) <==> list.contains(x) || x == item,
{
    let longer = list.push(item);
    assert forall|x: Seq<char>| #[trigger] longer.contains(x) <==> list.contains(x) || x == item by {
        if list.contains(x) {
            let i = choose|i: int| 0 <= i < list.len() && list[i] == x;
            assert(longer[i] == x);
        }
        assert(longer[list.len() as int] == item);
    }
}

proof fn taken_one_more(list: Seq<Seq<char>>, i: int)
    requires
        0 <= i < list.len(),
    ensures
        forall|x: Seq<char>| #[trigger]
            list.take(i + 1).contains(x) <==> list.take(i).contains(x) || x == list[i],
{
    assert(list.take(i + 1) =~= list.take(i).push(list[i]));
    assert forall|x: Seq<char>| #[trigger] list.take(i + 1).contains(x) <==> list.take(i).contains(
        x,
    ) || x == list[i] by {
        let longer = list.take(i + 1);
        let shorter = list.take(i);
        if shorter.contains(x) {
            let k = choose|k: int| 0 <= k < shorter.len() && shorter[k] == x;
            assert(longer[k] == x);
        }
        assert(longer[i] == list[i]);
    }
}

/// Merges two ascending lists.
#[verifier::loop_isolation(false)]
fn merge(a: &Vec<String>, b: &Vec<String>) -> (list: Vec<String>)
    requires
        ascending(a.deep_view()),
        ascending(b.deep_view()),
    ensures
        ascending(list.deep_view()),
        forall|x: Seq<char>| #[trigger]
            list.deep_view().contains(x) <==> a.deep_view().contains(x) || b.deep_view().contains(x),
{
    let ghost first = a.deep_view();
    let ghost second = b.deep_view();
    let mut list: Vec<String> = Vec::new();
    let mut i: usize = 0;
    let mut j: usize = 0;
    while i < a.len() || j < b.len()
        invariant
            i <= a@.len(),
            j <= b@.len(),
            ascending(list.deep_view()),
            forall|x: Seq<char>| #[trigger]
                list.deep_view().contains(x) <==> first.take(i as int).contains(x) || second.take(
                    j as int,
                ).contains(x),
            forall|k: int|
                0 <= k < list@.len() ==> (i < first.len() ==> precedes(
                    #[trigger] list.deep_view()[k],
                    first[i as int],
                )) && (j < second.len() ==> precedes(list.deep_view()[k], second[j as int])),
        decreases a@.len() - i + b@.len() - j,
    {
        let ghost before = list.deep_view();
        let order = if i == a.len() {
            Rank::After
        } else if j == b.len() {
            Rank::Before
        } else {
            rank(a[i].as_str(), b[j].as_str())
        };
        let item = match order {
            Rank::After => b[j].clone(),
            _ => a[i].clone(),
        };
        proof {
            if i < first.len() {
                taken_one_more(first, i as int);
            }
            if j < second.len() {
                taken_one_more(second, j as int);
            }
            if i < first.len() && j < second.len() && first[i as int] != second[j as int] {
                precedes_total(first[i as int], second[j as int]);
            }
            pushed_behind(before, item@);
            assert forall|k: int| 0 <= k < before.push(item@).len() implies (order != Rank::After
                && i + 1 < first.len() ==> precedes(
                #[trigger] before.push(item@)[k],
                first[i + 1],
            )) && (order != Rank::Before && j + 1 < second.len() ==> precedes(
                before.push(item@)[k],
                second[j + 1],
            )) by {
                if order != Rank::After && i + 1 < first.len() {
                    assert(precedes(first[i as int], first[i + 1]));
                    if k < before.len() {
                        precedes_transitive(before[k], first[i as int], first[i + 1]);
                    }
                }
                if order != Rank::Before && j + 1 < second.len() {
                    assert(precedes(second[j as int], second[j + 1]));
                    if k < before.len() {
                        precedes_transitive(before[k], second[j as int], second[j + 1]);
                    }
                }
            }
        }
        list.push(item);
        assert(list.deep_view() =~= before.push(item@));
        match order {
            Rank::Before => {
                i = i + 1;
            },
            Rank::Same => {
                i = i + 1;
                j = j + 1;
            },
            Rank::After => {
                j = j + 1;
            },
        }
    }
    assert(first.take(i as int) =~= first);
    assert(second.take(j as int) =~= second);
    list
}

fn sort_between(items: &Vec<String>, from: usize, to: usize) -> (list: Vec<String>)
    requires
        from <= to <= items@.len(),
    ensures
        ascending(list.deep_view()),
        forall|x: Seq<char>| #[trigger]
            list.deep_view().contains(x) <==> items.deep_view().subrange(
                from as int,
                to as int,
            ).contains(x),
    decreases to - from,
{
    let ghost all = items.deep_view();
    if to - from <= 1 {
        let mut list: Vec<String> = Vec::new();
        if from < to {
            list.push(items[from].clone());
        }
        assert(list.deep_view() =~= all.subrange(from as int, to as int));
        return list;
    }
    let middle: usize = from + (to - from) / 2;
    let first = sort_between(items, from, middle);
    let second = sort_between(items, middle, to);
    let list = merge(&first, &second);
    proof {
        let whole = all.subrange(from as int, to as int);
        let left = all.subrange(from as int, middle as int);
        let right = all.subrange(middle as int, to as int);
        assert forall|x: Seq<char>| #[trigger] whole.contains(x) <==> left.contains(x)
            || right.contains(x) by {
            if whole.contains(x) {
                let k = choose|k: int| 0 <= k < whole.len() && whole[k] == x;
                if k < left.len() {
                    assert(left[k] == x);
                } else {
                    assert(right[k - left.len()] == x);
                }
            }
            if left.contains(x) {
                let k = choose|k: int| 0 <= k < left.len() && left[k] == x;
                assert(whole[k] == x);
            }
            if right.contains(x) {
                let k = choose|k: int| 0 <= k < right.len() && right[k] == x;
                assert(whole[k + left.len()] == x);
            }
        }
    }
    list
}

/// The set of the texts in `items`, in ascending order.
pub fn sort_texts(items: &Vec<String>) -> (list: Vec<String>)
    ensures
        list.deep_view() == sorted_set(items.deep_view()),
{
    let list = sort_between(items, 0, items.len());
    proof {
        let all = items.deep_view();
        assert(all.subrange(0, all.len() as int) =~= all);
        sorted_set_is_the_set(all);
        ascending_lists_are_sets(list.deep_view(), sorted_set(all));
    }
    list
}

/// Whether an ascending list holds a text.
#[verifier::loop_isolation(false)]
pub fn holds_text(list: &Vec<String>, item: &str) -> (yes: bool)
    requires
        ascending(list.deep_view()),
    ensures
        yes == list.deep_view().contains(item@),
{
    let ghost all = list.deep_view();
    let mut from: usize = 0;
    let mut to: usize = list.len();
    while from < to
        invariant
            from <= to <= list@.len(),
            forall|k: int| 0 <= k < from ==> #[trigger] all[k] != item@,
            forall|k: int| to <= k < all.len() ==> #[trigger] all[k] != item@,
        decreases to - from,
    {
        let middle: usize = from + (to - from) / 2;
        assert(all[middle as int] == list@[middle as int]@);
        match rank(list[middle].as_str(), item) {
            Rank::Same => {
                return true;
            },
            Rank::Before => {
                proof {
                    precedes_irreflexive(item@);
                    assert forall|k: int| 0 <= k <= middle implies #[trigger] all[k] != item@ by {
                        if k < middle {
                            precedes_transitive(all[k], all[middle as int], item@);
                        }
                    }
                }
                from = middle + 1;
            },
            Rank::After => {
                proof {
                    precedes_irreflexive(item@);
                    precedes_total(all[middle as int], item@);
                    assert forall|k: int| middle <= k < all.len() implies #[trigger] all[k]
                        != item@ by {
                        if k > middle {
                            precedes_transitive(item@, all[middle as int], all[k]);
                        }
                    }
                }
                to = middle;
            },
        }
    }
    false
}

} // verus!
