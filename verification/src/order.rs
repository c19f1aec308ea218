//! The order in which strings are listed: lexicographic by character.
use std::str::Chars;

use vstd::prelude::*;
use vstd::std_specs::iter::IteratorSpec;

use crate::text::texts;

verus! {

/// `a` comes strictly before `b` in lexicographic order: either `a` is a proper
/// prefix of `b`, or the first character in which they differ is smaller in `a`.
pub open spec fn precedes(a: Seq<char>, b: Seq<char>) -> bool
    decreases a.len(),
{
    if b.len() == 0 {
        false
    } else if a.len() == 0 {
        true
    } else if a[0] != b[0] {
        a[0] < b[0]
    } else {
        precedes(a.drop_first(), b.drop_first())
    }
}

/// The sequence lists strings in strictly increasing order, so none occurs twice.
pub open spec fn strictly_sorted(list: Seq<Seq<char>>) -> bool {
    forall|i: int, j: int| 0 <= i < j < list.len() ==> precedes(#[trigger] list[i], #[trigger] list[j])
}

/// The order is strict: of two strings at most one comes before the other, and none
/// comes before itself.
pub proof fn law_order_is_strict(a: Seq<char>, b: Seq<char>)
    requires
        precedes(a, b),
    ensures
        !precedes(b, a),
        a != b,
    decreases a.len(),
{
    if a.len() > 0 && a[0] == b[0] {
        law_order_is_strict(a.drop_first(), b.drop_first());
    }
}

/// One string comes before another where both agree up to some index, and there the
/// first one has ended and the other has not, or has the smaller character.
pub proof fn law_order_is_by_the_first_difference(a: Seq<char>, b: Seq<char>)
    ensures
        precedes(a, b) <==> exists|at: int|
            0 <= at <= a.len() && at < b.len() && #[trigger] a.take(at) == b.take(at) && (at
                == a.len() || a[at] < b[at]),
    decreases a.len(),
{
    if b.len() > 0 && a.len() == 0 {
        assert(a.take(0) == b.take(0));
    } else if b.len() > 0 && a[0] != b[0] {
        assert(a.take(0) == b.take(0));
        assert forall|at: int|
            0 <= at <= a.len() && at < b.len() && #[trigger] a.take(at) == b.take(at) implies at
            == 0 by {
            if at > 0 {
                assert(a.take(at)[0] == a[0]);
                assert(b.take(at)[0] == b[0]);
            }
        }
    } else if b.len() > 0 {
        let x = a.drop_first();
        let y = b.drop_first();
        law_order_is_by_the_first_difference(x, y);
        if precedes(x, y) {
            let at = choose|at: int|
                0 <= at <= x.len() && at < y.len() && #[trigger] x.take(at) == y.take(at) && (at
                    == x.len() || x[at] < y[at]);
            assert(a.take(at + 1) =~= seq![a[0]] + x.take(at));
            assert(b.take(at + 1) =~= seq![b[0]] + y.take(at));
            assert(a.take(at + 1) == b.take(at + 1));
        }
        if exists|at: int|
            0 <= at <= a.len() && at < b.len() && #[trigger] a.take(at) == b.take(at) && (at
                == a.len() || a[at] < b[at]) {
            let at = choose|at: int|
                0 <= at <= a.len() && at < b.len() && #[trigger] a.take(at) == b.take(at) && (at
                    == a.len() || a[at] < b[at]);
            assert(at > 0);
            assert(x.take(at - 1) =~= a.take(at).drop_first());
            assert(y.take(at - 1) =~= b.take(at).drop_first());
            assert(x.take(at - 1) == y.take(at - 1));
        }
    }
}

/// In a list that is strictly sorted every string comes before all later ones.
pub proof fn law_sorted_lists_are_in_order(list: Seq<Seq<char>>)
    ensures
        strictly_sorted(list) <==> forall|i: int, j: int|
            0 <= i < j < list.len() ==> precedes(#[trigger] list[i], #[trigger] list[j]),
{
}

/// The order is transitive.
pub proof fn law_order_is_transitive(a: Seq<char>, b: Seq<char>, c: Seq<char>)
    requires
        precedes(a, b),
        precedes(b, c),
    ensures
        precedes(a, c),
    decreases a.len(),
{
    if a.len() > 0 && a[0] == b[0] && b[0] == c[0] {
        law_order_is_transitive(a.drop_first(), b.drop_first(), c.drop_first());
    }
}

/// The order is total: of two different strings one comes before the other.
pub proof fn law_order_is_total(a: Seq<char>, b: Seq<char>)
    ensures
        a == b || precedes(a, b) || precedes(b, a),
    decreases a.len(),
{
    if a.len() > 0 && b.len() > 0 && a[0] == b[0] {
        law_order_is_total(a.drop_first(), b.drop_first());
        assert(a =~= seq![a[0]] + a.drop_first());
        assert(b =~= seq![b[0]] + b.drop_first());
    } else if a.len() == 0 && b.len() == 0 {
        assert(a =~= b);
    }
}

/// How one string stands to another in the order.
#[derive(Clone, Copy, PartialEq, Eq, Structural, Debug)]
pub enum Placement {
    Before,
    Same,
    After,
}

/// Compares two strings character by character.
pub fn place(a: &str, b: &str) -> (placement: Placement)
    ensures
        match placement {
            Placement::Before => precedes(a@, b@),
            Placement::Same => a@ == b@,
            Placement::After => precedes(b@, a@),
        },
{
    let mut left: Chars<'_> = a.chars();
    let mut right: Chars<'_> = b.chars();
    loop
        invariant
            precedes(a@, b@) == precedes(left.remaining(), right.remaining()),
            precedes(b@, a@) == precedes(right.remaining(), left.remaining()),
            (a@ == b@) == (left.remaining() == right.remaining()),
            left.obeys_prophetic_iter_laws(),
            right.obeys_prophetic_iter_laws(),
            left.decrease() is Some,
        decreases left.decrease()->0,
    {
        let ghost before_left = left.remaining();
        let ghost before_right = right.remaining();
        let next_left: Option<char> = left.next();
        let next_right: Option<char> = right.next();
        match (next_left, next_right) {
            (None, None) => {
                assert(before_left =~= before_right);
                return Placement::Same;
            },
            (None, Some(_)) => {
                return Placement::Before;
            },
            (Some(_), None) => {
                return Placement::After;
            },
            (Some(l), Some(r)) => {
                if l < r {
                    return Placement::Before;
                }
                if r < l {
                    return Placement::After;
                }
                assert(before_left =~= seq![l] + left.remaining());
                assert(before_right =~= seq![r] + right.remaining());
                assert(left.remaining() == right.remaining() ==> before_left == before_right);
                assert(left.remaining() =~= before_left.drop_first());
            },
        }
    }
}

/// A strictly sorted list is determined by the strings in it.
pub proof fn law_sorted_list_is_unique(a: Seq<Seq<char>>, b: Seq<Seq<char>>)
    requires
        strictly_sorted(a),
        strictly_sorted(b),
        forall|x: Seq<char>| a.contains(x) <==> b.contains(x),
    ensures
        a == b,
    decreases a.len(),
{
    if a.len() == 0 {
        if b.len() > 0 {
            assert(b.contains(b[0]));
        }
        assert(a =~= b);
    } else {
        assert(a.contains(a[0]));
        assert(b.contains(a[0]));
        assert(b.contains(b[0]));
        assert(a.contains(b[0]));
        let j = choose|j: int| 0 <= j < b.len() && b[j] == a[0];
        let i = choose|i: int| 0 <= i < a.len() && a[i] == b[0];
        if j > 0 {
            assert(precedes(b[0], b[j]));
            if i > 0 {
                assert(precedes(a[0], a[i]));
            }
            law_order_is_strict(b[0], a[0]);
        }
        assert(a[0] == b[0]);
        let rest_a = a.drop_first();
        let rest_b = b.drop_first();
        assert forall|x: Seq<char>| rest_a.contains(x) <==> rest_b.contains(x) by {
            lemma_rest_of_sorted(a, x);
            lemma_rest_of_sorted(b, x);
        }
        law_sorted_list_is_unique(rest_a, rest_b);
        assert(a =~= seq![a[0]] + rest_a);
        assert(b =~= seq![b[0]] + rest_b);
    }
}

proof fn lemma_rest_of_sorted(a: Seq<Seq<char>>, x: Seq<char>)
    requires
        strictly_sorted(a),
        a.len() > 0,
    ensures
        a.drop_first().contains(x) <==> a.contains(x) && x != a[0],
{
    let rest = a.drop_first();
    if rest.contains(x) {
        let i = choose|i: int| 0 <= i < rest.len() && rest[i] == x;
        assert(a[i + 1] == x);
        assert(precedes(a[0], a[i + 1]));
        law_order_is_strict(a[0], x);
    }
    if a.contains(x) && x != a[0] {
        let i = choose|i: int| 0 <= i < a.len() && a[i] == x;
        assert(rest[i - 1] == x);
    }
}

/// Where a string stands in a sorted list, or where it would have to be put.
#[derive(Clone, Copy, PartialEq, Eq, Structural, Debug)]
pub enum Slot {
    Found(usize),
    Vacant(usize),
}

/// Every string of the list before index `at` comes before `wanted`, and every
/// string from there on comes after it.
pub open spec fn splits_at(list: Seq<Seq<char>>, wanted: Seq<char>, at: int) -> bool {
    &&& 0 <= at <= list.len()
    &&& forall|i: int| 0 <= i < at ==> precedes(#[trigger] list[i], wanted)
    &&& forall|i: int| at <= i < list.len() ==> precedes(wanted, #[trigger] list[i])
}

/// Finds a string in a sorted list by halving the range that can hold it.
pub fn locate(list: &Vec<String>, wanted: &str) -> (slot: Slot)
    requires
        strictly_sorted(texts(list@)),
    ensures
        match slot {
            Slot::Found(at) => at < list@.len() && list@[at as int]@ == wanted@,
            Slot::Vacant(at) => splits_at(texts(list@), wanted@, at as int),
        },
{
    let ghost all = texts(list@);
    let mut low: usize = 0;
    let mut high: usize = list.len();
    while low < high
        invariant
            all == texts(list@),
            strictly_sorted(all),
            low <= high <= list@.len(),
            forall|i: int| 0 <= i < low ==> precedes(#[trigger] all[i], wanted@),
            forall|i: int| high <= i < all.len() ==> precedes(wanted@, #[trigger] all[i]),
        decreases high - low,
    {
        let middle: usize = low + (high - low) / 2;
        match place(list[middle].as_str(), wanted) {
            Placement::Same => {
                return Slot::Found(middle);
            },
            Placement::Before => {
                assert forall|i: int| 0 <= i < middle + 1 implies precedes(
                    #[trigger] all[i],
                    wanted@,
                ) by {
                    if i < middle {
                        assert(precedes(all[i], all[middle as int]));
                        law_order_is_transitive(all[i], all[middle as int], wanted@);
                    }
                }
                low = middle + 1;
            },
            Placement::After => {
                assert forall|i: int| middle <= i < all.len() implies precedes(
                    wanted@,
                    #[trigger] all[i],
                ) by {
                    if middle < i {
                        assert(precedes(all[middle as int], all[i]));
                        law_order_is_transitive(wanted@, all[middle as int], all[i]);
                    }
                }
                high = middle;
            },
        }
    }
    Slot::Vacant(low)
}

/// A string put where it belongs keeps the list sorted.
pub proof fn lemma_insert_keeps_sorted(list: Seq<Seq<char>>, wanted: Seq<char>, at: int)
    requires
        strictly_sorted(list),
        splits_at(list, wanted, at),
    ensures
        strictly_sorted(list.insert(at, wanted)),
        !list.contains(wanted),
        forall|x: Seq<char>| #[trigger]
            list.insert(at, wanted).contains(x) <==> list.contains(x) || x == wanted,
{
    let longer = list.insert(at, wanted);
    assert forall|i: int, j: int| 0 <= i < j < longer.len() implies precedes(
        #[trigger] longer[i],
        #[trigger] longer[j],
    ) by {
        if i < at {
            assert(longer[i] == list[i]);
        } else if i > at {
            assert(longer[i] == list[i - 1]);
        }
        if j < at {
            assert(longer[j] == list[j]);
        } else if j > at {
            assert(longer[j] == list[j - 1]);
        }
    }
    if list.contains(wanted) {
        let i = choose|i: int| 0 <= i < list.len() && list[i] == wanted;
        law_order_is_strict(wanted, wanted);
    }
    assert forall|x: Seq<char>| #[trigger] longer.contains(x) <==> list.contains(x) || x
        == wanted by {
        if longer.contains(x) {
            let i = choose|i: int| 0 <= i < longer.len() && longer[i] == x;
            if i < at {
                assert(list[i] == x);
            } else if i > at {
                assert(list[i - 1] == x);
            }
        }
        if list.contains(x) {
            let i = choose|i: int| 0 <= i < list.len() && list[i] == x;
            if i < at {
                assert(longer[i] == x);
            } else {
                assert(longer[i + 1] == x);
            }
        }
        assert(longer[at] == wanted);
    }
}

/// Adds a string to a sorted list, unless the list holds it already.
pub fn insert_unique(list: &mut Vec<String>, item: String)
    requires
        strictly_sorted(texts(old(list)@)),
    ensures
        strictly_sorted(texts(final(list)@)),
        forall|x: Seq<char>| #[trigger]
            texts(final(list)@).contains(x) <==> texts(old(list)@).contains(x) || x == item@,
{
    let ghost before = texts(list@);
    match locate(list, item.as_str()) {
        Slot::Found(at) => {
            assert(before[at as int] == item@);
        },
        Slot::Vacant(at) => {
            proof {
                lemma_insert_keeps_sorted(before, item@, at as int);
            }
            list.insert(at, item);
            assert(texts(list@) =~= before.insert(at as int, item@));
        },
    }
}

} // verus!
