//! The order of strings, character by character, and sorting by it.
use crate::text::chars_of;
use crate::text::views;
use vstd::prelude::*;
use vstd::relations::antisymmetric;
use vstd::relations::reflexive;
use vstd::relations::sorted_by;
use vstd::relations::strongly_connected;
use vstd::relations::total_ordering;
use vstd::relations::transitive;

verus! {

/// `a` comes before `b` or is the same: the first character that differs
/// decides, and a string comes before its continuations.
pub open spec fn at_or_before(a: Seq<char>, b: Seq<char>) -> bool
    decreases a.len(),
{
    if a.len() == 0 {
        true
    } else if b.len() == 0 {
        false
    } else if a.first() == b.first() {
        at_or_before(a.drop_first(), b.drop_first())
    } else {
        a.first() < b.first()
    }
}

/// The order as a relation.
pub open spec fn text_order() -> spec_fn(Seq<char>, Seq<char>) -> bool {
    |a: Seq<char>, b: Seq<char>| at_or_before(a, b)
}

/// The strings of `parts`, as often as they occur there, in order.
pub open spec fn in_order(parts: Seq<Seq<char>>) -> Seq<Seq<char>> {
    parts.sort_by(text_order())
}

proof fn lemma_reflexive(a: Seq<char>)
    ensures
        at_or_before(a, a),
    decreases a.len(),
{
    if a.len() > 0 {
        lemma_reflexive(a.drop_first());
    }
}

proof fn lemma_antisymmetric(a: Seq<char>, b: Seq<char>)
    requires
        at_or_before(a, b),
        at_or_before(b, a),
    ensures
        a == b,
    decreases a.len(),
{
    if a.len() > 0 && b.len() > 0 {
        lemma_antisymmetric(a.drop_first(), b.drop_first());
        assert(a =~= seq![a.first()] + a.drop_first());
        assert(b =~= seq![b.first()] + b.drop_first());
    } else {
        assert(a =~= b);
    }
}

proof fn lemma_transitive(a: Seq<char>, b: Seq<char>, c: Seq<char>)
    requires
        at_or_before(a, b),
        at_or_before(b, c),
    ensures
        at_or_before(a, c),
    decreases a.len(),
{
    if a.len() > 0 && a.first() == b.first() && b.first() == c.first() {
        lemma_transitive(a.drop_first(), b.drop_first(), c.drop_first());
    }
}

proof fn lemma_connected(a: Seq<char>, b: Seq<char>)
    ensures
        at_or_before(a, b) || at_or_before(b, a),
    decreases a.len(),
{
    if a.len() > 0 && b.len() > 0 {
        lemma_connected(a.drop_first(), b.drop_first());
    }
}

/// Any two strings can be compared, and the order is consistent.
pub proof fn law_text_order_is_total()
    ensures
        total_ordering(text_order()),
{
    let r = text_order();
    assert(reflexive(r)) by {
        assert forall|a: Seq<char>| #[trigger] r(a, a) by {
            lemma_reflexive(a);
        }
    }
    assert(antisymmetric(r)) by {
        assert forall|a: Seq<char>, b: Seq<char>| #[trigger] r(a, b) && #[trigger] r(b, a) implies a
            == b by {
            lemma_antisymmetric(a, b);
        }
    }
    assert(transitive(r)) by {
        assert forall|a: Seq<char>, b: Seq<char>, c: Seq<char>| #[trigger] r(a, b) && #[trigger] r(
            b,
            c,
        ) implies r(a, c) by {
            lemma_transitive(a, b, c);
        }
    }
    assert(strongly_connected(r)) by {
        assert forall|a: Seq<char>, b: Seq<char>| #[trigger] r(a, b) || #[trigger] r(b, a) by {
            lemma_connected(a, b);
        }
    }
}

/// A string comes before its continuations, and otherwise the first character in
/// which two strings differ decides.
pub proof fn law_first_difference_decides(a: Seq<char>, b: Seq<char>)
    ensures
        at_or_before(a, b) <==> a.is_prefix_of(b) || exists|i: int|
            0 <= i < a.len() && i < b.len() && a.take(i) == b.take(i) && #[trigger] a[i] < b[i],
    decreases a.len(),
{
    if a.len() == 0 {
        assert(a =~= b.subrange(0, 0));
    } else if b.len() > 0 && a[0] == b[0] {
        let x = a.drop_first();
        let y = b.drop_first();
        law_first_difference_decides(x, y);
        if x.is_prefix_of(y) {
            assert(a =~= b.subrange(0, a.len() as int)) by {
                assert forall|k: int| 0 <= k < a.len() implies a[k] == b[k] by {
                    if k > 0 {
                        assert(x[k - 1] == y.subrange(0, x.len() as int)[k - 1]);
                    }
                }
            }
        }
        if a.is_prefix_of(b) {
            assert forall|k: int| 0 <= k < x.len() implies x[k] == y[k] by {
                assert(a[k + 1] == b.subrange(0, a.len() as int)[k + 1]);
            }
            assert(x =~= y.subrange(0, x.len() as int));
        }
        if exists|i: int|
            0 <= i < x.len() && i < y.len() && x.take(i) == y.take(i) && #[trigger] x[i] < y[i] {
            let i = choose|i: int|
                0 <= i < x.len() && i < y.len() && x.take(i) == y.take(i) && #[trigger] x[i] < y[i];
            assert(a.take(i + 1) =~= b.take(i + 1)) by {
                assert forall|k: int| 0 <= k < i + 1 implies a[k] == b[k] by {
                    if k > 0 {
                        assert(x.take(i)[k - 1] == y.take(i)[k - 1]);
                    }
                }
            }
            assert(a[i + 1] < b[i + 1]);
        }
        if exists|i: int|
            0 <= i < a.len() && i < b.len() && a.take(i) == b.take(i) && #[trigger] a[i] < b[i] {
            let i = choose|i: int|
                0 <= i < a.len() && i < b.len() && a.take(i) == b.take(i) && #[trigger] a[i] < b[i];
            assert(x.take(i - 1) =~= y.take(i - 1)) by {
                assert forall|k: int| 0 <= k < i - 1 implies x[k] == y[k] by {
                    assert(a.take(i)[k + 1] == b.take(i)[k + 1]);
                }
            }
            assert(x[i - 1] < y[i - 1]);
        }
    } else if b.len() > 0 {
        if a.is_prefix_of(b) {
            assert(a[0] == b.subrange(0, a.len() as int)[0]);
        }
        if a[0] < b[0] {
            assert(a.take(0) =~= b.take(0));
        } else {
            assert forall|i: int|
                0 <= i < a.len() && i < b.len() && a.take(i) == b.take(i) implies !(
            #[trigger] a[i] < b[i]) by {
                if i > 0 {
                    assert(a.take(i)[0] == b.take(i)[0]);
                }
            }
        }
    }
}

/// Putting strings in order neither drops nor adds any, and leaves none before
/// one that belongs before it.
pub proof fn law_order_keeps_the_strings(parts: Seq<Seq<char>>)
    ensures
        in_order(parts).to_multiset() == parts.to_multiset(),
        forall|a: int, b: int|
            0 <= a < b < in_order(parts).len() ==> at_or_before(
                #[trigger] in_order(parts)[a],
                #[trigger] in_order(parts)[b],
            ),
{
    law_text_order_is_total();
    parts.lemma_sort_by_ensures(text_order());
    let sorted = in_order(parts);
    assert forall|a: int, b: int| 0 <= a < b < sorted.len() implies at_or_before(
        #[trigger] sorted[a],
        #[trigger] sorted[b],
    ) by {
        assert(text_order()(sorted[a], sorted[b]));
    }
}

/// The order does not depend on how the strings were arranged before.
pub proof fn law_order_forgets_arrangement(first: Seq<Seq<char>>, second: Seq<Seq<char>>)
    requires
        first.to_multiset() == second.to_multiset(),
    ensures
        in_order(first) == in_order(second),
{
    law_text_order_is_total();
    first.lemma_sort_by_ensures(text_order());
    second.lemma_sort_by_ensures(text_order());
    vstd::seq_lib::lemma_sorted_unique(in_order(first), in_order(second), text_order());
}

/// Strings that are in order already stay as they are.
pub proof fn law_ordered_stays(parts: Seq<Seq<char>>)
    requires
        sorted_by(parts, text_order()),
    ensures
        in_order(parts) == parts,
{
    law_text_order_is_total();
    parts.lemma_sort_by_ensures(text_order());
    vstd::seq_lib::lemma_sorted_unique(in_order(parts), parts, text_order());
}

/// Whether `a` comes before `b` or is the same.
pub fn is_at_or_before(a: &str, b: &str) -> (r: bool)
    ensures
        r == at_or_before(a@, b@),
        r <==> a@.is_prefix_of(b@) || exists|i: int|
            0 <= i < a@.len() && i < b@.len() && a@.take(i) == b@.take(i) && #[trigger] a@[i] < b@[i],
{
    proof {
        law_first_difference_decides(a@, b@);
    }
    let x = chars_of(a);
    let y = chars_of(b);
    let mut i: usize = 0;
    assert(x@.skip(0) =~= a@);
    assert(y@.skip(0) =~= b@);
    while i < x.len()
        invariant
            i <= x@.len(),
            i <= y@.len(),
            at_or_before(a@, b@) == at_or_before(x@.skip(i as int), y@.skip(i as int)),
        decreases x@.len() - i,
    {
        proof {
            law_first_difference_decides(a@, b@);
        }
        if i >= y.len() {
            return false;
        }
        if x[i] != y[i] {
            return x[i] < y[i];
        }
        assert(x@.skip(i as int).drop_first() =~= x@.skip(i + 1));
        assert(y@.skip(i as int).drop_first() =~= y@.skip(i + 1));
        i = i + 1;
    }
    true
}

/// The strings of `strings` in order.
pub fn sort(strings: &Vec<String>) -> (r: Vec<String>)
    ensures
        views(r@) == in_order(views(strings@)),
        views(r@).to_multiset() == views(strings@).to_multiset(),
        forall|a: int, b: int|
            0 <= a < b < r@.len() ==> at_or_before((#[trigger] r@[a])@, (#[trigger] r@[b])@),
{
    let mut r: Vec<String> = Vec::new();
    let ghost all = views(strings@);
    let ghost order = text_order();
    assert(views(r@) =~= all.take(0));
    for i in 0..strings.len()
        invariant
            all == views(strings@),
            order == text_order(),
            sorted_by(views(r@), order),
            views(r@).to_multiset() == all.take(i as int).to_multiset(),
    {
        let ghost before = views(r@);
        let mut at: usize = 0;
        while at < r.len() && is_at_or_before(r[at].as_str(), strings[i].as_str())
            invariant
                i < strings@.len(),
                at <= r@.len(),
                before == views(r@),
                forall|k: int| 0 <= k < at ==> at_or_before(#[trigger] before[k], strings@[i as int]@),
            decreases r@.len() - at,
        {
            at = at + 1;
        }
        let ghost new = strings@[i as int]@;
        r.insert(at, strings[i].clone());
        proof {
            law_text_order_is_total();
            assert(views(r@) =~= before.insert(at as int, new));
            assert forall|a: int, b: int| 0 <= a < b < views(r@).len() implies #[trigger] order(
                views(r@)[a],
                views(r@)[b],
            ) by {
                if a < at && b == at {
                    assert(at_or_before(before[a], new));
                } else if a < at && b > at {
                    assert(order(before[a], before[b - 1]));
                } else if a == at {
                    assert(!at_or_before(before[at as int], new));
                    lemma_connected(before[at as int], new);
                    if b - 1 > at {
                        assert(order(before[at as int], before[b - 1]));
                        lemma_transitive(new, before[at as int], before[b - 1]);
                    }
                } else if a > at {
                    assert(order(before[a - 1], before[b - 1]));
                } else {
                    assert(order(before[a], before[b]));
                }
            }
            vstd::seq_lib::to_multiset_insert(before, at as int, new);
            assert(all.take(i + 1) =~= all.take(i as int).push(new));
            all.take(i as int).to_multiset_ensures();
        }
    }
    proof {
        assert(all.take(all.len() as int) =~= all);
        law_text_order_is_total();
        all.lemma_sort_by_ensures(order);
        vstd::seq_lib::lemma_sorted_unique(views(r@), in_order(all), order);
        assert forall|a: int, b: int| 0 <= a < b < r@.len() implies at_or_before(
            (#[trigger] r@[a])@,
            (#[trigger] r@[b])@,
        ) by {
            assert(order(views(r@)[a], views(r@)[b]));
        }
    }
    r
}

} // verus!
