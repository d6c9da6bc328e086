//! What holds of saving and restoring the clipboard.
use crate::linux::clipboard::as_sources;
use crate::linux::clipboard::framed;
use crate::linux::clipboard::framed_number;
use crate::linux::clipboard::framed_types;
use crate::linux::clipboard::distinct;
use crate::linux::clipboard::is_offered_before;
use crate::linux::clipboard::is_text_type;
use crate::linux::clipboard::lemma_place;
use crate::linux::clipboard::lemma_total_with;
use crate::linux::clipboard::lists_each_once;
use crate::linux::clipboard::of_kind;
use crate::linux::clipboard::place;
use crate::linux::clipboard::readable_types;
use crate::linux::clipboard::snapshot;
use crate::linux::clipboard::taken_in;
use crate::linux::clipboard::text_first;
use crate::linux::clipboard::token;
use crate::linux::clipboard::token_of;
use crate::linux::clipboard::total_bytes;
use crate::linux::clipboard::Item;
use crate::linux::clipboard::TypeListing;
use crate::linux::clipboard::MAX_SNAPSHOT_BYTES;
use crate::text::views;
use crate::text_order::at_or_before;
use crate::text_order::in_order;
use crate::text_order::law_order_forgets_arrangement;
use crate::text_order::law_order_keeps_the_strings;
use crate::text_order::law_text_order_is_total;
use crate::text_order::text_order;
use std::collections::hash_map::DefaultHasher;
use vstd::prelude::*;
use vstd::std_specs::hash::DefaultHasherAdditionalSpecFns;
use vstd::utf8::decode_utf8;
use vstd::utf8::encode_scalar;
use vstd::utf8::encode_utf8;
use vstd::utf8::encode_utf8_decode_utf8;

verus! {

// ------------------------------------------------------------------
// Saving
// ------------------------------------------------------------------
/// The types of some items.
pub open spec fn types_of(items: Seq<Item>) -> Seq<Seq<char>> {
    Seq::new(items.len(), |i: int| items[i].0)
}

/// The types that were read.
pub open spec fn types_read(reads: Seq<(Seq<char>, Option<Seq<u8>>)>) -> Seq<Seq<char>> {
    Seq::new(reads.len(), |i: int| reads[i].0)
}

/// Every item read without trouble.
pub open spec fn all_read(items: Seq<Item>) -> Seq<(Seq<char>, Option<Seq<u8>>)> {
    Seq::new(items.len(), |i: int| (items[i].0, Some(items[i].1)))
}

/// The items of a snapshot are sorted by name.
pub open spec fn is_sorted(items: Seq<Item>) -> bool {
    forall|a: int, b: int|
        0 <= a < b < items.len() ==> at_or_before(
            (#[trigger] items[a]).0,
            (#[trigger] items[b]).0,
        )
}

/// No type occurs twice.
pub open spec fn has_distinct_types(items: Seq<Item>) -> bool {
    forall|a: int, b: int|
        0 <= a < b < items.len() ==> (#[trigger] items[a]).0 != (#[trigger] items[b]).0
}

/// A snapshot never holds more bytes than the ceiling allows.
pub proof fn law_snapshot_is_bounded(reads: Seq<(Seq<char>, Option<Seq<u8>>)>)
    ensures
        total_bytes(snapshot(reads)) <= MAX_SNAPSHOT_BYTES,
    decreases reads.len(),
{
    if reads.len() > 0 {
        law_snapshot_is_bounded(reads.drop_last());
        let before = snapshot(reads.drop_last());
        let mime = reads.last().0;
        lemma_place(before, mime);
        if let Some(bytes) = reads.last().1 {
            lemma_total_with(before, place(before, mime), (mime, bytes));
        }
    }
}

/// What the place of a new item says of its neighbours.
proof fn lemma_neighbours(items: Seq<Item>, mime: Seq<char>)
    ensures
        forall|k: int| 0 <= k < place(items, mime) ==> at_or_before((#[trigger] items[k]).0, mime),
        place(items, mime) < items.len() ==> !at_or_before(items[place(items, mime)].0, mime),
    decreases items.len(),
{
    if items.len() > 0 && at_or_before(items[0].0, mime) {
        let rest = items.skip(1);
        lemma_place(rest, mime);
        lemma_neighbours(rest, mime);
        assert forall|k: int| 0 <= k < place(items, mime) implies at_or_before(
            (#[trigger] items[k]).0,
            mime,
        ) by {
            if k > 0 {
                assert(rest[k - 1] == items[k]);
            }
        }
    }
}

/// A snapshot is sorted by name, in whatever order its types were read.
pub proof fn law_snapshot_is_sorted(reads: Seq<(Seq<char>, Option<Seq<u8>>)>)
    ensures
        is_sorted(snapshot(reads)),
    decreases reads.len(),
{
    if reads.len() > 0 {
        law_snapshot_is_sorted(reads.drop_last());
        let before = snapshot(reads.drop_last());
        let mime = reads.last().0;
        let at = place(before, mime);
        lemma_place(before, mime);
        lemma_neighbours(before, mime);
        law_text_order_is_total();
        let order = text_order();
        let after = snapshot(reads);
        assert forall|a: int, b: int| 0 <= a < b < after.len() implies at_or_before(
            (#[trigger] after[a]).0,
            (#[trigger] after[b]).0,
        ) by {
            if after.len() > before.len() {
                if b < at {
                    assert(after[a] == before[a] && after[b] == before[b]);
                } else if a < at && b == at {
                    assert(after[a] == before[a]);
                } else if a < at {
                    assert(after[a] == before[a] && after[b] == before[b - 1]);
                } else if a == at {
                    assert(after[b] == before[b - 1]);
                    assert(order(before[at].0, mime) || order(mime, before[at].0));
                    if b - 1 > at {
                        assert(at_or_before(before[at].0, before[b - 1].0));
                        assert(order(mime, before[at].0) && order(before[at].0, before[b - 1].0));
                    }
                } else {
                    assert(after[a] == before[a - 1] && after[b] == before[b - 1]);
                }
            }
        }
    }
}

/// A clipboard that fits and can be read is saved whole: every item byte for
/// byte, and nothing else.
pub proof fn law_small_clipboard_is_saved_whole(items: Seq<Item>)
    requires
        total_bytes(items) <= MAX_SNAPSHOT_BYTES,
    ensures
        snapshot(all_read(items)).to_multiset() == items.to_multiset(),
        total_bytes(snapshot(all_read(items))) == total_bytes(items),
    decreases items.len(),
{
    let reads = all_read(items);
    if items.len() == 0 {
        assert(snapshot(reads) =~= items);
    } else {
        assert(reads.drop_last() =~= all_read(items.drop_last()));
        law_small_clipboard_is_saved_whole(items.drop_last());
        let before = snapshot(reads.drop_last());
        let at = place(before, items.last().0);
        lemma_place(before, items.last().0);
        lemma_total_with(before, at, items.last());
        vstd::seq_lib::to_multiset_insert(before, at, items.last());
        assert(items.drop_last().push(items.last()) =~= items);
        items.drop_last().to_multiset_ensures();
    }
}

/// One type that cannot be read, or is too large, costs nothing but itself:
/// the rest is saved as if it had not been there.
pub proof fn law_skipped_type_costs_only_itself(
    before: Seq<(Seq<char>, Option<Seq<u8>>)>,
    skipped: (Seq<char>, Option<Seq<u8>>),
    after: Seq<(Seq<char>, Option<Seq<u8>>)>,
)
    requires
        skipped.1 matches Some(bytes) ==> total_bytes(snapshot(before)) + bytes.len()
            > MAX_SNAPSHOT_BYTES,
    ensures
        snapshot(before.push(skipped) + after) == snapshot(before + after),
    decreases after.len(),
{
    if after.len() == 0 {
        assert(before.push(skipped) + after =~= before.push(skipped));
        assert(before + after =~= before);
        assert(before.push(skipped).drop_last() =~= before);
    } else {
        let rest = after.drop_last();
        law_skipped_type_costs_only_itself(before, skipped, rest);
        assert((before.push(skipped) + after).drop_last() =~= before.push(skipped) + rest);
        assert((before + after).drop_last() =~= before + rest);
    }
}

/// Every item of a snapshot is one of the types that were read, with the bytes
/// that were read.
pub proof fn law_snapshot_invents_nothing(reads: Seq<(Seq<char>, Option<Seq<u8>>)>, i: int)
    requires
        0 <= i < snapshot(reads).len(),
    ensures
        reads.contains((snapshot(reads)[i].0, Some(snapshot(reads)[i].1))),
    decreases reads.len(),
{
    if reads.len() > 0 {
        let rest = reads.drop_last();
        let before = snapshot(rest);
        let at = place(before, reads.last().0);
        lemma_place(before, reads.last().0);
        let item = (snapshot(reads)[i].0, Some(snapshot(reads)[i].1));
        if snapshot(reads).len() > before.len() && i == at {
            assert(reads[reads.len() - 1] == item);
        } else {
            let j = if snapshot(reads).len() > before.len() && i > at {
                i - 1
            } else {
                i
            };
            assert(snapshot(reads)[i] == before[j]);
            law_snapshot_invents_nothing(rest, j);
            let k = choose|k: int| 0 <= k < rest.len() && rest[k] == item;
            assert(reads[k] == item);
        }
    }
}

/// What has been saved stays saved.
proof fn lemma_saved_stays(
    before: Seq<(Seq<char>, Option<Seq<u8>>)>,
    after: Seq<(Seq<char>, Option<Seq<u8>>)>,
    item: Item,
)
    requires
        snapshot(before).contains(item),
    ensures
        snapshot(before + after).contains(item),
    decreases after.len(),
{
    if after.len() == 0 {
        assert(before + after =~= before);
    } else {
        let rest = after.drop_last();
        assert((before + after).drop_last() =~= before + rest);
        lemma_saved_stays(before, rest, item);
        let saved = snapshot(before + rest);
        let at = place(saved, after.last().0);
        lemma_place(saved, after.last().0);
        let k = choose|k: int| 0 <= k < saved.len() && saved[k] == item;
        let now = snapshot(before + after);
        if now.len() > saved.len() && k >= at {
            assert(now[k + 1] == item);
        } else {
            assert(now[k] == item);
        }
    }
}

// ------------------------------------------------------------------
// Text
// ------------------------------------------------------------------
/// The types of text come before all others.
pub open spec fn text_comes_first(types: Seq<Seq<char>>) -> bool {
    forall|a: int, b: int|
        0 <= a < b < types.len() && is_text_type(#[trigger] types[b]) ==> is_text_type(
            #[trigger] types[a],
        )
}

proof fn lemma_of_kind(types: Seq<Seq<char>>, text: bool)
    ensures
        forall|k: int|
            0 <= k < of_kind(types, text).len() ==> is_text_type(
                #[trigger] of_kind(types, text)[k],
            ) == text,
        of_kind(types, true).to_multiset().add(of_kind(types, false).to_multiset())
            == types.to_multiset(),
    decreases types.len(),
{
    if types.len() > 0 {
        let rest = types.drop_last();
        let last = types.last();
        lemma_of_kind(rest, text);
        rest.to_multiset_ensures();
        assert(rest.push(last) =~= types);
        of_kind(rest, true).to_multiset_ensures();
        of_kind(rest, false).to_multiset_ensures();
        let all = of_kind(types, true).to_multiset().add(of_kind(types, false).to_multiset());
        assert(all =~= types.to_multiset());
        let kept = of_kind(types, text);
        let before = of_kind(rest, text);
        assert forall|k: int| 0 <= k < kept.len() implies is_text_type(#[trigger] kept[k])
            == text by {
            if k < before.len() {
                assert(kept[k] == before[k]);
            }
        }
    } else {
        vstd::seq_lib::lemma_multiset_commutative(types, types);
        assert(types + types =~= types);
    }
}

/// Text is read before anything else, and every type is read.
pub proof fn law_text_is_read_first(types: Seq<Seq<char>>)
    ensures
        text_comes_first(text_first(types)),
        text_first(types).to_multiset() == types.to_multiset(),
{
    lemma_of_kind(types, true);
    lemma_of_kind(types, false);
    let texts = of_kind(types, true);
    let others = of_kind(types, false);
    let all = text_first(types);
    assert forall|a: int, b: int|
        0 <= a < b < all.len() && is_text_type(#[trigger] all[b]) implies is_text_type(
        #[trigger] all[a],
    ) by {
        if b >= texts.len() {
            assert(all[b] == others[b - texts.len()]);
        } else {
            assert(all[a] == texts[a]);
        }
    }
    vstd::seq_lib::lemma_multiset_commutative(texts, others);
}

/// Types read once each are saved at most once each.
proof fn lemma_saved_once(reads: Seq<(Seq<char>, Option<Seq<u8>>)>)
    requires
        types_read(reads).no_duplicates(),
    ensures
        has_distinct_types(snapshot(reads)),
    decreases reads.len(),
{
    if reads.len() > 0 {
        let rest = reads.drop_last();
        let before = snapshot(rest);
        let mime = reads.last().0;
        let at = place(before, mime);
        lemma_place(before, mime);
        assert(types_read(rest) =~= types_read(reads).drop_last());
        lemma_saved_once(rest);
        assert forall|k: int| 0 <= k < before.len() implies (#[trigger] before[k]).0 != mime by {
            law_snapshot_invents_nothing(rest, k);
            let item = (before[k].0, Some(before[k].1));
            let j = choose|j: int| 0 <= j < rest.len() && rest[j] == item;
            assert(types_read(reads)[j] == before[k].0);
            assert(types_read(reads)[reads.len() - 1] == mime);
        }
        let after = snapshot(reads);
        assert forall|a: int, b: int| 0 <= a < b < after.len() implies (#[trigger] after[a]).0
            != (#[trigger] after[b]).0 by {
            if after.len() > before.len() {
                let old_a = if a > at {
                    a - 1
                } else {
                    a
                };
                let old_b = if b > at {
                    b - 1
                } else {
                    b
                };
                if a != at {
                    assert(after[a] == before[old_a]);
                }
                if b != at {
                    assert(after[b] == before[old_b]);
                }
            }
        }
    }
}

/// A snapshot holds each type once, however often the clipboard offers it.
pub proof fn law_snapshot_holds_each_type_once(
    types: Seq<Seq<char>>,
    reads: Seq<(Seq<char>, Option<Seq<u8>>)>,
)
    requires
        types_read(reads) == text_first(distinct(types)),
    ensures
        has_distinct_types(snapshot(reads)),
{
    let once = distinct(types);
    lemma_distinct(types);
    law_text_is_read_first(once);
    once.lemma_multiset_has_no_duplicates();
    text_first(once).lemma_multiset_has_no_duplicates_conv();
    lemma_saved_once(reads);
}

proof fn lemma_distinct_order(types: Seq<Seq<char>>, a: int, b: int)
    requires
        0 <= a < b < distinct(types).len(),
    ensures
        is_offered_before(distinct(types)[a], distinct(types)[b], types),
    decreases types.len(),
{
    let rest = types.drop_last();
    let before = distinct(rest);
    let (first, second) = (distinct(types)[a], distinct(types)[b]);
    lemma_distinct(rest);
    assert(first == before[a]);
    assert(before.contains(first));
    assert(rest.contains(first));
    let at = choose|j: int| 0 <= j < rest.len() && rest[j] == first;
    assert(types[at] == first);
    if b < before.len() {
        assert(second == before[b]);
        lemma_distinct_order(rest, a, b);
    }
    assert forall|i: int| 0 <= i < types.len() && #[trigger] types[i] == second implies exists|
        j: int,
    | 0 <= j < i && #[trigger] types[j] == first by {
        if i < rest.len() {
            assert(rest[i] == second);
            if b < before.len() {
                let j = choose|j: int| 0 <= j < i && #[trigger] rest[j] == first;
                assert(types[j] == first);
            } else {
                assert(rest.contains(second));
                assert(before.contains(second));
                assert(false);
            }
        }
    }
}

/// Types of one kind keep their order.
proof fn lemma_of_kind_order(types: Seq<Seq<char>>, text: bool, a: int, b: int)
    requires
        0 <= a < b < of_kind(types, text).len(),
    ensures
        exists|i: int, j: int|
            0 <= i < j < types.len() && #[trigger] types[i] == of_kind(types, text)[a]
                && #[trigger] types[j] == of_kind(types, text)[b],
    decreases types.len(),
{
    let rest = types.drop_last();
    let before = of_kind(rest, text);
    if b < before.len() {
        lemma_of_kind_order(rest, text, a, b);
        let (i, j) = choose|i: int, j: int|
            0 <= i < j < rest.len() && #[trigger] rest[i] == before[a] && #[trigger] rest[j]
                == before[b];
        assert(types[i] == of_kind(types, text)[a] && types[j] == of_kind(types, text)[b]);
    } else {
        lemma_of_kind_from(rest, text, a);
        let i = choose|i: int| 0 <= i < rest.len() && rest[i] == before[a];
        assert(types[i] == of_kind(types, text)[a]);
        assert(types[types.len() - 1] == of_kind(types, text)[b]);
    }
}

proof fn lemma_of_kind_from(types: Seq<Seq<char>>, text: bool, a: int)
    requires
        0 <= a < of_kind(types, text).len(),
    ensures
        types.contains(of_kind(types, text)[a]),
    decreases types.len(),
{
    let rest = types.drop_last();
    let before = of_kind(rest, text);
    if a < before.len() {
        lemma_of_kind_from(rest, text, a);
        let i = choose|i: int| 0 <= i < rest.len() && rest[i] == before[a];
        assert(types[i] == of_kind(types, text)[a]);
    } else {
        assert(types[types.len() - 1] == of_kind(types, text)[a]);
    }
}

/// What is read of a clipboard is what it offers: a type is read where it is
/// listed and nowhere else, once however often it is listed, text before
/// everything else, and otherwise in the order in which the types are offered.
/// Nothing is read where nothing is offered, and that the compositor could not be
/// asked is an error.
pub proof fn law_every_listed_type_is_read(listing: TypeListing)
    ensures
        match listing {
            TypeListing::Types(types) => readable_types(listing) matches Ok(read) && {
                &&& read.no_duplicates()
                &&& forall|t: Seq<char>|
                    #[trigger] read.contains(t) <==> views(types@).contains(t)
                &&& text_comes_first(read)
                &&& forall|a: int, b: int|
                    0 <= a < b < read.len() && is_text_type(#[trigger] read[a]) == is_text_type(
                        #[trigger] read[b],
                    ) ==> is_offered_before(read[a], read[b], views(types@))
            },
            TypeListing::MissingProtocol(text) => readable_types(listing) == Err::<
                Seq<Seq<char>>,
                Seq<char>,
            >("could not list clipboard types: "@ + text@),
            TypeListing::Failed(text) => readable_types(listing) == Err::<
                Seq<Seq<char>>,
                Seq<char>,
            >("could not list clipboard types: "@ + text@),
            _ => readable_types(listing) == Ok::<Seq<Seq<char>>, Seq<char>>(Seq::empty()),
        },
{
    if let TypeListing::Types(types) = listing {
        let offered = views(types@);
        let once = distinct(offered);
        let read = text_first(once);
        lemma_distinct(offered);
        law_text_is_read_first(once);
        once.lemma_multiset_has_no_duplicates();
        read.lemma_multiset_has_no_duplicates_conv();
        once.to_multiset_ensures();
        read.to_multiset_ensures();
        assert forall|t: Seq<char>| #[trigger] read.contains(t) <==> offered.contains(t) by {
            assert(read.contains(t) <==> read.to_multiset().count(t) > 0);
            assert(once.contains(t) <==> once.to_multiset().count(t) > 0);
        }
        lemma_of_kind(once, true);
        lemma_of_kind(once, false);
        let texts = of_kind(once, true);
        let others = of_kind(once, false);
        assert forall|a: int, b: int|
            0 <= a < b < read.len() && is_text_type(#[trigger] read[a]) == is_text_type(
                #[trigger] read[b],
            ) implies is_offered_before(read[a], read[b], offered) by {
            let kind = b < texts.len();
            let (x, y) = if kind {
                (a, b)
            } else {
                (a - texts.len(), b - texts.len())
            };
            if !kind {
                assert(read[b] == others[y]);
                if a < texts.len() {
                    assert(read[a] == texts[a]);
                    assert(false);
                }
                assert(read[a] == others[x]);
            } else {
                assert(read[a] == texts[a] && read[b] == texts[b]);
            }
            lemma_of_kind_order(once, kind, x, y);
            let (i, j) = choose|i: int, j: int|
                0 <= i < j < once.len() && #[trigger] once[i] == of_kind(once, kind)[x]
                    && #[trigger] once[j] == of_kind(once, kind)[y];
            lemma_distinct_order(offered, i, j);
        }
    }
}

/// The bytes of some items add up, item by item.
pub proof fn law_total_bytes_add_up(first: Seq<Item>, second: Seq<Item>, item: Item)
    ensures
        total_bytes(Seq::<Item>::empty()) == 0,
        total_bytes(seq![item]) == item.1.len(),
        total_bytes(first + second) == total_bytes(first) + total_bytes(second),
    decreases second.len(),
{
    assert(seq![item].drop_last() =~= Seq::<Item>::empty());
    assert(total_bytes(seq![item].drop_last()) == 0);
    if second.len() == 0 {
        assert(first + second =~= first);
    } else {
        law_total_bytes_add_up(first, second.drop_last(), item);
        assert((first + second).drop_last() =~= first + second.drop_last());
        assert((first + second).last() == second.last());
    }
}

/// A type that can be read and fits is saved with its bytes, next to what has been
/// saved already; one that cannot be read or does not fit changes nothing.
pub proof fn law_type_that_fits_is_saved(items: Seq<Item>, mime: Seq<char>, bytes: Seq<u8>)
    ensures
        total_bytes(items) + bytes.len() <= 67_108_864 ==> taken_in(
            items,
            mime,
            Some(bytes),
        ).to_multiset() == items.to_multiset().insert((mime, bytes)),
        total_bytes(items) + bytes.len() > 67_108_864 ==> taken_in(items, mime, Some(bytes))
            == items,
        taken_in(items, mime, None) == items,
{
    lemma_place(items, mime);
    vstd::seq_lib::to_multiset_insert(items, place(items, mime), (mime, bytes));
}

/// The bytes of everything that could be read.
pub open spec fn readable_bytes(reads: Seq<(Seq<char>, Option<Seq<u8>>)>) -> nat
    decreases reads.len(),
{
    if reads.len() == 0 {
        0
    } else {
        readable_bytes(reads.drop_last()) + (match reads.last().1 {
            Some(bytes) => bytes.len(),
            None => 0,
        })
    }
}

proof fn lemma_fits(reads: Seq<(Seq<char>, Option<Seq<u8>>)>)
    ensures
        total_bytes(snapshot(reads)) <= readable_bytes(reads),
    decreases reads.len(),
{
    if reads.len() > 0 {
        lemma_fits(reads.drop_last());
        let before = snapshot(reads.drop_last());
        lemma_place(before, reads.last().0);
        if let Some(bytes) = reads.last().1 {
            lemma_total_with(before, place(before, reads.last().0), (reads.last().0, bytes));
        }
    }
}

proof fn lemma_readable_grows(reads: Seq<(Seq<char>, Option<Seq<u8>>)>, upto: int)
    requires
        0 <= upto <= reads.len(),
    ensures
        readable_bytes(reads.take(upto)) <= readable_bytes(reads),
    decreases reads.len(),
{
    if upto == reads.len() {
        assert(reads.take(upto) =~= reads);
    } else {
        lemma_readable_grows(reads.drop_last(), upto);
        assert(reads.drop_last().take(upto) =~= reads.take(upto));
    }
}

proof fn lemma_kept_at(reads: Seq<(Seq<char>, Option<Seq<u8>>)>, i: int, bytes: Seq<u8>)
    requires
        0 <= i < reads.len(),
        reads[i].1 == Some(bytes),
        total_bytes(snapshot(reads.take(i))) + bytes.len() <= MAX_SNAPSHOT_BYTES,
    ensures
        snapshot(reads).contains((reads[i].0, bytes)),
{
    let before = reads.take(i);
    let with = reads.take(i + 1);
    let item = (reads[i].0, bytes);
    assert(with.drop_last() =~= before);
    assert(with.last() == reads[i]);
    let at = place(snapshot(before), reads[i].0);
    lemma_place(snapshot(before), reads[i].0);
    assert(snapshot(with)[at] == item);
    assert(with + reads.skip(i + 1) =~= reads);
    lemma_saved_stays(with, reads.skip(i + 1), item);
}

/// Text that fits is saved, however large the rest of the clipboard is: where
/// the types of text come first and fit together, each that can be read is
/// kept.
pub proof fn law_text_is_saved(reads: Seq<(Seq<char>, Option<Seq<u8>>)>, texts: int, i: int)
    requires
        0 <= i < texts <= reads.len(),
        forall|j: int| 0 <= j < reads.len() ==> (is_text_type((#[trigger] reads[j]).0) <==> j
            < texts),
        readable_bytes(reads.take(texts)) <= MAX_SNAPSHOT_BYTES,
        reads[i].1 is Some,
    ensures
        snapshot(reads).contains((reads[i].0, reads[i].1->0)),
{
    let before = reads.take(i);
    let with = reads.take(i + 1);
    assert(with.drop_last() =~= before);
    assert(with.last() == reads[i]);
    lemma_fits(before);
    lemma_readable_grows(reads.take(texts), i + 1);
    assert(reads.take(texts).take(i + 1) =~= with);
    lemma_kept_at(reads, i, reads[i].1->0);
}

/// The text is never what is dropped: where the types of text come first, and
/// one of them can be read and fits alone, then the first such type is kept.
pub proof fn law_first_text_that_fits_is_saved(
    reads: Seq<(Seq<char>, Option<Seq<u8>>)>,
    i: int,
)
    requires
        0 <= i < reads.len(),
        text_comes_first(types_read(reads)),
        is_text_type(reads[i].0),
        reads[i].1 matches Some(bytes) && bytes.len() <= MAX_SNAPSHOT_BYTES,
        forall|j: int|
            0 <= j < i ==> ((#[trigger] reads[j]).1 matches Some(bytes) ==> bytes.len()
                > MAX_SNAPSHOT_BYTES),
    ensures
        forall|j: int| 0 <= j < i ==> is_text_type((#[trigger] reads[j]).0),
        snapshot(reads).contains((reads[i].0, reads[i].1->0)),
{
    assert forall|j: int| 0 <= j < i implies is_text_type((#[trigger] reads[j]).0) by {
        assert(types_read(reads)[j] == reads[j].0);
        assert(types_read(reads)[i] == reads[i].0);
    }
    lemma_nothing_fits(reads.take(i));
    lemma_kept_at(reads, i, reads[i].1->0);
}

proof fn lemma_nothing_fits(reads: Seq<(Seq<char>, Option<Seq<u8>>)>)
    requires
        forall|j: int|
            0 <= j < reads.len() ==> ((#[trigger] reads[j]).1 matches Some(bytes) ==> bytes.len()
                > MAX_SNAPSHOT_BYTES),
    ensures
        snapshot(reads) == Seq::<Item>::empty(),
    decreases reads.len(),
{
    if reads.len() > 0 {
        let rest = reads.drop_last();
        assert forall|j: int| 0 <= j < rest.len() implies ((#[trigger] rest[j]).1 matches Some(
            bytes,
        ) ==> bytes.len() > MAX_SNAPSHOT_BYTES) by {
            assert(rest[j] == reads[j]);
        }
        lemma_nothing_fits(rest);
        assert(reads[reads.len() - 1] == reads.last());
    }
}

/// A clipboard that fits is saved whole: where every type that is read can be read
/// and all of them fit together, the snapshot holds each listed type, with the
/// bytes that were read, and no type that is not listed.
pub proof fn law_whole_clipboard_is_saved(
    listing: TypeListing,
    reads: Seq<(Seq<char>, Option<Seq<u8>>)>,
)
    requires
        listing is Types,
        readable_types(listing) == Ok::<Seq<Seq<char>>, Seq<char>>(types_read(reads)),
        forall|i: int| 0 <= i < reads.len() ==> (#[trigger] reads[i]).1 is Some,
        readable_bytes(reads) <= 67_108_864,
    ensures
        snapshot(reads).len() == reads.len(),
        forall|i: int|
            #![trigger reads[i]]
            0 <= i < reads.len() ==> snapshot(reads).contains((reads[i].0, reads[i].1->0)),
        forall|t: Seq<char>|
            #[trigger] types_of(snapshot(reads)).contains(t) <==> views(
                listing->Types_0@,
            ).contains(t),
{
    let saved = snapshot(reads);
    let listed = views(listing->Types_0@);
    law_every_listed_type_is_read(listing);
    assert forall|i: int| #![trigger reads[i]] 0 <= i < reads.len() implies saved.contains(
        (reads[i].0, reads[i].1->0),
    ) by {
        let before = reads.take(i);
        let with = reads.take(i + 1);
        assert(with.drop_last() =~= before);
        assert(with.last() == reads[i]);
        lemma_fits(before);
        lemma_readable_grows(reads, i + 1);
        lemma_kept_at(reads, i, reads[i].1->0);
    }
    lemma_all_kept(reads);
    assert forall|t: Seq<char>| #[trigger] types_of(saved).contains(t) <==> listed.contains(t) by {
        if types_of(saved).contains(t) {
            let k = choose|k: int| 0 <= k < types_of(saved).len() && types_of(saved)[k] == t;
            law_snapshot_invents_nothing(reads, k);
            let item = (saved[k].0, Some(saved[k].1));
            let i = choose|i: int| 0 <= i < reads.len() && reads[i] == item;
            assert(types_read(reads)[i] == t);
            assert(types_read(reads).contains(t));
        }
        if listed.contains(t) {
            assert(types_read(reads).contains(t));
            let i = choose|i: int| 0 <= i < reads.len() && types_read(reads)[i] == t;
            assert(saved.contains((reads[i].0, reads[i].1->0)));
            let k = choose|k: int|
                0 <= k < saved.len() && saved[k] == (reads[i].0, reads[i].1->0);
            assert(types_of(saved)[k] == t);
        }
    }
}

proof fn lemma_all_kept(reads: Seq<(Seq<char>, Option<Seq<u8>>)>)
    requires
        forall|i: int| 0 <= i < reads.len() ==> (#[trigger] reads[i]).1 is Some,
        readable_bytes(reads) <= MAX_SNAPSHOT_BYTES,
    ensures
        snapshot(reads).len() == reads.len(),
    decreases reads.len(),
{
    if reads.len() > 0 {
        let rest = reads.drop_last();
        assert forall|i: int| 0 <= i < rest.len() implies (#[trigger] rest[i]).1 is Some by {
            assert(rest[i] == reads[i]);
        }
        lemma_all_kept(rest);
        lemma_fits(rest);
        lemma_place(snapshot(rest), reads.last().0);
        assert(reads[reads.len() - 1].1 is Some);
    }
}

// ------------------------------------------------------------------
// Restoring
// ------------------------------------------------------------------
/// What is put back is what was saved: as many items, each under its own type and
/// with its own bytes.
pub proof fn law_every_item_is_put_back(items: Seq<Item>)
    ensures
        as_sources(items).len() == items.len(),
        forall|i: int|
            0 <= i < items.len() ==> #[trigger] as_sources(items)[i] == (
                Some(items[i].0),
                items[i].1,
            ),
{
}

/// Sorted items without a type that occurs twice are determined by what they
/// are.
proof fn lemma_sorted_items_unique(first: Seq<Item>, second: Seq<Item>)
    requires
        first.to_multiset() == second.to_multiset(),
        is_sorted(first),
        is_sorted(second),
        has_distinct_types(second),
    ensures
        first == second,
    decreases first.len(),
{
    first.to_multiset_ensures();
    second.to_multiset_ensures();
    assert(first.len() == second.len());
    if first.len() > 0 {
        law_text_order_is_total();
        let order = text_order();
        assert(first.to_multiset().count(first[0]) > 0) by {
            assert(first.contains(first[0]));
        }
        assert(second.contains(first[0]));
        let j = choose|j: int| 0 <= j < second.len() && second[j] == first[0];
        assert(second.to_multiset().count(second[0]) > 0) by {
            assert(second.contains(second[0]));
        }
        assert(first.contains(second[0]));
        let i = choose|i: int| 0 <= i < first.len() && first[i] == second[0];
        if j > 0 {
            assert(at_or_before(second[0].0, second[j].0));
            if i > 0 {
                assert(at_or_before(first[0].0, first[i].0));
            }
            assert(order(second[0].0, first[0].0));
            assert(i > 0 ==> order(first[0].0, second[0].0));
            assert(second[0].0 == second[j].0);
        }
        assert(first[0] == second[0]);
        let a = first.drop_first();
        let b = second.drop_first();
        assert(a =~= first.remove(0));
        assert(b =~= second.remove(0));
        first.to_multiset_ensures();
        assert(a.to_multiset() =~= first.to_multiset().remove(first[0]));
        assert(b.to_multiset() =~= second.to_multiset().remove(second[0]));
        lemma_sorted_items_unique(a, b);
        assert(first =~= seq![first[0]] + a);
        assert(second =~= seq![second[0]] + b);
    }
}

/// The bytes of some items do not depend on their arrangement.
proof fn lemma_total_of_same_items(first: Seq<Item>, second: Seq<Item>)
    requires
        first.to_multiset() == second.to_multiset(),
    ensures
        total_bytes(first) == total_bytes(second),
    decreases first.len(),
{
    first.to_multiset_ensures();
    second.to_multiset_ensures();
    assert(first.len() == second.len());
    if first.len() > 0 {
        let item = first.last();
        assert(first[first.len() - 1] == item);
        assert(first.to_multiset().count(item) > 0);
        assert(second.contains(item));
        let j = choose|j: int| 0 <= j < second.len() && second[j] == item;
        let rest = second.remove(j);
        assert(rest.insert(j, item) =~= second);
        lemma_total_with(rest, j, item);
        assert(first.drop_last() =~= first.remove(first.len() - 1));
        assert(first.drop_last().to_multiset() =~= first.to_multiset().remove(item));
        assert(rest.to_multiset() =~= second.to_multiset().remove(item));
        lemma_total_of_same_items(first.drop_last(), rest);
    }
}

/// What was saved is what is read back once it has been restored: in whatever
/// order the restored items are listed and read, they make the same snapshot
/// again.
pub proof fn law_restored_clipboard_reads_back(
    reads: Seq<(Seq<char>, Option<Seq<u8>>)>,
    restored: Seq<Item>,
)
    requires
        has_distinct_types(snapshot(reads)),
        restored.to_multiset() == snapshot(reads).to_multiset(),
    ensures
        snapshot(all_read(restored)) == snapshot(reads),
{
    let saved = snapshot(reads);
    law_snapshot_is_bounded(reads);
    lemma_total_of_same_items(restored, saved);
    law_small_clipboard_is_saved_whole(restored);
    law_snapshot_is_sorted(reads);
    law_snapshot_is_sorted(all_read(restored));
    lemma_sorted_items_unique(snapshot(all_read(restored)), saved);
}

/// What is offered to put a snapshot back determines the snapshot.
pub proof fn law_restore_loses_nothing(first: Seq<Item>, second: Seq<Item>)
    requires
        as_sources(first) == as_sources(second),
    ensures
        first == second,
{
    assert(first.len() == as_sources(first).len());
    assert(second.len() == as_sources(second).len());
    assert forall|i: int| 0 <= i < first.len() implies first[i] == second[i] by {
        assert(as_sources(first)[i] == as_sources(second)[i]);
    }
    assert(first =~= second);
}

// ------------------------------------------------------------------
// Tokens
// ------------------------------------------------------------------
proof fn lemma_distinct(types: Seq<Seq<char>>)
    ensures
        distinct(types).no_duplicates(),
        forall|t: Seq<char>| #[trigger] distinct(types).contains(t) <==> types.contains(t),
    decreases types.len(),
{
    if types.len() > 0 {
        let rest = types.drop_last();
        let before = distinct(rest);
        lemma_distinct(rest);
        assert(rest.push(types.last()) =~= types);
        assert forall|t: Seq<char>| #[trigger] distinct(types).contains(t) <==> types.contains(
            t,
        ) by {
            if types.contains(t) {
                let k = choose|k: int| 0 <= k < types.len() && types[k] == t;
                if k < rest.len() {
                    assert(rest[k] == t);
                    assert(before.contains(t));
                    let j = choose|j: int| 0 <= j < before.len() && before[j] == t;
                    assert(distinct(types)[j] == t);
                } else if !before.contains(t) {
                    assert(distinct(types)[before.len() as int] == t);
                }
            }
            if distinct(types).contains(t) {
                let j = choose|j: int| 0 <= j < distinct(types).len() && distinct(types)[j] == t;
                if j < before.len() {
                    assert(before[j] == t);
                    assert(before.contains(t));
                    let k = choose|k: int| 0 <= k < rest.len() && rest[k] == t;
                    assert(types[k] == t);
                } else {
                    assert(types[types.len() - 1] == t);
                }
            }
        }
    }
}

proof fn lemma_same_types(first: Seq<Seq<char>>, second: Seq<Seq<char>>)
    requires
        forall|t: Seq<char>| #[trigger] first.contains(t) <==> second.contains(t),
    ensures
        in_order(distinct(first)) == in_order(distinct(second)),
{
    let a = distinct(first);
    let b = distinct(second);
    lemma_distinct(first);
    lemma_distinct(second);
    a.lemma_multiset_has_no_duplicates();
    b.lemma_multiset_has_no_duplicates();
    a.to_multiset_ensures();
    b.to_multiset_ensures();
    assert forall|t: Seq<char>| #[trigger] a.to_multiset().count(t) == b.to_multiset().count(t) by {
        assert(a.contains(t) <==> first.contains(t));
        assert(b.contains(t) <==> second.contains(t));
        assert(a.contains(t) ==> a.to_multiset().contains(t));
        assert(b.contains(t) ==> b.to_multiset().contains(t));
    }
    assert(a.to_multiset() =~= b.to_multiset());
    law_order_forgets_arrangement(a, b);
}

/// The token of a clipboard is made of the types it lists, each once, and of its
/// text; an empty clipboard has none.
pub proof fn law_token_stands_for_types_and_text(listing: TypeListing, text: Option<Seq<u8>>)
    ensures
        match listing {
            TypeListing::Types(types) => exists|once: Seq<Seq<char>>|
                {
                    &&& token(listing, text) == Ok::<i64, Seq<char>>(
                        DefaultHasher::spec_finish(seq![framed(once, text)]) as i64,
                    )
                    &&& #[trigger] lists_each_once(once, views(types@))
                },
            TypeListing::MissingProtocol(reason) => token(listing, text) == Err::<i64, Seq<char>>(
                "could not list clipboard types: "@ + reason@,
            ),
            TypeListing::Failed(reason) => token(listing, text) == Err::<i64, Seq<char>>(
                "could not list clipboard types: "@ + reason@,
            ),
            _ => token(listing, text) == Ok::<i64, Seq<char>>(0),
        },
{
    if let TypeListing::Types(types) = listing {
        let all = views(types@);
        let once = distinct(all);
        let sorted = in_order(once);
        lemma_distinct(all);
        law_order_keeps_the_strings(once);
        once.lemma_multiset_has_no_duplicates();
        sorted.lemma_multiset_has_no_duplicates_conv();
        once.to_multiset_ensures();
        sorted.to_multiset_ensures();
        assert forall|t: Seq<char>| #[trigger] sorted.contains(t) <==> all.contains(t) by {
            assert(sorted.contains(t) <==> sorted.to_multiset().count(t) > 0);
            assert(once.contains(t) <==> once.to_multiset().count(t) > 0);
        }
        assert(lists_each_once(sorted, all));
        assert(token(listing, text) == Ok::<i64, Seq<char>>(
            DefaultHasher::spec_finish(seq![framed(sorted, text)]) as i64,
        ));
    }
}

/// A clipboard that nobody has touched keeps its token, in whatever order its
/// types are listed and however often.
pub proof fn law_untouched_clipboard_keeps_its_token(
    first: Seq<Seq<char>>,
    second: Seq<Seq<char>>,
    text: Option<Seq<u8>>,
)
    requires
        forall|t: Seq<char>| #[trigger] first.contains(t) <==> second.contains(t),
    ensures
        token_of(in_order(distinct(first)), text) == token_of(in_order(distinct(second)), text),
{
    lemma_same_types(first, second);
}

/// The text of a clipboard that holds `items`, offered in their order: of the
/// type asked for first, else of the second, else of the first type of text.
pub open spec fn text_of(items: Seq<Item>) -> Option<Seq<u8>> {
    if types_of(items).contains("text/plain;charset=utf-8"@) {
        bytes_of(items, "text/plain;charset=utf-8"@)
    } else if types_of(items).contains("UTF8_STRING"@) {
        bytes_of(items, "UTF8_STRING"@)
    } else {
        first_text(items)
    }
}

/// The bytes offered under a type.
pub open spec fn bytes_of(items: Seq<Item>, mime: Seq<char>) -> Option<Seq<u8>>
    decreases items.len(),
{
    if items.len() == 0 {
        None
    } else if items[0].0 == mime {
        Some(items[0].1)
    } else {
        bytes_of(items.skip(1), mime)
    }
}

/// The bytes of the first type of text.
pub open spec fn first_text(items: Seq<Item>) -> Option<Seq<u8>>
    decreases items.len(),
{
    if items.len() == 0 {
        None
    } else if is_text_type(items[0].0) {
        Some(items[0].1)
    } else {
        first_text(items.skip(1))
    }
}

/// Every type of text holds the same text.
pub open spec fn texts_agree(items: Seq<Item>) -> bool {
    forall|a: int, b: int|
        0 <= a < items.len() && 0 <= b < items.len() && is_text_type((#[trigger] items[a]).0)
            && is_text_type((#[trigger] items[b]).0) ==> items[a].1 == items[b].1
}

proof fn lemma_bytes_of(items: Seq<Item>, mime: Seq<char>)
    ensures
        match bytes_of(items, mime) {
            Some(bytes) => items.contains((mime, bytes)),
            None => !types_of(items).contains(mime),
        },
    decreases items.len(),
{
    if items.len() > 0 {
        let rest = items.skip(1);
        lemma_bytes_of(rest, mime);
        if items[0].0 == mime {
            assert(items[0] == (mime, items[0].1));
        } else {
            match bytes_of(rest, mime) {
                Some(bytes) => {
                    let k = choose|k: int| 0 <= k < rest.len() && rest[k] == (mime, bytes);
                    assert(items[k + 1] == (mime, bytes));
                },
                None => {
                    if types_of(items).contains(mime) {
                        let k = choose|k: int|
                            0 <= k < types_of(items).len() && types_of(items)[k] == mime;
                        assert(types_of(rest)[k - 1] == mime);
                    }
                },
            }
        }
    }
}

proof fn lemma_first_text(items: Seq<Item>)
    ensures
        match first_text(items) {
            Some(bytes) => exists|k: int|
                0 <= k < items.len() && is_text_type((#[trigger] items[k]).0) && items[k].1
                    == bytes,
            None => forall|k: int|
                0 <= k < items.len() ==> !is_text_type((#[trigger] items[k]).0),
        },
    decreases items.len(),
{
    if items.len() > 0 && !is_text_type(items[0].0) {
        let rest = items.skip(1);
        lemma_first_text(rest);
        match first_text(rest) {
            Some(bytes) => {
                let k = choose|k: int|
                    0 <= k < rest.len() && is_text_type((#[trigger] rest[k]).0) && rest[k].1
                        == bytes;
                assert(items[k + 1] == rest[k]);
            },
            None => {
                assert forall|k: int| 0 <= k < items.len() implies !is_text_type(
                    (#[trigger] items[k]).0,
                ) by {
                    if k > 0 {
                        assert(items[k] == rest[k - 1]);
                    }
                }
            },
        }
    }
}

/// What two arrangements of the same items have in common.
proof fn lemma_same_items(first: Seq<Item>, second: Seq<Item>)
    requires
        first.to_multiset() == second.to_multiset(),
    ensures
        forall|item: Item| #[trigger] first.contains(item) <==> second.contains(item),
        forall|t: Seq<char>|
            #[trigger] types_of(first).contains(t) <==> types_of(second).contains(t),
{
    first.to_multiset_ensures();
    second.to_multiset_ensures();
    assert forall|item: Item| #[trigger] first.contains(item) <==> second.contains(item) by {
        let count = first.to_multiset().count(item);
        assert(first.contains(item) <==> count > 0);
        assert(second.contains(item) <==> second.to_multiset().count(item) > 0);
    }
    assert forall|t: Seq<char>|
        #[trigger] types_of(first).contains(t) <==> types_of(second).contains(t) by {
        if types_of(first).contains(t) {
            let k = choose|k: int| 0 <= k < types_of(first).len() && types_of(first)[k] == t;
            assert(first.contains(first[k]));
            let j = choose|j: int| 0 <= j < second.len() && second[j] == first[k];
            assert(types_of(second)[j] == t);
        }
        if types_of(second).contains(t) {
            let k = choose|k: int| 0 <= k < types_of(second).len() && types_of(second)[k] == t;
            assert(second.contains(second[k]));
            assert(first.contains(second[k]));
            let j = choose|j: int| 0 <= j < first.len() && first[j] == second[k];
            assert(types_of(first)[j] == t);
        }
    }
}

proof fn lemma_same_bytes(first: Seq<Item>, second: Seq<Item>, mime: Seq<char>)
    requires
        first.to_multiset() == second.to_multiset(),
        has_distinct_types(second),
    ensures
        bytes_of(first, mime) == bytes_of(second, mime),
{
    lemma_same_items(first, second);
    lemma_bytes_of(first, mime);
    lemma_bytes_of(second, mime);
    if let Some(bytes) = bytes_of(first, mime) {
        assert(second.contains((mime, bytes)));
        let a = choose|a: int| 0 <= a < second.len() && second[a] == (mime, bytes);
        assert(types_of(second)[a] == mime);
        let other = bytes_of(second, mime)->0;
        let b = choose|b: int| 0 <= b < second.len() && second[b] == (mime, other);
        if a != b {
            assert(second[a].0 == second[b].0);
        }
    } else {
        assert(!types_of(second).contains(mime));
        if let Some(bytes) = bytes_of(second, mime) {
            let b = choose|b: int| 0 <= b < second.len() && second[b] == (mime, bytes);
            assert(types_of(second)[b] == mime);
        }
    }
}

/// A restored clipboard has its old token. `held` is what was on the clipboard,
/// `read` the same in the order in which it was read, and `restored` what the
/// compositor holds once the snapshot has been put back: its items, in whatever
/// order. Where neither of the two types asked for first is there, which text
/// is read depends on the order, so then all of them have to agree.
pub proof fn law_restored_clipboard_has_its_token(
    held: Seq<Item>,
    read: Seq<Item>,
    restored: Seq<Item>,
)
    requires
        has_distinct_types(held),
        total_bytes(held) <= MAX_SNAPSHOT_BYTES,
        read.to_multiset() == held.to_multiset(),
        restored.to_multiset() == snapshot(all_read(read)).to_multiset(),
        types_of(held).contains("text/plain;charset=utf-8"@) || types_of(held).contains(
            "UTF8_STRING"@,
        ) || texts_agree(held),
    ensures
        token_of(in_order(distinct(types_of(restored))), text_of(restored)) == token_of(
            in_order(distinct(types_of(held))),
            text_of(held),
        ),
{
    lemma_total_of_same_items(read, held);
    law_small_clipboard_is_saved_whole(read);
    lemma_same_items(restored, held);
    lemma_same_types(types_of(restored), types_of(held));
    lemma_same_bytes(restored, held, "text/plain;charset=utf-8"@);
    lemma_same_bytes(restored, held, "UTF8_STRING"@);
    assert(types_of(restored).contains("text/plain;charset=utf-8"@) == types_of(held).contains(
        "text/plain;charset=utf-8"@,
    ));
    assert(types_of(restored).contains("UTF8_STRING"@) == types_of(held).contains("UTF8_STRING"@));
    if !types_of(held).contains("text/plain;charset=utf-8"@) && !types_of(held).contains(
        "UTF8_STRING"@,
    ) {
        lemma_first_text(restored);
        lemma_first_text(held);
        match (first_text(restored), first_text(held)) {
            (Some(a), Some(b)) => {
                let i = choose|i: int|
                    0 <= i < restored.len() && is_text_type((#[trigger] restored[i]).0)
                        && restored[i].1 == a;
                assert(restored.contains(restored[i]));
                let k = choose|k: int| 0 <= k < held.len() && held[k] == restored[i];
                assert(is_text_type(held[k].0));
            },
            (Some(a), None) => {
                let i = choose|i: int|
                    0 <= i < restored.len() && is_text_type((#[trigger] restored[i]).0)
                        && restored[i].1 == a;
                assert(restored.contains(restored[i]));
                let k = choose|k: int| 0 <= k < held.len() && held[k] == restored[i];
                assert(is_text_type(held[k].0));
            },
            (None, Some(b)) => {
                let i = choose|i: int|
                    0 <= i < held.len() && is_text_type((#[trigger] held[i]).0) && held[i].1 == b;
                assert(held.contains(held[i]));
                assert(restored.contains(held[i]));
                let k = choose|k: int| 0 <= k < restored.len() && restored[k] == held[i];
                assert(is_text_type(restored[k].0));
            },
            (None, None) => {},
        }
    }
}

proof fn lemma_scalar_has_no_ff(scalar: u32, i: int)
    requires
        0 <= i < encode_scalar(scalar).len(),
    ensures
        encode_scalar(scalar)[i] != 0xff,
{
    assert((scalar & 0x7F) as u8 != 0xff) by (bit_vector);
    assert((0xC0 | ((scalar >> 6) & 0x1F) as u8) != 0xff) by (bit_vector);
    assert((0xE0 | ((scalar >> 12) & 0x0F) as u8) != 0xff) by (bit_vector);
    assert((0xF0 | ((scalar >> 18) & 0x7) as u8) != 0xff) by (bit_vector);
    assert((0x80 | (scalar & 0x3F) as u8) != 0xff) by (bit_vector);
    assert((0x80 | ((scalar >> 6) & 0x3F) as u8) != 0xff) by (bit_vector);
    assert((0x80 | ((scalar >> 12) & 0x3F) as u8) != 0xff) by (bit_vector);
}

proof fn lemma_utf8_has_no_ff(chars: Seq<char>, i: int)
    requires
        0 <= i < encode_utf8(chars).len(),
    ensures
        encode_utf8(chars)[i] != 0xff,
    decreases chars.len(),
{
    let head = encode_scalar(chars[0] as u32);
    if i < head.len() {
        lemma_scalar_has_no_ff(chars[0] as u32, i);
    } else {
        lemma_utf8_has_no_ff(chars.drop_first(), i - head.len());
    }
}

/// The types, framed from the first one on.
spec fn framed_from_front(types: Seq<Seq<char>>) -> Seq<u8>
    decreases types.len(),
{
    if types.len() == 0 {
        Seq::empty()
    } else {
        encode_utf8(types.first()) + seq![0xffu8] + framed_from_front(types.drop_first())
    }
}

proof fn lemma_framed_from_front(types: Seq<Seq<char>>)
    ensures
        framed_types(types) == framed_from_front(types),
    decreases types.len(),
{
    if types.len() == 1 {
        let one = encode_utf8(types.first()) + seq![0xffu8];
        assert(framed_types(types.drop_last()) =~= Seq::<u8>::empty());
        assert(framed_from_front(types.drop_first()) =~= Seq::<u8>::empty());
        assert(framed_types(types) =~= one);
        assert(framed_from_front(types) =~= one);
        assert(framed_types(types) =~= framed_from_front(types));
    } else if types.len() > 1 {
        let middle = types.drop_first().drop_last();
        assert(types.drop_last().drop_first() =~= middle);
        lemma_framed_from_front(types.drop_last());
        lemma_framed_from_front(types.drop_first());
        lemma_framed_from_front(middle);
        assert(framed_types(types) =~= encode_utf8(types.first()) + seq![0xffu8] + framed_types(
            middle,
        ) + encode_utf8(types.last()) + seq![0xffu8]);
        assert(framed_from_front(types) =~= encode_utf8(types.first()) + seq![0xffu8] + (
        framed_types(middle) + encode_utf8(types.last()) + seq![0xffu8]));
        assert(framed_types(types) =~= framed_from_front(types));
    }
}

proof fn lemma_first_type_is_shared(
    a: Seq<char>,
    b: Seq<char>,
    after_a: Seq<u8>,
    after_b: Seq<u8>,
)
    requires
        encode_utf8(a) + seq![0xffu8] + after_a == encode_utf8(b) + seq![0xffu8] + after_b,
    ensures
        a == b,
        after_a == after_b,
{
    let x = encode_utf8(a);
    let y = encode_utf8(b);
    let whole = x + seq![0xffu8] + after_a;
    let other = y + seq![0xffu8] + after_b;
    assert(whole[x.len() as int] == 0xff);
    assert(other[y.len() as int] == 0xff);
    if x.len() < y.len() {
        lemma_utf8_has_no_ff(b, x.len() as int);
        assert(other[x.len() as int] == y[x.len() as int]);
        assert(false);
    }
    if y.len() < x.len() {
        lemma_utf8_has_no_ff(a, y.len() as int);
        assert(whole[y.len() as int] == x[y.len() as int]);
        assert(false);
    }
    assert(x =~= whole.take(x.len() as int));
    assert(y =~= other.take(x.len() as int));
    encode_utf8_decode_utf8(a);
    encode_utf8_decode_utf8(b);
    assert(decode_utf8(x) == decode_utf8(y));
    assert(after_a =~= whole.skip(x.len() as int + 1));
    assert(after_b =~= other.skip(x.len() as int + 1));
}

proof fn lemma_types_are_shared(
    a: Seq<Seq<char>>,
    b: Seq<Seq<char>>,
    after_a: Seq<u8>,
    after_b: Seq<u8>,
)
    requires
        a.len() == b.len(),
        framed_from_front(a) + after_a == framed_from_front(b) + after_b,
    ensures
        a == b,
        after_a == after_b,
    decreases a.len(),
{
    if a.len() == 0 {
        assert(framed_from_front(a) + after_a =~= after_a);
        assert(framed_from_front(b) + after_b =~= after_b);
        assert(a =~= b);
    } else {
        let rest_a = framed_from_front(a.drop_first()) + after_a;
        let rest_b = framed_from_front(b.drop_first()) + after_b;
        assert(framed_from_front(a) + after_a =~= encode_utf8(a.first()) + seq![0xffu8] + rest_a);
        assert(framed_from_front(b) + after_b =~= encode_utf8(b.first()) + seq![0xffu8] + rest_b);
        lemma_first_type_is_shared(a.first(), b.first(), rest_a, rest_b);
        lemma_types_are_shared(a.drop_first(), b.drop_first(), after_a, after_b);
        assert(a =~= seq![a.first()] + a.drop_first());
        assert(b =~= seq![b.first()] + b.drop_first());
    }
}

/// Different contents give the hasher different bytes: another set of types or
/// another text never looks the same to it.
pub proof fn law_different_contents_are_different_bytes(
    types: Seq<Seq<char>>,
    text: Option<Seq<u8>>,
    other_types: Seq<Seq<char>>,
    other_text: Option<Seq<u8>>,
)
    requires
        types.len() <= u64::MAX,
        other_types.len() <= u64::MAX,
        framed(types, text) == framed(other_types, other_text),
    ensures
        types == other_types,
        text == other_text,
{
    vstd::bytes::lemma_auto_spec_u64_to_from_le_bytes();
    let count = framed_number(types.len());
    let other_count = framed_number(other_types.len());
    let tail = match text {
        Some(bytes) => framed_number(bytes.len()) + bytes,
        None => Seq::empty(),
    };
    let other_tail = match other_text {
        Some(bytes) => framed_number(bytes.len()) + bytes,
        None => Seq::empty(),
    };
    let whole = framed(types, text);
    let other = framed(other_types, other_text);
    assert(whole.take(8) =~= count);
    assert(other.take(8) =~= other_count);
    assert(types.len() as u64 == other_types.len() as u64);
    assert(types.len() == other_types.len());
    lemma_framed_from_front(types);
    lemma_framed_from_front(other_types);
    assert(whole.skip(8) =~= framed_from_front(types) + tail);
    assert(other.skip(8) =~= framed_from_front(other_types) + other_tail);
    lemma_types_are_shared(types, other_types, tail, other_tail);
    match (text, other_text) {
        (Some(a), Some(b)) => {
            assert(tail.skip(8) =~= a);
            assert(other_tail.skip(8) =~= b);
        },
        (Some(a), None) => {
            assert(tail.len() >= 8);
        },
        (None, Some(b)) => {
            assert(other_tail.len() >= 8);
        },
        (None, None) => {},
    }
}

} // verus!
