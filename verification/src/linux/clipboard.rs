//! The clipboard side of auto-paste: what is saved before a transcript is
//! staged, what is put back afterwards, and how a change in between is noticed.
use crate::linux::clipboard_laws::law_every_listed_type_is_read;
use crate::linux::clipboard_laws::law_token_stands_for_types_and_text;
use crate::text::has_substring;
use crate::text::same;
use crate::text::views;
use crate::text_order::at_or_before;
use crate::text_order::in_order;
use crate::text_order::is_at_or_before;
use crate::text_order::sort;
use std::collections::hash_map::DefaultHasher;
use std::hash::Hasher;
use vstd::prelude::*;
use vstd::std_specs::hash::DefaultHasherAdditionalSpecFns;
use vstd::utf8::encode_utf8;

verus! {

/// Ceiling on a single snapshot, in bytes. Text is saved first, then the other
/// types, each in the order in which they are offered, as far as the ceiling
/// allows; so the text that auto-paste is about is not the one left out.
pub const MAX_SNAPSHOT_BYTES: usize = 67_108_864;

/// What asking the compositor for the clipboard's types brought.
#[derive(Debug)]
pub enum TypeListing {
    /// The types in the order in which they are offered.
    Types(Vec<String>),
    NoSeats,
    ClipboardEmpty,
    NoMimeType,
    /// The compositor has no protocol to read the clipboard through.
    MissingProtocol(String),
    Failed(String),
}

/// Whether a type is one of text.
pub open spec fn is_text_type(mime: Seq<char>) -> bool {
    ||| mime == "TEXT"@
    ||| mime == "STRING"@
    ||| mime == "UTF8_STRING"@
    ||| "text/"@.is_prefix_of(mime)
    ||| has_substring(mime, "json"@)
    ||| "script"@.is_suffix_of(mime)
    ||| "xml"@.is_suffix_of(mime)
    ||| "yaml"@.is_suffix_of(mime)
    ||| "csv"@.is_suffix_of(mime)
    ||| "ini"@.is_suffix_of(mime)
}

/// `wl_clipboard_rs::utils::is_text` tells the types of text by their names:
/// three old ones, those below `text/`, and those of common markup and scripts.
pub assume_specification[ wl_clipboard_rs::utils::is_text ](mime_type: &str) -> (r: bool)
    ensures
        r == is_text_type(mime_type@),
;

/// Every type once, where it is offered first.
pub open spec fn distinct(types: Seq<Seq<char>>) -> Seq<Seq<char>>
    decreases types.len(),
{
    if types.len() == 0 {
        types
    } else {
        let before = distinct(types.drop_last());
        if before.contains(types.last()) {
            before
        } else {
            before.push(types.last())
        }
    }
}

/// The types of text among `types` where `text` holds, the others where it does
/// not, in their order.
pub open spec fn of_kind(types: Seq<Seq<char>>, text: bool) -> Seq<Seq<char>>
    decreases types.len(),
{
    if types.len() == 0 {
        types
    } else {
        let before = of_kind(types.drop_last(), text);
        if is_text_type(types.last()) == text {
            before.push(types.last())
        } else {
            before
        }
    }
}

/// The types of text, then the others.
pub open spec fn text_first(types: Seq<Seq<char>>) -> Seq<Seq<char>> {
    of_kind(types, true) + of_kind(types, false)
}

/// Every type once, where it is offered first.
fn each_once(types: &Vec<String>) -> (r: Vec<String>)
    ensures
        views(r@) == distinct(views(types@)),
{
    let mut r: Vec<String> = Vec::new();
    let ghost all = views(types@);
    assert(views(r@) =~= distinct(all.take(0)));
    for i in 0..types.len()
        invariant
            all == views(types@),
            views(r@) == distinct(all.take(i as int)),
    {
        assert(all.take(i + 1).drop_last() =~= all.take(i as int));
        let ghost before = views(r@);
        let ghost name = types@[i as int]@;
        let mut known = false;
        for k in 0..r.len()
            invariant
                i < types@.len(),
                before == views(r@),
                name == types@[i as int]@,
                known == exists|j: int| 0 <= j < k && #[trigger] before[j] == name,
        {
            if same(r[k].as_str(), types[i].as_str()) {
                assert(before[k as int] == name);
                known = true;
            }
        }
        assert(known == before.contains(name));
        if !known {
            r.push(types[i].clone());
            assert(views(r@) =~= before.push(name));
        }
    }
    assert(all.take(all.len() as int) =~= all);
    r
}

/// Appends the types of one kind to `r`.
fn append_kind(r: &mut Vec<String>, types: &Vec<String>, text: bool)
    ensures
        views(final(r)@) == views(old(r)@) + of_kind(views(types@), text),
{
    let ghost all = views(types@);
    let ghost head = views(r@);
    assert(head + of_kind(all.take(0), text) =~= head);
    for i in 0..types.len()
        invariant
            all == views(types@),
            views(r@) == head + of_kind(all.take(i as int), text),
    {
        assert(all.take(i + 1).drop_last() =~= all.take(i as int));
        let ghost before = views(r@);
        if wl_clipboard_rs::utils::is_text(types[i].as_str()) == text {
            r.push(types[i].clone());
            assert(views(r@) =~= before.push(all[i as int]));
            assert(views(r@) =~= head + of_kind(all.take(i + 1), text));
        }
    }
    assert(all.take(all.len() as int) =~= all);
}

/// The types in the order in which they are read.
fn reading_order(types: &Vec<String>) -> (r: Vec<String>)
    ensures
        views(r@) == text_first(distinct(views(types@))),
{
    let once = each_once(types);
    let mut r: Vec<String> = Vec::new();
    assert(views(r@) =~= Seq::<Seq<char>>::empty());
    append_kind(&mut r, &once, true);
    append_kind(&mut r, &once, false);
    assert(views(r@) =~= text_first(distinct(views(types@))));
    r
}

/// Wherever `second` is offered, `first` has been offered before.
pub open spec fn is_offered_before(
    first: Seq<char>,
    second: Seq<char>,
    types: Seq<Seq<char>>,
) -> bool {
    forall|i: int|
        0 <= i < types.len() && #[trigger] types[i] == second ==> exists|j: int|
            0 <= j < i && #[trigger] types[j] == first
}

/// The types to read, in order; none where there is nothing to read, and an
/// error where the compositor could not be asked.
pub open spec fn readable_types(listing: TypeListing) -> Result<Seq<Seq<char>>, Seq<char>> {
    match listing {
        TypeListing::Types(types) => Ok(text_first(distinct(views(types@)))),
        TypeListing::NoSeats => Ok(Seq::empty()),
        TypeListing::ClipboardEmpty => Ok(Seq::empty()),
        TypeListing::NoMimeType => Ok(Seq::empty()),
        TypeListing::MissingProtocol(text) => Err("could not list clipboard types: "@ + text@),
        TypeListing::Failed(text) => Err("could not list clipboard types: "@ + text@),
    }
}

fn listing_failed(text: &str) -> (r: String)
    ensures
        r@ == "could not list clipboard types: "@ + text@,
{
    let mut r = "could not list clipboard types: ".to_string();
    r.append(text);
    r
}

/// Whether the clipboard can be read on this compositor.
pub fn is_available(listing: &TypeListing) -> (r: bool)
    ensures
        r == !(listing is MissingProtocol),
{
    match listing {
        TypeListing::MissingProtocol(_) => false,
        _ => true,
    }
}

// ------------------------------------------------------------------
// Saving
// ------------------------------------------------------------------
/// One type of the clipboard with its bytes.
pub type Item = (Seq<char>, Seq<u8>);

/// What each item holds.
pub open spec fn item_views(items: Seq<(String, Vec<u8>)>) -> Seq<Item> {
    Seq::new(items.len(), |i: int| (items[i].0@, items[i].1@))
}

/// The bytes of all items together.
pub open spec fn total_bytes(items: Seq<Item>) -> nat
    decreases items.len(),
{
    if items.len() == 0 {
        0
    } else {
        total_bytes(items.drop_last()) + items.last().1.len()
    }
}

/// Where an item of the given type goes: behind those whose types come before it
/// by name.
pub open spec fn place(items: Seq<Item>, mime: Seq<char>) -> int
    decreases items.len(),
{
    if items.len() == 0 || !at_or_before(items[0].0, mime) {
        0
    } else {
        1 + place(items.skip(1), mime)
    }
}

/// The items after one more type has been read: it is kept where it could be
/// read and still fits. The items stay sorted by name.
pub open spec fn taken_in(items: Seq<Item>, mime: Seq<char>, read: Option<Seq<u8>>) -> Seq<Item> {
    match read {
        Some(bytes) => if total_bytes(items) + bytes.len() <= MAX_SNAPSHOT_BYTES {
            items.insert(place(items, mime), (mime, bytes))
        } else {
            items
        },
        None => items,
    }
}

/// The place is one between, before or behind the items.
pub proof fn lemma_place(items: Seq<Item>, mime: Seq<char>)
    ensures
        0 <= place(items, mime) <= items.len(),
    decreases items.len(),
{
    if items.len() > 0 {
        lemma_place(items.skip(1), mime);
    }
}

/// One more item adds its bytes, wherever it goes.
pub proof fn lemma_total_with(items: Seq<Item>, at: int, item: Item)
    requires
        0 <= at <= items.len(),
    ensures
        total_bytes(items.insert(at, item)) == total_bytes(items) + item.1.len(),
    decreases items.len(),
{
    let more = items.insert(at, item);
    if at == items.len() {
        assert(more.drop_last() =~= items);
    } else {
        assert(more.drop_last() =~= items.drop_last().insert(at, item));
        assert(more.last() == items.last());
        lemma_total_with(items.drop_last(), at, item);
    }
}

/// The snapshot that reading `reads` one after the other makes.
pub open spec fn snapshot(reads: Seq<(Seq<char>, Option<Seq<u8>>)>) -> Seq<Item>
    decreases reads.len(),
{
    if reads.len() == 0 {
        Seq::empty()
    } else {
        taken_in(snapshot(reads.drop_last()), reads.last().0, reads.last().1)
    }
}

/// What became of a type that was read.
#[derive(Debug, PartialEq, Eq, Structural)]
pub enum Taken {
    Kept,
    /// It could not be read; the rest of the clipboard is still saved.
    Unreadable,
    /// It did not fit any more.
    OverBudget,
}

/// Where an item of the given type goes.
fn place_of(items: &Vec<(String, Vec<u8>)>, mime: &str) -> (r: usize)
    ensures
        r <= items@.len(),
        r == place(item_views(items@), mime@),
{
    let ghost all = item_views(items@);
    let mut at: usize = 0;
    assert(all.skip(0) =~= all);
    while at < items.len() && is_at_or_before(items[at].0.as_str(), mime)
        invariant
            all == item_views(items@),
            at <= items@.len(),
            at + place(all.skip(at as int), mime@) == place(all, mime@),
        decreases items@.len() - at,
    {
        assert(all.skip(at as int).skip(1) =~= all.skip(at + 1));
        assert(all.skip(at as int)[0].0 == items@[at as int].0@);
        at = at + 1;
    }
    assert(at < items@.len() ==> all.skip(at as int)[0].0 == items@[at as int].0@);
    at
}

/// A snapshot in the making.
#[derive(Debug)]
pub struct Snapshot {
    types: Vec<String>,
    next: usize,
    items: Vec<(String, Vec<u8>)>,
    budget: usize,
}

impl Snapshot {
    /// The types that are to be read, in order.
    pub closed spec fn types(self) -> Seq<Seq<char>> {
        views(self.types@)
    }

    /// How many of them have been read.
    pub closed spec fn read(self) -> nat {
        self.next as nat
    }

    /// What has been kept of them.
    pub closed spec fn kept(self) -> Seq<Item> {
        item_views(self.items@)
    }

    /// The budget is what the items leave of it.
    pub closed spec fn well_formed(self) -> bool {
        &&& self.next <= self.types@.len()
        &&& self.budget + total_bytes(item_views(self.items@)) == MAX_SNAPSHOT_BYTES
    }

    /// The next type to read.
    pub fn next_type(&self) -> (r: Option<String>)
        requires
            self.well_formed(),
        ensures
            match r {
                Some(mime) => self.read() < self.types().len() && mime@ == self.types()[self.read() as int],
                None => self.read() == self.types().len(),
            },
    {
        if self.next < self.types.len() {
            Some(self.types[self.next].clone())
        } else {
            None
        }
    }

    /// Takes in the bytes of the next type, or that they could not be read.
    pub fn take_in(&mut self, read: Option<Vec<u8>>) -> (r: Taken)
        requires
            old(self).well_formed(),
            old(self).read() < old(self).types().len(),
        ensures
            final(self).well_formed(),
            final(self).types() == old(self).types(),
            final(self).read() == old(self).read() + 1,
            final(self).kept() == taken_in(
                old(self).kept(),
                old(self).types()[old(self).read() as int],
                match read {
                    Some(bytes) => Some(bytes@),
                    None => None,
                },
            ),
            r == (match read {
                None => Taken::Unreadable,
                Some(bytes) => if total_bytes(old(self).kept()) + bytes@.len()
                    <= MAX_SNAPSHOT_BYTES {
                    Taken::Kept
                } else {
                    Taken::OverBudget
                },
            }),
            read is None <==> r == Taken::Unreadable,
            read matches Some(bytes) ==> (r == Taken::Kept <==> total_bytes(old(self).kept())
                + bytes@.len() <= 67_108_864),
            r != Taken::Kept ==> final(self).kept() == old(self).kept(),
            r == Taken::Kept ==> final(self).kept().to_multiset()
                == old(self).kept().to_multiset().insert(
                (old(self).types()[old(self).read() as int], read->0@),
            ),
    {
        let at = self.next;
        let count = self.types.len();
        assert(at < count);
        self.next = at + 1;
        let bytes = match read {
            Some(bytes) => bytes,
            None => {
                return Taken::Unreadable;
            },
        };
        if bytes.len() > self.budget {
            return Taken::OverBudget;
        }
        self.budget = self.budget - bytes.len();
        let ghost before = item_views(self.items@);
        let mime = self.types[at].clone();
        let ghost item = (mime@, bytes@);
        let to = place_of(&self.items, mime.as_str());
        proof {
            lemma_total_with(before, to as int, item);
        }
        self.items.insert(to, (mime, bytes));
        assert(item_views(self.items@) =~= before.insert(to as int, item));
        proof {
            vstd::seq_lib::to_multiset_insert(before, to as int, item);
        }
        Taken::Kept
    }

    /// The items that were kept, sorted by name.
    pub fn finish(self) -> (items: Vec<(String, Vec<u8>)>)
        ensures
            item_views(items@) == self.kept(),
            items@.len() == self.kept().len(),
            forall|i: int|
                #![trigger items@[i]]
                0 <= i < items@.len() ==> items@[i].0@ == self.kept()[i].0 && items@[i].1@
                    == self.kept()[i].1,
    {
        assert(forall|i: int|
            #![trigger self.items@[i]]
            0 <= i < self.items@.len() ==> item_views(self.items@)[i] == (
                self.items@[i].0@,
                self.items@[i].1@,
            ));
        self.items
    }
}

/// Begins a snapshot of the clipboard, given its types. An empty clipboard
/// makes an empty snapshot.
pub fn read_all(listing: &TypeListing) -> (r: Result<Snapshot, String>)
    ensures
        match (readable_types(*listing), r) {
            (Ok(types), Ok(begun)) => {
                &&& begun.well_formed()
                &&& begun.types() == types
                &&& begun.read() == 0
                &&& begun.kept() == Seq::<Item>::empty()
            },
            (Err(text), Err(message)) => message@ == text,
            _ => false,
        },
        match *listing {
            TypeListing::Types(types) => r matches Ok(begun) && {
                &&& begun.types().no_duplicates()
                &&& forall|t: Seq<char>|
                    #[trigger] begun.types().contains(t) <==> views(types@).contains(t)
                &&& forall|a: int, b: int|
                    0 <= a < b < begun.types().len() && is_text_type(#[trigger] begun.types()[b])
                        ==> is_text_type(#[trigger] begun.types()[a])
                &&& forall|a: int, b: int|
                    0 <= a < b < begun.types().len() && is_text_type(#[trigger] begun.types()[a])
                        == is_text_type(#[trigger] begun.types()[b]) ==> is_offered_before(
                        begun.types()[a],
                        begun.types()[b],
                        views(types@),
                    )
            },
            TypeListing::MissingProtocol(text) => r matches Err(message) && message@
                == "could not list clipboard types: "@ + text@,
            TypeListing::Failed(text) => r matches Err(message) && message@
                == "could not list clipboard types: "@ + text@,
            _ => r matches Ok(begun) && begun.types().len() == 0,
        },
        r matches Ok(begun) ==> begun.well_formed() && begun.read() == 0 && begun.kept().len() == 0,
{
    let types = match listing {
        TypeListing::Types(types) => reading_order(types),
        TypeListing::MissingProtocol(text) => {
            return Err(listing_failed(text.as_str()));
        },
        TypeListing::Failed(text) => {
            return Err(listing_failed(text.as_str()));
        },
        _ => Vec::new(),
    };
    assert(readable_types(*listing) matches Ok(expected) && views(types@) =~= expected);
    let items: Vec<(String, Vec<u8>)> = Vec::new();
    assert(item_views(items@) =~= Seq::<Item>::empty());
    proof {
        law_every_listed_type_is_read(*listing);
    }
    Ok(Snapshot { types, next: 0, items, budget: MAX_SNAPSHOT_BYTES })
}

// ------------------------------------------------------------------
// Writing
// ------------------------------------------------------------------
/// The type data is offered under.
#[derive(Debug)]
pub enum OfferedType {
    /// Plain text, under all its usual names.
    Text,
    Specific(String),
}

/// Data put on the clipboard.
#[derive(Debug)]
pub struct Offer {
    pub sources: Vec<(OfferedType, Vec<u8>)>,
    /// Whether a newline at the end is cut off.
    pub trim_newline: bool,
    /// Whether text is offered under the given types alone.
    pub omit_additional_text_mime_types: bool,
}

/// What is done to the clipboard.
#[derive(Debug)]
pub enum ClipboardWrite {
    /// Stage a text.
    Stage(Offer),
    /// Put a snapshot back.
    Restore(Offer),
    /// Leave the clipboard empty.
    Clear,
}

/// What is offered: the bytes under each specific type, in order. `None` where
/// the type is not a specific one.
pub open spec fn offered(sources: Seq<(OfferedType, Vec<u8>)>) -> Seq<(
    Option<Seq<char>>,
    Seq<u8>,
)> {
    Seq::new(
        sources.len(),
        |i: int|
            (
                match sources[i].0 {
                    OfferedType::Text => None,
                    OfferedType::Specific(mime) => Some(mime@),
                },
                sources[i].1@,
            ),
    )
}

/// Each item under its own type.
pub open spec fn as_sources(items: Seq<Item>) -> Seq<(Option<Seq<char>>, Seq<u8>)> {
    Seq::new(items.len(), |i: int| (Some(items[i].0), items[i].1))
}

/// Stages `text` as plain text, to the last newline.
pub fn write_text(text: &str) -> (r: ClipboardWrite)
    ensures
        r matches ClipboardWrite::Stage(offer) && {
            &&& offered(offer.sources@) == seq![(None::<Seq<char>>, encode_utf8(text@))]
            &&& offer.sources@.len() == 1
            &&& offer.sources@[0].0 is Text
            &&& offer.sources@[0].1@ == encode_utf8(text@)
            &&& !offer.trim_newline
            &&& !offer.omit_additional_text_mime_types
        },
{
    let mut sources: Vec<(OfferedType, Vec<u8>)> = Vec::new();
    sources.push((OfferedType::Text, text.as_bytes_vec()));
    assert(offered(sources@) =~= seq![(None::<Seq<char>>, encode_utf8(text@))]);
    ClipboardWrite::Stage(
        Offer { sources, trim_newline: false, omit_additional_text_mime_types: false },
    )
}

/// The same bytes once more.
fn copied(bytes: &Vec<u8>) -> (r: Vec<u8>)
    ensures
        r@ == bytes@,
{
    let mut r: Vec<u8> = Vec::new();
    for i in 0..bytes.len()
        invariant
            r@ == bytes@.take(i as int),
    {
        r.push(bytes[i]);
    }
    assert(bytes@.take(bytes@.len() as int) =~= bytes@);
    r
}

/// Puts a snapshot back: every item byte for byte under its own type and no
/// other. An empty snapshot leaves the clipboard empty.
pub fn write_all(items: &Vec<(String, Vec<u8>)>) -> (r: ClipboardWrite)
    ensures
        items@.len() == 0 ==> r is Clear,
        items@.len() > 0 ==> (r matches ClipboardWrite::Restore(offer) && {
            &&& offered(offer.sources@) == as_sources(item_views(items@))
            &&& offer.sources@.len() == items@.len()
            &&& forall|i: int|
                #![trigger offer.sources@[i]]
                0 <= i < items@.len() ==> {
                    &&& offer.sources@[i].0 matches OfferedType::Specific(mime)
                    &&& mime@ == items@[i].0@
                    &&& offer.sources@[i].1@ == items@[i].1@
                }
            &&& !offer.trim_newline
            &&& offer.omit_additional_text_mime_types
        }),
{
    if items.len() == 0 {
        return ClipboardWrite::Clear;
    }
    let mut sources: Vec<(OfferedType, Vec<u8>)> = Vec::new();
    let ghost all = as_sources(item_views(items@));
    for i in 0..items.len()
        invariant
            all == as_sources(item_views(items@)),
            offered(sources@) == all.take(i as int),
    {
        let ghost before = offered(sources@);
        let item = &items[i];
        sources.push((OfferedType::Specific(item.0.clone()), copied(&item.1)));
        assert(offered(sources@) =~= before.push(all[i as int]));
        assert(all.take(i + 1) =~= all.take(i as int).push(all[i as int]));
    }
    assert(all.take(all.len() as int) =~= all);
    proof {
        assert(sources@.len() == offered(sources@).len());
        assert forall|i: int| 0 <= i < items@.len() implies {
            &&& (#[trigger] sources@[i]).0 matches OfferedType::Specific(mime)
            &&& mime@ == items@[i].0@
            &&& sources@[i].1@ == items@[i].1@
        } by {
            assert(offered(sources@)[i] == all[i]);
        }
    }
    ClipboardWrite::Restore(
        Offer { sources, trim_newline: false, omit_additional_text_mime_types: true },
    )
}

/// The error a write that failed is reported with.
pub open spec fn write_error_text(write: ClipboardWrite, error: Seq<char>) -> Seq<char> {
    match write {
        ClipboardWrite::Stage(_) => "could not write clipboard text: "@ + error,
        ClipboardWrite::Restore(_) => "could not restore clipboard: "@ + error,
        ClipboardWrite::Clear => "could not clear clipboard: "@ + error,
    }
}

/// The error a write that failed is reported with.
pub fn write_error(write: &ClipboardWrite, error: &str) -> (r: String)
    ensures
        r@ == write_error_text(*write, error@),
        *write is Stage ==> r@ == "could not write clipboard text: "@ + error@,
        *write is Restore ==> r@ == "could not restore clipboard: "@ + error@,
        *write is Clear ==> r@ == "could not clear clipboard: "@ + error@,
{
    let mut r = match write {
        ClipboardWrite::Stage(_) => "could not write clipboard text: ".to_string(),
        ClipboardWrite::Restore(_) => "could not restore clipboard: ".to_string(),
        ClipboardWrite::Clear => "could not clear clipboard: ".to_string(),
    };
    r.append(error);
    r
}

// ------------------------------------------------------------------
// Noticing a change
// ------------------------------------------------------------------
/// Every type in UTF-8, each with a byte behind it that UTF-8 does not use.
pub open spec fn framed_types(types: Seq<Seq<char>>) -> Seq<u8>
    decreases types.len(),
{
    if types.len() == 0 {
        Seq::empty()
    } else {
        framed_types(types.drop_last()) + encode_utf8(types.last()) + seq![0xffu8]
    }
}

/// A number in eight bytes, the lowest first.
pub open spec fn framed_number(n: nat) -> Seq<u8> {
    vstd::bytes::spec_u64_to_le_bytes(n as u64)
}

/// The contents a token stands for as one string of bytes: the number of
/// types, the types, and the text with its length in front.
pub open spec fn framed(types: Seq<Seq<char>>, text: Option<Seq<u8>>) -> Seq<u8> {
    framed_number(types.len()) + framed_types(types) + (match text {
        Some(bytes) => framed_number(bytes.len()) + bytes,
        None => Seq::empty(),
    })
}

/// `once` holds the types of `types` and no others, each once and in order.
pub open spec fn lists_each_once(once: Seq<Seq<char>>, types: Seq<Seq<char>>) -> bool {
    &&& once.no_duplicates()
    &&& forall|t: Seq<char>| #[trigger] once.contains(t) <==> types.contains(t)
    &&& forall|a: int, b: int|
        0 <= a < b < once.len() ==> at_or_before(#[trigger] once[a], #[trigger] once[b])
}

/// The token of some contents.
pub open spec fn token_of(types: Seq<Seq<char>>, text: Option<Seq<u8>>) -> i64 {
    DefaultHasher::spec_finish(seq![framed(types, text)]) as i64
}

/// The token of the clipboard: zero where there is nothing on it.
pub open spec fn token(listing: TypeListing, text: Option<Seq<u8>>) -> Result<i64, Seq<char>> {
    match listing {
        TypeListing::Types(types) => Ok(token_of(in_order(distinct(views(types@))), text)),
        TypeListing::NoSeats => Ok(0),
        TypeListing::ClipboardEmpty => Ok(0),
        TypeListing::NoMimeType => Ok(0),
        TypeListing::MissingProtocol(text) => Err("could not list clipboard types: "@ + text@),
        TypeListing::Failed(text) => Err("could not list clipboard types: "@ + text@),
    }
}

/// Appends `more` to `bytes`.
fn append_bytes(bytes: &mut Vec<u8>, more: &[u8])
    ensures
        final(bytes)@ == old(bytes)@ + more@,
{
    let ghost before = bytes@;
    for i in 0..more.len()
        invariant
            bytes@ == before + more@.take(i as int),
    {
        bytes.push(more[i]);
        assert(more@.take(i + 1) =~= more@.take(i as int).push(more@[i as int]));
    }
    assert(more@.take(more@.len() as int) =~= more@);
}

/// The contents a token stands for as one string of bytes.
pub fn frame(types: &Vec<String>, text: &Option<Vec<u8>>) -> (r: Vec<u8>)
    ensures
        r@ == framed(
            views(types@),
            match *text {
                Some(bytes) => Some(bytes@),
                None => None,
            },
        ),
{
    let mut r = vstd::bytes::u64_to_le_bytes(types.len() as u64);
    let ghost head = r@;
    let ghost all = views(types@);
    assert(head + framed_types(all.take(0)) =~= head);
    for i in 0..types.len()
        invariant
            all == views(types@),
            r@ == head + framed_types(all.take(i as int)),
    {
        append_bytes(&mut r, types[i].as_str().as_bytes());
        r.push(0xff);
        proof {
            assert(all.take(i + 1).drop_last() =~= all.take(i as int));
            assert(all.take(i + 1).last() == types@[i as int]@);
            assert(r@ =~= head + framed_types(all.take(i + 1)));
        }
    }
    assert(all.take(all.len() as int) =~= all);
    if let Some(bytes) = text {
        let length = vstd::bytes::u64_to_le_bytes(bytes.len() as u64);
        append_bytes(&mut r, length.as_slice());
        append_bytes(&mut r, bytes.as_slice());
        assert(r@ =~= head + framed_types(all) + (framed_number(bytes@.len()) + bytes@));
    } else {
        assert(r@ =~= head + framed_types(all) + Seq::<u8>::empty());
    }
    r
}

/// A token for what is on the clipboard, given its types and its text where
/// that could be read. Two tokens differ only where the contents do.
pub fn content_token(listing: &TypeListing, text: &Option<Vec<u8>>) -> (r: Result<i64, String>)
    ensures
        token(
            *listing,
            match *text {
                Some(bytes) => Some(bytes@),
                None => None,
            },
        ) == (match r {
            Ok(value) => Ok(value),
            Err(message) => Err(message@),
        }),
        match *listing {
            TypeListing::Types(types) => r matches Ok(value) && exists|once: Seq<Seq<char>>|
                {
                    &&& value == DefaultHasher::spec_finish(
                        seq![
                            framed(
                                once,
                                match *text {
                                    Some(bytes) => Some(bytes@),
                                    None => None,
                                },
                            ),
                        ],
                    ) as i64
                    &&& #[trigger] lists_each_once(once, views(types@))
                },
            TypeListing::MissingProtocol(reason) => r matches Err(message) && message@
                == "could not list clipboard types: "@ + reason@,
            TypeListing::Failed(reason) => r matches Err(message) && message@
                == "could not list clipboard types: "@ + reason@,
            _ => r == Ok::<i64, String>(0),
        },
{
    proof {
        law_token_stands_for_types_and_text(
            *listing,
            match text {
                Some(bytes) => Some(bytes@),
                None => None,
            },
        );
    }
    let types = match listing {
        TypeListing::Types(types) => sort(&each_once(types)),
        TypeListing::MissingProtocol(text) => {
            return Err(listing_failed(text.as_str()));
        },
        TypeListing::Failed(text) => {
            return Err(listing_failed(text.as_str()));
        },
        _ => {
            return Ok(0);
        },
    };
    let contents = frame(&types, text);
    let mut hasher = DefaultHasher::new();
    hasher.write(contents.as_slice());
    assert(hasher@ =~= seq![contents@]);
    Ok(hasher.finish() as i64)
}

} // verus!
