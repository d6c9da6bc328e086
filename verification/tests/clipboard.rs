use std::collections::hash_map::DefaultHasher;
use std::hash::Hash;
use std::hash::Hasher;
use voicebox::linux::clipboard::content_token;
use voicebox::linux::clipboard::frame;
use voicebox::linux::clipboard::is_available;
use voicebox::linux::clipboard::read_all;
use voicebox::linux::clipboard::write_all;
use voicebox::linux::clipboard::write_error;
use voicebox::linux::clipboard::write_text;
use voicebox::linux::clipboard::ClipboardWrite;
use voicebox::linux::clipboard::OfferedType;
use voicebox::linux::clipboard::Taken;
use voicebox::linux::clipboard::TypeListing;
use voicebox::linux::clipboard::MAX_SNAPSHOT_BYTES;

fn text(s: &str) -> String {
    s.to_string()
}

fn types(names: &[&str]) -> TypeListing {
    TypeListing::Types(names.iter().map(|s| s.to_string()).collect())
}

/// Reads every type of the listing, each through `read`.
fn snapshot(
    listing: &TypeListing,
    read: impl Fn(&str) -> Option<Vec<u8>>,
) -> (Vec<(String, Vec<u8>)>, Vec<Taken>) {
    let mut begun = read_all(listing).unwrap();
    let mut taken = Vec::new();
    while let Some(mime) = begun.next_type() {
        taken.push(begun.take_in(read(&mime)));
    }
    (begun.finish(), taken)
}

#[test]
fn only_a_missing_protocol_makes_it_unavailable() {
    assert!(!is_available(&TypeListing::MissingProtocol(text("none"))));
    assert!(is_available(&types(&["text/plain"])));
    assert!(is_available(&TypeListing::NoSeats));
    assert!(is_available(&TypeListing::ClipboardEmpty));
    assert!(is_available(&TypeListing::NoMimeType));
    assert!(is_available(&TypeListing::Failed(text("broken pipe"))));
}

#[test]
fn empty_clipboard_is_an_empty_snapshot() {
    for empty in [TypeListing::NoSeats, TypeListing::ClipboardEmpty, TypeListing::NoMimeType] {
        let (items, taken) = snapshot(&empty, |_| panic!("nothing to read"));
        assert!(items.is_empty());
        assert!(taken.is_empty());
        assert_eq!(content_token(&empty, &None), Ok(0));
        assert_eq!(content_token(&empty, &Some(vec![1])), Ok(0));
    }
}

#[test]
fn failed_listing_is_an_error() {
    for failed in [
        TypeListing::MissingProtocol(text("no protocol")),
        TypeListing::Failed(text("no protocol")),
    ] {
        let message = text("could not list clipboard types: no protocol");
        assert_eq!(read_all(&failed).unwrap_err(), message);
        assert_eq!(content_token(&failed, &None), Err(message));
    }
}

#[test]
fn snapshot_is_sorted_by_type() {
    let (items, taken) = snapshot(&types(&["text/plain", "image/png", "TEXT"]), |mime| {
        Some(mime.as_bytes().to_vec())
    });
    let names: Vec<&str> = items.iter().map(|item| item.0.as_str()).collect();
    assert_eq!(names, vec!["TEXT", "image/png", "text/plain"]);
    assert_eq!(items[1].1, b"image/png".to_vec());
    assert!(taken.iter().all(|t| *t == Taken::Kept));
}

#[test]
fn snapshot_holds_each_type_once() {
    let listing = types(&["image/png", "text/plain", "image/png", "text/plain"]);
    let (items, taken) = snapshot(&listing, |mime| Some(mime.as_bytes().to_vec()));
    let names: Vec<&str> = items.iter().map(|item| item.0.as_str()).collect();
    assert_eq!(names, vec!["image/png", "text/plain"]);
    assert_eq!(taken, vec![Taken::Kept, Taken::Kept]);
}

#[test]
fn unreadable_type_costs_only_itself() {
    let (items, taken) = snapshot(&types(&["a", "b", "c"]), |mime| {
        if mime == "b" {
            None
        } else {
            Some(vec![7])
        }
    });
    assert_eq!(items, vec![(text("a"), vec![7]), (text("c"), vec![7])]);
    assert_eq!(taken, vec![Taken::Kept, Taken::Unreadable, Taken::Kept]);
}

#[test]
fn text_is_read_first_and_kept() {
    for listing in [types(&["text/plain", "image/png"]), types(&["image/png", "text/plain"])] {
        let (items, taken) = snapshot(&listing, |mime| match mime {
            "image/png" => Some(vec![0; MAX_SNAPSHOT_BYTES]),
            _ => Some(b"hello".to_vec()),
        });
        assert_eq!(items, vec![(text("text/plain"), b"hello".to_vec())]);
        assert_eq!(taken, vec![Taken::Kept, Taken::OverBudget]);
    }
}

#[test]
fn types_are_read_as_they_are_offered_text_before_others() {
    let listing =
        types(&["image/png", "UTF8_STRING", "x-app/y", "text/html", "image/png", "application/json"]);
    let mut begun = read_all(&listing).unwrap();
    let mut order = Vec::new();
    while let Some(mime) = begun.next_type() {
        order.push(mime);
        begun.take_in(None);
    }
    assert_eq!(
        order,
        vec!["UTF8_STRING", "text/html", "application/json", "image/png", "x-app/y"]
    );
}

#[test]
fn every_kind_of_text_is_known() {
    for mime in [
        "TEXT",
        "STRING",
        "UTF8_STRING",
        "text/plain;charset=utf-8",
        "application/ld+json-seq",
        "application/javascript",
        "image/svg+xml",
        "application/yaml",
        "x/csv",
        "x/ini",
    ] {
        let mut begun = read_all(&types(&["image/png", mime])).unwrap();
        assert_eq!(begun.next_type().as_deref(), Some(mime));
        begun.take_in(None);
        assert_eq!(begun.next_type().as_deref(), Some("image/png"));
    }
    for mime in ["Text/plain", "xml/x", "text", "STRINGS"] {
        let begun = read_all(&types(&["image/png", mime])).unwrap();
        assert_eq!(begun.next_type().as_deref(), Some("image/png"));
    }
}

#[test]
fn budget_is_shared_and_skips() {
    let (items, taken) = snapshot(&types(&["c", "b", "a"]), |mime| match mime {
        "c" => Some(vec![0; MAX_SNAPSHOT_BYTES - 2]),
        "b" => Some(vec![1; 3]),
        _ => Some(vec![2; 2]),
    });
    assert_eq!(taken, vec![Taken::Kept, Taken::OverBudget, Taken::Kept]);
    assert_eq!(items.len(), 2);
    assert_eq!(items[0], (text("a"), vec![2, 2]));
    assert_eq!(items[1].0, "c");
}

#[test]
fn first_text_that_fits_is_kept() {
    let (items, _) = snapshot(&types(&["text/html", "text/plain", "STRING"]), |mime| match mime {
        "text/html" => Some(vec![0; MAX_SNAPSHOT_BYTES + 1]),
        "text/plain" => Some(vec![1; MAX_SNAPSHOT_BYTES]),
        _ => Some(vec![2; 1]),
    });
    assert_eq!(items.len(), 1);
    assert_eq!(items[0].0, "text/plain");
}

#[test]
fn largest_single_item_still_fits() {
    assert_eq!(MAX_SNAPSHOT_BYTES, 64 * 1024 * 1024);
    let (items, _) = snapshot(&types(&["a"]), |_| Some(vec![0; MAX_SNAPSHOT_BYTES]));
    assert_eq!(items.len(), 1);
    let (items, taken) = snapshot(&types(&["a"]), |_| Some(vec![0; MAX_SNAPSHOT_BYTES + 1]));
    assert!(items.is_empty());
    assert_eq!(taken, vec![Taken::OverBudget]);
}

#[test]
fn staged_text_keeps_its_newline() {
    match write_text("größe\n") {
        ClipboardWrite::Stage(offer) => {
            assert_eq!(offer.sources.len(), 1);
            assert!(matches!(offer.sources[0].0, OfferedType::Text));
            assert_eq!(offer.sources[0].1, "größe\n".as_bytes().to_vec());
            assert!(!offer.trim_newline);
            assert!(!offer.omit_additional_text_mime_types);
        }
        other => panic!("{other:?}"),
    }
}

#[test]
fn restore_offers_every_item_as_it_was() {
    let items = vec![(text("image/png"), vec![1, 2, 3]), (text("text/plain"), b"hi\n".to_vec())];
    match write_all(&items) {
        ClipboardWrite::Restore(offer) => {
            assert!(!offer.trim_newline);
            assert!(offer.omit_additional_text_mime_types);
            let offered: Vec<(String, Vec<u8>)> = offer
                .sources
                .into_iter()
                .map(|(kind, bytes)| match kind {
                    OfferedType::Specific(mime) => (mime, bytes),
                    OfferedType::Text => panic!("not under its own type"),
                })
                .collect();
            assert_eq!(offered, items);
        }
        other => panic!("{other:?}"),
    }
}

#[test]
fn restoring_nothing_clears() {
    assert!(matches!(write_all(&vec![]), ClipboardWrite::Clear));
}

#[test]
fn restored_clipboard_is_saved_again_alike() {
    let contents = |mime: &str| Some(format!("<{mime}>").into_bytes());
    let (saved, _) = snapshot(&types(&["text/plain", "STRING", "UTF8_STRING"]), contents);
    let (again, _) = snapshot(&types(&["UTF8_STRING", "text/plain", "STRING"]), contents);
    assert_eq!(saved, again);
}

#[test]
fn write_errors_say_which_write() {
    assert_eq!(
        write_error(&write_text("x"), "no seat"),
        "could not write clipboard text: no seat"
    );
    assert_eq!(
        write_error(&write_all(&vec![(text("t"), vec![])]), "no seat"),
        "could not restore clipboard: no seat"
    );
    assert_eq!(write_error(&ClipboardWrite::Clear, "no seat"), "could not clear clipboard: no seat");
}

#[test]
fn token_is_the_hash_of_types_and_text() {
    let mut sorted = vec![text("text/plain"), text("STRING"), text("größe")];
    sorted.sort();
    let bytes: Vec<u8> = b"voicebox-test-original".to_vec();
    let mut hasher = DefaultHasher::new();
    sorted.hash(&mut hasher);
    bytes.hash(&mut hasher);
    assert_eq!(
        content_token(&types(&["text/plain", "STRING", "größe"]), &Some(bytes)),
        Ok(hasher.finish() as i64)
    );
    let mut without = DefaultHasher::new();
    sorted.hash(&mut without);
    assert_eq!(
        content_token(&types(&["größe", "STRING", "text/plain"]), &None),
        Ok(without.finish() as i64)
    );
}

#[test]
fn restored_clipboard_has_its_old_token() {
    let read = |mime: &str| match mime {
        "image/png" => Some(vec![1, 2, 3]),
        _ => Some(b"voicebox-test-original".to_vec()),
    };
    let before_listing = types(&["text/plain", "image/png", "UTF8_STRING"]);
    let before = content_token(&before_listing, &read("UTF8_STRING"));
    let (saved, _) = snapshot(&before_listing, read);
    let staged = content_token(&types(&["text/plain"]), &Some(b"voicebox-test-staged".to_vec()));
    assert_ne!(before, staged);
    let names: Vec<&str> = saved.iter().map(|item| item.0.as_str()).collect();
    let text_bytes = saved.iter().find(|item| item.0 == "UTF8_STRING").unwrap().1.clone();
    assert_eq!(content_token(&types(&names), &Some(text_bytes)), before);
}

#[test]
fn repeated_types_count_once() {
    assert_eq!(
        content_token(&types(&["STRING", "text/plain", "STRING"]), &None),
        content_token(&types(&["text/plain", "STRING"]), &None)
    );
}

#[test]
fn untouched_clipboard_reads_back_as_unchanged() {
    let staged = Some(b"voicebox-test-staged".to_vec());
    assert_eq!(
        content_token(&types(&["text/plain", "STRING"]), &staged),
        content_token(&types(&["STRING", "text/plain"]), &staged)
    );
}

#[test]
fn other_text_changes_the_token() {
    let listing = types(&["text/plain", "STRING"]);
    assert_ne!(
        content_token(&listing, &Some(b"voicebox-test-original".to_vec())),
        content_token(&listing, &Some(b"voicebox-test-staged".to_vec()))
    );
    assert_ne!(
        content_token(&types(&["text/plain"]), &None),
        content_token(&types(&["text/html"]), &None)
    );
}

#[test]
fn contents_are_framed_without_ambiguity() {
    let one = frame(&vec![text("ab")], &None);
    let two = frame(&vec![text("a"), text("b")], &None);
    assert_ne!(one, two);
    assert_eq!(one, vec![1, 0, 0, 0, 0, 0, 0, 0, b'a', b'b', 0xff]);
    assert_eq!(
        frame(&vec![], &Some(vec![9])),
        vec![0, 0, 0, 0, 0, 0, 0, 0, 1, 0, 0, 0, 0, 0, 0, 0, 9]
    );
}
