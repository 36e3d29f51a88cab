use degen_music_library::listing::{ListPage, ListedObject, Listing, PageOutcome};
use degen_music_library::storage::EntryKind;

fn object(key: &str, size: Option<i64>) -> ListedObject {
    ListedObject { key: Some(key.to_owned()), size }
}

fn page(prefixes: &[&str], objects: Vec<ListedObject>, truncated: Option<bool>, token: Option<&str>) -> ListPage {
    ListPage {
        common_prefixes: prefixes.iter().map(|prefix| Some((*prefix).to_owned())).collect(),
        objects,
        is_truncated: truncated,
        next_continuation_token: token.map(str::to_owned),
    }
}

#[test]
fn page_becomes_folders_and_audio_tracks() {
    let mut listing = Listing::new("Albums/");
    let outcome = listing.absorb(page(
        &["Albums/Live/", "Albums/", "Albums/b/"],
        vec![
            object("Albums/", Some(0)),
            object("Albums/zeta.MP3", Some(10)),
            object("Albums/cover.jpg", Some(5)),
            object("Albums/sub/deep.mp3", Some(5)),
            object("Albums/dir/", Some(0)),
            object("Albums/Alpha.flac", None),
            ListedObject { key: None, size: Some(1) },
        ],
        None,
        None,
    ));
    assert!(matches!(outcome, PageOutcome::Complete));
    let entries = listing.finish();
    let names: Vec<(EntryKind, &str)> = entries.iter().map(|entry| (entry.kind, entry.name.as_str())).collect();
    assert_eq!(
        names,
        vec![
            (EntryKind::Folder, "b"),
            (EntryKind::Folder, "Live"),
            (EntryKind::Track, "Alpha.flac"),
            (EntryKind::Track, "zeta.MP3"),
        ]
    );
    assert_eq!(entries[2].size, 0);
    assert_eq!(entries[3].size, 10);
    assert_eq!(entries[0].key, "Albums/b/");
}

#[test]
fn pages_continue_until_complete() {
    let mut listing = Listing::new("");
    match listing.absorb(page(&["x/"], vec![object("b.mp3", Some(1))], Some(true), Some("t1"))) {
        PageOutcome::Continue(token) => assert_eq!(token, "t1"),
        _ => panic!("expected a continuation"),
    }
    assert!(matches!(
        listing.absorb(page(&["x/"], vec![object("a.mp3", Some(1))], Some(true), None)),
        PageOutcome::MissingToken
    ));
    assert!(matches!(listing.absorb(page(&[], vec![], Some(false), Some("t"))), PageOutcome::Complete));
    let entries = listing.finish();
    let keys: Vec<&str> = entries.iter().map(|entry| entry.key.as_str()).collect();
    assert_eq!(keys, vec!["x/", "a.mp3", "b.mp3"]);
}

#[test]
fn sorting_is_stable_and_case_insensitive() {
    let mut listing = Listing::new("");
    listing.absorb(page(
        &[],
        vec![object("b.mp3", Some(1)), object("B.MP3", Some(2)), object("a.ogg", Some(3))],
        None,
        None,
    ));
    let entries = listing.finish();
    let keys: Vec<&str> = entries.iter().map(|entry| entry.key.as_str()).collect();
    assert_eq!(keys, vec!["a.ogg", "b.mp3", "B.MP3"]);
}

#[test]
fn finished_listing_keeps_every_object_once_in_order() {
    let mut listing = Listing::new("");
    listing.absorb(page(&["b/", "a/"], vec![object("c.mp3", Some(1)), object("a.mp3", Some(2))], Some(true), Some("t")));
    listing.absorb(page(&["a/"], vec![object("c.mp3", Some(1)), object("B.flac", Some(3))], None, None));
    let entries = listing.finish();
    let keys: Vec<&str> = entries.iter().map(|entry| entry.key.as_str()).collect();
    assert_eq!(keys, vec!["a/", "b/", "a.mp3", "B.flac", "c.mp3"]);
}
