//! The change detector: fingerprint deduplication, capture, and the
//! entry construction for text and images.
use copas_core::models::{AppData, Category, ItemKind};
use copas_core::watcher::{fresh_entry_id, fresh_tab_id, fresh_timestamp, Watcher};

#[test]
fn identical_text_twice_produces_one_entry() {
    let mut w = Watcher::new();
    let mut data = AppData::default();
    let first = w.observe_text(&mut data, b"hello", b"id1".to_vec(), b"t1".to_vec());
    assert!(first.is_some());
    let second = w.observe_text(&mut data, b"hello", b"id2".to_vec(), b"t2".to_vec());
    assert!(second.is_none());
    assert_eq!(data.items.len(), 1);
    assert_eq!(data.items[0].id, b"id1".to_vec());
}

#[test]
fn changed_text_is_captured_newest_first() {
    let mut w = Watcher::new();
    let mut data = AppData::default();
    w.observe_text(&mut data, b"first", b"id1".to_vec(), b"t1".to_vec());
    w.observe_text(&mut data, b"second", b"id2".to_vec(), b"t2".to_vec());
    assert_eq!(data.items.len(), 2);
    assert_eq!(data.items[0].id, b"id2".to_vec());
    assert_eq!(data.items[1].id, b"id1".to_vec());
}

#[test]
fn poll_after_clipboard_change_adds_exactly_one_entry() {
    // Startup sees "A" on the clipboard; the content then changes to
    // "B" between polls. The next poll captures exactly one new entry
    // with content "B", classified as plain text.
    let mut w = Watcher::new();
    let mut data = AppData::default();
    w.seed_text(b"A");
    let same = w.observe_text(&mut data, b"A", b"idA".to_vec(), b"tA".to_vec());
    assert!(same.is_none());
    let captured = w
        .observe_text(&mut data, b"B", b"idB".to_vec(), b"tB".to_vec())
        .expect("changed content is captured");
    assert_eq!(data.items.len(), 1);
    assert_eq!(captured.content_text, Some(b"B".to_vec()));
    assert_eq!(captured.category, Category::Text);
    assert_eq!(data.items[0].content_text, Some(b"B".to_vec()));
}

#[test]
fn seeding_stores_the_exact_digest() {
    let mut w = Watcher::new();
    w.seed_text(b"A");
    // SHA-256 of the single byte "A".
    let expected: Vec<u8> = vec![
        85, 154, 234, 208, 130, 100, 213, 121, 93, 57, 9, 113, 140, 221, 5, 171, 212, 149, 114,
        232, 79, 229, 85, 144, 238, 243, 26, 136, 160, 143, 223, 253,
    ];
    assert_eq!(w.last_text_digest, Some(expected));
}

#[test]
fn empty_text_is_never_captured() {
    let mut w = Watcher::new();
    let mut data = AppData::default();
    assert!(w.observe_text(&mut data, b"", b"id".to_vec(), b"t".to_vec()).is_none());
    assert_eq!(data.items.len(), 0);
}

#[test]
fn captured_link_lands_on_the_links_tab() {
    let mut w = Watcher::new();
    let mut data = AppData::default();
    let entry = w
        .observe_text(&mut data, b"https://example.com", b"id".to_vec(), b"t".to_vec())
        .expect("a fresh link is captured");
    assert_eq!(entry.category, Category::Link);
    assert_eq!(entry.tab_id, Some(b"links".to_vec()));
}

#[test]
fn captured_image_is_encoded_and_named_after_its_id() {
    let mut w = Watcher::new();
    let mut data = AppData::default();
    let rgba: Vec<u8> = vec![255, 0, 0, 255]; // one red pixel
    let (entry, png) = w
        .observe_image(&mut data, &rgba, 1, 1, b"img1".to_vec(), b"t".to_vec())
        .expect("a fresh image is captured");
    assert_eq!(entry.kind, ItemKind::Image);
    assert_eq!(entry.image_path, Some(b"img1.png".to_vec()));
    assert_eq!(entry.mime, Some(b"image/png".to_vec()));
    assert_eq!(entry.category, Category::Image);
    // The stored bytes are a real PNG file, not the raw pixels.
    assert_eq!(&png[..8], &[137, 80, 78, 71, 13, 10, 26, 10]);
    assert_eq!(data.items.len(), 1);

    // The same pixels again are deduplicated by digest.
    let again = w.observe_image(&mut data, &rgba, 1, 1, b"img2".to_vec(), b"t2".to_vec());
    assert!(again.is_none());
    assert_eq!(data.items.len(), 1);
}

#[test]
fn text_and_image_fingerprints_are_independent() {
    let mut w = Watcher::new();
    let mut data = AppData::default();
    w.observe_text(&mut data, b"abc", b"t1".to_vec(), b"ts".to_vec());
    let rgba: Vec<u8> = b"abc\xff".to_vec();
    let captured = w.observe_image(&mut data, &rgba, 1, 1, b"i1".to_vec(), b"ts".to_vec());
    assert!(captured.is_some());
    assert_eq!(data.items.len(), 2);
}

#[test]
fn fresh_ids_have_the_documented_shape() {
    let id = fresh_entry_id();
    assert!(id.len() >= 9);
    let other = fresh_entry_id();
    assert_ne!(id, other, "the random suffix separates ids minted together");
    let tab = fresh_tab_id();
    assert_eq!(&tab[..4], b"tab_");
    let ts = fresh_timestamp();
    // RFC 3339 layout for a present-day year: YYYY-MM-DDTHH:MM:SS+00:00.
    assert_eq!(ts.len(), 25);
    assert_eq!(ts[4], b'-');
    assert_eq!(ts[7], b'-');
    assert_eq!(ts[10], b'T');
    assert_eq!(ts[13], b':');
    assert_eq!(ts[16], b':');
    assert_eq!(&ts[19..], b"+00:00");
    for k in [0, 1, 2, 3, 5, 6, 8, 9, 11, 12, 14, 15, 17, 18] {
        assert!(ts[k].is_ascii_digit());
    }
    // The id's shape: millis digits then an eight-byte random suffix.
    assert!(id.len() >= 9 && id[..id.len() - 8].iter().all(|b| b.is_ascii_digit() || *b == b'-'));
}
