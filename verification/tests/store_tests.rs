//! The bounded store: eviction, bulk clear, tab deletion, single-entry
//! mutations, queries, stats, and the vault PIN.
use copas_core::models::{AppData, Category, Item, ItemKind};
use copas_core::query::get_history;
use copas_core::store::{
    apply_eviction, clear_history, create_tab, delete_item, delete_multiple, delete_tab,
    get_settings, get_stats, get_tabs, get_vault_items, has_vault_pin, insert_front, label_item,
    move_to_tab, pin_item, rename_tab, set_settings, set_vault_membership, set_vault_pin,
    verify_vault_pin, SettingsPatch,
};

fn text_item(id: &str, text: &str, ts: &str, pinned: bool) -> Item {
    Item {
        id: id.as_bytes().to_vec(),
        kind: ItemKind::Text,
        content_text: Some(text.as_bytes().to_vec()),
        image_path: None,
        mime: None,
        category: Category::Text,
        tab_id: None,
        timestamp: ts.as_bytes().to_vec(),
        pinned,
        label: Vec::new(),
        content: Some(text.as_bytes().to_vec()),
        in_vault: false,
    }
}

#[test]
fn eviction_keeps_pinned_and_caps_unpinned() {
    let mut items: Vec<Item> = Vec::new();
    // Newest-first store: u5 u4 p3 u2 p1 u0 (u unpinned, p pinned).
    for (i, pinned) in [(0, false), (1, true), (2, false), (3, true), (4, false), (5, false)] {
        let id = format!("id{}", i);
        items.insert(0, text_item(&id, "x", "2024", pinned));
    }
    apply_eviction(&mut items, 2);
    // All pinned survive, and the first two unpinned in stored order.
    let ids: Vec<&[u8]> = items.iter().map(|i| i.id.as_slice()).collect();
    assert_eq!(ids, vec![b"id3".as_slice(), b"id1".as_slice(), b"id5".as_slice(), b"id4".as_slice()]);
    assert_eq!(items.len(), 2 + 2);
}

#[test]
fn eviction_within_capacity_changes_nothing() {
    let mut items = vec![text_item("a", "x", "1", false), text_item("b", "y", "2", true)];
    apply_eviction(&mut items, 5);
    assert_eq!(items.len(), 2);
    assert_eq!(items[0].id, b"a".to_vec());
    assert_eq!(items[1].id, b"b".to_vec());
}

#[test]
fn insert_front_places_newest_first_and_evicts() {
    let mut items: Vec<Item> = Vec::new();
    insert_front(&mut items, text_item("a", "1", "t1", false), 2);
    insert_front(&mut items, text_item("b", "2", "t2", false), 2);
    insert_front(&mut items, text_item("c", "3", "t3", false), 2);
    assert_eq!(items.len(), 2);
    assert_eq!(items[0].id, b"c".to_vec());
    assert_eq!(items[1].id, b"b".to_vec());
}

#[test]
fn bulk_clear_without_filter_keeps_every_pinned_entry() {
    let mut data = AppData::default();
    let mut pinned_one = text_item("p1", "keep", "1", true);
    pinned_one.tab_id = Some(b"important".to_vec());
    data.items.push(pinned_one);
    data.items.push(text_item("u1", "drop", "2", false));
    data.items.push(text_item("p2", "keep", "3", true));
    data.items.push(text_item("u2", "drop", "4", false));
    clear_history(&mut data, None);
    let ids: Vec<&[u8]> = data.items.iter().map(|i| i.id.as_slice()).collect();
    assert_eq!(ids, vec![b"p1".as_slice(), b"p2".as_slice()]);
}

#[test]
fn bulk_clear_with_tab_filter_spares_other_tabs_and_pinned() {
    let mut data = AppData::default();
    let mut a = text_item("a", "x", "1", false);
    a.tab_id = Some(b"work".to_vec());
    let mut b = text_item("b", "x", "2", true);
    b.tab_id = Some(b"work".to_vec());
    let mut c = text_item("c", "x", "3", false);
    c.tab_id = Some(b"other".to_vec());
    data.items.push(a);
    data.items.push(b);
    data.items.push(c);
    let filter = b"work".to_vec();
    clear_history(&mut data, Some(&filter));
    let ids: Vec<&[u8]> = data.items.iter().map(|i| i.id.as_slice()).collect();
    assert_eq!(ids, vec![b"b".as_slice(), b"c".as_slice()]);
}

#[test]
fn bulk_clear_with_all_filter_acts_like_no_filter() {
    let mut data = AppData::default();
    data.items.push(text_item("p", "keep", "1", true));
    data.items.push(text_item("u", "drop", "2", false));
    let all = b"all".to_vec();
    clear_history(&mut data, Some(&all));
    assert_eq!(data.items.len(), 1);
    assert_eq!(data.items[0].id, b"p".to_vec());
}

#[test]
fn deleting_a_tab_clears_references_but_keeps_entries() {
    let mut data = AppData::default();
    let tab = create_tab(&mut data, b"Work".to_vec(), None, b"work".to_vec());
    assert_eq!(tab.id, b"work".to_vec());
    let mut a = text_item("a", "x", "1", false);
    a.tab_id = Some(b"work".to_vec());
    let mut b = text_item("b", "x", "2", false);
    b.tab_id = Some(b"elsewhere".to_vec());
    data.items.push(a);
    data.items.push(b);
    assert!(delete_tab(&mut data, b"work"));
    assert_eq!(data.items.len(), 2);
    assert_eq!(data.items[0].tab_id, None);
    assert_eq!(data.items[1].tab_id, Some(b"elsewhere".to_vec()));
    assert!(get_tabs(&data).iter().all(|t| t.id != b"work".to_vec()));
}

#[test]
fn system_tabs_cannot_be_deleted_or_renamed() {
    let mut data = AppData::default();
    assert!(!delete_tab(&mut data, b"all"));
    assert!(!delete_tab(&mut data, b"links"));
    assert!(!rename_tab(&mut data, b"links", Some(b"Hyperlinks".to_vec()), None));
    assert!(!delete_tab(&mut data, b"no-such-tab"));
    assert_eq!(get_tabs(&data).len(), 3);
}

#[test]
fn renaming_an_ordinary_tab_changes_name_and_icon() {
    let mut data = AppData::default();
    assert!(rename_tab(&mut data, b"important", Some(b"Starred".to_vec()), Some(b"*".to_vec())));
    let tabs = get_tabs(&data);
    let t = tabs.iter().find(|t| t.id == b"important".to_vec()).unwrap();
    assert_eq!(t.name, b"Starred".to_vec());
    assert_eq!(t.icon, b"*".to_vec());
}

#[test]
fn pin_toggles_and_reports_the_new_state() {
    let mut data = AppData::default();
    data.items.push(text_item("a", "x", "1", false));
    assert_eq!(pin_item(&mut data, b"a"), Some(true));
    assert_eq!(pin_item(&mut data, b"a"), Some(false));
    assert_eq!(pin_item(&mut data, b"missing"), None);
}

#[test]
fn delete_one_and_many() {
    let mut data = AppData::default();
    data.items.push(text_item("a", "x", "1", false));
    data.items.push(text_item("b", "x", "2", false));
    data.items.push(text_item("c", "x", "3", false));
    delete_item(&mut data, b"b");
    assert_eq!(data.items.len(), 2);
    delete_multiple(&mut data, &vec![b"a".to_vec(), b"c".to_vec()]);
    assert_eq!(data.items.len(), 0);
}

#[test]
fn label_and_move_and_vault_flags() {
    let mut data = AppData::default();
    data.items.push(text_item("a", "x", "1", false));
    assert!(label_item(&mut data, b"a", b"note".to_vec()));
    assert!(move_to_tab(&mut data, b"a", b"important".to_vec()));
    assert!(set_vault_membership(&mut data, b"a", true));
    assert_eq!(data.items[0].label, b"note".to_vec());
    assert_eq!(data.items[0].tab_id, Some(b"important".to_vec()));
    assert!(data.items[0].in_vault);
    let vault = get_vault_items(&data);
    assert_eq!(vault.len(), 1);
    assert!(set_vault_membership(&mut data, b"a", false));
    assert_eq!(get_vault_items(&data).len(), 0);
    assert!(!label_item(&mut data, b"missing", Vec::new()));
}

#[test]
fn history_query_sorts_pinned_first_then_newest() {
    let mut data = AppData::default();
    data.items.push(text_item("old", "alpha", "2024-01-01T00:00:00Z", false));
    data.items.push(text_item("new", "beta", "2024-06-01T00:00:00Z", false));
    data.items.push(text_item("pin", "gamma", "2023-01-01T00:00:00Z", true));
    let r = get_history(&data, None, None, None);
    assert_eq!(r.total, 3);
    let ids: Vec<&[u8]> = r.items.iter().map(|i| i.id.as_slice()).collect();
    assert_eq!(ids, vec![b"pin".as_slice(), b"new".as_slice(), b"old".as_slice()]);
}

#[test]
fn history_query_filters_by_tab_and_searches_case_insensitively() {
    let mut data = AppData::default();
    let mut a = text_item("a", "Hello World", "1", false);
    a.tab_id = Some(b"work".to_vec());
    data.items.push(a);
    data.items.push(text_item("b", "quiet", "2", false));
    let tab = b"work".to_vec();
    let r = get_history(&data, None, Some(&tab), None);
    assert_eq!(r.total, 1);
    assert_eq!(r.items[0].id, b"a".to_vec());
    let needle = b"hELLo".to_vec();
    let r = get_history(&data, Some(&needle), None, None);
    assert_eq!(r.total, 1);
    assert_eq!(r.items[0].id, b"a".to_vec());
}

#[test]
fn links_tab_also_matches_entries_classified_as_links() {
    let mut data = AppData::default();
    let mut link = text_item("l", "https://example.com", "1", false);
    link.category = Category::Link;
    data.items.push(link);
    data.items.push(text_item("t", "plain", "2", false));
    let links = b"links".to_vec();
    let r = get_history(&data, None, Some(&links), None);
    assert_eq!(r.total, 1);
    assert_eq!(r.items[0].id, b"l".to_vec());
}

#[test]
fn history_query_caps_the_page_but_reports_the_total() {
    let mut data = AppData::default();
    for i in 0..10 {
        let id = format!("i{}", i);
        let ts = format!("2024-01-0{}T00:00:00Z", i);
        data.items.push(text_item(&id, "x", &ts, false));
    }
    let r = get_history(&data, None, None, Some(3));
    assert_eq!(r.total, 10);
    assert_eq!(r.items.len(), 3);
}

#[test]
fn stats_count_totals_and_pinned() {
    let mut data = AppData::default();
    data.items.push(text_item("a", "x", "1", true));
    data.items.push(text_item("b", "x", "2", false));
    let s = get_stats(&data, 4096);
    assert_eq!(s.total_items, 2);
    assert_eq!(s.pinned_items, 1);
    assert_eq!(s.storage_size, 4096);
}

#[test]
fn settings_patch_changes_only_named_fields() {
    let mut data = AppData::default();
    set_settings(
        &mut data,
        SettingsPatch {
            theme: Some(b"dark".to_vec()),
            max_history: Some(50),
            shortcut_toggle: None,
            paste_delimiter: Some(b" | ".to_vec()),
            poll_interval: Some(250),
        },
    );
    let s = get_settings(&data);
    assert_eq!(s.theme, b"dark".to_vec());
    assert_eq!(s.max_history, 50);
    assert_eq!(s.poll_interval, 250);
    assert_eq!(s.paste_delimiter, b" | ".to_vec());
    assert_eq!(s.shortcut_toggle, b"Ctrl+Shift+V".to_vec());
}

#[test]
fn vault_pin_round_trip_and_exact_hash() {
    let mut data = AppData::default();
    assert!(!has_vault_pin(&data));
    set_vault_pin(&mut data, b"1234");
    assert!(has_vault_pin(&data));
    // 64-bit FNV-1a of "1234" in lowercase hexadecimal.
    assert_eq!(data.settings.vault_pin_hash, b"1fabbdf10314a21d".to_vec());
    assert!(verify_vault_pin(&data, b"1234"));
    assert!(!verify_vault_pin(&data, b"4321"));
}

#[test]
fn number_renderings_are_exact() {
    assert_eq!(copas_core::num::u64_to_dec(0), b"0".to_vec());
    assert_eq!(copas_core::num::u64_to_dec(12345), b"12345".to_vec());
    assert_eq!(copas_core::num::i64_to_dec(-7), b"-7".to_vec());
    assert_eq!(copas_core::num::i64_to_dec(i64::MIN), b"-9223372036854775808".to_vec());
    assert_eq!(copas_core::num::u64_to_hex(255), b"ff".to_vec());
    assert_eq!(copas_core::num::u64_to_hex(0), b"0".to_vec());
}

#[test]
fn fresh_defaults_match_the_documented_values() {
    let data = AppData::default();
    assert_eq!(data.tabs.len(), 3);
    assert_eq!(data.tabs[0].id, b"all".to_vec());
    assert!(data.tabs[0].system);
    assert_eq!(data.tabs[1].id, b"links".to_vec());
    assert!(data.tabs[1].system);
    assert_eq!(data.tabs[2].id, b"important".to_vec());
    assert!(!data.tabs[2].system);
    assert!(data.items.is_empty());
    let s = &data.settings;
    assert_eq!(s.theme, b"light".to_vec());
    assert_eq!(s.max_history, 1000);
    assert_eq!(s.poll_interval, 500);
    assert_eq!(s.paste_delimiter, b"\\n".to_vec());
    assert!(s.show_notifications);
    assert!(!s.auto_start);
    assert!(s.vault_pin_hash.is_empty());
    assert!(!data.migrated_from_electron);
}

#[test]
fn history_query_keeps_stored_order_among_ties() {
    // Three unpinned entries with the same capture time: the sort is
    // stable, so they come back in stored order; a pinned tie pair too.
    let mut data = AppData::default();
    data.items.push(text_item("first", "x", "2024-01-01T00:00:00+00:00", false));
    data.items.push(text_item("second", "x", "2024-01-01T00:00:00+00:00", false));
    data.items.push(text_item("third", "x", "2024-01-01T00:00:00+00:00", false));
    data.items.push(text_item("pa", "x", "2024-01-01T00:00:00+00:00", true));
    data.items.push(text_item("pb", "x", "2024-01-01T00:00:00+00:00", true));
    let r = get_history(&data, None, None, None);
    let ids: Vec<&[u8]> = r.items.iter().map(|i| i.id.as_slice()).collect();
    assert_eq!(
        ids,
        vec![
            b"pa".as_slice(),
            b"pb".as_slice(),
            b"first".as_slice(),
            b"second".as_slice(),
            b"third".as_slice()
        ]
    );
}
