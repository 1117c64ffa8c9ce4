//! Persistence: byte-exact saving, loading, corruption recovery, and the
//! legacy import.
use copas_core::codec::{load_from_bytes, load_state, migrate_from_bytes, save_to_bytes, LoadOutcome};
use copas_core::models::{AppData, Category, Item, ItemKind, Settings, Tab};

fn sample_state() -> AppData {
    let mut data = AppData::default();
    data.tabs.push(Tab {
        id: b"work".to_vec(),
        name: b"Work \"stuff\"".to_vec(),
        icon: b"folder".to_vec(),
        system: false,
    });
    data.items.push(Item {
        id: b"17099999990000abcd12".to_vec(),
        kind: ItemKind::Text,
        content_text: Some(b"line one\nline\ttwo \\ \"quoted\"".to_vec()),
        image_path: None,
        mime: None,
        category: Category::Code,
        tab_id: Some(b"work".to_vec()),
        timestamp: b"2024-03-01T12:00:00+00:00".to_vec(),
        pinned: true,
        label: b"snippet".to_vec(),
        content: Some(b"line one\nline\ttwo \\ \"quoted\"".to_vec()),
        in_vault: false,
    });
    data.items.push(Item {
        id: b"17099999991111efgh34".to_vec(),
        kind: ItemKind::Image,
        content_text: None,
        image_path: Some(b"17099999991111efgh34.png".to_vec()),
        mime: Some(b"image/png".to_vec()),
        category: Category::Image,
        tab_id: None,
        timestamp: b"2024-03-02T08:30:00+00:00".to_vec(),
        pinned: false,
        label: Vec::new(),
        content: None,
        in_vault: true,
    });
    data.settings.theme = b"dark".to_vec();
    data.settings.max_history = 42;
    data.settings.poll_interval = 750;
    data.settings.vault_pin_hash = b"1fabbdf10314a21d".to_vec();
    data.migrated_from_electron = true;
    data
}

fn assert_same_item(a: &Item, b: &Item) {
    assert_eq!(a.id, b.id);
    assert_eq!(a.kind, b.kind);
    assert_eq!(a.content_text, b.content_text);
    assert_eq!(a.image_path, b.image_path);
    assert_eq!(a.mime, b.mime);
    assert_eq!(a.category, b.category);
    assert_eq!(a.tab_id, b.tab_id);
    assert_eq!(a.timestamp, b.timestamp);
    assert_eq!(a.pinned, b.pinned);
    assert_eq!(a.label, b.label);
    assert_eq!(a.content, b.content);
    assert_eq!(a.in_vault, b.in_vault);
}

fn assert_same_settings(a: &Settings, b: &Settings) {
    assert_eq!(a.theme, b.theme);
    assert_eq!(a.max_history, b.max_history);
    assert_eq!(a.shortcut_toggle, b.shortcut_toggle);
    assert_eq!(a.shortcut_paste, b.shortcut_paste);
    assert_eq!(a.poll_interval, b.poll_interval);
    assert_eq!(a.show_notifications, b.show_notifications);
    assert_eq!(a.auto_start, b.auto_start);
    assert_eq!(a.paste_delimiter, b.paste_delimiter);
    assert_eq!(a.vault_pin_hash, b.vault_pin_hash);
}

fn assert_same_state(a: &AppData, b: &AppData) {
    assert_eq!(a.tabs.len(), b.tabs.len());
    for (x, y) in a.tabs.iter().zip(b.tabs.iter()) {
        assert_eq!(x.id, y.id);
        assert_eq!(x.name, y.name);
        assert_eq!(x.icon, y.icon);
        assert_eq!(x.system, y.system);
    }
    assert_eq!(a.items.len(), b.items.len());
    for (x, y) in a.items.iter().zip(b.items.iter()) {
        assert_same_item(x, y);
    }
    assert_same_settings(&a.settings, &b.settings);
    assert_eq!(a.migrated_from_electron, b.migrated_from_electron);
}

#[test]
fn save_then_load_restores_the_state_exactly() {
    let data = sample_state();
    let bytes = save_to_bytes(&data);
    let back = load_from_bytes(&bytes).expect("saved state must load");
    assert_same_state(&data, &back);
}

#[test]
fn saved_text_is_a_json_object() {
    let bytes = save_to_bytes(&AppData::default());
    assert_eq!(bytes.first(), Some(&b'{'));
    assert_eq!(bytes.last(), Some(&b'}'));
    let text = String::from_utf8(bytes).expect("ascii state saves as utf-8");
    assert!(text.contains("\"tabs\""));
    assert!(text.contains("\"items\""));
    assert!(text.contains("\"settings\""));
}

#[test]
fn loading_tolerates_whitespace_and_key_order() {
    let text = br#"
    {
        "settings": { "maxHistory": 7, "theme": "dark" },
        "items": [],
        "tabs": [ { "system": true, "icon": "i", "name": "All", "id": "all" } ]
    }
    "#;
    let data = load_from_bytes(text).expect("reordered document must load");
    assert_eq!(data.settings.max_history, 7);
    assert_eq!(data.settings.theme, b"dark".to_vec());
    // Missing settings take their defaults.
    assert_eq!(data.settings.poll_interval, 500);
    assert_eq!(data.tabs.len(), 1);
    assert!(data.tabs[0].system);
    assert!(!data.migrated_from_electron);
}

#[test]
fn corrupted_text_does_not_load() {
    assert!(load_from_bytes(b"not json at all").is_none());
    assert!(load_from_bytes(b"{\"tabs\":[").is_none());
    assert!(load_from_bytes(b"{}").is_none());
    assert!(load_from_bytes(b"{\"tabs\":[],\"items\":[]}").is_none());
}

#[test]
fn corrupt_file_is_backed_up_and_defaults_start() {
    let corrupt = b"{{{ definitely broken".to_vec();
    let (data, outcome) = load_state(Some(&corrupt), None);
    assert_eq!(outcome, LoadOutcome::CorruptBackedUp);
    assert_same_state(&data, &AppData::default());
}

#[test]
fn existing_file_loads_and_fresh_start_uses_defaults() {
    let saved = save_to_bytes(&sample_state());
    let (data, outcome) = load_state(Some(&saved), None);
    assert_eq!(outcome, LoadOutcome::Loaded);
    assert_same_state(&data, &sample_state());

    let (data, outcome) = load_state(None, None);
    assert_eq!(outcome, LoadOutcome::Fresh);
    assert_same_state(&data, &AppData::default());
}

#[test]
fn legacy_records_migrate_with_content_field() {
    let legacy = br#"{
        "tabs": [],
        "items": [
            { "id": "e1", "content": "old text", "pinned": true, "timestamp": "2020-01-01" },
            { "id": "", "content": "dropped, no id" },
            { "id": "e2", "content": "more", "category": "link", "tabId": "links" }
        ],
        "settings": { "maxHistory": 9 }
    }"#;
    let (data, outcome) = load_state(None, Some(&legacy.to_vec()));
    assert_eq!(outcome, LoadOutcome::Migrated);
    assert!(data.migrated_from_electron);
    assert_eq!(data.items.len(), 2);
    assert_eq!(data.items[0].id, b"e1".to_vec());
    assert_eq!(data.items[0].content_text, Some(b"old text".to_vec()));
    assert_eq!(data.items[0].kind, ItemKind::Text);
    assert!(data.items[0].pinned);
    assert_eq!(data.items[1].category, Category::Link);
    assert_eq!(data.items[1].tab_id, Some(b"links".to_vec()));
    assert_eq!(data.settings.max_history, 9);
    // Unparseable tabs fall back to the defaults.
    assert_eq!(data.tabs.len(), 3);
}

#[test]
fn empty_legacy_import_is_not_worth_migrating() {
    // A document the strict read refuses (tabs is no array) falls to the
    // lenient read, which discards an import with no entries and no
    // tabs beyond the defaults.
    let empty = br#"{ "tabs": 5, "items": [ { "content": "no id" } ], "settings": {} }"#;
    assert!(migrate_from_bytes(empty).is_none());
    let (data, outcome) = load_state(None, Some(&empty.to_vec()));
    assert_eq!(outcome, LoadOutcome::Fresh);
    assert_same_state(&data, &AppData::default());
}

#[test]
fn strictly_shaped_legacy_file_is_normalized() {
    // A record in the current shape whose only text lives in the legacy
    // payload field becomes a text entry on import.
    let mut data = AppData::default();
    data.items.push(Item {
        id: b"old1".to_vec(),
        kind: ItemKind::Image,
        content_text: None,
        image_path: None,
        mime: None,
        category: Category::Text,
        tab_id: None,
        timestamp: b"2019".to_vec(),
        pinned: false,
        label: Vec::new(),
        content: Some(b"payload".to_vec()),
        in_vault: false,
    });
    let bytes = save_to_bytes(&data);
    let back = migrate_from_bytes(&bytes).expect("a current-shape file migrates");
    assert_eq!(back.items[0].content_text, Some(b"payload".to_vec()));
    assert_eq!(back.items[0].kind, ItemKind::Text);
}

#[test]
fn string_escapes_survive_the_round_trip() {
    let mut data = AppData::default();
    let wild: Vec<u8> = (0u8..=255).collect();
    data.items.push(Item {
        id: b"w".to_vec(),
        kind: ItemKind::Text,
        content_text: Some(wild.clone()),
        image_path: None,
        mime: None,
        category: Category::Text,
        tab_id: None,
        timestamp: b"t".to_vec(),
        pinned: false,
        label: b"\x01\x02\x03".to_vec(),
        content: None,
        in_vault: false,
    });
    let bytes = save_to_bytes(&data);
    let back = load_from_bytes(&bytes).expect("wild bytes still load");
    assert_eq!(back.items[0].content_text, Some(wild));
    assert_eq!(back.items[0].label, b"\x01\x02\x03".to_vec());
}

#[test]
fn foreign_number_tokens_are_tolerated() {
    // Floats, negatives and exponents in a foreign document are consumed
    // as null: a legacy import survives them, and a strict read treats a
    // wrongly typed setting as an error rather than misreading it.
    let legacy = br#"{
        "tabs": [],
        "items": [ { "id": "e1", "content": "kept", "weight": 0.75, "offset": -3, "big": 2e9 } ],
        "settings": { "maxHistory": 1.5 }
    }"#;
    let data = migrate_from_bytes(legacy).expect("numbers must not break the import");
    assert_eq!(data.items.len(), 1);
    assert_eq!(data.items[0].content_text, Some(b"kept".to_vec()));
    // The fractional capacity cannot be read; the default stands.
    assert_eq!(data.settings.max_history, 1000);
    // An integer too large for 64 bits is consumed as null too.
    assert!(load_from_bytes(br#"{"x": 99999999999999999999999999}"#).is_none());
    // Malformed number tails are still parse errors.
    assert!(load_from_bytes(br#"{"x": 1.}"#).is_none());
    assert!(load_from_bytes(br#"{"x": 2e}"#).is_none());
}
