//! The persisted document: how the application state is laid out as a
//! JSON document, byte-exact saving, tolerant loading, startup decisions
//! around missing or corrupt files, and the legacy import.
use vstd::prelude::*;

use crate::defaults::{spec_default_app_data, spec_default_settings};
use crate::json::{
    enc_doc, sp_document, views_of_entries, views_of_fields, views_of_objs, JEntry, JEntryModel,
    JField, JFieldModel, JScalar, JScalarModel, JValue, JValueModel,
};
use crate::models::{
    bytes_eq, bytes_lit, copy_bytes, copy_opt_bytes, opt_view, views_of_items, views_of_tabs,
    AppData, AppDataModel, Category, Item, ItemKind, ItemModel, Settings, SettingsModel, Tab,
    TabModel,
};
use crate::query::category_name;

verus! {

/// The key `tabs`.
pub open spec fn k_tabs() -> Seq<u8> {
    seq![116u8, 97u8, 98u8, 115u8]
}

/// The key `items`.
pub open spec fn k_items() -> Seq<u8> {
    seq![105u8, 116u8, 101u8, 109u8, 115u8]
}

/// The key `settings`.
pub open spec fn k_settings() -> Seq<u8> {
    seq![115u8, 101u8, 116u8, 116u8, 105u8, 110u8, 103u8, 115u8]
}

/// The key `migratedFromElectron`.
pub open spec fn k_migrated() -> Seq<u8> {
    seq![109u8, 105u8, 103u8, 114u8, 97u8, 116u8, 101u8, 100u8, 70u8, 114u8, 111u8, 109u8, 69u8,
        108u8, 101u8, 99u8, 116u8, 114u8, 111u8, 110u8]
}

/// The key `id`.
pub open spec fn k_id() -> Seq<u8> {
    seq![105u8, 100u8]
}

/// The key `name`.
pub open spec fn k_name() -> Seq<u8> {
    seq![110u8, 97u8, 109u8, 101u8]
}

/// The key `icon`.
pub open spec fn k_icon() -> Seq<u8> {
    seq![105u8, 99u8, 111u8, 110u8]
}

/// The key `system`.
pub open spec fn k_system() -> Seq<u8> {
    seq![115u8, 121u8, 115u8, 116u8, 101u8, 109u8]
}

/// The key `kind`.
pub open spec fn k_kind() -> Seq<u8> {
    seq![107u8, 105u8, 110u8, 100u8]
}

/// The key `contentText`.
pub open spec fn k_content_text() -> Seq<u8> {
    seq![99u8, 111u8, 110u8, 116u8, 101u8, 110u8, 116u8, 84u8, 101u8, 120u8, 116u8]
}

/// The key `imagePath`.
pub open spec fn k_image_path() -> Seq<u8> {
    seq![105u8, 109u8, 97u8, 103u8, 101u8, 80u8, 97u8, 116u8, 104u8]
}

/// The key `mime`.
pub open spec fn k_mime() -> Seq<u8> {
    seq![109u8, 105u8, 109u8, 101u8]
}

/// The key `category`.
pub open spec fn k_category() -> Seq<u8> {
    seq![99u8, 97u8, 116u8, 101u8, 103u8, 111u8, 114u8, 121u8]
}

/// The key `tabId`.
pub open spec fn k_tab_id() -> Seq<u8> {
    seq![116u8, 97u8, 98u8, 73u8, 100u8]
}

/// The key `timestamp`.
pub open spec fn k_timestamp() -> Seq<u8> {
    seq![116u8, 105u8, 109u8, 101u8, 115u8, 116u8, 97u8, 109u8, 112u8]
}

/// The key `pinned`.
pub open spec fn k_pinned() -> Seq<u8> {
    seq![112u8, 105u8, 110u8, 110u8, 101u8, 100u8]
}

/// The key `label`.
pub open spec fn k_label() -> Seq<u8> {
    seq![108u8, 97u8, 98u8, 101u8, 108u8]
}

/// The key `content`, the legacy text payload.
pub open spec fn k_content() -> Seq<u8> {
    seq![99u8, 111u8, 110u8, 116u8, 101u8, 110u8, 116u8]
}

/// The key `inVault`.
pub open spec fn k_in_vault() -> Seq<u8> {
    seq![105u8, 110u8, 86u8, 97u8, 117u8, 108u8, 116u8]
}

/// The key `theme`.
pub open spec fn k_theme() -> Seq<u8> {
    seq![116u8, 104u8, 101u8, 109u8, 101u8]
}

/// The key `maxHistory`.
pub open spec fn k_max_history() -> Seq<u8> {
    seq![109u8, 97u8, 120u8, 72u8, 105u8, 115u8, 116u8, 111u8, 114u8, 121u8]
}

/// The key `shortcutToggle`.
pub open spec fn k_shortcut_toggle() -> Seq<u8> {
    seq![115u8, 104u8, 111u8, 114u8, 116u8, 99u8, 117u8, 116u8, 84u8, 111u8, 103u8, 103u8, 108u8,
        101u8]
}

/// The key `shortcutPaste`.
pub open spec fn k_shortcut_paste() -> Seq<u8> {
    seq![115u8, 104u8, 111u8, 114u8, 116u8, 99u8, 117u8, 116u8, 80u8, 97u8, 115u8, 116u8, 101u8]
}

/// The key `pollInterval`.
pub open spec fn k_poll_interval() -> Seq<u8> {
    seq![112u8, 111u8, 108u8, 108u8, 73u8, 110u8, 116u8, 101u8, 114u8, 118u8, 97u8, 108u8]
}

/// The key `showNotifications`.
pub open spec fn k_show_notifications() -> Seq<u8> {
    seq![115u8, 104u8, 111u8, 119u8, 78u8, 111u8, 116u8, 105u8, 102u8, 105u8, 99u8, 97u8, 116u8,
        105u8, 111u8, 110u8, 115u8]
}

/// The key `autoStart`.
pub open spec fn k_auto_start() -> Seq<u8> {
    seq![97u8, 117u8, 116u8, 111u8, 83u8, 116u8, 97u8, 114u8, 116u8]
}

/// The key `pasteDelimiter`.
pub open spec fn k_paste_delimiter() -> Seq<u8> {
    seq![112u8, 97u8, 115u8, 116u8, 101u8, 68u8, 101u8, 108u8, 105u8, 109u8, 105u8, 116u8, 101u8,
        114u8]
}

/// The key `vaultPinHash`.
pub open spec fn k_vault_pin_hash() -> Seq<u8> {
    seq![118u8, 97u8, 117u8, 108u8, 116u8, 80u8, 105u8, 110u8, 72u8, 97u8, 115u8, 104u8]
}

/// The kind name `text`.
pub open spec fn lit_kind_text() -> Seq<u8> {
    seq![116u8, 101u8, 120u8, 116u8]
}

/// The kind name `image`.
pub open spec fn lit_kind_image() -> Seq<u8> {
    seq![105u8, 109u8, 97u8, 103u8, 101u8]
}

/// The persisted name of an entry kind.
pub open spec fn kind_name(k: ItemKind) -> Seq<u8> {
    match k {
        ItemKind::Text => lit_kind_text(),
        ItemKind::Image => lit_kind_image(),
    }
}

/// A string scalar, or null for a missing value.
pub open spec fn s_opt(o: Option<Seq<u8>>) -> JScalarModel {
    match o {
        Option::Some(s) => JScalarModel::Str(s),
        Option::None => JScalarModel::Null,
    }
}

/// One document field of a flat object.
pub open spec fn ent(k: Seq<u8>, v: JScalarModel) -> JEntryModel {
    JEntryModel { key: k, value: v }
}

/// The document object of a tab.
pub open spec fn tab_obj(t: TabModel) -> Seq<JEntryModel> {
    seq![
        ent(k_id(), JScalarModel::Str(t.id)),
        ent(k_name(), JScalarModel::Str(t.name)),
        ent(k_icon(), JScalarModel::Str(t.icon)),
        ent(k_system(), JScalarModel::Bool(t.system)),
    ]
}

/// The document object of a history entry. Absent optional payloads are
/// written as null.
pub open spec fn item_obj(it: ItemModel) -> Seq<JEntryModel> {
    seq![
        ent(k_id(), JScalarModel::Str(it.id)),
        ent(k_kind(), JScalarModel::Str(kind_name(it.kind))),
        ent(k_content_text(), s_opt(it.content_text)),
        ent(k_image_path(), s_opt(it.image_path)),
        ent(k_mime(), s_opt(it.mime)),
        ent(k_category(), JScalarModel::Str(category_name(it.category))),
        ent(k_tab_id(), s_opt(it.tab_id)),
        ent(k_timestamp(), JScalarModel::Str(it.timestamp)),
        ent(k_pinned(), JScalarModel::Bool(it.pinned)),
        ent(k_label(), JScalarModel::Str(it.label)),
        ent(k_content(), s_opt(it.content)),
        ent(k_in_vault(), JScalarModel::Bool(it.in_vault)),
    ]
}

/// The document object of the settings.
pub open spec fn settings_obj(s: SettingsModel) -> Seq<JEntryModel> {
    seq![
        ent(k_theme(), JScalarModel::Str(s.theme)),
        ent(k_max_history(), JScalarModel::Int(s.max_history as u64)),
        ent(k_shortcut_toggle(), JScalarModel::Str(s.shortcut_toggle)),
        ent(k_shortcut_paste(), JScalarModel::Str(s.shortcut_paste)),
        ent(k_poll_interval(), JScalarModel::Int(s.poll_interval)),
        ent(k_show_notifications(), JScalarModel::Bool(s.show_notifications)),
        ent(k_auto_start(), JScalarModel::Bool(s.auto_start)),
        ent(k_paste_delimiter(), JScalarModel::Str(s.paste_delimiter)),
        ent(k_vault_pin_hash(), JScalarModel::Str(s.vault_pin_hash)),
    ]
}

/// The whole state as a document.
pub open spec fn doc_of(d: AppDataModel) -> Seq<JFieldModel> {
    seq![
        JFieldModel {
            key: k_tabs(),
            value: JValueModel::Arr(Seq::new(d.tabs.len(), |i: int| tab_obj(d.tabs[i]))),
        },
        JFieldModel {
            key: k_items(),
            value: JValueModel::Arr(Seq::new(d.items.len(), |i: int| item_obj(d.items[i]))),
        },
        JFieldModel { key: k_settings(), value: JValueModel::Obj(settings_obj(d.settings)) },
        JFieldModel {
            key: k_migrated(),
            value: JValueModel::Scalar(JScalarModel::Bool(d.migrated_from_electron)),
        },
    ]
}

/// A string scalar, or null for a missing value.
fn opt_scalar(o: &Option<Vec<u8>>) -> (r: JScalar)
    ensures
        r@ == s_opt(opt_view(*o)),
{
    match o {
        Option::Some(s) => JScalar::Str(copy_bytes(s)),
        Option::None => JScalar::Null,
    }
}

/// Build the document object of a tab.
fn tab_to_obj(t: &Tab) -> (r: Vec<JEntry>)
    ensures
        views_of_entries(r@) == tab_obj(t@),
{
    let mut v: Vec<JEntry> = Vec::new();
    v.push(JEntry { key: bytes_lit([105u8, 100u8]), value: JScalar::Str(copy_bytes(&t.id)) });
    v.push(
        JEntry {
            key: bytes_lit([110u8, 97u8, 109u8, 101u8]),
            value: JScalar::Str(copy_bytes(&t.name)),
        },
    );
    v.push(
        JEntry {
            key: bytes_lit([105u8, 99u8, 111u8, 110u8]),
            value: JScalar::Str(copy_bytes(&t.icon)),
        },
    );
    v.push(
        JEntry {
            key: bytes_lit([115u8, 121u8, 115u8, 116u8, 101u8, 109u8]),
            value: JScalar::Bool(t.system),
        },
    );
    proof {
        assert(views_of_entries(v@) =~= tab_obj(t@));
    }
    v
}

/// Build the document object of a history entry.
fn item_to_obj(it: &Item) -> (r: Vec<JEntry>)
    ensures
        views_of_entries(r@) == item_obj(it@),
{
    let mut v: Vec<JEntry> = Vec::new();
    v.push(JEntry { key: bytes_lit([105u8, 100u8]), value: JScalar::Str(copy_bytes(&it.id)) });
    let kind_bytes = match it.kind {
        ItemKind::Text => bytes_lit([116u8, 101u8, 120u8, 116u8]),
        ItemKind::Image => bytes_lit([105u8, 109u8, 97u8, 103u8, 101u8]),
    };
    v.push(
        JEntry { key: bytes_lit([107u8, 105u8, 110u8, 100u8]), value: JScalar::Str(kind_bytes) },
    );
    v.push(
        JEntry {
            key: bytes_lit(
                [99u8, 111u8, 110u8, 116u8, 101u8, 110u8, 116u8, 84u8, 101u8, 120u8, 116u8],
            ),
            value: opt_scalar(&it.content_text),
        },
    );
    v.push(
        JEntry {
            key: bytes_lit([105u8, 109u8, 97u8, 103u8, 101u8, 80u8, 97u8, 116u8, 104u8]),
            value: opt_scalar(&it.image_path),
        },
    );
    v.push(
        JEntry {
            key: bytes_lit([109u8, 105u8, 109u8, 101u8]),
            value: opt_scalar(&it.mime),
        },
    );
    v.push(
        JEntry {
            key: bytes_lit([99u8, 97u8, 116u8, 101u8, 103u8, 111u8, 114u8, 121u8]),
            value: JScalar::Str(crate::query::category_name_bytes(it.category)),
        },
    );
    v.push(
        JEntry {
            key: bytes_lit([116u8, 97u8, 98u8, 73u8, 100u8]),
            value: opt_scalar(&it.tab_id),
        },
    );
    v.push(
        JEntry {
            key: bytes_lit([116u8, 105u8, 109u8, 101u8, 115u8, 116u8, 97u8, 109u8, 112u8]),
            value: JScalar::Str(copy_bytes(&it.timestamp)),
        },
    );
    v.push(
        JEntry {
            key: bytes_lit([112u8, 105u8, 110u8, 110u8, 101u8, 100u8]),
            value: JScalar::Bool(it.pinned),
        },
    );
    v.push(
        JEntry {
            key: bytes_lit([108u8, 97u8, 98u8, 101u8, 108u8]),
            value: JScalar::Str(copy_bytes(&it.label)),
        },
    );
    v.push(
        JEntry {
            key: bytes_lit([99u8, 111u8, 110u8, 116u8, 101u8, 110u8, 116u8]),
            value: opt_scalar(&it.content),
        },
    );
    v.push(
        JEntry {
            key: bytes_lit([105u8, 110u8, 86u8, 97u8, 117u8, 108u8, 116u8]),
            value: JScalar::Bool(it.in_vault),
        },
    );
    proof {
        assert(views_of_entries(v@) =~= item_obj(it@));
    }
    v
}

/// Build the document object of the settings.
fn settings_to_obj(s: &Settings) -> (r: Vec<JEntry>)
    ensures
        views_of_entries(r@) == settings_obj(s@),
{
    let mut v: Vec<JEntry> = Vec::new();
    v.push(
        JEntry {
            key: bytes_lit([116u8, 104u8, 101u8, 109u8, 101u8]),
            value: JScalar::Str(copy_bytes(&s.theme)),
        },
    );
    v.push(
        JEntry {
            key: bytes_lit([109u8, 97u8, 120u8, 72u8, 105u8, 115u8, 116u8, 111u8, 114u8, 121u8]),
            value: JScalar::Int(s.max_history as u64),
        },
    );
    v.push(
        JEntry {
            key: bytes_lit(
                [115u8, 104u8, 111u8, 114u8, 116u8, 99u8, 117u8, 116u8, 84u8, 111u8, 103u8, 103u8,
                    108u8, 101u8],
            ),
            value: JScalar::Str(copy_bytes(&s.shortcut_toggle)),
        },
    );
    v.push(
        JEntry {
            key: bytes_lit(
                [115u8, 104u8, 111u8, 114u8, 116u8, 99u8, 117u8, 116u8, 80u8, 97u8, 115u8, 116u8,
                    101u8],
            ),
            value: JScalar::Str(copy_bytes(&s.shortcut_paste)),
        },
    );
    v.push(
        JEntry {
            key: bytes_lit(
                [112u8, 111u8, 108u8, 108u8, 73u8, 110u8, 116u8, 101u8, 114u8, 118u8, 97u8, 108u8],
            ),
            value: JScalar::Int(s.poll_interval),
        },
    );
    v.push(
        JEntry {
            key: bytes_lit(
                [115u8, 104u8, 111u8, 119u8, 78u8, 111u8, 116u8, 105u8, 102u8, 105u8, 99u8, 97u8,
                    116u8, 105u8, 111u8, 110u8, 115u8],
            ),
            value: JScalar::Bool(s.show_notifications),
        },
    );
    v.push(
        JEntry {
            key: bytes_lit([97u8, 117u8, 116u8, 111u8, 83u8, 116u8, 97u8, 114u8, 116u8]),
            value: JScalar::Bool(s.auto_start),
        },
    );
    v.push(
        JEntry {
            key: bytes_lit(
                [112u8, 97u8, 115u8, 116u8, 101u8, 68u8, 101u8, 108u8, 105u8, 109u8, 105u8, 116u8,
                    101u8, 114u8],
            ),
            value: JScalar::Str(copy_bytes(&s.paste_delimiter)),
        },
    );
    v.push(
        JEntry {
            key: bytes_lit(
                [118u8, 97u8, 117u8, 108u8, 116u8, 80u8, 105u8, 110u8, 72u8, 97u8, 115u8, 104u8],
            ),
            value: JScalar::Str(copy_bytes(&s.vault_pin_hash)),
        },
    );
    proof {
        assert(views_of_entries(v@) =~= settings_obj(s@));
    }
    v
}

proof fn lemma_objs_push(v: Seq<Vec<JEntry>>, x: Vec<JEntry>)
    ensures
        views_of_objs(v.push(x)) =~= views_of_objs(v).push(views_of_entries(x@)),
{
}

/// Build the whole state as a document.
fn build_doc(data: &AppData) -> (r: Vec<JField>)
    ensures
        views_of_fields(r@) == doc_of(data@),
{
    let mut tab_objs: Vec<Vec<JEntry>> = Vec::new();
    let tn = data.tabs.len();
    let mut i: usize = 0;
    proof {
        assert(views_of_objs(tab_objs@) =~= Seq::new(0 as nat, |k: int| tab_obj(data@.tabs[k])));
    }
    while i < tn
        invariant
            0 <= i <= tn == data.tabs@.len(),
            views_of_objs(tab_objs@) == Seq::new(i as nat, |k: int| tab_obj(data@.tabs[k])),
        decreases tn - i,
    {
        let o = tab_to_obj(&data.tabs[i]);
        let ghost prev = views_of_objs(tab_objs@);
        let ghost om = views_of_entries(o@);
        proof {
            lemma_objs_push(tab_objs@, o);
        }
        tab_objs.push(o);
        proof {
            assert(om == tab_obj(data@.tabs[i as int]));
            assert(views_of_objs(tab_objs@) == prev.push(om));
            assert(views_of_objs(tab_objs@) =~= Seq::new((i + 1) as nat, |k: int| tab_obj(
                data@.tabs[k],
            )));
        }
        i = i + 1;
    }
    let mut item_objs: Vec<Vec<JEntry>> = Vec::new();
    let itn = data.items.len();
    let mut j: usize = 0;
    proof {
        assert(views_of_objs(item_objs@) =~= Seq::new(0 as nat, |k: int| item_obj(data@.items[k])));
    }
    while j < itn
        invariant
            0 <= j <= itn == data.items@.len(),
            views_of_objs(item_objs@) == Seq::new(j as nat, |k: int| item_obj(data@.items[k])),
        decreases itn - j,
    {
        let o = item_to_obj(&data.items[j]);
        let ghost prev = views_of_objs(item_objs@);
        let ghost om = views_of_entries(o@);
        proof {
            lemma_objs_push(item_objs@, o);
        }
        item_objs.push(o);
        proof {
            assert(om == item_obj(data@.items[j as int]));
            assert(views_of_objs(item_objs@) == prev.push(om));
            assert(views_of_objs(item_objs@) =~= Seq::new(
                (j + 1) as nat,
                |k: int| item_obj(data@.items[k]),
            ));
        }
        j = j + 1;
    }
    let settings = settings_to_obj(&data.settings);
    let mut fields: Vec<JField> = Vec::new();
    fields.push(
        JField { key: bytes_lit([116u8, 97u8, 98u8, 115u8]), value: JValue::Arr(tab_objs) },
    );
    fields.push(
        JField {
            key: bytes_lit([105u8, 116u8, 101u8, 109u8, 115u8]),
            value: JValue::Arr(item_objs),
        },
    );
    fields.push(
        JField {
            key: bytes_lit([115u8, 101u8, 116u8, 116u8, 105u8, 110u8, 103u8, 115u8]),
            value: JValue::Obj(settings),
        },
    );
    fields.push(
        JField {
            key: bytes_lit(
                [109u8, 105u8, 103u8, 114u8, 97u8, 116u8, 101u8, 100u8, 70u8, 114u8, 111u8, 109u8,
                    69u8, 108u8, 101u8, 99u8, 116u8, 114u8, 111u8, 110u8],
            ),
            value: JValue::Scalar(JScalar::Bool(data.migrated_from_electron)),
        },
    );
    proof {
        assert(views_of_fields(fields@) =~= doc_of(data@));
    }
    fields
}

/// Serialize the whole state to its canonical document text.
pub fn save_to_bytes(data: &AppData) -> (r: Vec<u8>)
    ensures
        r@ == enc_doc(doc_of(data@)),
{
    let doc = build_doc(data);
    crate::json::print_document(&doc)
}

// ---------------------------------------------------------------------
// Extraction: a parsed document back to the state
// ---------------------------------------------------------------------
/// The value of the first field at or after position `i` with the given
/// key in a flat object.
pub open spec fn find_entry_at(es: Seq<JEntryModel>, key: Seq<u8>, i: int) -> Option<JScalarModel>
    decreases es.len() - i,
{
    if i < 0 || i >= es.len() {
        Option::None
    } else if es[i].key == key {
        Option::Some(es[i].value)
    } else {
        find_entry_at(es, key, i + 1)
    }
}

/// The value of the first field with the given key in a flat object.
pub open spec fn find_entry(es: Seq<JEntryModel>, key: Seq<u8>) -> Option<JScalarModel> {
    find_entry_at(es, key, 0)
}

/// The value of the first top-level field at or after position `i` with
/// the given key.
pub open spec fn find_field_at(fs: Seq<JFieldModel>, key: Seq<u8>, i: int) -> Option<JValueModel>
    decreases fs.len() - i,
{
    if i < 0 || i >= fs.len() {
        Option::None
    } else if fs[i].key == key {
        Option::Some(fs[i].value)
    } else {
        find_field_at(fs, key, i + 1)
    }
}

/// The value of the first top-level field with the given key.
pub open spec fn find_field(fs: Seq<JFieldModel>, key: Seq<u8>) -> Option<JValueModel> {
    find_field_at(fs, key, 0)
}

/// A required string field.
pub open spec fn ex_req_str(es: Seq<JEntryModel>, key: Seq<u8>) -> Option<Seq<u8>> {
    match find_entry(es, key) {
        Option::Some(JScalarModel::Str(s)) => Option::Some(s),
        _ => Option::None,
    }
}

/// An optional string field: missing and null both mean absent; any other
/// kind of value is an error.
pub open spec fn ex_opt_str(es: Seq<JEntryModel>, key: Seq<u8>) -> Option<Option<Seq<u8>>> {
    match find_entry(es, key) {
        Option::None => Option::Some(Option::None),
        Option::Some(JScalarModel::Null) => Option::Some(Option::None),
        Option::Some(JScalarModel::Str(s)) => Option::Some(Option::Some(s)),
        _ => Option::None,
    }
}

/// A required boolean field.
pub open spec fn ex_req_bool(es: Seq<JEntryModel>, key: Seq<u8>) -> Option<bool> {
    match find_entry(es, key) {
        Option::Some(JScalarModel::Bool(b)) => Option::Some(b),
        _ => Option::None,
    }
}

/// A boolean field with a default for a missing value.
pub open spec fn ex_bool_or(es: Seq<JEntryModel>, key: Seq<u8>, d: bool) -> Option<bool> {
    match find_entry(es, key) {
        Option::None => Option::Some(d),
        Option::Some(JScalarModel::Bool(b)) => Option::Some(b),
        _ => Option::None,
    }
}

/// A string field with a default for a missing value.
pub open spec fn ex_str_or(es: Seq<JEntryModel>, key: Seq<u8>, d: Seq<u8>) -> Option<Seq<u8>> {
    match find_entry(es, key) {
        Option::None => Option::Some(d),
        Option::Some(JScalarModel::Str(s)) => Option::Some(s),
        _ => Option::None,
    }
}

/// An integer field with a default for a missing value.
pub open spec fn ex_int_or(es: Seq<JEntryModel>, key: Seq<u8>, d: u64) -> Option<u64> {
    match find_entry(es, key) {
        Option::None => Option::Some(d),
        Option::Some(JScalarModel::Int(n)) => Option::Some(n),
        _ => Option::None,
    }
}

/// The entry kind named by a string.
pub open spec fn kind_of_name(s: Seq<u8>) -> Option<ItemKind> {
    if s == lit_kind_text() {
        Option::Some(ItemKind::Text)
    } else if s == lit_kind_image() {
        Option::Some(ItemKind::Image)
    } else {
        Option::None
    }
}

/// The category named by a string.
pub open spec fn category_of_name(s: Seq<u8>) -> Option<Category> {
    if s == category_name(Category::Text) {
        Option::Some(Category::Text)
    } else if s == category_name(Category::Link) {
        Option::Some(Category::Link)
    } else if s == category_name(Category::Email) {
        Option::Some(Category::Email)
    } else if s == category_name(Category::Phone) {
        Option::Some(Category::Phone)
    } else if s == category_name(Category::Code) {
        Option::Some(Category::Code)
    } else if s == category_name(Category::Image) {
        Option::Some(Category::Image)
    } else {
        Option::None
    }
}

/// A tab read from its document object.
pub open spec fn tab_of_obj(es: Seq<JEntryModel>) -> Option<TabModel> {
    match (ex_req_str(es, k_id()), ex_req_str(es, k_name()), ex_req_str(es, k_icon()), ex_req_bool(
        es,
        k_system(),
    )) {
        (
            Option::Some(id),
            Option::Some(name),
            Option::Some(icon),
            Option::Some(system),
        ) => Option::Some(TabModel { id, name, icon, system }),
        _ => Option::None,
    }
}

/// A history entry read from its document object.
pub open spec fn item_of_obj(es: Seq<JEntryModel>) -> Option<ItemModel> {
    match (ex_req_str(es, k_id()), ex_req_str(es, k_kind()), ex_req_str(es, k_category()),
    ex_req_str(es, k_timestamp()), ex_req_bool(es, k_pinned()), ex_bool_or(
        es,
        k_in_vault(),
        false,
    )) {
        (
            Option::Some(id),
            Option::Some(kn),
            Option::Some(cat),
            Option::Some(ts),
            Option::Some(pinned),
            Option::Some(in_vault),
        ) => {
            match (kind_of_name(kn), category_of_name(cat), ex_opt_str(es, k_content_text()),
            ex_opt_str(es, k_image_path()), ex_opt_str(es, k_mime()), ex_opt_str(es, k_tab_id())) {
                (
                    Option::Some(kind),
                    Option::Some(category),
                    Option::Some(content_text),
                    Option::Some(image_path),
                    Option::Some(mime),
                    Option::Some(tab_id),
                ) => {
                    match (ex_str_or(es, k_label(), Seq::empty()), ex_opt_str(es, k_content())) {
                        (Option::Some(label), Option::Some(content)) => Option::Some(
                            ItemModel {
                                id,
                                kind,
                                content_text,
                                image_path,
                                mime,
                                category,
                                tab_id,
                                timestamp: ts,
                                pinned,
                                label,
                                content,
                                in_vault,
                            },
                        ),
                        _ => Option::None,
                    }
                },
                _ => Option::None,
            }
        },
        _ => Option::None,
    }
}

/// The settings read from their document object; missing fields take
/// their defaults.
pub open spec fn settings_of_obj(es: Seq<JEntryModel>) -> Option<SettingsModel> {
    match (ex_str_or(es, k_theme(), crate::defaults::lit_theme_light()), ex_int_or(
        es,
        k_max_history(),
        1000,
    ), ex_str_or(es, k_shortcut_toggle(), crate::defaults::lit_shortcut_toggle()), ex_str_or(
        es,
        k_shortcut_paste(),
        crate::defaults::lit_shortcut_paste(),
    ), ex_int_or(es, k_poll_interval(), 500), ex_bool_or(es, k_show_notifications(), true)) {
        (
            Option::Some(theme),
            Option::Some(max_history),
            Option::Some(shortcut_toggle),
            Option::Some(shortcut_paste),
            Option::Some(poll_interval),
            Option::Some(show_notifications),
        ) => {
            match (ex_bool_or(es, k_auto_start(), false), ex_str_or(
                es,
                k_paste_delimiter(),
                crate::defaults::lit_delim_newline(),
            ), ex_str_or(es, k_vault_pin_hash(), Seq::empty())) {
                (
                    Option::Some(auto_start),
                    Option::Some(paste_delimiter),
                    Option::Some(vault_pin_hash),
                ) => if max_history <= usize::MAX {
                    Option::Some(
                        SettingsModel {
                            theme,
                            max_history: max_history as usize,
                            shortcut_toggle,
                            shortcut_paste,
                            poll_interval,
                            show_notifications,
                            auto_start,
                            paste_delimiter,
                            vault_pin_hash,
                        },
                    )
                } else {
                    Option::None
                },
                _ => Option::None,
            }
        },
        _ => Option::None,
    }
}

/// All tabs of a document array; one bad element fails the whole read.
pub open spec fn tabs_of_arr(os: Seq<Seq<JEntryModel>>) -> Option<Seq<TabModel>>
    decreases os.len(),
{
    if os.len() == 0 {
        Option::Some(Seq::empty())
    } else {
        match (tab_of_obj(os[0]), tabs_of_arr(os.drop_first())) {
            (Option::Some(t), Option::Some(rest)) => Option::Some(seq![t] + rest),
            _ => Option::None,
        }
    }
}

/// All history entries of a document array; one bad element fails the
/// whole read.
pub open spec fn items_of_arr(os: Seq<Seq<JEntryModel>>) -> Option<Seq<ItemModel>>
    decreases os.len(),
{
    if os.len() == 0 {
        Option::Some(Seq::empty())
    } else {
        match (item_of_obj(os[0]), items_of_arr(os.drop_first())) {
            (Option::Some(t), Option::Some(rest)) => Option::Some(seq![t] + rest),
            _ => Option::None,
        }
    }
}

/// The whole state read from a document: tabs, items and settings are
/// required, the migration flag defaults to false.
pub open spec fn appdata_of_doc(fs: Seq<JFieldModel>) -> Option<AppDataModel> {
    match (find_field(fs, k_tabs()), find_field(fs, k_items()), find_field(fs, k_settings())) {
        (
            Option::Some(JValueModel::Arr(tos)),
            Option::Some(JValueModel::Arr(ios)),
            Option::Some(JValueModel::Obj(ses)),
        ) => {
            match (tabs_of_arr(tos), items_of_arr(ios), settings_of_obj(ses)) {
                (Option::Some(tabs), Option::Some(items), Option::Some(settings)) => {
                    match find_field(fs, k_migrated()) {
                        Option::None => Option::Some(
                            AppDataModel { tabs, items, settings, migrated_from_electron: false },
                        ),
                        Option::Some(JValueModel::Scalar(JScalarModel::Bool(m))) => Option::Some(
                            AppDataModel { tabs, items, settings, migrated_from_electron: m },
                        ),
                        _ => Option::None,
                    }
                },
                _ => Option::None,
            }
        },
        _ => Option::None,
    }
}

/// What loading a persisted file yields: the parsed document read back as
/// a state, or nothing for text that does not parse or does not fit.
pub open spec fn load_spec(bytes: Seq<u8>) -> Option<AppDataModel> {
    match sp_document(bytes) {
        Option::Some(fs) => appdata_of_doc(fs),
        Option::None => Option::None,
    }
}

proof fn lemma_tab_roundtrip(t: TabModel)
    ensures
        tab_of_obj(tab_obj(t)) == Option::Some(t),
{
    reveal_with_fuel(find_entry_at, 6);
}

#[verifier::rlimit(100)]
proof fn lemma_item_roundtrip(it: ItemModel)
    ensures
        item_of_obj(item_obj(it)) == Option::Some(it),
{
    reveal_with_fuel(find_entry_at, 14);
    let es = item_obj(it);
    assert(ex_req_str(es, k_id()) == Option::Some(it.id));
    assert(ex_req_str(es, k_kind()) == Option::Some(kind_name(it.kind)));
    assert(ex_req_str(es, k_category()) == Option::Some(category_name(it.category)));
    assert(ex_req_str(es, k_timestamp()) == Option::Some(it.timestamp));
    assert(ex_req_bool(es, k_pinned()) == Option::Some(it.pinned));
    assert(ex_bool_or(es, k_in_vault(), false) == Option::Some(it.in_vault));
    assert(kind_of_name(kind_name(it.kind)) == Option::Some(it.kind));
    assert(category_of_name(category_name(it.category)) == Option::Some(it.category));
    assert(ex_opt_str(es, k_content_text()) == Option::Some(it.content_text));
    assert(ex_opt_str(es, k_image_path()) == Option::Some(it.image_path));
    assert(ex_opt_str(es, k_mime()) == Option::Some(it.mime));
    assert(ex_opt_str(es, k_tab_id()) == Option::Some(it.tab_id));
    assert(ex_str_or(es, k_label(), Seq::empty()) == Option::Some(it.label));
    assert(k_content_text().len() == 11);
    assert(k_content().len() == 7);
    assert(k_content_text() != k_content());
    assert(ex_opt_str(es, k_content()) == Option::Some(it.content));
}

proof fn lemma_settings_roundtrip(s: SettingsModel)
    ensures
        settings_of_obj(settings_obj(s)) == Option::Some(s),
{
    reveal_with_fuel(find_entry_at, 11);
}

proof fn lemma_tabs_arr_roundtrip(ts: Seq<TabModel>)
    ensures
        tabs_of_arr(Seq::new(ts.len(), |i: int| tab_obj(ts[i]))) == Option::Some(ts),
    decreases ts.len(),
{
    let os = Seq::new(ts.len(), |i: int| tab_obj(ts[i]));
    if ts.len() == 0 {
        assert(Seq::<TabModel>::empty() =~= ts);
    } else {
        lemma_tab_roundtrip(ts[0]);
        lemma_tabs_arr_roundtrip(ts.drop_first());
        assert(os.drop_first() =~= Seq::new(
            ts.drop_first().len(),
            |i: int| tab_obj(ts.drop_first()[i]),
        ));
        assert(seq![ts[0]] + ts.drop_first() =~= ts);
    }
}

proof fn lemma_items_arr_roundtrip(its: Seq<ItemModel>)
    ensures
        items_of_arr(Seq::new(its.len(), |i: int| item_obj(its[i]))) == Option::Some(its),
    decreases its.len(),
{
    let os = Seq::new(its.len(), |i: int| item_obj(its[i]));
    if its.len() == 0 {
        assert(Seq::<ItemModel>::empty() =~= its);
    } else {
        lemma_item_roundtrip(its[0]);
        lemma_items_arr_roundtrip(its.drop_first());
        assert(os.drop_first() =~= Seq::new(
            its.drop_first().len(),
            |i: int| item_obj(its.drop_first()[i]),
        ));
        assert(seq![its[0]] + its.drop_first() =~= its);
    }
}

proof fn lemma_extract_doc(d: AppDataModel)
    ensures
        appdata_of_doc(doc_of(d)) == Option::Some(d),
{
    reveal_with_fuel(find_field_at, 6);
    lemma_tabs_arr_roundtrip(d.tabs);
    lemma_items_arr_roundtrip(d.items);
    lemma_settings_roundtrip(d.settings);
}

/// Persistence round trip: loading the saved text of any state yields
/// exactly that state.
pub proof fn lemma_save_load_round_trip(d: AppDataModel)
    ensures
        load_spec(enc_doc(doc_of(d))) == Option::Some(d),
{
    crate::json::lemma_parse_enc_doc(doc_of(d));
    lemma_extract_doc(d);
}

proof fn lemma_find_entry_from(es: Seq<JEntryModel>, key: Seq<u8>, j: int, i: int)
    requires
        0 <= j <= i <= es.len(),
        forall|k: int| j <= k < i ==> (#[trigger] es[k]).key != key,
        i == es.len() || es[i].key == key,
    ensures
        find_entry_at(es, key, j) == if i == es.len() {
            Option::<JScalarModel>::None
        } else {
            Option::Some(es[i].value)
        },
    decreases i - j,
{
    if j < i {
        lemma_find_entry_from(es, key, j + 1, i);
    }
}

proof fn lemma_find_field_from(fs: Seq<JFieldModel>, key: Seq<u8>, j: int, i: int)
    requires
        0 <= j <= i <= fs.len(),
        forall|k: int| j <= k < i ==> (#[trigger] fs[k]).key != key,
        i == fs.len() || fs[i].key == key,
    ensures
        find_field_at(fs, key, j) == if i == fs.len() {
            Option::<JValueModel>::None
        } else {
            Option::Some(fs[i].value)
        },
    decreases i - j,
{
    if j < i {
        lemma_find_field_from(fs, key, j + 1, i);
    }
}

/// The first field with the given key of a parsed flat object.
fn find_entry_exec<'a>(es: &'a Vec<JEntry>, key: &[u8]) -> (r: Option<&'a JScalar>)
    ensures
        match r {
            Option::Some(v) => find_entry(views_of_entries(es@), key@) == Option::Some(v@),
            Option::None => find_entry(views_of_entries(es@), key@) is None,
        },
{
    let ghost v = views_of_entries(es@);
    let n = es.len();
    let mut i: usize = 0;
    while i < n
        invariant
            0 <= i <= n == es@.len(),
            v == views_of_entries(es@),
            forall|k: int| 0 <= k < i ==> (#[trigger] v[k]).key != key@,
        decreases n - i,
    {
        if bytes_eq(es[i].key.as_slice(), key) {
            proof {
                lemma_find_entry_from(v, key@, 0, i as int);
            }
            return Option::Some(&es[i].value);
        }
        i = i + 1;
    }
    proof {
        lemma_find_entry_from(v, key@, 0, n as int);
    }
    Option::None
}

/// The first top-level field with the given key of a parsed document.
fn find_field_exec<'a>(fs: &'a Vec<JField>, key: &[u8]) -> (r: Option<&'a JValue>)
    ensures
        match r {
            Option::Some(v) => find_field(views_of_fields(fs@), key@) == Option::Some(v@),
            Option::None => find_field(views_of_fields(fs@), key@) is None,
        },
{
    let ghost v = views_of_fields(fs@);
    let n = fs.len();
    let mut i: usize = 0;
    while i < n
        invariant
            0 <= i <= n == fs@.len(),
            v == views_of_fields(fs@),
            forall|k: int| 0 <= k < i ==> (#[trigger] v[k]).key != key@,
        decreases n - i,
    {
        if bytes_eq(fs[i].key.as_slice(), key) {
            proof {
                lemma_find_field_from(v, key@, 0, i as int);
            }
            return Option::Some(&fs[i].value);
        }
        i = i + 1;
    }
    proof {
        lemma_find_field_from(v, key@, 0, n as int);
    }
    Option::None
}

/// A required string field.
fn ex_req_str_exec(es: &Vec<JEntry>, key: &[u8]) -> (r: Option<Vec<u8>>)
    ensures
        match r {
            Option::Some(v) => ex_req_str(views_of_entries(es@), key@) == Option::Some(v@),
            Option::None => ex_req_str(views_of_entries(es@), key@) is None,
        },
{
    match find_entry_exec(es, key) {
        Option::Some(JScalar::Str(s)) => Option::Some(copy_bytes(s)),
        _ => Option::None,
    }
}

/// An optional string field.
fn ex_opt_str_exec(es: &Vec<JEntry>, key: &[u8]) -> (r: Option<Option<Vec<u8>>>)
    ensures
        match r {
            Option::Some(v) => ex_opt_str(views_of_entries(es@), key@) == Option::Some(
                opt_view(v),
            ),
            Option::None => ex_opt_str(views_of_entries(es@), key@) is None,
        },
{
    match find_entry_exec(es, key) {
        Option::None => Option::Some(Option::None),
        Option::Some(JScalar::Null) => Option::Some(Option::None),
        Option::Some(JScalar::Str(s)) => Option::Some(Option::Some(copy_bytes(s))),
        _ => Option::None,
    }
}

/// A required boolean field.
fn ex_req_bool_exec(es: &Vec<JEntry>, key: &[u8]) -> (r: Option<bool>)
    ensures
        r == ex_req_bool(views_of_entries(es@), key@),
{
    match find_entry_exec(es, key) {
        Option::Some(JScalar::Bool(b)) => Option::Some(*b),
        _ => Option::None,
    }
}

/// A boolean field with a default.
fn ex_bool_or_exec(es: &Vec<JEntry>, key: &[u8], d: bool) -> (r: Option<bool>)
    ensures
        r == ex_bool_or(views_of_entries(es@), key@, d),
{
    match find_entry_exec(es, key) {
        Option::None => Option::Some(d),
        Option::Some(JScalar::Bool(b)) => Option::Some(*b),
        _ => Option::None,
    }
}

/// A string field with a default.
fn ex_str_or_exec(es: &Vec<JEntry>, key: &[u8], d: Vec<u8>) -> (r: Option<Vec<u8>>)
    ensures
        match r {
            Option::Some(v) => ex_str_or(views_of_entries(es@), key@, d@) == Option::Some(v@),
            Option::None => ex_str_or(views_of_entries(es@), key@, d@) is None,
        },
{
    match find_entry_exec(es, key) {
        Option::None => Option::Some(d),
        Option::Some(JScalar::Str(s)) => Option::Some(copy_bytes(s)),
        _ => Option::None,
    }
}

/// An integer field with a default.
fn ex_int_or_exec(es: &Vec<JEntry>, key: &[u8], d: u64) -> (r: Option<u64>)
    ensures
        r == ex_int_or(views_of_entries(es@), key@, d),
{
    match find_entry_exec(es, key) {
        Option::None => Option::Some(d),
        Option::Some(JScalar::Int(n)) => Option::Some(*n),
        _ => Option::None,
    }
}

/// The entry kind named by a string.
fn kind_of_name_exec(s: &[u8]) -> (r: Option<ItemKind>)
    ensures
        r == kind_of_name(s@),
{
    let text = [116u8, 101u8, 120u8, 116u8];
    let image = [105u8, 109u8, 97u8, 103u8, 101u8];
    proof {
        assert(text@ =~= lit_kind_text());
        assert(image@ =~= lit_kind_image());
    }
    if bytes_eq(s, text.as_slice()) {
        Option::Some(ItemKind::Text)
    } else if bytes_eq(s, image.as_slice()) {
        Option::Some(ItemKind::Image)
    } else {
        Option::None
    }
}

/// The category named by a string.
fn category_of_name_exec(s: &[u8]) -> (r: Option<Category>)
    ensures
        r == category_of_name(s@),
{
    let text = [116u8, 101u8, 120u8, 116u8];
    let link = [108u8, 105u8, 110u8, 107u8];
    let email = [101u8, 109u8, 97u8, 105u8, 108u8];
    let phone = [112u8, 104u8, 111u8, 110u8, 101u8];
    let code = [99u8, 111u8, 100u8, 101u8];
    let image = [105u8, 109u8, 97u8, 103u8, 101u8];
    proof {
        assert(text@ =~= category_name(Category::Text));
        assert(link@ =~= category_name(Category::Link));
        assert(email@ =~= category_name(Category::Email));
        assert(phone@ =~= category_name(Category::Phone));
        assert(code@ =~= category_name(Category::Code));
        assert(image@ =~= category_name(Category::Image));
    }
    if bytes_eq(s, text.as_slice()) {
        Option::Some(Category::Text)
    } else if bytes_eq(s, link.as_slice()) {
        Option::Some(Category::Link)
    } else if bytes_eq(s, email.as_slice()) {
        Option::Some(Category::Email)
    } else if bytes_eq(s, phone.as_slice()) {
        Option::Some(Category::Phone)
    } else if bytes_eq(s, code.as_slice()) {
        Option::Some(Category::Code)
    } else if bytes_eq(s, image.as_slice()) {
        Option::Some(Category::Image)
    } else {
        Option::None
    }
}

/// A tab read from its document object.
fn tab_from_obj(es: &Vec<JEntry>) -> (r: Option<Tab>)
    ensures
        match r {
            Option::Some(t) => tab_of_obj(views_of_entries(es@)) == Option::Some(t@),
            Option::None => tab_of_obj(views_of_entries(es@)) is None,
        },
{
    let id = ex_req_str_exec(es, bytes_lit([105u8, 100u8]).as_slice());
    let name = ex_req_str_exec(es, bytes_lit([110u8, 97u8, 109u8, 101u8]).as_slice());
    let icon = ex_req_str_exec(es, bytes_lit([105u8, 99u8, 111u8, 110u8]).as_slice());
    let system = ex_req_bool_exec(
        es,
        bytes_lit([115u8, 121u8, 115u8, 116u8, 101u8, 109u8]).as_slice(),
    );
    match (id, name, icon, system) {
        (Option::Some(id), Option::Some(name), Option::Some(icon), Option::Some(system)) => {
            Option::Some(Tab { id, name, icon, system })
        },
        _ => Option::None,
    }
}

/// A history entry read from its document object.
fn item_from_obj(es: &Vec<JEntry>) -> (r: Option<Item>)
    ensures
        match r {
            Option::Some(it) => item_of_obj(views_of_entries(es@)) == Option::Some(it@),
            Option::None => item_of_obj(views_of_entries(es@)) is None,
        },
{
    let id = ex_req_str_exec(es, bytes_lit([105u8, 100u8]).as_slice());
    let kn = ex_req_str_exec(es, bytes_lit([107u8, 105u8, 110u8, 100u8]).as_slice());
    let cat = ex_req_str_exec(
        es,
        bytes_lit([99u8, 97u8, 116u8, 101u8, 103u8, 111u8, 114u8, 121u8]).as_slice(),
    );
    let ts = ex_req_str_exec(
        es,
        bytes_lit([116u8, 105u8, 109u8, 101u8, 115u8, 116u8, 97u8, 109u8, 112u8]).as_slice(),
    );
    let pinned = ex_req_bool_exec(
        es,
        bytes_lit([112u8, 105u8, 110u8, 110u8, 101u8, 100u8]).as_slice(),
    );
    let in_vault = ex_bool_or_exec(
        es,
        bytes_lit([105u8, 110u8, 86u8, 97u8, 117u8, 108u8, 116u8]).as_slice(),
        false,
    );
    let (id, kn, cat, ts, pinned, in_vault) = match (id, kn, cat, ts, pinned, in_vault) {
        (
            Option::Some(a),
            Option::Some(b),
            Option::Some(c),
            Option::Some(d),
            Option::Some(e),
            Option::Some(f),
        ) => (a, b, c, d, e, f),
        _ => {
            return Option::None;
        },
    };
    let kind = kind_of_name_exec(kn.as_slice());
    let category = category_of_name_exec(cat.as_slice());
    let content_text = ex_opt_str_exec(
        es,
        bytes_lit(
            [99u8, 111u8, 110u8, 116u8, 101u8, 110u8, 116u8, 84u8, 101u8, 120u8, 116u8],
        ).as_slice(),
    );
    let image_path = ex_opt_str_exec(
        es,
        bytes_lit([105u8, 109u8, 97u8, 103u8, 101u8, 80u8, 97u8, 116u8, 104u8]).as_slice(),
    );
    let mime = ex_opt_str_exec(es, bytes_lit([109u8, 105u8, 109u8, 101u8]).as_slice());
    let tab_id = ex_opt_str_exec(
        es,
        bytes_lit([116u8, 97u8, 98u8, 73u8, 100u8]).as_slice(),
    );
    let (kind, category, content_text, image_path, mime, tab_id) = match (kind, category,
    content_text, image_path, mime, tab_id) {
        (
            Option::Some(a),
            Option::Some(b),
            Option::Some(c),
            Option::Some(d),
            Option::Some(e),
            Option::Some(f),
        ) => (a, b, c, d, e, f),
        _ => {
            return Option::None;
        },
    };
    let label = ex_str_or_exec(
        es,
        bytes_lit([108u8, 97u8, 98u8, 101u8, 108u8]).as_slice(),
        Vec::new(),
    );
    let content = ex_opt_str_exec(
        es,
        bytes_lit([99u8, 111u8, 110u8, 116u8, 101u8, 110u8, 116u8]).as_slice(),
    );
    match (label, content) {
        (Option::Some(label), Option::Some(content)) => Option::Some(
            Item {
                id,
                kind,
                content_text,
                image_path,
                mime,
                category,
                tab_id,
                timestamp: ts,
                pinned,
                label,
                content,
                in_vault,
            },
        ),
        _ => Option::None,
    }
}

/// The settings read from their document object.
fn settings_from_obj(es: &Vec<JEntry>) -> (r: Option<Settings>)
    ensures
        match r {
            Option::Some(s) => settings_of_obj(views_of_entries(es@)) == Option::Some(s@),
            Option::None => settings_of_obj(views_of_entries(es@)) is None,
        },
{
    let theme = ex_str_or_exec(
        es,
        bytes_lit([116u8, 104u8, 101u8, 109u8, 101u8]).as_slice(),
        crate::defaults::default_theme(),
    );
    let max_history = ex_int_or_exec(
        es,
        bytes_lit([109u8, 97u8, 120u8, 72u8, 105u8, 115u8, 116u8, 111u8, 114u8, 121u8]).as_slice(),
        1000,
    );
    let shortcut_toggle = ex_str_or_exec(
        es,
        bytes_lit(
            [115u8, 104u8, 111u8, 114u8, 116u8, 99u8, 117u8, 116u8, 84u8, 111u8, 103u8, 103u8,
                108u8, 101u8],
        ).as_slice(),
        crate::defaults::default_shortcut_toggle(),
    );
    let shortcut_paste = ex_str_or_exec(
        es,
        bytes_lit(
            [115u8, 104u8, 111u8, 114u8, 116u8, 99u8, 117u8, 116u8, 80u8, 97u8, 115u8, 116u8,
                101u8],
        ).as_slice(),
        crate::defaults::default_shortcut_paste(),
    );
    let poll_interval = ex_int_or_exec(
        es,
        bytes_lit(
            [112u8, 111u8, 108u8, 108u8, 73u8, 110u8, 116u8, 101u8, 114u8, 118u8, 97u8, 108u8],
        ).as_slice(),
        500,
    );
    let show_notifications = ex_bool_or_exec(
        es,
        bytes_lit(
            [115u8, 104u8, 111u8, 119u8, 78u8, 111u8, 116u8, 105u8, 102u8, 105u8, 99u8, 97u8,
                116u8, 105u8, 111u8, 110u8, 115u8],
        ).as_slice(),
        true,
    );
    let auto_start = ex_bool_or_exec(
        es,
        bytes_lit([97u8, 117u8, 116u8, 111u8, 83u8, 116u8, 97u8, 114u8, 116u8]).as_slice(),
        false,
    );
    let paste_delimiter = ex_str_or_exec(
        es,
        bytes_lit(
            [112u8, 97u8, 115u8, 116u8, 101u8, 68u8, 101u8, 108u8, 105u8, 109u8, 105u8, 116u8,
                101u8, 114u8],
        ).as_slice(),
        crate::defaults::default_paste_delimiter(),
    );
    let vault_pin_hash = ex_str_or_exec(
        es,
        bytes_lit(
            [118u8, 97u8, 117u8, 108u8, 116u8, 80u8, 105u8, 110u8, 72u8, 97u8, 115u8, 104u8],
        ).as_slice(),
        Vec::new(),
    );
    let (theme, max_history, shortcut_toggle, shortcut_paste, poll_interval) = match (theme,
    max_history, shortcut_toggle, shortcut_paste, poll_interval) {
        (
            Option::Some(a),
            Option::Some(b),
            Option::Some(c),
            Option::Some(d),
            Option::Some(e),
        ) => (a, b, c, d, e),
        _ => {
            return Option::None;
        },
    };
    match (show_notifications, auto_start, paste_delimiter, vault_pin_hash) {
        (
            Option::Some(show_notifications),
            Option::Some(auto_start),
            Option::Some(paste_delimiter),
            Option::Some(vault_pin_hash),
        ) => {
            if max_history <= usize::MAX as u64 {
                Option::Some(
                    Settings {
                        theme,
                        max_history: max_history as usize,
                        shortcut_toggle,
                        shortcut_paste,
                        poll_interval,
                        show_notifications,
                        auto_start,
                        paste_delimiter,
                        vault_pin_hash,
                    },
                )
            } else {
                Option::None
            }
        },
        _ => Option::None,
    }
}

proof fn lemma_tabs_of_arr_all(os: Seq<Seq<JEntryModel>>)
    ensures
        (tabs_of_arr(os) is Some) <==> (forall|k: int|
            0 <= k < os.len() ==> tab_of_obj(#[trigger] os[k]) is Some),
        tabs_of_arr(os) is Some ==> tabs_of_arr(os).unwrap() =~= Seq::new(
            os.len(),
            |k: int| tab_of_obj(os[k]).unwrap(),
        ),
    decreases os.len(),
{
    if os.len() > 0 {
        let rest = os.drop_first();
        lemma_tabs_of_arr_all(rest);
        assert(forall|k: int| 0 <= k < rest.len() ==> #[trigger] rest[k] == os[k + 1]);
        if forall|k: int| 0 <= k < os.len() ==> tab_of_obj(#[trigger] os[k]) is Some {
            assert forall|k: int| 0 <= k < rest.len() implies tab_of_obj(
                #[trigger] rest[k],
            ) is Some by {
                assert(tab_of_obj(os[k + 1]) is Some);
            }
            assert(tabs_of_arr(os) is Some);
        }
        if tabs_of_arr(os) is Some {
            assert(tab_of_obj(os[0]) is Some && tabs_of_arr(rest) is Some);
            assert forall|k: int| 0 <= k < os.len() implies tab_of_obj(
                #[trigger] os[k],
            ) is Some by {
                if k > 0 {
                    assert(tab_of_obj(rest[k - 1]) is Some);
                }
            }
            assert(seq![tab_of_obj(os[0]).unwrap()] + tabs_of_arr(rest).unwrap() =~= Seq::new(
                os.len(),
                |k: int| tab_of_obj(os[k]).unwrap(),
            ));
        }
    }
}

proof fn lemma_items_of_arr_all(os: Seq<Seq<JEntryModel>>)
    ensures
        (items_of_arr(os) is Some) <==> (forall|k: int|
            0 <= k < os.len() ==> item_of_obj(#[trigger] os[k]) is Some),
        items_of_arr(os) is Some ==> items_of_arr(os).unwrap() =~= Seq::new(
            os.len(),
            |k: int| item_of_obj(os[k]).unwrap(),
        ),
    decreases os.len(),
{
    if os.len() > 0 {
        let rest = os.drop_first();
        lemma_items_of_arr_all(rest);
        assert(forall|k: int| 0 <= k < rest.len() ==> #[trigger] rest[k] == os[k + 1]);
        if forall|k: int| 0 <= k < os.len() ==> item_of_obj(#[trigger] os[k]) is Some {
            assert forall|k: int| 0 <= k < rest.len() implies item_of_obj(
                #[trigger] rest[k],
            ) is Some by {
                assert(item_of_obj(os[k + 1]) is Some);
            }
            assert(items_of_arr(os) is Some);
        }
        if items_of_arr(os) is Some {
            assert(item_of_obj(os[0]) is Some && items_of_arr(rest) is Some);
            assert forall|k: int| 0 <= k < os.len() implies item_of_obj(
                #[trigger] os[k],
            ) is Some by {
                if k > 0 {
                    assert(item_of_obj(rest[k - 1]) is Some);
                }
            }
            assert(seq![item_of_obj(os[0]).unwrap()] + items_of_arr(rest).unwrap() =~= Seq::new(
                os.len(),
                |k: int| item_of_obj(os[k]).unwrap(),
            ));
        }
    }
}

/// All tabs of a document array.
fn tabs_from_arr(os: &Vec<Vec<JEntry>>) -> (r: Option<Vec<Tab>>)
    ensures
        match r {
            Option::Some(ts) => tabs_of_arr(views_of_objs(os@)) == Option::Some(
                views_of_tabs(ts@),
            ),
            Option::None => tabs_of_arr(views_of_objs(os@)) is None,
        },
{
    let ghost om = views_of_objs(os@);
    proof {
        lemma_tabs_of_arr_all(om);
    }
    let n = os.len();
    let mut out: Vec<Tab> = Vec::new();
    let mut i: usize = 0;
    while i < n
        invariant
            0 <= i <= n == os@.len(),
            om == views_of_objs(os@),
            views_of_tabs(out@) =~= Seq::new(i as nat, |k: int| tab_of_obj(om[k]).unwrap()),
            forall|k: int| 0 <= k < i ==> tab_of_obj(#[trigger] om[k]) is Some,
        decreases n - i,
    {
        proof {
            assert(om[i as int] == views_of_entries(os@[i as int]@));
        }
        match tab_from_obj(&os[i]) {
            Option::Some(t) => {
                proof {
                    assert(views_of_tabs(out@.push(t)) =~= views_of_tabs(out@).push(t@));
                }
                out.push(t);
                proof {
                    assert(views_of_tabs(out@) =~= Seq::new(
                        (i + 1) as nat,
                        |k: int| tab_of_obj(om[k]).unwrap(),
                    ));
                }
            },
            Option::None => {
                proof {
                    assert(tab_of_obj(om[i as int]) is None);
                    lemma_tabs_of_arr_all(om);
                }
                return Option::None;
            },
        }
        i = i + 1;
    }
    proof {
        lemma_tabs_of_arr_all(om);
        assert(views_of_tabs(out@) =~= tabs_of_arr(om).unwrap());
    }
    Option::Some(out)
}

/// All history entries of a document array.
fn items_from_arr(os: &Vec<Vec<JEntry>>) -> (r: Option<Vec<Item>>)
    ensures
        match r {
            Option::Some(its) => items_of_arr(views_of_objs(os@)) == Option::Some(
                views_of_items(its@),
            ),
            Option::None => items_of_arr(views_of_objs(os@)) is None,
        },
{
    let ghost om = views_of_objs(os@);
    proof {
        lemma_items_of_arr_all(om);
    }
    let n = os.len();
    let mut out: Vec<Item> = Vec::new();
    let mut i: usize = 0;
    while i < n
        invariant
            0 <= i <= n == os@.len(),
            om == views_of_objs(os@),
            views_of_items(out@) =~= Seq::new(i as nat, |k: int| item_of_obj(om[k]).unwrap()),
            forall|k: int| 0 <= k < i ==> item_of_obj(#[trigger] om[k]) is Some,
        decreases n - i,
    {
        proof {
            assert(om[i as int] == views_of_entries(os@[i as int]@));
        }
        match item_from_obj(&os[i]) {
            Option::Some(t) => {
                proof {
                    assert(views_of_items(out@.push(t)) =~= views_of_items(out@).push(t@));
                }
                out.push(t);
                proof {
                    assert(views_of_items(out@) =~= Seq::new(
                        (i + 1) as nat,
                        |k: int| item_of_obj(om[k]).unwrap(),
                    ));
                }
            },
            Option::None => {
                proof {
                    assert(item_of_obj(om[i as int]) is None);
                    lemma_items_of_arr_all(om);
                }
                return Option::None;
            },
        }
        i = i + 1;
    }
    proof {
        lemma_items_of_arr_all(om);
        assert(views_of_items(out@) =~= items_of_arr(om).unwrap());
    }
    Option::Some(out)
}

/// The whole state read from a parsed document.
fn appdata_from_doc(fs: &Vec<JField>) -> (r: Option<AppData>)
    ensures
        match r {
            Option::Some(d) => appdata_of_doc(views_of_fields(fs@)) == Option::Some(d@),
            Option::None => appdata_of_doc(views_of_fields(fs@)) is None,
        },
{
    let tabs_val = find_field_exec(fs, bytes_lit([116u8, 97u8, 98u8, 115u8]).as_slice());
    let items_val = find_field_exec(
        fs,
        bytes_lit([105u8, 116u8, 101u8, 109u8, 115u8]).as_slice(),
    );
    let settings_val = find_field_exec(
        fs,
        bytes_lit([115u8, 101u8, 116u8, 116u8, 105u8, 110u8, 103u8, 115u8]).as_slice(),
    );
    match (tabs_val, items_val, settings_val) {
        (
            Option::Some(JValue::Arr(tos)),
            Option::Some(JValue::Arr(ios)),
            Option::Some(JValue::Obj(ses)),
        ) => {
            let tabs = tabs_from_arr(tos);
            let items = items_from_arr(ios);
            let settings = settings_from_obj(ses);
            match (tabs, items, settings) {
                (Option::Some(tabs), Option::Some(items), Option::Some(settings)) => {
                    let migrated = find_field_exec(
                        fs,
                        bytes_lit(
                            [109u8, 105u8, 103u8, 114u8, 97u8, 116u8, 101u8, 100u8, 70u8, 114u8,
                                111u8, 109u8, 69u8, 108u8, 101u8, 99u8, 116u8, 114u8, 111u8,
                                110u8],
                        ).as_slice(),
                    );
                    match migrated {
                        Option::None => Option::Some(
                            AppData { tabs, items, settings, migrated_from_electron: false },
                        ),
                        Option::Some(JValue::Scalar(JScalar::Bool(m))) => Option::Some(
                            AppData { tabs, items, settings, migrated_from_electron: *m },
                        ),
                        _ => Option::None,
                    }
                },
                _ => Option::None,
            }
        },
        _ => Option::None,
    }
}

/// Read a whole state from persisted text.
pub fn load_from_bytes(bytes: &[u8]) -> (r: Option<AppData>)
    ensures
        match r {
            Option::Some(d) => load_spec(bytes@) == Option::Some(d@),
            Option::None => load_spec(bytes@) is None,
        },
{
    match crate::json::parse_document(bytes) {
        Option::Some(fields) => appdata_from_doc(&fields),
        Option::None => Option::None,
    }
}

// ---------------------------------------------------------------------
// The legacy import
// ---------------------------------------------------------------------
/// A tolerant string read: any value other than a string yields the
/// default.
pub open spec fn t_str(es: Seq<JEntryModel>, key: Seq<u8>, d: Seq<u8>) -> Seq<u8> {
    match find_entry(es, key) {
        Option::Some(JScalarModel::Str(s)) => s,
        _ => d,
    }
}

/// A tolerant optional string read.
pub open spec fn t_opt_str(es: Seq<JEntryModel>, key: Seq<u8>) -> Option<Seq<u8>> {
    match find_entry(es, key) {
        Option::Some(JScalarModel::Str(s)) => Option::Some(s),
        _ => Option::None,
    }
}

/// A tolerant boolean read.
pub open spec fn t_bool(es: Seq<JEntryModel>, key: Seq<u8>, d: bool) -> bool {
    match find_entry(es, key) {
        Option::Some(JScalarModel::Bool(b)) => b,
        _ => d,
    }
}

/// The named category, or the plain text category for an unknown name.
pub open spec fn category_or_text(s: Seq<u8>) -> Category {
    match category_of_name(s) {
        Option::Some(c) => c,
        Option::None => Category::Text,
    }
}

/// A legacy record read tolerantly: only a non-empty id is required; the
/// legacy text payload carries over, and the record becomes a text entry.
pub open spec fn lenient_item(es: Seq<JEntryModel>) -> Option<ItemModel> {
    let id = t_str(es, k_id(), Seq::empty());
    if id.len() == 0 {
        Option::None
    } else {
        let content = t_str(es, k_content(), Seq::empty());
        Option::Some(
            ItemModel {
                id,
                kind: ItemKind::Text,
                content_text: Option::Some(content),
                image_path: Option::None,
                mime: Option::None,
                category: category_or_text(t_str(es, k_category(), category_name(Category::Text))),
                tab_id: t_opt_str(es, k_tab_id()),
                timestamp: t_str(es, k_timestamp(), Seq::empty()),
                pinned: t_bool(es, k_pinned(), false),
                label: t_str(es, k_label(), Seq::empty()),
                content: Option::Some(content),
                in_vault: false,
            },
        )
    }
}

/// The tabs of a legacy document that read as tabs, in order.
pub open spec fn collect_tabs(os: Seq<Seq<JEntryModel>>) -> Seq<TabModel>
    decreases os.len(),
{
    if os.len() == 0 {
        Seq::empty()
    } else {
        match tab_of_obj(os[0]) {
            Option::Some(t) => seq![t] + collect_tabs(os.drop_first()),
            Option::None => collect_tabs(os.drop_first()),
        }
    }
}

/// The legacy records of a document that read as entries, in order.
pub open spec fn collect_items(os: Seq<Seq<JEntryModel>>) -> Seq<ItemModel>
    decreases os.len(),
{
    if os.len() == 0 {
        Seq::empty()
    } else {
        match lenient_item(os[0]) {
            Option::Some(t) => seq![t] + collect_items(os.drop_first()),
            Option::None => collect_items(os.drop_first()),
        }
    }
}

/// The tabs a lenient read yields: tabs that parse, or the default tabs
/// when none do.
pub open spec fn lenient_tabs(fs: Seq<JFieldModel>) -> Seq<TabModel> {
    match find_field(fs, k_tabs()) {
        Option::Some(JValueModel::Arr(tos)) => {
            let ts = collect_tabs(tos);
            if ts.len() == 0 {
                crate::defaults::spec_default_tabs()
            } else {
                ts
            }
        },
        _ => crate::defaults::spec_default_tabs(),
    }
}

/// The entries a lenient read yields.
pub open spec fn lenient_items(fs: Seq<JFieldModel>) -> Seq<ItemModel> {
    match find_field(fs, k_items()) {
        Option::Some(JValueModel::Arr(ios)) => collect_items(ios),
        _ => Seq::empty(),
    }
}

/// The settings a lenient read yields: the parsed settings, or defaults.
pub open spec fn lenient_settings(fs: Seq<JFieldModel>) -> SettingsModel {
    match find_field(fs, k_settings()) {
        Option::Some(JValueModel::Obj(ses)) => match settings_of_obj(ses) {
            Option::Some(s) => s,
            Option::None => spec_default_settings(),
        },
        _ => spec_default_settings(),
    }
}

/// A lenient read of a legacy document. An import yielding no entries
/// and at most the three default tabs carries nothing worth migrating.
pub open spec fn lenient_of_doc(fs: Seq<JFieldModel>) -> Option<AppDataModel> {
    let d = AppDataModel {
        tabs: lenient_tabs(fs),
        items: lenient_items(fs),
        settings: lenient_settings(fs),
        migrated_from_electron: false,
    };
    if d.items.len() == 0 && d.tabs.len() <= 3 {
        Option::None
    } else {
        Option::Some(d)
    }
}

/// Normalization applied to a strictly read legacy state: a record whose
/// only text lives in the legacy payload field becomes a text entry.
pub open spec fn legacy_fixed_item(it: ItemModel) -> ItemModel {
    if it.content_text is None && it.content is Some {
        ItemModel { content_text: it.content, kind: ItemKind::Text, ..it }
    } else {
        it
    }
}

/// Normalization applied to all records of a strictly read legacy state.
pub open spec fn legacy_fixed(d: AppDataModel) -> AppDataModel {
    AppDataModel {
        items: Seq::new(d.items.len(), |i: int| legacy_fixed_item(d.items[i])),
        ..d
    }
}

/// What a legacy import yields for given file text: a strict read with
/// the legacy normalization where the text fits the current layout, else
/// a lenient field-by-field read, else nothing.
pub open spec fn migrate_spec(bytes: Seq<u8>) -> Option<AppDataModel> {
    match sp_document(bytes) {
        Option::None => Option::None,
        Option::Some(fs) => match appdata_of_doc(fs) {
            Option::Some(d) => Option::Some(legacy_fixed(d)),
            Option::None => lenient_of_doc(fs),
        },
    }
}

/// A tolerant string read.
fn t_str_exec(es: &Vec<JEntry>, key: &[u8], d: Vec<u8>) -> (r: Vec<u8>)
    ensures
        r@ == t_str(views_of_entries(es@), key@, d@),
{
    match find_entry_exec(es, key) {
        Option::Some(JScalar::Str(s)) => copy_bytes(s),
        _ => d,
    }
}

/// A tolerant optional string read.
fn t_opt_str_exec(es: &Vec<JEntry>, key: &[u8]) -> (r: Option<Vec<u8>>)
    ensures
        opt_view(r) == t_opt_str(views_of_entries(es@), key@),
{
    match find_entry_exec(es, key) {
        Option::Some(JScalar::Str(s)) => Option::Some(copy_bytes(s)),
        _ => Option::None,
    }
}

/// A tolerant boolean read.
fn t_bool_exec(es: &Vec<JEntry>, key: &[u8], d: bool) -> (r: bool)
    ensures
        r == t_bool(views_of_entries(es@), key@, d),
{
    match find_entry_exec(es, key) {
        Option::Some(JScalar::Bool(b)) => *b,
        _ => d,
    }
}

/// A legacy record read tolerantly.
fn lenient_item_exec(es: &Vec<JEntry>) -> (r: Option<Item>)
    ensures
        match r {
            Option::Some(it) => lenient_item(views_of_entries(es@)) == Option::Some(it@),
            Option::None => lenient_item(views_of_entries(es@)) is None,
        },
{
    let id = t_str_exec(es, bytes_lit([105u8, 100u8]).as_slice(), Vec::new());
    if id.len() == 0 {
        return Option::None;
    }
    let content = t_str_exec(
        es,
        bytes_lit([99u8, 111u8, 110u8, 116u8, 101u8, 110u8, 116u8]).as_slice(),
        Vec::new(),
    );
    let cat_name = t_str_exec(
        es,
        bytes_lit([99u8, 97u8, 116u8, 101u8, 103u8, 111u8, 114u8, 121u8]).as_slice(),
        crate::query::category_name_bytes(Category::Text),
    );
    let category = match category_of_name_exec(cat_name.as_slice()) {
        Option::Some(c) => c,
        Option::None => Category::Text,
    };
    let tab_id = t_opt_str_exec(es, bytes_lit([116u8, 97u8, 98u8, 73u8, 100u8]).as_slice());
    let timestamp = t_str_exec(
        es,
        bytes_lit([116u8, 105u8, 109u8, 101u8, 115u8, 116u8, 97u8, 109u8, 112u8]).as_slice(),
        Vec::new(),
    );
    let pinned = t_bool_exec(
        es,
        bytes_lit([112u8, 105u8, 110u8, 110u8, 101u8, 100u8]).as_slice(),
        false,
    );
    let label = t_str_exec(
        es,
        bytes_lit([108u8, 97u8, 98u8, 101u8, 108u8]).as_slice(),
        Vec::new(),
    );
    Option::Some(
        Item {
            id,
            kind: ItemKind::Text,
            content_text: Option::Some(copy_bytes(&content)),
            image_path: Option::None,
            mime: Option::None,
            category,
            tab_id,
            timestamp,
            pinned,
            label,
            content: Option::Some(content),
            in_vault: false,
        },
    )
}

proof fn lemma_collect_tabs_push(os: Seq<Seq<JEntryModel>>, o: Seq<JEntryModel>)
    ensures
        collect_tabs(os.push(o)) =~= collect_tabs(os) + (match tab_of_obj(o) {
            Option::Some(t) => seq![t],
            Option::None => Seq::<TabModel>::empty(),
        }),
    decreases os.len(),
{
    if os.len() == 0 {
        assert(os.push(o)[0] == o);
        assert(os.push(o).drop_first() =~= Seq::<Seq<JEntryModel>>::empty());
        assert(collect_tabs(Seq::<Seq<JEntryModel>>::empty()) =~= Seq::<TabModel>::empty());
        assert(collect_tabs(os) =~= Seq::<TabModel>::empty());
    } else {
        assert(os.push(o)[0] == os[0]);
        assert(os.push(o).drop_first() =~= os.drop_first().push(o));
        lemma_collect_tabs_push(os.drop_first(), o);
    }
}

proof fn lemma_collect_items_push(os: Seq<Seq<JEntryModel>>, o: Seq<JEntryModel>)
    ensures
        collect_items(os.push(o)) =~= collect_items(os) + (match lenient_item(o) {
            Option::Some(t) => seq![t],
            Option::None => Seq::<ItemModel>::empty(),
        }),
    decreases os.len(),
{
    if os.len() == 0 {
        assert(os.push(o)[0] == o);
        assert(os.push(o).drop_first() =~= Seq::<Seq<JEntryModel>>::empty());
        assert(collect_items(Seq::<Seq<JEntryModel>>::empty()) =~= Seq::<ItemModel>::empty());
        assert(collect_items(os) =~= Seq::<ItemModel>::empty());
    } else {
        assert(os.push(o)[0] == os[0]);
        assert(os.push(o).drop_first() =~= os.drop_first().push(o));
        lemma_collect_items_push(os.drop_first(), o);
    }
}

/// A lenient read of a parsed legacy document.
fn lenient_from_doc(fs: &Vec<JField>) -> (r: Option<AppData>)
    ensures
        match r {
            Option::Some(d) => lenient_of_doc(views_of_fields(fs@)) == Option::Some(d@),
            Option::None => lenient_of_doc(views_of_fields(fs@)) is None,
        },
{
    let ghost fm = views_of_fields(fs@);
    // Tabs.
    let mut tabs: Vec<Tab> = Vec::new();
    match find_field_exec(fs, bytes_lit([116u8, 97u8, 98u8, 115u8]).as_slice()) {
        Option::Some(JValue::Arr(tos)) => {
            let ghost om = views_of_objs(tos@);
            let n = tos.len();
            let mut i: usize = 0;
            proof {
                assert(collect_tabs(om.take(0)) =~= Seq::<TabModel>::empty());
                assert(views_of_tabs(tabs@) =~= Seq::<TabModel>::empty());
            }
            while i < n
                invariant
                    0 <= i <= n == tos@.len(),
                    om == views_of_objs(tos@),
                    views_of_tabs(tabs@) == collect_tabs(om.take(i as int)),
                decreases n - i,
            {
                proof {
                    assert(om[i as int] == views_of_entries(tos@[i as int]@));
                    assert(om.take(i + 1) =~= om.take(i as int).push(om[i as int]));
                    lemma_collect_tabs_push(om.take(i as int), om[i as int]);
                }
                match tab_from_obj(&tos[i]) {
                    Option::Some(t) => {
                        proof {
                            assert(views_of_tabs(tabs@.push(t)) =~= views_of_tabs(tabs@).push(
                                t@,
                            ));
                        }
                        tabs.push(t);
                    },
                    Option::None => {},
                }
                proof {
                    assert(views_of_tabs(tabs@) =~= collect_tabs(om.take(i + 1)));
                }
                i = i + 1;
            }
            proof {
                assert(om.take(n as int) =~= om);
            }
        },
        _ => {},
    }
    if tabs.len() == 0 {
        let d = AppData::default();
        tabs = d.tabs;
        proof {
            assert(views_of_tabs(tabs@) == crate::defaults::spec_default_tabs());
        }
    }
    // Items.
    let mut items: Vec<Item> = Vec::new();
    match find_field_exec(fs, bytes_lit([105u8, 116u8, 101u8, 109u8, 115u8]).as_slice()) {
        Option::Some(JValue::Arr(ios)) => {
            let ghost om = views_of_objs(ios@);
            let n = ios.len();
            let mut i: usize = 0;
            proof {
                assert(collect_items(om.take(0)) =~= Seq::<ItemModel>::empty());
                assert(views_of_items(items@) =~= Seq::<ItemModel>::empty());
            }
            while i < n
                invariant
                    0 <= i <= n == ios@.len(),
                    om == views_of_objs(ios@),
                    views_of_items(items@) == collect_items(om.take(i as int)),
                decreases n - i,
            {
                proof {
                    assert(om[i as int] == views_of_entries(ios@[i as int]@));
                    assert(om.take(i + 1) =~= om.take(i as int).push(om[i as int]));
                    lemma_collect_items_push(om.take(i as int), om[i as int]);
                }
                match lenient_item_exec(&ios[i]) {
                    Option::Some(t) => {
                        proof {
                            assert(views_of_items(items@.push(t)) =~= views_of_items(
                                items@,
                            ).push(t@));
                        }
                        items.push(t);
                    },
                    Option::None => {},
                }
                proof {
                    assert(views_of_items(items@) =~= collect_items(om.take(i + 1)));
                }
                i = i + 1;
            }
            proof {
                assert(om.take(n as int) =~= om);
            }
        },
        _ => {},
    }
    // Settings.
    let settings: Settings = match find_field_exec(
        fs,
        bytes_lit([115u8, 101u8, 116u8, 116u8, 105u8, 110u8, 103u8, 115u8]).as_slice(),
    ) {
        Option::Some(JValue::Obj(ses)) => match settings_from_obj(ses) {
            Option::Some(s) => s,
            Option::None => Settings::default(),
        },
        _ => Settings::default(),
    };
    if items.len() == 0 && tabs.len() <= 3 {
        return Option::None;
    }
    Option::Some(AppData { tabs, items, settings, migrated_from_electron: false })
}

/// Apply the legacy normalization in place.
fn apply_legacy_fix(data: &mut AppData)
    ensures
        final(data)@ == legacy_fixed(old(data)@),
{
    let ghost v = views_of_items(old(data).items@);
    let n = data.items.len();
    let mut out: Vec<Item> = Vec::new();
    let mut i: usize = 0;
    proof {
        assert(views_of_items(out@) =~= legacy_fixed(old(data)@).items.take(0));
    }
    while i < n
        invariant
            0 <= i <= n == data.items@.len(),
            v == views_of_items(data.items@),
            v == old(data)@.items,
            data@.tabs == old(data)@.tabs,
            data@.settings == old(data)@.settings,
            data@.migrated_from_electron == old(data)@.migrated_from_electron,
            views_of_items(out@) == legacy_fixed(old(data)@).items.take(i as int),
        decreases n - i,
    {
        let it = &data.items[i];
        let mut d = it.duplicate();
        let fix = match (&d.content_text, &d.content) {
            (Option::None, Option::Some(_)) => true,
            _ => false,
        };
        if fix {
            d.content_text = copy_opt_bytes(&d.content);
            d.kind = ItemKind::Text;
        }
        proof {
            assert(d@ == legacy_fixed_item(v[i as int]));
            assert(views_of_items(out@.push(d)) =~= views_of_items(out@).push(d@));
            assert(legacy_fixed(old(data)@).items.take(i + 1) =~= legacy_fixed(
                old(data)@,
            ).items.take(i as int).push(legacy_fixed_item(v[i as int])));
        }
        out.push(d);
        i = i + 1;
    }
    proof {
        assert(legacy_fixed(old(data)@).items.take(n as int) =~= legacy_fixed(old(data)@).items);
    }
    data.items = out;
}

/// Read a legacy file: a strict read with normalization where possible,
/// else a lenient read, else nothing.
pub fn migrate_from_bytes(bytes: &[u8]) -> (r: Option<AppData>)
    ensures
        match r {
            Option::Some(d) => migrate_spec(bytes@) == Option::Some(d@),
            Option::None => migrate_spec(bytes@) is None,
        },
{
    match crate::json::parse_document(bytes) {
        Option::None => Option::None,
        Option::Some(fields) => {
            match appdata_from_doc(&fields) {
                Option::Some(mut d) => {
                    apply_legacy_fix(&mut d);
                    Option::Some(d)
                },
                Option::None => lenient_from_doc(&fields),
            }
        },
    }
}

/// How a startup load ended.
#[derive(Clone, Copy, PartialEq, Eq, Structural, Debug)]
pub enum LoadOutcome {
    /// The persisted file was read back as a state.
    Loaded,
    /// The persisted file did not read back: the caller must set the
    /// corrupt file aside as a backup; the defaults are used.
    CorruptBackedUp,
    /// No persisted file existed, and a legacy file was imported.
    Migrated,
    /// No persisted file and nothing to import: the defaults are used.
    Fresh,
}

/// Decide the starting state. `file` is the persisted file's content if
/// one exists; `legacy` the content of a legacy file found by probing, if
/// any. A corrupt persisted file never aborts startup: the decision is to
/// back it up and start from defaults.
pub fn load_state(file: Option<&Vec<u8>>, legacy: Option<&Vec<u8>>) -> (r: (AppData, LoadOutcome))
    ensures
        match file {
            Option::Some(bytes) => match load_spec(bytes@) {
                Option::Some(d) => r.0@ == d && r.1 == LoadOutcome::Loaded,
                Option::None => r.0@ == spec_default_app_data() && r.1
                    == LoadOutcome::CorruptBackedUp,
            },
            Option::None => match legacy {
                Option::Some(lb) => match migrate_spec(lb@) {
                    Option::Some(m) => r.0@ == (AppDataModel {
                        migrated_from_electron: true,
                        ..m
                    }) && r.1 == LoadOutcome::Migrated,
                    Option::None => r.0@ == spec_default_app_data() && r.1 == LoadOutcome::Fresh,
                },
                Option::None => r.0@ == spec_default_app_data() && r.1 == LoadOutcome::Fresh,
            },
        },
{
    match file {
        Option::Some(bytes) => match load_from_bytes(bytes.as_slice()) {
            Option::Some(d) => (d, LoadOutcome::Loaded),
            Option::None => (AppData::default(), LoadOutcome::CorruptBackedUp),
        },
        Option::None => match legacy {
            Option::Some(lb) => match migrate_from_bytes(lb.as_slice()) {
                Option::Some(mut m) => {
                    m.migrated_from_electron = true;
                    (m, LoadOutcome::Migrated)
                },
                Option::None => (AppData::default(), LoadOutcome::Fresh),
            },
            Option::None => (AppData::default(), LoadOutcome::Fresh),
        },
    }
}

} // verus!
