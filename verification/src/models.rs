//! The data model of the clipboard history: entries, tabs, settings, and the
//! persisted aggregate, together with their mathematical views.
//!
//! All text is carried as UTF-8 bytes (`Vec<u8>`), so that every field of the
//! model is a plain value that contracts can speak about directly.
use vstd::prelude::*;

verus! {

/// The kind of a history entry: either captured text or a captured image.
#[derive(Clone, Copy, PartialEq, Eq, Structural, Debug)]
pub enum ItemKind {
    Text,
    Image,
}

/// The advisory content category, derived once at capture time.
#[derive(Clone, Copy, PartialEq, Eq, Structural, Debug)]
pub enum Category {
    Text,
    Link,
    Email,
    Phone,
    Code,
    Image,
}

/// A tab: a named bucket for organizing entries.
pub struct Tab {
    pub id: Vec<u8>,
    pub name: Vec<u8>,
    pub icon: Vec<u8>,
    pub system: bool,
}

/// Mathematical view of a `Tab`.
#[verifier::ext_equal]
pub ghost struct TabModel {
    pub id: Seq<u8>,
    pub name: Seq<u8>,
    pub icon: Seq<u8>,
    pub system: bool,
}

impl View for Tab {
    type V = TabModel;

    open spec fn view(&self) -> TabModel {
        TabModel { id: self.id@, name: self.name@, icon: self.icon@, system: self.system }
    }
}

/// One captured clipboard snapshot.
pub struct Item {
    /// Unique, time-ordered token; never reused.
    pub id: Vec<u8>,
    pub kind: ItemKind,
    /// Text payload, for text entries.
    pub content_text: Option<Vec<u8>>,
    /// File name of the saved image, for image entries.
    pub image_path: Option<Vec<u8>>,
    /// MIME type of the payload, if known.
    pub mime: Option<Vec<u8>>,
    pub category: Category,
    /// Soft reference to a tab; cleared when that tab is deleted.
    pub tab_id: Option<Vec<u8>>,
    /// Capture time, RFC 3339 text; primary sort key (descending).
    pub timestamp: Vec<u8>,
    /// Pinned entries are exempt from eviction and bulk clear.
    pub pinned: bool,
    pub label: Vec<u8>,
    /// Legacy text payload read from older records.
    pub content: Option<Vec<u8>>,
    /// Vault membership; access gating happens outside this library.
    pub in_vault: bool,
}

/// Mathematical view of an `Item`.
#[verifier::ext_equal]
pub ghost struct ItemModel {
    pub id: Seq<u8>,
    pub kind: ItemKind,
    pub content_text: Option<Seq<u8>>,
    pub image_path: Option<Seq<u8>>,
    pub mime: Option<Seq<u8>>,
    pub category: Category,
    pub tab_id: Option<Seq<u8>>,
    pub timestamp: Seq<u8>,
    pub pinned: bool,
    pub label: Seq<u8>,
    pub content: Option<Seq<u8>>,
    pub in_vault: bool,
}

/// View of an optional byte string.
pub open spec fn opt_view(o: Option<Vec<u8>>) -> Option<Seq<u8>> {
    match o {
        Option::Some(v) => Option::Some(v@),
        Option::None => Option::None,
    }
}

impl View for Item {
    type V = ItemModel;

    open spec fn view(&self) -> ItemModel {
        ItemModel {
            id: self.id@,
            kind: self.kind,
            content_text: opt_view(self.content_text),
            image_path: opt_view(self.image_path),
            mime: opt_view(self.mime),
            category: self.category,
            tab_id: opt_view(self.tab_id),
            timestamp: self.timestamp@,
            pinned: self.pinned,
            label: self.label@,
            content: opt_view(self.content),
            in_vault: self.in_vault,
        }
    }
}

impl ItemModel {
    /// The displayable text of an entry: the text payload, or the legacy
    /// payload where only that is present, or empty.
    pub open spec fn text(self) -> Seq<u8> {
        match self.content_text {
            Option::Some(t) => t,
            Option::None => match self.content {
                Option::Some(t) => t,
                Option::None => Seq::empty(),
            },
        }
    }
}

impl Item {
    /// Displayable text content, falling back to the legacy payload field.
    pub fn get_text(&self) -> (r: &[u8])
        ensures
            r@ == self@.text(),
    {
        match &self.content_text {
            Option::Some(t) => t.as_slice(),
            Option::None => match &self.content {
                Option::Some(t) => t.as_slice(),
                Option::None => empty_slice(),
            },
        }
    }
}

/// An empty byte slice.
fn empty_slice() -> (r: &'static [u8])
    ensures
        r@ =~= Seq::<u8>::empty(),
{
    let a: &'static [u8; 0] = &[];
    a.as_slice()
}

/// Application settings.
pub struct Settings {
    pub theme: Vec<u8>,
    /// Capacity limit for unpinned history entries.
    pub max_history: usize,
    pub shortcut_toggle: Vec<u8>,
    pub shortcut_paste: Vec<u8>,
    /// Clipboard poll interval in milliseconds.
    pub poll_interval: u64,
    pub show_notifications: bool,
    pub auto_start: bool,
    /// Delimiter used when joining several entries into one paste; may hold
    /// escaped newline and tab tokens.
    pub paste_delimiter: Vec<u8>,
    /// Hash of the vault PIN; empty when no PIN is set.
    pub vault_pin_hash: Vec<u8>,
}

/// Mathematical view of `Settings`.
#[verifier::ext_equal]
pub ghost struct SettingsModel {
    pub theme: Seq<u8>,
    pub max_history: usize,
    pub shortcut_toggle: Seq<u8>,
    pub shortcut_paste: Seq<u8>,
    pub poll_interval: u64,
    pub show_notifications: bool,
    pub auto_start: bool,
    pub paste_delimiter: Seq<u8>,
    pub vault_pin_hash: Seq<u8>,
}

impl View for Settings {
    type V = SettingsModel;

    open spec fn view(&self) -> SettingsModel {
        SettingsModel {
            theme: self.theme@,
            max_history: self.max_history,
            shortcut_toggle: self.shortcut_toggle@,
            shortcut_paste: self.shortcut_paste@,
            poll_interval: self.poll_interval,
            show_notifications: self.show_notifications,
            auto_start: self.auto_start,
            paste_delimiter: self.paste_delimiter@,
            vault_pin_hash: self.vault_pin_hash@,
        }
    }
}

/// The root persisted aggregate.
pub struct AppData {
    pub tabs: Vec<Tab>,
    pub items: Vec<Item>,
    pub settings: Settings,
    pub migrated_from_electron: bool,
}

/// Mathematical view of `AppData`.
#[verifier::ext_equal]
pub ghost struct AppDataModel {
    pub tabs: Seq<TabModel>,
    pub items: Seq<ItemModel>,
    pub settings: SettingsModel,
    pub migrated_from_electron: bool,
}

/// The views of a sequence of items.
pub open spec fn views_of_items(v: Seq<Item>) -> Seq<ItemModel> {
    Seq::new(v.len(), |i: int| v[i]@)
}

/// The views of a sequence of tabs.
pub open spec fn views_of_tabs(v: Seq<Tab>) -> Seq<TabModel> {
    Seq::new(v.len(), |i: int| v[i]@)
}

impl View for AppData {
    type V = AppDataModel;

    open spec fn view(&self) -> AppDataModel {
        AppDataModel {
            tabs: views_of_tabs(self.tabs@),
            items: views_of_items(self.items@),
            settings: self.settings@,
            migrated_from_electron: self.migrated_from_electron,
        }
    }
}

/// The views of a sequence of byte strings.
pub open spec fn views_of_bytes(v: Seq<Vec<u8>>) -> Seq<Seq<u8>> {
    Seq::new(v.len(), |i: int| v[i]@)
}

/// Byte-for-byte equality of two byte strings.
pub fn bytes_eq(a: &[u8], b: &[u8]) -> (r: bool)
    ensures
        r == (a@ == b@),
{
    if a.len() != b.len() {
        return false;
    }
    let n = a.len();
    let mut i: usize = 0;
    while i < n
        invariant
            0 <= i <= n,
            n == a@.len() == b@.len(),
            forall|k: int| 0 <= k < i ==> a@[k] == b@[k],
        decreases n - i,
    {
        if a[i] != b[i] {
            return false;
        }
        i = i + 1;
    }
    proof {
        assert(a@ =~= b@);
    }
    true
}

/// A byte string from a literal array.
pub fn bytes_lit<const N: usize>(a: [u8; N]) -> (r: Vec<u8>)
    ensures
        r@ == a@,
{
    vstd::slice::slice_to_vec(a.as_slice())
}

/// An exact copy of a byte string.
pub fn copy_bytes(v: &Vec<u8>) -> (r: Vec<u8>)
    ensures
        r@ == v@,
{
    vstd::slice::slice_to_vec(v.as_slice())
}

/// An exact copy of an optional byte string.
pub fn copy_opt_bytes(v: &Option<Vec<u8>>) -> (r: Option<Vec<u8>>)
    ensures
        opt_view(r) == opt_view(*v),
{
    match v {
        Option::Some(b) => Option::Some(copy_bytes(b)),
        Option::None => Option::None,
    }
}

impl Tab {
    /// An exact copy of the tab.
    pub fn duplicate(&self) -> (r: Tab)
        ensures
            r@ == self@,
    {
        Tab {
            id: copy_bytes(&self.id),
            name: copy_bytes(&self.name),
            icon: copy_bytes(&self.icon),
            system: self.system,
        }
    }
}

impl Item {
    /// An exact copy of the entry.
    pub fn duplicate(&self) -> (r: Item)
        ensures
            r@ == self@,
    {
        Item {
            id: copy_bytes(&self.id),
            kind: self.kind,
            content_text: copy_opt_bytes(&self.content_text),
            image_path: copy_opt_bytes(&self.image_path),
            mime: copy_opt_bytes(&self.mime),
            category: self.category,
            tab_id: copy_opt_bytes(&self.tab_id),
            timestamp: copy_bytes(&self.timestamp),
            pinned: self.pinned,
            label: copy_bytes(&self.label),
            content: copy_opt_bytes(&self.content),
            in_vault: self.in_vault,
        }
    }
}

impl Settings {
    /// An exact copy of the settings.
    pub fn duplicate(&self) -> (r: Settings)
        ensures
            r@ == self@,
    {
        Settings {
            theme: copy_bytes(&self.theme),
            max_history: self.max_history,
            shortcut_toggle: copy_bytes(&self.shortcut_toggle),
            shortcut_paste: copy_bytes(&self.shortcut_paste),
            poll_interval: self.poll_interval,
            show_notifications: self.show_notifications,
            auto_start: self.auto_start,
            paste_delimiter: copy_bytes(&self.paste_delimiter),
            vault_pin_hash: copy_bytes(&self.vault_pin_hash),
        }
    }
}

/// Counts reported to the caller about the stored history.
pub struct Stats {
    pub total_items: usize,
    pub pinned_items: usize,
    /// Size in bytes of the persisted file, as measured by the caller.
    pub storage_size: u64,
}

/// A page of query results together with the total match count.
pub struct HistoryResult {
    pub items: Vec<Item>,
    pub total: usize,
}

} // verus!
