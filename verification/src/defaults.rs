//! Default values: the settings a fresh installation starts with and the
//! three tabs every store begins with.
use vstd::prelude::*;

use crate::models::{AppData, AppDataModel, Settings, SettingsModel, Tab, TabModel};

verus! {

/// The default theme name.
pub open spec fn lit_theme_light() -> Seq<u8> {
    seq![108u8, 105u8, 103u8, 104u8, 116u8]
}

/// The default toggle shortcut.
pub open spec fn lit_shortcut_toggle() -> Seq<u8> {
    seq![67u8, 116u8, 114u8, 108u8, 43u8, 83u8, 104u8, 105u8, 102u8, 116u8, 43u8, 86u8]
}

/// The default paste shortcut.
pub open spec fn lit_shortcut_paste() -> Seq<u8> {
    seq![67u8, 116u8, 114u8, 108u8, 43u8, 83u8, 104u8, 105u8, 102u8, 116u8, 43u8, 66u8]
}

/// The default paste delimiter: an escaped newline token.
pub open spec fn lit_delim_newline() -> Seq<u8> {
    seq![92u8, 110u8]
}

/// The default theme name.
pub fn default_theme() -> (r: Vec<u8>)
    ensures
        r@ == lit_theme_light(),
{
    let a = [108u8, 105u8, 103u8, 104u8, 116u8];
    proof {
        assert(a@ =~= lit_theme_light());
    }
    vstd::slice::slice_to_vec(a.as_slice())
}

/// The default capacity limit.
pub fn default_max_history() -> (r: usize)
    ensures
        r == 1000,
{
    1000
}

/// The default shortcut that shows or hides the popup.
pub fn default_shortcut_toggle() -> (r: Vec<u8>)
    ensures
        r@ == lit_shortcut_toggle(),
{
    let a = [67u8, 116u8, 114u8, 108u8, 43u8, 83u8, 104u8, 105u8, 102u8, 116u8, 43u8, 86u8];
    proof {
        assert(a@ =~= lit_shortcut_toggle());
    }
    vstd::slice::slice_to_vec(a.as_slice())
}

/// The default shortcut that pastes the latest entry.
pub fn default_shortcut_paste() -> (r: Vec<u8>)
    ensures
        r@ == lit_shortcut_paste(),
{
    let a = [67u8, 116u8, 114u8, 108u8, 43u8, 83u8, 104u8, 105u8, 102u8, 116u8, 43u8, 66u8];
    proof {
        assert(a@ =~= lit_shortcut_paste());
    }
    vstd::slice::slice_to_vec(a.as_slice())
}

/// The default poll interval in milliseconds.
pub fn default_poll_interval() -> (r: u64)
    ensures
        r == 500,
{
    500
}

/// The default for boolean settings that start enabled.
pub fn default_true() -> (r: bool)
    ensures
        r == true,
{
    true
}

/// The default paste delimiter.
pub fn default_paste_delimiter() -> (r: Vec<u8>)
    ensures
        r@ == lit_delim_newline(),
{
    let a = [92u8, 110u8];
    proof {
        assert(a@ =~= lit_delim_newline());
    }
    vstd::slice::slice_to_vec(a.as_slice())
}

/// The settings of a fresh installation.
pub open spec fn spec_default_settings() -> SettingsModel {
    SettingsModel {
        theme: lit_theme_light(),
        max_history: 1000,
        shortcut_toggle: lit_shortcut_toggle(),
        shortcut_paste: lit_shortcut_paste(),
        poll_interval: 500,
        show_notifications: true,
        auto_start: false,
        paste_delimiter: lit_delim_newline(),
        vault_pin_hash: Seq::empty(),
    }
}

impl Default for Settings {
    /// The settings of a fresh installation.
    fn default() -> (s: Settings)
        ensures
            s@ == spec_default_settings(),
    {
        let s = Settings {
            theme: default_theme(),
            max_history: default_max_history(),
            shortcut_toggle: default_shortcut_toggle(),
            shortcut_paste: default_shortcut_paste(),
            poll_interval: default_poll_interval(),
            show_notifications: default_true(),
            auto_start: false,
            paste_delimiter: default_paste_delimiter(),
            vault_pin_hash: Vec::new(),
        };
        proof {
            assert(s@.vault_pin_hash =~= Seq::<u8>::empty());
        }
        s
    }
}

/// The three tabs of a fresh store: the two system tabs and one ordinary
/// starter tab.
pub open spec fn spec_default_tabs() -> Seq<TabModel> {
    seq![
        TabModel {
            id: crate::store::lit_all(),
            name: seq![65u8, 108u8, 108u8],
            icon: seq![240u8, 159u8, 147u8, 139u8],
            system: true,
        },
        TabModel {
            id: crate::store::lit_links(),
            name: seq![76u8, 105u8, 110u8, 107u8, 115u8],
            icon: seq![240u8, 159u8, 148u8, 151u8],
            system: true,
        },
        TabModel {
            id: seq![105u8, 109u8, 112u8, 111u8, 114u8, 116u8, 97u8, 110u8, 116u8],
            name: seq![73u8, 109u8, 112u8, 111u8, 114u8, 116u8, 97u8, 110u8, 116u8],
            icon: seq![226u8, 173u8, 144u8],
            system: false,
        },
    ]
}

/// The store of a fresh installation.
pub open spec fn spec_default_app_data() -> AppDataModel {
    AppDataModel {
        tabs: spec_default_tabs(),
        items: Seq::empty(),
        settings: spec_default_settings(),
        migrated_from_electron: false,
    }
}

fn bytes_of<const N: usize>(a: [u8; N]) -> (r: Vec<u8>)
    ensures
        r@ == a@,
{
    vstd::slice::slice_to_vec(a.as_slice())
}

impl Default for AppData {
    /// The store of a fresh installation.
    fn default() -> (d: AppData)
        ensures
            d@ == spec_default_app_data(),
    {
        let tab_all = Tab {
            id: bytes_of([97u8, 108u8, 108u8]),
            name: bytes_of([65u8, 108u8, 108u8]),
            icon: bytes_of([240u8, 159u8, 147u8, 139u8]),
            system: true,
        };
        let tab_links = Tab {
            id: bytes_of([108u8, 105u8, 110u8, 107u8, 115u8]),
            name: bytes_of([76u8, 105u8, 110u8, 107u8, 115u8]),
            icon: bytes_of([240u8, 159u8, 148u8, 151u8]),
            system: true,
        };
        let tab_important = Tab {
            id: bytes_of([105u8, 109u8, 112u8, 111u8, 114u8, 116u8, 97u8, 110u8, 116u8]),
            name: bytes_of([73u8, 109u8, 112u8, 111u8, 114u8, 116u8, 97u8, 110u8, 116u8]),
            icon: bytes_of([226u8, 173u8, 144u8]),
            system: false,
        };
        let mut tabs: Vec<Tab> = Vec::new();
        tabs.push(tab_all);
        tabs.push(tab_links);
        tabs.push(tab_important);
        let d = AppData {
            tabs,
            items: Vec::new(),
            settings: Settings::default(),
            migrated_from_electron: false,
        };
        proof {
            assert(d@.tabs =~= spec_default_tabs());
            assert(d@.items =~= Seq::<crate::models::ItemModel>::empty());
        }
        d
    }
}

} // verus!
