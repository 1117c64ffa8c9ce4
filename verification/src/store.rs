//! The bounded, eviction-aware history store: insertion at the front,
//! capacity eviction that never discards pinned entries, queries, and the
//! single-entry and bulk mutations.
use vstd::prelude::*;

use crate::models::{
    views_of_items, views_of_tabs, AppData, Item, ItemModel, Tab, TabModel,
};

verus! {

/// The predicate selecting pinned entries.
pub open spec fn pred_pinned() -> spec_fn(ItemModel) -> bool {
    |it: ItemModel| it.pinned
}

/// The predicate selecting unpinned entries.
pub open spec fn pred_unpinned() -> spec_fn(ItemModel) -> bool {
    |it: ItemModel| !it.pinned
}

/// The pinned entries of a history, in stored order.
pub open spec fn pinned_items(s: Seq<ItemModel>) -> Seq<ItemModel> {
    s.filter(pred_pinned())
}

/// The unpinned entries of a history, in stored order.
pub open spec fn unpinned_items(s: Seq<ItemModel>) -> Seq<ItemModel> {
    s.filter(pred_unpinned())
}

/// The result of capacity eviction: while the count exceeds `max`, the
/// store is re-formed as the full pinned subsequence followed by the first
/// `max` unpinned entries, each subsequence keeping its relative order.
pub open spec fn evicted(s: Seq<ItemModel>, max: int) -> Seq<ItemModel> {
    if s.len() <= max {
        s
    } else {
        pinned_items(s) + unpinned_items(s).take(
            vstd::math::min(max, unpinned_items(s).len() as int),
        )
    }
}

proof fn lemma_views_push(v: Seq<Item>, x: Item)
    ensures
        views_of_items(v.push(x)) =~= views_of_items(v).push(x@),
{
}

/// Filtering splits a history into its pinned and unpinned parts.
pub proof fn lemma_filter_partition(s: Seq<ItemModel>)
    ensures
        pinned_items(s).len() + unpinned_items(s).len() == s.len(),
    decreases s.len(),
{
    reveal(Seq::filter);
    if s.len() > 0 {
        lemma_filter_partition(s.drop_last());
    }
}

proof fn lemma_filter_all_hold(s: Seq<ItemModel>, pred: spec_fn(ItemModel) -> bool)
    requires
        forall|i: int| 0 <= i < s.len() ==> pred(#[trigger] s[i]),
    ensures
        s.filter(pred) =~= s,
    decreases s.len(),
{
    reveal(Seq::filter);
    if s.len() > 0 {
        lemma_filter_all_hold(s.drop_last(), pred);
    }
}

proof fn lemma_filter_none_hold(s: Seq<ItemModel>, pred: spec_fn(ItemModel) -> bool)
    requires
        forall|i: int| 0 <= i < s.len() ==> !pred(#[trigger] s[i]),
    ensures
        s.filter(pred) =~= Seq::<ItemModel>::empty(),
    decreases s.len(),
{
    reveal(Seq::filter);
    if s.len() > 0 {
        lemma_filter_none_hold(s.drop_last(), pred);
    }
}

/// Eviction never loses a pinned entry and never changes the pinned
/// subsequence: the pinned entries of the evicted store are exactly the
/// pinned entries of the store before, in the same order. The evicted
/// store holds exactly `pinned + min(max, unpinned)` entries.
pub proof fn lemma_eviction(s: Seq<ItemModel>, max: int)
    requires
        0 <= max,
    ensures
        evicted(s, max).len() == pinned_items(s).len() + vstd::math::min(
            max,
            unpinned_items(s).len() as int,
        ),
        pinned_items(evicted(s, max)) =~= pinned_items(s),
        unpinned_items(evicted(s, max)) =~= unpinned_items(s).take(
            vstd::math::min(max, unpinned_items(s).len() as int),
        ),
{
    lemma_filter_partition(s);
    Seq::lemma_filter_len(s, pred_unpinned());
    if s.len() <= max {
        lemma_filter_all_hold(pinned_items(s), pred_pinned());
        lemma_filter_all_hold(unpinned_items(s), pred_unpinned());
        assert(unpinned_items(s).take(unpinned_items(s).len() as int) =~= unpinned_items(s));
        assert(vstd::math::min(max, unpinned_items(s).len() as int)
            == unpinned_items(s).len() as int);
    } else {
        let c = vstd::math::min(max, unpinned_items(s).len() as int);
        let p = pinned_items(s);
        let u = unpinned_items(s).take(c);
        Seq::filter_distributes_over_add(p, u, pred_pinned());
        Seq::filter_distributes_over_add(p, u, pred_unpinned());
        assert forall|i: int| 0 <= i < p.len() implies pred_pinned()(#[trigger] p[i]) by {
            Seq::lemma_filter_pred(s, pred_pinned(), i);
        }
        assert forall|i: int| 0 <= i < u.len() implies pred_unpinned()(#[trigger] u[i]) by {
            assert(u[i] == unpinned_items(s)[i]);
            Seq::lemma_filter_pred(s, pred_unpinned(), i);
        }
        lemma_filter_all_hold(p, pred_pinned());
        lemma_filter_none_hold(u, pred_pinned());
        lemma_filter_none_hold(p, pred_unpinned());
        lemma_filter_all_hold(u, pred_unpinned());
        assert(pinned_items(p + u) =~= pinned_items(s));
        assert(unpinned_items(p + u) =~= u);
    }
}

/// The entries of `items` that are (or are not) pinned, as fresh copies.
fn filter_by_pin(items: &Vec<Item>, want_pinned: bool) -> (out: Vec<Item>)
    ensures
        want_pinned ==> views_of_items(out@) == pinned_items(views_of_items(items@)),
        !want_pinned ==> views_of_items(out@) == unpinned_items(views_of_items(items@)),
{
    let ghost v = views_of_items(items@);
    let ghost pred = if want_pinned {
        pred_pinned()
    } else {
        pred_unpinned()
    };
    let mut out: Vec<Item> = Vec::new();
    let n = items.len();
    let mut i: usize = 0;
    proof {
        reveal(Seq::filter);
        assert(v.take(0) =~= Seq::<ItemModel>::empty());
        assert(views_of_items(out@) =~= Seq::<ItemModel>::empty());
    }
    while i < n
        invariant
            0 <= i <= n == items@.len(),
            v == views_of_items(items@),
            pred == if want_pinned {
                pred_pinned()
            } else {
                pred_unpinned()
            },
            views_of_items(out@) == v.take(i as int).filter(pred),
        decreases n - i,
    {
        proof {
            assert(v.take(i + 1) =~= v.take(i as int).push(v[i as int]));
            Seq::lemma_filter_push(v.take(i as int), v[i as int], pred);
        }
        let it = &items[i];
        if it.pinned == want_pinned {
            let d = it.duplicate();
            proof {
                lemma_views_push(out@, d);
            }
            out.push(d);
        }
        i = i + 1;
    }
    proof {
        assert(v.take(n as int) =~= v);
    }
    out
}

/// Apply the eviction policy in place.
pub fn apply_eviction(items: &mut Vec<Item>, max: usize)
    ensures
        views_of_items(final(items)@) == evicted(views_of_items(old(items)@), max as int),
{
    let ghost v = views_of_items(old(items)@);
    if items.len() > max {
        let mut kept = filter_by_pin(items, true);
        let unpinned = filter_by_pin(items, false);
        let cut = if max < unpinned.len() {
            max
        } else {
            unpinned.len()
        };
        let ghost u = unpinned_items(v);
        let mut i: usize = 0;
        while i < cut
            invariant
                0 <= i <= cut <= unpinned@.len(),
                cut == vstd::math::min(max as int, u.len() as int),
                u == unpinned_items(v),
                views_of_items(unpinned@) == u,
                views_of_items(kept@) == pinned_items(v) + u.take(i as int),
            decreases cut - i,
        {
            let d = unpinned[i].duplicate();
            proof {
                lemma_views_push(kept@, d);
                assert(u.take(i + 1) =~= u.take(i as int).push(u[i as int]));
                assert((pinned_items(v) + u.take(i as int)).push(u[i as int]) =~= pinned_items(v)
                    + u.take(i + 1));
            }
            kept.push(d);
            i = i + 1;
        }
        *items = kept;
    } else {
        proof {
            assert(evicted(v, max as int) == v);
        }
    }
}

/// Insert a freshly captured entry at the front of the history, then apply
/// the eviction policy with capacity `max`.
pub fn insert_front(items: &mut Vec<Item>, entry: Item, max: usize)
    ensures
        views_of_items(final(items)@) == evicted(
            seq![entry@] + views_of_items(old(items)@),
            max as int,
        ),
{
    let ghost v = views_of_items(old(items)@);
    let ghost e = entry@;
    items.insert(0, entry);
    proof {
        assert(views_of_items(items@) =~= seq![e] + v);
    }
    apply_eviction(items, max);
}

/// The position of the first entry with the given id, or -1.
pub open spec fn find_id(s: Seq<ItemModel>, id: Seq<u8>) -> int
    decreases s.len(),
{
    if s.len() == 0 {
        -1
    } else if s[0].id == id {
        0
    } else {
        let r = find_id(s.drop_first(), id);
        if r < 0 {
            -1
        } else {
            r + 1
        }
    }
}

proof fn lemma_find_id(s: Seq<ItemModel>, id: Seq<u8>, i: int)
    requires
        0 <= i <= s.len(),
        forall|k: int| 0 <= k < i ==> (#[trigger] s[k]).id != id,
        i == s.len() || s[i].id == id,
    ensures
        find_id(s, id) == if i == s.len() {
            -1int
        } else {
            i
        },
    decreases i,
{
    if i == 0 {
    } else {
        assert(s[0].id != id);
        lemma_find_id(s.drop_first(), id, i - 1);
    }
}

proof fn lemma_find_id_props(s: Seq<ItemModel>, id: Seq<u8>)
    ensures
        find_id(s, id) == -1 || (0 <= find_id(s, id) < s.len() && s[find_id(s, id)].id == id),
    decreases s.len(),
{
    if s.len() > 0 && s[0].id != id {
        lemma_find_id_props(s.drop_first(), id);
    }
}

/// The position of the first entry whose id equals `id`, if any.
fn find_index(items: &Vec<Item>, id: &[u8]) -> (r: Option<usize>)
    ensures
        match r {
            Option::Some(j) => find_id(views_of_items(items@), id@) == j as int && j
                < items@.len(),
            Option::None => find_id(views_of_items(items@), id@) == -1,
        },
{
    let ghost v = views_of_items(items@);
    let n = items.len();
    let mut i: usize = 0;
    while i < n
        invariant
            0 <= i <= n == items@.len(),
            v == views_of_items(items@),
            forall|k: int| 0 <= k < i ==> (#[trigger] v[k]).id != id@,
        decreases n - i,
    {
        if crate::models::bytes_eq(items[i].id.as_slice(), id) {
            proof {
                lemma_find_id(v, id@, i as int);
            }
            return Option::Some(i);
        }
        i = i + 1;
    }
    proof {
        lemma_find_id(v, id@, n as int);
    }
    Option::None
}

/// The model of the history after replacing the entry at `j` by `e`.
pub open spec fn updated_at(s: Seq<ItemModel>, j: int, e: ItemModel) -> Seq<ItemModel> {
    s.update(j, e)
}

/// Toggle the pinned flag of the entry with the given id. Returns the new
/// flag, or nothing when no entry has that id (the store is unchanged
/// then).
pub fn pin_item(data: &mut AppData, id: &[u8]) -> (r: Option<bool>)
    ensures
        final(data)@.tabs == old(data)@.tabs,
        final(data)@.settings == old(data)@.settings,
        final(data)@.migrated_from_electron == old(data)@.migrated_from_electron,
        ({
            let s = old(data)@.items;
            let j = find_id(s, id@);
            match r {
                Option::None => j == -1 && final(data)@.items == s,
                Option::Some(p) => 0 <= j < s.len() && p == !s[j].pinned && final(data)@.items
                    == updated_at(s, j, ItemModel { pinned: p, ..s[j] }),
            }
        }),
{
    let ghost s = views_of_items(old(data).items@);
    match find_index(&data.items, id) {
        Option::None => Option::None,
        Option::Some(j) => {
            let mut e = data.items.remove(j);
            e.pinned = !e.pinned;
            let p = e.pinned;
            proof {
                lemma_find_id_props(s, id@);
            }
            let ghost em = e@;
            data.items.insert(j, e);
            proof {
                assert(views_of_items(data.items@) =~= updated_at(s, j as int, em));
            }
            Option::Some(p)
        },
    }
}

/// Assign the entry with the given id to a tab. Returns whether an entry
/// with that id exists; without one the store is unchanged.
pub fn move_to_tab(data: &mut AppData, item_id: &[u8], tab_id: Vec<u8>) -> (r: bool)
    ensures
        final(data)@.tabs == old(data)@.tabs,
        final(data)@.settings == old(data)@.settings,
        final(data)@.migrated_from_electron == old(data)@.migrated_from_electron,
        ({
            let s = old(data)@.items;
            let j = find_id(s, item_id@);
            if r {
                0 <= j < s.len() && final(data)@.items == updated_at(
                    s,
                    j,
                    ItemModel { tab_id: Option::Some(tab_id@), ..s[j] },
                )
            } else {
                j == -1 && final(data)@.items == s
            }
        }),
{
    let ghost s = views_of_items(old(data).items@);
    match find_index(&data.items, item_id) {
        Option::None => false,
        Option::Some(j) => {
            let mut e = data.items.remove(j);
            e.tab_id = Option::Some(tab_id);
            proof {
                lemma_find_id_props(s, item_id@);
            }
            let ghost em = e@;
            data.items.insert(j, e);
            proof {
                assert(views_of_items(data.items@) =~= updated_at(s, j as int, em));
            }
            true
        },
    }
}

/// Set the user label of the entry with the given id. Returns whether an
/// entry with that id exists; without one the store is unchanged.
pub fn label_item(data: &mut AppData, id: &[u8], label: Vec<u8>) -> (r: bool)
    ensures
        final(data)@.tabs == old(data)@.tabs,
        final(data)@.settings == old(data)@.settings,
        final(data)@.migrated_from_electron == old(data)@.migrated_from_electron,
        ({
            let s = old(data)@.items;
            let j = find_id(s, id@);
            if r {
                0 <= j < s.len() && final(data)@.items == updated_at(
                    s,
                    j,
                    ItemModel { label: label@, ..s[j] },
                )
            } else {
                j == -1 && final(data)@.items == s
            }
        }),
{
    let ghost s = views_of_items(old(data).items@);
    match find_index(&data.items, id) {
        Option::None => false,
        Option::Some(j) => {
            let mut e = data.items.remove(j);
            e.label = label;
            proof {
                lemma_find_id_props(s, id@);
            }
            let ghost em = e@;
            data.items.insert(j, e);
            proof {
                assert(views_of_items(data.items@) =~= updated_at(s, j as int, em));
            }
            true
        },
    }
}

/// Set or clear the vault flag of the entry with the given id. Returns
/// whether an entry with that id exists; without one the store is
/// unchanged.
pub fn set_vault_membership(data: &mut AppData, id: &[u8], in_vault: bool) -> (r: bool)
    ensures
        final(data)@.tabs == old(data)@.tabs,
        final(data)@.settings == old(data)@.settings,
        final(data)@.migrated_from_electron == old(data)@.migrated_from_electron,
        ({
            let s = old(data)@.items;
            let j = find_id(s, id@);
            if r {
                0 <= j < s.len() && final(data)@.items == updated_at(
                    s,
                    j,
                    ItemModel { in_vault: in_vault, ..s[j] },
                )
            } else {
                j == -1 && final(data)@.items == s
            }
        }),
{
    let ghost s = views_of_items(old(data).items@);
    match find_index(&data.items, id) {
        Option::None => false,
        Option::Some(j) => {
            let mut e = data.items.remove(j);
            e.in_vault = in_vault;
            proof {
                lemma_find_id_props(s, id@);
            }
            let ghost em = e@;
            data.items.insert(j, e);
            proof {
                assert(views_of_items(data.items@) =~= updated_at(s, j as int, em));
            }
            true
        },
    }
}

/// The predicate keeping entries whose id differs from `id`.
pub open spec fn pred_not_id(id: Seq<u8>) -> spec_fn(ItemModel) -> bool {
    |it: ItemModel| it.id != id
}

/// Is `id` one of the listed ids?
pub open spec fn has_id(ids: Seq<Seq<u8>>, id: Seq<u8>) -> bool {
    exists|k: int| 0 <= k < ids.len() && #[trigger] ids[k] == id
}

/// The predicate keeping entries whose id is not among `ids`.
pub open spec fn pred_not_in(ids: Seq<Seq<u8>>) -> spec_fn(ItemModel) -> bool {
    |it: ItemModel| !has_id(ids, it.id)
}

/// Remove the entry (or entries) with the given id.
pub fn delete_item(data: &mut AppData, id: &[u8])
    ensures
        final(data)@.tabs == old(data)@.tabs,
        final(data)@.settings == old(data)@.settings,
        final(data)@.migrated_from_electron == old(data)@.migrated_from_electron,
        final(data)@.items == old(data)@.items.filter(pred_not_id(id@)),
{
    let ghost v = views_of_items(old(data).items@);
    let ghost pred = pred_not_id(id@);
    let mut out: Vec<Item> = Vec::new();
    let n = data.items.len();
    let mut i: usize = 0;
    proof {
        reveal(Seq::filter);
        assert(v.take(0) =~= Seq::<ItemModel>::empty());
        assert(views_of_items(out@) =~= Seq::<ItemModel>::empty());
    }
    while i < n
        invariant
            0 <= i <= n == data.items@.len(),
            v == views_of_items(data.items@),
            pred == pred_not_id(id@),
            views_of_items(out@) == v.take(i as int).filter(pred),
        decreases n - i,
    {
        proof {
            assert(v.take(i + 1) =~= v.take(i as int).push(v[i as int]));
            Seq::lemma_filter_push(v.take(i as int), v[i as int], pred);
        }
        let it = &data.items[i];
        if !crate::models::bytes_eq(it.id.as_slice(), id) {
            let d = it.duplicate();
            proof {
                lemma_views_push(out@, d);
            }
            out.push(d);
        }
        i = i + 1;
    }
    proof {
        assert(v.take(n as int) =~= v);
    }
    data.items = out;
}

/// Is `id` among the listed ids?
fn ids_contain(ids: &Vec<Vec<u8>>, id: &[u8]) -> (r: bool)
    ensures
        r == has_id(crate::models::views_of_bytes(ids@), id@),
{
    let ghost w = crate::models::views_of_bytes(ids@);
    let n = ids.len();
    let mut k: usize = 0;
    while k < n
        invariant
            0 <= k <= n == ids@.len(),
            w == crate::models::views_of_bytes(ids@),
            forall|j: int| 0 <= j < k ==> w[j] != id@,
        decreases n - k,
    {
        if crate::models::bytes_eq(ids[k].as_slice(), id) {
            assert(w[k as int] == id@);
            return true;
        }
        k = k + 1;
    }
    false
}

/// Remove every entry whose id is among `ids`.
pub fn delete_multiple(data: &mut AppData, ids: &Vec<Vec<u8>>)
    ensures
        final(data)@.tabs == old(data)@.tabs,
        final(data)@.settings == old(data)@.settings,
        final(data)@.migrated_from_electron == old(data)@.migrated_from_electron,
        final(data)@.items == old(data)@.items.filter(
            pred_not_in(crate::models::views_of_bytes(ids@)),
        ),
{
    let ghost v = views_of_items(old(data).items@);
    let ghost pred = pred_not_in(crate::models::views_of_bytes(ids@));
    let mut out: Vec<Item> = Vec::new();
    let n = data.items.len();
    let mut i: usize = 0;
    proof {
        reveal(Seq::filter);
        assert(v.take(0) =~= Seq::<ItemModel>::empty());
        assert(views_of_items(out@) =~= Seq::<ItemModel>::empty());
    }
    while i < n
        invariant
            0 <= i <= n == data.items@.len(),
            v == views_of_items(data.items@),
            pred == pred_not_in(crate::models::views_of_bytes(ids@)),
            views_of_items(out@) == v.take(i as int).filter(pred),
        decreases n - i,
    {
        proof {
            assert(v.take(i + 1) =~= v.take(i as int).push(v[i as int]));
            Seq::lemma_filter_push(v.take(i as int), v[i as int], pred);
        }
        let it = &data.items[i];
        if !ids_contain(ids, it.id.as_slice()) {
            let d = it.duplicate();
            proof {
                lemma_views_push(out@, d);
            }
            out.push(d);
        }
        i = i + 1;
    }
    proof {
        assert(v.take(n as int) =~= v);
    }
    data.items = out;
}

/// The id of the reserved tab matching every entry.
pub open spec fn lit_all() -> Seq<u8> {
    seq![97u8, 108u8, 108u8]
}

/// The id of the reserved links tab.
pub open spec fn lit_links() -> Seq<u8> {
    seq![108u8, 105u8, 110u8, 107u8, 115u8]
}

/// The predicate keeping entries that survive a clear restricted to tab
/// `t`: pinned entries, and entries assigned to another tab.
pub open spec fn pred_clear_keep(t: Seq<u8>) -> spec_fn(ItemModel) -> bool {
    |it: ItemModel| it.pinned || it.tab_id != Option::Some(t)
}

/// The entries kept by a bulk clear with the given optional tab filter.
pub open spec fn clear_kept(s: Seq<ItemModel>, filter: Option<Seq<u8>>) -> Seq<ItemModel> {
    match filter {
        Option::None => s.filter(pred_pinned()),
        Option::Some(t) => if t == lit_all() {
            s.filter(pred_pinned())
        } else {
            s.filter(pred_clear_keep(t))
        },
    }
}

/// Bulk clear: remove the unpinned entries matching the optional tab
/// filter. Pinned entries always survive, whatever the filter.
pub fn clear_history(data: &mut AppData, tab_filter: Option<&Vec<u8>>)
    ensures
        final(data)@.tabs == old(data)@.tabs,
        final(data)@.settings == old(data)@.settings,
        final(data)@.migrated_from_electron == old(data)@.migrated_from_electron,
        final(data)@.items == clear_kept(
            old(data)@.items,
            match tab_filter {
                Option::Some(t) => Option::Some(t@),
                Option::None => Option::None,
            },
        ),
{
    let ghost v = views_of_items(old(data).items@);
    let all = [97u8, 108u8, 108u8];
    let by_tab: Option<&Vec<u8>> = match tab_filter {
        Option::Some(t) => {
            if crate::models::bytes_eq(t.as_slice(), all.as_slice()) {
                Option::None
            } else {
                Option::Some(t)
            }
        },
        Option::None => Option::None,
    };
    proof {
        assert(all@ =~= lit_all());
    }
    let ghost pred = match by_tab {
        Option::Some(t) => pred_clear_keep(t@),
        Option::None => pred_pinned(),
    };
    let mut out: Vec<Item> = Vec::new();
    let n = data.items.len();
    let mut i: usize = 0;
    proof {
        reveal(Seq::filter);
        assert(v.take(0) =~= Seq::<ItemModel>::empty());
        assert(views_of_items(out@) =~= Seq::<ItemModel>::empty());
    }
    while i < n
        invariant
            0 <= i <= n == data.items@.len(),
            v == views_of_items(data.items@),
            pred == match by_tab {
                Option::Some(t) => pred_clear_keep(t@),
                Option::None => pred_pinned(),
            },
            views_of_items(out@) == v.take(i as int).filter(pred),
        decreases n - i,
    {
        proof {
            assert(v.take(i + 1) =~= v.take(i as int).push(v[i as int]));
            Seq::lemma_filter_push(v.take(i as int), v[i as int], pred);
        }
        let it = &data.items[i];
        let keep = match by_tab {
            Option::Some(t) => it.pinned || match &it.tab_id {
                Option::Some(tb) => !crate::models::bytes_eq(tb.as_slice(), t.as_slice()),
                Option::None => true,
            },
            Option::None => it.pinned,
        };
        if keep {
            let d = it.duplicate();
            proof {
                lemma_views_push(out@, d);
            }
            out.push(d);
        }
        i = i + 1;
    }
    proof {
        assert(v.take(n as int) =~= v);
    }
    data.items = out;
}

/// A bulk clear without a tab filter keeps exactly the pinned entries, in
/// their stored order: every kept entry is pinned, and every pinned entry
/// of the store survives, whatever tab it is assigned to.
pub proof fn lemma_bulk_clear_no_filter(s: Seq<ItemModel>)
    ensures
        clear_kept(s, Option::None) == pinned_items(s),
        forall|i: int|
            0 <= i < clear_kept(s, Option::None).len() ==> (#[trigger] clear_kept(
                s,
                Option::None,
            )[i]).pinned,
        forall|i: int|
            0 <= i < s.len() && (#[trigger] s[i]).pinned ==> clear_kept(s, Option::None).contains(
                s[i],
            ),
{
    assert forall|i: int| 0 <= i < clear_kept(s, Option::None).len() implies (
    #[trigger] clear_kept(s, Option::None)[i]).pinned by {
        Seq::lemma_filter_pred(s, pred_pinned(), i);
    }
    assert forall|i: int| 0 <= i < s.len() && (#[trigger] s[i]).pinned implies clear_kept(
        s,
        Option::None,
    ).contains(s[i]) by {
        Seq::lemma_filter_contains(s, pred_pinned(), i);
    }
}

/// The position of the first tab with the given id, or -1.
pub open spec fn find_tab(s: Seq<TabModel>, id: Seq<u8>) -> int
    decreases s.len(),
{
    if s.len() == 0 {
        -1
    } else if s[0].id == id {
        0
    } else {
        let r = find_tab(s.drop_first(), id);
        if r < 0 {
            -1
        } else {
            r + 1
        }
    }
}

proof fn lemma_find_tab(s: Seq<TabModel>, id: Seq<u8>, i: int)
    requires
        0 <= i <= s.len(),
        forall|k: int| 0 <= k < i ==> (#[trigger] s[k]).id != id,
        i == s.len() || s[i].id == id,
    ensures
        find_tab(s, id) == if i == s.len() {
            -1int
        } else {
            i
        },
    decreases i,
{
    if i > 0 {
        assert(s[0].id != id);
        lemma_find_tab(s.drop_first(), id, i - 1);
    }
}

proof fn lemma_find_tab_props(s: Seq<TabModel>, id: Seq<u8>)
    ensures
        find_tab(s, id) == -1 || (0 <= find_tab(s, id) < s.len() && s[find_tab(s, id)].id == id),
    decreases s.len(),
{
    if s.len() > 0 && s[0].id != id {
        lemma_find_tab_props(s.drop_first(), id);
    }
}

/// The position of the first tab whose id equals `id`, if any.
fn find_tab_index(tabs: &Vec<Tab>, id: &[u8]) -> (r: Option<usize>)
    ensures
        match r {
            Option::Some(j) => find_tab(views_of_tabs(tabs@), id@) == j as int && j < tabs@.len(),
            Option::None => find_tab(views_of_tabs(tabs@), id@) == -1,
        },
{
    let ghost v = views_of_tabs(tabs@);
    let n = tabs.len();
    let mut i: usize = 0;
    while i < n
        invariant
            0 <= i <= n == tabs@.len(),
            v == views_of_tabs(tabs@),
            forall|k: int| 0 <= k < i ==> (#[trigger] v[k]).id != id@,
        decreases n - i,
    {
        if crate::models::bytes_eq(tabs[i].id.as_slice(), id) {
            proof {
                lemma_find_tab(v, id@, i as int);
            }
            return Option::Some(i);
        }
        i = i + 1;
    }
    proof {
        lemma_find_tab(v, id@, n as int);
    }
    Option::None
}

proof fn lemma_tab_views_push(v: Seq<Tab>, x: Tab)
    ensures
        views_of_tabs(v.push(x)) =~= views_of_tabs(v).push(x@),
{
}

/// The predicate keeping tabs whose id differs from `id`.
pub open spec fn pred_tab_not_id(id: Seq<u8>) -> spec_fn(TabModel) -> bool {
    |t: TabModel| t.id != id
}

/// The history after a tab is deleted: every entry that referenced the tab
/// has its assignment cleared; no entry is removed and nothing else of an
/// entry changes.
pub open spec fn untab_items(s: Seq<ItemModel>, id: Seq<u8>) -> Seq<ItemModel> {
    Seq::new(
        s.len(),
        |i: int|
            if s[i].tab_id == Option::Some(id) {
                ItemModel { tab_id: Option::None, ..s[i] }
            } else {
                s[i]
            },
    )
}

/// Delete a non-system tab. Fails, leaving the store unchanged, when no
/// tab has the given id or the tab is a system tab. On success the tab is
/// removed and every entry that referenced it is kept with its assignment
/// cleared.
pub fn delete_tab(data: &mut AppData, id: &[u8]) -> (r: bool)
    ensures
        final(data)@.settings == old(data)@.settings,
        final(data)@.migrated_from_electron == old(data)@.migrated_from_electron,
        ({
            let tabs = old(data)@.tabs;
            let tj = find_tab(tabs, id@);
            if r {
                &&& 0 <= tj < tabs.len() && !tabs[tj].system
                &&& final(data)@.tabs == tabs.filter(pred_tab_not_id(id@))
                &&& final(data)@.items == untab_items(old(data)@.items, id@)
            } else {
                &&& (tj == -1 || tabs[tj].system)
                &&& final(data)@.tabs == tabs
                &&& final(data)@.items == old(data)@.items
            }
        }),
{
    let ghost tv = views_of_tabs(old(data).tabs@);
    let ghost v = views_of_items(old(data).items@);
    let is_system = match find_tab_index(&data.tabs, id) {
        Option::Some(j) => data.tabs[j].system,
        Option::None => true,
    };
    proof {
        lemma_find_tab_props(tv, id@);
    }
    if is_system {
        return false;
    }
    // Remove the tab itself.
    let ghost tpred = pred_tab_not_id(id@);
    let mut kept_tabs: Vec<Tab> = Vec::new();
    let tn = data.tabs.len();
    let mut i: usize = 0;
    proof {
        reveal(Seq::filter);
        assert(tv.take(0) =~= Seq::<TabModel>::empty());
        assert(views_of_tabs(kept_tabs@) =~= Seq::<TabModel>::empty());
    }
    while i < tn
        invariant
            0 <= i <= tn == data.tabs@.len(),
            tv == views_of_tabs(data.tabs@),
            tpred == pred_tab_not_id(id@),
            views_of_tabs(kept_tabs@) == tv.take(i as int).filter(tpred),
        decreases tn - i,
    {
        proof {
            assert(tv.take(i + 1) =~= tv.take(i as int).push(tv[i as int]));
            Seq::lemma_filter_push(tv.take(i as int), tv[i as int], tpred);
        }
        let t = &data.tabs[i];
        if !crate::models::bytes_eq(t.id.as_slice(), id) {
            let d = t.duplicate();
            proof {
                lemma_tab_views_push(kept_tabs@, d);
            }
            kept_tabs.push(d);
        }
        i = i + 1;
    }
    proof {
        assert(tv.take(tn as int) =~= tv);
    }
    data.tabs = kept_tabs;
    // Clear the soft references of the entries that pointed at the tab.
    let mut out: Vec<Item> = Vec::new();
    let n = data.items.len();
    let mut k: usize = 0;
    proof {
        assert(views_of_items(out@) =~= untab_items(v, id@).take(0));
    }
    while k < n
        invariant
            0 <= k <= n == data.items@.len(),
            v == views_of_items(data.items@),
            views_of_items(out@) == untab_items(v, id@).take(k as int),
        decreases n - k,
    {
        let it = &data.items[k];
        let referenced = match &it.tab_id {
            Option::Some(tb) => crate::models::bytes_eq(tb.as_slice(), id),
            Option::None => false,
        };
        let mut d = it.duplicate();
        if referenced {
            d.tab_id = Option::None;
        }
        proof {
            lemma_views_push(out@, d);
            assert(untab_items(v, id@).take(k + 1) =~= untab_items(v, id@).take(k as int).push(
                untab_items(v, id@)[k as int],
            ));
        }
        out.push(d);
        k = k + 1;
    }
    proof {
        assert(untab_items(v, id@).take(n as int) =~= untab_items(v, id@));
    }
    data.items = out;
    true
}

/// Deleting a tab never deletes an entry: the history keeps its length and
/// its ids; entries that referenced the tab lose only their assignment,
/// and all other entries are untouched.
pub proof fn lemma_delete_tab_preserves_entries(s: Seq<ItemModel>, id: Seq<u8>)
    ensures
        untab_items(s, id).len() == s.len(),
        forall|i: int| 0 <= i < s.len() ==> (#[trigger] untab_items(s, id)[i]).id == s[i].id,
        forall|i: int|
            0 <= i < s.len() && s[i].tab_id == Option::Some(id) ==> (#[trigger] untab_items(
                s,
                id,
            )[i]) == (ItemModel { tab_id: Option::<Seq<u8>>::None, ..s[i] }),
        forall|i: int|
            0 <= i < s.len() && s[i].tab_id != Option::Some(id) ==> (#[trigger] untab_items(
                s,
                id,
            )[i]) == s[i],
{
}

/// Rename a non-system tab and/or change its icon. Fails, leaving the
/// store unchanged, when no tab has the given id or the tab is a system
/// tab.
pub fn rename_tab(
    data: &mut AppData,
    id: &[u8],
    name: Option<Vec<u8>>,
    icon: Option<Vec<u8>>,
) -> (r: bool)
    ensures
        final(data)@.items == old(data)@.items,
        final(data)@.settings == old(data)@.settings,
        final(data)@.migrated_from_electron == old(data)@.migrated_from_electron,
        ({
            let tabs = old(data)@.tabs;
            let tj = find_tab(tabs, id@);
            if r {
                &&& 0 <= tj < tabs.len() && !tabs[tj].system
                &&& final(data)@.tabs == tabs.update(
                    tj,
                    TabModel {
                        name: match name {
                            Option::Some(n) => n@,
                            Option::None => tabs[tj].name,
                        },
                        icon: match icon {
                            Option::Some(ic) => ic@,
                            Option::None => tabs[tj].icon,
                        },
                        ..tabs[tj]
                    },
                )
            } else {
                &&& (tj == -1 || tabs[tj].system)
                &&& final(data)@.tabs == tabs
            }
        }),
{
    let ghost tv = views_of_tabs(old(data).tabs@);
    match find_tab_index(&data.tabs, id) {
        Option::None => false,
        Option::Some(j) => {
            proof {
                lemma_find_tab_props(tv, id@);
            }
            if data.tabs[j].system {
                return false;
            }
            let mut t = data.tabs.remove(j);
            match name {
                Option::Some(n) => {
                    t.name = n;
                },
                Option::None => {},
            }
            match icon {
                Option::Some(ic) => {
                    t.icon = ic;
                },
                Option::None => {},
            }
            let ghost tm = t@;
            data.tabs.insert(j, t);
            proof {
                assert(views_of_tabs(data.tabs@) =~= tv.update(j as int, tm));
            }
            true
        },
    }
}

/// The icon given to a tab created without one.
pub open spec fn default_tab_icon() -> Seq<u8> {
    seq![240u8, 159u8, 147u8, 129u8]
}

/// Create a fresh non-system tab with the given id, appended after the
/// existing tabs, and return a copy of it.
pub fn create_tab(data: &mut AppData, name: Vec<u8>, icon: Option<Vec<u8>>, id: Vec<u8>) -> (t: Tab)
    ensures
        final(data)@.items == old(data)@.items,
        final(data)@.settings == old(data)@.settings,
        final(data)@.migrated_from_electron == old(data)@.migrated_from_electron,
        final(data)@.tabs == old(data)@.tabs.push(t@),
        t@.id == id@,
        t@.name == name@,
        t@.system == false,
        t@.icon == match icon {
            Option::Some(ic) => ic@,
            Option::None => default_tab_icon(),
        },
{
    let icon_bytes = match icon {
        Option::Some(ic) => ic,
        Option::None => {
            let folder = [240u8, 159u8, 147u8, 129u8];
            proof {
                assert(folder@ =~= default_tab_icon());
            }
            vstd::slice::slice_to_vec(folder.as_slice())
        },
    };
    let tab = Tab { id, name, icon: icon_bytes, system: false };
    let copy = tab.duplicate();
    let ghost tv = views_of_tabs(old(data).tabs@);
    let ghost tm = tab@;
    data.tabs.push(tab);
    proof {
        assert(views_of_tabs(data.tabs@) =~= tv.push(tm));
    }
    copy
}

/// Copies of all tabs, in stored order.
pub fn get_tabs(data: &AppData) -> (r: Vec<Tab>)
    ensures
        views_of_tabs(r@) == data@.tabs,
{
    let mut out: Vec<Tab> = Vec::new();
    let n = data.tabs.len();
    let mut i: usize = 0;
    proof {
        assert(views_of_tabs(out@) =~= data@.tabs.take(0));
    }
    while i < n
        invariant
            0 <= i <= n == data.tabs@.len(),
            views_of_tabs(out@) == views_of_tabs(data.tabs@).take(i as int),
        decreases n - i,
    {
        let d = data.tabs[i].duplicate();
        proof {
            lemma_tab_views_push(out@, d);
            assert(views_of_tabs(data.tabs@).take(i + 1) =~= views_of_tabs(data.tabs@).take(
                i as int,
            ).push(views_of_tabs(data.tabs@)[i as int]));
        }
        out.push(d);
        i = i + 1;
    }
    proof {
        assert(views_of_tabs(data.tabs@).take(n as int) =~= views_of_tabs(data.tabs@));
    }
    out
}

/// Counts about the stored history; the size of the persisted file is
/// measured by the caller and passed through.
pub fn get_stats(data: &AppData, storage_size: u64) -> (r: crate::models::Stats)
    ensures
        r.total_items == data@.items.len(),
        r.pinned_items == pinned_items(data@.items).len(),
        r.storage_size == storage_size,
{
    let ghost v = views_of_items(data.items@);
    let n = data.items.len();
    let mut pinned_count: usize = 0;
    let mut i: usize = 0;
    proof {
        reveal(Seq::filter);
        assert(v.take(0) =~= Seq::<ItemModel>::empty());
    }
    while i < n
        invariant
            0 <= i <= n == data.items@.len(),
            v == views_of_items(data.items@),
            pinned_count == v.take(i as int).filter(pred_pinned()).len(),
            pinned_count <= i,
        decreases n - i,
    {
        proof {
            assert(v.take(i + 1) =~= v.take(i as int).push(v[i as int]));
            Seq::lemma_filter_push(v.take(i as int), v[i as int], pred_pinned());
            Seq::lemma_filter_len(v.take(i as int), pred_pinned());
        }
        if data.items[i].pinned {
            pinned_count = pinned_count + 1;
        }
        i = i + 1;
    }
    proof {
        assert(v.take(n as int) =~= v);
    }
    crate::models::Stats { total_items: n, pinned_items: pinned_count, storage_size }
}

/// A partial settings update: only the fields the caller supplies change.
pub struct SettingsPatch {
    pub theme: Option<Vec<u8>>,
    pub max_history: Option<usize>,
    pub shortcut_toggle: Option<Vec<u8>>,
    pub paste_delimiter: Option<Vec<u8>>,
    pub poll_interval: Option<u64>,
}

/// A copy of the current settings.
pub fn get_settings(data: &AppData) -> (r: crate::models::Settings)
    ensures
        r@ == data@.settings,
{
    data.settings.duplicate()
}

/// Merge a partial settings update into the store: each supplied field
/// replaces the stored one, every other field keeps its value.
pub fn set_settings(data: &mut AppData, patch: SettingsPatch)
    ensures
        final(data)@.tabs == old(data)@.tabs,
        final(data)@.items == old(data)@.items,
        final(data)@.migrated_from_electron == old(data)@.migrated_from_electron,
        final(data)@.settings.theme == (match patch.theme {
            Option::Some(v) => v@,
            Option::None => old(data)@.settings.theme,
        }),
        final(data)@.settings.max_history == (match patch.max_history {
            Option::Some(v) => v,
            Option::None => old(data)@.settings.max_history,
        }),
        final(data)@.settings.shortcut_toggle == (match patch.shortcut_toggle {
            Option::Some(v) => v@,
            Option::None => old(data)@.settings.shortcut_toggle,
        }),
        final(data)@.settings.paste_delimiter == (match patch.paste_delimiter {
            Option::Some(v) => v@,
            Option::None => old(data)@.settings.paste_delimiter,
        }),
        final(data)@.settings.poll_interval == (match patch.poll_interval {
            Option::Some(v) => v,
            Option::None => old(data)@.settings.poll_interval,
        }),
        final(data)@.settings.shortcut_paste == old(data)@.settings.shortcut_paste,
        final(data)@.settings.show_notifications == old(data)@.settings.show_notifications,
        final(data)@.settings.auto_start == old(data)@.settings.auto_start,
        final(data)@.settings.vault_pin_hash == old(data)@.settings.vault_pin_hash,
{
    match patch.theme {
        Option::Some(v) => {
            data.settings.theme = v;
        },
        Option::None => {},
    }
    match patch.max_history {
        Option::Some(v) => {
            data.settings.max_history = v;
        },
        Option::None => {},
    }
    match patch.shortcut_toggle {
        Option::Some(v) => {
            data.settings.shortcut_toggle = v;
        },
        Option::None => {},
    }
    match patch.paste_delimiter {
        Option::Some(v) => {
            data.settings.paste_delimiter = v;
        },
        Option::None => {},
    }
    match patch.poll_interval {
        Option::Some(v) => {
            data.settings.poll_interval = v;
        },
        Option::None => {},
    }
}

/// Store the hash of a fresh vault PIN.
pub fn set_vault_pin(data: &mut AppData, pin: &[u8])
    ensures
        final(data)@.tabs == old(data)@.tabs,
        final(data)@.items == old(data)@.items,
        final(data)@.migrated_from_electron == old(data)@.migrated_from_electron,
        final(data)@.settings == (crate::models::SettingsModel {
            vault_pin_hash: crate::hash::spec_simple_hash(pin@),
            ..old(data)@.settings
        }),
{
    data.settings.vault_pin_hash = crate::hash::simple_hash(pin);
}

/// Does the PIN match the stored hash?
pub fn verify_vault_pin(data: &AppData, pin: &[u8]) -> (r: bool)
    ensures
        r == (data@.settings.vault_pin_hash == crate::hash::spec_simple_hash(pin@)),
{
    let h = crate::hash::simple_hash(pin);
    crate::models::bytes_eq(data.settings.vault_pin_hash.as_slice(), h.as_slice())
}

/// Is a vault PIN set?
pub fn has_vault_pin(data: &AppData) -> (r: bool)
    ensures
        r == (data@.settings.vault_pin_hash.len() > 0),
{
    data.settings.vault_pin_hash.len() > 0
}

/// The predicate selecting vault entries.
pub open spec fn pred_in_vault() -> spec_fn(ItemModel) -> bool {
    |it: ItemModel| it.in_vault
}

/// Copies of the entries that are in the vault, in stored order.
pub fn get_vault_items(data: &AppData) -> (r: Vec<Item>)
    ensures
        views_of_items(r@) == data@.items.filter(pred_in_vault()),
{
    let ghost v = views_of_items(data.items@);
    let mut out: Vec<Item> = Vec::new();
    let n = data.items.len();
    let mut i: usize = 0;
    proof {
        reveal(Seq::filter);
        assert(v.take(0) =~= Seq::<ItemModel>::empty());
        assert(views_of_items(out@) =~= Seq::<ItemModel>::empty());
    }
    while i < n
        invariant
            0 <= i <= n == data.items@.len(),
            v == views_of_items(data.items@),
            views_of_items(out@) == v.take(i as int).filter(pred_in_vault()),
        decreases n - i,
    {
        proof {
            assert(v.take(i + 1) =~= v.take(i as int).push(v[i as int]));
            Seq::lemma_filter_push(v.take(i as int), v[i as int], pred_in_vault());
        }
        let it = &data.items[i];
        if it.in_vault {
            let d = it.duplicate();
            proof {
                lemma_views_push(out@, d);
            }
            out.push(d);
        }
        i = i + 1;
    }
    proof {
        assert(v.take(n as int) =~= v);
    }
    out
}

} // verus!
