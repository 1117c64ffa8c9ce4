//! History queries: tab and free-text filtering, the pinned-first,
//! newest-first result ordering, and pagination.
use vstd::prelude::*;

use crate::classify::{contains_seq, contains_sub};
use crate::models::{
    bytes_eq, views_of_items, AppData, Category, HistoryResult, Item, ItemModel,
};
use crate::store::{lit_all, lit_links};

verus! {

/// Lexicographic byte order: is `x` less than or equal to `y`?
pub open spec fn lex_leq(x: Seq<u8>, y: Seq<u8>) -> bool
    decreases x.len(),
{
    if x.len() == 0 {
        true
    } else if y.len() == 0 {
        false
    } else if x[0] < y[0] {
        true
    } else if x[0] > y[0] {
        false
    } else {
        lex_leq(x.drop_first(), y.drop_first())
    }
}

proof fn lemma_lex_total(x: Seq<u8>, y: Seq<u8>)
    ensures
        lex_leq(x, y) || lex_leq(y, x),
    decreases x.len(),
{
    if x.len() > 0 && y.len() > 0 && x[0] == y[0] {
        lemma_lex_total(x.drop_first(), y.drop_first());
    }
}

proof fn lemma_lex_trans(x: Seq<u8>, y: Seq<u8>, z: Seq<u8>)
    requires
        lex_leq(x, y),
        lex_leq(y, z),
    ensures
        lex_leq(x, z),
    decreases x.len(),
{
    if x.len() > 0 {
        if x[0] == y[0] && y[0] == z[0] {
            lemma_lex_trans(x.drop_first(), y.drop_first(), z.drop_first());
        }
    }
}

/// Is `x` lexicographically less than or equal to `y`?
pub fn lex_leq_exec(x: &[u8], y: &[u8]) -> (r: bool)
    ensures
        r == lex_leq(x@, y@),
{
    let xl = x.len();
    let yl = y.len();
    let mut i: usize = 0;
    proof {
        assert(x@.skip(0) =~= x@);
        assert(y@.skip(0) =~= y@);
    }
    while i < xl && i < yl
        invariant
            0 <= i <= xl == x@.len(),
            i <= yl == y@.len(),
            lex_leq(x@, y@) == lex_leq(x@.skip(i as int), y@.skip(i as int)),
        decreases xl - i,
    {
        let a = x[i];
        let b = y[i];
        proof {
            assert(x@.skip(i as int)[0] == x@[i as int]);
            assert(y@.skip(i as int)[0] == y@[i as int]);
        }
        if a < b {
            return true;
        }
        if a > b {
            return false;
        }
        proof {
            assert(x@.skip(i as int).drop_first() =~= x@.skip(i + 1));
            assert(y@.skip(i as int).drop_first() =~= y@.skip(i + 1));
        }
        i = i + 1;
    }
    proof {
        if i == xl {
            assert(x@.skip(i as int).len() == 0);
        } else {
            assert(y@.skip(i as int).len() == 0);
            assert(x@.skip(i as int).len() > 0);
        }
    }
    i == xl
}

/// The result ordering of a history query: pinned entries first, and
/// within the same pinned rank, newer capture times first.
pub open spec fn leq_entry(a: ItemModel, b: ItemModel) -> bool {
    if a.pinned != b.pinned {
        a.pinned
    } else {
        lex_leq(b.timestamp, a.timestamp)
    }
}

/// The ordering as a relation value, for `sorted_by`.
pub open spec fn leq_entry_fn() -> spec_fn(ItemModel, ItemModel) -> bool {
    |a: ItemModel, b: ItemModel| leq_entry(a, b)
}

proof fn lemma_leq_entry_total(a: ItemModel, b: ItemModel)
    ensures
        leq_entry(a, b) || leq_entry(b, a),
{
    lemma_lex_total(a.timestamp, b.timestamp);
}

proof fn lemma_leq_entry_trans(a: ItemModel, b: ItemModel, c: ItemModel)
    requires
        leq_entry(a, b),
        leq_entry(b, c),
    ensures
        leq_entry(a, c),
{
    if a.pinned == b.pinned && b.pinned == c.pinned {
        lemma_lex_trans(c.timestamp, b.timestamp, a.timestamp);
    }
}

/// Is `a` ordered at or before `b` in query results?
fn leq_entry_exec(a: &Item, b: &Item) -> (r: bool)
    ensures
        r == leq_entry(a@, b@),
{
    if a.pinned != b.pinned {
        a.pinned
    } else {
        lex_leq_exec(b.timestamp.as_slice(), a.timestamp.as_slice())
    }
}

proof fn lemma_views_insert(v: Seq<Item>, j: int, x: Item)
    requires
        0 <= j <= v.len(),
    ensures
        views_of_items(v.insert(j, x)) =~= views_of_items(v).insert(j, x@),
{
}

proof fn lemma_to_multiset_insert(s: Seq<ItemModel>, j: int, x: ItemModel)
    requires
        0 <= j <= s.len(),
    ensures
        s.insert(j, x).to_multiset() == s.to_multiset().insert(x),
{
    broadcast use vstd::seq_lib::group_to_multiset_ensures;

    assert(s.insert(j, x) =~= s.take(j).push(x) + s.skip(j));
    vstd::seq_lib::lemma_multiset_commutative(s.take(j).push(x), s.skip(j));
    assert(s.take(j).push(x).to_multiset() =~= s.take(j).to_multiset().insert(x));
    assert(s =~= s.take(j) + s.skip(j));
    vstd::seq_lib::lemma_multiset_commutative(s.take(j), s.skip(j));
    assert(s.take(j).to_multiset().insert(x).add(s.skip(j).to_multiset()) =~= s.take(
        j,
    ).to_multiset().add(s.skip(j).to_multiset()).insert(x));
}

/// An entry placed into an ordered sequence, after every entry ordered
/// at or before it: entries that compare equal keep their arrival order.
pub open spec fn insert_sorted(e: ItemModel, s: Seq<ItemModel>) -> Seq<ItemModel>
    decreases s.len(),
{
    if s.len() == 0 {
        seq![e]
    } else if leq_entry(s[0], e) {
        seq![s[0]] + insert_sorted(e, s.drop_first())
    } else {
        seq![e] + s
    }
}

/// The query order of a history: its entries taken in stored order, each
/// placed after the entries ordered at or before it. Pinned entries come
/// first, newer capture times before older, and entries that compare
/// equal — same pinned flag and same timestamp — keep their stored
/// order, so the sort is stable.
pub open spec fn sort_spec(s: Seq<ItemModel>) -> Seq<ItemModel>
    decreases s.len(),
{
    if s.len() == 0 {
        Seq::empty()
    } else {
        insert_sorted(s.last(), sort_spec(s.drop_last()))
    }
}

/// `insert_sorted` places the entry at the first position whose entry is
/// not ordered at or before it.
proof fn lemma_insert_sorted_at(e: ItemModel, s: Seq<ItemModel>, j: int)
    requires
        0 <= j <= s.len(),
        forall|k: int| 0 <= k < j ==> leq_entry(#[trigger] s[k], e),
        j == s.len() || !leq_entry(s[j], e),
    ensures
        insert_sorted(e, s) =~= s.take(j) + seq![e] + s.skip(j),
    decreases j,
{
    if j == 0 {
        if s.len() == 0 {
            assert(insert_sorted(e, s) =~= seq![e]);
        } else {
            assert(!leq_entry(s[0], e));
        }
        assert(s.take(0) =~= Seq::<ItemModel>::empty());
        assert(s.skip(0) =~= s);
    } else {
        assert(leq_entry(s[0], e));
        lemma_insert_sorted_at(e, s.drop_first(), j - 1);
        assert(s.drop_first().take(j - 1) =~= s.take(j).drop_first());
        assert(s.drop_first().skip(j - 1) =~= s.skip(j));
        assert(seq![s[0]] + (s.take(j).drop_first() + seq![e] + s.skip(j)) =~= s.take(j)
            + seq![e] + s.skip(j));
    }
}

/// Sort entries into query order: pinned first, then newest first,
/// stable among equal keys. The result is exactly the stable sort of the
/// input, and with it a sorted permutation.
fn sort_entries(items: Vec<Item>) -> (out: Vec<Item>)
    ensures
        views_of_items(out@) == sort_spec(views_of_items(items@)),
        vstd::relations::sorted_by(views_of_items(out@), leq_entry_fn()),
        views_of_items(out@).to_multiset() == views_of_items(items@).to_multiset(),
{
    broadcast use vstd::seq_lib::group_to_multiset_ensures;

    let ghost v = views_of_items(items@);
    let mut out: Vec<Item> = Vec::new();
    let n = items.len();
    let mut i: usize = 0;
    proof {
        assert(v.take(0) =~= Seq::<ItemModel>::empty());
        assert(views_of_items(out@) =~= Seq::<ItemModel>::empty());
        assert(Seq::<ItemModel>::empty().to_multiset() =~= views_of_items(out@).to_multiset());
    }
    proof {
        assert(sort_spec(v.take(0)) =~= Seq::<ItemModel>::empty());
    }
    while i < n
        invariant
            0 <= i <= n == items@.len(),
            v == views_of_items(items@),
            views_of_items(out@) == sort_spec(v.take(i as int)),
            vstd::relations::sorted_by(views_of_items(out@), leq_entry_fn()),
            views_of_items(out@).to_multiset() == v.take(i as int).to_multiset(),
        decreases n - i,
    {
        let it = items[i].duplicate();
        let ghost itm = it@;
        let ghost w = views_of_items(out@);
        let m = out.len();
        let mut j: usize = 0;
        while j < m && leq_entry_exec(&out[j], &it)
            invariant
                0 <= j <= m == out@.len(),
                w == views_of_items(out@),
                itm == it@,
                forall|k: int| 0 <= k < j ==> leq_entry(#[trigger] w[k], itm),
            decreases m - j,
        {
            j = j + 1;
        }
        proof {
            broadcast use vstd::seq_lib::group_to_multiset_ensures;

            lemma_views_insert(out@, j as int, it);
            lemma_to_multiset_insert(w, j as int, itm);
            // The element is ordered after everything before `j` and, by
            // totality and transitivity, before everything from `j` on.
            if j < m {
                lemma_leq_entry_total(w[j as int], itm);
            }
            assert forall|k: int| j <= k < m implies leq_entry(itm, #[trigger] w[k]) by {
                assert(leq_entry(itm, w[j as int]));
                if k > j {
                    assert(leq_entry_fn()(w[j as int], w[k]));
                    lemma_leq_entry_trans(itm, w[j as int], w[k]);
                }
            }
            let w2 = w.insert(j as int, itm);
            assert forall|p: int, q: int| 0 <= p < q < w2.len() implies leq_entry_fn()(
                w2[p],
                w2[q],
            ) by {
                if p < j && q < j {
                } else if p < j && q == j {
                    assert(w2[p] == w[p] && w2[q] == itm);
                } else if p == j {
                    assert(w2[p] == itm && w2[q] == w[q - 1]);
                } else if p < j {
                    assert(w2[p] == w[p] && w2[q] == w[q - 1]);
                } else {
                    assert(w2[p] == w[p - 1] && w2[q] == w[q - 1]);
                }
            }
            assert(v.take(i + 1) =~= v.take(i as int).push(v[i as int]));
            assert(itm == v[i as int]);
            assert(v.take(i as int).push(itm).to_multiset() == v.take(i as int)
                .to_multiset()
                .insert(itm));
            // The chosen position is exactly where the stable insertion
            // places the entry.
            lemma_insert_sorted_at(itm, w, j as int);
            assert(w.insert(j as int, itm) =~= w.take(j as int) + seq![itm] + w.skip(j as int));
            assert(v.take(i + 1).drop_last() =~= v.take(i as int));
            assert(v.take(i + 1).last() == itm);
            assert(sort_spec(v.take(i + 1)) == insert_sorted(itm, sort_spec(v.take(i as int))));
            assert(w.insert(j as int, itm) == sort_spec(v.take(i + 1)));
        }
        out.insert(j, it);
        i = i + 1;
    }
    proof {
        assert(v.take(n as int) =~= v);
    }
    out
}

/// ASCII lowercase of one byte.
pub open spec fn lower_byte(b: u8) -> u8 {
    if 65 <= b <= 90 {
        (b + 32) as u8
    } else {
        b
    }
}

/// ASCII lowercase of a byte string.
pub open spec fn lower_bytes(s: Seq<u8>) -> Seq<u8> {
    Seq::new(s.len(), |i: int| lower_byte(s[i]))
}

/// ASCII lowercase of a byte string.
pub fn to_lower(s: &[u8]) -> (r: Vec<u8>)
    ensures
        r@ == lower_bytes(s@),
{
    let n = s.len();
    let mut out: Vec<u8> = Vec::new();
    let mut i: usize = 0;
    while i < n
        invariant
            0 <= i <= n == s@.len(),
            out@ =~= lower_bytes(s@).take(i as int),
        decreases n - i,
    {
        let b = s[i];
        let l = if 65 <= b && b <= 90 {
            b + 32
        } else {
            b
        };
        out.push(l);
        proof {
            assert(out@ =~= lower_bytes(s@).take(i + 1));
        }
        i = i + 1;
    }
    proof {
        assert(lower_bytes(s@).take(n as int) =~= lower_bytes(s@));
    }
    out
}

/// The persisted name of a category.
pub open spec fn category_name(c: Category) -> Seq<u8> {
    match c {
        Category::Text => seq![116u8, 101u8, 120u8, 116u8],
        Category::Link => seq![108u8, 105u8, 110u8, 107u8],
        Category::Email => seq![101u8, 109u8, 97u8, 105u8, 108u8],
        Category::Phone => seq![112u8, 104u8, 111u8, 110u8, 101u8],
        Category::Code => seq![99u8, 111u8, 100u8, 101u8],
        Category::Image => seq![105u8, 109u8, 97u8, 103u8, 101u8],
    }
}

/// The persisted name of a category.
pub fn category_name_bytes(c: Category) -> (r: Vec<u8>)
    ensures
        r@ =~= category_name(c),
{
    match c {
        Category::Text => vstd::slice::slice_to_vec([116u8, 101u8, 120u8, 116u8].as_slice()),
        Category::Link => vstd::slice::slice_to_vec([108u8, 105u8, 110u8, 107u8].as_slice()),
        Category::Email => vstd::slice::slice_to_vec(
            [101u8, 109u8, 97u8, 105u8, 108u8].as_slice(),
        ),
        Category::Phone => vstd::slice::slice_to_vec(
            [112u8, 104u8, 111u8, 110u8, 101u8].as_slice(),
        ),
        Category::Code => vstd::slice::slice_to_vec([99u8, 111u8, 100u8, 101u8].as_slice()),
        Category::Image => vstd::slice::slice_to_vec(
            [105u8, 109u8, 97u8, 103u8, 101u8].as_slice(),
        ),
    }
}

/// Does an entry fall under the given tab filter? The reserved links tab
/// also matches entries classified as links, wherever they are assigned.
pub open spec fn matches_tab(it: ItemModel, tab: Option<Seq<u8>>) -> bool {
    match tab {
        Option::None => true,
        Option::Some(t) => if t == lit_all() {
            true
        } else if t == lit_links() {
            it.category == Category::Link || it.tab_id == Option::Some(lit_links())
        } else {
            it.tab_id == Option::Some(t)
        },
    }
}

/// Does an entry match the free-text search? Case-insensitive substring
/// match across the displayable text, the label and the category name.
pub open spec fn matches_search(it: ItemModel, search: Option<Seq<u8>>) -> bool {
    match search {
        Option::None => true,
        Option::Some(q) => q.len() == 0 || ({
            let ql = lower_bytes(q);
            contains_seq(lower_bytes(it.text()), ql) || contains_seq(lower_bytes(it.label), ql)
                || contains_seq(lower_bytes(category_name(it.category)), ql)
        }),
    }
}

/// The query predicate: the conjunction of the tab filter and the search.
pub open spec fn pred_query(tab: Option<Seq<u8>>, search: Option<Seq<u8>>) -> spec_fn(
    ItemModel,
) -> bool {
    |it: ItemModel| matches_tab(it, tab) && matches_search(it, search)
}

/// The view of an optional byte-string argument.
pub open spec fn opt_arg_view(o: Option<&Vec<u8>>) -> Option<Seq<u8>> {
    match o {
        Option::Some(v) => Option::Some(v@),
        Option::None => Option::None,
    }
}

/// Does the entry fall under the tab filter?
fn matches_tab_exec(it: &Item, tab: Option<&Vec<u8>>) -> (r: bool)
    ensures
        r == matches_tab(it@, opt_arg_view(tab)),
{
    match tab {
        Option::None => true,
        Option::Some(t) => {
            let all = [97u8, 108u8, 108u8];
            let links = [108u8, 105u8, 110u8, 107u8, 115u8];
            proof {
                assert(all@ =~= lit_all());
                assert(links@ =~= lit_links());
            }
            if bytes_eq(t.as_slice(), all.as_slice()) {
                true
            } else if bytes_eq(t.as_slice(), links.as_slice()) {
                let is_link = match it.category {
                    Category::Link => true,
                    _ => false,
                };
                is_link || match &it.tab_id {
                    Option::Some(tb) => bytes_eq(tb.as_slice(), links.as_slice()),
                    Option::None => false,
                }
            } else {
                match &it.tab_id {
                    Option::Some(tb) => bytes_eq(tb.as_slice(), t.as_slice()),
                    Option::None => false,
                }
            }
        },
    }
}

/// Does the entry match the lowered search needle?
fn matches_needle_exec(it: &Item, ql: &[u8]) -> (r: bool)
    ensures
        r == ({
            let q = ql@;
            contains_seq(lower_bytes(it@.text()), q) || contains_seq(lower_bytes(it@.label), q)
                || contains_seq(lower_bytes(category_name(it@.category)), q)
        }),
{
    let text_l = to_lower(it.get_text());
    if contains_sub(text_l.as_slice(), ql) {
        return true;
    }
    let label_l = to_lower(it.label.as_slice());
    if contains_sub(label_l.as_slice(), ql) {
        return true;
    }
    let cat = category_name_bytes(it.category);
    let cat_l = to_lower(cat.as_slice());
    contains_sub(cat_l.as_slice(), ql)
}

/// Query the history: apply the tab filter and the search, order the
/// matches pinned-first then newest-first — stable, so matches with the
/// same pinned flag and capture time keep their stored order — report
/// the total match count, and return at most `page_size` (500 when
/// unset) leading entries.
pub fn get_history(
    data: &AppData,
    search: Option<&Vec<u8>>,
    tab_id: Option<&Vec<u8>>,
    page_size: Option<usize>,
) -> (r: HistoryResult)
    ensures
        ({
            let filtered = data@.items.filter(
                pred_query(opt_arg_view(tab_id), opt_arg_view(search)),
            );
            let cap = match page_size {
                Option::Some(p) => p as int,
                Option::None => 500int,
            };
            &&& r.total == filtered.len()
            &&& views_of_items(r.items@) == sort_spec(filtered).take(
                vstd::math::min(cap, filtered.len() as int),
            )
            &&& vstd::relations::sorted_by(views_of_items(r.items@), leq_entry_fn())
        }),
{
    let ghost v = views_of_items(data.items@);
    let ghost pred = pred_query(opt_arg_view(tab_id), opt_arg_view(search));
    // Lower the needle once; an empty or missing needle matches everything.
    let needle: Option<Vec<u8>> = match search {
        Option::Some(q) => {
            if q.len() == 0 {
                Option::None
            } else {
                Option::Some(to_lower(q.as_slice()))
            }
        },
        Option::None => Option::None,
    };
    let mut matches: Vec<Item> = Vec::new();
    let n = data.items.len();
    let mut i: usize = 0;
    proof {
        reveal(Seq::filter);
        assert(v.take(0) =~= Seq::<ItemModel>::empty());
        assert(views_of_items(matches@) =~= Seq::<ItemModel>::empty());
    }
    while i < n
        invariant
            0 <= i <= n == data.items@.len(),
            v == views_of_items(data.items@),
            pred == pred_query(opt_arg_view(tab_id), opt_arg_view(search)),
            views_of_items(matches@) == v.take(i as int).filter(pred),
            match needle {
                Option::Some(q) => match search {
                    Option::Some(s) => s@.len() > 0 && q@ == lower_bytes(s@),
                    Option::None => false,
                },
                Option::None => match search {
                    Option::Some(s) => s@.len() == 0,
                    Option::None => true,
                },
            },
        decreases n - i,
    {
        proof {
            assert(v.take(i + 1) =~= v.take(i as int).push(v[i as int]));
            Seq::lemma_filter_push(v.take(i as int), v[i as int], pred);
        }
        let it = &data.items[i];
        let keep = matches_tab_exec(it, tab_id) && match &needle {
            Option::Some(q) => matches_needle_exec(it, q.as_slice()),
            Option::None => true,
        };
        if keep {
            let d = it.duplicate();
            proof {
                assert(views_of_items(matches@.push(d)) =~= views_of_items(matches@).push(d@));
            }
            matches.push(d);
        }
        i = i + 1;
    }
    proof {
        assert(v.take(n as int) =~= v);
    }
    let ghost filtered = views_of_items(matches@);
    let total = matches.len();
    let mut sorted = sort_entries(matches);
    let ghost full = views_of_items(sorted@);
    let cap = match page_size {
        Option::Some(p) => p,
        Option::None => 500,
    };
    proof {
        broadcast use vstd::seq_lib::group_to_multiset_ensures;

        assert(full == sort_spec(filtered));
        assert(full.to_multiset().len() == full.len());
        assert(filtered.to_multiset().len() == filtered.len());
        assert(full.len() == filtered.len());
    }
    sorted.truncate(cap);
    proof {
        let c = vstd::math::min(cap as int, filtered.len() as int);
        assert(views_of_items(sorted@) =~= full.take(c));
        assert forall|p: int, q: int|
            0 <= p < q < views_of_items(sorted@).len() implies leq_entry_fn()(
            views_of_items(sorted@)[p],
            views_of_items(sorted@)[q],
        ) by {
            assert(views_of_items(sorted@)[p] == full[p]);
            assert(views_of_items(sorted@)[q] == full[q]);
        }
    }
    HistoryResult { items: sorted, total }
}

} // verus!
