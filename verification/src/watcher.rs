//! The change detector: content fingerprints of the last seen clipboard
//! text and image, and the strictly sequential per-poll step that
//! deduplicates, classifies, builds the entry, and inserts it into the
//! bounded store.
use vstd::prelude::*;

use crate::classify::spec_classify;
use crate::models::{
    bytes_lit, copy_bytes, opt_view, views_of_items, AppData, Category, Item, ItemKind, ItemModel,
};
use crate::outside::{now_millis, png_of, sha256, sha256_of, uuid_v4};
use crate::store::{evicted, insert_front, lit_links};

verus! {

/// The change detector's state: one fingerprint for the last seen text
/// and one for the last seen image bytes.
pub struct Watcher {
    pub last_text_digest: Option<Vec<u8>>,
    pub last_image_digest: Option<Vec<u8>>,
}

/// Mathematical view of a `Watcher`.
#[verifier::ext_equal]
pub ghost struct WatcherModel {
    pub last_text: Option<Seq<u8>>,
    pub last_image: Option<Seq<u8>>,
}

impl View for Watcher {
    type V = WatcherModel;

    open spec fn view(&self) -> WatcherModel {
        WatcherModel {
            last_text: opt_view(self.last_text_digest),
            last_image: opt_view(self.last_image_digest),
        }
    }
}

/// A poll captures text exactly when the text is non-empty and its
/// digest differs from the stored fingerprint. Equal content always has
/// an equal digest, so writing identical content back never captures.
pub open spec fn should_capture_text(w: WatcherModel, text: Seq<u8>) -> bool {
    text.len() > 0 && w.last_text != Option::Some(sha256_of(text))
}

/// A poll captures an image exactly when the pixel buffer is non-empty
/// and its digest differs from the stored image fingerprint.
pub open spec fn should_capture_image(w: WatcherModel, rgba: Seq<u8>) -> bool {
    rgba.len() > 0 && w.last_image != Option::Some(sha256_of(rgba))
}

/// The entry built for captured text: classified once, and implicitly
/// assigned to the reserved links tab when classified as a link.
pub open spec fn captured_text_item(text: Seq<u8>, id: Seq<u8>, ts: Seq<u8>) -> ItemModel {
    let category = spec_classify(text);
    ItemModel {
        id,
        kind: ItemKind::Text,
        content_text: Option::Some(text),
        image_path: Option::None,
        mime: Option::None,
        category,
        tab_id: if category == Category::Link {
            Option::Some(lit_links())
        } else {
            Option::None
        },
        timestamp: ts,
        pinned: false,
        label: Seq::empty(),
        content: Option::Some(text),
        in_vault: false,
    }
}

/// The file name an image entry references: the id with a `.png` suffix.
pub open spec fn png_name(id: Seq<u8>) -> Seq<u8> {
    id + seq![46u8, 112u8, 110u8, 103u8]
}

/// The MIME type of stored images.
pub open spec fn lit_image_png() -> Seq<u8> {
    seq![105u8, 109u8, 97u8, 103u8, 101u8, 47u8, 112u8, 110u8, 103u8]
}

/// The entry built for a captured image.
pub open spec fn captured_image_item(id: Seq<u8>, ts: Seq<u8>) -> ItemModel {
    ItemModel {
        id,
        kind: ItemKind::Image,
        content_text: Option::None,
        image_path: Option::Some(png_name(id)),
        mime: Option::Some(lit_image_png()),
        category: Category::Image,
        tab_id: Option::None,
        timestamp: ts,
        pinned: false,
        label: Seq::empty(),
        content: Option::None,
        in_vault: false,
    }
}

/// One text poll at the level of models: either nothing changes, or the
/// fingerprint is updated and the new entry is inserted at the front of
/// the history, which is then evicted to capacity.
pub open spec fn text_step(
    w: WatcherModel,
    items: Seq<ItemModel>,
    max: int,
    text: Seq<u8>,
    id: Seq<u8>,
    ts: Seq<u8>,
) -> (WatcherModel, Seq<ItemModel>) {
    if should_capture_text(w, text) {
        (
            WatcherModel { last_text: Option::Some(sha256_of(text)), ..w },
            evicted(seq![captured_text_item(text, id, ts)] + items, max),
        )
    } else {
        (w, items)
    }
}

impl Watcher {
    /// A fresh detector that has seen nothing.
    pub fn new() -> (w: Watcher)
        ensures
            w@.last_text is None,
            w@.last_image is None,
    {
        Watcher { last_text_digest: Option::None, last_image_digest: Option::None }
    }

    /// Seed the text fingerprint from the clipboard's current content at
    /// startup, so pre-existing content is not re-ingested as new.
    pub fn seed_text(&mut self, text: &[u8])
        ensures
            final(self)@.last_image == old(self)@.last_image,
            text@.len() > 0 ==> final(self)@.last_text == Option::Some(sha256_of(text@)),
            text@.len() == 0 ==> final(self)@.last_text == old(self)@.last_text,
    {
        if text.len() > 0 {
            self.last_text_digest = Option::Some(sha256(text));
        }
    }

    /// One text poll: capture the text when it is non-empty and its
    /// digest differs from the stored fingerprint. On capture the entry
    /// is returned for the caller to announce.
    pub fn observe_text(
        &mut self,
        data: &mut AppData,
        text: &[u8],
        id: Vec<u8>,
        timestamp: Vec<u8>,
    ) -> (r: Option<Item>)
        ensures
            ({
                let step = text_step(
                    old(self)@,
                    old(data)@.items,
                    old(data)@.settings.max_history as int,
                    text@,
                    id@,
                    timestamp@,
                );
                &&& final(self)@ == step.0
                &&& final(data)@.items == step.1
                &&& final(data)@.tabs == old(data)@.tabs
                &&& final(data)@.settings == old(data)@.settings
                &&& final(data)@.migrated_from_electron == old(data)@.migrated_from_electron
                &&& if should_capture_text(old(self)@, text@) {
                    r is Some && r.unwrap()@ == captured_text_item(text@, id@, timestamp@)
                } else {
                    r is None
                }
            }),
    {
        if text.len() == 0 {
            return Option::None;
        }
        let digest = sha256(text);
        let same = match &self.last_text_digest {
            Option::Some(d) => crate::models::bytes_eq(d.as_slice(), digest.as_slice()),
            Option::None => false,
        };
        if same {
            proof {
                assert(old(self)@.last_text == Option::Some(sha256_of(text@)));
            }
            return Option::None;
        }
        self.last_text_digest = Option::Some(digest);
        let category = crate::classify::detect_category(text);
        let tab_id: Option<Vec<u8>> = match category {
            Category::Link => Option::Some(bytes_lit([108u8, 105u8, 110u8, 107u8, 115u8])),
            _ => Option::None,
        };
        proof {
            assert(opt_view(tab_id) == (if spec_classify(text@) == Category::Link {
                Option::Some(lit_links())
            } else {
                Option::<Seq<u8>>::None
            }));
        }
        let entry = Item {
            id,
            kind: ItemKind::Text,
            content_text: Option::Some(vstd::slice::slice_to_vec(text)),
            image_path: Option::None,
            mime: Option::None,
            category,
            tab_id,
            timestamp,
            pinned: false,
            label: Vec::new(),
            content: Option::Some(vstd::slice::slice_to_vec(text)),
            in_vault: false,
        };
        let copy = entry.duplicate();
        proof {
            assert(entry@ =~= captured_text_item(text@, entry.id@, entry.timestamp@));
        }
        let max = data.settings.max_history;
        insert_front(&mut data.items, entry, max);
        Option::Some(copy)
    }

    /// One image poll: capture the pixel buffer when it is non-empty and
    /// its digest differs from the stored image fingerprint. The
    /// fingerprint is updated on every capture; an entry comes out only
    /// when the buffer encodes as PNG, and with it the encoded file
    /// content for the caller to write under the entry's file name.
    pub fn observe_image(
        &mut self,
        data: &mut AppData,
        rgba: &[u8],
        width: u32,
        height: u32,
        id: Vec<u8>,
        timestamp: Vec<u8>,
    ) -> (r: Option<(Item, Vec<u8>)>)
        requires
            rgba@.len() == 4 * (width as int) * (height as int),
        ensures
            final(self)@.last_text == old(self)@.last_text,
            final(data)@.tabs == old(data)@.tabs,
            final(data)@.settings == old(data)@.settings,
            final(data)@.migrated_from_electron == old(data)@.migrated_from_electron,
            !should_capture_image(old(self)@, rgba@) ==> final(self)@ == old(self)@
                && final(data)@.items == old(data)@.items && r is None,
            should_capture_image(old(self)@, rgba@) ==> final(self)@.last_image == Option::Some(
                sha256_of(rgba@),
            ),
            should_capture_image(old(self)@, rgba@) && r is None ==> final(data)@.items
                == old(data)@.items,
            should_capture_image(old(self)@, rgba@) && r is Some ==> ({
                let entry = captured_image_item(id@, timestamp@);
                &&& r.unwrap().0@ == entry
                &&& r.unwrap().1@ == png_of(rgba@, width, height)
                &&& final(data)@.items == evicted(
                    seq![entry] + old(data)@.items,
                    old(data)@.settings.max_history as int,
                )
            }),
    {
        if rgba.len() == 0 {
            return Option::None;
        }
        let digest = sha256(rgba);
        let same = match &self.last_image_digest {
            Option::Some(d) => crate::models::bytes_eq(d.as_slice(), digest.as_slice()),
            Option::None => false,
        };
        if same {
            proof {
                assert(old(self)@.last_image == Option::Some(sha256_of(rgba@)));
            }
            return Option::None;
        }
        self.last_image_digest = Option::Some(digest);
        let png = match crate::outside::encode_png(rgba, width, height) {
            Option::Some(p) => p,
            Option::None => {
                return Option::None;
            },
        };
        let mut filename = copy_bytes(&id);
        filename.push(46);
        filename.push(112);
        filename.push(110);
        filename.push(103);
        proof {
            assert(filename@ =~= png_name(id@));
        }
        let entry = Item {
            id,
            kind: ItemKind::Image,
            content_text: Option::None,
            image_path: Option::Some(filename),
            mime: Option::Some(
                bytes_lit([105u8, 109u8, 97u8, 103u8, 101u8, 47u8, 112u8, 110u8, 103u8]),
            ),
            category: Category::Image,
            tab_id: Option::None,
            timestamp,
            pinned: false,
            label: Vec::new(),
            content: Option::None,
            in_vault: false,
        };
        let copy = entry.duplicate();
        proof {
            assert(entry@ =~= captured_image_item(entry.id@, entry.timestamp@));
        }
        let max = data.settings.max_history;
        insert_front(&mut data.items, entry, max);
        Option::Some((copy, png))
    }
}

/// A fresh entry id: the capture time in milliseconds followed by the
/// first eight characters of a random identifier. Which millisecond and
/// which random characters depend on the clock and the random source;
/// the shape — some signed decimal followed by an eight-byte suffix —
/// does not.
pub fn fresh_entry_id() -> (r: Vec<u8>)
    ensures
        r@.len() >= 9,
        (exists|millis: int, suffix: Seq<u8>|
            suffix.len() == 8 && r@ == crate::num::dec_of_int(millis) + suffix),
{
    let millis = now_millis();
    let mut v = crate::num::i64_to_dec(millis);
    let u = uuid_v4();
    proof {
        crate::num::lemma_dec_of_int_len(millis as int);
        assert(u@.take(0) =~= Seq::<u8>::empty());
        assert(v@ =~= crate::num::dec_of_int(millis as int) + u@.take(0));
    }
    let mut k: usize = 0;
    while k < 8
        invariant
            0 <= k <= 8,
            u@.len() == 36,
            v@ == crate::num::dec_of_int(millis as int) + u@.take(k as int),
            v@.len() >= 1 + k,
        decreases 8 - k,
    {
        proof {
            assert((crate::num::dec_of_int(millis as int) + u@.take(k as int)).push(u@[k as int])
                =~= crate::num::dec_of_int(millis as int) + u@.take(k + 1));
        }
        v.push(u[k]);
        k = k + 1;
    }
    proof {
        assert(u@.take(8).len() == 8);
        assert(v@ == crate::num::dec_of_int(millis as int) + u@.take(8));
    }
    v
}

/// The RFC 3339 text of a UTC instant with the given calendar fields:
/// zero-padded date and time joined by the documented separators, with
/// the +00:00 offset. A year outside the four-digit range keeps its
/// plain signed decimal digits.
pub open spec fn rfc3339_utc(y: int, mo: int, d: int, h: int, mi: int, s: int) -> Seq<u8> {
    rfc3339_year(y) + seq![45u8] + crate::num::dec_padded(mo as nat, 2) + seq![45u8]
        + crate::num::dec_padded(d as nat, 2) + seq![84u8] + crate::num::dec_padded(h as nat, 2)
        + seq![58u8] + crate::num::dec_padded(mi as nat, 2) + seq![58u8] + crate::num::dec_padded(
        s as nat,
        2,
    ) + seq![43u8, 48u8, 48u8, 58u8, 48u8, 48u8]
}

/// The year part of an RFC 3339 timestamp.
pub open spec fn rfc3339_year(y: int) -> Seq<u8> {
    if 0 <= y <= 9999 {
        crate::num::dec_padded(y as nat, 4)
    } else {
        crate::num::dec_of_int(y)
    }
}

/// Render a UTC instant in RFC 3339 text.
#[verifier::rlimit(100)]
fn format_rfc3339_utc(y: i32, mo: u32, d: u32, h: u32, mi: u32, s: u32) -> (r: Vec<u8>)
    ensures
        r@ == rfc3339_utc(y as int, mo as int, d as int, h as int, mi as int, s as int),
{
    let mut out: Vec<u8> = Vec::new();
    if 0 <= y && y <= 9999 {
        crate::num::push_dec_padded(&mut out, y as u64, 4);
    } else {
        let digits = crate::num::i64_to_dec(y as i64);
        let n = digits.len();
        let mut k: usize = 0;
        while k < n
            invariant
                0 <= k <= n == digits@.len(),
                out@ == digits@.take(k as int),
            decreases n - k,
        {
            proof {
                assert(digits@.take(k as int).push(digits@[k as int]) =~= digits@.take(k + 1));
            }
            out.push(digits[k]);
            k = k + 1;
        }
        proof {
            assert(digits@.take(n as int) =~= digits@);
        }
    }
    proof {
        assert(out@ == rfc3339_year(y as int));
    }
    out.push(45);
    crate::num::push_dec_padded(&mut out, mo as u64, 2);
    out.push(45);
    crate::num::push_dec_padded(&mut out, d as u64, 2);
    out.push(84);
    crate::num::push_dec_padded(&mut out, h as u64, 2);
    out.push(58);
    crate::num::push_dec_padded(&mut out, mi as u64, 2);
    out.push(58);
    crate::num::push_dec_padded(&mut out, s as u64, 2);
    out.push(43);
    out.push(48);
    out.push(48);
    out.push(58);
    out.push(48);
    out.push(48);
    proof {
        assert(out@ =~= rfc3339_utc(y as int, mo as int, d as int, h as int, mi as int, s as int));
    }
    out
}

/// A fresh capture timestamp: the current UTC instant in RFC 3339 text.
/// Which instant depends on the clock; the layout, with its fields in
/// the accessors' documented ranges, does not.
pub fn fresh_timestamp() -> (r: Vec<u8>)
    ensures
        (exists|y: int, mo: int, d: int, h: int, mi: int, s: int|
            1 <= mo <= 12 && 1 <= d <= 31 && 0 <= h < 24 && 0 <= mi < 60 && 0 <= s < 60 && r@
                == rfc3339_utc(y, mo, d, h, mi, s)),
{
    let (y, mo, d, h, mi, s) = crate::outside::now_utc_fields();
    let out = format_rfc3339_utc(y, mo, d, h, mi, s);
    proof {
        assert(out@ == rfc3339_utc(
            y as int,
            mo as int,
            d as int,
            h as int,
            mi as int,
            s as int,
        ));
    }
    out
}

/// A fresh tab id: a `tab_` prefix followed by the creation time in
/// milliseconds. Which millisecond depends on the clock; the shape does
/// not.
pub fn fresh_tab_id() -> (r: Vec<u8>)
    ensures
        r@.len() >= 5,
        (exists|millis: int|
            r@ == seq![116u8, 97u8, 98u8, 95u8] + crate::num::dec_of_int(millis)),
{
    let millis = now_millis();
    let digits = crate::num::i64_to_dec(millis);
    let mut v = bytes_lit([116u8, 97u8, 98u8, 95u8]);
    let n = digits.len();
    proof {
        crate::num::lemma_dec_of_int_len(millis as int);
        assert(digits@.take(0) =~= Seq::<u8>::empty());
        assert(v@ =~= seq![116u8, 97u8, 98u8, 95u8] + digits@.take(0));
    }
    let mut k: usize = 0;
    while k < n
        invariant
            0 <= k <= n == digits@.len(),
            digits@ == crate::num::dec_of_int(millis as int),
            v@ == seq![116u8, 97u8, 98u8, 95u8] + digits@.take(k as int),
            v@.len() == 4 + k,
        decreases n - k,
    {
        proof {
            assert((seq![116u8, 97u8, 98u8, 95u8] + digits@.take(k as int)).push(
                digits@[k as int],
            ) =~= seq![116u8, 97u8, 98u8, 95u8] + digits@.take(k + 1));
        }
        v.push(digits[k]);
        k = k + 1;
    }
    proof {
        assert(digits@.take(n as int) =~= digits@);
        assert(v@ == seq![116u8, 97u8, 98u8, 95u8] + crate::num::dec_of_int(millis as int));
    }
    v
}

/// Observing the same content twice in a row never produces a duplicate:
/// after a capture the fingerprint equals the content's digest, so a
/// second observation of identical bytes changes nothing.
pub proof fn lemma_same_content_never_duplicates(
    w: WatcherModel,
    items: Seq<ItemModel>,
    max: int,
    text: Seq<u8>,
    id1: Seq<u8>,
    ts1: Seq<u8>,
    id2: Seq<u8>,
    ts2: Seq<u8>,
)
    ensures
        ({
            let s1 = text_step(w, items, max, text, id1, ts1);
            let s2 = text_step(s1.0, s1.1, max, text, id2, ts2);
            s2.0 == s1.0 && s2.1 == s1.1
        }),
{
}

/// Observing content whose digest differs from the stored fingerprint
/// always produces a new entry, in the newest-first position, as long as
/// the store stays within capacity. (Contents whose digests collide are
/// deduplicated as if identical; for SHA-256 digests such a pair is not
/// expected to exist.)
pub proof fn lemma_changed_content_adds_entry(
    w: WatcherModel,
    items: Seq<ItemModel>,
    max: int,
    text: Seq<u8>,
    id: Seq<u8>,
    ts: Seq<u8>,
)
    requires
        text.len() > 0,
        w.last_text != Option::Some(sha256_of(text)),
        items.len() + 1 <= max,
    ensures
        ({
            let s = text_step(w, items, max, text, id, ts);
            &&& s.1.len() == items.len() + 1
            &&& s.1[0] == captured_text_item(text, id, ts)
            &&& s.1.skip(1) == items
            &&& s.0.last_text == Option::Some(sha256_of(text))
        }),
{
    let e = captured_text_item(text, id, ts);
    assert((seq![e] + items).len() == items.len() + 1);
    assert(evicted(seq![e] + items, max) == seq![e] + items);
    assert((seq![e] + items)[0] == e);
    assert((seq![e] + items).skip(1) =~= items);
}

/// Two consecutive polls that observe different contents — each digest
/// differing from the fingerprint stored when it is read — add two
/// entries, newest first, with everything older behind them, as long as
/// the store stays within capacity. (Contents whose digests collide are
/// deduplicated as if identical; for SHA-256 digests such a pair is not
/// expected to exist.)
pub proof fn lemma_two_changed_polls(
    w: WatcherModel,
    items: Seq<ItemModel>,
    max: int,
    t1: Seq<u8>,
    id1: Seq<u8>,
    ts1: Seq<u8>,
    t2: Seq<u8>,
    id2: Seq<u8>,
    ts2: Seq<u8>,
)
    requires
        t1.len() > 0,
        t2.len() > 0,
        w.last_text != Option::Some(sha256_of(t1)),
        sha256_of(t1) != sha256_of(t2),
        items.len() + 2 <= max,
    ensures
        ({
            let s1 = text_step(w, items, max, t1, id1, ts1);
            let s2 = text_step(s1.0, s1.1, max, t2, id2, ts2);
            &&& s2.1.len() == items.len() + 2
            &&& s2.1[0] == captured_text_item(t2, id2, ts2)
            &&& s2.1[1] == captured_text_item(t1, id1, ts1)
            &&& s2.1.skip(2) == items
        }),
{
    lemma_changed_content_adds_entry(w, items, max, t1, id1, ts1);
    let s1 = text_step(w, items, max, t1, id1, ts1);
    assert(s1.0.last_text != Option::Some(sha256_of(t2)));
    lemma_changed_content_adds_entry(s1.0, s1.1, max, t2, id2, ts2);
    let s2 = text_step(s1.0, s1.1, max, t2, id2, ts2);
    assert(s2.1[1] == s2.1.skip(1)[0]);
    assert(s2.1.skip(2) =~= s2.1.skip(1).skip(1));
    assert(s2.1.skip(1).skip(1) =~= s1.1.skip(1));
}

} // verus!