//! Content classification: a pure, total function from captured text to an
//! advisory category, with rules evaluated in a fixed order (first match
//! wins): empty, strict link, email, phone number, code, loose link, text.
use vstd::prelude::*;

use crate::models::Category;

verus! {

/// ASCII whitespace.
pub open spec fn is_ws(b: u8) -> bool {
    b == 9 || b == 10 || b == 11 || b == 12 || b == 13 || b == 32
}

/// ASCII decimal digit.
pub open spec fn is_digit(b: u8) -> bool {
    48 <= b <= 57
}

/// Characters a phone number may consist of: digits, space, `-`, `+`, `(`,
/// `)`, `.`.
pub open spec fn is_phone_char(b: u8) -> bool {
    is_digit(b) || b == 32 || b == 45 || b == 43 || b == 40 || b == 41 || b == 46
}

/// The text with leading whitespace removed.
pub open spec fn trim_front(s: Seq<u8>) -> Seq<u8>
    decreases s.len(),
{
    if s.len() > 0 && is_ws(s[0]) {
        trim_front(s.drop_first())
    } else {
        s
    }
}

/// The text with trailing whitespace removed.
pub open spec fn trim_back(s: Seq<u8>) -> Seq<u8>
    decreases s.len(),
{
    if s.len() > 0 && is_ws(s.last()) {
        trim_back(s.drop_last())
    } else {
        s
    }
}

/// The text with whitespace removed from both ends.
pub open spec fn trimmed(s: Seq<u8>) -> Seq<u8> {
    trim_back(trim_front(s))
}

/// The pattern `p` occurs at position `i` of `s`.
pub open spec fn match_at(s: Seq<u8>, p: Seq<u8>, i: int) -> bool {
    0 <= i && i + p.len() <= s.len() && s.subrange(i, i + p.len() as int) == p
}

/// The pattern `p` occurs somewhere in `s`.
pub open spec fn contains_seq(s: Seq<u8>, p: Seq<u8>) -> bool {
    exists|i: int| match_at(s, p, i)
}

/// `s` starts with the pattern `p`.
pub open spec fn starts_with(s: Seq<u8>, p: Seq<u8>) -> bool {
    p.len() <= s.len() && s.subrange(0, p.len() as int) == p
}

/// Some byte of `s` is whitespace.
pub open spec fn has_ws(s: Seq<u8>) -> bool {
    exists|i: int| 0 <= i < s.len() && is_ws(#[trigger] s[i])
}

/// How many bytes of `s` satisfy `f`.
pub open spec fn count_if(s: Seq<u8>, f: spec_fn(u8) -> bool) -> int
    decreases s.len(),
{
    if s.len() == 0 {
        0
    } else {
        count_if(s.drop_last(), f) + if f(s.last()) {
            1int
        } else {
            0int
        }
    }
}

proof fn lemma_count_if_bounds(s: Seq<u8>, f: spec_fn(u8) -> bool)
    ensures
        0 <= count_if(s, f) <= s.len(),
    decreases s.len(),
{
    if s.len() > 0 {
        lemma_count_if_bounds(s.drop_last(), f);
    }
}

/// Two distinct matching positions force a count of at least two.
proof fn lemma_count_two(s: Seq<u8>, f: spec_fn(u8) -> bool, i: int, j: int)
    requires
        0 <= i < j < s.len(),
        f(s[i]),
        f(s[j]),
    ensures
        count_if(s, f) >= 2,
    decreases s.len(),
{
    if j == s.len() - 1 {
        lemma_count_one(s.drop_last(), f, i);
    } else {
        lemma_count_two(s.drop_last(), f, i, j);
    }
}

/// One matching position forces a count of at least one.
proof fn lemma_count_one(s: Seq<u8>, f: spec_fn(u8) -> bool, i: int)
    requires
        0 <= i < s.len(),
        f(s[i]),
    ensures
        count_if(s, f) >= 1,
    decreases s.len(),
{
    if i < s.len() - 1 {
        lemma_count_one(s.drop_last(), f, i);
        lemma_count_if_bounds(s.drop_last(), f);
    } else {
        lemma_count_if_bounds(s.drop_last(), f);
    }
}

proof fn lemma_trim_front_skip(s: Seq<u8>, i: int)
    requires
        0 <= i <= s.len(),
        forall|k: int| 0 <= k < i ==> is_ws(#[trigger] s[k]),
        i == s.len() || !is_ws(s[i]),
    ensures
        trim_front(s) =~= s.skip(i),
    decreases i,
{
    if i == 0 {
        assert(s.skip(0) =~= s);
    } else {
        assert(is_ws(s[0]));
        lemma_trim_front_skip(s.drop_first(), i - 1);
        assert(s.drop_first().skip(i - 1) =~= s.skip(i));
    }
}

proof fn lemma_trim_back_take(s: Seq<u8>, j: int)
    requires
        0 <= j <= s.len(),
        forall|k: int| j <= k < s.len() ==> is_ws(#[trigger] s[k]),
        j == 0 || !is_ws(s[j - 1]),
    ensures
        trim_back(s) =~= s.take(j),
    decreases s.len() - j,
{
    if j == s.len() {
        assert(s.take(j) =~= s);
    } else {
        assert(is_ws(s.last()));
        lemma_trim_back_take(s.drop_last(), j);
        assert(s.drop_last().take(j) =~= s.take(j));
    }
}

/// Bounds of the whitespace-trimmed middle of `s`: the trimmed text is
/// exactly `s[start..end]`.
fn trim_bounds(s: &[u8]) -> (r: (usize, usize))
    ensures
        r.0 <= r.1 <= s@.len(),
        s@.subrange(r.0 as int, r.1 as int) =~= trimmed(s@),
{
    let n = s.len();
    let mut i: usize = 0;
    while i < n && is_ws_exec(s[i])
        invariant
            0 <= i <= n == s@.len(),
            forall|k: int| 0 <= k < i ==> is_ws(#[trigger] s@[k]),
        decreases n - i,
    {
        i = i + 1;
    }
    proof {
        lemma_trim_front_skip(s@, i as int);
    }
    let mut j: usize = n;
    while j > i && is_ws_exec(s[j - 1])
        invariant
            i <= j <= n == s@.len(),
            forall|k: int| j <= k < n ==> is_ws(#[trigger] s@[k]),
        decreases j,
    {
        j = j - 1;
    }
    proof {
        let t = s@.skip(i as int);
        assert(forall|k: int| j - i <= k < t.len() ==> is_ws(#[trigger] t[k]));
        if j > i {
            assert(t[j - i - 1] == s@[j as int - 1]);
        }
        lemma_trim_back_take(t, j - i);
        assert(t.take(j - i) =~= s@.subrange(i as int, j as int));
    }
    (i, j)
}

/// ASCII whitespace test.
fn is_ws_exec(b: u8) -> (r: bool)
    ensures
        r == is_ws(b),
{
    b == 9 || b == 10 || b == 11 || b == 12 || b == 13 || b == 32
}

/// Does the pattern `p` occur at position `i` of `s`?
pub fn match_at_exec(s: &[u8], p: &[u8], i: usize) -> (r: bool)
    requires
        i + p@.len() <= s@.len(),
    ensures
        r == match_at(s@, p@, i as int),
{
    let m = p.len();
    let sn = s.len();
    let mut k: usize = 0;
    while k < m
        invariant
            i + m <= sn == s@.len(),
            m == p@.len(),
            0 <= k <= m,
            forall|j: int| 0 <= j < k ==> s@[i + j] == p@[j],
        decreases m - k,
    {
        if s[i + k] != p[k] {
            proof {
                assert(s@.subrange(i as int, i + p@.len())[k as int] == s@[i + k]);
            }
            return false;
        }
        k = k + 1;
    }
    proof {
        assert(s@.subrange(i as int, i + p@.len()) =~= p@);
    }
    true
}

/// Does the pattern `p` occur anywhere in `s`?
pub fn contains_sub(s: &[u8], p: &[u8]) -> (r: bool)
    ensures
        r == contains_seq(s@, p@),
{
    if p.len() > s.len() {
        proof {
            assert(forall|i: int| !match_at(s@, p@, i));
        }
        return false;
    }
    let n = s.len() - p.len();
    let mut i: usize = 0;
    while i < n
        invariant
            p@.len() <= s@.len(),
            n == s@.len() - p@.len(),
            0 <= i <= n,
            forall|j: int| 0 <= j < i ==> !match_at(s@, p@, j),
        decreases n - i,
    {
        if match_at_exec(s, p, i) {
            return true;
        }
        i = i + 1;
    }
    let last = match_at_exec(s, p, n);
    proof {
        assert(forall|j: int| match_at(s@, p@, j) ==> 0 <= j <= n);
    }
    last
}

/// Does `s` start with the pattern `p`?
pub fn starts_with_exec(s: &[u8], p: &[u8]) -> (r: bool)
    ensures
        r == starts_with(s@, p@),
{
    if p.len() > s.len() {
        return false;
    }
    match_at_exec(s, p, 0)
}

/// Does `s` hold any whitespace byte?
fn has_ws_exec(s: &[u8]) -> (r: bool)
    ensures
        r == has_ws(s@),
{
    let n = s.len();
    let mut i: usize = 0;
    while i < n
        invariant
            0 <= i <= n == s@.len(),
            forall|k: int| 0 <= k < i ==> !is_ws(#[trigger] s@[k]),
        decreases n - i,
    {
        if is_ws_exec(s[i]) {
            return true;
        }
        i = i + 1;
    }
    false
}

/// The `http://` scheme prefix.
pub open spec fn lit_http() -> Seq<u8> {
    seq![104u8, 116u8, 116u8, 112u8, 58u8, 47u8, 47u8]
}

/// The `https://` scheme prefix.
pub open spec fn lit_https() -> Seq<u8> {
    seq![104u8, 116u8, 116u8, 112u8, 115u8, 58u8, 47u8, 47u8]
}

/// The `www.` prefix.
pub open spec fn lit_www() -> Seq<u8> {
    seq![119u8, 119u8, 119u8, 46u8]
}

/// A strict link: starts like a URL and holds no whitespace.
pub open spec fn is_link_strict(t: Seq<u8>) -> bool {
    (starts_with(t, lit_http()) || starts_with(t, lit_https()) || starts_with(t, lit_www()))
        && !has_ws(t)
}

/// An email address: no whitespace, exactly one `@` with text before it and
/// a `.` somewhere after it.
pub open spec fn is_email(t: Seq<u8>) -> bool {
    &&& !has_ws(t)
    &&& count_if(t, |b: u8| b == 64) == 1
    &&& exists|i: int|
        0 < i < t.len() && #[trigger] t[i] == 64 && exists|j: int| i < j < t.len() && t[j] == 46
}

/// A phone number: 7 to 15 digits, and every character drawn from the
/// phone character set.
pub open spec fn is_phone(t: Seq<u8>) -> bool {
    &&& 7 <= count_if(t, |b: u8| is_digit(b)) <= 15
    &&& forall|i: int| 0 <= i < t.len() ==> is_phone_char(#[trigger] t[i])
}

/// The fixed set of code indicator substrings, by index.
pub open spec fn indicator(k: int) -> Seq<u8> {
    if k == 0 {
        seq![123u8]
    } else if k == 1 {
        seq![125u8]
    } else if k == 2 {
        seq![91u8]
    } else if k == 3 {
        seq![93u8]
    } else if k == 4 {
        seq![40u8, 41u8]
    } else if k == 5 {
        seq![59u8]
    } else if k == 6 {
        seq![61u8, 62u8]
    } else if k == 7 {
        seq![45u8, 62u8]
    } else if k == 8 {
        seq![102u8, 110u8, 32u8]
    } else if k == 9 {
        seq![100u8, 101u8, 102u8, 32u8]
    } else if k == 10 {
        seq![99u8, 108u8, 97u8, 115u8, 115u8, 32u8]
    } else if k == 11 {
        seq![99u8, 111u8, 110u8, 115u8, 116u8, 32u8]
    } else if k == 12 {
        seq![108u8, 101u8, 116u8, 32u8]
    } else if k == 13 {
        seq![118u8, 97u8, 114u8, 32u8]
    } else if k == 14 {
        seq![102u8, 117u8, 110u8, 99u8, 116u8, 105u8, 111u8, 110u8, 32u8]
    } else if k == 15 {
        seq![105u8, 109u8, 112u8, 111u8, 114u8, 116u8, 32u8]
    } else {
        seq![112u8, 117u8, 98u8, 32u8]
    }
}

/// How many of the first `k` indicators occur in `s`.
pub open spec fn code_count_upto(s: Seq<u8>, k: int) -> int
    decreases k,
{
    if k <= 0 {
        0
    } else {
        code_count_upto(s, k - 1) + if contains_seq(s, indicator(k - 1)) {
            1int
        } else {
            0int
        }
    }
}

/// How many distinct code indicators occur in `s`.
pub open spec fn code_indicator_count(s: Seq<u8>) -> int {
    code_count_upto(s, 17)
}

/// The classification of a text, rules in order, first match wins.
pub open spec fn spec_classify(s: Seq<u8>) -> Category {
    let t = trimmed(s);
    if t.len() == 0 {
        Category::Text
    } else if is_link_strict(t) {
        Category::Link
    } else if is_email(t) {
        Category::Email
    } else if is_phone(t) {
        Category::Phone
    } else if code_indicator_count(s) >= 2 {
        Category::Code
    } else if contains_seq(s, lit_http()) || contains_seq(s, lit_https()) {
        Category::Link
    } else {
        Category::Text
    }
}

/// The `k`-th indicator pattern as bytes.
fn indicator_exec(k: usize) -> (v: Vec<u8>)
    requires
        k < 17,
    ensures
        v@ =~= indicator(k as int),
{
    if k == 0 {
        vstd::slice::slice_to_vec([123u8].as_slice())
    } else if k == 1 {
        vstd::slice::slice_to_vec([125u8].as_slice())
    } else if k == 2 {
        vstd::slice::slice_to_vec([91u8].as_slice())
    } else if k == 3 {
        vstd::slice::slice_to_vec([93u8].as_slice())
    } else if k == 4 {
        vstd::slice::slice_to_vec([40u8, 41u8].as_slice())
    } else if k == 5 {
        vstd::slice::slice_to_vec([59u8].as_slice())
    } else if k == 6 {
        vstd::slice::slice_to_vec([61u8, 62u8].as_slice())
    } else if k == 7 {
        vstd::slice::slice_to_vec([45u8, 62u8].as_slice())
    } else if k == 8 {
        vstd::slice::slice_to_vec([102u8, 110u8, 32u8].as_slice())
    } else if k == 9 {
        vstd::slice::slice_to_vec([100u8, 101u8, 102u8, 32u8].as_slice())
    } else if k == 10 {
        vstd::slice::slice_to_vec([99u8, 108u8, 97u8, 115u8, 115u8, 32u8].as_slice())
    } else if k == 11 {
        vstd::slice::slice_to_vec([99u8, 111u8, 110u8, 115u8, 116u8, 32u8].as_slice())
    } else if k == 12 {
        vstd::slice::slice_to_vec([108u8, 101u8, 116u8, 32u8].as_slice())
    } else if k == 13 {
        vstd::slice::slice_to_vec([118u8, 97u8, 114u8, 32u8].as_slice())
    } else if k == 14 {
        vstd::slice::slice_to_vec([102u8, 117u8, 110u8, 99u8, 116u8, 105u8, 111u8, 110u8, 32u8].as_slice())
    } else if k == 15 {
        vstd::slice::slice_to_vec([105u8, 109u8, 112u8, 111u8, 114u8, 116u8, 32u8].as_slice())
    } else {
        vstd::slice::slice_to_vec([112u8, 117u8, 98u8, 32u8].as_slice())
    }
}

/// How many distinct code indicators occur in `s`.
fn code_indicators_exec(s: &[u8]) -> (n: usize)
    ensures
        n == code_indicator_count(s@),
{
    let mut n: usize = 0;
    let mut k: usize = 0;
    while k < 17
        invariant
            0 <= k <= 17,
            n == code_count_upto(s@, k as int),
            n <= k,
        decreases 17 - k,
    {
        let p = indicator_exec(k);
        if contains_sub(s, p.as_slice()) {
            n = n + 1;
        }
        k = k + 1;
    }
    n
}

/// Scan for `@`: how many there are, and where the first one stands.
fn scan_at(t: &[u8]) -> (r: (usize, usize))
    ensures
        r.0 == count_if(t@, |b: u8| b == 64),
        r.0 > 0 ==> 0 <= r.1 < t@.len() && t@[r.1 as int] == 64 && forall|j: int|
            0 <= j < r.1 ==> t@[j] != 64,
{
    let n = t.len();
    let mut cnt: usize = 0;
    let mut first: usize = 0;
    let mut i: usize = 0;
    proof {
        assert(t@.take(0) =~= Seq::<u8>::empty());
    }
    while i < n
        invariant
            0 <= i <= n == t@.len(),
            cnt == count_if(t@.take(i as int), |b: u8| b == 64),
            cnt <= i,
            cnt > 0 ==> 0 <= first < i && t@[first as int] == 64 && forall|j: int|
                0 <= j < first ==> t@[j] != 64,
            cnt == 0 ==> forall|j: int| 0 <= j < i ==> t@[j] != 64,
        decreases n - i,
    {
        proof {
            assert(t@.take(i + 1).drop_last() =~= t@.take(i as int));
            assert(t@.take(i + 1).last() == t@[i as int]);
        }
        if t[i] == 64 {
            if cnt == 0 {
                first = i;
            }
            cnt = cnt + 1;
        }
        i = i + 1;
    }
    proof {
        assert(t@.take(n as int) =~= t@);
    }
    (cnt, first)
}

/// Is there a `.` strictly after position `i`?
fn dot_after(t: &[u8], i: usize) -> (r: bool)
    requires
        i < t@.len(),
    ensures
        r == exists|j: int| i < j < t@.len() && t@[j] == 46,
{
    let n = t.len();
    let mut j: usize = i + 1;
    while j < n
        invariant
            i < j <= n == t@.len(),
            forall|k: int| i < k < j ==> t@[k] != 46,
        decreases n - j,
    {
        if t[j] == 46 {
            return true;
        }
        j = j + 1;
    }
    false
}

/// Is the trimmed text an email address?
fn is_email_exec(t: &[u8]) -> (r: bool)
    ensures
        r == is_email(t@),
{
    if has_ws_exec(t) {
        return false;
    }
    let (cnt, first) = scan_at(t);
    if cnt != 1 {
        return false;
    }
    if first == 0 {
        proof {
            if is_email(t@) {
                let i = choose|i: int|
                    0 < i < t@.len() && #[trigger] t@[i] == 64 && exists|j: int|
                        i < j < t@.len() && t@[j] == 46;
                lemma_count_two(t@, |b: u8| b == 64, 0, i);
            }
        }
        return false;
    }
    let r = dot_after(t, first);
    proof {
        if r {
            assert(0 < first < t@.len() && t@[first as int] == 64 && exists|j: int|
                first < j < t@.len() && t@[j] == 46);
        } else {
            if is_email(t@) {
                let i = choose|i: int|
                    0 < i < t@.len() && #[trigger] t@[i] == 64 && exists|j: int|
                        i < j < t@.len() && t@[j] == 46;
                if i != first {
                    if i < first {
                        assert(t@[i] == 64);
                    } else {
                        lemma_count_two(t@, |b: u8| b == 64, first as int, i);
                    }
                }
            }
        }
    }
    r
}

/// Is the trimmed text a phone number?
fn is_phone_exec(t: &[u8]) -> (r: bool)
    ensures
        r == is_phone(t@),
{
    let n = t.len();
    let mut digits: usize = 0;
    let mut i: usize = 0;
    proof {
        assert(t@.take(0) =~= Seq::<u8>::empty());
    }
    while i < n
        invariant
            0 <= i <= n == t@.len(),
            digits == count_if(t@.take(i as int), |b: u8| is_digit(b)),
            digits <= i,
            forall|k: int| 0 <= k < i ==> is_phone_char(#[trigger] t@[k]),
        decreases n - i,
    {
        proof {
            assert(t@.take(i + 1).drop_last() =~= t@.take(i as int));
            assert(t@.take(i + 1).last() == t@[i as int]);
        }
        let b = t[i];
        if 48 <= b && b <= 57 {
            digits = digits + 1;
        } else if !(b == 32 || b == 45 || b == 43 || b == 40 || b == 41 || b == 46) {
            proof {
                assert(!is_phone_char(t@[i as int]));
            }
            return false;
        }
        i = i + 1;
    }
    proof {
        assert(t@.take(n as int) =~= t@);
    }
    7 <= digits && digits <= 15
}

/// Classification is a total, deterministic function: every text maps to
/// a category (the classifier takes every byte string and `Category` has
/// exactly the six variants), and equal texts always map to the same
/// category.
pub proof fn lemma_classify_total(s: Seq<u8>, t: Seq<u8>)
    requires
        s == t,
    ensures
        spec_classify(s) == spec_classify(t),
        spec_classify(s) == Category::Text || spec_classify(s) == Category::Link
            || spec_classify(s) == Category::Email || spec_classify(s) == Category::Phone
            || spec_classify(s) == Category::Code || spec_classify(s) == Category::Image,
{
}

/// Classify a captured text into its advisory category.
///
/// Total and pure: every text maps to exactly one category, and equal texts
/// always map to the same category.
pub fn detect_category(text: &[u8]) -> (c: Category)
    ensures
        c == spec_classify(text@),
{
    let (lo, hi) = trim_bounds(text);
    let t = vstd::slice::slice_subrange(text, lo, hi);
    if t.len() == 0 {
        return Category::Text;
    }
    let http = [104u8, 116u8, 116u8, 112u8, 58u8, 47u8, 47u8];
    let https = [104u8, 116u8, 116u8, 112u8, 115u8, 58u8, 47u8, 47u8];
    let www = [119u8, 119u8, 119u8, 46u8];
    proof {
        assert(http@ =~= lit_http());
        assert(https@ =~= lit_https());
        assert(www@ =~= lit_www());
    }
    if (starts_with_exec(t, http.as_slice()) || starts_with_exec(t, https.as_slice())
        || starts_with_exec(t, www.as_slice())) && !has_ws_exec(t) {
        return Category::Link;
    }
    if is_email_exec(t) {
        return Category::Email;
    }
    if is_phone_exec(t) {
        return Category::Phone;
    }
    if code_indicators_exec(text) >= 2 {
        return Category::Code;
    }
    if contains_sub(text, http.as_slice()) || contains_sub(text, https.as_slice()) {
        return Category::Link;
    }
    Category::Text
}

} // verus!
