//! The persisted document form: a JSON subset holding the whole
//! application state. Objects carry arbitrary keys in file order, arrays
//! hold flat objects, scalars are null, booleans, unsigned integers and
//! byte strings. The printer emits a canonical compact form; the parser
//! also accepts whitespace between tokens, any key order, and the common
//! string escapes.
use vstd::prelude::*;

use crate::classify::match_at;
use crate::num::{dec_of, hex_digit};

verus! {

/// A scalar value of the document.
pub enum JScalar {
    Null,
    Bool(bool),
    Int(u64),
    Str(Vec<u8>),
}

/// Mathematical view of a scalar.
#[verifier::ext_equal]
pub ghost enum JScalarModel {
    Null,
    Bool(bool),
    Int(u64),
    Str(Seq<u8>),
}

impl View for JScalar {
    type V = JScalarModel;

    open spec fn view(&self) -> JScalarModel {
        match self {
            JScalar::Null => JScalarModel::Null,
            JScalar::Bool(b) => JScalarModel::Bool(*b),
            JScalar::Int(n) => JScalarModel::Int(*n),
            JScalar::Str(s) => JScalarModel::Str(s@),
        }
    }
}

/// One field of a flat object: a key and a scalar value.
pub struct JEntry {
    pub key: Vec<u8>,
    pub value: JScalar,
}

/// Mathematical view of a flat-object field.
#[verifier::ext_equal]
pub ghost struct JEntryModel {
    pub key: Seq<u8>,
    pub value: JScalarModel,
}

impl View for JEntry {
    type V = JEntryModel;

    open spec fn view(&self) -> JEntryModel {
        JEntryModel { key: self.key@, value: self.value@ }
    }
}

/// The views of a sequence of fields.
pub open spec fn views_of_entries(v: Seq<JEntry>) -> Seq<JEntryModel> {
    Seq::new(v.len(), |i: int| v[i]@)
}

/// A value of a top-level document field: a scalar, one flat object, or
/// an array of flat objects.
pub enum JValue {
    Scalar(JScalar),
    Obj(Vec<JEntry>),
    Arr(Vec<Vec<JEntry>>),
}

/// Mathematical view of a top-level field value.
#[verifier::ext_equal]
pub ghost enum JValueModel {
    Scalar(JScalarModel),
    Obj(Seq<JEntryModel>),
    Arr(Seq<Seq<JEntryModel>>),
}

impl View for JValue {
    type V = JValueModel;

    open spec fn view(&self) -> JValueModel {
        match self {
            JValue::Scalar(s) => JValueModel::Scalar(s@),
            JValue::Obj(o) => JValueModel::Obj(views_of_entries(o@)),
            JValue::Arr(a) => JValueModel::Arr(
                Seq::new(a@.len(), |i: int| views_of_entries(a@[i]@)),
            ),
        }
    }
}

/// One top-level field of the document.
pub struct JField {
    pub key: Vec<u8>,
    pub value: JValue,
}

/// Mathematical view of a top-level field.
#[verifier::ext_equal]
pub ghost struct JFieldModel {
    pub key: Seq<u8>,
    pub value: JValueModel,
}

impl View for JField {
    type V = JFieldModel;

    open spec fn view(&self) -> JFieldModel {
        JFieldModel { key: self.key@, value: self.value@ }
    }
}

/// The views of a sequence of top-level fields.
pub open spec fn views_of_fields(v: Seq<JField>) -> Seq<JFieldModel> {
    Seq::new(v.len(), |i: int| v[i]@)
}

// ---------------------------------------------------------------------
// Printing
// ---------------------------------------------------------------------
/// The escape of one string byte: quote and backslash get a backslash,
/// the common control bytes their short names, other control bytes a
/// four-digit escape, and everything else stands as itself.
pub open spec fn esc_byte(b: u8) -> Seq<u8> {
    if b == 34 {
        seq![92u8, 34u8]
    } else if b == 92 {
        seq![92u8, 92u8]
    } else if b == 10 {
        seq![92u8, 110u8]
    } else if b == 13 {
        seq![92u8, 114u8]
    } else if b == 9 {
        seq![92u8, 116u8]
    } else if b < 32 {
        seq![92u8, 117u8, 48u8, 48u8, hex_digit((b / 16) as nat), hex_digit((b % 16) as nat)]
    } else {
        seq![b]
    }
}

/// The escaped form of a string body.
pub open spec fn esc(s: Seq<u8>) -> Seq<u8>
    decreases s.len(),
{
    if s.len() == 0 {
        Seq::empty()
    } else {
        esc_byte(s[0]) + esc(s.drop_first())
    }
}

/// A quoted, escaped string.
pub open spec fn enc_str(s: Seq<u8>) -> Seq<u8> {
    seq![34u8] + esc(s) + seq![34u8]
}

/// The text `null`.
pub open spec fn lit_null() -> Seq<u8> {
    seq![110u8, 117u8, 108u8, 108u8]
}

/// The text `true`.
pub open spec fn lit_true() -> Seq<u8> {
    seq![116u8, 114u8, 117u8, 101u8]
}

/// The text `false`.
pub open spec fn lit_false() -> Seq<u8> {
    seq![102u8, 97u8, 108u8, 115u8, 101u8]
}

/// The canonical text of a scalar.
pub open spec fn enc_scalar(v: JScalarModel) -> Seq<u8> {
    match v {
        JScalarModel::Null => lit_null(),
        JScalarModel::Bool(b) => if b {
            lit_true()
        } else {
            lit_false()
        },
        JScalarModel::Int(n) => dec_of(n as nat),
        JScalarModel::Str(s) => enc_str(s),
    }
}

/// The canonical text of one flat-object field.
pub open spec fn enc_entry(e: JEntryModel) -> Seq<u8> {
    enc_str(e.key) + seq![58u8] + enc_scalar(e.value)
}

/// The canonical text of the remaining fields of a flat object, each
/// preceded by a comma.
pub open spec fn enc_entries_rest(es: Seq<JEntryModel>) -> Seq<u8>
    decreases es.len(),
{
    if es.len() == 0 {
        Seq::empty()
    } else {
        seq![44u8] + enc_entry(es[0]) + enc_entries_rest(es.drop_first())
    }
}

/// The canonical text of a flat object.
pub open spec fn enc_obj(es: Seq<JEntryModel>) -> Seq<u8> {
    if es.len() == 0 {
        seq![123u8, 125u8]
    } else {
        seq![123u8] + enc_entry(es[0]) + enc_entries_rest(es.drop_first()) + seq![125u8]
    }
}

/// The canonical text of the remaining elements of an array, each
/// preceded by a comma.
pub open spec fn enc_arr_rest(os: Seq<Seq<JEntryModel>>) -> Seq<u8>
    decreases os.len(),
{
    if os.len() == 0 {
        Seq::empty()
    } else {
        seq![44u8] + enc_obj(os[0]) + enc_arr_rest(os.drop_first())
    }
}

/// The canonical text of an array of flat objects.
pub open spec fn enc_arr(os: Seq<Seq<JEntryModel>>) -> Seq<u8> {
    if os.len() == 0 {
        seq![91u8, 93u8]
    } else {
        seq![91u8] + enc_obj(os[0]) + enc_arr_rest(os.drop_first()) + seq![93u8]
    }
}

/// The canonical text of a top-level field value.
pub open spec fn enc_value(v: JValueModel) -> Seq<u8> {
    match v {
        JValueModel::Scalar(s) => enc_scalar(s),
        JValueModel::Obj(es) => enc_obj(es),
        JValueModel::Arr(os) => enc_arr(os),
    }
}

/// The canonical text of one top-level field.
pub open spec fn enc_field(f: JFieldModel) -> Seq<u8> {
    enc_str(f.key) + seq![58u8] + enc_value(f.value)
}

/// The canonical text of the remaining top-level fields, each preceded by
/// a comma.
pub open spec fn enc_fields_rest(fs: Seq<JFieldModel>) -> Seq<u8>
    decreases fs.len(),
{
    if fs.len() == 0 {
        Seq::empty()
    } else {
        seq![44u8] + enc_field(fs[0]) + enc_fields_rest(fs.drop_first())
    }
}

/// The canonical text of a whole document.
pub open spec fn enc_doc(fs: Seq<JFieldModel>) -> Seq<u8> {
    if fs.len() == 0 {
        seq![123u8, 125u8]
    } else {
        seq![123u8] + enc_field(fs[0]) + enc_fields_rest(fs.drop_first()) + seq![125u8]
    }
}

// ---------------------------------------------------------------------
// Parsing
// ---------------------------------------------------------------------
/// JSON whitespace.
pub open spec fn is_jws(b: u8) -> bool {
    b == 32 || b == 9 || b == 10 || b == 13
}

/// The first position at or after `i` holding no whitespace.
pub open spec fn sp_ws(s: Seq<u8>, i: int) -> int
    decreases s.len() - i,
{
    if 0 <= i < s.len() && is_jws(s[i]) {
        sp_ws(s, i + 1)
    } else {
        i
    }
}

proof fn lemma_sp_ws_bounds(s: Seq<u8>, i: int)
    requires
        0 <= i <= s.len(),
    ensures
        i <= sp_ws(s, i) <= s.len(),
    decreases s.len() - i,
{
    if i < s.len() && is_jws(s[i]) {
        lemma_sp_ws_bounds(s, i + 1);
    }
}

/// The value of a hexadecimal digit, if the byte is one.
pub open spec fn hex_val(b: u8) -> Option<u8> {
    if 48 <= b <= 57 {
        Option::Some((b - 48) as u8)
    } else if 97 <= b <= 102 {
        Option::Some((b - 87) as u8)
    } else if 65 <= b <= 70 {
        Option::Some((b - 55) as u8)
    } else {
        Option::None
    }
}

/// Parse the body of a string after the opening quote, collecting into
/// `acc`; the result is the string value and the position after the
/// closing quote.
pub open spec fn sp_str_rest(s: Seq<u8>, i: int, acc: Seq<u8>) -> Option<(Seq<u8>, int)>
    decreases s.len() - i,
{
    if i < 0 || i >= s.len() {
        Option::None
    } else if s[i] == 34 {
        Option::Some((acc, i + 1))
    } else if s[i] == 92 {
        if i + 1 >= s.len() {
            Option::None
        } else {
            let c = s[i + 1];
            if c == 34 {
                sp_str_rest(s, i + 2, acc.push(34))
            } else if c == 92 {
                sp_str_rest(s, i + 2, acc.push(92))
            } else if c == 47 {
                sp_str_rest(s, i + 2, acc.push(47))
            } else if c == 110 {
                sp_str_rest(s, i + 2, acc.push(10))
            } else if c == 114 {
                sp_str_rest(s, i + 2, acc.push(13))
            } else if c == 116 {
                sp_str_rest(s, i + 2, acc.push(9))
            } else if c == 98 {
                sp_str_rest(s, i + 2, acc.push(8))
            } else if c == 102 {
                sp_str_rest(s, i + 2, acc.push(12))
            } else if c == 117 {
                if i + 5 >= s.len() {
                    Option::None
                } else if s[i + 2] == 48 && s[i + 3] == 48 && hex_val(s[i + 4]) is Some && hex_val(
                    s[i + 5],
                ) is Some {
                    sp_str_rest(
                        s,
                        i + 6,
                        acc.push(
                            (hex_val(s[i + 4]).unwrap() * 16 + hex_val(s[i + 5]).unwrap()) as u8,
                        ),
                    )
                } else {
                    Option::None
                }
            } else {
                Option::None
            }
        }
    } else {
        sp_str_rest(s, i + 1, acc.push(s[i]))
    }
}

/// Parse a quoted string starting at `i`.
pub open spec fn sp_str(s: Seq<u8>, i: int) -> Option<(Seq<u8>, int)> {
    if 0 <= i < s.len() && s[i] == 34 {
        sp_str_rest(s, i + 1, Seq::empty())
    } else {
        Option::None
    }
}

proof fn lemma_sp_str_rest_bounds(s: Seq<u8>, i: int, acc: Seq<u8>)
    requires
        sp_str_rest(s, i, acc) is Some,
    ensures
        i < sp_str_rest(s, i, acc).unwrap().1 <= s.len(),
    decreases s.len() - i,
{
    if 0 <= i < s.len() && s[i] != 34 {
        if s[i] == 92 {
            let c = s[i + 1];
            if c == 117 {
                lemma_sp_str_rest_bounds(
                    s,
                    i + 6,
                    acc.push((hex_val(s[i + 4]).unwrap() * 16 + hex_val(s[i + 5]).unwrap()) as u8),
                );
            } else if c == 34 {
                lemma_sp_str_rest_bounds(s, i + 2, acc.push(34));
            } else if c == 92 {
                lemma_sp_str_rest_bounds(s, i + 2, acc.push(92));
            } else if c == 47 {
                lemma_sp_str_rest_bounds(s, i + 2, acc.push(47));
            } else if c == 110 {
                lemma_sp_str_rest_bounds(s, i + 2, acc.push(10));
            } else if c == 114 {
                lemma_sp_str_rest_bounds(s, i + 2, acc.push(13));
            } else if c == 116 {
                lemma_sp_str_rest_bounds(s, i + 2, acc.push(9));
            } else if c == 98 {
                lemma_sp_str_rest_bounds(s, i + 2, acc.push(8));
            } else if c == 102 {
                lemma_sp_str_rest_bounds(s, i + 2, acc.push(12));
            }
        } else {
            lemma_sp_str_rest_bounds(s, i + 1, acc.push(s[i]));
        }
    }
}

proof fn lemma_sp_str_bounds(s: Seq<u8>, i: int)
    requires
        sp_str(s, i) is Some,
    ensures
        i < sp_str(s, i).unwrap().1 <= s.len(),
{
    lemma_sp_str_rest_bounds(s, i + 1, Seq::empty());
}

/// An ASCII decimal digit.
pub open spec fn is_dig(b: u8) -> bool {
    48 <= b <= 57
}

/// A byte that would extend a number token: a digit, the decimal point,
/// or an exponent marker.
pub open spec fn extends_number(b: u8) -> bool {
    is_dig(b) || b == 46 || b == 101 || b == 69
}

/// Consume a run of digits, folding them onto `acc`; the result is the
/// value and the position after the run.
pub open spec fn sp_digits(s: Seq<u8>, i: int, acc: nat) -> (nat, int)
    decreases s.len() - i,
{
    if 0 <= i < s.len() && is_dig(s[i]) {
        sp_digits(s, i + 1, acc * 10 + (s[i] - 48) as nat)
    } else {
        (acc, i)
    }
}

proof fn lemma_sp_digits_bounds(s: Seq<u8>, i: int, acc: nat)
    requires
        0 <= i <= s.len(),
    ensures
        i <= sp_digits(s, i, acc).1 <= s.len(),
    decreases s.len() - i,
{
    if i < s.len() && is_dig(s[i]) {
        lemma_sp_digits_bounds(s, i + 1, acc * 10 + (s[i] - 48) as nat);
    }
}

/// The position after an optional fraction part at `j`, or nothing for a
/// point without digits.
pub open spec fn sp_frac_end(s: Seq<u8>, j: int) -> Option<int> {
    if 0 <= j < s.len() && s[j] == 46 {
        let r = sp_digits(s, j + 1, 0);
        if r.1 > j + 1 {
            Option::Some(r.1)
        } else {
            Option::None
        }
    } else {
        Option::Some(j)
    }
}

/// The position after an optional exponent part at `j`, or nothing for
/// an exponent marker without digits.
pub open spec fn sp_exp_end(s: Seq<u8>, j: int) -> Option<int> {
    if 0 <= j < s.len() && (s[j] == 101 || s[j] == 69) {
        let k = if j + 1 < s.len() && (s[j + 1] == 43 || s[j + 1] == 45) {
            j + 2
        } else {
            j + 1
        };
        let r = sp_digits(s, k, 0);
        if r.1 > k {
            Option::Some(r.1)
        } else {
            Option::None
        }
    } else {
        Option::Some(j)
    }
}

/// Parse a number token starting at `i`. A plain unsigned integer that
/// fits 64 bits becomes an integer value; any other well-formed number —
/// signed, fractional, exponent, or oversized — is consumed and read as
/// null, so foreign documents holding such values still parse.
#[verifier::opaque]
pub open spec fn sp_number(s: Seq<u8>, i: int) -> Option<(JScalarModel, int)> {
    if i < 0 || i >= s.len() {
        Option::None
    } else {
        let d0 = if s[i] == 45 {
            i + 1
        } else {
            i
        };
        if !(d0 < s.len() && is_dig(s[d0])) {
            Option::None
        } else {
            let r = sp_digits(s, d0, 0);
            match sp_frac_end(s, r.1) {
                Option::None => Option::None,
                Option::Some(j1) => match sp_exp_end(s, j1) {
                    Option::None => Option::None,
                    Option::Some(j2) => if s[i] != 45 && j2 == r.1 && r.0 <= u64::MAX {
                        Option::Some((JScalarModel::Int(r.0 as u64), r.1))
                    } else {
                        Option::Some((JScalarModel::Null, j2))
                    },
                },
            }
        }
    }
}

proof fn lemma_sp_number_bounds(s: Seq<u8>, i: int)
    requires
        sp_number(s, i) is Some,
    ensures
        i < sp_number(s, i).unwrap().1 <= s.len(),
{
    reveal(sp_number);
    if 0 <= i < s.len() {
        let d0 = if s[i] == 45 {
            i + 1
        } else {
            i
        };
        if d0 < s.len() && is_dig(s[d0]) {
            lemma_sp_digits_bounds(s, d0 + 1, (s[d0] - 48) as nat);
            let j = sp_digits(s, d0, 0).1;
            if 0 <= j < s.len() && s[j] == 46 {
                lemma_sp_digits_bounds(s, j + 1, 0);
            }
            match sp_frac_end(s, j) {
                Option::Some(j1) => {
                    if 0 <= j1 < s.len() && (s[j1] == 101 || s[j1] == 69) {
                        lemma_sp_digits_bounds(s, j1 + 1, 0);
                        if j1 + 2 <= s.len() {
                            lemma_sp_digits_bounds(s, j1 + 2, 0);
                        }
                    }
                },
                Option::None => {},
            }
        }
    }
}

/// Parse a scalar starting at `i`: a string, `null`, a boolean, or a
/// number token.
pub open spec fn sp_scalar(s: Seq<u8>, i: int) -> Option<(JScalarModel, int)> {
    if i < 0 || i >= s.len() {
        Option::None
    } else if s[i] == 34 {
        match sp_str(s, i) {
            Option::Some(r) => Option::Some((JScalarModel::Str(r.0), r.1)),
            Option::None => Option::None,
        }
    } else if s[i] == 110 {
        if match_at(s, lit_null(), i) {
            Option::Some((JScalarModel::Null, i + 4))
        } else {
            Option::None
        }
    } else if s[i] == 116 {
        if match_at(s, lit_true(), i) {
            Option::Some((JScalarModel::Bool(true), i + 4))
        } else {
            Option::None
        }
    } else if s[i] == 102 {
        if match_at(s, lit_false(), i) {
            Option::Some((JScalarModel::Bool(false), i + 5))
        } else {
            Option::None
        }
    } else {
        sp_number(s, i)
    }
}

proof fn lemma_sp_scalar_bounds(s: Seq<u8>, i: int)
    requires
        sp_scalar(s, i) is Some,
    ensures
        i < sp_scalar(s, i).unwrap().1 <= s.len(),
{
    if 0 <= i < s.len() {
        if s[i] == 34 {
            lemma_sp_str_bounds(s, i);
        } else if s[i] == 110 || s[i] == 116 || s[i] == 102 {
            assert(lit_null().len() == 4);
            assert(lit_true().len() == 4);
            assert(lit_false().len() == 5);
        } else {
            lemma_sp_number_bounds(s, i);
        }
    }
}

/// Parse one flat-object field: whitespace, a key, a colon, a scalar.
pub open spec fn sp_entry(s: Seq<u8>, i: int) -> Option<(JEntryModel, int)> {
    if i < 0 || i > s.len() {
        Option::None
    } else {
        let i1 = sp_ws(s, i);
        match sp_str(s, i1) {
            Option::None => Option::None,
            Option::Some(kr) => {
                let i2 = sp_ws(s, kr.1);
                if 0 <= i2 < s.len() && s[i2] == 58 {
                    let i3 = sp_ws(s, i2 + 1);
                    match sp_scalar(s, i3) {
                        Option::Some(vr) => Option::Some(
                            (JEntryModel { key: kr.0, value: vr.0 }, vr.1),
                        ),
                        Option::None => Option::None,
                    }
                } else {
                    Option::None
                }
            },
        }
    }
}

proof fn lemma_sp_entry_bounds(s: Seq<u8>, i: int)
    requires
        sp_entry(s, i) is Some,
    ensures
        i < sp_entry(s, i).unwrap().1 <= s.len(),
{
    let i1 = sp_ws(s, i);
    lemma_sp_ws_bounds(s, i);
    lemma_sp_str_bounds(s, i1);
    let kr = sp_str(s, i1).unwrap();
    let i2 = sp_ws(s, kr.1);
    lemma_sp_ws_bounds(s, kr.1);
    let i3 = sp_ws(s, i2 + 1);
    lemma_sp_ws_bounds(s, i2 + 1);
    lemma_sp_scalar_bounds(s, i3);
}

/// Parse the remaining fields of a flat object after the first: either
/// the closing brace, or a comma and a further field.
pub open spec fn sp_obj_rest(s: Seq<u8>, i: int, acc: Seq<JEntryModel>) -> Option<
    (Seq<JEntryModel>, int),
>
    decreases s.len() - i,
    via sp_obj_rest_dec
{
    if i < 0 || i > s.len() {
        Option::None
    } else {
        let i1 = sp_ws(s, i);
        if i1 >= s.len() {
            Option::None
        } else if s[i1] == 125 {
            Option::Some((acc, i1 + 1))
        } else if s[i1] == 44 {
            match sp_entry(s, i1 + 1) {
                Option::Some(er) => sp_obj_rest(s, er.1, acc.push(er.0)),
                Option::None => Option::None,
            }
        } else {
            Option::None
        }
    }
}

#[via_fn]
proof fn sp_obj_rest_dec(s: Seq<u8>, i: int, acc: Seq<JEntryModel>) {
    if 0 <= i <= s.len() {
        lemma_sp_ws_bounds(s, i);
        let i1 = sp_ws(s, i);
        if i1 < s.len() && s[i1] == 44 {
            if sp_entry(s, i1 + 1) is Some {
                lemma_sp_entry_bounds(s, i1 + 1);
            }
        }
    }
}

/// Parse a flat object starting at its opening brace.
pub open spec fn sp_obj(s: Seq<u8>, i: int) -> Option<(Seq<JEntryModel>, int)> {
    if !(0 <= i < s.len() && s[i] == 123) {
        Option::None
    } else {
        let i1 = sp_ws(s, i + 1);
        if i1 < s.len() && s[i1] == 125 {
            Option::Some((Seq::empty(), i1 + 1))
        } else {
            match sp_entry(s, i + 1) {
                Option::Some(er) => sp_obj_rest(s, er.1, seq![er.0]),
                Option::None => Option::None,
            }
        }
    }
}

proof fn lemma_sp_obj_rest_bounds(s: Seq<u8>, i: int, acc: Seq<JEntryModel>)
    requires
        sp_obj_rest(s, i, acc) is Some,
    ensures
        i < sp_obj_rest(s, i, acc).unwrap().1 <= s.len(),
    decreases s.len() - i,
{
    lemma_sp_ws_bounds(s, i);
    let i1 = sp_ws(s, i);
    if i1 < s.len() && s[i1] == 44 {
        lemma_sp_entry_bounds(s, i1 + 1);
        let er = sp_entry(s, i1 + 1).unwrap();
        lemma_sp_obj_rest_bounds(s, er.1, acc.push(er.0));
    }
}

proof fn lemma_sp_obj_bounds(s: Seq<u8>, i: int)
    requires
        sp_obj(s, i) is Some,
    ensures
        i < sp_obj(s, i).unwrap().1 <= s.len(),
{
    lemma_sp_ws_bounds(s, i + 1);
    let i1 = sp_ws(s, i + 1);
    if !(i1 < s.len() && s[i1] == 125) {
        lemma_sp_entry_bounds(s, i + 1);
        let er = sp_entry(s, i + 1).unwrap();
        lemma_sp_obj_rest_bounds(s, er.1, seq![er.0]);
    }
}

/// Parse one array element: whitespace, then a flat object.
pub open spec fn sp_arr_elem(s: Seq<u8>, i: int) -> Option<(Seq<JEntryModel>, int)> {
    if i < 0 || i > s.len() {
        Option::None
    } else {
        sp_obj(s, sp_ws(s, i))
    }
}

proof fn lemma_sp_arr_elem_bounds(s: Seq<u8>, i: int)
    requires
        sp_arr_elem(s, i) is Some,
    ensures
        i < sp_arr_elem(s, i).unwrap().1 <= s.len(),
{
    lemma_sp_ws_bounds(s, i);
    lemma_sp_obj_bounds(s, sp_ws(s, i));
}

/// Parse the remaining elements of an array after the first: either the
/// closing bracket, or a comma and a further element.
pub open spec fn sp_arr_rest(s: Seq<u8>, i: int, acc: Seq<Seq<JEntryModel>>) -> Option<
    (Seq<Seq<JEntryModel>>, int),
>
    decreases s.len() - i,
    via sp_arr_rest_dec
{
    if i < 0 || i > s.len() {
        Option::None
    } else {
        let i1 = sp_ws(s, i);
        if i1 >= s.len() {
            Option::None
        } else if s[i1] == 93 {
            Option::Some((acc, i1 + 1))
        } else if s[i1] == 44 {
            match sp_arr_elem(s, i1 + 1) {
                Option::Some(er) => sp_arr_rest(s, er.1, acc.push(er.0)),
                Option::None => Option::None,
            }
        } else {
            Option::None
        }
    }
}

#[via_fn]
proof fn sp_arr_rest_dec(s: Seq<u8>, i: int, acc: Seq<Seq<JEntryModel>>) {
    if 0 <= i <= s.len() {
        lemma_sp_ws_bounds(s, i);
        let i1 = sp_ws(s, i);
        if i1 < s.len() && s[i1] == 44 {
            if sp_arr_elem(s, i1 + 1) is Some {
                lemma_sp_arr_elem_bounds(s, i1 + 1);
            }
        }
    }
}

/// Parse an array of flat objects starting at its opening bracket.
pub open spec fn sp_arr(s: Seq<u8>, i: int) -> Option<(Seq<Seq<JEntryModel>>, int)> {
    if !(0 <= i < s.len() && s[i] == 91) {
        Option::None
    } else {
        let i1 = sp_ws(s, i + 1);
        if i1 < s.len() && s[i1] == 93 {
            Option::Some((Seq::empty(), i1 + 1))
        } else {
            match sp_arr_elem(s, i + 1) {
                Option::Some(er) => sp_arr_rest(s, er.1, seq![er.0]),
                Option::None => Option::None,
            }
        }
    }
}

proof fn lemma_sp_arr_rest_bounds(s: Seq<u8>, i: int, acc: Seq<Seq<JEntryModel>>)
    requires
        sp_arr_rest(s, i, acc) is Some,
    ensures
        i < sp_arr_rest(s, i, acc).unwrap().1 <= s.len(),
    decreases s.len() - i,
{
    lemma_sp_ws_bounds(s, i);
    let i1 = sp_ws(s, i);
    if i1 < s.len() && s[i1] == 44 {
        lemma_sp_arr_elem_bounds(s, i1 + 1);
        let er = sp_arr_elem(s, i1 + 1).unwrap();
        lemma_sp_arr_rest_bounds(s, er.1, acc.push(er.0));
    }
}

proof fn lemma_sp_arr_bounds(s: Seq<u8>, i: int)
    requires
        sp_arr(s, i) is Some,
    ensures
        i < sp_arr(s, i).unwrap().1 <= s.len(),
{
    lemma_sp_ws_bounds(s, i + 1);
    let i1 = sp_ws(s, i + 1);
    if !(i1 < s.len() && s[i1] == 93) {
        lemma_sp_arr_elem_bounds(s, i + 1);
        let er = sp_arr_elem(s, i + 1).unwrap();
        lemma_sp_arr_rest_bounds(s, er.1, seq![er.0]);
    }
}

/// Parse a top-level field value: a flat object, an array of flat
/// objects, or a scalar.
pub open spec fn sp_value(s: Seq<u8>, i: int) -> Option<(JValueModel, int)> {
    if i < 0 || i >= s.len() {
        Option::None
    } else if s[i] == 123 {
        match sp_obj(s, i) {
            Option::Some(r) => Option::Some((JValueModel::Obj(r.0), r.1)),
            Option::None => Option::None,
        }
    } else if s[i] == 91 {
        match sp_arr(s, i) {
            Option::Some(r) => Option::Some((JValueModel::Arr(r.0), r.1)),
            Option::None => Option::None,
        }
    } else {
        match sp_scalar(s, i) {
            Option::Some(r) => Option::Some((JValueModel::Scalar(r.0), r.1)),
            Option::None => Option::None,
        }
    }
}

proof fn lemma_sp_value_bounds(s: Seq<u8>, i: int)
    requires
        sp_value(s, i) is Some,
    ensures
        i < sp_value(s, i).unwrap().1 <= s.len(),
{
    if 0 <= i < s.len() {
        if s[i] == 123 {
            lemma_sp_obj_bounds(s, i);
        } else if s[i] == 91 {
            lemma_sp_arr_bounds(s, i);
        } else {
            lemma_sp_scalar_bounds(s, i);
        }
    }
}

/// Parse one top-level field: whitespace, a key, a colon, a value.
pub open spec fn sp_field(s: Seq<u8>, i: int) -> Option<(JFieldModel, int)> {
    if i < 0 || i > s.len() {
        Option::None
    } else {
        let i1 = sp_ws(s, i);
        match sp_str(s, i1) {
            Option::None => Option::None,
            Option::Some(kr) => {
                let i2 = sp_ws(s, kr.1);
                if 0 <= i2 < s.len() && s[i2] == 58 {
                    let i3 = sp_ws(s, i2 + 1);
                    match sp_value(s, i3) {
                        Option::Some(vr) => Option::Some(
                            (JFieldModel { key: kr.0, value: vr.0 }, vr.1),
                        ),
                        Option::None => Option::None,
                    }
                } else {
                    Option::None
                }
            },
        }
    }
}

proof fn lemma_sp_field_bounds(s: Seq<u8>, i: int)
    requires
        sp_field(s, i) is Some,
    ensures
        i < sp_field(s, i).unwrap().1 <= s.len(),
{
    let i1 = sp_ws(s, i);
    lemma_sp_ws_bounds(s, i);
    lemma_sp_str_bounds(s, i1);
    let kr = sp_str(s, i1).unwrap();
    let i2 = sp_ws(s, kr.1);
    lemma_sp_ws_bounds(s, kr.1);
    let i3 = sp_ws(s, i2 + 1);
    lemma_sp_ws_bounds(s, i2 + 1);
    lemma_sp_value_bounds(s, i3);
}

/// Parse the remaining top-level fields after the first.
pub open spec fn sp_doc_rest(s: Seq<u8>, i: int, acc: Seq<JFieldModel>) -> Option<
    (Seq<JFieldModel>, int),
>
    decreases s.len() - i,
    via sp_doc_rest_dec
{
    if i < 0 || i > s.len() {
        Option::None
    } else {
        let i1 = sp_ws(s, i);
        if i1 >= s.len() {
            Option::None
        } else if s[i1] == 125 {
            Option::Some((acc, i1 + 1))
        } else if s[i1] == 44 {
            match sp_field(s, i1 + 1) {
                Option::Some(fr) => sp_doc_rest(s, fr.1, acc.push(fr.0)),
                Option::None => Option::None,
            }
        } else {
            Option::None
        }
    }
}

#[via_fn]
proof fn sp_doc_rest_dec(s: Seq<u8>, i: int, acc: Seq<JFieldModel>) {
    if 0 <= i <= s.len() {
        lemma_sp_ws_bounds(s, i);
        let i1 = sp_ws(s, i);
        if i1 < s.len() && s[i1] == 44 {
            if sp_field(s, i1 + 1) is Some {
                lemma_sp_field_bounds(s, i1 + 1);
            }
        }
    }
}

/// Parse a whole document object starting at its opening brace.
pub open spec fn sp_doc(s: Seq<u8>, i: int) -> Option<(Seq<JFieldModel>, int)> {
    if !(0 <= i < s.len() && s[i] == 123) {
        Option::None
    } else {
        let i1 = sp_ws(s, i + 1);
        if i1 < s.len() && s[i1] == 125 {
            Option::Some((Seq::empty(), i1 + 1))
        } else {
            match sp_field(s, i + 1) {
                Option::Some(fr) => sp_doc_rest(s, fr.1, seq![fr.0]),
                Option::None => Option::None,
            }
        }
    }
}

/// Parse a complete document: optional whitespace, the document object,
/// optional trailing whitespace, and nothing further.
pub open spec fn sp_document(s: Seq<u8>) -> Option<Seq<JFieldModel>> {
    match sp_doc(s, sp_ws(s, 0)) {
        Option::Some(r) => if sp_ws(s, r.1) == s.len() {
            Option::Some(r.0)
        } else {
            Option::None
        },
        Option::None => Option::None,
    }
}

// ---------------------------------------------------------------------
// The printer's output parses back to what was printed.
// ---------------------------------------------------------------------
proof fn lemma_match_at_index(t: Seq<u8>, p: Seq<u8>, i: int, k: int)
    requires
        match_at(t, p, i),
        0 <= k < p.len(),
    ensures
        t[i + k] == p[k],
{
    assert(t.subrange(i, i + p.len() as int)[k] == t[i + k]);
}

proof fn lemma_match_at_split(t: Seq<u8>, a: Seq<u8>, b: Seq<u8>, i: int)
    requires
        match_at(t, a + b, i),
    ensures
        match_at(t, a, i),
        match_at(t, b, i + a.len()),
{
    assert(t.subrange(i, i + a.len() as int) =~= a) by {
        assert forall|k: int| 0 <= k < a.len() implies t.subrange(i, i + a.len() as int)[k]
            == a[k] by {
            lemma_match_at_index(t, a + b, i, k);
            assert((a + b)[k] == a[k]);
        }
    }
    assert(t.subrange(i + a.len(), i + a.len() + b.len()) =~= b) by {
        assert forall|k: int| 0 <= k < b.len() implies t.subrange(
            i + a.len(),
            i + a.len() + b.len(),
        )[k] == b[k] by {
            lemma_match_at_index(t, a + b, i, a.len() + k);
            assert((a + b)[a.len() + k] == b[k]);
        }
    }
}

proof fn lemma_hex_val_digit(d: nat)
    requires
        d < 16,
    ensures
        hex_val(hex_digit(d)) == Option::Some(d as u8),
{
}

/// Parsing the escaped body of a printed string (plus its closing quote)
/// recovers the string.
proof fn lemma_parse_esc(t: Seq<u8>, s: Seq<u8>, i: int, acc: Seq<u8>)
    requires
        match_at(t, esc(s) + seq![34u8], i),
    ensures
        sp_str_rest(t, i, acc) == Option::Some((acc + s, i + esc(s).len() + 1)),
    decreases s.len(),
{
    if s.len() == 0 {
        assert(esc(s) + seq![34u8] =~= seq![34u8]);
        lemma_match_at_index(t, esc(s) + seq![34u8], i, 0);
        assert(t[i] == 34);
        assert(acc + s =~= acc);
    } else {
        let b = s[0];
        let rest = s.drop_first();
        assert(esc(s) + seq![34u8] =~= esc_byte(b) + (esc(rest) + seq![34u8]));
        lemma_match_at_split(t, esc_byte(b), esc(rest) + seq![34u8], i);
        let w = esc_byte(b).len() as int;
        if b == 34 || b == 92 || b == 10 || b == 13 || b == 9 {
            lemma_match_at_index(t, esc_byte(b), i, 0);
            lemma_match_at_index(t, esc_byte(b), i, 1);
            assert(t[i] == 92);
            lemma_parse_esc(t, rest, i + 2, acc.push(b));
            assert(acc.push(b) + rest =~= acc + s);
        } else if b < 32 {
            lemma_match_at_index(t, esc_byte(b), i, 0);
            lemma_match_at_index(t, esc_byte(b), i, 1);
            lemma_match_at_index(t, esc_byte(b), i, 2);
            lemma_match_at_index(t, esc_byte(b), i, 3);
            lemma_match_at_index(t, esc_byte(b), i, 4);
            lemma_match_at_index(t, esc_byte(b), i, 5);
            assert(t[i] == 92 && t[i + 1] == 117 && t[i + 2] == 48 && t[i + 3] == 48);
            lemma_hex_val_digit((b / 16) as nat);
            lemma_hex_val_digit((b % 16) as nat);
            assert((hex_val(t[i + 4]).unwrap() * 16 + hex_val(t[i + 5]).unwrap()) as u8 == b);
            lemma_parse_esc(t, rest, i + 6, acc.push(b));
            assert(acc.push(b) + rest =~= acc + s);
        } else {
            lemma_match_at_index(t, esc_byte(b), i, 0);
            assert(t[i] == b);
            lemma_parse_esc(t, rest, i + 1, acc.push(b));
            assert(acc.push(b) + rest =~= acc + s);
        }
    }
}

/// Parsing a printed string recovers the string.
proof fn lemma_parse_enc_str(t: Seq<u8>, s: Seq<u8>, i: int)
    requires
        match_at(t, enc_str(s), i),
    ensures
        sp_str(t, i) == Option::Some((s, i + enc_str(s).len())),
{
    assert(enc_str(s) =~= seq![34u8] + (esc(s) + seq![34u8]));
    lemma_match_at_split(t, seq![34u8], esc(s) + seq![34u8], i);
    lemma_match_at_index(t, seq![34u8], i, 0);
    assert(t[i] == 34);
    lemma_parse_esc(t, s, i + 1, Seq::empty());
    assert(Seq::empty() + s =~= s);
}

/// Powers of ten.
pub open spec fn pow10(k: nat) -> nat
    decreases k,
{
    if k == 0 {
        1
    } else {
        10 * pow10((k - 1) as nat)
    }
}

/// The value of a run of decimal digits.
pub open spec fn val_digits(ds: Seq<u8>) -> nat
    decreases ds.len(),
{
    if ds.len() == 0 {
        0
    } else {
        val_digits(ds.drop_last()) * 10 + (ds.last() - 48) as nat
    }
}

proof fn lemma_dec_digits(n: nat)
    ensures
        dec_of(n).len() >= 1,
        forall|k: int| 0 <= k < dec_of(n).len() ==> is_dig(#[trigger] dec_of(n)[k]),
    decreases n,
{
    if n >= 10 {
        lemma_dec_digits(n / 10);
        assert(forall|k: int|
            0 <= k < dec_of(n / 10).len() ==> dec_of(n)[k] == dec_of(n / 10)[k]);
    }
}

proof fn lemma_val_dec(n: nat)
    ensures
        val_digits(dec_of(n)) == n,
    decreases n,
{
    if n < 10 {
        let ds = dec_of(n);
        assert(ds =~= seq![(48 + n) as u8]);
        assert(ds.drop_last() =~= Seq::<u8>::empty());
        assert(val_digits(Seq::<u8>::empty()) == 0);
        assert(val_digits(ds) == 0 * 10 + ((48 + n) as u8 - 48) as nat);
    } else {
        lemma_val_dec(n / 10);
        assert(dec_of(n).drop_last() =~= dec_of(n / 10));
        assert(dec_of(n).last() == (48 + n % 10) as u8);
        assert(val_digits(dec_of(n)) == val_digits(dec_of(n / 10)) * 10 + ((48 + n % 10) as u8
            - 48) as nat);
        assert(((48 + n % 10) as u8 - 48) as nat == n % 10);
        vstd::arithmetic::div_mod::lemma_fundamental_div_mod(n as int, 10);
    }
}

proof fn lemma_val_cons(ds: Seq<u8>)
    requires
        ds.len() > 0,
        forall|k: int| 0 <= k < ds.len() ==> is_dig(#[trigger] ds[k]),
    ensures
        val_digits(ds) == (ds[0] - 48) as nat * pow10((ds.len() - 1) as nat) + val_digits(
            ds.drop_first(),
        ),
    decreases ds.len(),
{
    if ds.len() == 1 {
        assert(ds.drop_last() =~= Seq::<u8>::empty());
        assert(ds.drop_first() =~= Seq::<u8>::empty());
        assert(val_digits(Seq::<u8>::empty()) == 0);
        assert(val_digits(ds) == 0 * 10 + (ds.last() - 48) as nat);
        assert(ds.last() == ds[0]);
        assert(pow10(0) == 1);
    } else {
        let dl = ds.drop_last();
        lemma_val_cons(dl);
        let k = (ds.len() - 2) as nat;
        let d0 = (ds[0] - 48) as nat;
        assert(dl[0] == ds[0]);
        assert(ds.drop_first().drop_last() =~= dl.drop_first());
        assert(ds.drop_first().last() == ds.last());
        assert(val_digits(ds) == val_digits(dl) * 10 + (ds.last() - 48) as nat);
        assert(val_digits(dl) == d0 * pow10(k) + val_digits(dl.drop_first()));
        assert(val_digits(ds.drop_first()) == val_digits(dl.drop_first()) * 10 + (ds.last()
            - 48) as nat);
        assert(pow10((ds.len() - 1) as nat) == 10 * pow10(k));
        assert((d0 * pow10(k) + val_digits(dl.drop_first())) * 10 == d0 * (10 * pow10(k))
            + val_digits(dl.drop_first()) * 10) by (nonlinear_arith);
    }
}

proof fn lemma_sp_digits_run(t: Seq<u8>, i: int, j: int, acc: nat)
    requires
        0 <= i <= j <= t.len(),
        forall|k: int| i <= k < j ==> is_dig(#[trigger] t[k]),
        j == t.len() || !is_dig(t[j]),
    ensures
        sp_digits(t, i, acc).0 == acc * pow10((j - i) as nat) + val_digits(t.subrange(i, j)),
        sp_digits(t, i, acc).1 == j,
    decreases j - i,
{
    if i == j {
        assert(t.subrange(i, j) =~= Seq::<u8>::empty());
        assert(val_digits(Seq::<u8>::empty()) == 0);
        assert(pow10((j - i) as nat) == 1);
    } else {
        let d0 = (t[i] - 48) as nat;
        lemma_sp_digits_run(t, i + 1, j, acc * 10 + d0);
        let k = (j - i - 1) as nat;
        let sub = t.subrange(i, j);
        assert forall|m: int| 0 <= m < sub.len() implies is_dig(#[trigger] sub[m]) by {
            assert(sub[m] == t[i + m]);
        }
        lemma_val_cons(sub);
        assert(sub[0] == t[i]);
        assert(sub.drop_first() =~= t.subrange(i + 1, j));
        assert(val_digits(sub) == d0 * pow10(k) + val_digits(t.subrange(i + 1, j)));
        assert(sp_digits(t, i, acc) == sp_digits(t, i + 1, acc * 10 + d0));
        assert(sp_digits(t, i, acc).0 == (acc * 10 + d0) * pow10(k) + val_digits(
            t.subrange(i + 1, j),
        ));
        assert((acc * 10 + d0) * pow10(k) == acc * (10 * pow10(k)) + d0 * pow10(k))
            by (nonlinear_arith);
        assert(pow10((j - i) as nat) == 10 * pow10(k));
        assert(acc * pow10((j - i) as nat) == acc * (10 * pow10(k)));
    }
}

/// Parsing a printed unsigned integer recovers the value, as long as
/// the byte after it cannot extend a number token.
proof fn lemma_parse_enc_int(t: Seq<u8>, n: u64, i: int)
    requires
        match_at(t, dec_of(n as nat), i),
        i + dec_of(n as nat).len() == t.len() || !extends_number(
            t[i + dec_of(n as nat).len()],
        ),
    ensures
        sp_number(t, i) == Option::Some(
            (JScalarModel::Int(n), i + dec_of(n as nat).len()),
        ),
{
    reveal(sp_number);
    let d = dec_of(n as nat);
    lemma_dec_digits(n as nat);
    assert forall|k: int| i <= k < i + d.len() implies is_dig(#[trigger] t[k]) by {
        lemma_match_at_index(t, d, i, k - i);
        assert(t[k] == d[k - i]);
    }
    assert(is_dig(t[i]));
    assert(t[i] != 45);
    lemma_sp_digits_run(t, i, i + d.len(), 0);
    assert(t.subrange(i, i + d.len()) =~= d);
    lemma_val_dec(n as nat);
    assert(0 * pow10(d.len() as nat) == 0) by (nonlinear_arith);
    let p = i + d.len();
    assert(sp_digits(t, i, 0).0 == n && sp_digits(t, i, 0).1 == p);
    assert(sp_frac_end(t, p) == Option::Some(p));
    assert(sp_exp_end(t, p) == Option::Some(p));
}

proof fn lemma_enc_scalar_first(v: JScalarModel)
    ensures
        enc_scalar(v).len() >= 1,
        !is_jws(enc_scalar(v)[0]),
        enc_scalar(v)[0] != 123,
        enc_scalar(v)[0] != 91,
        enc_scalar(v)[0] != 125,
        enc_scalar(v)[0] != 93,
        enc_scalar(v)[0] != 44,
        match v {
            JScalarModel::Str(_) => enc_scalar(v)[0] == 34,
            JScalarModel::Null => enc_scalar(v)[0] == 110,
            JScalarModel::Bool(b) => enc_scalar(v)[0] == if b {
                116u8
            } else {
                102u8
            },
            JScalarModel::Int(n) => is_dig(enc_scalar(v)[0]) && enc_scalar(v)
                == dec_of(n as nat),
        },
{
    match v {
        JScalarModel::Int(n) => {
            lemma_dec_digits(n as nat);
        },
        JScalarModel::Str(s) => {
            assert(enc_str(s)[0] == 34);
        },
        _ => {},
    }
}

/// Parsing a printed scalar recovers the scalar. The byte after it, if
/// any, must not be a digit, so that a printed integer ends where it was
/// printed.
proof fn lemma_parse_enc_scalar(t: Seq<u8>, v: JScalarModel, i: int)
    requires
        match_at(t, enc_scalar(v), i),
        i + enc_scalar(v).len() == t.len() || !extends_number(t[i + enc_scalar(v).len()]),
    ensures
        sp_scalar(t, i) == Option::Some((v, i + enc_scalar(v).len())),
{
    lemma_enc_scalar_first(v);
    lemma_match_at_index(t, enc_scalar(v), i, 0);
    match v {
        JScalarModel::Str(s) => {
            lemma_parse_enc_str(t, s, i);
        },
        JScalarModel::Null => {
            assert(lit_null().len() == 4);
        },
        JScalarModel::Bool(b) => {
            assert(lit_true().len() == 4);
            assert(lit_false().len() == 5);
            if b {
                assert(t[i] == 116);
            } else {
                assert(t[i] == 102);
            }
        },
        JScalarModel::Int(n) => {
            assert(t[i] != 34 && t[i] != 110 && t[i] != 116 && t[i] != 102);
            lemma_parse_enc_int(t, n, i);
        },
    }
}

/// Parsing a printed flat-object field recovers the field.
proof fn lemma_parse_enc_entry(t: Seq<u8>, e: JEntryModel, i: int)
    requires
        match_at(t, enc_entry(e), i),
        i + enc_entry(e).len() == t.len() || !extends_number(t[i + enc_entry(e).len()]),
    ensures
        sp_entry(t, i) == Option::Some((e, i + enc_entry(e).len())),
{
    assert(enc_entry(e) =~= enc_str(e.key) + (seq![58u8] + enc_scalar(e.value)));
    lemma_match_at_split(t, enc_str(e.key), seq![58u8] + enc_scalar(e.value), i);
    let p = i + enc_str(e.key).len();
    lemma_match_at_split(t, seq![58u8], enc_scalar(e.value), p);
    lemma_match_at_index(t, seq![58u8], p, 0);
    lemma_match_at_index(t, enc_str(e.key), i, 0);
    assert(enc_str(e.key)[0] == 34);
    assert(t[i] == 34);
    assert(sp_ws(t, i) == i);
    lemma_parse_enc_str(t, e.key, i);
    assert(t[p] == 58);
    assert(sp_ws(t, p) == p);
    lemma_enc_scalar_first(e.value);
    lemma_match_at_index(t, enc_scalar(e.value), p + 1, 0);
    assert(!is_jws(t[p + 1]));
    assert(sp_ws(t, p + 1) == p + 1);
    lemma_parse_enc_scalar(t, e.value, p + 1);
}

/// Parsing the printed remainder of a flat object appends the printed
/// fields to the accumulator.
proof fn lemma_parse_obj_rest(t: Seq<u8>, es: Seq<JEntryModel>, i: int, acc: Seq<JEntryModel>)
    requires
        match_at(t, enc_entries_rest(es) + seq![125u8], i),
    ensures
        sp_obj_rest(t, i, acc) == Option::Some(
            (acc + es, i + enc_entries_rest(es).len() + 1),
        ),
    decreases es.len(),
{
    if es.len() == 0 {
        assert(enc_entries_rest(es) + seq![125u8] =~= seq![125u8]);
        lemma_match_at_index(t, seq![125u8], i, 0);
        assert(t[i] == 125);
        assert(sp_ws(t, i) == i);
        assert(acc + es =~= acc);
    } else {
        let e = es[0];
        let rest = es.drop_first();
        assert(enc_entries_rest(es) + seq![125u8] =~= seq![44u8] + (enc_entry(e)
            + (enc_entries_rest(rest) + seq![125u8])));
        lemma_match_at_split(
            t,
            seq![44u8],
            enc_entry(e) + (enc_entries_rest(rest) + seq![125u8]),
            i,
        );
        lemma_match_at_split(
            t,
            enc_entry(e),
            enc_entries_rest(rest) + seq![125u8],
            i + 1,
        );
        lemma_match_at_index(t, seq![44u8], i, 0);
        assert(t[i] == 44);
        assert(sp_ws(t, i) == i);
        let p = i + 1 + enc_entry(e).len();
        // The byte after the entry opens the rest: a comma or the brace.
        if rest.len() == 0 {
            assert(enc_entries_rest(rest) + seq![125u8] =~= seq![125u8]);
            lemma_match_at_index(t, seq![125u8], p, 0);
            assert(t[p] == 125);
        } else {
            assert((enc_entries_rest(rest) + seq![125u8])[0] == 44);
            lemma_match_at_index(t, enc_entries_rest(rest) + seq![125u8], p, 0);
            assert(t[p] == 44);
        }
        lemma_parse_enc_entry(t, e, i + 1);
        lemma_parse_obj_rest(t, rest, p, acc.push(e));
        assert(acc.push(e) + rest =~= acc + es);
    }
}

/// Parsing a printed flat object recovers its fields.
proof fn lemma_parse_enc_obj(t: Seq<u8>, es: Seq<JEntryModel>, i: int)
    requires
        match_at(t, enc_obj(es), i),
    ensures
        sp_obj(t, i) == Option::Some((es, i + enc_obj(es).len())),
{
    if es.len() == 0 {
        lemma_match_at_index(t, enc_obj(es), i, 0);
        lemma_match_at_index(t, enc_obj(es), i, 1);
        assert(t[i] == 123 && t[i + 1] == 125);
        assert(sp_ws(t, i + 1) == i + 1);
        assert(Seq::<JEntryModel>::empty() =~= es);
    } else {
        let e = es[0];
        let rest = es.drop_first();
        assert(enc_obj(es) =~= seq![123u8] + (enc_entry(e) + (enc_entries_rest(rest)
            + seq![125u8])));
        lemma_match_at_split(
            t,
            seq![123u8],
            enc_entry(e) + (enc_entries_rest(rest) + seq![125u8]),
            i,
        );
        lemma_match_at_split(
            t,
            enc_entry(e),
            enc_entries_rest(rest) + seq![125u8],
            i + 1,
        );
        lemma_match_at_index(t, seq![123u8], i, 0);
        assert(t[i] == 123);
        // The first byte after the brace is the first key's quote.
        lemma_match_at_index(t, enc_entry(e), i + 1, 0);
        assert(enc_entry(e)[0] == enc_str(e.key)[0]);
        assert(enc_str(e.key)[0] == 34);
        assert(t[i + 1] == 34);
        assert(sp_ws(t, i + 1) == i + 1);
        let p = i + 1 + enc_entry(e).len();
        if rest.len() == 0 {
            assert(enc_entries_rest(rest) + seq![125u8] =~= seq![125u8]);
            lemma_match_at_index(t, seq![125u8], p, 0);
            assert(t[p] == 125);
        } else {
            assert((enc_entries_rest(rest) + seq![125u8])[0] == 44);
            lemma_match_at_index(t, enc_entries_rest(rest) + seq![125u8], p, 0);
            assert(t[p] == 44);
        }
        lemma_parse_enc_entry(t, e, i + 1);
        lemma_parse_obj_rest(t, rest, p, seq![e]);
        assert(seq![e] + rest =~= es);
    }
}

/// Parsing the printed remainder of an array appends the printed
/// elements to the accumulator.
proof fn lemma_parse_arr_rest(
    t: Seq<u8>,
    os: Seq<Seq<JEntryModel>>,
    i: int,
    acc: Seq<Seq<JEntryModel>>,
)
    requires
        match_at(t, enc_arr_rest(os) + seq![93u8], i),
    ensures
        sp_arr_rest(t, i, acc) == Option::Some((acc + os, i + enc_arr_rest(os).len() + 1)),
    decreases os.len(),
{
    if os.len() == 0 {
        assert(enc_arr_rest(os) + seq![93u8] =~= seq![93u8]);
        lemma_match_at_index(t, seq![93u8], i, 0);
        assert(t[i] == 93);
        assert(sp_ws(t, i) == i);
        assert(acc + os =~= acc);
    } else {
        let o = os[0];
        let rest = os.drop_first();
        assert(enc_arr_rest(os) + seq![93u8] =~= seq![44u8] + (enc_obj(o) + (enc_arr_rest(rest)
            + seq![93u8])));
        lemma_match_at_split(t, seq![44u8], enc_obj(o) + (enc_arr_rest(rest) + seq![93u8]), i);
        lemma_match_at_split(t, enc_obj(o), enc_arr_rest(rest) + seq![93u8], i + 1);
        lemma_match_at_index(t, seq![44u8], i, 0);
        assert(t[i] == 44);
        assert(sp_ws(t, i) == i);
        lemma_match_at_index(t, enc_obj(o), i + 1, 0);
        assert(enc_obj(o)[0] == 123);
        assert(t[i + 1] == 123);
        assert(sp_ws(t, i + 1) == i + 1);
        lemma_parse_enc_obj(t, o, i + 1);
        let p = i + 1 + enc_obj(o).len();
        lemma_parse_arr_rest(t, rest, p, acc.push(o));
        assert(acc.push(o) + rest =~= acc + os);
    }
}

/// Parsing a printed array recovers its elements.
proof fn lemma_parse_enc_arr(t: Seq<u8>, os: Seq<Seq<JEntryModel>>, i: int)
    requires
        match_at(t, enc_arr(os), i),
    ensures
        sp_arr(t, i) == Option::Some((os, i + enc_arr(os).len())),
{
    if os.len() == 0 {
        lemma_match_at_index(t, enc_arr(os), i, 0);
        lemma_match_at_index(t, enc_arr(os), i, 1);
        assert(t[i] == 91 && t[i + 1] == 93);
        assert(sp_ws(t, i + 1) == i + 1);
        assert(Seq::<Seq<JEntryModel>>::empty() =~= os);
    } else {
        let o = os[0];
        let rest = os.drop_first();
        assert(enc_arr(os) =~= seq![91u8] + (enc_obj(o) + (enc_arr_rest(rest) + seq![93u8])));
        lemma_match_at_split(t, seq![91u8], enc_obj(o) + (enc_arr_rest(rest) + seq![93u8]), i);
        lemma_match_at_split(t, enc_obj(o), enc_arr_rest(rest) + seq![93u8], i + 1);
        lemma_match_at_index(t, seq![91u8], i, 0);
        assert(t[i] == 91);
        lemma_match_at_index(t, enc_obj(o), i + 1, 0);
        assert(enc_obj(o)[0] == 123);
        assert(t[i + 1] == 123);
        assert(sp_ws(t, i + 1) == i + 1);
        lemma_parse_enc_obj(t, o, i + 1);
        let p = i + 1 + enc_obj(o).len();
        lemma_parse_arr_rest(t, rest, p, seq![o]);
        assert(seq![o] + rest =~= os);
    }
}

proof fn lemma_enc_value_first(v: JValueModel)
    ensures
        enc_value(v).len() >= 1,
        !is_jws(enc_value(v)[0]),
        enc_value(v)[0] != 125,
        enc_value(v)[0] != 44,
{
    match v {
        JValueModel::Scalar(s) => {
            lemma_enc_scalar_first(s);
        },
        JValueModel::Obj(es) => {
            assert(enc_obj(es)[0] == 123);
        },
        JValueModel::Arr(os) => {
            assert(enc_arr(os)[0] == 91);
        },
    }
}

/// Parsing a printed top-level value recovers the value.
proof fn lemma_parse_enc_value(t: Seq<u8>, v: JValueModel, i: int)
    requires
        match_at(t, enc_value(v), i),
        i + enc_value(v).len() == t.len() || !extends_number(t[i + enc_value(v).len()]),
    ensures
        sp_value(t, i) == Option::Some((v, i + enc_value(v).len())),
{
    lemma_match_at_index(t, enc_value(v), i, 0);
    match v {
        JValueModel::Scalar(s) => {
            lemma_enc_scalar_first(s);
            assert(t[i] != 123 && t[i] != 91);
            lemma_parse_enc_scalar(t, s, i);
        },
        JValueModel::Obj(es) => {
            assert(enc_obj(es)[0] == 123);
            assert(t[i] == 123);
            lemma_parse_enc_obj(t, es, i);
        },
        JValueModel::Arr(os) => {
            assert(enc_arr(os)[0] == 91);
            assert(t[i] == 91);
            lemma_parse_enc_arr(t, os, i);
        },
    }
}

/// Parsing a printed top-level field recovers the field.
proof fn lemma_parse_enc_field(t: Seq<u8>, f: JFieldModel, i: int)
    requires
        match_at(t, enc_field(f), i),
        i + enc_field(f).len() == t.len() || !extends_number(t[i + enc_field(f).len()]),
    ensures
        sp_field(t, i) == Option::Some((f, i + enc_field(f).len())),
{
    assert(enc_field(f) =~= enc_str(f.key) + (seq![58u8] + enc_value(f.value)));
    lemma_match_at_split(t, enc_str(f.key), seq![58u8] + enc_value(f.value), i);
    let p = i + enc_str(f.key).len();
    lemma_match_at_split(t, seq![58u8], enc_value(f.value), p);
    lemma_match_at_index(t, seq![58u8], p, 0);
    lemma_match_at_index(t, enc_str(f.key), i, 0);
    assert(enc_str(f.key)[0] == 34);
    assert(t[i] == 34);
    assert(sp_ws(t, i) == i);
    lemma_parse_enc_str(t, f.key, i);
    assert(t[p] == 58);
    assert(sp_ws(t, p) == p);
    lemma_enc_value_first(f.value);
    lemma_match_at_index(t, enc_value(f.value), p + 1, 0);
    assert(!is_jws(t[p + 1]));
    assert(sp_ws(t, p + 1) == p + 1);
    lemma_parse_enc_value(t, f.value, p + 1);
}

/// Parsing the printed remainder of the document appends the printed
/// fields to the accumulator.
proof fn lemma_parse_doc_rest(t: Seq<u8>, fs: Seq<JFieldModel>, i: int, acc: Seq<JFieldModel>)
    requires
        match_at(t, enc_fields_rest(fs) + seq![125u8], i),
    ensures
        sp_doc_rest(t, i, acc) == Option::Some((acc + fs, i + enc_fields_rest(fs).len() + 1)),
    decreases fs.len(),
{
    if fs.len() == 0 {
        assert(enc_fields_rest(fs) + seq![125u8] =~= seq![125u8]);
        lemma_match_at_index(t, seq![125u8], i, 0);
        assert(t[i] == 125);
        assert(sp_ws(t, i) == i);
        assert(acc + fs =~= acc);
    } else {
        let f = fs[0];
        let rest = fs.drop_first();
        assert(enc_fields_rest(fs) + seq![125u8] =~= seq![44u8] + (enc_field(f)
            + (enc_fields_rest(rest) + seq![125u8])));
        lemma_match_at_split(
            t,
            seq![44u8],
            enc_field(f) + (enc_fields_rest(rest) + seq![125u8]),
            i,
        );
        lemma_match_at_split(
            t,
            enc_field(f),
            enc_fields_rest(rest) + seq![125u8],
            i + 1,
        );
        lemma_match_at_index(t, seq![44u8], i, 0);
        assert(t[i] == 44);
        assert(sp_ws(t, i) == i);
        let p = i + 1 + enc_field(f).len();
        if rest.len() == 0 {
            assert(enc_fields_rest(rest) + seq![125u8] =~= seq![125u8]);
            lemma_match_at_index(t, seq![125u8], p, 0);
            assert(t[p] == 125);
        } else {
            assert((enc_fields_rest(rest) + seq![125u8])[0] == 44);
            lemma_match_at_index(t, enc_fields_rest(rest) + seq![125u8], p, 0);
            assert(t[p] == 44);
        }
        lemma_parse_enc_field(t, f, i + 1);
        lemma_parse_doc_rest(t, rest, p, acc.push(f));
        assert(acc.push(f) + rest =~= acc + fs);
    }
}

#[verifier::rlimit(100)]
proof fn lemma_enc_doc_layout(fs: Seq<JFieldModel>)
    requires
        fs.len() > 0,
    ensures
        enc_doc(fs)[0] == 123,
        match_at(enc_doc(fs), enc_field(fs[0]), 1),
        match_at(
            enc_doc(fs),
            enc_fields_rest(fs.drop_first()) + seq![125u8],
            1 + enc_field(fs[0]).len() as int,
        ),
        ({
            let p: int = 1 + enc_field(fs[0]).len() as int;
            enc_doc(fs)[p] == 125 || enc_doc(fs)[p] == 44
        }),
        enc_doc(fs).len() == 1 + enc_field(fs[0]).len() + enc_fields_rest(
            fs.drop_first(),
        ).len() + 1,
{
    let t = enc_doc(fs);
    assert(t.subrange(0, t.len() as int) =~= t);
    assert(match_at(t, enc_doc(fs), 0));
    let f = fs[0];
    let rest = fs.drop_first();
    assert(enc_doc(fs) =~= seq![123u8] + (enc_field(f) + (enc_fields_rest(rest)
        + seq![125u8])));
    lemma_match_at_split(
        t,
        seq![123u8],
        enc_field(f) + (enc_fields_rest(rest) + seq![125u8]),
        0,
    );
    lemma_match_at_split(
        t,
        enc_field(f),
        enc_fields_rest(rest) + seq![125u8],
        1,
    );
    lemma_match_at_index(t, seq![123u8], 0, 0);
    let p: int = 1 + enc_field(f).len() as int;
    if rest.len() == 0 {
        assert(enc_fields_rest(rest) + seq![125u8] =~= seq![125u8]);
        lemma_match_at_index(t, seq![125u8], p, 0);
        assert(t[p] == 125);
    } else {
        assert((enc_fields_rest(rest) + seq![125u8])[0] == 44);
        lemma_match_at_index(t, enc_fields_rest(rest) + seq![125u8], p, 0);
        assert(t[p] == 44);
    }
}

#[verifier::rlimit(100)]
proof fn lemma_parse_enc_doc_fields(fs: Seq<JFieldModel>)
    requires
        fs.len() > 0,
    ensures
        sp_doc(enc_doc(fs), 0) == Option::Some((fs, enc_doc(fs).len() as int)),
{
    let t = enc_doc(fs);
    let f = fs[0];
    let rest = fs.drop_first();
    lemma_enc_doc_layout(fs);
    lemma_match_at_index(t, enc_field(f), 1, 0);
    assert(enc_field(f)[0] == enc_str(f.key)[0]);
    assert(enc_str(f.key)[0] == 34);
    assert(t[1] == 34);
    assert(sp_ws(t, 1) == 1);
    let p: int = 1 + enc_field(f).len() as int;
    lemma_parse_enc_field(t, f, 1);
    lemma_parse_doc_rest(t, rest, p, seq![f]);
    assert(seq![f] + rest =~= fs);
}

/// The canonical text of a document parses back to exactly the fields
/// that were printed.
#[verifier::rlimit(100)]
pub proof fn lemma_parse_enc_doc(fs: Seq<JFieldModel>)
    ensures
        sp_document(enc_doc(fs)) == Option::Some(fs),
{
    let t = enc_doc(fs);
    assert(t.subrange(0, t.len() as int) =~= t);
    assert(match_at(t, enc_doc(fs), 0));
    assert(t[0] == 123);
    assert(sp_ws(t, 0) == 0);
    if fs.len() == 0 {
        assert(t[1] == 125);
        assert(sp_ws(t, 1) == 1);
        assert(sp_doc(t, 0) == Option::Some((Seq::<JFieldModel>::empty(), 2int)));
        assert(Seq::<JFieldModel>::empty() =~= fs);
        assert(sp_ws(t, 2) == 2 == t.len());
    } else {
        lemma_parse_enc_doc_fields(fs);
        assert(sp_doc(t, 0) == Option::Some((fs, t.len() as int)));
        assert(sp_ws(t, t.len() as int) == t.len());
    }
}

// ---------------------------------------------------------------------
// The executable printer
// ---------------------------------------------------------------------
proof fn lemma_esc_push(s: Seq<u8>, b: u8)
    ensures
        esc(s.push(b)) =~= esc(s) + esc_byte(b),
    decreases s.len(),
{
    if s.len() == 0 {
        assert(s.push(b)[0] == b);
        assert(s.push(b).drop_first() =~= Seq::<u8>::empty());
        assert(esc(Seq::<u8>::empty()) =~= Seq::<u8>::empty());
        assert(esc(s) =~= Seq::<u8>::empty());
    } else {
        assert(s.push(b)[0] == s[0]);
        assert(s.push(b).drop_first() =~= s.drop_first().push(b));
        lemma_esc_push(s.drop_first(), b);
    }
}

/// Append one byte of output.
fn put(out: &mut Vec<u8>, b: u8)
    ensures
        final(out)@ == old(out)@.push(b),
{
    out.push(b);
}

/// Append a whole pattern to the output.
fn put_all(out: &mut Vec<u8>, p: &[u8])
    ensures
        final(out)@ == old(out)@ + p@,
{
    let n = p.len();
    let mut i: usize = 0;
    proof {
        assert(old(out)@ + p@.take(0) =~= old(out)@);
    }
    while i < n
        invariant
            0 <= i <= n == p@.len(),
            out@ == old(out)@ + p@.take(i as int),
        decreases n - i,
    {
        let b = p[i];
        proof {
            assert((old(out)@ + p@.take(i as int)).push(b) =~= old(out)@ + p@.take(i + 1));
        }
        out.push(b);
        i = i + 1;
    }
    proof {
        assert(p@.take(n as int) =~= p@);
    }
}

/// Append a quoted, escaped string to the output.
fn emit_str(out: &mut Vec<u8>, s: &[u8])
    ensures
        final(out)@ == old(out)@ + enc_str(s@),
{
    put(out, 34);
    let ghost base = out@;
    let n = s.len();
    let mut i: usize = 0;
    proof {
        assert(esc(s@.take(0)) =~= Seq::<u8>::empty());
        assert(base + esc(s@.take(0)) =~= base);
    }
    while i < n
        invariant
            0 <= i <= n == s@.len(),
            out@ == base + esc(s@.take(i as int)),
        decreases n - i,
    {
        let b = s[i];
        proof {
            assert(s@.take(i + 1) =~= s@.take(i as int).push(b));
            lemma_esc_push(s@.take(i as int), b);
        }
        if b == 34 {
            put(out, 92);
            put(out, 34);
        } else if b == 92 {
            put(out, 92);
            put(out, 92);
        } else if b == 10 {
            put(out, 92);
            put(out, 110);
        } else if b == 13 {
            put(out, 92);
            put(out, 114);
        } else if b == 9 {
            put(out, 92);
            put(out, 116);
        } else if b < 32 {
            put(out, 92);
            put(out, 117);
            put(out, 48);
            put(out, 48);
            let hi = b / 16;
            let lo = b % 16;
            let hd = if hi < 10 {
                (48 + hi) as u8
            } else {
                (87 + hi) as u8
            };
            let ld = if lo < 10 {
                (48 + lo) as u8
            } else {
                (87 + lo) as u8
            };
            put(out, hd);
            put(out, ld);
            proof {
                assert(hd == hex_digit((b / 16) as nat));
                assert(ld == hex_digit((b % 16) as nat));
                assert(out@ =~= base + esc(s@.take(i as int)) + esc_byte(b));
            }
        } else {
            put(out, b);
        }
        proof {
            assert(out@ =~= base + esc(s@.take(i + 1)));
        }
        i = i + 1;
    }
    proof {
        assert(s@.take(n as int) =~= s@);
    }
    put(out, 34);
    proof {
        assert(out@ =~= old(out)@ + enc_str(s@));
    }
}

/// Append the canonical text of a scalar to the output.
fn emit_scalar(out: &mut Vec<u8>, v: &JScalar)
    ensures
        final(out)@ == old(out)@ + enc_scalar(v@),
{
    match v {
        JScalar::Null => {
            let p = [110u8, 117u8, 108u8, 108u8];
            proof {
                assert(p@ =~= lit_null());
            }
            put_all(out, p.as_slice());
        },
        JScalar::Bool(b) => {
            if *b {
                let p = [116u8, 114u8, 117u8, 101u8];
                proof {
                    assert(p@ =~= lit_true());
                }
                put_all(out, p.as_slice());
            } else {
                let p = [102u8, 97u8, 108u8, 115u8, 101u8];
                proof {
                    assert(p@ =~= lit_false());
                }
                put_all(out, p.as_slice());
            }
        },
        JScalar::Int(n) => {
            let d = crate::num::u64_to_dec(*n);
            put_all(out, d.as_slice());
        },
        JScalar::Str(s) => {
            emit_str(out, s.as_slice());
        },
    }
}

proof fn lemma_entries_rest_push(es: Seq<JEntryModel>, e: JEntryModel)
    ensures
        enc_entries_rest(es.push(e)) =~= enc_entries_rest(es) + (seq![44u8] + enc_entry(e)),
    decreases es.len(),
{
    if es.len() == 0 {
        assert(es.push(e)[0] == e);
        assert(es.push(e).drop_first() =~= Seq::<JEntryModel>::empty());
        assert(enc_entries_rest(Seq::<JEntryModel>::empty()) =~= Seq::<u8>::empty());
        assert(enc_entries_rest(es) =~= Seq::<u8>::empty());
    } else {
        assert(es.push(e)[0] == es[0]);
        assert(es.push(e).drop_first() =~= es.drop_first().push(e));
        lemma_entries_rest_push(es.drop_first(), e);
    }
}

/// Append the canonical text of a flat object to the output.
fn emit_obj(out: &mut Vec<u8>, es: &Vec<JEntry>)
    ensures
        final(out)@ == old(out)@ + enc_obj(views_of_entries(es@)),
{
    let ghost em = views_of_entries(es@);
    put(out, 123);
    let n = es.len();
    if n == 0 {
        put(out, 125);
        proof {
            assert(em =~= Seq::<JEntryModel>::empty());
            assert(out@ =~= old(out)@ + enc_obj(em));
        }
        return ;
    }
    let first = &es[0];
    emit_str(out, first.key.as_slice());
    put(out, 58);
    emit_scalar(out, &first.value);
    let ghost base = out@;
    proof {
        assert(base =~= old(out)@ + seq![123u8] + enc_entry(em[0]));
        assert(enc_entries_rest(em.subrange(1, 1)) =~= Seq::<u8>::empty());
        assert(out@ =~= base + enc_entries_rest(em.subrange(1, 1)));
    }
    let mut i: usize = 1;
    while i < n
        invariant
            1 <= i <= n == es@.len(),
            em == views_of_entries(es@),
            out@ == base + enc_entries_rest(em.subrange(1, i as int)),
        decreases n - i,
    {
        put(out, 44);
        let e = &es[i];
        emit_str(out, e.key.as_slice());
        put(out, 58);
        emit_scalar(out, &e.value);
        proof {
            assert(em.subrange(1, i + 1) =~= em.subrange(1, i as int).push(em[i as int]));
            lemma_entries_rest_push(em.subrange(1, i as int), em[i as int]);
            assert(out@ =~= base + enc_entries_rest(em.subrange(1, i + 1)));
        }
        i = i + 1;
    }
    put(out, 125);
    proof {
        assert(em.subrange(1, n as int) =~= em.drop_first());
        assert(out@ =~= old(out)@ + enc_obj(em));
    }
}

proof fn lemma_arr_rest_push(os: Seq<Seq<JEntryModel>>, o: Seq<JEntryModel>)
    ensures
        enc_arr_rest(os.push(o)) =~= enc_arr_rest(os) + (seq![44u8] + enc_obj(o)),
    decreases os.len(),
{
    if os.len() == 0 {
        assert(os.push(o)[0] == o);
        assert(os.push(o).drop_first() =~= Seq::<Seq<JEntryModel>>::empty());
        assert(enc_arr_rest(Seq::<Seq<JEntryModel>>::empty()) =~= Seq::<u8>::empty());
        assert(enc_arr_rest(os) =~= Seq::<u8>::empty());
    } else {
        assert(os.push(o)[0] == os[0]);
        assert(os.push(o).drop_first() =~= os.drop_first().push(o));
        lemma_arr_rest_push(os.drop_first(), o);
    }
}

/// The views of a sequence of flat objects.
pub open spec fn views_of_objs(v: Seq<Vec<JEntry>>) -> Seq<Seq<JEntryModel>> {
    Seq::new(v.len(), |i: int| views_of_entries(v[i]@))
}

/// Append the canonical text of an array of flat objects to the output.
fn emit_arr(out: &mut Vec<u8>, os: &Vec<Vec<JEntry>>)
    ensures
        final(out)@ == old(out)@ + enc_arr(views_of_objs(os@)),
{
    let ghost om = views_of_objs(os@);
    put(out, 91);
    let n = os.len();
    if n == 0 {
        put(out, 93);
        proof {
            assert(om =~= Seq::<Seq<JEntryModel>>::empty());
            assert(out@ =~= old(out)@ + enc_arr(om));
        }
        return ;
    }
    emit_obj(out, &os[0]);
    let ghost base = out@;
    proof {
        assert(base =~= old(out)@ + seq![91u8] + enc_obj(om[0]));
        assert(enc_arr_rest(om.subrange(1, 1)) =~= Seq::<u8>::empty());
        assert(out@ =~= base + enc_arr_rest(om.subrange(1, 1)));
    }
    let mut i: usize = 1;
    while i < n
        invariant
            1 <= i <= n == os@.len(),
            om == views_of_objs(os@),
            out@ == base + enc_arr_rest(om.subrange(1, i as int)),
        decreases n - i,
    {
        put(out, 44);
        emit_obj(out, &os[i]);
        proof {
            assert(om.subrange(1, i + 1) =~= om.subrange(1, i as int).push(om[i as int]));
            lemma_arr_rest_push(om.subrange(1, i as int), om[i as int]);
            assert(out@ =~= base + enc_arr_rest(om.subrange(1, i + 1)));
        }
        i = i + 1;
    }
    put(out, 93);
    proof {
        assert(om.subrange(1, n as int) =~= om.drop_first());
        assert(out@ =~= old(out)@ + enc_arr(om));
    }
}

/// Append the canonical text of a top-level value to the output.
fn emit_value(out: &mut Vec<u8>, v: &JValue)
    ensures
        final(out)@ == old(out)@ + enc_value(v@),
{
    match v {
        JValue::Scalar(s) => {
            emit_scalar(out, s);
        },
        JValue::Obj(es) => {
            emit_obj(out, es);
        },
        JValue::Arr(os) => {
            emit_arr(out, os);
        },
    }
}

proof fn lemma_fields_rest_push(fs: Seq<JFieldModel>, f: JFieldModel)
    ensures
        enc_fields_rest(fs.push(f)) =~= enc_fields_rest(fs) + (seq![44u8] + enc_field(f)),
    decreases fs.len(),
{
    if fs.len() == 0 {
        assert(fs.push(f)[0] == f);
        assert(fs.push(f).drop_first() =~= Seq::<JFieldModel>::empty());
        assert(enc_fields_rest(Seq::<JFieldModel>::empty()) =~= Seq::<u8>::empty());
        assert(enc_fields_rest(fs) =~= Seq::<u8>::empty());
    } else {
        assert(fs.push(f)[0] == fs[0]);
        assert(fs.push(f).drop_first() =~= fs.drop_first().push(f));
        lemma_fields_rest_push(fs.drop_first(), f);
    }
}

/// The canonical text of a whole document.
pub fn print_document(fields: &Vec<JField>) -> (r: Vec<u8>)
    ensures
        r@ == enc_doc(views_of_fields(fields@)),
{
    let ghost fm = views_of_fields(fields@);
    let mut out: Vec<u8> = Vec::new();
    put(&mut out, 123);
    let n = fields.len();
    if n == 0 {
        put(&mut out, 125);
        proof {
            assert(fm =~= Seq::<JFieldModel>::empty());
            assert(out@ =~= enc_doc(fm));
        }
        return out;
    }
    let first = &fields[0];
    emit_str(&mut out, first.key.as_slice());
    put(&mut out, 58);
    emit_value(&mut out, &first.value);
    let ghost base = out@;
    proof {
        assert(base =~= seq![123u8] + enc_field(fm[0]));
        assert(enc_fields_rest(fm.subrange(1, 1)) =~= Seq::<u8>::empty());
        assert(out@ =~= base + enc_fields_rest(fm.subrange(1, 1)));
    }
    let mut i: usize = 1;
    while i < n
        invariant
            1 <= i <= n == fields@.len(),
            fm == views_of_fields(fields@),
            out@ == base + enc_fields_rest(fm.subrange(1, i as int)),
            base == seq![123u8] + enc_field(fm[0]),
        decreases n - i,
    {
        put(&mut out, 44);
        let f = &fields[i];
        emit_str(&mut out, f.key.as_slice());
        put(&mut out, 58);
        emit_value(&mut out, &f.value);
        proof {
            assert(fm.subrange(1, i + 1) =~= fm.subrange(1, i as int).push(fm[i as int]));
            lemma_fields_rest_push(fm.subrange(1, i as int), fm[i as int]);
            assert(out@ =~= base + enc_fields_rest(fm.subrange(1, i + 1)));
        }
        i = i + 1;
    }
    put(&mut out, 125);
    proof {
        assert(fm.subrange(1, n as int) =~= fm.drop_first());
        assert(out@ =~= enc_doc(fm));
    }
    out
}

// ---------------------------------------------------------------------
// The executable parser
// ---------------------------------------------------------------------
/// Skip whitespace.
fn skip_ws(s: &[u8], i: usize) -> (r: usize)
    requires
        i <= s@.len(),
    ensures
        r as int == sp_ws(s@, i as int),
        i <= r <= s@.len(),
{
    let n = s.len();
    let mut cur = i;
    while cur < n && (s[cur] == 32 || s[cur] == 9 || s[cur] == 10 || s[cur] == 13)
        invariant
            i <= cur <= n == s@.len(),
            sp_ws(s@, i as int) == sp_ws(s@, cur as int),
        decreases n - cur,
    {
        cur = cur + 1;
    }
    cur
}

/// The value of a hexadecimal digit byte.
fn hex_val_exec(b: u8) -> (r: Option<u8>)
    ensures
        r == hex_val(b),
{
    if 48 <= b && b <= 57 {
        Option::Some(b - 48)
    } else if 97 <= b && b <= 102 {
        Option::Some(b - 87)
    } else if 65 <= b && b <= 70 {
        Option::Some(b - 55)
    } else {
        Option::None
    }
}

/// Parse a quoted string.
fn parse_str(s: &[u8], i: usize) -> (r: Option<(Vec<u8>, usize)>)
    requires
        i <= s@.len(),
    ensures
        match r {
            Option::Some(v) => sp_str(s@, i as int) == Option::Some((v.0@, v.1 as int)) && v.1
                <= s@.len(),
            Option::None => sp_str(s@, i as int) is None,
        },
{
    let n = s.len();
    if i >= n || s[i] != 34 {
        return Option::None;
    }
    let mut cur = i + 1;
    let mut acc: Vec<u8> = Vec::new();
    proof {
        assert(acc@ =~= Seq::<u8>::empty());
    }
    loop
        invariant
            i < n == s@.len(),
            s@[i as int] == 34,
            i + 1 <= cur <= n,
            sp_str_rest(s@, i + 1, Seq::empty()) == sp_str_rest(s@, cur as int, acc@),
        decreases n - cur,
    {
        if cur >= n {
            return Option::None;
        }
        let b = s[cur];
        if b == 34 {
            return Option::Some((acc, cur + 1));
        } else if b == 92 {
            if cur + 1 >= n {
                return Option::None;
            }
            let c = s[cur + 1];
            if c == 34 {
                acc.push(34);
                cur = cur + 2;
            } else if c == 92 {
                acc.push(92);
                cur = cur + 2;
            } else if c == 47 {
                acc.push(47);
                cur = cur + 2;
            } else if c == 110 {
                acc.push(10);
                cur = cur + 2;
            } else if c == 114 {
                acc.push(13);
                cur = cur + 2;
            } else if c == 116 {
                acc.push(9);
                cur = cur + 2;
            } else if c == 98 {
                acc.push(8);
                cur = cur + 2;
            } else if c == 102 {
                acc.push(12);
                cur = cur + 2;
            } else if c == 117 {
                if n - cur <= 5 {
                    return Option::None;
                }
                if !(s[cur + 2] == 48 && s[cur + 3] == 48) {
                    return Option::None;
                }
                let h1 = hex_val_exec(s[cur + 4]);
                let h2 = hex_val_exec(s[cur + 5]);
                match (h1, h2) {
                    (Option::Some(a), Option::Some(bb)) => {
                        acc.push(a * 16 + bb);
                        cur = cur + 6;
                    },
                    _ => {
                        return Option::None;
                    },
                }
            } else {
                return Option::None;
            }
        } else {
            acc.push(b);
            cur = cur + 1;
        }
    }
}

proof fn lemma_sp_digits_ge(s: Seq<u8>, i: int, acc: nat)
    ensures
        sp_digits(s, i, acc).0 >= acc,
    decreases s.len() - i,
{
    if 0 <= i < s.len() && is_dig(s[i]) {
        let d = (s[i] - 48) as nat;
        lemma_sp_digits_ge(s, i + 1, acc * 10 + d);
        assert(acc * 10 >= acc) by (nonlinear_arith);
    }
}

proof fn lemma_sp_digits_pos(s: Seq<u8>, i: int, a: nat, b: nat)
    ensures
        sp_digits(s, i, a).1 == sp_digits(s, i, b).1,
    decreases s.len() - i,
{
    if 0 <= i < s.len() && is_dig(s[i]) {
        lemma_sp_digits_pos(
            s,
            i + 1,
            a * 10 + (s[i] - 48) as nat,
            b * 10 + (s[i] - 48) as nat,
        );
    }
}

/// The position after a run of digits; where the run stops does not
/// depend on the accumulated value.
fn scan_digits(s: &[u8], from: usize) -> (r: usize)
    requires
        from <= s@.len(),
    ensures
        r as int == sp_digits(s@, from as int, 0).1,
        from <= r <= s@.len(),
{
    let n = s.len();
    let mut cur = from;
    while cur < n && 48 <= s[cur] && s[cur] <= 57
        invariant
            from <= cur <= n == s@.len(),
            sp_digits(s@, from as int, 0).1 == sp_digits(s@, cur as int, 0).1,
        decreases n - cur,
    {
        proof {
            lemma_sp_digits_pos(s@, cur as int + 1, (s@[cur as int] - 48) as nat, 0);
        }
        cur = cur + 1;
    }
    cur
}

/// Parse a number token: a plain unsigned 64-bit integer becomes an
/// integer value, any other well-formed number is consumed as null.
fn parse_number(s: &[u8], i: usize) -> (r: Option<(JScalar, usize)>)
    requires
        i <= s@.len(),
    ensures
        match r {
            Option::Some(v) => sp_number(s@, i as int) == Option::Some((v.0@, v.1 as int)) && v.1
                <= s@.len(),
            Option::None => sp_number(s@, i as int) is None,
        },
{
    proof {
        reveal(sp_number);
    }
    let n = s.len();
    if i >= n {
        return Option::None;
    }
    let neg = s[i] == 45;
    let d0 = if neg {
        i + 1
    } else {
        i
    };
    if d0 >= n || s[d0] < 48 || s[d0] > 57 {
        return Option::None;
    }
    let mut cur = d0;
    let mut acc: u64 = 0;
    let mut over = false;
    while cur < n && 48 <= s[cur] && s[cur] <= 57
        invariant
            d0 <= cur <= n == s@.len(),
            sp_digits(s@, d0 as int, 0).1 == sp_digits(s@, cur as int, 0).1,
            !over ==> sp_digits(s@, d0 as int, 0) == sp_digits(s@, cur as int, acc as nat),
            over ==> sp_digits(s@, d0 as int, 0).0 > u64::MAX,
        decreases n - cur,
    {
        let d = s[cur] - 48;
        proof {
            lemma_sp_digits_pos(s@, cur as int + 1, (d as nat), 0);
            lemma_sp_digits_pos(s@, cur as int + 1, (acc as nat) * 10 + (d as nat), (d as nat));
        }
        if !over {
            if acc > (u64::MAX - (d as u64)) / 10 {
                proof {
                    lemma_sp_digits_ge(s@, cur as int + 1, (acc as nat) * 10 + (d as nat));
                    assert((acc as nat) * 10 + (d as nat) > u64::MAX) by (nonlinear_arith)
                        requires
                            acc > (u64::MAX - (d as u64)) / 10,
                            d <= 9,
                    ;
                }
                over = true;
            } else {
                acc = acc * 10 + (d as u64);
            }
        }
        cur = cur + 1;
    }
    let digits_end = cur;
    // Optional fraction part.
    let j1 = if cur < n && s[cur] == 46 {
        let f = scan_digits(s, cur + 1);
        if f == cur + 1 {
            return Option::None;
        }
        f
    } else {
        cur
    };
    proof {
        assert(sp_frac_end(s@, digits_end as int) == Option::Some(j1 as int));
    }
    // Optional exponent part.
    let j2 = if j1 < n && (s[j1] == 101 || s[j1] == 69) {
        let k = if j1 + 1 < n && (s[j1 + 1] == 43 || s[j1 + 1] == 45) {
            j1 + 2
        } else {
            j1 + 1
        };
        let e = scan_digits(s, k);
        if e == k {
            return Option::None;
        }
        e
    } else {
        j1
    };
    proof {
        assert(sp_exp_end(s@, j1 as int) == Option::Some(j2 as int));
    }
    if !neg && j2 == digits_end && !over {
        Option::Some((JScalar::Int(acc), digits_end))
    } else {
        Option::Some((JScalar::Null, j2))
    }
}

/// Parse a scalar.
fn parse_scalar(s: &[u8], i: usize) -> (r: Option<(JScalar, usize)>)
    requires
        i <= s@.len(),
    ensures
        match r {
            Option::Some(v) => sp_scalar(s@, i as int) == Option::Some((v.0@, v.1 as int)) && v.1
                <= s@.len(),
            Option::None => sp_scalar(s@, i as int) is None,
        },
{
    let n = s.len();
    if i >= n {
        return Option::None;
    }
    let b = s[i];
    if b == 34 {
        match parse_str(s, i) {
            Option::Some(v) => Option::Some((JScalar::Str(v.0), v.1)),
            Option::None => Option::None,
        }
    } else if b == 110 {
        let p = [110u8, 117u8, 108u8, 108u8];
        proof {
            assert(p@ =~= lit_null());
        }
        if n - i >= 4 && crate::classify::match_at_exec(s, p.as_slice(), i) {
            Option::Some((JScalar::Null, i + 4))
        } else {
            proof {
                if match_at(s@, lit_null(), i as int) {
                    assert(n - i >= 4);
                }
            }
            Option::None
        }
    } else if b == 116 {
        let p = [116u8, 114u8, 117u8, 101u8];
        proof {
            assert(p@ =~= lit_true());
        }
        if n - i >= 4 && crate::classify::match_at_exec(s, p.as_slice(), i) {
            Option::Some((JScalar::Bool(true), i + 4))
        } else {
            proof {
                if match_at(s@, lit_true(), i as int) {
                    assert(n - i >= 4);
                }
            }
            Option::None
        }
    } else if b == 102 {
        let p = [102u8, 97u8, 108u8, 115u8, 101u8];
        proof {
            assert(p@ =~= lit_false());
        }
        if n - i >= 5 && crate::classify::match_at_exec(s, p.as_slice(), i) {
            Option::Some((JScalar::Bool(false), i + 5))
        } else {
            proof {
                if match_at(s@, lit_false(), i as int) {
                    assert(n - i >= 5);
                }
            }
            Option::None
        }
    } else {
        parse_number(s, i)
    }
}

/// Parse one flat-object field.
fn parse_entry(s: &[u8], i: usize) -> (r: Option<(JEntry, usize)>)
    requires
        i <= s@.len(),
    ensures
        match r {
            Option::Some(v) => sp_entry(s@, i as int) == Option::Some((v.0@, v.1 as int)) && i
                < v.1 <= s@.len(),
            Option::None => sp_entry(s@, i as int) is None,
        },
{
    let i1 = skip_ws(s, i);
    match parse_str(s, i1) {
        Option::None => Option::None,
        Option::Some(kv) => {
            let i2 = skip_ws(s, kv.1);
            if i2 < s.len() && s[i2] == 58 {
                let i3 = skip_ws(s, i2 + 1);
                match parse_scalar(s, i3) {
                    Option::Some(vv) => {
                        proof {
                            lemma_sp_ws_bounds(s@, i as int);
                            lemma_sp_str_bounds(s@, i1 as int);
                            lemma_sp_ws_bounds(s@, kv.1 as int);
                            lemma_sp_ws_bounds(s@, i2 + 1);
                            lemma_sp_scalar_bounds(s@, i3 as int);
                        }
                        Option::Some((JEntry { key: kv.0, value: vv.0 }, vv.1))
                    },
                    Option::None => Option::None,
                }
            } else {
                Option::None
            }
        },
    }
}

/// Parse a flat object.
fn parse_obj(s: &[u8], i: usize) -> (r: Option<(Vec<JEntry>, usize)>)
    requires
        i <= s@.len(),
    ensures
        match r {
            Option::Some(v) => sp_obj(s@, i as int) == Option::Some(
                (views_of_entries(v.0@), v.1 as int),
            ) && i < v.1 <= s@.len(),
            Option::None => sp_obj(s@, i as int) is None,
        },
{
    let n = s.len();
    if i >= n || s[i] != 123 {
        return Option::None;
    }
    let i1 = skip_ws(s, i + 1);
    if i1 < n && s[i1] == 125 {
        let empty: Vec<JEntry> = Vec::new();
        proof {
            assert(views_of_entries(empty@) =~= Seq::<JEntryModel>::empty());
        }
        return Option::Some((empty, i1 + 1));
    }
    let first = match parse_entry(s, i + 1) {
        Option::Some(v) => v,
        Option::None => {
            return Option::None;
        },
    };
    let mut acc: Vec<JEntry> = Vec::new();
    let ghost e0 = first.0@;
    let mut cur = first.1;
    acc.push(first.0);
    proof {
        assert(views_of_entries(acc@) =~= seq![e0]);
    }
    loop
        invariant
            i < cur <= n == s@.len(),
            sp_obj(s@, i as int) == sp_obj_rest(s@, cur as int, views_of_entries(acc@)),
        decreases n - cur,
    {
        let i2 = skip_ws(s, cur);
        if i2 >= n {
            return Option::None;
        }
        let b = s[i2];
        if b == 125 {
            return Option::Some((acc, i2 + 1));
        } else if b == 44 {
            match parse_entry(s, i2 + 1) {
                Option::Some(v) => {
                    let ghost prev = views_of_entries(acc@);
                    let ghost em = v.0@;
                    acc.push(v.0);
                    proof {
                        assert(views_of_entries(acc@) =~= prev.push(em));
                    }
                    cur = v.1;
                },
                Option::None => {
                    return Option::None;
                },
            }
        } else {
            return Option::None;
        }
    }
}

/// Parse an array of flat objects.
fn parse_arr(s: &[u8], i: usize) -> (r: Option<(Vec<Vec<JEntry>>, usize)>)
    requires
        i <= s@.len(),
    ensures
        match r {
            Option::Some(v) => sp_arr(s@, i as int) == Option::Some(
                (views_of_objs(v.0@), v.1 as int),
            ) && i < v.1 <= s@.len(),
            Option::None => sp_arr(s@, i as int) is None,
        },
{
    let n = s.len();
    if i >= n || s[i] != 91 {
        return Option::None;
    }
    let i1 = skip_ws(s, i + 1);
    if i1 < n && s[i1] == 93 {
        let empty: Vec<Vec<JEntry>> = Vec::new();
        proof {
            assert(views_of_objs(empty@) =~= Seq::<Seq<JEntryModel>>::empty());
        }
        return Option::Some((empty, i1 + 1));
    }
    let i2 = skip_ws(s, i + 1);
    let first = match parse_obj(s, i2) {
        Option::Some(v) => v,
        Option::None => {
            return Option::None;
        },
    };
    let mut acc: Vec<Vec<JEntry>> = Vec::new();
    let ghost o0 = views_of_entries(first.0@);
    let mut cur = first.1;
    acc.push(first.0);
    proof {
        assert(views_of_objs(acc@) =~= seq![o0]);
    }
    loop
        invariant
            i < cur <= n == s@.len(),
            sp_arr(s@, i as int) == sp_arr_rest(s@, cur as int, views_of_objs(acc@)),
        decreases n - cur,
    {
        let i3 = skip_ws(s, cur);
        if i3 >= n {
            return Option::None;
        }
        let b = s[i3];
        if b == 93 {
            return Option::Some((acc, i3 + 1));
        } else if b == 44 {
            let i4 = skip_ws(s, i3 + 1);
            match parse_obj(s, i4) {
                Option::Some(v) => {
                    let ghost prev = views_of_objs(acc@);
                    let ghost om = views_of_entries(v.0@);
                    acc.push(v.0);
                    proof {
                        assert(views_of_objs(acc@) =~= prev.push(om));
                    }
                    cur = v.1;
                },
                Option::None => {
                    return Option::None;
                },
            }
        } else {
            return Option::None;
        }
    }
}

/// Parse a top-level field value.
fn parse_value(s: &[u8], i: usize) -> (r: Option<(JValue, usize)>)
    requires
        i <= s@.len(),
    ensures
        match r {
            Option::Some(v) => sp_value(s@, i as int) == Option::Some((v.0@, v.1 as int)) && v.1
                <= s@.len(),
            Option::None => sp_value(s@, i as int) is None,
        },
{
    let n = s.len();
    if i >= n {
        return Option::None;
    }
    let b = s[i];
    if b == 123 {
        match parse_obj(s, i) {
            Option::Some(v) => Option::Some((JValue::Obj(v.0), v.1)),
            Option::None => Option::None,
        }
    } else if b == 91 {
        match parse_arr(s, i) {
            Option::Some(v) => Option::Some((JValue::Arr(v.0), v.1)),
            Option::None => Option::None,
        }
    } else {
        match parse_scalar(s, i) {
            Option::Some(v) => Option::Some((JValue::Scalar(v.0), v.1)),
            Option::None => Option::None,
        }
    }
}

/// Parse one top-level field.
fn parse_field(s: &[u8], i: usize) -> (r: Option<(JField, usize)>)
    requires
        i <= s@.len(),
    ensures
        match r {
            Option::Some(v) => sp_field(s@, i as int) == Option::Some((v.0@, v.1 as int)) && i
                < v.1 <= s@.len(),
            Option::None => sp_field(s@, i as int) is None,
        },
{
    let i1 = skip_ws(s, i);
    match parse_str(s, i1) {
        Option::None => Option::None,
        Option::Some(kv) => {
            let i2 = skip_ws(s, kv.1);
            if i2 < s.len() && s[i2] == 58 {
                let i3 = skip_ws(s, i2 + 1);
                match parse_value(s, i3) {
                    Option::Some(vv) => {
                        proof {
                            lemma_sp_value_bounds(s@, i3 as int);
                            lemma_sp_str_bounds(s@, i1 as int);
                            lemma_sp_ws_bounds(s@, i as int);
                        }
                        Option::Some((JField { key: kv.0, value: vv.0 }, vv.1))
                    },
                    Option::None => Option::None,
                }
            } else {
                Option::None
            }
        },
    }
}

/// Parse a complete document. The result is the documents' fields in file
/// order, or nothing when the text is not a document of the supported
/// shape.
pub fn parse_document(s: &[u8]) -> (r: Option<Vec<JField>>)
    ensures
        match r {
            Option::Some(fs) => sp_document(s@) == Option::Some(views_of_fields(fs@)),
            Option::None => sp_document(s@) is None,
        },
{
    let n = s.len();
    let i0 = skip_ws(s, 0);
    if i0 >= n || s[i0] != 123 {
        return Option::None;
    }
    let i1 = skip_ws(s, i0 + 1);
    let mut fields: Vec<JField> = Vec::new();
    let mut cur: usize;
    if i1 < n && s[i1] == 125 {
        cur = i1 + 1;
        proof {
            assert(views_of_fields(fields@) =~= Seq::<JFieldModel>::empty());
            assert(sp_doc(s@, i0 as int) == Option::Some(
                (views_of_fields(fields@), cur as int),
            ));
        }
    } else {
        let first = match parse_field(s, i0 + 1) {
            Option::Some(v) => v,
            Option::None => {
                return Option::None;
            },
        };
        let ghost f0 = first.0@;
        cur = first.1;
        fields.push(first.0);
        proof {
            assert(views_of_fields(fields@) =~= seq![f0]);
        }
        loop
            invariant_except_break
                i0 < cur <= n == s@.len(),
                i0 as int == sp_ws(s@, 0),
                s@[i0 as int] == 123,
                sp_doc(s@, i0 as int) == sp_doc_rest(s@, cur as int, views_of_fields(fields@)),
            ensures
                cur <= n,
                sp_doc(s@, i0 as int) == Option::Some((views_of_fields(fields@), cur as int)),
            decreases n - cur,
        {
            let i2 = skip_ws(s, cur);
            if i2 >= n {
                return Option::None;
            }
            let b = s[i2];
            if b == 125 {
                cur = i2 + 1;
                break ;
            } else if b == 44 {
                match parse_field(s, i2 + 1) {
                    Option::Some(v) => {
                        let ghost prev = views_of_fields(fields@);
                        let ghost fm = v.0@;
                        fields.push(v.0);
                        proof {
                            assert(views_of_fields(fields@) =~= prev.push(fm));
                        }
                        cur = v.1;
                    },
                    Option::None => {
                        return Option::None;
                    },
                }
            } else {
                return Option::None;
            }
        }
    }
    let endpos = skip_ws(s, cur);
    if endpos == n {
        Option::Some(fields)
    } else {
        Option::None
    }
}

} // verus!
