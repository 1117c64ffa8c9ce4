//! Parsing a keyboard-shortcut specification such as a primary-modifier
//! combination with a letter: a modifier bit set and a key code. An
//! unknown key name is surfaced as a constructed failure, never ignored.
use vstd::prelude::*;

use crate::models::views_of_bytes;
use crate::query::lower_bytes;

verus! {

/// A key a shortcut can name.
#[derive(Clone, Copy, PartialEq, Eq, Structural, Debug)]
pub enum KeyCode {
    KeyA,
    KeyB,
    KeyC,
    KeyD,
    KeyE,
    KeyF,
    KeyG,
    KeyH,
    KeyI,
    KeyJ,
    KeyK,
    KeyL,
    KeyM,
    KeyN,
    KeyO,
    KeyP,
    KeyQ,
    KeyR,
    KeyS,
    KeyT,
    KeyU,
    KeyV,
    KeyW,
    KeyX,
    KeyY,
    KeyZ,
    Digit0,
    Digit1,
    Digit2,
    Digit3,
    Digit4,
    Digit5,
    Digit6,
    Digit7,
    Digit8,
    Digit9,
    F1,
    F2,
    F3,
    F4,
    F5,
    F6,
    F7,
    F8,
    F9,
    F10,
    F11,
    F12,
    Space,
    Enter,
    Escape,
    Tab,
    Backspace,
    Delete,
    ArrowUp,
    ArrowDown,
    ArrowLeft,
    ArrowRight,
}

/// Why a shortcut specification was rejected.
#[derive(Clone, Copy, PartialEq, Eq, Structural, Debug)]
pub enum ShortcutError {
    /// A token named neither a modifier nor a known key.
    UnknownKey,
    /// No key was named, only modifiers.
    NoKey,
}

/// A parsed shortcut: a modifier bit set and the key.
#[derive(Clone, Copy, PartialEq, Eq, Structural, Debug)]
pub struct Shortcut {
    /// Modifier bits: 1 the primary command modifier, 2 control, 4
    /// shift, 8 alt.
    pub mods: u8,
    pub code: KeyCode,
}

/// The modifier bit a lowercased token names, if any.
pub open spec fn mods_token(t: Seq<u8>) -> Option<u8> {
    if t == seq![99u8, 109u8, 100u8] {
        Option::Some(1u8)
    } else if t == seq![109u8, 101u8, 116u8, 97u8] {
        Option::Some(1u8)
    } else if t == seq![99u8, 111u8, 109u8, 109u8, 97u8, 110u8, 100u8] {
        Option::Some(1u8)
    } else if t == seq![115u8, 117u8, 112u8, 101u8, 114u8] {
        Option::Some(1u8)
    } else if t == seq![99u8, 116u8, 114u8, 108u8] {
        Option::Some(2u8)
    } else if t == seq![99u8, 111u8, 110u8, 116u8, 114u8, 111u8, 108u8] {
        Option::Some(2u8)
    } else if t == seq![115u8, 104u8, 105u8, 102u8, 116u8] {
        Option::Some(4u8)
    } else if t == seq![97u8, 108u8, 116u8] {
        Option::Some(8u8)
    } else if t == seq![111u8, 112u8, 116u8, 105u8, 111u8, 110u8] {
        Option::Some(8u8)
    } else {
        Option::None
    }
}

/// The key a lowercased token names, if any.
pub open spec fn key_token(t: Seq<u8>) -> Option<KeyCode> {
    if t == seq![97u8] {
        Option::Some(KeyCode::KeyA)
    } else if t == seq![98u8] {
        Option::Some(KeyCode::KeyB)
    } else if t == seq![99u8] {
        Option::Some(KeyCode::KeyC)
    } else if t == seq![100u8] {
        Option::Some(KeyCode::KeyD)
    } else if t == seq![101u8] {
        Option::Some(KeyCode::KeyE)
    } else if t == seq![102u8] {
        Option::Some(KeyCode::KeyF)
    } else if t == seq![103u8] {
        Option::Some(KeyCode::KeyG)
    } else if t == seq![104u8] {
        Option::Some(KeyCode::KeyH)
    } else if t == seq![105u8] {
        Option::Some(KeyCode::KeyI)
    } else if t == seq![106u8] {
        Option::Some(KeyCode::KeyJ)
    } else if t == seq![107u8] {
        Option::Some(KeyCode::KeyK)
    } else if t == seq![108u8] {
        Option::Some(KeyCode::KeyL)
    } else if t == seq![109u8] {
        Option::Some(KeyCode::KeyM)
    } else if t == seq![110u8] {
        Option::Some(KeyCode::KeyN)
    } else if t == seq![111u8] {
        Option::Some(KeyCode::KeyO)
    } else if t == seq![112u8] {
        Option::Some(KeyCode::KeyP)
    } else if t == seq![113u8] {
        Option::Some(KeyCode::KeyQ)
    } else if t == seq![114u8] {
        Option::Some(KeyCode::KeyR)
    } else if t == seq![115u8] {
        Option::Some(KeyCode::KeyS)
    } else if t == seq![116u8] {
        Option::Some(KeyCode::KeyT)
    } else if t == seq![117u8] {
        Option::Some(KeyCode::KeyU)
    } else if t == seq![118u8] {
        Option::Some(KeyCode::KeyV)
    } else if t == seq![119u8] {
        Option::Some(KeyCode::KeyW)
    } else if t == seq![120u8] {
        Option::Some(KeyCode::KeyX)
    } else if t == seq![121u8] {
        Option::Some(KeyCode::KeyY)
    } else if t == seq![122u8] {
        Option::Some(KeyCode::KeyZ)
    } else if t == seq![48u8] {
        Option::Some(KeyCode::Digit0)
    } else if t == seq![49u8] {
        Option::Some(KeyCode::Digit1)
    } else if t == seq![50u8] {
        Option::Some(KeyCode::Digit2)
    } else if t == seq![51u8] {
        Option::Some(KeyCode::Digit3)
    } else if t == seq![52u8] {
        Option::Some(KeyCode::Digit4)
    } else if t == seq![53u8] {
        Option::Some(KeyCode::Digit5)
    } else if t == seq![54u8] {
        Option::Some(KeyCode::Digit6)
    } else if t == seq![55u8] {
        Option::Some(KeyCode::Digit7)
    } else if t == seq![56u8] {
        Option::Some(KeyCode::Digit8)
    } else if t == seq![57u8] {
        Option::Some(KeyCode::Digit9)
    } else if t == seq![102u8, 49u8] {
        Option::Some(KeyCode::F1)
    } else if t == seq![102u8, 50u8] {
        Option::Some(KeyCode::F2)
    } else if t == seq![102u8, 51u8] {
        Option::Some(KeyCode::F3)
    } else if t == seq![102u8, 52u8] {
        Option::Some(KeyCode::F4)
    } else if t == seq![102u8, 53u8] {
        Option::Some(KeyCode::F5)
    } else if t == seq![102u8, 54u8] {
        Option::Some(KeyCode::F6)
    } else if t == seq![102u8, 55u8] {
        Option::Some(KeyCode::F7)
    } else if t == seq![102u8, 56u8] {
        Option::Some(KeyCode::F8)
    } else if t == seq![102u8, 57u8] {
        Option::Some(KeyCode::F9)
    } else if t == seq![102u8, 49u8, 48u8] {
        Option::Some(KeyCode::F10)
    } else if t == seq![102u8, 49u8, 49u8] {
        Option::Some(KeyCode::F11)
    } else if t == seq![102u8, 49u8, 50u8] {
        Option::Some(KeyCode::F12)
    } else if t == seq![115u8, 112u8, 97u8, 99u8, 101u8] {
        Option::Some(KeyCode::Space)
    } else if t == seq![101u8, 110u8, 116u8, 101u8, 114u8] {
        Option::Some(KeyCode::Enter)
    } else if t == seq![114u8, 101u8, 116u8, 117u8, 114u8, 110u8] {
        Option::Some(KeyCode::Enter)
    } else if t == seq![101u8, 115u8, 99u8, 97u8, 112u8, 101u8] {
        Option::Some(KeyCode::Escape)
    } else if t == seq![101u8, 115u8, 99u8] {
        Option::Some(KeyCode::Escape)
    } else if t == seq![116u8, 97u8, 98u8] {
        Option::Some(KeyCode::Tab)
    } else if t == seq![98u8, 97u8, 99u8, 107u8, 115u8, 112u8, 97u8, 99u8, 101u8] {
        Option::Some(KeyCode::Backspace)
    } else if t == seq![100u8, 101u8, 108u8, 101u8, 116u8, 101u8] {
        Option::Some(KeyCode::Delete)
    } else if t == seq![97u8, 114u8, 114u8, 111u8, 119u8, 117u8, 112u8] {
        Option::Some(KeyCode::ArrowUp)
    } else if t == seq![117u8, 112u8] {
        Option::Some(KeyCode::ArrowUp)
    } else if t == seq![97u8, 114u8, 114u8, 111u8, 119u8, 100u8, 111u8, 119u8, 110u8] {
        Option::Some(KeyCode::ArrowDown)
    } else if t == seq![100u8, 111u8, 119u8, 110u8] {
        Option::Some(KeyCode::ArrowDown)
    } else if t == seq![97u8, 114u8, 114u8, 111u8, 119u8, 108u8, 101u8, 102u8, 116u8] {
        Option::Some(KeyCode::ArrowLeft)
    } else if t == seq![108u8, 101u8, 102u8, 116u8] {
        Option::Some(KeyCode::ArrowLeft)
    } else if t == seq![97u8, 114u8, 114u8, 111u8, 119u8, 114u8, 105u8, 103u8, 104u8, 116u8] {
        Option::Some(KeyCode::ArrowRight)
    } else if t == seq![114u8, 105u8, 103u8, 104u8, 116u8] {
        Option::Some(KeyCode::ArrowRight)
    } else {
        Option::None
    }
}

/// The modifier bit a lowercased token names.
fn mods_token_exec(t: &[u8]) -> (r: Option<u8>)
    ensures
        r == mods_token(t@),
{
    let m0 = [99u8, 109u8, 100u8];
    proof {
        assert(m0@ =~= seq![99u8, 109u8, 100u8]);
    }
    if crate::models::bytes_eq(t, m0.as_slice()) {
        return Option::Some(1);
    }
    let m1 = [109u8, 101u8, 116u8, 97u8];
    proof {
        assert(m1@ =~= seq![109u8, 101u8, 116u8, 97u8]);
    }
    if crate::models::bytes_eq(t, m1.as_slice()) {
        return Option::Some(1);
    }
    let m2 = [99u8, 111u8, 109u8, 109u8, 97u8, 110u8, 100u8];
    proof {
        assert(m2@ =~= seq![99u8, 111u8, 109u8, 109u8, 97u8, 110u8, 100u8]);
    }
    if crate::models::bytes_eq(t, m2.as_slice()) {
        return Option::Some(1);
    }
    let m3 = [115u8, 117u8, 112u8, 101u8, 114u8];
    proof {
        assert(m3@ =~= seq![115u8, 117u8, 112u8, 101u8, 114u8]);
    }
    if crate::models::bytes_eq(t, m3.as_slice()) {
        return Option::Some(1);
    }
    let m4 = [99u8, 116u8, 114u8, 108u8];
    proof {
        assert(m4@ =~= seq![99u8, 116u8, 114u8, 108u8]);
    }
    if crate::models::bytes_eq(t, m4.as_slice()) {
        return Option::Some(2);
    }
    let m5 = [99u8, 111u8, 110u8, 116u8, 114u8, 111u8, 108u8];
    proof {
        assert(m5@ =~= seq![99u8, 111u8, 110u8, 116u8, 114u8, 111u8, 108u8]);
    }
    if crate::models::bytes_eq(t, m5.as_slice()) {
        return Option::Some(2);
    }
    let m6 = [115u8, 104u8, 105u8, 102u8, 116u8];
    proof {
        assert(m6@ =~= seq![115u8, 104u8, 105u8, 102u8, 116u8]);
    }
    if crate::models::bytes_eq(t, m6.as_slice()) {
        return Option::Some(4);
    }
    let m7 = [97u8, 108u8, 116u8];
    proof {
        assert(m7@ =~= seq![97u8, 108u8, 116u8]);
    }
    if crate::models::bytes_eq(t, m7.as_slice()) {
        return Option::Some(8);
    }
    let m8 = [111u8, 112u8, 116u8, 105u8, 111u8, 110u8];
    proof {
        assert(m8@ =~= seq![111u8, 112u8, 116u8, 105u8, 111u8, 110u8]);
    }
    if crate::models::bytes_eq(t, m8.as_slice()) {
        return Option::Some(8);
    }
    Option::None
}

/// The key a lowercased token names.
#[verifier::rlimit(60)]
fn key_token_exec(t: &[u8]) -> (r: Option<KeyCode>)
    ensures
        r == key_token(t@),
{
    let a0 = [97u8];
    proof {
        assert(a0@ =~= seq![97u8]);
    }
    if crate::models::bytes_eq(t, a0.as_slice()) {
        return Option::Some(KeyCode::KeyA);
    }
    let a1 = [98u8];
    proof {
        assert(a1@ =~= seq![98u8]);
    }
    if crate::models::bytes_eq(t, a1.as_slice()) {
        return Option::Some(KeyCode::KeyB);
    }
    let a2 = [99u8];
    proof {
        assert(a2@ =~= seq![99u8]);
    }
    if crate::models::bytes_eq(t, a2.as_slice()) {
        return Option::Some(KeyCode::KeyC);
    }
    let a3 = [100u8];
    proof {
        assert(a3@ =~= seq![100u8]);
    }
    if crate::models::bytes_eq(t, a3.as_slice()) {
        return Option::Some(KeyCode::KeyD);
    }
    let a4 = [101u8];
    proof {
        assert(a4@ =~= seq![101u8]);
    }
    if crate::models::bytes_eq(t, a4.as_slice()) {
        return Option::Some(KeyCode::KeyE);
    }
    let a5 = [102u8];
    proof {
        assert(a5@ =~= seq![102u8]);
    }
    if crate::models::bytes_eq(t, a5.as_slice()) {
        return Option::Some(KeyCode::KeyF);
    }
    let a6 = [103u8];
    proof {
        assert(a6@ =~= seq![103u8]);
    }
    if crate::models::bytes_eq(t, a6.as_slice()) {
        return Option::Some(KeyCode::KeyG);
    }
    let a7 = [104u8];
    proof {
        assert(a7@ =~= seq![104u8]);
    }
    if crate::models::bytes_eq(t, a7.as_slice()) {
        return Option::Some(KeyCode::KeyH);
    }
    let a8 = [105u8];
    proof {
        assert(a8@ =~= seq![105u8]);
    }
    if crate::models::bytes_eq(t, a8.as_slice()) {
        return Option::Some(KeyCode::KeyI);
    }
    let a9 = [106u8];
    proof {
        assert(a9@ =~= seq![106u8]);
    }
    if crate::models::bytes_eq(t, a9.as_slice()) {
        return Option::Some(KeyCode::KeyJ);
    }
    let a10 = [107u8];
    proof {
        assert(a10@ =~= seq![107u8]);
    }
    if crate::models::bytes_eq(t, a10.as_slice()) {
        return Option::Some(KeyCode::KeyK);
    }
    let a11 = [108u8];
    proof {
        assert(a11@ =~= seq![108u8]);
    }
    if crate::models::bytes_eq(t, a11.as_slice()) {
        return Option::Some(KeyCode::KeyL);
    }
    let a12 = [109u8];
    proof {
        assert(a12@ =~= seq![109u8]);
    }
    if crate::models::bytes_eq(t, a12.as_slice()) {
        return Option::Some(KeyCode::KeyM);
    }
    let a13 = [110u8];
    proof {
        assert(a13@ =~= seq![110u8]);
    }
    if crate::models::bytes_eq(t, a13.as_slice()) {
        return Option::Some(KeyCode::KeyN);
    }
    let a14 = [111u8];
    proof {
        assert(a14@ =~= seq![111u8]);
    }
    if crate::models::bytes_eq(t, a14.as_slice()) {
        return Option::Some(KeyCode::KeyO);
    }
    let a15 = [112u8];
    proof {
        assert(a15@ =~= seq![112u8]);
    }
    if crate::models::bytes_eq(t, a15.as_slice()) {
        return Option::Some(KeyCode::KeyP);
    }
    let a16 = [113u8];
    proof {
        assert(a16@ =~= seq![113u8]);
    }
    if crate::models::bytes_eq(t, a16.as_slice()) {
        return Option::Some(KeyCode::KeyQ);
    }
    let a17 = [114u8];
    proof {
        assert(a17@ =~= seq![114u8]);
    }
    if crate::models::bytes_eq(t, a17.as_slice()) {
        return Option::Some(KeyCode::KeyR);
    }
    let a18 = [115u8];
    proof {
        assert(a18@ =~= seq![115u8]);
    }
    if crate::models::bytes_eq(t, a18.as_slice()) {
        return Option::Some(KeyCode::KeyS);
    }
    let a19 = [116u8];
    proof {
        assert(a19@ =~= seq![116u8]);
    }
    if crate::models::bytes_eq(t, a19.as_slice()) {
        return Option::Some(KeyCode::KeyT);
    }
    let a20 = [117u8];
    proof {
        assert(a20@ =~= seq![117u8]);
    }
    if crate::models::bytes_eq(t, a20.as_slice()) {
        return Option::Some(KeyCode::KeyU);
    }
    let a21 = [118u8];
    proof {
        assert(a21@ =~= seq![118u8]);
    }
    if crate::models::bytes_eq(t, a21.as_slice()) {
        return Option::Some(KeyCode::KeyV);
    }
    let a22 = [119u8];
    proof {
        assert(a22@ =~= seq![119u8]);
    }
    if crate::models::bytes_eq(t, a22.as_slice()) {
        return Option::Some(KeyCode::KeyW);
    }
    let a23 = [120u8];
    proof {
        assert(a23@ =~= seq![120u8]);
    }
    if crate::models::bytes_eq(t, a23.as_slice()) {
        return Option::Some(KeyCode::KeyX);
    }
    let a24 = [121u8];
    proof {
        assert(a24@ =~= seq![121u8]);
    }
    if crate::models::bytes_eq(t, a24.as_slice()) {
        return Option::Some(KeyCode::KeyY);
    }
    let a25 = [122u8];
    proof {
        assert(a25@ =~= seq![122u8]);
    }
    if crate::models::bytes_eq(t, a25.as_slice()) {
        return Option::Some(KeyCode::KeyZ);
    }
    let a26 = [48u8];
    proof {
        assert(a26@ =~= seq![48u8]);
    }
    if crate::models::bytes_eq(t, a26.as_slice()) {
        return Option::Some(KeyCode::Digit0);
    }
    let a27 = [49u8];
    proof {
        assert(a27@ =~= seq![49u8]);
    }
    if crate::models::bytes_eq(t, a27.as_slice()) {
        return Option::Some(KeyCode::Digit1);
    }
    let a28 = [50u8];
    proof {
        assert(a28@ =~= seq![50u8]);
    }
    if crate::models::bytes_eq(t, a28.as_slice()) {
        return Option::Some(KeyCode::Digit2);
    }
    let a29 = [51u8];
    proof {
        assert(a29@ =~= seq![51u8]);
    }
    if crate::models::bytes_eq(t, a29.as_slice()) {
        return Option::Some(KeyCode::Digit3);
    }
    let a30 = [52u8];
    proof {
        assert(a30@ =~= seq![52u8]);
    }
    if crate::models::bytes_eq(t, a30.as_slice()) {
        return Option::Some(KeyCode::Digit4);
    }
    let a31 = [53u8];
    proof {
        assert(a31@ =~= seq![53u8]);
    }
    if crate::models::bytes_eq(t, a31.as_slice()) {
        return Option::Some(KeyCode::Digit5);
    }
    let a32 = [54u8];
    proof {
        assert(a32@ =~= seq![54u8]);
    }
    if crate::models::bytes_eq(t, a32.as_slice()) {
        return Option::Some(KeyCode::Digit6);
    }
    let a33 = [55u8];
    proof {
        assert(a33@ =~= seq![55u8]);
    }
    if crate::models::bytes_eq(t, a33.as_slice()) {
        return Option::Some(KeyCode::Digit7);
    }
    let a34 = [56u8];
    proof {
        assert(a34@ =~= seq![56u8]);
    }
    if crate::models::bytes_eq(t, a34.as_slice()) {
        return Option::Some(KeyCode::Digit8);
    }
    let a35 = [57u8];
    proof {
        assert(a35@ =~= seq![57u8]);
    }
    if crate::models::bytes_eq(t, a35.as_slice()) {
        return Option::Some(KeyCode::Digit9);
    }
    let a36 = [102u8, 49u8];
    proof {
        assert(a36@ =~= seq![102u8, 49u8]);
    }
    if crate::models::bytes_eq(t, a36.as_slice()) {
        return Option::Some(KeyCode::F1);
    }
    let a37 = [102u8, 50u8];
    proof {
        assert(a37@ =~= seq![102u8, 50u8]);
    }
    if crate::models::bytes_eq(t, a37.as_slice()) {
        return Option::Some(KeyCode::F2);
    }
    let a38 = [102u8, 51u8];
    proof {
        assert(a38@ =~= seq![102u8, 51u8]);
    }
    if crate::models::bytes_eq(t, a38.as_slice()) {
        return Option::Some(KeyCode::F3);
    }
    let a39 = [102u8, 52u8];
    proof {
        assert(a39@ =~= seq![102u8, 52u8]);
    }
    if crate::models::bytes_eq(t, a39.as_slice()) {
        return Option::Some(KeyCode::F4);
    }
    let a40 = [102u8, 53u8];
    proof {
        assert(a40@ =~= seq![102u8, 53u8]);
    }
    if crate::models::bytes_eq(t, a40.as_slice()) {
        return Option::Some(KeyCode::F5);
    }
    let a41 = [102u8, 54u8];
    proof {
        assert(a41@ =~= seq![102u8, 54u8]);
    }
    if crate::models::bytes_eq(t, a41.as_slice()) {
        return Option::Some(KeyCode::F6);
    }
    let a42 = [102u8, 55u8];
    proof {
        assert(a42@ =~= seq![102u8, 55u8]);
    }
    if crate::models::bytes_eq(t, a42.as_slice()) {
        return Option::Some(KeyCode::F7);
    }
    let a43 = [102u8, 56u8];
    proof {
        assert(a43@ =~= seq![102u8, 56u8]);
    }
    if crate::models::bytes_eq(t, a43.as_slice()) {
        return Option::Some(KeyCode::F8);
    }
    let a44 = [102u8, 57u8];
    proof {
        assert(a44@ =~= seq![102u8, 57u8]);
    }
    if crate::models::bytes_eq(t, a44.as_slice()) {
        return Option::Some(KeyCode::F9);
    }
    let a45 = [102u8, 49u8, 48u8];
    proof {
        assert(a45@ =~= seq![102u8, 49u8, 48u8]);
    }
    if crate::models::bytes_eq(t, a45.as_slice()) {
        return Option::Some(KeyCode::F10);
    }
    let a46 = [102u8, 49u8, 49u8];
    proof {
        assert(a46@ =~= seq![102u8, 49u8, 49u8]);
    }
    if crate::models::bytes_eq(t, a46.as_slice()) {
        return Option::Some(KeyCode::F11);
    }
    let a47 = [102u8, 49u8, 50u8];
    proof {
        assert(a47@ =~= seq![102u8, 49u8, 50u8]);
    }
    if crate::models::bytes_eq(t, a47.as_slice()) {
        return Option::Some(KeyCode::F12);
    }
    let a48 = [115u8, 112u8, 97u8, 99u8, 101u8];
    proof {
        assert(a48@ =~= seq![115u8, 112u8, 97u8, 99u8, 101u8]);
    }
    if crate::models::bytes_eq(t, a48.as_slice()) {
        return Option::Some(KeyCode::Space);
    }
    let a49 = [101u8, 110u8, 116u8, 101u8, 114u8];
    proof {
        assert(a49@ =~= seq![101u8, 110u8, 116u8, 101u8, 114u8]);
    }
    if crate::models::bytes_eq(t, a49.as_slice()) {
        return Option::Some(KeyCode::Enter);
    }
    let a50 = [114u8, 101u8, 116u8, 117u8, 114u8, 110u8];
    proof {
        assert(a50@ =~= seq![114u8, 101u8, 116u8, 117u8, 114u8, 110u8]);
    }
    if crate::models::bytes_eq(t, a50.as_slice()) {
        return Option::Some(KeyCode::Enter);
    }
    let a51 = [101u8, 115u8, 99u8, 97u8, 112u8, 101u8];
    proof {
        assert(a51@ =~= seq![101u8, 115u8, 99u8, 97u8, 112u8, 101u8]);
    }
    if crate::models::bytes_eq(t, a51.as_slice()) {
        return Option::Some(KeyCode::Escape);
    }
    let a52 = [101u8, 115u8, 99u8];
    proof {
        assert(a52@ =~= seq![101u8, 115u8, 99u8]);
    }
    if crate::models::bytes_eq(t, a52.as_slice()) {
        return Option::Some(KeyCode::Escape);
    }
    let a53 = [116u8, 97u8, 98u8];
    proof {
        assert(a53@ =~= seq![116u8, 97u8, 98u8]);
    }
    if crate::models::bytes_eq(t, a53.as_slice()) {
        return Option::Some(KeyCode::Tab);
    }
    let a54 = [98u8, 97u8, 99u8, 107u8, 115u8, 112u8, 97u8, 99u8, 101u8];
    proof {
        assert(a54@ =~= seq![98u8, 97u8, 99u8, 107u8, 115u8, 112u8, 97u8, 99u8, 101u8]);
    }
    if crate::models::bytes_eq(t, a54.as_slice()) {
        return Option::Some(KeyCode::Backspace);
    }
    let a55 = [100u8, 101u8, 108u8, 101u8, 116u8, 101u8];
    proof {
        assert(a55@ =~= seq![100u8, 101u8, 108u8, 101u8, 116u8, 101u8]);
    }
    if crate::models::bytes_eq(t, a55.as_slice()) {
        return Option::Some(KeyCode::Delete);
    }
    let a56 = [97u8, 114u8, 114u8, 111u8, 119u8, 117u8, 112u8];
    proof {
        assert(a56@ =~= seq![97u8, 114u8, 114u8, 111u8, 119u8, 117u8, 112u8]);
    }
    if crate::models::bytes_eq(t, a56.as_slice()) {
        return Option::Some(KeyCode::ArrowUp);
    }
    let a57 = [117u8, 112u8];
    proof {
        assert(a57@ =~= seq![117u8, 112u8]);
    }
    if crate::models::bytes_eq(t, a57.as_slice()) {
        return Option::Some(KeyCode::ArrowUp);
    }
    let a58 = [97u8, 114u8, 114u8, 111u8, 119u8, 100u8, 111u8, 119u8, 110u8];
    proof {
        assert(a58@ =~= seq![97u8, 114u8, 114u8, 111u8, 119u8, 100u8, 111u8, 119u8, 110u8]);
    }
    if crate::models::bytes_eq(t, a58.as_slice()) {
        return Option::Some(KeyCode::ArrowDown);
    }
    let a59 = [100u8, 111u8, 119u8, 110u8];
    proof {
        assert(a59@ =~= seq![100u8, 111u8, 119u8, 110u8]);
    }
    if crate::models::bytes_eq(t, a59.as_slice()) {
        return Option::Some(KeyCode::ArrowDown);
    }
    let a60 = [97u8, 114u8, 114u8, 111u8, 119u8, 108u8, 101u8, 102u8, 116u8];
    proof {
        assert(a60@ =~= seq![97u8, 114u8, 114u8, 111u8, 119u8, 108u8, 101u8, 102u8, 116u8]);
    }
    if crate::models::bytes_eq(t, a60.as_slice()) {
        return Option::Some(KeyCode::ArrowLeft);
    }
    let a61 = [108u8, 101u8, 102u8, 116u8];
    proof {
        assert(a61@ =~= seq![108u8, 101u8, 102u8, 116u8]);
    }
    if crate::models::bytes_eq(t, a61.as_slice()) {
        return Option::Some(KeyCode::ArrowLeft);
    }
    let a62 = [97u8, 114u8, 114u8, 111u8, 119u8, 114u8, 105u8, 103u8, 104u8, 116u8];
    proof {
        assert(a62@ =~= seq![97u8, 114u8, 114u8, 111u8, 119u8, 114u8, 105u8, 103u8, 104u8, 116u8]);
    }
    if crate::models::bytes_eq(t, a62.as_slice()) {
        return Option::Some(KeyCode::ArrowRight);
    }
    let a63 = [114u8, 105u8, 103u8, 104u8, 116u8];
    proof {
        assert(a63@ =~= seq![114u8, 105u8, 103u8, 104u8, 116u8]);
    }
    if crate::models::bytes_eq(t, a63.as_slice()) {
        return Option::Some(KeyCode::ArrowRight);
    }
    Option::None
}

/// The tokens of `s` from position `i` on, the current token having
/// started at `start`: maximal runs between `+` separators.
pub open spec fn tokens_from(s: Seq<u8>, i: int, start: int) -> Seq<Seq<u8>>
    decreases s.len() - i,
{
    if i < 0 || start < 0 || start > i || i >= s.len() {
        seq![s.subrange(start, s.len() as int)]
    } else if s[i] == 43 {
        seq![s.subrange(start, i)] + tokens_from(s, i + 1, i + 1)
    } else {
        tokens_from(s, i + 1, start)
    }
}

/// The `+`-separated tokens of a shortcut specification.
pub open spec fn split_tokens(s: Seq<u8>) -> Seq<Seq<u8>> {
    tokens_from(s, 0, 0)
}

/// Fold the tokens from position `i` on over the running modifier set
/// and key: a modifier token sets its bit, a key token replaces the key,
/// anything else fails; at the end a key must have been named.
pub open spec fn scan_tokens(
    ts: Seq<Seq<u8>>,
    i: int,
    mods: u8,
    code: Option<KeyCode>,
) -> Result<Shortcut, ShortcutError>
    decreases ts.len() - i,
{
    if i < 0 || i >= ts.len() {
        match code {
            Option::Some(c) => Result::Ok(Shortcut { mods, code: c }),
            Option::None => Result::Err(ShortcutError::NoKey),
        }
    } else {
        let t = lower_bytes(ts[i]);
        match mods_token(t) {
            Option::Some(m) => scan_tokens(ts, i + 1, mods | m, code),
            Option::None => match key_token(t) {
                Option::Some(k) => scan_tokens(ts, i + 1, mods, Option::Some(k)),
                Option::None => Result::Err(ShortcutError::UnknownKey),
            },
        }
    }
}

/// What parsing a shortcut specification yields.
pub open spec fn spec_parse_shortcut(s: Seq<u8>) -> Result<Shortcut, ShortcutError> {
    scan_tokens(split_tokens(s), 0, 0, Option::None)
}

/// Split a specification at `+` separators.
fn split_tokens_exec(s: &[u8]) -> (r: Vec<Vec<u8>>)
    ensures
        views_of_bytes(r@) == split_tokens(s@),
{
    let n = s.len();
    let mut out: Vec<Vec<u8>> = Vec::new();
    let mut cur: Vec<u8> = Vec::new();
    let mut i: usize = 0;
    let mut start: usize = 0;
    proof {
        assert(views_of_bytes(out@) =~= Seq::<Seq<u8>>::empty());
        assert(cur@ =~= s@.subrange(0, 0));
    }
    while i < n
        invariant
            0 <= start <= i <= n == s@.len(),
            cur@ == s@.subrange(start as int, i as int),
            split_tokens(s@) == views_of_bytes(out@) + tokens_from(s@, i as int, start as int),
        decreases n - i,
    {
        let b = s[i];
        if b == 43 {
            let ghost prev = views_of_bytes(out@);
            let done = cur;
            proof {
                assert(views_of_bytes(out@.push(done)) =~= prev.push(done@));
            }
            out.push(done);
            cur = Vec::new();
            proof {
                assert(prev.push(s@.subrange(start as int, i as int)) + tokens_from(
                    s@,
                    i + 1,
                    i + 1,
                ) =~= prev + (seq![s@.subrange(start as int, i as int)] + tokens_from(
                    s@,
                    i + 1,
                    i + 1,
                )));
                assert(cur@ =~= s@.subrange(i + 1, i + 1));
            }
            start = i + 1;
        } else {
            proof {
                assert(s@.subrange(start as int, i + 1) =~= s@.subrange(
                    start as int,
                    i as int,
                ).push(s@[i as int]));
            }
            cur.push(b);
        }
        i = i + 1;
    }
    let ghost prev = views_of_bytes(out@);
    proof {
        assert(cur@ =~= s@.subrange(start as int, n as int));
        assert(views_of_bytes(out@.push(cur)) =~= prev.push(cur@));
        assert(prev.push(s@.subrange(start as int, n as int)) =~= prev + seq![
            s@.subrange(start as int, n as int),
        ]);
    }
    out.push(cur);
    out
}

/// Parse a shortcut specification such as a modifier chain ending in a
/// key name. Fails on a token that names neither a modifier nor a key,
/// and when no key is named at all.
pub fn parse_shortcut(s: &[u8]) -> (r: Result<Shortcut, ShortcutError>)
    ensures
        r == spec_parse_shortcut(s@),
{
    let tokens = split_tokens_exec(s);
    let ghost ts = views_of_bytes(tokens@);
    let n = tokens.len();
    let mut mods: u8 = 0;
    let mut code: Option<KeyCode> = Option::None;
    let mut i: usize = 0;
    while i < n
        invariant
            0 <= i <= n == tokens@.len(),
            ts == views_of_bytes(tokens@),
            spec_parse_shortcut(s@) == scan_tokens(ts, i as int, mods, code),
        decreases n - i,
    {
        let lowered = crate::query::to_lower(tokens[i].as_slice());
        match mods_token_exec(lowered.as_slice()) {
            Option::Some(m) => {
                mods = mods | m;
            },
            Option::None => match key_token_exec(lowered.as_slice()) {
                Option::Some(k) => {
                    code = Option::Some(k);
                },
                Option::None => {
                    return Result::Err(ShortcutError::UnknownKey);
                },
            },
        }
        i = i + 1;
    }
    match code {
        Option::Some(c) => Result::Ok(Shortcut { mods, code: c }),
        Option::None => Result::Err(ShortcutError::NoKey),
    }
}

} // verus!
