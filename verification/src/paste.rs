//! The paste-replay plan: resolving the configured delimiter, joining
//! several texts into one paste payload, the ordered fallback chain of
//! keystroke strategies, and the image payload decoding. The OS clipboard
//! writes and the synthetic keystrokes themselves happen outside this
//! library, following these plans.
use vstd::prelude::*;

use crate::classify::starts_with;
use crate::models::views_of_bytes;
use crate::outside::b64_decoded;

verus! {

/// The delimiter with its escaped tokens resolved: `\n` and `\t` written
/// as two characters become the newline and tab characters.
pub open spec fn resolve_delim(s: Seq<u8>) -> Seq<u8>
    decreases s.len(),
{
    if s.len() == 0 {
        Seq::empty()
    } else if s.len() >= 2 && s[0] == 92 && s[1] == 110 {
        seq![10u8] + resolve_delim(s.skip(2))
    } else if s.len() >= 2 && s[0] == 92 && s[1] == 116 {
        seq![9u8] + resolve_delim(s.skip(2))
    } else {
        seq![s[0]] + resolve_delim(s.skip(1))
    }
}

/// Resolve the escaped delimiter tokens.
pub fn resolve_delimiter(s: &[u8]) -> (r: Vec<u8>)
    ensures
        r@ == resolve_delim(s@),
{
    let n = s.len();
    let mut out: Vec<u8> = Vec::new();
    let mut i: usize = 0;
    proof {
        assert(s@.skip(0) =~= s@);
        assert(out@ + resolve_delim(s@.skip(0)) =~= resolve_delim(s@));
    }
    while i < n
        invariant
            0 <= i <= n == s@.len(),
            out@ + resolve_delim(s@.skip(i as int)) == resolve_delim(s@),
        decreases n - i,
    {
        let b = s[i];
        proof {
            assert(s@.skip(i as int)[0] == s@[i as int]);
            if i + 1 < n {
                assert(s@.skip(i as int)[1] == s@[i as int + 1]);
            }
            assert(s@.skip(i as int).skip(1) =~= s@.skip(i + 1));
            if i + 2 <= n {
                assert(s@.skip(i as int).skip(2) =~= s@.skip(i + 2));
            }
        }
        if b == 92 && i + 1 < n && s[i + 1] == 110 {
            out.push(10);
            proof {
                assert(out@ + resolve_delim(s@.skip(i + 2)) =~= resolve_delim(s@));
            }
            i = i + 2;
        } else if b == 92 && i + 1 < n && s[i + 1] == 116 {
            out.push(9);
            proof {
                assert(out@ + resolve_delim(s@.skip(i + 2)) =~= resolve_delim(s@));
            }
            i = i + 2;
        } else {
            out.push(b);
            proof {
                assert(out@ + resolve_delim(s@.skip(i + 1)) =~= resolve_delim(s@));
            }
            i = i + 1;
        }
    }
    proof {
        assert(resolve_delim(s@.skip(n as int)) =~= Seq::<u8>::empty());
        assert(out@ =~= resolve_delim(s@));
    }
    out
}

/// Texts joined with a delimiter between each neighbouring pair.
pub open spec fn joined(cs: Seq<Seq<u8>>, d: Seq<u8>) -> Seq<u8>
    decreases cs.len(),
{
    if cs.len() == 0 {
        Seq::empty()
    } else if cs.len() == 1 {
        cs[0]
    } else {
        cs[0] + d + joined(cs.drop_first(), d)
    }
}

proof fn lemma_joined_push(cs: Seq<Seq<u8>>, d: Seq<u8>, c: Seq<u8>)
    ensures
        cs.len() == 0 ==> joined(cs.push(c), d) =~= c,
        cs.len() > 0 ==> joined(cs.push(c), d) =~= joined(cs, d) + d + c,
    decreases cs.len(),
{
    if cs.len() == 0 {
        assert(cs.push(c)[0] == c);
    } else {
        assert(cs.push(c)[0] == cs[0]);
        assert(cs.push(c).drop_first() =~= cs.drop_first().push(c));
        lemma_joined_push(cs.drop_first(), d, c);
        if cs.len() == 1 {
            assert(joined(cs, d) == cs[0]);
        }
    }
}

/// Join texts with the delimiter.
pub fn join_with_delimiter(contents: &Vec<Vec<u8>>, delim: &[u8]) -> (r: Vec<u8>)
    ensures
        r@ == joined(views_of_bytes(contents@), delim@),
{
    let ghost cs = views_of_bytes(contents@);
    let n = contents.len();
    let mut out: Vec<u8> = Vec::new();
    let mut i: usize = 0;
    proof {
        assert(joined(cs.take(0), delim@) =~= Seq::<u8>::empty());
        assert(out@ =~= joined(cs.take(0), delim@));
    }
    while i < n
        invariant
            0 <= i <= n == contents@.len(),
            cs == views_of_bytes(contents@),
            out@ == joined(cs.take(i as int), delim@),
        decreases n - i,
    {
        proof {
            assert(cs.take(i + 1) =~= cs.take(i as int).push(cs[i as int]));
            lemma_joined_push(cs.take(i as int), delim@, cs[i as int]);
        }
        if i > 0 {
            let mut k: usize = 0;
            let dn = delim.len();
            let ghost mid = out@;
            while k < dn
                invariant
                    0 <= k <= dn == delim@.len(),
                    out@ == mid + delim@.take(k as int),
                decreases dn - k,
            {
                proof {
                    assert((mid + delim@.take(k as int)).push(delim@[k as int]) =~= mid
                        + delim@.take(k + 1));
                }
                out.push(delim[k]);
                k = k + 1;
            }
            proof {
                assert(delim@.take(dn as int) =~= delim@);
            }
        }
        let c = &contents[i];
        let cn = c.len();
        let mut k: usize = 0;
        let ghost mid = out@;
        while k < cn
            invariant
                0 <= k <= cn == c@.len(),
                c == contents@[i as int],
                out@ == mid + c@.take(k as int),
            decreases cn - k,
        {
            proof {
                assert((mid + c@.take(k as int)).push(c@[k as int]) =~= mid + c@.take(k + 1));
            }
            out.push(c[k]);
            k = k + 1;
        }
        proof {
            assert(c@.take(cn as int) =~= c@);
            assert(out@ =~= joined(cs.take(i + 1), delim@));
        }
        i = i + 1;
    }
    proof {
        assert(cs.take(n as int) =~= cs);
    }
    out
}

/// The paste payload for a bulk replay: the delimiter's escaped tokens
/// resolved, then all texts joined with it. The caller writes the result
/// to the OS clipboard and emits the paste keystroke.
pub fn bulk_paste_text_and_simulate(contents: &Vec<Vec<u8>>, delimiter: &[u8]) -> (r: Vec<u8>)
    ensures
        r@ == joined(views_of_bytes(contents@), resolve_delim(delimiter@)),
{
    let d = resolve_delimiter(delimiter);
    join_with_delimiter(contents, d.as_slice())
}

/// A platform the replay engine may run on.
#[derive(Clone, Copy, PartialEq, Eq, Structural, Debug)]
pub enum Platform {
    MacOs,
    Windows,
    Other,
}

/// One way of emitting the synthetic paste keystroke.
#[derive(Clone, Copy, PartialEq, Eq, Structural, Debug)]
pub enum PasteStrategy {
    /// The OS-native scripting or accessibility mechanism.
    NativeScript,
    /// Generic virtual-keyboard event injection: press the primary
    /// modifier, click V, release the modifier.
    KeyInjection,
}

/// The ordered fallback chain of keystroke strategies for a platform:
/// each is attempted in turn until one does not report an error. Only on
/// platforms with a native scripting mechanism does that come first.
pub fn paste_strategies(p: Platform) -> (r: Vec<PasteStrategy>)
    ensures
        p == Platform::MacOs ==> r@ =~= seq![
            PasteStrategy::NativeScript,
            PasteStrategy::KeyInjection,
        ],
        p != Platform::MacOs ==> r@ =~= seq![PasteStrategy::KeyInjection],
{
    let mut v: Vec<PasteStrategy> = Vec::new();
    match p {
        Platform::MacOs => {
            v.push(PasteStrategy::NativeScript);
            v.push(PasteStrategy::KeyInjection);
        },
        _ => {
            v.push(PasteStrategy::KeyInjection);
        },
    }
    v
}

/// The fixed settle delay between the clipboard write and the synthetic
/// keystroke, in milliseconds.
pub fn settle_delay_ms() -> (r: u64)
    ensures
        r == 120,
{
    120
}

/// The data-URL prefix of an embedded PNG image.
pub open spec fn data_url_prefix() -> Seq<u8> {
    seq![100u8, 97u8, 116u8, 97u8, 58u8, 105u8, 109u8, 97u8, 103u8, 101u8, 47u8, 112u8, 110u8,
        103u8, 59u8, 98u8, 97u8, 115u8, 101u8, 54u8, 52u8, 44u8]
}

/// The text with a leading PNG data-URL prefix removed, if one is there.
pub open spec fn stripped_payload(s: Seq<u8>) -> Seq<u8> {
    if starts_with(s, data_url_prefix()) {
        s.skip(22)
    } else {
        s
    }
}

/// Strip a leading PNG data-URL prefix.
pub fn strip_data_url_prefix(s: &[u8]) -> (r: &[u8])
    ensures
        r@ == stripped_payload(s@),
{
    let prefix = [100u8, 97u8, 116u8, 97u8, 58u8, 105u8, 109u8, 97u8, 103u8, 101u8, 47u8, 112u8,
        110u8, 103u8, 59u8, 98u8, 97u8, 115u8, 101u8, 54u8, 52u8, 44u8];
    proof {
        assert(prefix@ =~= data_url_prefix());
    }
    if crate::classify::starts_with_exec(s, prefix.as_slice()) {
        vstd::slice::slice_subrange(s, 22, s.len())
    } else {
        s
    }
}

/// Decode the text an image paste arrives as: an optional PNG data-URL
/// prefix followed by base64. The result is the raw encoded image for
/// the caller to decode into pixels and place on the clipboard, or
/// nothing when the base64 does not decode.
pub fn prepare_image_payload(s: &[u8]) -> (r: Option<Vec<u8>>)
    ensures
        (r is Some) <==> (b64_decoded(stripped_payload(s@)) is Some),
        r is Some ==> r.unwrap()@ == b64_decoded(stripped_payload(s@)).unwrap(),
{
    let body = strip_data_url_prefix(s);
    crate::outside::b64_decode(body)
}

} // verus!
