//! Decimal and hexadecimal rendering of integers, used for entry ids, tab
//! ids and the persisted document.
use vstd::prelude::*;

verus! {

/// The decimal digits of `n`, most significant first.
pub open spec fn dec_of(n: nat) -> Seq<u8>
    decreases n,
{
    if n < 10 {
        seq![(48 + n) as u8]
    } else {
        dec_of(n / 10) + seq![(48 + n % 10) as u8]
    }
}

/// The decimal digits of a signed value: a minus sign before the digits of
/// the magnitude when the value is negative.
pub open spec fn dec_of_int(n: int) -> Seq<u8> {
    if n < 0 {
        seq![45u8] + dec_of((-n) as nat)
    } else {
        dec_of(n as nat)
    }
}

/// The lowercase hexadecimal digits of `n`, most significant first,
/// without leading zeros.
pub open spec fn hex_of(n: nat) -> Seq<u8>
    decreases n,
{
    if n < 16 {
        seq![hex_digit(n)]
    } else {
        hex_of(n / 16) + seq![hex_digit(n % 16)]
    }
}

/// The lowercase hexadecimal digit for a value below 16.
pub open spec fn hex_digit(d: nat) -> u8 {
    if d < 10 {
        (48 + d) as u8
    } else {
        (87 + d) as u8
    }
}

/// A run of `k` zero digits.
pub open spec fn zero_digits(k: nat) -> Seq<u8>
    decreases k,
{
    if k == 0 {
        Seq::empty()
    } else {
        seq![48u8] + zero_digits((k - 1) as nat)
    }
}

/// The decimal digits of `n`, zero-padded on the left to at least
/// `width` digits.
pub open spec fn dec_padded(n: nat, width: nat) -> Seq<u8> {
    if dec_of(n).len() >= width {
        dec_of(n)
    } else {
        zero_digits((width - dec_of(n).len()) as nat) + dec_of(n)
    }
}

proof fn lemma_zero_digits_snoc(k: nat)
    requires
        k > 0,
    ensures
        zero_digits(k) =~= zero_digits((k - 1) as nat) + seq![48u8],
    decreases k,
{
    if k > 1 {
        lemma_zero_digits_snoc((k - 1) as nat);
    }
}

/// Append `n` in decimal, zero-padded on the left to at least `width`
/// digits.
pub fn push_dec_padded(out: &mut Vec<u8>, n: u64, width: usize)
    ensures
        final(out)@ == old(out)@ + dec_padded(n as nat, width as nat),
{
    let digits = u64_to_dec(n);
    let dl = digits.len();
    if dl < width {
        let pad = width - dl;
        let mut z: usize = 0;
        proof {
            assert(zero_digits(0) =~= Seq::<u8>::empty());
            assert(out@ =~= old(out)@ + zero_digits(0));
        }
        while z < pad
            invariant
                0 <= z <= pad,
                out@ == old(out)@ + zero_digits(z as nat),
            decreases pad - z,
        {
            out.push(48);
            proof {
                lemma_zero_digits_snoc((z + 1) as nat);
                assert(out@ =~= old(out)@ + zero_digits((z + 1) as nat));
            }
            z = z + 1;
        }
    }
    let ghost mid = out@;
    let mut k: usize = 0;
    while k < dl
        invariant
            0 <= k <= dl == digits@.len(),
            digits@ == dec_of(n as nat),
            out@ == mid + digits@.take(k as int),
        decreases dl - k,
    {
        proof {
            assert((mid + digits@.take(k as int)).push(digits@[k as int]) =~= mid + digits@.take(
                k + 1,
            ));
        }
        out.push(digits[k]);
        k = k + 1;
    }
    proof {
        assert(digits@.take(dl as int) =~= digits@);
        assert(out@ =~= old(out)@ + dec_padded(n as nat, width as nat));
    }
}

/// Decimal renderings are never empty.
pub proof fn lemma_dec_of_len(n: nat)
    ensures
        dec_of(n).len() >= 1,
    decreases n,
{
    if n >= 10 {
        lemma_dec_of_len(n / 10);
    }
}

/// Signed decimal renderings are never empty.
pub proof fn lemma_dec_of_int_len(n: int)
    ensures
        dec_of_int(n).len() >= 1,
{
    if n < 0 {
        lemma_dec_of_len((-n) as nat);
    } else {
        lemma_dec_of_len(n as nat);
    }
}

/// Render `n` in decimal.
pub fn u64_to_dec(n: u64) -> (r: Vec<u8>)
    ensures
        r@ == dec_of(n as nat),
    decreases n,
{
    if n < 10 {
        let d = [(48 + n) as u8];
        proof {
            assert(d@ =~= dec_of(n as nat));
        }
        vstd::slice::slice_to_vec(d.as_slice())
    } else {
        let mut v = u64_to_dec(n / 10);
        v.push((48 + n % 10) as u8);
        proof {
            assert(v@ =~= dec_of((n / 10) as nat) + seq![(48 + n as nat % 10) as u8]);
        }
        v
    }
}

/// Render a signed value in decimal.
pub fn i64_to_dec(n: i64) -> (r: Vec<u8>)
    ensures
        r@ == dec_of_int(n as int),
{
    if n >= 0 {
        u64_to_dec(n as u64)
    } else {
        // The magnitude of the most negative value does not fit in i64;
        // compute it in u64.
        let m: u64 = ((-(n + 1)) as u64) + 1;
        proof {
            assert(m as nat == (-(n as int)) as nat);
        }
        let digits = u64_to_dec(m);
        let mut v: Vec<u8> = Vec::new();
        v.push(45);
        let mut i: usize = 0;
        let dn = digits.len();
        while i < dn
            invariant
                0 <= i <= dn == digits@.len(),
                v@ =~= seq![45u8] + digits@.take(i as int),
            decreases dn - i,
        {
            v.push(digits[i]);
            proof {
                assert(v@ =~= seq![45u8] + digits@.take(i + 1));
            }
            i = i + 1;
        }
        proof {
            assert(digits@.take(dn as int) =~= digits@);
        }
        v
    }
}

/// Render `n` in lowercase hexadecimal without leading zeros.
pub fn u64_to_hex(n: u64) -> (r: Vec<u8>)
    ensures
        r@ == hex_of(n as nat),
    decreases n,
{
    if n < 16 {
        let b = if n < 10 {
            (48 + n) as u8
        } else {
            (87 + n) as u8
        };
        let d = [b];
        proof {
            assert(d@ =~= hex_of(n as nat));
        }
        vstd::slice::slice_to_vec(d.as_slice())
    } else {
        let rem = n % 16;
        let b = if rem < 10 {
            (48 + rem) as u8
        } else {
            (87 + rem) as u8
        };
        let mut v = u64_to_hex(n / 16);
        v.push(b);
        proof {
            assert(v@ =~= hex_of((n / 16) as nat) + seq![hex_digit(n as nat % 16)]);
        }
        v
    }
}

} // verus!
