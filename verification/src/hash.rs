//! The vault PIN hash: a 64-bit FNV-1a digest rendered in hexadecimal.
//! A local gate, not cryptography: it only keeps the PIN itself out of the
//! persisted file.
use vstd::prelude::*;

use crate::num::hex_of;

verus! {

/// The FNV-1a offset basis.
pub open spec fn fnv_offset() -> u64 {
    0xcbf29ce484222325
}

/// One FNV-1a step: mix one byte into the state.
pub open spec fn fnv_step(h: u64, b: u8) -> u64 {
    vstd::wrapping::u64_specs::wrapping_mul(h ^ (b as u64), 0x100000001b3)
}

/// The FNV-1a digest of a byte string.
pub open spec fn fnv1a(s: Seq<u8>) -> u64
    decreases s.len(),
{
    if s.len() == 0 {
        fnv_offset()
    } else {
        fnv_step(fnv1a(s.drop_last()), s.last())
    }
}

/// The PIN hash as persisted: the FNV-1a digest in lowercase hexadecimal.
pub open spec fn spec_simple_hash(s: Seq<u8>) -> Seq<u8> {
    hex_of(fnv1a(s) as nat)
}

/// Hash a PIN for storage and comparison.
pub fn simple_hash(pin: &[u8]) -> (r: Vec<u8>)
    ensures
        r@ == spec_simple_hash(pin@),
{
    let n = pin.len();
    let mut h: u64 = 0xcbf29ce484222325;
    let mut i: usize = 0;
    proof {
        assert(pin@.take(0) =~= Seq::<u8>::empty());
    }
    while i < n
        invariant
            0 <= i <= n == pin@.len(),
            h == fnv1a(pin@.take(i as int)),
        decreases n - i,
    {
        proof {
            assert(pin@.take(i + 1).drop_last() =~= pin@.take(i as int));
            assert(pin@.take(i + 1).last() == pin@[i as int]);
        }
        h = (h ^ (pin[i] as u64)).wrapping_mul(0x100000001b3);
        i = i + 1;
    }
    proof {
        assert(pin@.take(n as int) =~= pin@);
    }
    crate::num::u64_to_hex(h)
}

} // verus!
