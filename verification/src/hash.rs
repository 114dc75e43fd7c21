//! The 64-bit FNV-1a hash.

use crate::numbers::{hex, hex_of};
use crate::text::Text;
use vstd::prelude::*;

verus! {

/// The hash of no bytes.
pub const FNV_OFFSET: u64 = 0xcbf29ce484222325;

/// The factor of each step.
pub const FNV_PRIME: u64 = 0x100000001b3;

/// FNV-1a: each byte is mixed in with an exclusive or, then the hash is multiplied.
pub open spec fn fnv1a_of(data: Seq<u8>) -> u64
    decreases data.len(),
{
    if data.len() == 0 {
        FNV_OFFSET
    } else {
        (((fnv1a_of(data.drop_last()) ^ (data.last() as u64)) * FNV_PRIME) % 0x1_0000_0000_0000_0000)
            as u64
    }
}

/// The 64-bit FNV-1a hash of `data`.
pub fn simple_hash(data: &[u8]) -> (h: u64)
    ensures
        h == fnv1a_of(data@),
{
    let mut h: u64 = FNV_OFFSET;
    let mut i: usize = 0;
    while i < data.len()
        invariant
            i <= data@.len(),
            h == fnv1a_of(data@.take(i as int)),
        decreases data@.len() - i,
    {
        h = (h ^ (data[i] as u64)).wrapping_mul(FNV_PRIME);
        i = i + 1;
        assert(data@.take(i as int).drop_last() == data@.take(i - 1));
    }
    assert(data@.take(i as int) == data@);
    h
}

/// The hash of a text in hexadecimal notation.
pub open spec fn text_hash_of(s: Text) -> Text {
    hex_of(fnv1a_of(vstd::utf8::encode_utf8(s)) as nat)
}

/// The hash of a text in hexadecimal notation.
pub fn text_hash(s: &str) -> (r: String)
    ensures
        r@ == text_hash_of(s@),
{
    hex(simple_hash(s.as_bytes()))
}

/// One more byte is mixed into the hash of those before it by an exclusive or, and the product with
/// the prime is cut to 64 bits; no bytes have the offset for their hash.
pub proof fn law_bytes_are_mixed_in_one_by_one(data: Seq<u8>, b: u8)
    ensures
        fnv1a_of(Seq::empty()) == 0xcbf29ce484222325u64,
        fnv1a_of(data.push(b)) as int == ((fnv1a_of(data) ^ (b as u64)) as int * 0x100000001b3)
            % 0x1_0000_0000_0000_0000,
{
    assert(data.push(b).drop_last() == data);
}

} // verus!
