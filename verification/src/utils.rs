//! Small helpers on numbers.

use vstd::prelude::*;

verus! {

/// Byte `i` of a number, counted from its lowest byte.
pub open spec fn byte_of(n: u64, i: nat) -> u8 {
    ((n >> ((8 * i) as u64)) & 0xff) as u8
}

/// Numbers that agree in all eight bytes are the same number.
pub proof fn lemma_bytes_tell_numbers_apart(a: u64, b: u64)
    requires
        forall|i: nat| i < 8 ==> byte_of(a, i) == byte_of(b, i),
    ensures
        a == b,
{
    assert(byte_of(a, 0) == byte_of(b, 0));
    assert(byte_of(a, 1) == byte_of(b, 1));
    assert(byte_of(a, 2) == byte_of(b, 2));
    assert(byte_of(a, 3) == byte_of(b, 3));
    assert(byte_of(a, 4) == byte_of(b, 4));
    assert(byte_of(a, 5) == byte_of(b, 5));
    assert(byte_of(a, 6) == byte_of(b, 6));
    assert(byte_of(a, 7) == byte_of(b, 7));
    assert(a == b) by (bit_vector)
        requires
            ((a >> 0u64) & 0xff) as u8 == ((b >> 0u64) & 0xff) as u8,
            ((a >> 8u64) & 0xff) as u8 == ((b >> 8u64) & 0xff) as u8,
            ((a >> 16u64) & 0xff) as u8 == ((b >> 16u64) & 0xff) as u8,
            ((a >> 24u64) & 0xff) as u8 == ((b >> 24u64) & 0xff) as u8,
            ((a >> 32u64) & 0xff) as u8 == ((b >> 32u64) & 0xff) as u8,
            ((a >> 40u64) & 0xff) as u8 == ((b >> 40u64) & 0xff) as u8,
            ((a >> 48u64) & 0xff) as u8 == ((b >> 48u64) & 0xff) as u8,
            ((a >> 56u64) & 0xff) as u8 == ((b >> 56u64) & 0xff) as u8,
    ;
}

/// The eight bytes of a number, lowest first.
pub fn usize_as_bytes(n: usize) -> (res: [u8; 8])
    ensures
        forall|i: int| 0 <= i < 8 ==> #[trigger] res@[i] == byte_of(n as u64, i as nat),
{
    let mut res = [0u8;8];
    let whole: u64 = n as u64;
    let mut i: usize = 0;
    while i < 8
        invariant
            i <= 8,
            whole == n as u64,
            forall|k: int| 0 <= k < i ==> #[trigger] res@[k] == byte_of(n as u64, k as nat),
        decreases 8 - i,
    {
        let low: u64 = (whole >> ((8 * i) as u64)) & 0xff;
        assert(low <= 0xff) by (bit_vector)
            requires
                low == (whole >> ((8 * i) as u64)) & 0xff,
        ;
        res[i] = low as u8;
        i = i + 1;
    }
    res
}

} // verus!
