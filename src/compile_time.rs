//! Encoding of a custom format specifier as an integer, so that it can
//! select an implementation at compile time.

use vstd::prelude::*;
use vstd::string::*;

verus! {

/// Little-endian value of the bytes `b`.
pub open spec fn le_value(b: Seq<u8>) -> nat
    decreases b.len(),
{
    if b.len() == 0 {
        0
    } else {
        b[0] as nat + 256 * le_value(b.drop_first())
    }
}

pub open spec fn pow256(n: nat) -> nat
    decreases n,
{
    if n == 0 {
        1
    } else {
        256 * pow256((n - 1) as nat)
    }
}

proof fn lemma_le_value_bound(b: Seq<u8>)
    ensures
        le_value(b) < pow256(b.len()),
    decreases b.len(),
{
    if b.len() > 0 {
        lemma_le_value_bound(b.drop_first());
        let v = le_value(b.drop_first());
        let p = pow256((b.len() - 1) as nat);
        assert(b[0] as nat + 256 * v < 256 * p) by (nonlinear_arith)
            requires
                b[0] < 256,
                v < p,
        ;
    }
}

proof fn lemma_pow256_monotonic(m: nat, n: nat)
    requires
        m <= n,
    ensures
        pow256(m) <= pow256(n),
    decreases n,
{
    if m < n {
        lemma_pow256_monotonic(m, (n - 1) as nat);
    }
}

/// Converts a format specifier of at most 16 bytes to the `u128` whose
/// little-endian bytes are its bytes, padded with zeros.
pub fn spec(s: &str) -> (r: u128)
    requires
        s.spec_bytes().len() <= 16,
    ensures
        r == le_value(s.spec_bytes()),
{
    let bytes = s.as_bytes();
    let ghost b = bytes@;
    let len = bytes.len();
    proof {
        reveal_with_fuel(pow256, 17);
        assert(pow256(15) == 0x1_00_0000_0000_0000_0000_0000_0000_0000u128 as nat);
    }
    let mut result: u128 = 0;
    let mut i: usize = len;
    assert(b.skip(len as int) =~= Seq::<u8>::empty());
    while i > 0
        invariant
            b == bytes@,
            len == b.len(),
            len <= 16,
            i <= len,
            result == le_value(b.skip(i as int)),
            pow256(15) == 0x1_00_0000_0000_0000_0000_0000_0000_0000u128 as nat,
        decreases i,
    {
        proof {
            lemma_le_value_bound(b.skip(i as int));
            lemma_pow256_monotonic((len - i) as nat, 15);
            assert(b.skip(i - 1).drop_first() =~= b.skip(i as int));
            assert(result * 256 + 255 <= u128::MAX) by (nonlinear_arith)
                requires
                    result < 0x1_00_0000_0000_0000_0000_0000_0000_0000u128,
            ;
        }
        result = result * 256 + bytes[i - 1] as u128;
        i = i - 1;
    }
    assert(b.skip(0) =~= b);
    result
}

} // verus!
