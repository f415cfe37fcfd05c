//! Depth keys for depths that are measured as binary32 numbers.
//!
//! The renderer compares depths as integers. A depth that was computed as
//! a binary32 number is handed over by its bit pattern, and [`depth_key`]
//! gives the key that stands for it: keys compare as the numbers do.
//! Negative infinity, the depth of a cleared pixel, has the floor key, and
//! so has every pattern that is not a number, so that neither is ever kept
//! by the depth test.

use vstd::prelude::*;
use vstd::arithmetic::power2::{pow2, lemma_pow2_pos, lemma_pow2_strictly_increases, lemma_pow2_unfold};
use crate::screen::DEPTH_FLOOR;

verus! {

/// The pattern of positive infinity; every larger magnitude is not a
/// number.
pub const INFINITY_BITS: u32 = 0x7F80_0000;

/// Whether the sign bit of the pattern is set.
pub open spec fn is_negative(bits: u32) -> bool {
    bits >= 0x8000_0000
}

/// The pattern without its sign bit.
pub open spec fn magnitude(bits: u32) -> int {
    if bits >= 0x8000_0000 {
        bits - 0x8000_0000
    } else {
        bits as int
    }
}

/// Whether the pattern is not a number: its exponent field is all ones and
/// its fraction field is not zero.
pub open spec fn is_nan(bits: u32) -> bool {
    magnitude(bits) > INFINITY_BITS
}

/// The absolute value that a magnitude stands for, in units of 2^-149.
/// With the exponent field `e` and the fraction field `f`, that is `f`
/// where `e` is zero and `(2^23 + f) * 2^(e - 1)` otherwise. Infinity, read
/// by the same rule, lies above every finite value.
pub open spec fn size(magnitude: int) -> int {
    let e = magnitude / 0x80_0000;
    let f = magnitude % 0x80_0000;
    if e <= 0 {
        f
    } else {
        (0x80_0000 + f) * pow2((e - 1) as nat)
    }
}

/// The number that a pattern stands for, in units of 2^-149.
pub open spec fn value(bits: u32) -> int {
    if is_negative(bits) {
        -size(magnitude(bits))
    } else {
        size(magnitude(bits))
    }
}

/// The key of a pattern.
pub open spec fn depth_key_of(bits: u32) -> i32 {
    if is_nan(bits) {
        DEPTH_FLOOR
    } else if is_negative(bits) {
        if magnitude(bits) == INFINITY_BITS {
            DEPTH_FLOOR
        } else {
            (-magnitude(bits)) as i32
        }
    } else {
        magnitude(bits) as i32
    }
}

/// The depth key of a binary32 number, given by its bit pattern.
pub fn depth_key(bits: u32) -> (key: i32)
    ensures
        key == depth_key_of(bits),
{
    let low: u32 = bits & 0x7FFF_FFFF;
    assert(low == magnitude(bits)) by {
        assert(bits >= 0x8000_0000 ==> bits & 0x7FFF_FFFF == bits - 0x8000_0000) by (bit_vector);
        assert(bits < 0x8000_0000 ==> bits & 0x7FFF_FFFF == bits) by (bit_vector);
    }
    if low > INFINITY_BITS {
        DEPTH_FLOOR
    } else if bits >= 0x8000_0000 {
        if low == INFINITY_BITS {
            DEPTH_FLOOR
        } else {
            -(low as i32)
        }
    } else {
        low as i32
    }
}

/// A larger magnitude stands for a larger absolute value.
pub proof fn lemma_size_increases(a: int, b: int)
    requires
        0 <= a < b,
    ensures
        0 <= size(a) < size(b),
{
    let k: int = 0x80_0000;
    let ea = a / k;
    let fa = a % k;
    let eb = b / k;
    let fb = b % k;
    vstd::arithmetic::div_mod::lemma_fundamental_div_mod(a, k);
    vstd::arithmetic::div_mod::lemma_fundamental_div_mod(b, k);
    assert(0 <= ea <= eb) by (nonlinear_arith)
        requires
            a == k * ea + fa,
            b == k * eb + fb,
            0 <= fa < k,
            0 <= fb < k,
            0 <= a < b,
            k == 0x80_0000,
    ;
    if ea == eb {
        if ea > 0 {
            let p = pow2((ea - 1) as nat) as int;
            lemma_pow2_pos((ea - 1) as nat);
            assert(0 <= (k + fa) * p < (k + fb) * p) by (nonlinear_arith)
                requires
                    0 <= fa < fb,
                    k > 0,
                    p > 0,
            ;
        }
    } else {
        let pb = pow2((eb - 1) as nat) as int;
        lemma_pow2_pos((eb - 1) as nat);
        assert(k * pb <= (k + fb) * pb) by (nonlinear_arith)
            requires
                0 <= fb,
                pb > 0,
        ;
        if ea == 0 {
            assert(k <= k * pb) by (nonlinear_arith)
                requires
                    k > 0,
                    pb >= 1,
            ;
        } else {
            let pa = pow2((ea - 1) as nat) as int;
            lemma_pow2_pos((ea - 1) as nat);
            lemma_pow2_unfold(ea as nat);
            if ea < eb - 1 {
                lemma_pow2_strictly_increases(ea as nat, (eb - 1) as nat);
            }
            assert(0 <= (k + fa) * pa < k * pb) by (nonlinear_arith)
                requires
                    0 <= fa < k,
                    pa > 0,
                    2 * pa <= pb,
            ;
        }
    }
}

/// Keys compare as the numbers do: of two patterns that are numbers, one
/// has the greater key exactly where it stands for the greater number.
pub proof fn lemma_depth_key_order(a: u32, b: u32)
    requires
        !is_nan(a),
        !is_nan(b),
    ensures
        depth_key_of(a) > depth_key_of(b) <==> value(a) > value(b),
{
    let ma = magnitude(a);
    let mb = magnitude(b);
    let top = INFINITY_BITS as int;
    if ma < mb {
        lemma_size_increases(ma, mb);
    }
    if mb < ma {
        lemma_size_increases(mb, ma);
    }
    if 0 < ma {
        lemma_size_increases(0, ma);
    }
    if 0 < mb {
        lemma_size_increases(0, mb);
    }
    if ma < top {
        lemma_size_increases(ma, top);
    }
    if mb < top {
        lemma_size_increases(mb, top);
    }
}

/// Nothing has a key below the floor, and only negative infinity and what
/// is not a number have the floor key itself.
pub proof fn lemma_depth_key_floor(bits: u32)
    ensures
        depth_key_of(bits) >= DEPTH_FLOOR,
        depth_key_of(bits) == DEPTH_FLOOR <==> is_nan(bits) || (is_negative(bits) && magnitude(
            bits,
        ) == INFINITY_BITS),
{
}

} // verus!
