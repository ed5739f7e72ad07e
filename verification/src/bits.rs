use vstd::prelude::*;

use crate::ast::BinOp;
use crate::semantics::binop_apply;
use crate::value::SValue;

verus! {

/// Bit `i` (0 the lowest) of the 64-bit two's-complement form of `x`.
pub open spec fn bit(x: i64, i: u64) -> bool {
    (x >> i) & 1 == 1
}

proof fn lemma_in_range(x: i64)
    ensures
        crate::arith::wrap64(x as int) == x,
{
    if x >= 0 {
        vstd::arithmetic::div_mod::lemma_small_mod(x as nat, crate::arith::two64() as nat);
    } else {
        vstd::arithmetic::div_mod::lemma_fundamental_div_mod_converse_mod(
            x as int,
            crate::arith::two64(),
            -1,
            x + crate::arith::two64(),
        );
    }
}

/// Outside `mod` blocks, `&`, `|` and `^` work bit by bit: each bit of the
/// result is the "and", "or" or "exclusive or" of that bit of the operands.
pub proof fn law_bitwise(a: i64, b: i64)
    ensures
        binop_apply(BinOp::And, SValue::Number(a), SValue::Number(b), None) matches Ok(
            SValue::Number(r),
        ) && forall|i: u64| i < 64 ==> #[trigger] bit(r, i) == (bit(a, i) && bit(b, i)),
        binop_apply(BinOp::Or, SValue::Number(a), SValue::Number(b), None) matches Ok(
            SValue::Number(r),
        ) && forall|i: u64| i < 64 ==> #[trigger] bit(r, i) == (bit(a, i) || bit(b, i)),
        binop_apply(BinOp::Xor, SValue::Number(a), SValue::Number(b), None) matches Ok(
            SValue::Number(r),
        ) && forall|i: u64| i < 64 ==> #[trigger] bit(r, i) == (bit(a, i) != bit(b, i)),
{
    lemma_in_range(a & b);
    lemma_in_range(a | b);
    lemma_in_range(a ^ b);
    assert forall|i: u64| i < 64 implies #[trigger] bit(a & b, i) == (bit(a, i) && bit(b, i)) by {
        assert((((a & b) >> i) & 1 == 1) == (((a >> i) & 1 == 1) && ((b >> i) & 1 == 1)))
            by (bit_vector)
            requires
                i < 64,
        ;
    }
    assert forall|i: u64| i < 64 implies #[trigger] bit(a | b, i) == (bit(a, i) || bit(b, i)) by {
        assert((((a | b) >> i) & 1 == 1) == (((a >> i) & 1 == 1) || ((b >> i) & 1 == 1)))
            by (bit_vector)
            requires
                i < 64,
        ;
    }
    assert forall|i: u64| i < 64 implies #[trigger] bit(a ^ b, i) == (bit(a, i) != bit(b, i)) by {
        assert((((a ^ b) >> i) & 1 == 1) == (((a >> i) & 1 == 1) != ((b >> i) & 1 == 1)))
            by (bit_vector)
            requires
                i < 64,
        ;
    }
}

/// Outside `mod` blocks, `a << k` for `k` in `0..64` moves every bit of `a`
/// `k` places up, filling with zeros; `a >> k` moves every bit `k` places
/// down, filling with the sign bit.
pub proof fn law_shifts(a: i64, k: i64)
    requires
        0 <= k < 64,
    ensures
        binop_apply(BinOp::Shl, SValue::Number(a), SValue::Number(k), None) matches Ok(
            SValue::Number(r),
        ) && forall|i: u64|
            i < 64 ==> #[trigger] bit(r, i) == (i >= k && bit(a, (i - k) as u64)),
        binop_apply(BinOp::Shr, SValue::Number(a), SValue::Number(k), None) matches Ok(
            SValue::Number(r),
        ) && forall|i: u64|
            i < 64 ==> #[trigger] bit(r, i) == bit(
                a,
                if i + k < 64 {
                    (i + k) as u64
                } else {
                    63
                },
            ),
{
    let ku = k as u64;
    let l = vstd::wrapping::i64_specs::wrapping_shl(a, k as u32);
    let h = vstd::wrapping::i64_specs::wrapping_shr(a, k as u32);
    let k32 = k as u32;
    assert(k32 % 64 == k32);
    assert(l == a << ku) by (bit_vector)
        requires
            ku < 64,
            k32 == ku,
            l == a << k32,
    ;
    assert(h == a >> ku) by (bit_vector)
        requires
            ku < 64,
            k32 == ku,
            h == a >> k32,
    ;
    lemma_in_range(l);
    lemma_in_range(h);
    assert forall|i: u64| i < 64 implies #[trigger] bit(l, i) == (i >= k && bit(a, (i - k) as u64)) by {
        let d: u64 = (i - ku) as u64;
        assert((((a << ku) >> i) & 1 == 1) == (i >= ku && ((a >> d) & 1 == 1))) by (bit_vector)
            requires
                i < 64,
                ku < 64,
                i >= ku ==> d == i - ku,
        ;
    }
    assert forall|i: u64| i < 64 implies #[trigger] bit(h, i) == bit(
        a,
        if i + k < 64 {
            (i + k) as u64
        } else {
            63
        },
    ) by {
        let j: u64 = if i + k < 64 {
            (i + k) as u64
        } else {
            63
        };
        assert((((a >> ku) >> i) & 1 == 1) == ((a >> j) & 1 == 1)) by (bit_vector)
            requires
                i < 64,
                ku < 64,
                j == (if i + ku < 64 {
                    (i + ku) as u64
                } else {
                    63
                }),
        ;
    }
}

} // verus!
