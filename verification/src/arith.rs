use vstd::prelude::*;
use vstd::arithmetic::power::{pow, lemma_pow_mod_noop};
use vstd::arithmetic::div_mod::{lemma_mul_mod_noop, lemma_mod_bound, lemma_fundamental_div_mod};

use crate::chars::{char_from_code, is_char_code};
use crate::env::{Env, top_modulus};
use crate::value::{
    EvalError, EvalResult, SError, SResult, SValue, Value, clone_values, lemma_value_views,
    result_view, value_views,
};

verus! {

/// 2 to the 64th: the number of distinct 64-bit values.
pub open spec fn two64() -> int {
    0x1_0000_0000_0000_0000
}

/// The 64-bit two's-complement value that `x` wraps to.
pub open spec fn wrap64(x: int) -> i64 {
    let r = x % two64();
    if r > i64::MAX {
        (r - two64()) as i64
    } else {
        r as i64
    }
}

/// The number that the exact result `x` of an arithmetic operation becomes:
/// outside a `mod` block it wraps to 64 bits; inside one with modulus `m` it is
/// the number congruent to `x` modulo `|m|` that has the sign of `m`: in `0..m`
/// for a positive `m`, in `m+1..=0` for a negative one.
pub open spec fn reduce(x: int, modulus: Option<i64>) -> i64 {
    match modulus {
        None => wrap64(x),
        Some(m) => floor_mod(x, m as int) as i64,
    }
}

/// A modulus context is either absent or a nonzero number.
pub open spec fn modulus_ok(modulus: Option<i64>) -> bool {
    modulus matches Some(m) ==> m != 0
}

/// The number that an arithmetic operation with exact result `x` gives:
/// `x` reduced (see [`reduce`]); inside a `mod` block with modulus 0, where
/// nothing can be reduced, an error.
pub open spec fn number_result(x: int, modulus: Option<i64>) -> SResult {
    if modulus == Some(0i64) {
        Err(SError::DivisionByZero)
    } else {
        Ok(SValue::Number(reduce(x, modulus)))
    }
}

/// `|m|`.
pub open spec fn abs_int(m: int) -> int {
    if m < 0 {
        -m
    } else {
        m
    }
}

/// Division rounding toward negative infinity.
pub open spec fn floor_div(a: int, b: int) -> int {
    if b > 0 {
        a / b
    } else {
        (-a) / (-b)
    }
}

/// The remainder that goes with [`floor_div`]: it has the sign of `b`.
pub open spec fn floor_mod(a: int, b: int) -> int {
    if b > 0 {
        a % b
    } else {
        -((-a) % (-b))
    }
}

/// `a ** e`: the power for `e > 0` and 1 for `e <= 0`, reduced as every
/// arithmetic result is (see [`reduce`]).
pub open spec fn pow_result(a: i64, e: i64, modulus: Option<i64>) -> i64 {
    reduce(
        if e <= 0 {
            1
        } else {
            pow(a as int, e as nat)
        },
        modulus,
    )
}

/// `r` is the inverse of `b` modulo `|m|`: it lies in `0..|m|` and `b * r`
/// leaves the same remainder as 1.
pub open spec fn is_inverse(b: int, r: int, m: int) -> bool {
    let d = abs_int(m);
    0 <= r < d && (b * r) % d == 1int % d
}

/// `b` has an inverse modulo `|m|`.
pub open spec fn has_inverse(b: int, m: int) -> bool {
    exists|r: int| #[trigger] is_inverse(b, r, m)
}

/// The inverse of `b` modulo `|m|`, where it has one.
pub open spec fn inverse(b: int, m: int) -> int {
    choose|r: int| #[trigger] is_inverse(b, r, m)
}

/// [`floor_mod`] by a nonzero `m` depends on `x` only through `x % |m|`.
pub proof fn lemma_floor_mod_by_rem(x: int, m: int)
    requires
        m != 0,
    ensures
        floor_mod(x, m) == (if m > 0 {
            x % m
        } else if x % (-m) == 0 {
            0
        } else {
            x % (-m) + m
        }),
        m > 0 ==> 0 <= floor_mod(x, m) < m,
        m < 0 ==> m < floor_mod(x, m) <= 0,
        floor_mod(x, m) % abs_int(m) == x % abs_int(m),
{
    let d = abs_int(m);
    lemma_fundamental_div_mod(x, d);
    lemma_mod_bound(x, d);
    let q = x / d;
    let r = x % d;
    if m > 0 {
        vstd::arithmetic::div_mod::lemma_mod_twice(x, d);
    } else {
        if r == 0 {
            assert(-x == (-q) * d + 0) by (nonlinear_arith)
                requires
                    x == d * q + r,
                    r == 0,
            ;
            vstd::arithmetic::div_mod::lemma_fundamental_div_mod_converse_mod(-x, d, -q, 0);
            assert(floor_mod(x, m) == 0);
            vstd::arithmetic::div_mod::lemma_small_mod(0, d as nat);
        } else {
            assert(-x == (-q - 1) * d + (d - r)) by (nonlinear_arith)
                requires
                    x == d * q + r,
            ;
            vstd::arithmetic::div_mod::lemma_fundamental_div_mod_converse_mod(-x, d, -q - 1, d - r);
            assert(floor_mod(x, m) == r - d);
            vstd::arithmetic::div_mod::lemma_fundamental_div_mod_converse_mod(r - d, d, -1, r);
        }
    }
}

/// Computes `x` reduced as [`reduce`] says.
pub fn reduce_exec(x: i128, modulus: Option<i64>) -> (r: i64)
    requires
        modulus_ok(modulus),
    ensures
        r == reduce(x as int, modulus),
{
    match modulus {
        None => {
            let m: i128 = 0x1_0000_0000_0000_0000i128;
            let r = x.checked_rem_euclid(m).unwrap();
            if r > 0x7fff_ffff_ffff_ffffi128 {
                (r - m) as i64
            } else {
                r as i64
            }
        },
        Some(m) => {
            let am: i128 = if m < 0 {
                0 - (m as i128)
            } else {
                m as i128
            };
            let r = x.checked_rem_euclid(am).unwrap();
            proof {
                lemma_mod_bound(x as int, am as int);
                lemma_floor_mod_by_rem(x as int, m as int);
            }
            if m < 0 && r != 0 {
                (r - am) as i64
            } else {
                r as i64
            }
        },
    }
}

/// The number `x` gives in modulus context `modulus`; see [`number_result`].
pub fn number_exec(x: i128, modulus: Option<i64>) -> (r: EvalResult)
    ensures
        result_view(r) == number_result(x as int, modulus),
{
    match modulus {
        Some(0) => Err(EvalError::DivisionByZero),
        _ => Ok(Value::Number(reduce_exec(x, modulus))),
    }
}

proof fn lemma_pow_step_even(b: int, k: nat, m: int)
    requires
        m > 0,
        k % 2 == 0,
    ensures
        pow(b, k) % m == pow((b * b) % m, k / 2) % m,
{
    vstd::arithmetic::power::lemma_pow_multiplies(b, 2, k / 2);
    vstd::arithmetic::power::lemma_square_is_pow2(b);
    assert(2 * (k / 2) == k);
    lemma_pow_mod_noop(b * b, k / 2, m);
}

proof fn lemma_pow_step_odd(b: int, k: nat, m: int)
    requires
        m > 0,
        k % 2 == 1,
    ensures
        pow(b, k) == b * pow(b, (k - 1) as nat),
        ((k - 1) as nat) % 2 == 0,
{
    reveal(pow);
}

/// Square-and-multiply: `b ** e` modulo `m`, for `b < m <= 2**64`.
fn pow_mod_nonneg(b: u128, e: u64, m: u128) -> (r: u128)
    requires
        0 < m <= two64(),
        b < m,
    ensures
        r == pow(b as int, e as nat) % (m as int),
        r < m,
{
    let mut base: u128 = b;
    let mut k: u64 = e;
    let mut acc: u128 = 1 % m;
    proof {
        vstd::arithmetic::div_mod::lemma_mul_mod_noop_left(1, pow(b as int, e as nat), m as int);
    }
    while k > 0
        invariant
            0 < m <= two64(),
            base < m,
            acc < m,
            (acc * pow(base as int, k as nat)) % (m as int) == pow(b as int, e as nat) % (m as int),
        decreases k,
    {
        let ghost k0 = k as nat;
        let ghost base0 = base as int;
        let ghost acc0 = acc as int;
        if k % 2 == 1 {
            assert(acc * base < m * m) by (nonlinear_arith)
                requires
                    acc < m,
                    base < m,
            ;
            assert(m * m <= two64() * two64()) by (nonlinear_arith)
                requires
                    m <= two64(),
            ;
            let na = (acc * base) % m;
            proof {
                lemma_pow_step_odd(base0, k0, m as int);
                let p = pow(base0, (k0 - 1) as nat);
                assert(acc0 * (base0 * p) == (acc0 * base0) * p) by (nonlinear_arith);
                lemma_mul_mod_noop(acc0 * base0, p, m as int);
                lemma_mul_mod_noop(na as int, p, m as int);
                vstd::arithmetic::div_mod::lemma_small_mod(na as nat, m as nat);
                assert((acc0 * base0) % (m as int) == na);
            }
            acc = na;
            k = k - 1;
        }
        let ghost k1 = k as nat;
        let ghost acc1 = acc as int;
        assert(k1 % 2 == 0);
        assert(base * base < m * m) by (nonlinear_arith)
            requires
                base < m,
        ;
        assert(m * m <= two64() * two64()) by (nonlinear_arith)
            requires
                m <= two64(),
        ;
        let nb = (base * base) % m;
        proof {
            lemma_pow_step_even(base0, k1, m as int);
            let p = pow(base0, k1);
            let q = pow(nb as int, k1 / 2);
            lemma_mul_mod_noop(acc1, p, m as int);
            lemma_mul_mod_noop(acc1, q, m as int);
            assert((acc1 * p) % (m as int) == (acc1 * q) % (m as int));
        }
        base = nb;
        k = k / 2;
    }
    proof {
        reveal(pow);
        assert(pow(base as int, 0) == 1);
        vstd::arithmetic::div_mod::lemma_small_mod(acc as nat, m as nat);
    }
    acc
}

/// Computes `a ** e` as [`pow_result`] says.
pub fn pow_exec(a: i64, e: i64, modulus: Option<i64>) -> (r: i64)
    requires
        modulus_ok(modulus),
    ensures
        r == pow_result(a, e, modulus),
{
    if e <= 0 {
        return reduce_exec(1, modulus);
    }
    match modulus {
        None => {
            let mm: i128 = 0x1_0000_0000_0000_0000i128;
            let b = (a as i128).checked_rem_euclid(mm).unwrap();
            proof {
                lemma_mod_bound(a as int, mm as int);
            }
            let r = pow_mod_nonneg(b as u128, e as u64, mm as u128);
            proof {
                lemma_pow_mod_noop(a as int, e as nat, two64());
                let p = pow(a as int, e as nat);
                vstd::arithmetic::div_mod::lemma_mod_twice(p, two64());
            }
            if r > 0x7fff_ffff_ffff_ffffu128 {
                ((r as i128) - mm) as i64
            } else {
                r as i64
            }
        },
        Some(m) => {
            let am: i128 = if m < 0 {
                0 - (m as i128)
            } else {
                m as i128
            };
            let b = (a as i128).checked_rem_euclid(am).unwrap();
            proof {
                lemma_mod_bound(a as int, am as int);
            }
            let r = pow_mod_nonneg(b as u128, e as u64, am as u128);
            proof {
                lemma_pow_mod_noop(a as int, e as nat, am as int);
                lemma_floor_mod_by_rem(pow(a as int, e as nat), m as int);
                lemma_floor_mod_by_rem(r as int, m as int);
                vstd::arithmetic::div_mod::lemma_small_mod(r as nat, am as nat);
            }
            reduce_exec(r as i128, modulus)
        },
    }
}

/// An inverse modulo `|m|` is unique.
pub proof fn lemma_inverse_unique(b: int, x: int, y: int, m: int)
    requires
        is_inverse(b, x, m),
        is_inverse(b, y, m),
    ensures
        x == y,
{
    let d = abs_int(m);
    if d > 1 {
        vstd::arithmetic::div_mod::lemma_small_mod(1, d as nat);
        vstd::arithmetic::div_mod::lemma_small_mod(x as nat, d as nat);
        vstd::arithmetic::div_mod::lemma_small_mod(y as nat, d as nat);
        vstd::arithmetic::div_mod::lemma_mul_mod_noop_right(x, b * y, d);
        assert(x * 1 == x);
        vstd::arithmetic::div_mod::lemma_mul_mod_noop_left(x * b, y, d);
        assert(x * b == b * x) by (nonlinear_arith);
        assert(1 * y == y);
        assert(x * (b * y) == (x * b) * y) by (nonlinear_arith);
    }
}

proof fn lemma_euclid_forward(
    old_r: int,
    r: int,
    nr: int,
    q: int,
    old_s: int,
    s: int,
    ns: int,
    k: int,
    old_t: int,
    t: int,
    bb: int,
    d: int,
)
    requires
        old_r == old_s * bb + old_t * d,
        r == s * bb + t * d,
        nr == old_r - q * r,
        old_s - q * s == d * k + ns,
    ensures
        nr == ns * bb + (k * bb + old_t - q * t) * d,
{
    assert(q * r == (q * s) * bb + (q * t) * d) by (nonlinear_arith)
        requires
            r == s * bb + t * d,
    ;
    assert((old_s - q * s) * bb == old_s * bb - (q * s) * bb) by (nonlinear_arith);
    assert((d * k + ns) * bb == (k * bb) * d + ns * bb) by (nonlinear_arith);
    assert((k * bb + old_t - q * t) * d == (k * bb) * d + old_t * d - (q * t) * d) by (nonlinear_arith);
}

proof fn lemma_euclid_backward(x: int, a1: int, a2: int, old_r: int, r: int, q: int, nr: int)
    by (nonlinear_arith)
    requires
        x == a1 * old_r + a2 * r,
        old_r == q * r + nr,
    ensures
        x == (a1 * q + a2) * r + a1 * nr,
{
}

/// The inverse of `b` modulo `|m|`, by the extended Euclidean algorithm;
/// `None` when there is none (when `b` and `m` have a common factor).
pub fn mod_inverse(b: i64, m: i64) -> (r: Option<i64>)
    requires
        m != 0,
    ensures
        match r {
            Some(x) => is_inverse(b as int, x as int, m as int),
            None => !has_inverse(b as int, m as int),
        },
{
    let d: i128 = if m < 0 {
        0 - (m as i128)
    } else {
        m as i128
    };
    let bb = (b as i128).checked_rem_euclid(d).unwrap();
    let one = 1i128.checked_rem_euclid(d).unwrap();
    proof {
        lemma_mod_bound(b as int, d as int);
        lemma_mod_bound(1, d as int);
    }
    // `old_r` and `r` run through the remainders of Euclid's algorithm on
    // `d` and `bb`; each is `s * bb + t * d` for its coefficients (`s` kept
    // modulo `d`). The ghost `a1, a2` and `c1, c2` write `bb` and `d` in terms
    // of `old_r` and `r`, so at the end `old_r` divides both.
    let mut old_r: i128 = d;
    let mut r: i128 = bb;
    let mut old_s: i128 = 0;
    let mut s: i128 = one;
    let ghost mut old_t: int = 1;
    let ghost mut t: int = 0;
    let ghost mut a1: int = 0;
    let ghost mut a2: int = 1;
    let ghost mut c1: int = 1;
    let ghost mut c2: int = 0;
    proof {
        if d == 1 {
            assert(one == 0);
            assert(bb == 0);
        } else {
            vstd::arithmetic::div_mod::lemma_small_mod(1, d as nat);
        }
        assert(r == s * bb + t * d) by (nonlinear_arith)
            requires
                r == bb,
                t == 0,
                s == 1 || bb == 0,
                d == 1 ==> bb == 0 && s == 0,
                d != 1 ==> s == 1,
        ;
    }
    while r > 0
        invariant
            1 <= d <= 0x8000_0000_0000_0000,
            d == abs_int(m as int),
            bb == (b as int) % (d as int),
            0 <= bb < d,
            0 <= r < old_r <= d,
            0 <= old_s < d,
            0 <= s < d,
            old_r == old_s * bb + old_t * d,
            r == s * bb + t * d,
            bb == a1 * old_r + a2 * r,
            d == c1 * old_r + c2 * r,
        decreases r,
    {
        let q = old_r.checked_div_euclid(r).unwrap();
        let nr = old_r.checked_rem_euclid(r).unwrap();
        proof {
            lemma_fundamental_div_mod(old_r as int, r as int);
            lemma_mod_bound(old_r as int, r as int);
            assert(0 <= q <= old_r) by (nonlinear_arith)
                requires
                    old_r == r * q + nr,
                    0 <= nr < r,
                    r >= 1,
                    old_r >= 0,
            ;
            assert(0 <= q * s <= d * d) by (nonlinear_arith)
                requires
                    0 <= q <= d,
                    0 <= s < d,
            ;
            assert(d * d <= 0x4000_0000_0000_0000_0000_0000_0000_0000) by (nonlinear_arith)
                requires
                    1 <= d <= 0x8000_0000_0000_0000,
            ;
        }
        let diff = old_s - q * s;
        let ns = diff.checked_rem_euclid(d).unwrap();
        let ghost k = (diff as int) / (d as int);
        proof {
            lemma_fundamental_div_mod(diff as int, d as int);
            lemma_mod_bound(diff as int, d as int);
            assert(old_r == q * r + nr) by (nonlinear_arith)
                requires
                    old_r == r * q + nr,
            ;
            lemma_euclid_forward(
                old_r as int,
                r as int,
                nr as int,
                q as int,
                old_s as int,
                s as int,
                ns as int,
                k,
                old_t,
                t,
                bb as int,
                d as int,
            );
            lemma_euclid_backward(bb as int, a1, a2, old_r as int, r as int, q as int, nr as int);
            lemma_euclid_backward(d as int, c1, c2, old_r as int, r as int, q as int, nr as int);
            let nt = k * bb + old_t - q * t;
            let na1 = a1 * q + a2;
            let nc1 = c1 * q + c2;
            old_t = t;
            t = nt;
            a2 = a1;
            a1 = na1;
            c2 = c1;
            c1 = nc1;
        }
        old_r = r;
        r = nr;
        old_s = s;
        s = ns;
    }
    if old_r == 1 {
        proof {
            vstd::arithmetic::div_mod::lemma_mul_mod_noop_left(b as int, old_s as int, d as int);
            assert(bb * old_s == d * (-old_t) + 1) by (nonlinear_arith)
                requires
                    1 == old_s * bb + old_t * d,
            ;
            vstd::arithmetic::div_mod::lemma_mod_multiples_vanish(-old_t, 1, d as int);
        }
        Some(old_s as i64)
    } else {
        proof {
            assert(a2 * r == 0 && c2 * r == 0) by (nonlinear_arith)
                requires
                    r == 0,
            ;
            assert forall|x: int| !is_inverse(b as int, x, m as int) by {
                if is_inverse(b as int, x, m as int) {
                    assert(old_r >= 2);
                    assert(bb == a1 * old_r);
                    assert(d == c1 * old_r);
                    assert(d >= 2) by (nonlinear_arith)
                        requires
                            d == c1 * old_r,
                            old_r >= 2,
                            d >= 1,
                    ;
                    vstd::arithmetic::div_mod::lemma_small_mod(1, d as nat);
                    vstd::arithmetic::div_mod::lemma_mul_mod_noop_left(b as int, x, d as int);
                    let kk = (bb * x) / (d as int);
                    lemma_fundamental_div_mod(bb * x, d as int);
                    let n = a1 * x - c1 * kk;
                    assert(old_r * n == 1) by (nonlinear_arith)
                        requires
                            bb * x == d * kk + 1,
                            bb == a1 * old_r,
                            d == c1 * old_r,
                            n == a1 * x - c1 * kk,
                    ;
                    assert(false) by (nonlinear_arith)
                        requires
                            old_r >= 2,
                            old_r * n == 1,
                    ;
                }
            }
        }
        None
    }
}

/// `n` copies of `s` one after another; empty when `n <= 0`.
pub open spec fn repeat(s: Seq<SValue>, n: int) -> Seq<SValue>
    decreases n,
{
    if n <= 0 {
        Seq::empty()
    } else {
        repeat(s, n - 1) + s
    }
}

pub open spec fn unsupported(op: Seq<char>) -> SError {
    SError::TypeError(op)
}

/// `l + r`: numbers add; arrays concatenate; an array and another value give
/// the array with the value added at that end; a character plus a number is
/// the character that many code points further.
pub open spec fn add_spec(l: SValue, r: SValue, modulus: Option<i64>) -> SResult {
    match (l, r) {
        (SValue::Number(a), SValue::Number(b)) => number_result(a + b, modulus),
        (SValue::Array(a), SValue::Array(b)) => Ok(SValue::Array(a + b)),
        (SValue::Array(a), b) => Ok(SValue::Array(a.push(b))),
        (b, SValue::Array(a)) => Ok(SValue::Array(seq![b] + a)),
        (SValue::Char(c), SValue::Number(n)) => if is_char_code(c as int + n) {
            Ok(SValue::Char((c as int + n) as char))
        } else {
            Err(unsupported("unsupported types for `+`"@))
        },
        _ => Err(unsupported("unsupported types for `+`"@)),
    }
}

/// `l - r`: numbers subtract; two characters give the distance of their codes.
pub open spec fn sub_spec(l: SValue, r: SValue, modulus: Option<i64>) -> SResult {
    match (l, r) {
        (SValue::Number(a), SValue::Number(b)) => number_result(a - b, modulus),
        (SValue::Char(a), SValue::Char(b)) => number_result(a as int - b as int, modulus),
        _ => Err(unsupported("unsupported types for `-`"@)),
    }
}

/// `l * r`: numbers multiply; an array and a number `n` give the array repeated `n` times.
pub open spec fn mul_spec(l: SValue, r: SValue, modulus: Option<i64>) -> SResult {
    match (l, r) {
        (SValue::Number(a), SValue::Number(b)) => number_result(a * b, modulus),
        (SValue::Array(a), SValue::Number(b)) => Ok(SValue::Array(repeat(a, b as int))),
        (SValue::Number(b), SValue::Array(a)) => Ok(SValue::Array(repeat(a, b as int))),
        _ => Err(unsupported("unsupported types for `*`"@)),
    }
}

/// `l % r`: the remainder of floor division, with the sign of `r`.
pub open spec fn rem_spec(l: SValue, r: SValue, modulus: Option<i64>) -> SResult {
    match (l, r) {
        (SValue::Number(a), SValue::Number(b)) => if b == 0 {
            Err(SError::DivisionByZero)
        } else {
            number_result(floor_mod(a as int, b as int), modulus)
        },
        _ => Err(unsupported("unsupported types for `%`"@)),
    }
}

/// `l / r`: floor division outside a `mod` block. Inside one with modulus `m`,
/// `l` times the inverse of `r` modulo `|m|`; an error where `r` has none.
pub open spec fn div_spec(l: SValue, r: SValue, modulus: Option<i64>) -> SResult {
    match (l, r) {
        (SValue::Number(a), SValue::Number(b)) => match modulus {
            None => if b == 0 {
                Err(SError::DivisionByZero)
            } else {
                Ok(SValue::Number(wrap64(floor_div(a as int, b as int))))
            },
            Some(m) => if has_inverse(b as int, m as int) {
                Ok(SValue::Number(reduce(a * inverse(b as int, m as int), modulus)))
            } else {
                Err(SError::DivisionByZero)
            },
        },
        _ => Err(unsupported("unsupported types for `/`"@)),
    }
}

/// `l ** r`, see [`pow_result`].
pub open spec fn pow_spec(l: SValue, r: SValue, modulus: Option<i64>) -> SResult {
    match (l, r) {
        (SValue::Number(a), SValue::Number(b)) => number_result(
            if b <= 0 {
                1
            } else {
                pow(a as int, b as nat)
            },
            modulus,
        ),
        _ => Err(unsupported("unsupported types for `**`"@)),
    }
}

/// `l ^ r`, `l & r`, `l | r` on numbers.
pub open spec fn bit_spec(l: SValue, r: SValue, modulus: Option<i64>, op: crate::ast::BinOp) -> SResult {
    match (l, r) {
        (SValue::Number(a), SValue::Number(b)) => number_result(
            match op {
                crate::ast::BinOp::Xor => (a ^ b) as int,
                crate::ast::BinOp::And => (a & b) as int,
                _ => (a | b) as int,
            },
            modulus,
        ),
        _ => Err(
            unsupported(
                match op {
                    crate::ast::BinOp::Xor => "unsupported types for `^`"@,
                    crate::ast::BinOp::And => "unsupported types for `&`"@,
                    _ => "unsupported types for `|`"@,
                },
            ),
        ),
    }
}

/// `l << r` and `l >> r` (arithmetic) on numbers, for a shift in `0..64`.
pub open spec fn shift_spec(l: SValue, r: SValue, modulus: Option<i64>, left: bool) -> SResult {
    match (l, r) {
        (SValue::Number(a), SValue::Number(b)) => if 0 <= b < 64 {
            number_result(
                if left {
                    vstd::wrapping::i64_specs::wrapping_shl(a, b as u32) as int
                } else {
                    vstd::wrapping::i64_specs::wrapping_shr(a, b as u32) as int
                },
                modulus,
            )
        } else {
            Err(unsupported("shift amount out of range"@))
        },
        _ => Err(
            unsupported(
                if left {
                    "unsupported types for `<<`"@
                } else {
                    "unsupported types for `>>`"@
                },
            ),
        ),
    }
}

proof fn lemma_views_concat(a: Seq<Value>, b: Seq<Value>)
    ensures
        value_views(a + b) == value_views(a) + value_views(b),
{
    lemma_value_views(a);
    lemma_value_views(b);
    lemma_value_views(a + b);
    assert(value_views(a + b) =~= value_views(a) + value_views(b));
}

impl Env {
    /// The modulus context of this scope.
    pub open spec fn context(&self) -> Option<i64> {
        top_modulus(self@.modulus)
    }

    /// `num` reduced by the innermost open modulus, if any.
    pub fn modded(&self, num: i64) -> (r: i64)
        requires
            modulus_ok(self.context()),
        ensures
            r == reduce(num as int, self.context()),
            self.context() is None ==> r == num,
    {
        let m = self.current_modulus();
        let r = reduce_exec(num as i128, m);
        proof {
            if m is None {
                if num < 0 {
                    vstd::arithmetic::div_mod::lemma_fundamental_div_mod_converse_mod(
                        num as int,
                        two64(),
                        -1,
                        num as int + two64(),
                    );
                } else {
                    vstd::arithmetic::div_mod::lemma_small_mod(num as nat, two64() as nat);
                }
            }
        }
        r
    }

    /// `lhs + rhs`, see [`add_spec`].
    pub fn add(&self, lhs: Value, rhs: Value) -> (r: EvalResult)
        ensures
            result_view(r) == add_spec(lhs@, rhs@, self.context()),
    {
        let m = self.current_modulus();
        match (lhs, rhs) {
            (Value::Number(a), Value::Number(b)) => number_exec(a as i128 + b as i128, m),
            (Value::Array(mut a), Value::Array(mut b)) => {
                proof {
                    lemma_views_concat(a@, b@);
                }
                a.append(&mut b);
                Ok(Value::Array(a))
            },
            (Value::Array(mut a), b) => {
                proof {
                    lemma_views_concat(a@, seq![b]);
                    lemma_value_views(seq![b]);
                    assert(value_views(seq![b]) =~= seq![b@]);
                    assert(a@ + seq![b] =~= a@.push(b));
                    assert(value_views(a@) + seq![b@] =~= value_views(a@).push(b@));
                }
                a.push(b);
                Ok(Value::Array(a))
            },
            (b, Value::Array(mut a)) => {
                let ghost old_a = a@;
                proof {
                    lemma_views_concat(seq![b], a@);
                    lemma_value_views(seq![b]);
                    assert(value_views(seq![b]) =~= seq![b@]);
                    assert(seq![b] + a@ =~= a@.insert(0, b));
                }
                let ghost bv = b@;
                a.insert(0, b);
                assert(value_views(a@) == seq![bv] + value_views(old_a));
                Ok(Value::Array(a))
            },
            (Value::Char(c), Value::Number(n)) => {
                let code = c as u32 as i64;
                if n >= 0 - 0x10FFFF && n <= 0x10FFFF && code + n >= 0 {
                    match char_from_code((code + n) as u32) {
                        Some(d) => Ok(Value::Char(d)),
                        None => Err(EvalError::TypeError("unsupported types for `+`")),
                    }
                } else {
                    Err(EvalError::TypeError("unsupported types for `+`"))
                }
            },
            _ => Err(EvalError::TypeError("unsupported types for `+`")),
        }
    }
    /// `lhs - rhs`, see [`sub_spec`].
    pub fn sub(&self, lhs: Value, rhs: Value) -> (r: EvalResult)
        ensures
            result_view(r) == sub_spec(lhs@, rhs@, self.context()),
    {
        let m = self.current_modulus();
        match (lhs, rhs) {
            (Value::Number(a), Value::Number(b)) => number_exec(a as i128 - b as i128, m),
            (Value::Char(a), Value::Char(b)) => number_exec(a as u32 as i128 - b as u32 as i128, m),
            _ => Err(EvalError::TypeError("unsupported types for `-`")),
        }
    }

    /// `lhs * rhs`, see [`mul_spec`].
    pub fn mul(&self, lhs: Value, rhs: Value) -> (r: EvalResult)
        ensures
            result_view(r) == mul_spec(lhs@, rhs@, self.context()),
    {
        let m = self.current_modulus();
        match (lhs, rhs) {
            (Value::Number(a), Value::Number(b)) => number_exec(mul_wide(a, b), m),
            (Value::Array(a), Value::Number(b)) => Ok(Value::Array(repeat_exec(&a, b))),
            (Value::Number(b), Value::Array(a)) => Ok(Value::Array(repeat_exec(&a, b))),
            _ => Err(EvalError::TypeError("unsupported types for `*`")),
        }
    }

    /// `lhs % rhs`, see [`rem_spec`].
    pub fn rem(&self, lhs: Value, rhs: Value) -> (r: EvalResult)
        ensures
            result_view(r) == rem_spec(lhs@, rhs@, self.context()),
    {
        let m = self.current_modulus();
        match (lhs, rhs) {
            (Value::Number(a), Value::Number(b)) => {
                if b == 0 {
                    return Err(EvalError::DivisionByZero);
                }
                number_exec(floor_mod_exec(a, b), m)
            },
            _ => Err(EvalError::TypeError("unsupported types for `%`")),
        }
    }

    /// `lhs / rhs`, see [`div_spec`].
    pub fn div(&self, lhs: Value, rhs: Value) -> (r: EvalResult)
        ensures
            result_view(r) == div_spec(lhs@, rhs@, self.context()),
    {
        let m = self.current_modulus();
        match (lhs, rhs) {
            (Value::Number(a), Value::Number(b)) => match m {
                None => {
                    if b == 0 {
                        return Err(EvalError::DivisionByZero);
                    }
                    Ok(Value::Number(reduce_exec(floor_div_exec(a, b), None)))
                },
                Some(0) => {
                    assert(!has_inverse(b as int, 0));
                    Err(EvalError::DivisionByZero)
                },
                Some(md) => match mod_inverse(b, md) {
                    Some(x) => {
                        proof {
                            assert(has_inverse(b as int, md as int));
                            lemma_inverse_unique(
                                b as int,
                                x as int,
                                inverse(b as int, md as int),
                                md as int,
                            );
                        }
                        number_exec(mul_wide(a, x), m)
                    },
                    None => Err(EvalError::DivisionByZero),
                },
            },
            _ => Err(EvalError::TypeError("unsupported types for `/`")),
        }
    }

    /// `lhs ** rhs`, see [`pow_spec`].
    pub fn pow(&self, lhs: Value, rhs: Value) -> (r: EvalResult)
        ensures
            result_view(r) == pow_spec(lhs@, rhs@, self.context()),
    {
        let m = self.current_modulus();
        match (lhs, rhs) {
            (Value::Number(a), Value::Number(b)) => {
                if m == Some(0i64) {
                    return Err(EvalError::DivisionByZero);
                }
                Ok(Value::Number(pow_exec(a, b, m)))
            },
            _ => Err(EvalError::TypeError("unsupported types for `**`")),
        }
    }

    /// `lhs ^ rhs`, see [`bit_spec`].
    pub fn xor(&self, lhs: Value, rhs: Value) -> (r: EvalResult)
        ensures
            result_view(r) == bit_spec(lhs@, rhs@, self.context(), crate::ast::BinOp::Xor),
    {
        let m = self.current_modulus();
        match (lhs, rhs) {
            (Value::Number(a), Value::Number(b)) => number_exec((a ^ b) as i128, m),
            _ => Err(EvalError::TypeError("unsupported types for `^`")),
        }
    }

    /// `lhs & rhs`, see [`bit_spec`].
    pub fn and(&self, lhs: Value, rhs: Value) -> (r: EvalResult)
        ensures
            result_view(r) == bit_spec(lhs@, rhs@, self.context(), crate::ast::BinOp::And),
    {
        let m = self.current_modulus();
        match (lhs, rhs) {
            (Value::Number(a), Value::Number(b)) => number_exec((a & b) as i128, m),
            _ => Err(EvalError::TypeError("unsupported types for `&`")),
        }
    }

    /// `lhs | rhs`, see [`bit_spec`].
    pub fn or(&self, lhs: Value, rhs: Value) -> (r: EvalResult)
        ensures
            result_view(r) == bit_spec(lhs@, rhs@, self.context(), crate::ast::BinOp::Or),
    {
        let m = self.current_modulus();
        match (lhs, rhs) {
            (Value::Number(a), Value::Number(b)) => number_exec((a | b) as i128, m),
            _ => Err(EvalError::TypeError("unsupported types for `|`")),
        }
    }

    /// `lhs << rhs` (`left`) or `lhs >> rhs`, see [`shift_spec`].
    pub fn shift(&self, lhs: Value, rhs: Value, left: bool) -> (r: EvalResult)
        ensures
            result_view(r) == shift_spec(lhs@, rhs@, self.context(), left),
    {
        let m = self.current_modulus();
        match (lhs, rhs) {
            (Value::Number(a), Value::Number(b)) => {
                if b < 0 || b >= 64 {
                    return Err(EvalError::TypeError("shift amount out of range"));
                }
                let x = if left {
                    a.wrapping_shl(b as u32)
                } else {
                    a.wrapping_shr(b as u32)
                };
                number_exec(x as i128, m)
            },
            _ => Err(
                EvalError::TypeError(
                    if left {
                        "unsupported types for `<<`"
                    } else {
                        "unsupported types for `>>`"
                    },
                ),
            ),
        }
    }

    /// `-num`, reduced by the innermost open modulus; see [`number_result`].
    pub fn neg(&self, num: i64) -> (r: EvalResult)
        ensures
            result_view(r) == number_result(-num, self.context()),
    {
        let m = self.current_modulus();
        number_exec(0 - num as i128, m)
    }

    /// `!num`: 1 when `num` is 0, else 0.
    pub fn not(&self, num: i64) -> (r: EvalResult)
        ensures
            result_view(r) == Ok::<SValue, SError>(SValue::Number(if num == 0 { 1 } else { 0 })),
    {
        Ok(Value::Number(if num == 0 { 1 } else { 0 }))
    }
}

/// The exact product of two 64-bit numbers.
fn mul_wide(a: i64, b: i64) -> (r: i128)
    ensures
        r == a as int * b as int,
{
    assert(-0x8000_0000_0000_0000_0000_0000_0000_0000 < (a as int) * (b as int)
        < 0x7fff_ffff_ffff_ffff_ffff_ffff_ffff_ffff) by (nonlinear_arith)
        requires
            i64::MIN <= a <= i64::MAX,
            i64::MIN <= b <= i64::MAX,
    ;
    a as i128 * b as i128
}

proof fn lemma_div_bounded(x: int, d: int)
    requires
        d > 0,
        -0x1_0000_0000_0000_0000 <= x <= 0x1_0000_0000_0000_0000,
    ensures
        -0x1_0000_0000_0000_0000 <= x / d <= 0x1_0000_0000_0000_0000,
{
    lemma_fundamental_div_mod(x, d);
    lemma_mod_bound(x, d);
    let q = x / d;
    let r = x % d;
    assert(-0x1_0000_0000_0000_0000 <= q <= 0x1_0000_0000_0000_0000) by (nonlinear_arith)
        requires
            d > 0,
            x == d * q + r,
            0 <= r < d,
            -0x1_0000_0000_0000_0000 <= x <= 0x1_0000_0000_0000_0000,
    ;
}

/// `a` divided by `b`, rounded toward negative infinity.
fn floor_div_exec(a: i64, b: i64) -> (r: i128)
    requires
        b != 0,
    ensures
        r == floor_div(a as int, b as int),
{
    proof {
        if b > 0 {
            lemma_div_bounded(a as int, b as int);
        } else {
            lemma_div_bounded(-a, -b);
        }
    }
    if b > 0 {
        (a as i128).checked_div_euclid(b as i128).unwrap()
    } else {
        (0 - a as i128).checked_div_euclid(0 - b as i128).unwrap()
    }
}

/// The remainder of `a` by `b` with the sign of `b`.
fn floor_mod_exec(a: i64, b: i64) -> (r: i128)
    requires
        b != 0,
    ensures
        r == floor_mod(a as int, b as int),
{
    if b > 0 {
        (a as i128).checked_rem_euclid(b as i128).unwrap()
    } else {
        0 - (0 - a as i128).checked_rem_euclid(0 - b as i128).unwrap()
    }
}

/// `a` repeated `n` times.
fn repeat_exec(a: &Vec<Value>, n: i64) -> (r: Vec<Value>)
    ensures
        value_views(r@) == repeat(value_views(a@), n as int),
{
    let mut res: Vec<Value> = Vec::new();
    let mut i: i64 = 0;
    while i < n
        invariant
            0 <= i,
            n >= 0 ==> i <= n,
            n < 0 ==> i == 0,
            value_views(res@) == repeat(value_views(a@), i as int),
        decreases n - i,
    {
        let mut c = clone_values(a);
        proof {
            lemma_views_concat(res@, c@);
        }
        res.append(&mut c);
        i += 1;
        assert(repeat(value_views(a@), i as int) == repeat(value_views(a@), i - 1) + value_views(a@));
    }
    proof {
        if n <= 0 {
            assert(repeat(value_views(a@), n as int) == Seq::<SValue>::empty());
            assert(repeat(value_views(a@), 0) == Seq::<SValue>::empty());
        }
    }
    res
}

} // verus!
