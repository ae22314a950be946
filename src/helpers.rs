//! Pricing engine and fee arithmetic: pure functions over amounts and reserves.
use vstd::prelude::*;
use vstd::arithmetic::div_mod::lemma_fundamental_div_mod;

verus! {

/// Fee rates are expressed in parts of this denominator.
pub const MAX_PERCENT: u64 = 10_000;

/// `amount * to / from`, rounded down.
pub open spec fn quote_spec(amount: int, reserve_from: int, reserve_to: int) -> int {
    amount * reserve_to / reserve_from
}

/// What a pool with reserves `reserve_in`, `reserve_out` pays for `amount_in`,
/// holding the product of the reserves, rounded down.
pub open spec fn amount_out_spec(amount_in: int, reserve_in: int, reserve_out: int) -> int {
    amount_in * reserve_out / (reserve_in + amount_in)
}

/// What a pool asks for `amount_out`: the rounded-down price plus one unit,
/// so that rounding never works against the pool.
pub open spec fn amount_in_spec(amount_out: int, reserve_in: int, reserve_out: int) -> int {
    reserve_in * amount_out / (reserve_out - amount_out) + 1
}

/// The split `(lp, owner, total)` of the fees charged on `amount`.
/// On an input, each share is a rounded-down fraction of `amount`; on an output,
/// `amount` is already net of fees and the total is found by inverting
/// `net = gross - gross * fee / MAX_PERCENT`.
pub open spec fn fee_split(amount: int, lp_fee: int, owner_fee: int, is_input: bool) -> (int, int, int) {
    let total_fee = lp_fee + owner_fee;
    if is_input {
        (
            amount * lp_fee / MAX_PERCENT as int,
            amount * owner_fee / MAX_PERCENT as int,
            amount * total_fee / MAX_PERCENT as int,
        )
    } else if total_fee == 0 {
        (0, 0, 0)
    } else {
        let total = amount * total_fee / (MAX_PERCENT - total_fee);
        let lp = total * lp_fee / total_fee;
        (lp, total - lp, total)
    }
}

proof fn lemma_mul_div_le(a: int, b: int, d: int)
    requires
        0 <= a,
        0 <= b <= d,
        0 < d,
    ensures
        0 <= a * b / d <= a,
{
    assert(0 <= a * b <= a * d) by (nonlinear_arith)
        requires
            0 <= a,
            0 <= b <= d,
    ;
    assert(a * b / d <= a * d / d) by (nonlinear_arith)
        requires
            0 <= a * b <= a * d,
            0 < d,
    ;
    assert(a * d / d == a) by (nonlinear_arith)
        requires
            0 < d,
    ;
    assert(0 <= a * b / d) by (nonlinear_arith)
        requires
            0 <= a * b,
            0 < d,
    ;
}

proof fn lemma_u64_product(a: u64, b: u64)
    ensures
        a as int * b as int <= 0xffff_ffff_ffff_ffff * 0xffff_ffff_ffff_ffff,
        0xffff_ffff_ffff_ffff * 0xffff_ffff_ffff_ffff < 0xffff_ffff_ffff_ffff_ffff_ffff_ffff_ffff,
{
    assert(a as int * b as int <= 0xffff_ffff_ffff_ffff * 0xffff_ffff_ffff_ffff) by (nonlinear_arith)
        requires
            a <= 0xffff_ffff_ffff_ffff,
            b <= 0xffff_ffff_ffff_ffff,
    ;
}

/// Pricing of swaps: the constant-product formulas and the fee split.
pub trait HelpersModule {
    /// Converts `amount` of one side of a pool into the other side at the
    /// current ratio of the reserves.
    fn quote(&self, token_amount: u64, token_liquidity: u64, base_liquidity: u64) -> (r: u128)
        requires
            token_liquidity > 0,
        ensures
            r as int == quote_spec(token_amount as int, token_liquidity as int, base_liquidity as int),
    {
        proof {
            lemma_u64_product(token_amount, base_liquidity);
        }
        let product: u128 = token_amount as u128 * base_liquidity as u128;
        product / token_liquidity as u128
    }

    /// Constant-product output for `amount_in`, with no fee charged.
    fn get_amount_out_no_fee(&self, amount_in: u64, reserve_in: u64, reserve_out: u64) -> (r: u64)
        requires
            reserve_in + amount_in > 0,
        ensures
            r as int == amount_out_spec(amount_in as int, reserve_in as int, reserve_out as int),
            r <= reserve_out,
    {
        proof {
            lemma_u64_product(amount_in, reserve_out);
        }
        let numerator: u128 = amount_in as u128 * reserve_out as u128;
        let denominator: u128 = reserve_in as u128 + amount_in as u128;
        proof {
            lemma_mul_div_le(reserve_out as int, amount_in as int, denominator as int);
            assert(amount_in as int * reserve_out as int == reserve_out as int * amount_in as int)
                by (nonlinear_arith);
        }
        (numerator / denominator) as u64
    }

    /// Constant-product input needed for `amount_out`, with no fee charged,
    /// rounded against the trader.
    fn get_amount_in_no_fee(&self, amount_out: u64, reserve_in: u64, reserve_out: u64) -> (r: u128)
        requires
            amount_out < reserve_out,
        ensures
            r as int == amount_in_spec(amount_out as int, reserve_in as int, reserve_out as int),
    {
        proof {
            lemma_u64_product(reserve_in, amount_out);
        }
        let numerator: u128 = reserve_in as u128 * amount_out as u128;
        let denominator: u128 = (reserve_out - amount_out) as u128;
        proof {
            assert(numerator as int / denominator as int <= numerator as int) by (nonlinear_arith)
                requires
                    numerator >= 0,
                    denominator >= 1,
            ;
            assert(numerator as int <= 0xffff_ffff_ffff_ffff * 0xffff_ffff_ffff_ffff) by (nonlinear_arith)
                requires
                    numerator as int == reserve_in as int * amount_out as int,
                    reserve_in <= 0xffff_ffff_ffff_ffff,
                    amount_out <= 0xffff_ffff_ffff_ffff,
            ;
        }
        numerator / denominator + 1
    }

    /// The `(lp, owner, total)` fee amounts charged on `amount` (see `fee_split`).
    fn get_fee_amounts(&self, amount: u64, lp_fee: u64, owner_fee: u64, is_input: bool) -> (r: (u128, u128, u128))
        requires
            lp_fee + owner_fee < MAX_PERCENT,
        ensures
            (r.0 as int, r.1 as int, r.2 as int) == fee_split(amount as int, lp_fee as int, owner_fee as int, is_input),
            is_input ==> r.1 <= amount && r.2 <= amount,
            r.2 <= amount as int * MAX_PERCENT as int,
    {
        let total_fee: u64 = lp_fee + owner_fee;
        let max: u128 = MAX_PERCENT as u128;
        if is_input {
            proof {
                lemma_mul_div_le(amount as int, lp_fee as int, MAX_PERCENT as int);
                lemma_mul_div_le(amount as int, owner_fee as int, MAX_PERCENT as int);
                lemma_mul_div_le(amount as int, total_fee as int, MAX_PERCENT as int);
                assert(amount as int <= amount as int * MAX_PERCENT as int) by (nonlinear_arith);
                assert(amount as int * MAX_PERCENT as int <= 0xffff_ffff_ffff_ffff * 10000) by (nonlinear_arith)
                    requires
                        amount <= 0xffff_ffff_ffff_ffff,
                ;
                assert(amount as int * lp_fee as int <= amount as int * MAX_PERCENT as int) by (nonlinear_arith)
                    requires
                        lp_fee <= MAX_PERCENT,
                ;
                assert(amount as int * owner_fee as int <= amount as int * MAX_PERCENT as int) by (nonlinear_arith)
                    requires
                        owner_fee <= MAX_PERCENT,
                ;
                assert(amount as int * total_fee as int <= amount as int * MAX_PERCENT as int) by (nonlinear_arith)
                    requires
                        total_fee <= MAX_PERCENT,
                ;
            }
            (
                amount as u128 * lp_fee as u128 / max,
                amount as u128 * owner_fee as u128 / max,
                amount as u128 * total_fee as u128 / max,
            )
        } else if total_fee == 0 {
            (0, 0, 0)
        } else {
            proof {
                assert(amount as int * total_fee as int <= 0xffff_ffff_ffff_ffff * 10000) by (nonlinear_arith)
                    requires
                        amount <= 0xffff_ffff_ffff_ffff,
                        total_fee <= 10000,
                ;
                lemma_mul_div_le(amount as int * total_fee as int, 1, (MAX_PERCENT - total_fee) as int);
                assert(amount as int * total_fee as int * 1 == amount as int * total_fee as int);
                assert(amount as int * total_fee as int <= amount as int * MAX_PERCENT as int) by (nonlinear_arith)
                    requires
                        total_fee <= MAX_PERCENT,
                ;
            }
            let total_fee_amount: u128 = amount as u128 * total_fee as u128 / (max - total_fee as u128);
            proof {
                lemma_mul_div_le(total_fee_amount as int, lp_fee as int, total_fee as int);
                assert(total_fee_amount as int * lp_fee as int <= 0xffff_ffff_ffff_ffff * 10000 * 10000) by (nonlinear_arith)
                    requires
                        total_fee_amount <= 0xffff_ffff_ffff_ffff * 10000,
                        lp_fee <= 10000,
                ;
            }
            let lp_fee_amount: u128 = total_fee_amount * lp_fee as u128 / total_fee as u128;
            (lp_fee_amount, total_fee_amount - lp_fee_amount, total_fee_amount)
        }
    }
}

proof fn lemma_floor_bounds(a: int, b: int)
    requires
        b > 0,
    ensures
        b * (a / b) <= a < b * (a / b) + b,
{
    lemma_fundamental_div_mod(a, b);
}

/// `a / b >= k` whenever `a >= k * b`.
proof fn lemma_div_at_least(a: int, b: int, k: int)
    requires
        b > 0,
        a >= k * b,
    ensures
        a / b >= k,
{
    lemma_floor_bounds(a, b);
    let q = a / b;
    if q < k {
        assert(b * q + b <= b * k) by (nonlinear_arith)
            requires
                q + 1 <= k,
                b > 0,
        ;
        assert(k * b == b * k) by (nonlinear_arith);
    }
}

/// `a < k * b` whenever `a / b < k`.
proof fn lemma_div_below(a: int, b: int, k: int)
    requires
        b > 0,
        a / b < k,
    ensures
        a < k * b,
{
    lemma_floor_bounds(a, b);
    let q = a / b;
    assert(b * q + b <= k * b) by (nonlinear_arith)
        requires
            q + 1 <= k,
            b > 0,
    ;
}

/// A swap never drains the output reserve: for positive reserves and a
/// positive input, the output is below `reserve_out`.
pub proof fn lemma_amount_out_below_reserve(amount_in: int, reserve_in: int, reserve_out: int)
    requires
        reserve_in > 0,
        reserve_out > 0,
        amount_in > 0,
    ensures
        0 <= amount_out_spec(amount_in, reserve_in, reserve_out) < reserve_out,
{
    let a = amount_in * reserve_out;
    let b = reserve_in + amount_in;
    assert(0 <= a < reserve_out * b) by (nonlinear_arith)
        requires
            a == amount_in * reserve_out,
            b == reserve_in + amount_in,
            reserve_in > 0,
            reserve_out > 0,
            amount_in > 0,
    ;
    lemma_floor_bounds(a, b);
    if a / b >= reserve_out {
        assert(b * (a / b) >= reserve_out * b) by (nonlinear_arith)
            requires
                a / b >= reserve_out,
                b > 0,
        ;
    }
    assert(0 <= a / b) by (nonlinear_arith)
        requires
            a >= 0,
            b > 0,
    ;
}

/// The output of a swap does not decrease as the input grows.
pub proof fn lemma_amount_out_monotone(x: int, y: int, reserve_in: int, reserve_out: int)
    requires
        reserve_in > 0,
        reserve_out > 0,
        0 < x <= y,
    ensures
        amount_out_spec(x, reserve_in, reserve_out) <= amount_out_spec(y, reserve_in, reserve_out),
{
    let a = x * reserve_out;
    let b = reserve_in + x;
    let c = y * reserve_out;
    let d = reserve_in + y;
    assert(a * d <= c * b) by (nonlinear_arith)
        requires
            a == x * reserve_out,
            b == reserve_in + x,
            c == y * reserve_out,
            d == reserve_in + y,
            reserve_in > 0,
            reserve_out > 0,
            0 < x <= y,
    ;
    lemma_floor_bounds(a, b);
    let q = a / b;
    assert(q * d <= c) by (nonlinear_arith)
        requires
            b * q <= a,
            a * d <= c * b,
            b > 0,
            d > 0,
    ;
    lemma_div_at_least(c, d, q);
}

/// The fixed-output price keeps the pool whole: paying
/// `amount_in_spec(amount_out)` buys at least `amount_out`.
pub proof fn lemma_amount_in_covers_output(amount_out: int, reserve_in: int, reserve_out: int)
    requires
        reserve_in >= 0,
        0 <= amount_out < reserve_out,
    ensures
        amount_out_spec(amount_in_spec(amount_out, reserve_in, reserve_out), reserve_in, reserve_out)
            >= amount_out,
{
    let d = reserve_out - amount_out;
    let n = reserve_in * amount_out;
    assert(n >= 0) by (nonlinear_arith)
        requires
            n == reserve_in * amount_out,
            reserve_in >= 0,
            amount_out >= 0,
    ;
    lemma_floor_bounds(n, d);
    let y = n / d + 1;
    assert(n / d >= 0) by (nonlinear_arith)
        requires
            n >= 0,
            d > 0,
    ;
    assert(y * reserve_out >= amount_out * (reserve_in + y)) by (nonlinear_arith)
        requires
            d * (y - 1) <= n < d * (y - 1) + d,
            d == reserve_out - amount_out,
            n == reserve_in * amount_out,
            y >= 1,
    ;
    lemma_div_at_least(y * reserve_out, reserve_in + y, amount_out);
}

/// Round trip of the two pricing functions: asking the fixed-output price of
/// what `x` buys gives back at least `x`, for every input `x` that buys more
/// than `x - 1` does (an input past that point buys nothing extra, and the
/// price of its output may then be lower than `x`).
pub proof fn lemma_round_trip_not_profitable(x: int, reserve_in: int, reserve_out: int)
    requires
        reserve_in > 0,
        reserve_out > 0,
        x >= 0,
        x > 0 ==> amount_out_spec(x - 1, reserve_in, reserve_out) < amount_out_spec(x, reserve_in, reserve_out),
    ensures
        amount_in_spec(amount_out_spec(x, reserve_in, reserve_out), reserve_in, reserve_out) >= x,
{
    let o = amount_out_spec(x, reserve_in, reserve_out);
    if x == 0 {
        assert(0 * reserve_out == 0 && reserve_in * 0 == 0) by (nonlinear_arith);
        assert(o == 0);
        assert(amount_in_spec(0, reserve_in, reserve_out) == 1);
    } else {
        lemma_amount_out_below_reserve(x, reserve_in, reserve_out);
        let d = reserve_out - o;
        let p = x - 1;
        // what x - 1 buys is below o
        lemma_div_below(p * reserve_out, reserve_in + p, o);
        assert(p * d <= reserve_in * o) by (nonlinear_arith)
            requires
                p * reserve_out < o * (reserve_in + p),
                d == reserve_out - o,
        ;
        lemma_div_at_least(reserve_in * o, d, p);
    }
}

} // verus!
