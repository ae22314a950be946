//! Fee-aware swap arithmetic against one pool. A fee is charged in the base
//! token: on the input when the input is the base token (`fee_in`), else on
//! the output. The operator's share leaves the pool; the liquidity providers'
//! share and any rounding remainder stay in it.
use vstd::prelude::*;
use crate::config::DexError;
use crate::helpers::{
    HelpersModule, MAX_PERCENT, amount_in_spec, amount_out_spec, fee_split,
    lemma_amount_out_below_reserve,
};

verus! {

/// Result of a swap against a pool.
#[derive(Clone, Copy, Debug, PartialEq, Eq, Structural)]
pub struct SwapOutcome {
    /// The output paid for a fixed input, or the input asked for a fixed output.
    pub amount: u64,
    pub new_liquidity_in: u64,
    pub new_liquidity_out: u64,
    /// The operator's fee: in the input token when the fee is charged on the
    /// input, else in the output token.
    pub owner_fee: u64,
}

/// `(amount, new_liquidity_in, new_liquidity_out, owner_fee)` of a swap of a
/// fixed input.
pub open spec fn fixed_input_outcome(
    amount_in: int,
    liquidity_in: int,
    liquidity_out: int,
    lp_fee: int,
    owner_fee: int,
    fee_in: bool,
) -> (int, int, int, int) {
    if fee_in {
        let f = fee_split(amount_in, lp_fee, owner_fee, true);
        let out = amount_out_spec(amount_in - f.2, liquidity_in, liquidity_out);
        (out, liquidity_in + amount_in - f.1, liquidity_out - out, f.1)
    } else {
        let gross = amount_out_spec(amount_in, liquidity_in, liquidity_out);
        let f = fee_split(gross, lp_fee, owner_fee, true);
        let out = gross - f.2;
        (out, liquidity_in + amount_in, liquidity_out - out - f.1, f.1)
    }
}

/// The output that a swap of a fixed output takes from the pool before fees
/// on the output are added; the pool must hold more than this.
pub open spec fn fixed_output_gross(amount_out: int, lp_fee: int, owner_fee: int, fee_in: bool) -> int {
    if fee_in {
        amount_out
    } else {
        amount_out + fee_split(amount_out, lp_fee, owner_fee, false).2
    }
}

/// `(amount, new_liquidity_in, new_liquidity_out, owner_fee)` of a swap of a
/// fixed output.
pub open spec fn fixed_output_outcome(
    amount_out: int,
    liquidity_in: int,
    liquidity_out: int,
    lp_fee: int,
    owner_fee: int,
    fee_in: bool,
) -> (int, int, int, int) {
    if fee_in {
        let net_in = amount_in_spec(amount_out, liquidity_in, liquidity_out);
        let f = fee_split(net_in, lp_fee, owner_fee, false);
        let amount_in = net_in + f.2;
        (amount_in, liquidity_in + amount_in - f.1, liquidity_out - amount_out, f.1)
    } else {
        let f = fee_split(amount_out, lp_fee, owner_fee, false);
        let gross = amount_out + f.2;
        let amount_in = amount_in_spec(gross, liquidity_in, liquidity_out);
        (amount_in, liquidity_in + amount_in, liquidity_out - amount_out - f.1, f.1)
    }
}

/// Whether an outcome is made of 64-bit amounts.
pub open spec fn fits_u64(o: (int, int, int, int)) -> bool {
    &&& 0 <= o.0 <= u64::MAX
    &&& 0 <= o.1 <= u64::MAX
    &&& 0 <= o.2 <= u64::MAX
    &&& 0 <= o.3 <= u64::MAX
}

pub open spec fn outcome_of(r: SwapOutcome) -> (int, int, int, int) {
    (r.amount as int, r.new_liquidity_in as int, r.new_liquidity_out as int, r.owner_fee as int)
}

/// Swap arithmetic against one pool, fees included.
pub trait SwapModule: HelpersModule {
    /// Swap of `amount_in` against a pool with reserves `liquidity_in`,
    /// `liquidity_out`.
    fn do_swap_fixed_input(&self, 
        amount_in: u64,
        liquidity_in: u64,
        liquidity_out: u64,
        lp_fee: u64,
        owner_fee: u64,
        fee_in: bool,
    ) -> (r: Result<SwapOutcome, DexError>)
        requires
            liquidity_in > 0,
            liquidity_out > 0,
            lp_fee + owner_fee < MAX_PERCENT,
        ensures
            ({
                let o = fixed_input_outcome(
                    amount_in as int,
                    liquidity_in as int,
                    liquidity_out as int,
                    lp_fee as int,
                    owner_fee as int,
                    fee_in,
                );
                &&& r is Err <==> !fits_u64(o)
                &&& r is Err ==> r == Err::<SwapOutcome, DexError>(DexError::AmountOverflow)
                &&& r matches Ok(s) ==> outcome_of(s) == o && s.new_liquidity_out > 0
                    && s.new_liquidity_in >= liquidity_in
            }),
    {
        let fees = self.get_fee_amounts(
            if fee_in { amount_in } else { 0 },
            lp_fee,
            owner_fee,
            true,
        );
        if fee_in {
            let own = fees.1 as u64;
            let left = amount_in - fees.2 as u64;
            let out = self.get_amount_out_no_fee(left, liquidity_in, liquidity_out);
            proof {
                if left > 0 {
                    lemma_amount_out_below_reserve(left as int, liquidity_in as int, liquidity_out as int);
                } else {
                    assert(0 * liquidity_out as int == 0) by (nonlinear_arith);
                }
            }
            if liquidity_in as u128 + (amount_in - own) as u128 > u64::MAX as u128 {
                return Err(DexError::AmountOverflow);
            }
            Ok(SwapOutcome {
                amount: out,
                new_liquidity_in: liquidity_in + (amount_in - own),
                new_liquidity_out: liquidity_out - out,
                owner_fee: own,
            })
        } else {
            let gross = self.get_amount_out_no_fee(amount_in, liquidity_in, liquidity_out);
            proof {
                if amount_in > 0 {
                    lemma_amount_out_below_reserve(amount_in as int, liquidity_in as int, liquidity_out as int);
                } else {
                    assert(0 * liquidity_out as int == 0) by (nonlinear_arith);
                }
            }
            let out_fees = self.get_fee_amounts(gross, lp_fee, owner_fee, true);
            proof {
                assert(gross as int * owner_fee as int <= gross as int * (lp_fee + owner_fee)) by (nonlinear_arith);
                assert(out_fees.1 <= out_fees.2) by (nonlinear_arith)
                    requires
                        out_fees.1 as int == gross as int * owner_fee as int / MAX_PERCENT as int,
                        out_fees.2 as int == gross as int * (lp_fee + owner_fee) / MAX_PERCENT as int,
                        gross as int * owner_fee as int <= gross as int * (lp_fee + owner_fee),
                ;
            }
            if liquidity_in as u128 + amount_in as u128 > u64::MAX as u128 {
                return Err(DexError::AmountOverflow);
            }
            let out = gross - out_fees.2 as u64;
            let own = out_fees.1 as u64;
            Ok(SwapOutcome {
                amount: out,
                new_liquidity_in: liquidity_in + amount_in,
                new_liquidity_out: liquidity_out - out - own,
                owner_fee: own,
            })
        }
    }

    /// Swap for `amount_out` against a pool with reserves `liquidity_in`,
    /// `liquidity_out`; the pool must keep some of its output reserve.
    fn do_swap_fixed_output(&self, 
        amount_out: u64,
        liquidity_in: u64,
        liquidity_out: u64,
        lp_fee: u64,
        owner_fee: u64,
        fee_in: bool,
    ) -> (r: Result<SwapOutcome, DexError>)
        requires
            lp_fee + owner_fee < MAX_PERCENT,
        ensures
            ({
                let g = fixed_output_gross(amount_out as int, lp_fee as int, owner_fee as int, fee_in);
                let o = fixed_output_outcome(
                    amount_out as int,
                    liquidity_in as int,
                    liquidity_out as int,
                    lp_fee as int,
                    owner_fee as int,
                    fee_in,
                );
                &&& r == Err::<SwapOutcome, DexError>(DexError::NotEnoughReserve) <==> g >= liquidity_out
                &&& r == Err::<SwapOutcome, DexError>(DexError::AmountOverflow) <==> g < liquidity_out && !fits_u64(o)
                &&& r is Err <==> g >= liquidity_out || !fits_u64(o)
                &&& r matches Ok(s) ==> outcome_of(s) == o && s.new_liquidity_out > 0
                    && s.new_liquidity_in >= liquidity_in
            }),
    {
        if fee_in {
            if amount_out >= liquidity_out {
                return Err(DexError::NotEnoughReserve);
            }
            let net_in = self.get_amount_in_no_fee(amount_out, liquidity_in, liquidity_out);
            if net_in > u64::MAX as u128 {
                proof {
                    let f = fee_split(net_in as int, lp_fee as int, owner_fee as int, false);
                    lemma_output_fee_parts(net_in as int, lp_fee as int, owner_fee as int);
                }
                return Err(DexError::AmountOverflow);
            }
            let fees = self.get_fee_amounts(net_in as u64, lp_fee, owner_fee, false);
            proof {
                lemma_output_fee_parts(net_in as int, lp_fee as int, owner_fee as int);
            }
            if net_in + fees.2 > u64::MAX as u128 {
                return Err(DexError::AmountOverflow);
            }
            let amount_in = (net_in + fees.2) as u64;
            if liquidity_in as u128 + (amount_in as u128 - fees.1) > u64::MAX as u128 {
                return Err(DexError::AmountOverflow);
            }
            Ok(SwapOutcome {
                amount: amount_in,
                new_liquidity_in: (liquidity_in as u128 + (amount_in as u128 - fees.1)) as u64,
                new_liquidity_out: liquidity_out - amount_out,
                owner_fee: fees.1 as u64,
            })
        } else {
            let fees = self.get_fee_amounts(amount_out, lp_fee, owner_fee, false);
            proof {
                lemma_output_fee_parts(amount_out as int, lp_fee as int, owner_fee as int);
            }
            if amount_out as u128 + fees.2 >= liquidity_out as u128 {
                return Err(DexError::NotEnoughReserve);
            }
            let gross = (amount_out as u128 + fees.2) as u64;
            let amount_in = self.get_amount_in_no_fee(gross, liquidity_in, liquidity_out);
            if amount_in > u64::MAX as u128 || liquidity_in as u128 + amount_in > u64::MAX as u128 {
                return Err(DexError::AmountOverflow);
            }
            Ok(SwapOutcome {
                amount: amount_in as u64,
                new_liquidity_in: (liquidity_in as u128 + amount_in) as u64,
                new_liquidity_out: liquidity_out - amount_out - fees.1 as u64,
                owner_fee: fees.1 as u64,
            })
        }
    }
}

/// On an output, both shares of the fee are non-negative and add up to the total.
proof fn lemma_output_fee_parts(amount: int, lp_fee: int, owner_fee: int)
    requires
        amount >= 0,
        lp_fee >= 0,
        owner_fee >= 0,
        lp_fee + owner_fee < MAX_PERCENT,
    ensures
        ({
            let f = fee_split(amount, lp_fee, owner_fee, false);
            0 <= f.0 <= f.2 && 0 <= f.1 <= f.2 && f.0 + f.1 == f.2
        }),
{
    let tf = lp_fee + owner_fee;
    if tf > 0 {
        let total = amount * tf / (MAX_PERCENT - tf);
        assert(total >= 0) by (nonlinear_arith)
            requires
                total == amount * tf / (MAX_PERCENT - tf),
                amount >= 0,
                tf > 0,
                tf < MAX_PERCENT,
        ;
        assert(0 <= total * lp_fee / tf <= total) by (nonlinear_arith)
            requires
                total >= 0,
                0 <= lp_fee <= tf,
                tf > 0,
        ;
    }
}

} // verus!
