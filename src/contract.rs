//! The exchange as a whole: pair creation through a two-phase issuance of the
//! receipt token, pair lifecycle, base token registry and swaps.
use vstd::prelude::*;
use crate::config::{ConfigModule, DexError, Pair, PairState, PairView, State, legs_match};
use crate::helpers::HelpersModule;
use crate::swap::{
    SwapModule, SwapOutcome, fits_u64, fixed_input_outcome, fixed_output_gross,
    fixed_output_outcome,
};
use crate::token::{
    copy_token, lp_name_of, lp_symbol_of, lp_token_names, same_token, ticker_of,
    token_identifier_valid,
};

verus! {

/// The deposit that pays for the issuance of a receipt token.
pub const TOKEN_ISSUE_COST: u64 = 50_000_000_000_000_000;

/// Decimals of every receipt token.
pub const LP_TOKEN_DECIMALS: u32 = 18;

/// A pair creation waiting for the issuance service's answer.
#[derive(Clone, Debug, PartialEq, Eq)]
pub struct PendingIssuance {
    pub request_id: u64,
    pub caller: Vec<u8>,
    pub base_token: Vec<u8>,
    pub token: Vec<u8>,
    pub issue_cost: u64,
}

/// What to ask of the issuance service for a new pair.
#[derive(Clone, Debug, PartialEq, Eq)]
pub struct IssueRequest {
    /// Identifies the answer, which `lp_token_issue_callback` takes.
    pub request_id: u64,
    pub lp_name: Vec<u8>,
    pub lp_ticker: Vec<u8>,
    pub num_decimals: u32,
    /// The deposit, handed on to the service.
    pub issue_cost: u64,
}

/// What the answer of the issuance service led to.
#[derive(Clone, Debug, PartialEq, Eq)]
pub enum IssueCallbackEffect {
    /// The pair of this id was created.
    PairCreated(usize),
    /// No pair was created; the deposit goes back to the one who made it.
    Refund { to: Vec<u8>, amount: u64 },
}

/// The exchange.
pub struct TFNDEXContract {
    pub config: ConfigModule,
    /// Pair creations waiting for the issuance service, by request id.
    pub pending: Vec<PendingIssuance>,
    /// The id of the next issuance request.
    pub next_request_id: u64,
}

/// Both reserves of the pair are non-zero.
pub open spec fn has_liquidity(p: PairView) -> bool {
    p.liquidity_token > 0 && p.liquidity_base > 0
}

/// The reserves `(in, out)` of pair `p` for a swap that pays out `token_out`.
pub open spec fn reserves_for(p: PairView, token_out: Seq<u8>) -> (u64, u64) {
    if token_out == p.base_token {
        (p.liquidity_token, p.liquidity_base)
    } else {
        (p.liquidity_base, p.liquidity_token)
    }
}

/// Pair `p` after a swap that pays out `token_out`, with new reserves `(in, out)`.
pub open spec fn with_reserves(p: PairView, token_out: Seq<u8>, new_in: int, new_out: int) -> PairView {
    if token_out == p.base_token {
        PairView { liquidity_token: new_in as u64, liquidity_base: new_out as u64, ..p }
    } else {
        PairView { liquidity_base: new_in as u64, liquidity_token: new_out as u64, ..p }
    }
}

/// The operator's fees in `t` once `amount` more has accrued.
pub open spec fn accrued(fees: Map<Seq<u8>, u64>, t: Seq<u8>, amount: int) -> int {
    (if fees.contains_key(t) { fees[t] as int } else { 0 }) + amount
}

impl HelpersModule for TFNDEXContract {

}

impl SwapModule for TFNDEXContract {

}

impl TFNDEXContract {
    /// The invariant of the exchange.
    pub open spec fn wf(&self) -> bool {
        &&& self.config.wf()
        &&& forall|i: int| 0 <= i < self.config.pairs@.len() && #[trigger] self.config.pairs@[i].state
            == PairState::Active ==> has_liquidity(self.config.pairs@[i]@)
        &&& forall|k: int| 0 <= k < self.pending@.len() ==> #[trigger] self.pending@[k].request_id
            < self.next_request_id
        &&& forall|k: int, l: int|
            0 <= k < l < self.pending@.len() ==> #[trigger] self.pending@[k].request_id
                != #[trigger] self.pending@[l].request_id
        &&& forall|k: int| 0 <= k < self.pending@.len() ==> !self.config.has_pair(
            #[trigger] self.pending@[k].token@,
            self.pending@[k].base_token@,
        )
        &&& forall|k: int, l: int|
            0 <= k < l < self.pending@.len() ==> !(#[trigger] self.pending@[k].token@
                == #[trigger] self.pending@[l].token@ && self.pending@[k].base_token@
                == self.pending@[l].base_token@) && !(self.pending@[k].token@
                == self.pending@[l].base_token@ && self.pending@[k].base_token@
                == self.pending@[l].token@)
    }

    /// `after` is `self` once pending request `k` has been answered with the
    /// new receipt token `lp_token`: the request is consumed and its pair is
    /// added with the next id, in state `ActiveNoSwap`, with no liquidity.
    pub open spec fn issue_succeeded(self, k: int, lp_token: Seq<u8>, after: Self) -> bool {
        let p = self.pending@[k];
        &&& after.pending@ == self.pending@.remove(k)
        &&& after.next_request_id == self.next_request_id
        &&& after.config.pairs@.len() == self.config.pairs@.len() + 1
        &&& after.config.pairs@.drop_last() == self.config.pairs@
        &&& after.config.pairs@.last()@ == (PairView {
            id: self.config.pairs@.len() as usize,
            state: PairState::ActiveNoSwap,
            token: p.token@,
            base_token: p.base_token@,
            lp_token,
            lp_supply: 0,
            liquidity_token: 0,
            liquidity_base: 0,
        })
        &&& after.config == (ConfigModule { pairs: after.config.pairs, ..self.config })
    }

    /// `after` is `self` once pending request `k` has been answered with a
    /// failure: the request is consumed, nothing else changes, and `amount`
    /// goes back to `to`.
    pub open spec fn issue_failed(self, k: int, to: Seq<u8>, amount: u64, after: Self) -> bool {
        &&& after.pending@ == self.pending@.remove(k)
        &&& after.next_request_id == self.next_request_id
        &&& after.config == self.config
        &&& to == self.pending@[k].caller@
        &&& amount == self.pending@[k].issue_cost
    }

    /// `after` is `self` with the creation of the pair of `base_token` and
    /// `token`, paid by `caller` with `payment`, pending as request `request_id`.
    pub open spec fn issue_requested(
        self,
        caller: Seq<u8>,
        base_token: Seq<u8>,
        token: Seq<u8>,
        payment: u64,
        request_id: u64,
        after: Self,
    ) -> bool {
        &&& request_id == self.next_request_id
        &&& after.config == self.config
        &&& after.next_request_id == self.next_request_id + 1
        &&& after.pending@.len() == self.pending@.len() + 1
        &&& after.pending@.drop_last() == self.pending@
        &&& after.pending@.last().request_id == request_id
        &&& after.pending@.last().caller@ == caller
        &&& after.pending@.last().base_token@ == base_token
        &&& after.pending@.last().token@ == token
        &&& after.pending@.last().issue_cost == payment
    }

    /// Whether a pair creation of `a` and `b`, in either order, is pending.
    pub open spec fn is_pending(&self, a: Seq<u8>, b: Seq<u8>) -> bool {
        exists|k: int|
            0 <= k < self.pending@.len() && ((#[trigger] self.pending@[k].token@ == a
                && self.pending@[k].base_token@ == b) || (self.pending@[k].token@ == b
                && self.pending@[k].base_token@ == a))
    }

    /// A new exchange owned by `owner` (see `ConfigModule::new`).
    pub fn init(owner: Vec<u8>) -> (r: TFNDEXContract)
        ensures
            r.wf(),
            r.config.owner@ == owner@,
            r.config.state == State::Inactive,
            r.config.launchpad_address.is_none(),
            r.config.lp_fee == 0 && r.config.owner_fee == 0,
            r.config.cummulated_fees@.len() == 0,
            r.config.base_tokens@.len() == 0,
            r.config.pairs@.len() == 0,
            r.pending@.len() == 0,
    {
        TFNDEXContract { config: ConfigModule::new(owner), pending: Vec::new(), next_request_id: 0 }
    }

    /// The index of the pending creation of `a` and `b`, in either order.
    fn find_pending_pair(&self, a: &Vec<u8>, b: &Vec<u8>) -> (r: bool)
        ensures
            r == self.is_pending(a@, b@),
    {
        let mut k: usize = 0;
        while k < self.pending.len()
            invariant
                0 <= k <= self.pending@.len(),
                forall|j: int|
                    0 <= j < k ==> !((#[trigger] self.pending@[j].token@ == a@
                        && self.pending@[j].base_token@ == b@) || (self.pending@[j].token@ == b@
                        && self.pending@[j].base_token@ == a@)),
            decreases self.pending@.len() - k,
        {
            let p = &self.pending[k];
            if (same_token(&p.token, a) && same_token(&p.base_token, b)) || (same_token(&p.token, b)
                && same_token(&p.base_token, a)) {
                return true;
            }
            k = k + 1;
        }
        false
    }

    /// The index of the pending request `request_id`.
    fn find_request(&self, request_id: u64) -> (r: Option<usize>)
        ensures
            r is None <==> forall|k: int| 0 <= k < self.pending@.len() ==> #[trigger] self.pending@[k].request_id != request_id,
            r matches Some(k) ==> k < self.pending@.len() && self.pending@[k as int].request_id == request_id,
    {
        let mut k: usize = 0;
        while k < self.pending.len()
            invariant
                0 <= k <= self.pending@.len(),
                forall|j: int| 0 <= j < k ==> #[trigger] self.pending@[j].request_id != request_id,
            decreases self.pending@.len() - k,
        {
            if self.pending[k].request_id == request_id {
                return Some(k);
            }
            k = k + 1;
        }
        None
    }

    /// The error, if any, that `create_pair` returns.
    pub open spec fn create_pair_error(
        &self,
        caller: Seq<u8>,
        base_token: Seq<u8>,
        token: Seq<u8>,
        payment: u64,
    ) -> Option<DexError> {
        if !self.config.is_owner_or_launchpad(caller) {
            Some(DexError::Unauthorized)
        } else if self.config.state != State::Active {
            Some(DexError::NotActive)
        } else if !self.config.is_base_token(base_token) || base_token == token {
            Some(DexError::WrongBaseToken)
        } else if self.config.has_pair(token, base_token) || self.is_pending(token, base_token) {
            Some(DexError::PairExists)
        } else if payment != TOKEN_ISSUE_COST {
            Some(DexError::WrongIssueCost)
        } else if self.next_request_id == u64::MAX {
            Some(DexError::AmountOverflow)
        } else {
            None
        }
    }

    /// Owner or governance service: starts the creation of the pair of
    /// `base_token` and `token`, paid by `payment`. No pair exists yet: the
    /// request is held until the issuance service answers, and returned for
    /// the caller to send.
    pub fn create_pair(
        &mut self,
        caller: &Vec<u8>,
        base_token: &Vec<u8>,
        token: &Vec<u8>,
        payment: u64,
    ) -> (r: Result<IssueRequest, DexError>)
        requires
            old(self).wf(),
        ensures
            final(self).wf(),
            old(self).create_pair_error(caller@, base_token@, token@, payment) matches Some(e) ==> r
                == Err::<IssueRequest, DexError>(e) && *final(self) == *old(self),
            old(self).create_pair_error(caller@, base_token@, token@, payment) is None ==> (r matches Ok(req) && {
                let token_ticker = ticker_of(token@, token_identifier_valid(token@));
                let base_ticker = ticker_of(base_token@, token_identifier_valid(base_token@));
                &&& req.lp_name@ == lp_name_of(token_ticker, base_ticker)
                &&& req.lp_ticker@ == lp_symbol_of(token_ticker, base_ticker)
                &&& req.num_decimals == LP_TOKEN_DECIMALS
                &&& req.issue_cost == payment
                &&& old(self).issue_requested(caller@, base_token@, token@, payment, req.request_id, *final(self))
            }),
    {
        if !self.config.only_owner_or_launchpad(caller) {
            return Err(DexError::Unauthorized);
        }
        if self.config.state != State::Active {
            return Err(DexError::NotActive);
        }
        if self.config.find_base_token(base_token).is_none() || same_token(base_token, token) {
            return Err(DexError::WrongBaseToken);
        }
        if self.config.find_pair(token, base_token).is_some() || self.find_pending_pair(token, base_token) {
            return Err(DexError::PairExists);
        }
        if payment != TOKEN_ISSUE_COST {
            return Err(DexError::WrongIssueCost);
        }
        if self.next_request_id == u64::MAX {
            return Err(DexError::AmountOverflow);
        }
        let (lp_name, lp_ticker) = lp_token_names(token, base_token);
        let request_id = self.next_request_id;
        let ghost before = self.pending@;
        self.pending.push(
            PendingIssuance {
                request_id,
                caller: copy_token(caller),
                base_token: copy_token(base_token),
                token: copy_token(token),
                issue_cost: payment,
            },
        );
        self.next_request_id = request_id + 1;
        proof {
            assert(self.pending@.drop_last() =~= before);
            let n = before.len() as int;
            assert forall|k: int| 0 <= k < n implies self.pending@[k] == before[k] by {}
            assert forall|k: int, l: int| 0 <= k < l < self.pending@.len() implies !(
            #[trigger] self.pending@[k].token@ == #[trigger] self.pending@[l].token@
                && self.pending@[k].base_token@ == self.pending@[l].base_token@) && !(
            self.pending@[k].token@ == self.pending@[l].base_token@
                && self.pending@[k].base_token@ == self.pending@[l].token@) by {
                if l == n {
                    assert(self.pending@[k] == before[k]);
                    if (before[k].token@ == token@ && before[k].base_token@ == base_token@) || (
                    before[k].token@ == base_token@ && before[k].base_token@ == token@) {
                        assert(old(self).is_pending(token@, base_token@));
                    }
                }
            }
            assert forall|k: int| 0 <= k < self.pending@.len() implies !self.config.has_pair(
                #[trigger] self.pending@[k].token@,
                self.pending@[k].base_token@,
            ) by {
                if k < n {
                    assert(self.pending@[k] == before[k]);
                }
            }
        }
        Ok(IssueRequest {
            request_id,
            lp_name,
            lp_ticker,
            num_decimals: LP_TOKEN_DECIMALS,
            issue_cost: payment,
        })
    }
    /// The issuance service's answer to request `request_id`: the new receipt
    /// token, or `None` when the issuance failed. On success the pair is
    /// created, with the next id, in state `ActiveNoSwap` and with no
    /// liquidity; on failure the deposit is refunded to the one who made it.
    /// Either way the request is consumed.
    pub fn lp_token_issue_callback(&mut self, request_id: u64, result: Option<Vec<u8>>) -> (r: Result<
        IssueCallbackEffect,
        DexError,
    >)
        requires
            old(self).wf(),
        ensures
            final(self).wf(),
            (forall|k: int| 0 <= k < old(self).pending@.len() ==> #[trigger] old(self).pending@[k].request_id
                != request_id) ==> r == Err::<IssueCallbackEffect, DexError>(DexError::UnknownIssueRequest)
                && *final(self) == *old(self),
            forall|k: int|
                0 <= k < old(self).pending@.len() && #[trigger] old(self).pending@[k].request_id == request_id
                ==> {
                    &&& result matches Some(lp) ==> r == Ok::<IssueCallbackEffect, DexError>(
                        IssueCallbackEffect::PairCreated(old(self).config.pairs@.len() as usize),
                    ) && old(self).issue_succeeded(k, lp@, *final(self))
                    &&& result is None ==> (r matches Ok(IssueCallbackEffect::Refund { to, amount })
                        && old(self).issue_failed(k, to@, amount, *final(self)))
                },
    {
        let k = match self.find_request(request_id) {
            Some(k) => k,
            None => {
                return Err(DexError::UnknownIssueRequest);
            },
        };
        let ghost old_pending = self.pending@;
        let ghost old_pairs = self.config.pairs@;
        let p = self.pending.remove(k);
        proof {
            assert forall|j: int| 0 <= j < self.pending@.len() implies #[trigger] self.pending@[j]
                == (if j < k { old_pending[j] } else { old_pending[j + 1] }) by {}
            assert forall|j: int, l: int| 0 <= j < l < self.pending@.len() implies #[trigger] self.pending@[j].request_id
                != #[trigger] self.pending@[l].request_id by {
                let j0 = if j < k { j } else { j + 1 };
                let l0 = if l < k { l } else { l + 1 };
                assert(old_pending[j0].request_id != old_pending[l0].request_id);
            }
            assert forall|j: int, l: int|
                0 <= j < l < self.pending@.len() implies !(#[trigger] self.pending@[j].token@
                == #[trigger] self.pending@[l].token@ && self.pending@[j].base_token@
                == self.pending@[l].base_token@) && !(self.pending@[j].token@
                == self.pending@[l].base_token@ && self.pending@[j].base_token@
                == self.pending@[l].token@) by {
                let j0 = if j < k { j } else { j + 1 };
                let l0 = if l < k { l } else { l + 1 };
                assert(old_pending[j0] == self.pending@[j]);
                assert(old_pending[l0] == self.pending@[l]);
            }
        }
        match result {
            Some(lp_token) => {
                let id = self.config.pairs.len();
                let pair = Pair {
                    id,
                    state: PairState::ActiveNoSwap,
                    token: p.token,
                    base_token: p.base_token,
                    lp_token,
                    lp_supply: 0,
                    liquidity_token: 0,
                    liquidity_base: 0,
                };
                self.config.pairs.push(pair);
                proof {
                    let n = old_pairs.len() as int;
                    let pairs = self.config.pairs@;
                    assert(pairs.drop_last() =~= old_pairs);
                    assert forall|i: int| 0 <= i < n implies pairs[i] == old_pairs[i] by {}
                    assert(!old(self).config.has_pair(p.token@, p.base_token@));
                    assert forall|i: int, j: int| 0 <= i < j < pairs.len() implies !legs_match(
                        #[trigger] pairs[i]@,
                        #[trigger] pairs[j].token@,
                        pairs[j].base_token@,
                    ) by {
                        if j == n {
                            assert(pairs[i] == old_pairs[i]);
                            if legs_match(pairs[i]@, p.token@, p.base_token@) {
                                assert(old(self).config.has_pair(p.token@, p.base_token@));
                            }
                        }
                    }
                    assert forall|q: int| 0 <= q < self.pending@.len() implies !self.config.has_pair(
                        #[trigger] self.pending@[q].token@,
                        self.pending@[q].base_token@,
                    ) by {
                        let q0 = if q < k { q } else { q + 1 };
                        let pq = self.pending@[q];
                        assert(old_pending[q0] == pq);
                        assert(!old(self).config.has_pair(pq.token@, pq.base_token@));
                        if self.config.has_pair(pq.token@, pq.base_token@) {
                            let i = choose|i: int| 0 <= i < pairs.len() && legs_match(#[trigger] pairs[i]@, pq.token@, pq.base_token@);
                            if i < n {
                                assert(pairs[i] == old_pairs[i]);
                                assert(old(self).config.has_pair(pq.token@, pq.base_token@));
                            } else {
                                assert(pairs[i]@.token == p.token@);
                                assert(old_pending[k as int] == p);
                            }
                        }
                    }
                }
                Ok(IssueCallbackEffect::PairCreated(id))
            },
            None => Ok(IssueCallbackEffect::Refund { to: p.caller, amount: p.issue_cost }),
        }
    }
    /// The error, if any, of moving pair `id` to another state; moving it to
    /// `Active` or `ActiveNoSwap` needs liquidity.
    pub open spec fn pair_admin_error(&self, caller: Seq<u8>, id: usize, needs_liquidity: bool) -> Option<
        DexError,
    > {
        if !self.config.is_owner_or_launchpad(caller) {
            Some(DexError::Unauthorized)
        } else if self.config.state != State::Active {
            Some(DexError::NotActive)
        } else if id >= self.config.pairs@.len() {
            Some(DexError::PairNotFound)
        } else if needs_liquidity && !has_liquidity(self.config.pairs@[id as int]@) {
            Some(DexError::NoLiquidity)
        } else {
            None
        }
    }

    /// `self` with pair `id` in state `state` and nothing else changed.
    pub open spec fn with_pair_state(self, id: usize, state: PairState, after: Self) -> bool {
        &&& after.config == (ConfigModule { pairs: after.config.pairs, ..self.config })
        &&& after.config.pair_views() == self.config.pair_views().update(
            id as int,
            PairView { state, ..self.config.pairs@[id as int]@ },
        )
        &&& after.pending == self.pending
        &&& after.next_request_id == self.next_request_id
    }

    fn set_pair_state(&mut self, caller: &Vec<u8>, id: usize, state: PairState, needs_liquidity: bool) -> (r: Result<(), DexError>)
        requires
            old(self).wf(),
            state == PairState::Active ==> needs_liquidity,
        ensures
            final(self).wf(),
            old(self).pair_admin_error(caller@, id, needs_liquidity) matches Some(e) ==> r == Err::<(), DexError>(e)
                && *final(self) == *old(self),
            old(self).pair_admin_error(caller@, id, needs_liquidity) is None ==> r is Ok
                && old(self).with_pair_state(id, state, *final(self)),
    {
        if !self.config.only_owner_or_launchpad(caller) {
            return Err(DexError::Unauthorized);
        }
        if self.config.state != State::Active {
            return Err(DexError::NotActive);
        }
        if id >= self.config.pairs.len() {
            return Err(DexError::PairNotFound);
        }
        if needs_liquidity && (self.config.pairs[id].liquidity_token == 0 || self.config.pairs[id].liquidity_base == 0) {
            return Err(DexError::NoLiquidity);
        }
        let mut pair = self.config.pairs[id].copy();
        pair.state = state;
        let ghost old_pairs = self.config.pairs@;
        self.config.pairs.set(id, pair);
        proof {
            let pairs = self.config.pairs@;
            assert forall|i: int| 0 <= i < pairs.len() && i != id implies #[trigger] pairs[i] == old_pairs[i] by {}
            assert(self.config.pair_views() =~= old(self).config.pair_views().update(
                id as int,
                PairView { state, ..old_pairs[id as int]@ },
            ));
            assert forall|i: int, j: int| 0 <= i < j < pairs.len() implies !legs_match(
                #[trigger] pairs[i]@,
                #[trigger] pairs[j].token@,
                pairs[j].base_token@,
            ) by {
                assert(!legs_match(old_pairs[i]@, old_pairs[j].token@, old_pairs[j].base_token@));
            }
            assert forall|i: int| 0 <= i < pairs.len() implies #[trigger] pairs[i].id == i by {
                assert(old_pairs[i].id == i);
            }
            assert forall|i: int| 0 <= i < pairs.len() && #[trigger] pairs[i].state == PairState::Active implies has_liquidity(pairs[i]@) by {
                if i != id {
                    assert(pairs[i] == old_pairs[i]);
                }
            }
            assert forall|q: int| 0 <= q < self.pending@.len() implies !self.config.has_pair(
                #[trigger] self.pending@[q].token@,
                self.pending@[q].base_token@,
            ) by {
                let pq = self.pending@[q];
                if self.config.has_pair(pq.token@, pq.base_token@) {
                    let i = choose|i: int| 0 <= i < pairs.len() && legs_match(#[trigger] pairs[i]@, pq.token@, pq.base_token@);
                    assert(legs_match(old_pairs[i]@, pq.token@, pq.base_token@));
                    assert(old(self).config.has_pair(pq.token@, pq.base_token@));
                }
            }
        }
        Ok(())
    }

    /// Owner or governance service: opens pair `id` to swaps. It needs
    /// liquidity on both sides.
    pub fn set_pair_active(&mut self, caller: &Vec<u8>, id: usize) -> (r: Result<(), DexError>)
        requires
            old(self).wf(),
        ensures
            final(self).wf(),
            old(self).pair_admin_error(caller@, id, true) matches Some(e) ==> r == Err::<(), DexError>(e)
                && *final(self) == *old(self),
            old(self).pair_admin_error(caller@, id, true) is None ==> r is Ok
                && old(self).with_pair_state(id, PairState::Active, *final(self)),
    {
        self.set_pair_state(caller, id, PairState::Active, true)
    }

    /// Owner or governance service: closes pair `id` to swaps, leaving it open
    /// to deposits. It needs liquidity on both sides.
    pub fn set_pair_active_no_swap(&mut self, caller: &Vec<u8>, id: usize) -> (r: Result<(), DexError>)
        requires
            old(self).wf(),
        ensures
            final(self).wf(),
            old(self).pair_admin_error(caller@, id, true) matches Some(e) ==> r == Err::<(), DexError>(e)
                && *final(self) == *old(self),
            old(self).pair_admin_error(caller@, id, true) is None ==> r is Ok
                && old(self).with_pair_state(id, PairState::ActiveNoSwap, *final(self)),
    {
        self.set_pair_state(caller, id, PairState::ActiveNoSwap, true)
    }

    /// Owner or governance service: suspends pair `id`.
    pub fn set_pair_inactive(&mut self, caller: &Vec<u8>, id: usize) -> (r: Result<(), DexError>)
        requires
            old(self).wf(),
        ensures
            final(self).wf(),
            old(self).pair_admin_error(caller@, id, false) matches Some(e) ==> r == Err::<(), DexError>(e)
                && *final(self) == *old(self),
            old(self).pair_admin_error(caller@, id, false) is None ==> r is Ok
                && old(self).with_pair_state(id, PairState::Inactive, *final(self)),
    {
        self.set_pair_state(caller, id, PairState::Inactive, false)
    }

    /// Owner only, while active: makes `token` a base token.
    pub fn add_base_token(&mut self, caller: &Vec<u8>, token: &Vec<u8>) -> (r: Result<(), DexError>)
        requires
            old(self).wf(),
        ensures
            final(self).wf(),
            r == (if !old(self).config.is_owner(caller@) {
                Err(DexError::Unauthorized)
            } else if old(self).config.state != State::Active {
                Err(DexError::NotActive)
            } else if old(self).config.is_base_token(token@) {
                Err(DexError::BaseTokenExists)
            } else {
                Ok(())
            }),
            r is Err ==> *final(self) == *old(self),
            r is Ok ==> {
                &&& forall|x: Seq<u8>| final(self).config.is_base_token(x) <==> (old(self).config.is_base_token(x) || x == token@)
                &&& final(self).config == (ConfigModule { base_tokens: final(self).config.base_tokens, ..old(self).config })
                &&& final(self).pending == old(self).pending
                &&& final(self).next_request_id == old(self).next_request_id
            },
    {
        if !self.config.is_owner_exec(caller) {
            return Err(DexError::Unauthorized);
        }
        if self.config.state != State::Active {
            return Err(DexError::NotActive);
        }
        if self.config.find_base_token(token).is_some() {
            return Err(DexError::BaseTokenExists);
        }
        self.config.insert_base_token(token);
        Ok(())
    }

    /// Owner only, while active: `token` stops being a base token. Refused
    /// while any pair, in whatever state, has it as its base token.
    pub fn remove_base_token(&mut self, caller: &Vec<u8>, token: &Vec<u8>) -> (r: Result<(), DexError>)
        requires
            old(self).wf(),
        ensures
            final(self).wf(),
            r == (if !old(self).config.is_owner(caller@) {
                Err(DexError::Unauthorized)
            } else if old(self).config.state != State::Active {
                Err(DexError::NotActive)
            } else if !old(self).config.is_base_token(token@) {
                Err(DexError::WrongBaseToken)
            } else if old(self).config.base_token_in_use(token@) {
                Err(DexError::BaseTokenInUse)
            } else {
                Ok(())
            }),
            r is Err ==> *final(self) == *old(self),
            r is Ok ==> {
                &&& forall|x: Seq<u8>| final(self).config.is_base_token(x) <==> (old(self).config.is_base_token(x) && x != token@)
                &&& final(self).config == (ConfigModule { base_tokens: final(self).config.base_tokens, ..old(self).config })
                &&& final(self).pending == old(self).pending
                &&& final(self).next_request_id == old(self).next_request_id
            },
    {
        if !self.config.is_owner_exec(caller) {
            return Err(DexError::Unauthorized);
        }
        if self.config.state != State::Active {
            return Err(DexError::NotActive);
        }
        let idx = match self.config.find_base_token(token) {
            Some(i) => i,
            None => {
                return Err(DexError::WrongBaseToken);
            },
        };
        let mut i: usize = 0;
        while i < self.config.pairs.len()
            invariant
                0 <= i <= self.config.pairs@.len(),
                forall|j: int| 0 <= j < i ==> #[trigger] self.config.pairs@[j].base_token@ != token@,
                *self == *old(self),
                old(self).wf(),
                old(self).config.is_owner(caller@),
                old(self).config.state == State::Active,
                old(self).config.is_base_token(token@),
            decreases self.config.pairs@.len() - i,
        {
            if same_token(&self.config.pairs[i].base_token, token) {
                assert(self.config.pairs@[i as int].base_token@ == token@);
                return Err(DexError::BaseTokenInUse);
            }
            i = i + 1;
        }
        let ghost before = self.config.base_tokens@;
        self.config.base_tokens.remove(idx);
        proof {
            let after = self.config.base_tokens@;
            assert forall|j: int| 0 <= j < after.len() implies #[trigger] after[j]
                == (if j < idx { before[j] } else { before[j + 1] }) by {}
            assert forall|j: int, l: int| 0 <= j < l < after.len() implies after[j]@ != after[l]@ by {
                let j0 = if j < idx { j } else { j + 1 };
                let l0 = if l < idx { l } else { l + 1 };
                assert(before[j0]@ != before[l0]@);
            }
            assert forall|x: Seq<u8>| self.config.is_base_token(x) <==> (old(self).config.is_base_token(x) && x != token@) by {
                if self.config.is_base_token(x) {
                    let j = choose|j: int| 0 <= j < self.config.base_seq().len() && self.config.base_seq()[j] == x;
                    let j0 = if j < idx { j } else { j + 1 };
                    assert(old(self).config.base_seq()[j0] == x);
                    assert(before[j0]@ != before[idx as int]@);
                }
                if old(self).config.is_base_token(x) && x != token@ {
                    let j0 = choose|j: int| 0 <= j < old(self).config.base_seq().len() && old(self).config.base_seq()[j] == x;
                    assert(j0 != idx);
                    let j = if j0 < idx { j0 } else { j0 - 1 };
                    assert(self.config.base_seq()[j] == x);
                }
            }
        }
        Ok(())
    }
    /// The index of the pair of `a` and `b`, which the invariant makes unique.
    pub open spec fn pair_index(&self, a: Seq<u8>, b: Seq<u8>) -> int {
        choose|i: int| 0 <= i < self.config.pairs@.len() && legs_match(#[trigger] self.config.pairs@[i]@, a, b)
    }

    /// The error, if any, that a swap from `token_in` to `token_out` meets
    /// before any amount is computed.
    pub open spec fn swap_refusal(&self, token_in: Seq<u8>, token_out: Seq<u8>) -> Option<DexError> {
        if self.config.state != State::Active {
            Some(DexError::NotActive)
        } else if !self.config.has_pair(token_in, token_out) {
            Some(DexError::PairNotFound)
        } else if self.config.pairs@[self.pair_index(token_in, token_out)].state != PairState::Active {
            Some(DexError::PairNotActive)
        } else {
            None
        }
    }

    /// `after` is `self` with the swap settled: the pair of index `i` holds
    /// reserves `o.1`, `o.2` and `o.3` more has accrued to the operator in
    /// `fee_token`.
    pub open spec fn settled(
        self,
        i: int,
        token_out: Seq<u8>,
        fee_token: Seq<u8>,
        o: (int, int, int, int),
        after: Self,
    ) -> bool {
        &&& after.config.pair_views() == self.config.pair_views().update(
            i,
            with_reserves(self.config.pairs@[i]@, token_out, o.1, o.2),
        )
        &&& after.config.fees() == self.config.fees().insert(
            fee_token,
            accrued(self.config.fees(), fee_token, o.3) as u64,
        )
        &&& after.config == (ConfigModule {
            pairs: after.config.pairs,
            cummulated_fees: after.config.cummulated_fees,
            ..self.config
        })
        &&& after.pending == self.pending
        &&& after.next_request_id == self.next_request_id
    }

    proof fn lemma_pair_index(&self, a: Seq<u8>, b: Seq<u8>, i: int)
        requires
            self.wf(),
            0 <= i < self.config.pairs@.len(),
            legs_match(self.config.pairs@[i]@, a, b),
        ensures
            self.pair_index(a, b) == i,
    {
        let j = self.pair_index(a, b);
        let pi = self.config.pairs@[i];
        let pj = self.config.pairs@[j];
        if i < j {
            assert(!legs_match(pi@, pj.token@, pj.base_token@));
        } else if j < i {
            assert(!legs_match(pj@, pi.token@, pi.base_token@));
        }
    }

    /// Writes the new reserves of pair `i` and accrues the operator's fee.
    fn settle(
        &mut self,
        i: usize,
        token_out: &Vec<u8>,
        fee_token: &Vec<u8>,
        o: SwapOutcome,
    ) -> (r: Result<(), DexError>)
        requires
            old(self).wf(),
            i < old(self).config.pairs@.len(),
            old(self).config.pairs@[i as int].state == PairState::Active ==> o.new_liquidity_in > 0
                && o.new_liquidity_out > 0,
        ensures
            final(self).wf(),
            r == (if accrued(old(self).config.fees(), fee_token@, o.owner_fee as int) > u64::MAX {
                Err(DexError::AmountOverflow)
            } else {
                Ok(())
            }),
            r is Err ==> *final(self) == *old(self),
            r is Ok ==> old(self).settled(
                i as int,
                token_out@,
                fee_token@,
                (o.amount as int, o.new_liquidity_in as int, o.new_liquidity_out as int, o.owner_fee as int),
                *final(self),
            ),
    {
        match self.config.accrue_fee(fee_token, o.owner_fee) {
            Ok(()) => {},
            Err(e) => {
                return Err(e);
            },
        }
        let ghost mid = self.config;
        let mut pair = self.config.pairs[i].copy();
        if same_token(token_out, &pair.base_token) {
            pair.liquidity_token = o.new_liquidity_in;
            pair.liquidity_base = o.new_liquidity_out;
        } else {
            pair.liquidity_base = o.new_liquidity_in;
            pair.liquidity_token = o.new_liquidity_out;
        }
        let ghost old_pairs = self.config.pairs@;
        self.config.pairs.set(i, pair);
        proof {
            let pairs = self.config.pairs@;
            assert forall|j: int| 0 <= j < pairs.len() && j != i implies #[trigger] pairs[j] == old_pairs[j] by {}
            assert(self.config.pair_views() =~= old(self).config.pair_views().update(
                i as int,
                with_reserves(old_pairs[i as int]@, token_out@, o.new_liquidity_in as int, o.new_liquidity_out as int),
            ));
            assert(self.config.fee_entries() == mid.fee_entries());
            assert forall|a: int, b: int| 0 <= a < b < pairs.len() implies !legs_match(
                #[trigger] pairs[a]@,
                #[trigger] pairs[b].token@,
                pairs[b].base_token@,
            ) by {
                assert(!legs_match(old_pairs[a]@, old_pairs[b].token@, old_pairs[b].base_token@));
            }
            assert forall|j: int| 0 <= j < pairs.len() implies #[trigger] pairs[j].id == j by {
                assert(old_pairs[j].id == j);
            }
            assert forall|j: int| 0 <= j < pairs.len() && #[trigger] pairs[j].state == PairState::Active implies has_liquidity(pairs[j]@) by {
                if j != i {
                    assert(pairs[j] == old_pairs[j]);
                }
            }
            assert forall|q: int| 0 <= q < self.pending@.len() implies !self.config.has_pair(
                #[trigger] self.pending@[q].token@,
                self.pending@[q].base_token@,
            ) by {
                let pq = self.pending@[q];
                if self.config.has_pair(pq.token@, pq.base_token@) {
                    let j = choose|j: int| 0 <= j < pairs.len() && legs_match(#[trigger] pairs[j]@, pq.token@, pq.base_token@);
                    assert(legs_match(old_pairs[j]@, pq.token@, pq.base_token@));
                    assert(old(self).config.has_pair(pq.token@, pq.base_token@));
                }
            }
        }
        Ok(())
    }

    /// Swaps `amount_in` of `token_in`, paid by the caller, for at least
    /// `min_amount_out` of `token_out`; returns the output to pay out.
    pub fn swap_fixed_input(
        &mut self,
        token_in: &Vec<u8>,
        amount_in: u64,
        token_out: &Vec<u8>,
        min_amount_out: u64,
    ) -> (r: Result<u64, DexError>)
        requires
            old(self).wf(),
        ensures
            final(self).wf(),
            old(self).swap_refusal(token_in@, token_out@) matches Some(e) ==> r == Err::<u64, DexError>(e)
                && *final(self) == *old(self),
            old(self).swap_refusal(token_in@, token_out@) is None ==> {
                let c = old(self).config;
                let i = old(self).pair_index(token_in@, token_out@);
                let (li, lo) = reserves_for(c.pairs@[i]@, token_out@);
                let fee_in = c.is_base_token(token_in@);
                let o = fixed_input_outcome(amount_in as int, li as int, lo as int, c.lp_fee as int, c.owner_fee as int, fee_in);
                let fee_token = if fee_in { token_in@ } else { token_out@ };
                &&& !fits_u64(o) ==> r == Err::<u64, DexError>(DexError::AmountOverflow) && *final(self) == *old(self)
                &&& fits_u64(o) && o.0 < min_amount_out ==> r == Err::<u64, DexError>(DexError::InsufficientOutputAmount)
                    && *final(self) == *old(self)
                &&& fits_u64(o) && o.0 >= min_amount_out && accrued(c.fees(), fee_token, o.3) > u64::MAX ==> r
                    == Err::<u64, DexError>(DexError::AmountOverflow) && *final(self) == *old(self)
                &&& fits_u64(o) && o.0 >= min_amount_out && accrued(c.fees(), fee_token, o.3) <= u64::MAX ==> r
                    == Ok::<u64, DexError>(o.0 as u64) && old(self).settled(i, token_out@, fee_token, o, *final(self))
            },
    {
        if self.config.state != State::Active {
            return Err(DexError::NotActive);
        }
        let i = match self.config.find_pair(token_in, token_out) {
            Some(i) => i,
            None => {
                return Err(DexError::PairNotFound);
            },
        };
        proof {
            self.lemma_pair_index(token_in@, token_out@, i as int);
        }
        if self.config.pairs[i].state != PairState::Active {
            return Err(DexError::PairNotActive);
        }
        let fee_in = self.config.find_base_token(token_in).is_some();
        let out_is_base = same_token(token_out, &self.config.pairs[i].base_token);
        let (li, lo) = if out_is_base {
            (self.config.pairs[i].liquidity_token, self.config.pairs[i].liquidity_base)
        } else {
            (self.config.pairs[i].liquidity_base, self.config.pairs[i].liquidity_token)
        };
        let o = match self.do_swap_fixed_input(amount_in, li, lo, self.config.lp_fee, self.config.owner_fee, fee_in) {
            Ok(o) => o,
            Err(e) => {
                return Err(e);
            },
        };
        if o.amount < min_amount_out {
            return Err(DexError::InsufficientOutputAmount);
        }
        let fee_token = if fee_in { token_in } else { token_out };
        match self.settle(i, token_out, fee_token, o) {
            Ok(()) => Ok(o.amount),
            Err(e) => Err(e),
        }
    }

    /// Swaps what it takes of `token_in`, out of the caller's payment of
    /// `payment_amount`, for exactly `amount_out_wanted` of `token_out`;
    /// returns the input used. What is left of the payment is the caller's.
    pub fn swap_fixed_output(
        &mut self,
        token_in: &Vec<u8>,
        payment_amount: u64,
        token_out: &Vec<u8>,
        amount_out_wanted: u64,
    ) -> (r: Result<u64, DexError>)
        requires
            old(self).wf(),
        ensures
            final(self).wf(),
            old(self).swap_refusal(token_in@, token_out@) matches Some(e) ==> r == Err::<u64, DexError>(e)
                && *final(self) == *old(self),
            old(self).swap_refusal(token_in@, token_out@) is None ==> {
                let c = old(self).config;
                let i = old(self).pair_index(token_in@, token_out@);
                let (li, lo) = reserves_for(c.pairs@[i]@, token_out@);
                let fee_in = c.is_base_token(token_in@);
                let g = fixed_output_gross(amount_out_wanted as int, c.lp_fee as int, c.owner_fee as int, fee_in);
                let o = fixed_output_outcome(amount_out_wanted as int, li as int, lo as int, c.lp_fee as int, c.owner_fee as int, fee_in);
                let fee_token = if fee_in { token_in@ } else { token_out@ };
                &&& g >= lo ==> r == Err::<u64, DexError>(DexError::NotEnoughReserve) && *final(self) == *old(self)
                &&& g < lo && !fits_u64(o) ==> r == Err::<u64, DexError>(DexError::AmountOverflow) && *final(self) == *old(self)
                &&& g < lo && fits_u64(o) && o.0 > payment_amount ==> r == Err::<u64, DexError>(DexError::InsufficientInputAmount)
                    && *final(self) == *old(self)
                &&& g < lo && fits_u64(o) && o.0 <= payment_amount && accrued(c.fees(), fee_token, o.3) > u64::MAX ==> r
                    == Err::<u64, DexError>(DexError::AmountOverflow) && *final(self) == *old(self)
                &&& g < lo && fits_u64(o) && o.0 <= payment_amount && accrued(c.fees(), fee_token, o.3) <= u64::MAX ==> r
                    == Ok::<u64, DexError>(o.0 as u64) && old(self).settled(i, token_out@, fee_token, o, *final(self))
            },
    {
        if self.config.state != State::Active {
            return Err(DexError::NotActive);
        }
        let i = match self.config.find_pair(token_in, token_out) {
            Some(i) => i,
            None => {
                return Err(DexError::PairNotFound);
            },
        };
        proof {
            self.lemma_pair_index(token_in@, token_out@, i as int);
        }
        if self.config.pairs[i].state != PairState::Active {
            return Err(DexError::PairNotActive);
        }
        let fee_in = self.config.find_base_token(token_in).is_some();
        let out_is_base = same_token(token_out, &self.config.pairs[i].base_token);
        let (li, lo) = if out_is_base {
            (self.config.pairs[i].liquidity_token, self.config.pairs[i].liquidity_base)
        } else {
            (self.config.pairs[i].liquidity_base, self.config.pairs[i].liquidity_token)
        };
        let o = match self.do_swap_fixed_output(amount_out_wanted, li, lo, self.config.lp_fee, self.config.owner_fee, fee_in) {
            Ok(o) => o,
            Err(e) => {
                return Err(e);
            },
        };
        if o.amount > payment_amount {
            return Err(DexError::InsufficientInputAmount);
        }
        let fee_token = if fee_in { token_in } else { token_out };
        match self.settle(i, token_out, fee_token, o) {
            Ok(()) => Ok(o.amount),
            Err(e) => Err(e),
        }
    }
}

/// A pair that a successful issuance creates is in state `ActiveNoSwap` with
/// both reserves at zero, and cannot be moved to `Active` while they are:
/// for a caller allowed to, on an active exchange, the move fails with
/// `NoLiquidity`.
pub proof fn lemma_new_pair_needs_liquidity(
    before: TFNDEXContract,
    k: int,
    lp_token: Seq<u8>,
    after: TFNDEXContract,
    caller: Seq<u8>,
)
    requires
        before.wf(),
        0 <= k < before.pending@.len(),
        before.issue_succeeded(k, lp_token, after),
    ensures
        ({
            let id = before.config.pairs.len();
            &&& after.config.pairs@[id as int].state == PairState::ActiveNoSwap
            &&& after.config.pairs@[id as int].liquidity_token == 0
            &&& after.config.pairs@[id as int].liquidity_base == 0
            &&& after.pair_admin_error(caller, id, true) == (if !after.config.is_owner_or_launchpad(caller) {
                Some(DexError::Unauthorized)
            } else if after.config.state != State::Active {
                Some(DexError::NotActive)
            } else {
                Some(DexError::NoLiquidity)
            })
        }),
{
    let id = before.config.pairs@.len() as int;
    let p = after.config.pairs@[id];
    assert(after.config.pairs@.last() == p);
    assert(p@.state == PairState::ActiveNoSwap && p@.liquidity_token == 0);
}

/// A failed issuance hands back exactly the deposit of the request it
/// answers, to the one who made it, and leaves the pairs, and so the next pair
/// id, as they were before the request.
pub proof fn lemma_failed_issue_refunds_deposit(
    s0: TFNDEXContract,
    caller: Seq<u8>,
    base_token: Seq<u8>,
    token: Seq<u8>,
    payment: u64,
    request_id: u64,
    s1: TFNDEXContract,
    k: int,
    to: Seq<u8>,
    amount: u64,
    s2: TFNDEXContract,
)
    requires
        s0.issue_requested(caller, base_token, token, payment, request_id, s1),
        s1.wf(),
        0 <= k < s1.pending@.len(),
        s1.pending@[k].request_id == request_id,
        s1.issue_failed(k, to, amount, s2),
    ensures
        to == caller,
        amount == payment,
        s2.config.pairs@.len() == s0.config.pairs@.len(),
        s2.config == s0.config,
{
    let last = s1.pending@.len() - 1;
    if k < last {
        assert(s1.pending@[k].request_id != s1.pending@[last].request_id);
    }
}

} // verus!
