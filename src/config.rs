//! Stored configuration of the exchange: activation state, fee schedule and
//! accrued operator fees, base tokens, and the registry of pairs.
use vstd::prelude::*;
use crate::helpers::MAX_PERCENT;
use crate::token::{copy_token, same_token};

verus! {

/// Master switch of the exchange.
#[derive(Clone, Copy, Debug, PartialEq, Eq, Structural)]
pub enum State {
    Inactive,
    Active,
}

/// Lifecycle state of one pair.
#[derive(Clone, Copy, Debug, PartialEq, Eq, Structural)]
pub enum PairState {
    Inactive,
    ActiveNoSwap,
    Active,
}

/// Why an operation was refused. A refused operation changes nothing.
#[derive(Clone, Copy, Debug, PartialEq, Eq, Structural)]
pub enum DexError {
    /// The caller may not perform this operation.
    Unauthorized,
    /// The exchange is not active.
    NotActive,
    /// The exchange cannot be activated: no launchpad address or no base token.
    NotReady,
    /// The launchpad address was set before.
    LaunchpadAddressAlreadySet,
    /// The token is not a base token, or both legs of a pair are the same token.
    WrongBaseToken,
    /// The token is a base token already.
    BaseTokenExists,
    /// A pair has the token as its base token.
    BaseTokenInUse,
    /// A pair of these two tokens exists or is being created.
    PairExists,
    /// No pair has this id or these tokens.
    PairNotFound,
    /// The pair does not allow swaps.
    PairNotActive,
    /// The fee rates would add up to `MAX_PERCENT` or more.
    FeeTooHigh,
    /// The deposit for an issuance is not the issuance cost.
    WrongIssueCost,
    /// The pair holds no liquidity.
    NoLiquidity,
    /// The output of a swap is below the caller's minimum.
    InsufficientOutputAmount,
    /// The payment does not cover the input a swap needs.
    InsufficientInputAmount,
    /// The pool cannot pay the output asked for.
    NotEnoughReserve,
    /// An amount would not fit in 64 bits.
    AmountOverflow,
    /// No issuance request with this id is pending.
    UnknownIssueRequest,
}

/// One trading pair.
#[derive(Clone, Debug, PartialEq, Eq)]
pub struct Pair {
    pub id: usize,
    pub state: PairState,
    pub token: Vec<u8>,
    pub base_token: Vec<u8>,
    pub lp_token: Vec<u8>,
    pub lp_supply: u64,
    pub liquidity_token: u64,
    pub liquidity_base: u64,
}

/// A pair with its identifiers as byte sequences.
pub struct PairView {
    pub id: usize,
    pub state: PairState,
    pub token: Seq<u8>,
    pub base_token: Seq<u8>,
    pub lp_token: Seq<u8>,
    pub lp_supply: u64,
    pub liquidity_token: u64,
    pub liquidity_base: u64,
}

impl View for Pair {
    type V = PairView;

    open spec fn view(&self) -> PairView {
        PairView {
            id: self.id,
            state: self.state,
            token: self.token@,
            base_token: self.base_token@,
            lp_token: self.lp_token@,
            lp_supply: self.lp_supply,
            liquidity_token: self.liquidity_token,
            liquidity_base: self.liquidity_base,
        }
    }
}

/// Whether the pair `p` is the pair of `a` and `b`, in either order.
pub open spec fn legs_match(p: PairView, a: Seq<u8>, b: Seq<u8>) -> bool {
    (p.base_token == a && p.token == b) || (p.token == a && p.base_token == b)
}

impl Pair {
    /// A copy of this pair.
    pub fn copy(&self) -> (r: Pair)
        ensures
            r@ == self@,
    {
        Pair {
            id: self.id,
            state: self.state,
            token: copy_token(&self.token),
            base_token: copy_token(&self.base_token),
            lp_token: copy_token(&self.lp_token),
            lp_supply: self.lp_supply,
            liquidity_token: self.liquidity_token,
            liquidity_base: self.liquidity_base,
        }
    }
}

/// What the operator's fees hold, per token, for a list of `(token, amount)`
/// entries; a later entry wins over an earlier one of the same token.
pub open spec fn fees_map(s: Seq<(Seq<u8>, u64)>) -> Map<Seq<u8>, u64>
    decreases s.len(),
{
    if s.len() == 0 {
        Map::empty()
    } else {
        fees_map(s.drop_last()).insert(s.last().0, s.last().1)
    }
}

/// No token appears twice among the entries.
pub open spec fn keys_unique(s: Seq<(Seq<u8>, u64)>) -> bool {
    forall|i: int, j: int| 0 <= i < j < s.len() ==> s[i].0 != s[j].0
}

proof fn lemma_fees_map_lookup(s: Seq<(Seq<u8>, u64)>, i: int)
    requires
        keys_unique(s),
        0 <= i < s.len(),
    ensures
        fees_map(s).contains_key(s[i].0),
        fees_map(s)[s[i].0] == s[i].1,
    decreases s.len(),
{
    if i < s.len() - 1 {
        let d = s.drop_last();
        assert(d[i] == s[i]);
        assert(keys_unique(d));
        lemma_fees_map_lookup(d, i);
        assert(s.last().0 != s[i].0);
    }
}

proof fn lemma_fees_map_absent(s: Seq<(Seq<u8>, u64)>, k: Seq<u8>)
    requires
        forall|i: int| 0 <= i < s.len() ==> s[i].0 != k,
    ensures
        !fees_map(s).contains_key(k),
    decreases s.len(),
{
    if s.len() > 0 {
        let d = s.drop_last();
        assert forall|i: int| 0 <= i < d.len() implies d[i].0 != k by {
            assert(d[i] == s[i]);
        }
        lemma_fees_map_absent(d, k);
    }
}

proof fn lemma_fees_map_update(s: Seq<(Seq<u8>, u64)>, i: int, v: u64)
    requires
        keys_unique(s),
        0 <= i < s.len(),
    ensures
        fees_map(s.update(i, (s[i].0, v))) == fees_map(s).insert(s[i].0, v),
    decreases s.len(),
{
    let u = s.update(i, (s[i].0, v));
    let d = s.drop_last();
    if i == s.len() - 1 {
        assert(u.drop_last() =~= d);
        assert(fees_map(u) =~= fees_map(s).insert(s[i].0, v));
    } else {
        assert(d[i] == s[i]);
        assert(keys_unique(d));
        lemma_fees_map_update(d, i, v);
        assert(u.drop_last() =~= d.update(i, (d[i].0, v)));
        assert(u.last() == s.last());
        assert(s.last().0 != s[i].0);
        assert(fees_map(u) =~= fees_map(s).insert(s[i].0, v));
    }
}

/// The stored state of the exchange.
pub struct ConfigModule {
    /// Owner of the exchange.
    pub owner: Vec<u8>,
    pub state: State,
    /// The governance service, once it has registered itself.
    pub launchpad_address: Option<Vec<u8>>,
    pub lp_fee: u64,
    pub owner_fee: u64,
    /// Operator fees not withdrawn yet, one entry per token.
    pub cummulated_fees: Vec<(Vec<u8>, u64)>,
    /// Tokens that may be the base of a pair, each once.
    pub base_tokens: Vec<Vec<u8>>,
    /// The pairs, the pair of id `i` at index `i`.
    pub pairs: Vec<Pair>,
}

impl ConfigModule {
    pub open spec fn base_seq(&self) -> Seq<Seq<u8>> {
        self.base_tokens@.map_values(|t: Vec<u8>| t@)
    }

    /// Whether `t` is a base token.
    pub open spec fn is_base_token(&self, t: Seq<u8>) -> bool {
        self.base_seq().contains(t)
    }

    pub open spec fn pair_views(&self) -> Seq<PairView> {
        self.pairs@.map_values(|p: Pair| p@)
    }

    pub open spec fn fee_entries(&self) -> Seq<(Seq<u8>, u64)> {
        self.cummulated_fees@.map_values(|e: (Vec<u8>, u64)| (e.0@, e.1))
    }

    /// The operator's accrued fees, per token.
    pub open spec fn fees(&self) -> Map<Seq<u8>, u64> {
        fees_map(self.fee_entries())
    }

    /// Whether `caller` is the owner.
    pub open spec fn is_owner(&self, caller: Seq<u8>) -> bool {
        caller == self.owner@
    }

    /// Whether `caller` is the owner or the governance service.
    pub open spec fn is_owner_or_launchpad(&self, caller: Seq<u8>) -> bool {
        caller == self.owner@ || (self.launchpad_address.is_some() && caller
            == self.launchpad_address.unwrap()@)
    }

    /// Whether some pair has `t` as its base token.
    pub open spec fn base_token_in_use(&self, t: Seq<u8>) -> bool {
        exists|i: int| 0 <= i < self.pairs@.len() && #[trigger] self.pairs@[i].base_token@ == t
    }

    /// Whether some pair is the pair of `a` and `b`.
    pub open spec fn has_pair(&self, a: Seq<u8>, b: Seq<u8>) -> bool {
        exists|i: int| 0 <= i < self.pairs@.len() && legs_match(#[trigger] self.pairs@[i]@, a, b)
    }

    /// The invariant of the stored state.
    pub open spec fn wf(&self) -> bool {
        &&& self.lp_fee + self.owner_fee < MAX_PERCENT
        &&& forall|i: int, j: int|
            0 <= i < j < self.base_tokens@.len() ==> self.base_tokens@[i]@ != self.base_tokens@[j]@
        &&& keys_unique(self.fee_entries())
        &&& forall|i: int| 0 <= i < self.pairs@.len() ==> #[trigger] self.pairs@[i].id == i
        &&& forall|i: int, j: int|
            0 <= i < j < self.pairs@.len() ==> !legs_match(
                #[trigger] self.pairs@[i]@,
                #[trigger] self.pairs@[j].token@,
                self.pairs@[j].base_token@,
            )
    }

    /// A new exchange owned by `owner`: inactive, with no fees, no base token
    /// and no pair.
    pub fn new(owner: Vec<u8>) -> (r: ConfigModule)
        ensures
            r.wf(),
            r.owner@ == owner@,
            r.state == State::Inactive,
            r.launchpad_address.is_none(),
            r.lp_fee == 0,
            r.owner_fee == 0,
            r.cummulated_fees@.len() == 0,
            r.base_tokens@.len() == 0,
            r.pairs@.len() == 0,
    {
        ConfigModule {
            owner,
            state: State::Inactive,
            launchpad_address: None,
            lp_fee: 0,
            owner_fee: 0,
            cummulated_fees: Vec::new(),
            base_tokens: Vec::new(),
            pairs: Vec::new(),
        }
    }

    /// Whether `caller` is the owner.
    pub fn is_owner_exec(&self, caller: &Vec<u8>) -> (r: bool)
        ensures
            r == self.is_owner(caller@),
    {
        same_token(caller, &self.owner)
    }

    /// Whether `caller` is the owner or the governance service.
    pub fn only_owner_or_launchpad(&self, caller: &Vec<u8>) -> (r: bool)
        ensures
            r == self.is_owner_or_launchpad(caller@),
    {
        if same_token(caller, &self.owner) {
            return true;
        }
        match &self.launchpad_address {
            Some(a) => same_token(caller, a),
            None => false,
        }
    }

    /// Activates the exchange, if a launchpad address is set and there is a
    /// base token.
    fn activate(&mut self) -> (r: Result<(), DexError>)
        ensures
            r == (if old(self).launchpad_address.is_some() && old(self).base_tokens@.len() > 0 {
                Ok(())
            } else {
                Err(DexError::NotReady)
            }),
            r is Err ==> *final(self) == *old(self),
            r is Ok ==> *final(self) == (ConfigModule { state: State::Active, ..*old(self) }),
    {
        if self.launchpad_address.is_none() || self.base_tokens.len() == 0 {
            return Err(DexError::NotReady);
        }
        self.state = State::Active;
        Ok(())
    }

    /// Owner only: activates the exchange. It needs a launchpad address and
    /// at least one base token.
    pub fn set_state_active(&mut self, caller: &Vec<u8>) -> (r: Result<(), DexError>)
        ensures
            r == (if !old(self).is_owner(caller@) {
                Err(DexError::Unauthorized)
            } else if old(self).launchpad_address.is_none() || old(self).base_tokens@.len() == 0 {
                Err(DexError::NotReady)
            } else {
                Ok(())
            }),
            r is Err ==> *final(self) == *old(self),
            r is Ok ==> *final(self) == (ConfigModule { state: State::Active, ..*old(self) }),
    {
        if !self.is_owner_exec(caller) {
            return Err(DexError::Unauthorized);
        }
        self.activate()
    }

    /// Owner only: deactivates the exchange.
    pub fn set_state_inactive(&mut self, caller: &Vec<u8>) -> (r: Result<(), DexError>)
        ensures
            r == (if old(self).is_owner(caller@) { Ok(()) } else { Err(DexError::Unauthorized) }),
            r is Err ==> *final(self) == *old(self),
            r is Ok ==> *final(self) == (ConfigModule { state: State::Inactive, ..*old(self) }),
    {
        if !self.is_owner_exec(caller) {
            return Err(DexError::Unauthorized);
        }
        self.state = State::Inactive;
        Ok(())
    }

    /// Owner only: sets the liquidity providers' fee rate.
    pub fn set_lp_fee(&mut self, caller: &Vec<u8>, fee: u64) -> (r: Result<(), DexError>)
        requires
            old(self).wf(),
        ensures
            final(self).wf(),
            r == (if !old(self).is_owner(caller@) {
                Err(DexError::Unauthorized)
            } else if fee + old(self).owner_fee >= MAX_PERCENT {
                Err(DexError::FeeTooHigh)
            } else {
                Ok(())
            }),
            r is Err ==> *final(self) == *old(self),
            r is Ok ==> *final(self) == (ConfigModule { lp_fee: fee, ..*old(self) }),
    {
        if !self.is_owner_exec(caller) {
            return Err(DexError::Unauthorized);
        }
        if fee >= MAX_PERCENT || fee + self.owner_fee >= MAX_PERCENT {
            return Err(DexError::FeeTooHigh);
        }
        self.lp_fee = fee;
        Ok(())
    }

    /// Owner only: sets the operator's fee rate.
    pub fn set_owner_fee(&mut self, caller: &Vec<u8>, fee: u64) -> (r: Result<(), DexError>)
        requires
            old(self).wf(),
        ensures
            final(self).wf(),
            r == (if !old(self).is_owner(caller@) {
                Err(DexError::Unauthorized)
            } else if fee + old(self).lp_fee >= MAX_PERCENT {
                Err(DexError::FeeTooHigh)
            } else {
                Ok(())
            }),
            r is Err ==> *final(self) == *old(self),
            r is Ok ==> *final(self) == (ConfigModule { owner_fee: fee, ..*old(self) }),
    {
        if !self.is_owner_exec(caller) {
            return Err(DexError::Unauthorized);
        }
        if fee >= MAX_PERCENT || fee + self.lp_fee >= MAX_PERCENT {
            return Err(DexError::FeeTooHigh);
        }
        self.owner_fee = fee;
        Ok(())
    }

    /// The index of base token `t`, if it is one.
    pub fn find_base_token(&self, t: &Vec<u8>) -> (r: Option<usize>)
        ensures
            r is None <==> !self.is_base_token(t@),
            r matches Some(i) ==> i < self.base_tokens@.len() && self.base_tokens@[i as int]@ == t@,
    {
        let mut i: usize = 0;
        while i < self.base_tokens.len()
            invariant
                0 <= i <= self.base_tokens@.len(),
                forall|j: int| 0 <= j < i ==> self.base_tokens@[j]@ != t@,
            decreases self.base_tokens@.len() - i,
        {
            if same_token(&self.base_tokens[i], t) {
                assert(self.base_seq()[i as int] == t@);
                return Some(i);
            }
            i = i + 1;
        }
        assert forall|j: int| 0 <= j < self.base_seq().len() implies self.base_seq()[j] != t@ by {
            assert(self.base_seq()[j] == self.base_tokens@[j]@);
        }
        None
    }

    /// Adds `t` to the base tokens; it must not be one yet.
    pub(crate) fn insert_base_token(&mut self, t: &Vec<u8>)
        requires
            old(self).wf(),
            !old(self).is_base_token(t@),
        ensures
            final(self).wf(),
            forall|x: Seq<u8>| final(self).is_base_token(x) <==> (old(self).is_base_token(x) || x == t@),
            final(self).base_tokens@.len() > 0,
            *final(self) == (ConfigModule { base_tokens: final(self).base_tokens, ..*old(self) }),
    {
        let ghost before = self.base_seq();
        self.base_tokens.push(copy_token(t));
        assert(self.base_seq() =~= before.push(t@));
        assert forall|i: int| 0 <= i < before.len() implies self.base_tokens@[i]@ != t@ by {
            assert(before[i] == self.base_tokens@[i]@);
        }
        assert forall|x: Seq<u8>| self.is_base_token(x) <==> (before.contains(x) || x == t@) by {
            if self.is_base_token(x) && x != t@ {
                let k = choose|k: int| 0 <= k < self.base_seq().len() && self.base_seq()[k] == x;
                assert(before[k] == x);
            }
            if before.contains(x) {
                let k = choose|k: int| 0 <= k < before.len() && before[k] == x;
                assert(self.base_seq()[k] == x);
            }
            if x == t@ {
                assert(self.base_seq()[before.len() as int] == x);
            }
        }
    }

    /// Registers the caller as the governance service, once: `governance_token`
    /// (the service's designated base token) becomes a base token and the
    /// exchange is activated.
    pub fn set_launchpad_address(&mut self, caller: &Vec<u8>, governance_token: &Vec<u8>) -> (r: Result<(), DexError>)
        requires
            old(self).wf(),
        ensures
            final(self).wf(),
            r == (if old(self).launchpad_address.is_some() {
                Err(DexError::LaunchpadAddressAlreadySet)
            } else {
                Ok(())
            }),
            r is Err ==> *final(self) == *old(self),
            r is Ok ==> {
                &&& final(self).launchpad_address matches Some(a) && a@ == caller@
                &&& final(self).state == State::Active
                &&& forall|x: Seq<u8>| final(self).is_base_token(x) <==> (old(self).is_base_token(x)
                    || x == governance_token@)
                &&& final(self).owner == old(self).owner
                &&& final(self).lp_fee == old(self).lp_fee
                &&& final(self).owner_fee == old(self).owner_fee
                &&& final(self).cummulated_fees == old(self).cummulated_fees
                &&& final(self).pairs == old(self).pairs
            },
    {
        if self.launchpad_address.is_some() {
            return Err(DexError::LaunchpadAddressAlreadySet);
        }
        self.launchpad_address = Some(copy_token(caller));
        self.state = State::Active;
        assert(self.base_seq() == old(self).base_seq());
        if self.find_base_token(governance_token).is_none() {
            self.insert_base_token(governance_token);
        } else {
            assert forall|x: Seq<u8>| #[trigger] self.is_base_token(x) <==> (old(self).is_base_token(x)
                || x == governance_token@) by {
                assert(self.base_seq() == old(self).base_seq());
            }
        }
        Ok(())
    }

    /// Adds `amount` to the operator's fees in `token`.
    pub fn accrue_fee(&mut self, token: &Vec<u8>, amount: u64) -> (r: Result<(), DexError>)
        requires
            old(self).wf(),
        ensures
            final(self).wf(),
            r == (if old(self).fees().contains_key(token@) && old(self).fees()[token@] + amount
                > u64::MAX {
                Err(DexError::AmountOverflow)
            } else {
                Ok(())
            }),
            r is Err ==> *final(self) == *old(self),
            r is Ok ==> final(self).fees() == old(self).fees().insert(
                token@,
                (if old(self).fees().contains_key(token@) {
                    old(self).fees()[token@] + amount
                } else {
                    amount as int
                }) as u64,
            ),
            *final(self) == (ConfigModule { cummulated_fees: final(self).cummulated_fees, ..*old(self) }),
    {
        let ghost entries = self.fee_entries();
        let mut i: usize = 0;
        while i < self.cummulated_fees.len()
            invariant
                0 <= i <= self.cummulated_fees@.len(),
                entries == self.fee_entries(),
                entries == old(self).fee_entries(),
                self.wf(),
                *self == *old(self),
                forall|j: int| 0 <= j < i ==> entries[j].0 != token@,
            decreases self.cummulated_fees@.len() - i,
        {
            assert(entries[i as int] == (self.cummulated_fees@[i as int].0@, self.cummulated_fees@[i as int].1));
            if same_token(&self.cummulated_fees[i].0, token) {
                proof {
                    lemma_fees_map_lookup(entries, i as int);
                }
                let current = self.cummulated_fees[i].1;
                if current > u64::MAX - amount {
                    return Err(DexError::AmountOverflow);
                }
                self.cummulated_fees.set(i, (copy_token(token), current + amount));
                proof {
                    lemma_fees_map_update(entries, i as int, (current + amount) as u64);
                    assert(self.fee_entries() =~= entries.update(i as int, (entries[i as int].0, (current + amount) as u64)));
                }
                return Ok(());
            }
            i = i + 1;
        }
        proof {
            lemma_fees_map_absent(entries, token@);
        }
        self.cummulated_fees.push((copy_token(token), amount));
        proof {
            assert(self.fee_entries() =~= entries.push((token@, amount)));
            assert(self.fee_entries().drop_last() =~= entries);
        }
        Ok(())
    }

    /// Owner only: hands out every accrued operator fee, as one batch of
    /// `(token, amount)` payments, and clears them.
    pub fn withdraw_fees(&mut self, caller: &Vec<u8>) -> (r: Result<Vec<(Vec<u8>, u64)>, DexError>)
        requires
            old(self).wf(),
        ensures
            final(self).wf(),
            r is Err <==> !old(self).is_owner(caller@),
            r is Err ==> r == Err::<Vec<(Vec<u8>, u64)>, DexError>(DexError::Unauthorized)
                && *final(self) == *old(self),
            r matches Ok(p) ==> {
                &&& p@.map_values(|e: (Vec<u8>, u64)| (e.0@, e.1)) == old(self).fee_entries()
                &&& final(self).cummulated_fees@.len() == 0
                &&& final(self).fees() == Map::<Seq<u8>, u64>::empty()
                &&& *final(self) == (ConfigModule { cummulated_fees: final(self).cummulated_fees, ..*old(self) })
            },
    {
        if !self.is_owner_exec(caller) {
            return Err(DexError::Unauthorized);
        }
        let mut payments: Vec<(Vec<u8>, u64)> = Vec::new();
        std::mem::swap(&mut payments, &mut self.cummulated_fees);
        assert(self.fee_entries() =~= Seq::<(Seq<u8>, u64)>::empty());
        Ok(payments)
    }

    /// Every pair, by id.
    pub fn get_pairs(&self) -> (r: Vec<Pair>)
        ensures
            r@.map_values(|p: Pair| p@) == self.pair_views(),
    {
        let mut r: Vec<Pair> = Vec::new();
        let mut i: usize = 0;
        while i < self.pairs.len()
            invariant
                0 <= i <= self.pairs@.len(),
                r@.len() == i,
                forall|k: int| 0 <= k < i ==> #[trigger] r@[k]@ == self.pairs@[k]@,
            decreases self.pairs@.len() - i,
        {
            r.push(self.pairs[i].copy());
            i = i + 1;
        }
        assert(r@.map_values(|p: Pair| p@) =~= self.pair_views());
        r
    }

    /// The pair of id `id`.
    pub fn get_pair(&self, id: usize) -> (r: Option<Pair>)
        ensures
            r is None <==> id >= self.pairs@.len(),
            r matches Some(p) ==> p@ == self.pairs@[id as int]@,
    {
        if id < self.pairs.len() {
            Some(self.pairs[id].copy())
        } else {
            None
        }
    }

    /// The number of pairs, which is also the id the next pair gets.
    pub fn last_pair_id(&self) -> (r: usize)
        ensures
            r == self.pairs@.len(),
    {
        self.pairs.len()
    }

    /// The index of the first pair of `a` and `b`, in either order.
    pub fn find_pair(&self, a: &Vec<u8>, b: &Vec<u8>) -> (r: Option<usize>)
        ensures
            r is None <==> !self.has_pair(a@, b@),
            r matches Some(i) ==> i < self.pairs@.len() && legs_match(self.pairs@[i as int]@, a@, b@)
                && forall|j: int| 0 <= j < i ==> !legs_match(#[trigger] self.pairs@[j]@, a@, b@),
    {
        let mut i: usize = 0;
        while i < self.pairs.len()
            invariant
                0 <= i <= self.pairs@.len(),
                forall|j: int| 0 <= j < i ==> !legs_match(#[trigger] self.pairs@[j]@, a@, b@),
            decreases self.pairs@.len() - i,
        {
            let p = &self.pairs[i];
            if (same_token(&p.base_token, a) && same_token(&p.token, b)) || (same_token(&p.token, a)
                && same_token(&p.base_token, b)) {
                assert(legs_match(self.pairs@[i as int]@, a@, b@));
                return Some(i);
            }
            i = i + 1;
        }
        None
    }

    /// The first pair of `a` and `b`, in either order.
    pub fn get_pair_by_tickers(&self, a: &Vec<u8>, b: &Vec<u8>) -> (r: Option<Pair>)
        ensures
            r is None <==> !self.has_pair(a@, b@),
            r matches Some(p) ==> exists|i: int|
                0 <= i < self.pairs@.len() && p@ == self.pairs@[i]@ && legs_match(p@, a@, b@)
                    && forall|j: int| 0 <= j < i ==> !legs_match(#[trigger] self.pairs@[j]@, a@, b@),
    {
        match self.find_pair(a, b) {
            Some(i) => Some(self.pairs[i].copy()),
            None => None,
        }
    }

    /// The first pair whose receipt token is `lp_token`.
    pub fn get_pair_by_lp_token(&self, lp_token: &Vec<u8>) -> (r: Option<Pair>)
        ensures
            r is None <==> forall|j: int| 0 <= j < self.pairs@.len() ==> #[trigger] self.pairs@[j].lp_token@ != lp_token@,
            r matches Some(p) ==> exists|i: int|
                0 <= i < self.pairs@.len() && p@ == self.pairs@[i]@ && p.lp_token@ == lp_token@
                    && forall|j: int| 0 <= j < i ==> #[trigger] self.pairs@[j].lp_token@ != lp_token@,
    {
        let mut i: usize = 0;
        while i < self.pairs.len()
            invariant
                0 <= i <= self.pairs@.len(),
                forall|j: int| 0 <= j < i ==> #[trigger] self.pairs@[j].lp_token@ != lp_token@,
            decreases self.pairs@.len() - i,
        {
            if same_token(&self.pairs[i].lp_token, lp_token) {
                return Some(self.pairs[i].copy());
            }
            i = i + 1;
        }
        None
    }
}

} // verus!
