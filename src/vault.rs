//! The lending vault: claim shares for lenders, debt shares for borrowing farms.
use vstd::prelude::*;
use vstd::arithmetic::div_mod::{lemma_div_by_multiple, lemma_div_is_ordered, lemma_fundamental_div_mod};
use std::collections::HashMap;
use crate::asset::{same_asset, Asset, AssetInfo};
use crate::error::ContractError;
use crate::interest::{accrue, accrued_debt, lemma_accrual_monotone};
use crate::sums::{lemma_map_sum_insert, lemma_map_sum_remove, lemma_seq_sum_suffix, map_sum, seq_sum};
use crate::math::{fit_u128, share_from_value, share_of, value_from_share, value_of};

verus! {

broadcast use vstd::std_specs::hash::group_hash_axioms;

/// One loan of the vault to a farm.
#[derive(Debug)]
pub struct Position {
    pub id: u128,
    pub farm_addr: String,
    pub debt_share: u128,
}

/// What a position query answers: the stored position and its current debt value.
#[derive(Debug)]
pub struct PositionResponse {
    pub id: u128,
    pub debt_share: u128,
    pub farm_addr: String,
    pub debt_value: u128,
}

/// The messages a token contract forwards to the vault along with tokens.
#[derive(Debug, Clone, Copy, PartialEq, Eq, Structural)]
pub enum Cw20HookMsg {
    Deposit,
    Withdraw,
    Repay { position_id: u128 },
}

/// What a repayment settled: the excess handed back and the position's remaining debt share.
#[derive(Debug, Clone, Copy, PartialEq, Eq, Structural)]
pub struct RepayOutcome {
    pub refund: u128,
    pub debt_share: u128,
}

/// The vault's ledger.
#[derive(Debug)]
pub struct Vault {
    pub last_id: u128,
    pub asset_info: AssetInfo,
    pub vault_token_addr: String,
    pub total_debt_shares: u128,
    pub total_debt: u128,
    pub reserve_pool: u128,
    pub reserve_pool_bps: u64,
    pub whitelisted_farms: Vec<String>,
    pub admin: String,
    pub last_accrue_timestamp: u64,
    pub positions: HashMap<u128, Position>,
}

/// `on_hand + debt - reserve`, or `MathError` where a step leaves the `u128` range.
pub open spec fn balance_of(on_hand: int, debt: int, reserve: int) -> Result<u128, ContractError> {
    if on_hand + debt > u128::MAX {
        Err(ContractError::MathError)
    } else {
        fit_u128(on_hand + debt - reserve)
    }
}

/// The positions of a stored list by id; an earlier entry wins over a later one of
/// the same id.
pub open spec fn positions_by_id(s: Seq<Position>) -> Map<u128, Position>
    decreases s.len(),
{
    if s.len() == 0 {
        Map::empty()
    } else {
        positions_by_id(s.drop_first()).insert(s[0].id, s[0])
    }
}

/// The weight of a position in the total debt shares.
pub open spec fn debt_weight() -> spec_fn(Position) -> int {
    |p: Position| p.debt_share as int
}

/// Sum of the debt shares in a list of positions.
pub open spec fn list_debt_shares(s: Seq<Position>) -> int {
    seq_sum(s, debt_weight())
}

/// Sum of the debt shares of the positions in `m`.
pub open spec fn sum_debt_shares(m: Map<u128, Position>) -> int {
    map_sum(m, debt_weight())
}

proof fn lemma_sum_remove(m: Map<u128, Position>, k: u128)
    requires
        m.dom().finite(),
        m.dom().contains(k),
    ensures
        sum_debt_shares(m) == m[k].debt_share + sum_debt_shares(m.remove(k)),
        sum_debt_shares(m.remove(k)) >= 0,
{
    lemma_map_sum_remove(m, debt_weight(), k);
}

proof fn lemma_sum_insert(m: Map<u128, Position>, k: u128, p: Position)
    requires
        m.dom().finite(),
    ensures
        m.dom().contains(k) ==> sum_debt_shares(m.insert(k, p)) == sum_debt_shares(m)
            - m[k].debt_share + p.debt_share,
        !m.dom().contains(k) ==> sum_debt_shares(m.insert(k, p)) == sum_debt_shares(m)
            + p.debt_share,
{
    lemma_map_sum_insert(m, debt_weight(), k, p);
}

impl Vault {
    /// Debt shares are zero exactly when debt is zero, and the positions' debt shares
    /// partition the total; every position is stored under its own id, which the id
    /// counter has already handed out.
    pub open spec fn wf(&self) -> bool {
        &&& (self.total_debt_shares == 0) == (self.total_debt == 0)
        &&& sum_debt_shares(self.positions@) == self.total_debt_shares
        &&& forall|k: u128| #[trigger]
            self.positions@.contains_key(k) ==> k <= self.last_id && self.positions@[k].id == k
    }

    pub open spec fn is_whitelisted(&self, addr: Seq<char>) -> bool {
        exists|i: int| 0 <= i < self.whitelisted_farms@.len() && #[trigger] self.whitelisted_farms@[i]@ == addr
    }

    /// Total debt once interest is applied up to `now`, with `on_hand` of the asset held.
    pub open spec fn accrual(&self, now: u64, on_hand: u128) -> Result<u128, ContractError> {
        match balance_of(on_hand as int, self.total_debt as int, self.reserve_pool as int) {
            Err(e) => Err(e),
            Ok(balance) => if self.total_debt == 0 {
                Ok(0u128)
            } else if balance == 0 {
                Err(ContractError::MathError)
            } else {
                accrued_debt(now - self.last_accrue_timestamp, balance as int, self.total_debt as int)
            },
        }
    }

    /// This ledger with the total debt and the accrual timestamp replaced.
    pub open spec fn accrued(&self, debt: u128, now: u64) -> Vault {
        Vault { total_debt: debt, last_accrue_timestamp: now, ..*self }
    }

    /// The vault's asset is the token contract `token`.
    pub open spec fn accepts_token(&self, token: Seq<char>) -> bool {
        match self.asset_info {
            AssetInfo::Token { contract_addr } => contract_addr@ == token,
            AssetInfo::NativeToken { .. } => false,
        }
    }

    /// Claim shares minted for a deposit of `asset`, and the total debt after accrual.
    /// `on_hand` is the vault's holding once the deposit has arrived; a holding below
    /// the amount claimed means the funds did not arrive (`WrongAmount`).
    pub open spec fn deposit_outcome(
        &self,
        asset: Asset,
        total_claim_shares: u128,
        on_hand: u128,
        now: u64,
    ) -> Result<(u128, u128), ContractError> {
        if !same_asset(asset.info, self.asset_info) {
            Err(ContractError::WrongToken)
        } else if on_hand < asset.amount {
            Err(ContractError::WrongAmount { amount: asset.amount })
        } else {
            let before = (on_hand - asset.amount) as u128;
            match self.accrual(now, before) {
                Err(e) => Err(e),
                Ok(debt) => if total_claim_shares == 0 {
                    Ok((asset.amount, debt))
                } else {
                    match balance_of(before as int, debt as int, self.reserve_pool as int) {
                        Err(e) => Err(e),
                        Ok(b) => if b == 0 {
                            Err(ContractError::MathError)
                        } else {
                            match fit_u128(
                                share_of(total_claim_shares as int, b as int, asset.amount as int),
                            ) {
                                Err(e) => Err(e),
                                Ok(minted) => Ok((minted, debt)),
                            }
                        },
                    }
                },
            }
        }
    }

    /// Asset paid out for `claim_shares` claim shares sent back through `token`,
    /// and the total debt after accrual.
    pub open spec fn withdraw_outcome(
        &self,
        token: Seq<char>,
        claim_shares: u128,
        total_claim_shares: u128,
        on_hand: u128,
        now: u64,
    ) -> Result<(u128, u128), ContractError> {
        if token != self.vault_token_addr@ {
            Err(ContractError::WrongToken)
        } else {
            match self.accrual(now, on_hand) {
                Err(e) => Err(e),
                Ok(debt) => match balance_of(on_hand as int, debt as int, self.reserve_pool as int) {
                    Err(e) => Err(e),
                    Ok(b) => match fit_u128(
                        value_of(total_claim_shares as int, b as int, claim_shares as int),
                    ) {
                        Err(e) => Err(e),
                        Ok(amount) => if amount > on_hand {
                            Err(ContractError::InsufficientFunds)
                        } else {
                            Ok((amount, debt))
                        },
                    },
                },
            }
        }
    }

    /// Debt share of a new loan of `amount` to `farm`, and the total debt after accrual.
    pub open spec fn borrow_outcome(
        &self,
        farm: Seq<char>,
        amount: u128,
        on_hand: u128,
        now: u64,
    ) -> Result<(u128, u128), ContractError> {
        if !self.is_whitelisted(farm) {
            Err(ContractError::Unauthorized)
        } else {
            match self.accrual(now, on_hand) {
                Err(e) => Err(e),
                Ok(debt) => match fit_u128(
                    share_of(self.total_debt_shares as int, debt as int, amount as int),
                ) {
                    Err(e) => Err(e),
                    Ok(share) => if self.last_id == u128::MAX || self.total_debt_shares + share
                        > u128::MAX || debt + amount > u128::MAX {
                        Err(ContractError::MathError)
                    } else {
                        Ok((share, debt))
                    },
                },
            }
        }
    }

    /// What repaying `amount` of position `id` settles, with the new total debt and
    /// the new total debt shares. The debt left after the payment is re-expressed in
    /// shares of the rest of the pool (the other positions' shares and debt), so their
    /// claims stay as they were; where the position holds every debt share, the rest
    /// is empty and the remaining debt starts the pool afresh, one share per unit.
    pub open spec fn repay_outcome(
        &self,
        token: Seq<char>,
        id: u128,
        amount: u128,
        on_hand: u128,
        now: u64,
    ) -> Result<(RepayOutcome, u128, u128), ContractError> {
        if !self.accepts_token(token) {
            Err(ContractError::WrongToken)
        } else if !self.positions@.contains_key(id) {
            Err(ContractError::NotFound)
        } else {
            match self.accrual(now, on_hand) {
                Err(e) => Err(e),
                Ok(debt) => {
                    let share = self.positions@[id].debt_share;
                    let total = self.total_debt_shares;
                    match fit_u128(value_of(total as int, debt as int, share as int)) {
                            Err(e) => Err(e),
                            Ok(dv) => {
                                let refund = if amount > dv { amount - dv } else { 0 };
                                let left = if amount > dv { 0 } else { dv - amount };
                                match fit_u128(share_of(total - share, debt - dv, left)) {
                                    Err(e) => Err(e),
                                    Ok(fs) => Ok(
                                        (
                                            RepayOutcome { refund: refund as u128, debt_share: fs },
                                            (debt - dv + left) as u128,
                                            (total - share + fs) as u128,
                                        ),
                                    ),
                                }
                            },
                        }
                },
            }
        }
    }

    pub fn new(
        asset_info: AssetInfo,
        reserve_pool_bps: u64,
        whitelisted_farms: Vec<String>,
        admin: String,
        now: u64,
    ) -> (r: Vault)
        ensures
            r.wf(),
            r.last_id == 0,
            r.asset_info == asset_info,
            r.vault_token_addr@.len() == 0,
            r.total_debt_shares == 0,
            r.total_debt == 0,
            r.reserve_pool == 0,
            r.reserve_pool_bps == reserve_pool_bps,
            r.whitelisted_farms == whitelisted_farms,
            r.admin == admin,
            r.last_accrue_timestamp == now,
            r.positions@ == Map::<u128, Position>::empty(),
    {
        Vault {
            last_id: 0,
            asset_info,
            vault_token_addr: String::new(),
            total_debt_shares: 0,
            total_debt: 0,
            reserve_pool: 0,
            reserve_pool_bps,
            whitelisted_farms,
            admin,
            last_accrue_timestamp: now,
            positions: HashMap::new(),
        }
    }

    /// Stored parts that make a well-formed ledger: debt and debt shares are zero
    /// together, every id has been handed out and is used once, and the debt shares
    /// add up to the total.
    pub open spec fn restorable(
        last_id: u128,
        total_debt_shares: u128,
        total_debt: u128,
        positions: Seq<Position>,
    ) -> bool {
        &&& (total_debt_shares == 0) == (total_debt == 0)
        &&& forall|i: int| 0 <= i < positions.len() ==> #[trigger] positions[i].id <= last_id
        &&& forall|i: int, j: int|
            0 <= i < positions.len() && 0 <= j < positions.len() && i != j ==> #[trigger] positions[i].id
                != #[trigger] positions[j].id
        &&& list_debt_shares(positions) == total_debt_shares
    }

    /// Rebuilds a ledger from stored parts; refuses parts that do not make a
    /// well-formed ledger (`MathError`).
    pub fn restore(
        last_id: u128,
        asset_info: AssetInfo,
        vault_token_addr: String,
        total_debt_shares: u128,
        total_debt: u128,
        reserve_pool: u128,
        reserve_pool_bps: u64,
        whitelisted_farms: Vec<String>,
        admin: String,
        last_accrue_timestamp: u64,
        positions: Vec<Position>,
    ) -> (r: Result<Vault, ContractError>)
        ensures
            match r {
                Ok(v) => {
                    &&& v.wf()
                    &&& v == (Vault {
                        last_id,
                        asset_info,
                        vault_token_addr,
                        total_debt_shares,
                        total_debt,
                        reserve_pool,
                        reserve_pool_bps,
                        whitelisted_farms,
                        admin,
                        last_accrue_timestamp,
                        positions: v.positions,
                    })
                    &&& v.positions@ == positions_by_id(positions@)
                },
                Err(e) => e == ContractError::MathError,
            },
            r is Ok <==> Vault::restorable(last_id, total_debt_shares, total_debt, positions@),
    {
        if (total_debt_shares == 0) != (total_debt == 0) {
            return Err(ContractError::MathError);
        }
        let ghost all = positions@;
        let mut rest = positions;
        let mut map: HashMap<u128, Position> = HashMap::new();
        let mut sum: u128 = 0;
        while rest.len() > 0
            invariant
                all == positions@,
                all.len() >= rest@.len(),
                rest@ == all.subrange(0, rest@.len() as int),
                map@ == positions_by_id(all.subrange(rest@.len() as int, all.len() as int)),
                forall|k: u128| #[trigger] map@.contains_key(k) ==> k <= last_id && map@[k].id == k,
                forall|k: u128| #[trigger]
                    map@.contains_key(k) <==> exists|j: int|
                        rest@.len() <= j < all.len() && #[trigger] all[j].id == k,
                forall|j: int| rest@.len() <= j < all.len() ==> #[trigger] all[j].id <= last_id,
                forall|i: int, j: int|
                    rest@.len() <= i < all.len() && rest@.len() <= j < all.len() && i != j
                        ==> #[trigger] all[i].id != #[trigger] all[j].id,
                sum == list_debt_shares(all.subrange(rest@.len() as int, all.len() as int)),
                sum == sum_debt_shares(map@),
            decreases rest@.len(),
        {
            let n = rest.len();
            let p = rest.pop().unwrap();
            let ghost suffix = all.subrange(n as int, all.len() as int);
            let ghost grown = all.subrange(n - 1, all.len() as int);
            proof {
                assert(all[n - 1] == p);
                assert(grown.drop_first() =~= suffix);
                assert(grown[0] == p);
            }
            if p.id > last_id {
                return Err(ContractError::MathError);
            }
            if map.contains_key(&p.id) {
                proof {
                    let j = choose|j: int| n <= j < all.len() && #[trigger] all[j].id == p.id;
                    assert(all[n - 1].id == all[j].id);
                }
                return Err(ContractError::MathError);
            }
            let total = match sum.checked_add(p.debt_share) {
                Some(t) => t,
                None => {
                    proof {
                        lemma_seq_sum_suffix(all, debt_weight(), n - 1);
                    }
                    return Err(ContractError::MathError);
                },
            };
            proof {
                lemma_sum_insert(map@, p.id, p);
                assert forall|k: u128| #[trigger] map@.insert(p.id, p).contains_key(k) <==> exists|j: int|
                    n - 1 <= j < all.len() && #[trigger] all[j].id == k by {
                    if k == p.id {
                        assert(all[n - 1].id == k);
                    }
                }
            }
            sum = total;
            map.insert(p.id, p);
        }
        assert(all.subrange(0, all.len() as int) =~= all);
        if sum != total_debt_shares {
            return Err(ContractError::MathError);
        }
        Ok(Vault {
            last_id,
            asset_info,
            vault_token_addr,
            total_debt_shares,
            total_debt,
            reserve_pool,
            reserve_pool_bps,
            whitelisted_farms,
            admin,
            last_accrue_timestamp,
            positions: map,
        })
    }

    /// Records the address of the claim token once its creation is confirmed.
    pub fn set_vault_token_addr(&mut self, addr: String)
        ensures
            *final(self) == (Vault { vault_token_addr: addr, ..*old(self) }),
    {
        self.vault_token_addr = addr;
    }

    /// The value claim-share holders own: on-hand asset plus debt owed, less the reserve.
    pub fn total_balance(&self, on_hand: u128) -> (r: Result<u128, ContractError>)
        ensures
            r == balance_of(on_hand as int, self.total_debt as int, self.reserve_pool as int),
    {
        match on_hand.checked_add(self.total_debt) {
            None => Err(ContractError::MathError),
            Some(gross) => match gross.checked_sub(self.reserve_pool) {
                None => Err(ContractError::MathError),
                Some(b) => Ok(b),
            },
        }
    }

    fn accrual_debt(&self, now: u64, on_hand: u128) -> (r: Result<u128, ContractError>)
        requires
            self.wf(),
            self.last_accrue_timestamp <= now,
        ensures
            r == self.accrual(now, on_hand),
            r matches Ok(d) ==> d >= self.total_debt && (d == 0) == (self.total_debt == 0),
    {
        let balance = self.total_balance(on_hand)?;
        if self.total_debt == 0 {
            return Ok(0);
        }
        if balance == 0 {
            return Err(ContractError::MathError);
        }
        proof {
            lemma_accrual_monotone(
                (now - self.last_accrue_timestamp) as int,
                balance as int,
                self.total_debt as int,
            );
        }
        match accrue(self.last_accrue_timestamp, now, balance, self.total_debt) {
            Ok((debt, _)) => Ok(debt),
            Err(e) => Err(e),
        }
    }

    /// Applies interest up to `now`, with `on_hand` of the asset held.
    pub fn accrue_interests(&mut self, now: u64, on_hand: u128) -> (r: Result<(), ContractError>)
        requires
            old(self).wf(),
            old(self).last_accrue_timestamp <= now,
        ensures
            final(self).wf(),
            final(self).total_debt >= old(self).total_debt,
            match old(self).accrual(now, on_hand) {
                Ok(d) => r is Ok && *final(self) == old(self).accrued(d, now),
                Err(e) => r == Err::<(), ContractError>(e) && *final(self) == *old(self),
            },
    {
        let debt = self.accrual_debt(now, on_hand)?;
        self.total_debt = debt;
        self.last_accrue_timestamp = now;
        Ok(())
    }

    /// Extends the whitelist; only the admin may.
    pub fn add_whitelist(&mut self, sender: &String, address: String) -> (r: Result<(), ContractError>)
        ensures
            sender@ == old(self).admin@ ==> r is Ok && *final(self) == (Vault {
                whitelisted_farms: final(self).whitelisted_farms,
                ..*old(self)
            }) && final(self).whitelisted_farms@ == old(self).whitelisted_farms@.push(address),
            sender@ != old(self).admin@ ==> r == Err::<(), ContractError>(ContractError::Unauthorized)
                && *final(self) == *old(self),
            old(self).wf() ==> final(self).wf(),
    {
        if !sender.eq(&self.admin) {
            return Err(ContractError::Unauthorized);
        }
        self.whitelisted_farms.push(address);
        Ok(())
    }

    /// Mints claim shares for a deposit: one per unit into an empty vault, else in
    /// proportion to the balance before the deposit.
    pub fn deposit(&mut self, asset: &Asset, total_claim_shares: u128, on_hand: u128, now: u64) -> (r:
        Result<u128, ContractError>)
        requires
            old(self).wf(),
            old(self).last_accrue_timestamp <= now,
        ensures
            final(self).wf(),
            total_claim_shares == 0 && r is Ok ==> r == Ok::<u128, ContractError>(asset.amount),
            final(self).total_debt >= old(self).total_debt,
            match old(self).deposit_outcome(*asset, total_claim_shares, on_hand, now) {
                Ok((minted, debt)) => r == Ok::<u128, ContractError>(minted) && *final(self)
                    == old(self).accrued(debt, now),
                Err(e) => r == Err::<u128, ContractError>(e) && *final(self) == *old(self),
            },
    {
        if !asset.info.equal(&self.asset_info) {
            return Err(ContractError::WrongToken);
        }
        if on_hand < asset.amount {
            return Err(ContractError::WrongAmount { amount: asset.amount });
        }
        let before = on_hand - asset.amount;
        let debt = self.accrual_debt(now, before)?;
        let minted = if total_claim_shares == 0 {
            asset.amount
        } else {
            let b = match before.checked_add(debt) {
                None => return Err(ContractError::MathError),
                Some(gross) => match gross.checked_sub(self.reserve_pool) {
                    None => return Err(ContractError::MathError),
                    Some(b) => b,
                },
            };
            if b == 0 {
                return Err(ContractError::MathError);
            }
            share_from_value(total_claim_shares, b, asset.amount)?
        };
        self.total_debt = debt;
        self.last_accrue_timestamp = now;
        Ok(minted)
    }

    /// Burns `claim_shares` claim shares, sent back through `token`, for their value.
    pub fn withdraw(
        &mut self,
        token: &String,
        claim_shares: u128,
        total_claim_shares: u128,
        on_hand: u128,
        now: u64,
    ) -> (r: Result<u128, ContractError>)
        requires
            old(self).wf(),
            old(self).last_accrue_timestamp <= now,
        ensures
            final(self).wf(),
            final(self).total_debt >= old(self).total_debt,
            match old(self).withdraw_outcome(token@, claim_shares, total_claim_shares, on_hand, now) {
                Ok((amount, debt)) => r == Ok::<u128, ContractError>(amount) && *final(self)
                    == old(self).accrued(debt, now),
                Err(e) => r == Err::<u128, ContractError>(e) && *final(self) == *old(self),
            },
    {
        if !token.eq(&self.vault_token_addr) {
            return Err(ContractError::WrongToken);
        }
        let debt = self.accrual_debt(now, on_hand)?;
        let b = match on_hand.checked_add(debt) {
            None => return Err(ContractError::MathError),
            Some(gross) => match gross.checked_sub(self.reserve_pool) {
                None => return Err(ContractError::MathError),
                Some(b) => b,
            },
        };
        let amount = value_from_share(total_claim_shares, b, claim_shares)?;
        if amount > on_hand {
            return Err(ContractError::InsufficientFunds);
        }
        self.total_debt = debt;
        self.last_accrue_timestamp = now;
        Ok(amount)
    }

    fn whitelisted(&self, farm_addr: &String) -> (r: bool)
        ensures
            r == self.is_whitelisted(farm_addr@),
    {
        let mut i: usize = 0;
        while i < self.whitelisted_farms.len()
            invariant
                0 <= i <= self.whitelisted_farms@.len(),
                forall|j: int| 0 <= j < i ==> #[trigger] self.whitelisted_farms@[j]@ != farm_addr@,
            decreases self.whitelisted_farms@.len() - i,
        {
            if self.whitelisted_farms[i].eq(farm_addr) {
                return true;
            }
            i += 1;
        }
        false
    }

    /// Lends `amount` to a whitelisted farm under a fresh position id, which it returns.
    pub fn borrow(&mut self, farm_addr: &String, amount: u128, on_hand: u128, now: u64) -> (r: Result<
        u128,
        ContractError,
    >)
        requires
            old(self).wf(),
            old(self).last_accrue_timestamp <= now,
        ensures
            final(self).wf(),
            !old(self).is_whitelisted(farm_addr@) ==> r == Err::<u128, ContractError>(
                ContractError::Unauthorized,
            ) && *final(self) == *old(self),
            old(self).total_debt_shares == 0 && r is Ok ==> final(self).positions@[final(self).last_id].debt_share == amount,
            final(self).total_debt >= old(self).total_debt,
            match old(self).borrow_outcome(farm_addr@, amount, on_hand, now) {
                Ok((share, debt)) => {
                    let id = (old(self).last_id + 1) as u128;
                    &&& r == Ok::<u128, ContractError>(id)
                    &&& *final(self) == (Vault {
                        last_id: id,
                        total_debt_shares: (old(self).total_debt_shares + share) as u128,
                        total_debt: (debt + amount) as u128,
                        last_accrue_timestamp: now,
                        positions: final(self).positions,
                        ..*old(self)
                    })
                    &&& final(self).positions@ == old(self).positions@.insert(
                        id,
                        Position { id, farm_addr: *farm_addr, debt_share: share },
                    )
                },
                Err(e) => r == Err::<u128, ContractError>(e) && *final(self) == *old(self),
            },
    {
        if !self.whitelisted(farm_addr) {
            return Err(ContractError::Unauthorized);
        }
        let debt = self.accrual_debt(now, on_hand)?;
        let share = share_from_value(self.total_debt_shares, debt, amount)?;
        if self.last_id == u128::MAX {
            return Err(ContractError::MathError);
        }
        let total_shares = match self.total_debt_shares.checked_add(share) {
            None => return Err(ContractError::MathError),
            Some(t) => t,
        };
        let total_debt = match debt.checked_add(amount) {
            None => return Err(ContractError::MathError),
            Some(t) => t,
        };
        let id = self.last_id + 1;
        proof {
            lemma_sum_insert(
                self.positions@,
                id,
                Position { id, farm_addr: *farm_addr, debt_share: share },
            );
        }
        self.last_id = id;
        self.total_debt_shares = total_shares;
        self.total_debt = total_debt;
        self.last_accrue_timestamp = now;
        self.positions.insert(id, Position { id, farm_addr: farm_addr.clone(), debt_share: share });
        Ok(id)
    }

    /// Applies a payment of `amount`, sent through `token`, to position `id`: the excess
    /// over its debt is refunded, and its debt share is recomputed for what is left.
    /// A position whose share drops to zero is removed.
    pub fn repay(&mut self, token: &String, id: u128, amount: u128, on_hand: u128, now: u64) -> (r:
        Result<RepayOutcome, ContractError>)
        requires
            old(self).wf(),
            old(self).last_accrue_timestamp <= now,
        ensures
            final(self).wf(),
            r matches Ok(o) ==> {
                let prior = old(self).positions@[id].debt_share;
                &&& prior < old(self).total_debt_shares ==> o.debt_share <= prior
                    && final(self).total_debt_shares <= old(self).total_debt_shares
                &&& prior == old(self).total_debt_shares ==> o.debt_share == final(self).total_debt
                    && final(self).total_debt_shares == final(self).total_debt
            },
            match old(self).repay_outcome(token@, id, amount, on_hand, now) {
                Ok((o, debt, shares)) => {
                    &&& r == Ok::<RepayOutcome, ContractError>(o)
                    &&& *final(self) == (Vault {
                        total_debt_shares: shares,
                        total_debt: debt,
                        last_accrue_timestamp: now,
                        positions: final(self).positions,
                        ..*old(self)
                    })
                    &&& final(self).positions@ == if o.debt_share == 0 {
                        old(self).positions@.remove(id)
                    } else {
                        old(self).positions@.insert(
                            id,
                            Position { debt_share: o.debt_share, ..old(self).positions@[id] },
                        )
                    }
                },
                Err(e) => r == Err::<RepayOutcome, ContractError>(e) && *final(self) == *old(self),
            },
    {
        let token_ok = match &self.asset_info {
            AssetInfo::Token { contract_addr } => contract_addr.eq(token),
            AssetInfo::NativeToken { .. } => false,
        };
        if !token_ok {
            return Err(ContractError::WrongToken);
        }
        let (share, farm_addr) = match self.positions.get(&id) {
            Some(p) => (p.debt_share, p.farm_addr.clone()),
            None => return Err(ContractError::NotFound),
        };
        let debt = self.accrual_debt(now, on_hand)?;
        let total = self.total_debt_shares;
        proof {
            lemma_sum_remove(self.positions@, id);
        }
        let dv = value_from_share(total, debt, share)?;
        proof {
            if total > 0 {
                lemma_share_value_bounds(total as int, debt as int, share as int);
            }
        }
        let refund: u128 = if amount > dv { amount - dv } else { 0 };
        let left: u128 = if amount > dv { 0 } else { dv - amount };
        let rest_shares = total - share;
        let rest_debt = debt - dv;
        let fs = share_from_value(rest_shares, rest_debt, left)?;
        proof {
            if rest_shares > 0 {
                lemma_remaining_share_bounded(total as int, debt as int, share as int, left as int);
            }
        }
        self.total_debt = rest_debt + left;
        self.total_debt_shares = rest_shares + fs;
        self.last_accrue_timestamp = now;
        proof {
            lemma_sum_remove(self.positions@, id);
            lemma_sum_insert(self.positions@, id, Position { id, farm_addr, debt_share: fs });
        }
        if fs == 0 {
            self.positions.remove(&id);
        } else {
            self.positions.insert(id, Position { id, farm_addr, debt_share: fs });
        }
        Ok(RepayOutcome { refund, debt_share: fs })
    }

    /// A position and the current value of its debt.
    pub fn query_position(&self, id: u128) -> (r: Result<PositionResponse, ContractError>)
        ensures
            !self.positions@.contains_key(id) ==> r == Err::<PositionResponse, ContractError>(
                ContractError::NotFound,
            ),
            self.positions@.contains_key(id) ==> match fit_u128(
                value_of(
                    self.total_debt_shares as int,
                    self.total_debt as int,
                    self.positions@[id].debt_share as int,
                ),
            ) {
                Ok(v) => r matches Ok(p) && p.id == id && p.debt_share
                    == self.positions@[id].debt_share && p.farm_addr == self.positions@[id].farm_addr
                    && p.debt_value == v,
                Err(e) => r == Err::<PositionResponse, ContractError>(e),
            },
    {
        match self.positions.get(&id) {
            None => Err(ContractError::NotFound),
            Some(p) => {
                let debt_value = value_from_share(self.total_debt_shares, self.total_debt, p.debt_share)?;
                Ok(PositionResponse {
                    id,
                    debt_share: p.debt_share,
                    farm_addr: p.farm_addr.clone(),
                    debt_value,
                })
            },
        }
    }
}

/// The first deposit into a vault without claim shares goes through whenever its
/// asset is the vault's, the holding covers it and interest accrues in range, and
/// it mints one claim share per unit deposited.
pub proof fn lemma_bootstrap_deposit(v: Vault, asset: Asset, on_hand: u128, now: u64)
    requires
        v.wf(),
        v.last_accrue_timestamp <= now,
        same_asset(asset.info, v.asset_info),
        on_hand >= asset.amount,
        v.accrual(now, (on_hand - asset.amount) as u128) is Ok,
    ensures
        v.deposit_outcome(asset, 0, on_hand, now) is Ok,
        v.deposit_outcome(asset, 0, on_hand, now) matches Ok((minted, _)) ==> minted == asset.amount,
{
}

/// The first loan from a vault without debt shares goes through for a whitelisted
/// farm whenever the id counter has room and the holding covers the reserve, and it
/// carries one debt share per unit lent: the vault then owes nothing else.
pub proof fn lemma_bootstrap_borrow(v: Vault, farm: Seq<char>, amount: u128, on_hand: u128, now: u64)
    requires
        v.wf(),
        v.last_accrue_timestamp <= now,
        v.total_debt_shares == 0,
        v.is_whitelisted(farm),
        v.last_id < u128::MAX,
        on_hand >= v.reserve_pool,
    ensures
        v.borrow_outcome(farm, amount, on_hand, now) == Ok::<(u128, u128), ContractError>((amount, 0)),
{
}

/// Repaying at least a position's current debt value settles it: its debt share
/// drops to zero (so the position is removed), the total debt shares fall by
/// exactly its prior share, and the excess over the debt value is refunded.
pub proof fn lemma_full_repayment(
    v: Vault,
    token: Seq<char>,
    id: u128,
    amount: u128,
    on_hand: u128,
    now: u64,
    debt: u128,
)
    requires
        v.wf(),
        v.last_accrue_timestamp <= now,
        v.positions@.contains_key(id),
        v.accrual(now, on_hand) == Ok::<u128, ContractError>(debt),
        amount >= value_of(
            v.total_debt_shares as int,
            debt as int,
            v.positions@[id].debt_share as int,
        ),
    ensures
        v.repay_outcome(token, id, amount, on_hand, now) matches Ok((o, new_debt, new_shares)) ==> {
            let share = v.positions@[id].debt_share;
            let dv = value_of(v.total_debt_shares as int, debt as int, share as int);
            &&& o.debt_share == 0
            &&& new_shares == v.total_debt_shares - share
            &&& o.refund == amount - dv
            &&& new_debt == debt - dv
        },
{
    let share = v.positions@[id].debt_share;
    let total = v.total_debt_shares;
    let dv = value_of(total as int, debt as int, share as int);
    lemma_sum_remove(v.positions@, id);
    if total > 0 {
        if let Ok(b) = balance_of(on_hand as int, v.total_debt as int, v.reserve_pool as int) {
            if b > 0 {
                lemma_accrual_monotone(
                    now - v.last_accrue_timestamp,
                    b as int,
                    v.total_debt as int,
                );
            }
        }
        lemma_share_value_bounds(total as int, debt as int, share as int);
    }
    if total - share > 0 && debt - dv > 0 {
        assert(0 * (total - share) == 0);
        lemma_div_by_multiple(0, debt - dv);
    }
}

/// A position's debt share is part of the total, so its debt value is part of any
/// total debt it is valued against.
pub proof fn lemma_position_share_bounded(v: Vault, id: u128, debt: int)
    requires
        v.wf(),
        v.positions@.contains_key(id),
        debt >= 0,
    ensures
        v.positions@[id].debt_share <= v.total_debt_shares,
        0 <= value_of(v.total_debt_shares as int, debt, v.positions@[id].debt_share as int) <= debt,
{
    lemma_sum_remove(v.positions@, id);
    if v.total_debt_shares > 0 {
        lemma_share_value_bounds(v.total_debt_shares as int, debt, v.positions@[id].debt_share as int);
    }
}

/// Debt left from a position's debt value, re-expressed in shares of the rest of
/// the pool, is worth at most the position's share.
proof fn lemma_remaining_share_bounded(total: int, debt: int, share: int, left: int)
    requires
        0 <= share < total,
        debt > 0,
        0 <= left <= value_of(total, debt, share),
    ensures
        debt - value_of(total, debt, share) > 0,
        0 <= share_of(total - share, debt - value_of(total, debt, share), left) <= share,
{
    let dv = value_of(total, debt, share);
    lemma_share_value_bounds(total, debt, share);
    lemma_fundamental_div_mod(share * debt, total);
    assert(0 <= (share * debt) % total);
    assert(dv * total <= share * debt) by (nonlinear_arith)
        requires
            share * debt == total * dv + (share * debt) % total,
            0 <= (share * debt) % total,
    ;
    let rest = total - share;
    let rest_debt = debt - dv;
    assert(left * rest <= share * rest_debt) by (nonlinear_arith)
        requires
            dv * total <= share * debt,
            0 <= left <= dv,
            rest == total - share,
            rest_debt == debt - dv,
            rest > 0,
    ;
    assert(0 <= left * rest) by (nonlinear_arith)
        requires
            0 <= left,
            rest > 0,
    ;
    lemma_div_is_ordered(left * rest, share * rest_debt, rest_debt);
    lemma_div_is_ordered(0, left * rest, rest_debt);
    lemma_div_by_multiple(share, rest_debt);
}

/// Bounds on the value of `share` of `total_share` shares over `total_value`.
proof fn lemma_share_value_bounds(total_share: int, total_value: int, share: int)
    requires
        0 <= share <= total_share,
        total_share > 0,
        total_value >= 0,
    ensures
        0 <= value_of(total_share, total_value, share) <= total_value,
        share == total_share ==> value_of(total_share, total_value, share) == total_value,
        share < total_share && total_value > 0 ==> value_of(total_share, total_value, share)
            < total_value,
{
    let x = share * total_value;
    let q = x / total_share;
    assert(0 <= x <= total_share * total_value) by (nonlinear_arith)
        requires
            0 <= share <= total_share,
            total_value >= 0,
            x == share * total_value,
    ;
    lemma_fundamental_div_mod(x, total_share);
    lemma_div_by_multiple(total_value, total_share);
    assert(total_value * total_share == total_share * total_value) by (nonlinear_arith);
    assert(0 <= q <= total_value) by (nonlinear_arith)
        requires
            x == total_share * q + x % total_share,
            0 <= x % total_share < total_share,
            0 <= x <= total_share * total_value,
            total_share > 0,
    ;
    if share < total_share && total_value > 0 {
        assert(x < total_share * total_value) by (nonlinear_arith)
            requires
                x == share * total_value,
                share < total_share,
                total_value > 0,
        ;
        assert(total_share * q < total_share * total_value);
        assert(q < total_value) by (nonlinear_arith)
            requires
                total_share * q < total_share * total_value,
                total_share > 0,
        ;
    }
}

} // verus!
