//! The farm: opens leveraged liquidity positions in steps that resume on the replies
//! of outside calls, and closes them against the vault debt they carry.
use vstd::prelude::*;
use std::collections::HashMap;
use crate::asset::{asset_label, AssetInfo};
use crate::error::ContractError;
use crate::events::{
    decimal_u128, find_attr, find_event, event_has_attr, has_attr, is_first_attr, is_first_event,
    parse_amount, Attribute, Event,
};
use crate::sums::{lemma_map_sum_insert, lemma_map_sum_remove, lemma_seq_sum_suffix, map_sum, seq_sum};
use crate::math::{fit_u128, multiply_ratio, ratio, share_from_value, share_of, value_from_share, value_of};

verus! {

broadcast use vstd::std_specs::hash::group_hash_axioms;

/// Of the combined principal, `SWAP_NUMERATOR / SWAP_DENOMINATOR` is swapped: half,
/// net of the venue's 0.3% fee.
pub const SWAP_NUMERATOR: u128 = 1000;

pub const SWAP_DENOMINATOR: u128 = 1997;

/// A user's leveraged position: its slice of the farm's liquidity tokens.
#[derive(Debug)]
pub struct Position {
    pub vault_position_id: u128,
    pub owner: String,
    pub shares: u128,
}

/// Which reply an open workflow waits for.
#[derive(Debug, Clone, Copy, PartialEq, Eq, Structural)]
pub enum Stage {
    AwaitingSwap,
    AwaitingLiquidity,
}

/// An open workflow in flight: the skeleton of the position it will record.
#[derive(Debug)]
pub struct PendingOpen {
    pub vault_position_id: u128,
    pub owner: String,
    pub stage: Stage,
}

/// What opening a position asks of the outside: borrow, then swap `amount_to_swap`
/// of the base asset, with replies tagged `workflow_id`.
#[derive(Debug, Clone, Copy, PartialEq, Eq, Structural)]
pub struct OpenPlan {
    pub workflow_id: u64,
    pub amount_to_swap: u128,
}

/// What closing a position asks of the outside: withdraw `liquidity_amount`, swap
/// the other leg, repay `repay_amount`, return `return_amount` to the owner.
#[derive(Debug, Clone, Copy, PartialEq, Eq, Structural)]
pub struct ClosePlan {
    pub liquidity_amount: u128,
    pub repay_amount: u128,
    pub return_amount: u128,
}

/// The farm's ledger.
#[derive(Debug)]
pub struct Farm {
    pub vault_addr: String,
    pub base_asset: AssetInfo,
    pub other_asset: AssetInfo,
    pub claim_asset_addr: String,
    pub total_shares: u128,
    pub astroport_factory_addr: String,
    pub positions: HashMap<u128, Position>,
    pub pending: HashMap<u64, PendingOpen>,
    pub next_workflow_id: u64,
}

/// Base asset to swap out of a deposit plus a loan.
pub open spec fn swap_amount_of(base_asset_amount: int, borrow_amount: int) -> Result<u128, ContractError> {
    if base_asset_amount + borrow_amount > u128::MAX {
        Err(ContractError::MathError)
    } else {
        fit_u128(ratio(base_asset_amount + borrow_amount, SWAP_NUMERATOR as int, SWAP_DENOMINATOR as int))
    }
}

/// The swap venue confirmed a swap of the base asset into the other asset: the first
/// swap event names both.
pub open spec fn swap_confirmed(events: Seq<Event>, base: Seq<char>, other: Seq<char>) -> bool {
    exists|i: int|
        #[trigger] is_first_event(events, i, "action"@, "swap"@) && has_attr(
            events[i],
            "offer_asset"@,
            base,
        ) && has_attr(events[i], "ask_asset"@, other)
}

/// The venue reported `minted` liquidity tokens: the first `share` attribute of the
/// first liquidity-provision event.
pub open spec fn liquidity_minted(events: Seq<Event>, minted: u128) -> bool {
    exists|i: int, k: int|
        #[trigger] is_first_event(events, i, "action"@, "provide_liquidity"@) && #[trigger] is_first_attr(
            events[i].attributes@,
            k,
            "share"@,
        ) && decimal_u128(events[i].attributes@[k].value@) == Some(minted)
}

proof fn lemma_first_event_unique(events: Seq<Event>, i: int, j: int, key: Seq<char>, value: Seq<char>)
    requires
        is_first_event(events, i, key, value),
        is_first_event(events, j, key, value),
    ensures
        i == j,
{
    if i < j {
        assert(!has_attr(events[i], key, value));
    } else if j < i {
        assert(!has_attr(events[j], key, value));
    }
}

proof fn lemma_first_attr_unique(attrs: Seq<Attribute>, k: int, l: int, key: Seq<char>)
    requires
        is_first_attr(attrs, k, key),
        is_first_attr(attrs, l, key),
    ensures
        k == l,
{
    if k < l {
        assert(attrs[k].key@ != key);
    } else if l < k {
        assert(attrs[l].key@ != key);
    }
}

/// Base asset to swap out of a deposit plus a loan, so that the two legs can be pooled.
pub fn swap_amount(base_asset_amount: u128, borrow_amount: u128) -> (r: Result<u128, ContractError>)
    ensures
        r == swap_amount_of(base_asset_amount as int, borrow_amount as int),
{
    match base_asset_amount.checked_add(borrow_amount) {
        None => Err(ContractError::MathError),
        Some(total) => multiply_ratio(total, SWAP_NUMERATOR, SWAP_DENOMINATOR),
    }
}

/// The liquidity-token amount in the first liquidity-provision event.
fn minted_amount(events: &Vec<Event>) -> (r: Option<u128>)
    ensures
        match r {
            Some(v) => forall|w: u128| liquidity_minted(events@, w) <==> w == v,
            None => forall|w: u128| !liquidity_minted(events@, w),
        },
{
    let action = "action".to_owned();
    let provide = "provide_liquidity".to_owned();
    let share_key = "share".to_owned();
    let found = find_event(events, &action, &provide);
    match found {
        None => {
            assert forall|w: u128| !liquidity_minted(events@, w) by {
                if liquidity_minted(events@, w) {
                    let (i, k) = choose|i: int, k: int|
                        #[trigger] is_first_event(events@, i, "action"@, "provide_liquidity"@)
                            && #[trigger] is_first_attr(events@[i].attributes@, k, "share"@)
                            && decimal_u128(events@[i].attributes@[k].value@) == Some(w);
                    assert(has_attr(events@[i], action@, provide@));
                }
            }
            None
        },
        Some(i) => {
            let attrs = &events[i].attributes;
            match find_attr(attrs, &share_key) {
                None => {
                    assert forall|w: u128| !liquidity_minted(events@, w) by {
                        if liquidity_minted(events@, w) {
                            let (i2, k) = choose|i2: int, k: int|
                                #[trigger] is_first_event(events@, i2, "action"@, "provide_liquidity"@)
                                    && #[trigger] is_first_attr(events@[i2].attributes@, k, "share"@)
                                    && decimal_u128(events@[i2].attributes@[k].value@) == Some(w);
                            lemma_first_event_unique(events@, i as int, i2, action@, provide@);
                            assert(attrs@[k].key@ == share_key@);
                        }
                    }
                    None
                },
                Some(k) => {
                    let parsed = parse_amount(&attrs[k].value);
                    assert forall|w: u128| liquidity_minted(events@, w) <==> parsed == Some(w) by {
                        if liquidity_minted(events@, w) {
                            let (i2, k2) = choose|i2: int, k2: int|
                                #[trigger] is_first_event(events@, i2, "action"@, "provide_liquidity"@)
                                    && #[trigger] is_first_attr(events@[i2].attributes@, k2, "share"@)
                                    && decimal_u128(events@[i2].attributes@[k2].value@) == Some(w);
                            lemma_first_event_unique(events@, i as int, i2, action@, provide@);
                            lemma_first_attr_unique(attrs@, k as int, k2, share_key@);
                        }
                        if parsed == Some(w) {
                            assert(is_first_event(events@, i as int, "action"@, "provide_liquidity"@));
                            assert(is_first_attr(events@[i as int].attributes@, k as int, "share"@));
                        }
                    }
                    parsed
                },
            }
        },
    }
}

/// The weight of a position in the farm's total liquidity shares.
pub open spec fn liquidity_weight() -> spec_fn(Position) -> int {
    |p: Position| p.shares as int
}

/// Sum of the liquidity shares in a list of positions.
pub open spec fn list_liquidity_shares(s: Seq<Position>) -> int {
    seq_sum(s, liquidity_weight())
}

/// Sum of the liquidity shares of the positions in `m`.
pub open spec fn sum_liquidity_shares(m: Map<u128, Position>) -> int {
    map_sum(m, liquidity_weight())
}

/// The positions of a stored list by vault position id; an earlier entry wins over
/// a later one of the same id.
pub open spec fn positions_by_id(s: Seq<Position>) -> Map<u128, Position>
    decreases s.len(),
{
    if s.len() == 0 {
        Map::empty()
    } else {
        positions_by_id(s.drop_first()).insert(s[0].vault_position_id, s[0])
    }
}

/// The workflow records of a stored list by workflow id; an earlier entry wins.
pub open spec fn pending_by_id(s: Seq<(u64, PendingOpen)>) -> Map<u64, PendingOpen>
    decreases s.len(),
{
    if s.len() == 0 {
        Map::empty()
    } else {
        pending_by_id(s.drop_first()).insert(s[0].0, s[0].1)
    }
}

impl Farm {
    /// The positions' liquidity shares partition the total; every position is stored
    /// under its vault position id; workflow ids below the counter have been handed out.
    pub open spec fn wf(&self) -> bool {
        &&& sum_liquidity_shares(self.positions@) == self.total_shares
        &&& forall|k: u128| #[trigger]
            self.positions@.contains_key(k) ==> self.positions@[k].vault_position_id == k
        &&& forall|k: u64| #[trigger] self.pending@.contains_key(k) ==> k < self.next_workflow_id
    }

    /// Workflow `id` is in flight and waits for `stage`.
    pub open spec fn awaits(&self, id: u64, stage: Stage) -> bool {
        self.pending@.contains_key(id) && self.pending@[id].stage == stage
    }

    /// Base asset to swap when opening with a deposit and a loan; `attached` is the
    /// amount of the base asset sent along as native funds.
    pub open spec fn open_outcome(
        &self,
        base_asset_amount: u128,
        borrow_amount: u128,
        attached: Option<u128>,
    ) -> Result<u128, ContractError> {
        if self.base_asset is NativeToken && attached != Some(base_asset_amount) {
            Err(
                ContractError::WrongAmount {
                    amount: match attached {
                        Some(a) => a,
                        None => 0,
                    },
                },
            )
        } else {
            match swap_amount_of(base_asset_amount as int, borrow_amount as int) {
                Err(e) => Err(e),
                Ok(s) => if self.next_workflow_id == u64::MAX {
                    Err(ContractError::MathError)
                } else {
                    Ok(s)
                },
            }
        }
    }

    /// Liquidity shares recorded for `minted` liquidity tokens, the farm then holding
    /// `lp_balance` of them.
    pub open spec fn record_outcome(&self, id: u64, minted: u128, lp_balance: u128) -> Result<
        u128,
        ContractError,
    > {
        if !self.awaits(id, Stage::AwaitingLiquidity) {
            Err(ContractError::NotFound)
        } else if self.positions@.contains_key(self.pending@[id].vault_position_id) {
            Err(ContractError::PositionExists)
        } else if lp_balance < minted || (self.total_shares > 0 && lp_balance == minted) {
            Err(ContractError::MathError)
        } else {
            match fit_u128(share_of(self.total_shares as int, lp_balance - minted, minted as int)) {
                Err(e) => Err(e),
                Ok(s) => if self.total_shares + s > u128::MAX {
                    Err(ContractError::MathError)
                } else {
                    Ok(s)
                },
            }
        }
    }

    /// Liquidity tokens that position `id` owns, asked for by `sender`.
    pub open spec fn liquidity_outcome(&self, sender: Seq<char>, id: u128, total_lp_balance: u128) -> Result<
        u128,
        ContractError,
    > {
        if !self.positions@.contains_key(id) {
            Err(ContractError::NotFound)
        } else if self.positions@[id].owner@ != sender {
            Err(ContractError::Unauthorized)
        } else {
            fit_u128(
                value_of(
                    self.total_shares as int,
                    total_lp_balance as int,
                    self.positions@[id].shares as int,
                ),
            )
        }
    }

    /// The plan for closing position `id`, given its debt and what its liquidity is
    /// worth in the base asset: `base_amount` directly and `swap_return` from the other leg.
    pub open spec fn close_outcome(
        &self,
        sender: Seq<char>,
        id: u128,
        total_lp_balance: u128,
        debt: u128,
        base_amount: u128,
        swap_return: u128,
    ) -> Result<ClosePlan, ContractError> {
        match self.liquidity_outcome(sender, id, total_lp_balance) {
            Err(e) => Err(e),
            Ok(lp) => if base_amount + swap_return > u128::MAX {
                Err(ContractError::MathError)
            } else if base_amount + swap_return < debt {
                Err(ContractError::InsufficientFunds)
            } else {
                Ok(
                    ClosePlan {
                        liquidity_amount: lp,
                        repay_amount: debt,
                        return_amount: (base_amount + swap_return - debt) as u128,
                    },
                )
            },
        }
    }

    pub fn new(
        vault_addr: String,
        base_asset: AssetInfo,
        other_asset: AssetInfo,
        claim_asset_addr: String,
        astroport_factory_addr: String,
    ) -> (r: Farm)
        ensures
            r.wf(),
            r.vault_addr == vault_addr,
            r.base_asset == base_asset,
            r.other_asset == other_asset,
            r.claim_asset_addr == claim_asset_addr,
            r.astroport_factory_addr == astroport_factory_addr,
            r.total_shares == 0,
            r.positions@ == Map::<u128, Position>::empty(),
            r.pending@ == Map::<u64, PendingOpen>::empty(),
            r.next_workflow_id == 0,
    {
        Farm {
            vault_addr,
            base_asset,
            other_asset,
            claim_asset_addr,
            total_shares: 0,
            astroport_factory_addr,
            positions: HashMap::new(),
            pending: HashMap::new(),
            next_workflow_id: 0,
        }
    }

    /// Stored parts that make a well-formed ledger: every position id is used once,
    /// the liquidity shares add up to the total, and every workflow id has been
    /// handed out.
    pub open spec fn restorable(
        total_shares: u128,
        positions: Seq<Position>,
        pending: Seq<(u64, PendingOpen)>,
        next_workflow_id: u64,
    ) -> bool {
        &&& forall|i: int, j: int|
            0 <= i < positions.len() && 0 <= j < positions.len() && i != j ==> #[trigger] positions[i].vault_position_id
                != #[trigger] positions[j].vault_position_id
        &&& list_liquidity_shares(positions) == total_shares
        &&& forall|i: int| 0 <= i < pending.len() ==> #[trigger] pending[i].0 < next_workflow_id
    }

    /// Rebuilds a ledger from stored parts; refuses parts that do not make a
    /// well-formed ledger (`MathError`).
    pub fn restore(
        vault_addr: String,
        base_asset: AssetInfo,
        other_asset: AssetInfo,
        claim_asset_addr: String,
        total_shares: u128,
        astroport_factory_addr: String,
        positions: Vec<Position>,
        pending: Vec<(u64, PendingOpen)>,
        next_workflow_id: u64,
    ) -> (r: Result<Farm, ContractError>)
        ensures
            match r {
                Ok(f) => {
                    &&& f.wf()
                    &&& f == (Farm {
                        vault_addr,
                        base_asset,
                        other_asset,
                        claim_asset_addr,
                        total_shares,
                        astroport_factory_addr,
                        positions: f.positions,
                        pending: f.pending,
                        next_workflow_id,
                    })
                    &&& f.positions@ == positions_by_id(positions@)
                    &&& f.pending@ == pending_by_id(pending@)
                },
                Err(e) => e == ContractError::MathError,
            },
            r is Ok <==> Farm::restorable(total_shares, positions@, pending@, next_workflow_id),
    {
        let ghost all = positions@;
        let ghost wall = pending@;
        let mut rest = positions;
        let mut pmap: HashMap<u128, Position> = HashMap::new();
        let mut sum: u128 = 0;
        while rest.len() > 0
            invariant
                all == positions@,
                wall == pending@,
                all.len() >= rest@.len(),
                rest@ == all.subrange(0, rest@.len() as int),
                pmap@ == positions_by_id(all.subrange(rest@.len() as int, all.len() as int)),
                forall|k: u128| #[trigger]
                    pmap@.contains_key(k) ==> pmap@[k].vault_position_id == k,
                forall|k: u128| #[trigger]
                    pmap@.contains_key(k) <==> exists|j: int|
                        rest@.len() <= j < all.len() && #[trigger] all[j].vault_position_id == k,
                forall|i: int, j: int|
                    rest@.len() <= i < all.len() && rest@.len() <= j < all.len() && i != j
                        ==> #[trigger] all[i].vault_position_id != #[trigger] all[j].vault_position_id,
                sum == list_liquidity_shares(all.subrange(rest@.len() as int, all.len() as int)),
                sum == sum_liquidity_shares(pmap@),
            decreases rest@.len(),
        {
            let n = rest.len();
            let p = rest.pop().unwrap();
            let ghost suffix = all.subrange(n as int, all.len() as int);
            let ghost grown = all.subrange(n - 1, all.len() as int);
            proof {
                assert(all[n - 1] == p);
                assert(grown.drop_first() =~= suffix);
                assert(grown[0] == p);
            }
            if pmap.contains_key(&p.vault_position_id) {
                proof {
                    let j = choose|j: int|
                        n <= j < all.len() && #[trigger] all[j].vault_position_id == p.vault_position_id;
                    assert(all[n - 1].vault_position_id == all[j].vault_position_id);
                }
                return Err(ContractError::MathError);
            }
            let total = match sum.checked_add(p.shares) {
                Some(t) => t,
                None => {
                    proof {
                        lemma_seq_sum_suffix(all, liquidity_weight(), n - 1);
                    }
                    return Err(ContractError::MathError);
                },
            };
            proof {
                lemma_map_sum_insert(pmap@, liquidity_weight(), p.vault_position_id, p);
                assert forall|k: u128| #[trigger]
                    pmap@.insert(p.vault_position_id, p).contains_key(k) <==> exists|j: int|
                        n - 1 <= j < all.len() && #[trigger] all[j].vault_position_id == k by {
                    if k == p.vault_position_id {
                        assert(all[n - 1].vault_position_id == k);
                    }
                }
            }
            sum = total;
            pmap.insert(p.vault_position_id, p);
        }
        assert(all.subrange(0, all.len() as int) =~= all);
        if sum != total_shares {
            return Err(ContractError::MathError);
        }
        let mut wrest = pending;
        let mut wmap: HashMap<u64, PendingOpen> = HashMap::new();
        while wrest.len() > 0
            invariant
                wall == pending@,
                wall.len() >= wrest@.len(),
                wrest@ == wall.subrange(0, wrest@.len() as int),
                wmap@ == pending_by_id(wall.subrange(wrest@.len() as int, wall.len() as int)),
                forall|k: u64| #[trigger] wmap@.contains_key(k) ==> k < next_workflow_id,
                forall|j: int| wrest@.len() <= j < wall.len() ==> #[trigger] wall[j].0 < next_workflow_id,
            decreases wrest@.len(),
        {
            let n = wrest.len();
            let (k, w) = wrest.pop().unwrap();
            if k >= next_workflow_id {
                assert(wall[n - 1].0 == k);
                return Err(ContractError::MathError);
            }
            proof {
                assert(wall.subrange(n - 1, wall.len() as int).drop_first() =~= wall.subrange(
                    n as int,
                    wall.len() as int,
                ));
                assert(wall.subrange(n - 1, wall.len() as int)[0] == (k, w));
            }
            wmap.insert(k, w);
        }
        assert(wall.subrange(0, wall.len() as int) =~= wall);
        Ok(Farm {
            vault_addr,
            base_asset,
            other_asset,
            claim_asset_addr,
            total_shares,
            astroport_factory_addr,
            positions: pmap,
            pending: wmap,
            next_workflow_id,
        })
    }

    /// The stage that workflow `id` waits in, if it is in flight.
    pub fn pending_stage(&self, id: u64) -> (r: Option<Stage>)
        ensures
            r == (if self.pending@.contains_key(id) {
                Some(self.pending@[id].stage)
            } else {
                None::<Stage>
            }),
    {
        match self.pending.get(&id) {
            Some(p) => Some(p.stage),
            None => None,
        }
    }

    /// Starts opening a position for `owner`, to be recorded under `vault_position_id`:
    /// a fresh workflow record waits for the swap.
    pub fn open_position(
        &mut self,
        owner: String,
        vault_position_id: u128,
        base_asset_amount: u128,
        borrow_amount: u128,
        attached: Option<u128>,
    ) -> (r: Result<OpenPlan, ContractError>)
        requires
            old(self).wf(),
        ensures
            final(self).wf(),
            match old(self).open_outcome(base_asset_amount, borrow_amount, attached) {
                Ok(s) => {
                    let id = old(self).next_workflow_id;
                    &&& r == Ok::<OpenPlan, ContractError>(OpenPlan { workflow_id: id, amount_to_swap: s })
                    &&& *final(self) == (Farm {
                        next_workflow_id: (id + 1) as u64,
                        pending: final(self).pending,
                        ..*old(self)
                    })
                    &&& final(self).pending@ == old(self).pending@.insert(
                        id,
                        PendingOpen { vault_position_id, owner, stage: Stage::AwaitingSwap },
                    )
                },
                Err(e) => r == Err::<OpenPlan, ContractError>(e) && *final(self) == *old(self),
            },
    {
        if self.base_asset.is_native_token() {
            match attached {
                Some(a) => {
                    if a != base_asset_amount {
                        return Err(ContractError::WrongAmount { amount: a });
                    }
                },
                None => return Err(ContractError::WrongAmount { amount: 0 }),
            }
        }
        let amount_to_swap = swap_amount(base_asset_amount, borrow_amount)?;
        if self.next_workflow_id == u64::MAX {
            return Err(ContractError::MathError);
        }
        let id = self.next_workflow_id;
        self.next_workflow_id = id + 1;
        self.pending.insert(
            id,
            PendingOpen { vault_position_id, owner, stage: Stage::AwaitingSwap },
        );
        Ok(OpenPlan { workflow_id: id, amount_to_swap })
    }

    /// Resumes workflow `id` on the swap's reply: the swap must be confirmed, and the
    /// workflow then waits for the liquidity provision.
    pub fn on_swap_reply(&mut self, id: u64, events: &Vec<Event>) -> (r: Result<(), ContractError>)
        requires
            old(self).wf(),
        ensures
            final(self).wf(),
            !old(self).awaits(id, Stage::AwaitingSwap) ==> r == Err::<(), ContractError>(
                ContractError::NotFound,
            ) && *final(self) == *old(self),
            old(self).awaits(id, Stage::AwaitingSwap) && !swap_confirmed(
                events@,
                asset_label(old(self).base_asset),
                asset_label(old(self).other_asset),
            ) ==> r == Err::<(), ContractError>(ContractError::ExternalCallError) && *final(self)
                == *old(self),
            old(self).awaits(id, Stage::AwaitingSwap) && swap_confirmed(
                events@,
                asset_label(old(self).base_asset),
                asset_label(old(self).other_asset),
            ) ==> r is Ok && *final(self) == (Farm { pending: final(self).pending, ..*old(self) })
                && final(self).pending@ == old(self).pending@.insert(
                id,
                PendingOpen { stage: Stage::AwaitingLiquidity, ..old(self).pending@[id] },
            ),
    {
        let (vault_position_id, owner) = match self.pending.get(&id) {
            Some(p) => {
                if p.stage != Stage::AwaitingSwap {
                    return Err(ContractError::NotFound);
                }
                (p.vault_position_id, p.owner.clone())
            },
            None => return Err(ContractError::NotFound),
        };
        let action = "action".to_owned();
        let swap = "swap".to_owned();
        let base = self.base_asset.label();
        let other = self.other_asset.label();
        let confirmed = match find_event(events, &action, &swap) {
            None => {
                proof {
                    if swap_confirmed(events@, base@, other@) {
                        let i2 = choose|i2: int|
                            #[trigger] is_first_event(events@, i2, "action"@, "swap"@) && has_attr(
                                events@[i2],
                                "offer_asset"@,
                                base@,
                            ) && has_attr(events@[i2], "ask_asset"@, other@);
                        assert(has_attr(events@[i2], action@, swap@));
                    }
                }
                false
            },
            Some(i) => {
                let c = event_has_attr(&events[i], &"offer_asset".to_owned(), &base)
                    && event_has_attr(&events[i], &"ask_asset".to_owned(), &other);
                proof {
                    if swap_confirmed(events@, base@, other@) {
                        let i2 = choose|i2: int|
                            #[trigger] is_first_event(events@, i2, "action"@, "swap"@) && has_attr(
                                events@[i2],
                                "offer_asset"@,
                                base@,
                            ) && has_attr(events@[i2], "ask_asset"@, other@);
                        lemma_first_event_unique(events@, i as int, i2, action@, swap@);
                    }
                    if c {
                        assert(is_first_event(events@, i as int, "action"@, "swap"@));
                    }
                }
                c
            },
        };
        if !confirmed {
            return Err(ContractError::ExternalCallError);
        }
        self.pending.insert(
            id,
            PendingOpen { vault_position_id, owner, stage: Stage::AwaitingLiquidity },
        );
        Ok(())
    }
    /// Finishes workflow `id` once `minted` liquidity tokens have arrived and the farm
    /// holds `lp_balance` of them: records the position with its liquidity share and
    /// drops the workflow record.
    pub fn record_liquidity(&mut self, id: u64, minted: u128, lp_balance: u128) -> (r: Result<
        u128,
        ContractError,
    >)
        requires
            old(self).wf(),
        ensures
            final(self).wf(),
            match old(self).record_outcome(id, minted, lp_balance) {
                Ok(s) => {
                    let p = old(self).pending@[id];
                    &&& r == Ok::<u128, ContractError>(s)
                    &&& *final(self) == (Farm {
                        total_shares: (old(self).total_shares + s) as u128,
                        positions: final(self).positions,
                        pending: final(self).pending,
                        ..*old(self)
                    })
                    &&& final(self).positions@ == old(self).positions@.insert(
                        p.vault_position_id,
                        Position { vault_position_id: p.vault_position_id, owner: p.owner, shares: s },
                    )
                    &&& final(self).pending@ == old(self).pending@.remove(id)
                },
                Err(e) => r == Err::<u128, ContractError>(e) && *final(self) == *old(self),
            },
    {
        let (vault_position_id, owner) = match self.pending.get(&id) {
            Some(p) => {
                if p.stage != Stage::AwaitingLiquidity {
                    return Err(ContractError::NotFound);
                }
                (p.vault_position_id, p.owner.clone())
            },
            None => return Err(ContractError::NotFound),
        };
        if self.positions.contains_key(&vault_position_id) {
            return Err(ContractError::PositionExists);
        }
        if lp_balance < minted {
            return Err(ContractError::MathError);
        }
        let prior = lp_balance - minted;
        if self.total_shares > 0 && prior == 0 {
            return Err(ContractError::MathError);
        }
        let shares = share_from_value(self.total_shares, prior, minted)?;
        let total = match self.total_shares.checked_add(shares) {
            None => return Err(ContractError::MathError),
            Some(t) => t,
        };
        proof {
            lemma_map_sum_insert(
                self.positions@,
                liquidity_weight(),
                vault_position_id,
                Position { vault_position_id, owner, shares },
            );
        }
        self.total_shares = total;
        self.positions.insert(vault_position_id, Position { vault_position_id, owner, shares });
        self.pending.remove(&id);
        Ok(shares)
    }

    /// Resumes workflow `id` on the liquidity provision's reply, reading the minted
    /// amount from the venue's events, with the farm then holding `lp_balance`
    /// liquidity tokens.
    pub fn on_provide_liquidity_reply(&mut self, id: u64, events: &Vec<Event>, lp_balance: u128) -> (r:
        Result<u128, ContractError>)
        requires
            old(self).wf(),
        ensures
            final(self).wf(),
            !old(self).awaits(id, Stage::AwaitingLiquidity) ==> r == Err::<u128, ContractError>(
                ContractError::NotFound,
            ) && *final(self) == *old(self),
            old(self).awaits(id, Stage::AwaitingLiquidity) && (forall|w: u128|
                !liquidity_minted(events@, w)) ==> r == Err::<u128, ContractError>(
                ContractError::ExternalCallError,
            ) && *final(self) == *old(self),
            forall|minted: u128|
                old(self).awaits(id, Stage::AwaitingLiquidity) && #[trigger] liquidity_minted(
                    events@,
                    minted,
                ) ==> match old(self).record_outcome(id, minted, lp_balance) {
                    Ok(s) => {
                        let p = old(self).pending@[id];
                        &&& r == Ok::<u128, ContractError>(s)
                        &&& *final(self) == (Farm {
                            total_shares: (old(self).total_shares + s) as u128,
                            positions: final(self).positions,
                            pending: final(self).pending,
                            ..*old(self)
                        })
                        &&& final(self).positions@ == old(self).positions@.insert(
                            p.vault_position_id,
                            Position {
                                vault_position_id: p.vault_position_id,
                                owner: p.owner,
                                shares: s,
                            },
                        )
                        &&& final(self).pending@ == old(self).pending@.remove(id)
                    },
                    Err(e) => r == Err::<u128, ContractError>(e) && *final(self) == *old(self),
                },
    {
        match self.pending_stage(id) {
            Some(Stage::AwaitingLiquidity) => {},
            _ => return Err(ContractError::NotFound),
        }
        match minted_amount(events) {
            None => Err(ContractError::ExternalCallError),
            Some(minted) => {
                assert(liquidity_minted(events@, minted));
                self.record_liquidity(id, minted, lp_balance)
            },
        }
    }

    /// Liquidity tokens that position `id` owns; only its owner may ask.
    pub fn position_liquidity(&self, sender: &String, id: u128, total_lp_balance: u128) -> (r: Result<
        u128,
        ContractError,
    >)
        ensures
            r == self.liquidity_outcome(sender@, id, total_lp_balance),
    {
        match self.positions.get(&id) {
            None => Err(ContractError::NotFound),
            Some(p) => {
                if !p.owner.eq(sender) {
                    return Err(ContractError::Unauthorized);
                }
                value_from_share(self.total_shares, total_lp_balance, p.shares)
            },
        }
    }

    /// Closes position `id` for its owner, given its debt and what its liquidity is
    /// worth in the base asset; refuses where that would not cover the debt.
    pub fn close_position(
        &mut self,
        sender: &String,
        id: u128,
        total_lp_balance: u128,
        debt: u128,
        base_amount: u128,
        swap_return: u128,
    ) -> (r: Result<ClosePlan, ContractError>)
        requires
            old(self).wf(),
        ensures
            final(self).wf(),
            old(self).liquidity_outcome(sender@, id, total_lp_balance) is Ok && base_amount
                + swap_return < debt ==> r == Err::<ClosePlan, ContractError>(
                ContractError::InsufficientFunds,
            ) && *final(self) == *old(self),
            match old(self).close_outcome(sender@, id, total_lp_balance, debt, base_amount, swap_return) {
                Ok(plan) => {
                    &&& r == Ok::<ClosePlan, ContractError>(plan)
                    &&& *final(self) == (Farm {
                        total_shares: (old(self).total_shares - old(self).positions@[id].shares) as u128,
                        positions: final(self).positions,
                        ..*old(self)
                    })
                    &&& final(self).positions@ == old(self).positions@.remove(id)
                },
                Err(e) => r == Err::<ClosePlan, ContractError>(e) && *final(self) == *old(self),
            },
    {
        let liquidity_amount = self.position_liquidity(sender, id, total_lp_balance)?;
        let total = match base_amount.checked_add(swap_return) {
            None => return Err(ContractError::MathError),
            Some(t) => t,
        };
        if total < debt {
            return Err(ContractError::InsufficientFunds);
        }
        let shares = match self.positions.get(&id) {
            Some(p) => p.shares,
            None => return Err(ContractError::NotFound),
        };
        proof {
            lemma_map_sum_remove(self.positions@, liquidity_weight(), id);
        }
        self.total_shares = self.total_shares - shares;
        self.positions.remove(&id);
        Ok(ClosePlan { liquidity_amount, repay_amount: debt, return_amount: total - debt })
    }
}

} // verus!
