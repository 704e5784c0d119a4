//! The router: a write-once table from asset to pool address, and the flows
//! that validate a caller's request and carry it to the pools.
//!
//! Pools are reached through the set of pools handed to each flow, found by
//! address. The legs of a two-leg flow are separate calls: when the second
//! fails, the first stays done, and the result says so.

use vstd::prelude::*;
use crate::types::{is_zero_address, Address, LendingError, TokenIdentifier};
use crate::pool::{undercollateralized, borrow_effect, repay_effect, repay_error, repay_succeeds, withdraw_payout, LiquidityPool};
use crate::metadata::{DebtMetadata, InterestMetadata, RepayPostion};
use crate::ledger::has_id;

verus! {

/// One entry of the route table.
#[derive(Clone, Debug, PartialEq, Eq)]
pub struct Route {
    pub asset: TokenIdentifier,
    pub pool_address: Address,
}

/// Whether the route table `s` has an entry for `asset`.
pub open spec fn has_route(s: Seq<Route>, asset: Seq<u8>) -> bool {
    exists|i: int| 0 <= i < s.len() && s[i].asset@ == asset
}

/// Whether some pool of `s` lives at `a`.
pub open spec fn has_pool(s: Seq<LiquidityPool>, a: Address) -> bool {
    exists|i: int| 0 <= i < s.len() && s[i].address.bytes@ == a.bytes@
}

/// The index of the pool of `s` at `a`, where there is one.
pub open spec fn pool_index(s: Seq<LiquidityPool>, a: Address) -> int {
    choose|i: int| 0 <= i < s.len() && s[i].address.bytes@ == a.bytes@
}

/// Every pool is well formed and no two share an address.
pub open spec fn pools_wf(s: Seq<LiquidityPool>) -> bool {
    &&& forall|i: int| 0 <= i < s.len() ==> s[i].wf()
    &&& forall|i: int, j: int|
        0 <= i < s.len() && 0 <= j < s.len() && i != j ==> s[i].address.bytes@
            != s[j].address.bytes@
}

/// The outcome of a borrow whose first leg, the collateral credit, went through.
pub struct BorrowFlow {
    /// The index of the collateral pool and the amount credited there.
    pub collateral_pool: usize,
    pub collateral_credited: u64,
    /// The second leg: the new position's id and debt receipt, or why the
    /// target pool refused. A refusal leaves the credit in place, to be
    /// recovered by a separate call.
    pub borrow: Result<(u64, DebtMetadata), LendingError>,
}

/// The outcome of a repay whose first leg, the settlement, went through.
pub struct RepayFlow {
    /// What the settled position leaves for the release of its collateral.
    pub position: RepayPostion,
    /// The second leg: the receipt that returns the collateral, or why it
    /// could not be released. A failure leaves `position` as the claim.
    pub release: Result<InterestMetadata, LendingError>,
}

/// The router and its route table.
pub struct LendingPool {
    pub routes: Vec<Route>,
}

impl LendingPool {
    /// Each asset has one route at most.
    pub open spec fn wf(&self) -> bool {
        forall|i: int, j: int|
            0 <= i < j < self.routes@.len() ==> self.routes@[i].asset@ != self.routes@[j].asset@
    }

    /// The index of the route of `asset`, where there is one.
    pub open spec fn route_index(&self, asset: Seq<u8>) -> int {
        choose|i: int| 0 <= i < self.routes@.len() && self.routes@[i].asset@ == asset
    }

    /// The pool address that `asset` resolves to, or why it does not.
    pub open spec fn resolve_result(&self, asset: Seq<u8>) -> Result<Address, LendingError> {
        if !has_route(self.routes@, asset) {
            Err(LendingError::AssetNotSupported)
        } else {
            let a = self.routes@[self.route_index(asset)].pool_address;
            if is_zero_address(a) {
                Err(LendingError::InvalidPoolAddress)
            } else {
                Ok(a)
            }
        }
    }

    /// The index among `pools` of the pool that `asset` resolves to, or why
    /// there is none.
    pub open spec fn target_result(&self, pools: Seq<LiquidityPool>, asset: Seq<u8>) -> Result<
        int,
        LendingError,
    > {
        match self.resolve_result(asset) {
            Err(e) => Err(e),
            Ok(a) => if has_pool(pools, a) {
                Ok(pool_index(pools, a))
            } else {
                Err(LendingError::InvalidPoolAddress)
            },
        }
    }

    /// The checks every endpoint makes on its caller and amount, then on the
    /// asset's route: the pool index, or the first failed check.
    pub open spec fn request_result(
        &self,
        caller: Address,
        amount: u64,
        pools: Seq<LiquidityPool>,
        asset: Seq<u8>,
    ) -> Result<int, LendingError> {
        if amount == 0 {
            Err(LendingError::InvalidAmount)
        } else if is_zero_address(caller) {
            Err(LendingError::InvalidAddress)
        } else {
            self.target_result(pools, asset)
        }
    }

    pub fn init() -> (r: LendingPool)
        ensures
            r.wf(),
            r.routes@.len() == 0,
    {
        LendingPool { routes: Vec::new() }
    }

    fn find_route(&self, asset: &TokenIdentifier) -> (r: Option<usize>)
        requires
            self.wf(),
        ensures
            r is None <==> !has_route(self.routes@, asset@),
            r matches Some(i) ==> i == self.route_index(asset@),
    {
        let mut i: usize = 0;
        while i < self.routes.len()
            invariant
                self.wf(),
                i <= self.routes@.len(),
                forall|j: int| 0 <= j < i ==> self.routes@[j].asset@ != asset@,
            decreases self.routes@.len() - i,
        {
            if self.routes[i].asset.same_as(asset) {
                proof {
                    assert(has_route(self.routes@, asset@));
                    let k = self.route_index(asset@);
                    if k != i {
                        if k < i {
                            assert(self.routes@[k].asset@ != self.routes@[i as int].asset@);
                        } else {
                            assert(self.routes@[i as int].asset@ != self.routes@[k].asset@);
                        }
                    }
                }
                return Some(i);
            }
            i = i + 1;
        }
        None
    }

    /// Maps `base_asset` to `pool_address`; an asset that already has a
    /// route keeps it and the call is rejected.
    pub fn set_pool_address(&mut self, base_asset: TokenIdentifier, pool_address: Address) -> (r:
        Result<(), LendingError>)
        requires
            old(self).wf(),
        ensures
            final(self).wf(),
            r is Err <==> has_route(old(self).routes@, base_asset@),
            r is Err ==> r == Err::<(), LendingError>(LendingError::AssetNotSupported)
                && final(self).routes@ == old(self).routes@,
            r is Ok ==> final(self).routes@ == old(self).routes@.push(
                Route { asset: base_asset, pool_address },
            ),
    {
        if self.find_route(&base_asset).is_some() {
            return Err(LendingError::AssetNotSupported);
        }
        self.routes.push(Route { asset: base_asset, pool_address });
        Ok(())
    }

    /// The pool address of `base_asset`, or the zero address if it has none.
    pub fn get_pool_address(&self, base_asset: &TokenIdentifier) -> (r: Address)
        requires
            self.wf(),
        ensures
            has_route(self.routes@, base_asset@) ==> r == self.routes@[self.route_index(
                base_asset@,
            )].pool_address,
            !has_route(self.routes@, base_asset@) ==> is_zero_address(r),
    {
        match self.find_route(base_asset) {
            Some(i) => self.routes[i].pool_address,
            None => Address::zero(),
        }
    }

    /// The pool address of `asset`: rejected when the asset has no route or
    /// its route holds the zero address.
    pub fn resolve(&self, asset: &TokenIdentifier) -> (r: Result<Address, LendingError>)
        requires
            self.wf(),
        ensures
            r == self.resolve_result(asset@),
    {
        match self.find_route(asset) {
            None => Err(LendingError::AssetNotSupported),
            Some(i) => {
                let a = self.routes[i].pool_address;
                if a.is_zero() {
                    Err(LendingError::InvalidPoolAddress)
                } else {
                    Ok(a)
                }
            },
        }
    }

    /// The index among `pools` of the pool that `asset` resolves to.
    pub fn target(&self, pools: &Vec<LiquidityPool>, asset: &TokenIdentifier) -> (r: Result<
        usize,
        LendingError,
    >)
        requires
            self.wf(),
            pools_wf(pools@),
        ensures
            r is Err <==> self.target_result(pools@, asset@) is Err,
            r is Err ==> r == Err::<usize, LendingError>(self.target_result(pools@, asset@)->Err_0),
            r matches Ok(k) ==> k == self.target_result(pools@, asset@)->Ok_0 && k < pools@.len(),
    {
        let a = match self.resolve(asset) {
            Ok(a) => a,
            Err(e) => {
                return Err(e);
            },
        };
        let mut i: usize = 0;
        while i < pools.len()
            invariant
                pools_wf(pools@),
                self.resolve_result(asset@) == Ok::<Address, LendingError>(a),
                i <= pools@.len(),
                forall|j: int| 0 <= j < i ==> pools@[j].address.bytes@ != a.bytes@,
            decreases pools@.len() - i,
        {
            if pools[i].address.same_as(&a) {
                proof {
                    assert(has_pool(pools@, a));
                    let k = pool_index(pools@, a);
                    if k != i {
                        assert(pools@[k].address.bytes@ != pools@[i as int].address.bytes@);
                    }
                }
                return Ok(i);
            }
            i = i + 1;
        }
        Err(LendingError::InvalidPoolAddress)
    }

    /// Validates a request: a positive amount, a caller that is not the zero
    /// address, and a pool for the asset.
    pub fn check_request(
        &self,
        caller: &Address,
        amount: u64,
        pools: &Vec<LiquidityPool>,
        asset: &TokenIdentifier,
    ) -> (r: Result<usize, LendingError>)
        requires
            self.wf(),
            pools_wf(pools@),
        ensures
            r is Err <==> self.request_result(*caller, amount, pools@, asset@) is Err,
            r is Err ==> r == Err::<usize, LendingError>(
                self.request_result(*caller, amount, pools@, asset@)->Err_0,
            ),
            r matches Ok(k) ==> k == self.request_result(*caller, amount, pools@, asset@)->Ok_0
                && k < pools@.len(),
    {
        if amount == 0 {
            return Err(LendingError::InvalidAmount);
        }
        if caller.is_zero() {
            return Err(LendingError::InvalidAddress);
        }
        self.target(pools, asset)
    }
    /// Carries a deposit of `amount` of `asset` for `caller` to the asset's
    /// pool, which returns the deposit receipt.
    pub fn deposit(
        &self,
        caller: Address,
        asset: &TokenIdentifier,
        amount: u64,
        now: u64,
        pools: &mut Vec<LiquidityPool>,
    ) -> (r: Result<InterestMetadata, LendingError>)
        requires
            self.wf(),
            pools_wf(old(pools)@),
        ensures
            pools_wf(final(pools)@),
            ({
                let t = self.request_result(caller, amount, old(pools)@, asset@);
                &&& t is Err ==> r == Err::<InterestMetadata, LendingError>(t->Err_0)
                    && final(pools)@ == old(pools)@
                &&& t is Ok ==> {
                    let k = t->Ok_0;
                    let p = old(pools)@[k];
                    &&& r is Ok <==> p.reserve_amount + p.ledger.total_borrow + amount <= u64::MAX
                    &&& r is Ok ==> r == Ok::<InterestMetadata, LendingError>(
                        InterestMetadata { timestamp: now },
                    ) && final(pools)@ == old(pools)@.update(
                        k,
                        LiquidityPool { reserve_amount: (p.reserve_amount + amount) as u64, ..p },
                    )
                    &&& r is Err ==> r == Err::<InterestMetadata, LendingError>(
                        LendingError::Overflow,
                    ) && final(pools)@ == old(pools)@
                }
            }),
    {
        let k = match self.check_request(&caller, amount, pools, asset) {
            Ok(k) => k,
            Err(e) => {
                return Err(e);
            },
        };
        let r = pools[k].deposit_asset(amount, now);
        proof {
            lemma_pools_update(old(pools)@, k as int, pools@[k as int]);
            if r is Err {
                assert(pools@ =~= old(pools)@);
            }
        }
        r
    }
    /// Carries the redemption of a deposit receipt of `amount` stamped
    /// `timestamp` to the pool of `asset`, which returns the payout.
    pub fn withdraw(
        &self,
        caller: Address,
        asset: &TokenIdentifier,
        amount: u64,
        timestamp: u64,
        now: u64,
        pools: &mut Vec<LiquidityPool>,
    ) -> (r: Result<u64, LendingError>)
        requires
            self.wf(),
            pools_wf(old(pools)@),
        ensures
            pools_wf(final(pools)@),
            ({
                let t = self.request_result(caller, amount, old(pools)@, asset@);
                &&& t is Err ==> r == Err::<u64, LendingError>(t->Err_0) && final(pools)@ == old(
                    pools,
                )@
                &&& t is Ok ==> {
                    let k = t->Ok_0;
                    let p = old(pools)@[k];
                    &&& r is Ok <==> now >= timestamp && withdraw_payout(&p, amount, timestamp, now)
                        <= p.reserve_amount
                    &&& r matches Ok(payout) ==> payout == withdraw_payout(
                        &p,
                        amount,
                        timestamp,
                        now,
                    ) && final(pools)@ == old(pools)@.update(
                        k,
                        LiquidityPool { reserve_amount: (p.reserve_amount - payout) as u64, ..p },
                    )
                    &&& r is Err ==> final(pools)@ == old(pools)@ && r == Err::<u64, LendingError>(
                        if now < timestamp {
                            LendingError::InvalidTimestamp
                        } else {
                            LendingError::InsufficientReserve
                        },
                    )
                }
            }),
    {
        let k = match self.check_request(&caller, amount, pools, asset) {
            Ok(k) => k,
            Err(e) => {
                return Err(e);
            },
        };
        let r = pools[k].withdraw(amount, timestamp, now);
        proof {
            lemma_pools_update(old(pools)@, k as int, pools@[k as int]);
            if r is Err {
                assert(pools@ =~= old(pools)@);
            }
        }
        r
    }

    /// Checks a presented debt receipt, for position `position_id`, against
    /// the pool of `asset_to_repay`, and returns that pool's address.
    pub fn lock_b_tokens(
        &self,
        caller: Address,
        asset_to_repay: &TokenIdentifier,
        position_id: u64,
        amount: u64,
        pools: &Vec<LiquidityPool>,
    ) -> (r: Result<Address, LendingError>)
        requires
            self.wf(),
            pools_wf(pools@),
        ensures
            ({
                let t = self.request_result(caller, amount, pools@, asset_to_repay@);
                &&& t is Err ==> r == Err::<Address, LendingError>(t->Err_0)
                &&& t is Ok ==> {
                    let p = pools@[t->Ok_0];
                    &&& r is Ok <==> has_id(p.ledger.positions@, position_id)
                    &&& r matches Ok(a) ==> a == p.address
                    &&& r is Err ==> r == Err::<Address, LendingError>(
                        LendingError::PositionNotFound,
                    )
                }
            }),
    {
        let k = match self.check_request(&caller, amount, pools, asset_to_repay) {
            Ok(k) => k,
            Err(e) => {
                return Err(e);
            },
        };
        match pools[k].lock_b_tokens(position_id) {
            Ok(()) => Ok(pools[k].address),
            Err(e) => Err(e),
        }
    }

    /// Borrows `amount` of `borrow_asset` against the same amount of
    /// `collateral_asset` in two legs: the collateral is credited to its pool,
    /// then the target pool lends, given the oracle's `collateral_value` and
    /// `debt_value` for its health check. A refusal of the second leg does not
    /// undo the first; the returned flow reports it.
    pub fn borrow(
        &self,
        caller: Address,
        collateral_asset: &TokenIdentifier,
        borrow_asset: &TokenIdentifier,
        amount: u64,
        collateral_timestamp: u64,
        now: u64,
        collateral_value: u64,
        debt_value: u64,
        pools: &mut Vec<LiquidityPool>,
    ) -> (r: Result<BorrowFlow, LendingError>)
        requires
            self.wf(),
            pools_wf(old(pools)@),
        ensures
            pools_wf(final(pools)@),
            ({
                let t = self.request_result(caller, amount, old(pools)@, collateral_asset@);
                let tb = self.target_result(old(pools)@, borrow_asset@);
                &&& t is Err ==> r == Err::<BorrowFlow, LendingError>(t->Err_0)
                    && final(pools)@ == old(pools)@
                &&& t is Ok && tb is Err ==> r == Err::<BorrowFlow, LendingError>(tb->Err_0)
                    && final(pools)@ == old(pools)@
                &&& t is Ok && tb is Ok ==> {
                    let kc = t->Ok_0;
                    let kb = tb->Ok_0;
                    let pc = old(pools)@[kc];
                    let mid = old(pools)@.update(
                        kc,
                        LiquidityPool {
                            collateral_amount: (pc.collateral_amount + amount) as u64,
                            ..pc
                        },
                    );
                    let pb = mid[kb];
                    &&& r is Err <==> pc.collateral_amount + amount > u64::MAX
                    &&& r is Err ==> r == Err::<BorrowFlow, LendingError>(LendingError::Overflow)
                        && final(pools)@ == old(pools)@
                    &&& r matches Ok(f) ==> {
                        &&& f.collateral_pool == kc
                        &&& f.collateral_credited == amount
                        &&& f.borrow is Ok <==> amount <= pb.reserve_amount && !undercollateralized(
                            pb.params,
                            collateral_value,
                            debt_value,
                        ) && pb.ledger.next_id < u64::MAX
                        &&& f.borrow is Err ==> final(pools)@ == mid && f.borrow == Err::<
                            (u64, DebtMetadata),
                            LendingError,
                        >(
                            if amount > pb.reserve_amount {
                                LendingError::InsufficientReserve
                            } else if undercollateralized(pb.params, collateral_value, debt_value) {
                                LendingError::Undercollateralized
                            } else {
                                LendingError::Overflow
                            },
                        )
                        &&& f.borrow matches Ok((id, meta)) ==> {
                            &&& id == pb.ledger.next_id
                            &&& final(pools)@ == mid.update(kb, final(pools)@[kb])
                            &&& borrow_effect(
                                pb,
                                final(pools)@[kb],
                                id,
                                meta,
                                amount,
                                collateral_asset@,
                                amount,
                                collateral_timestamp,
                                now,
                            )
                        }
                    }
                }
            }),
    {
        let kc = match self.check_request(&caller, amount, pools, collateral_asset) {
            Ok(k) => k,
            Err(e) => {
                return Err(e);
            },
        };
        let kb = match self.target(pools, borrow_asset) {
            Ok(k) => k,
            Err(e) => {
                return Err(e);
            },
        };
        match pools[kc].add_collateral(amount) {
            Ok(()) => {},
            Err(e) => {
                proof {
                    assert(pools@ =~= old(pools)@);
                }
                return Err(e);
            },
        }
        let ghost mid = pools@;
        proof {
            lemma_pools_update(old(pools)@, kc as int, pools@[kc as int]);
        }
        let b = pools[kb].borrow(
            amount,
            collateral_asset.duplicate(),
            amount,
            collateral_timestamp,
            now,
            collateral_value,
            debt_value,
        );
        proof {
            lemma_pools_update(mid, kb as int, pools@[kb as int]);
            if b is Err {
                assert(pools@ =~= mid);
            } else {
                assert(pools@ =~= mid.update(kb as int, pools@[kb as int]));
            }
        }
        Ok(BorrowFlow { collateral_pool: kc, collateral_credited: amount, borrow: b })
    }

    /// Repays position `position_id` of the pool of `asset` with `amount` in
    /// two legs: the debt pool settles the position, then the collateral named
    /// in the settlement is released from its own pool. A failure of the
    /// second leg does not undo the first; the returned flow keeps the
    /// settlement as the claim on the collateral.
    pub fn repay(
        &self,
        caller: Address,
        asset: &TokenIdentifier,
        position_id: u64,
        amount: u64,
        now: u64,
        pools: &mut Vec<LiquidityPool>,
    ) -> (r: Result<RepayFlow, LendingError>)
        requires
            self.wf(),
            pools_wf(old(pools)@),
        ensures
            pools_wf(final(pools)@),
            ({
                let t = self.request_result(caller, amount, old(pools)@, asset@);
                &&& t is Err ==> r == Err::<RepayFlow, LendingError>(t->Err_0)
                    && final(pools)@ == old(pools)@
                &&& t is Ok ==> {
                    let kd = t->Ok_0;
                    let pd = old(pools)@[kd];
                    &&& r is Ok <==> repay_succeeds(&pd, position_id, amount, now)
                    &&& r is Err ==> r == Err::<RepayFlow, LendingError>(
                        repay_error(&pd, position_id, amount, now),
                    ) && final(pools)@ == old(pools)@
                    &&& r matches Ok(f) ==> exists|q: LiquidityPool|
                        #![trigger repay_effect(pd, q, f.position, position_id, amount)]
                        {
                            let mid = old(pools)@.update(kd, q);
                            let tc = self.target_result(mid, f.position.collateral_identifier@);
                            let ca = f.position.collateral_amount;
                            &&& repay_effect(pd, q, f.position, position_id, amount)
                            &&& tc is Err ==> f.release == Err::<InterestMetadata, LendingError>(
                                tc->Err_0,
                            ) && final(pools)@ == mid
                            &&& tc is Ok ==> {
                                let pc = mid[tc->Ok_0];
                                &&& f.release is Ok <==> 0 < ca <= pc.collateral_amount
                                &&& f.release is Ok ==> f.release == Ok::<
                                    InterestMetadata,
                                    LendingError,
                                >(InterestMetadata { timestamp: f.position.collateral_timestamp })
                                    && final(pools)@ == mid.update(
                                    tc->Ok_0,
                                    LiquidityPool {
                                        collateral_amount: (pc.collateral_amount - ca) as u64,
                                        ..pc
                                    },
                                )
                                &&& f.release is Err ==> final(pools)@ == mid && f.release == Err::<
                                    InterestMetadata,
                                    LendingError,
                                >(
                                    if ca == 0 {
                                        LendingError::InvalidAmount
                                    } else {
                                        LendingError::InsufficientReserve
                                    },
                                )
                            }
                        }
                }
            }),
    {
        let kd = match self.check_request(&caller, amount, pools, asset) {
            Ok(k) => k,
            Err(e) => {
                return Err(e);
            },
        };
        let position = match pools[kd].repay(position_id, amount, now) {
            Ok(rp) => rp,
            Err(e) => {
                proof {
                    assert(pools@ =~= old(pools)@);
                }
                return Err(e);
            },
        };
        let ghost q = pools@[kd as int];
        let ghost mid = pools@;
        proof {
            lemma_pools_update(old(pools)@, kd as int, q);
            assert(mid =~= old(pools)@.update(kd as int, q));
        }
        let release = match self.target(pools, &position.collateral_identifier) {
            Err(e) => Err(e),
            Ok(kc) => {
                let rel = pools[kc].release_collateral(
                    position.collateral_amount,
                    position.collateral_timestamp,
                );
                proof {
                    lemma_pools_update(mid, kc as int, pools@[kc as int]);
                    if rel is Err {
                        assert(pools@ =~= mid);
                    }
                }
                rel
            },
        };
        let f = RepayFlow { position, release };
        proof {
            assert(repay_effect(old(pools)@[kd as int], q, f.position, position_id, amount));
        }
        Ok(f)
    }
}

/// Replacing a pool by a well-formed one at the same address keeps the set
/// well formed.
proof fn lemma_pools_update(s: Seq<LiquidityPool>, k: int, p: LiquidityPool)
    requires
        pools_wf(s),
        0 <= k < s.len(),
        p.wf(),
        p.address == s[k].address,
    ensures
        pools_wf(s.update(k, p)),
{
    let t = s.update(k, p);
    assert forall|i: int, j: int|
        0 <= i < t.len() && 0 <= j < t.len() && i != j implies t[i].address.bytes@
        != t[j].address.bytes@ by {
        assert(s[i].address.bytes@ != s[j].address.bytes@);
    }
}

} // verus!
