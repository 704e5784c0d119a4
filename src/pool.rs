//! A liquidity pool for one asset: its reserve, its locked collateral, its rate
//! curve and its ledger of debt positions.

use vstd::prelude::*;
use crate::types::{Address, LendingError, TokenIdentifier};
use crate::rate::{
    borrow_rate_of, compute_borrow_rate, compute_capital_utilisation, compute_debt,
    compute_deposit_rate, deposit_rate_of, interest_of, utilisation_of, PoolParams, MAX_RATE,
};
use crate::ledger::{has_id, DebtPosition, PositionLedger};
use crate::metadata::{
    DebtMetadata, InterestMetadata, IssueData, RepayPostion, BORROW_TOKEN_PREFIX,
    LEND_TOKEN_PREFIX, debt_token_name, lend_token_name, issue_data_of, concat_bytes,
};

verus! {

pub struct LiquidityPool {
    pub asset: TokenIdentifier,
    pub address: Address,
    pub params: PoolParams,
    /// Units of the asset held and free to lend.
    pub reserve_amount: u64,
    /// Collateral credited to this pool for borrows elsewhere.
    pub collateral_amount: u64,
    pub ledger: PositionLedger,
    /// The deposit-receipt token, once issued.
    pub lend_token: Option<TokenIdentifier>,
    /// The debt-receipt token, once issued.
    pub borrow_token: Option<TokenIdentifier>,
}

/// Utilisation of a pool.
pub open spec fn pool_utilisation(p: &LiquidityPool) -> int {
    utilisation_of(p.ledger.total_borrow as int, p.reserve_amount as int)
}

/// Current borrow rate of a pool.
pub open spec fn pool_borrow_rate(p: &LiquidityPool) -> int {
    borrow_rate_of(p.params, pool_utilisation(p))
}

/// Current deposit rate of a pool.
pub open spec fn pool_deposit_rate(p: &LiquidityPool) -> int {
    deposit_rate_of(p.params, pool_utilisation(p))
}

/// What a deposit receipt of `amount` stamped `timestamp` pays out at `now`:
/// the amount with the deposit interest since the stamp.
pub open spec fn withdraw_payout(p: &LiquidityPool, amount: u64, timestamp: u64, now: u64) -> int {
    amount + interest_of(amount as int, now - timestamp, pool_deposit_rate(p))
}

impl LiquidityPool {
    /// Params valid, ledger consistent, every open position owes something,
    /// and reserve plus lent amount within `u64`.
    pub open spec fn wf(&self) -> bool {
        &&& self.params.wf()
        &&& self.ledger.wf()
        &&& forall|i: int| 0 <= i < self.ledger.positions@.len() ==> self.ledger.positions@[i].size > 0
        &&& self.reserve_amount + self.ledger.total_borrow <= u64::MAX
    }

    /// What `accrue(id, now)` returns on this pool.
    pub open spec fn accrue_result(&self, id: u64, now: u64) -> Result<u128, LendingError> {
        self.ledger.accrue_result(id, now, pool_borrow_rate(self) as u64)
    }

    /// A new empty pool for `asset` at `address` with the curve `params`.
    pub fn init(asset: TokenIdentifier, address: Address, params: PoolParams) -> (r: LiquidityPool)
        requires
            params.wf(),
        ensures
            r.wf(),
            r.asset == asset,
            r.address == address,
            r.params == params,
            r.reserve_amount == 0,
            r.collateral_amount == 0,
            r.ledger.positions@.len() == 0,
            r.ledger.total_borrow == 0,
            r.ledger.next_id == 0,
            r.lend_token is None,
            r.borrow_token is None,
    {
        LiquidityPool {
            asset,
            address,
            params,
            reserve_amount: 0,
            collateral_amount: 0,
            ledger: PositionLedger::new(),
            lend_token: None,
            borrow_token: None,
        }
    }

    pub fn get_capital_utilisation(&self) -> (u: u64)
        ensures
            u == pool_utilisation(self),
            u <= crate::rate::BP,
    {
        compute_capital_utilisation(self.ledger.total_borrow, self.reserve_amount)
    }

    pub fn get_borrow_rate(&self) -> (r: u64)
        requires
            self.wf(),
        ensures
            r == pool_borrow_rate(self),
            r <= MAX_RATE,
    {
        let u = self.get_capital_utilisation();
        compute_borrow_rate(&self.params, u)
    }

    pub fn get_deposit_rate(&self) -> (r: u64)
        requires
            self.wf(),
        ensures
            r == pool_deposit_rate(self),
            r <= pool_borrow_rate(self),
            r <= MAX_RATE,
    {
        let u = self.get_capital_utilisation();
        compute_deposit_rate(&self.params, u)
    }

    /// Seconds from `timestamp` to `now`; a timestamp in the future is rejected.
    pub fn get_timestamp_diff(timestamp: u64, now: u64) -> (r: Result<u64, LendingError>)
        ensures
            now < timestamp ==> r == Err::<u64, LendingError>(LendingError::InvalidTimestamp),
            now >= timestamp ==> r == Ok::<u64, LendingError>((now - timestamp) as u64),
    {
        if now < timestamp {
            Err(LendingError::InvalidTimestamp)
        } else {
            Ok(now - timestamp)
        }
    }

    /// Interest on `amount` borrowed at `timestamp`, up to `now`, at the
    /// pool's current borrow rate.
    pub fn get_debt_interest(&self, amount: u64, timestamp: u64, now: u64) -> (r: Result<
        u128,
        LendingError,
    >)
        requires
            self.wf(),
        ensures
            now < timestamp ==> r == Err::<u128, LendingError>(LendingError::InvalidTimestamp),
            now >= timestamp ==> r is Ok,
            r matches Ok(i) ==> i == interest_of(amount as int, now - timestamp, pool_borrow_rate(self)),
    {
        let time_diff = match LiquidityPool::get_timestamp_diff(timestamp, now) {
            Ok(d) => d,
            Err(e) => {
                return Err(e);
            },
        };
        let rate = self.get_borrow_rate();
        Ok(compute_debt(amount, time_diff, rate))
    }

    /// The size of position `id` with the interest up to `now` folded in;
    /// the stored size stays as it is.
    pub fn accrue(&self, id: u64, now: u64) -> (r: Result<u128, LendingError>)
        requires
            self.wf(),
        ensures
            r == self.accrue_result(id, now),
    {
        let rate = self.get_borrow_rate();
        self.ledger.accrue(id, now, rate)
    }

    /// Interest that position `id` has accrued up to `now` over its size.
    pub fn get_debt_position_interest(&self, id: u64, now: u64) -> (r: Result<u128, LendingError>)
        requires
            self.wf(),
        ensures
            r is Err <==> self.accrue_result(id, now) is Err,
            r is Err ==> r == self.accrue_result(id, now),
            r matches Ok(i) ==> {
                let p = self.ledger.positions@[self.ledger.index_of(id)];
                i == interest_of(p.size as int, now - p.opened_at, pool_borrow_rate(self))
            },
    {
        match self.ledger.find(id) {
            None => Err(LendingError::PositionNotFound),
            Some(i) => {
                let p = &self.ledger.positions[i];
                self.get_debt_interest(p.size, p.opened_at, now)
            },
        }
    }

    /// A copy of the open position `id`, where there is one.
    pub fn view_debt_position(&self, id: u64) -> (r: Option<DebtPosition>)
        requires
            self.wf(),
        ensures
            r is None <==> !has_id(self.ledger.positions@, id),
            r matches Some(d) ==> {
                let p = self.ledger.positions@[self.ledger.index_of(id)];
                &&& d.id == p.id && d.size == p.size && d.opened_at == p.opened_at
                &&& d.collateral_identifier@ == p.collateral_identifier@
                &&& d.collateral_amount == p.collateral_amount
                &&& d.collateral_timestamp == p.collateral_timestamp
            },
    {
        match self.ledger.find(id) {
            None => None,
            Some(i) => {
                let p = &self.ledger.positions[i];
                Some(
                    DebtPosition {
                        id: p.id,
                        size: p.size,
                        opened_at: p.opened_at,
                        collateral_identifier: p.collateral_identifier.duplicate(),
                        collateral_amount: p.collateral_amount,
                        collateral_timestamp: p.collateral_timestamp,
                    },
                )
            },
        }
    }

    /// Takes `amount` into the reserve and returns the metadata of the
    /// deposit receipt, stamped `now`.
    pub fn deposit_asset(&mut self, amount: u64, now: u64) -> (r: Result<
        InterestMetadata,
        LendingError,
    >)
        requires
            old(self).wf(),
        ensures
            final(self).wf(),
            amount == 0 ==> r == Err::<InterestMetadata, LendingError>(
                LendingError::InvalidAmount,
            ),
            amount > 0 && old(self).reserve_amount + old(self).ledger.total_borrow + amount
                > u64::MAX ==> r == Err::<InterestMetadata, LendingError>(LendingError::Overflow),
            r is Err ==> *final(self) == *old(self),
            r is Ok <==> amount > 0 && old(self).reserve_amount + old(self).ledger.total_borrow
                + amount <= u64::MAX,
            r is Ok ==> r == Ok::<InterestMetadata, LendingError>(
                InterestMetadata { timestamp: now },
            ) && *final(self) == (LiquidityPool {
                reserve_amount: (old(self).reserve_amount + amount) as u64,
                ..*old(self)
            }),
    {
        if amount == 0 {
            return Err(LendingError::InvalidAmount);
        }
        if amount > u64::MAX - self.reserve_amount - self.ledger.total_borrow {
            return Err(LendingError::Overflow);
        }
        self.reserve_amount = self.reserve_amount + amount;
        Ok(InterestMetadata { timestamp: now })
    }

    /// Redeems a deposit receipt of `amount` stamped `timestamp`: pays out the
    /// amount with its deposit interest up to `now` from the reserve.
    pub fn withdraw(&mut self, amount: u64, timestamp: u64, now: u64) -> (r: Result<
        u64,
        LendingError,
    >)
        requires
            old(self).wf(),
        ensures
            final(self).wf(),
            amount == 0 ==> r == Err::<u64, LendingError>(LendingError::InvalidAmount),
            amount > 0 && now < timestamp ==> r == Err::<u64, LendingError>(
                LendingError::InvalidTimestamp,
            ),
            amount > 0 && now >= timestamp && withdraw_payout(old(self), amount, timestamp, now)
                > old(self).reserve_amount ==> r == Err::<u64, LendingError>(
                LendingError::InsufficientReserve,
            ),
            r is Err ==> *final(self) == *old(self),
            r is Ok <==> amount > 0 && now >= timestamp && withdraw_payout(
                old(self),
                amount,
                timestamp,
                now,
            ) <= old(self).reserve_amount,
            r matches Ok(payout) ==> payout == withdraw_payout(old(self), amount, timestamp, now)
                && *final(self) == (LiquidityPool {
                reserve_amount: (old(self).reserve_amount - payout) as u64,
                ..*old(self)
            }),
    {
        if amount == 0 {
            return Err(LendingError::InvalidAmount);
        }
        let elapsed = match LiquidityPool::get_timestamp_diff(timestamp, now) {
            Ok(d) => d,
            Err(e) => {
                return Err(e);
            },
        };
        let rate = self.get_deposit_rate();
        let interest = compute_debt(amount, elapsed, rate);
        if amount > self.reserve_amount || interest > (self.reserve_amount - amount) as u128 {
            return Err(LendingError::InsufficientReserve);
        }
        let payout = amount + interest as u64;
        self.reserve_amount = self.reserve_amount - payout;
        Ok(payout)
    }
    /// Lends `amount` from the reserve against the stated collateral: opens a
    /// position of that size stamped `now` and returns its id with the
    /// metadata of its debt receipt. The price oracle values the collateral
    /// at `collateral_value` and the debt at `debt_value`; a position whose
    /// health factor would fall below the threshold is refused.
    pub fn borrow(
        &mut self,
        amount: u64,
        collateral_identifier: TokenIdentifier,
        collateral_amount: u64,
        collateral_timestamp: u64,
        now: u64,
        collateral_value: u64,
        debt_value: u64,
    ) -> (r: Result<(u64, DebtMetadata), LendingError>)
        requires
            old(self).wf(),
        ensures
            final(self).wf(),
            amount == 0 ==> r == Err::<(u64, DebtMetadata), LendingError>(
                LendingError::InvalidAmount,
            ),
            amount > 0 && amount > old(self).reserve_amount ==> r == Err::<
                (u64, DebtMetadata),
                LendingError,
            >(LendingError::InsufficientReserve),
            0 < amount <= old(self).reserve_amount && undercollateralized(
                old(self).params,
                collateral_value,
                debt_value,
            ) ==> r == Err::<(u64, DebtMetadata), LendingError>(LendingError::Undercollateralized),
            0 < amount <= old(self).reserve_amount && !undercollateralized(
                old(self).params,
                collateral_value,
                debt_value,
            ) && old(self).ledger.next_id == u64::MAX ==> r == Err::<
                (u64, DebtMetadata),
                LendingError,
            >(LendingError::Overflow),
            r is Err ==> *final(self) == *old(self),
            r is Ok <==> 0 < amount <= old(self).reserve_amount && !undercollateralized(
                old(self).params,
                collateral_value,
                debt_value,
            ) && old(self).ledger.next_id < u64::MAX,
            r matches Ok((id, meta)) ==> id == old(self).ledger.next_id && borrow_effect(
                *old(self),
                *final(self),
                id,
                meta,
                amount,
                collateral_identifier@,
                collateral_amount,
                collateral_timestamp,
                now,
            ),
    {
        if amount == 0 {
            return Err(LendingError::InvalidAmount);
        }
        if amount > self.reserve_amount {
            return Err(LendingError::InsufficientReserve);
        }
        match self.check_health(collateral_value, debt_value) {
            Ok(()) => {},
            Err(e) => {
                return Err(e);
            },
        }
        let meta = DebtMetadata {
            timestamp: now,
            collateral_amount,
            collateral_identifier: collateral_identifier.duplicate(),
            collateral_timestamp,
        };
        let ghost before = self.ledger.positions@;
        match self.ledger.open_position(
            amount,
            collateral_identifier,
            collateral_amount,
            collateral_timestamp,
            now,
        ) {
            Ok(id) => {
                proof {
                    assert(self.ledger.positions@.drop_last() =~= before);
                }
                self.reserve_amount = self.reserve_amount - amount;
                Ok((id, meta))
            },
            Err(e) => Err(e),
        }
    }

    /// Settles position `id` in full with `amount`, which must cover the size
    /// accrued up to `now`; the whole amount goes to the reserve and the
    /// position's collateral is described for release.
    pub fn repay(&mut self, id: u64, amount: u64, now: u64) -> (r: Result<RepayPostion, LendingError>)
        requires
            old(self).wf(),
        ensures
            final(self).wf(),
            r is Err ==> *final(self) == *old(self),
            r is Ok <==> repay_succeeds(old(self), id, amount, now),
            r is Err ==> r == Err::<RepayPostion, LendingError>(
                repay_error(old(self), id, amount, now),
            ),
            r matches Ok(rp) ==> repay_effect(*old(self), *final(self), rp, id, amount),
    {
        if amount == 0 {
            return Err(LendingError::InvalidAmount);
        }
        let i = match self.ledger.find(id) {
            Some(i) => i,
            None => {
                return Err(LendingError::PositionNotFound);
            },
        };
        let rate = self.get_borrow_rate();
        let due = match self.ledger.accrue_at(i, now, rate) {
            Ok(v) => v,
            Err(e) => {
                return Err(e);
            },
        };
        if (amount as u128) < due {
            return Err(LendingError::Overpayment);
        }
        let size = self.ledger.positions[i].size;
        proof {
            self.ledger.lemma_size_within_total(i as int);
        }
        if amount > u64::MAX - self.reserve_amount - (self.ledger.total_borrow - size) {
            return Err(LendingError::Overflow);
        }
        let p = self.ledger.remove_at(i);
        self.reserve_amount = self.reserve_amount + amount;
        Ok(
            RepayPostion {
                identifier: self.asset.duplicate(),
                amount,
                nonce: id,
                collateral_identifier: p.collateral_identifier,
                collateral_amount: p.collateral_amount,
                collateral_timestamp: p.collateral_timestamp,
            },
        )
    }

    /// Checks that the debt receipt of position `id` stands for an open position.
    pub fn lock_b_tokens(&self, id: u64) -> (r: Result<(), LendingError>)
        requires
            self.wf(),
        ensures
            r is Ok <==> has_id(self.ledger.positions@, id),
            r is Err ==> r == Err::<(), LendingError>(LendingError::PositionNotFound),
    {
        match self.ledger.find(id) {
            Some(_) => Ok(()),
            None => Err(LendingError::PositionNotFound),
        }
    }

    /// Credits `amount` of collateral to this pool.
    pub fn add_collateral(&mut self, amount: u64) -> (r: Result<(), LendingError>)
        requires
            old(self).wf(),
        ensures
            final(self).wf(),
            amount == 0 ==> r == Err::<(), LendingError>(LendingError::InvalidAmount),
            amount > 0 && old(self).collateral_amount + amount > u64::MAX ==> r == Err::<
                (),
                LendingError,
            >(LendingError::Overflow),
            r is Err ==> *final(self) == *old(self),
            r is Ok <==> amount > 0 && old(self).collateral_amount + amount <= u64::MAX,
            r is Ok ==> *final(self) == (LiquidityPool {
                collateral_amount: (old(self).collateral_amount + amount) as u64,
                ..*old(self)
            }),
    {
        if amount == 0 {
            return Err(LendingError::InvalidAmount);
        }
        if amount > u64::MAX - self.collateral_amount {
            return Err(LendingError::Overflow);
        }
        self.collateral_amount = self.collateral_amount + amount;
        Ok(())
    }

    /// Releases `amount` of credited collateral back to its owner as a deposit
    /// receipt carrying the collateral's original stamp.
    pub fn release_collateral(&mut self, amount: u64, collateral_timestamp: u64) -> (r: Result<
        InterestMetadata,
        LendingError,
    >)
        requires
            old(self).wf(),
        ensures
            final(self).wf(),
            amount == 0 ==> r == Err::<InterestMetadata, LendingError>(
                LendingError::InvalidAmount,
            ),
            amount > old(self).collateral_amount ==> r == Err::<InterestMetadata, LendingError>(
                LendingError::InsufficientReserve,
            ),
            r is Err ==> *final(self) == *old(self),
            r is Ok <==> 0 < amount <= old(self).collateral_amount,
            r is Ok ==> r == Ok::<InterestMetadata, LendingError>(
                InterestMetadata { timestamp: collateral_timestamp },
            ) && *final(self) == (LiquidityPool {
                collateral_amount: (old(self).collateral_amount - amount) as u64,
                ..*old(self)
            }),
    {
        if amount == 0 {
            return Err(LendingError::InvalidAmount);
        }
        if amount > self.collateral_amount {
            return Err(LendingError::InsufficientReserve);
        }
        self.collateral_amount = self.collateral_amount - amount;
        Ok(InterestMetadata { timestamp: collateral_timestamp })
    }

    /// Health factor of a position whose collateral is worth
    /// `collateral_value` and whose debt is worth `debt_value`:
    /// `collateral_value * liquidation_threshold / debt_value`.
    pub fn compute_health_factor(&self, collateral_value: u64, debt_value: u64) -> (h: u128)
        requires
            debt_value > 0,
        ensures
            h == health_factor_of(self.params, collateral_value, debt_value),
    {
        proof {
            vstd::arithmetic::mul::lemma_mul_inequality(
                collateral_value as int,
                u64::MAX as int,
                self.params.liquidation_threshold as int,
            );
            vstd::arithmetic::mul::lemma_mul_inequality(
                self.params.liquidation_threshold as int,
                u64::MAX as int,
                u64::MAX as int,
            );
            vstd::arithmetic::mul::lemma_mul_is_commutative(
                u64::MAX as int,
                self.params.liquidation_threshold as int,
            );
            vstd::arithmetic::div_mod::lemma_div_pos_is_pos(
                collateral_value * self.params.liquidation_threshold,
                debt_value as int,
            );
            vstd::arithmetic::div_mod::lemma_div_is_ordered_by_denominator(
                collateral_value * self.params.liquidation_threshold,
                1,
                debt_value as int,
            );
            vstd::arithmetic::mul::lemma_mul_nonnegative(
                collateral_value as int,
                self.params.liquidation_threshold as int,
            );
        }
        collateral_value as u128 * self.params.liquidation_threshold as u128 / debt_value as u128
    }

    /// Rejects a position whose health factor is below the pool's threshold;
    /// a position without debt is always healthy.
    pub fn check_health(&self, collateral_value: u64, debt_value: u64) -> (r: Result<
        (),
        LendingError,
    >)
        ensures
            r is Err <==> undercollateralized(self.params, collateral_value, debt_value),
            r is Err ==> r == Err::<(), LendingError>(LendingError::Undercollateralized),
    {
        if debt_value == 0 {
            return Ok(());
        }
        let h = self.compute_health_factor(collateral_value, debt_value);
        if h < self.params.health_factor_threshold as u128 {
            Err(LendingError::Undercollateralized)
        } else {
            Ok(())
        }
    }

    /// Sets the health-factor threshold, the one parameter that may change.
    pub fn set_health_factor_threshold(&mut self, value: u64)
        requires
            old(self).wf(),
        ensures
            final(self).wf(),
            *final(self) == (LiquidityPool {
                params: PoolParams { health_factor_threshold: value, ..old(self).params },
                ..*old(self)
            }),
    {
        self.params.health_factor_threshold = value;
    }

    /// The name, ticker and issue state of the receipt token for `prefix`
    /// (`LEND_TOKEN_PREFIX` or `BORROW_TOKEN_PREFIX`) and `ticker`.
    pub fn prepare_issue_data(&self, prefix: u8, ticker: &[u8]) -> (r: IssueData)
        ensures
            (r.name@, r.ticker@, r.is_empty_ticker) == issue_data_of(
                prefix,
                ticker@,
                self.lend_token is None,
                self.borrow_token is None,
            ),
    {
        let prefixed = concat_bytes(&[prefix], ticker);
        let mut issue_data = IssueData {
            name: Vec::new(),
            ticker: TokenIdentifier { bytes: prefixed },
            is_empty_ticker: true,
        };
        if prefix == LEND_TOKEN_PREFIX {
            issue_data.name = concat_bytes(lend_token_name().as_slice(), ticker);
            issue_data.is_empty_ticker = self.lend_token.is_none();
        } else if prefix == BORROW_TOKEN_PREFIX {
            issue_data.name = concat_bytes(debt_token_name().as_slice(), ticker);
            issue_data.is_empty_ticker = self.borrow_token.is_none();
        }
        issue_data
    }

    /// Records the issued receipt token for `prefix`; each is issued once.
    pub fn set_issued_token(&mut self, prefix: u8, token: TokenIdentifier) -> (r: Result<
        (),
        LendingError,
    >)
        requires
            old(self).wf(),
        ensures
            final(self).wf(),
            r is Ok <==> (prefix == LEND_TOKEN_PREFIX && old(self).lend_token is None) || (prefix
                == BORROW_TOKEN_PREFIX && old(self).borrow_token is None),
            r is Err ==> r == Err::<(), LendingError>(LendingError::TokenAlreadyIssued)
                && *final(self) == *old(self),
            r is Ok && prefix == LEND_TOKEN_PREFIX ==> *final(self) == (LiquidityPool {
                lend_token: Some(token),
                ..*old(self)
            }),
            r is Ok && prefix == BORROW_TOKEN_PREFIX ==> *final(self) == (LiquidityPool {
                borrow_token: Some(token),
                ..*old(self)
            }),
    {
        if prefix == LEND_TOKEN_PREFIX && self.lend_token.is_none() {
            self.lend_token = Some(token);
            Ok(())
        } else if prefix == BORROW_TOKEN_PREFIX && self.borrow_token.is_none() {
            self.borrow_token = Some(token);
            Ok(())
        } else {
            Err(LendingError::TokenAlreadyIssued)
        }
    }

    /// Same asset, address and parameters as `other`.
    pub open spec fn same_setup(&self, other: LiquidityPool) -> bool {
        &&& self.asset == other.asset
        &&& self.address == other.address
        &&& self.params == other.params
    }
}

/// Pool `b` is pool `a` after lending `amount` against the stated collateral
/// as position `id`, whose debt receipt is `meta`.
pub open spec fn borrow_effect(
    a: LiquidityPool,
    b: LiquidityPool,
    id: u64,
    meta: DebtMetadata,
    amount: u64,
    collateral_identifier: Seq<u8>,
    collateral_amount: u64,
    collateral_timestamp: u64,
    now: u64,
) -> bool {
    let q = b.ledger.positions@.last();
    &&& meta.timestamp == now
    &&& meta.collateral_amount == collateral_amount
    &&& meta.collateral_identifier@ == collateral_identifier
    &&& meta.collateral_timestamp == collateral_timestamp
    &&& b.reserve_amount == a.reserve_amount - amount
    &&& b.ledger.total_borrow == a.ledger.total_borrow + amount
    &&& b.ledger.next_id == a.ledger.next_id + 1
    &&& b.ledger.positions@.len() == a.ledger.positions@.len() + 1
    &&& b.ledger.positions@.drop_last() == a.ledger.positions@
    &&& q.id == id && q.size == amount && q.opened_at == now
    &&& q.collateral_identifier@ == collateral_identifier
    &&& q.collateral_amount == collateral_amount
    &&& q.collateral_timestamp == collateral_timestamp
    &&& b.same_setup(a)
    &&& b.collateral_amount == a.collateral_amount
}

/// Whether `repay(id, amount, now)` settles a position of pool `p`: the amount
/// covers the accrued size and the reserve can take it.
pub open spec fn repay_succeeds(p: &LiquidityPool, id: u64, amount: u64, now: u64) -> bool {
    &&& amount > 0
    &&& p.accrue_result(id, now) is Ok
    &&& amount >= p.accrue_result(id, now)->Ok_0
    &&& p.reserve_amount + p.ledger.total_borrow + amount
        - p.ledger.positions@[p.ledger.index_of(id)].size <= u64::MAX
}

/// Why `repay(id, amount, now)` on pool `p` is refused, where it is.
pub open spec fn repay_error(p: &LiquidityPool, id: u64, amount: u64, now: u64) -> LendingError {
    if amount == 0 {
        LendingError::InvalidAmount
    } else if p.accrue_result(id, now) is Err {
        p.accrue_result(id, now)->Err_0
    } else if amount < p.accrue_result(id, now)->Ok_0 {
        LendingError::Overpayment
    } else {
        LendingError::Overflow
    }
}

/// Pool `b` is pool `a` after position `id` was settled with `amount`, and
/// `rp` describes the settled position.
pub open spec fn repay_effect(
    a: LiquidityPool,
    b: LiquidityPool,
    rp: RepayPostion,
    id: u64,
    amount: u64,
) -> bool {
    let i = a.ledger.index_of(id);
    let p = a.ledger.positions@[i];
    &&& rp.identifier@ == a.asset@
    &&& rp.amount == amount
    &&& rp.nonce == id
    &&& rp.collateral_identifier@ == p.collateral_identifier@
    &&& rp.collateral_amount == p.collateral_amount
    &&& rp.collateral_timestamp == p.collateral_timestamp
    &&& b.ledger.positions@ == a.ledger.positions@.remove(i)
    &&& b.ledger.total_borrow == a.ledger.total_borrow - p.size
    &&& b.ledger.next_id == a.ledger.next_id
    &&& b.reserve_amount == a.reserve_amount + amount
    &&& b.same_setup(a)
    &&& b.collateral_amount == a.collateral_amount
    &&& b.wf()
}

/// Repaying exactly the accrued size of an open position settles it: the
/// repay succeeds where the reserve can take the amount within `u64`, the
/// position is gone afterwards, and the settlement carries the collateral
/// recorded when the position was opened.
pub proof fn lemma_repay_exact_settles(p: LiquidityPool, id: u64, now: u64)
    requires
        p.wf(),
        p.accrue_result(id, now) is Ok,
        p.accrue_result(id, now)->Ok_0 <= u64::MAX,
        p.reserve_amount + p.ledger.total_borrow + p.accrue_result(id, now)->Ok_0
            - p.ledger.positions@[p.ledger.index_of(id)].size <= u64::MAX,
    ensures
        ({
            let due = p.accrue_result(id, now)->Ok_0 as u64;
            let pos = p.ledger.positions@[p.ledger.index_of(id)];
            &&& repay_succeeds(&p, id, due, now)
            &&& forall|q: LiquidityPool, rp: RepayPostion|
                #[trigger] repay_effect(p, q, rp, id, due) ==> {
                    &&& !has_id(q.ledger.positions@, id)
                    &&& rp.collateral_identifier@ == pos.collateral_identifier@
                    &&& rp.collateral_amount == pos.collateral_amount
                    &&& rp.collateral_timestamp == pos.collateral_timestamp
                }
        }),
{
    let due = p.accrue_result(id, now)->Ok_0 as u64;
    let i = p.ledger.index_of(id);
    let s = p.ledger.positions@;
    assert(s[i].size > 0);
    crate::rate::lemma_utilisation_bounded(p.ledger.total_borrow as int, p.reserve_amount as int);
    crate::rate::lemma_borrow_rate_bounded(p.params, pool_utilisation(&p));
    crate::ledger::lemma_interest_fits(
        s[i].size,
        (now - s[i].opened_at) as u64,
        pool_borrow_rate(&p) as u64,
    );
    assert(0 <= interest_of(s[i].size as int, now - s[i].opened_at, pool_borrow_rate(&p))) by {
        vstd::arithmetic::mul::lemma_mul_nonnegative(s[i].size as int, pool_borrow_rate(&p));
        vstd::arithmetic::mul::lemma_mul_nonnegative(
            s[i].size * pool_borrow_rate(&p),
            (now - s[i].opened_at) as int,
        );
        vstd::arithmetic::div_mod::lemma_div_pos_is_pos(
            s[i].size * pool_borrow_rate(&p) * (now - s[i].opened_at),
            crate::rate::BP * crate::rate::SECONDS_PER_YEAR,
        );
    }
    assert forall|q: LiquidityPool, rp: RepayPostion|
        #[trigger] repay_effect(p, q, rp, id, due) implies !has_id(q.ledger.positions@, id) by {
        if has_id(q.ledger.positions@, id) {
            let j = choose|j: int| 0 <= j < q.ledger.positions@.len() && q.ledger.positions@[j].id == id;
            let j0 = if j < i { j } else { j + 1 };
            assert(s[j0].id == id);
            if j0 < i {
                assert(s[j0].id < s[i].id);
            } else {
                assert(s[i].id < s[j0].id);
            }
        }
    }
}

/// A deposit redeemed at the instant it was made pays back exactly the
/// deposited amount, and the reserve that the deposit left covers it.
pub proof fn lemma_deposit_withdraw_round_trip(p: LiquidityPool, amount: u64, now: u64)
    requires
        p.wf(),
        amount > 0,
        p.reserve_amount + p.ledger.total_borrow + amount <= u64::MAX,
    ensures
        ({
            let q = LiquidityPool { reserve_amount: (p.reserve_amount + amount) as u64, ..p };
            &&& q.wf()
            &&& withdraw_payout(&q, amount, now, now) == amount
            &&& amount <= q.reserve_amount
        }),
{
    let q = LiquidityPool { reserve_amount: (p.reserve_amount + amount) as u64, ..p };
    assert(amount * pool_deposit_rate(&q) * 0int == 0);
}

/// A position with debt whose health factor lies below the threshold.
pub open spec fn undercollateralized(p: PoolParams, collateral_value: u64, debt_value: u64) -> bool {
    debt_value > 0 && health_factor_of(p, collateral_value, debt_value) < p.health_factor_threshold
}

/// `collateral_value * liquidation_threshold / debt_value`.
pub open spec fn health_factor_of(p: PoolParams, collateral_value: u64, debt_value: u64) -> int {
    collateral_value * p.liquidation_threshold / (debt_value as int)
}

} // verus!
