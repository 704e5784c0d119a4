//! The ledger of open debt positions of one pool and its total-borrowed counter.

use vstd::prelude::*;
use crate::types::{LendingError, TokenIdentifier};
use crate::rate::{compute_debt, interest_of, BP, MAX_RATE, SECONDS_PER_YEAR};
use vstd::arithmetic::mul::{lemma_mul_inequality, lemma_mul_nonnegative};
use vstd::arithmetic::div_mod::{lemma_div_is_ordered, lemma_multiply_divide_lt};

verus! {

/// One open borrow.
#[derive(Clone, Debug, PartialEq, Eq)]
pub struct DebtPosition {
    pub id: u64,
    /// Principal plus the interest committed so far.
    pub size: u64,
    pub opened_at: u64,
    pub collateral_identifier: TokenIdentifier,
    pub collateral_amount: u64,
    pub collateral_timestamp: u64,
}

/// Sum of the committed sizes of `s`.
pub open spec fn sum_sizes(s: Seq<DebtPosition>) -> int
    decreases s.len(),
{
    if s.len() == 0 {
        0
    } else {
        sum_sizes(s.drop_last()) + s.last().size
    }
}

/// Whether some position of `s` has the id `id`.
pub open spec fn has_id(s: Seq<DebtPosition>, id: u64) -> bool {
    exists|i: int| 0 <= i < s.len() && s[i].id == id
}

/// Size of `p` with the interest accrued up to `now` at `rate` folded in.
pub open spec fn accrued_size(p: DebtPosition, now: u64, rate: u64) -> int {
    p.size + interest_of(p.size as int, now - p.opened_at, rate as int)
}

/// Open positions in order of opening, with the sum of their sizes.
pub struct PositionLedger {
    pub positions: Vec<DebtPosition>,
    pub total_borrow: u64,
    /// The id that the next opened position receives.
    pub next_id: u64,
}

impl PositionLedger {
    /// `total_borrow` is the sum of the open sizes; ids rise strictly in order
    /// of opening and lie below `next_id`.
    pub open spec fn wf(&self) -> bool {
        &&& self.total_borrow == sum_sizes(self.positions@)
        &&& forall|i: int, j: int|
            0 <= i < j < self.positions@.len() ==> self.positions@[i].id < self.positions@[j].id
        &&& forall|i: int| 0 <= i < self.positions@.len() ==> self.positions@[i].id < self.next_id
    }

    /// What `accrue(id, now, rate)` returns on this ledger.
    pub open spec fn accrue_result(&self, id: u64, now: u64, rate: u64) -> Result<u128, LendingError> {
        if !has_id(self.positions@, id) {
            Err(LendingError::PositionNotFound)
        } else {
            let p = self.positions@[self.index_of(id)];
            if now < p.opened_at {
                Err(LendingError::InvalidTimestamp)
            } else {
                Ok(accrued_size(p, now, rate) as u128)
            }
        }
    }

    /// The index of the position with id `id`, where there is one.
    pub open spec fn index_of(&self, id: u64) -> int {
        choose|i: int| 0 <= i < self.positions@.len() && self.positions@[i].id == id
    }

    pub fn new() -> (r: PositionLedger)
        ensures
            r.wf(),
            r.positions@ == Seq::<DebtPosition>::empty(),
            r.total_borrow == 0,
            r.next_id == 0,
    {
        PositionLedger { positions: Vec::new(), total_borrow: 0, next_id: 0 }
    }

    /// The index of the open position with id `id`.
    pub fn find(&self, id: u64) -> (r: Option<usize>)
        requires
            self.wf(),
        ensures
            r is None <==> !has_id(self.positions@, id),
            r matches Some(i) ==> i == self.index_of(id) && i < self.positions@.len(),
    {
        let mut i: usize = 0;
        while i < self.positions.len()
            invariant
                self.wf(),
                i <= self.positions@.len(),
                forall|j: int| 0 <= j < i ==> self.positions@[j].id != id,
            decreases self.positions@.len() - i,
        {
            if self.positions[i].id == id {
                proof {
                    self.lemma_index_of(i as int);
                }
                return Some(i);
            }
            i = i + 1;
        }
        None
    }

    /// In a well-formed ledger an id names one position only.
    pub proof fn lemma_index_of(&self, i: int)
        requires
            self.wf(),
            0 <= i < self.positions@.len(),
        ensures
            has_id(self.positions@, self.positions@[i].id),
            self.index_of(self.positions@[i].id) == i,
    {
        let id = self.positions@[i].id;
        assert(has_id(self.positions@, id));
        let k = self.index_of(id);
        assert(self.positions@[k].id == id);
        if k < i {
            assert(self.positions@[k].id < self.positions@[i].id);
        } else if i < k {
            assert(self.positions@[i].id < self.positions@[k].id);
        }
    }

    /// Records a new position of size `principal` and adds it to `total_borrow`.
    pub fn open_position(
        &mut self,
        principal: u64,
        collateral_identifier: TokenIdentifier,
        collateral_amount: u64,
        collateral_timestamp: u64,
        now: u64,
    ) -> (r: Result<u64, LendingError>)
        requires
            old(self).wf(),
        ensures
            final(self).wf(),
            r is Err <==> old(self).next_id == u64::MAX
                || old(self).total_borrow + principal > u64::MAX,
            r is Err ==> r == Err::<u64, LendingError>(LendingError::Overflow)
                && *final(self) == *old(self),
            r matches Ok(id) ==> {
                &&& id == old(self).next_id
                &&& final(self).next_id == old(self).next_id + 1
                &&& final(self).total_borrow == old(self).total_borrow + principal
                &&& final(self).positions@ == old(self).positions@.push(
                    DebtPosition {
                        id,
                        size: principal,
                        opened_at: now,
                        collateral_identifier,
                        collateral_amount,
                        collateral_timestamp,
                    },
                )
            },
    {
        if self.next_id == u64::MAX || principal > u64::MAX - self.total_borrow {
            return Err(LendingError::Overflow);
        }
        let id = self.next_id;
        let p = DebtPosition {
            id,
            size: principal,
            opened_at: now,
            collateral_identifier,
            collateral_amount,
            collateral_timestamp,
        };
        let ghost before = self.positions@;
        self.positions.push(p);
        proof {
            assert(self.positions@.drop_last() =~= before);
        }
        self.total_borrow = self.total_borrow + principal;
        self.next_id = self.next_id + 1;
        Ok(id)
    }

    /// The size of position `id` with interest up to `now` at the yearly
    /// `rate` folded in, without committing it.
    pub fn accrue(&self, id: u64, now: u64, rate: u64) -> (r: Result<u128, LendingError>)
        requires
            self.wf(),
            rate <= MAX_RATE,
        ensures
            r == self.accrue_result(id, now, rate),
    {
        match self.find(id) {
            None => Err(LendingError::PositionNotFound),
            Some(i) => self.accrue_at(i, now, rate),
        }
    }

    /// `accrue` for the position at index `i`.
    pub fn accrue_at(&self, i: usize, now: u64, rate: u64) -> (r: Result<u128, LendingError>)
        requires
            self.wf(),
            i < self.positions@.len(),
            rate <= MAX_RATE,
        ensures
            r == self.accrue_result(self.positions@[i as int].id, now, rate),
    {
        proof {
            self.lemma_index_of(i as int);
        }
        let p = &self.positions[i];
        if now < p.opened_at {
            Err(LendingError::InvalidTimestamp)
        } else {
            let interest = compute_debt(p.size, now - p.opened_at, rate);
            proof {
                lemma_interest_fits(p.size, (now - p.opened_at) as u64, rate);
            }
            Ok(p.size as u128 + interest)
        }
    }

    /// An open position's size is part of the total.
    pub proof fn lemma_size_within_total(&self, i: int)
        requires
            self.wf(),
            0 <= i < self.positions@.len(),
        ensures
            self.positions@[i].size <= self.total_borrow,
    {
        lemma_sum_remove(self.positions@, i);
        lemma_sum_nonneg(self.positions@.remove(i));
    }

    /// Removes position `id`, takes its committed size off `total_borrow`, and
    /// returns it for the release of its collateral.
    pub fn close_position(&mut self, id: u64) -> (r: Result<DebtPosition, LendingError>)
        requires
            old(self).wf(),
        ensures
            final(self).wf(),
            r is Err <==> !has_id(old(self).positions@, id),
            r is Err ==> r == Err::<DebtPosition, LendingError>(LendingError::PositionNotFound)
                && *final(self) == *old(self),
            r matches Ok(p) ==> {
                let i = old(self).index_of(id);
                &&& p == old(self).positions@[i]
                &&& final(self).positions@ == old(self).positions@.remove(i)
                &&& final(self).total_borrow == old(self).total_borrow - p.size
                &&& final(self).next_id == old(self).next_id
            },
    {
        match self.find(id) {
            None => Err(LendingError::PositionNotFound),
            Some(i) => Ok(self.remove_at(i)),
        }
    }

    /// Removes the position at index `i` and takes its committed size off
    /// `total_borrow`.
    pub fn remove_at(&mut self, i: usize) -> (p: DebtPosition)
        requires
            old(self).wf(),
            i < old(self).positions@.len(),
        ensures
            final(self).wf(),
            p == old(self).positions@[i as int],
            final(self).positions@ == old(self).positions@.remove(i as int),
            final(self).total_borrow == old(self).total_borrow - p.size,
            final(self).next_id == old(self).next_id,
    {
        let ghost before = self.positions@;
        proof {
            lemma_sum_remove(before, i as int);
            lemma_sum_nonneg(before.remove(i as int));
        }
        let p = self.positions.remove(i);
        self.total_borrow = self.total_borrow - p.size;
        proof {
            assert forall|a: int, b: int|
                0 <= a < b < self.positions@.len() implies
                self.positions@[a].id < self.positions@[b].id by {
                let a0 = if a < i { a } else { a + 1 };
                let b0 = if b < i { b } else { b + 1 };
                assert(before[a0].id < before[b0].id);
            }
        }
        p
    }
}

/// Every well-formed ledger, and so every ledger reached from `new` by
/// `open_position` and `close_position` (each keeps `wf`), has as its
/// `total_borrow` the sum of the committed sizes of its open positions.
pub proof fn lemma_total_borrow_is_sum(l: &PositionLedger)
    requires
        l.wf(),
    ensures
        l.total_borrow == sum_sizes(l.positions@),
        l.positions@.len() == 0 ==> l.total_borrow == 0,
{
}

/// Accrual at a later time never gives a smaller size. (At the same time it
/// gives the same size again: `accrue` reads the ledger only, and its result
/// is `accrue_result` of the ledger, the id, the time and the rate.)
pub proof fn lemma_accrue_monotonic(l: &PositionLedger, id: u64, now1: u64, now2: u64, rate: u64)
    requires
        l.wf(),
        now1 <= now2,
        rate <= MAX_RATE,
        l.accrue_result(id, now1, rate) is Ok,
    ensures
        l.accrue_result(id, now2, rate) is Ok,
        l.accrue_result(id, now1, rate)->Ok_0 <= l.accrue_result(id, now2, rate)->Ok_0,
{
    let p = l.positions@[l.index_of(id)];
    let a = p.size as int;
    let r = rate as int;
    lemma_interest_fits(p.size, (now1 - p.opened_at) as u64, rate);
    lemma_interest_fits(p.size, (now2 - p.opened_at) as u64, rate);
    lemma_mul_nonnegative(a, r);
    lemma_mul_inequality((now1 - p.opened_at) as int, (now2 - p.opened_at) as int, a * r);
    vstd::arithmetic::mul::lemma_mul_is_commutative(a * r, (now1 - p.opened_at) as int);
    vstd::arithmetic::mul::lemma_mul_is_commutative(a * r, (now2 - p.opened_at) as int);
    lemma_div_is_ordered(
        a * r * (now1 - p.opened_at),
        a * r * (now2 - p.opened_at),
        BP * SECONDS_PER_YEAR,
    );
}

/// Interest on a `u64` amount at a rate within `MAX_RATE` over a `u64` span
/// leaves room for the amount itself within `u128`.
pub proof fn lemma_interest_fits(size: u64, elapsed: u64, rate: u64)
    requires
        rate <= MAX_RATE,
    ensures
        interest_of(size as int, elapsed as int, rate as int) <= u128::MAX - u64::MAX,
{
    let d = BP * SECONDS_PER_YEAR;
    let top = u64::MAX * MAX_RATE * u64::MAX;
    lemma_mul_inequality(size as int, u64::MAX as int, rate as int);
    lemma_mul_inequality(rate as int, MAX_RATE as int, u64::MAX as int);
    lemma_mul_nonnegative(size as int, rate as int);
    lemma_mul_inequality((size * rate) as int, u64::MAX * MAX_RATE, elapsed as int);
    lemma_mul_inequality(elapsed as int, u64::MAX as int, u64::MAX * MAX_RATE);
    lemma_div_is_ordered(size * rate * elapsed, top, d);
    assert(top < d * (u128::MAX - u64::MAX));
    lemma_multiply_divide_lt(top, d, u128::MAX - u64::MAX);
}

proof fn lemma_sum_nonneg(s: Seq<DebtPosition>)
    ensures
        sum_sizes(s) >= 0,
    decreases s.len(),
{
    if s.len() > 0 {
        lemma_sum_nonneg(s.drop_last());
    }
}

/// Removing the entry at `i` takes its size off the sum.
pub proof fn lemma_sum_remove(s: Seq<DebtPosition>, i: int)
    requires
        0 <= i < s.len(),
    ensures
        sum_sizes(s.remove(i)) == sum_sizes(s) - s[i].size,
    decreases s.len(),
{
    if i == s.len() - 1 {
        assert(s.remove(i) =~= s.drop_last());
    } else {
        lemma_sum_remove(s.drop_last(), i);
        assert(s.remove(i).drop_last() =~= s.drop_last().remove(i));
    }
}

} // verus!
