//! Receipt-token metadata, the repay descriptor handed back to the router, and
//! the price-feed record.

use vstd::prelude::*;
use crate::types::TokenIdentifier;

verus! {

/// Metadata of an interest-bearing deposit receipt.
#[derive(Clone, Copy, Debug, PartialEq, Eq, Structural)]
pub struct InterestMetadata {
    pub timestamp: u64,
}

/// Metadata of a debt receipt: when the debt was opened and what backs it.
#[derive(Clone, Debug, PartialEq, Eq)]
pub struct DebtMetadata {
    pub timestamp: u64,
    pub collateral_amount: u64,
    pub collateral_identifier: TokenIdentifier,
    pub collateral_timestamp: u64,
}

/// What a settled debt leaves for the release of its collateral.
#[derive(Clone, Debug, PartialEq, Eq)]
pub struct RepayPostion {
    pub identifier: TokenIdentifier,
    pub amount: u64,
    pub nonce: u64,
    pub collateral_identifier: TokenIdentifier,
    pub collateral_amount: u64,
    pub collateral_timestamp: u64,
}

/// Ticker prefix of the deposit-receipt token (`L`).
pub const LEND_TOKEN_PREFIX: u8 = 76;

/// Ticker prefix of the debt-receipt token (`B`).
pub const BORROW_TOKEN_PREFIX: u8 = 66;

/// The name and ticker under which a receipt token is issued, and whether
/// the pool still lacks that token.
#[derive(Clone, Debug, PartialEq, Eq)]
pub struct IssueData {
    pub name: Vec<u8>,
    pub ticker: TokenIdentifier,
    pub is_empty_ticker: bool,
}

/// `IntBearing`, the stem of a deposit-receipt token's name.
pub open spec fn lend_token_name_bytes() -> Seq<u8> {
    seq![73u8, 110, 116, 66, 101, 97, 114, 105, 110, 103]
}

/// `DebtBearing`, the stem of a debt-receipt token's name.
pub open spec fn debt_token_name_bytes() -> Seq<u8> {
    seq![68u8, 101, 98, 116, 66, 101, 97, 114, 105, 110, 103]
}

pub fn lend_token_name() -> (r: Vec<u8>)
    ensures
        r@ == lend_token_name_bytes(),
{
    let r = vec![73u8, 110, 116, 66, 101, 97, 114, 105, 110, 103];
    assert(r@ =~= lend_token_name_bytes());
    r
}

pub fn debt_token_name() -> (r: Vec<u8>)
    ensures
        r@ == debt_token_name_bytes(),
{
    let r = vec![68u8, 101, 98, 116, 66, 101, 97, 114, 105, 110, 103];
    assert(r@ =~= debt_token_name_bytes());
    r
}

/// Name, ticker and issue state of the receipt token for `prefix` and
/// `ticker`: the ticker is the prefix followed by `ticker`; a known prefix
/// names the token by its stem followed by `ticker` and reports whether it is
/// still unissued; an unknown prefix gets an empty name and counts as unissued.
pub open spec fn issue_data_of(prefix: u8, ticker: Seq<u8>, lend_empty: bool, borrow_empty: bool) -> (
    Seq<u8>,
    Seq<u8>,
    bool,
) {
    let t = seq![prefix] + ticker;
    if prefix == LEND_TOKEN_PREFIX {
        (lend_token_name_bytes() + ticker, t, lend_empty)
    } else if prefix == BORROW_TOKEN_PREFIX {
        (debt_token_name_bytes() + ticker, t, borrow_empty)
    } else {
        (Seq::empty(), t, true)
    }
}

/// The bytes of `a` followed by those of `b`.
pub fn concat_bytes(a: &[u8], b: &[u8]) -> (r: Vec<u8>)
    ensures
        r@ == a@ + b@,
{
    let mut v: Vec<u8> = Vec::new();
    let mut i: usize = 0;
    while i < a.len()
        invariant
            i <= a@.len(),
            v@ == a@.take(i as int),
        decreases a@.len() - i,
    {
        v.push(a[i]);
        i = i + 1;
        assert(v@ =~= a@.take(i as int));
    }
    let mut j: usize = 0;
    while j < b.len()
        invariant
            i == a@.len(),
            j <= b@.len(),
            v@ == a@ + b@.take(j as int),
        decreases b@.len() - j,
    {
        v.push(b[j]);
        j = j + 1;
        assert(v@ =~= a@ + b@.take(j as int));
    }
    assert(v@ =~= a@ + b@);
    v
}

/// A price-feed answer as the aggregator returns it: round, the two token
/// names, the price and its decimals.
pub type AggregatorResultAsMultiResult = (u32, Vec<u8>, Vec<u8>, u64, u8);

/// A price-feed answer.
#[derive(Clone, Debug, PartialEq, Eq)]
pub struct AggregatorResult {
    pub round_id: u32,
    pub from_token_name: Vec<u8>,
    pub to_token_name: Vec<u8>,
    pub price: u64,
    pub decimals: u8,
}

impl From<AggregatorResultAsMultiResult> for AggregatorResult {
    fn from(multi_result: AggregatorResultAsMultiResult) -> (r: AggregatorResult) {
        let (round_id, from_token_name, to_token_name, price, decimals) = multi_result;
        AggregatorResult { round_id, from_token_name, to_token_name, price, decimals }
    }
}

impl vstd::std_specs::convert::FromSpecImpl<AggregatorResultAsMultiResult> for AggregatorResult {
    open spec fn obeys_from_spec() -> bool {
        true
    }

    open spec fn from_spec(v: AggregatorResultAsMultiResult) -> AggregatorResult {
        AggregatorResult {
            round_id: v.0,
            from_token_name: v.1,
            to_token_name: v.2,
            price: v.3,
            decimals: v.4,
        }
    }
}

/// A source of prices, answering with the latest feed between two tokens
/// where it has one.
pub trait PriceAggregator {
    fn latest_price_feed_optional(&self, from: &Vec<u8>, to: &Vec<u8>) -> Option<
        AggregatorResultAsMultiResult,
    >;
}

} // verus!
