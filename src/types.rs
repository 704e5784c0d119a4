//! Identifiers, addresses and error kinds shared by every component.

use vstd::prelude::*;

verus! {

/// Why an operation was rejected.
#[derive(Clone, Copy, Debug, PartialEq, Eq, Structural)]
pub enum LendingError {
    /// An amount that must be positive was zero.
    InvalidAmount,
    /// The caller or destination address is the zero address.
    InvalidAddress,
    /// The asset has no pool, or (for a route) already has one.
    AssetNotSupported,
    /// The asset is mapped to the zero address.
    InvalidPoolAddress,
    /// The pool holds less than the operation takes out.
    InsufficientReserve,
    /// No open position has the given id.
    PositionNotFound,
    /// A timestamp lies after the current time.
    InvalidTimestamp,
    /// The health factor would fall below the pool's threshold.
    Undercollateralized,
    /// The repaid amount does not settle the whole accrued debt.
    Overpayment,
    /// The receipt token of that kind was issued already, or the kind is unknown.
    TokenAlreadyIssued,
    /// A counter or an amount would leave the range of its machine integer.
    Overflow,
}

/// The identifier of a token: its bytes.
#[derive(Clone, Debug, PartialEq, Eq)]
pub struct TokenIdentifier {
    pub bytes: Vec<u8>,
}

impl View for TokenIdentifier {
    type V = Seq<u8>;

    open spec fn view(&self) -> Seq<u8> {
        self.bytes@
    }
}

impl TokenIdentifier {
    pub fn from_bytes(bytes: &[u8]) -> (r: TokenIdentifier)
        ensures
            r@ == bytes@,
    {
        let mut v: Vec<u8> = Vec::new();
        let mut i: usize = 0;
        while i < bytes.len()
            invariant
                i <= bytes@.len(),
                v@ == bytes@.take(i as int),
            decreases bytes@.len() - i,
        {
            v.push(bytes[i]);
            i = i + 1;
            assert(v@ =~= bytes@.take(i as int));
        }
        assert(v@ =~= bytes@);
        TokenIdentifier { bytes: v }
    }

    /// A copy with the same bytes.
    pub fn duplicate(&self) -> (r: TokenIdentifier)
        ensures
            r@ == self@,
    {
        TokenIdentifier::from_bytes(self.bytes.as_slice())
    }

    /// Whether both identifiers have the same bytes.
    pub fn same_as(&self, other: &TokenIdentifier) -> (r: bool)
        ensures
            r == (self@ == other@),
    {
        if self.bytes.len() != other.bytes.len() {
            return false;
        }
        let mut i: usize = 0;
        while i < self.bytes.len()
            invariant
                i <= self@.len(),
                self@.len() == other@.len(),
                forall|j: int| 0 <= j < i ==> self@[j] == other@[j],
            decreases self@.len() - i,
        {
            if self.bytes[i] != other.bytes[i] {
                return false;
            }
            i = i + 1;
        }
        assert(self@ =~= other@);
        true
    }
}

/// The 32-byte address of an account or a contract.
#[derive(Clone, Copy, Debug, PartialEq, Eq)]
pub struct Address {
    pub bytes: [u8; 32],
}

/// The address whose bytes are all zero, used as the unset sentinel.
pub open spec fn is_zero_address(a: Address) -> bool {
    forall|j: int| 0 <= j < 32 ==> a.bytes@[j] == 0u8
}

impl Address {
    pub fn zero() -> (r: Address)
        ensures
            is_zero_address(r),
    {
        Address { bytes: [0u8; 32] }
    }

    pub fn is_zero(&self) -> (r: bool)
        ensures
            r == is_zero_address(*self),
    {
        let mut i: usize = 0;
        while i < 32
            invariant
                i <= 32,
                self.bytes@.len() == 32,
                forall|j: int| 0 <= j < i ==> self.bytes@[j] == 0u8,
            decreases 32 - i,
        {
            if self.bytes[i] != 0 {
                return false;
            }
            i = i + 1;
        }
        true
    }

    /// Whether both addresses have the same bytes.
    pub fn same_as(&self, other: &Address) -> (r: bool)
        ensures
            r == (self.bytes@ == other.bytes@),
    {
        let mut i: usize = 0;
        while i < 32
            invariant
                i <= 32,
                self.bytes@.len() == 32,
                other.bytes@.len() == 32,
                forall|j: int| 0 <= j < i ==> self.bytes@[j] == other.bytes@[j],
            decreases 32 - i,
        {
            if self.bytes[i] != other.bytes[i] {
                return false;
            }
            i = i + 1;
        }
        assert(self.bytes@ =~= other.bytes@);
        true
    }
}

} // verus!
