//! Why an operation on the pool was refused.

use vstd::prelude::*;

verus! {

/// The reasons for which the pool refuses an operation. A refused operation
/// leaves the ledgers as they were.
#[derive(Clone, Copy, Debug, PartialEq, Eq, Structural)]
pub enum AmmError {
    /// The asset is not one of the pool's two.
    UnsupportedAsset,
    /// One asset was named where two different ones are needed.
    EqualAssets,
    /// The asset's metadata has not arrived yet.
    MetadataMissing,
    /// The caller may not do this.
    Unauthorized,
    /// A deposit that is not in proportion to the reserves.
    ProportionMismatch,
    /// The account holds less than is to be taken from it.
    InsufficientBalance,
    /// A number that does not fit: an amount in 128 bits, a request number in 64.
    ArithmeticOverflow,
    /// A division by zero.
    DivisionByZero,
    /// The other ledger refused the call, or it failed on the way.
    ExternalCallFailed,
    /// The account is not registered with the ledger.
    AccountNotRegistered,
    /// A transfer from an account to itself.
    SameAccount,
    /// A transfer of nothing.
    ZeroAmount,
    /// A callback that answers no request in flight.
    UnexpectedCallback,
    /// The account still holds something.
    PositiveBalance,
}

} // verus!
