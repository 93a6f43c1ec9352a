//! A two-asset constant-product liquidity pool: decimal normalisation,
//! swap pricing, proportional liquidity accounting, the pool's ledgers and
//! the request/callback protocol around them.
//!
//! Amounts are 128-bit; products of two amounts are taken whole, in 256
//! bits.

pub mod callbacks;
pub mod decimals;
pub mod errors;
pub mod laws;
pub mod ledger;
pub mod liquidity;
pub mod model;
pub mod pool;
pub mod pricing;
pub mod wide;

pub use crate::callbacks::{CallbackKind, InitState, PendingCallback, TransferOutcome};
pub use crate::decimals::{
    add_decimals, checked_add_decimals, max_decimals, remove_decimals, scale_down, scale_up,
};
pub use crate::errors::AmmError;
pub use crate::ledger::{init_token, Account, Ledger, LedgerParts};
pub use crate::liquidity::{check_proportion, liquidity_share, withdrawal_payout};
pub use crate::model::AssetMetadata;
pub use crate::pool::{Contract, ContractInfo, PoolParts};
pub use crate::pricing::{calc_dy, checked_calc_dy, quote_swap};
pub use crate::wide::{div_wide, mul_div, mul_wide, products_equal};
