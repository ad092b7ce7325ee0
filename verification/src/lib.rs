//! A constant-product liquidity pool for one pair of assets, with every
//! operation specified and machine-checked.
//!
//! The library is a pure state machine. A pool never touches the assets it
//! trades: each operation is told the balances it needs to know and answers
//! with the amounts that have to be moved, the pool names the transfers that
//! move them, and the caller carries those out. What the library guarantees
//! is the bookkeeping:
//!
//! * [`math`] — checked arithmetic, and `a * b / c` without overflow of the
//!   product, rounded down or up;
//! * [`amm`] — the swap and share formulas built on it;
//! * [`token`] — the ledger of pool shares, whose supply is always the sum
//!   of its balances;
//! * [`pair`] — the pool: deposits, withdrawals, swaps, and the gates that
//!   guard them;
//! * [`curve`] — reward curves for staked shares;
//! * [`laws`] — properties that hold across operations, each with its proof.

pub mod amm;
pub mod curve;
pub mod error;
pub mod laws;
pub mod math;
pub mod pair;
pub mod token;
pub mod types;

pub use error::AstroSwapError;
pub use pair::AstroSwapPair;
pub use token::ShareLedger;
pub use types::Address;
pub use types::PairInfo;
