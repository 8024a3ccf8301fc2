//! A privacy-preserving, over-collateralised lending protocol.
//!
//! Three state machines over plain values make up the protocol core:
//!
//! * [`vault::Vault`] locks collateral as an opaque commitment and hands out
//!   deposit identifiers;
//! * [`lending_pool::ShieldLendingPool`] issues a loan against a deposit once a
//!   proof binds the requested amount to the stored commitment, and closes it
//!   on repayment;
//! * [`liquidator::ShieldLiquidator`] decides when a position is unhealthy
//!   and plans its liquidation.
//!
//! The ledger, the token contract, the proof verifier, the price oracle and
//! the exchange are collaborators of the host: what they report reaches these
//! machines as arguments, and what the machines want done leaves them as
//! return values.

pub mod bytes;
pub mod lending_pool;
pub mod liquidator;
pub mod vault;
