//! Accounting and pricing engine of a two-asset constant-product market maker.
//!
//! The engine decides, for every liquidity-provision and trade request, exactly
//! how many units of each asset move, how many pool-share units are minted or
//! burned, and how swap fees are split between liquidity providers and a
//! protocol treasury. Custody of balances, signature checks and persistence are
//! the host's business: every operation here is a pure state transition from
//! plain values (live reserves, share supply, requested amounts) to the exact
//! amounts to move, reported as an audit event.

pub mod errors;
pub mod fees;
pub mod liquidity;
pub mod math;
pub mod pool;
pub mod swap;
