use vstd::prelude::*;

verus! {

/// Every way a pool operation can refuse a request. Each error aborts the
/// whole call: the host moves no tokens and writes no state for that request.
#[derive(Clone, Copy, Debug, PartialEq, Eq, Structural)]
pub enum AmmError {
    /// A requested amount is zero where a positive amount is required.
    InvalidAmount,
    /// A computed output or minted amount fell below the caller's floor.
    SlippageExceeded,
    /// Reserved: deposits are made proportional by construction, so this
    /// rejection path is never taken.
    NonProportionalDeposit,
    /// An arithmetic step overflowed the 64-bit range or divided by zero.
    MathOverflow,
    /// A reserve or the share supply is zero where a positive one is required,
    /// or a fee withdrawal asks for more than the fee vault holds.
    InsufficientLiquidity,
    /// Pool creation was asked for two identical asset mints.
    SameMint,
    /// The caller's asserted source or destination asset does not match the
    /// requested swap direction.
    InvalidSwapMint,
    /// Reserved for the host's account-addressing layer.
    MissingBump,
    /// The stored fee configuration is inconsistent (protocol share exceeds
    /// the total fee rate).
    InvalidFee,
    /// The pool is paused and the operation is gated by the pause flag.
    PoolPaused,
}

} // verus!
