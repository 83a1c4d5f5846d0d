use vstd::prelude::*;

verus! {

use crate::errors::AmmError;

/// Identity of an account, mint or signer, as the host's addressing layer
/// hands it in. The engine only compares identities for equality and copies
/// them into audit events.
pub type AccountId = u64;

/// Total swap fee rate of a newly created pool, in basis points.
pub const FEE_BPS: u16 = 30;

/// Portion of the swap fee routed to the protocol treasury rather than
/// retained in reserves for liquidity providers, in basis points.
pub const PROTOCOL_FEE_BPS: u16 = 5;

/// Basis-point denominator: every rate is a fraction of 10,000.
pub const BPS_DENOMINATOR: u64 = 10_000;

/// The durable pool record: the identities of the two asset mints, the
/// custody accounts, the share mint, the fee vaults and the admin, plus the
/// fee configuration and the pause flag.
///
/// Reserves and share supply are deliberately not stored here: they are the
/// live balances of `vault_a` / `vault_b` and the live supply of `lp_mint`,
/// read fresh by the host at the start of every call and passed in as plain
/// values.
#[derive(Clone, Copy, Debug, PartialEq, Eq, Structural)]
pub struct Pool {
    pub mint_a: AccountId,
    pub mint_b: AccountId,
    pub vault_a: AccountId,
    pub vault_b: AccountId,
    pub lp_mint: AccountId,
    pub fee_vault_a: AccountId,
    pub fee_vault_b: AccountId,
    pub admin: AccountId,
    pub fee_bps: u16,
    pub protocol_fee_bps: u16,
    pub paused: bool,
}

impl Pool {
    /// Well-formedness of a stored pool record: distinct assets, the protocol
    /// share of the fee no larger than the whole fee, and the fee itself no
    /// larger than the basis-point denominator. `initialize` establishes this
    /// and no operation disturbs it.
    pub open spec fn wf(&self) -> bool {
        &&& self.mint_a != self.mint_b
        &&& self.protocol_fee_bps <= self.fee_bps
        &&& self.fee_bps <= BPS_DENOMINATOR
    }
}

/// Audit record of a pool creation: mirrors the freshly written pool record.
#[derive(Clone, Copy, Debug, PartialEq, Eq, Structural)]
pub struct InitializeEvent {
    pub pool: AccountId,
    pub mint_a: AccountId,
    pub mint_b: AccountId,
    pub lp_mint: AccountId,
    pub vault_a: AccountId,
    pub vault_b: AccountId,
    pub fee_vault_a: AccountId,
    pub fee_vault_b: AccountId,
    pub fee_bps: u16,
    pub protocol_fee_bps: u16,
    pub admin: AccountId,
    pub paused: bool,
}

/// Audit record of a pause-flag change.
#[derive(Clone, Copy, Debug, PartialEq, Eq, Structural)]
pub struct PauseEvent {
    pub admin: AccountId,
    pub pool: AccountId,
    pub paused: bool,
}

/// Audit record of an admin rotation.
#[derive(Clone, Copy, Debug, PartialEq, Eq, Structural)]
pub struct AdminUpdatedEvent {
    pub pool: AccountId,
    pub old_admin: AccountId,
    pub new_admin: AccountId,
}

/// Creates the pool record for a pair of distinct asset mints, wired to the
/// custody accounts the host has created for it, with the reference fee
/// configuration and the pause flag cleared. Fails with `SameMint` exactly
/// when the two asset mints are the same identity.
pub fn initialize(
    pool_key: AccountId,
    mint_a: AccountId,
    mint_b: AccountId,
    vault_a: AccountId,
    vault_b: AccountId,
    lp_mint: AccountId,
    fee_vault_a: AccountId,
    fee_vault_b: AccountId,
    admin: AccountId,
) -> (r: Result<(Pool, InitializeEvent), AmmError>)
    ensures
        match r {
            Ok(pv) => {
                &&& mint_a != mint_b
                &&& pv.0 == (Pool {
                    mint_a,
                    mint_b,
                    vault_a,
                    vault_b,
                    lp_mint,
                    fee_vault_a,
                    fee_vault_b,
                    admin,
                    fee_bps: FEE_BPS,
                    protocol_fee_bps: PROTOCOL_FEE_BPS,
                    paused: false,
                })
                &&& pv.0.wf()
                &&& pv.1 == (InitializeEvent {
                    pool: pool_key,
                    mint_a,
                    mint_b,
                    lp_mint,
                    vault_a,
                    vault_b,
                    fee_vault_a,
                    fee_vault_b,
                    fee_bps: FEE_BPS,
                    protocol_fee_bps: PROTOCOL_FEE_BPS,
                    admin,
                    paused: false,
                })
            },
            Err(e) => e == AmmError::SameMint && mint_a == mint_b,
        },
{
    if mint_a == mint_b {
        return Err(AmmError::SameMint);
    }
    let pool = Pool {
        mint_a,
        mint_b,
        vault_a,
        vault_b,
        lp_mint,
        fee_vault_a,
        fee_vault_b,
        admin,
        fee_bps: FEE_BPS,
        protocol_fee_bps: PROTOCOL_FEE_BPS,
        paused: false,
    };
    let event = InitializeEvent {
        pool: pool_key,
        mint_a: pool.mint_a,
        mint_b: pool.mint_b,
        lp_mint: pool.lp_mint,
        vault_a: pool.vault_a,
        vault_b: pool.vault_b,
        fee_vault_a: pool.fee_vault_a,
        fee_vault_b: pool.fee_vault_b,
        fee_bps: pool.fee_bps,
        protocol_fee_bps: pool.protocol_fee_bps,
        admin: pool.admin,
        paused: pool.paused,
    };
    Ok((pool, event))
}

/// Overwrites the pause flag, unconditionally; the change gates the next
/// deposit or swap. The host must only route this call here for the recorded
/// admin, which is what the precondition states.
pub fn set_pause(pool: &mut Pool, pool_key: AccountId, caller: AccountId, paused: bool) -> (ev:
    PauseEvent)
    requires
        caller == old(pool).admin,
    ensures
        *final(pool) == (Pool { paused, ..*old(pool) }),
        ev == (PauseEvent { admin: caller, pool: pool_key, paused }),
{
    pool.paused = paused;
    PauseEvent { admin: caller, pool: pool_key, paused }
}

/// Rotates the admin identity. The host must have verified both signatures:
/// the current admin authorizes the rotation and the new admin co-signs it,
/// proving control of the new identity.
pub fn set_admin(pool: &mut Pool, pool_key: AccountId, caller: AccountId, new_admin: AccountId) -> (
    ev: AdminUpdatedEvent)
    requires
        caller == old(pool).admin,
    ensures
        *final(pool) == (Pool { admin: new_admin, ..*old(pool) }),
        ev == (AdminUpdatedEvent { pool: pool_key, old_admin: caller, new_admin }),
{
    let old_admin = pool.admin;
    pool.admin = new_admin;
    AdminUpdatedEvent { pool: pool_key, old_admin, new_admin }
}

} // verus!
