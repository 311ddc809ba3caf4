//! Cost parameters of the key derivation.

use vstd::prelude::*;
use crate::error::VaultError;

verus! {

/// The least memory cost, in KiB, that the derivation accepts.
pub const MIN_M_COST: u32 = 8;

/// The greatest degree of parallelism that the derivation accepts.
pub const MAX_P_COST: u32 = 0xFF_FFFF;

/// Whether a triple of costs satisfies the constraints of Argon2: at least one
/// pass, between 1 and 2^24 - 1 lanes, and at least 8 KiB of memory per lane.
pub open spec fn costs_valid(m_cost: u32, t_cost: u32, p_cost: u32) -> bool {
    &&& m_cost >= MIN_M_COST
    &&& m_cost >= 8 * p_cost
    &&& t_cost >= 1
    &&& 1 <= p_cost <= MAX_P_COST
}

/// Memory cost (KiB), time cost (passes) and parallelism (lanes).
#[derive(Clone, Copy, Debug, PartialEq, Eq, Structural)]
pub struct CostParams {
    pub m_cost: u32,
    pub t_cost: u32,
    pub p_cost: u32,
}

impl CostParams {
    /// Whether the derivation accepts these parameters.
    pub open spec fn valid(self) -> bool {
        costs_valid(self.m_cost, self.t_cost, self.p_cost)
    }

    /// Builds cost parameters, refusing those that the derivation would refuse.
    pub fn new(m_cost: u32, t_cost: u32, p_cost: u32) -> (r: Result<CostParams, VaultError>)
        ensures
            costs_valid(m_cost, t_cost, p_cost) ==> r == Ok::<CostParams, VaultError>(
                CostParams { m_cost, t_cost, p_cost },
            ),
            !costs_valid(m_cost, t_cost, p_cost) ==> r == Err::<CostParams, VaultError>(
                VaultError::InvalidParameters,
            ),
    {
        let params = CostParams { m_cost, t_cost, p_cost };
        if params.is_valid() {
            Ok(params)
        } else {
            Err(VaultError::InvalidParameters)
        }
    }

    /// Tests whether the derivation accepts these parameters.
    pub fn is_valid(&self) -> (ok: bool)
        ensures
            ok == self.valid(),
    {
        self.p_cost >= 1 && self.p_cost <= MAX_P_COST && self.t_cost >= 1 && self.m_cost
            >= MIN_M_COST && self.m_cost >= 8 * self.p_cost
    }
}

/// The parameters used for new vaults: 64 MiB of memory, three passes, one lane.
pub fn default_params() -> (p: CostParams)
    ensures
        p == (CostParams { m_cost: 65536, t_cost: 3, p_cost: 1 }),
        p.valid(),
{
    CostParams { m_cost: 64 * 1024, t_cost: 3, p_cost: 1 }
}

} // verus!
