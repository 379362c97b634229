//! Fleet-index bookkeeping for individual user instances.
//!
//! The fleet orchestrator's remote work — querying an instance's status,
//! depositing resources, flipping log visibility, re-targeting a spare
//! instance's controller — happens in the host shell. What stands here is
//! what can be decided from plain values: resolving an instance address to
//! its user, the recharge decision, and the spare-pool bookkeeping with its
//! rollback.

use vstd::prelude::*;

use crate::principal::PrincipalId;

verus! {

/// A user's individual service instance, as the fleet index sees it: the
/// instance's address and its user's profile id.
#[derive(Clone, Copy, Debug, PartialEq, Eq, Structural)]
pub struct IndividualUserCanister {
    pub canister_id: PrincipalId,
    pub profile_id: PrincipalId,
}

impl IndividualUserCanister {
    /// Resolves an instance address to its user through the profile-to-
    /// instance map: the first entry whose instance matches wins; an error
    /// if no entry matches.
    #[verifier::loop_isolation(false)]
    pub fn new(
        user_principal_id_to_canister_id_map: &Vec<(PrincipalId, PrincipalId)>,
        canister_id: PrincipalId,
    ) -> (r: Result<Self, String>)
        ensures
            match r {
                Ok(c) => {
                    &&& c.canister_id == canister_id
                    &&& exists|i: int|
                        0 <= i < user_principal_id_to_canister_id_map@.len()
                            && #[trigger] user_principal_id_to_canister_id_map@[i] == (
                        c.profile_id, c.canister_id) && forall|j: int|
                            0 <= j < i ==> (
                            #[trigger] user_principal_id_to_canister_id_map@[j]).1 != canister_id
                },
                Err(m) => m@ == "Canister Id not found in the subnet"@ && forall|i: int|
                    0 <= i < user_principal_id_to_canister_id_map@.len() ==> (
                    #[trigger] user_principal_id_to_canister_id_map@[i]).1 != canister_id,
            },
    {
        let entries = user_principal_id_to_canister_id_map;
        let mut i: usize = 0;
        while i < entries.len()
            invariant
                i <= entries@.len(),
                forall|j: int| 0 <= j < i as int ==> (#[trigger] entries@[j]).1 != canister_id,
            decreases entries@.len() - i,
        {
            if entries[i].1 == canister_id {
                return Ok(IndividualUserCanister {
                    canister_id: entries[i].1,
                    profile_id: entries[i].0,
                });
            }
            i = i + 1;
        }
        Err(String::from_str("Canister Id not found in the subnet"))
    }

    /// Takes one spare instance out of the backup pool, to be handed to
    /// this user's instance; an error when the pool is empty. The host
    /// shell then re-targets the spare's controller and, if that remote
    /// call fails, returns the spare with
    /// [`IndividualUserCanister::return_canister_to_pool`].
    pub fn allot_empty_canister(&self, backup_canister_pool: &mut Vec<PrincipalId>) -> (r: Result<
        PrincipalId,
        String,
    >)
        ensures
            old(backup_canister_pool)@.len() == 0 ==> {
                &&& (r matches Err(m) && m@ == "No Backup Canisters Available"@)
                &&& final(backup_canister_pool)@ == old(backup_canister_pool)@
            },
            old(backup_canister_pool)@.len() > 0 ==> {
                &&& r == Ok::<PrincipalId, String>(old(backup_canister_pool)@.last())
                &&& final(backup_canister_pool)@ == old(backup_canister_pool)@.drop_last()
            },
    {
        match backup_canister_pool.pop() {
            Some(new_canister_id) => Ok(new_canister_id),
            None => Err(String::from_str("No Backup Canisters Available")),
        }
    }

    /// Puts a spare instance back into the backup pool: the rollback for a
    /// failed controller hand-over.
    pub fn return_canister_to_pool(
        &self,
        backup_canister_pool: &mut Vec<PrincipalId>,
        canister_id: PrincipalId,
    )
        ensures
            final(backup_canister_pool)@ == old(backup_canister_pool)@.push(canister_id),
    {
        backup_canister_pool.push(canister_id);
    }
}

/// The recharge decision for one instance: top it up exactly when its
/// balance has fallen to the threshold or below. The threshold and the
/// amount themselves come from the fleet-level sizing collaborator; the
/// deposit is the host shell's remote call.
pub fn should_recharge_canister(current_balance: u128, threshold: u128) -> (r: bool)
    ensures
        r == (current_balance <= threshold),
{
    current_balance <= threshold
}

} // verus!
