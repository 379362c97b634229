//! Creator-DAO bookkeeping types: the canisters deployed for a creator's
//! DAO and the per-user airdrop claim registry.

use vstd::prelude::*;

use crate::principal::PrincipalId;

verus! {

/// The claim state of one user's airdrop.
#[derive(Clone, Copy, Debug, PartialEq, Eq, Structural, Default, Hash)]
pub enum ClaimStatus {
    #[default]
    Unclaimed,
    Claimed,
    Claiming,
}

/// The status a principal maps to in an association list, earliest entry
/// winning; `None` if the principal has no entry.
pub open spec fn status_in(s: Seq<(PrincipalId, ClaimStatus)>, p: PrincipalId) -> Option<
    ClaimStatus,
>
    decreases s.len(),
{
    if s.len() == 0 {
        None
    } else if s[0].0 == p {
        Some(s[0].1)
    } else {
        status_in(s.drop_first(), p)
    }
}

/// A principal has no status exactly when no entry carries it.
pub proof fn lemma_status_in_none(s: Seq<(PrincipalId, ClaimStatus)>, p: PrincipalId)
    ensures
        (status_in(s, p) is None) <==> (forall|i: int| 0 <= i < s.len() ==> (#[trigger] s[i]).0
            != p),
    decreases s.len(),
{
    if s.len() > 0 {
        lemma_status_in_none(s.drop_first(), p);
        if s[0].0 != p {
            assert forall|i: int| 0 <= i < s.len() && (#[trigger] s[i]).0 == p implies !(
            status_in(s, p) is None) by {
                assert(s.drop_first()[i - 1] == s[i]);
            }
            if forall|i: int| 0 <= i < s.len() ==> (#[trigger] s[i]).0 != p {
                assert forall|i: int|
                    0 <= i < s.drop_first().len() implies (#[trigger] s.drop_first()[i]).0
                    != p by {
                    assert(s.drop_first()[i] == s[i + 1]);
                }
            }
        }
    }
}

/// Overwriting the one entry that carries `p` changes `p`'s status and no
/// other.
pub proof fn lemma_status_in_update(
    s: Seq<(PrincipalId, ClaimStatus)>,
    i: int,
    p: PrincipalId,
    status: ClaimStatus,
)
    requires
        0 <= i < s.len(),
        s[i].0 == p,
        forall|a: int, b: int| 0 <= a < b < s.len() ==> (#[trigger] s[a]).0 != (#[trigger] s[b]).0,
    ensures
        forall|q: PrincipalId|
            #[trigger] status_in(s.update(i, (p, status)), q) == if q == p {
                Some(status)
            } else {
                status_in(s, q)
            },
    decreases s.len(),
{
    let t = s.update(i, (p, status));
    if i == 0 {
        assert forall|q: PrincipalId|
            #[trigger] status_in(t, q) == (if q == p {
                Some(status)
            } else {
                status_in(s, q)
            }) by {
            if q != p {
                assert(t.drop_first() =~= s.drop_first());
            }
        }
    } else {
        assert forall|a: int, b: int|
            0 <= a < b < s.drop_first().len() implies (#[trigger] s.drop_first()[a]).0 != (
        #[trigger] s.drop_first()[b]).0 by {
            assert(s.drop_first()[a] == s[a + 1] && s.drop_first()[b] == s[b + 1]);
        }
        assert(s.drop_first()[i - 1] == s[i]);
        lemma_status_in_update(s.drop_first(), i - 1, p, status);
        assert(t.drop_first() =~= s.drop_first().update(i - 1, (p, status)));
        assert(t[0] == s[0]);
        assert(s[0].0 != p);
        assert forall|q: PrincipalId|
            #[trigger] status_in(t, q) == (if q == p {
                Some(status)
            } else {
                status_in(s, q)
            }) by {
            if t[0].0 == q {
            } else {
                assert(status_in(t.drop_first(), q) == status_in(
                    s.drop_first().update(i - 1, (p, status)),
                    q,
                ));
            }
        }
    }
}

/// Appending an entry for a principal that has none gives that principal
/// its status and leaves every other untouched.
pub proof fn lemma_status_in_push(
    s: Seq<(PrincipalId, ClaimStatus)>,
    p: PrincipalId,
    status: ClaimStatus,
)
    requires
        status_in(s, p) is None,
    ensures
        forall|q: PrincipalId|
            #[trigger] status_in(s.push((p, status)), q) == if q == p {
                Some(status)
            } else {
                status_in(s, q)
            },
    decreases s.len(),
{
    let t = s.push((p, status));
    if s.len() == 0 {
        assert forall|q: PrincipalId|
            #[trigger] status_in(t, q) == (if q == p {
                Some(status)
            } else {
                status_in(s, q)
            }) by {
            assert(t.len() == 1);
            assert(t[0] == (p, status));
            if q == p {
                assert(status_in(t, q) == Some(status));
            } else {
                assert(t.drop_first() =~= Seq::<(PrincipalId, ClaimStatus)>::empty());
                assert(status_in(t.drop_first(), q) is None);
                assert(status_in(t, q) is None);
                assert(status_in(s, q) is None);
            }
        }
    } else {
        lemma_status_in_push(s.drop_first(), p, status);
        assert(t.drop_first() =~= s.drop_first().push((p, status)));
        assert(t[0] == s[0]);
        assert(s[0].0 != p);
        assert forall|q: PrincipalId|
            #[trigger] status_in(t, q) == (if q == p {
                Some(status)
            } else {
                status_in(s, q)
            }) by {
            if t[0].0 != q {
                assert(status_in(t.drop_first(), q) == status_in(
                    s.drop_first().push((p, status)),
                    q,
                ));
            }
        }
    }
}

/// Per-user airdrop claim registry, an association list with one entry per
/// principal.
#[derive(Clone, Debug, PartialEq, Eq)]
pub struct AirdropInfo {
    /// Maps each principal to their claim status.
    pub principals_who_successfully_claimed: Vec<(PrincipalId, ClaimStatus)>,
}

impl AirdropInfo {
    /// Well-formedness: at most one entry per principal.
    pub open spec fn wf(self) -> bool {
        forall|a: int, b: int|
            0 <= a < b < self.principals_who_successfully_claimed@.len() ==> (
            #[trigger] self.principals_who_successfully_claimed@[a]).0 != (
            #[trigger] self.principals_who_successfully_claimed@[b]).0
    }

    /// The status recorded for one principal, if any.
    pub open spec fn status_of(self, p: PrincipalId) -> Option<ClaimStatus> {
        status_in(self.principals_who_successfully_claimed@, p)
    }

    /// An empty registry.
    pub fn new() -> (info: AirdropInfo)
        ensures
            info.wf(),
            forall|p: PrincipalId| #[trigger] info.status_of(p) is None,
    {
        AirdropInfo { principals_who_successfully_claimed: Vec::new() }
    }

    /// The claim status of one principal; an error if the principal has no
    /// entry.
    #[verifier::loop_isolation(false)]
    pub fn get_claim_status(&self, user_principal_id: &PrincipalId) -> (r: Result<
        ClaimStatus,
        String,
    >)
        ensures
            self.status_of(*user_principal_id) matches Some(st) ==> r == Ok::<
                ClaimStatus,
                String,
            >(st),
            self.status_of(*user_principal_id) is None ==> (r matches Err(m) && m@
                == "Principal not found"@),
    {
        let entries = &self.principals_who_successfully_claimed;
        proof {
            assert(entries@.skip(0) =~= entries@);
        }
        let mut i: usize = 0;
        while i < entries.len()
            invariant
                i <= entries@.len(),
                status_in(entries@, *user_principal_id) == status_in(
                    entries@.skip(i as int),
                    *user_principal_id,
                ),
            decreases entries@.len() - i,
        {
            if entries[i].0 == *user_principal_id {
                proof {
                    assert(entries@.skip(i as int)[0] == entries@[i as int]);
                }
                return Ok(entries[i].1);
            }
            proof {
                assert(entries@.skip(i as int)[0] == entries@[i as int]);
                assert(entries@.skip(i as int).drop_first() =~= entries@.skip(i as int + 1));
            }
            i = i + 1;
        }
        Err(String::from_str("Principal not found"))
    }

    /// Whether the principal's airdrop is claimed; an error if the
    /// principal has no entry.
    pub fn is_airdrop_claimed(&self, user_principal_id: &PrincipalId) -> (r: Result<bool, String>)
        ensures
            self.status_of(*user_principal_id) matches Some(st) ==> r == Ok::<bool, String>(
                st == ClaimStatus::Claimed,
            ),
            self.status_of(*user_principal_id) is None ==> (r matches Err(m) && m@
                == "Principal not found"@),
    {
        match self.get_claim_status(user_principal_id) {
            Ok(ClaimStatus::Claimed) => Ok(true),
            Ok(_) => Ok(false),
            Err(e) => Err(e),
        }
    }

    /// Whether the principal's airdrop claim is in progress; an error if
    /// the principal has no entry.
    pub fn is_airdrop_claiming(&self, user_principal_id: &PrincipalId) -> (r: Result<bool, String>)
        ensures
            self.status_of(*user_principal_id) matches Some(st) ==> r == Ok::<bool, String>(
                st == ClaimStatus::Claiming,
            ),
            self.status_of(*user_principal_id) is None ==> (r matches Err(m) && m@
                == "Principal not found"@),
    {
        match self.get_claim_status(user_principal_id) {
            Ok(ClaimStatus::Claiming) => Ok(true),
            Ok(_) => Ok(false),
            Err(e) => Err(e),
        }
    }

    /// Whether the principal's airdrop is still unclaimed: explicitly
    /// `Unclaimed`, or simply unknown to the registry.
    pub fn is_airdrop_unclaimed(&self, user_principal_id: &PrincipalId) -> (r: bool)
        ensures
            r == (self.status_of(*user_principal_id) is None || self.status_of(*user_principal_id)
                == Some(ClaimStatus::Unclaimed)),
    {
        match self.get_claim_status(user_principal_id) {
            Ok(ClaimStatus::Unclaimed) => true,
            Ok(_) => false,
            Err(_) => true,
        }
    }

    /// Sets the principal's status, adding an entry if none exists.
    #[verifier::loop_isolation(false)]
    fn set_claim_status_or_insert_with_claim_status_if_not_exist(
        &mut self,
        user_principal_id: &PrincipalId,
        status: ClaimStatus,
    )
        requires
            old(self).wf(),
        ensures
            final(self).wf(),
            forall|q: PrincipalId|
                #[trigger] final(self).status_of(q) == if q == *user_principal_id {
                    Some(status)
                } else {
                    old(self).status_of(q)
                },
    {
        let n = self.principals_who_successfully_claimed.len();
        let ghost pre = self.principals_who_successfully_claimed@;
        let mut i: usize = 0;
        while i < n
            invariant
                i <= n,
                self == old(self),
                forall|l: int|
                    0 <= l < i as int ==> (
                    #[trigger] self.principals_who_successfully_claimed@[l]).0
                        != *user_principal_id,
            decreases n - i,
        {
            if self.principals_who_successfully_claimed[i].0 == *user_principal_id {
                self.principals_who_successfully_claimed[i] = (*user_principal_id, status);
                proof {
                    lemma_status_in_update(pre, i as int, *user_principal_id, status);
                    assert(self.principals_who_successfully_claimed@ =~= pre.update(
                        i as int,
                        (*user_principal_id, status),
                    ));
                }
                return ;
            }
            i = i + 1;
        }
        proof {
            lemma_status_in_none(pre, *user_principal_id);
            lemma_status_in_push(pre, *user_principal_id, status);
        }
        self.principals_who_successfully_claimed.push((*user_principal_id, status));
        proof {
            let cur = self.principals_who_successfully_claimed@;
            assert forall|a: int, b: int| 0 <= a < b < cur.len() implies (#[trigger] cur[a]).0 != (
            #[trigger] cur[b]).0 by {
                if b == cur.len() - 1 {
                    assert(cur[a] == pre[a]);
                    assert(pre[a].0 != *user_principal_id);
                }
            }
        }
    }

    /// Marks the principal's airdrop claimed.
    pub fn set_airdrop_claimed(&mut self, user_principal_id: PrincipalId)
        requires
            old(self).wf(),
        ensures
            final(self).wf(),
            forall|q: PrincipalId|
                #[trigger] final(self).status_of(q) == if q == user_principal_id {
                    Some(ClaimStatus::Claimed)
                } else {
                    old(self).status_of(q)
                },
    {
        self.set_claim_status_or_insert_with_claim_status_if_not_exist(
            &user_principal_id,
            ClaimStatus::Claimed,
        )
    }

    /// Marks the principal's airdrop claim as in progress.
    pub fn set_airdrop_claiming(&mut self, user_principal_id: PrincipalId)
        requires
            old(self).wf(),
        ensures
            final(self).wf(),
            forall|q: PrincipalId|
                #[trigger] final(self).status_of(q) == if q == user_principal_id {
                    Some(ClaimStatus::Claiming)
                } else {
                    old(self).status_of(q)
                },
    {
        self.set_claim_status_or_insert_with_claim_status_if_not_exist(
            &user_principal_id,
            ClaimStatus::Claiming,
        )
    }

    /// Marks the principal's airdrop unclaimed.
    pub fn set_airdrop_unclaimed(&mut self, user_principal_id: PrincipalId)
        requires
            old(self).wf(),
        ensures
            final(self).wf(),
            forall|q: PrincipalId|
                #[trigger] final(self).status_of(q) == if q == user_principal_id {
                    Some(ClaimStatus::Unclaimed)
                } else {
                    old(self).status_of(q)
                },
    {
        self.set_claim_status_or_insert_with_claim_status_if_not_exist(
            &user_principal_id,
            ClaimStatus::Unclaimed,
        )
    }
}

/// The canisters deployed for one creator's DAO, with its airdrop registry.
#[derive(Clone, Debug, PartialEq, Eq)]
pub struct DeployedCdaoCanisters {
    pub governance: PrincipalId,
    pub ledger: PrincipalId,
    pub root: PrincipalId,
    pub swap: PrincipalId,
    pub index: PrincipalId,
    pub airdrop_info: AirdropInfo,
}

} // verus!
