use hot_or_not_settlement::cdao::{AirdropInfo, ClaimStatus, DeployedCdaoCanisters};
use hot_or_not_settlement::principal::PrincipalId;
use hot_or_not_settlement::token::{get_utility_token_balance, TokenBalance};
use hot_or_not_settlement::user_index::{should_recharge_canister, IndividualUserCanister};

#[test]
fn claim_status_lifecycle() {
    let mut info = AirdropInfo::new();
    let alice = PrincipalId(1);
    let bob = PrincipalId(2);

    assert!(info.get_claim_status(&alice).is_err());
    assert!(info.is_airdrop_unclaimed(&alice));

    info.set_airdrop_claiming(alice);
    assert_eq!(info.get_claim_status(&alice), Ok(ClaimStatus::Claiming));
    assert_eq!(info.is_airdrop_claiming(&alice), Ok(true));
    assert_eq!(info.is_airdrop_claimed(&alice), Ok(false));
    assert!(!info.is_airdrop_unclaimed(&alice));

    info.set_airdrop_claimed(alice);
    assert_eq!(info.get_claim_status(&alice), Ok(ClaimStatus::Claimed));
    assert_eq!(info.is_airdrop_claimed(&alice), Ok(true));
    assert_eq!(info.is_airdrop_claiming(&alice), Ok(false));

    info.set_airdrop_unclaimed(alice);
    assert_eq!(info.get_claim_status(&alice), Ok(ClaimStatus::Unclaimed));
    assert!(info.is_airdrop_unclaimed(&alice));

    // another user's entry is untouched throughout
    info.set_airdrop_claimed(bob);
    assert_eq!(info.get_claim_status(&alice), Ok(ClaimStatus::Unclaimed));
    assert_eq!(info.get_claim_status(&bob), Ok(ClaimStatus::Claimed));
}

#[test]
fn default_claim_status_is_unclaimed() {
    assert_eq!(ClaimStatus::default(), ClaimStatus::Unclaimed);
}

#[test]
fn deployed_cdao_canisters_carries_airdrop_info() {
    let mut info = AirdropInfo::new();
    info.set_airdrop_claimed(PrincipalId(9));
    let deployed = DeployedCdaoCanisters {
        governance: PrincipalId(11),
        ledger: PrincipalId(12),
        root: PrincipalId(13),
        swap: PrincipalId(14),
        index: PrincipalId(15),
        airdrop_info: info,
    };
    assert_eq!(deployed.airdrop_info.get_claim_status(&PrincipalId(9)), Ok(ClaimStatus::Claimed));
}

#[test]
fn canister_lookup_finds_first_match_or_errs() {
    let map = vec![
        (PrincipalId(1), PrincipalId(100)),
        (PrincipalId(2), PrincipalId(200)),
        (PrincipalId(3), PrincipalId(200)),
    ];
    let found = IndividualUserCanister::new(&map, PrincipalId(200)).unwrap();
    assert_eq!(found.canister_id, PrincipalId(200));
    assert_eq!(found.profile_id, PrincipalId(2));

    let missing = IndividualUserCanister::new(&map, PrincipalId(999));
    assert!(missing.is_err());
}

#[test]
fn allot_takes_from_pool_and_rollback_returns() {
    let me = IndividualUserCanister { canister_id: PrincipalId(5), profile_id: PrincipalId(6) };
    let mut pool = vec![PrincipalId(71), PrincipalId(72)];
    let got = me.allot_empty_canister(&mut pool).unwrap();
    assert_eq!(got, PrincipalId(72));
    assert_eq!(pool, vec![PrincipalId(71)]);

    me.return_canister_to_pool(&mut pool, got);
    assert_eq!(pool, vec![PrincipalId(71), PrincipalId(72)]);

    let mut empty: Vec<PrincipalId> = Vec::new();
    assert!(me.allot_empty_canister(&mut empty).is_err());
}

#[test]
fn recharge_decision_compares_balance_to_threshold() {
    assert!(should_recharge_canister(0, 10));
    assert!(should_recharge_canister(10, 10));
    assert!(!should_recharge_canister(11, 10));
}

#[test]
fn token_balance_read_out() {
    let balance = TokenBalance { utility_token_balance: 12345 };
    assert_eq!(get_utility_token_balance(&balance), 12345);
}
