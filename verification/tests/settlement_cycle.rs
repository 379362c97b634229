use hot_or_not_settlement::hot_or_not::{
    BetDetails, BetDirection, BetMakerInformedStatus, BetOutcomeForBetMaker, BetPayout,
    RoomBetPossibleOutcomes, RoomDetails,
};
use hot_or_not_settlement::ids::{GlobalBetId, GlobalRoomId};
use hot_or_not_settlement::notifier::{inform_participants_of_outcome, prepare_notifications};
use hot_or_not_settlement::post::Post;
use hot_or_not_settlement::principal::PrincipalId;
use hot_or_not_settlement::settlement::{
    count_bets_in_slot, recharge_amount_for_bets, tabulate_hot_or_not_outcome_for_post_slot,
    SlotResolution, UNIT_COST_PER_BET,
};
use hot_or_not_settlement::state::CanisterData;

fn bet(direction: BetDirection, maker: u64) -> BetDetails {
    BetDetails {
        bet_direction: direction,
        payout: BetPayout::Uncalculated,
        bet_maker_canister_id: PrincipalId(maker),
        bet_maker_informed_status: None,
    }
}

/// Post 42, slot 3, two rooms. Room A: 2 Hot bets and 1 Not bet. Room B:
/// 3 mixed bets. The resolver settles A as HotWon with Hot payouts of 50
/// each, and B as Draw with payouts of 10 each.
fn scenario() -> (CanisterData, SlotResolution, Vec<GlobalBetId>) {
    let mut data = CanisterData::new();
    let room_a = GlobalRoomId(42, 3, 1);
    let room_b = GlobalRoomId(42, 3, 2);
    data.room_details_map.insert(
        room_a,
        RoomDetails {
            total_hot_bets: 2,
            total_not_bets: 1,
            bet_outcome: RoomBetPossibleOutcomes::BetOngoing,
        },
    );
    data.room_details_map.insert(
        room_b,
        RoomDetails {
            total_hot_bets: 1,
            total_not_bets: 2,
            bet_outcome: RoomBetPossibleOutcomes::BetOngoing,
        },
    );
    let a1 = GlobalBetId(room_a, 1);
    let a2 = GlobalBetId(room_a, 2);
    let a3 = GlobalBetId(room_a, 3);
    let b1 = GlobalBetId(room_b, 1);
    let b2 = GlobalBetId(room_b, 2);
    let b3 = GlobalBetId(room_b, 3);
    data.bet_details_map.insert(a1, bet(BetDirection::Hot, 101));
    data.bet_details_map.insert(a2, bet(BetDirection::Hot, 102));
    data.bet_details_map.insert(a3, bet(BetDirection::Not, 103));
    data.bet_details_map.insert(b1, bet(BetDirection::Hot, 104));
    data.bet_details_map.insert(b2, bet(BetDirection::Not, 105));
    data.bet_details_map.insert(b3, bet(BetDirection::Not, 106));
    data.all_created_posts.insert(42, Post::new(42, vec![3, 4]));

    let resolution = SlotResolution {
        room_outcomes: vec![
            (room_a, RoomBetPossibleOutcomes::HotWon),
            (room_b, RoomBetPossibleOutcomes::Draw),
        ],
        bet_payouts: vec![
            (a1, BetPayout::Calculated(50)),
            (a2, BetPayout::Calculated(50)),
            (b1, BetPayout::Calculated(10)),
            (b2, BetPayout::Calculated(10)),
            (b3, BetPayout::Calculated(10)),
        ],
    };
    (data, resolution, vec![a1, a2, a3, b1, b2, b3])
}

fn status_of(data: &CanisterData, id: &GlobalBetId) -> Option<BetMakerInformedStatus> {
    data.bet_details_map.get(id).unwrap().bet_maker_informed_status.clone()
}

#[test]
fn end_to_end_settlement_notifies_every_bet() {
    let (mut data, resolution, bet_ids) = scenario();
    let results = vec![Ok(()); 6];
    let (total, units) =
        tabulate_hot_or_not_outcome_for_post_slot(&mut data, 42, 3, Ok(()), &resolution, results);

    assert_eq!(total, 6);
    assert_eq!(units.len(), 6);
    let outcomes: Vec<BetOutcomeForBetMaker> = units.iter().map(|u| u.outcome).collect();
    assert_eq!(
        outcomes,
        vec![
            BetOutcomeForBetMaker::Won(50),
            BetOutcomeForBetMaker::Won(50),
            BetOutcomeForBetMaker::Lost,
            BetOutcomeForBetMaker::Draw(10),
            BetOutcomeForBetMaker::Draw(10),
            BetOutcomeForBetMaker::Draw(10),
        ]
    );
    for unit in units.iter() {
        assert_eq!(unit.post_id, 42);
        assert_ne!(unit.outcome, BetOutcomeForBetMaker::AwaitingResult);
    }
    for id in bet_ids.iter() {
        assert_eq!(status_of(&data, id), Some(BetMakerInformedStatus::InformedSuccessfully));
    }
    // the slot is struck from the post's pending set; the next one stays
    let post = data.all_created_posts.get(&42).unwrap();
    assert!(!post.slots_left_to_be_computed.contains(&3));
    assert!(post.slots_left_to_be_computed.contains(&4));
}

#[test]
fn failing_allocator_never_blocks_settlement() {
    let (mut data, resolution, bet_ids) = scenario();
    let total = count_bets_in_slot(&data, 42, 3);
    assert_eq!(total, 6);
    assert_eq!(recharge_amount_for_bets(total), 6 * UNIT_COST_PER_BET);
    // the allocator refuses; the cycle proceeds regardless
    let refusal: Result<(), String> = Err(String::from("allocator out of budget"));
    let results = vec![Ok(()); 6];
    let (total2, units) =
        tabulate_hot_or_not_outcome_for_post_slot(&mut data, 42, 3, refusal, &resolution, results);
    assert_eq!(total2, 6);
    assert_eq!(units.len(), 6);
    for id in bet_ids.iter() {
        assert_eq!(status_of(&data, id), Some(BetMakerInformedStatus::InformedSuccessfully));
    }
}

#[test]
fn partial_failure_marks_only_its_own_bet_and_resend_covers_all() {
    let (mut data, resolution, bet_ids) = scenario();
    let mut results: Vec<Result<(), String>> = vec![Ok(()); 6];
    results[1] = Err(String::from("bet maker unreachable"));
    let (_, units) =
        tabulate_hot_or_not_outcome_for_post_slot(&mut data, 42, 3, Ok(()), &resolution, results);
    assert_eq!(units.len(), 6);

    let failed_bet = units[1].global_bet_id;
    for id in bet_ids.iter() {
        if *id == failed_bet {
            assert_eq!(
                status_of(&data, id),
                Some(BetMakerInformedStatus::Failed(String::from("bet maker unreachable")))
            );
        } else {
            assert_eq!(status_of(&data, id), Some(BetMakerInformedStatus::InformedSuccessfully));
        }
    }

    // a second pass re-sends to all six, regardless of the recorded status
    let units2 = inform_participants_of_outcome(&mut data, 42, 3, vec![Ok(()); 6]);
    assert_eq!(units2.len(), 6);
    for id in bet_ids.iter() {
        assert_eq!(status_of(&data, id), Some(BetMakerInformedStatus::InformedSuccessfully));
    }
}

#[test]
fn no_notification_is_queued_for_an_ongoing_room() {
    let (data, _, _) = scenario();
    // before any resolution every room is still ongoing: nothing to send
    let units = prepare_notifications(&data.room_details_map, &data.bet_details_map, 42, 3);
    assert_eq!(units.len(), 0);

    // resolve only room A; room B stays ongoing and its bets stay unqueued
    let (mut data2, _, _) = scenario();
    let partial = SlotResolution {
        room_outcomes: vec![(GlobalRoomId(42, 3, 1), RoomBetPossibleOutcomes::HotWon)],
        bet_payouts: vec![
            (GlobalBetId(GlobalRoomId(42, 3, 1), 1), BetPayout::Calculated(50)),
            (GlobalBetId(GlobalRoomId(42, 3, 1), 2), BetPayout::Calculated(50)),
        ],
    };
    let results = vec![Ok(()); 3];
    let (_, units2) =
        tabulate_hot_or_not_outcome_for_post_slot(&mut data2, 42, 3, Ok(()), &partial, results);
    assert_eq!(units2.len(), 3);
    for unit in units2.iter() {
        assert_eq!(unit.global_bet_id.0, GlobalRoomId(42, 3, 1));
        assert_ne!(unit.outcome, BetOutcomeForBetMaker::AwaitingResult);
    }
    // bets of the ongoing room were never touched
    assert_eq!(status_of(&data2, &GlobalBetId(GlobalRoomId(42, 3, 2), 1)), None);
}

#[test]
fn settling_a_deleted_post_is_a_silent_no_op() {
    let (mut data, resolution, bet_ids) = scenario();
    let results: Vec<Result<(), String>> = Vec::new();
    let (total, units) =
        tabulate_hot_or_not_outcome_for_post_slot(&mut data, 7, 3, Ok(()), &resolution, results);
    // post 7 does not exist: the count still runs (no rooms), nothing else happens
    assert_eq!(total, 0);
    assert_eq!(units.len(), 0);
    for id in bet_ids.iter() {
        assert_eq!(status_of(&data, id), None);
        assert_eq!(data.bet_details_map.get(id).unwrap().payout, BetPayout::Uncalculated);
    }
}

#[test]
fn boundary_constants_are_exposed() {
    assert_eq!(UNIT_COST_PER_BET, 10_000_000_000);
    assert_eq!(hot_or_not_settlement::notifier::NOTIFICATION_CONCURRENCY, 10);
}
