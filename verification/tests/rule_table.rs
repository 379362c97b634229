use hot_or_not_settlement::hot_or_not::{
    bet_outcome_for_bet_maker, BetDirection, BetOutcomeForBetMaker, BetPayout,
    RoomBetPossibleOutcomes,
};

#[test]
fn ongoing_room_gives_awaiting_result_for_both_directions() {
    assert_eq!(
        bet_outcome_for_bet_maker(
            RoomBetPossibleOutcomes::BetOngoing,
            BetDirection::Hot,
            BetPayout::Calculated(7),
        ),
        BetOutcomeForBetMaker::AwaitingResult
    );
    assert_eq!(
        bet_outcome_for_bet_maker(
            RoomBetPossibleOutcomes::BetOngoing,
            BetDirection::Not,
            BetPayout::Uncalculated,
        ),
        BetOutcomeForBetMaker::AwaitingResult
    );
}

#[test]
fn draw_room_gives_draw_with_payout_for_both_directions() {
    assert_eq!(
        bet_outcome_for_bet_maker(
            RoomBetPossibleOutcomes::Draw,
            BetDirection::Hot,
            BetPayout::Calculated(10),
        ),
        BetOutcomeForBetMaker::Draw(10)
    );
    assert_eq!(
        bet_outcome_for_bet_maker(
            RoomBetPossibleOutcomes::Draw,
            BetDirection::Not,
            BetPayout::Calculated(25),
        ),
        BetOutcomeForBetMaker::Draw(25)
    );
}

#[test]
fn hot_won_room_pays_hot_and_loses_not() {
    assert_eq!(
        bet_outcome_for_bet_maker(
            RoomBetPossibleOutcomes::HotWon,
            BetDirection::Hot,
            BetPayout::Calculated(50),
        ),
        BetOutcomeForBetMaker::Won(50)
    );
    assert_eq!(
        bet_outcome_for_bet_maker(
            RoomBetPossibleOutcomes::HotWon,
            BetDirection::Not,
            BetPayout::Calculated(50),
        ),
        BetOutcomeForBetMaker::Lost
    );
}

#[test]
fn not_won_room_pays_not_and_loses_hot() {
    assert_eq!(
        bet_outcome_for_bet_maker(
            RoomBetPossibleOutcomes::NotWon,
            BetDirection::Not,
            BetPayout::Calculated(80),
        ),
        BetOutcomeForBetMaker::Won(80)
    );
    assert_eq!(
        bet_outcome_for_bet_maker(
            RoomBetPossibleOutcomes::NotWon,
            BetDirection::Hot,
            BetPayout::Calculated(80),
        ),
        BetOutcomeForBetMaker::Lost
    );
}

#[test]
fn uncalculated_payout_substitutes_zero() {
    assert_eq!(
        bet_outcome_for_bet_maker(
            RoomBetPossibleOutcomes::Draw,
            BetDirection::Hot,
            BetPayout::Uncalculated,
        ),
        BetOutcomeForBetMaker::Draw(0)
    );
    assert_eq!(
        bet_outcome_for_bet_maker(
            RoomBetPossibleOutcomes::HotWon,
            BetDirection::Hot,
            BetPayout::Uncalculated,
        ),
        BetOutcomeForBetMaker::Won(0)
    );
    assert_eq!(
        bet_outcome_for_bet_maker(
            RoomBetPossibleOutcomes::NotWon,
            BetDirection::Not,
            BetPayout::Uncalculated,
        ),
        BetOutcomeForBetMaker::Won(0)
    );
}
