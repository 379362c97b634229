//! Data types of the Hot/Not betting feature, and the fixed rule table that
//! turns a room's resolved outcome into the outcome reported to one bettor.

use vstd::prelude::*;

use crate::principal::PrincipalId;

verus! {

/// The direction one bet was placed in.
#[derive(Clone, Copy, Debug, PartialEq, Eq, Structural)]
pub enum BetDirection {
    Hot,
    Not,
}

/// The resolved state of one room.
#[derive(Clone, Copy, Debug, PartialEq, Eq, Structural)]
pub enum RoomBetPossibleOutcomes {
    BetOngoing,
    Draw,
    HotWon,
    NotWon,
}

/// A bet's payout: unknown until the room leaves `BetOngoing`, then a
/// concrete amount.
#[derive(Clone, Copy, Debug, PartialEq, Eq, Structural)]
pub enum BetPayout {
    Uncalculated,
    Calculated(u64),
}

/// The outcome reported to the maker of one bet.
#[derive(Clone, Copy, Debug, PartialEq, Eq, Structural)]
pub enum BetOutcomeForBetMaker {
    AwaitingResult,
    Won(u64),
    Lost,
    Draw(u64),
}

/// Whether the maker of a bet has been told their outcome. Absence of a
/// status (the store holds `Option<BetMakerInformedStatus>`) means no
/// delivery has been attempted yet.
#[derive(Clone, Debug, PartialEq, Eq)]
pub enum BetMakerInformedStatus {
    InformedSuccessfully,
    Failed(String),
}

/// One room: running bet counts and the resolved outcome.
#[derive(Clone, Copy, Debug, PartialEq, Eq, Structural)]
pub struct RoomDetails {
    pub total_hot_bets: u64,
    pub total_not_bets: u64,
    pub bet_outcome: RoomBetPossibleOutcomes,
}

/// One bet: direction, payout, the bettor's remote address, and the
/// delivery status of the outcome notification.
#[derive(Clone, Debug)]
pub struct BetDetails {
    pub bet_direction: BetDirection,
    pub payout: BetPayout,
    pub bet_maker_canister_id: PrincipalId,
    pub bet_maker_informed_status: Option<BetMakerInformedStatus>,
}

/// The amount of a payout, or 0 while it is still `Uncalculated`.
pub open spec fn payout_or_zero(p: BetPayout) -> u64 {
    match p {
        BetPayout::Uncalculated => 0,
        BetPayout::Calculated(amount) => amount,
    }
}

/// The fixed rule table mapping (room outcome, bet direction, payout) to the
/// outcome reported to the bet's maker:
///
/// * `BetOngoing` with any direction gives `AwaitingResult`;
/// * `Draw` with any direction gives `Draw(payout or 0)`;
/// * `HotWon` gives `Won(payout or 0)` to `Hot` bets and `Lost` to `Not` bets;
/// * `NotWon` gives `Won(payout or 0)` to `Not` bets and `Lost` to `Hot` bets.
pub open spec fn bet_outcome_for_bet_maker_spec(
    room_outcome: RoomBetPossibleOutcomes,
    direction: BetDirection,
    payout: BetPayout,
) -> BetOutcomeForBetMaker {
    match room_outcome {
        RoomBetPossibleOutcomes::BetOngoing => BetOutcomeForBetMaker::AwaitingResult,
        RoomBetPossibleOutcomes::Draw => BetOutcomeForBetMaker::Draw(payout_or_zero(payout)),
        RoomBetPossibleOutcomes::HotWon => match direction {
            BetDirection::Hot => BetOutcomeForBetMaker::Won(payout_or_zero(payout)),
            BetDirection::Not => BetOutcomeForBetMaker::Lost,
        },
        RoomBetPossibleOutcomes::NotWon => match direction {
            BetDirection::Hot => BetOutcomeForBetMaker::Lost,
            BetDirection::Not => BetOutcomeForBetMaker::Won(payout_or_zero(payout)),
        },
    }
}

/// Computes the outcome reported to a bet's maker, exactly per the rule
/// table, for every one of the nine (outcome, direction) combinations and
/// with 0 substituted for a still-`Uncalculated` payout.
pub fn bet_outcome_for_bet_maker(
    room_outcome: RoomBetPossibleOutcomes,
    direction: BetDirection,
    payout: BetPayout,
) -> (r: BetOutcomeForBetMaker)
    ensures
        r == bet_outcome_for_bet_maker_spec(room_outcome, direction, payout),
{
    let amount = match payout {
        BetPayout::Uncalculated => 0,
        BetPayout::Calculated(amount) => amount,
    };
    match room_outcome {
        RoomBetPossibleOutcomes::BetOngoing => BetOutcomeForBetMaker::AwaitingResult,
        RoomBetPossibleOutcomes::Draw => BetOutcomeForBetMaker::Draw(amount),
        RoomBetPossibleOutcomes::HotWon => match direction {
            BetDirection::Hot => BetOutcomeForBetMaker::Won(amount),
            BetDirection::Not => BetOutcomeForBetMaker::Lost,
        },
        RoomBetPossibleOutcomes::NotWon => match direction {
            BetDirection::Hot => BetOutcomeForBetMaker::Lost,
            BetDirection::Not => BetOutcomeForBetMaker::Won(amount),
        },
    }
}

/// A bet's reported outcome is `AwaitingResult` exactly when its room is
/// still `BetOngoing`; a room that has left `BetOngoing` never produces
/// `AwaitingResult`, whatever the direction or payout.
pub proof fn lemma_awaiting_result_iff_ongoing(
    room_outcome: RoomBetPossibleOutcomes,
    direction: BetDirection,
    payout: BetPayout,
)
    ensures
        (bet_outcome_for_bet_maker_spec(room_outcome, direction, payout)
            == BetOutcomeForBetMaker::AwaitingResult) <==> (room_outcome
            == RoomBetPossibleOutcomes::BetOngoing),
{
}

} // verus!
