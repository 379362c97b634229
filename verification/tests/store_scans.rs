use hot_or_not_settlement::hot_or_not::{
    BetDetails, BetDirection, BetPayout, RoomBetPossibleOutcomes, RoomDetails,
};
use hot_or_not_settlement::ids::{GlobalBetId, GlobalRoomId};
use hot_or_not_settlement::principal::PrincipalId;
use hot_or_not_settlement::store::{BetDetailsMap, RoomDetailsMap};

fn room(hot: u64, not: u64, outcome: RoomBetPossibleOutcomes) -> RoomDetails {
    RoomDetails { total_hot_bets: hot, total_not_bets: not, bet_outcome: outcome }
}

fn bet(direction: BetDirection, maker: u64) -> BetDetails {
    BetDetails {
        bet_direction: direction,
        payout: BetPayout::Uncalculated,
        bet_maker_canister_id: PrincipalId(maker),
        bet_maker_informed_status: None,
    }
}

#[test]
fn slot_scan_returns_exactly_the_matching_rooms_in_order() {
    let mut rooms = RoomDetailsMap::new();
    let ongoing = RoomBetPossibleOutcomes::BetOngoing;
    rooms.insert(GlobalRoomId(1, 2, 5), room(5, 0, ongoing));
    rooms.insert(GlobalRoomId(1, 3, 1), room(1, 1, ongoing));
    rooms.insert(GlobalRoomId(1, 2, 1), room(2, 2, ongoing));
    rooms.insert(GlobalRoomId(2, 2, 1), room(9, 9, ongoing));
    rooms.insert(GlobalRoomId(1, 2, 9), room(0, 3, ongoing));
    rooms.insert(GlobalRoomId(1, 1, 7), room(4, 4, ongoing));

    let scanned = rooms.rooms_in_slot(1, 2);
    let ids: Vec<GlobalRoomId> = scanned.iter().map(|e| e.0).collect();
    assert_eq!(
        ids,
        vec![GlobalRoomId(1, 2, 1), GlobalRoomId(1, 2, 5), GlobalRoomId(1, 2, 9)]
    );
    assert_eq!(scanned[0].1, room(2, 2, ongoing));
    assert_eq!(scanned[1].1, room(5, 0, ongoing));
    assert_eq!(scanned[2].1, room(0, 3, ongoing));
}

#[test]
fn slot_scan_is_idempotent_without_intervening_writes() {
    let mut rooms = RoomDetailsMap::new();
    let ongoing = RoomBetPossibleOutcomes::BetOngoing;
    rooms.insert(GlobalRoomId(7, 0, 2), room(1, 0, ongoing));
    rooms.insert(GlobalRoomId(7, 0, 1), room(0, 1, ongoing));
    let first = rooms.rooms_in_slot(7, 0);
    let second = rooms.rooms_in_slot(7, 0);
    assert_eq!(first, second);
}

#[test]
fn slot_scan_respects_insertion_order_independence() {
    let ongoing = RoomBetPossibleOutcomes::BetOngoing;
    let mut a = RoomDetailsMap::new();
    a.insert(GlobalRoomId(3, 4, 1), room(1, 1, ongoing));
    a.insert(GlobalRoomId(3, 4, 2), room(2, 2, ongoing));
    let mut b = RoomDetailsMap::new();
    b.insert(GlobalRoomId(3, 4, 2), room(2, 2, ongoing));
    b.insert(GlobalRoomId(3, 4, 1), room(1, 1, ongoing));
    assert_eq!(a.rooms_in_slot(3, 4), b.rooms_in_slot(3, 4));
}

#[test]
fn slot_scan_at_largest_slot_id_finds_its_rooms() {
    let mut rooms = RoomDetailsMap::new();
    let ongoing = RoomBetPossibleOutcomes::BetOngoing;
    rooms.insert(GlobalRoomId(7, 255, 1), room(1, 0, ongoing));
    rooms.insert(GlobalRoomId(7, 255, 2), room(0, 1, ongoing));
    rooms.insert(GlobalRoomId(7, 254, 1), room(5, 5, ongoing));
    rooms.insert(GlobalRoomId(8, 0, 1), room(6, 6, ongoing));

    let scanned = rooms.rooms_in_slot(7, 255);
    let ids: Vec<GlobalRoomId> = scanned.iter().map(|e| e.0).collect();
    assert_eq!(ids, vec![GlobalRoomId(7, 255, 1), GlobalRoomId(7, 255, 2)]);
}

#[test]
fn room_scan_of_bets_filters_by_room() {
    let mut bets = BetDetailsMap::new();
    let r1 = GlobalRoomId(1, 1, 1);
    let r2 = GlobalRoomId(1, 1, 2);
    bets.insert(GlobalBetId(r2, 1), bet(BetDirection::Hot, 21));
    bets.insert(GlobalBetId(r1, 2), bet(BetDirection::Not, 12));
    bets.insert(GlobalBetId(r1, 1), bet(BetDirection::Hot, 11));

    let ids = bets.bet_ids_in_room(&r1);
    assert_eq!(ids, vec![GlobalBetId(r1, 1), GlobalBetId(r1, 2)]);
    let ids2 = bets.bet_ids_in_room(&r2);
    assert_eq!(ids2, vec![GlobalBetId(r2, 1)]);
}

#[test]
fn insert_overwrites_and_get_reads_back() {
    let mut rooms = RoomDetailsMap::new();
    let k = GlobalRoomId(5, 5, 1);
    rooms.insert(k, room(1, 1, RoomBetPossibleOutcomes::BetOngoing));
    rooms.insert(k, room(2, 3, RoomBetPossibleOutcomes::HotWon));
    let got = rooms.get(&k).copied();
    assert_eq!(got, Some(room(2, 3, RoomBetPossibleOutcomes::HotWon)));
    assert_eq!(rooms.get(&GlobalRoomId(5, 5, 2)).copied(), None);
}

#[test]
fn point_updates_on_absent_ids_are_silent_no_ops() {
    let mut rooms = RoomDetailsMap::new();
    rooms.insert(GlobalRoomId(1, 1, 1), room(1, 1, RoomBetPossibleOutcomes::BetOngoing));
    rooms.set_outcome(&GlobalRoomId(1, 1, 2), RoomBetPossibleOutcomes::HotWon);
    assert_eq!(rooms.get(&GlobalRoomId(1, 1, 2)).copied(), None);
    assert_eq!(
        rooms.get(&GlobalRoomId(1, 1, 1)).copied(),
        Some(room(1, 1, RoomBetPossibleOutcomes::BetOngoing))
    );

    let mut bets = BetDetailsMap::new();
    let present = GlobalBetId(GlobalRoomId(1, 1, 1), 1);
    bets.insert(present, bet(BetDirection::Hot, 1));
    bets.set_payout(&GlobalBetId(GlobalRoomId(1, 1, 1), 2), BetPayout::Calculated(5));
    assert_eq!(bets.get(&GlobalBetId(GlobalRoomId(1, 1, 1), 2)).map(|_| ()), None);
    assert_eq!(bets.get(&present).unwrap().payout, BetPayout::Uncalculated);
}
