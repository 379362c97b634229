//! The participant notifier.
//!
//! A pass over one settled slot re-derives each bet's outcome from the
//! resolved room state, queues one notification unit per bet whose outcome
//! is known (never for a room still `BetOngoing`), and records the delivery
//! status that each remote call produced. The remote calls themselves are
//! performed by the host shell through the task runner; their per-unit
//! results enter here as plain values, one per queued unit, so the whole
//! pass is verified for every combination of call outcomes.

use vstd::prelude::*;

use crate::hot_or_not::{
    bet_outcome_for_bet_maker, bet_outcome_for_bet_maker_spec, lemma_awaiting_result_iff_ongoing,
    BetDetails, BetMakerInformedStatus, BetOutcomeForBetMaker, RoomBetPossibleOutcomes,
    RoomDetails,
};
use crate::ids::{bet_id_lt, in_slot, lemma_strictly_sorted_unique, room_id_lt, GlobalBetId,
    GlobalRoomId};
use crate::principal::PrincipalId;
use crate::state::CanisterData;
use crate::store::{BetDetailsMap, RoomDetailsMap};

verus! {

broadcast use vstd::laws_cmp::group_laws_cmp;

/// One queued notification: which bet it is about, where it goes, and the
/// outcome it carries.
#[derive(Clone, Copy, Debug, PartialEq, Eq, Structural)]
pub struct NotificationUnit {
    pub global_bet_id: GlobalBetId,
    pub bet_maker_canister_id: PrincipalId,
    pub post_id: u64,
    pub outcome: BetOutcomeForBetMaker,
}

/// A bet the notifier queues a notification for: it is stored, it belongs
/// to the slot, its room is loaded, and the room has left `BetOngoing`.
pub open spec fn notifiable(
    rooms: Map<GlobalRoomId, RoomDetails>,
    bets: Map<GlobalBetId, BetDetails>,
    post_id: u64,
    slot_id: u8,
    k: GlobalBetId,
) -> bool {
    &&& bets.contains_key(k)
    &&& in_slot(k.0, post_id, slot_id)
    &&& rooms.contains_key(k.0)
    &&& rooms[k.0].bet_outcome != RoomBetPossibleOutcomes::BetOngoing
}

/// The unit queued for one notifiable bet.
pub open spec fn unit_for(
    rooms: Map<GlobalRoomId, RoomDetails>,
    bets: Map<GlobalBetId, BetDetails>,
    post_id: u64,
    k: GlobalBetId,
) -> NotificationUnit {
    NotificationUnit {
        global_bet_id: k,
        bet_maker_canister_id: bets[k].bet_maker_canister_id,
        post_id: post_id,
        outcome: bet_outcome_for_bet_maker_spec(
            rooms[k.0].bet_outcome,
            bets[k].bet_direction,
            bets[k].payout,
        ),
    }
}

/// What a prepared notification queue looks like: ascending by bet id,
/// sound (each unit is a notifiable bet's unit) and complete (every
/// notifiable bet appears).
pub open spec fn is_notification_units_seq(
    rooms: Map<GlobalRoomId, RoomDetails>,
    bets: Map<GlobalBetId, BetDetails>,
    post_id: u64,
    slot_id: u8,
    q: Seq<NotificationUnit>,
) -> bool {
    &&& forall|i: int, j: int|
        0 <= i < j < q.len() ==> bet_id_lt(q[i].global_bet_id, q[j].global_bet_id)
    &&& forall|i: int|
        0 <= i < q.len() ==> notifiable(
            rooms,
            bets,
            post_id,
            slot_id,
            (#[trigger] q[i]).global_bet_id,
        ) && q[i] == unit_for(rooms, bets, post_id, q[i].global_bet_id)
    &&& forall|k: GlobalBetId|
        notifiable(rooms, bets, post_id, slot_id, k) ==> exists|i: int|
            0 <= i < q.len() && q[i].global_bet_id == k
}

/// The notification queue of one slot: the unique sequence satisfying
/// [`is_notification_units_seq`].
pub open spec fn notification_units_seq(
    rooms: Map<GlobalRoomId, RoomDetails>,
    bets: Map<GlobalBetId, BetDetails>,
    post_id: u64,
    slot_id: u8,
) -> Seq<NotificationUnit> {
    choose|q: Seq<NotificationUnit>| is_notification_units_seq(rooms, bets, post_id, slot_id, q)
}

/// Only one sequence satisfies [`is_notification_units_seq`]: the queue is
/// pinned by the room and bet state alone.
pub proof fn lemma_notification_units_seq_unique(
    rooms: Map<GlobalRoomId, RoomDetails>,
    bets: Map<GlobalBetId, BetDetails>,
    post_id: u64,
    slot_id: u8,
    q1: Seq<NotificationUnit>,
    q2: Seq<NotificationUnit>,
)
    requires
        is_notification_units_seq(rooms, bets, post_id, slot_id, q1),
        is_notification_units_seq(rooms, bets, post_id, slot_id, q2),
    ensures
        q1 =~= q2,
{
    assert forall|x: NotificationUnit| q1.contains(x) implies q2.contains(x) by {
        let i = choose|i: int| 0 <= i < q1.len() && q1[i] == x;
        let j = choose|j: int| 0 <= j < q2.len() && q2[j].global_bet_id == x.global_bet_id;
        assert(q2[j] == x);
    }
    assert forall|x: NotificationUnit| q2.contains(x) implies q1.contains(x) by {
        let i = choose|i: int| 0 <= i < q2.len() && q2[i] == x;
        let j = choose|j: int| 0 <= j < q1.len() && q1[j].global_bet_id == x.global_bet_id;
        assert(q1[j] == x);
    }
    lemma_strictly_sorted_unique(
        q1,
        q2,
        (|x: NotificationUnit, y: NotificationUnit| bet_id_lt(x.global_bet_id, y.global_bet_id)),
    );
}

/// No queued notification belongs to a room that is still `BetOngoing`,
/// and no queued outcome is `AwaitingResult`: such bets are discarded
/// before queueing.
pub proof fn lemma_awaiting_result_excluded(
    rooms: Map<GlobalRoomId, RoomDetails>,
    bets: Map<GlobalBetId, BetDetails>,
    post_id: u64,
    slot_id: u8,
    q: Seq<NotificationUnit>,
)
    requires
        is_notification_units_seq(rooms, bets, post_id, slot_id, q),
    ensures
        forall|i: int|
            0 <= i < q.len() ==> rooms[(#[trigger] q[i]).global_bet_id.0].bet_outcome
                != RoomBetPossibleOutcomes::BetOngoing,
        forall|i: int|
            0 <= i < q.len() ==> (#[trigger] q[i]).outcome != BetOutcomeForBetMaker::AwaitingResult,
{
    assert forall|i: int| 0 <= i < q.len() implies (#[trigger] q[i]).outcome
        != BetOutcomeForBetMaker::AwaitingResult by {
        let k = q[i].global_bet_id;
        lemma_awaiting_result_iff_ongoing(
            rooms[k.0].bet_outcome,
            bets[k].bet_direction,
            bets[k].payout,
        );
    }
}

/// Computes the notification queue of one slot from the loaded rooms and
/// bets: one unit per bet of the slot whose room has left `BetOngoing`,
/// carrying the outcome of the rule table, in ascending bet-id order.
#[verifier::loop_isolation(false)]
pub fn prepare_notifications(
    rooms: &RoomDetailsMap,
    bets: &BetDetailsMap,
    post_id: u64,
    slot_id: u8,
) -> (units: Vec<NotificationUnit>)
    requires
        rooms.wf(),
        bets.wf(),
    ensures
        is_notification_units_seq(rooms@, bets@, post_id, slot_id, units@),
        units@ =~= notification_units_seq(rooms@, bets@, post_id, slot_id),
{
    let slot_rooms = rooms.rooms_in_slot(post_id, slot_id);
    let mut units: Vec<NotificationUnit> = Vec::new();
    let mut r: usize = 0;
    while r < slot_rooms.len()
        invariant
            r <= slot_rooms@.len(),
            forall|a: int, b: int|
                0 <= a < b < units@.len() ==> bet_id_lt(
                    units@[a].global_bet_id,
                    units@[b].global_bet_id,
                ),
            forall|a: int|
                0 <= a < units@.len() ==> {
                    &&& notifiable(
                        rooms@,
                        bets@,
                        post_id,
                        slot_id,
                        (#[trigger] units@[a]).global_bet_id,
                    )
                    &&& units@[a] == unit_for(rooms@, bets@, post_id, units@[a].global_bet_id)
                    &&& exists|l: int|
                        0 <= l < r as int && units@[a].global_bet_id.0 == (
                        #[trigger] slot_rooms@[l]).0
                },
            forall|k: GlobalBetId|
                notifiable(rooms@, bets@, post_id, slot_id, k) && (exists|l: int|
                    0 <= l < r as int && k.0 == (#[trigger] slot_rooms@[l]).0) ==> exists|a: int|
                    0 <= a < units@.len() && units@[a].global_bet_id == k,
        decreases slot_rooms@.len() - r,
    {
        let (room_id, room_detail) = slot_rooms[r];
        let bet_ids = bets.bet_ids_in_room(&room_id);
        let mut b: usize = 0;
        while b < bet_ids.len()
            invariant
                b <= bet_ids@.len(),
                r < slot_rooms@.len(),
                room_id == slot_rooms@[r as int].0,
                room_detail == slot_rooms@[r as int].1,
                forall|a: int, c: int|
                    0 <= a < c < units@.len() ==> bet_id_lt(
                        units@[a].global_bet_id,
                        units@[c].global_bet_id,
                    ),
                forall|a: int|
                    0 <= a < units@.len() ==> {
                        &&& notifiable(
                            rooms@,
                            bets@,
                            post_id,
                            slot_id,
                            (#[trigger] units@[a]).global_bet_id,
                        )
                        &&& units@[a] == unit_for(rooms@, bets@, post_id, units@[a].global_bet_id)
                        &&& (exists|l: int|
                            0 <= l < r as int && units@[a].global_bet_id.0 == (
                            #[trigger] slot_rooms@[l]).0) || (units@[a].global_bet_id.0 == room_id
                            && exists|l: int|
                            0 <= l < b as int && units@[a].global_bet_id == bet_ids@[l])
                    },
                forall|k: GlobalBetId|
                    notifiable(rooms@, bets@, post_id, slot_id, k) && (exists|l: int|
                        0 <= l < r as int && k.0 == (#[trigger] slot_rooms@[l]).0) ==> exists|
                        a: int,
                    | 0 <= a < units@.len() && units@[a].global_bet_id == k,
                forall|k: GlobalBetId|
                    notifiable(rooms@, bets@, post_id, slot_id, k) && k.0 == room_id && (exists|
                        l: int,
                    | 0 <= l < b as int && k == bet_ids@[l]) ==> exists|a: int|
                        0 <= a < units@.len() && units@[a].global_bet_id == k,
            decreases bet_ids@.len() - b,
        {
            let bet_id = bet_ids[b];
            match bets.get(&bet_id) {
                Some(bet) => {
                    let outcome = bet_outcome_for_bet_maker(
                        room_detail.bet_outcome,
                        bet.bet_direction,
                        bet.payout,
                    );
                    if outcome != BetOutcomeForBetMaker::AwaitingResult {
                        proof {
                            lemma_awaiting_result_iff_ongoing(
                                room_detail.bet_outcome,
                                bet.bet_direction,
                                bet.payout,
                            );
                        }
                        let unit = NotificationUnit {
                            global_bet_id: bet_id,
                            bet_maker_canister_id: bet.bet_maker_canister_id,
                            post_id: post_id,
                            outcome: outcome,
                        };
                        let ghost prev_units = units@;
                        units.push(unit);
                        proof {
                            assert(units@[units@.len() - 1] == unit);
                            assert forall|k: GlobalBetId|
                                notifiable(rooms@, bets@, post_id, slot_id, k) && (exists|l: int|
                                    0 <= l < r as int && k.0 == (
                                    #[trigger] slot_rooms@[l]).0) implies exists|a: int|
                                0 <= a < units@.len() && units@[a].global_bet_id == k by {
                                let a0 = choose|a: int|
                                    0 <= a < prev_units.len() && prev_units[a].global_bet_id == k;
                                assert(units@[a0].global_bet_id == k);
                            }
                            assert forall|k: GlobalBetId|
                                notifiable(rooms@, bets@, post_id, slot_id, k) && k.0 == room_id
                                    && (exists|l: int|
                                    0 <= l < b as int + 1 && k == bet_ids@[l]) implies exists|
                                a: int,
                            | 0 <= a < units@.len() && units@[a].global_bet_id == k by {
                                let l = choose|l: int| 0 <= l < b as int + 1 && k == bet_ids@[l];
                                if l < b as int {
                                    let a0 = choose|a: int|
                                        0 <= a < prev_units.len() && prev_units[a].global_bet_id
                                            == k;
                                    assert(units@[a0].global_bet_id == k);
                                } else {
                                    assert(units@[units@.len() - 1].global_bet_id == k);
                                }
                            }
                            assert forall|a: int, c: int|
                                0 <= a < c < units@.len() implies bet_id_lt(
                                units@[a].global_bet_id,
                                units@[c].global_bet_id,
                            ) by {
                                if c == units@.len() - 1 && a < c {
                                    let ua = units@[a];
                                    if exists|l: int|
                                        0 <= l < r as int && ua.global_bet_id.0 == (
                                        #[trigger] slot_rooms@[l]).0 {
                                        let l = choose|l: int|
                                            0 <= l < r as int && ua.global_bet_id.0
                                                == slot_rooms@[l].0;
                                        assert(room_id_lt(slot_rooms@[l].0, room_id));
                                    } else {
                                        let l = choose|l: int|
                                            0 <= l < b as int && ua.global_bet_id == bet_ids@[l];
                                        assert(bet_id_lt(bet_ids@[l], bet_ids@[b as int]));
                                    }
                                }
                            }
                        }
                    } else {
                        proof {
                            lemma_awaiting_result_iff_ongoing(
                                room_detail.bet_outcome,
                                bet.bet_direction,
                                bet.payout,
                            );
                            assert(!notifiable(rooms@, bets@, post_id, slot_id, bet_ids@[b as int]));
                            assert forall|k: GlobalBetId|
                                notifiable(rooms@, bets@, post_id, slot_id, k) && k.0 == room_id
                                    && (exists|l: int|
                                    0 <= l < b as int + 1 && k == bet_ids@[l]) implies exists|
                                a: int,
                            | 0 <= a < units@.len() && units@[a].global_bet_id == k by {
                                let l = choose|l: int| 0 <= l < b as int + 1 && k == bet_ids@[l];
                                assert(l < b as int);
                            }
                        }
                    }
                },
                None => {
                    proof {
                        assert(false);
                    }
                },
            }
            b = b + 1;
        }
        proof {
            assert forall|k: GlobalBetId|
                notifiable(rooms@, bets@, post_id, slot_id, k) && k.0 == room_id implies exists|
                a: int,
            | 0 <= a < units@.len() && units@[a].global_bet_id == k by {
                assert(bets@.contains_key(k));
                assert(bet_ids@.contains(k));
            }
        }
        r = r + 1;
    }
    proof {
        assert forall|k: GlobalBetId|
            notifiable(rooms@, bets@, post_id, slot_id, k) implies exists|a: int|
            0 <= a < units@.len() && units@[a].global_bet_id == k by {
            assert(rooms@.contains_key(k.0) && in_slot(k.0, post_id, slot_id));
            let l = choose|l: int| 0 <= l < slot_rooms@.len() && slot_rooms@[l].0 == k.0;
        }
        assert(is_notification_units_seq(rooms@, bets@, post_id, slot_id, units@));
        let q = notification_units_seq(rooms@, bets@, post_id, slot_id);
        assert(is_notification_units_seq(rooms@, bets@, post_id, slot_id, q));
        lemma_notification_units_seq_unique(rooms@, bets@, post_id, slot_id, units@, q);
    }
    units
}


/// The fan-out ceiling: at most this many notification calls are in flight
/// at once.
pub const NOTIFICATION_CONCURRENCY: usize = 10;

/// The delivery status recorded for one remote-call outcome: success gives
/// `InformedSuccessfully`, any failure gives `Failed` with its reason.
pub open spec fn status_for(r: Result<(), String>) -> BetMakerInformedStatus {
    match r {
        Ok(u) => BetMakerInformedStatus::InformedSuccessfully,
        Err(reason) => BetMakerInformedStatus::Failed(reason),
    }
}

/// The bet table after recording the queued units' delivery results, one
/// by one in queue order: each unit's bet — if still present when its turn
/// comes — gets the status of its own call; a vanished bet is skipped
/// silently.
pub open spec fn bets_after_results(
    bets: Map<GlobalBetId, BetDetails>,
    units: Seq<NotificationUnit>,
    results: Seq<Result<(), String>>,
) -> Map<GlobalBetId, BetDetails>
    decreases units.len(),
{
    if units.len() == 0 {
        bets
    } else {
        let prefix = bets_after_results(bets, units.drop_last(), results.drop_last());
        let k = units.last().global_bet_id;
        if prefix.contains_key(k) {
            prefix.insert(
                k,
                BetDetails {
                    bet_direction: prefix[k].bet_direction,
                    payout: prefix[k].payout,
                    bet_maker_canister_id: prefix[k].bet_maker_canister_id,
                    bet_maker_informed_status: Some(status_for(results.last())),
                },
            )
        } else {
            prefix
        }
    }
}

/// Records the outcome of one notification call against its bet: the bet is
/// re-read by id immediately before the write, so a bet that disappeared
/// between queueing and completion is skipped silently.
pub fn record_notification_result(
    bets: &mut BetDetailsMap,
    global_bet_id: &GlobalBetId,
    call_result: Result<(), String>,
)
    requires
        old(bets).wf(),
    ensures
        final(bets).wf(),
        old(bets)@.contains_key(*global_bet_id) ==> final(bets)@ =~= old(bets)@.insert(
            *global_bet_id,
            (BetDetails {
                bet_direction: old(bets)@[*global_bet_id].bet_direction,
                payout: old(bets)@[*global_bet_id].payout,
                bet_maker_canister_id: old(bets)@[*global_bet_id].bet_maker_canister_id,
                bet_maker_informed_status: Some(status_for(call_result)),
            }),
        ),
        !old(bets)@.contains_key(*global_bet_id) ==> final(bets)@ =~= old(bets)@,
{
    match call_result {
        Ok(()) => {
            bets.set_informed_status(global_bet_id, BetMakerInformedStatus::InformedSuccessfully);
        },
        Err(reason) => {
            bets.set_informed_status(global_bet_id, BetMakerInformedStatus::Failed(reason));
        },
    }
}

/// Records every queued unit's delivery result, in queue order. A single
/// unit's failure only marks its own bet; it never aborts the others.
#[verifier::loop_isolation(false)]
pub fn apply_notification_results(
    bets: &mut BetDetailsMap,
    units: &Vec<NotificationUnit>,
    results: Vec<Result<(), String>>,
)
    requires
        old(bets).wf(),
        results@.len() == units@.len(),
    ensures
        final(bets).wf(),
        final(bets)@ =~= bets_after_results(old(bets)@, units@, results@),
{
    let ghost all_results = results@;
    let mut rest = results;
    let mut i: usize = 0;
    while i < units.len()
        invariant
            i <= units@.len(),
            rest@ == all_results.skip(i as int),
            bets.wf(),
            bets@ == bets_after_results(
                old(bets)@,
                units@.take(i as int),
                all_results.take(i as int),
            ),
        decreases units@.len() - i,
    {
        let unit_bet_id = units[i].global_bet_id;
        proof {
            assert(rest@[0] == all_results[i as int]);
        }
        let res = rest.remove(0);
        record_notification_result(bets, &unit_bet_id, res);
        proof {
            assert(rest@ =~= all_results.skip(i as int + 1));
            assert(units@.take(i as int + 1).drop_last() =~= units@.take(i as int));
            assert(all_results.take(i as int + 1).drop_last() =~= all_results.take(i as int));
            assert(units@.take(i as int + 1).last() == units@[i as int]);
            assert(all_results.take(i as int + 1).last() == all_results[i as int]);
            assert(bets@ =~= bets_after_results(
                old(bets)@,
                units@.take(i as int + 1),
                all_results.take(i as int + 1),
            ));
        }
        i = i + 1;
    }
    proof {
        assert(units@.take(units@.len() as int) =~= units@);
        assert(all_results.take(units@.len() as int) =~= all_results);
    }
}

/// How many notification results one pass over the slot consumes: one per
/// queued unit when the post is loaded, none when it is absent (the pass is
/// then a silent no-op).
pub open spec fn expected_notification_count(
    posts: Map<u64, crate::post::Post>,
    rooms: Map<GlobalRoomId, RoomDetails>,
    bets: Map<GlobalBetId, BetDetails>,
    post_id: u64,
    slot_id: u8,
) -> int {
    if posts.contains_key(post_id) {
        notification_units_seq(rooms, bets, post_id, slot_id).len() as int
    } else {
        0
    }
}

/// One full notifier pass over a settled slot.
///
/// Looks up the post (a silent no-op if it was deleted concurrently),
/// re-derives the queue of notification units from the resolved room state,
/// and records each unit's delivery result against its bet. The host shell
/// performs the remote calls between `prepare_notifications` and the
/// recording — at most [`NOTIFICATION_CONCURRENCY`] in flight, through the
/// task runner — and hands their outcomes in `results`, aligned with the
/// queue this pass returns. Re-invoking the pass re-sends to every resolved
/// bet regardless of a previously recorded status: no filtering on
/// `InformedSuccessfully` takes place.
pub fn inform_participants_of_outcome(
    data: &mut CanisterData,
    post_id: u64,
    slot_id: u8,
    results: Vec<Result<(), String>>,
) -> (units: Vec<NotificationUnit>)
    requires
        old(data).wf(),
        results@.len() == expected_notification_count(
            old(data).all_created_posts@,
            old(data).room_details_map@,
            old(data).bet_details_map@,
            post_id,
            slot_id,
        ),
    ensures
        final(data).wf(),
        final(data).room_details_map@ == old(data).room_details_map@,
        final(data).all_created_posts@ == old(data).all_created_posts@,
        final(data).my_token_balance == old(data).my_token_balance,
        old(data).all_created_posts@.contains_key(post_id) ==> {
            &&& units@ == notification_units_seq(
                old(data).room_details_map@,
                old(data).bet_details_map@,
                post_id,
                slot_id,
            )
            &&& is_notification_units_seq(
                old(data).room_details_map@,
                old(data).bet_details_map@,
                post_id,
                slot_id,
                units@,
            )
            &&& final(data).bet_details_map@ == bets_after_results(
                old(data).bet_details_map@,
                units@,
                results@,
            )
        },
        !old(data).all_created_posts@.contains_key(post_id) ==> {
            &&& units@ == Seq::<NotificationUnit>::empty()
            &&& final(data).bet_details_map@ == old(data).bet_details_map@
        },
{
    if !data.all_created_posts.contains_key(&post_id) {
        let units: Vec<NotificationUnit> = Vec::new();
        proof {
            assert(units@ =~= Seq::<NotificationUnit>::empty());
        }
        return units;
    }
    let units = prepare_notifications(
        &data.room_details_map,
        &data.bet_details_map,
        post_id,
        slot_id,
    );
    apply_notification_results(&mut data.bet_details_map, &units, results);
    units
}

} // verus!
