//! The slot settlement aggregator and the resource recharge policy.
//!
//! Settling a slot counts its bets, prices a best-effort resource top-up,
//! applies the external resolver's decisions to the stores, strikes the
//! slot from its post's pending set, and unconditionally hands over to the
//! participant notifier. The two remote interactions — the allocator
//! request and the per-bet notification calls — are performed by the host
//! shell; their outcomes enter here as plain values.

use vstd::prelude::*;

use crate::hot_or_not::{BetDetails, BetPayout, RoomBetPossibleOutcomes, RoomDetails};
use crate::ids::{GlobalBetId, GlobalRoomId};
use crate::notifier::{
    bets_after_results, inform_participants_of_outcome, is_notification_units_seq,
    notification_units_seq, NotificationUnit,
};
use crate::post::Post;
use crate::state::CanisterData;
use crate::store::slot_rooms_seq;

verus! {

broadcast use vstd::laws_cmp::group_laws_cmp;

/// Resource units requested from the allocator for each bet settled: the
/// advisory prepayment against the outbound notification cost.
pub const UNIT_COST_PER_BET: u128 = 10_000_000_000;

/// The number of bets across a sequence of scanned rooms: each room's Hot
/// count plus its Not count.
pub open spec fn total_bets_in(rooms: Seq<(GlobalRoomId, RoomDetails)>) -> int
    decreases rooms.len(),
{
    if rooms.len() == 0 {
        0
    } else {
        total_bets_in(rooms.drop_last()) + rooms.last().1.total_hot_bets
            + rooms.last().1.total_not_bets
    }
}

/// A prefix's bet count never exceeds the whole sequence's.
proof fn lemma_total_bets_prefix_le(rooms: Seq<(GlobalRoomId, RoomDetails)>, i: int)
    requires
        0 <= i <= rooms.len(),
    ensures
        total_bets_in(rooms.take(i)) <= total_bets_in(rooms),
    decreases rooms.len() - i,
{
    if i == rooms.len() {
        assert(rooms.take(i) =~= rooms);
    } else {
        lemma_total_bets_prefix_le(rooms, i + 1);
        assert(rooms.take(i + 1).drop_last() =~= rooms.take(i));
        assert(total_bets_in(rooms.take(i)) <= total_bets_in(rooms.take(i + 1)));
    }
}

/// Sums the bets of the scanned rooms.
#[verifier::loop_isolation(false)]
pub fn count_bets_in_rooms(rooms: &Vec<(GlobalRoomId, RoomDetails)>) -> (r: u64)
    requires
        total_bets_in(rooms@) <= u64::MAX,
    ensures
        r == total_bets_in(rooms@),
{
    let mut acc: u64 = 0;
    let mut i: usize = 0;
    while i < rooms.len()
        invariant
            i <= rooms@.len(),
            acc == total_bets_in(rooms@.take(i as int)),
        decreases rooms@.len() - i,
    {
        proof {
            lemma_total_bets_prefix_le(rooms@, i as int + 1);
            assert(rooms@.take(i as int + 1).drop_last() =~= rooms@.take(i as int));
        }
        let d = rooms[i].1;
        acc = acc + d.total_hot_bets;
        acc = acc + d.total_not_bets;
        i = i + 1;
    }
    proof {
        assert(rooms@.take(rooms@.len() as int) =~= rooms@);
    }
    acc
}

/// Counts every bet placed in one slot: the half-open slot scan summed.
pub fn count_bets_in_slot(data: &CanisterData, post_id: u64, slot_id: u8) -> (r: u64)
    requires
        data.wf(),
        total_bets_in(slot_rooms_seq(data.room_details_map@, post_id, slot_id)) <= u64::MAX,
    ensures
        r == total_bets_in(slot_rooms_seq(data.room_details_map@, post_id, slot_id)),
{
    let rooms = data.room_details_map.rooms_in_slot(post_id, slot_id);
    count_bets_in_rooms(&rooms)
}

/// The recharge policy: one advisory request of `total_bets_placed ×
/// UNIT_COST_PER_BET` resource units. The host shell sends the request to
/// the allocator and at most logs a refusal; nothing in settlement depends
/// on the answer, there is no retry, and the only later request is a whole
/// new settlement cycle's.
pub fn recharge_amount_for_bets(total_bets_placed: u64) -> (r: u128)
    ensures
        r == total_bets_placed as u128 * UNIT_COST_PER_BET,
{
    proof {
        assert((total_bets_placed as int) * (UNIT_COST_PER_BET as int) < u128::MAX as int)
            by (nonlinear_arith)
            requires
                0 <= total_bets_placed as int <= u64::MAX as int,
        ;
    }
    (total_bets_placed as u128) * UNIT_COST_PER_BET
}

/// What the external slot resolver decided for one slot: the outcome each
/// room settles to and the payout each bet receives. The aggregator applies
/// the decisions to the stores as one logical unit.
pub struct SlotResolution {
    pub room_outcomes: Vec<(GlobalRoomId, RoomBetPossibleOutcomes)>,
    pub bet_payouts: Vec<(GlobalBetId, BetPayout)>,
}

/// The room table after the resolver's outcome writes, applied in order;
/// a room no longer present is skipped.
pub open spec fn rooms_after_resolution(
    rooms: Map<GlobalRoomId, RoomDetails>,
    updates: Seq<(GlobalRoomId, RoomBetPossibleOutcomes)>,
) -> Map<GlobalRoomId, RoomDetails>
    decreases updates.len(),
{
    if updates.len() == 0 {
        rooms
    } else {
        let prefix = rooms_after_resolution(rooms, updates.drop_last());
        let k = updates.last().0;
        if prefix.contains_key(k) {
            prefix.insert(
                k,
                RoomDetails {
                    total_hot_bets: prefix[k].total_hot_bets,
                    total_not_bets: prefix[k].total_not_bets,
                    bet_outcome: updates.last().1,
                },
            )
        } else {
            prefix
        }
    }
}

/// The bet table after the resolver's payout writes, applied in order;
/// a bet no longer present is skipped.
pub open spec fn bets_after_resolution(
    bets: Map<GlobalBetId, BetDetails>,
    updates: Seq<(GlobalBetId, BetPayout)>,
) -> Map<GlobalBetId, BetDetails>
    decreases updates.len(),
{
    if updates.len() == 0 {
        bets
    } else {
        let prefix = bets_after_resolution(bets, updates.drop_last());
        let k = updates.last().0;
        if prefix.contains_key(k) {
            prefix.insert(
                k,
                BetDetails {
                    bet_direction: prefix[k].bet_direction,
                    payout: updates.last().1,
                    bet_maker_canister_id: prefix[k].bet_maker_canister_id,
                    bet_maker_informed_status: prefix[k].bet_maker_informed_status,
                },
            )
        } else {
            prefix
        }
    }
}

/// Applies the resolver's decisions to the room and bet tables.
#[verifier::loop_isolation(false)]
pub fn apply_slot_resolution(data: &mut CanisterData, resolution: &SlotResolution)
    requires
        old(data).wf(),
    ensures
        final(data).wf(),
        final(data).room_details_map@ == rooms_after_resolution(
            old(data).room_details_map@,
            resolution.room_outcomes@,
        ),
        final(data).bet_details_map@ == bets_after_resolution(
            old(data).bet_details_map@,
            resolution.bet_payouts@,
        ),
        final(data).all_created_posts@ == old(data).all_created_posts@,
        final(data).my_token_balance == old(data).my_token_balance,
{
    let mut i: usize = 0;
    while i < resolution.room_outcomes.len()
        invariant
            i <= resolution.room_outcomes@.len(),
            data.room_details_map.wf(),
            data.room_details_map@ == rooms_after_resolution(
                old(data).room_details_map@,
                resolution.room_outcomes@.take(i as int),
            ),
            data.bet_details_map == old(data).bet_details_map,
            data.all_created_posts == old(data).all_created_posts,
            data.my_token_balance == old(data).my_token_balance,
        decreases resolution.room_outcomes@.len() - i,
    {
        let (room_id, outcome) = resolution.room_outcomes[i];
        data.room_details_map.set_outcome(&room_id, outcome);
        proof {
            assert(resolution.room_outcomes@.take(i as int + 1).drop_last()
                =~= resolution.room_outcomes@.take(i as int));
            assert(resolution.room_outcomes@.take(i as int + 1).last()
                == resolution.room_outcomes@[i as int]);
        }
        i = i + 1;
    }
    proof {
        assert(resolution.room_outcomes@.take(resolution.room_outcomes@.len() as int)
            =~= resolution.room_outcomes@);
    }
    let mut j: usize = 0;
    while j < resolution.bet_payouts.len()
        invariant
            j <= resolution.bet_payouts@.len(),
            data.room_details_map.wf(),
            data.room_details_map@ == rooms_after_resolution(
                old(data).room_details_map@,
                resolution.room_outcomes@,
            ),
            data.bet_details_map.wf(),
            data.bet_details_map@ == bets_after_resolution(
                old(data).bet_details_map@,
                resolution.bet_payouts@.take(j as int),
            ),
            data.all_created_posts == old(data).all_created_posts,
            data.my_token_balance == old(data).my_token_balance,
        decreases resolution.bet_payouts@.len() - j,
    {
        let (bet_id, payout) = resolution.bet_payouts[j];
        data.bet_details_map.set_payout(&bet_id, payout);
        proof {
            assert(resolution.bet_payouts@.take(j as int + 1).drop_last()
                =~= resolution.bet_payouts@.take(j as int));
            assert(resolution.bet_payouts@.take(j as int + 1).last()
                == resolution.bet_payouts@[j as int]);
        }
        j = j + 1;
    }
    proof {
        assert(resolution.bet_payouts@.take(resolution.bet_payouts@.len() as int)
            =~= resolution.bet_payouts@);
    }
}

/// How many notification results the settlement of one slot consumes: the
/// queue length of the post-resolution state when the post is loaded, none
/// when it is absent.
pub open spec fn settled_notification_count(
    posts: Map<u64, Post>,
    rooms: Map<GlobalRoomId, RoomDetails>,
    bets: Map<GlobalBetId, BetDetails>,
    post_id: u64,
    slot_id: u8,
    room_updates: Seq<(GlobalRoomId, RoomBetPossibleOutcomes)>,
    bet_updates: Seq<(GlobalBetId, BetPayout)>,
) -> int {
    if posts.contains_key(post_id) {
        notification_units_seq(
            rooms_after_resolution(rooms, room_updates),
            bets_after_resolution(bets, bet_updates),
            post_id,
            slot_id,
        ).len() as int
    } else {
        0
    }
}

/// Applies one slot's settlement to the state (the steps between the two
/// remote interactions): looks up the post — a silent no-op if it was
/// deleted concurrently, not an error — applies the resolver's decisions
/// to the stores as one unit, and strikes the slot from the post's pending
/// set.
pub fn settle_slot(data: &mut CanisterData, post_id: u64, slot_id: u8, resolution: &SlotResolution)
    requires
        old(data).wf(),
    ensures
        final(data).wf(),
        final(data).my_token_balance == old(data).my_token_balance,
        !old(data).all_created_posts@.contains_key(post_id) ==> {
            &&& final(data).room_details_map@ == old(data).room_details_map@
            &&& final(data).bet_details_map@ == old(data).bet_details_map@
            &&& final(data).all_created_posts@ == old(data).all_created_posts@
        },
        old(data).all_created_posts@.contains_key(post_id) ==> {
            &&& final(data).room_details_map@ == rooms_after_resolution(
                old(data).room_details_map@,
                resolution.room_outcomes@,
            )
            &&& final(data).bet_details_map@ == bets_after_resolution(
                old(data).bet_details_map@,
                resolution.bet_payouts@,
            )
            &&& final(data).all_created_posts@.dom() == old(data).all_created_posts@.dom()
            &&& final(data).all_created_posts@[post_id].id == old(
                data,
            ).all_created_posts@[post_id].id
            &&& forall|s: u8|
                final(data).all_created_posts@[post_id].has_slot(s) <==> (old(
                    data,
                ).all_created_posts@[post_id].has_slot(s) && s != slot_id)
            &&& forall|p: u64|
                #[trigger] final(data).all_created_posts@.contains_key(p) && p != post_id
                    ==> final(data).all_created_posts@[p] == old(data).all_created_posts@[p]
        },
{
    let post_present = data.all_created_posts.contains_key(&post_id);
    if post_present {
        apply_slot_resolution(data, resolution);
        match data.all_created_posts.remove(&post_id) {
            Some(mut post) => {
                post.remove_slot(slot_id);
                data.all_created_posts.insert(post_id, post);
                proof {
                    assert(data.all_created_posts@.dom() =~= old(
                        data,
                    ).all_created_posts@.dom());
                }
            },
            None => {
                proof {
                    assert(false);
                }
            },
        }
    }
}

/// Settles one slot and notifies its participants.
///
/// Counts the slot's bets (the half-open scan) and returns the count
/// alongside the queued units; the host shell prices the advisory top-up
/// with [`recharge_amount_for_bets`] and requests it before this call. The
/// allocator's answer arrives as `recharge_result` only to be dropped — no
/// clause below mentions it, so a refusing allocator can never block
/// settlement. If the post is absent (deleted concurrently) nothing is
/// resolved and nothing removed — a silent no-op, not an error. Otherwise
/// the resolver's decisions are applied as one unit and the slot is struck
/// from the post's pending set. The notifier pass always runs, even when
/// nothing new was resolved, so that a later re-invocation can repair a
/// prior partial delivery.
pub fn tabulate_hot_or_not_outcome_for_post_slot(
    data: &mut CanisterData,
    post_id: u64,
    slot_id: u8,
    recharge_result: Result<(), String>,
    resolution: &SlotResolution,
    notification_results: Vec<Result<(), String>>,
) -> (r: (u64, Vec<NotificationUnit>))
    requires
        old(data).wf(),
        total_bets_in(slot_rooms_seq(old(data).room_details_map@, post_id, slot_id)) <= u64::MAX,
        notification_results@.len() == settled_notification_count(
            old(data).all_created_posts@,
            old(data).room_details_map@,
            old(data).bet_details_map@,
            post_id,
            slot_id,
            resolution.room_outcomes@,
            resolution.bet_payouts@,
        ),
    ensures
        final(data).wf(),
        r.0 == total_bets_in(slot_rooms_seq(old(data).room_details_map@, post_id, slot_id)),
        final(data).my_token_balance == old(data).my_token_balance,
        !old(data).all_created_posts@.contains_key(post_id) ==> {
            &&& final(data).room_details_map@ == old(data).room_details_map@
            &&& final(data).bet_details_map@ == old(data).bet_details_map@
            &&& final(data).all_created_posts@ == old(data).all_created_posts@
            &&& r.1@ == Seq::<NotificationUnit>::empty()
        },
        old(data).all_created_posts@.contains_key(post_id) ==> {
            &&& final(data).room_details_map@ == rooms_after_resolution(
                old(data).room_details_map@,
                resolution.room_outcomes@,
            )
            &&& r.1@ == notification_units_seq(
                rooms_after_resolution(old(data).room_details_map@, resolution.room_outcomes@),
                bets_after_resolution(old(data).bet_details_map@, resolution.bet_payouts@),
                post_id,
                slot_id,
            )
            &&& is_notification_units_seq(
                rooms_after_resolution(old(data).room_details_map@, resolution.room_outcomes@),
                bets_after_resolution(old(data).bet_details_map@, resolution.bet_payouts@),
                post_id,
                slot_id,
                r.1@,
            )
            &&& final(data).bet_details_map@ == bets_after_results(
                bets_after_resolution(old(data).bet_details_map@, resolution.bet_payouts@),
                r.1@,
                notification_results@,
            )
            &&& final(data).all_created_posts@.dom() == old(data).all_created_posts@.dom()
            &&& final(data).all_created_posts@[post_id].id == old(
                data,
            ).all_created_posts@[post_id].id
            &&& forall|s: u8|
                final(data).all_created_posts@[post_id].has_slot(s) <==> (old(
                    data,
                ).all_created_posts@[post_id].has_slot(s) && s != slot_id)
            &&& forall|p: u64|
                #[trigger] final(data).all_created_posts@.contains_key(p) && p != post_id
                    ==> final(data).all_created_posts@[p] == old(data).all_created_posts@[p]
        },
{
    let _ = recharge_result;
    let total_bets_placed_in_the_slot = count_bets_in_slot(data, post_id, slot_id);
    settle_slot(data, post_id, slot_id, resolution);
    let units = inform_participants_of_outcome(data, post_id, slot_id, notification_results);
    (total_bets_placed_in_the_slot, units)
}

} // verus!
