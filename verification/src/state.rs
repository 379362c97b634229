//! The per-instance state that settlement and notification operate on.
//!
//! Each handler invocation takes exclusive, scoped access to this state;
//! there is no ambient global. The host's cooperative scheduling is what
//! makes that sound: a handler runs uninterrupted between suspension points,
//! and every suspension (a remote call) happens outside these borrows.

use vstd::prelude::*;

use crate::post::Post;
use crate::store::{BetDetailsMap, RoomDetailsMap};
use crate::token::TokenBalance;

verus! {

/// The state of one service instance, as far as this core reads and
/// mutates it.
pub struct CanisterData {
    pub room_details_map: RoomDetailsMap,
    pub bet_details_map: BetDetailsMap,
    pub all_created_posts: std::collections::BTreeMap<u64, Post>,
    pub my_token_balance: TokenBalance,
}

impl CanisterData {
    /// Well-formedness of the two ordered tables and of every post's
    /// slot set.
    pub open spec fn wf(self) -> bool {
        &&& self.room_details_map.wf()
        &&& self.bet_details_map.wf()
        &&& forall|p: u64|
            #[trigger] self.all_created_posts@.contains_key(p)
                ==> self.all_created_posts@[p].wf()
    }

    /// Empty state: no rooms, no bets, no posts, a zero balance.
    pub fn new() -> (s: Self)
        ensures
            s.wf(),
            s.room_details_map@ =~= Map::<crate::ids::GlobalRoomId, crate::hot_or_not::RoomDetails>::empty(),
            s.bet_details_map@ =~= Map::<crate::ids::GlobalBetId, crate::hot_or_not::BetDetails>::empty(),
            s.all_created_posts@ =~= Map::<u64, Post>::empty(),
            s.my_token_balance.utility_token_balance == 0,
    {
        CanisterData {
            room_details_map: RoomDetailsMap::new(),
            bet_details_map: BetDetailsMap::new(),
            all_created_posts: std::collections::BTreeMap::new(),
            my_token_balance: TokenBalance { utility_token_balance: 0 },
        }
    }
}

} // verus!
