//! Composite identifiers for rooms and bets, with their lexicographic order.
//!
//! A room is addressed by `(post_id, slot_id, room_sequence)` and a bet by
//! `(room id, bet_sequence)`. All rooms and bets of one `(post_id, slot_id)`
//! pair occupy the contiguous key range
//! `[(post_id, slot_id, 1), (post_id, slot_id + 1, 1))`, because sequence
//! numbers start at 1.

use vstd::prelude::*;

verus! {

/// Identifier of a room: `(post_id, slot_id, room_sequence)`, ordered
/// lexicographically by that triple.
#[derive(Clone, Copy, Debug, PartialEq, Eq, Structural, Hash)]
pub struct GlobalRoomId(pub u64, pub u8, pub u64);

/// Identifier of a bet: the owning room's id plus a bet sequence number.
#[derive(Clone, Copy, Debug, PartialEq, Eq, Structural, Hash)]
pub struct GlobalBetId(pub GlobalRoomId, pub u64);

/// Strict lexicographic order on room identifiers.
pub open spec fn room_id_lt(a: GlobalRoomId, b: GlobalRoomId) -> bool {
    a.0 < b.0 || (a.0 == b.0 && (a.1 < b.1 || (a.1 == b.1 && a.2 < b.2)))
}

pub open spec fn room_id_le(a: GlobalRoomId, b: GlobalRoomId) -> bool {
    room_id_lt(a, b) || a == b
}

/// Strict lexicographic order on bet identifiers.
pub open spec fn bet_id_lt(a: GlobalBetId, b: GlobalBetId) -> bool {
    room_id_lt(a.0, b.0) || (a.0 == b.0 && a.1 < b.1)
}

/// A room id lies in the half-open range `[lo, hi)`.
pub open spec fn room_id_in_range(k: GlobalRoomId, lo: GlobalRoomId, hi: GlobalRoomId) -> bool {
    room_id_le(lo, k) && room_id_lt(k, hi)
}

/// A room id belongs to one slot of one post.
pub open spec fn in_slot(k: GlobalRoomId, post_id: u64, slot_id: u8) -> bool {
    k.0 == post_id && k.1 == slot_id
}

/// Range correctness at the id level: for keys whose room sequence is at
/// least 1 (the data model starts sequences at 1), membership in the
/// half-open scan range `[(post_id, slot_id, 1), (post_id, slot_id + 1, 1))`
/// is exactly agreement on the post and slot — for every slot id below the
/// largest one, where the exclusive bound would wrap.
pub proof fn lemma_slot_range_exact(k: GlobalRoomId, post_id: u64, slot_id: u8)
    requires
        k.2 >= 1,
        slot_id < u8::MAX,
    ensures
        room_id_in_range(
            k,
            GlobalRoomId(post_id, slot_id, 1),
            GlobalRoomId(post_id, (slot_id + 1) as u8, 1),
        ) <==> in_slot(k, post_id, slot_id),
{
}

/// Two sequences that are strictly ascending under the same
/// antisymmetric order and hold the same elements are equal. This is what
/// makes an ordered scan deterministic: its output is pinned by the
/// scanned contents alone, so repeating a scan with no intervening writes
/// repeats its result.
pub proof fn lemma_strictly_sorted_unique<A>(a: Seq<A>, b: Seq<A>, lt: spec_fn(A, A) -> bool)
    requires
        forall|i: int, j: int| 0 <= i < j < a.len() ==> lt(a[i], a[j]),
        forall|i: int, j: int| 0 <= i < j < b.len() ==> lt(b[i], b[j]),
        forall|x: A| a.contains(x) <==> b.contains(x),
        forall|x: A, y: A| !(#[trigger] lt(x, y) && lt(y, x)),
    ensures
        a =~= b,
    decreases a.len(),
{
    if a.len() == 0 {
        if b.len() > 0 {
            assert(b.contains(b[0]));
            assert(a.contains(b[0]));
        }
    } else {
        assert(a.contains(a[0]));
        assert(b.contains(a[0]));
        let k = choose|k: int| 0 <= k < b.len() && b[k] == a[0];
        assert(b.contains(b[0]));
        assert(a.contains(b[0]));
        let m = choose|m: int| 0 <= m < a.len() && a[m] == b[0];
        if k > 0 && m > 0 {
            assert(lt(b[0], b[k]));
            assert(lt(a[0], a[m]));
            assert(false);
        }
        assert(a[0] == b[0]);
        let at = a.drop_first();
        let bt = b.drop_first();
        assert forall|x: A| at.contains(x) implies bt.contains(x) by {
            let l = choose|l: int| 0 <= l < at.len() && at[l] == x;
            assert(a[l + 1] == x);
            assert(lt(a[0], x));
            assert(a.contains(x));
            assert(b.contains(x));
            let j = choose|j: int| 0 <= j < b.len() && b[j] == x;
            assert(j != 0);
            assert(bt[j - 1] == x);
        }
        assert forall|x: A| bt.contains(x) implies at.contains(x) by {
            let l = choose|l: int| 0 <= l < bt.len() && bt[l] == x;
            assert(b[l + 1] == x);
            assert(lt(b[0], x));
            assert(b.contains(x));
            assert(a.contains(x));
            let j = choose|j: int| 0 <= j < a.len() && a[j] == x;
            assert(j != 0);
            assert(at[j - 1] == x);
        }
        assert forall|i: int, j: int| 0 <= i < j < at.len() implies lt(at[i], at[j]) by {
            assert(at[i] == a[i + 1] && at[j] == a[j + 1]);
        }
        assert forall|i: int, j: int| 0 <= i < j < bt.len() implies lt(bt[i], bt[j]) by {
            assert(bt[i] == b[i + 1] && bt[j] == b[j + 1]);
        }
        lemma_strictly_sorted_unique(at, bt, lt);
        assert forall|i: int| 0 <= i < a.len() implies a[i] == b[i] by {
            if i > 0 {
                assert(at[i - 1] == bt[i - 1]);
            }
        }
    }
}

} // verus!
