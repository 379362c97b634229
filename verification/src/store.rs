//! The ordered room and bet tables.
//!
//! Each table pairs an ordered index from composite ids to slots in a plain
//! side vector with the vector itself. The index is the stable-memory B-tree
//! of `ic_stable_structures`, held opaquely behind trusted operations whose
//! contracts state what the B-tree's own source shows: point lookup, point
//! insert, and in-order key scans. Ids travel to the B-tree as their
//! big-endian byte encoding, whose byte-wise lexicographic order agrees with
//! the lexicographic order on the id triples, so the B-tree's byte order is
//! exactly `room_id_lt` / `bet_id_lt` on decoded ids.
//!
//! Everything above the index — bounds into the side vector, the room/bet
//! values themselves, the half-open slot scan and its wrap-around policy at
//! the largest slot id — is verified.

use vstd::prelude::*;

use crate::hot_or_not::{
    BetDetails, BetDirection, BetMakerInformedStatus, BetPayout, RoomBetPossibleOutcomes,
    RoomDetails,
};
use crate::principal::PrincipalId;
use crate::ids::{
    bet_id_lt, in_slot, lemma_slot_range_exact, room_id_in_range, room_id_lt, GlobalBetId,
    GlobalRoomId,
};

verus! {

// ---------------------------------------------------------------------------
// Byte encodings of the composite ids (big-endian, order-preserving).
// ---------------------------------------------------------------------------

#[allow(dead_code)]
fn push_be_u64(b: &mut Vec<u8>, x: u64) {
    b.push(((x >> 56) & 0xff) as u8);
    b.push(((x >> 48) & 0xff) as u8);
    b.push(((x >> 40) & 0xff) as u8);
    b.push(((x >> 32) & 0xff) as u8);
    b.push(((x >> 24) & 0xff) as u8);
    b.push(((x >> 16) & 0xff) as u8);
    b.push(((x >> 8) & 0xff) as u8);
    b.push((x & 0xff) as u8);
}

#[allow(dead_code)]
fn be_u64_at(b: &Vec<u8>, off: usize) -> u64
    requires
        off + 8 <= b@.len(),
{
    let _n = b.len();
    ((b[off] as u64) << 56) | ((b[off + 1] as u64) << 48) | ((b[off + 2] as u64) << 40) | ((b[off
        + 3] as u64) << 32) | ((b[off + 4] as u64) << 24) | ((b[off + 5] as u64) << 16) | ((b[off
        + 6] as u64) << 8) | (b[off + 7] as u64)
}

#[allow(dead_code)]
fn encode_room_key(k: &GlobalRoomId) -> Vec<u8> {
    let mut b: Vec<u8> = Vec::new();
    push_be_u64(&mut b, k.0);
    b.push(k.1);
    push_be_u64(&mut b, k.2);
    b
}

#[allow(dead_code)]
fn decode_room_key(b: &Vec<u8>) -> GlobalRoomId {
    if b.len() != 17 {
        GlobalRoomId(0, 0, 1)
    } else {
        GlobalRoomId(be_u64_at(b, 0), b[8], be_u64_at(b, 9))
    }
}

#[allow(dead_code)]
fn encode_bet_key(k: &GlobalBetId) -> Vec<u8> {
    let mut b = encode_room_key(&k.0);
    push_be_u64(&mut b, k.1);
    b
}

#[allow(dead_code)]
fn decode_bet_key(b: &Vec<u8>) -> GlobalBetId {
    if b.len() != 25 {
        GlobalBetId(GlobalRoomId(0, 0, 1), 1)
    } else {
        GlobalBetId(GlobalRoomId(be_u64_at(b, 0), b[8], be_u64_at(b, 9)), be_u64_at(b, 17))
    }
}

// ---------------------------------------------------------------------------
// Trusted index over the stable-structures B-tree: room ids.
// ---------------------------------------------------------------------------

/// Ordered index from room ids to side-vector slots, backed by
/// `ic_stable_structures::btreemap::BTreeMap` over an in-memory vector.
/// The B-tree's memory parameter is a type Verus refuses, so the whole field
/// is hidden and the index is reasoned about only through
/// `room_index_contents` and the trusted operations below.
#[verifier::external_body]
pub struct RoomIndex {
    inner: ic_stable_structures::btreemap::BTreeMap<
        Vec<u8>,
        u64,
        ic_stable_structures::VectorMemory,
    >,
}

/// What the room index holds: the map from (decoded) room ids to slots.
pub uninterp spec fn room_index_contents(m: RoomIndex) -> Map<GlobalRoomId, u64>;

/// Relies on `ic_stable_structures::btreemap::BTreeMap::new`: a map over a
/// fresh memory is empty.
#[verifier::external_body]
fn room_index_new() -> (m: RoomIndex)
    ensures
        forall|k: GlobalRoomId| !room_index_contents(m).contains_key(k),
{
    RoomIndex {
        inner: ic_stable_structures::btreemap::BTreeMap::new(
            ic_stable_structures::VectorMemory::default(),
        ),
    }
}

/// Relies on `ic_stable_structures::btreemap::BTreeMap::insert`: inserts the
/// key-value pair, overwriting any previous value of the key.
#[verifier::external_body]
fn room_index_insert(m: &mut RoomIndex, k: &GlobalRoomId, slot: u64)
    ensures
        room_index_contents(*final(m)) == room_index_contents(*old(m)).insert(*k, slot),
{
    m.inner.insert(encode_room_key(k), slot);
}

/// Relies on `ic_stable_structures::btreemap::BTreeMap::get`: returns the
/// value of the key, or `None` if the key is absent.
#[verifier::external_body]
fn room_index_get(m: &RoomIndex, k: &GlobalRoomId) -> (r: Option<u64>)
    ensures
        match r {
            Some(slot) => room_index_contents(*m).contains_key(*k) && slot == room_index_contents(
                *m,
            )[*k],
            None => !room_index_contents(*m).contains_key(*k),
        },
{
    m.inner.get(&encode_room_key(k))
}

/// Relies on `ic_stable_structures::btreemap::BTreeMap::range`: yields
/// exactly the entries whose key lies in the half-open byte range, in
/// ascending key order — which, through the order-preserving encoding, is
/// exactly the half-open `room_id_lt` range on decoded ids.
#[verifier::external_body]
fn room_index_keys_in_range(m: &RoomIndex, lo: &GlobalRoomId, hi: &GlobalRoomId) -> (out: Vec<
    GlobalRoomId,
>)
    ensures
        forall|i: int, j: int| 0 <= i < j < out@.len() ==> room_id_lt(out@[i], out@[j]),
        forall|i: int|
            0 <= i < out@.len() ==> room_index_contents(*m).contains_key(#[trigger] out@[i])
                && room_id_in_range(out@[i], *lo, *hi),
        forall|k: GlobalRoomId|
            room_index_contents(*m).contains_key(k) && room_id_in_range(k, *lo, *hi)
                ==> out@.contains(k),
{
    m.inner.range(encode_room_key(lo)..encode_room_key(hi)).map(|e| decode_room_key(&e.0)).collect()
}

/// Relies on `ic_stable_structures::btreemap::BTreeMap::iter`: yields every
/// entry, in ascending key order.
#[verifier::external_body]
fn room_index_keys(m: &RoomIndex) -> (out: Vec<GlobalRoomId>)
    ensures
        forall|i: int, j: int| 0 <= i < j < out@.len() ==> room_id_lt(out@[i], out@[j]),
        forall|i: int|
            0 <= i < out@.len() ==> room_index_contents(*m).contains_key(#[trigger] out@[i]),
        forall|k: GlobalRoomId| room_index_contents(*m).contains_key(k) ==> out@.contains(k),
{
    m.inner.iter().map(|e| decode_room_key(&e.0)).collect()
}

// ---------------------------------------------------------------------------
// Trusted index over the stable-structures B-tree: bet ids.
// ---------------------------------------------------------------------------

/// Ordered index from bet ids to side-vector slots; the bet-side twin of
/// [`RoomIndex`], backed the same way.
#[verifier::external_body]
pub struct BetIndex {
    inner: ic_stable_structures::btreemap::BTreeMap<
        Vec<u8>,
        u64,
        ic_stable_structures::VectorMemory,
    >,
}

/// What the bet index holds: the map from (decoded) bet ids to slots.
pub uninterp spec fn bet_index_contents(m: BetIndex) -> Map<GlobalBetId, u64>;

/// Relies on `ic_stable_structures::btreemap::BTreeMap::new`: a map over a
/// fresh memory is empty.
#[verifier::external_body]
fn bet_index_new() -> (m: BetIndex)
    ensures
        forall|k: GlobalBetId| !bet_index_contents(m).contains_key(k),
{
    BetIndex {
        inner: ic_stable_structures::btreemap::BTreeMap::new(
            ic_stable_structures::VectorMemory::default(),
        ),
    }
}

/// Relies on `ic_stable_structures::btreemap::BTreeMap::insert`: inserts the
/// key-value pair, overwriting any previous value of the key.
#[verifier::external_body]
fn bet_index_insert(m: &mut BetIndex, k: &GlobalBetId, slot: u64)
    ensures
        bet_index_contents(*final(m)) == bet_index_contents(*old(m)).insert(*k, slot),
{
    m.inner.insert(encode_bet_key(k), slot);
}

/// Relies on `ic_stable_structures::btreemap::BTreeMap::get`: returns the
/// value of the key, or `None` if the key is absent.
#[verifier::external_body]
fn bet_index_get(m: &BetIndex, k: &GlobalBetId) -> (r: Option<u64>)
    ensures
        match r {
            Some(slot) => bet_index_contents(*m).contains_key(*k) && slot == bet_index_contents(
                *m,
            )[*k],
            None => !bet_index_contents(*m).contains_key(*k),
        },
{
    m.inner.get(&encode_bet_key(k))
}

/// Relies on `ic_stable_structures::btreemap::BTreeMap::iter`: yields every
/// entry, in ascending key order.
#[verifier::external_body]
fn bet_index_keys(m: &BetIndex) -> (out: Vec<GlobalBetId>)
    ensures
        forall|i: int, j: int| 0 <= i < j < out@.len() ==> bet_id_lt(out@[i], out@[j]),
        forall|i: int|
            0 <= i < out@.len() ==> bet_index_contents(*m).contains_key(#[trigger] out@[i]),
        forall|k: GlobalBetId| bet_index_contents(*m).contains_key(k) ==> out@.contains(k),
{
    m.inner.iter().map(|e| decode_bet_key(&e.0)).collect()
}


// ---------------------------------------------------------------------------
// Verified room table.
// ---------------------------------------------------------------------------

/// What the slot scan's output looks like: strictly ascending by room id,
/// sound (every entry is a stored room of the slot, with its stored
/// details) and complete (every stored room of the slot appears).
pub open spec fn is_slot_rooms_seq(
    m: Map<GlobalRoomId, RoomDetails>,
    post_id: u64,
    slot_id: u8,
    q: Seq<(GlobalRoomId, RoomDetails)>,
) -> bool {
    &&& forall|i: int, j: int| 0 <= i < j < q.len() ==> room_id_lt(q[i].0, q[j].0)
    &&& forall|i: int|
        0 <= i < q.len() ==> in_slot((#[trigger] q[i]).0, post_id, slot_id) && m.contains_key(
            q[i].0,
        ) && q[i].1 == m[q[i].0]
    &&& forall|k: GlobalRoomId|
        m.contains_key(k) && in_slot(k, post_id, slot_id) ==> exists|i: int|
            0 <= i < q.len() && q[i].0 == k
}

/// The rooms of one slot in ascending id order: the unique sequence
/// satisfying [`is_slot_rooms_seq`]. Scans are idempotent because their
/// output equals this function of the scanned contents alone.
pub open spec fn slot_rooms_seq(
    m: Map<GlobalRoomId, RoomDetails>,
    post_id: u64,
    slot_id: u8,
) -> Seq<(GlobalRoomId, RoomDetails)> {
    choose|q: Seq<(GlobalRoomId, RoomDetails)>| is_slot_rooms_seq(m, post_id, slot_id, q)
}

/// Only one sequence satisfies [`is_slot_rooms_seq`].
pub proof fn lemma_slot_rooms_seq_unique(
    m: Map<GlobalRoomId, RoomDetails>,
    post_id: u64,
    slot_id: u8,
    q1: Seq<(GlobalRoomId, RoomDetails)>,
    q2: Seq<(GlobalRoomId, RoomDetails)>,
)
    requires
        is_slot_rooms_seq(m, post_id, slot_id, q1),
        is_slot_rooms_seq(m, post_id, slot_id, q2),
    ensures
        q1 =~= q2,
{
    assert forall|x: (GlobalRoomId, RoomDetails)| q1.contains(x) implies q2.contains(x) by {
        let i = choose|i: int| 0 <= i < q1.len() && q1[i] == x;
        let j = choose|j: int| 0 <= j < q2.len() && q2[j].0 == x.0;
        assert(q2[j] == x);
    }
    assert forall|x: (GlobalRoomId, RoomDetails)| q2.contains(x) implies q1.contains(x) by {
        let i = choose|i: int| 0 <= i < q2.len() && q2[i] == x;
        let j = choose|j: int| 0 <= j < q1.len() && q1[j].0 == x.0;
        assert(q1[j] == x);
    }
    crate::ids::lemma_strictly_sorted_unique(
        q1,
        q2,
        (|x: (GlobalRoomId, RoomDetails), y: (GlobalRoomId, RoomDetails)| room_id_lt(x.0, y.0)),
    );
}

/// The ordered room table: an index from room ids to slots of a side vector
/// holding the room details. Viewed as a map from room ids to details.
pub struct RoomDetailsMap {
    index: RoomIndex,
    details: Vec<RoomDetails>,
}

impl RoomDetailsMap {
    /// The index's contents.
    pub closed spec fn contents(self) -> Map<GlobalRoomId, u64> {
        room_index_contents(self.index)
    }

    /// Well-formedness: every index slot is in bounds, distinct ids use
    /// distinct slots, and every stored room sequence is at least 1 — the
    /// data-model invariant that makes the half-open slot scan exact.
    pub closed spec fn wf(self) -> bool {
        &&& forall|k: GlobalRoomId|
            #[trigger] self.contents().contains_key(k) ==> self.contents()[k]
                < self.details@.len()
        &&& forall|k1: GlobalRoomId, k2: GlobalRoomId|
            #![trigger self.contents()[k1], self.contents()[k2]]
            self.contents().contains_key(k1) && self.contents().contains_key(k2) && k1 != k2
                ==> self.contents()[k1] != self.contents()[k2]
        &&& forall|k: GlobalRoomId| #[trigger] self.contents().contains_key(k) ==> k.2 >= 1
    }

    /// An empty room table.
    pub fn new() -> (s: Self)
        ensures
            s.wf(),
            s@ =~= Map::<GlobalRoomId, RoomDetails>::empty(),
    {
        let s = RoomDetailsMap { index: room_index_new(), details: Vec::new() };
        proof {
            assert(s@ =~= Map::<GlobalRoomId, RoomDetails>::empty());
        }
        s
    }

    /// Point lookup.
    pub fn get(&self, k: &GlobalRoomId) -> (r: Option<&RoomDetails>)
        requires
            self.wf(),
        ensures
            match r {
                Some(v) => self@.contains_key(*k) && *v == self@[*k],
                None => !self@.contains_key(*k),
            },
    {
        let _n = self.details.len();
        match room_index_get(&self.index, k) {
            Some(slot) => {
                proof {
                    assert(self.contents().contains_key(*k));
                    assert(self.contents()[*k] < self.details@.len());
                }
                let i = slot as usize;
                Some(&self.details[i])
            },
            None => None,
        }
    }

    /// Point insert or update.
    pub fn insert(&mut self, k: GlobalRoomId, v: RoomDetails)
        requires
            old(self).wf(),
            k.2 >= 1,
        ensures
            final(self).wf(),
            final(self)@ =~= old(self)@.insert(k, v),
    {
        let n = self.details.len();
        match room_index_get(&self.index, &k) {
            Some(slot) => {
                proof {
                    assert(self.contents().contains_key(k));
                    assert(self.contents()[k] < self.details@.len());
                }
                let i = slot as usize;
                self.details[i] = v;
                proof {
                    assert forall|k2: GlobalRoomId| #[trigger]
                        self.contents().contains_key(k2) && k2 != k implies self@[k2] == old(
                        self,
                    )@[k2] by {
                        assert(self.contents()[k2] != self.contents()[k]);
                    }
                    assert(self@ =~= old(self)@.insert(k, v));
                }
            },
            None => {
                let slot = n as u64;
                self.details.push(v);
                room_index_insert(&mut self.index, &k, slot);
                proof {
                    assert(self@ =~= old(self)@.insert(k, v));
                }
            },
        }
    }

    /// Updates the resolved outcome of one room; a silent no-op if the room
    /// is absent.
    pub fn set_outcome(&mut self, k: &GlobalRoomId, outcome: RoomBetPossibleOutcomes)
        requires
            old(self).wf(),
        ensures
            final(self).wf(),
            old(self)@.contains_key(*k) ==> final(self)@ =~= old(self)@.insert(*k, (RoomDetails {
                bet_outcome: outcome,
                ..old(self)@[*k]
            })),
            !old(self)@.contains_key(*k) ==> final(self)@ =~= old(self)@,
    {
        let _n = self.details.len();
        match room_index_get(&self.index, k) {
            Some(slot) => {
                proof {
                    assert(self.contents().contains_key(*k));
                    assert(self.contents()[*k] < self.details@.len());
                }
                let i = slot as usize;
                let d = self.details[i];
                self.details[i] = RoomDetails { bet_outcome: outcome, ..d };
                proof {
                    assert forall|k2: GlobalRoomId| #[trigger]
                        self.contents().contains_key(k2) && k2 != *k implies self@[k2] == old(
                        self,
                    )@[k2] by {
                        assert(self.contents()[k2] != self.contents()[*k]);
                    }
                    assert(self@ =~= old(self)@.insert(*k, (RoomDetails {
                        bet_outcome: outcome,
                        ..old(self)@[*k]
                    })));
                }
            },
            None => {},
        }
    }

    /// The ids of the rooms of one slot, ascending; the scan behind
    /// [`Self::rooms_in_slot`].
    #[verifier::loop_isolation(false)]
    fn slot_room_ids(&self, post_id: u64, slot_id: u8) -> (ids: Vec<GlobalRoomId>)
        requires
            self.wf(),
        ensures
            forall|i: int, j: int| 0 <= i < j < ids@.len() ==> room_id_lt(ids@[i], ids@[j]),
            forall|i: int|
                0 <= i < ids@.len() ==> self@.contains_key(#[trigger] ids@[i]) && in_slot(
                    ids@[i],
                    post_id,
                    slot_id,
                ),
            forall|k: GlobalRoomId|
                self@.contains_key(k) && in_slot(k, post_id, slot_id) ==> ids@.contains(k),
    {
        if slot_id < u8::MAX {
            let lo = GlobalRoomId(post_id, slot_id, 1);
            let hi = GlobalRoomId(post_id, slot_id + 1, 1);
            let r = room_index_keys_in_range(&self.index, &lo, &hi);
            proof {
                assert forall|i: int| 0 <= i < r@.len() implies self@.contains_key(
                    #[trigger] r@[i],
                ) && in_slot(r@[i], post_id, slot_id) by {
                    assert(self.contents().contains_key(r@[i]));
                    lemma_slot_range_exact(r@[i], post_id, slot_id);
                }
                assert forall|k: GlobalRoomId|
                    self@.contains_key(k) && in_slot(k, post_id, slot_id) implies r@.contains(
                    k,
                ) by {
                    assert(self.contents().contains_key(k));
                    lemma_slot_range_exact(k, post_id, slot_id);
                }
            }
            r
        } else {
            let all = room_index_keys(&self.index);
            let mut kept: Vec<GlobalRoomId> = Vec::new();
            let ghost mut src: Seq<int> = Seq::empty();
            let mut i: usize = 0;
            while i < all.len()
                invariant
                    i <= all@.len(),
                    src.len() == kept@.len(),
                    forall|l: int| 0 <= l < src.len() ==> 0 <= #[trigger] src[l] < i as int,
                    forall|l: int|
                        0 <= l < src.len() ==> kept@[l] == all@[#[trigger] src[l]] && in_slot(
                            all@[src[l]],
                            post_id,
                            slot_id,
                        ),
                    forall|a: int, b: int| 0 <= a < b < src.len() ==> src[a] < src[b],
                    forall|j: int|
                        0 <= j < i as int && in_slot(#[trigger] all@[j], post_id, slot_id)
                            ==> exists|l: int| 0 <= l < src.len() && src[l] == j,
                decreases all@.len() - i,
            {
                let k = all[i];
                if k.0 == post_id && k.1 == slot_id {
                    kept.push(k);
                    proof {
                        let prev = src;
                        src = src.push(i as int);
                        assert forall|j: int|
                            0 <= j < i as int + 1 && in_slot(
                                #[trigger] all@[j],
                                post_id,
                                slot_id,
                            ) implies exists|l: int| 0 <= l < src.len() && src[l] == j by {
                            if j < i as int {
                                let l0 = choose|l: int|
                                    0 <= l < prev.len() && prev[l] == j;
                                assert(src[l0] == j);
                            } else {
                                assert(src[src.len() - 1] == i as int);
                            }
                        }
                    }
                } else {
                    proof {
                        assert(!in_slot(all@[i as int], post_id, slot_id));
                    }
                }
                i = i + 1;
            }
            proof {
                assert forall|a: int, b: int| 0 <= a < b < kept@.len() implies room_id_lt(
                    kept@[a],
                    kept@[b],
                ) by {
                    assert(kept@[a] == all@[src[a]] && kept@[b] == all@[src[b]]);
                    assert(src[a] < src[b]);
                }
                assert forall|l: int| 0 <= l < kept@.len() implies self@.contains_key(
                    #[trigger] kept@[l],
                ) && in_slot(kept@[l], post_id, slot_id) by {
                    assert(kept@[l] == all@[src[l]]);
                    assert(self.contents().contains_key(all@[src[l]]));
                }
                assert forall|k: GlobalRoomId|
                    self@.contains_key(k) && in_slot(k, post_id, slot_id) implies kept@.contains(
                    k,
                ) by {
                    assert(self.contents().contains_key(k));
                    assert(all@.contains(k));
                    let j = choose|j: int| 0 <= j < all@.len() && all@[j] == k;
                    let l = choose|l: int| 0 <= l < src.len() && src[l] == j;
                    assert(kept@[l] == k);
                }
            }
            kept
        }
    }

    /// The half-open slot scan: every room of `(post_id, slot_id)`, in
    /// ascending id order, paired with its details.
    ///
    /// For every slot id below the largest one this is the scan over
    /// `[(post_id, slot_id, 1), (post_id, slot_id + 1, 1))`; at the largest
    /// slot id the exclusive bound would wrap, so the scan is taken as
    /// unbounded above and narrowed to the slot — the same set of rooms the
    /// half-open bound describes everywhere else.
    #[verifier::loop_isolation(false)]
    pub fn rooms_in_slot(&self, post_id: u64, slot_id: u8) -> (out: Vec<
        (GlobalRoomId, RoomDetails),
    >)
        requires
            self.wf(),
        ensures
            forall|i: int, j: int| 0 <= i < j < out@.len() ==> room_id_lt(out@[i].0, out@[j].0),
            forall|i: int|
                0 <= i < out@.len() ==> {
                    &&& in_slot((#[trigger] out@[i]).0, post_id, slot_id)
                    &&& self@.contains_key(out@[i].0)
                    &&& out@[i].1 == self@[out@[i].0]
                },
            forall|k: GlobalRoomId|
                self@.contains_key(k) && in_slot(k, post_id, slot_id) ==> exists|i: int|
                    0 <= i < out@.len() && out@[i].0 == k,
            out@ == slot_rooms_seq(self@, post_id, slot_id),
    {
        let ids = self.slot_room_ids(post_id, slot_id);
        let mut out: Vec<(GlobalRoomId, RoomDetails)> = Vec::new();
        let mut i: usize = 0;
        while i < ids.len()
            invariant
                i <= ids@.len(),
                out@.len() == i,
                forall|l: int|
                    0 <= l < i as int ==> (#[trigger] out@[l]).0 == ids@[l] && out@[l].1
                        == self@[ids@[l]],
            decreases ids@.len() - i,
        {
            let id = ids[i];
            match self.get(&id) {
                Some(v) => {
                    out.push((id, *v));
                },
                None => {
                    proof {
                        assert(false);
                    }
                },
            }
            i = i + 1;
        }
        proof {
            assert forall|k: GlobalRoomId|
                self@.contains_key(k) && in_slot(k, post_id, slot_id) implies exists|i: int|
                0 <= i < out@.len() && out@[i].0 == k by {
                assert(ids@.contains(k));
                let j = choose|j: int| 0 <= j < ids@.len() && ids@[j] == k;
                assert(out@[j].0 == k);
            }
            assert(is_slot_rooms_seq(self@, post_id, slot_id, out@));
            let q = slot_rooms_seq(self@, post_id, slot_id);
            assert(is_slot_rooms_seq(self@, post_id, slot_id, q));
            lemma_slot_rooms_seq_unique(self@, post_id, slot_id, out@, q);
        }
        out
    }
}

impl View for RoomDetailsMap {
    type V = Map<GlobalRoomId, RoomDetails>;

    closed spec fn view(&self) -> Map<GlobalRoomId, RoomDetails> {
        Map::new(
            |k: GlobalRoomId| self.contents().contains_key(k),
            |k: GlobalRoomId| self.details@[self.contents()[k] as int],
        )
    }
}

// ---------------------------------------------------------------------------
// Verified bet table.
// ---------------------------------------------------------------------------

/// The ordered bet table: an index from bet ids to slots of a side vector
/// holding the bet details. Viewed as a map from bet ids to details.
pub struct BetDetailsMap {
    index: BetIndex,
    details: Vec<BetDetails>,
}

impl BetDetailsMap {
    /// The index's contents.
    pub closed spec fn contents(self) -> Map<GlobalBetId, u64> {
        bet_index_contents(self.index)
    }

    /// Well-formedness: every index slot is in bounds and distinct ids use
    /// distinct slots.
    pub closed spec fn wf(self) -> bool {
        &&& forall|k: GlobalBetId|
            #[trigger] self.contents().contains_key(k) ==> self.contents()[k]
                < self.details@.len()
        &&& forall|k1: GlobalBetId, k2: GlobalBetId|
            #![trigger self.contents()[k1], self.contents()[k2]]
            self.contents().contains_key(k1) && self.contents().contains_key(k2) && k1 != k2
                ==> self.contents()[k1] != self.contents()[k2]
    }

    /// An empty bet table.
    pub fn new() -> (s: Self)
        ensures
            s.wf(),
            s@ =~= Map::<GlobalBetId, BetDetails>::empty(),
    {
        let s = BetDetailsMap { index: bet_index_new(), details: Vec::new() };
        proof {
            assert(s@ =~= Map::<GlobalBetId, BetDetails>::empty());
        }
        s
    }

    /// Point lookup.
    pub fn get(&self, k: &GlobalBetId) -> (r: Option<&BetDetails>)
        requires
            self.wf(),
        ensures
            match r {
                Some(v) => self@.contains_key(*k) && *v == self@[*k],
                None => !self@.contains_key(*k),
            },
    {
        let _n = self.details.len();
        match bet_index_get(&self.index, k) {
            Some(slot) => {
                proof {
                    assert(self.contents().contains_key(*k));
                    assert(self.contents()[*k] < self.details@.len());
                }
                let i = slot as usize;
                Some(&self.details[i])
            },
            None => None,
        }
    }

    /// Point insert or update.
    pub fn insert(&mut self, k: GlobalBetId, v: BetDetails)
        requires
            old(self).wf(),
        ensures
            final(self).wf(),
            final(self)@ =~= old(self)@.insert(k, v),
    {
        let n = self.details.len();
        match bet_index_get(&self.index, &k) {
            Some(slot) => {
                proof {
                    assert(self.contents().contains_key(k));
                    assert(self.contents()[k] < self.details@.len());
                }
                let i = slot as usize;
                self.details[i] = v;
                proof {
                    assert forall|k2: GlobalBetId| #[trigger]
                        self.contents().contains_key(k2) && k2 != k implies self@[k2] == old(
                        self,
                    )@[k2] by {
                        assert(self.contents()[k2] != self.contents()[k]);
                    }
                    assert(self@ =~= old(self)@.insert(k, v));
                }
            },
            None => {
                let slot = n as u64;
                self.details.push(v);
                bet_index_insert(&mut self.index, &k, slot);
                proof {
                    assert(self@ =~= old(self)@.insert(k, v));
                }
            },
        }
    }

    /// Sets the payout of one bet; a silent no-op if the bet is absent.
    pub fn set_payout(&mut self, k: &GlobalBetId, payout: BetPayout)
        requires
            old(self).wf(),
        ensures
            final(self).wf(),
            old(self)@.contains_key(*k) ==> final(self)@ =~= old(self)@.insert(*k, (BetDetails {
                bet_direction: old(self)@[*k].bet_direction,
                payout: payout,
                bet_maker_canister_id: old(self)@[*k].bet_maker_canister_id,
                bet_maker_informed_status: old(self)@[*k].bet_maker_informed_status,
            })),
            !old(self)@.contains_key(*k) ==> final(self)@ =~= old(self)@,
    {
        let _n = self.details.len();
        match bet_index_get(&self.index, k) {
            Some(slot) => {
                proof {
                    assert(self.contents().contains_key(*k));
                    assert(self.contents()[*k] < self.details@.len());
                }
                let i = slot as usize;
                let mut taken = BetDetails {
                    bet_direction: BetDirection::Hot,
                    payout: BetPayout::Uncalculated,
                    bet_maker_canister_id: PrincipalId(0),
                    bet_maker_informed_status: None,
                };
                core::mem::swap(&mut taken, &mut self.details[i]);
                self.details[i] = BetDetails {
                    bet_direction: taken.bet_direction,
                    payout: payout,
                    bet_maker_canister_id: taken.bet_maker_canister_id,
                    bet_maker_informed_status: taken.bet_maker_informed_status,
                };
                proof {
                    assert forall|k2: GlobalBetId| #[trigger]
                        self.contents().contains_key(k2) && k2 != *k implies self@[k2] == old(
                        self,
                    )@[k2] by {
                        assert(self.contents()[k2] != self.contents()[*k]);
                    }
                    assert(self@ =~= old(self)@.insert(*k, (BetDetails {
                        bet_direction: old(self)@[*k].bet_direction,
                        payout: payout,
                        bet_maker_canister_id: old(self)@[*k].bet_maker_canister_id,
                        bet_maker_informed_status: old(self)@[*k].bet_maker_informed_status,
                    })));
                }
            },
            None => {},
        }
    }

    /// Records the delivery status of the outcome notification for one bet;
    /// a silent no-op if the bet has disappeared in the meantime.
    pub fn set_informed_status(&mut self, k: &GlobalBetId, status: BetMakerInformedStatus)
        requires
            old(self).wf(),
        ensures
            final(self).wf(),
            old(self)@.contains_key(*k) ==> final(self)@ =~= old(self)@.insert(*k, (BetDetails {
                bet_direction: old(self)@[*k].bet_direction,
                payout: old(self)@[*k].payout,
                bet_maker_canister_id: old(self)@[*k].bet_maker_canister_id,
                bet_maker_informed_status: Some(status),
            })),
            !old(self)@.contains_key(*k) ==> final(self)@ =~= old(self)@,
    {
        let _n = self.details.len();
        match bet_index_get(&self.index, k) {
            Some(slot) => {
                proof {
                    assert(self.contents().contains_key(*k));
                    assert(self.contents()[*k] < self.details@.len());
                }
                let i = slot as usize;
                let direction = self.details[i].bet_direction;
                let payout = self.details[i].payout;
                let maker = self.details[i].bet_maker_canister_id;
                self.details[i] = BetDetails {
                    bet_direction: direction,
                    payout: payout,
                    bet_maker_canister_id: maker,
                    bet_maker_informed_status: Some(status),
                };
                proof {
                    assert forall|k2: GlobalBetId| #[trigger]
                        self.contents().contains_key(k2) && k2 != *k implies self@[k2] == old(
                        self,
                    )@[k2] by {
                        assert(self.contents()[k2] != self.contents()[*k]);
                    }
                    assert(self@ =~= old(self)@.insert(*k, (BetDetails {
                        bet_direction: old(self)@[*k].bet_direction,
                        payout: old(self)@[*k].payout,
                        bet_maker_canister_id: old(self)@[*k].bet_maker_canister_id,
                        bet_maker_informed_status: Some(status),
                    })));
                }
            },
            None => {},
        }
    }

    /// The ids of every bet of one room, in ascending id order — the scan
    /// over the whole bet table narrowed to the room.
    #[verifier::loop_isolation(false)]
    pub fn bet_ids_in_room(&self, room_id: &GlobalRoomId) -> (ids: Vec<GlobalBetId>)
        requires
            self.wf(),
        ensures
            forall|i: int, j: int| 0 <= i < j < ids@.len() ==> bet_id_lt(ids@[i], ids@[j]),
            forall|i: int|
                0 <= i < ids@.len() ==> self@.contains_key(#[trigger] ids@[i]) && ids@[i].0
                    == *room_id,
            forall|k: GlobalBetId|
                self@.contains_key(k) && k.0 == *room_id ==> ids@.contains(k),
    {
        let all = bet_index_keys(&self.index);
        let mut kept: Vec<GlobalBetId> = Vec::new();
        let ghost mut src: Seq<int> = Seq::empty();
        let mut i: usize = 0;
        while i < all.len()
            invariant
                i <= all@.len(),
                src.len() == kept@.len(),
                forall|l: int| 0 <= l < src.len() ==> 0 <= #[trigger] src[l] < i as int,
                forall|l: int|
                    0 <= l < src.len() ==> kept@[l] == all@[#[trigger] src[l]] && all@[src[l]].0
                        == *room_id,
                forall|a: int, b: int| 0 <= a < b < src.len() ==> src[a] < src[b],
                forall|j: int|
                    0 <= j < i as int && (#[trigger] all@[j]).0 == *room_id ==> exists|l: int|
                        0 <= l < src.len() && src[l] == j,
            decreases all@.len() - i,
        {
            let k = all[i];
            if k.0 == *room_id {
                kept.push(k);
                proof {
                    let prev = src;
                    src = src.push(i as int);
                    assert forall|j: int|
                        0 <= j < i as int + 1 && (#[trigger] all@[j]).0 == *room_id implies exists|
                        l: int,
                    | 0 <= l < src.len() && src[l] == j by {
                        if j < i as int {
                            let l0 = choose|l: int| 0 <= l < prev.len() && prev[l] == j;
                            assert(src[l0] == j);
                        } else {
                            assert(src[src.len() - 1] == i as int);
                        }
                    }
                }
            }
            i = i + 1;
        }
        proof {
            assert forall|a: int, b: int| 0 <= a < b < kept@.len() implies bet_id_lt(
                kept@[a],
                kept@[b],
            ) by {
                assert(kept@[a] == all@[src[a]] && kept@[b] == all@[src[b]]);
                assert(src[a] < src[b]);
            }
            assert forall|l: int| 0 <= l < kept@.len() implies self@.contains_key(
                #[trigger] kept@[l],
            ) && kept@[l].0 == *room_id by {
                assert(kept@[l] == all@[src[l]]);
                assert(self.contents().contains_key(all@[src[l]]));
            }
            assert forall|k: GlobalBetId|
                self@.contains_key(k) && k.0 == *room_id implies kept@.contains(k) by {
                assert(self.contents().contains_key(k));
                assert(all@.contains(k));
                let j = choose|j: int| 0 <= j < all@.len() && all@[j] == k;
                let l = choose|l: int| 0 <= l < src.len() && src[l] == j;
                assert(kept@[l] == k);
            }
        }
        kept
    }
}

impl View for BetDetailsMap {
    type V = Map<GlobalBetId, BetDetails>;

    closed spec fn view(&self) -> Map<GlobalBetId, BetDetails> {
        Map::new(
            |k: GlobalBetId| self.contents().contains_key(k),
            |k: GlobalBetId| self.details@[self.contents()[k] as int],
        )
    }
}

} // verus!
