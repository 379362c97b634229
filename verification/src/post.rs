//! Posts and the set of slots still awaiting settlement.

use vstd::prelude::*;

verus! {

/// A content post, reduced to what settlement reads and writes: its id and
/// the slots whose outcome has not been tabulated yet.
pub struct Post {
    pub id: u64,
    pub slots_left_to_be_computed: Vec<u8>,
}

impl Post {
    /// Well-formedness: the slot list holds each slot at most once, so it
    /// stands for a set.
    pub open spec fn wf(self) -> bool {
        self.slots_left_to_be_computed@.no_duplicates()
    }

    /// The slot still awaits settlement.
    pub open spec fn has_slot(self, slot_id: u8) -> bool {
        self.slots_left_to_be_computed@.contains(slot_id)
    }

    /// A post with the given slots still to settle.
    pub fn new(id: u64, slots_left_to_be_computed: Vec<u8>) -> (p: Post)
        requires
            slots_left_to_be_computed@.no_duplicates(),
        ensures
            p.wf(),
            p.id == id,
            forall|s: u8|
                p.has_slot(s) <==> slots_left_to_be_computed@.contains(s),
    {
        Post { id, slots_left_to_be_computed }
    }

    /// Removes one slot from the set of slots awaiting settlement; a no-op
    /// if the slot is not in the set.
    #[verifier::loop_isolation(false)]
    pub fn remove_slot(&mut self, slot_id: u8)
        requires
            old(self).wf(),
        ensures
            final(self).wf(),
            final(self).id == old(self).id,
            forall|s: u8|
                final(self).has_slot(s) <==> (old(self).has_slot(s) && s != slot_id),
    {
        let n = self.slots_left_to_be_computed.len();
        let mut i: usize = 0;
        while i < n
            invariant
                i <= n,
                self == old(self),
                forall|l: int|
                    0 <= l < i as int ==> self.slots_left_to_be_computed@[l] != slot_id,
            decreases n - i,
        {
            if self.slots_left_to_be_computed[i] == slot_id {
                let ghost prev = self.slots_left_to_be_computed@;
                self.slots_left_to_be_computed.remove(i);
                proof {
                    let cur = self.slots_left_to_be_computed@;
                    assert forall|s: u8| cur.contains(s) implies prev.contains(s) && s
                        != slot_id by {
                        let l = choose|l: int| 0 <= l < cur.len() && cur[l] == s;
                        if l < i as int {
                            assert(prev[l] == s);
                        } else {
                            assert(prev[l + 1] == s);
                        }
                        let j = choose|j: int| 0 <= j < prev.len() && prev[j] == s;
                        if s == slot_id {
                            assert(prev[i as int] == slot_id);
                            if l < i as int {
                                assert(prev[l] == prev[i as int] && l != i as int);
                                assert(false);
                            } else {
                                assert(prev[l + 1] == prev[i as int] && l + 1 != i as int);
                                assert(false);
                            }
                        }
                    }
                    assert forall|s: u8| prev.contains(s) && s != slot_id implies cur.contains(
                        s,
                    ) by {
                        let j = choose|j: int| 0 <= j < prev.len() && prev[j] == s;
                        if j < i as int {
                            assert(cur[j] == s);
                        } else {
                            assert(j != i as int);
                            assert(cur[j - 1] == s);
                        }
                    }
                    assert forall|a: int, b: int| 0 <= a < b < cur.len() implies cur[a]
                        != cur[b] by {
                        let pa: int = if a < i as int { a } else { a + 1 };
                        let pb: int = if b < i as int { b } else { b + 1 };
                        assert(cur[a] == prev[pa] && cur[b] == prev[pb]);
                        assert(pa < pb);
                    }
                    assert(cur.no_duplicates());
                }
                return ;
            }
            i = i + 1;
        }
        proof {
            assert(!self.slots_left_to_be_computed@.contains(slot_id));
        }
    }
}

} // verus!
