//! The replies collected during the read phase of one operation.

use std::collections::HashMap;
use vstd::prelude::*;
use vstd::std_specs::hash::spec_values_iter;
use vstd::std_specs::iter::IteratorSpec;

verus! {

/// What a node stores for a key and reports in a reply: `(ts, wr, value)`.
pub type Stamp = (u32, u32, u32);

/// The lexicographic order on stamps.
pub open spec fn stamp_le(a: Stamp, b: Stamp) -> bool {
    a.0 < b.0 || (a.0 == b.0 && (a.1 < b.1 || (a.1 == b.1 && a.2 <= b.2)))
}

/// `t` is among the replies and no reply is greater.
pub open spec fn is_max_stamp(replies: Map<u32, Stamp>, t: Stamp) -> bool {
    &&& exists|rank: u32| #[trigger] replies.contains_key(rank) && replies[rank] == t
    &&& forall|rank: u32| #[trigger] replies.contains_key(rank) ==> stamp_le(replies[rank], t)
}

/// The greatest reply. Meaningful where there is at least one reply.
pub open spec fn max_stamp(replies: Map<u32, Stamp>) -> Stamp {
    choose|t: Stamp| is_max_stamp(replies, t)
}

/// A set of replies has at most one greatest element.
pub proof fn lemma_max_stamp_unique(replies: Map<u32, Stamp>, t: Stamp)
    requires
        is_max_stamp(replies, t),
    ensures
        max_stamp(replies) == t,
{
    let u = max_stamp(replies);
    assert(is_max_stamp(replies, u));
}

/// Replies of the current read phase, one per sender rank. A second reply of
/// a rank takes the place of its first.
pub struct ReadList {
    replies: HashMap<u32, Stamp>,
}

impl View for ReadList {
    type V = Map<u32, Stamp>;

    closed spec fn view(&self) -> Map<u32, Stamp> {
        self.replies@
    }
}

impl ReadList {
    /// An empty list.
    pub fn new() -> (list: ReadList)
        ensures
            list@ == Map::<u32, Stamp>::empty(),
    {
        ReadList { replies: HashMap::new() }
    }

    /// Forgets every reply.
    pub fn clear(&mut self)
        ensures
            final(self)@ == Map::<u32, Stamp>::empty(),
    {
        self.replies.clear();
    }

    /// Whether no reply has come in.
    pub fn is_empty(&self) -> (empty: bool)
        ensures
            empty == self@.is_empty(),
            empty == (self@.len() == 0),
    {
        proof {
            self.lemma_finite();
            if self@.len() == 0 {
                assert(self@.dom() =~= Set::<u32>::empty());
            }
        }
        self.replies.is_empty()
    }

    /// Number of ranks that have replied.
    pub fn len(&self) -> (count: usize)
        ensures
            count == self@.len(),
    {
        self.replies.len()
    }

    /// Records the reply of `rank`.
    pub fn insert(&mut self, rank: u32, stamp: Stamp)
        ensures
            final(self)@ == old(self)@.insert(rank, stamp),
    {
        self.replies.insert(rank, stamp);
    }

    /// Forgets the reply of `rank`, if it has replied.
    pub fn remove(&mut self, rank: u32)
        ensures
            final(self)@ == old(self)@.remove(rank),
    {
        self.replies.remove(&rank);
    }

    /// The reply of `rank`, if it has replied.
    pub fn get(&self, rank: u32) -> (stamp: Option<Stamp>)
        ensures
            stamp == (if self@.contains_key(rank) {
                Some(self@[rank])
            } else {
                None
            }),
    {
        match self.replies.get(&rank) {
            Some(s) => Some(*s),
            None => None,
        }
    }

    /// There are finitely many replies.
    pub proof fn lemma_finite(&self)
        ensures
            self@.dom().finite(),
    {
    }

    /// The greatest reply in the lexicographic order of `(ts, wr, value)`.
    pub fn max(&self) -> (best: Stamp)
        requires
            self@.len() > 0,
        ensures
            is_max_stamp(self@, best),
            best == max_stamp(self@),
    {
        let mut best: Stamp = (0, 0, 0);
        let mut seen: bool = false;
        let ghost replies = self.replies@;
        let ghost mut all: Seq<Stamp> = Seq::empty();
        let ghost mut at: int = 0;
        for v in it: self.replies.values()
            invariant
                it.seq() == spec_values_iter(&self.replies).remaining(),
                seen == (it.index() > 0),
                all.len() == it.index(),
                forall|j: int| 0 <= j < it.index() ==> #[trigger] all[j] == *it.seq()[j],
                seen ==> 0 <= at < it.index() && all[at] == best,
                forall|j: int| 0 <= j < it.index() ==> stamp_le(#[trigger] all[j], best),
        {
            let s: Stamp = *v;
            proof {
                all = all.push(s);
            }
            if !seen || s.0 > best.0 || (s.0 == best.0 && (s.1 > best.1 || (s.1 == best.1 && s.2
                > best.2))) {
                best = s;
                proof {
                    at = all.len() - 1;
                }
            }
            seen = true;
        }
        proof {
            self.lemma_finite();
            let full = spec_values_iter(&self.replies).remaining();
            assert(full.unref().to_set() == replies.values());
            assert(full.len() == replies.dom().len());
            assert(all.len() == full.len());
            assert(all =~= full.unref());
            assert(seen);
            assert(all.contains(best));
            assert(replies.values().contains(best));
            let rank = choose|rank: u32| replies.contains_key(rank) && replies[rank] == best;
            assert(replies.contains_key(rank) && replies[rank] == best);
            assert forall|r: u32| #[trigger] replies.contains_key(r) implies stamp_le(
                replies[r],
                best,
            ) by {
                assert(replies.values().contains(replies[r]));
                assert(all.contains(replies[r]));
                let j = choose|j: int| 0 <= j < all.len() && all[j] == replies[r];
                assert(stamp_le(all[j], best));
            }
            lemma_max_stamp_unique(replies, best);
        }
        best
    }
}

} // verus!
