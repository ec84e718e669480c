//! The transition table: for every pair of preceding words, the words that
//! were seen to follow it, one entry per sighting.

use std::collections::HashMap;
use vstd::prelude::*;

verus! {

broadcast use vstd::std_specs::hash::group_hash_axioms;

/// The words seen after `context`, oldest first; none if the context is new.
pub open spec fn candidates_of(
    table: Map<(usize, usize), Seq<usize>>,
    context: (usize, usize),
) -> Seq<usize> {
    if table.contains_key(context) {
        table[context]
    } else {
        Seq::empty()
    }
}

/// The table after one more sighting of `next` behind `context`.
pub open spec fn observed(
    table: Map<(usize, usize), Seq<usize>>,
    context: (usize, usize),
    next: usize,
) -> Map<(usize, usize), Seq<usize>> {
    table.insert(context, candidates_of(table, context).push(next))
}

/// No context is recorded without at least one sighting.
pub open spec fn valid_table(table: Map<(usize, usize), Seq<usize>>) -> bool {
    forall|context: (usize, usize)| #[trigger]
        table.contains_key(context) ==> table[context].len() > 0
}

/// How often `next` was seen behind `context`.
pub open spec fn sightings(
    table: Map<(usize, usize), Seq<usize>>,
    context: (usize, usize),
    next: usize,
) -> nat {
    candidates_of(table, context).to_multiset().count(next)
}

/// One key for the two identifiers of a context: the older word in the high
/// half, the newer in the low half.
pub closed spec fn key_of(context: (usize, usize)) -> u128 {
    (context.0 * 0x1_0000_0000_0000_0000 + context.1) as u128
}

/// Two contexts share a key only if they are the same context.
proof fn lemma_key_injective(a: (usize, usize), b: (usize, usize))
    ensures
        key_of(a) == key_of(b) <==> a == b,
{
}

/// The key of the context `(prev2, prev1)`.
fn key(prev2: usize, prev1: usize) -> (k: u128)
    ensures
        k == key_of((prev2, prev1)),
{
    (prev2 as u128) * 0x1_0000_0000_0000_0000u128 + (prev1 as u128)
}

/// Sparse table from a two-word context to the sightings of its successors.
pub struct TransitionTable {
    entries: HashMap<u128, Vec<usize>>,
}

impl View for TransitionTable {
    type V = Map<(usize, usize), Seq<usize>>;

    closed spec fn view(&self) -> Map<(usize, usize), Seq<usize>> {
        Map::new(
            |context: (usize, usize)| self.entries@.contains_key(key_of(context)),
            |context: (usize, usize)| self.entries@[key_of(context)]@,
        )
    }
}

impl TransitionTable {
    /// The view is valid: every recorded context has a sighting.
    pub open spec fn wf(&self) -> bool {
        valid_table(self@)
    }

    /// A table without any context.
    pub fn new() -> (t: Self)
        ensures
            t.wf(),
            t@ == Map::<(usize, usize), Seq<usize>>::empty(),
    {
        let t = TransitionTable { entries: HashMap::new() };
        assert(t@ =~= Map::<(usize, usize), Seq<usize>>::empty());
        t
    }

    /// Records that `next` followed the words `prev2` and `prev1`.
    pub fn observe(&mut self, prev2: usize, prev1: usize, next: usize)
        requires
            old(self).wf(),
        ensures
            final(self).wf(),
            final(self)@ == observed(old(self)@, (prev2, prev1), next),
    {
        let k = key(prev2, prev1);
        let mut seen = match self.entries.remove(&k) {
            Some(seen) => seen,
            None => Vec::new(),
        };
        seen.push(next);
        self.entries.insert(k, seen);
        proof {
            let goal = observed(old(self)@, (prev2, prev1), next);
            assert forall|c: (usize, usize)| goal.contains_key(c) <==> self@.contains_key(c) by {
                lemma_key_injective(c, (prev2, prev1));
            }
            assert forall|c: (usize, usize)| #[trigger] goal.contains_key(c) implies goal[c]
                == self@[c] by {
                lemma_key_injective(c, (prev2, prev1));
            }
            assert(self@ =~= goal);
        }
    }

    /// The sightings recorded behind the words `prev2` and `prev1`, if any.
    pub fn candidates(&self, prev2: usize, prev1: usize) -> (r: Option<&Vec<usize>>)
        ensures
            match r {
                Some(seen) => self@.contains_key((prev2, prev1)) && seen@ == self@[(prev2, prev1)],
                None => !self@.contains_key((prev2, prev1)),
            },
    {
        let k = key(prev2, prev1);
        self.entries.get(&k)
    }
}

} // verus!
