use vstd::prelude::*;
use vstd::seq_lib::{seq_to_set_is_finite, to_multiset_contains};
use vstd::set_lib::lemma_subset_equality;
use crate::circle::{paid_count, Circle, MAX_MEMBERS};
use crate::identity::{position_of, Identity};
use crate::queue::{is_permutation, lemma_same_items_permute};

verus! {

/// A sequence without repeats whose items all stand in another sequence without
/// repeats of the same length is a permutation of it.
pub proof fn lemma_distinct_subset_permutes(a: Seq<Identity>, b: Seq<Identity>)
    requires
        a.no_duplicates(),
        b.no_duplicates(),
        a.len() == b.len(),
        forall|i: int| 0 <= i < a.len() ==> b.contains(#[trigger] a[i]),
    ensures
        is_permutation(a, b),
{
    a.unique_seq_to_set();
    b.unique_seq_to_set();
    seq_to_set_is_finite(a);
    seq_to_set_is_finite(b);
    assert(a.to_set().subset_of(b.to_set())) by {
        assert forall|x: Identity| a.to_set().contains(x) implies b.to_set().contains(x) by {
            let i = a.index_of(x);
            assert(b.contains(a[i]));
        }
    }
    lemma_subset_equality(a.to_set(), b.to_set());
    assert forall|x: Identity| a.contains(x) <==> b.contains(x) by {
        assert(a.to_set().contains(x) == b.to_set().contains(x));
    }
    lemma_same_items_permute(a, b);
}

/// A permutation of a sequence without repeats has no repeats, and holds no item
/// that the sequence lacks.
pub proof fn lemma_permutation_is_distinct(a: Seq<Identity>, b: Seq<Identity>)
    requires
        b.no_duplicates(),
        is_permutation(a, b),
    ensures
        a.no_duplicates(),
        forall|i: int| 0 <= i < a.len() ==> b.contains(#[trigger] a[i]),
{
    b.lemma_multiset_has_no_duplicates();
    a.lemma_multiset_has_no_duplicates_conv();
    assert forall|i: int| 0 <= i < a.len() implies b.contains(#[trigger] a[i]) by {
        assert(a.contains(a[i]));
        to_multiset_contains(a, a[i]);
        to_multiset_contains(b, a[i]);
    }
}

/// Whether no item stands twice in `items`.
pub fn all_distinct(items: &Vec<Identity>) -> (distinct: bool)
    ensures
        distinct == items@.no_duplicates(),
{
    let mut i: usize = 0;
    while i < items.len()
        invariant
            i <= items@.len(),
            forall|a: int, b: int| 0 <= a < b < i ==> items@[a] != items@[b],
        decreases items@.len() - i,
    {
        match position_of(items, items[i]) {
            Some(first) => {
                if first != i {
                    assert(items@[first as int] == items@[i as int]);
                    return false;
                }
            },
            None => {
                assert(items@[i as int] == items@[i as int]);
                assert(items@.contains(items@[i as int]));
                return false;
            },
        }
        i += 1;
    }
    true
}

/// How many of `flags` are set.
pub fn count_paid(flags: &Vec<bool>) -> (count: usize)
    ensures
        count == paid_count(flags@),
        count <= flags@.len(),
{
    let mut count: usize = 0;
    let mut i: usize = 0;
    while i < flags.len()
        invariant
            i <= flags@.len(),
            count <= i,
            count == paid_count(flags@.subrange(0, i as int)),
        decreases flags@.len() - i,
    {
        assert(flags@.subrange(0, i + 1).drop_last() =~= flags@.subrange(0, i as int));
        if flags[i] {
            count += 1;
        }
        i += 1;
    }
    assert(flags@.subrange(0, flags@.len() as int) =~= flags@);
    count
}

impl Circle {
    /// Whether the queue holds, in joining order, the members that stood in the
    /// circle when it was built.
    fn queue_in_join_order(&self) -> (same: bool)
        requires
            self.payout_queue@.len() <= self.members@.len(),
        ensures
            same == (self@.payout_queue == self@.queued_members()),
    {
        let mut i: usize = 0;
        while i < self.payout_queue.len()
            invariant
                i <= self.payout_queue@.len() <= self.members@.len(),
                forall|j: int| 0 <= j < i ==> self.payout_queue@[j] == self.members@[j],
            decreases self.payout_queue@.len() - i,
        {
            if self.payout_queue[i] != self.members[i] {
                assert(self@.queued_members()[i as int] == self.members@[i as int]);
                return false;
            }
            i += 1;
        }
        assert(self@.payout_queue =~= self@.queued_members());
        true
    }

    /// Whether the queue holds each of the members that stood in the circle when
    /// it was built exactly once.
    fn queue_permutes_members(&self) -> (permutes: bool)
        requires
            self.payout_queue@.len() <= self.members@.len(),
            self.members@.no_duplicates(),
        ensures
            permutes == is_permutation(self@.payout_queue, self@.queued_members()),
    {
        let ghost queue = self@.payout_queue;
        let ghost front = self@.queued_members();
        if !all_distinct(&self.payout_queue) {
            proof {
                if is_permutation(queue, front) {
                    lemma_permutation_is_distinct(queue, front);
                }
            }
            return false;
        }
        let mut i: usize = 0;
        while i < self.payout_queue.len()
            invariant
                i <= self.payout_queue@.len() <= self.members@.len(),
                self.members@.no_duplicates(),
                queue == self@.payout_queue,
                front == self@.queued_members(),
                forall|j: int| 0 <= j < i ==> front.contains(#[trigger] queue[j]),
            decreases self.payout_queue@.len() - i,
        {
            let at = position_of(&self.members, self.payout_queue[i]);
            let inside = match at {
                Some(at) => at < self.payout_queue.len(),
                None => false,
            };
            if !inside {
                proof {
                    if is_permutation(queue, front) {
                        lemma_permutation_is_distinct(queue, front);
                        let k = front.index_of(queue[i as int]);
                        assert(self.members@[k] == queue[i as int]);
                    }
                }
                return false;
            }
            proof {
                let k = at.unwrap() as int;
                assert(front[k] == queue[i as int]);
            }
            i += 1;
        }
        proof {
            lemma_distinct_subset_permutes(queue, front);
        }
        true
    }

    /// Whether the circle is well formed: what every operation needs of a circle
    /// and leaves true of it.
    pub fn is_well_formed(&self) -> (well_formed: bool)
        ensures
            well_formed == self@.wf(),
    {
        if self.members.len() > MAX_MEMBERS as usize || self.has_received_payout.len()
            != self.members.len() || self.payout_queue.len() > self.members.len()
            || self.cycle_number < 1 {
            return false;
        }
        if !all_distinct(&self.members) {
            return false;
        }
        if !self.queue_permutes_members() {
            return false;
        }
        if !self.is_random_queue && !self.queue_in_join_order() {
            return false;
        }
        let paid = count_paid(&self.has_received_payout);
        if self.current_payout_index as usize != paid {
            return false;
        }
        match (self.current_payout_index as i128).checked_mul(self.contribution) {
            Some(volume) => volume == self.total_volume_distributed,
            None => false,
        }
    }
}

} // verus!
