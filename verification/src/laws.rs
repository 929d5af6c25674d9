use vstd::prelude::*;
use vstd::seq_lib::to_multiset_len;
use crate::circle::{
    lemma_paid_count_bounds, lemma_paid_count_none, lemma_paid_count_push_unpaid,
    lemma_paid_count_set, paid_count, CircleView, Error, Phase, MAX_MEMBERS,
};
use crate::escrow::{EscrowError, EscrowView, INACTIVITY_WINDOW};
use crate::identity::Identity;
use crate::queue::{is_order, lemma_arranged_permutes};
use crate::store::StoreView;

verus! {

/// A circle is well formed when it is created.
pub proof fn lemma_fresh_is_wf(id: u32, admin: Identity, contribution: i128, is_random_queue: bool)
    ensures
        CircleView::fresh(id, admin, contribution, is_random_queue).wf(),
{
    let fresh = CircleView::fresh(id, admin, contribution, is_random_queue);
    assert(fresh.queued_members() =~= fresh.payout_queue);
    assert(0 * contribution == 0);
}

/// A circle stays well formed when a member joins, and its identifier,
/// administrator and contribution stay what they were.
pub proof fn lemma_join_keeps_wf(circle: CircleView, who: Identity)
    requires
        circle.wf(),
        circle.join_outcome(who) is Ok,
    ensures
        circle.joined(who).wf(),
        circle.joined(who).id == circle.id,
        circle.joined(who).admin == circle.admin,
        circle.joined(who).contribution == circle.contribution,
{
    let after = circle.joined(who);
    lemma_paid_count_push_unpaid(circle.has_received_payout);
    assert(after.queued_members() =~= circle.queued_members());
}

/// The circle after each of `joiners` has asked to join, in turn: who is accepted
/// joins, who is refused leaves the circle as it was.
pub open spec fn after_joins(circle: CircleView, joiners: Seq<Identity>) -> CircleView
    decreases joiners.len(),
{
    if joiners.len() == 0 {
        circle
    } else {
        let before = after_joins(circle, joiners.drop_last());
        if before.join_outcome(joiners.last()) is Ok {
            before.joined(joiners.last())
        } else {
            before
        }
    }
}

/// Whatever sequence of identities asks to join a well-formed circle, the circle
/// stays well formed: there is one payout flag for each member, no member stands
/// twice, and there are no more than the most a circle can hold. Who was a member
/// stays one.
pub proof fn lemma_joins_keep_flags_aligned(circle: CircleView, joiners: Seq<Identity>)
    requires
        circle.wf(),
    ensures
        after_joins(circle, joiners).wf(),
        after_joins(circle, joiners).has_received_payout.len() == after_joins(
            circle,
            joiners,
        ).members.len(),
        forall|who: Identity|
            circle.members.contains(who) ==> after_joins(circle, joiners).members.contains(who),
    decreases joiners.len(),
{
    if joiners.len() > 0 {
        let before = after_joins(circle, joiners.drop_last());
        lemma_joins_keep_flags_aligned(circle, joiners.drop_last());
        if before.join_outcome(joiners.last()) is Ok {
            lemma_join_keeps_wf(before, joiners.last());
            let after = before.joined(joiners.last());
            assert forall|who: Identity| before.members.contains(who) implies after.members.contains(
                who,
            ) by {
                let i = before.members.index_of(who);
                assert(after.members[i] == who);
            }
        }
    }
}

/// The same holds from the start: after any sequence of joins on a circle that was
/// just created there is one payout flag for each member.
pub proof fn lemma_flags_track_members_from_creation(
    id: u32,
    admin: Identity,
    contribution: i128,
    is_random_queue: bool,
    joiners: Seq<Identity>,
)
    ensures
        ({
            let circle = after_joins(
                CircleView::fresh(id, admin, contribution, is_random_queue),
                joiners,
            );
            circle.has_received_payout.len() == circle.members.len()
        }),
{
    lemma_fresh_is_wf(id, admin, contribution, is_random_queue);
    lemma_joins_keep_flags_aligned(
        CircleView::fresh(id, admin, contribution, is_random_queue),
        joiners,
    );
}

/// Who has joined is refused with `AlreadyJoined` on asking again, at once or
/// after any others have asked in between.
pub proof fn lemma_second_join_is_refused(circle: CircleView, who: Identity, others: Seq<Identity>)
    requires
        circle.wf(),
        circle.join_outcome(who) is Ok,
    ensures
        circle.joined(who).join_outcome(who) == Err::<(), Error>(Error::AlreadyJoined),
        after_joins(circle.joined(who), others).join_outcome(who) == Err::<(), Error>(
            Error::AlreadyJoined,
        ),
{
    let joined = circle.joined(who);
    assert(joined.members[circle.members.len() as int] == who);
    assert(joined.members.contains(who));
    lemma_join_keeps_wf(circle, who);
    lemma_joins_keep_flags_aligned(joined, others);
}

/// A circle that holds as many members as it can refuses everyone who is not in
/// it with `MaxMembersReached`.
pub proof fn lemma_full_circle_refuses(circle: CircleView, who: Identity)
    requires
        circle.wf(),
        circle.members.len() == MAX_MEMBERS,
        !circle.members.contains(who),
    ensures
        circle.join_outcome(who) == Err::<(), Error>(Error::MaxMembersReached),
{
}

/// Distinct identities that ask to join an empty circle, no more of them than a
/// circle can hold, all become members, in the order in which they asked.
pub proof fn lemma_distinct_joiners_all_join(circle: CircleView, joiners: Seq<Identity>)
    requires
        circle.wf(),
        circle.members.len() == 0,
        joiners.no_duplicates(),
        joiners.len() <= MAX_MEMBERS,
    ensures
        after_joins(circle, joiners).members == joiners,
    decreases joiners.len(),
{
    if joiners.len() == 0 {
        assert(circle.members =~= joiners);
    } else {
        let front = joiners.drop_last();
        lemma_distinct_joiners_all_join(circle, front);
        let before = after_joins(circle, front);
        if before.members.contains(joiners.last()) {
            let i = front.index_of(joiners.last());
            assert(joiners[i] == joiners[joiners.len() - 1]);
        }
        assert(before.joined(joiners.last()).members =~= joiners);
    }
}

/// After fifty distinct identities have joined a circle that was just created, one
/// more is refused with `MaxMembersReached`.
pub proof fn lemma_fifty_first_is_refused(
    id: u32,
    admin: Identity,
    contribution: i128,
    is_random_queue: bool,
    joiners: Seq<Identity>,
    extra: Identity,
)
    requires
        joiners.no_duplicates(),
        joiners.len() == MAX_MEMBERS,
        !joiners.contains(extra),
    ensures
        after_joins(
            CircleView::fresh(id, admin, contribution, is_random_queue),
            joiners,
        ).join_outcome(extra) == Err::<(), Error>(Error::MaxMembersReached),
{
    let fresh = CircleView::fresh(id, admin, contribution, is_random_queue);
    lemma_fresh_is_wf(id, admin, contribution, is_random_queue);
    lemma_distinct_joiners_all_join(fresh, joiners);
}

/// A circle stays well formed when its queue is finalized.
pub proof fn lemma_finalize_keeps_wf(circle: CircleView, next: CircleView)
    requires
        circle.wf(),
        circle.finalizes_to(next),
    ensures
        next.wf(),
        next.payout_queue.len() == circle.members.len() || next == circle,
{
    if !circle.is_finalized() {
        to_multiset_len(next.payout_queue);
        to_multiset_len(circle.members);
        assert(next.queued_members() =~= next.members);
    }
}

/// Finalizing twice gives what finalizing once gives: the second call changes
/// nothing, and the queue in particular stays as the first call left it.
pub proof fn lemma_finalize_is_idempotent(circle: CircleView, once: CircleView, twice: CircleView)
    requires
        circle.wf(),
        circle.finalizes_to(once),
        once.finalizes_to(twice),
    ensures
        twice == once,
        twice.payout_queue == once.payout_queue,
{
    if !once.is_finalized() {
        to_multiset_len(twice.payout_queue);
        to_multiset_len(once.members);
        if !circle.is_finalized() {
            to_multiset_len(once.payout_queue);
            to_multiset_len(circle.members);
        }
        assert(twice.payout_queue =~= once.payout_queue);
    }
}

/// The queue of a circle that does not ask for a random one is its members in
/// joining order: all of them when the queue is built, and at any later time
/// those that were members then.
pub proof fn lemma_sequential_queue_is_join_order(circle: CircleView, next: CircleView)
    requires
        circle.wf(),
        !circle.is_random_queue,
        circle.finalizes_to(next),
    ensures
        !circle.is_finalized() ==> next.payout_queue == circle.members,
        next.payout_queue == next.members.subrange(0, next.payout_queue.len() as int),
{
    lemma_finalize_keeps_wf(circle, next);
}

/// The queue that finalizing builds, random or not, holds every member exactly
/// once: it is as long as the list of members and has the same items.
pub proof fn lemma_queue_permutes_members(circle: CircleView, next: CircleView)
    requires
        circle.wf(),
        !circle.is_finalized(),
        circle.finalizes_to(next),
    ensures
        next.payout_queue.len() == circle.members.len(),
        next.payout_queue.to_multiset() == circle.members.to_multiset(),
        next.payout_queue.no_duplicates(),
{
    to_multiset_len(next.payout_queue);
    to_multiset_len(circle.members);
    circle.members.lemma_multiset_has_no_duplicates();
    next.payout_queue.lemma_multiset_has_no_duplicates_conv();
}

/// With K members marked as paid, K payouts counted and K contributions
/// distributed, a payout that is owed marks one more member, counts K + 1 payouts
/// and brings the volume to K + 1 contributions; the circle stays well formed.
/// The volume is an amount: the new one is recorded where it is in the range of
/// the amounts, which is what a payout asks of its caller.
pub proof fn lemma_payout_adds_contribution(circle: CircleView, recipient: Identity)
    requires
        circle.wf(),
        circle.owes(recipient),
    ensures
        circle.current_payout_index == paid_count(circle.has_received_payout),
        circle.total_volume_distributed == paid_count(circle.has_received_payout)
            * circle.contribution,
        paid_count(circle.paid(recipient).has_received_payout) == paid_count(
            circle.has_received_payout,
        ) + 1,
        circle.paid(recipient).has_received_payout[circle.members.index_of(recipient)],
        circle.paid(recipient).current_payout_index == paid_count(circle.has_received_payout) + 1,
        circle.total_volume_distributed + circle.contribution == (paid_count(
            circle.has_received_payout,
        ) + 1) * circle.contribution,
        circle.payout_fits() ==> {
            &&& circle.paid(recipient).total_volume_distributed == (paid_count(
                circle.has_received_payout,
            ) + 1) * circle.contribution
            &&& circle.paid(recipient).wf()
        },
{
    let at = circle.members.index_of(recipient);
    lemma_paid_count_set(circle.has_received_payout, at);
    lemma_paid_count_bounds(circle.has_received_payout.update(at, true));
    assert((circle.current_payout_index + 1) * circle.contribution == circle.current_payout_index
        * circle.contribution + circle.contribution) by (nonlinear_arith);
}

/// With an order over all members at hand where the queue is random, finalizing
/// always succeeds in building the queue: every member stands in it once, in
/// that order or in joining order, and the circle stays well formed.
pub proof fn lemma_finalizing_with_an_order_builds_the_queue(circle: CircleView, order: Seq<u32>)
    requires
        circle.wf(),
        circle.is_random_queue ==> is_order(order, circle.members.len()),
    ensures
        circle.finalizes_to(circle.finalized_with(order)),
        circle.finalized_with(order).wf(),
        !circle.is_finalized() ==> circle.finalized_with(order).payout_queue.to_multiset()
            == circle.members.to_multiset(),
        !circle.is_finalized() && !circle.is_random_queue ==> circle.finalized_with(
            order,
        ).payout_queue == circle.members,
{
    if circle.is_random_queue {
        lemma_arranged_permutes(circle.members, order);
    }
    lemma_finalize_keeps_wf(circle, circle.finalized_with(order));
}

/// A complete cycle of a finalized circle can always be closed once an order
/// over all members is at hand where the queue is random: afterwards nobody is
/// marked as paid, the cycle number is one higher, no payout is counted and
/// nothing is distributed, and members, administrator and contribution are what
/// they were.
pub proof fn lemma_rolling_over_with_an_order_opens_a_cycle(circle: CircleView, order: Seq<u32>)
    requires
        circle.wf(),
        circle.is_finalized(),
        circle.all_paid(),
        circle.cycle_number < u32::MAX,
        circle.is_random_queue ==> is_order(order, circle.members.len()),
    ensures
        circle.rollover_outcome() is Ok,
        circle.rolls_to(circle.rolled_with(order)),
        circle.rolled_with(order).wf(),
        circle.rolled_with(order).cycle_number == circle.cycle_number + 1,
        circle.rolled_with(order).current_payout_index == 0,
        circle.rolled_with(order).total_volume_distributed == 0,
        circle.rolled_with(order).has_received_payout.len() == circle.members.len(),
        forall|i: int|
            0 <= i < circle.members.len() ==> !circle.rolled_with(order).has_received_payout[i],
        circle.rolled_with(order).members == circle.members,
        circle.rolled_with(order).admin == circle.admin,
        circle.rolled_with(order).contribution == circle.contribution,
        circle.rolled_with(order).is_random_queue == circle.is_random_queue,
{
    if circle.is_random_queue {
        lemma_arranged_permutes(circle.members, order);
    }
    lemma_rollover_opens_clean_cycle(circle, circle.rolled_with(order));
}

/// A payout that is refused leaves the flags, the count and the volume as they
/// were: the circle after the attempt is the circle before it.
pub proof fn lemma_refused_payout_changes_nothing(circle: CircleView, recipient: Identity)
    requires
        circle.wf(),
        circle.payout_outcome(recipient) is Err,
    ensures
        circle.after_payout(recipient) == circle,
        circle.payout_outcome(recipient) == Err::<(), Error>(Error::Unauthorized),
{
}

/// Who has been paid in a cycle is refused when paid again in it.
pub proof fn lemma_second_payout_is_refused(circle: CircleView, recipient: Identity)
    requires
        circle.wf(),
        circle.payout_outcome(recipient) is Ok,
    ensures
        circle.paid(recipient).payout_outcome(recipient) == Err::<(), Error>(Error::Unauthorized),
{
}

/// In every well-formed circle the volume distributed in the running cycle is the
/// contribution times the number of payouts made in it, and that number is the
/// number of members marked as paid.
pub proof fn lemma_volume_is_payouts_times_contribution(circle: CircleView)
    requires
        circle.wf(),
    ensures
        circle.current_payout_index == paid_count(circle.has_received_payout),
        circle.total_volume_distributed == paid_count(circle.has_received_payout)
            * circle.contribution,
        circle.current_payout_index <= circle.members.len() <= MAX_MEMBERS,
        circle.all_paid() <==> circle.current_payout_index == circle.members.len(),
{
    lemma_paid_count_bounds(circle.has_received_payout);
}

/// A finalized circle can be rolled over exactly when every member has been paid;
/// while one is owed the call fails with `CycleNotComplete`.
pub proof fn lemma_rollover_needs_complete_cycle(circle: CircleView)
    requires
        circle.wf(),
        circle.is_finalized(),
    ensures
        circle.rollover_outcome() is Ok <==> circle.all_paid(),
        !circle.all_paid() ==> circle.rollover_outcome() == Err::<(), Error>(
            Error::CycleNotComplete,
        ),
{
}

/// After a rollover nobody is marked as paid, the cycle number is one higher, no
/// payout is counted and nothing is distributed; the members are who they were,
/// and the circle is well formed.
pub proof fn lemma_rollover_opens_clean_cycle(circle: CircleView, next: CircleView)
    requires
        circle.wf(),
        circle.rollover_outcome() is Ok,
        circle.cycle_number < u32::MAX,
        circle.rolls_to(next),
    ensures
        next.wf(),
        next.has_received_payout.len() == circle.members.len(),
        forall|i: int| 0 <= i < next.has_received_payout.len() ==> !next.has_received_payout[i],
        next.cycle_number == circle.cycle_number + 1,
        next.current_payout_index == 0,
        next.total_volume_distributed == 0,
        next.members == circle.members,
        next.is_random_queue ==> next.payout_queue.to_multiset() == next.members.to_multiset(),
{
    lemma_paid_count_none(circle.members.len());
    assert(0 * next.contribution == 0);
    if circle.is_random_queue {
        to_multiset_len(next.payout_queue);
        to_multiset_len(circle.members);
        assert(next.queued_members() =~= next.members);
    } else {
        assert(next.queued_members() =~= circle.queued_members());
    }
}

/// A circle is open until its queue is built; finalizing a circle with members
/// takes it out of that phase, and only a circle whose cycle is complete can be
/// rolled over, which takes it back to the phase in which payouts are owed.
pub proof fn lemma_phases_follow_each_other(circle: CircleView, next: CircleView)
    requires
        circle.wf(),
    ensures
        circle.rollover_outcome() is Ok <==> circle.phase() == Phase::CycleComplete,
        circle.finalizes_to(next) && circle.members.len() > 0 ==> next.phase() != Phase::Open,
        circle.finalizes_to(next) && circle.phase() != Phase::Open ==> next.phase()
            == circle.phase(),
        circle.rollover_outcome() is Ok && circle.rolls_to(next) ==> next.phase()
            == Phase::Finalized,
{
    if circle.finalizes_to(next) && circle.members.len() > 0 {
        to_multiset_len(next.payout_queue);
        to_multiset_len(circle.members);
    }
    if circle.rollover_outcome() is Ok && circle.rolls_to(next) {
        to_multiset_len(next.payout_queue);
        to_multiset_len(circle.members);
        assert(!next.has_received_payout[0]);
    }
}

/// Identifiers rise and are given out once: the next circle gets an identifier
/// above that of every circle on record, so none is on record under it.
pub proof fn lemma_next_identifier_is_unused(store: StoreView)
    requires
        store.wf(),
        store.has_identifiers_left(),
    ensures
        store.next_id() == store.issued() + 1,
        forall|id: u32| store.circles.contains_key(id) ==> id < store.next_id(),
        !store.circles.contains_key(store.next_id() as u32),
{
}

/// Creating a circle leaves every circle on record as it was, under an
/// identifier below the new one, and keeps the records well formed. The counter
/// never falls: it rises by one.
pub proof fn lemma_creation_keeps_earlier_circles(
    store: StoreView,
    admin: Identity,
    contribution: i128,
    is_random_queue: bool,
    earlier: u32,
)
    requires
        store.wf(),
        store.has_identifiers_left(),
        store.circles.contains_key(earlier),
    ensures
        ({
            let after = store.created(admin, contribution, is_random_queue);
            &&& earlier < store.next_id()
            &&& after.circles.contains_key(earlier)
            &&& after.circles[earlier] == store.circles[earlier]
            &&& after.issued() == store.issued() + 1
            &&& after.circles.contains_key(store.next_id() as u32)
            &&& after.wf()
        }),
{
    lemma_fresh_is_wf(store.next_id() as u32, admin, contribution, is_random_queue);
}

/// No operation on a circle changes its identifier, its administrator, its
/// contribution or whether its queue is random; none but a join changes who its
/// members are, and a join only adds one.
pub proof fn lemma_operations_keep_terms(
    circle: CircleView,
    next: CircleView,
    who: Identity,
)
    requires
        circle.joined(who) == next || circle.paid(who) == next || circle.finalizes_to(next)
            || circle.rolls_to(next),
    ensures
        next.id == circle.id,
        next.admin == circle.admin,
        next.contribution == circle.contribution,
        next.is_random_queue == circle.is_random_queue,
        next.members == circle.members || next.members == circle.members.push(who),
{
}

/// An authorized emergency withdrawal is refused up to and including the moment
/// at which the inactivity window ends, and then the ledger stays as it was. At
/// every later moment it succeeds with the full balance on record; nothing is
/// then held for the depositor, and every other balance, the administrator and
/// the time at which the administrator was last active stay as they were.
pub proof fn lemma_withdrawal_opens_after_window(escrow: EscrowView, user: Identity, now: u64)
    ensures
        now <= escrow.last_active + INACTIVITY_WINDOW ==> {
            &&& escrow.withdraw_outcome(true, user, now) == Err::<i128, EscrowError>(
                EscrowError::NotYetEligible,
            )
            &&& escrow.after_withdrawal(true, user, now) == escrow
        },
        now > escrow.last_active + INACTIVITY_WINDOW ==> {
            let after = escrow.after_withdrawal(true, user, now);
            &&& escrow.withdraw_outcome(true, user, now) == Ok::<i128, EscrowError>(
                escrow.balance_of(user),
            )
            &&& after.balance_of(user) == 0
            &&& forall|other: Identity|
                other != user ==> after.balance_of(other) == escrow.balance_of(other)
            &&& after.last_active == escrow.last_active
            &&& after.admin == escrow.admin
        },
{
}

/// With nothing held for the depositor, an emergency withdrawal after the window
/// succeeds, hands back nothing and leaves the ledger as it was.
pub proof fn lemma_empty_withdrawal_changes_nothing(escrow: EscrowView, user: Identity, now: u64)
    requires
        escrow.wf(),
        escrow.balance_of(user) == 0,
        now > escrow.last_active + INACTIVITY_WINDOW,
    ensures
        escrow.withdraw_outcome(true, user, now) == Ok::<i128, EscrowError>(0),
        escrow.after_withdrawal(true, user, now) == escrow,
{
    assert(escrow.balances.remove(user) =~= escrow.balances);
}

/// A withdrawal leaves nothing on record for the depositor and touches no other
/// balance; a second withdrawal right after it succeeds, hands back nothing and
/// changes nothing.
pub proof fn lemma_second_withdrawal_is_empty(
    escrow: EscrowView,
    user: Identity,
    now: u64,
    later: u64,
)
    requires
        escrow.withdraw_outcome(true, user, now) is Ok,
        later >= now,
    ensures
        escrow.withdrawn(user).balance_of(user) == 0,
        forall|other: Identity|
            other != user ==> escrow.withdrawn(user).balance_of(other) == escrow.balance_of(other),
        escrow.withdrawn(user).withdraw_outcome(true, user, later) == Ok::<i128, EscrowError>(0),
        escrow.withdrawn(user).withdrawn(user) == escrow.withdrawn(user),
{
    assert(escrow.withdrawn(user).balances.remove(user) =~= escrow.withdrawn(user).balances);
}

/// A deposit does not count as a sign of life of the administrator: who could
/// withdraw before it can withdraw after it.
pub proof fn lemma_deposit_keeps_clock(escrow: EscrowView, user: Identity, amount: i128, now: u64)
    ensures
        escrow.deposited(user, amount).last_active == escrow.last_active,
        escrow.deposited(user, amount).admin_inactive(now) == escrow.admin_inactive(now),
{
}

} // verus!
