use vstd::prelude::*;
use soroban_sdk::Env;
use crate::identity::{position_of, Identity};
use crate::laws::{
    lemma_finalize_keeps_wf, lemma_fresh_is_wf, lemma_join_keeps_wf,
    lemma_payout_adds_contribution, lemma_rollover_opens_clean_cycle,
};
use crate::queue::{
    arrange, arranged, draw_order, is_order, is_permutation, lemma_arranged_permutes,
    lemma_order_facts,
};

verus! {

/// The most members one circle can hold.
pub const MAX_MEMBERS: u32 = 50;

/// Why an operation on a circle was refused.
#[derive(Clone, Copy, Debug, PartialEq, Eq, Structural)]
pub enum Error {
    CycleNotComplete,
    InsufficientAllowance,
    AlreadyJoined,
    CircleNotFound,
    Unauthorized,
    MaxMembersReached,
    CircleNotFinalized,
    /// A random queue was to be drawn and the host did not serve the draw.
    RandomSourceUnavailable,
}

impl Error {
    /// The number under which callers outside the library know this error.
    pub open spec fn spec_code(self) -> u32 {
        match self {
            Error::CycleNotComplete => 1001,
            Error::InsufficientAllowance => 1002,
            Error::AlreadyJoined => 1003,
            Error::CircleNotFound => 1004,
            Error::Unauthorized => 1005,
            Error::MaxMembersReached => 1006,
            Error::CircleNotFinalized => 1007,
            Error::RandomSourceUnavailable => 1008,
        }
    }

    /// The number under which callers outside the library know this error.
    pub fn code(&self) -> (code: u32)
        ensures
            code == self.spec_code(),
    {
        match self {
            Error::CycleNotComplete => 1001,
            Error::InsufficientAllowance => 1002,
            Error::AlreadyJoined => 1003,
            Error::CircleNotFound => 1004,
            Error::Unauthorized => 1005,
            Error::MaxMembersReached => 1006,
            Error::CircleNotFinalized => 1007,
            Error::RandomSourceUnavailable => 1008,
        }
    }
}

/// Announces that every member of a circle has been paid in the running cycle.
#[derive(Clone, Copy, Debug, PartialEq, Eq, Structural)]
pub struct CycleCompletedEvent {
    pub group_id: u32,
    pub total_volume_distributed: i128,
}

/// Announces that a circle has closed a cycle and opened the next one.
#[derive(Clone, Copy, Debug, PartialEq, Eq, Structural)]
pub struct GroupRolloverEvent {
    pub group_id: u32,
    pub new_cycle_number: u32,
}

/// Where a circle stands in its life.
#[derive(Clone, Copy, Debug, PartialEq, Eq, Structural)]
pub enum Phase {
    /// No payout queue has been built.
    Open,
    /// The queue stands and at least one member is still owed in the running cycle.
    Finalized,
    /// The queue stands and every member has been paid: the cycle can be closed.
    CycleComplete,
}

/// A rotating savings pool: who is in it, who is paid in which order, and how
/// far the running cycle has come.
#[derive(Debug, PartialEq, Eq)]
pub struct Circle {
    pub id: u32,
    pub admin: Identity,
    pub contribution: i128,
    pub members: Vec<Identity>,
    pub is_random_queue: bool,
    pub payout_queue: Vec<Identity>,
    pub has_received_payout: Vec<bool>,
    pub cycle_number: u32,
    pub current_payout_index: u32,
    pub total_volume_distributed: i128,
}

/// What a [`Circle`] holds, as mathematical values.
pub struct CircleView {
    pub id: u32,
    pub admin: Identity,
    pub contribution: i128,
    pub members: Seq<Identity>,
    pub is_random_queue: bool,
    pub payout_queue: Seq<Identity>,
    pub has_received_payout: Seq<bool>,
    pub cycle_number: u32,
    pub current_payout_index: u32,
    pub total_volume_distributed: i128,
}

/// The order that was drawn, and no order where none was.
pub open spec fn drawn_order(drawn: Option<&Vec<u32>>) -> Seq<u32> {
    match drawn {
        Some(order) => order@,
        None => Seq::empty(),
    }
}

/// How many of `flags` are set.
pub open spec fn paid_count(flags: Seq<bool>) -> nat
    decreases flags.len(),
{
    if flags.len() == 0 {
        0
    } else {
        paid_count(flags.drop_last()) + if flags.last() { 1nat } else { 0nat }
    }
}

impl View for Circle {
    type V = CircleView;

    open spec fn view(&self) -> CircleView {
        CircleView {
            id: self.id,
            admin: self.admin,
            contribution: self.contribution,
            members: self.members@,
            is_random_queue: self.is_random_queue,
            payout_queue: self.payout_queue@,
            has_received_payout: self.has_received_payout@,
            cycle_number: self.cycle_number,
            current_payout_index: self.current_payout_index,
            total_volume_distributed: self.total_volume_distributed,
        }
    }
}

impl CircleView {
    /// The members that stood in the circle when the payout queue was last built.
    pub open spec fn queued_members(self) -> Seq<Identity> {
        self.members.subrange(0, self.payout_queue.len() as int)
    }

    /// What holds of a circle after every successful operation.
    pub open spec fn wf(self) -> bool {
        &&& self.members.len() <= MAX_MEMBERS
        &&& self.members.no_duplicates()
        &&& self.has_received_payout.len() == self.members.len()
        &&& self.payout_queue.len() <= self.members.len()
        &&& is_permutation(self.payout_queue, self.queued_members())
        &&& !self.is_random_queue ==> self.payout_queue == self.queued_members()
        &&& self.cycle_number >= 1
        &&& self.current_payout_index == paid_count(self.has_received_payout)
        &&& self.total_volume_distributed == self.current_payout_index * self.contribution
    }

    /// The circle as it is created: nobody in it, no queue, first cycle.
    pub open spec fn fresh(
        id: u32,
        admin: Identity,
        contribution: i128,
        is_random_queue: bool,
    ) -> CircleView {
        CircleView {
            id,
            admin,
            contribution,
            members: Seq::empty(),
            is_random_queue,
            payout_queue: Seq::empty(),
            has_received_payout: Seq::empty(),
            cycle_number: 1,
            current_payout_index: 0,
            total_volume_distributed: 0,
        }
    }

    /// Whether the payout queue has been built.
    pub open spec fn is_finalized(self) -> bool {
        self.payout_queue.len() > 0
    }

    /// Whether every member has been paid in the running cycle.
    pub open spec fn all_paid(self) -> bool {
        forall|i: int| 0 <= i < self.has_received_payout.len() ==> self.has_received_payout[i]
    }

    /// Where the circle stands in its life.
    pub open spec fn phase(self) -> Phase {
        if !self.is_finalized() {
            Phase::Open
        } else if self.all_paid() {
            Phase::CycleComplete
        } else {
            Phase::Finalized
        }
    }

    /// Whether `who` may join, and if not, why not.
    pub open spec fn join_outcome(self, who: Identity) -> Result<(), Error> {
        if self.members.contains(who) {
            Err(Error::AlreadyJoined)
        } else if self.members.len() >= MAX_MEMBERS {
            Err(Error::MaxMembersReached)
        } else {
            Ok(())
        }
    }

    /// The circle after `who` has joined: last in line, not yet paid.
    pub open spec fn joined(self, who: Identity) -> CircleView {
        CircleView {
            members: self.members.push(who),
            has_received_payout: self.has_received_payout.push(false),
            ..self
        }
    }

    /// Whether `recipient` is a member who is still owed this cycle's payout.
    pub open spec fn owes(self, recipient: Identity) -> bool {
        &&& self.members.contains(recipient)
        &&& !self.has_received_payout[self.members.index_of(recipient)]
    }

    /// Whether `recipient` may be paid, and if not, why not.
    pub open spec fn payout_outcome(self, recipient: Identity) -> Result<(), Error> {
        if self.owes(recipient) {
            Ok(())
        } else {
            Err(Error::Unauthorized)
        }
    }

    /// Whether one more contribution can be added to the volume of the running cycle
    /// without leaving the range of the amounts.
    pub open spec fn payout_fits(self) -> bool {
        i128::MIN <= self.total_volume_distributed + self.contribution <= i128::MAX
    }

    /// The circle after `recipient` has been paid.
    pub open spec fn paid(self, recipient: Identity) -> CircleView {
        CircleView {
            has_received_payout: self.has_received_payout.update(
                self.members.index_of(recipient),
                true,
            ),
            current_payout_index: (self.current_payout_index + 1) as u32,
            total_volume_distributed: (self.total_volume_distributed + self.contribution) as i128,
            ..self
        }
    }

    /// The circle after a payout to `recipient` has been asked for: with the payout
    /// recorded where it is owed, as it was where it is refused.
    pub open spec fn after_payout(self, recipient: Identity) -> CircleView {
        if self.payout_outcome(recipient) is Ok {
            self.paid(recipient)
        } else {
            self
        }
    }

    /// The notice that is due once every member has been paid, and only then.
    pub open spec fn completion_event(self) -> Option<CycleCompletedEvent> {
        if self.all_paid() {
            Some(
                CycleCompletedEvent {
                    group_id: self.id,
                    total_volume_distributed: self.total_volume_distributed,
                },
            )
        } else {
            None
        }
    }

    /// Whether finalizing asks the host for a random order: the circle wants a
    /// random queue and has none yet.
    pub open spec fn finalize_draws(self) -> bool {
        !self.is_finalized() && self.is_random_queue
    }

    /// Whether a rollover asks the host for a random order: the cycle can be closed
    /// and the circle wants a random queue.
    pub open spec fn rollover_draws(self) -> bool {
        self.rollover_outcome() is Ok && self.is_random_queue
    }

    /// Every member once: in the given order where the circle asks for a random
    /// queue, in joining order otherwise.
    pub open spec fn lined_up(self, order: Seq<u32>) -> Seq<Identity> {
        if self.is_random_queue {
            arranged(self.members, order)
        } else {
            self.members
        }
    }

    /// The circle after its queue has been finalized with the given order: as it
    /// was where a queue stood already, else with every member lined up.
    pub open spec fn finalized_with(self, order: Seq<u32>) -> CircleView {
        if self.is_finalized() {
            self
        } else {
            CircleView { payout_queue: self.lined_up(order), ..self }
        }
    }

    /// The circle after its cycle has been closed with the given order: the next
    /// cycle is open, nobody is paid in it, nothing is distributed, and a random
    /// queue holds every member in that order while any other queue stays.
    pub open spec fn rolled_with(self, order: Seq<u32>) -> CircleView {
        CircleView {
            payout_queue: if self.is_random_queue {
                arranged(self.members, order)
            } else {
                self.payout_queue
            },
            has_received_payout: Seq::new(self.members.len(), |i: int| false),
            cycle_number: (self.cycle_number + 1) as u32,
            current_payout_index: 0,
            total_volume_distributed: 0,
            ..self
        }
    }

    /// Whether `next` is this circle after its queue has been finalized: unchanged
    /// where a queue stood already, else with a queue that holds every member once,
    /// in joining order unless the circle asks for a random one.
    pub open spec fn finalizes_to(self, next: CircleView) -> bool {
        if self.is_finalized() {
            next == self
        } else {
            &&& next == (CircleView { payout_queue: next.payout_queue, ..self })
            &&& is_permutation(next.payout_queue, self.members)
            &&& !self.is_random_queue ==> next.payout_queue == self.members
        }
    }

    /// Whether the running cycle may be closed, and if not, why not.
    pub open spec fn rollover_outcome(self) -> Result<(), Error> {
        if !self.is_finalized() {
            Err(Error::CircleNotFinalized)
        } else if !self.all_paid() {
            Err(Error::CycleNotComplete)
        } else {
            Ok(())
        }
    }

    /// Whether `next` is this circle after its cycle has been closed: the next cycle
    /// is open, nobody is paid in it, nothing is distributed, and a random queue has
    /// been drawn again over all members while any other queue stays.
    pub open spec fn rolls_to(self, next: CircleView) -> bool {
        &&& next == (CircleView {
            payout_queue: next.payout_queue,
            has_received_payout: Seq::new(self.members.len(), |i: int| false),
            cycle_number: (self.cycle_number + 1) as u32,
            current_payout_index: 0,
            total_volume_distributed: 0,
            ..self
        })
        &&& if self.is_random_queue {
            is_permutation(next.payout_queue, self.members)
        } else {
            next.payout_queue == self.payout_queue
        }
    }

    /// The notice that follows a rollover.
    pub open spec fn rollover_event(self) -> GroupRolloverEvent {
        GroupRolloverEvent { group_id: self.id, new_cycle_number: self.cycle_number }
    }
}

/// A flag that is not set does not count.
pub proof fn lemma_paid_count_push_unpaid(flags: Seq<bool>)
    ensures
        paid_count(flags.push(false)) == paid_count(flags),
{
    assert(flags.push(false).drop_last() =~= flags);
}

/// No more flags are set than there are flags, and all are set exactly when the
/// count reaches their number.
pub proof fn lemma_paid_count_bounds(flags: Seq<bool>)
    ensures
        paid_count(flags) <= flags.len(),
        paid_count(flags) == flags.len() <==> (forall|i: int| 0 <= i < flags.len() ==> flags[i]),
    decreases flags.len(),
{
    if flags.len() > 0 {
        let front = flags.drop_last();
        lemma_paid_count_bounds(front);
        if paid_count(flags) == flags.len() {
            assert forall|i: int| 0 <= i < flags.len() implies flags[i] by {
                if i < front.len() {
                    assert(front[i] == flags[i]);
                }
            }
        }
        if forall|i: int| 0 <= i < flags.len() ==> flags[i] {
            assert forall|i: int| 0 <= i < front.len() implies front[i] by {
                assert(front[i] == flags[i]);
            }
        }
    }
}

/// Setting a flag that was not set raises the count by one.
pub proof fn lemma_paid_count_set(flags: Seq<bool>, at: int)
    requires
        0 <= at < flags.len(),
        !flags[at],
    ensures
        paid_count(flags.update(at, true)) == paid_count(flags) + 1,
    decreases flags.len(),
{
    let after = flags.update(at, true);
    if at == flags.len() - 1 {
        assert(after.drop_last() =~= flags.drop_last());
    } else {
        assert(after.drop_last() =~= flags.drop_last().update(at, true));
        lemma_paid_count_set(flags.drop_last(), at);
    }
}

/// Where no flag is set, the count is zero.
pub proof fn lemma_paid_count_none(n: nat)
    ensures
        paid_count(Seq::new(n, |i: int| false)) == 0,
    decreases n,
{
    if n > 0 {
        assert(Seq::new(n, |i: int| false).drop_last() =~= Seq::new((n - 1) as nat, |i: int| false));
        lemma_paid_count_none((n - 1) as nat);
    }
}

impl Clone for Circle {
    fn clone(&self) -> (copy: Circle)
        ensures
            copy@ == self@,
    {
        Circle {
            id: self.id,
            admin: self.admin,
            contribution: self.contribution,
            members: self.members.clone(),
            is_random_queue: self.is_random_queue,
            payout_queue: self.payout_queue.clone(),
            has_received_payout: self.has_received_payout.clone(),
            cycle_number: self.cycle_number,
            current_payout_index: self.current_payout_index,
            total_volume_distributed: self.total_volume_distributed,
        }
    }
}

impl Circle {
    /// A circle as it is created: nobody in it, no queue, first cycle.
    pub fn new(id: u32, admin: Identity, contribution: i128, is_random_queue: bool) -> (circle:
        Circle)
        ensures
            circle@ == CircleView::fresh(id, admin, contribution, is_random_queue),
            circle@.wf(),
    {
        let circle = Circle {
            id,
            admin,
            contribution,
            members: Vec::new(),
            is_random_queue,
            payout_queue: Vec::new(),
            has_received_payout: Vec::new(),
            cycle_number: 1,
            current_payout_index: 0,
            total_volume_distributed: 0,
        };
        proof {
            lemma_fresh_is_wf(id, admin, contribution, is_random_queue);
        }
        circle
    }

    /// Whether every member has been paid in the running cycle.
    pub fn all_paid(&self) -> (all: bool)
        ensures
            all == self@.all_paid(),
    {
        let mut i: usize = 0;
        while i < self.has_received_payout.len()
            invariant
                i <= self.has_received_payout@.len(),
                forall|j: int| 0 <= j < i ==> self.has_received_payout@[j],
            decreases self.has_received_payout@.len() - i,
        {
            if !self.has_received_payout[i] {
                assert(!self@.has_received_payout[i as int]);
                return false;
            }
            i += 1;
        }
        true
    }

    /// Where the circle stands in its life.
    pub fn phase(&self) -> (phase: Phase)
        ensures
            phase == self@.phase(),
    {
        if self.payout_queue.len() == 0 {
            Phase::Open
        } else if self.all_paid() {
            Phase::CycleComplete
        } else {
            Phase::Finalized
        }
    }

    /// Whether one more contribution can be added to the volume of the running cycle
    /// without leaving the range of the amounts.
    pub fn payout_fits(&self) -> (fits: bool)
        ensures
            fits == self@.payout_fits(),
    {
        self.total_volume_distributed.checked_add(self.contribution).is_some()
    }

    /// Whether `recipient` may be paid, and if not, why not.
    pub fn payout_outcome(&self, recipient: Identity) -> (outcome: Result<(), Error>)
        requires
            self@.wf(),
        ensures
            outcome == self@.payout_outcome(recipient),
    {
        match position_of(&self.members, recipient) {
            Some(at) => {
                assert(self@.members.index_of(recipient) == at);
                if self.has_received_payout[at] {
                    Err(Error::Unauthorized)
                } else {
                    Ok(())
                }
            },
            None => Err(Error::Unauthorized),
        }
    }

    /// Whether the running cycle may be closed, and if not, why not.
    pub fn rollover_outcome(&self) -> (outcome: Result<(), Error>)
        ensures
            outcome == self@.rollover_outcome(),
    {
        if self.payout_queue.len() == 0 {
            Err(Error::CircleNotFinalized)
        } else if !self.all_paid() {
            Err(Error::CycleNotComplete)
        } else {
            Ok(())
        }
    }

    /// Takes `who` into the circle, last in line and not yet paid, unless `who` is
    /// in it already or the circle is full.
    pub fn join(&mut self, who: Identity) -> (outcome: Result<(), Error>)
        requires
            old(self)@.wf(),
        ensures
            outcome == old(self)@.join_outcome(who),
            outcome is Ok ==> final(self)@ == old(self)@.joined(who),
            outcome is Err ==> final(self)@ == old(self)@,
            final(self)@.wf(),
    {
        if position_of(&self.members, who).is_some() {
            return Err(Error::AlreadyJoined);
        }
        if self.members.len() >= MAX_MEMBERS as usize {
            return Err(Error::MaxMembersReached);
        }
        self.members.push(who);
        self.has_received_payout.push(false);
        proof {
            lemma_join_keeps_wf(old(self)@, who);
        }
        Ok(())
    }

    /// Records the payout of `recipient` for the running cycle, unless `recipient`
    /// is no member or has been paid already. The notice is returned when this
    /// payout was the last one owed. Where the payout is owed, the volume of the
    /// cycle must have room for one more contribution.
    pub fn pay(&mut self, recipient: Identity) -> (outcome: Result<
        Option<CycleCompletedEvent>,
        Error,
    >)
        requires
            old(self)@.wf(),
            old(self)@.owes(recipient) ==> old(self)@.payout_fits(),
        ensures
            match outcome {
                Ok(event) => {
                    &&& old(self)@.payout_outcome(recipient) is Ok
                    &&& final(self)@ == old(self)@.paid(recipient)
                    &&& event == final(self)@.completion_event()
                },
                Err(e) => {
                    &&& old(self)@.payout_outcome(recipient) == Err::<(), Error>(e)
                    &&& final(self)@ == old(self)@
                },
            },
            final(self)@ == old(self)@.after_payout(recipient),
            final(self)@.wf(),
    {
        let at = match position_of(&self.members, recipient) {
            Some(at) => at,
            None => {
                return Err(Error::Unauthorized);
            },
        };
        assert(self@.members.index_of(recipient) == at);
        if self.has_received_payout[at] {
            return Err(Error::Unauthorized);
        }
        proof {
            lemma_payout_adds_contribution(self@, recipient);
        }
        self.has_received_payout.set(at, true);
        self.current_payout_index += 1;
        self.total_volume_distributed += self.contribution;
        let event = if self.all_paid() {
            Some(
                CycleCompletedEvent {
                    group_id: self.id,
                    total_volume_distributed: self.total_volume_distributed,
                },
            )
        } else {
            None
        };
        Ok(event)
    }

    /// Every member once: in joining order, or, where the circle asks for a random
    /// queue, in the order that was drawn; `None` where an order was needed and none
    /// was drawn.
    pub fn line_up(&self, drawn: Option<&Vec<u32>>) -> (queue: Option<Vec<Identity>>)
        requires
            self@.wf(),
            drawn matches Some(order) ==> is_order(order@, self@.members.len()),
        ensures
            queue is None <==> self@.is_random_queue && drawn is None,
            queue matches Some(line) ==> {
                &&& line@ == self@.lined_up(drawn_order(drawn))
                &&& line@.len() == self@.members.len()
                &&& is_permutation(line@, self@.members)
            },
    {
        if self.is_random_queue {
            match drawn {
                Some(order) => {
                    proof {
                        lemma_order_facts(order@, self@.members.len());
                        lemma_arranged_permutes(self@.members, order@);
                    }
                    Some(arrange(&self.members, order))
                },
                None => None,
            }
        } else {
            Some(self.members.clone())
        }
    }

    /// Builds the payout queue where none stands yet, from the order that was
    /// drawn where the circle asks for a random queue and in joining order
    /// otherwise. A circle that has its queue is left as it is. Fails with
    /// `RandomSourceUnavailable`, and changes nothing, exactly where an order was
    /// needed and none was drawn.
    pub fn finalize_with(&mut self, drawn: Option<&Vec<u32>>) -> (outcome: Result<(), Error>)
        requires
            old(self)@.wf(),
            drawn matches Some(order) ==> is_order(order@, old(self)@.members.len()),
        ensures
            outcome is Err <==> old(self)@.finalize_draws() && drawn is None,
            outcome matches Err(e) ==> e == Error::RandomSourceUnavailable && final(self)@ == old(
                self,
            )@,
            outcome is Ok ==> final(self)@ == old(self)@.finalized_with(drawn_order(drawn)),
            outcome is Ok ==> old(self)@.finalizes_to(final(self)@),
            outcome is Ok && !old(self)@.is_finalized() ==> final(self)@.payout_queue.len() == old(
                self,
            )@.members.len(),
            final(self)@.wf(),
    {
        if self.payout_queue.len() > 0 {
            return Ok(());
        }
        match self.line_up(drawn) {
            Some(queue) => {
                self.payout_queue = queue;
                proof {
                    lemma_finalize_keeps_wf(old(self)@, self@);
                }
                Ok(())
            },
            None => Err(Error::RandomSourceUnavailable),
        }
    }

    /// Builds the payout queue where none stands yet: every member once, in joining
    /// order, or in an order drawn from the host's generator where the circle asks
    /// for a random queue. A circle that has its queue is left as it is.
    ///
    /// Succeeds whenever no order has to be drawn. Where one has to be drawn and
    /// the host does not serve the draw, as it does not outside a contract
    /// invocation, fails with `RandomSourceUnavailable` and changes nothing.
    pub fn finalize(&mut self, env: &Env) -> (outcome: Result<(), Error>)
        requires
            old(self)@.wf(),
        ensures
            match outcome {
                Ok(_) => old(self)@.finalizes_to(final(self)@),
                Err(e) => {
                    &&& e == Error::RandomSourceUnavailable
                    &&& old(self)@.finalize_draws()
                    &&& final(self)@ == old(self)@
                },
            },
            !old(self)@.finalize_draws() ==> outcome is Ok,
            final(self)@.wf(),
    {
        let drawn = if self.payout_queue.len() == 0 && self.is_random_queue {
            draw_order(env, self.members.len() as u32)
        } else {
            None
        };
        self.finalize_with(drawn.as_ref())
    }

    /// Closes the running cycle and opens the next, unless the queue has not been
    /// built or a member is still owed. Nobody is paid in the new cycle; a random
    /// queue is built again over all members from the order that was drawn, any
    /// other queue stays as it is. Fails with `RandomSourceUnavailable` exactly
    /// where the cycle can be closed, an order was needed and none was drawn.
    /// Every failure changes nothing. The cycle number must have room to rise.
    pub fn roll_over_with(&mut self, drawn: Option<&Vec<u32>>) -> (outcome: Result<
        GroupRolloverEvent,
        Error,
    >)
        requires
            old(self)@.wf(),
            old(self)@.rollover_outcome() is Ok ==> old(self)@.cycle_number < u32::MAX,
            drawn matches Some(order) ==> is_order(order@, old(self)@.members.len()),
        ensures
            match outcome {
                Ok(event) => {
                    &&& old(self)@.rollover_outcome() is Ok
                    &&& final(self)@ == old(self)@.rolled_with(drawn_order(drawn))
                    &&& old(self)@.rolls_to(final(self)@)
                    &&& event == final(self)@.rollover_event()
                },
                Err(e) => {
                    &&& final(self)@ == old(self)@
                    &&& if old(self)@.rollover_outcome() is Ok {
                        e == Error::RandomSourceUnavailable
                    } else {
                        old(self)@.rollover_outcome() == Err::<(), Error>(e)
                    }
                },
            },
            outcome is Err <==> old(self)@.rollover_outcome() is Err || (old(
                self,
            )@.rollover_draws() && drawn is None),
            final(self)@.wf(),
    {
        if let Err(e) = self.rollover_outcome() {
            return Err(e);
        }
        if self.is_random_queue {
            match self.line_up(drawn) {
                Some(queue) => {
                    self.payout_queue = queue;
                },
                None => {
                    return Err(Error::RandomSourceUnavailable);
                },
            }
        }
        self.cycle_number += 1;
        self.current_payout_index = 0;
        self.total_volume_distributed = 0;
        let n = self.has_received_payout.len();
        let mut flags: Vec<bool> = Vec::new();
        let mut i: usize = 0;
        while i < n
            invariant
                i <= n,
                flags@ == Seq::new(i as nat, |k: int| false),
            decreases n - i,
        {
            flags.push(false);
            assert(flags@ =~= Seq::new((i + 1) as nat, |k: int| false));
            i += 1;
        }
        self.has_received_payout = flags;
        proof {
            lemma_rollover_opens_clean_cycle(old(self)@, self@);
        }
        Ok(GroupRolloverEvent { group_id: self.id, new_cycle_number: self.cycle_number })
    }

    /// Closes the running cycle and opens the next, unless the queue has not been
    /// built or a member is still owed. Nobody is paid in the new cycle; a random
    /// queue is drawn again over all members, any other queue stays as it is.
    ///
    /// Where the cycle can be closed and no order has to be drawn, succeeds. Where
    /// one has to be drawn and the host does not serve the draw, as it does not
    /// outside a contract invocation, fails with `RandomSourceUnavailable` and
    /// changes nothing. The cycle number must have room to rise.
    pub fn roll_over(&mut self, env: &Env) -> (outcome: Result<GroupRolloverEvent, Error>)
        requires
            old(self)@.wf(),
            old(self)@.rollover_outcome() is Ok ==> old(self)@.cycle_number < u32::MAX,
        ensures
            match outcome {
                Ok(event) => {
                    &&& old(self)@.rollover_outcome() is Ok
                    &&& old(self)@.rolls_to(final(self)@)
                    &&& event == final(self)@.rollover_event()
                },
                Err(e) => {
                    &&& final(self)@ == old(self)@
                    &&& if e == Error::RandomSourceUnavailable {
                        old(self)@.rollover_draws()
                    } else {
                        old(self)@.rollover_outcome() == Err::<(), Error>(e)
                    }
                },
            },
            old(self)@.rollover_outcome() is Err ==> outcome is Err,
            old(self)@.rollover_outcome() is Ok && !old(self)@.is_random_queue ==> outcome is Ok,
            final(self)@.wf(),
    {
        let drawn = if self.is_random_queue && self.rollover_outcome().is_ok() {
            draw_order(env, self.members.len() as u32)
        } else {
            None
        };
        self.roll_over_with(drawn.as_ref())
    }
}

} // verus!
