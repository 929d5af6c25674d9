use vstd::prelude::*;
use soroban_sdk::Env;
use crate::circle::{Circle, CycleCompletedEvent, Error, GroupRolloverEvent};
use crate::identity::Identity;
use crate::store::{next_circle_id, read_circle, write_circle, Store, StoreView};

verus! {

/// The operations on circles. Each takes the records it works on, and whether
/// the identity that asks has been confirmed to have authorized the call. The
/// two that may draw a random queue also take the host environment, whose
/// generator serves contract invocations only: outside one they refuse to draw
/// and say so in their result.
pub struct SoroSusu;

impl StoreView {
    /// Whether `who` may join circle `id`, and if not, why not.
    pub open spec fn join_verdict(self, authorized: bool, who: Identity, id: u32) -> Result<
        (),
        Error,
    > {
        if !authorized {
            Err(Error::Unauthorized)
        } else if !self.circles.contains_key(id) {
            Err(Error::CircleNotFound)
        } else {
            self.circles[id].join_outcome(who)
        }
    }

    /// Whether `admin` may act as the administrator of circle `id`, and if not,
    /// why not: the call must be authorized, the circle on record, and `admin` the
    /// identity that created it.
    pub open spec fn admin_verdict(self, authorized: bool, admin: Identity, id: u32) -> Result<
        (),
        Error,
    > {
        if !authorized {
            Err(Error::Unauthorized)
        } else if !self.circles.contains_key(id) {
            Err(Error::CircleNotFound)
        } else if self.circles[id].admin != admin {
            Err(Error::Unauthorized)
        } else {
            Ok(())
        }
    }

    /// Whether `admin` may record a payout to `recipient` in circle `id`, and if
    /// not, why not.
    pub open spec fn payout_verdict(
        self,
        authorized: bool,
        admin: Identity,
        id: u32,
        recipient: Identity,
    ) -> Result<(), Error> {
        match self.admin_verdict(authorized, admin, id) {
            Ok(_) => self.circles[id].payout_outcome(recipient),
            Err(e) => Err(e),
        }
    }

    /// Whether finalizing circle `id` asks the host for a random order: the call is
    /// admitted, and the circle wants a random queue and has none yet.
    pub open spec fn finalize_draws(self, authorized: bool, admin: Identity, id: u32) -> bool {
        self.admin_verdict(authorized, admin, id) is Ok && self.circles[id].finalize_draws()
    }

    /// Whether rolling circle `id` over asks the host for a random order: the call
    /// is admitted, the cycle can be closed, and the circle wants a random queue.
    pub open spec fn rollover_draws(self, authorized: bool, admin: Identity, id: u32) -> bool {
        self.rollover_verdict(authorized, admin, id) is Ok && self.circles[id].is_random_queue
    }

    /// Whether `admin` may close the running cycle of circle `id`, and if not, why
    /// not.
    pub open spec fn rollover_verdict(self, authorized: bool, admin: Identity, id: u32) -> Result<
        (),
        Error,
    > {
        match self.admin_verdict(authorized, admin, id) {
            Ok(_) => self.circles[id].rollover_outcome(),
            Err(e) => Err(e),
        }
    }
}

impl SoroSusu {
    /// Creates a circle for `admin` and returns its identifier, which is one above
    /// the last that was given out; no circle on record is touched. Fails with
    /// `Unauthorized`, and changes nothing, where `admin` has not authorized the
    /// call. For an authorized call an identifier must be left.
    pub fn create_circle(
        store: &mut Store,
        authorized: bool,
        admin: Identity,
        contribution: i128,
        is_random_queue: bool,
    ) -> (outcome: Result<u32, Error>)
        requires
            old(store)@.wf(),
            authorized ==> old(store)@.has_identifiers_left(),
        ensures
            match outcome {
                Ok(id) => {
                    &&& authorized
                    &&& id == old(store)@.next_id()
                    &&& !old(store)@.circles.contains_key(id)
                    &&& final(store)@ == old(store)@.created(admin, contribution, is_random_queue)
                },
                Err(e) => !authorized && e == Error::Unauthorized && final(store)@ == old(store)@,
            },
            final(store)@.wf(),
    {
        if !authorized {
            return Err(Error::Unauthorized);
        }
        let id = next_circle_id(store);
        let circle = Circle::new(id, admin, contribution, is_random_queue);
        write_circle(store, id, &circle);
        Ok(id)
    }

    /// Takes `invoker` into circle `circle_id`. Fails, and changes nothing, where
    /// the call is not authorized, the circle is not on record, `invoker` is a
    /// member already, or the circle is full.
    pub fn join_circle(store: &mut Store, authorized: bool, invoker: Identity, circle_id: u32) -> (outcome:
        Result<(), Error>)
        requires
            old(store)@.wf(),
        ensures
            outcome == old(store)@.join_verdict(authorized, invoker, circle_id),
            outcome is Ok ==> final(store)@ == old(store)@.with_circle(
                circle_id,
                old(store)@.circles[circle_id].joined(invoker),
            ),
            outcome is Err ==> final(store)@ == old(store)@,
            final(store)@.wf(),
    {
        if !authorized {
            return Err(Error::Unauthorized);
        }
        let mut circle = match read_circle(store, circle_id) {
            Ok(circle) => circle,
            Err(e) => {
                return Err(e);
            },
        };
        match circle.join(invoker) {
            Ok(_) => {
                write_circle(store, circle_id, &circle);
                Ok(())
            },
            Err(e) => Err(e),
        }
    }

    /// Whether `admin` may record a payout to `recipient` in circle `circle_id` as
    /// the records stand, and if not, why not. Changes nothing.
    pub fn payout_verdict(
        store: &Store,
        authorized: bool,
        admin: Identity,
        circle_id: u32,
        recipient: Identity,
    ) -> (verdict: Result<(), Error>)
        requires
            store@.wf(),
        ensures
            verdict == store@.payout_verdict(authorized, admin, circle_id, recipient),
    {
        if !authorized {
            return Err(Error::Unauthorized);
        }
        let circle = match read_circle(store, circle_id) {
            Ok(circle) => circle,
            Err(e) => {
                return Err(e);
            },
        };
        if admin != circle.admin {
            return Err(Error::Unauthorized);
        }
        circle.payout_outcome(recipient)
    }

    /// Whether `admin` may close the running cycle of circle `circle_id` as the
    /// records stand, and if not, why not. Changes nothing.
    pub fn rollover_verdict(store: &Store, authorized: bool, admin: Identity, circle_id: u32) -> (verdict:
        Result<(), Error>)
        requires
            store@.wf(),
        ensures
            verdict == store@.rollover_verdict(authorized, admin, circle_id),
    {
        if !authorized {
            return Err(Error::Unauthorized);
        }
        let circle = match read_circle(store, circle_id) {
            Ok(circle) => circle,
            Err(e) => {
                return Err(e);
            },
        };
        if admin != circle.admin {
            return Err(Error::Unauthorized);
        }
        circle.rollover_outcome()
    }

    /// Records the payout of `recipient` in circle `circle_id`, and returns the
    /// notice that is due when it was the last payout owed in the cycle. Fails, and
    /// changes nothing, where the call is not authorized, the circle is not on
    /// record, `admin` is not its administrator, `recipient` is not a member, or
    /// `recipient` has been paid in this cycle. Payouts are not held to the order
    /// of the queue. Where the payout is due, the volume of the cycle must have
    /// room for one more contribution.
    pub fn process_payout(
        store: &mut Store,
        authorized: bool,
        admin: Identity,
        circle_id: u32,
        recipient: Identity,
    ) -> (outcome: Result<Option<CycleCompletedEvent>, Error>)
        requires
            old(store)@.wf(),
            old(store)@.payout_verdict(authorized, admin, circle_id, recipient) is Ok ==> old(
                store,
            )@.circles[circle_id].payout_fits(),
        ensures
            match outcome {
                Ok(event) => {
                    let paid = old(store)@.circles[circle_id].paid(recipient);
                    &&& old(store)@.payout_verdict(authorized, admin, circle_id, recipient) is Ok
                    &&& final(store)@ == old(store)@.with_circle(circle_id, paid)
                    &&& event == paid.completion_event()
                },
                Err(e) => {
                    &&& old(store)@.payout_verdict(authorized, admin, circle_id, recipient)
                        == Err::<(), Error>(e)
                    &&& final(store)@ == old(store)@
                },
            },
            final(store)@.wf(),
    {
        if !authorized {
            return Err(Error::Unauthorized);
        }
        let mut circle = match read_circle(store, circle_id) {
            Ok(circle) => circle,
            Err(e) => {
                return Err(e);
            },
        };
        if admin != circle.admin {
            return Err(Error::Unauthorized);
        }
        match circle.pay(recipient) {
            Ok(event) => {
                write_circle(store, circle_id, &circle);
                Ok(event)
            },
            Err(e) => Err(e),
        }
    }

    /// Closes the running cycle of circle `circle_id`, opens the next, and returns
    /// the notice of it. Fails, and changes nothing, where the call is not
    /// authorized, the circle is not on record, `admin` is not its administrator,
    /// the queue has not been built, or a member is still owed. Where none of
    /// these holds and the queue is not random, succeeds. Where a random queue has
    /// to be drawn again and the host does not serve the draw, as it does not
    /// outside a contract invocation, fails with `RandomSourceUnavailable` and
    /// changes nothing. Where the cycle can be closed, its number must have room
    /// to rise.
    pub fn rollover_group(
        env: &Env,
        store: &mut Store,
        authorized: bool,
        admin: Identity,
        circle_id: u32,
    ) -> (outcome: Result<GroupRolloverEvent, Error>)
        requires
            old(store)@.wf(),
            old(store)@.rollover_verdict(authorized, admin, circle_id) is Ok ==> old(
                store,
            )@.circles[circle_id].cycle_number < u32::MAX,
        ensures
            match outcome {
                Ok(event) => {
                    let next = final(store)@.circles[circle_id];
                    &&& old(store)@.rollover_verdict(authorized, admin, circle_id) is Ok
                    &&& final(store)@ == old(store)@.with_circle(circle_id, next)
                    &&& old(store)@.circles[circle_id].rolls_to(next)
                    &&& event == next.rollover_event()
                },
                Err(e) => {
                    &&& final(store)@ == old(store)@
                    &&& if e == Error::RandomSourceUnavailable {
                        old(store)@.rollover_draws(authorized, admin, circle_id)
                    } else {
                        old(store)@.rollover_verdict(authorized, admin, circle_id) == Err::<
                            (),
                            Error,
                        >(e)
                    }
                },
            },
            old(store)@.rollover_verdict(authorized, admin, circle_id) is Err ==> outcome is Err,
            old(store)@.rollover_verdict(authorized, admin, circle_id) is Ok && !old(
                store,
            )@.rollover_draws(authorized, admin, circle_id) ==> outcome is Ok,
            final(store)@.wf(),
    {
        if !authorized {
            return Err(Error::Unauthorized);
        }
        let mut circle = match read_circle(store, circle_id) {
            Ok(circle) => circle,
            Err(e) => {
                return Err(e);
            },
        };
        if admin != circle.admin {
            return Err(Error::Unauthorized);
        }
        match circle.roll_over(env) {
            Ok(event) => {
                write_circle(store, circle_id, &circle);
                Ok(event)
            },
            Err(e) => Err(e),
        }
    }

    /// Builds the payout queue of circle `circle_id` where none stands yet, and
    /// leaves a circle that has its queue as it is. Fails, and changes nothing,
    /// where the call is not authorized, the circle is not on record, or `admin` is
    /// not its administrator. Where none of these holds and no random queue has to
    /// be drawn, succeeds. Where one has to be drawn and the host does not serve
    /// the draw, as it does not outside a contract invocation, fails with
    /// `RandomSourceUnavailable` and changes nothing.
    pub fn finalize_circle(
        env: &Env,
        store: &mut Store,
        authorized: bool,
        admin: Identity,
        circle_id: u32,
    ) -> (outcome: Result<(), Error>)
        requires
            old(store)@.wf(),
        ensures
            match outcome {
                Ok(_) => {
                    let next = final(store)@.circles[circle_id];
                    &&& old(store)@.admin_verdict(authorized, admin, circle_id) is Ok
                    &&& final(store)@ == old(store)@.with_circle(circle_id, next)
                    &&& old(store)@.circles[circle_id].finalizes_to(next)
                },
                Err(e) => {
                    &&& final(store)@ == old(store)@
                    &&& if e == Error::RandomSourceUnavailable {
                        old(store)@.finalize_draws(authorized, admin, circle_id)
                    } else {
                        old(store)@.admin_verdict(authorized, admin, circle_id) == Err::<
                            (),
                            Error,
                        >(e)
                    }
                },
            },
            old(store)@.admin_verdict(authorized, admin, circle_id) is Err ==> outcome is Err,
            old(store)@.admin_verdict(authorized, admin, circle_id) is Ok && !old(
                store,
            )@.finalize_draws(authorized, admin, circle_id) ==> outcome is Ok,
            final(store)@.wf(),
    {
        if !authorized {
            return Err(Error::Unauthorized);
        }
        let mut circle = match read_circle(store, circle_id) {
            Ok(circle) => circle,
            Err(e) => {
                return Err(e);
            },
        };
        if admin != circle.admin {
            return Err(Error::Unauthorized);
        }
        match circle.finalize(env) {
            Ok(_) => {
                write_circle(store, circle_id, &circle);
                Ok(())
            },
            Err(e) => Err(e),
        }
    }

    /// The payout queue of circle `circle_id`.
    pub fn get_payout_queue(store: &Store, circle_id: u32) -> (outcome: Result<
        Vec<Identity>,
        Error,
    >)
        ensures
            match outcome {
                Ok(queue) => {
                    &&& store@.circles.contains_key(circle_id)
                    &&& queue@ == store@.circles[circle_id].payout_queue
                },
                Err(e) => e == Error::CircleNotFound && !store@.circles.contains_key(circle_id),
            },
    {
        match read_circle(store, circle_id) {
            Ok(circle) => Ok(circle.payout_queue),
            Err(e) => Err(e),
        }
    }

    /// The number of the running cycle of circle `circle_id`, the payouts made in
    /// it, and the volume distributed in it.
    pub fn get_cycle_info(store: &Store, circle_id: u32) -> (outcome: Result<
        (u32, u32, i128),
        Error,
    >)
        ensures
            match outcome {
                Ok(info) => {
                    let circle = store@.circles[circle_id];
                    &&& store@.circles.contains_key(circle_id)
                    &&& info == (
                        circle.cycle_number,
                        circle.current_payout_index,
                        circle.total_volume_distributed,
                    )
                },
                Err(e) => e == Error::CircleNotFound && !store@.circles.contains_key(circle_id),
            },
    {
        match read_circle(store, circle_id) {
            Ok(circle) => Ok(
                (
                    circle.cycle_number,
                    circle.current_payout_index,
                    circle.total_volume_distributed,
                ),
            ),
            Err(e) => Err(e),
        }
    }

    /// For each member of circle `circle_id`, in joining order, whether the member
    /// has been paid in the running cycle.
    pub fn get_payout_status(store: &Store, circle_id: u32) -> (outcome: Result<Vec<bool>, Error>)
        ensures
            match outcome {
                Ok(flags) => {
                    &&& store@.circles.contains_key(circle_id)
                    &&& flags@ == store@.circles[circle_id].has_received_payout
                },
                Err(e) => e == Error::CircleNotFound && !store@.circles.contains_key(circle_id),
            },
    {
        match read_circle(store, circle_id) {
            Ok(circle) => Ok(circle.has_received_payout),
            Err(e) => Err(e),
        }
    }
}

} // verus!
