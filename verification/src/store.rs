use vstd::prelude::*;
use std::collections::HashMap;
use crate::circle::{Circle, CircleView, Error};
use crate::identity::Identity;

verus! {

broadcast use vstd::std_specs::hash::group_hash_axioms;

/// The name under which a record is kept.
#[derive(Clone, Copy, Debug, PartialEq, Eq, Structural)]
pub enum DataKey {
    /// The circle with the given identifier.
    Circle(u32),
    /// The number of identifiers given out so far.
    CircleCount,
}

/// The records of all circles, and the counter their identifiers come from.
pub struct Store {
    count: Option<u32>,
    circles: HashMap<u32, Circle>,
}

/// What a [`Store`] holds, as mathematical values.
pub struct StoreView {
    /// The last identifier given out, once one has been.
    pub count: Option<u32>,
    /// The circles on record, by identifier.
    pub circles: Map<u32, CircleView>,
}

impl StoreView {
    /// The last identifier given out, or zero where none has been.
    pub open spec fn issued(self) -> u32 {
        match self.count {
            Some(n) => n,
            None => 0,
        }
    }

    /// The identifier that the next circle gets: one more than the last.
    pub open spec fn next_id(self) -> int {
        self.issued() + 1
    }

    /// Whether an identifier is left for one more circle.
    pub open spec fn has_identifiers_left(self) -> bool {
        self.issued() < u32::MAX
    }

    /// These records after a circle has been created: the next identifier is
    /// counted, and a fresh circle is kept under it.
    pub open spec fn created(
        self,
        admin: Identity,
        contribution: i128,
        is_random_queue: bool,
    ) -> StoreView {
        let id = self.next_id() as u32;
        StoreView {
            count: Some(id),
            circles: self.circles.insert(
                id,
                CircleView::fresh(id, admin, contribution, is_random_queue),
            ),
        }
    }

    /// Whether a record is kept under `key`.
    pub open spec fn holds(self, key: DataKey) -> bool {
        match key {
            DataKey::Circle(id) => self.circles.contains_key(id),
            DataKey::CircleCount => self.count is Some,
        }
    }

    /// These records with `circle` kept under `id`.
    pub open spec fn with_circle(self, id: u32, circle: CircleView) -> StoreView {
        StoreView { circles: self.circles.insert(id, circle), ..self }
    }

    /// What holds of the records after every successful operation: each circle is
    /// well formed and kept under its own identifier, and no identifier is in use
    /// that has not been given out.
    pub open spec fn wf(self) -> bool {
        forall|id: u32| #[trigger]
            self.circles.contains_key(id) ==> {
                &&& self.circles[id].wf()
                &&& self.circles[id].id == id
                &&& 1 <= id <= self.issued()
            }
    }
}

impl View for Store {
    type V = StoreView;

    closed spec fn view(&self) -> StoreView {
        StoreView {
            count: self.count,
            circles: Map::new(
                |id: u32| self.circles@.contains_key(id),
                |id: u32| self.circles@[id]@,
            ),
        }
    }
}

impl Store {
    /// Records with nothing in them.
    pub fn new() -> (store: Store)
        ensures
            store@.count is None,
            store@.circles == Map::<u32, CircleView>::empty(),
            store@.wf(),
    {
        let store = Store { count: None, circles: HashMap::new() };
        assert(store@.circles =~= Map::<u32, CircleView>::empty());
        store
    }

    /// Records that hold no circle yet, with the counter as given.
    pub fn starting_at(count: Option<u32>) -> (store: Store)
        ensures
            store@.count == count,
            store@.circles == Map::<u32, CircleView>::empty(),
            store@.wf(),
    {
        let store = Store { count, circles: HashMap::new() };
        assert(store@.circles =~= Map::<u32, CircleView>::empty());
        store
    }

    /// Whether a record is kept under `key`.
    pub fn has(&self, key: &DataKey) -> (held: bool)
        ensures
            held == self@.holds(*key),
    {
        match key {
            DataKey::Circle(id) => self.circles.contains_key(id),
            DataKey::CircleCount => self.count.is_some(),
        }
    }

    /// Takes `circle` on record under its own identifier, in place of what was kept
    /// there, if the circle is well formed and its identifier has been given out;
    /// says whether it did.
    pub fn restore(&mut self, circle: &Circle) -> (taken: bool)
        requires
            old(self)@.wf(),
        ensures
            taken == (circle@.wf() && 1 <= circle@.id <= old(self)@.issued()),
            taken ==> final(self)@ == old(self)@.with_circle(circle@.id, circle@),
            !taken ==> final(self)@ == old(self)@,
            final(self)@.wf(),
    {
        if circle.id < 1 || circle.id > self.issued() || !circle.is_well_formed() {
            return false;
        }
        write_circle(self, circle.id, circle);
        true
    }

    /// The last identifier given out, or zero where none has been.
    pub fn issued(&self) -> (n: u32)
        ensures
            n == self@.issued(),
    {
        match self.count {
            Some(n) => n,
            None => 0,
        }
    }
}

/// The circle on record under `id`.
pub fn read_circle(store: &Store, id: u32) -> (found: Result<Circle, Error>)
    ensures
        match found {
            Ok(circle) => store@.circles.contains_key(id) && circle@ == store@.circles[id],
            Err(e) => e == Error::CircleNotFound && !store@.circles.contains_key(id),
        },
{
    match store.circles.get(&id) {
        Some(circle) => Ok(circle.clone()),
        None => Err(Error::CircleNotFound),
    }
}

/// Puts `circle` on record under `id`, in place of what was kept there.
pub fn write_circle(store: &mut Store, id: u32, circle: &Circle)
    requires
        old(store)@.wf(),
        circle@.wf(),
        circle@.id == id,
        1 <= id <= old(store)@.issued(),
    ensures
        final(store)@ == old(store)@.with_circle(id, circle@),
        final(store)@.wf(),
{
    store.circles.insert(id, circle.clone());
    assert(store@.circles =~= old(store)@.circles.insert(id, circle@));
}

/// Gives out the next identifier and counts it. An identifier must be left.
pub fn next_circle_id(store: &mut Store) -> (id: u32)
    requires
        old(store)@.wf(),
        old(store)@.has_identifiers_left(),
    ensures
        id == old(store)@.next_id(),
        final(store)@ == (StoreView { count: Some(id), ..old(store)@ }),
        final(store)@.wf(),
{
    let current: u32 = match store.count {
        Some(n) => n,
        None => 0,
    };
    let next: u32 = current + 1;
    store.count = Some(next);
    assert(store@.circles =~= old(store)@.circles);
    next
}

} // verus!
