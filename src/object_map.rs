use vstd::prelude::*;
use crate::types::{is_first_free, Interface, InvalidId, SERVER_ID_LIMIT};

verus! {

/// Highest number of server-created objects that the id space can hold.
pub const SERVER_SLOTS: usize = 0x0100_0000;

/// Whether an object may still be used, or was destroyed and only absorbs
/// the messages that were already in flight.
#[derive(Clone, Copy, Debug, PartialEq, Eq, Structural)]
pub enum ObjectState {
    Live,
    Zombie,
}

/// What the table knows of one object.
#[derive(Clone, Copy, Debug)]
pub struct ObjectRecord {
    pub interface: Interface,
    pub version: u32,
    pub state: ObjectState,
}

/// Where an incoming message goes.
#[derive(Clone, Copy, Debug, PartialEq, Eq, Structural)]
pub enum Route {
    /// To the live object's handler.
    Deliver,
    /// Nowhere: it names an object that this side already destroyed.
    Swallow,
    /// It names no object: a protocol violation.
    Fault,
}

/// The objects of one connection. Client-assigned id `n` (from 1 up to
/// `SERVER_ID_LIMIT`) lives in `client_objects[n - 1]`; server-assigned id
/// `SERVER_ID_LIMIT + k` lives in `server_objects[k]`. `None` is a free id.
pub struct ObjectMap {
    pub client_objects: Vec<Option<ObjectRecord>>,
    pub server_objects: Vec<Option<ObjectRecord>>,
}

/// Whether `id` belongs to the client-assigned range.
pub open spec fn is_client_id(id: u32) -> bool {
    1 <= id < SERVER_ID_LIMIT
}

/// Whether `id` belongs to the server-assigned range.
pub open spec fn is_server_id(id: u32) -> bool {
    id >= SERVER_ID_LIMIT
}

/// Client-assigned and server-assigned ids never meet: every client id lies
/// below every server id.
pub proof fn lemma_id_ranges_disjoint(client_id: u32, server_id: u32)
    requires
        is_client_id(client_id),
        is_server_id(server_id),
    ensures
        client_id < SERVER_ID_LIMIT <= server_id,
        client_id != server_id,
{
}

/// An allocation that takes a free id and leaves every other id as it was,
/// as the allocating functions promise, never gives an id that an object
/// holds: every object that was there keeps its id, alone.
pub proof fn lemma_allocation_keeps_ids_unique(before: ObjectMap, after: ObjectMap, id: u32, other: u32)
    requires
        before.slot(id) is None,
        forall|o: u32| o != id ==> after.slot(o) == before.slot(o),
        before.slot(other) is Some,
    ensures
        other != id,
        after.slot(other) == before.slot(other),
{
}

/// The lowest free slot comes before every other free slot: a released id
/// is handed out again only after every lower free id.
pub proof fn lemma_lowest_free_first<T>(slots: Seq<Option<T>>, i: int, j: int)
    requires
        is_first_free(slots, i),
        0 <= j <= slots.len(),
        j < slots.len() ==> slots[j] is None,
    ensures
        i <= j,
{
}

/// Once this side destroyed an object, an event that the peer sent to it
/// is dropped without fault, while a request naming it is a fault.
pub proof fn lemma_zombie_swallows(before: ObjectMap, after: ObjectMap, id: u32)
    requires
        before.slot(id) matches Some(o) && o.state == ObjectState::Live,
        after.slot(id) == Some(
            ObjectRecord { state: ObjectState::Zombie, ..before.slot(id)->Some_0 },
        ),
    ensures
        after.event_route(id) == Route::Swallow,
        after.request_route(id) == Route::Fault,
{
}

impl ObjectMap {
    /// The slot that holds `id`, as stored: `None` for a free id.
    pub open spec fn slot(&self, id: u32) -> Option<ObjectRecord> {
        if is_client_id(id) && id - 1 < self.client_objects@.len() {
            self.client_objects@[id - 1]
        } else if is_server_id(id) && id - SERVER_ID_LIMIT < self.server_objects@.len() {
            self.server_objects@[id - SERVER_ID_LIMIT]
        } else {
            None
        }
    }

    /// The server range has room for one more object.
    pub open spec fn wf(&self) -> bool {
        self.server_objects@.len() <= SERVER_SLOTS
    }

    /// Where an event from the peer to `id` goes.
    pub open spec fn event_route(&self, id: u32) -> Route {
        match self.slot(id) {
            Some(o) => if o.state == ObjectState::Live {
                Route::Deliver
            } else {
                Route::Swallow
            },
            None => Route::Fault,
        }
    }

    /// Where a request from the client to `id` goes.
    pub open spec fn request_route(&self, id: u32) -> Route {
        if self.slot(id) matches Some(o) && o.state == ObjectState::Live {
            Route::Deliver
        } else {
            Route::Fault
        }
    }

    pub fn new() -> (r: Self)
        ensures
            r.wf(),
            r.client_objects@.len() == 0,
            r.server_objects@.len() == 0,
            forall|id: u32| r.slot(id) is None,
    {
        ObjectMap { client_objects: Vec::new(), server_objects: Vec::new() }
    }

    /// The object that holds `id`, live or zombie.
    pub fn find(&self, id: u32) -> (r: Option<ObjectRecord>)
        ensures
            r == self.slot(id),
    {
        if id == 0 {
            None
        } else if id < SERVER_ID_LIMIT {
            let i = (id - 1) as usize;
            if i < self.client_objects.len() {
                self.client_objects[i]
            } else {
                None
            }
        } else {
            let k = (id - SERVER_ID_LIMIT) as usize;
            if k < self.server_objects.len() {
                self.server_objects[k]
            } else {
                None
            }
        }
    }

    /// Gives a new server-created object the lowest free server id, growing
    /// the range when none is free.
    pub fn allocate_server_id(&mut self, interface: Interface, version: u32) -> (r: u32)
        requires
            old(self).wf(),
            old(self).server_objects@.len() < SERVER_SLOTS,
        ensures
            final(self).wf(),
            is_server_id(r),
            is_first_free(old(self).server_objects@, r - SERVER_ID_LIMIT),
            old(self).slot(r) is None,
            final(self).slot(r) == Some(
                ObjectRecord { interface, version, state: ObjectState::Live },
            ),
            forall|id: u32| id != r ==> final(self).slot(id) == old(self).slot(id),
            final(self).client_objects == old(self).client_objects,
    {
        let mut k: usize = 0;
        while k < self.server_objects.len()
            invariant
                k <= self.server_objects@.len(),
                forall|j: int| 0 <= j < k ==> self.server_objects@[j] is Some,
            ensures
                k <= self.server_objects@.len(),
                forall|j: int| 0 <= j < k ==> self.server_objects@[j] is Some,
                k < self.server_objects@.len() ==> self.server_objects@[k as int] is None,
            decreases self.server_objects@.len() - k,
        {
            if self.server_objects[k].is_none() {
                break;
            }
            k = k + 1;
        }
        let record = ObjectRecord { interface, version, state: ObjectState::Live };
        if k < self.server_objects.len() {
            self.server_objects.set(k, Some(record));
        } else {
            self.server_objects.push(Some(record));
        }
        SERVER_ID_LIMIT + k as u32
    }

    /// Takes a client-assigned id for a new object. Fails when the id lies
    /// outside the client range, is taken (live or zombie), or skips ahead
    /// of the next id that was never used.
    pub fn allocate_client_id(&mut self, id: u32, interface: Interface, version: u32) -> (r: Result<
        (),
        InvalidId,
    >)
        ensures
            r is Ok <==> is_client_id(id) && id - 1 <= old(self).client_objects@.len()
                && old(self).slot(id) is None,
            r is Ok ==> final(self).slot(id) == Some(
                ObjectRecord { interface, version, state: ObjectState::Live },
            ),
            r is Ok ==> forall|other: u32| other != id ==> final(self).slot(other) == old(self).slot(other),
            r is Err ==> final(self).client_objects == old(self).client_objects,
            final(self).server_objects == old(self).server_objects,
    {
        if id == 0 || id >= SERVER_ID_LIMIT {
            return Err(InvalidId);
        }
        let i = (id - 1) as usize;
        let record = ObjectRecord { interface, version, state: ObjectState::Live };
        if i == self.client_objects.len() {
            self.client_objects.push(Some(record));
            Ok(())
        } else if i < self.client_objects.len() && self.client_objects[i].is_none() {
            self.client_objects.set(i, Some(record));
            Ok(())
        } else {
            Err(InvalidId)
        }
    }

    /// Takes, on the receiving side, a server-assigned id that the peer
    /// announced for a new object. Fails when the id lies outside the server
    /// range, is taken (live or zombie), or skips ahead of the next id that
    /// was never used.
    pub fn insert_server_id(&mut self, id: u32, interface: Interface, version: u32) -> (r: Result<
        (),
        InvalidId,
    >)
        requires
            old(self).wf(),
        ensures
            final(self).wf(),
            r is Ok <==> is_server_id(id) && id - SERVER_ID_LIMIT <= old(self).server_objects@.len()
                && old(self).slot(id) is None,
            r is Ok ==> final(self).slot(id) == Some(
                ObjectRecord { interface, version, state: ObjectState::Live },
            ),
            r is Ok ==> forall|other: u32| other != id ==> final(self).slot(other) == old(self).slot(other),
            r is Err ==> final(self).server_objects == old(self).server_objects,
            final(self).client_objects == old(self).client_objects,
    {
        if id < SERVER_ID_LIMIT {
            return Err(InvalidId);
        }
        let k = (id - SERVER_ID_LIMIT) as usize;
        let record = ObjectRecord { interface, version, state: ObjectState::Live };
        if k == self.server_objects.len() {
            self.server_objects.push(Some(record));
            Ok(())
        } else if k < self.server_objects.len() && self.server_objects[k].is_none() {
            self.server_objects.set(k, Some(record));
            Ok(())
        } else {
            Err(InvalidId)
        }
    }

    /// Destroys a live object: its id stays taken, as a zombie, until `free`.
    /// Fails when `id` holds no live object.
    pub fn release(&mut self, id: u32) -> (r: Result<(), InvalidId>)
        requires
            old(self).wf(),
        ensures
            final(self).wf(),
            r is Ok <==> (old(self).slot(id) matches Some(o) && o.state == ObjectState::Live),
            r is Ok ==> final(self).slot(id) == Some(
                ObjectRecord { state: ObjectState::Zombie, ..old(self).slot(id)->Some_0 },
            ),
            forall|other: u32| other != id ==> final(self).slot(other) == old(self).slot(other),
            r is Err ==> final(self).slot(id) == old(self).slot(id),
    {
        match self.find(id) {
            Some(o) => {
                if o.state != ObjectState::Live {
                    return Err(InvalidId);
                }
                let zombie = Some(ObjectRecord { state: ObjectState::Zombie, ..o });
                if id < SERVER_ID_LIMIT {
                    self.client_objects.set((id - 1) as usize, zombie);
                } else {
                    self.server_objects.set((id - SERVER_ID_LIMIT) as usize, zombie);
                }
                Ok(())
            },
            None => Err(InvalidId),
        }
    }

    /// Frees an id once both sides agree its object is gone; the id may then
    /// be given out again.
    pub fn free(&mut self, id: u32)
        requires
            old(self).wf(),
        ensures
            final(self).wf(),
            final(self).slot(id) is None,
            forall|other: u32| other != id ==> final(self).slot(other) == old(self).slot(other),
    {
        if id == 0 {
            return;
        } else if id < SERVER_ID_LIMIT {
            let i = (id - 1) as usize;
            if i < self.client_objects.len() {
                self.client_objects.set(i, None);
            }
        } else {
            let k = (id - SERVER_ID_LIMIT) as usize;
            if k < self.server_objects.len() {
                self.server_objects.set(k, None);
            }
        }
    }

    /// Where an event that the peer sent to one of this side's objects
    /// goes: a zombie absorbs it, since the peer sent it before it learned
    /// of the destruction.
    pub fn route_event(&self, id: u32) -> (r: Route)
        ensures
            r == self.event_route(id),
    {
        match self.find(id) {
            Some(o) => if o.state == ObjectState::Live {
                Route::Deliver
            } else {
                Route::Swallow
            },
            None => Route::Fault,
        }
    }

    /// Where a request that the client sent goes: the client may not name an
    /// object it destroyed, so anything but a live object is a fault.
    pub fn route_request(&self, id: u32) -> (r: Route)
        ensures
            r == self.request_route(id),
    {
        match self.find(id) {
            Some(o) => if o.state == ObjectState::Live {
                Route::Deliver
            } else {
                Route::Fault
            },
            None => Route::Fault,
        }
    }
}

} // verus!
