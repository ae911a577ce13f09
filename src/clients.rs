use vstd::prelude::*;
use crate::types::{ClientId, Interface, InvalidId, ObjectId};

verus! {

/// An event that the server sends to a client's registry object.
#[derive(Clone, Copy, Debug)]
pub enum RegistryEvent {
    /// `wl_registry.global`: a global is advertised.
    Global { registry: ObjectId, name: u32, interface: Interface, version: u32 },
    /// `wl_registry.global_remove`: a global is withdrawn.
    GlobalRemove { registry: ObjectId, name: u32 },
}

/// An event handed to the outgoing queue of one client.
#[derive(Clone, Copy, Debug)]
pub struct Delivery {
    pub client: ClientId,
    pub event: RegistryEvent,
}

/// Whether `client` is among `clients`.
pub fn contains_client(clients: &[ClientId], client: ClientId) -> (r: bool)
    ensures
        r == clients@.contains(client),
{
    let mut i: usize = 0;
    while i < clients.len()
        invariant
            i <= clients@.len(),
            forall|j: int| 0 <= j < i ==> clients@[j] != client,
        decreases clients@.len() - i,
    {
        if clients[i] == client {
            return true;
        }
        i = i + 1;
    }
    false
}

/// The connected clients, and every event queued to them in the order it was queued.
pub struct ClientStore {
    pub live: Vec<ClientId>,
    pub sent: Vec<Delivery>,
}

impl ClientStore {
    pub fn new() -> (r: Self)
        ensures
            r.live@.len() == 0,
            r.sent@.len() == 0,
    {
        ClientStore { live: Vec::new(), sent: Vec::new() }
    }

    /// Whether the client is connected.
    pub fn is_live(&self, client: ClientId) -> (r: bool)
        ensures
            r == self.live@.contains(client),
    {
        contains_client(self.live.as_slice(), client)
    }

    /// Connects a client; connecting one twice changes nothing.
    pub fn insert_client(&mut self, client: ClientId)
        ensures
            final(self).live@ == (if old(self).live@.contains(client) {
                old(self).live@
            } else {
                old(self).live@.push(client)
            }),
            final(self).sent@ == old(self).sent@,
    {
        if !self.is_live(client) {
            self.live.push(client);
        }
    }

    /// Disconnects a client: later events to it fail.
    pub fn kill_client(&mut self, client: ClientId)
        ensures
            final(self).live@ == old(self).live@.filter(|c: ClientId| c != client),
            final(self).sent@ == old(self).sent@,
    {
        let mut kept: Vec<ClientId> = Vec::new();
        let mut i: usize = 0;
        while i < self.live.len()
            invariant
                i <= self.live@.len(),
                kept@ == self.live@.take(i as int).filter(|c: ClientId| c != client),
            decreases self.live@.len() - i,
        {
            proof {
                reveal_with_fuel(Seq::filter, 1);
                assert(self.live@.take(i + 1).drop_last() == self.live@.take(i as int));
            }
            if self.live[i] != client {
                kept.push(self.live[i]);
            }
            i = i + 1;
        }
        proof {
            assert(self.live@.take(self.live@.len() as int) == self.live@);
        }
        self.live = kept;
    }

    /// Queues an event to a client; fails when the client is not connected.
    pub fn send_event(&mut self, client: ClientId, event: RegistryEvent) -> (r: Result<(), InvalidId>)
        ensures
            r is Ok <==> old(self).live@.contains(client),
            final(self).live@ == old(self).live@,
            final(self).sent@ == (if r is Ok {
                old(self).sent@.push(Delivery { client, event })
            } else {
                old(self).sent@
            }),
    {
        if self.is_live(client) {
            self.sent.push(Delivery { client, event });
            Ok(())
        } else {
            Err(InvalidId)
        }
    }
}

} // verus!
