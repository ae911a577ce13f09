use vstd::prelude::*;
use crate::clients::{contains_client, ClientStore, Delivery, RegistryEvent};
use crate::types::{is_first_free, ClientId, GlobalId, GlobalInfo, Interface, InvalidId, ObjectId};

verus! {

/// The capability behind a global, which business logic provides: it
/// decides which clients may see the global.
pub trait GlobalHandler {
    /// The rule by which this handler lets a client see a global.
    spec fn visible_to(&self, client: ClientId, global: GlobalId) -> bool;

    /// Applies the rule: whether the given client may see the given global.
    fn can_view(&self, client: ClientId, global: GlobalId) -> (r: bool)
        ensures
            r == self.visible_to(client, global),
    ;
}

/// One advertised global.
pub struct Global<H> {
    pub id: GlobalId,
    pub interface: Interface,
    pub version: u32,
    pub handler: H,
    pub disabled: bool,
}

/// The server-side table of globals and of the registry objects that
/// clients created to hear about them.
///
/// The global named `n` lives in slot `n - 1`; a freed slot holds `None`
/// and is the first to be taken again.
pub struct Registry<H> {
    pub globals: Vec<Option<Global<H>>>,
    pub known_registries: Vec<ObjectId>,
    pub last_serial: u32,
}

/// The global that `id` designates, if its slot still holds it.
pub open spec fn lookup<H>(globals: Seq<Option<Global<H>>>, id: GlobalId) -> Option<Global<H>> {
    if 1 <= id.id <= globals.len() && globals[id.id - 1] is Some && globals[id.id
        - 1]->Some_0.id == id {
        globals[id.id - 1]
    } else {
        None
    }
}

/// The global that a bind request for `name`, `interface_name` and `version`
/// would reach, before the handler is asked whether the client may see it.
pub open spec fn bind_candidate<H>(
    globals: Seq<Option<Global<H>>>,
    name: u32,
    interface_name: Seq<u8>,
    version: u32,
) -> Option<Global<H>> {
    if name != 0 && version != 0 && name <= globals.len() && globals[name - 1] is Some {
        let g = globals[name - 1]->Some_0;
        if !g.disabled && g.interface.name@ == interface_name && version <= g.version {
            Some(g)
        } else {
            None
        }
    } else {
        None
    }
}

/// What a bind request by `client` yields: the global that `bind_candidate`
/// gives, provided that its handler lets the client see it.
pub open spec fn bind_outcome<H: GlobalHandler>(
    globals: Seq<Option<Global<H>>>,
    client: ClientId,
    name: u32,
    interface_name: Seq<u8>,
    version: u32,
) -> Option<Global<H>> {
    match bind_candidate(globals, name, interface_name, version) {
        Some(g) => if g.handler.visible_to(client, g.id) {
            Some(g)
        } else {
            None
        },
        None => None,
    }
}

/// The event that tells registry `registry` of global `name`: its advertisement
/// when `add` holds, its removal otherwise.
pub open spec fn registry_event(
    registry: ObjectId,
    name: u32,
    interface: Interface,
    version: u32,
    add: bool,
) -> RegistryEvent {
    if add {
        RegistryEvent::Global { registry, name, interface, version }
    } else {
        RegistryEvent::GlobalRemove { registry, name }
    }
}

/// What a broadcast queues: one event per registry, in order, for each
/// registry whose client is connected and for which `visible` holds.
pub open spec fn broadcast_events(
    registries: Seq<ObjectId>,
    live: Seq<ClientId>,
    visible: Seq<bool>,
    name: u32,
    interface: Interface,
    version: u32,
    add: bool,
) -> Seq<Delivery>
    decreases registries.len(),
{
    if registries.len() == 0 {
        seq![]
    } else {
        let i = registries.len() - 1;
        let prev = broadcast_events(registries.drop_last(), live, visible, name, interface, version, add);
        let r = registries[i];
        if visible[i] && live.contains(r.client_id) {
            prev.push(
                Delivery { client: r.client_id, event: registry_event(r, name, interface, version, add) },
            )
        } else {
            prev
        }
    }
}

/// What listing the globals to a new registry queues: one advertisement per
/// enabled global for which `visible` holds, in slot order.
pub open spec fn listing_events<H>(
    globals: Seq<Option<Global<H>>>,
    registry: ObjectId,
    visible: Seq<bool>,
) -> Seq<Delivery>
    decreases globals.len(),
{
    if globals.len() == 0 {
        seq![]
    } else {
        let i = globals.len() - 1;
        let prev = listing_events(globals.drop_last(), registry, visible);
        match globals[i] {
            Some(g) => if !g.disabled && visible[i] {
                prev.push(
                    Delivery {
                        client: registry.client_id,
                        event: registry_event(registry, g.id.id, g.interface, g.version, true),
                    },
                )
            } else {
                prev
            },
            None => prev,
        }
    }
}


/// The handlers' answers for a broadcast of `global`: one per registry,
/// whether its client is connected and may see the global.
pub open spec fn broadcast_visibility<H: GlobalHandler>(
    global: Global<H>,
    registries: Seq<ObjectId>,
    live: Seq<ClientId>,
) -> Seq<bool> {
    Seq::new(
        registries.len(),
        |i: int|
            live.contains(registries[i].client_id) && global.handler.visible_to(
                registries[i].client_id,
                global.id,
            ),
    )
}

/// The handlers' answers for listing `globals` to `registry`: one per slot,
/// whether it holds an enabled global that the registry's client may see.
pub open spec fn listing_visibility<H: GlobalHandler>(
    globals: Seq<Option<Global<H>>>,
    registry: ObjectId,
) -> Seq<bool> {
    Seq::new(
        globals.len(),
        |i: int|
            globals[i] is Some && !globals[i]->Some_0.disabled && globals[i]->Some_0.handler.visible_to(
                registry.client_id,
                globals[i]->Some_0.id,
            ),
    )
}

/// A broadcast of `global` happened: the connected clients are the same,
/// and one event went to each registry whose client is connected and may
/// see the global, in the order of `registries`.
pub open spec fn broadcast_done<H: GlobalHandler>(
    before: ClientStore,
    after: ClientStore,
    registries: Seq<ObjectId>,
    global: Global<H>,
    add: bool,
) -> bool {
    &&& after.live@ == before.live@
    &&& after.sent@ == before.sent@ + broadcast_events(
        registries,
        before.live@,
        broadcast_visibility(global, registries, before.live@),
        global.id.id,
        global.interface,
        global.version,
        add,
    )
}

/// The result of listing `globals` to `registry` with the given answers of
/// the handlers: everything is queued when the client is connected; when it
/// is not, nothing is, and the listing fails unless it had nothing to send.
pub open spec fn listing_outcome<H>(
    globals: Seq<Option<Global<H>>>,
    registry: ObjectId,
    visible: Seq<bool>,
    before: ClientStore,
    after: ClientStore,
    r: Result<(), InvalidId>,
) -> bool {
    let events = listing_events(globals, registry, visible);
    &&& after.live@ == before.live@
    &&& before.live@.contains(registry.client_id) ==> r is Ok && after.sent@ == before.sent@ + events
    &&& !before.live@.contains(registry.client_id) ==> (r is Ok <==> events.len() == 0)
        && after.sent@ == before.sent@
}

/// The same global, disabled.
pub open spec fn disabled_copy<H>(g: Global<H>) -> Global<H> {
    Global { id: g.id, interface: g.interface, version: g.version, handler: g.handler, disabled: true }
}


/// Listing a prefix of the slots queues no more than listing all of them.
proof fn lemma_listing_prefix<H>(
    globals: Seq<Option<Global<H>>>,
    registry: ObjectId,
    visible: Seq<bool>,
    k: int,
)
    requires
        0 <= k <= globals.len(),
    ensures
        listing_events(globals.take(k), registry, visible).len() <= listing_events(
            globals,
            registry,
            visible,
        ).len(),
    decreases globals.len() - k,
{
    if k < globals.len() {
        lemma_listing_prefix(globals, registry, visible, k + 1);
        assert(globals.take(k + 1).drop_last() == globals.take(k));
    } else {
        assert(globals.take(k) == globals);
    }
}

/// The registry object an event is addressed to.
pub open spec fn event_target(e: RegistryEvent) -> ObjectId {
    match e {
        RegistryEvent::Global { registry, .. } => registry,
        RegistryEvent::GlobalRemove { registry, .. } => registry,
    }
}

/// The events of `deliveries` addressed to `registry`, in order.
pub open spec fn events_to(deliveries: Seq<Delivery>, registry: ObjectId) -> Seq<RegistryEvent>
    decreases deliveries.len(),
{
    if deliveries.len() == 0 {
        seq![]
    } else {
        let prev = events_to(deliveries.drop_last(), registry);
        let e = deliveries.last().event;
        if event_target(e) == registry {
            prev.push(e)
        } else {
            prev
        }
    }
}

proof fn lemma_events_to_push(deliveries: Seq<Delivery>, d: Delivery, registry: ObjectId)
    ensures
        events_to(deliveries.push(d), registry) == (if event_target(d.event) == registry {
            events_to(deliveries, registry).push(d.event)
        } else {
            events_to(deliveries, registry)
        }),
{
    assert(deliveries.push(d).drop_last() =~= deliveries);
}

proof fn lemma_events_to_concat(a: Seq<Delivery>, b: Seq<Delivery>, registry: ObjectId)
    ensures
        events_to(a + b, registry) == events_to(a, registry) + events_to(b, registry),
    decreases b.len(),
{
    if b.len() == 0 {
        assert(a + b == a);
        assert(events_to(b, registry) == Seq::<RegistryEvent>::empty());
        assert(events_to(a, registry) + Seq::<RegistryEvent>::empty() == events_to(a, registry));
    } else {
        lemma_events_to_concat(a, b.drop_last(), registry);
        assert((a + b).drop_last() == a + b.drop_last());
        assert((a + b).last() == b.last());
    }
}

/// Within one broadcast to distinct registries, registry `regs[i]` gets its
/// event exactly when its client is connected and may see the global.
proof fn lemma_broadcast_to_one(
    registries: Seq<ObjectId>,
    live: Seq<ClientId>,
    visible: Seq<bool>,
    name: u32,
    interface: Interface,
    version: u32,
    add: bool,
    i: int,
)
    requires
        registries.no_duplicates(),
        visible.len() >= registries.len(),
        0 <= i < registries.len(),
    ensures
        events_to(
            broadcast_events(registries, live, visible, name, interface, version, add),
            registries[i],
        ) == (if visible[i] && live.contains(registries[i].client_id) {
            seq![registry_event(registries[i], name, interface, version, add)]
        } else {
            Seq::<RegistryEvent>::empty()
        }),
    decreases registries.len(),
{
    let n = registries.len() - 1;
    let prefix = registries.drop_last();
    assert(prefix.no_duplicates());
    let r = registries[n];
    let d = Delivery { client: r.client_id, event: registry_event(r, name, interface, version, add) };
    lemma_events_to_push(
        broadcast_events(prefix, live, visible, name, interface, version, add),
        d,
        registries[i],
    );
    if i < n {
        assert(prefix[i] == registries[i]);
        assert(registries[n] != registries[i]);
        lemma_broadcast_to_one(prefix, live, visible, name, interface, version, add, i);
    } else {
        assert forall|j: int| 0 <= j < prefix.len() implies prefix[j] != registries[i] by {
            assert(prefix[j] == registries[j]);
            assert(registries[j] != registries[n]);
        }
        lemma_broadcast_none_to(prefix, live, visible, name, interface, version, add, registries[i]);
        assert(Seq::<RegistryEvent>::empty().push(
            registry_event(registries[i], name, interface, version, add),
        ) =~= seq![registry_event(registries[i], name, interface, version, add)]);
    }
}

proof fn lemma_broadcast_none_to(
    registries: Seq<ObjectId>,
    live: Seq<ClientId>,
    visible: Seq<bool>,
    name: u32,
    interface: Interface,
    version: u32,
    add: bool,
    registry: ObjectId,
)
    requires
        forall|j: int| 0 <= j < registries.len() ==> registries[j] != registry,
    ensures
        events_to(broadcast_events(registries, live, visible, name, interface, version, add), registry)
            == Seq::<RegistryEvent>::empty(),
    decreases registries.len(),
{
    if registries.len() > 0 {
        let r = registries[registries.len() - 1];
        let d = Delivery { client: r.client_id, event: registry_event(r, name, interface, version, add) };
        lemma_events_to_push(
            broadcast_events(registries.drop_last(), live, visible, name, interface, version, add),
            d,
            registry,
        );
        lemma_broadcast_none_to(
            registries.drop_last(),
            live,
            visible,
            name,
            interface,
            version,
            add,
            registry,
        );
    }
}

/// Advertising a global and then disabling it tells each of a set of
/// distinct registries either nothing, or exactly one advertisement
/// followed by exactly one removal of the same name: the latter when its
/// client is connected and may see the global.
pub proof fn lemma_advertise_then_remove<H: GlobalHandler>(
    global: Global<H>,
    registries: Seq<ObjectId>,
    live: Seq<ClientId>,
    i: int,
)
    requires
        registries.no_duplicates(),
        0 <= i < registries.len(),
    ensures
        ({
            let c = registries[i].client_id;
            events_to(
                broadcast_events(
                    registries,
                    live,
                    broadcast_visibility(global, registries, live),
                    global.id.id,
                    global.interface,
                    global.version,
                    true,
                ) + broadcast_events(
                    registries,
                    live,
                    broadcast_visibility(disabled_copy(global), registries, live),
                    global.id.id,
                    global.interface,
                    global.version,
                    false,
                ),
                registries[i],
            ) == (if live.contains(c) && global.handler.visible_to(c, global.id) {
                seq![
                    RegistryEvent::Global {
                        registry: registries[i],
                        name: global.id.id,
                        interface: global.interface,
                        version: global.version,
                    },
                    RegistryEvent::GlobalRemove { registry: registries[i], name: global.id.id },
                ]
            } else {
                Seq::<RegistryEvent>::empty()
            })
        }),
{
    let visible = broadcast_visibility(global, registries, live);
    assert(broadcast_visibility(disabled_copy(global), registries, live) =~= visible);
    let name = global.id.id;
    let interface = global.interface;
    let version = global.version;
    let adds = broadcast_events(registries, live, visible, name, interface, version, true);
    let removes = broadcast_events(registries, live, visible, name, interface, version, false);
    lemma_events_to_concat(adds, removes, registries[i]);
    lemma_broadcast_to_one(registries, live, visible, name, interface, version, true, i);
    lemma_broadcast_to_one(registries, live, visible, name, interface, version, false, i);
    if visible[i] && live.contains(registries[i].client_id) {
        assert(seq![registry_event(registries[i], name, interface, version, true)] + seq![
            registry_event(registries[i], name, interface, version, false),
        ] =~= seq![
            RegistryEvent::Global { registry: registries[i], name, interface, version },
            RegistryEvent::GlobalRemove { registry: registries[i], name },
        ]);
    } else {
        assert(Seq::<RegistryEvent>::empty() + Seq::<RegistryEvent>::empty() =~= Seq::<
            RegistryEvent,
        >::empty());
    }
}

/// A global whose handler denies a client is never advertised to that
/// client's registries: a broadcast tells such a registry nothing, listing
/// the globals to it leaves the global out, and a bind request by that
/// client for the global's name yields nothing.
pub proof fn lemma_hidden_global_not_advertised<H: GlobalHandler>(
    global: Global<H>,
    registries: Seq<ObjectId>,
    live: Seq<ClientId>,
    i: int,
    globals: Seq<Option<Global<H>>>,
    registry: ObjectId,
    k: int,
    interface_name: Seq<u8>,
    version: u32,
)
    requires
        registries.no_duplicates(),
        0 <= i < registries.len(),
        !global.handler.visible_to(registries[i].client_id, global.id),
        0 <= k < globals.len(),
        globals[k] is Some,
        !globals[k]->Some_0.handler.visible_to(registry.client_id, globals[k]->Some_0.id),
        forall|j: int|
            0 <= j < globals.len() && #[trigger] globals[j] is Some ==> globals[j]->Some_0.id.id == j + 1,
    ensures
        events_to(
            broadcast_events(
                registries,
                live,
                broadcast_visibility(global, registries, live),
                global.id.id,
                global.interface,
                global.version,
                true,
            ),
            registries[i],
        ) == Seq::<RegistryEvent>::empty(),
        forall|m: int|
            0 <= m < listing_events(globals, registry, listing_visibility(globals, registry)).len() ==> (
            #[trigger] listing_events(globals, registry, listing_visibility(globals, registry))[m]).event
                != registry_event(
                registry,
                globals[k]->Some_0.id.id,
                globals[k]->Some_0.interface,
                globals[k]->Some_0.version,
                true,
            ),
        bind_outcome(
            globals,
            registry.client_id,
            globals[k]->Some_0.id.id,
            interface_name,
            version,
        ) is None,
{
    let visible = broadcast_visibility(global, registries, live);
    lemma_broadcast_to_one(
        registries,
        live,
        visible,
        global.id.id,
        global.interface,
        global.version,
        true,
        i,
    );
    lemma_listing_skips(globals, registry, listing_visibility(globals, registry), k);
}

proof fn lemma_listing_skips<H>(
    globals: Seq<Option<Global<H>>>,
    registry: ObjectId,
    visible: Seq<bool>,
    k: int,
)
    requires
        visible.len() >= globals.len(),
        0 <= k,
        k < globals.len() ==> globals[k] is Some && !visible[k],
        forall|j: int|
            0 <= j < globals.len() && #[trigger] globals[j] is Some ==> globals[j]->Some_0.id.id == j + 1,
    ensures
        forall|m: int|
            0 <= m < listing_events(globals, registry, visible).len() ==> ((#[trigger] listing_events(
                globals,
                registry,
                visible,
            )[m]).event matches RegistryEvent::Global { name, .. } && name != k + 1),
    decreases globals.len(),
{
    if globals.len() > 0 {
        let n = globals.len() - 1;
        let prefix = globals.drop_last();
        assert forall|j: int| 0 <= j < prefix.len() && #[trigger] prefix[j] is Some implies prefix[j]->Some_0.id.id
            == j + 1 by {
            assert(prefix[j] == globals[j]);
        }
        if k < n {
            assert(prefix[k] == globals[k]);
        }
        lemma_listing_skips(prefix, registry, visible, k);
    }
}

/// A bind request no longer reaches a global once it was disabled, nor once
/// its slot was freed.
pub proof fn lemma_stale_bind_rejected<H: GlobalHandler>(
    globals: Seq<Option<Global<H>>>,
    id: GlobalId,
    client: ClientId,
    interface_name: Seq<u8>,
    version: u32,
)
    requires
        lookup(globals, id) is Some,
    ensures
        bind_outcome(
            globals.update(id.id - 1, Some(disabled_copy(lookup(globals, id)->Some_0))),
            client,
            id.id,
            interface_name,
            version,
        ) is None,
        bind_outcome(globals.update(id.id - 1, None), client, id.id, interface_name, version) is None,
{
}

/// Byte-for-byte equality of two names.
pub fn same_bytes(a: &[u8], b: &[u8]) -> (r: bool)
    ensures
        r == (a@ == b@),
{
    if a.len() != b.len() {
        return false;
    }
    let mut i: usize = 0;
    while i < a.len()
        invariant
            a@.len() == b@.len(),
            i <= a@.len(),
            forall|j: int| 0 <= j < i ==> a@[j] == b@[j],
        decreases a@.len() - i,
    {
        if a[i] != b[i] {
            return false;
        }
        i = i + 1;
    }
    proof {
        assert(a@ =~= b@);
    }
    true
}


/// Queues the advertisement of a global to a registry.
pub fn send_global_to<H>(clients: &mut ClientStore, global: &Global<H>, registry: ObjectId) -> (r:
    Result<(), InvalidId>)
    ensures
        r is Ok <==> old(clients).live@.contains(registry.client_id),
        final(clients).live@ == old(clients).live@,
        final(clients).sent@ == (if r is Ok {
            old(clients).sent@.push(
                Delivery {
                    client: registry.client_id,
                    event: registry_event(registry, global.id.id, global.interface, global.version, true),
                },
            )
        } else {
            old(clients).sent@
        }),
{
    clients.send_event(
        registry.client_id,
        RegistryEvent::Global {
            registry,
            name: global.id.id,
            interface: global.interface,
            version: global.version,
        },
    )
}

/// Queues the removal of a global to a registry.
pub fn send_global_remove_to<H>(clients: &mut ClientStore, global: &Global<H>, registry: ObjectId) -> (r:
    Result<(), InvalidId>)
    ensures
        r is Ok <==> old(clients).live@.contains(registry.client_id),
        final(clients).live@ == old(clients).live@,
        final(clients).sent@ == (if r is Ok {
            old(clients).sent@.push(
                Delivery {
                    client: registry.client_id,
                    event: registry_event(registry, global.id.id, global.interface, global.version, false),
                },
            )
        } else {
            old(clients).sent@
        }),
{
    clients.send_event(registry.client_id, RegistryEvent::GlobalRemove { registry, name: global.id.id })
}

/// Tells each registry whose client is connected and for which `visible`
/// holds of a global's advertisement (`add`) or removal. A recipient that
/// cannot take the event does not stop the others.
pub fn broadcast<H>(
    global: &Global<H>,
    registries: &Vec<ObjectId>,
    visible: &Vec<bool>,
    add: bool,
    clients: &mut ClientStore,
)
    requires
        visible@.len() == registries@.len(),
    ensures
        final(clients).live@ == old(clients).live@,
        final(clients).sent@ == old(clients).sent@ + broadcast_events(
            registries@,
            old(clients).live@,
            visible@,
            global.id.id,
            global.interface,
            global.version,
            add,
        ),
{
    let mut i: usize = 0;
    while i < registries.len()
        invariant
            i <= registries@.len(),
            visible@.len() == registries@.len(),
            clients.live@ == old(clients).live@,
            clients.sent@ == old(clients).sent@ + broadcast_events(
                registries@.take(i as int),
                old(clients).live@,
                visible@,
                global.id.id,
                global.interface,
                global.version,
                add,
            ),
        decreases registries@.len() - i,
    {
        let registry = registries[i];
        proof {
            assert(registries@.take(i + 1).drop_last() == registries@.take(i as int));
        }
        if visible[i] {
            if add {
                let _ = send_global_to(clients, global, registry);
            } else {
                let _ = send_global_remove_to(clients, global, registry);
            }
        }
        i = i + 1;
    }
    proof {
        assert(registries@.take(registries@.len() as int) == registries@);
    }
}

/// Asks the handler of `global`, for each registry in turn, whether its
/// client may see the global; a registry whose client is gone gets `false`.
fn visibility_toward<H: GlobalHandler>(
    global: &Global<H>,
    registries: &Vec<ObjectId>,
    clients: &ClientStore,
) -> (r: Vec<bool>)
    ensures
        r@ == broadcast_visibility(*global, registries@, clients.live@),
{
    let mut visible: Vec<bool> = Vec::new();
    let mut i: usize = 0;
    while i < registries.len()
        invariant
            i <= registries@.len(),
            visible@ == broadcast_visibility(*global, registries@, clients.live@).take(i as int),
        decreases registries@.len() - i,
    {
        let client = registries[i].client_id;
        visible.push(clients.is_live(client) && global.handler.can_view(client, global.id));
        i = i + 1;
        assert(visible@ =~= broadcast_visibility(*global, registries@, clients.live@).take(i as int));
    }
    assert(visible@ =~= broadcast_visibility(*global, registries@, clients.live@));
    visible
}

impl<H: GlobalHandler> Registry<H> {
    /// Every occupied slot holds the global named after it, at a version its
    /// interface supports.
    pub open spec fn wf(&self) -> bool {
        forall|i: int|
            0 <= i < self.globals@.len() && #[trigger] self.globals@[i] is Some ==> {
                let g = self.globals@[i]->Some_0;
                g.id.id == i + 1 && g.version <= g.interface.version
            }
    }

    pub fn new() -> (r: Self)
        ensures
            r.wf(),
            r.globals@.len() == 0,
            r.known_registries@.len() == 0,
            r.last_serial == 0,
    {
        Registry { globals: Vec::new(), known_registries: Vec::new(), last_serial: 0 }
    }

    /// Advances the serial counter, wrapping around at `u32::MAX`.
    pub fn next_serial(&mut self) -> (r: u32)
        ensures
            r == (if old(self).last_serial == u32::MAX { 0 } else { old(self).last_serial + 1 }),
            final(self).last_serial == r,
            final(self).globals == old(self).globals,
            final(self).known_registries == old(self).known_registries,
    {
        self.last_serial = self.last_serial.wrapping_add(1);
        self.last_serial
    }

    /// The global that `id` designates; fails once its slot was freed or reused.
    pub fn get_global(&self, id: GlobalId) -> (r: Result<&Global<H>, InvalidId>)
        ensures
            match r {
                Ok(g) => lookup(self.globals@, id) == Some(*g),
                Err(_) => lookup(self.globals@, id) is None,
            },
    {
        if id.id == 0 || id.id as usize > self.globals.len() {
            return Err(InvalidId);
        }
        match &self.globals[id.id as usize - 1] {
            Some(g) => if g.id == id {
                Ok(g)
            } else {
                Err(InvalidId)
            },
            None => Err(InvalidId),
        }
    }

    /// Interface, version and state of a global.
    pub fn get_info(&self, id: GlobalId) -> (r: Result<GlobalInfo, InvalidId>)
        ensures
            match r {
                Ok(info) => lookup(self.globals@, id) matches Some(g) && info == (GlobalInfo {
                    interface: g.interface,
                    version: g.version,
                    disabled: g.disabled,
                }),
                Err(_) => lookup(self.globals@, id) is None,
            },
    {
        let global = self.get_global(id)?;
        Ok(GlobalInfo { interface: global.interface, version: global.version, disabled: global.disabled })
    }

    /// The handler of a global.
    pub fn get_handler(&self, id: GlobalId) -> (r: Result<&H, InvalidId>)
        ensures
            match r {
                Ok(h) => lookup(self.globals@, id) matches Some(g) && *h == g.handler,
                Err(_) => lookup(self.globals@, id) is None,
            },
    {
        let global = self.get_global(id)?;
        Ok(&global.handler)
    }

    /// The global that a bind request names, if it exists, is enabled, has
    /// that interface and offers at least that version.
    pub fn bind_target(&self, name: u32, interface_name: &[u8], version: u32) -> (r: Option<&Global<H>>)
        ensures
            match r {
                Some(g) => bind_candidate(self.globals@, name, interface_name@, version) == Some(*g),
                None => bind_candidate(self.globals@, name, interface_name@, version) is None,
            },
    {
        if name == 0 || version == 0 || name as usize > self.globals.len() {
            return None;
        }
        match &self.globals[name as usize - 1] {
            Some(g) => {
                if !g.disabled && same_bytes(g.interface.name, interface_name) && version <= g.version {
                    Some(g)
                } else {
                    None
                }
            },
            None => None,
        }
    }

    /// The sole gate of a bind request: the target of `bind_target`, provided
    /// that its handler lets `client` see it.
    pub fn check_bind(&self, client: ClientId, name: u32, interface_name: &[u8], version: u32) -> (r:
        Option<(Interface, GlobalId, &H)>)
        ensures
            match r {
                Some((interface, id, handler)) => bind_outcome(
                    self.globals@,
                    client,
                    name,
                    interface_name@,
                    version,
                ) matches Some(g) && interface == g.interface && id == g.id && *handler
                    == g.handler,
                None => bind_outcome(self.globals@, client, name, interface_name@, version) is None,
            },
    {
        match self.bind_target(name, interface_name, version) {
            Some(g) => {
                if g.handler.can_view(client, g.id) {
                    Some((g.interface, g.id, &g.handler))
                } else {
                    None
                }
            },
            None => None,
        }
    }

    /// Advertises an enabled global to every registry whose client is
    /// connected and may see it; fails when `global_id` designates no
    /// enabled global.
    pub fn send_global_to_all(&self, global_id: GlobalId, clients: &mut ClientStore) -> (r: Result<
        (),
        InvalidId,
    >)
        ensures
            r is Ok <==> (lookup(self.globals@, global_id) matches Some(g) && !g.disabled),
            r is Err ==> final(clients).live@ == old(clients).live@ && final(clients).sent@ == old(
                clients,
            ).sent@,
            r is Ok ==> broadcast_done(
                *old(clients),
                *final(clients),
                self.known_registries@,
                lookup(self.globals@, global_id)->Some_0,
                true,
            ),
    {
        let global = self.get_global(global_id)?;
        if global.disabled {
            return Err(InvalidId);
        }
        let visible = visibility_toward(global, &self.known_registries, clients);
        broadcast(global, &self.known_registries, &visible, true, clients);
        Ok(())
    }

    /// Lists the enabled globals, in slot order, to a registry, with the
    /// handlers' answers given in `visible` (one per slot). The first event
    /// that cannot be queued ends the listing with an error.
    pub fn send_listed_globals_to(
        &self,
        registry: ObjectId,
        visible: &Vec<bool>,
        clients: &mut ClientStore,
    ) -> (r: Result<(), InvalidId>)
        requires
            visible@.len() == self.globals@.len(),
        ensures
            listing_outcome(self.globals@, registry, visible@, *old(clients), *final(clients), r),
    {
        let mut i: usize = 0;
        while i < self.globals.len()
            invariant
                i <= self.globals@.len(),
                visible@.len() == self.globals@.len(),
                clients.live@ == old(clients).live@,
                clients.sent@ == old(clients).sent@ + listing_events(
                    self.globals@.take(i as int),
                    registry,
                    visible@,
                ),
                !old(clients).live@.contains(registry.client_id) ==> listing_events(
                    self.globals@.take(i as int),
                    registry,
                    visible@,
                ).len() == 0,
            decreases self.globals@.len() - i,
        {
            proof {
                assert(self.globals@.take(i + 1).drop_last() == self.globals@.take(i as int));
            }
            match &self.globals[i] {
                Some(g) => {
                    if !g.disabled && visible[i] {
                        let sent = send_global_to(clients, g, registry);
                        if sent.is_err() {
                            proof {
                                let gs = self.globals@;
                                assert(listing_events(gs.take(i + 1), registry, visible@).len() > 0);
                                lemma_listing_prefix(gs, registry, visible@, i + 1);
                                assert(gs.take(gs.len() as int) == gs);
                            }
                            return sent;
                        }
                    }
                },
                None => {},
            }
            i = i + 1;
        }
        proof {
            assert(self.globals@.take(self.globals@.len() as int) == self.globals@);
        }
        Ok(())
    }

    /// Lists every enabled global that the registry's client may see, in
    /// slot order; the first event that cannot be queued ends the listing
    /// with an error.
    pub fn send_all_globals_to(&self, registry: ObjectId, clients: &mut ClientStore) -> (r: Result<
        (),
        InvalidId,
    >)
        ensures
            listing_outcome(
                self.globals@,
                registry,
                listing_visibility(self.globals@, registry),
                *old(clients),
                *final(clients),
                r,
            ),
    {
        let mut visible: Vec<bool> = Vec::new();
        let mut i: usize = 0;
        while i < self.globals.len()
            invariant
                i <= self.globals@.len(),
                visible@ == listing_visibility(self.globals@, registry).take(i as int),
            decreases self.globals@.len() - i,
        {
            let seen = match &self.globals[i] {
                Some(g) => !g.disabled && g.handler.can_view(registry.client_id, g.id),
                None => false,
            };
            visible.push(seen);
            i = i + 1;
            assert(visible@ =~= listing_visibility(self.globals@, registry).take(i as int));
        }
        assert(visible@ =~= listing_visibility(self.globals@, registry));
        self.send_listed_globals_to(registry, &visible, clients)
    }

    /// Takes note of a new registry object after listing the globals to it;
    /// when the listing fails, the registry is not kept.
    pub fn new_registry(&mut self, registry: ObjectId, clients: &mut ClientStore) -> (r: Result<
        (),
        InvalidId,
    >)
        ensures
            final(self).globals == old(self).globals,
            final(self).last_serial == old(self).last_serial,
            final(self).known_registries@ == (if r is Ok {
                old(self).known_registries@.push(registry)
            } else {
                old(self).known_registries@
            }),
            listing_outcome(
                old(self).globals@,
                registry,
                listing_visibility(old(self).globals@, registry),
                *old(clients),
                *final(clients),
                r,
            ),
    {
        self.send_all_globals_to(registry, clients)?;
        self.known_registries.push(registry);
        Ok(())
    }

    /// Creates a global in the lowest free slot, under a fresh serial, and
    /// advertises it to every registry whose client is connected and may
    /// see it. A version above what the interface supports is a setup fault
    /// of the server and is not admitted.
    pub fn create_global(
        &mut self,
        interface: Interface,
        version: u32,
        handler: H,
        clients: &mut ClientStore,
    ) -> (r: GlobalId)
        requires
            old(self).wf(),
            version <= interface.version,
            old(self).globals@.len() < u32::MAX,
        ensures
            final(self).wf(),
            is_first_free(old(self).globals@, r.id - 1),
            r.serial == (if old(self).last_serial == u32::MAX { 0 } else { old(self).last_serial + 1 }),
            final(self).last_serial == r.serial,
            final(self).globals@ == (if r.id - 1 < old(self).globals@.len() {
                old(self).globals@.update(
                    r.id - 1,
                    Some(Global { id: r, interface, version, handler, disabled: false }),
                )
            } else {
                old(self).globals@.push(Some(Global { id: r, interface, version, handler, disabled: false }))
            }),
            final(self).known_registries == old(self).known_registries,
            broadcast_done(
                *old(clients),
                *final(clients),
                old(self).known_registries@,
                Global { id: r, interface, version, handler, disabled: false },
                true,
            ),
    {
        let serial = self.next_serial();
        let mut slot: usize = 0;
        while slot < self.globals.len()
            invariant
                slot <= self.globals@.len(),
                forall|j: int| 0 <= j < slot ==> self.globals@[j] is Some,
            ensures
                slot <= self.globals@.len(),
                forall|j: int| 0 <= j < slot ==> self.globals@[j] is Some,
                slot < self.globals@.len() ==> self.globals@[slot as int] is None,
            decreases self.globals@.len() - slot,
        {
            if self.globals[slot].is_none() {
                break;
            }
            slot = slot + 1;
        }
        let id = GlobalId { id: slot as u32 + 1, serial };
        let global = Global { id, interface, version, handler, disabled: false };
        if slot < self.globals.len() {
            self.globals.set(slot, Some(global));
        } else {
            self.globals.push(Some(global));
        }
        let sent = self.send_global_to_all(id, clients);
        assert(sent is Ok);
        id
    }

    /// Disables a global, once: the first call marks it disabled and tells
    /// every registry whose client is connected and may see it that it is
    /// gone; later calls, and calls with a stale id, change nothing.
    pub fn disable_global(&mut self, id: GlobalId, clients: &mut ClientStore)
        requires
            old(self).wf(),
        ensures
            final(self).wf(),
            final(self).known_registries == old(self).known_registries,
            final(self).last_serial == old(self).last_serial,
            match lookup(old(self).globals@, id) {
                Some(g) => if !g.disabled {
                    &&& final(self).globals@ == old(self).globals@.update(id.id - 1, Some(disabled_copy(g)))
                    &&& broadcast_done(
                        *old(clients),
                        *final(clients),
                        old(self).known_registries@,
                        g,
                        false,
                    )
                } else {
                    &&& final(self).globals@ == old(self).globals@
                    &&& final(clients).live@ == old(clients).live@
                    &&& final(clients).sent@ == old(clients).sent@
                },
                None => {
                    &&& final(self).globals@ == old(self).globals@
                    &&& final(clients).live@ == old(clients).live@
                    &&& final(clients).sent@ == old(clients).sent@
                },
            },
    {
        let idx: usize;
        match self.get_global(id) {
            Ok(g) => {
                if g.disabled {
                    return;
                }
                idx = id.id as usize - 1;
            },
            Err(_) => {
                return;
            },
        }
        let mut slot: Option<Global<H>> = None;
        self.globals.set_and_swap(idx, &mut slot);
        match slot {
            Some(g) => {
                let disabled = Global {
                    id: g.id,
                    interface: g.interface,
                    version: g.version,
                    handler: g.handler,
                    disabled: true,
                };
                let visible = visibility_toward(&disabled, &self.known_registries, clients);
                broadcast(&disabled, &self.known_registries, &visible, false, clients);
                self.globals.set(idx, Some(disabled));
            },
            None => {},
        }
    }

    /// Disables a global if it is not yet, then frees its slot for reuse; a
    /// stale id changes nothing.
    pub fn remove_global(&mut self, id: GlobalId, clients: &mut ClientStore)
        requires
            old(self).wf(),
        ensures
            final(self).wf(),
            final(self).known_registries == old(self).known_registries,
            final(self).last_serial == old(self).last_serial,
            match lookup(old(self).globals@, id) {
                Some(g) => {
                    &&& final(self).globals@ == old(self).globals@.update(id.id - 1, None)
                    &&& !g.disabled ==> broadcast_done(
                        *old(clients),
                        *final(clients),
                        old(self).known_registries@,
                        g,
                        false,
                    )
                    &&& g.disabled ==> final(clients).live@ == old(clients).live@
                        && final(clients).sent@ == old(clients).sent@
                },
                None => {
                    &&& final(self).globals@ == old(self).globals@
                    &&& final(clients).live@ == old(clients).live@
                    &&& final(clients).sent@ == old(clients).sent@
                },
            },
    {
        self.disable_global(id, clients);
        if self.get_global(id).is_ok() {
            self.globals.set(id.id as usize - 1, None);
        }
    }

    /// Forgets the registry objects of the clients that went away.
    pub fn cleanup(&mut self, dead_clients: &[ClientId])
        ensures
            final(self).known_registries@ == old(self).known_registries@.filter(
                |r: ObjectId| !dead_clients@.contains(r.client_id),
            ),
            final(self).globals == old(self).globals,
            final(self).last_serial == old(self).last_serial,
    {
        let mut kept: Vec<ObjectId> = Vec::new();
        let mut i: usize = 0;
        while i < self.known_registries.len()
            invariant
                i <= self.known_registries@.len(),
                kept@ == self.known_registries@.take(i as int).filter(
                    |r: ObjectId| !dead_clients@.contains(r.client_id),
                ),
            decreases self.known_registries@.len() - i,
        {
            proof {
                reveal_with_fuel(Seq::filter, 1);
                assert(self.known_registries@.take(i + 1).drop_last() == self.known_registries@.take(
                    i as int,
                ));
            }
            let registry = self.known_registries[i];
            if !contains_client(dead_clients, registry.client_id) {
                kept.push(registry);
            }
            i = i + 1;
        }
        proof {
            assert(self.known_registries@.take(self.known_registries@.len() as int)
                == self.known_registries@);
        }
        self.known_registries = kept;
    }
}

} // verus!
