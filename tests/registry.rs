use wayland_backend::clients::{ClientStore, RegistryEvent};
use wayland_backend::registry::{broadcast, same_bytes, GlobalHandler, Registry};
use wayland_backend::types::{ClientId, GlobalId, Interface, InvalidId, ObjectId};

const TEST_GLOBAL: Interface = Interface { name: b"test_global", version: 5, requests: 2, events: 1 };
const WL_SEAT: Interface = Interface { name: b"wl_seat", version: 7, requests: 4, events: 2 };

struct AllowAll;

impl GlobalHandler for AllowAll {
    fn visible_to(&self, _client: ClientId, _global: GlobalId) -> bool {
        true
    }

    fn can_view(&self, client: ClientId, global: GlobalId) -> bool {
        self.visible_to(client, global)
    }
}

struct HideFrom(u32);

impl GlobalHandler for HideFrom {
    fn visible_to(&self, client: ClientId, _global: GlobalId) -> bool {
        client.id != self.0
    }

    fn can_view(&self, client: ClientId, global: GlobalId) -> bool {
        self.visible_to(client, global)
    }
}

fn client(id: u32) -> ClientId {
    ClientId { id }
}

fn registry_of(c: u32, id: u32) -> ObjectId {
    ObjectId { id, client_id: client(c) }
}

fn events_of(store: &ClientStore, c: u32) -> Vec<RegistryEvent> {
    store.sent.iter().filter(|d| d.client == client(c)).map(|d| d.event).collect()
}

fn global_name(e: &RegistryEvent) -> (bool, u32) {
    match e {
        RegistryEvent::Global { name, .. } => (true, *name),
        RegistryEvent::GlobalRemove { name, .. } => (false, *name),
    }
}

#[test]
fn next_serial_wraps() {
    let mut reg: Registry<AllowAll> = Registry::new();
    assert_eq!(reg.next_serial(), 1);
    assert_eq!(reg.next_serial(), 2);
    reg.last_serial = u32::MAX;
    assert_eq!(reg.next_serial(), 0);
}

#[test]
fn globals_take_lowest_free_slot() {
    let mut reg: Registry<AllowAll> = Registry::new();
    let mut clients = ClientStore::new();
    let a = reg.create_global(TEST_GLOBAL, 3, AllowAll, &mut clients);
    let b = reg.create_global(WL_SEAT, 1, AllowAll, &mut clients);
    let c = reg.create_global(WL_SEAT, 2, AllowAll, &mut clients);
    assert_eq!((a.id, b.id, c.id), (1, 2, 3));
    assert_eq!((a.serial, b.serial, c.serial), (1, 2, 3));
    reg.remove_global(b, &mut clients);
    assert_eq!(reg.get_info(b).map(|i| i.version).err(), Some(InvalidId));
    let d = reg.create_global(TEST_GLOBAL, 4, AllowAll, &mut clients);
    assert_eq!(d.id, 2);
    assert_eq!(d.serial, 4);
    // the old id of the slot is stale
    assert!(reg.get_global(b).is_err());
    assert!(reg.get_handler(d).is_ok());
    let info = reg.get_info(d).unwrap();
    assert_eq!(info.version, 4);
    assert!(!info.disabled);
    assert_eq!(info.interface.name, b"test_global");
}

#[test]
fn new_registry_lists_enabled_globals_in_order() {
    let mut reg: Registry<AllowAll> = Registry::new();
    let mut clients = ClientStore::new();
    let a = reg.create_global(TEST_GLOBAL, 3, AllowAll, &mut clients);
    let b = reg.create_global(WL_SEAT, 1, AllowAll, &mut clients);
    reg.create_global(WL_SEAT, 2, AllowAll, &mut clients);
    reg.disable_global(b, &mut clients);
    clients.insert_client(client(1));
    assert_eq!(reg.new_registry(registry_of(1, 2), &mut clients), Ok(()));
    let names: Vec<(bool, u32)> = events_of(&clients, 1).iter().map(global_name).collect();
    assert_eq!(names, vec![(true, 1), (true, 3)]);
    assert_eq!(reg.known_registries.len(), 1);
    match events_of(&clients, 1)[0] {
        RegistryEvent::Global { registry, interface, version, .. } => {
            assert_eq!(registry, registry_of(1, 2));
            assert_eq!(interface.name, b"test_global");
            assert_eq!(version, 3);
        }
        _ => panic!("expected an advertisement"),
    }
    assert!(reg.get_info(a).is_ok());
}

#[test]
fn new_registry_of_gone_client_fails() {
    let mut reg: Registry<AllowAll> = Registry::new();
    let mut clients = ClientStore::new();
    reg.create_global(TEST_GLOBAL, 3, AllowAll, &mut clients);
    assert_eq!(reg.new_registry(registry_of(9, 2), &mut clients), Err(InvalidId));
    assert_eq!(reg.known_registries.len(), 0);
    assert!(clients.sent.is_empty());
}

#[test]
fn new_registry_with_nothing_to_list_succeeds() {
    let mut reg: Registry<AllowAll> = Registry::new();
    let mut clients = ClientStore::new();
    assert_eq!(reg.new_registry(registry_of(9, 2), &mut clients), Ok(()));
    assert_eq!(reg.known_registries.len(), 1);
}

#[test]
fn advertise_then_remove_gives_one_event_each() {
    let mut reg: Registry<AllowAll> = Registry::new();
    let mut clients = ClientStore::new();
    clients.insert_client(client(1));
    clients.insert_client(client(2));
    reg.new_registry(registry_of(1, 2), &mut clients).unwrap();
    reg.new_registry(registry_of(2, 2), &mut clients).unwrap();
    let g = reg.create_global(TEST_GLOBAL, 3, AllowAll, &mut clients);
    reg.disable_global(g, &mut clients);
    // a second disable is a no-op
    reg.disable_global(g, &mut clients);
    for c in [1, 2] {
        let names: Vec<(bool, u32)> = events_of(&clients, c).iter().map(global_name).collect();
        assert_eq!(names, vec![(true, 1), (false, 1)]);
    }
    assert!(reg.get_info(g).unwrap().disabled);
    // a disabled global is not sent again
    assert_eq!(reg.send_global_to_all(g, &mut clients), Err(InvalidId));
}

#[test]
fn hidden_global_is_never_advertised_nor_bound() {
    let mut reg: Registry<HideFrom> = Registry::new();
    let mut clients = ClientStore::new();
    clients.insert_client(client(1));
    clients.insert_client(client(2));
    reg.new_registry(registry_of(1, 2), &mut clients).unwrap();
    let g = reg.create_global(TEST_GLOBAL, 3, HideFrom(2), &mut clients);
    reg.new_registry(registry_of(2, 2), &mut clients).unwrap();
    assert_eq!(events_of(&clients, 1).len(), 1);
    assert!(events_of(&clients, 2).is_empty());
    assert!(reg.check_bind(client(2), g.id, b"test_global", 1).is_none());
    assert!(reg.check_bind(client(1), g.id, b"test_global", 1).is_some());
    reg.disable_global(g, &mut clients);
    assert!(events_of(&clients, 2).is_empty());
    assert_eq!(events_of(&clients, 1).len(), 2);
}

#[test]
fn stale_bind_is_rejected() {
    let mut reg: Registry<AllowAll> = Registry::new();
    let mut clients = ClientStore::new();
    let g = reg.create_global(TEST_GLOBAL, 3, AllowAll, &mut clients);
    assert!(reg.check_bind(client(1), 1, b"test_global", 3).is_some());
    reg.disable_global(g, &mut clients);
    assert!(reg.check_bind(client(1), 1, b"test_global", 3).is_none());
    reg.remove_global(g, &mut clients);
    assert!(reg.check_bind(client(1), 1, b"test_global", 3).is_none());
}

#[test]
fn check_bind_refusals() {
    let mut reg: Registry<AllowAll> = Registry::new();
    let mut clients = ClientStore::new();
    reg.create_global(TEST_GLOBAL, 3, AllowAll, &mut clients);
    assert!(reg.check_bind(client(1), 0, b"test_global", 3).is_none());
    assert!(reg.check_bind(client(1), 1, b"test_global", 0).is_none());
    assert!(reg.check_bind(client(1), 2, b"test_global", 1).is_none());
    assert!(reg.check_bind(client(1), 1, b"wl_seat", 1).is_none());
    assert!(reg.check_bind(client(1), 1, b"test_globa", 1).is_none());
    assert!(reg.check_bind(client(1), 1, b"test_global", 4).is_none());
    assert!(reg.bind_target(1, b"test_global", 2).is_some());
}

#[test]
fn end_to_end_bind_versions() {
    let mut reg: Registry<AllowAll> = Registry::new();
    let mut clients = ClientStore::new();
    clients.insert_client(client(1));
    reg.new_registry(registry_of(1, 2), &mut clients).unwrap();
    let g = reg.create_global(TEST_GLOBAL, 3, AllowAll, &mut clients);
    assert_eq!(g.id, 1);
    match clients.sent[0].event {
        RegistryEvent::Global { name, version, .. } => assert_eq!((name, version), (1, 3)),
        _ => panic!("expected an advertisement"),
    }
    let (interface, id, _) = reg.check_bind(client(1), 1, b"test_global", 3).unwrap();
    assert_eq!(interface.name, b"test_global");
    assert_eq!(id, g);
    assert!(reg.check_bind(client(1), 1, b"test_global", 4).is_none());
}

#[test]
fn cleanup_drops_registries_of_dead_clients() {
    let mut reg: Registry<AllowAll> = Registry::new();
    let mut clients = ClientStore::new();
    reg.new_registry(registry_of(1, 2), &mut clients).unwrap();
    reg.new_registry(registry_of(2, 2), &mut clients).unwrap();
    reg.new_registry(registry_of(1, 5), &mut clients).unwrap();
    reg.cleanup(&[client(1)]);
    assert_eq!(reg.known_registries, vec![registry_of(2, 2)]);
}

#[test]
fn broadcast_skips_hidden_and_gone_clients() {
    let mut reg: Registry<AllowAll> = Registry::new();
    let mut clients = ClientStore::new();
    clients.insert_client(client(1));
    clients.insert_client(client(2));
    let g = reg.create_global(TEST_GLOBAL, 3, AllowAll, &mut clients);
    let global = reg.get_global(g).unwrap();
    let regs = vec![registry_of(1, 2), registry_of(2, 2), registry_of(3, 2)];
    broadcast(global, &regs, &vec![false, true, true], false, &mut clients);
    assert_eq!(clients.sent.len(), 1);
    assert_eq!(clients.sent[0].client, client(2));
    assert!(matches!(clients.sent[0].event, RegistryEvent::GlobalRemove { name: 1, .. }));
}

#[test]
fn listing_with_given_answers() {
    let mut reg: Registry<AllowAll> = Registry::new();
    let mut clients = ClientStore::new();
    reg.create_global(TEST_GLOBAL, 3, AllowAll, &mut clients);
    reg.create_global(WL_SEAT, 2, AllowAll, &mut clients);
    clients.insert_client(client(1));
    assert_eq!(reg.send_listed_globals_to(registry_of(1, 2), &vec![false, true], &mut clients), Ok(()));
    let names: Vec<(bool, u32)> = events_of(&clients, 1).iter().map(global_name).collect();
    assert_eq!(names, vec![(true, 2)]);
}

#[test]
fn client_store_send_and_kill() {
    let mut clients = ClientStore::new();
    clients.insert_client(client(4));
    clients.insert_client(client(4));
    assert_eq!(clients.live.len(), 1);
    let e = RegistryEvent::GlobalRemove { registry: registry_of(4, 2), name: 7 };
    assert_eq!(clients.send_event(client(4), e), Ok(()));
    clients.kill_client(client(4));
    assert!(!clients.is_live(client(4)));
    assert_eq!(clients.send_event(client(4), e), Err(InvalidId));
    assert_eq!(clients.sent.len(), 1);
}

#[test]
fn same_bytes_compares_exactly() {
    assert!(same_bytes(b"wl_seat", b"wl_seat"));
    assert!(!same_bytes(b"wl_seat", b"wl_sea"));
    assert!(!same_bytes(b"wl_seat", b"wl_sext"));
    assert!(same_bytes(b"", b""));
}
