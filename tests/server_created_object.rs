use wayland_backend::connection::{Connection, Dispatch, DISPLAY_ID};
use wayland_backend::wire::MessageHeader;
use wayland_backend::object_map::ObjectMap;
use wayland_backend::types::{ClientId, Interface};

const WL_DISPLAY: Interface = Interface { name: b"wl_display", version: 1, requests: 2, events: 2 };
const WL_DATA_DEVICE: Interface = Interface { name: b"wl_data_device", version: 3, requests: 3, events: 6 };
const WL_DATA_OFFER: Interface = Interface { name: b"wl_data_offer", version: 3, requests: 5, events: 3 };

/// Both ends of one connection, each with its own object table.
struct Pair {
    server: ObjectMap,
    client: Connection,
}

fn pair() -> Pair {
    let mut server = ObjectMap::new();
    server.allocate_client_id(DISPLAY_ID, WL_DISPLAY, 1).unwrap();
    let mut client_map = ObjectMap::new();
    client_map.allocate_client_id(DISPLAY_ID, WL_DISPLAY, 1).unwrap();
    Pair { server, client: Connection::new(ClientId { id: 1 }, client_map) }
}

fn event(sender_id: u32) -> MessageHeader {
    MessageHeader { sender_id, opcode: 0, size: 12 }
}

/// The client creates a data device with id `id` on both sides.
fn data_device(p: &mut Pair, id: u32) {
    p.client.objects.allocate_client_id(id, WL_DATA_DEVICE, 3).unwrap();
    p.server.allocate_client_id(id, WL_DATA_DEVICE, 3).unwrap();
}

/// The server creates a data offer and announces it; the client takes the id.
fn new_data_offer(p: &mut Pair) -> u32 {
    let id = p.server.allocate_server_id(WL_DATA_OFFER, 3);
    p.client.objects.insert_server_id(id, WL_DATA_OFFER, 3).unwrap();
    id
}

/// The client destroys an object; the server hears of it and frees the id,
/// and the client frees it once the server confirmed.
fn destroy(p: &mut Pair, id: u32) {
    p.client.objects.release(id).unwrap();
    p.server.release(id).unwrap();
    p.server.free(id);
    p.client.objects.free(id);
}

#[test]
fn data_offer() {
    let mut p = pair();
    data_device(&mut p, 2);
    let offer = new_data_offer(&mut p);
    assert_eq!(offer, 0xFF000000);
    let client_do = p.client.objects.find(offer).unwrap();
    assert_eq!(client_do.version, 3);
    assert_eq!(offer, 0xFF000000);
}

#[test]
fn server_id_reuse() {
    let mut p = pair();
    data_device(&mut p, 2);
    let offer = new_data_offer(&mut p);
    assert_eq!(offer, 0xFF000000);
    let second = new_data_offer(&mut p);
    assert_eq!(second, 0xFF000001);
    destroy(&mut p, offer);
    let third = new_data_offer(&mut p);
    assert_eq!(third, 0xFF000000);
    assert_eq!(p.client.objects.find(third).unwrap().interface.name, b"wl_data_offer");
}

#[test]
fn server_created_race() {
    let mut p = pair();
    data_device(&mut p, 2);
    let offer = new_data_offer(&mut p);
    assert_eq!(offer, 0xFF000000);
    assert!(matches!(p.client.dispatch_event(event(offer)), Dispatch::Deliver(_)));
    // the client destroys the offer while an event to it is in flight
    p.client.objects.release(offer).unwrap();
    assert!(matches!(p.client.dispatch_event(event(offer)), Dispatch::Drop));
    assert!(p.client.error.is_none());
}

#[test]
fn creation_destruction_race() {
    let mut p = pair();
    data_device(&mut p, 2);
    data_device(&mut p, 3);
    // the client releases the first device while the server sends to it
    p.client.objects.release(2).unwrap();
    let offer1 = p.server.allocate_server_id(WL_DATA_OFFER, 3);
    assert!(matches!(p.client.dispatch_event(event(2)), Dispatch::Drop));
    p.client.objects.insert_server_id(offer1, WL_DATA_OFFER, 3).unwrap();
    p.client.objects.release(offer1).unwrap();
    assert!(matches!(p.client.dispatch_event(event(offer1)), Dispatch::Drop));
    assert!(p.client.error.is_none());
    // an unrelated offer still arrives
    let offer2 = new_data_offer(&mut p);
    assert!(matches!(p.client.dispatch_event(event(3)), Dispatch::Deliver(_)));
    assert!(matches!(p.client.dispatch_event(event(offer2)), Dispatch::Deliver(_)));
}

#[test]
fn creation_destruction_queue_dispatch_race() {
    let mut p = pair();
    data_device(&mut p, 2);
    // an event to the device is read, then the device is released before it is dispatched
    let queued = event(2);
    p.client.objects.release(2).unwrap();
    assert!(matches!(p.client.dispatch_event(queued), Dispatch::Drop));
    assert!(p.client.error.is_none());
}
