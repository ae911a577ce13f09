use vstd::prelude::*;
use vstd::string::StringSliceAdditionalSpecFns;
use crate::object_map::{is_client_id, ObjectMap, ObjectRecord, ObjectState, Route};
use crate::types::{ClientId, Interface};
use crate::wire::{
    args_bytes, encode_message, message_bytes, push_bytes, Argument, ArgumentView, MessageHeader,
};

verus! {

/// Id of the display object, the root object of every connection.
pub const DISPLAY_ID: u32 = 1;

/// Display error code: a message named an object that does not exist.
pub const INVALID_OBJECT: u32 = 0;

/// Display error code: a message had an unknown opcode or malformed arguments.
pub const INVALID_METHOD: u32 = 1;

/// Size in bytes of a message header.
pub const HEADER_SIZE: u16 = 8;

/// Life of a connection: a fatal error moves it from `Open` to `Closing`,
/// and it is `Closed` once the error was flushed to the peer.
#[derive(Clone, Copy, Debug, PartialEq, Eq, Structural)]
pub enum ConnectionState {
    Open,
    Closing,
    Closed,
}

/// Opcode of the display's `error` event.
pub const ERROR_OPCODE: u16 = 0;

/// The fatal error of a connection: the object it is tied to, a numeric
/// code and a human-readable text, as the bytes that go on the wire.
#[derive(Debug)]
pub struct ProtocolError {
    pub object_id: u32,
    pub code: u32,
    pub message: Vec<u8>,
}

/// The arguments of the display's `error` event for `e`.
pub open spec fn error_args(e: ProtocolError) -> Seq<ArgumentView> {
    seq![
        ArgumentView::Object(e.object_id),
        ArgumentView::Uint(e.code),
        ArgumentView::Str(e.message@),
    ]
}

/// The bytes of a text.
pub fn text(s: &str) -> (r: Vec<u8>)
    ensures
        r@ == s.spec_bytes(),
{
    let mut out: Vec<u8> = Vec::new();
    push_bytes(&mut out, s.as_bytes());
    assert(out@ =~= s.spec_bytes());
    out
}

/// What dispatching one message decided.
#[derive(Clone, Copy, Debug)]
pub enum Dispatch {
    /// Hand the message to the handler of this object.
    Deliver(ObjectRecord),
    /// Drop the message without error and without calling any handler.
    Drop,
    /// The message broke the protocol; the connection is closing.
    Fatal,
}

/// One connection: its objects, its state, and the error that closed it.
pub struct Connection {
    pub client_id: ClientId,
    pub objects: ObjectMap,
    pub state: ConnectionState,
    pub error: Option<ProtocolError>,
}

/// A fatal error: the connection now closes with `code` tied to `object_id`.
pub open spec fn failed_with(before: &Connection, after: &Connection, object_id: u32, code: u32) -> bool {
    &&& after.state == ConnectionState::Closing
    &&& after.error matches Some(e) && e.object_id == object_id && e.code == code
    &&& after.objects == before.objects
    &&& after.client_id == before.client_id
}

/// Nothing changed.
pub open spec fn unchanged(before: &Connection, after: &Connection) -> bool {
    &&& after.state == before.state
    &&& after.error == before.error
    &&& after.objects == before.objects
    &&& after.client_id == before.client_id
}

impl Connection {
    /// A fresh connection whose objects are given.
    pub fn new(client_id: ClientId, objects: ObjectMap) -> (r: Self)
        ensures
            r.client_id == client_id,
            r.objects == objects,
            r.state == ConnectionState::Open,
            r.error is None,
    {
        Connection { client_id, objects, state: ConnectionState::Open, error: None }
    }

    /// Closes an open connection with an error tied to `object_id`; a
    /// connection that is already closing keeps its first error.
    pub fn post_error(&mut self, object_id: u32, code: u32, message: Vec<u8>)
        ensures
            old(self).state == ConnectionState::Open ==> failed_with(old(self), final(self), object_id, code)
                && final(self).error->Some_0.message == message,
            old(self).state != ConnectionState::Open ==> unchanged(old(self), final(self)),
    {
        if self.state == ConnectionState::Open {
            self.error = Some(ProtocolError { object_id, code, message });
            self.state = ConnectionState::Closing;
        }
    }

    /// Marks a closing connection closed, once its error went out.
    pub fn finish_close(&mut self)
        ensures
            final(self).state == (if old(self).state == ConnectionState::Open {
                ConnectionState::Open
            } else {
                ConnectionState::Closed
            }),
            final(self).error == old(self).error,
            final(self).objects == old(self).objects,
            final(self).client_id == old(self).client_id,
    {
        if self.state != ConnectionState::Open {
            self.state = ConnectionState::Closed;
        }
    }

    /// Server side: validates a request that the client sent. It must name a
    /// live object, an opcode of that object's interface, and a size that
    /// covers at least the header; anything else closes the connection.
    pub fn dispatch_request(&mut self, header: MessageHeader) -> (r: Dispatch)
        ensures
            old(self).state != ConnectionState::Open ==> r is Drop && unchanged(old(self), final(self)),
            old(self).state == ConnectionState::Open ==> match old(self).objects.request_route(
                header.sender_id,
            ) {
                Route::Deliver => {
                    let o = old(self).objects.slot(header.sender_id)->Some_0;
                    if header.opcode < o.interface.requests && header.size >= HEADER_SIZE {
                        r == Dispatch::Deliver(o) && unchanged(old(self), final(self))
                    } else {
                        r is Fatal && failed_with(old(self), final(self), DISPLAY_ID, INVALID_METHOD)
                    }
                },
                _ => r is Fatal && failed_with(old(self), final(self), DISPLAY_ID, INVALID_OBJECT),
            },
    {
        if self.state != ConnectionState::Open {
            return Dispatch::Drop;
        }
        match self.objects.route_request(header.sender_id) {
            Route::Deliver => {
                let o = self.objects.find(header.sender_id).unwrap();
                if header.opcode < o.interface.requests && header.size >= HEADER_SIZE {
                    Dispatch::Deliver(o)
                } else {
                    self.post_error(DISPLAY_ID, INVALID_METHOD, text("invalid method"));
                    Dispatch::Fatal
                }
            },
            _ => {
                self.post_error(DISPLAY_ID, INVALID_OBJECT, text("invalid object"));
                Dispatch::Fatal
            },
        }
    }

    /// Client side: routes an event that the server sent. An event to an
    /// object this side already destroyed is dropped without error; one to
    /// an unknown object, or with an unknown opcode or a size below the
    /// header's, closes the connection.
    pub fn dispatch_event(&mut self, header: MessageHeader) -> (r: Dispatch)
        ensures
            old(self).state != ConnectionState::Open ==> r is Drop && unchanged(old(self), final(self)),
            old(self).state == ConnectionState::Open ==> match old(self).objects.event_route(
                header.sender_id,
            ) {
                Route::Deliver => {
                    let o = old(self).objects.slot(header.sender_id)->Some_0;
                    if header.opcode < o.interface.events && header.size >= HEADER_SIZE {
                        r == Dispatch::Deliver(o) && unchanged(old(self), final(self))
                    } else {
                        r is Fatal && failed_with(old(self), final(self), DISPLAY_ID, INVALID_METHOD)
                    }
                },
                Route::Swallow => r is Drop && unchanged(old(self), final(self)),
                Route::Fault => r is Fatal && failed_with(old(self), final(self), DISPLAY_ID, INVALID_OBJECT),
            },
    {
        if self.state != ConnectionState::Open {
            return Dispatch::Drop;
        }
        match self.objects.route_event(header.sender_id) {
            Route::Deliver => {
                let o = self.objects.find(header.sender_id).unwrap();
                if header.opcode < o.interface.events && header.size >= HEADER_SIZE {
                    Dispatch::Deliver(o)
                } else {
                    self.post_error(DISPLAY_ID, INVALID_METHOD, text("invalid method"));
                    Dispatch::Fatal
                }
            },
            Route::Swallow => Dispatch::Drop,
            Route::Fault => {
                self.post_error(DISPLAY_ID, INVALID_OBJECT, text("invalid object"));
                Dispatch::Fatal
            },
        }
    }

    /// Server side: binds the fresh object that a request's new-id argument
    /// names, before the request's handler runs. An id that the client may
    /// not take closes the connection.
    pub fn accept_new_id(&mut self, id: u32, interface: Interface, version: u32) -> (r: bool)
        ensures
            old(self).state != ConnectionState::Open ==> !r && unchanged(old(self), final(self)),
            old(self).state == ConnectionState::Open ==> {
                let ok = is_client_id(id) && id - 1 <= old(self).objects.client_objects@.len()
                    && old(self).objects.slot(id) is None;
                &&& r == ok
                &&& ok ==> final(self).objects.slot(id) == Some(
                    ObjectRecord { interface, version, state: ObjectState::Live },
                )
                &&& ok ==> forall|other: u32|
                    other != id ==> final(self).objects.slot(other) == old(self).objects.slot(other)
                &&& ok ==> final(self).state == ConnectionState::Open && final(self).error == old(
                    self,
                ).error
                &&& !ok ==> failed_with(old(self), final(self), DISPLAY_ID, INVALID_OBJECT)
            },
            final(self).client_id == old(self).client_id,
    {
        if self.state != ConnectionState::Open {
            return false;
        }
        match self.objects.allocate_client_id(id, interface, version) {
            Ok(()) => true,
            Err(_) => {
                self.post_error(DISPLAY_ID, INVALID_OBJECT, text("invalid object"));
                false
            },
        }
    }

    /// The display `error` event that tells the peer of this connection's
    /// error, with no file descriptors; `None` when there is no error, or
    /// when its text is too long for one message.
    pub fn error_event(&self) -> (r: Option<Vec<u8>>)
        ensures
            match self.error {
                Some(e) => if 8 + args_bytes(error_args(e)).len() <= u16::MAX {
                    r matches Some(b) && b@ == message_bytes(DISPLAY_ID, ERROR_OPCODE, error_args(e))
                } else {
                    r is None
                },
                None => r is None,
            },
    {
        match &self.error {
            Some(e) => {
                if e.message.len() > 0xffff {
                    proof {
                        reveal_with_fuel(args_bytes, 4);
                        let v = error_args(*e);
                        assert(v.drop_last().drop_last().drop_last() =~= Seq::<ArgumentView>::empty());
                    }
                    return None;
                }
                let mut message: Vec<u8> = Vec::new();
                push_bytes(&mut message, e.message.as_slice());
                let args = vec![Argument::Object(e.object_id), Argument::Uint(e.code), Argument::Str(message)];
                proof {
                    assert(crate::wire::views(args@) =~= error_args(*e));
                }
                match encode_message(DISPLAY_ID, ERROR_OPCODE, &args) {
                    Some((bytes, _)) => Some(bytes),
                    None => None,
                }
            },
            None => None,
        }
    }
}

} // verus!
