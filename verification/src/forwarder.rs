//! The container side of one data frame: deciding which frames are
//! forwarded to the local service, and framing the service's answer under
//! the same port label the request carried.

use vstd::prelude::*;

use crate::codec::{
    create_message, spec_create_message, spec_decode_message, Function, FrameError, Message,
    MessageView,
};
use crate::mux::{has_port, port_index, spec_dispatch, MultiplexerV};
use crate::protocol::{UnixHeader, UnixMessage, TCP, UDP};

verus! {

/// Whether a frame from the transport is forwarded to the local service:
/// only TCP data frames are; every other function code is logged and the
/// frame is dropped.
pub fn should_forward(message: &Message) -> (r: bool)
    ensures
        r == (message.header.function is Tcp),
{
    match message.header.function {
        Function::Tcp => true,
        _ => false,
    }
}

/// The frame a forwarder sends back for a request it answered: a TCP data
/// frame under the request's own port label, carrying the service's reply;
/// no frame at all for a request that is not a TCP data frame.
pub open spec fn spec_forward_response(request: MessageView, reply: Seq<u8>) -> Option<
    MessageView,
> {
    if request.header.function is Tcp {
        Some(spec_create_message(request.header.port, Function::Tcp, reply))
    } else {
        None
    }
}

/// The reply frame for one answered request, as `spec_forward_response`
/// says: the response echoes the request's port label.
pub fn forward_response(request: &Message, reply: Vec<u8>) -> (r: Option<Message>)
    requires
        reply@.len() <= u32::MAX,
    ensures
        match r {
            Some(m) => spec_forward_response(request@, reply@) == Some(m@) && m.header.port
                == request.header.port,
            None => spec_forward_response(request@, reply@) is None,
        },
{
    if should_forward(request) {
        Some(create_message(request.header.port, Function::Tcp, reply))
    } else {
        None
    }
}

/// What the container-side server does with one frame, by its function
/// byte: forward it over TCP, forward it over UDP, or ignore it.
#[derive(Debug, PartialEq, Eq, Structural, Clone, Copy)]
pub enum ServerAction {
    ForwardTcp,
    ForwardUdp,
    Ignore,
}

/// The server's decision for one frame's function byte.
pub fn server_action(function: u8) -> (r: ServerAction)
    ensures
        r == if function == TCP {
            ServerAction::ForwardTcp
        } else if function == UDP {
            ServerAction::ForwardUdp
        } else {
            ServerAction::Ignore
        },
{
    if function == TCP {
        ServerAction::ForwardTcp
    } else if function == UDP {
        ServerAction::ForwardUdp
    } else {
        ServerAction::Ignore
    }
}

/// The wire-level reply to a TCP request: the response bytes under the
/// same port label, the header announcing exactly their number.
pub fn tcp_reply(port: u16, response: Vec<u8>) -> (r: UnixMessage)
    requires
        response@.len() <= u32::MAX,
    ensures
        r.header == (UnixHeader { size: response@.len() as u32, function: TCP, port }),
        r.message@ == response@,
{
    let size = response.len() as u32;
    UnixMessage { header: UnixHeader { size, function: TCP, port }, message: response }
}

/// The wire-level reply to a UDP request: the response bytes under the
/// same port label, the header announcing exactly their number.
pub fn udp_reply(port: u16, response: Vec<u8>) -> (r: UnixMessage)
    requires
        response@.len() <= u32::MAX,
    ensures
        r.header == (UnixHeader { size: response@.len() as u32, function: UDP, port }),
        r.message@ == response@,
{
    let size = response.len() as u32;
    UnixMessage { header: UnixHeader { size, function: UDP, port }, message: response }
}

/// Create-and-echo: a request body framed under a nonzero label survives
/// encoding and decoding, an echoing forwarder answers it with a frame
/// carrying the same label and the same body, that reply survives the wire
/// in turn, and the multiplexer delivers it to the inbox registered under
/// the label. The host caller therefore receives exactly the body it sent.
pub proof fn lemma_echo_round_trip(port: u16, body: Seq<u8>, mv: MultiplexerV)
    requires
        port != 0,
        body.len() <= u32::MAX,
        has_port(mv.registry, port),
    ensures
        ({
            let request = spec_create_message(port, Function::Tcp, body);
            let reply = spec_forward_response(request, request.body);
            &&& spec_decode_message(request.spec_encode()) == Ok::<
                Option<MessageView>,
                FrameError,
            >(Some(request))
            &&& reply == Some(spec_create_message(port, Function::Tcp, body))
            &&& reply matches Some(m) && m.header.port == port && m.body == body
                && spec_decode_message(m.spec_encode()) == Ok::<Option<MessageView>, FrameError>(
                Some(m),
            ) && spec_dispatch(mv, m).registry[port_index(mv.registry, port)].inbox
                == mv.registry[port_index(mv.registry, port)].inbox.push(m)
        }),
{
    let request = spec_create_message(port, Function::Tcp, body);
    crate::codec::lemma_message_round_trip(request);
}

} // verus!
