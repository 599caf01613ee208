//! The wire-level view of the frame header: the function code as a raw
//! byte, validated on receive. The container side reads headers through
//! this module; `read_header` rejects a zero port and an undefined
//! function code.

use vstd::prelude::*;

use crate::codec::{
    spec_u16_be, spec_u16_from_be, spec_u32_be, spec_u32_from_be, FrameError, Function,
};

verus! {

/// The reserved close code: accepted on receive, never emitted.
pub const CLOSE: u8 = 0b0000;

/// A TCP data frame.
pub const TCP: u8 = 0b0100;

/// A UDP data frame.
pub const UDP: u8 = 0b0010;

/// A request to open a TCP listener for the labelled port.
pub const CREATE_TCP: u8 = 0b1100;

/// A request to open a UDP listener for the labelled port.
pub const CREATE_UDP: u8 = 0b1010;

/// The protocol kind of a socket to create.
#[derive(Debug, PartialEq, Eq, Structural, Clone, Copy)]
pub enum NetworkProtocol {
    TCP,
    UDP,
}

/// A frame header with the function code kept as its wire byte.
#[derive(Debug, PartialEq, Eq, Structural, Clone, Copy)]
pub struct UnixHeader {
    pub size: u32,
    pub function: u8,
    pub port: u16,
}

/// A frame: one header and the body bytes it announces.
#[derive(Debug, PartialEq, Clone)]
pub struct UnixMessage {
    pub header: UnixHeader,
    pub message: Vec<u8>,
}

/// The eight wire bytes of a header: four big-endian size bytes, the
/// function byte, two big-endian port bytes, and a zero reserved byte.
pub open spec fn spec_header_bytes(h: UnixHeader) -> Seq<u8> {
    spec_u32_be(h.size) + seq![h.function] + spec_u16_be(h.port) + seq![0u8]
}

/// The header fields read from the first eight of a byte sequence, before
/// any validation; the eighth byte is ignored.
pub open spec fn spec_header_fields(s: Seq<u8>) -> UnixHeader
    recommends
        s.len() >= 8,
{
    UnixHeader {
        size: spec_u32_from_be(s[0], s[1], s[2], s[3]),
        function: s[4],
        port: spec_u16_from_be(s[5], s[6]),
    }
}

/// The validated header read from eight bytes: an error on a zero port or
/// an undefined function code, the fields otherwise.
pub open spec fn spec_read_header(s: Seq<u8>) -> Result<UnixHeader, FrameError>
    recommends
        s.len() >= 8,
{
    let h = spec_header_fields(s);
    if h.port == 0 {
        Err(FrameError::ZeroPort)
    } else if !Function::is_defined_code(h.function) {
        Err(FrameError::UnknownFunction)
    } else {
        Ok(h)
    }
}

/// The validated header read from an eight-byte buffer, as
/// `spec_read_header` says; the error text names the cause.
pub fn read_header(header: [u8; 8]) -> (r: Result<UnixHeader, String>)
    ensures
        match r {
            Ok(h) => spec_read_header(header@) == Ok::<UnixHeader, FrameError>(h),
            Err(e) => {
                ||| (spec_read_header(header@) == Err::<UnixHeader, FrameError>(
                    FrameError::ZeroPort,
                ) && e@ == "The Port can't be 0"@)
                ||| (spec_read_header(header@) == Err::<UnixHeader, FrameError>(
                    FrameError::UnknownFunction,
                ) && e@ == "Unsupported Function provided."@)
            },
        },
{
    let size = ((header[0] as u32) << 24) | ((header[1] as u32) << 16) | ((header[2] as u32) << 8)
        | (header[3] as u32);
    let port = ((header[5] as u16) << 8) | (header[6] as u16);
    if port == 0 {
        return Err(String::from_str("The Port can't be 0"));
    }
    let code = header[4];
    if code == CLOSE || code == TCP || code == UDP || code == CREATE_TCP || code == CREATE_UDP {
        Ok(UnixHeader { size, function: code, port })
    } else {
        Err(String::from_str("Unsupported Function provided."))
    }
}

/// The eight wire bytes of a header, the reserved byte zero.
pub fn encode_header(header: UnixHeader) -> (r: [u8; 8])
    ensures
        r@ == spec_header_bytes(header),
{
    let size = header.size;
    proof {
        assert(size >> 24 < 256 && (size >> 16) & 0xff < 256 && (size >> 8) & 0xff < 256 && size
            & 0xff < 256) by (bit_vector);
    }
    let port = header.port;
    proof {
        assert(port >> 8 < 256 && port & 0xff < 256) by (bit_vector);
    }
    let r: [u8; 8] = [
        (size >> 24) as u8,
        ((size >> 16) & 0xff) as u8,
        ((size >> 8) & 0xff) as u8,
        (size & 0xff) as u8,
        header.function,
        (port >> 8) as u8,
        (port & 0xff) as u8,
        0,
    ];
    assert(r@ =~= spec_header_bytes(header));
    r
}

/// The wire bytes of a frame: eight header bytes, then the body.
pub fn encode_message(message: UnixMessage) -> (r: Vec<u8>)
    ensures
        r@ == spec_header_bytes(message.header) + message.message@,
{
    let header_bytes = encode_header(message.header);
    let mut result: Vec<u8> = Vec::new();
    result.push(header_bytes[0]);
    result.push(header_bytes[1]);
    result.push(header_bytes[2]);
    result.push(header_bytes[3]);
    result.push(header_bytes[4]);
    result.push(header_bytes[5]);
    result.push(header_bytes[6]);
    result.push(header_bytes[7]);
    assert(result@ =~= spec_header_bytes(message.header));
    let mut i: usize = 0;
    while i < message.message.len()
        invariant
            i <= message.message.len(),
            result@ == spec_header_bytes(message.header) + message.message@.take(i as int),
        decreases message.message.len() - i,
    {
        result.push(message.message[i]);
        i = i + 1;
        assert(result@ =~= spec_header_bytes(message.header) + message.message@.take(i as int));
    }
    assert(result@ =~= spec_header_bytes(message.header) + message.message@);
    result
}

/// Reading back the encoding of a header with a nonzero port and a defined
/// function code yields the header itself.
pub proof fn lemma_unix_header_round_trip(h: UnixHeader)
    requires
        h.port != 0,
        Function::is_defined_code(h.function),
    ensures
        spec_read_header(spec_header_bytes(h)) == Ok::<UnixHeader, FrameError>(h),
{
    crate::codec::lemma_u32_be_round_trip(h.size);
    crate::codec::lemma_u16_be_round_trip(h.port);
}

/// Reading back the encoding of a header whose port is zero is an error,
/// whatever its other fields hold.
pub proof fn lemma_read_header_rejects_zero_port(h: UnixHeader)
    requires
        h.port == 0,
    ensures
        spec_read_header(spec_header_bytes(h)) == Err::<UnixHeader, FrameError>(
            FrameError::ZeroPort,
        ),
{
    crate::codec::lemma_u16_be_round_trip(h.port);
}

/// Reading back the encoding of a header whose function byte is undefined
/// is an error, whatever its other fields hold.
pub proof fn lemma_read_header_rejects_unknown_function(h: UnixHeader)
    requires
        h.port != 0,
        !Function::is_defined_code(h.function),
    ensures
        spec_read_header(spec_header_bytes(h)) == Err::<UnixHeader, FrameError>(
            FrameError::UnknownFunction,
        ),
{
    crate::codec::lemma_u16_be_round_trip(h.port);
}

} // verus!
