//! The frame codec: an 8-byte header (size, function, port, reserved) in
//! big-endian layout, followed by `size` body bytes.

use vstd::prelude::*;

verus! {

/// The function codes a frame can carry. Bit 2 marks TCP, bit 1 marks UDP,
/// bit 3 marks a create-listener request; the all-zero code is the reserved
/// close code, accepted on receive but never emitted.
#[derive(Debug, PartialEq, Eq, Structural, Clone, Copy)]
pub enum Function {
    CreateTcp,
    CreateUdp,
    Tcp,
    Udp,
    Close,
}

impl Function {
    /// The wire byte of this function code.
    pub open spec fn code(self) -> u8 {
        match self {
            Function::CreateTcp => 0b0000_1100,
            Function::CreateUdp => 0b0000_1010,
            Function::Tcp => 0b0000_0100,
            Function::Udp => 0b0000_0010,
            Function::Close => 0b0000_0000,
        }
    }

    /// Whether a byte is one of the defined function codes.
    pub open spec fn is_defined_code(byte: u8) -> bool {
        ||| byte == 0b0000_1100
        ||| byte == 0b0000_1010
        ||| byte == 0b0000_0100
        ||| byte == 0b0000_0010
        ||| byte == 0b0000_0000
    }

    /// The function a defined wire byte stands for.
    pub open spec fn spec_decode(byte: u8) -> Function
        recommends
            Function::is_defined_code(byte),
    {
        if byte == 0b0000_1100 {
            Function::CreateTcp
        } else if byte == 0b0000_1010 {
            Function::CreateUdp
        } else if byte == 0b0000_0100 {
            Function::Tcp
        } else if byte == 0b0000_0010 {
            Function::Udp
        } else {
            Function::Close
        }
    }

    pub fn encode(&self) -> (r: u8)
        ensures
            r == self.code(),
            Function::is_defined_code(r),
    {
        match self {
            Function::CreateTcp => 0b0000_1100,
            Function::CreateUdp => 0b0000_1010,
            Function::Tcp => 0b0000_0100,
            Function::Udp => 0b0000_0010,
            Function::Close => 0b0000_0000,
        }
    }

    pub fn decode(byte: u8) -> (r: Function)
        requires
            Function::is_defined_code(byte),
        ensures
            r == Function::spec_decode(byte),
            r.code() == byte,
    {
        if byte == 0b0000_1100 {
            Function::CreateTcp
        } else if byte == 0b0000_1010 {
            Function::CreateUdp
        } else if byte == 0b0000_0100 {
            Function::Tcp
        } else if byte == 0b0000_0010 {
            Function::Udp
        } else {
            Function::Close
        }
    }
}

/// Decoding a function code's wire byte yields the code itself.
pub proof fn lemma_function_round_trip(f: Function)
    ensures
        Function::spec_decode(f.code()) == f,
{
}

/// The big-endian bytes of a `u32`, most significant first.
pub open spec fn spec_u32_be(x: u32) -> Seq<u8> {
    seq![
        (x >> 24) as u8,
        ((x >> 16) & 0xff) as u8,
        ((x >> 8) & 0xff) as u8,
        (x & 0xff) as u8,
    ]
}

/// The big-endian bytes of a `u16`, most significant first.
pub open spec fn spec_u16_be(x: u16) -> Seq<u8> {
    seq![(x >> 8) as u8, (x & 0xff) as u8]
}

/// The `u32` read from four big-endian bytes.
pub open spec fn spec_u32_from_be(b0: u8, b1: u8, b2: u8, b3: u8) -> u32 {
    ((b0 as u32) << 24) | ((b1 as u32) << 16) | ((b2 as u32) << 8) | (b3 as u32)
}

/// The `u16` read from two big-endian bytes.
pub open spec fn spec_u16_from_be(b0: u8, b1: u8) -> u16 {
    ((b0 as u16) << 8) | (b1 as u16)
}

pub proof fn lemma_u32_be_round_trip(x: u32)
    ensures
        spec_u32_from_be(
            spec_u32_be(x)[0],
            spec_u32_be(x)[1],
            spec_u32_be(x)[2],
            spec_u32_be(x)[3],
        ) == x,
{
    assert((((x >> 24) as u8 as u32) << 24) | ((((x >> 16) & 0xff) as u8 as u32) << 16) | ((((x
        >> 8) & 0xff) as u8 as u32) << 8) | ((x & 0xff) as u8 as u32) == x) by (bit_vector);
}

pub proof fn lemma_u16_be_round_trip(x: u16)
    ensures
        spec_u16_from_be(spec_u16_be(x)[0], spec_u16_be(x)[1]) == x,
{
    assert((((x >> 8) as u8 as u16) << 8) | ((x & 0xff) as u8 as u16) == x) by (bit_vector);
}

/// A frame header: body length, function code, and the container-side
/// port label of the logical stream. The eighth wire byte is reserved,
/// written as zero and ignored on receive.
#[derive(Debug, PartialEq, Eq, Structural, Clone, Copy)]
pub struct Header {
    pub message_size: u32,
    pub function: Function,
    pub port: u16,
}

impl Header {
    /// The eight wire bytes of this header.
    pub open spec fn spec_encode(self) -> Seq<u8> {
        spec_u32_be(self.message_size) + seq![self.function.code()] + spec_u16_be(self.port)
            + seq![0u8]
    }

    /// The header read from the first eight of a byte sequence; the eighth
    /// byte is ignored.
    pub open spec fn spec_parse(s: Seq<u8>) -> Header
        recommends
            s.len() >= 8,
            Function::is_defined_code(s[4]),
    {
        Header {
            message_size: spec_u32_from_be(s[0], s[1], s[2], s[3]),
            function: Function::spec_decode(s[4]),
            port: spec_u16_from_be(s[5], s[6]),
        }
    }

    pub fn encode(&self) -> (r: [u8; 8])
        ensures
            r@ == self.spec_encode(),
    {
        let size = self.message_size;
        proof {
            assert(size >> 24 < 256 && (size >> 16) & 0xff < 256 && (size >> 8) & 0xff < 256
                && size & 0xff < 256) by (bit_vector);
        }
        let port = self.port;
        proof {
            assert(port >> 8 < 256 && port & 0xff < 256) by (bit_vector);
        }
        let r: [u8; 8] = [
            (size >> 24) as u8,
            ((size >> 16) & 0xff) as u8,
            ((size >> 8) & 0xff) as u8,
            (size & 0xff) as u8,
            self.function.encode(),
            (port >> 8) as u8,
            (port & 0xff) as u8,
            0,
        ];
        assert(r@ =~= self.spec_encode());
        r
    }

    pub fn decode(buffer: &[u8; 8]) -> (r: Header)
        requires
            Function::is_defined_code(buffer@[4]),
        ensures
            r == Header::spec_parse(buffer@),
    {
        let message_size = ((buffer[0] as u32) << 24) | ((buffer[1] as u32) << 16) | ((buffer[2]
            as u32) << 8) | (buffer[3] as u32);
        let port = ((buffer[5] as u16) << 8) | (buffer[6] as u16);
        Header { message_size, function: Function::decode(buffer[4]), port }
    }
}

/// Parsing the encoding of a header yields the header itself, for every
/// defined function code and every port, the zero port included.
pub proof fn lemma_header_round_trip(h: Header)
    ensures
        Header::spec_parse(h.spec_encode()) == h,
{
    lemma_u32_be_round_trip(h.message_size);
    lemma_u16_be_round_trip(h.port);
    lemma_function_round_trip(h.function);
}

/// A frame: one header and the body bytes it announces.
#[derive(Debug, PartialEq, Clone)]
pub struct Message {
    pub header: Header,
    pub body: Vec<u8>,
}

/// The mathematical value of a frame: its header and the body as a byte
/// sequence.
pub struct MessageView {
    pub header: Header,
    pub body: Seq<u8>,
}

impl View for Message {
    type V = MessageView;

    open spec fn view(&self) -> MessageView {
        MessageView { header: self.header, body: self.body@ }
    }
}

impl MessageView {
    /// A frame whose header announces exactly its body length.
    pub open spec fn wf(self) -> bool {
        self.header.message_size == self.body.len()
    }

    /// The wire bytes of a frame: eight header bytes, then the body.
    pub open spec fn spec_encode(self) -> Seq<u8> {
        self.header.spec_encode() + self.body
    }
}

/// Why a byte sequence is not a frame.
#[derive(Debug, PartialEq, Eq, Structural, Clone, Copy)]
pub enum FrameError {
    /// At least one byte arrived, but fewer than the eight of a header.
    ShortHeader,
    /// The function byte is none of the defined codes.
    UnknownFunction,
    /// The port label is zero.
    ZeroPort,
    /// The body does not hold exactly the announced number of bytes.
    SizeMismatch,
}

/// The frame read from a byte sequence: end of stream on no bytes at all,
/// an error on a short header, an unknown function code, a zero port, or a
/// body of the wrong length, and the frame otherwise. The reserved eighth
/// header byte is ignored.
pub open spec fn spec_decode_message(s: Seq<u8>) -> Result<Option<MessageView>, FrameError> {
    if s.len() == 0 {
        Ok(None)
    } else if s.len() < 8 {
        Err(FrameError::ShortHeader)
    } else if !Function::is_defined_code(s[4]) {
        Err(FrameError::UnknownFunction)
    } else {
        let header = Header::spec_parse(s);
        if header.port == 0 {
            Err(FrameError::ZeroPort)
        } else if s.len() - 8 != header.message_size {
            Err(FrameError::SizeMismatch)
        } else {
            Ok(Some(MessageView { header, body: s.skip(8) }))
        }
    }
}

impl Message {
    /// The wire bytes of this frame.
    pub fn encode(&self) -> (r: Vec<u8>)
        ensures
            r@ == self@.spec_encode(),
    {
        let header_bytes = self.header.encode();
        let mut buffer: Vec<u8> = Vec::new();
        buffer.push(header_bytes[0]);
        buffer.push(header_bytes[1]);
        buffer.push(header_bytes[2]);
        buffer.push(header_bytes[3]);
        buffer.push(header_bytes[4]);
        buffer.push(header_bytes[5]);
        buffer.push(header_bytes[6]);
        buffer.push(header_bytes[7]);
        assert(buffer@ =~= self.header.spec_encode());
        let mut i: usize = 0;
        while i < self.body.len()
            invariant
                i <= self.body.len(),
                buffer@ == self.header.spec_encode() + self.body@.take(i as int),
            decreases self.body.len() - i,
        {
            buffer.push(self.body[i]);
            i = i + 1;
            assert(buffer@ =~= self.header.spec_encode() + self.body@.take(i as int));
        }
        assert(buffer@ =~= self@.spec_encode());
        buffer
    }

    /// The frame read from a byte buffer, as `spec_decode_message` says.
    pub fn decode(buffer: &[u8]) -> (r: Result<Option<Message>, FrameError>)
        ensures
            match r {
                Ok(Some(m)) => spec_decode_message(buffer@) == Ok::<Option<MessageView>, FrameError>(
                    Some(m@),
                ),
                Ok(None) => spec_decode_message(buffer@) == Ok::<Option<MessageView>, FrameError>(
                    None,
                ),
                Err(e) => spec_decode_message(buffer@) == Err::<Option<MessageView>, FrameError>(e),
            },
    {
        if buffer.len() == 0 {
            return Ok(None);
        }
        if buffer.len() < 8 {
            return Err(FrameError::ShortHeader);
        }
        let code = buffer[4];
        if !(code == 0b0000_1100 || code == 0b0000_1010 || code == 0b0000_0100 || code
            == 0b0000_0010 || code == 0b0000_0000) {
            return Err(FrameError::UnknownFunction);
        }
        let header_bytes: [u8; 8] = [
            buffer[0],
            buffer[1],
            buffer[2],
            buffer[3],
            buffer[4],
            buffer[5],
            buffer[6],
            buffer[7],
        ];
        let header = Header::decode(&header_bytes);
        assert(header_bytes@ =~= buffer@.take(8));
        assert(header == Header::spec_parse(buffer@));
        if header.port == 0 {
            return Err(FrameError::ZeroPort);
        }
        if header.message_size as usize != buffer.len() - 8 {
            return Err(FrameError::SizeMismatch);
        }
        let mut body: Vec<u8> = Vec::new();
        let mut i: usize = 8;
        while i < buffer.len()
            invariant
                8 <= i <= buffer@.len(),
                body@ == buffer@.subrange(8, i as int),
            decreases buffer@.len() - i,
        {
            body.push(buffer[i]);
            i = i + 1;
            assert(body@ =~= buffer@.subrange(8, i as int));
        }
        assert(body@ =~= buffer@.skip(8));
        Ok(Some(Message { header, body }))
    }
}

/// Decoding the encoding of a well-formed frame with a nonzero port yields
/// the frame itself, for every body length the header can announce, the
/// empty body included.
pub proof fn lemma_message_round_trip(m: MessageView)
    requires
        m.wf(),
        m.header.port != 0,
    ensures
        spec_decode_message(m.spec_encode()) == Ok::<Option<MessageView>, FrameError>(Some(m)),
{
    let s = m.spec_encode();
    assert(s.len() == 8 + m.body.len());
    lemma_header_round_trip(m.header);
    assert(s[4] == m.header.function.code());
    assert(Header::spec_parse(s) == Header::spec_parse(m.header.spec_encode())) by {
        assert(s[0] == m.header.spec_encode()[0]);
        assert(s[1] == m.header.spec_encode()[1]);
        assert(s[2] == m.header.spec_encode()[2]);
        assert(s[3] == m.header.spec_encode()[3]);
        assert(s[4] == m.header.spec_encode()[4]);
        assert(s[5] == m.header.spec_encode()[5]);
        assert(s[6] == m.header.spec_encode()[6]);
    }
    assert(s.skip(8) =~= m.body);
}

/// The decoder rejects every buffer whose port bytes are zero, whatever the
/// rest holds.
pub proof fn lemma_decode_rejects_zero_port(s: Seq<u8>)
    requires
        s.len() >= 8,
        Function::is_defined_code(s[4]),
        s[5] == 0,
        s[6] == 0,
    ensures
        spec_decode_message(s) == Err::<Option<MessageView>, FrameError>(FrameError::ZeroPort),
{
    assert(spec_u16_from_be(0, 0) == 0) by (bit_vector);
}

/// The decoder rejects every buffer whose function byte is not a defined
/// code, whatever the rest holds.
pub proof fn lemma_decode_rejects_unknown_function(s: Seq<u8>)
    requires
        s.len() >= 8,
        !Function::is_defined_code(s[4]),
    ensures
        spec_decode_message(s) == Err::<Option<MessageView>, FrameError>(
            FrameError::UnknownFunction,
        ),
{
}

/// The eight wire bytes of a header.
pub fn encode_header(header: &Header) -> (r: [u8; 8])
    ensures
        r@ == header.spec_encode(),
{
    header.encode()
}

/// The wire bytes of a frame: eight header bytes, then the body.
pub fn encode_message(message: &Message) -> (r: Vec<u8>)
    ensures
        r@ == message@.spec_encode(),
{
    message.encode()
}

/// The protocol kind of a listening socket.
#[derive(Debug, PartialEq, Eq, Structural, Clone, Copy)]
pub enum Protocol {
    TCP,
    UDP,
}

/// Whether a name spells `TCP`, in any mix of upper and lower case.
pub open spec fn is_tcp_name(s: Seq<char>) -> bool {
    &&& s.len() == 3
    &&& (s[0] == 'T' || s[0] == 't')
    &&& (s[1] == 'C' || s[1] == 'c')
    &&& (s[2] == 'P' || s[2] == 'p')
}

/// Whether a name spells `UDP`, in any mix of upper and lower case.
pub open spec fn is_udp_name(s: Seq<char>) -> bool {
    &&& s.len() == 3
    &&& (s[0] == 'U' || s[0] == 'u')
    &&& (s[1] == 'D' || s[1] == 'd')
    &&& (s[2] == 'P' || s[2] == 'p')
}

impl Protocol {
    /// The protocol a name stands for, compared without regard to case;
    /// any other name is an error.
    pub fn decode(string: &str) -> (r: Result<Protocol, String>)
        ensures
            match r {
                Ok(Protocol::TCP) => is_tcp_name(string@),
                Ok(Protocol::UDP) => is_udp_name(string@),
                Err(e) => !is_tcp_name(string@) && !is_udp_name(string@) && e@ == "ERROR: Protocol: "@
                    + string@ + " is not defined"@,
            },
    {
        if string.unicode_len() == 3 {
            let c0 = string.get_char(0);
            let c1 = string.get_char(1);
            let c2 = string.get_char(2);
            if (c0 == 'T' || c0 == 't') && (c1 == 'C' || c1 == 'c') && (c2 == 'P' || c2 == 'p') {
                return Ok(Protocol::TCP);
            }
            if (c0 == 'U' || c0 == 'u') && (c1 == 'D' || c1 == 'd') && (c2 == 'P' || c2 == 'p') {
                return Ok(Protocol::UDP);
            }
        }
        let mut e = String::from_str("ERROR: Protocol: ");
        e.append(string);
        e.append(" is not defined");
        Err(e)
    }

    /// The protocol a one-byte tag stands for; an unknown tag falls back
    /// to TCP.
    pub fn _from_bytes(byte: [u8; 1]) -> (r: Protocol)
        ensures
            r == if byte@[0] == 1u8 || byte@[0] != 2u8 {
                Protocol::TCP
            } else {
                Protocol::UDP
            },
    {
        if byte[0] == 1 {
            Protocol::TCP
        } else if byte[0] == 2 {
            Protocol::UDP
        } else {
            Protocol::TCP
        }
    }

    /// The one-byte tag of this protocol.
    pub fn _to_bytes(&self) -> (r: [u8; 1])
        ensures
            r@[0] == if self is TCP {
                1u8
            } else {
                2u8
            },
    {
        match self {
            Protocol::TCP => [1],
            Protocol::UDP => [2],
        }
    }
}

fn create_header(port: u16, message_size: u32, function: Function) -> (r: Header)
    ensures
        r == (Header { message_size, port, function }),
{
    Header { message_size, port, function }
}

/// The frame carrying the given body under the given port label and
/// function code: the mathematical value the builder below returns.
pub open spec fn spec_create_message(port: u16, function: Function, body: Seq<u8>) -> MessageView
    recommends
        body.len() <= u32::MAX,
{
    MessageView {
        header: Header { message_size: body.len() as u32, function, port },
        body,
    }
}

/// A frame carrying the given body under the given port label; the header
/// announces exactly the body's length.
pub fn create_message(port: u16, function: Function, message: Vec<u8>) -> (r: Message)
    requires
        message@.len() <= u32::MAX,
    ensures
        r@ == spec_create_message(port, function, message@),
        r@.wf(),
{
    let size = message.len() as u32;
    let header = create_header(port, size, function);
    Message { header, body: message }
}

} // verus!
