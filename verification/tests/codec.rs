use auto_forward::codec::{
    create_message, encode_header, encode_message, FrameError, Function, Header, Message, Protocol,
};

#[test]
fn ensure_inverse() {
    assert_eq!(
        Function::CreateTcp,
        Function::decode(Function::encode(&Function::CreateTcp))
    );
    assert_eq!(
        Function::CreateUdp,
        Function::decode(Function::encode(&Function::CreateUdp))
    );
    assert_eq!(
        Function::Tcp,
        Function::decode(Function::encode(&Function::Tcp))
    );
    assert_eq!(
        Function::Udp,
        Function::decode(Function::encode(&Function::Udp))
    );
}

#[test]
fn close_code_round_trips() {
    assert_eq!(Function::encode(&Function::Close), 0);
    assert_eq!(
        Function::Close,
        Function::decode(Function::encode(&Function::Close))
    );
}

#[test]
fn decode_header_correctly() {
    let input_header: [u8; 8] = [0, 0, 0, 200, 0b1100, 0x0B, 0xB8, 0];
    let expected = Header {
        message_size: 200,
        function: Function::CreateTcp,
        port: 3000,
    };
    let result = Header::decode(&input_header);
    assert_eq!(expected.message_size, result.message_size);
    assert_eq!(expected.function, result.function);
    assert_eq!(expected.port, result.port);
}

#[test]
fn lib_decode_header_correctly() {
    let input_header: [u8; 8] = [0, 0, 0, 200, 0b1100, 0x0B, 0xB8, 0];
    let expected = Header {
        message_size: 200,
        function: Function::CreateTcp,
        port: 3000,
    };
    let result = Header::decode(&input_header);
    assert_eq!(expected.message_size, result.message_size);
    assert_eq!(expected.function, result.function);
    assert_eq!(expected.port, result.port);
}

#[test]
fn decode_tcp() {
    assert_eq!(Protocol::TCP, Protocol::decode("TCP").unwrap());
    assert_eq!(Protocol::TCP, Protocol::decode("tcp").unwrap());
}

#[test]
fn decode_udp() {
    assert_eq!(Protocol::UDP, Protocol::decode("UDP").unwrap());
    assert_eq!(Protocol::UDP, Protocol::decode("udp").unwrap());
}

#[test]
#[should_panic]
fn decode_unkown() {
    Protocol::decode("").unwrap();
}

#[test]
fn decode_protocol_error_text() {
    let err = Protocol::decode("xyz").unwrap_err();
    assert_eq!(err, "ERROR: Protocol: xyz is not defined");
}

#[test]
fn header_encode_layout() {
    let header = Header {
        message_size: 3,
        function: Function::CreateTcp,
        port: 3000,
    };
    assert_eq!(header.encode(), [0, 0, 0, 3, 0x0C, 0x0B, 0xB8, 0]);
    assert_eq!(encode_header(&header), [0, 0, 0, 3, 0x0C, 0x0B, 0xB8, 0]);
}

#[test]
fn header_round_trip_every_code() {
    for function in [
        Function::CreateTcp,
        Function::CreateUdp,
        Function::Tcp,
        Function::Udp,
        Function::Close,
    ] {
        let header = Header {
            message_size: 0xDEAD_BEEF,
            function,
            port: 65535,
        };
        assert_eq!(header, Header::decode(&header.encode()));
    }
    // the zero port survives the header codec itself; only frame decoding rejects it
    let zero = Header {
        message_size: 7,
        function: Function::Udp,
        port: 0,
    };
    assert_eq!(zero, Header::decode(&zero.encode()));
}

#[test]
fn message_round_trip() {
    let message = create_message(3000, Function::Tcp, b"hello".to_vec());
    assert_eq!(message.header.message_size, 5);
    let wire = message.encode();
    assert_eq!(wire, vec![0, 0, 0, 5, 0x04, 0x0B, 0xB8, 0, b'h', b'e', b'l', b'l', b'o']);
    let back = Message::decode(&wire).unwrap().unwrap();
    assert_eq!(message, back);
}

#[test]
fn zero_length_body_round_trips() {
    let message = create_message(9, Function::CreateUdp, Vec::new());
    let wire = encode_message(&message);
    assert_eq!(wire.len(), 8);
    let back = Message::decode(&wire).unwrap().unwrap();
    assert_eq!(message, back);
    assert_eq!(back.body.len(), 0);
}

#[test]
fn large_body_round_trips() {
    let body: Vec<u8> = (0..1_000_000u32).map(|i| (i % 251) as u8).collect();
    let message = create_message(443, Function::Tcp, body.clone());
    assert_eq!(message.header.message_size, 1_000_000);
    let back = Message::decode(&message.encode()).unwrap().unwrap();
    assert_eq!(back.body, body);
    assert_eq!(back.header.port, 443);
}

#[test]
fn empty_input_is_end_of_stream() {
    assert_eq!(Message::decode(&[]), Ok(None));
}

#[test]
fn short_header_is_an_error() {
    assert_eq!(Message::decode(&[0, 0, 0]), Err(FrameError::ShortHeader));
    assert_eq!(
        Message::decode(&[0, 0, 0, 0, 0x04, 0, 1, 0][..7]),
        Err(FrameError::ShortHeader)
    );
}

#[test]
fn unknown_function_is_an_error() {
    let wire: [u8; 8] = [0x00, 0x00, 0x00, 0x00, 0xFF, 0x00, 0x01, 0x00];
    assert_eq!(Message::decode(&wire), Err(FrameError::UnknownFunction));
}

#[test]
fn zero_port_is_an_error() {
    let wire: [u8; 8] = [0, 0, 0, 0, 0x04, 0, 0, 0];
    assert_eq!(Message::decode(&wire), Err(FrameError::ZeroPort));
}

#[test]
fn wrong_body_length_is_an_error() {
    // header announces 4 bytes, only 2 follow
    let wire = [0u8, 0, 0, 4, 0x04, 0x0B, 0xB8, 0, 1, 2];
    assert_eq!(Message::decode(&wire), Err(FrameError::SizeMismatch));
    // header announces 1 byte, 3 follow
    let wire = [0u8, 0, 0, 1, 0x04, 0x0B, 0xB8, 0, 1, 2, 3];
    assert_eq!(Message::decode(&wire), Err(FrameError::SizeMismatch));
}

#[test]
fn reserved_byte_ignored_on_receive() {
    let wire = [0u8, 0, 0, 0, 0x04, 0x0B, 0xB8, 0x99];
    let message = Message::decode(&wire).unwrap().unwrap();
    assert_eq!(message.header.port, 3000);
}

#[test]
fn protocol_byte_tags() {
    assert_eq!(Protocol::TCP._to_bytes(), [1]);
    assert_eq!(Protocol::UDP._to_bytes(), [2]);
    assert_eq!(Protocol::_from_bytes([1]), Protocol::TCP);
    assert_eq!(Protocol::_from_bytes([2]), Protocol::UDP);
    assert_eq!(Protocol::_from_bytes([9]), Protocol::TCP);
}
