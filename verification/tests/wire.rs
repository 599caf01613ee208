use auto_forward::forwarder::{server_action, tcp_reply, udp_reply, ServerAction};
use auto_forward::protocol::{
    encode_header, encode_message, read_header, UnixHeader, UnixMessage, CLOSE, CREATE_TCP,
    CREATE_UDP, TCP, UDP,
};

#[test]
fn read_header_recovers_fields() {
    let wire: [u8; 8] = [0, 0, 1, 0, TCP, 0x1F, 0x90, 0];
    let header = read_header(wire).unwrap();
    assert_eq!(header.size, 256);
    assert_eq!(header.function, TCP);
    assert_eq!(header.port, 8080);
}

#[test]
fn read_header_accepts_every_defined_code() {
    for code in [CLOSE, TCP, UDP, CREATE_TCP, CREATE_UDP] {
        let header = UnixHeader {
            size: 42,
            function: code,
            port: 7,
        };
        let back = read_header(encode_header(header)).unwrap();
        assert_eq!(back, header);
    }
}

#[test]
fn read_header_rejects_port_zero() {
    let wire: [u8; 8] = [0, 0, 0, 5, TCP, 0, 0, 0];
    let err = read_header(wire).unwrap_err();
    assert_eq!(err, "The Port can't be 0");
}

#[test]
fn read_header_rejects_unknown_function() {
    let wire: [u8; 8] = [0, 0, 0, 0, 0xFF, 0, 1, 0];
    let err = read_header(wire).unwrap_err();
    assert_eq!(err, "Unsupported Function provided.");
}

#[test]
fn encode_message_concatenates_header_and_body() {
    let message = UnixMessage {
        header: UnixHeader {
            size: 3,
            function: CREATE_TCP,
            port: 3000,
        },
        message: b"svc".to_vec(),
    };
    assert_eq!(
        encode_message(message),
        vec![0, 0, 0, 3, 0x0C, 0x0B, 0xB8, 0, b's', b'v', b'c']
    );
}

#[test]
fn server_action_by_function_byte() {
    assert_eq!(server_action(TCP), ServerAction::ForwardTcp);
    assert_eq!(server_action(UDP), ServerAction::ForwardUdp);
    assert_eq!(server_action(CLOSE), ServerAction::Ignore);
    assert_eq!(server_action(CREATE_TCP), ServerAction::Ignore);
    assert_eq!(server_action(0xFF), ServerAction::Ignore);
}

#[test]
fn replies_echo_the_port_label() {
    let reply = tcp_reply(3000, b"pong".to_vec());
    assert_eq!(reply.header.size, 4);
    assert_eq!(reply.header.function, TCP);
    assert_eq!(reply.header.port, 3000);
    assert_eq!(reply.message, b"pong".to_vec());

    let reply = udp_reply(53, Vec::new());
    assert_eq!(reply.header.size, 0);
    assert_eq!(reply.header.function, UDP);
    assert_eq!(reply.header.port, 53);
}
