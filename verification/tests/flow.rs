use auto_forward::codec::{create_message, Function, Header, Message, Protocol};
use auto_forward::forwarder::{forward_response, should_forward};
use auto_forward::listener::{app_label, PortBinder};
use auto_forward::mux::{intake_action, Connection, IntakeAction, Multiplexer};
use auto_forward::scanner::{ListenPort, Scanner};

fn connection(port: u16, host_port: u16) -> Connection {
    Connection {
        port,
        host_port,
        protocol: Protocol::TCP,
        app: String::new(),
        inbox: Vec::new(),
    }
}

#[test]
fn handling_default() {
    let mut mux = Multiplexer::new();
    let message = Message {
        header: Header {
            message_size: 0,
            function: Function::CreateTcp,
            port: 1234,
        },
        body: Vec::new(),
    };
    mux.dispatch(message.clone());
    let res = mux.next_default().unwrap();
    assert_eq!(message, res);
}

#[test]
fn handling_connection() {
    let mut mux = Multiplexer::new();
    mux.register(connection(1234, 1234));
    let message = Message {
        header: Header {
            message_size: 0,
            function: Function::CreateTcp,
            port: 1234,
        },
        body: Vec::new(),
    };
    mux.dispatch(message.clone());
    assert_eq!(mux.default_queue.len(), 0);
    let res = mux.registry[0].next_inbox().unwrap();
    assert_eq!(message, res);
}

#[test]
fn register_replaces_same_label() {
    let mut mux = Multiplexer::new();
    mux.register(connection(1234, 1234));
    mux.register(connection(1234, 1235));
    assert_eq!(mux.registry.len(), 1);
    assert_eq!(mux.registry[0].host_port, 1235);
}

#[test]
fn outbound_queue_is_fifo() {
    let mut mux = Multiplexer::new();
    let first = create_message(1, Function::Tcp, b"a".to_vec());
    let second = create_message(2, Function::Tcp, b"b".to_vec());
    mux.enqueue_outbound(first.clone());
    mux.enqueue_outbound(second.clone());
    assert_eq!(mux.next_outbound(), Some(first));
    assert_eq!(mux.next_outbound(), Some(second));
    assert_eq!(mux.next_outbound(), None);
}

#[test]
fn intake_spawns_on_create_only() {
    let create_tcp = create_message(7, Function::CreateTcp, Vec::new());
    let create_udp = create_message(7, Function::CreateUdp, Vec::new());
    let data = create_message(7, Function::Tcp, Vec::new());
    assert_eq!(intake_action(&create_tcp), IntakeAction::SpawnTcpListener);
    assert_eq!(intake_action(&create_udp), IntakeAction::SpawnUdpListener);
    assert_eq!(intake_action(&data), IntakeAction::Discard);
}

#[test]
fn bind_contention_walks_to_free_port() {
    let mut binder = PortBinder::new(3000);
    assert_eq!(binder.candidate, 3000);
    // the label port is taken: the next candidates follow it
    assert!(binder.on_bind_failure());
    assert_eq!(binder.candidate, 3001);
    assert_eq!(binder.label_port, 3000);
    let conn = binder.into_connection(Protocol::TCP, "svc".to_string());
    assert_eq!(conn.host_port, 3001);
    assert_eq!(conn.port, 3000);
    // frames from this listener still carry the label port
    let request = conn.make_request(b"hello".to_vec());
    assert_eq!(request.header.port, 3000);
    assert_eq!(request.header.function, Function::Tcp);
    assert_eq!(request.header.message_size, 5);
}

#[test]
fn bind_walk_stops_at_the_last_port() {
    let mut binder = PortBinder::new(65534);
    assert!(binder.on_bind_failure());
    assert_eq!(binder.candidate, 65535);
    assert!(!binder.on_bind_failure());
    assert_eq!(binder.candidate, 65535);
}

#[test]
fn concurrent_ports_never_cross_deliver() {
    let mut mux = Multiplexer::new();
    mux.register(connection(3000, 3000));
    mux.register(connection(4000, 4000));
    assert_eq!(mux.registry.len(), 2);
    let a1 = create_message(3000, Function::Tcp, b"a1".to_vec());
    let b1 = create_message(4000, Function::Tcp, b"b1".to_vec());
    let a2 = create_message(3000, Function::Tcp, b"a2".to_vec());
    let b2 = create_message(4000, Function::Tcp, b"b2".to_vec());
    mux.dispatch(a1.clone());
    mux.dispatch(b1.clone());
    mux.dispatch(a2.clone());
    mux.dispatch(b2.clone());
    assert_eq!(mux.registry[0].inbox, vec![a1, a2]);
    assert_eq!(mux.registry[1].inbox, vec![b1, b2]);
    assert_eq!(mux.default_queue.len(), 0);
}

#[test]
fn forwarder_answers_tcp_only() {
    let request = create_message(3000, Function::Tcp, b"ping".to_vec());
    assert!(should_forward(&request));
    let reply = forward_response(&request, b"pong".to_vec()).unwrap();
    assert_eq!(reply.header.port, 3000);
    assert_eq!(reply.header.function, Function::Tcp);
    assert_eq!(reply.body, b"pong".to_vec());

    let create = create_message(3000, Function::CreateTcp, Vec::new());
    assert!(!should_forward(&create));
    assert_eq!(forward_response(&create, b"pong".to_vec()), None);
}

#[test]
fn app_label_reads_utf8_and_falls_back() {
    assert_eq!(app_label(&b"svc".to_vec()), "svc");
    assert_eq!(app_label(&vec![0xFF, 0xFE]), "Unkown");
}

#[test]
fn create_and_echo() {
    // the container scanner reports (port 3000, TCP, "svc"); the announcement
    // travels the wire
    let mut scanner = Scanner::new();
    let snapshot = vec![ListenPort {
        port: 3000,
        protocol: Protocol::TCP,
        app: "svc".to_string(),
    }];
    let (announced, _) = scanner.tick(&snapshot);
    let wire = announced[0].encode();
    assert_eq!(wire, vec![0, 0, 0, 3, 0x0C, 0x0B, 0xB8, 0, b's', b'v', b'c']);

    // the host multiplexer reads it, finds no connection for the label, and
    // the default intake spawns a TCP listener
    let mut mux = Multiplexer::new();
    let announcement = Message::decode(&wire).unwrap().unwrap();
    mux.dispatch(announcement);
    let pending = mux.next_default().unwrap();
    assert_eq!(intake_action(&pending), IntakeAction::SpawnTcpListener);
    let binder = PortBinder::new(pending.header.port);
    let conn = binder.into_connection(Protocol::TCP, app_label(&pending.body));
    assert_eq!(conn.host_port, 3000);
    assert_eq!(conn.app, "svc");
    mux.register(conn);

    // a host client sends "hello"; the listener frames it under the label
    let request = mux.registry[0].make_request(b"hello".to_vec());
    let request_wire = request.encode();
    assert_eq!(
        request_wire,
        vec![0, 0, 0, 5, 0x04, 0x0B, 0xB8, 0, b'h', b'e', b'l', b'l', b'o']
    );

    // the container forwarder hands the body to an echoing service and
    // frames the reply under the same label
    let at_container = Message::decode(&request_wire).unwrap().unwrap();
    assert!(should_forward(&at_container));
    let echoed = at_container.body.clone();
    let reply = forward_response(&at_container, echoed).unwrap();
    let reply_wire = reply.encode();
    assert_eq!(
        reply_wire,
        vec![0, 0, 0, 5, 0x04, 0x0B, 0xB8, 0, b'h', b'e', b'l', b'l', b'o']
    );

    // back on the host, the reply lands in the listener's inbox: the caller
    // receives exactly the body it sent
    let at_host = Message::decode(&reply_wire).unwrap().unwrap();
    mux.dispatch(at_host);
    let delivered = mux.registry[0].next_inbox().unwrap();
    assert_eq!(delivered.body, b"hello".to_vec());
    assert_eq!(delivered.header.port, 3000);
}
