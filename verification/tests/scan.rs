use auto_forward::codec::{Function, Protocol};
use auto_forward::oracle::parse_open_ports;
use auto_forward::scanner::{request_new_port, ListenPort, Scanner};

fn record(port: u16, protocol: Protocol, app: &str) -> ListenPort {
    ListenPort {
        port,
        protocol,
        app: app.to_string(),
    }
}

#[test]
fn parse_listening_rows() {
    let output = "COMMAND PID USER FD TYPE DEVICE SIZE/OFF NODE NAME\n\
                  svc 1 root 3u IPv4 100 0t0 TCP *:3000 (LISTEN)\n\
                  dns 2 root 4u IPv4 101 0t0 UDP *:53\n\
                  web 3 root 5u IPv6 102 0t0 TCP [::1]:8080 (LISTEN)\n";
    let records = parse_open_ports(output);
    assert_eq!(records.len(), 2);
    assert_eq!(records[0], record(3000, Protocol::TCP, "svc"));
    assert_eq!(records[1], record(8080, Protocol::TCP, "web"));
}

#[test]
fn parse_udp_listener_and_mixed_case() {
    let output = "COMMAND PID USER FD TYPE DEVICE SIZE/OFF NODE NAME\n\
                  dns 2 root 4u IPv4 101 0t0 udp *:53 (LISTEN)\n";
    let records = parse_open_ports(output);
    assert_eq!(records.len(), 1);
    assert_eq!(records[0], record(53, Protocol::UDP, "dns"));
}

#[test]
fn parse_drops_malformed_rows() {
    let output = "COMMAND PID USER FD TYPE DEVICE SIZE/OFF NODE NAME\n\
                  short row (LISTEN)\n\
                  svc 1 root 3u IPv4 100 0t0 TCP *:notaport (LISTEN)\n\
                  svc 1 root 3u IPv4 100 0t0 TCP *:70000 (LISTEN)\n\
                  svc 1 root 3u IPv4 100 0t0 TCP *:0 (LISTEN)\n\
                  svc 1 root 3u IPv4 100 0t0 FOO *:3000 (LISTEN)\n\
                  svc 1 root 3u IPv4 100 0t0 TCP *:4000 listening\n\
                  ok 1 root 3u IPv4 100 0t0 TCP localhost:4000 (LISTEN)\n";
    let records = parse_open_ports(output);
    assert_eq!(records.len(), 1);
    assert_eq!(records[0], record(4000, Protocol::TCP, "ok"));
}

#[test]
fn parse_empty_output_yields_nothing() {
    assert_eq!(parse_open_ports("").len(), 0);
    assert_eq!(parse_open_ports("NODE\n").len(), 0);
}

#[test]
fn announcement_frame_layout() {
    let message = request_new_port(&record(3000, Protocol::TCP, "svc"));
    assert_eq!(message.header.message_size, 3);
    assert_eq!(message.header.function, Function::CreateTcp);
    assert_eq!(message.header.port, 3000);
    assert_eq!(message.body, b"svc".to_vec());

    let message = request_new_port(&record(53, Protocol::UDP, "dns"));
    assert_eq!(message.header.function, Function::CreateUdp);
}

#[test]
fn scanner_announces_each_snapshot_difference() {
    let mut scanner = Scanner::new();
    let first = vec![record(3000, Protocol::TCP, "svc")];
    let (announced, closed) = scanner.tick(&first);
    assert_eq!(announced.len(), 1);
    assert_eq!(announced[0].header.port, 3000);
    assert_eq!(closed.len(), 0);

    let second = vec![
        record(3000, Protocol::TCP, "svc"),
        record(4000, Protocol::TCP, "api"),
    ];
    let (announced, closed) = scanner.tick(&second);
    assert_eq!(announced.len(), 1);
    assert_eq!(announced[0].header.port, 4000);
    assert_eq!(closed.len(), 0);

    let third = vec![record(4000, Protocol::TCP, "api")];
    let (announced, closed) = scanner.tick(&third);
    assert_eq!(announced.len(), 0);
    assert_eq!(closed.len(), 1);
    assert_eq!(closed[0], record(3000, Protocol::TCP, "svc"));
}

#[test]
fn repeated_scan_is_silent() {
    let mut scanner = Scanner::new();
    let snapshot = vec![
        record(3000, Protocol::TCP, "svc"),
        record(53, Protocol::UDP, "dns"),
    ];
    let (announced, closed) = scanner.tick(&snapshot);
    assert_eq!(announced.len(), 2);
    assert_eq!(closed.len(), 0);
    let (announced, closed) = scanner.tick(&snapshot);
    assert_eq!(announced.len(), 0);
    assert_eq!(closed.len(), 0);
    let (announced, closed) = scanner.tick(&snapshot);
    assert_eq!(announced.len(), 0);
    assert_eq!(closed.len(), 0);
}

#[test]
fn changed_app_label_is_close_and_reopen() {
    let mut scanner = Scanner::new();
    let (announced, _) = scanner.tick(&vec![record(3000, Protocol::TCP, "old")]);
    assert_eq!(announced.len(), 1);
    let (announced, closed) = scanner.tick(&vec![record(3000, Protocol::TCP, "new")]);
    assert_eq!(announced.len(), 1);
    assert_eq!(closed.len(), 1);
    assert_eq!(closed[0], record(3000, Protocol::TCP, "old"));
}

#[test]
fn duplicate_snapshot_rows_announce_once() {
    let mut scanner = Scanner::new();
    let snapshot = vec![
        record(3000, Protocol::TCP, "svc"),
        record(3000, Protocol::TCP, "svc"),
    ];
    let (announced, closed) = scanner.tick(&snapshot);
    assert_eq!(announced.len(), 1);
    assert_eq!(closed.len(), 0);
}
