use ddtrace::transport::kafka;
use ddtrace::transport::tcp;
use ddtrace::transport::unix_socket;
use ddtrace::transport::{plugin_for_name, PluginKind, TransportBridge};

fn tcp_cfg() -> Vec<u8> {
    b"[instrumentation]\nscript = \"s\"\n[instrumentation.server]\nip = \"127.0.0.1\"\nport = 9000\n"
        .to_vec()
}

fn unix_cfg() -> Vec<u8> {
    b"[instrumentation]\nscript = \"s\"\n[instrumentation.server]\npath = \"/tmp/x.sock\"\n"
        .to_vec()
}

#[test]
fn it_works() {
}

#[test]
fn lib_it_works() {
}

#[test]
fn tcp_endpoint_is_parsed() {
    let ep = tcp::endpoint_of(&tcp_cfg()).unwrap();
    assert_eq!(ep.ip, b"127.0.0.1".to_vec());
    assert_eq!(ep.port, 9000);
}

#[test]
fn tcp_endpoint_out_of_range_port_is_rejected() {
    let cfg = b"[instrumentation.server]\nip = \"127.0.0.1\"\nport = 70000\n".to_vec();
    assert!(tcp::endpoint_of(&cfg).is_err());
}

#[test]
fn tcp_open_rejects_missing_fields() {
    let mut ctx = tcp::Context::new();
    let cfg = b"[instrumentation.server]\nip = \"127.0.0.1\"\n".to_vec();
    assert_eq!(tcp::dt_transport_open(&mut ctx, &cfg), tcp::TCP_ERROR);
}

#[test]
fn tcp_stream_lifecycle() {
    assert_eq!(tcp::dt_transport_init(), 0);
    let mut ctx = tcp::Context::new();
    let h = tcp::dt_transport_open(&mut ctx, &tcp_cfg());
    assert!(h >= 0);

    assert_eq!(tcp::dt_transport_write(&mut ctx, h, b"one"), 0);
    assert_eq!(tcp::dt_transport_writeall(&mut ctx, h, b"two"), 0);
    assert_eq!(tcp::dt_transport_flush(&mut ctx, h), 0);
    let wire = tcp::take_outgoing(&mut ctx, h).unwrap();
    assert_eq!(wire, b"onetwo".to_vec());

    let wire_again = tcp::take_outgoing(&mut ctx, h).unwrap();
    assert!(wire_again.is_empty());

    assert_eq!(tcp::dt_transport_close(&mut ctx, h), 0);
    assert_eq!(tcp::dt_transport_close(&mut ctx, h), tcp::TCP_ERROR);
    assert_eq!(tcp::dt_transport_fini(), 0);
}

#[test]
fn tcp_handles_are_fresh_per_open() {
    let mut ctx = tcp::Context::new();
    let h1 = tcp::dt_transport_open(&mut ctx, &tcp_cfg());
    let h2 = tcp::dt_transport_open(&mut ctx, &tcp_cfg());
    assert!(h1 >= 0 && h2 >= 0);
    assert_ne!(h1, h2);
}

#[test]
fn tcp_write_to_unknown_handle_fails() {
    let mut ctx = tcp::Context::new();
    assert_eq!(tcp::dt_transport_write(&mut ctx, 12345, b"x"), tcp::TCP_ERROR);
    assert_eq!(tcp::dt_transport_flush(&mut ctx, 12345), tcp::TCP_ERROR);
}

#[test]
fn unix_open_validates_path() {
    let mut ctx = unix_socket::Context::new();
    let h = unix_socket::dt_transport_open(&mut ctx, &unix_cfg());
    assert!(h >= 0);

    let bad = b"[instrumentation.server]\nip = \"127.0.0.1\"\n".to_vec();
    assert_eq!(
        unix_socket::dt_transport_open(&mut ctx, &bad),
        unix_socket::ERR_INVALID_CONFIG
    );
}

#[test]
fn unix_path_is_parsed() {
    assert_eq!(unix_socket::path_of(&unix_cfg()).unwrap(), b"/tmp/x.sock".to_vec());
}

#[test]
fn unix_stream_lifecycle() {
    let mut ctx = unix_socket::Context::new();
    let h = unix_socket::dt_transport_open(&mut ctx, &unix_cfg());
    assert!(h >= 0);
    assert_eq!(unix_socket::dt_transport_write(&mut ctx, h, b"rec"), unix_socket::SUCCESS);
    assert_eq!(unix_socket::dt_transport_flush(&mut ctx, h), unix_socket::SUCCESS);
    assert_eq!(unix_socket::take_outgoing(&mut ctx, h).unwrap(), b"rec".to_vec());
    assert_eq!(unix_socket::dt_transport_close(&mut ctx, h), unix_socket::SUCCESS);
    assert_eq!(
        unix_socket::dt_transport_close(&mut ctx, h),
        unix_socket::ERR_INVALID_HANDLE
    );
    assert_eq!(
        unix_socket::dt_transport_writeall(&mut ctx, h, b"late"),
        unix_socket::ERR_INVALID_HANDLE
    );
}

#[test]
fn kafka_accepts_any_payload() {
    assert_eq!(kafka::dt_transport_init(), 0);
    let mut ctx = kafka::Context::new();
    let h = kafka::dt_transport_open(&mut ctx, b"whatever");
    assert!(h >= 0);
    assert_eq!(kafka::dt_transport_write(&mut ctx, h, b"msg"), kafka::KAFKA_SUCCESS);
    assert_eq!(kafka::dt_transport_writeall(&mut ctx, h, b"!"), kafka::KAFKA_SUCCESS);
    assert_eq!(kafka::dt_transport_flush(&mut ctx, h), kafka::KAFKA_SUCCESS);
    assert_eq!(kafka::take_outgoing(&mut ctx, h).unwrap(), b"msg!".to_vec());
    assert_eq!(kafka::dt_transport_close(&mut ctx, h), kafka::KAFKA_SUCCESS);
    assert_eq!(kafka::dt_transport_fini(), 0);
}

#[test]
fn plugins_are_looked_up_by_name() {
    assert_eq!(plugin_for_name(b"tcp"), Some(PluginKind::Tcp));
    assert_eq!(plugin_for_name(b"unix"), Some(PluginKind::UnixSocket));
    assert_eq!(plugin_for_name(b"kafka"), Some(PluginKind::Kafka));
    assert_eq!(plugin_for_name(b"carrier-pigeon"), None);
}

#[test]
fn bridge_dispatches_to_the_loaded_plugin() {
    assert!(TransportBridge::new(b"carrier-pigeon").is_none());

    let mut bridge = TransportBridge::new(b"tcp").unwrap();
    let h = bridge.open(&tcp_cfg());
    assert!(h >= 0);
    assert_eq!(bridge.write(h, b"a"), 0);
    assert_eq!(bridge.flush(h), 0);
    assert_eq!(bridge.take_outgoing(h).unwrap(), b"a".to_vec());
    assert_eq!(bridge.close(h), 0);
    assert_eq!(bridge.close(h), -1);

    let mut unix_bridge = TransportBridge::new(b"unix").unwrap();
    assert!(unix_bridge.open(&tcp_cfg()) < 0);
    assert!(unix_bridge.open(&unix_cfg()) >= 0);
}

#[test]
fn bridge_handles_rise_one_by_one() {
    let mut bridge = TransportBridge::new(b"kafka").unwrap();
    let h1 = bridge.open(b"");
    let h2 = bridge.open(b"");
    let h3 = bridge.open(b"");
    assert!(h1 >= 0);
    assert_eq!(h2, h1 + 1);
    assert_eq!(h3, h2 + 1);
}
