use swap::network::tor_transport::{DialRoute, Segment, TransportAddress};
use swap::network::transport::{build, Multiplexer, Variant, UPGRADE_TIMEOUT_SECS};

fn address(segments: Vec<Segment>) -> TransportAddress {
    TransportAddress { segments }
}

#[test]
fn plan_takes_the_given_proxy_port() {
    let transport = build(Some(19050));
    assert_eq!(transport.tor().socks_port(), 19050);
}

#[test]
fn plan_falls_back_to_the_default_proxy_port() {
    let transport = build(None);
    assert_eq!(transport.tor().socks_port(), 9050);
}

#[test]
fn plan_fixes_the_other_settings() {
    for port in [None, Some(1)] {
        let transport = build(port);
        assert!(transport.nodelay());
        assert_eq!(transport.upgrade_timeout_secs(), 20);
        assert_eq!(UPGRADE_TIMEOUT_SECS, 20);
        assert_eq!(
            transport.multiplexers(),
            [Multiplexer::Yamux, Multiplexer::Mplex]
        );
    }
}

#[test]
fn websocket_address_goes_to_the_websocket_variant() {
    let transport = build(None);
    let ws = address(vec![
        Segment::Dns("example.com".to_string()),
        Segment::Tcp(443),
        Segment::Ws,
    ]);
    assert_eq!(transport.variant(&ws), Variant::WebSocket);
    let (variant, route) = transport.dial(&ws);
    assert_eq!(variant, Variant::WebSocket);
    assert!(matches!(route, DialRoute::Inner));
}

#[test]
fn other_address_goes_to_the_stream_variant() {
    let transport = build(None);
    let tcp = address(vec![Segment::Other, Segment::Tcp(9939)]);
    assert_eq!(transport.variant(&tcp), Variant::Stream);
    assert_eq!(transport.variant(&address(vec![])), Variant::Stream);
    let (variant, route) = transport.dial(&tcp);
    assert_eq!(variant, Variant::Stream);
    assert!(matches!(route, DialRoute::Inner));
}

#[test]
fn onion_address_is_planned_through_the_proxy() {
    let transport = build(Some(19050));
    let onion = address(vec![Segment::Onion3([0; 35], 1024), Segment::Other]);
    let (variant, route) = transport.dial(&onion);
    assert_eq!(variant, Variant::Stream);
    match route {
        DialRoute::Socks5 { target, proxy_port, legacy } => {
            assert_eq!(
                target,
                "aaaaaaaaaaaaaaaaaaaaaaaaaaaaaaaaaaaaaaaaaaaaaaaaaaaaaaaa.onion:1024"
            );
            assert_eq!(proxy_port, 19050);
            assert!(!legacy);
        }
        DialRoute::Inner => panic!("an onion address must go through the proxy"),
    }
}
