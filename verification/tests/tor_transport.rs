use libp2p::multiaddr::{Multiaddr, Protocol};
use swap::network::tor_transport::{
    to_onion_address, DialRoute, ListenRoute, Segment, TorTcpConfig, TransportAddress,
};

fn transport_address(multi: &Multiaddr) -> TransportAddress {
    let segments = multi
        .iter()
        .map(|protocol| match protocol {
            Protocol::Dns(host) => Segment::Dns(host.to_string()),
            Protocol::Tcp(port) => Segment::Tcp(port),
            Protocol::Onion(hash, port) => Segment::Onion(*hash, port),
            Protocol::Onion3(addr) => Segment::Onion3(*addr.hash(), addr.port()),
            Protocol::Ws(_) | Protocol::Wss(_) => Segment::Ws,
            _ => Segment::Other,
        })
        .collect();
    TransportAddress { segments }
}

fn parse(address: &str) -> TransportAddress {
    transport_address(&address.parse().unwrap())
}

#[test]
fn test_tor_address_string() {
    let address =
        "/onion3/oarchy4tamydxcitaki6bc2v4leza6v35iezmu2chg2bap63sv6f2did:1024/p2p/12D3KooWPD4uHN74SHotLN7VCH7Fm8zZgaNVymYcpeF1fpD2guc9"
    ;
    let address_base32 = to_onion_address(&parse(address))
        .expect("To be a multi address formatted to base32 ");
    assert_eq!(
        address_base32,
        "oarchy4tamydxcitaki6bc2v4leza6v35iezmu2chg2bap63sv6f2did.onion:1024"
    );
}

#[test]
fn legacy_onion_address_is_encoded() {
    let address = parse("/onion/aaimaq4ygg2iegci:80");
    assert_eq!(
        to_onion_address(&address),
        Some("aaimaq4ygg2iegci.onion:80".to_string())
    );
}

#[test]
fn port_is_written_in_decimal() {
    let hash = [0u8; 10];
    for (port, text) in [(0u16, "0"), (7, "7"), (10, "10"), (9050, "9050"), (65535, "65535")] {
        let address = TransportAddress { segments: vec![Segment::Onion(hash, port)] };
        assert_eq!(
            to_onion_address(&address),
            Some(format!("aaaaaaaaaaaaaaaa.onion:{}", text))
        );
    }
}

#[test]
fn address_without_onion_segment_has_no_onion_target() {
    assert_eq!(to_onion_address(&parse("/ip4/127.0.0.1/tcp/9939")), None);
    assert_eq!(to_onion_address(&parse("/dns/example.com/tcp/443/wss")), None);
    assert_eq!(to_onion_address(&TransportAddress { segments: vec![] }), None);
}

#[test]
fn first_onion_segment_decides() {
    let address = TransportAddress {
        segments: vec![
            Segment::Other,
            Segment::Onion([0xff; 10], 1),
            Segment::Onion3([0; 35], 2),
        ],
    };
    assert_eq!(
        to_onion_address(&address),
        Some("7777777777777777.onion:1".to_string())
    );
}

#[test]
fn onion_address_is_dialled_through_the_proxy() {
    let config = TorTcpConfig::new(9050);
    let address = parse(
        "/onion3/oarchy4tamydxcitaki6bc2v4leza6v35iezmu2chg2bap63sv6f2did:1024",
    );
    match config.dial(&address) {
        DialRoute::Socks5 { target, proxy_port, legacy } => {
            assert_eq!(
                target,
                "oarchy4tamydxcitaki6bc2v4leza6v35iezmu2chg2bap63sv6f2did.onion:1024"
            );
            assert_eq!(proxy_port, 9050);
            assert!(!legacy);
        }
        DialRoute::Inner => panic!("an onion address must go through the proxy"),
    }
}

#[test]
fn legacy_onion_address_is_flagged() {
    let config = TorTcpConfig::new(19050);
    match config.dial(&parse("/onion/aaimaq4ygg2iegci:80")) {
        DialRoute::Socks5 { target, proxy_port, legacy } => {
            assert_eq!(target, "aaimaq4ygg2iegci.onion:80");
            assert_eq!(proxy_port, 19050);
            assert!(legacy);
        }
        DialRoute::Inner => panic!("an onion address must go through the proxy"),
    }
}

#[test]
fn other_addresses_never_take_the_proxy() {
    let config = TorTcpConfig::new(9050);
    for address in [
        "/ip4/127.0.0.1/tcp/9939",
        "/dns/example.com/tcp/443/wss",
        "/ip4/10.0.0.1/tcp/1/p2p/12D3KooWPD4uHN74SHotLN7VCH7Fm8zZgaNVymYcpeF1fpD2guc9",
    ] {
        assert!(matches!(config.dial(&parse(address)), DialRoute::Inner));
    }
}

#[test]
fn listening_stays_on_the_inner_transport() {
    let config = TorTcpConfig::new(9050);
    let onion = parse("/onion3/oarchy4tamydxcitaki6bc2v4leza6v35iezmu2chg2bap63sv6f2did:1024");
    assert_eq!(config.listen_on(&onion), ListenRoute::Inner);
    assert_eq!(config.listen_on(&parse("/ip4/0.0.0.0/tcp/0")), ListenRoute::Inner);
    assert_eq!(config.socks_port(), 9050);
}
