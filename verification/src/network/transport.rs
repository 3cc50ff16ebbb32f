//! The plan of the composed transport: what is layered over TCP, in which
//! order and with which parameters, and which of its two variants takes an
//! address.

use crate::network::tor_transport::{
    first_onion, DialRoute, Segment, TorTcpConfig, TransportAddress,
};
use crate::tor::DEFAULT_SOCKS5_PORT;
use vstd::prelude::*;

verus! {

/// Seconds granted to the whole chain of upgrades of one connection.
pub const UPGRADE_TIMEOUT_SECS: u64 = 20;

/// A stream multiplexing protocol.
#[derive(Clone, Copy, Debug, PartialEq, Eq, Structural)]
pub enum Multiplexer {
    Yamux,
    Mplex,
}

/// One of the two transport variants that are combined into one.
#[derive(Clone, Copy, Debug, PartialEq, Eq, Structural)]
pub enum Variant {
    /// WebSocket framing over the name-resolving stream transport.
    WebSocket,
    /// The name-resolving stream transport itself.
    Stream,
}

/// The settings of the composed transport.
///
/// Connections are streams over TCP, through the SOCKS5 proxy where the
/// address asks for it, with DNS resolution, optionally framed as
/// WebSocket; each is upgraded under one timeout: authenticated by a
/// handshake bound to the node's identity, then multiplexed by the
/// protocol that the peer picks among those offered.
#[derive(Clone, Copy, Debug)]
pub struct SwapTransport {
    nodelay: bool,
    tor: TorTcpConfig,
    multiplexers: [Multiplexer; 2],
    upgrade_timeout_secs: u64,
}

/// Whether an address declares WebSocket framing.
pub open spec fn declares_websocket(segments: Seq<Segment>) -> bool {
    exists|i: int| 0 <= i < segments.len() && #[trigger] segments[i] is Ws
}

/// The port of the SOCKS5 proxy: the one given, or the default.
pub open spec fn socks5_port_or_default(tor_socks5_port: Option<u16>) -> u16 {
    match tor_socks5_port {
        Some(port) => port,
        None => DEFAULT_SOCKS5_PORT,
    }
}

/// Plans the transport: TCP without delay, the ability to dial through the
/// SOCKS5 proxy at the given port (the default one where none is given),
/// yamux before mplex on offer, and the fixed upgrade timeout.
pub fn build(tor_socks5_port: Option<u16>) -> (transport: SwapTransport)
    ensures
        transport.spec_nodelay(),
        transport.spec_tor().spec_socks_port() == socks5_port_or_default(tor_socks5_port),
        transport.spec_multiplexers()@ == seq![Multiplexer::Yamux, Multiplexer::Mplex],
        transport.spec_upgrade_timeout_secs() == UPGRADE_TIMEOUT_SECS,
{
    let tor = match tor_socks5_port {
        None => TorTcpConfig::new(DEFAULT_SOCKS5_PORT),
        Some(tor_socks5_port) => TorTcpConfig::new(tor_socks5_port),
    };
    let multiplexers = [Multiplexer::Yamux, Multiplexer::Mplex];
    assert(multiplexers@ =~= seq![Multiplexer::Yamux, Multiplexer::Mplex]);
    SwapTransport { nodelay: true, tor, multiplexers, upgrade_timeout_secs: UPGRADE_TIMEOUT_SECS }
}

impl SwapTransport {
    pub closed spec fn spec_nodelay(&self) -> bool {
        self.nodelay
    }

    pub closed spec fn spec_tor(&self) -> TorTcpConfig {
        self.tor
    }

    pub closed spec fn spec_multiplexers(&self) -> [Multiplexer; 2] {
        self.multiplexers
    }

    pub closed spec fn spec_upgrade_timeout_secs(&self) -> u64 {
        self.upgrade_timeout_secs
    }

    /// Whether TCP sends without delay.
    #[verifier::when_used_as_spec(spec_nodelay)]
    pub fn nodelay(&self) -> (nodelay: bool)
        ensures
            nodelay == self.spec_nodelay(),
    {
        self.nodelay
    }

    /// The configuration of the dialer that can go through the proxy.
    #[verifier::when_used_as_spec(spec_tor)]
    pub fn tor(&self) -> (tor: TorTcpConfig)
        ensures
            tor == self.spec_tor(),
    {
        self.tor
    }

    /// The multiplexers on offer, in the order of preference.
    #[verifier::when_used_as_spec(spec_multiplexers)]
    pub fn multiplexers(&self) -> (offer: [Multiplexer; 2])
        ensures
            offer == self.spec_multiplexers(),
    {
        self.multiplexers
    }

    /// Seconds after which an unfinished upgrade fails the connection.
    #[verifier::when_used_as_spec(spec_upgrade_timeout_secs)]
    pub fn upgrade_timeout_secs(&self) -> (secs: u64)
        ensures
            secs == self.spec_upgrade_timeout_secs(),
    {
        self.upgrade_timeout_secs
    }

    /// The variant that takes an address: the WebSocket one where the
    /// address declares WebSocket framing, the stream one otherwise.
    pub fn variant(&self, addr: &TransportAddress) -> (variant: Variant)
        ensures
            variant == if declares_websocket(addr@) {
                Variant::WebSocket
            } else {
                Variant::Stream
            },
    {
        let n = addr.segments.len();
        let mut i: usize = 0;
        while i < n
            invariant
                n == addr@.len(),
                i <= n,
                forall|j: int| 0 <= j < i ==> !(#[trigger] addr@[j] is Ws),
            decreases n - i,
        {
            match &addr.segments[i] {
                Segment::Ws => {
                    return Variant::WebSocket;
                },
                _ => {},
            }
            i = i + 1;
        }
        Variant::Stream
    }

    /// How an address is dialled: by which variant, and by which route
    /// beneath it. Only an address with an onion segment goes through the
    /// proxy.
    pub fn dial(&self, addr: &TransportAddress) -> (plan: (Variant, DialRoute))
        ensures
            plan.0 == if declares_websocket(addr@) {
                Variant::WebSocket
            } else {
                Variant::Stream
            },
            match plan.1 {
                DialRoute::Socks5 { target, proxy_port, legacy } => self.spec_tor().spec_dial(
                    addr@,
                ) == (Some(target@), proxy_port, legacy),
                DialRoute::Inner => first_onion(addr@).is_none(),
            },
            first_onion(addr@).is_none() <==> plan.1 is Inner,
    {
        (self.variant(addr), self.tor.dial(addr))
    }
}

} // verus!
