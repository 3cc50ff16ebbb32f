//! Onion addressing and the routing decision of the Tor-capable dialer.

use crate::text::{ascii_lower, decimal_text, push_decimal, to_ascii_lower};
use data_encoding::BASE32;
use vstd::prelude::*;
use vstd::string::*;

verus! {

/// One segment of a multi-protocol transport address.
///
/// The onion segments carry what a dial through the anonymity network needs;
/// the others are told apart as far as transport selection reads them.
#[derive(Clone, Debug)]
pub enum Segment {
    /// A DNS host name.
    Dns(String),
    /// A TCP port.
    Tcp(u16),
    /// A legacy onion service: 80-bit service hash and port.
    Onion([u8; 10], u16),
    /// A current onion service: 256-bit service key with checksum and version
    /// (35 bytes in all) and port.
    Onion3([u8; 35], u16),
    /// WebSocket framing, plain or over TLS.
    Ws,
    /// Any other segment (an IP address, a peer identity, ...).
    Other,
}

/// A composable multi-protocol address: its segments in the order in which
/// the address is written.
#[derive(Clone, Debug)]
pub struct TransportAddress {
    pub segments: Vec<Segment>,
}

impl View for TransportAddress {
    type V = Seq<Segment>;

    open spec fn view(&self) -> Seq<Segment> {
        self.segments@
    }
}

/// The RFC 4648 base32 text (upper-case alphabet, `=` padding) of a byte string.
pub uninterp spec fn base32_text(bytes: Seq<u8>) -> Seq<char>;

/// `data_encoding::BASE32.encode`: the result is the base32 text of the input.
/// The length bound is the one below which the crate documents that the call
/// does not panic.
#[verifier::external_body]
fn base32_encode(bytes: &[u8]) -> (text: String)
    requires
        bytes@.len() <= usize::MAX / 512,
    ensures
        text@ == base32_text(bytes@),
{
    BASE32.encode(bytes)
}

/// Whether a segment names an onion service.
pub open spec fn is_onion(p: Segment) -> bool {
    p is Onion || p is Onion3
}

/// The dial target of an onion segment: `<lowercase base32 of the hash>.onion:<port>`.
pub open spec fn onion_target(p: Segment) -> Seq<char>
    recommends
        is_onion(p),
{
    match p {
        Segment::Onion(hash, port) => ascii_lower(base32_text(hash@)) + ".onion:"@ + decimal_text(
            port as nat,
        ),
        Segment::Onion3(hash, port) => ascii_lower(base32_text(hash@)) + ".onion:"@
            + decimal_text(port as nat),
        _ => Seq::empty(),
    }
}

/// Index of the first onion segment of an address, if it has one.
pub open spec fn first_onion(segments: Seq<Segment>) -> Option<int>
    decreases segments.len(),
{
    if segments.len() == 0 {
        None
    } else if is_onion(segments[0]) {
        Some(0)
    } else {
        match first_onion(segments.skip(1)) {
            Some(i) => Some(i + 1),
            None => None,
        }
    }
}

/// The textual dial target of an address: that of its first onion segment.
pub open spec fn onion_address(segments: Seq<Segment>) -> Option<Seq<char>> {
    match first_onion(segments) {
        Some(i) => Some(onion_target(segments[i])),
        None => None,
    }
}

/// `first_onion` finds the least index of an onion segment, and finds none
/// exactly when the address has none.
pub proof fn lemma_first_onion(segments: Seq<Segment>)
    ensures
        match first_onion(segments) {
            Some(i) => 0 <= i < segments.len() && is_onion(segments[i]) && forall|j: int|
                0 <= j < i ==> !is_onion(#[trigger] segments[j]),
            None => forall|j: int| 0 <= j < segments.len() ==> !is_onion(#[trigger] segments[j]),
        },
    decreases segments.len(),
{
    if segments.len() > 0 && !is_onion(segments[0]) {
        let rest = segments.skip(1);
        lemma_first_onion(rest);
        assert forall|j: int| 0 <= j < segments.len() && (first_onion(rest) matches Some(i) ==> j
            < i + 1) implies !is_onion(#[trigger] segments[j]) by {
            if j > 0 {
                assert(segments[j] == rest[j - 1]);
            }
        }
    }
}

fn format_target(hash: &[u8], port: u16) -> (target: String)
    requires
        hash@.len() <= 35,
    ensures
        target@ == ascii_lower(base32_text(hash@)) + ".onion:"@ + decimal_text(port as nat),
{
    let encoded = base32_encode(hash);
    let mut target = to_ascii_lower(encoded.as_str());
    target.append(".onion:");
    push_decimal(&mut target, port);
    target
}

/// An onion segment with none before it is the first one; an address
/// without onion segments has none.
proof fn lemma_first_onion_at(segments: Seq<Segment>, i: int)
    requires
        0 <= i <= segments.len(),
        forall|j: int| 0 <= j < i ==> !is_onion(#[trigger] segments[j]),
        i < segments.len() ==> is_onion(segments[i]),
    ensures
        first_onion(segments) == if i < segments.len() {
            Some(i)
        } else {
            None
        },
{
    lemma_first_onion(segments);
}

/// Position of the first onion segment of `addr`.
fn find_onion(addr: &TransportAddress) -> (found: Option<usize>)
    ensures
        match found {
            Some(i) => first_onion(addr@) == Some(i as int) && i < addr@.len()
                && is_onion(addr@[i as int]),
            None => first_onion(addr@).is_none(),
        },
{
    let n = addr.segments.len();
    let mut i: usize = 0;
    while i < n
        invariant
            n == addr@.len(),
            i <= n,
            forall|j: int| 0 <= j < i ==> !is_onion(#[trigger] addr@[j]),
        decreases n - i,
    {
        let hit = match &addr.segments[i] {
            Segment::Onion(_, _) => true,
            Segment::Onion3(_, _) => true,
            _ => false,
        };
        if hit {
            proof {
                lemma_first_onion_at(addr@, i as int);
            }
            return Some(i);
        }
        i = i + 1;
    }
    proof {
        lemma_first_onion_at(addr@, n as int);
    }
    None
}

/// Walks the segments of `multi` until it meets an onion segment and returns
/// the target that the SOCKS5 proxy expects for it, `ADDR.onion:PORT`; `None`
/// when the address has no onion segment.
pub fn to_onion_address(multi: &TransportAddress) -> (target: Option<String>)
    ensures
        match target {
            Some(t) => onion_address(multi@) == Some(t@),
            None => onion_address(multi@).is_none(),
        },
{
    match find_onion(multi) {
        Some(i) => match &multi.segments[i] {
            Segment::Onion(hash, port) => Some(format_target(hash.as_slice(), *port)),
            Segment::Onion3(hash, port) => Some(format_target(hash.as_slice(), *port)),
            _ => None,
        },
        None => None,
    }
}

/// How a dial is carried out.
#[derive(Clone, Debug)]
pub enum DialRoute {
    /// Connect through the SOCKS5 proxy on the loopback address at
    /// `proxy_port`, asking it for `target`. `legacy` tells that the address
    /// names a deprecated v2 service.
    Socks5 { target: String, proxy_port: u16, legacy: bool },
    /// Hand the address unchanged to the inner transport.
    Inner,
}

/// Where a listener is opened.
#[derive(Clone, Copy, Debug, PartialEq, Eq, Structural)]
pub enum ListenRoute {
    /// On the inner transport.
    Inner,
}

/// Configuration of a TCP/IP transport that can reach onion services through
/// a local SOCKS5 proxy.
#[derive(Clone, Copy, Debug, PartialEq, Eq, Structural)]
pub struct TorTcpConfig {
    /// Tor SOCKS5 proxy port number.
    socks_port: u16,
}

impl TorTcpConfig {
    /// The configured SOCKS5 proxy port.
    pub closed spec fn spec_socks_port(&self) -> u16 {
        self.socks_port
    }

    /// The route that `dial` takes for an address.
    pub open spec fn spec_dial(&self, segments: Seq<Segment>) -> (Option<Seq<char>>, u16, bool) {
        match first_onion(segments) {
            Some(i) => (
                Some(onion_target(segments[i])),
                self.spec_socks_port(),
                segments[i] is Onion,
            ),
            None => (None, 0, false),
        }
    }

    pub fn new(socks_port: u16) -> (config: Self)
        ensures
            config.spec_socks_port() == socks_port,
    {
        Self { socks_port }
    }

    #[verifier::when_used_as_spec(spec_socks_port)]
    pub fn socks_port(&self) -> (port: u16)
        ensures
            port == self.spec_socks_port(),
    {
        self.socks_port
    }

    /// Decides how `addr` is dialled: through the SOCKS5 proxy when the
    /// address has an onion segment, with the target of its first such
    /// segment; through the inner transport otherwise, and only then.
    pub fn dial(&self, addr: &TransportAddress) -> (route: DialRoute)
        ensures
            match route {
                DialRoute::Socks5 { target, proxy_port, legacy } => self.spec_dial(addr@)
                    == (Some(target@), proxy_port, legacy),
                DialRoute::Inner => first_onion(addr@).is_none(),
            },
            first_onion(addr@).is_none() <==> route is Inner,
    {
        match find_onion(addr) {
            Some(i) => match &addr.segments[i] {
                Segment::Onion(hash, port) => DialRoute::Socks5 {
                    target: format_target(hash.as_slice(), *port),
                    proxy_port: self.socks_port,
                    legacy: true,
                },
                Segment::Onion3(hash, port) => DialRoute::Socks5 {
                    target: format_target(hash.as_slice(), *port),
                    proxy_port: self.socks_port,
                    legacy: false,
                },
                _ => DialRoute::Inner,
            },
            None => DialRoute::Inner,
        }
    }

    /// Listening never goes through the proxy: inbound traffic from the
    /// anonymity network arrives through a separately provisioned service.
    pub fn listen_on(&self, addr: &TransportAddress) -> (route: ListenRoute)
        ensures
            route == ListenRoute::Inner,
    {
        ListenRoute::Inner
    }
}

} // verus!
