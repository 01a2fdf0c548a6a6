//! The overlay network's side of a session: its configuration, rendered as command-line
//! arguments, the peers it reports, and the port-forwards a guest asks of it.

use crate::room::{Room, RoomKind};
use crate::text::{chars_of, decimal, decimal_of, string_of};
use vstd::prelude::*;
use vstd::string::*;

verus! {

/// A transport protocol.
#[derive(Clone, Copy, Debug, PartialEq, Eq, Structural)]
pub enum Proto {
    TCP,
    UDP,
}

/// The name of a transport protocol.
pub open spec fn proto_name(p: Proto) -> Seq<char> {
    match p {
        Proto::TCP => "tcp"@,
        Proto::UDP => "udp"@,
    }
}

impl Proto {
    /// The protocol's name, `tcp` or `udp`.
    pub fn name(&self) -> (r: &'static str)
        ensures
            r@ == proto_name(*self),
    {
        match self {
            Proto::TCP => "tcp",
            Proto::UDP => "udp",
        }
    }
}

/// The kind of NAT a peer is behind, as the overlay reports it.
#[derive(Clone, Copy, Debug, PartialEq, Eq, Structural)]
pub enum NatType {
    Unknown,
    OpenInternet,
    NoPAT,
    FullCone,
    Restricted,
    PortRestricted,
    Symmetric,
    SymmetricUdpWall,
    SymmetricEasyIncrease,
    SymmetricEasyDecrease,
}

/// How hard two peers will find it to connect.
#[derive(Clone, Copy, Debug, PartialEq, Eq, Structural)]
pub enum ConnectionDifficulty {
    Unknown,
    Easiest,
    Simple,
    Medium,
    Tough,
}

/// How hard two peers behind `left` and `right` find it to connect: as easy as the more
/// open side allows.
pub open spec fn conn_difficulty(left: NatType, right: NatType) -> ConnectionDifficulty {
    let either = |t: NatType| left == t || right == t;
    if either(NatType::OpenInternet) {
        ConnectionDifficulty::Easiest
    } else if either(NatType::NoPAT) || either(NatType::FullCone) {
        ConnectionDifficulty::Simple
    } else if either(NatType::Restricted) || either(NatType::PortRestricted) {
        ConnectionDifficulty::Medium
    } else {
        ConnectionDifficulty::Tough
    }
}

/// How hard two peers behind `left` and `right` find it to connect.
pub fn calc_conn_difficulty(left: &NatType, right: &NatType) -> (r: ConnectionDifficulty)
    ensures
        r == conn_difficulty(*left, *right),
{
    let l = *left;
    let r = *right;
    if l == NatType::OpenInternet || r == NatType::OpenInternet {
        ConnectionDifficulty::Easiest
    } else if l == NatType::NoPAT || r == NatType::NoPAT || l == NatType::FullCone || r
        == NatType::FullCone {
        ConnectionDifficulty::Simple
    } else if l == NatType::Restricted || r == NatType::Restricted || l
        == NatType::PortRestricted || r == NatType::PortRestricted {
        ConnectionDifficulty::Medium
    } else {
        ConnectionDifficulty::Tough
    }
}

/// Whether two strings hold the same characters.
pub fn text_is(s: &str, t: &str) -> (r: bool)
    ensures
        r == (s@ == t@),
{
    let a = chars_of(s);
    let b = chars_of(t);
    if a.len() != b.len() {
        return false;
    }
    let mut i: usize = 0;
    while i < a.len()
        invariant
            a@ == s@,
            b@ == t@,
            a@.len() == b@.len(),
            i <= a@.len(),
            forall|j: int| 0 <= j < i ==> a@[j] == b@[j],
        decreases a@.len() - i,
    {
        if a[i] != b[i] {
            return false;
        }
        i += 1;
    }
    assert(a@ =~= b@);
    true
}

/// The NAT type that the overlay names `name`.
pub open spec fn nat_type_named(name: Seq<char>) -> Option<NatType> {
    if name == "Unknown"@ {
        Some(NatType::Unknown)
    } else if name == "OpenInternet"@ {
        Some(NatType::OpenInternet)
    } else if name == "NoPat"@ {
        Some(NatType::NoPAT)
    } else if name == "FullCone"@ {
        Some(NatType::FullCone)
    } else if name == "Restricted"@ {
        Some(NatType::Restricted)
    } else if name == "PortRestricted"@ {
        Some(NatType::PortRestricted)
    } else if name == "Symmetric"@ {
        Some(NatType::Symmetric)
    } else if name == "SymUdpFirewall"@ {
        Some(NatType::SymmetricUdpWall)
    } else if name == "SymmetricEasyInc"@ {
        Some(NatType::SymmetricEasyIncrease)
    } else if name == "SymmetricEasyDec"@ {
        Some(NatType::SymmetricEasyDecrease)
    } else {
        None
    }
}

/// The NAT type that the overlay names `name`, if any.
pub fn nat_type_of(name: &str) -> (r: Option<NatType>)
    ensures
        r == nat_type_named(name@),
{
    if text_is(name, "Unknown") {
        Some(NatType::Unknown)
    } else if text_is(name, "OpenInternet") {
        Some(NatType::OpenInternet)
    } else if text_is(name, "NoPat") {
        Some(NatType::NoPAT)
    } else if text_is(name, "FullCone") {
        Some(NatType::FullCone)
    } else if text_is(name, "Restricted") {
        Some(NatType::Restricted)
    } else if text_is(name, "PortRestricted") {
        Some(NatType::PortRestricted)
    } else if text_is(name, "Symmetric") {
        Some(NatType::Symmetric)
    } else if text_is(name, "SymUdpFirewall") {
        Some(NatType::SymmetricUdpWall)
    } else if text_is(name, "SymmetricEasyInc") {
        Some(NatType::SymmetricEasyIncrease)
    } else if text_is(name, "SymmetricEasyDec") {
        Some(NatType::SymmetricEasyDecrease)
    } else {
        None
    }
}

/// An IP address.
#[derive(Clone, Copy, Debug)]
pub enum IpAddress {
    V4 { octets: [u8; 4] },
    V6 { segments: [u16; 8] },
}

/// An IP address and a port.
#[derive(Clone, Copy, Debug)]
pub struct SocketAddress {
    pub ip: IpAddress,
    pub port: u16,
}

/// A port-forward: connections to `local` go, over the overlay, to `remote`.
#[derive(Clone, Copy, Debug)]
pub struct PortForward {
    pub local: SocketAddress,
    pub remote: SocketAddress,
    pub proto: Proto,
}

/// The lower-case hexadecimal digit of `d < 16`.
pub open spec fn hex_digit(d: nat) -> char {
    if d < 10 {
        (48 + d) as char
    } else {
        (87 + d) as char
    }
}

/// The lower-case hexadecimal writing of `v`, without leading zeros.
pub open spec fn hex_text(v: nat) -> Seq<char>
    decreases v,
{
    if v < 16 {
        seq![hex_digit(v)]
    } else {
        hex_text(v / 16) + seq![hex_digit(v % 16)]
    }
}

/// Dotted decimal writing of an IPv4 address.
pub open spec fn ipv4_text(o: Seq<u8>) -> Seq<char> {
    decimal(o[0] as nat) + seq!['.'] + decimal(o[1] as nat) + seq!['.'] + decimal(o[2] as nat)
        + seq!['.'] + decimal(o[3] as nat)
}

/// The eight groups of an IPv6 address from the `i`-th on, separated by colons.
pub open spec fn ipv6_groups(g: Seq<u16>, i: int) -> Seq<char>
    decreases 8 - i,
{
    if i >= 7 || i < 0 {
        hex_text(g[7] as nat)
    } else {
        hex_text(g[i] as nat) + seq![':'] + ipv6_groups(g, i + 1)
    }
}

/// Writing of an IPv6 address: `::` for the unspecified address, else its eight groups.
pub open spec fn ipv6_text(g: Seq<u16>) -> Seq<char> {
    if forall|i: int| 0 <= i < 8 ==> g[i] == 0 {
        seq![':', ':']
    } else {
        ipv6_groups(g, 0)
    }
}

/// Writing of an address and port: `a.b.c.d:port`, or `[v6]:port`.
pub open spec fn socket_text(a: SocketAddress) -> Seq<char> {
    match a.ip {
        IpAddress::V4 { octets } => ipv4_text(octets@) + seq![':'] + decimal(a.port as nat),
        IpAddress::V6 { segments } => seq!['['] + ipv6_text(segments@) + seq![']', ':'] + decimal(
            a.port as nat,
        ),
    }
}

fn push_seq(out: &mut Vec<char>, src: &Vec<char>)
    ensures
        final(out)@ == old(out)@ + src@,
{
    let ghost start = out@;
    let mut i: usize = 0;
    while i < src.len()
        invariant
            i <= src@.len(),
            out@ == start + src@.subrange(0, i as int),
        decreases src@.len() - i,
    {
        out.push(src[i]);
        i += 1;
        assert(out@ =~= start + src@.subrange(0, i as int));
    }
    assert(src@.subrange(0, src@.len() as int) =~= src@);
}

fn push_text(out: &mut Vec<char>, s: &str)
    ensures
        final(out)@ == old(out)@ + s@,
{
    push_seq(out, &chars_of(s));
}

fn hex_of(v: u16) -> (r: Vec<char>)
    ensures
        r@ == hex_text(v as nat),
{
    let mut out: Vec<char> = Vec::new();
    let mut cur: u16 = v;
    while cur >= 16
        invariant
            hex_text(v as nat) == hex_text(cur as nat) + out@,
        decreases cur,
    {
        let d = (cur % 16) as u8;
        let c = if d < 10 {
            (48 + d) as char
        } else {
            (87 + d) as char
        };
        out.insert(0, c);
        assert(hex_text(cur as nat) == hex_text(cur as nat / 16) + seq![hex_digit(cur as nat % 16)]);
        cur = cur / 16;
        assert(hex_text(v as nat) =~= hex_text(cur as nat) + out@);
    }
    let d = cur as u8;
    let c = if d < 10 {
        (48 + d) as char
    } else {
        (87 + d) as char
    };
    out.insert(0, c);
    assert(hex_text(v as nat) =~= out@);
    out
}

/// Writing of an address and port.
pub fn socket_text_of(a: &SocketAddress) -> (r: Vec<char>)
    ensures
        r@ == socket_text(*a),
{
    let mut out: Vec<char> = Vec::new();
    match a.ip {
        IpAddress::V4 { octets } => {
            push_seq(&mut out, &decimal_of(octets[0] as u64));
            out.push('.');
            push_seq(&mut out, &decimal_of(octets[1] as u64));
            out.push('.');
            push_seq(&mut out, &decimal_of(octets[2] as u64));
            out.push('.');
            push_seq(&mut out, &decimal_of(octets[3] as u64));
            out.push(':');
            push_seq(&mut out, &decimal_of(a.port as u64));
            assert(out@ =~= socket_text(*a));
        },
        IpAddress::V6 { segments } => {
            out.push('[');
            let mut zero = true;
            let mut i: usize = 0;
            while i < 8
                invariant
                    i <= 8,
                    zero == forall|j: int| 0 <= j < i ==> segments@[j] == 0,
                decreases 8 - i,
            {
                if segments[i] != 0 {
                    zero = false;
                }
                i += 1;
            }
            if zero {
                out.push(':');
                out.push(':');
                assert(out@ =~= seq!['['] + ipv6_text(segments@));
            } else {
                let ghost start = out@;
                let mut k: usize = 7;
                let mut tail: Vec<char> = hex_of(segments[7]);
                while k > 0
                    invariant
                        k <= 7,
                        tail@ == ipv6_groups(segments@, k as int),
                    decreases k,
                {
                    k -= 1;
                    let mut part = hex_of(segments[k]);
                    part.push(':');
                    push_seq(&mut part, &tail);
                    tail = part;
                    assert(tail@ =~= ipv6_groups(segments@, k as int));
                }
                push_seq(&mut out, &tail);
                assert(out@ =~= seq!['['] + ipv6_text(segments@));
            }
            out.push(']');
            out.push(':');
            push_seq(&mut out, &decimal_of(a.port as u64));
            assert(out@ =~= socket_text(*a));
        },
    }
    out
}

/// One item of the overlay's configuration.
pub enum Argument {
    NoTun,
    Compression(String),
    MultiThread,
    LatencyFirst,
    EnableKcpProxy,
    NetworkName(String),
    NetworkSecret(String),
    PublicServer(String),
    Listener { address: SocketAddress, proto: Proto },
    PortForward(PortForward),
    DHCP,
    HostName(String),
    IPv4([u8; 4]),
    TcpWhitelist(u16),
    UdpWhitelist(u16),
    P2POnly,
}

/// The command-line words of one configuration item.
pub open spec fn arg_words(a: Argument) -> Seq<Seq<char>> {
    match a {
        Argument::NoTun => seq!["--no-tun"@],
        Argument::Compression(m) => seq!["--compression="@ + m@],
        Argument::MultiThread => seq!["--multi-thread"@],
        Argument::LatencyFirst => seq!["--latency-first"@],
        Argument::EnableKcpProxy => seq!["--enable-kcp-proxy"@],
        Argument::NetworkName(n) => seq!["--network-name"@, n@],
        Argument::NetworkSecret(n) => seq!["--network-secret"@, n@],
        Argument::PublicServer(n) => seq!["-p"@, n@],
        Argument::Listener { address, proto } => seq![
            "-l"@,
            proto_name(proto) + "://"@ + socket_text(address),
        ],
        Argument::PortForward(f) => seq![
            "--port-forward="@ + proto_name(f.proto) + "://"@ + socket_text(f.local) + "/"@
                + socket_text(f.remote),
        ],
        Argument::DHCP => seq!["-d"@],
        Argument::HostName(n) => seq!["--hostname"@, n@],
        Argument::IPv4(o) => seq!["--ipv4"@, ipv4_text(o@)],
        Argument::TcpWhitelist(p) => seq!["--tcp-whitelist="@ + decimal(p as nat)],
        Argument::UdpWhitelist(p) => seq!["--udp-whitelist="@ + decimal(p as nat)],
        Argument::P2POnly => seq!["--p2p-only"@],
    }
}

/// The command-line words of a configuration, item after item.
pub open spec fn args_words(s: Seq<Argument>) -> Seq<Seq<char>>
    decreases s.len(),
{
    if s.len() == 0 {
        Seq::empty()
    } else {
        args_words(s.drop_last()) + arg_words(s.last())
    }
}

/// The characters of each string of `v`.
pub open spec fn texts(v: Seq<String>) -> Seq<Seq<char>> {
    Seq::new(v.len(), |i: int| v[i]@)
}

fn word(s: &str) -> (r: String)
    ensures
        r@ == s@,
{
    String::from_str(s)
}

fn joined(a: &str, b: &Vec<char>) -> (r: String)
    ensures
        r@ == a@ + b@,
{
    let mut out = chars_of(a);
    push_seq(&mut out, b);
    string_of(&out)
}

fn push_word(out: &mut Vec<String>, w: String)
    ensures
        texts(final(out)@) == texts(old(out)@).push(w@),
{
    out.push(w);
    assert(texts(out@) =~= texts(old(out)@).push(w@));
}

/// The command-line words of one configuration item.
pub fn render_argument(a: &Argument, out: &mut Vec<String>)
    ensures
        texts(final(out)@) == texts(old(out)@) + arg_words(*a),
{
    let ghost start = texts(out@);
    match a {
        Argument::NoTun => push_word(out, word("--no-tun")),
        Argument::Compression(m) => push_word(out, joined("--compression=", &chars_of(m.as_str()))),
        Argument::MultiThread => push_word(out, word("--multi-thread")),
        Argument::LatencyFirst => push_word(out, word("--latency-first")),
        Argument::EnableKcpProxy => push_word(out, word("--enable-kcp-proxy")),
        Argument::NetworkName(n) => {
            push_word(out, word("--network-name"));
            push_word(out, n.clone());
        },
        Argument::NetworkSecret(n) => {
            push_word(out, word("--network-secret"));
            push_word(out, n.clone());
        },
        Argument::PublicServer(n) => {
            push_word(out, word("-p"));
            push_word(out, n.clone());
        },
        Argument::Listener { address, proto } => {
            push_word(out, word("-l"));
            let mut t = chars_of(proto.name());
            push_text(&mut t, "://");
            push_seq(&mut t, &socket_text_of(address));
            push_word(out, string_of(&t));
        },
        Argument::PortForward(f) => {
            let mut t = chars_of("--port-forward=");
            push_text(&mut t, f.proto.name());
            push_text(&mut t, "://");
            push_seq(&mut t, &socket_text_of(&f.local));
            push_text(&mut t, "/");
            push_seq(&mut t, &socket_text_of(&f.remote));
            push_word(out, string_of(&t));
        },
        Argument::DHCP => push_word(out, word("-d")),
        Argument::HostName(n) => {
            push_word(out, word("--hostname"));
            push_word(out, n.clone());
        },
        Argument::IPv4(o) => {
            push_word(out, word("--ipv4"));
            let mut t: Vec<char> = Vec::new();
            push_seq(&mut t, &decimal_of(o[0] as u64));
            t.push('.');
            push_seq(&mut t, &decimal_of(o[1] as u64));
            t.push('.');
            push_seq(&mut t, &decimal_of(o[2] as u64));
            t.push('.');
            push_seq(&mut t, &decimal_of(o[3] as u64));
            assert(t@ =~= ipv4_text(o@));
            push_word(out, string_of(&t));
        },
        Argument::TcpWhitelist(p) => push_word(
            out,
            joined("--tcp-whitelist=", &decimal_of(*p as u64)),
        ),
        Argument::UdpWhitelist(p) => push_word(
            out,
            joined("--udp-whitelist=", &decimal_of(*p as u64)),
        ),
        Argument::P2POnly => push_word(out, word("--p2p-only")),
    }
    assert(texts(out@) =~= start + arg_words(*a));
}

/// The command line of a configuration.
pub fn render_arguments(args: &Vec<Argument>) -> (r: Vec<String>)
    ensures
        texts(r@) == args_words(args@),
{
    let mut out: Vec<String> = Vec::new();
    let mut i: usize = 0;
    while i < args.len()
        invariant
            i <= args@.len(),
            texts(out@) == args_words(args@.subrange(0, i as int)),
        decreases args@.len() - i,
    {
        render_argument(&args[i], &mut out);
        assert(args@.subrange(0, i + 1).drop_last() =~= args@.subrange(0, i as int));
        i += 1;
    }
    assert(args@.subrange(0, args@.len() as int) =~= args@);
    out
}

/// The unspecified IPv4 address with `port`.
pub open spec fn any_v4(port: u16) -> SocketAddress {
    SocketAddress { ip: IpAddress::V4 { octets: [0u8, 0u8, 0u8, 0u8] }, port }
}

/// `s` is the flags that every overlay runs with: no TUN device, zstd compression, several
/// threads, latency first, the KCP proxy, a UDP and a TCP listener on `0.0.0.0:0`, and
/// peer-to-peer only.
pub open spec fn default_args(s: Seq<Argument>) -> bool {
    &&& s.len() == 8
    &&& s[0] is NoTun
    &&& s[1] matches Argument::Compression(m) && m@ == "zstd"@
    &&& s[2] is MultiThread
    &&& s[3] is LatencyFirst
    &&& s[4] is EnableKcpProxy
    &&& s[5] matches Argument::Listener { address, proto } && address == any_v4(0) && proto
        == Proto::UDP
    &&& s[6] matches Argument::Listener { address, proto } && address == any_v4(0) && proto
        == Proto::TCP
    &&& s[7] is P2POnly
}

/// `s` configures the overlay of `room`: its network name and secret, each of `servers` as
/// a bootstrap node, then the default flags.
pub open spec fn room_args(s: Seq<Argument>, room: crate::room::RoomView, servers: Seq<Seq<char>>) -> bool {
    &&& s.len() == 2 + servers.len() + 8
    &&& s[0] matches Argument::NetworkName(n) && n@ == room.network_name
    &&& s[1] matches Argument::NetworkSecret(n) && n@ == room.network_secret
    &&& forall|i: int|
        0 <= i < servers.len() ==> ((#[trigger] s[2 + i]) matches Argument::PublicServer(p) && p@
            == servers[i])
    &&& default_args(s.subrange(2 + servers.len() as int, s.len() as int))
}

fn push_arg(out: &mut Vec<Argument>, a: Argument)
    ensures
        final(out)@ == old(out)@.push(a),
{
    out.push(a);
}

/// The overlay configuration of `room`, with `public_servers` as bootstrap nodes.
pub fn compute_arguments(room: &Room, public_servers: Vec<String>) -> (r: Vec<Argument>)
    ensures
        room_args(r@, room@, texts(public_servers@)),
{
    let mut args: Vec<Argument> = Vec::new();
    push_arg(&mut args, Argument::NetworkName(room.network_name.clone()));
    push_arg(&mut args, Argument::NetworkSecret(room.network_secret.clone()));
    let n = public_servers.len();
    let ghost servers = texts(public_servers@);
    let mut i: usize = 0;
    while i < n
        invariant
            n == public_servers@.len(),
            servers == texts(public_servers@),
            i <= n,
            args@.len() == 2 + i,
            args@[0] matches Argument::NetworkName(x) && x@ == room@.network_name,
            args@[1] matches Argument::NetworkSecret(x) && x@ == room@.network_secret,
            forall|j: int|
                0 <= j < i ==> ((#[trigger] args@[2 + j]) matches Argument::PublicServer(p) && p@
                    == servers[j]),
        decreases n - i,
    {
        push_arg(&mut args, Argument::PublicServer(public_servers[i].clone()));
        i += 1;
    }
    let ghost start = args@.len() as int;
    push_arg(&mut args, Argument::NoTun);
    push_arg(&mut args, Argument::Compression(String::from_str("zstd")));
    push_arg(&mut args, Argument::MultiThread);
    push_arg(&mut args, Argument::LatencyFirst);
    push_arg(&mut args, Argument::EnableKcpProxy);
    push_arg(
        &mut args,
        Argument::Listener {
            address: SocketAddress { ip: IpAddress::V4 { octets: [0u8, 0u8, 0u8, 0u8] }, port: 0 },
            proto: Proto::UDP,
        },
    );
    push_arg(
        &mut args,
        Argument::Listener {
            address: SocketAddress { ip: IpAddress::V4 { octets: [0u8, 0u8, 0u8, 0u8] }, port: 0 },
            proto: Proto::TCP,
        },
    );
    push_arg(&mut args, Argument::P2POnly);
    proof {
        let t = args@.subrange(start, args@.len() as int);
        assert(t[0] == args@[start]);
        assert(t[1] == args@[start + 1]);
        assert(t[5] == args@[start + 5]);
        assert(t[6] == args@[start + 6]);
        assert([0u8, 0u8, 0u8, 0u8]@ =~= any_v4(0).ip->octets@);
    }
    args
}

/// The prefix of the overlay host name under which a host serves its side-band protocol.
pub open spec fn server_prefix() -> Seq<char> {
    "scaffolding-mc-server-"@
}

/// The overlay host name of a host whose side-band protocol listens on `port`.
pub fn scaffolding_host_name(port: u16) -> (r: String)
    ensures
        r@ == server_prefix() + decimal(port as nat),
{
    joined("scaffolding-mc-server-", &decimal_of(port as u64))
}

/// The overlay address of a host: `10.144.144.1`.
pub open spec fn host_ipv4() -> Seq<u8> {
    seq![10u8, 144, 144, 1]
}

/// The configuration of a host's overlay: the room's, then its host name for the side-band
/// port `scaffolding`, the address `10.144.144.1`, and the ports let in: TCP for the
/// side-band, TCP and UDP for the game on `port`.
pub fn host_arguments(room: &Room, public_servers: Vec<String>, scaffolding: u16, port: u16) -> (r:
    Vec<Argument>)
    ensures
        ({
            let n = (2 + public_servers@.len() + 8) as int;
            &&& r@.len() == n + 5
            &&& room_args(r@.subrange(0, n), room@, texts(public_servers@))
            &&& r@[n] matches Argument::HostName(h) && h@ == server_prefix() + decimal(
                scaffolding as nat,
            )
            &&& r@[n + 1] matches Argument::IPv4(o) && o@ == host_ipv4()
            &&& r@[n + 2] == Argument::TcpWhitelist(scaffolding)
            &&& r@[n + 3] == Argument::TcpWhitelist(port)
            &&& r@[n + 4] == Argument::UdpWhitelist(port)
        }),
{
    let ghost servers = texts(public_servers@);
    let mut args = compute_arguments(room, public_servers);
    let ghost base = args@;
    push_arg(&mut args, Argument::HostName(scaffolding_host_name(scaffolding)));
    push_arg(&mut args, Argument::IPv4([10u8, 144u8, 144u8, 1u8]));
    push_arg(&mut args, Argument::TcpWhitelist(scaffolding));
    push_arg(&mut args, Argument::TcpWhitelist(port));
    push_arg(&mut args, Argument::UdpWhitelist(port));
    proof {
        assert(args@.subrange(0, base.len() as int) =~= base);
        assert([10u8, 144u8, 144u8, 1u8]@ =~= host_ipv4());
    }
    args
}

/// The configuration of a guest's overlay: the room's, then an address by DHCP, and no
/// ports let in.
pub fn guest_arguments(room: &Room, public_servers: Vec<String>) -> (r: Vec<Argument>)
    ensures
        ({
            let n = (2 + public_servers@.len() + 8) as int;
            &&& r@.len() == n + 3
            &&& room_args(r@.subrange(0, n), room@, texts(public_servers@))
            &&& r@[n] is DHCP
            &&& r@[n + 1] == Argument::TcpWhitelist(0)
            &&& r@[n + 2] == Argument::UdpWhitelist(0)
        }),
{
    let mut args = compute_arguments(room, public_servers);
    let ghost base = args@;
    push_arg(&mut args, Argument::DHCP);
    push_arg(&mut args, Argument::TcpWhitelist(0));
    push_arg(&mut args, Argument::UdpWhitelist(0));
    assert(args@.subrange(0, base.len() as int) =~= base);
    args
}

/// The community relay nodes a room's overlay bootstraps from.
pub open spec fn public_nodes() -> Seq<Seq<char>> {
    seq![
        "tcp://public.easytier.top:11010"@,
        "tcp://public2.easytier.cn:54321"@,
        "https://etnode.zkitefly.eu.org/node1"@,
        "https://etnode.zkitefly.eu.org/node2"@,
    ]
}

/// The relay nodes that the overlay of `room` bootstraps from.
pub fn fetch_public_nodes(room: &Room) -> (r: Vec<String>)
    ensures
        texts(r@) == public_nodes(),
{
    let mut out: Vec<String> = Vec::new();
    push_word(&mut out, word("tcp://public.easytier.top:11010"));
    push_word(&mut out, word("tcp://public2.easytier.cn:54321"));
    push_word(&mut out, word("https://etnode.zkitefly.eu.org/node1"));
    push_word(&mut out, word("https://etnode.zkitefly.eu.org/node2"));
    assert(texts(out@) =~= public_nodes());
    out
}

/// The value of a decimal digit character.
pub open spec fn digit_value(c: char) -> Option<nat> {
    if 48 <= c as u32 <= 57 {
        Some((c as u32 - 48) as nat)
    } else {
        None
    }
}

/// The number that the decimal digits `s` write, most significant first.
pub open spec fn digits_number(s: Seq<char>) -> nat
    decreases s.len(),
{
    if s.len() == 0 {
        0
    } else {
        digits_number(s.drop_last()) * 10 + digit_value(s.last()).unwrap_or(0)
    }
}

/// Every character of `s` is a decimal digit.
pub open spec fn all_decimal(s: Seq<char>) -> bool {
    forall|i: int| 0 <= i < s.len() ==> (#[trigger] digit_value(s[i])) is Some
}

/// A port written in decimal: an optional `+`, at least one digit, a value below 65536.
pub open spec fn port_text_value(s: Seq<char>) -> Option<u16> {
    let d = if s.len() > 0 && s[0] == '+' {
        s.drop_first()
    } else {
        s
    };
    if d.len() > 0 && all_decimal(d) && digits_number(d) < 65536 {
        Some(digits_number(d) as u16)
    } else {
        None
    }
}

/// Reads a port written in decimal, as `u16::from_str` does.
pub fn parse_port(s: &Vec<char>, from: usize) -> (r: Option<u16>)
    requires
        from <= s@.len(),
    ensures
        r == port_text_value(s@.subrange(from as int, s@.len() as int)),
{
    let ghost t = s@.subrange(from as int, s@.len() as int);
    let mut i = from;
    if i < s.len() && s[i] == '+' {
        i += 1;
    }
    let ghost d = s@.subrange(i as int, s@.len() as int);
    assert(d =~= if t.len() > 0 && t[0] == '+' {
        t.drop_first()
    } else {
        t
    });
    if i >= s.len() {
        return None;
    }
    let start = i;
    let mut value: u32 = 0;
    while i < s.len()
        invariant
            start <= i <= s@.len(),
            d == s@.subrange(start as int, s@.len() as int),
            t == s@.subrange(from as int, s@.len() as int),
            d == if t.len() > 0 && t[0] == '+' {
                t.drop_first()
            } else {
                t
            },
            d.len() > 0,
            all_decimal(s@.subrange(start as int, i as int)),
            value as nat == digits_number(s@.subrange(start as int, i as int)),
            value < 65536,
        decreases s@.len() - i,
    {
        let c = s[i];
        assert(s@.subrange(start as int, i + 1).drop_last() =~= s@.subrange(start as int, i as int));
        let u = c as u32;
        if !(48 <= u && u <= 57) {
            assert(d[i - start] == c);
            assert(digit_value(d[i - start]) is None);
            assert(!all_decimal(d));
            return None;
        }
        let v = value * 10 + (u - 48);
        i += 1;
        assert(all_decimal(s@.subrange(start as int, i as int))) by {
            assert forall|j: int| 0 <= j < i - start implies (#[trigger] digit_value(
                s@.subrange(start as int, i as int)[j],
            )) is Some by {
                if j < i - 1 - start {
                    assert(s@.subrange(start as int, i as int)[j] == s@.subrange(
                        start as int,
                        i - 1,
                    )[j]);
                }
            }
        }
        if v >= 65536 {
            proof {
                assert(s@.subrange(start as int, i as int) =~= d.subrange(0, i - start));
                if all_decimal(d) {
                    lemma_digits_grow(d, (i - start) as int);
                }
            }
            return None;
        }
        value = v;
    }
    assert(s@.subrange(start as int, i as int) =~= d);
    Some(value as u16)
}

/// A longer prefix of decimal digits writes no smaller a number.
pub proof fn lemma_digits_grow(d: Seq<char>, k: int)
    requires
        0 <= k <= d.len(),
        all_decimal(d),
    ensures
        digits_number(d) >= digits_number(d.subrange(0, k)),
    decreases d.len() - k,
{
    if k < d.len() {
        lemma_digits_grow(d, k + 1);
        assert(d.subrange(0, k + 1).drop_last() =~= d.subrange(0, k));
    } else {
        assert(d.subrange(0, k) =~= d);
    }
}

/// A peer of the overlay, as the overlay reports it.
pub struct EasyTierMember {
    pub hostname: String,
    pub address: Option<[u8; 4]>,
    pub is_local: bool,
    pub nat: NatType,
}

/// The side-band port that a host name announces: the name is the server prefix followed
/// by a port.
pub open spec fn announced_port(hostname: Seq<char>) -> Option<u16> {
    let n = server_prefix().len();
    if hostname.len() >= n && hostname.subrange(0, n as int) == server_prefix() {
        port_text_value(hostname.subrange(n as int, hostname.len() as int))
    } else {
        None
    }
}

/// The first peer, from the `i`-th on, with an address and a host name that announces a
/// side-band port: its address and that port.
pub open spec fn first_server(peers: Seq<EasyTierMember>, i: int) -> Option<([u8; 4], u16)>
    decreases peers.len() - i,
{
    if i < 0 || i >= peers.len() {
        None
    } else if peers[i].address is Some && announced_port(peers[i].hostname@) is Some {
        Some((peers[i].address.unwrap(), announced_port(peers[i].hostname@).unwrap()))
    } else {
        first_server(peers, i + 1)
    }
}

/// The side-band port that a host name announces, if any.
pub fn announced_port_of(hostname: &String) -> (r: Option<u16>)
    ensures
        r == announced_port(hostname@),
{
    let h = chars_of(hostname.as_str());
    let p = chars_of("scaffolding-mc-server-");
    if h.len() < p.len() {
        return None;
    }
    let mut i: usize = 0;
    while i < p.len()
        invariant
            h@ == hostname@,
            p@ == server_prefix(),
            p@.len() <= h@.len(),
            i <= p@.len(),
            forall|j: int| 0 <= j < i ==> h@[j] == p@[j],
        decreases p@.len() - i,
    {
        if h[i] != p[i] {
            assert(h@.subrange(0, p@.len() as int)[i as int] != p@[i as int]);
            return None;
        }
        i += 1;
    }
    assert(h@.subrange(0, p@.len() as int) =~= p@);
    parse_port(&h, p.len())
}

/// The address and side-band port of the first peer that announces itself as a host.
pub fn find_scaffolding_server(peers: &Vec<EasyTierMember>) -> (r: Option<([u8; 4], u16)>)
    ensures
        r == first_server(peers@, 0),
{
    let mut i: usize = 0;
    while i < peers.len()
        invariant
            i <= peers@.len(),
            first_server(peers@, 0) == first_server(peers@, i as int),
        decreases peers@.len() - i,
    {
        let peer = &peers[i];
        if let Some(ip) = peer.address {
            if let Some(port) = announced_port_of(&peer.hostname) {
                return Some((ip, port));
            }
        }
        i += 1;
    }
    None
}

/// The forward by which a guest reaches a host's side-band port `port` at `ip`, from TCP
/// port `local` on every local IPv4 address.
pub fn scaffolding_forward(local: u16, ip: [u8; 4], port: u16) -> (r: PortForward)
    ensures
        r.local == any_v4(local),
        r.remote == (SocketAddress { ip: IpAddress::V4 { octets: ip }, port }),
        r.proto == Proto::TCP,
{
    let r = PortForward {
        local: SocketAddress { ip: IpAddress::V4 { octets: [0u8, 0u8, 0u8, 0u8] }, port: local },
        remote: SocketAddress { ip: IpAddress::V4 { octets: ip }, port },
        proto: Proto::TCP,
    };
    assert(r.local.ip->octets@ =~= any_v4(local).ip->octets@);
    r
}

/// The unspecified IPv6 address with `port`.
pub open spec fn any_v6(port: u16) -> SocketAddress {
    SocketAddress { ip: IpAddress::V6 { segments: [0u16, 0, 0, 0, 0, 0, 0, 0] }, port }
}

/// The forwards by which a guest reaches the host's game on `port` at `ip`: from `local`
/// on every IPv4 and every IPv6 address, over TCP and over UDP, in that order.
pub fn game_forwards(local: u16, ip: [u8; 4], port: u16) -> (r: Vec<PortForward>)
    ensures
        r@.len() == 4,
        forall|i: int|
            0 <= i < 4 ==> (#[trigger] r@[i]).remote == (SocketAddress {
                ip: IpAddress::V4 { octets: ip },
                port,
            }),
        r@[0].local == any_v4(local) && r@[0].proto == Proto::TCP,
        r@[1].local == any_v4(local) && r@[1].proto == Proto::UDP,
        r@[2].local == any_v6(local) && r@[2].proto == Proto::TCP,
        r@[3].local == any_v6(local) && r@[3].proto == Proto::UDP,
{
    let v4 = SocketAddress { ip: IpAddress::V4 { octets: [0u8, 0u8, 0u8, 0u8] }, port: local };
    let v6 = SocketAddress {
        ip: IpAddress::V6 { segments: [0u16, 0u16, 0u16, 0u16, 0u16, 0u16, 0u16, 0u16] },
        port: local,
    };
    let remote = SocketAddress { ip: IpAddress::V4 { octets: ip }, port };
    let mut out: Vec<PortForward> = Vec::new();
    out.push(PortForward { local: v4, remote, proto: Proto::TCP });
    out.push(PortForward { local: v4, remote, proto: Proto::UDP });
    out.push(PortForward { local: v6, remote, proto: Proto::TCP });
    out.push(PortForward { local: v6, remote, proto: Proto::UDP });
    assert(v4.ip->octets@ =~= any_v4(local).ip->octets@);
    assert(v6.ip->segments@ =~= any_v6(local).ip->segments@);
    out
}

/// The relay nodes that the overlay of a legacy or third-party room bootstraps from.
pub open spec fn legacy_relays() -> Seq<Seq<char>> {
    seq![
        "tcp://public.easytier.top:11010"@,
        "tcp://ah.nkbpal.cn:11010"@,
        "tcp://turn.hb.629957.xyz:11010"@,
        "tcp://turn.js.629957.xyz:11012"@,
        "tcp://sh.993555.xyz:11010"@,
        "tcp://turn.bj.629957.xyz:11010"@,
        "tcp://et.sh.suhoan.cn:11010"@,
        "tcp://et-hk.clickor.click:11010"@,
        "tcp://et.01130328.xyz:11010"@,
        "tcp://et.gbc.moe:11011"@,
    ]
}

/// The relay node of third-party rooms.
pub open spec fn pcl_relay() -> Seq<char> {
    "tcp://43.139.42.188:11010"@
}

/// The relay nodes of a legacy or third-party room.
pub fn legacy_relay_list(pcl: bool) -> (r: Vec<String>)
    ensures
        texts(r@) == if pcl {
            seq![pcl_relay()] + legacy_relays()
        } else {
            legacy_relays()
        },
{
    let mut out: Vec<String> = Vec::new();
    if pcl {
        push_word(&mut out, word("tcp://43.139.42.188:11010"));
    }
    let ghost start = texts(out@);
    push_word(&mut out, word("tcp://public.easytier.top:11010"));
    push_word(&mut out, word("tcp://ah.nkbpal.cn:11010"));
    push_word(&mut out, word("tcp://turn.hb.629957.xyz:11010"));
    push_word(&mut out, word("tcp://turn.js.629957.xyz:11012"));
    push_word(&mut out, word("tcp://sh.993555.xyz:11010"));
    push_word(&mut out, word("tcp://turn.bj.629957.xyz:11010"));
    push_word(&mut out, word("tcp://et.sh.suhoan.cn:11010"));
    push_word(&mut out, word("tcp://et-hk.clickor.click:11010"));
    push_word(&mut out, word("tcp://et.01130328.xyz:11010"));
    push_word(&mut out, word("tcp://et.gbc.moe:11011"));
    assert(texts(out@) =~= start + legacy_relays());
    out
}

/// `a` is IPv4 address `ip` with `port`.
pub open spec fn v4_target(a: SocketAddress, ip: Seq<u8>, port: u16) -> bool {
    a.port == port && match a.ip {
        IpAddress::V4 { octets } => octets@ == ip,
        IpAddress::V6 { .. } => false,
    }
}

/// The overlay address of the host of a room without profile exchange, and the game's port
/// there; `None` for a current room.
pub open spec fn legacy_target(kind: RoomKind) -> Option<(Seq<u8>, u16)> {
    match kind {
        RoomKind::TerracottaLegacy { mc_port } => Some((seq![10u8, 144, 144, 1], mc_port)),
        RoomKind::PCL2CE { mc_port } => Some((seq![10u8, 114, 51, 41], mc_port)),
        RoomKind::Experimental { .. } => None,
    }
}

/// The configuration of a guest's overlay for a legacy or third-party room, forwarding TCP
/// port `local` on every address to the host's game; `None` for a current room.
pub fn legacy_guest_arguments(room: &Room, local: u16) -> (r: Option<Vec<Argument>>)
    ensures
        legacy_target(room.kind) is None ==> r is None,
        legacy_target(room.kind) matches Some(t) ==> (r matches Some(v) && ({
            let servers = if room.kind is PCL2CE {
                seq![pcl_relay()] + legacy_relays()
            } else {
                legacy_relays()
            };
            let n = (2 + servers.len()) as int;
            &&& v@.len() == n + 8
            &&& v@[0] matches Argument::NetworkName(x) && x@ == room@.network_name
            &&& v@[1] matches Argument::NetworkSecret(x) && x@ == room@.network_secret
            &&& forall|i: int|
                0 <= i < servers.len() ==> ((#[trigger] v@[2 + i]) matches Argument::PublicServer(
                    p,
                ) && p@ == servers[i])
            &&& v@[n] is NoTun
            &&& v@[n + 1] matches Argument::Compression(m) && m@ == "zstd"@
            &&& v@[n + 2] is MultiThread
            &&& v@[n + 3] is LatencyFirst
            &&& v@[n + 4] is EnableKcpProxy
            &&& v@[n + 5] is DHCP
            &&& v@[n + 6] matches Argument::PortForward(f) && f.local == any_v6(local) && f.proto
                == Proto::TCP && v4_target(f.remote, t.0, t.1)
            &&& v@[n + 7] matches Argument::PortForward(f) && f.local == any_v4(local) && f.proto
                == Proto::TCP && v4_target(f.remote, t.0, t.1)
        })),
{
    let (ip, port, pcl): ([u8; 4], u16, bool) = match room.kind {
        RoomKind::TerracottaLegacy { mc_port } => ([10u8, 144u8, 144u8, 1u8], mc_port, false),
        RoomKind::PCL2CE { mc_port } => ([10u8, 114u8, 51u8, 41u8], mc_port, true),
        RoomKind::Experimental { .. } => {
            return None;
        },
    };
    let servers = legacy_relay_list(pcl);
    let ghost sv = texts(servers@);
    let mut args: Vec<Argument> = Vec::new();
    push_arg(&mut args, Argument::NetworkName(room.network_name.clone()));
    push_arg(&mut args, Argument::NetworkSecret(room.network_secret.clone()));
    let n = servers.len();
    let mut i: usize = 0;
    while i < n
        invariant
            n == servers@.len(),
            sv == texts(servers@),
            i <= n,
            args@.len() == 2 + i,
            args@[0] matches Argument::NetworkName(x) && x@ == room@.network_name,
            args@[1] matches Argument::NetworkSecret(x) && x@ == room@.network_secret,
            forall|j: int|
                0 <= j < i ==> ((#[trigger] args@[2 + j]) matches Argument::PublicServer(p) && p@
                    == sv[j]),
        decreases n - i,
    {
        push_arg(&mut args, Argument::PublicServer(servers[i].clone()));
        i += 1;
    }
    push_arg(&mut args, Argument::NoTun);
    push_arg(&mut args, Argument::Compression(String::from_str("zstd")));
    push_arg(&mut args, Argument::MultiThread);
    push_arg(&mut args, Argument::LatencyFirst);
    push_arg(&mut args, Argument::EnableKcpProxy);
    push_arg(&mut args, Argument::DHCP);
    let remote = SocketAddress { ip: IpAddress::V4 { octets: ip }, port };
    let v6 = SocketAddress {
        ip: IpAddress::V6 { segments: [0u16, 0u16, 0u16, 0u16, 0u16, 0u16, 0u16, 0u16] },
        port: local,
    };
    let v4 = SocketAddress { ip: IpAddress::V4 { octets: [0u8, 0u8, 0u8, 0u8] }, port: local };
    push_arg(&mut args, Argument::PortForward(PortForward { local: v6, remote, proto: Proto::TCP }));
    push_arg(&mut args, Argument::PortForward(PortForward { local: v4, remote, proto: Proto::TCP }));
    proof {
        assert(v4.ip->octets@ =~= any_v4(local).ip->octets@);
        assert(v6.ip->segments@ =~= any_v6(local).ip->segments@);
        assert([10u8, 144u8, 144u8, 1u8]@ =~= seq![10u8, 144, 144, 1]);
        assert([10u8, 114u8, 51u8, 41u8]@ =~= seq![10u8, 114, 51, 41]);
    }
    Some(args)
}

/// Whether beacons are heard and sent on a local address: not the overlay's own
/// `10.144.144.0/24`, not a loopback address, not an unspecified one (those two are added
/// apart).
pub open spec fn beacon_interface(ip: IpAddress) -> bool {
    match ip {
        IpAddress::V4 { octets } => !(octets[0] == 10 && octets[1] == 144 && octets[2] == 144)
            && !(octets[0] == 127 && octets[1] == 0 && octets[2] == 0 && octets[3] == 1)
            && !(octets[0] == 0 && octets[1] == 0 && octets[2] == 0 && octets[3] == 0),
        IpAddress::V6 { segments } => !(segments[0] == 0 && segments[1] == 0 && segments[2] == 0
            && segments[3] == 0 && segments[4] == 0 && segments[5] == 0 && segments[6] == 0 && (
        segments[7] == 0 || segments[7] == 1)),
    }
}

/// Whether beacons are heard and sent on local address `ip`.
pub fn keep_interface(ip: &IpAddress) -> (r: bool)
    ensures
        r == beacon_interface(*ip),
{
    match ip {
        IpAddress::V4 { octets } => !(octets[0] == 10 && octets[1] == 144 && octets[2] == 144)
            && !(octets[0] == 127 && octets[1] == 0 && octets[2] == 0 && octets[3] == 1)
            && !(octets[0] == 0 && octets[1] == 0 && octets[2] == 0 && octets[3] == 0),
        IpAddress::V6 { segments } => !(segments[0] == 0 && segments[1] == 0 && segments[2] == 0
            && segments[3] == 0 && segments[4] == 0 && segments[5] == 0 && segments[6] == 0 && (
        segments[7] == 0 || segments[7] == 1)),
    }
}

/// The place of an address in the order of addresses: IPv4 before IPv6, each by its bytes
/// read as one big-endian number.
pub open spec fn addr_key(a: IpAddress) -> nat {
    match a {
        IpAddress::V4 { octets } => octets[0] as nat * 16777216 + octets[1] as nat * 65536
            + octets[2] as nat * 256 + octets[3] as nat,
        IpAddress::V6 { segments } => 0x1_0000_0000_0000_0000_0000_0000_0000_0000nat + v6_number(
            segments@,
        ),
    }
}

/// The eight groups of an IPv6 address read as one big-endian number.
pub open spec fn v6_number(g: Seq<u16>) -> nat {
    g[0] as nat * 0x1_0000_0000_0000_0000_0000_0000_0000 + g[1] as nat * 0x1_0000_0000_0000_0000_0000_0000
        + g[2] as nat * 0x1_0000_0000_0000_0000_0000 + g[3] as nat * 0x1_0000_0000_0000_0000 + g[4] as nat
        * 0x1_0000_0000_0000 + g[5] as nat * 0x1_0000_0000 + g[6] as nat * 0x1_0000 + g[7] as nat
}

/// Whether `a` comes after `b` in the order of addresses.
pub fn addr_after(a: &IpAddress, b: &IpAddress) -> (r: bool)
    ensures
        r == (addr_key(*a) > addr_key(*b)),
{
    match (a, b) {
        (IpAddress::V4 { .. }, IpAddress::V6 { .. }) => false,
        (IpAddress::V6 { .. }, IpAddress::V4 { .. }) => true,
        (IpAddress::V4 { octets: x }, IpAddress::V4 { octets: y }) => {
            let kx = x[0] as u64 * 16777216 + x[1] as u64 * 65536 + x[2] as u64 * 256 + x[3] as u64;
            let ky = y[0] as u64 * 16777216 + y[1] as u64 * 65536 + y[2] as u64 * 256 + y[3] as u64;
            kx > ky
        },
        (IpAddress::V6 { segments: x }, IpAddress::V6 { segments: y }) => v6_value(x) > v6_value(y),
    }
}

fn v6_value(g: &[u16; 8]) -> (r: u128)
    ensures
        r as nat == v6_number(g@),
{
    g[0] as u128 * 0x1_0000_0000_0000_0000_0000_0000_0000 + g[1] as u128 * 0x1_0000_0000_0000_0000_0000_0000
        + g[2] as u128 * 0x1_0000_0000_0000_0000_0000 + g[3] as u128 * 0x1_0000_0000_0000_0000 + g[4] as u128
        * 0x1_0000_0000_0000 + g[5] as u128 * 0x1_0000_0000 + g[6] as u128 * 0x1_0000 + g[7] as u128
}

/// Addresses in descending order.
pub open spec fn descending(s: Seq<IpAddress>) -> bool {
    forall|i: int, j: int| 0 <= i < j < s.len() ==> addr_key(#[trigger] s[i]) >= addr_key(#[trigger] s[j])
}

fn insert_descending(out: &mut Vec<IpAddress>, x: IpAddress)
    requires
        descending(old(out)@),
    ensures
        descending(final(out)@),
        final(out)@.to_multiset() == old(out)@.to_multiset().insert(x),
{
    let ghost s = out@;
    let mut p: usize = 0;
    while p < out.len()
        invariant
            s == out@,
            p <= s.len(),
            forall|i: int| 0 <= i < p ==> addr_key(#[trigger] s[i]) >= addr_key(x),
        ensures
            s == out@,
            p <= s.len(),
            forall|i: int| 0 <= i < p ==> addr_key(#[trigger] s[i]) >= addr_key(x),
            p == s.len() || addr_key(s[p as int]) < addr_key(x),
        decreases s.len() - p,
    {
        if addr_after(&x, &out[p]) {
            break;
        }
        p += 1;
    }
    proof {
        vstd::seq_lib::to_multiset_insert(s, p as int, x);
    }
    out.insert(p, x);
    proof {
        let f = out@;
        assert forall|i: int, j: int| 0 <= i < j < f.len() implies addr_key(#[trigger] f[i])
            >= addr_key(#[trigger] f[j]) by {
            if j < p {
                assert(f[i] == s[i] && f[j] == s[j]);
            } else if j == p {
                assert(f[i] == s[i]);
            } else if i < p {
                assert(f[i] == s[i] && f[j] == s[j - 1]);
            } else if i == p {
                assert(f[j] == s[j - 1]);
                assert(addr_key(s[p as int]) < addr_key(x));
            } else {
                assert(f[i] == s[i - 1] && f[j] == s[j - 1]);
            }
        }
    }
}

/// The local addresses that beacons use, from those found: the ones `keep_interface`
/// keeps, in order.
pub open spec fn kept_addresses(s: Seq<IpAddress>) -> Seq<IpAddress>
    decreases s.len(),
{
    if s.len() == 0 {
        s
    } else if beacon_interface(s.last()) {
        kept_addresses(s.drop_last()).push(s.last())
    } else {
        kept_addresses(s.drop_last())
    }
}

/// The unspecified IPv4 and IPv6 addresses.
pub open spec fn unspecified_addresses() -> Seq<IpAddress> {
    seq![any_v4(0).ip, any_v6(0).ip]
}

/// The addresses that beacons are heard and sent on: those of `found` that
/// `keep_interface` keeps, and both unspecified addresses, highest first.
pub fn order_addresses(found: &Vec<IpAddress>) -> (r: Vec<IpAddress>)
    ensures
        descending(r@),
        r@.to_multiset() == (kept_addresses(found@) + unspecified_addresses()).to_multiset(),
{
    let mut kept: Vec<IpAddress> = Vec::new();
    let mut i: usize = 0;
    while i < found.len()
        invariant
            i <= found@.len(),
            kept@ == kept_addresses(found@.subrange(0, i as int)),
        decreases found@.len() - i,
    {
        assert(found@.subrange(0, i + 1).drop_last() =~= found@.subrange(0, i as int));
        if keep_interface(&found[i]) {
            kept.push(found[i]);
        }
        i += 1;
    }
    assert(found@.subrange(0, found@.len() as int) =~= found@);
    kept.push(IpAddress::V4 { octets: [0u8, 0u8, 0u8, 0u8] });
    kept.push(IpAddress::V6 { segments: [0u16, 0u16, 0u16, 0u16, 0u16, 0u16, 0u16, 0u16] });
    proof {
        assert([0u8, 0u8, 0u8, 0u8]@ =~= any_v4(0).ip->octets@);
        assert([0u16, 0u16, 0u16, 0u16, 0u16, 0u16, 0u16, 0u16]@ =~= any_v6(0).ip->segments@);
        assert(kept@ =~= kept_addresses(found@) + unspecified_addresses());
    }
    let ghost all = kept@;
    let mut out: Vec<IpAddress> = Vec::new();
    assert(out@ =~= all.subrange(0, 0));
    let mut k: usize = 0;
    while k < kept.len()
        invariant
            kept@ == all,
            k <= all.len(),
            descending(out@),
            out@.to_multiset() == all.subrange(0, k as int).to_multiset(),
        decreases all.len() - k,
    {
        insert_descending(&mut out, kept[k]);
        proof {
            vstd::seq_lib::to_multiset_build(all.subrange(0, k as int), all[k as int]);
            assert(all.subrange(0, k + 1) =~= all.subrange(0, k as int).push(all[k as int]));
        }
        k += 1;
    }
    assert(all.subrange(0, all.len() as int) =~= all);
    out
}

} // verus!
