use terracotta::beacon::{
    beacon_message, expire_servers, parse_beacon, record_server, server_ports,
};
use terracotta::machine::{machine_id_invalid, machine_id_of};
use terracotta::overlay::{
    announced_port_of, calc_conn_difficulty, compute_arguments, fetch_public_nodes,
    find_scaffolding_server, game_forwards, guest_arguments, host_arguments,
    legacy_guest_arguments, nat_type_of, render_arguments, scaffolding_host_name,
    socket_text_of, Argument, ConnectionDifficulty, EasyTierMember, IpAddress, NatType, Proto,
    SocketAddress,
};
use terracotta::ports::PortRequest;
use terracotta::room::Room;

fn words(args: &Vec<Argument>) -> Vec<String> {
    render_arguments(args)
}

#[test]
fn connection_difficulty() {
    let d = |a: NatType, b: NatType| calc_conn_difficulty(&a, &b);
    assert_eq!(d(NatType::OpenInternet, NatType::Symmetric), ConnectionDifficulty::Easiest);
    assert_eq!(d(NatType::Symmetric, NatType::FullCone), ConnectionDifficulty::Simple);
    assert_eq!(d(NatType::NoPAT, NatType::NoPAT), ConnectionDifficulty::Simple);
    assert_eq!(d(NatType::PortRestricted, NatType::Unknown), ConnectionDifficulty::Medium);
    assert_eq!(d(NatType::Symmetric, NatType::SymmetricUdpWall), ConnectionDifficulty::Tough);
}

#[test]
fn nat_type_names() {
    assert_eq!(nat_type_of("NoPat"), Some(NatType::NoPAT));
    assert_eq!(nat_type_of("SymUdpFirewall"), Some(NatType::SymmetricUdpWall));
    assert_eq!(nat_type_of("SymmetricEasyDec"), Some(NatType::SymmetricEasyDecrease));
    assert_eq!(nat_type_of("NoPAT"), None);
}

#[test]
fn proto_names() {
    assert_eq!(Proto::TCP.name(), "tcp");
    assert_eq!(Proto::UDP.name(), "udp");
}

#[test]
fn socket_texts() {
    let v4 = SocketAddress { ip: IpAddress::V4 { octets: [10, 144, 144, 1] }, port: 25565 };
    assert_eq!(socket_text_of(&v4).iter().collect::<String>(), "10.144.144.1:25565");
    let any6 = SocketAddress { ip: IpAddress::V6 { segments: [0; 8] }, port: 7 };
    assert_eq!(socket_text_of(&any6).iter().collect::<String>(), "[::]:7");
    let v6 = SocketAddress { ip: IpAddress::V6 { segments: [0xff75, 0x230, 0, 0, 0, 0, 0, 0x60] }, port: 4445 };
    assert_eq!(socket_text_of(&v6).iter().collect::<String>(), "[ff75:230:0:0:0:0:0:60]:4445");
}

#[test]
fn host_command_line() {
    let room = Room::from("U/6UBB-8R71-7MAC-0000").unwrap();
    let args = host_arguments(&room, vec!["tcp://relay:1".to_string()], 13448, 25565);
    assert_eq!(
        words(&args),
        vec![
            "--network-name", "scaffolding-mc-6UBB-8R71", "--network-secret", "7MAC-0000",
            "-p", "tcp://relay:1", "--no-tun", "--compression=zstd", "--multi-thread",
            "--latency-first", "--enable-kcp-proxy", "-l", "udp://0.0.0.0:0", "-l",
            "tcp://0.0.0.0:0", "--p2p-only", "--hostname", "scaffolding-mc-server-13448",
            "--ipv4", "10.144.144.1", "--tcp-whitelist=13448", "--tcp-whitelist=25565",
            "--udp-whitelist=25565",
        ]
    );
}

#[test]
fn guest_command_line() {
    let room = Room::from("U/6UBB-8R71-7MAC-0000").unwrap();
    let args = guest_arguments(&room, fetch_public_nodes(&room));
    let w = words(&args);
    assert_eq!(w.len(), 4 + 8 + 10 + 3);
    assert_eq!(&w[22..], &["-d", "--tcp-whitelist=0", "--udp-whitelist=0"]);
    assert_eq!(compute_arguments(&room, vec![]).len(), 10);
}

#[test]
fn legacy_command_line() {
    let room = Room::from("D9BTWWDZL").unwrap();
    let args = legacy_guest_arguments(&room, 35782).unwrap();
    let w = words(&args);
    assert_eq!(w[4], "-p");
    assert_eq!(w[5], "tcp://43.139.42.188:11010");
    assert_eq!(w.len(), 4 + 22 + 5 + 1 + 2);
    assert_eq!(w[w.len() - 2], "--port-forward=tcp://[::]:35782/10.114.51.41:1234");
    assert_eq!(w[w.len() - 1], "--port-forward=tcp://0.0.0.0:35782/10.114.51.41:1234");
    let exp = Room::from("U/6UBB-8R71-7MAC-0000").unwrap();
    assert!(legacy_guest_arguments(&exp, 35782).is_none());
}

#[test]
fn public_nodes() {
    let room = Room::from("U/6UBB-8R71-7MAC-0000").unwrap();
    let nodes = fetch_public_nodes(&room);
    assert_eq!(nodes.len(), 4);
    assert_eq!(nodes[0], "tcp://public.easytier.top:11010");
    assert_eq!(nodes[3], "https://etnode.zkitefly.eu.org/node2");
}

#[test]
fn host_names_announce_ports() {
    assert_eq!(scaffolding_host_name(13448), "scaffolding-mc-server-13448");
    assert_eq!(announced_port_of(&"scaffolding-mc-server-13448".to_string()), Some(13448));
    assert_eq!(announced_port_of(&"scaffolding-mc-server-+80".to_string()), Some(80));
    assert_eq!(announced_port_of(&"scaffolding-mc-server-65536".to_string()), None);
    assert_eq!(announced_port_of(&"scaffolding-mc-server-".to_string()), None);
    assert_eq!(announced_port_of(&"scaffolding-mc-server-1a".to_string()), None);
    assert_eq!(announced_port_of(&"other-13448".to_string()), None);
}

#[test]
fn first_announcing_peer_wins() {
    let peer = |name: &str, ip: Option<[u8; 4]>| EasyTierMember {
        hostname: name.to_string(),
        address: ip,
        is_local: false,
        nat: NatType::Unknown,
    };
    let peers = vec![
        peer("laptop", Some([10, 144, 144, 2])),
        peer("scaffolding-mc-server-x", Some([10, 144, 144, 3])),
        peer("scaffolding-mc-server-1000", None),
        peer("scaffolding-mc-server-13448", Some([10, 144, 144, 1])),
        peer("scaffolding-mc-server-2000", Some([10, 144, 144, 9])),
    ];
    assert_eq!(find_scaffolding_server(&peers), Some(([10, 144, 144, 1], 13448)));
    assert_eq!(find_scaffolding_server(&vec![]), None);
}

#[test]
fn four_game_forwards() {
    let f = game_forwards(35782, [10, 144, 144, 1], 25565);
    let texts: Vec<String> = f
        .iter()
        .map(|x| {
            format!(
                "{}://{}/{}",
                x.proto.name(),
                socket_text_of(&x.local).iter().collect::<String>(),
                socket_text_of(&x.remote).iter().collect::<String>()
            )
        })
        .collect();
    assert_eq!(
        texts,
        vec![
            "tcp://0.0.0.0:35782/10.144.144.1:25565",
            "udp://0.0.0.0:35782/10.144.144.1:25565",
            "tcp://[::]:35782/10.144.144.1:25565",
            "udp://[::]:35782/10.144.144.1:25565",
        ]
    );
}

#[test]
fn beacon_is_read() {
    let data = "[MOTD]§6§l陶瓦§[/MOTD][AD]25565[/AD]".as_bytes().to_vec();
    let excluded = "§6§lTerracotta".as_bytes().to_vec();
    assert_eq!(parse_beacon(&data, &excluded), Some(25565));
    let own = "[MOTD]§6§lTerracotta[/MOTD][AD]25565[/AD]".as_bytes().to_vec();
    assert_eq!(parse_beacon(&own, &excluded), None);
    assert_eq!(parse_beacon(&b"[MOTD][/MOTD][AD]25565[/AD]".to_vec(), &excluded), None);
    assert_eq!(parse_beacon(&b"[MOTD]x[/MOTD][AD]99999[/AD]".to_vec(), &excluded), None);
    assert_eq!(parse_beacon(&b"[MOTD]x[/MOTD]".to_vec(), &excluded), None);
}

#[test]
fn beacon_text() {
    assert_eq!(beacon_message("Hi", 35782), "[MOTD]Hi[/MOTD][AD]35782[/AD]");
    let back = parse_beacon(&beacon_message("Hi", 35782).into_bytes(), &vec![]);
    assert_eq!(back, Some(35782));
}

#[test]
fn servers_expire_after_five_seconds() {
    let mut servers: Vec<(u16, u64)> = vec![];
    assert!(record_server(&mut servers, 25565, 0));
    assert!(record_server(&mut servers, 25566, 1000));
    assert!(!record_server(&mut servers, 25565, 2000));
    assert_eq!(server_ports(&servers), vec![25566, 25565]);
    assert!(!expire_servers(&mut servers, 5999));
    assert!(expire_servers(&mut servers, 6000));
    assert_eq!(server_ports(&servers), vec![25565]);
    assert!(expire_servers(&mut servers, 7000));
    assert!(server_ports(&servers).is_empty());
}

#[test]
fn port_fallbacks() {
    assert_eq!(PortRequest::EasyTierRPC.fallback(), 35780);
    assert_eq!(PortRequest::Scaffolding.fallback(), 35781);
    assert_eq!(PortRequest::Minecraft.resolve(None), 35782);
    assert_eq!(PortRequest::Minecraft.resolve(Some(40000)), 40000);
}

#[test]
fn machine_id_text() {
    let bytes: Vec<u8> = (0u8..16).map(|i| i * 17).collect();
    assert_eq!(machine_id_of(&bytes), "00112233445566778899aabbccddeeff");
    assert!(machine_id_invalid(17));
    assert!(!machine_id_invalid(16));
}

#[test]
fn addresses_ordered_highest_first() {
    let v4 = |a: u8, b: u8, c: u8, d: u8| IpAddress::V4 { octets: [a, b, c, d] };
    let v6 = |g: [u16; 8]| IpAddress::V6 { segments: g };
    let found = vec![
        v4(192, 168, 1, 7),
        v4(127, 0, 0, 1),
        v4(10, 144, 144, 1),
        v6([0xfe80, 0, 0, 0, 0, 0, 0, 1]),
        v6([0, 0, 0, 0, 0, 0, 0, 1]),
        v4(10, 0, 0, 2),
    ];
    let ordered: Vec<String> = terracotta::overlay::order_addresses(&found)
        .iter()
        .map(|a| format!("{:?}", a))
        .collect();
    let expected: Vec<String> = [
        v6([0xfe80, 0, 0, 0, 0, 0, 0, 1]),
        v6([0; 8]),
        v4(192, 168, 1, 7),
        v4(10, 0, 0, 2),
        v4(0, 0, 0, 0),
    ]
    .iter()
    .map(|a| format!("{:?}", a))
    .collect();
    assert_eq!(ordered, expected);
}

#[test]
fn listed_ports_stay_distinct() {
    let mut servers: Vec<(u16, u64)> = vec![];
    for (port, t) in [(1u16, 0u64), (2, 10), (1, 20), (2, 30), (1, 40)] {
        record_server(&mut servers, port, t);
    }
    assert_eq!(server_ports(&servers), vec![2, 1]);
}
