use terracotta::experimental::{create_room_with, room_of_seed};
use terracotta::room::{Room, RoomKind};
use terracotta::{legacy, pcl2ce};

const ALPHABET: &str = "0123456789ABCDEFGHJKLMNPQRSTUVWXYZ";

fn is_experimental_code(code: &str) -> bool {
    let chars: Vec<char> = code.chars().collect();
    if chars.len() != 21 || chars[0] != 'U' || chars[1] != '/' {
        return false;
    }
    for (i, c) in chars[2..].iter().enumerate() {
        if i % 5 == 4 {
            if *c != '-' {
                return false;
            }
        } else if !ALPHABET.contains(*c) {
            return false;
        }
    }
    true
}

#[test]
fn legacy_parse_valid_code() {
    let room = legacy::parse("ABCDE-FGHJK-LMNPQ-01234-5678K").unwrap();
    assert_eq!(room.code, "ABCDE-FGHJK-LMNPQ-01234-5678K");
    assert_eq!(room.network_name, "terracotta-mc-abcdefghjklmnpq");
    assert_eq!(room.network_secret, "012345678k");
    assert_eq!(room.kind, RoomKind::TerracottaLegacy { mc_port: 59608 });
}

#[test]
fn legacy_parse_rejects_bad_checksum() {
    assert!(legacy::parse("ABCDE-FGHJK-LMNPQ-01234-56789").is_none());
}

#[test]
fn legacy_parse_is_case_blind_and_aliases() {
    let room = legacy::parse("join me: abcde-fghjk-lmnpq-oi234-5678k please").unwrap();
    assert_eq!(room.code, "ABCDE-FGHJK-LMNPQ-01234-5678K");
    assert_eq!(room.network_secret, "012345678k");
}

#[test]
fn legacy_parse_needs_hyphens() {
    assert!(legacy::parse("ABCDE FGHJK-LMNPQ-01234-5678K").is_none());
    assert!(legacy::parse("ABCDE-FGHJK").is_none());
}

#[test]
fn experimental_code_of_seed() {
    let room = room_of_seed(864197523086419746);
    assert_eq!(room.code, "U/6UBB-8R71-7MAC-0000");
    assert_eq!(room.network_name, "scaffolding-mc-6UBB-8R71");
    assert_eq!(room.network_secret, "7MAC-0000");
    assert_eq!(room.kind, RoomKind::Experimental { seed: 864197523086419746 });
}

#[test]
fn experimental_parse_round_trip() {
    let room = Room::from("see u/6ubb-8r71-7mac-oooo here").unwrap();
    assert_eq!(room.code, "U/6UBB-8R71-7MAC-0000");
    assert_eq!(room.kind, RoomKind::Experimental { seed: 864197523086419746 });
}

#[test]
fn experimental_rejects_seed_not_multiple_of_seven() {
    // Raising the least significant digit by one gives a seed one above a multiple of 7.
    let room = room_of_seed(864197523086419746);
    let mut code = room.code.clone();
    code.replace_range(2..3, "7");
    assert!(terracotta::experimental::parse(&code).is_none());
}

#[test]
fn create_room_with_reduces_bits() {
    let room = create_room_with(u128::MAX);
    assert_eq!(room.kind, RoomKind::Experimental { seed: 1181647830643696873242618 });
    let seed = 1181647830643696873242618u128;
    assert_eq!(seed % 7, 0);
    assert!(is_experimental_code(&room.code));
}

#[test]
fn minted_rooms_round_trip() {
    for _ in 0..1000 {
        let room = Room::create().unwrap();
        let RoomKind::Experimental { seed } = room.kind else {
            panic!("minted room is not experimental");
        };
        assert_eq!(seed % 7, 0);
        assert!(is_experimental_code(&room.code), "{}", room.code);
        let back = Room::from(&room.code).unwrap();
        assert_eq!(back.kind, RoomKind::Experimental { seed });
        assert_eq!(back.code, room.code);
    }
}

#[test]
fn pcl2ce_fourteen_digits() {
    let room = pcl2ce::parse("d9btwwdzl").unwrap();
    assert_eq!(room.code, "D9BTWWDZL");
    assert_eq!(room.network_name, "PCLCELobby12345678");
    assert_eq!(room.network_secret, "PCLCEETLOBBY202590");
    assert_eq!(room.kind, RoomKind::PCL2CE { mc_port: 1234 });
}

#[test]
fn pcl2ce_fifteen_digits() {
    let room = pcl2ce::parse("5JB452XDTZ").unwrap();
    assert_eq!(room.network_name, "PCLCELobby12345678");
    assert_eq!(room.network_secret, "PCLCEETLOBBY202590");
    assert_eq!(room.kind, RoomKind::PCL2CE { mc_port: 65535 });
}

#[test]
fn pcl2ce_rejects_port_too_large() {
    assert!(pcl2ce::parse("5JB452XDU2").is_none());
}

#[test]
fn pcl2ce_rejects_other_lengths() {
    assert!(pcl2ce::parse("35XSZQ38D").is_none());
    assert!(pcl2ce::parse("D9BTWWDZL22").is_none());
    assert!(pcl2ce::parse("D9BTWWDZ1").is_none());
    assert!(pcl2ce::parse("").is_none());
}

#[test]
fn room_from_tries_dialects_in_order() {
    let legacy = Room::from("ABCDE-FGHJK-LMNPQ-01234-5678K").unwrap();
    assert_eq!(legacy.kind, RoomKind::TerracottaLegacy { mc_port: 59608 });
    let third = Room::from("D9BTWWDZL").unwrap();
    assert_eq!(third.kind, RoomKind::PCL2CE { mc_port: 1234 });
    assert!(Room::from("not a room code").is_none());
}

#[test]
fn parsed_codes_are_canonical() {
    for input in [
        "abcde-fghjk-lmnpq-oi234-5678k",
        "u/6ubb-8r71-7mac-oooo",
        "d9btwwdzl",
    ] {
        let room = Room::from(input).unwrap();
        let again = Room::from(&room.code).unwrap();
        assert_eq!(again.code, room.code);
        assert_eq!(again.kind, room.kind);
        assert_eq!(again.network_name, room.network_name);
        assert_eq!(again.network_secret, room.network_secret);
    }
}

#[test]
fn legacy_mint_exact() {
    let room = legacy::create_legacy_with(0x0123456789abcdef0123456789abcdef, 25565);
    assert_eq!(room.code, "TK55E-R4AH7-AH3PB-TZVLF-X531M");
    assert_eq!(room.network_name, "terracotta-mc-tk55er4ah7ah3pb");
    assert_eq!(room.network_secret, "tzvlfx531m");
    assert_eq!(room.kind, RoomKind::TerracottaLegacy { mc_port: 25565 });
}

#[test]
fn legacy_mint_round_trip() {
    for port in [0u16, 1, 25565, 65535] {
        let room = legacy::create_legacy(port).unwrap();
        assert_eq!(room.kind, RoomKind::TerracottaLegacy { mc_port: port });
        let back = legacy::parse(&room.code).unwrap();
        assert_eq!(back.code, room.code);
        assert_eq!(back.kind, room.kind);
        assert_eq!(back.network_name, room.network_name);
    }
}

#[test]
fn legacy_segment_window() {
    let chars: Vec<char> = "xxABCDE-FGHJK-LMNPQ-01234-5678Kyy".chars().collect();
    assert!(legacy::parse_segment(&chars, 2).is_some());
    assert!(legacy::parse_segment(&chars, 1).is_none());
    assert!(legacy::parse_segment(&chars, 3).is_none());
}
