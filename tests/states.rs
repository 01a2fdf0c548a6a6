use terracotta::api::{room_for_code, set_guesting, set_scanning, set_waiting};
use terracotta::profile::{make_profile, Profile, ProfileKind, ProfileSnapshot};
use terracotta::room::Room;
use terracotta::roster::ListedProfile;
use terracotta::states::{AppState, AppStateContainer, ExceptionType, HandlerError};

type Cell = AppStateContainer<u8, u8, u8>;

fn profile(id: &str, name: &str, kind: ProfileKind) -> Profile {
    ProfileSnapshot {
        machine_id: id.to_string(),
        name: name.to_string(),
        vendor: "Terracotta".to_string(),
        kind,
    }
    .into_profile()
}

fn listed(id: &str, name: &str, kind: &str) -> ListedProfile {
    ListedProfile {
        machine_id: id.to_string(),
        name: name.to_string(),
        vendor: "Terracotta".to_string(),
        kind: kind.to_string(),
    }
}

fn room() -> Room {
    Room::from("U/6UBB-8R71-7MAC-0000").unwrap()
}

fn host_ok() -> (Cell, terracotta::states::AppStateCapture) {
    let mut cell: Cell = AppStateContainer::new();
    let cap = set_scanning(&mut cell, 1).unwrap();
    let cap = cell.host_scan_found(&cap, 25565, room()).unwrap();
    let cap = cell.host_started(&cap, 2, profile("host", "Host", ProfileKind::HOST), 0).unwrap();
    (cell, cap)
}

fn guest_ok() -> (Cell, terracotta::states::AppStateCapture) {
    let mut cell: Cell = AppStateContainer::new();
    let cap = set_guesting(&mut cell, room()).unwrap();
    let cap = cell.guest_started(&cap, 2).unwrap();
    let cap = cell.guest_ok(&cap, 3, Some(profile("me", "Me", ProfileKind::LOCAL))).unwrap();
    (cell, cap)
}

fn guest_names(cell: &Cell) -> Vec<(String, String, ProfileKind)> {
    match cell.as_ref() {
        AppState::GuestOk { profiles, .. } => profiles
            .iter()
            .map(|p| (p.get_machine_id().to_string(), p.get_name().to_string(), *p.get_kind()))
            .collect(),
        _ => panic!("not connected"),
    }
}

#[test]
fn set_waiting_twice_counts_once() {
    let mut cell: Cell = AppStateContainer::new();
    set_scanning(&mut cell, 1).unwrap();
    assert_eq!(cell.index(), (1, 0));
    assert!(set_waiting(&mut cell));
    assert_eq!(cell.index(), (2, 0));
    assert!(!set_waiting(&mut cell));
    assert_eq!(cell.index(), (2, 0));
    assert!(matches!(cell.as_ref(), AppState::Waiting));
}

#[test]
fn set_scanning_only_from_waiting() {
    let mut cell: Cell = AppStateContainer::new();
    assert!(set_scanning(&mut cell, 1).is_some());
    assert!(set_scanning(&mut cell, 1).is_none());
    assert!(set_guesting(&mut cell, room()).is_none());
    assert_eq!(cell.index(), (1, 0));
}

#[test]
fn captures_survive_shared_changes_only() {
    let mut cell: Cell = AppStateContainer::new();
    let cap = set_scanning(&mut cell, 1).unwrap();
    assert_eq!(cap.index(), 1);
    assert!(cap.try_capture(&cell));
    cell.increase_shared();
    cell.increase_shared();
    assert_eq!(cell.index(), (3, 2));
    assert!(cap.can_capture(&cell));
    let next = cell.increase();
    assert_eq!(cell.index(), (4, 0));
    assert!(!cap.try_capture(&cell));
    assert!(next.try_capture(&cell));
}

#[test]
fn stale_capture_changes_nothing() {
    let mut cell: Cell = AppStateContainer::new();
    let cap = set_scanning(&mut cell, 1).unwrap();
    set_waiting(&mut cell);
    assert!(!cell.raise(&cap, ExceptionType::PingHostFail));
    assert!(cell.host_scan_found(&cap, 25565, room()).is_none());
    assert!(matches!(cell.as_ref(), AppState::Waiting));
    assert_eq!(cell.index(), (2, 0));
}

#[test]
fn host_reaches_ok_with_its_profile() {
    let (cell, _) = host_ok();
    assert_eq!(cell.index(), (3, 0));
    assert_eq!(cell.server_port(), Some(25565));
    let profiles = cell.host_profiles().unwrap();
    assert_eq!(profiles.len(), 1);
    assert_eq!(*profiles[0].1.get_kind(), ProfileKind::HOST);
}

#[test]
fn player_ping_adds_renames_and_refuses_host() {
    let (mut cell, cap) = host_ok();
    assert_eq!(cell.host_player_ping("aa".into(), "Alice".into(), "v".into(), 1000), Ok(()));
    assert_eq!(cell.index(), (4, 1));
    assert_eq!(cell.host_player_ping("aa".into(), "Alice".into(), "v".into(), 2000), Ok(()));
    assert_eq!(cell.index(), (4, 1));
    assert_eq!(cell.host_player_ping("aa".into(), "Alicia".into(), "v".into(), 3000), Ok(()));
    assert_eq!(cell.index(), (5, 2));
    assert_eq!(
        cell.host_player_ping("host".into(), "Mallory".into(), "v".into(), 3000),
        Err(HandlerError::HostConflict)
    );
    let profiles = cell.host_profiles().unwrap();
    assert_eq!(profiles.len(), 2);
    assert_eq!(profiles[1].0, 3000);
    assert_eq!(profiles[1].1.get_name(), "Alicia");
    assert_eq!(*profiles[1].1.get_kind(), ProfileKind::GUEST);
    assert!(cap.try_capture(&cell));
}

#[test]
fn player_ping_needs_host_ok() {
    let mut cell: Cell = AppStateContainer::new();
    assert_eq!(
        cell.host_player_ping("aa".into(), "Alice".into(), "v".into(), 0),
        Err(HandlerError::NotHostOk)
    );
    assert_eq!(cell.index(), (0, 0));
}

#[test]
fn silent_guest_expires_after_ten_seconds() {
    let (mut cell, cap) = host_ok();
    cell.host_player_ping("aaaaaaaaaaaaaaaaaaaaaaaaaaaaaaaa".into(), "A".into(), "v".into(), 0)
        .unwrap();
    let (index, sharing) = cell.index();
    assert!(cell.host_tick(&cap, true, 9999));
    assert_eq!(cell.index(), (index, sharing));
    assert!(cell.host_tick(&cap, true, 10000));
    let (index2, sharing2) = cell.index();
    assert!(index2 > index);
    assert_eq!(index2 - sharing2 as u64, index - sharing as u64);
    assert_eq!(cell.host_profiles().unwrap().len(), 1);
    assert!(cap.try_capture(&cell));
}

#[test]
fn host_tick_reports_dead_overlay() {
    let (mut cell, cap) = host_ok();
    assert!(!cell.host_tick(&cap, false, 0));
    match cell.as_ref() {
        AppState::Exception { kind } => {
            assert_eq!(*kind, ExceptionType::HostEasytierCrash);
            assert_eq!(kind.code(), 3);
        }
        _ => panic!("expected an exception"),
    }
    assert!(!cap.try_capture(&cell));
}

#[test]
fn exception_codes() {
    let kinds = [
        ExceptionType::PingHostFail,
        ExceptionType::PingHostRst,
        ExceptionType::GuestEasytierCrash,
        ExceptionType::HostEasytierCrash,
        ExceptionType::PingServerRst,
        ExceptionType::ScaffoldingInvalidResponse,
    ];
    for (i, k) in kinds.iter().enumerate() {
        assert_eq!(k.code() as usize, i);
    }
}

#[test]
fn guest_takes_host_list() {
    let (mut cell, cap) = guest_ok();
    let items = vec![
        listed("host", "Host", "HOST"),
        listed("me", "Me on host", "GUEST"),
        listed("bb", "Bob", "GUEST"),
    ];
    let (index, sharing) = cell.index();
    assert!(cell.guest_sync(&cap, &items, true));
    assert_eq!(cell.index(), (index + 1, sharing + 1));
    assert_eq!(
        guest_names(&cell),
        vec![
            ("me".to_string(), "Me".to_string(), ProfileKind::LOCAL),
            ("host".to_string(), "Host".to_string(), ProfileKind::HOST),
            ("bb".to_string(), "Bob".to_string(), ProfileKind::GUEST),
        ]
    );
    let items = vec![listed("host", "Host 2", "HOST"), listed("me", "Me", "GUEST")];
    assert!(cell.guest_sync(&cap, &items, true));
    assert_eq!(
        guest_names(&cell),
        vec![
            ("me".to_string(), "Me".to_string(), ProfileKind::LOCAL),
            ("host".to_string(), "Host 2".to_string(), ProfileKind::HOST),
        ]
    );
    let before = cell.index();
    assert!(cell.guest_sync(&cap, &items, true));
    assert_eq!(cell.index(), before);
    assert!(cap.try_capture(&cell));
}

#[test]
fn guest_refuses_list_without_host() {
    let (mut cell, cap) = guest_ok();
    let items = vec![listed("bb", "Bob", "GUEST")];
    assert!(!cell.guest_sync(&cap, &items, true));
    assert!(matches!(
        cell.as_ref(),
        AppState::Exception { kind: ExceptionType::ScaffoldingInvalidResponse }
    ));
}

#[test]
fn guest_refuses_malformed_lists() {
    let malformed = vec![
        vec![],
        vec![listed("h1", "A", "HOST"), listed("h2", "B", "HOST")],
        vec![listed("h1", "A", "HOST"), listed("x", "X", "ADMIN")],
        vec![listed("h1", "A", "HOST"), listed("me", "Me", "GUEST"), listed("me", "Me", "GUEST")],
    ];
    for items in malformed {
        let (mut cell, cap) = guest_ok();
        assert!(!cell.guest_sync(&cap, &items, true));
        assert!(matches!(
            cell.as_ref(),
            AppState::Exception { kind: ExceptionType::ScaffoldingInvalidResponse }
        ));
    }
}

#[test]
fn guest_reports_changed_host() {
    let (mut cell, cap) = guest_ok();
    assert!(cell.guest_sync(&cap, &vec![listed("host", "Host", "HOST")], true));
    let items = vec![listed("other", "Other", "HOST"), listed("host", "Host", "GUEST")];
    assert!(!cell.guest_sync(&cap, &items, true));
    assert!(matches!(
        cell.as_ref(),
        AppState::Exception { kind: ExceptionType::ScaffoldingInvalidResponse }
    ));
}

#[test]
fn guest_reports_dead_overlay() {
    let (mut cell, cap) = guest_ok();
    assert!(!cell.guest_sync(&cap, &vec![listed("host", "Host", "HOST")], false));
    assert!(matches!(
        cell.as_ref(),
        AppState::Exception { kind: ExceptionType::GuestEasytierCrash }
    ));
}

#[test]
fn guest_refuses_duplicate_ids() {
    let (mut cell, cap) = guest_ok();
    let items = vec![listed("host", "Host", "HOST"), listed("bb", "B", "GUEST"), listed("bb", "C", "GUEST")];
    assert!(!cell.guest_sync(&cap, &items, true));
    assert!(matches!(
        cell.as_ref(),
        AppState::Exception { kind: ExceptionType::ScaffoldingInvalidResponse }
    ));
}

#[test]
fn room_for_code_answers_bad_input() {
    assert!(room_for_code("hello").is_none());
    assert!(room_for_code("U/6UBB-8R71-7MAC-0000").is_some());
}

#[test]
fn profile_accessors() {
    let mut p = make_profile("id".into(), "Name".into(), "Vendor".into(), ProfileKind::GUEST);
    assert_eq!(p.get_machine_id(), "id");
    assert_eq!(p.get_name(), "Name");
    assert_eq!(p.get_vendor(), "Vendor");
    assert_eq!(*p.get_kind(), ProfileKind::GUEST);
    p.set_name("Other".into());
    let snap = p.as_snapshot();
    assert_eq!(snap.name, "Other");
    assert_eq!(snap.machine_id, "id");
    let back = snap.into_profile();
    assert_eq!(back.get_name(), "Other");
}

#[test]
fn own_profiles_default_names() {
    let host = terracotta::profile::own_profile("id".into(), None, "v".into(), true);
    assert_eq!(host.get_name(), "Terracotta Anonymous Host");
    assert_eq!(*host.get_kind(), ProfileKind::HOST);
    let guest = terracotta::profile::own_profile("id".into(), None, "v".into(), false);
    assert_eq!(guest.get_name(), "Terracotta Anonymous Guest");
    assert_eq!(*guest.get_kind(), ProfileKind::LOCAL);
    let named = terracotta::profile::own_profile("id".into(), Some("Steve".into()), "v".into(), false);
    assert_eq!(named.get_name(), "Steve");
    assert_eq!(named.get_machine_id(), "id");
    assert_eq!(named.get_vendor(), "v");
}
