use curve_fever::names::check_name;
use curve_fever::registry::{next_room_name, parse_room_code, RoomRegistry};

#[test]
fn parse_room_code_values() {
    assert_eq!(parse_room_code("AAAAAAA"), Some(0));
    assert_eq!(parse_room_code("AAAAAAB"), Some(1));
    assert_eq!(parse_room_code("AAAAAAa"), Some(26));
    assert_eq!(parse_room_code("AAAAAA0"), Some(52));
    assert_eq!(parse_room_code("AAAAABA"), Some(62));
    assert_eq!(parse_room_code("9999999"), Some(3_521_614_606_207));
}

#[test]
fn parse_room_code_rejects() {
    assert_eq!(parse_room_code(""), None);
    assert_eq!(parse_room_code("AAAAAA"), None);
    assert_eq!(parse_room_code("AAAAAAAA"), None);
    assert_eq!(parse_room_code("AAA-AAA"), None);
    assert_eq!(parse_room_code("AAAAAAé"), None);
}

#[test]
fn next_room_name_reserves_free_code() {
    let mut rooms: RoomRegistry<u32> = RoomRegistry::new();
    let a = next_room_name(&mut rooms, 7).unwrap();
    let b = next_room_name(&mut rooms, 8).unwrap();
    assert_eq!(a.chars().count(), 7);
    assert!(a.chars().all(|c| c.is_ascii_alphanumeric()));
    assert_ne!(a, b);
    assert_eq!(rooms.len(), 2);
    assert_eq!(rooms.get(&a), Some(&7));
    assert_eq!(rooms.get(&b), Some(&8));
    assert_eq!(rooms.remove(&a), Some(7));
    assert_eq!(rooms.get(&a), None);
    assert_eq!(rooms.len(), 1);
}

#[test]
fn unknown_codes_are_not_found() {
    let mut rooms: RoomRegistry<u32> = RoomRegistry::new();
    assert_eq!(rooms.get("AAAAAAA"), None);
    assert_eq!(rooms.get("nope"), None);
    assert_eq!(rooms.remove("nope"), None);
}

#[test]
fn check_name_rules() {
    assert!(check_name("", 20));
    assert!(check_name("ann", 20));
    assert!(!check_name("a<b", 20));
    assert!(!check_name("a>b", 20));
    assert!(!check_name("abcdefgh", 7));
    assert!(check_name("abcdefg", 7));
}

#[test]
fn claim_installs_free_codes_only() {
    let mut rooms: RoomRegistry<u32> = RoomRegistry::new();
    assert_eq!(rooms.claim("AAAAAAB", 5), Ok(1));
    assert_eq!(rooms.claim("AAAAAAB", 6), Err(6));
    assert_eq!(rooms.claim("bad", 7), Err(7));
    assert_eq!(rooms.get("AAAAAAB"), Some(&5));
    assert_eq!(rooms.len(), 1);
}
