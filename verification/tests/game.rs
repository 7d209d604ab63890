use souls_client::game::{
    game_hash, get_game_hash, get_game_id, identify_game, FromGame, PlayerGameData,
    PlayerGameDataExt,
};
use std::hash::Hasher;

fn expected_hash(id: u64) -> String {
    let mut hasher = std::collections::hash_map::DefaultHasher::new();
    hasher.write_u32(0x2B0708A2);
    hasher.write_u64(id);
    format!("{:04x}", hasher.finish() & 0xFFFF)
}

#[test]
fn hash_matches_hasher_calls() {
    for id in [0u64, 1, 2, 255, 76561198000000000, u64::MAX] {
        assert_eq!(game_hash(id), expected_hash(id));
    }
}

#[test]
fn random_hash_is_four_lower_hex_digits() {
    for _ in 0..20 {
        let hash = get_game_hash();
        assert_eq!(hash.len(), 4);
        assert!(hash.chars().all(|c| c.is_ascii_digit() || ('a'..='f').contains(&c)));
    }
}

#[test]
fn random_ids_differ() {
    let first = get_game_id();
    assert!((0..20).any(|_| get_game_id() != first));
}

#[test]
fn games_are_identified_by_product_and_version() {
    assert_eq!(identify_game("DARK SOULS: REMASTERED", "1.0.0.0"), Some(FromGame::DS1R));
    assert_eq!(identify_game("DARK SOULS™ III", "1.15.2.0"), Some(FromGame::DS3));
    assert_eq!(identify_game("Sekiro™: Shadows Die Twice", "1.6.0.0"), Some(FromGame::SDT));
    assert_eq!(identify_game("ELDEN RING™", "2.6.2.0"), Some(FromGame::ER));
}

#[test]
fn other_versions_and_products_are_unknown() {
    assert_eq!(identify_game("ELDEN RING™", "2.6.1.0"), None);
    assert_eq!(identify_game("ELDEN RING", "2.6.2.0"), None);
    assert_eq!(identify_game("DARK SOULS™ III", "1.0.0.0"), None);
    assert_eq!(identify_game("", ""), None);
}

#[test]
fn character_name_ends_at_the_first_zero() {
    let mut units: Vec<u16> = "Tarnished".encode_utf16().collect();
    units.push(0);
    units.push(88);
    let data = PlayerGameData { character_name: units };
    assert_eq!(data.character_name(), "Tarnished");
}

#[test]
fn character_name_may_fill_its_field() {
    let data = PlayerGameData { character_name: "𝄞 ありがとう".encode_utf16().collect() };
    assert_eq!(data.character_name(), "𝄞 ありがとう");
    let empty = PlayerGameData { character_name: vec![0, 65] };
    assert_eq!(empty.character_name(), "");
}
