use souls_client::client::ApiPostRequest;
use souls_client::game::FromGame;
use souls_client::names::picks::{plan_pick, Pick};
use souls_client::names::templates::NameTemplates;
use souls_client::names::{
    NameApiRequest, NameClaim, NameClient, NameClientState, NameCommand, NameMode, SPAWN_NAME_ID,
};

fn claim(name: &str, amount: u32) -> NameClaim {
    NameClaim::new(name.to_string(), amount)
}

fn claims(list: &[(&str, u32)]) -> NameApiRequest {
    NameApiRequest {
        claims: Some(list.iter().map(|(n, a)| claim(n, *a)).collect()),
        names: None,
    }
}

fn commands(list: Vec<NameCommand>) -> NameApiRequest {
    NameApiRequest { claims: None, names: Some(list) }
}

fn mode(mode: NameMode) -> NameApiRequest {
    commands(vec![NameCommand::SetNameMode { mode }])
}

fn client(game: FromGame) -> NameClient {
    NameClient::new(game, NameTemplates::default())
}

fn shown(client: &mut NameClient, entity_id: u32, msg_id: i32) -> Option<(String, Option<String>)> {
    assert!(client.can_claim_name(entity_id, msg_id));
    client
        .claim_name(entity_id, msg_id)
        .map(|s| (s.name, s.post.map(|c| c.name)))
}

#[test]
fn new_claims_are_usable_and_posted_to_claims() {
    let c = claim("Ranni", 500);
    assert_eq!((c.name.as_str(), c.amount, c.ignore, c.claimed), ("Ranni", 500, false, false));
    assert!(c.is_usable());
    assert!(!claim("Ranni", 0).is_usable());
    let ignored = NameClaim { ignore: true, ..claim("Ranni", 500) };
    assert!(!ignored.is_usable());
    assert_eq!(c.url(), "/api/claims");
}

#[test]
fn top_claim_is_used_up_and_reported() {
    let mut c = client(FromGame::DS3);
    c.handle_message(&mode(NameMode::Cache));
    c.handle_message(&claims(&[("low", 100), ("high", 900), ("middle", 500)]));
    assert_eq!(
        shown(&mut c, 4000800, 904000),
        Some(("high".to_string(), Some("high".to_string())))
    );
    assert_eq!(c.state.name_claims[1].amount, 0);
    assert!(c.state.name_claims[1].claimed);
    assert_eq!(
        shown(&mut c, 4000801, 904001),
        Some(("middle".to_string(), Some("middle".to_string())))
    );
}

#[test]
fn equal_top_claims_go_to_the_last() {
    let mut c = client(FromGame::SDT);
    c.handle_message(&mode(NameMode::Fresh));
    c.handle_message(&claims(&[("first", 100), ("last", 100)]));
    assert_eq!(shown(&mut c, 1, 7).unwrap().0, "last");
}

#[test]
fn shown_names_are_remembered() {
    let mut c = client(FromGame::DS3);
    c.handle_message(&mode(NameMode::Cache));
    c.handle_message(&claims(&[("a", 2), ("b", 1)]));
    assert_eq!(shown(&mut c, 5, 904000), Some(("a".to_string(), Some("a".to_string()))));
    assert_eq!(shown(&mut c, 5, 904000), Some(("a".to_string(), None)));
    assert_eq!(shown(&mut c, 0, 904001), None);
}

#[test]
fn bosses_are_found_by_message() {
    let mut c = client(FromGame::DS3);
    c.handle_message(&mode(NameMode::Cache));
    c.handle_message(&claims(&[("a", 2), ("b", 1)]));
    c.set_msg_boss(77, 904000);
    assert_eq!(shown(&mut c, 0, 904000).unwrap().0, "a");
    c.set_msg_boss(77, 904000);
    assert_eq!(shown(&mut c, 0, 904000), Some(("a".to_string(), None)));
}

#[test]
fn fresh_mode_asks_for_a_new_name_each_time() {
    let mut c = client(FromGame::DS3);
    c.handle_message(&mode(NameMode::Fresh));
    c.handle_message(&claims(&[("a", 2), ("b", 1)]));
    c.set_msg_boss(77, 904000);
    assert_eq!(shown(&mut c, 0, 904000).unwrap().0, "a");
    c.set_msg_boss(77, 904000);
    assert_eq!(shown(&mut c, 0, 904000).unwrap().0, "b");
    c.set_msg_boss(77, 904000);
    assert_eq!(shown(&mut c, 0, 904000), None);
}

#[test]
fn mode_off_shows_only_spawned_and_remembered_names() {
    let mut c = client(FromGame::DS3);
    c.handle_message(&claims(&[("a", 2)]));
    assert_eq!(shown(&mut c, 5, 904000), None);
    assert_eq!(c.state.name_claims[0].amount, 2);
    c.set_spawn_name(460280000, claim("spawned", 3));
    assert_eq!(
        shown(&mut c, 460280000, SPAWN_NAME_ID),
        Some(("spawned".to_string(), None))
    );
    assert_eq!(shown(&mut c, 460280001, SPAWN_NAME_ID), None);
}

#[test]
fn test_mode_numbers_its_names() {
    let mut c = client(FromGame::DS3);
    c.handle_message(&mode(NameMode::Test));
    assert_eq!(shown(&mut c, 5, -9), Some(("[5--9 #1]".to_string(), None)));
    assert_eq!(shown(&mut c, 6, 10), Some(("[6-10 #2]".to_string(), None)));
    assert_eq!(shown(&mut c, 6, 10), Some(("[6-10 #2]".to_string(), None)));
}

#[test]
fn elden_ring_names_only_bosses() {
    let mut c = client(FromGame::ER);
    c.handle_message(&mode(NameMode::Test));
    assert_eq!(shown(&mut c, 10000850, 904000).unwrap().0, "[10000850-904000 #1]");
    assert_eq!(shown(&mut c, 10000450, 904001), None);
}

#[test]
fn templates_surround_the_name() {
    let mut templates = NameTemplates::default();
    templates.er.insert(10000450, "$1 the $1".to_string());
    let mut c = NameClient::new(FromGame::ER, templates);
    c.handle_message(&mode(NameMode::Cache));
    c.handle_message(&claims(&[("Rya", 9), ("Roderika", 8)]));
    assert_eq!(shown(&mut c, 10000450, 1).unwrap().0, "Rya the Rya");
    assert_eq!(shown(&mut c, 15000800, 902120001).unwrap().0, "Roderika, Goddess of Rot");
}

#[test]
fn clearing_the_cache_keeps_spawned_names() {
    let mut c = client(FromGame::DS3);
    c.handle_message(&mode(NameMode::Cache));
    c.handle_message(&claims(&[("a", 2), ("b", 1)]));
    c.set_spawn_name(9, claim("spawned", 0));
    shown(&mut c, 5, 904000);
    c.handle_message(&commands(vec![NameCommand::ClearNameCache]));
    assert!(c.state.name_claims.is_empty());
    assert_eq!(shown(&mut c, 5, 904000), None);
    assert_eq!(shown(&mut c, 9, SPAWN_NAME_ID).unwrap().0, "spawned");
}

#[test]
fn changing_the_mode_forgets_names_unless_they_are_cached() {
    for new in [NameMode::Off, NameMode::Test, NameMode::Fresh] {
        let mut c = client(FromGame::DS3);
        c.handle_message(&mode(NameMode::Cache));
        c.handle_message(&commands(vec![NameCommand::SetTiers { tiers: vec![1] }]));
        c.handle_message(&claims(&[("a", 2)]));
        c.set_spawn_name(9, claim("spawned", 0));
        c.set_msg_boss(5, 904000);
        shown(&mut c, 0, 904000);
        c.handle_message(&mode(NameMode::Cache));
        assert_eq!(shown(&mut c, 0, 904000), Some(("a".to_string(), None)));
        c.handle_message(&mode(new));
        assert_eq!(c.state.name_mode, new);
        assert!(c.state.msg_rewrites.is_empty());
        assert_eq!(c.state.msg_to_entity_id[&904000], 5);
        assert_eq!(c.state.name_claims.len(), 1);
        assert_eq!(c.state.tiers, vec![1]);
        assert_eq!(shown(&mut c, 9, SPAWN_NAME_ID).unwrap().0, "spawned");
    }
}

#[test]
fn names_stay_where_the_new_mode_is_the_cache() {
    let mut c = client(FromGame::DS3);
    c.handle_message(&mode(NameMode::Fresh));
    c.handle_message(&claims(&[("a", 2)]));
    shown(&mut c, 5, 904000);
    c.handle_message(&mode(NameMode::Fresh));
    assert_eq!(shown(&mut c, 5, 904000), Some(("a".to_string(), None)));
    c.handle_message(&mode(NameMode::Cache));
    assert_eq!(shown(&mut c, 5, 904000), Some(("a".to_string(), None)));
}

#[test]
fn known_claims_are_refreshed() {
    let mut state = NameClientState::default();
    state.update(&claims(&[("a", 2), ("b", 1)]));
    state.name_claims[0].claimed = true;
    state.update(&NameApiRequest {
        claims: Some(vec![NameClaim { ignore: true, ..claim("a", 7) }, claim("c", 3)]),
        names: None,
    });
    let names: Vec<&str> = state.name_claims.iter().map(|c| c.name.as_str()).collect();
    assert_eq!(names, vec!["a", "b", "c"]);
    assert_eq!(state.name_claims[0].amount, 7);
    assert!(state.name_claims[0].ignore);
    assert!(!state.name_claims[0].claimed);
}

#[test]
fn commands_come_before_claims() {
    let mut state = NameClientState::default();
    state.update(&claims(&[("a", 2)]));
    state.update(&NameApiRequest {
        claims: Some(vec![claim("b", 1)]),
        names: Some(vec![NameCommand::ClearNameCache]),
    });
    assert_eq!(state.name_claims.len(), 1);
    assert_eq!(state.name_claims[0].name, "b");
}

#[test]
fn tiers_are_sorted_and_decide_the_pick() {
    let mut state = NameClientState::default();
    state.update(&commands(vec![NameCommand::SetTiers { tiers: vec![1000, 10, 100] }]));
    assert_eq!(state.tiers, vec![10, 100, 1000]);
    state.update(&claims(&[("a", 5), ("b", 50), ("c", 150), ("d", 999), ("e", 1000)]));
    assert!(matches!(plan_pick(&state.name_claims, &state.tiers), Pick::Top(4)));
    state.name_claims[4].amount = 0;
    match plan_pick(&state.name_claims, &state.tiers) {
        Pick::Draw(pool) => assert_eq!(pool, vec![2, 3]),
        _ => panic!(),
    }
    state.name_claims[2].ignore = true;
    state.name_claims[3].amount = 0;
    match plan_pick(&state.name_claims, &state.tiers) {
        Pick::Draw(pool) => assert_eq!(pool, vec![1]),
        _ => panic!(),
    }
    state.name_claims[1].amount = 0;
    assert!(matches!(plan_pick(&state.name_claims, &state.tiers), Pick::Nothing));
}

#[test]
fn draws_stay_in_the_pool_and_reach_all_of_it() {
    let mut seen = vec![0, 0];
    for _ in 0..200 {
        let mut c = client(FromGame::DS3);
        c.handle_message(&mode(NameMode::Cache));
        c.handle_message(&commands(vec![NameCommand::SetTiers { tiers: vec![10, 1000] }]));
        c.handle_message(&claims(&[("low", 9), ("a", 500), ("b", 400)]));
        match shown(&mut c, 5, 904000).unwrap().0.as_str() {
            "a" => seen[0] += 1,
            "b" => seen[1] += 1,
            other => panic!("{}", other),
        }
    }
    assert!(seen[0] > 0 && seen[1] > 0);
}

#[test]
fn a_given_draw_is_exact() {
    let mut c = client(FromGame::DS3);
    c.handle_message(&mode(NameMode::Cache));
    c.handle_message(&commands(vec![NameCommand::SetTiers { tiers: vec![10, 1000] }]));
    c.handle_message(&claims(&[("low", 9), ("a", 500), ("b", 400)]));
    let got = c.claim_name_with(5, 904000, 1).unwrap();
    assert_eq!(got.name, "b");
    let post = got.post.unwrap();
    assert_eq!((post.name.as_str(), post.amount, post.claimed), ("b", 0, true));
}

#[test]
fn weights_that_do_not_add_up_are_noticed() {
    let mut c = client(FromGame::DS3);
    c.handle_message(&mode(NameMode::Cache));
    c.handle_message(&commands(vec![NameCommand::SetTiers { tiers: vec![1, u32::MAX] }]));
    c.handle_message(&claims(&[("a", u32::MAX - 1), ("b", 2)]));
    assert!(!c.can_claim_name(5, 904000));
    assert!(c.can_claim_name(0, 904000));
    c.state.test_count = u32::MAX;
    c.handle_message(&mode(NameMode::Test));
    assert!(!c.can_claim_name(5, 904000));
    assert!(c.can_claim_name(5, SPAWN_NAME_ID));
}

#[test]
fn making_a_claim_uses_it_up() {
    let mut state = NameClientState::default();
    let templates = NameTemplates::default();
    state.update(&claims(&[("low", 100), ("high", 900)]));
    assert!(state.make_claim(4000800, 904000, FromGame::DS3, &templates).is_none());
    state.update(&mode(NameMode::Cache));
    assert!(state.can_claim(4000800, 904000, FromGame::DS3, &templates));
    let made = state.make_claim(4000800, 904000, FromGame::DS3, &templates).unwrap();
    assert_eq!((made.name.as_str(), made.update), ("high", true));
    assert_eq!((made.claim.amount, made.claim.claimed), (0, true));
    assert_eq!(state.get_healthbar_rewrite(4000800, 904000).unwrap().name, "high");
    let next = state.make_claim(4000801, 904001, FromGame::DS3, &templates).unwrap();
    assert_eq!(next.name, "low");
    assert!(state.make_claim(4000802, 904002, FromGame::DS3, &templates).is_none());
}

#[test]
fn draws_go_by_the_amounts_of_the_highest_tier() {
    let mut state = NameClientState::default();
    let templates = NameTemplates::default();
    state.update(&claims(&[("a", 20), ("b", 300), ("c", 90), ("d", 200), ("e", 5)]));
    state.update(&commands(vec![NameCommand::SetTiers { tiers: vec![1000, 100, 10] }]));
    let weights = |s: &NameClientState| s.draw_weights(4000800, 904000, FromGame::DS3, &templates);
    let draw = |s: &NameClientState| s.draw_claim(4000800, 904000, FromGame::DS3, &templates);
    assert_eq!(weights(&state), None);
    state.update(&mode(NameMode::Cache));
    assert_eq!(weights(&state), Some(vec![300, 200]));
    assert!((0..20).all(|_| draw(&state) < 2));
    assert_eq!(state.draw_weights(1, SPAWN_NAME_ID, FromGame::DS3, &templates), None);
    state.update(&claims(&[("f", 1000)]));
    assert_eq!((weights(&state), draw(&state)), (None, 0));
    state.update(&mode(NameMode::Test));
    assert_eq!(weights(&state), None);
}
