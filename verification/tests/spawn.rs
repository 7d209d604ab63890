use souls_client::names::NameClaim;
use souls_client::spawn::job::{SpawnCounters, SpawnJob};
use souls_client::spawn::mob::{
    buddy_spawn, check_spawn, choose_index, chr_set_index, find_arena, generate_field_ins_handle,
    position_hash, spawn_mob, DebugSpawner,
};
use souls_client::spawn::{EnemyInit, EnemySpawn, EnemySpawner, SpawnRequest};
use std::collections::HashSet;
use std::hash::Hasher;

fn enemy(model: &str, index: Option<u32>) -> EnemySpawn {
    EnemySpawn {
        entity_id: None,
        model: model.to_string(),
        npc_param: 1,
        npc_think_param: 2,
        chara_init_param: None,
        mount: false,
        index,
    }
}

fn request() -> SpawnRequest {
    SpawnRequest {
        name: None,
        spawn: None,
        enemies: None,
        inits: None,
        claim: None,
        sequential: false,
    }
}

#[test]
fn requests_take_one_form() {
    let spawner = EnemySpawner::new(true);
    let single = SpawnRequest {
        spawn: Some(enemy("c1000", None)),
        enemies: Some(vec![]),
        name: Some("Crab".to_string()),
        ..request()
    };
    let sent = spawner.spawn_req(&single).unwrap();
    assert_eq!(sent.enemies.as_ref().unwrap().len(), 1);
    assert_eq!(sent.enemies.as_ref().unwrap()[0].model, "c1000");
    assert!(sent.name.is_none());
    let list = SpawnRequest {
        enemies: Some(vec![enemy("c1000", None), enemy("c2000", Some(4))]),
        inits: Some(vec![EnemyInit { id: 7, args: vec![1, 2] }]),
        name: Some("two".to_string()),
        claim: Some(NameClaim::new("Rya".to_string(), 5)),
        sequential: true,
        ..request()
    };
    let sent = spawner.spawn_req(&list).unwrap();
    assert_eq!(sent.enemies.as_ref().unwrap()[1].index, Some(4));
    assert_eq!(sent.inits.as_ref().unwrap()[0].args, vec![1, 2]);
    assert_eq!(sent.name.as_deref(), Some("two"));
    assert_eq!(sent.claim.as_ref().unwrap().name, "Rya");
    assert!(sent.sequential);
    assert!(spawner.spawn_req(&request()).is_none());
}

#[test]
fn some_enemies_are_known_by_name() {
    let spawner = EnemySpawner::new(true);
    let named = |name: &str| {
        spawner
            .spawn_req(&SpawnRequest { name: Some(name.to_string()), ..request() })
            .map(|r| r.enemies.unwrap().remove(0))
    };
    let crab = named("Crab").unwrap();
    assert_eq!((crab.model.as_str(), crab.npc_param, crab.npc_think_param), ("c2275", 22750020, 22750000));
    let messmer = spawner.spawn_name("Messmer").unwrap().enemies.unwrap().remove(0);
    assert_eq!(
        (messmer.model.as_str(), messmer.npc_param, messmer.npc_think_param),
        ("c5130", 51300099, 51300000)
    );
    assert!(named("crab").is_none());
}

#[test]
fn a_disabled_spawner_spawns_nothing() {
    let spawner = EnemySpawner::new(false);
    assert!(spawner.spawn_name("Crab").is_none());
    assert!(spawner.spawn_enemy(enemy("c1000", None)).is_none());
    assert!(spawner.spawn_req(&SpawnRequest { enemies: Some(vec![]), ..request() }).is_none());
}

#[test]
fn handles_name_the_set_and_index() {
    let handle = generate_field_ins_handle(5);
    assert_eq!(handle.selector, (1 << 28) | (113 << 20) | 5);
    assert_eq!(handle.block_id, -1);
    assert_eq!(generate_field_ins_handle(0x100003).selector, (1 << 28) | (113 << 20) | 3);
}

#[test]
fn indices_go_round_in_the_set() {
    assert_eq!(chr_set_index(0), 160);
    assert_eq!(chr_set_index(20), 180);
    assert_eq!(chr_set_index(159), 319);
    assert_eq!(chr_set_index(160), 160);
    assert_eq!(chr_set_index(319), 319);
}

#[test]
fn the_last_free_place_is_taken() {
    let none = HashSet::new();
    assert_eq!(choose_index(None, &none), 319);
    assert_eq!(choose_index(Some(7), &none), 7);
    let some: HashSet<u32> = [319, 318].into_iter().collect();
    assert_eq!(choose_index(None, &some), 317);
    assert_eq!(choose_index(Some(319), &some), 319);
    let all: HashSet<u32> = (160..320).collect();
    assert_eq!(choose_index(None, &all), 160);
}

#[test]
fn mobs_are_asked_for() {
    let taken: HashSet<u32> = [167].into_iter().collect();
    let mut e = enemy("c4351", Some(7));
    assert!(check_spawn(&e));
    let plan = spawn_mob(&e, &taken);
    assert_eq!(plan.handle, generate_field_ins_handle(167));
    assert_eq!(plan.entity_id, 460280007);
    assert!(plan.replaces);
    assert_eq!((plan.npc_param, plan.npc_think_param, plan.chara_init_param), (1, 2, -1));
    let mut name: Vec<u16> = "c4351".encode_utf16().collect();
    name.resize(16, 0);
    assert_eq!(plan.asset_name, name);
    e.index = None;
    e.chara_init_param = Some(30);
    let plan = spawn_mob(&e, &taken);
    assert_eq!((plan.entity_id, plan.replaces, plan.chara_init_param), (460280319, false, 30));
}

#[test]
fn models_have_five_letters() {
    assert!(!check_spawn(&enemy("c435", None)));
    assert!(!check_spawn(&enemy("c43510", None)));
    assert!(!check_spawn(&enemy("c4351", Some(u32::MAX))));
    assert!(check_spawn(&enemy("c4351", Some(u32::MAX - 460280000))));
    let knight = buddy_spawn();
    assert!(check_spawn(&knight));
    assert_eq!((knight.model.as_str(), knight.npc_param, knight.index), ("c4351", 43510010, Some(20)));
}

#[test]
fn positions_are_scattered_by_hash() {
    for index in [0u32, 1, 77, u32::MAX] {
        let mut hasher = std::collections::hash_map::DefaultHasher::new();
        hasher.write_u32(index);
        assert_eq!(position_hash(index), hasher.finish() as u16);
    }
}

#[test]
fn arenas_are_found_by_block() {
    let maps = vec![5, 7, 7];
    assert_eq!(find_arena(&maps, 7), Some(1));
    assert_eq!(find_arena(&maps, 8), None);
}

fn start(counters: &mut SpawnCounters, req: SpawnRequest) -> SpawnJob {
    counters.start(req, true).unwrap()
}

#[test]
fn jobs_need_an_arena_and_enemies() {
    let mut counters = SpawnCounters::new();
    let req = || SpawnRequest { enemies: Some(vec![enemy("c1000", None)]), ..request() };
    assert!(counters.start(req(), false).is_none());
    assert!(counters.start(request(), true).is_none());
    assert_eq!(counters.pos_index, 0);
    assert_eq!(start(&mut counters, req()).start_index, 1);
    assert_eq!(start(&mut counters, req()).start_index, 2);
    let placed = SpawnRequest { enemies: Some(vec![enemy("c1000", Some(40))]), ..request() };
    assert_eq!(start(&mut counters, placed).start_index, 40);
    assert_eq!(counters.pos_index, 2);
    let empty = SpawnRequest { enemies: Some(vec![]), ..request() };
    assert_eq!(start(&mut counters, empty).start_index, 3);
}

#[test]
fn the_first_enemy_takes_the_claim_and_the_mount() {
    let mut counters = SpawnCounters::new();
    let mut mount = enemy("c2000", None);
    mount.mount = true;
    let mut rider = enemy("c1000", None);
    rider.mount = true;
    let req = SpawnRequest {
        enemies: Some(vec![rider, mount, enemy("c3000", None)]),
        claim: Some(NameClaim::new("Rya".to_string(), 5)),
        ..request()
    };
    let mut job = start(&mut counters, req);
    assert_eq!(job.next_enemy().unwrap().model, "c1000");
    let first = job.on_spawned(460280001);
    assert_eq!((first.claim.name.as_str(), first.claim.amount, first.mounts), ("Rya", 5, false));
    let second = job.on_spawned(460280002);
    assert_eq!((second.claim.name.as_str(), second.claim.amount, second.mounts), ("", 0, true));
    let third = job.on_spawned(460280003);
    assert_eq!((third.entity_id, third.mounts), (460280003, false));
    assert!(job.next_enemy().is_none());
}

#[test]
fn events_speak_of_the_spawned_enemies() {
    let mut counters = SpawnCounters::new();
    let mut e = enemy("c1000", None);
    e.entity_id = Some(900);
    let req = |inits| SpawnRequest {
        enemies: Some(vec![e.clone()]),
        inits: Some(inits),
        ..request()
    };
    let inits = vec![
        EnemyInit { id: 50, args: vec![900, 901, u32::MAX] },
        EnemyInit { id: 51, args: vec![] },
        EnemyInit { id: 50, args: vec![900] },
    ];
    let mut job = start(&mut counters, req(inits));
    job.on_spawned(460280009);
    let done = counters.finish(&job);
    let slots: Vec<(i32, u32)> = done.events.iter().map(|e| (e.slot_id, e.event_id)).collect();
    assert_eq!(slots, vec![(0, 50), (0, 51), (1, 50)]);
    assert_eq!(done.events[0].args, vec![460280009, 901, -1]);
    let mut job = start(&mut counters, req(vec![EnemyInit { id: 50, args: vec![] }]));
    job.on_spawned(460280010);
    assert_eq!(counters.finish(&job).events[0].slot_id, 2);
}

#[test]
fn a_word_is_said_about_spawned_enemies() {
    let text = |name: Option<&str>, claim: Option<(&str, u32)>| {
        let mut counters = SpawnCounters::new();
        let job = start(
            &mut counters,
            SpawnRequest {
                name: name.map(|n| n.to_string()),
                enemies: Some(vec![]),
                claim: claim.map(|(n, a)| NameClaim::new(n.to_string(), a)),
                ..request()
            },
        );
        counters.finish(&job).toast
    };
    assert_eq!(text(None, None), "Spawned an enemy");
    assert_eq!(text(Some("Crab (Regular)"), None), "Spawned Crab");
    assert_eq!(text(Some("Crab"), Some(("Rya", 0))), "Rya spawned Crab");
    assert_eq!(text(Some("Crab"), Some(("Rya", 500))), "Rya spawned Crab with $5");
    assert_eq!(text(Some("Crab"), Some(("Rya", 1205))), "Rya spawned Crab with $12.05");
    assert_eq!(text(None, Some(("Rya", 7))), "Rya spawned an enemy with $0.07");
}

#[test]
fn events_have_as_many_slots_as_numbers() {
    let mut counters = SpawnCounters::new();
    let inits = |n: usize| Some((0..n).map(|_| EnemyInit { id: 50, args: vec![] }).collect());
    let req = |n| SpawnRequest { enemies: Some(vec![]), inits: inits(n), ..request() };
    counters.slot_count.insert(50, i32::MAX - 2);
    let two = start(&mut counters, req(2));
    let three = start(&mut counters, req(3));
    assert!(counters.can_finish(&two));
    assert!(!counters.can_finish(&three));
    assert_eq!(counters.finish(&two).events[1].slot_id, i32::MAX - 1);
    assert!(!counters.can_finish(&two));
}

#[test]
fn crabs_have_ids_of_their_own() {
    let mut crabs = DebugSpawner::new();
    assert!(crabs.debug_spawn(false).is_none());
    let first = crabs.debug_spawn(true).unwrap();
    assert_eq!((first.chr_id, first.npc_param_id, first.npc_think_param_id), (2275, 22750020, 22750000));
    assert_eq!((first.event_entity_id, first.chara_init_param_id, first.talk_id), (460280000, -1, -1));
    assert_eq!(crabs.debug_spawn(true).unwrap().event_entity_id, 460280001);
}
