use souls_client::bosses::color::{parse_color, Color};
use souls_client::bosses::data::{map_to_block_id, BossData, GameBossData, RegionBossData};
use souls_client::bosses::records::{BossRecord, BossState};
use souls_client::bosses::state::{
    BossStreamRequest, GameBossState, GameSnapshot, Runner, RunnerEntry, UpdateBossRequest,
};
use souls_client::client::NetworkTime;
use std::collections::HashSet;

const SECOND: u64 = 1_000_000_000;

fn boss(flag_id: u32, regions: Option<Vec<u32>>, maps: Option<Vec<u32>>) -> BossData {
    BossData { boss: format!("Boss {}", flag_id), place: String::new(), flag_id, regions, maps }
}

fn region(name: &str, regions: Option<Vec<u32>>, bosses: Vec<BossData>) -> RegionBossData {
    RegionBossData { region_name: name.to_string(), regions, bosses, dlc: 0 }
}

fn data() -> GameBossData {
    GameBossData::new(vec![
        region(
            "Limgrave",
            Some(vec![61000]),
            vec![boss(1, None, Some(vec![60423600])), boss(2, Some(vec![61001]), None)],
        ),
        region("Liurnia", Some(vec![62000, 61001]), vec![boss(3, None, Some(vec![14000000]))]),
    ])
}

fn record(player: &str, flag_id: u32, igt_ms: Option<u32>) -> BossRecord {
    BossRecord { player_id: player.to_string(), flag_id, defeated_at: None, igt_ms }
}

fn request(
    add: Option<Vec<BossRecord>>,
    set: Option<Vec<BossRecord>>,
    run: Option<&str>,
) -> UpdateBossRequest {
    UpdateBossRequest { add, set, run: run.map(|r| r.to_string()) }
}

fn shot(dead: &[u32], play_time: u32) -> GameSnapshot {
    GameSnapshot {
        in_game: true,
        location: Some((0x3C2A2400, 6100000)),
        play_time: Some(play_time),
        dead_flags: dead.iter().copied().collect::<HashSet<u32>>(),
    }
}

fn now() -> NetworkTime {
    NetworkTime { secs: 1516991409, nanos: 453_829_000, offset: 0 }
}

fn sent(req: Option<BossStreamRequest>) -> Vec<u32> {
    match req {
        Some(BossStreamRequest::UpdateBosses { bosses }) => {
            bosses.iter().map(|b| b.flag_id).collect()
        }
        None => vec![],
    }
}

fn running(data: &GameBossData) -> GameBossState {
    let mut state = GameBossState::from_data(data);
    state.handle_request(&request(None, None, Some("2018-01-26T18:30:09Z")));
    state
}

#[test]
fn colors_are_parsed() {
    let rgb = |r, g, b| Some(Color { r, g, b, a: 255 });
    assert_eq!(parse_color("#FF69B4"), rgb(0xFF, 0x69, 0xB4));
    assert_eq!(parse_color("#ff69b4"), rgb(0xFF, 0x69, 0xB4));
    assert_eq!(parse_color("#F0a"), rgb(0xFF, 0x00, 0xAA));
    assert_eq!(parse_color("#+1+A+f"), rgb(1, 10, 15));
    assert_eq!(Color::white(), Color { r: 255, g: 255, b: 255, a: 255 });
    for bad in ["", "#", "FF69B4", "#FF69B", "#FF69B4FF", "#F0aF", "#GG0000", "red", "#-10000", "#é00", "#++0000"] {
        assert_eq!(parse_color(bad), None);
    }
}

#[test]
fn maps_become_block_ids() {
    assert_eq!(map_to_block_id(60423600), 0x3C2A2400);
    assert_eq!(map_to_block_id(10010203), 0x0A010203);
    assert_eq!(map_to_block_id(0), 0);
    assert_eq!(map_to_block_id(255_01_02_03), -16711165);
    assert_eq!(map_to_block_id(256_01_02_03), 0x00010203);
}

#[test]
fn places_lead_to_the_last_region() {
    let d = data();
    assert_eq!(d.bosses(), vec![1, 2, 3]);
    assert_eq!(d.region_index(Some(0x3C2A2400), 62000), Some(0));
    assert_eq!(d.region_index(Some(0x0E000000), 0), Some(1));
    assert_eq!(d.region_index(Some(5), 61000), Some(0));
    assert_eq!(d.region_index(None, 61001), Some(1));
    assert_eq!(d.region_index(None, 62000), Some(1));
    assert_eq!(d.region_index(Some(5), 1), None);
}

#[test]
fn records_of_a_boss() {
    let mut b = BossState::new();
    assert!(!b.any_dead() && !b.local_dead() && !b.network_dead());
    assert!(b.pending_dead().is_none());
    b.local = Some(record("me", 1, Some(50)));
    assert!(b.any_dead() && b.local_dead() && !b.network_dead());
    assert_eq!(b.pending_dead().unwrap().player_id, "me");
    b.record_network(&record("other", 1, Some(20)));
    b.record_network(&record("late", 1, Some(70)));
    b.record_network(&record("unknown", 1, None));
    assert!(b.network_dead());
    let order: Vec<String> = b.unique_records().into_iter().map(|r| r.player_id).collect();
    assert_eq!(order, vec!["unknown", "other", "me", "late"]);
    b.record_network(&record("me", 1, Some(99)));
    assert!(b.pending_dead().is_none());
    let order: Vec<String> = b.unique_records().into_iter().map(|r| r.player_id).collect();
    assert_eq!(order, vec!["unknown", "other", "late", "me"]);
    b.record_network(&record("other", 1, Some(80)));
    assert_eq!(b.network.len(), 4);
    b.clear();
    assert!(!b.any_dead());
}

#[test]
fn runners_have_a_name() {
    let runner = |name: Option<&str>, character: Option<&str>| Runner {
        id: "x".to_string(),
        name: name.map(|n| n.to_string()),
        character_name: character.map(|n| n.to_string()),
        color: None,
        hex_color: None,
    };
    assert_eq!(runner(Some("a"), Some("b")).name(), "a");
    assert_eq!(runner(None, Some("b")).name(), "b");
    assert_eq!(runner(None, None).name(), "Unknown");
}

#[test]
fn runners_get_their_colors() {
    let mut state = GameBossState::from_data(&data());
    let entry = |id: &str, color: Option<&str>| RunnerEntry {
        player_id: id.to_string(),
        runner: Runner {
            id: id.to_string(),
            name: None,
            character_name: None,
            color: color.map(|c| c.to_string()),
            hex_color: Some(Color::white()),
        },
    };
    state.handle_runners(&vec![entry("a", Some("#010203")), entry("b", None), entry("c", Some("x"))]);
    assert_eq!(state.runners[0].runner.hex_color, Some(Color { r: 1, g: 2, b: 3, a: 255 }));
    assert_eq!(state.runners[1].runner.hex_color, None);
    assert_eq!(state.runners[2].runner.hex_color, None);
}

#[test]
fn the_summary_counts_bosses() {
    let mut state = GameBossState::from_data(&data());
    assert_eq!(state.summary(), "0 local, 0 network, 0/3 total");
    state.handle_request(&request(
        Some(vec![record("a", 1, None), record("b", 1, None), record("a", 9, None)]),
        None,
        None,
    ));
    state.bosses.get_mut(&2).unwrap().local = Some(record("me", 2, None));
    assert_eq!(state.summary(), "1 local, 1 network, 2/3 total");
    assert_eq!(state.dead_count(), 2);
    assert_eq!(state.boss_count(), 3);
}

#[test]
fn setting_replaces_and_adding_adds() {
    let mut state = GameBossState::from_data(&data());
    state.handle_request(&request(Some(vec![record("a", 1, None)]), None, None));
    assert!(state.received_messages);
    state.handle_request(&request(Some(vec![record("a", 2, None)]), None, None));
    assert_eq!(state.dead_count(), 2);
    state.pending_update = Some(7);
    state.bosses.get_mut(&1).unwrap().local = Some(record("me", 1, None));
    state.handle_request(&request(
        Some(vec![record("x", 1, None)]),
        Some(vec![record("a", 3, None)]),
        None,
    ));
    assert_eq!(state.dead_count(), 1);
    assert!(state.bosses[&3].network_dead());
    assert!(!state.bosses[&1].local_dead());
    assert_eq!(state.pending_update, None);
    state.handle_request(&request(None, Some(vec![]), None));
    assert_eq!(state.dead_count(), 0);
}

#[test]
fn runs_start_and_end() {
    let mut state = GameBossState::from_data(&data());
    state.handle_request(&request(None, None, Some("2018-01-26T18:30:09Z")));
    assert_eq!(state.current_run.unwrap().secs, 1516991409);
    state.handle_request(&request(None, None, None));
    assert!(state.current_run.is_some());
    state.handle_request(&request(None, None, Some("")));
    assert_eq!(state.current_run, None);
    state.handle_request_with(
        &request(None, None, Some("x")),
        Some(NetworkTime { secs: 1, nanos: 0, offset: 0 }),
    );
    assert_eq!(state.current_run.unwrap().secs, 1);
}

#[test]
fn answered_reports_end_the_wait() {
    let d = data();
    let mut state = running(&d);
    assert_eq!(sent(state.tick(&d, &shot(&[1, 3], 0), "me", now(), SECOND)), vec![1, 3]);
    assert_eq!(state.pending_update, Some(SECOND));
    state.handle_request(&request(Some(vec![record("me", 1, None)]), None, None));
    assert_eq!(state.pending_update, Some(SECOND));
    state.handle_request(&request(Some(vec![record("me", 3, None)]), None, None));
    assert_eq!(state.pending_update, None);
}

#[test]
fn defeats_are_recorded_and_reported() {
    let d = data();
    let mut state = running(&d);
    state.tick(&d, &shot(&[], 5000), "me", now(), 0);
    let req = state.tick(&d, &shot(&[2], 5999), "me", now(), SECOND);
    let Some(BossStreamRequest::UpdateBosses { bosses }) = req else { panic!() };
    assert_eq!(bosses.len(), 1);
    assert_eq!(bosses[0].player_id, "me");
    assert_eq!(bosses[0].flag_id, 2);
    assert_eq!(bosses[0].defeated_at.as_deref(), Some("2018-01-26T18:30:09.453+00:00"));
    assert_eq!(bosses[0].igt_ms, Some(5999));
}

#[test]
fn a_given_time_is_recorded() {
    let d = data();
    let mut state = running(&d);
    state.tick_with(&d, &shot(&[1], 0), "me", "then", 0);
    let first = state.bosses[&1].local.as_ref().unwrap();
    assert_eq!(first.defeated_at.as_deref(), Some("then"));
    state.tick_with(&d, &shot(&[1], 10), "me", "later", 0);
    assert_eq!(state.bosses[&1].local.as_ref().unwrap().defeated_at.as_deref(), Some("then"));
    state.tick_with(&d, &shot(&[], 20), "me", "later", 0);
    assert!(state.bosses[&1].local.is_none());
}

#[test]
fn in_game_time_needs_a_recent_frame() {
    let d = data();
    for (last, play_time, igt) in [
        (5000, 5999, Some(5999)),
        (5000, 6000, None),
        (5000, 4001, Some(4001)),
        (5000, 4000, None),
    ] {
        let mut state = running(&d);
        state.last_igt = Some(last);
        state.tick_with(&d, &shot(&[1], play_time), "me", "t", 0);
        assert_eq!(state.bosses[&1].local.as_ref().unwrap().igt_ms, igt);
        assert_eq!(state.last_igt, Some(play_time));
    }
    let mut state = running(&d);
    state.last_igt = Some(7);
    let untimed = GameSnapshot { play_time: None, ..shot(&[1], 0) };
    state.tick_with(&d, &untimed, "me", "t", 0);
    assert_eq!(state.bosses[&1].local.as_ref().unwrap().igt_ms, None);
    assert_eq!(state.last_igt, Some(7));
}

#[test]
fn reports_wait_for_runs_and_gaps() {
    let d = data();
    let mut idle = GameBossState::from_data(&d);
    assert!(sent(idle.tick_with(&d, &shot(&[1], 0), "me", "t", 0)).is_empty());
    assert!(idle.bosses[&1].local_dead());
    let mut state = running(&d);
    assert_eq!(sent(state.tick_with(&d, &shot(&[1], 0), "me", "t", SECOND)), vec![1]);
    assert!(sent(state.tick_with(&d, &shot(&[1, 2], 0), "me", "t", 11 * SECOND)).is_empty());
    assert_eq!(
        sent(state.tick_with(&d, &shot(&[1, 2], 0), "me", "t", 11 * SECOND + 1)),
        vec![1, 2]
    );
}

#[test]
fn the_menu_changes_nothing_but_shows_the_panel() {
    let d = data();
    let mut state = running(&d);
    let menu = GameSnapshot { in_game: false, ..shot(&[1], 0) };
    assert!(sent(state.tick_with(&d, &menu, "me", "t", 0)).is_empty());
    assert!(state.show_ui);
    assert_eq!(state.dead_count(), 0);
    assert_eq!((state.block_id, state.play_region, state.last_igt), (None, 0, None));
}

#[test]
fn places_need_block_and_region() {
    let d = data();
    let mut state = running(&d);
    for location in [None, Some((-1, 6100000)), Some((5, 0))] {
        state.tick_with(&d, &GameSnapshot { location, ..shot(&[], 0) }, "me", "t", 0);
        assert_eq!((state.block_id, state.play_region), (None, 0));
    }
    state.tick_with(&d, &shot(&[], 0), "me", "t", 0);
    assert_eq!((state.block_id, state.play_region), (Some(0x3C2A2400), 6100));
}

#[test]
fn doubled_flags_are_reported_twice() {
    let d = GameBossData::new(vec![region("A", None, vec![boss(1, None, None), boss(1, None, None)])]);
    let mut state = running(&d);
    assert_eq!(sent(state.tick_with(&d, &shot(&[1], 0), "me", "t", 0)), vec![1, 1]);
}

#[test]
fn defeats_heard_twice_count_once() {
    let bosses = data();
    let mut state = running(&bosses);
    let list = || vec![record("a", 1, Some(5)), record("b", 1, None), record("a", 1, Some(7))];
    let known = |state: &GameBossState| -> Vec<(String, Option<u32>)> {
        state.bosses[&1].network.iter().map(|r| (r.player_id.clone(), r.igt_ms)).collect()
    };
    state.handle_request(&request(Some(vec![record("c", 1, Some(1))]), None, None));
    state.handle_request(&request(Some(list()), None, None));
    let once = known(&state);
    assert_eq!(
        once,
        vec![("c".to_string(), Some(1)), ("a".to_string(), Some(7)), ("b".to_string(), None)]
    );
    state.handle_request(&request(Some(list()), None, None));
    assert_eq!(known(&state), once);
    assert!(state.bosses[&2].network.is_empty());
}
