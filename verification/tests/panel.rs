use souls_client::bosses::color::Color;
use souls_client::bosses::data::{BossData, RegionBossData};
use souls_client::bosses::panel::{BossClient, Frame, Layout, PanelKeys, RegionRow};
use souls_client::bosses::records::BossRecord;
use souls_client::bosses::state::{BossesApiRequest, Runner, RunnerEntry, UpdateBossRequest};

const NONE: PanelKeys = PanelKeys { equal: false, backslash: false, minus: false };
const EQUAL: PanelKeys = PanelKeys { equal: true, ..NONE };
const BACKSLASH: PanelKeys = PanelKeys { backslash: true, ..NONE };
const MINUS: PanelKeys = PanelKeys { minus: true, ..NONE };

fn boss(flag_id: u32, place: &str) -> BossData {
    BossData {
        boss: format!("Boss {}", flag_id),
        place: place.to_string(),
        flag_id,
        regions: None,
        maps: None,
    }
}

fn client() -> BossClient {
    let region = |name: &str, id: u32, bosses| RegionBossData {
        region_name: name.to_string(),
        regions: Some(vec![id]),
        bosses,
        dlc: 0,
    };
    let mut c = BossClient::new(vec![
        region("Limgrave", 1, vec![boss(1, "Stormveil"), boss(2, "")]),
        region("Liurnia", 2, vec![boss(3, "")]),
    ]);
    c.state.show_ui = true;
    c
}

fn record(player: &str, flag_id: u32, igt_ms: u32) -> BossRecord {
    BossRecord { player_id: player.to_string(), flag_id, defeated_at: None, igt_ms: Some(igt_ms) }
}

fn runner(id: &str, name: &str, color: Option<&str>) -> RunnerEntry {
    RunnerEntry {
        player_id: id.to_string(),
        runner: Runner {
            id: id.to_string(),
            name: Some(name.to_string()),
            character_name: None,
            color: color.map(|c| c.to_string()),
            hex_color: None,
        },
    }
}

fn defeat(c: &mut BossClient, records: Vec<BossRecord>) {
    c.handle_message(&BossesApiRequest {
        bosses: Some(UpdateBossRequest { add: Some(records), set: None, run: None }),
        runners: Some(vec![
            runner("a", "Ann", None),
            runner("b", "Bob", Some("#102030")),
            runner("me", "Me", Some("#0f0")),
        ]),
    });
}

fn frame(c: &mut BossClient, keys: PanelKeys) -> Frame {
    let f = c.begin_frame(keys, "me").unwrap();
    c.end_frame(&f);
    f
}

fn titles(rows: &[RegionRow]) -> Vec<&str> {
    rows.iter().map(|r| r.title.as_str()).collect()
}

#[test]
fn nothing_shows_before_the_game_does() {
    let mut c = client();
    c.state.show_ui = false;
    let before = c.ui_state;
    assert!(c.begin_frame(EQUAL, "me").is_none());
    assert_eq!(c.ui_state, before);
}

#[test]
fn keys_open_close_and_hide() {
    let mut c = client();
    assert_eq!(frame(&mut c, NONE).layout, Layout::Corner);
    assert_eq!(frame(&mut c, EQUAL).layout, Layout::Sidebar);
    assert_eq!(frame(&mut c, NONE).layout, Layout::Sidebar);
    assert_eq!(frame(&mut c, EQUAL).layout, Layout::Corner);
    assert_eq!(frame(&mut c, EQUAL).layout, Layout::Sidebar);
    assert_eq!(frame(&mut c, BACKSLASH).layout, Layout::Hidden);
    assert_eq!(frame(&mut c, EQUAL).layout, Layout::Corner);
    assert_eq!(frame(&mut c, BACKSLASH).layout, Layout::Hidden);
    assert_eq!(frame(&mut c, BACKSLASH).layout, Layout::Corner);
    c.click_corner();
    assert_eq!(frame(&mut c, NONE).layout, Layout::Sidebar);
    assert_eq!(frame(&mut c, NONE).layout, Layout::Sidebar);
}

#[test]
fn the_corner_counts_in_the_players_color() {
    let mut c = client();
    let f = frame(&mut c, NONE);
    assert_eq!(f.corner_text, "0/3");
    assert_eq!(f.own_color, Color { r: 255, g: 255, b: 255, a: 255 });
    assert!(f.is_big);
    defeat(&mut c, vec![record("a", 1, 5), record("b", 3, 5)]);
    let f = frame(&mut c, NONE);
    assert_eq!(f.corner_text, "2/3");
    assert_eq!(f.own_color, Color { r: 0, g: 255, b: 0, a: 255 });
}

#[test]
fn regions_open_when_they_are_entered() {
    let mut c = client();
    let f = frame(&mut c, NONE);
    assert_eq!((f.current_index, f.index_changed), (None, false));
    c.state.play_region = 2;
    let f = frame(&mut c, NONE);
    assert_eq!((f.current_index, f.index_changed), (Some(1), true));
    let rows = c.region_rows(&f);
    assert_eq!(rows.iter().map(|r| r.open).collect::<Vec<bool>>(), vec![false, true]);
    assert!(rows.iter().all(|r| r.set_open));
    let f = frame(&mut c, NONE);
    assert!(!f.index_changed);
    assert!(c.region_rows(&f).iter().all(|r| !r.set_open));
    assert!(frame(&mut c, EQUAL).index_changed);
    c.state.play_region = 9;
    let f = frame(&mut c, NONE);
    assert_eq!((f.current_index, f.index_changed), (None, false));
    assert_eq!(c.ui_state.region_index, Some(1));
}

#[test]
fn regions_out_of_sight_are_scrolled_to() {
    let mut c = client();
    c.state.play_region = 2;
    let f = c.begin_frame(NONE, "me").unwrap();
    c.region_drawn(&f, 0, false, false);
    assert_eq!(c.ui_state.next_visible, None);
    c.region_drawn(&f, 1, true, true);
    assert_eq!(c.ui_state.next_visible, None);
    c.region_drawn(&f, 1, true, false);
    assert_eq!(c.ui_state.next_visible, Some(1));
    c.end_frame(&f);
    let f = c.begin_frame(NONE, "me").unwrap();
    assert_eq!(f.next_visible, Some(1));
    assert_eq!(c.ui_state.next_visible, None);
    let rows = c.region_rows(&f);
    assert_eq!(rows.iter().map(|r| r.scroll_here).collect::<Vec<bool>>(), vec![false, true]);
}

#[test]
fn holding_minus_leaves_out_what_is_done() {
    let mut c = client();
    c.state.play_region = 1;
    defeat(&mut c, vec![record("a", 1, 5), record("b", 3, 5)]);
    let f = frame(&mut c, NONE);
    let rows = c.region_rows(&f);
    assert_eq!(titles(&rows), vec!["1/2 Limgrave###Limgrave", "1/1 Liurnia###Liurnia"]);
    let f = frame(&mut c, MINUS);
    assert!(f.hide_completed && f.start_hide_completed);
    let rows = c.region_rows(&f);
    assert_eq!(titles(&rows), vec!["1 Limgrave###Limgrave"]);
    assert_eq!(rows[0].index, 0);
    assert!(rows[0].open);
    assert_eq!(rows[0].bosses.len(), 1);
    assert_eq!(rows[0].bosses[0].text, "Boss 2");
    let f = c.begin_frame(MINUS, "me").unwrap();
    assert!(!f.start_hide_completed);
    c.region_drawn(&f, 0, false, false);
    assert_eq!(c.ui_state.next_visible, None);
    c.end_frame(&f);
    assert!(frame(&mut c, NONE).index_changed);
}

#[test]
fn rows_show_who_defeated_a_boss() {
    let mut c = client();
    defeat(&mut c, vec![record("b", 1, 9), record("a", 1, 5), record("stranger", 1, 1)]);
    c.state.bosses.get_mut(&2).unwrap().local = Some(record("me", 2, 3));
    let f = frame(&mut c, NONE);
    let rows = c.region_rows(&f);
    let first = &rows[0].bosses[0];
    assert_eq!(first.label, "##1");
    assert_eq!((first.checked, first.bold), (true, false));
    assert_eq!(first.color, Some(Color { r: 0x10, g: 0x20, b: 0x30, a: 255 }));
    assert_eq!(first.tooltip, "In Stormveil\nDefeated by Ann, Bob");
    let second = &rows[0].bosses[1];
    assert_eq!((second.checked, second.bold), (true, true));
    assert_eq!(second.tooltip, "In Limgrave\nDefeated by Me");
    let third = &rows[1].bosses[0];
    assert_eq!((third.checked, third.bold, third.color), (false, false, None));
    assert_eq!(third.tooltip, "In Liurnia");
}
