use souls_client::game::FromGame;
use souls_client::hooks::{
    buddy_set_patch, display_boss_healthbar_er, display_boss_healthbar_lua, ds3_npc_bnd,
    er_npc_bnd, get_replace_npc_name, healthbar_boss, hook_messages, replacement_for,
    replaces_message, sekiro_npc_bnd, Hook, VanillaText,
};
use souls_client::names::client::ShownName;
use souls_client::names::templates::NameTemplates;
use souls_client::names::{
    NameApiRequest, NameClaim, NameClient, NameCommand, NameMode, SPAWN_NAME_ID,
};

fn wide(text: &str) -> Vec<u16> {
    text.encode_utf16().chain([0]).collect()
}

fn templates() -> NameTemplates {
    let mut t = NameTemplates::default();
    t.er.insert(10000800, "$1".to_string());
    t.er_groups.insert(55, 10000850);
    t.er_groups.insert(66, 10000860);
    t.er_groups.insert(0, 10000870);
    t
}

#[test]
fn name_archives_differ_by_game() {
    let archives = |f: fn(u32) -> bool| (0..500u32).filter(|&b| f(b)).collect::<Vec<u32>>();
    assert_eq!(archives(er_npc_bnd), vec![18, 328, 428]);
    assert_eq!(archives(ds3_npc_bnd), vec![18, 215, 255]);
    assert_eq!(archives(sekiro_npc_bnd), vec![18]);
    assert!(replaces_message(FromGame::ER, 428, VanillaText::Text));
    assert!(!replaces_message(FromGame::ER, 428, VanillaText::Missing));
    assert!(!replaces_message(FromGame::ER, 428, VanillaText::Broken));
    assert!(!replaces_message(FromGame::DS3, 428, VanillaText::Text));
    assert!(replaces_message(FromGame::DS3, 215, VanillaText::Text));
    assert!(replaces_message(FromGame::SDT, 18, VanillaText::Text));
    assert!(replaces_message(FromGame::DS1R, 0, VanillaText::Text));
}

#[test]
fn hooked_functions_differ_by_game() {
    assert_eq!(
        hook_messages(FromGame::ER),
        vec![Hook::GetMessage, Hook::GetChrName, Hook::BossHealthbar]
    );
    assert_eq!(hook_messages(FromGame::DS1R), vec![Hook::GetNpcName, Hook::BossHealthbarLua]);
    assert_eq!(hook_messages(FromGame::SDT), vec![Hook::GetMessage, Hook::BossHealthbarLua]);
    assert_eq!(hook_messages(FromGame::DS3), vec![Hook::GetMessage, Hook::BossHealthbarLua]);
}

#[test]
fn names_take_a_texts_place() {
    let shown = ShownName {
        name: "Rya™".to_string(),
        post: Some(NameClaim::new("Rya".to_string(), 3)),
    };
    let r = replacement_for(Some(shown), 904000);
    assert_eq!(r.units, Some(wide("Rya™")));
    assert_eq!(r.post.unwrap().name, "Rya");
    assert_eq!(replacement_for(None, SPAWN_NAME_ID).units, Some(vec![0]));
    assert_eq!(replacement_for(None, 904000).units, None);
}

#[test]
fn names_are_asked_of_the_client() {
    let mut names = NameClient::new(FromGame::DS3, NameTemplates::default());
    names.handle_message(&NameApiRequest {
        claims: Some(vec![NameClaim::new("Rya".to_string(), 3)]),
        names: Some(vec![NameCommand::SetNameMode { mode: NameMode::Cache }]),
    });
    let r = get_replace_npc_name(&mut names, 5, 904000);
    assert_eq!(r.units, Some(wide("Rya")));
    assert_eq!(r.post.unwrap().name, "Rya");
    assert_eq!(get_replace_npc_name(&mut names, 0, 1).units, None);
}

#[test]
fn bosses_are_found_by_template_then_group() {
    let t = templates();
    assert_eq!(healthbar_boss(&t, 10000800, &vec![55]), 10000800);
    assert_eq!(healthbar_boss(&t, 10000801, &vec![0, 7, 66, 55]), 10000860);
    assert_eq!(healthbar_boss(&t, 10000801, &vec![0, 7]), 10000801);
    assert_eq!(healthbar_boss(&t, 10000801, &vec![]), 10000801);
}

#[test]
fn shown_healthbars_note_their_boss() {
    let mut names = NameClient::new(FromGame::ER, templates());
    display_boss_healthbar_er(&mut names, Some((10000801, vec![55])), 904000);
    assert_eq!(names.state.get_msg_boss(0, 904000), Some(10000850));
    display_boss_healthbar_er(&mut names, None, 904001);
    assert_eq!(names.state.get_msg_boss(0, 904001), None);
    display_boss_healthbar_lua(&mut names, -1, 904002);
    assert_eq!(names.state.get_msg_boss(0, 904002), None);
    display_boss_healthbar_lua(&mut names, 12, 904002);
    assert_eq!(names.state.get_msg_boss(0, 904002), Some(12));
    assert_eq!(names.state.get_msg_boss(13, 904002), Some(13));
}

#[test]
fn the_buddy_set_is_doubled() {
    assert_eq!(buddy_set_patch(), (5120, 320));
}
