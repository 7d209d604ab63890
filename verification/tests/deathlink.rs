use souls_client::deathlink::{
    show_deathlink, DeathlinkApiRequest, DeathlinkClient, DeathlinkRequest, DeathlinkSettings,
    Effect, HitBy, PlayerSnapshot, WorldSnapshot,
};

const SECOND: u64 = 1_000_000_000;

fn on() -> DeathlinkSettings {
    DeathlinkSettings { enable_deathlink: true, rune_loss: false, ignore_scripted: true }
}

fn link(id: &str, name: Option<&str>) -> DeathlinkRequest {
    DeathlinkRequest { id: id.to_string(), name: name.map(|n| n.to_string()) }
}

fn player() -> PlayerSnapshot {
    PlayerSnapshot {
        perfect_invincibility: false,
        invincible_as_thrower: false,
        invincible_as_thrown: false,
        death_flag: false,
        hp: 100,
        anim: 0,
        hit_by: None,
    }
}

fn world(player: PlayerSnapshot) -> WorldSnapshot {
    WorldSnapshot { has_menu: true, is_loading: false, player: Some(player), in_main_game: true }
}

fn enabled() -> DeathlinkClient {
    let mut c = DeathlinkClient::new();
    c.handle_settings(on());
    c
}

#[test]
fn texts_name_the_player() {
    assert_eq!(show_deathlink(&link("a", Some("Rya")), false), "Received deathlink from Rya!");
    assert_eq!(show_deathlink(&link("a", None), false), "Received deathlink!");
    assert_eq!(
        show_deathlink(&link("a", Some("Rya")), true),
        "Received deathlink from Rya! (ignored)"
    );
    assert_eq!(show_deathlink(&link("a", None), true), "Received deathlink! (ignored)");
}

#[test]
fn settings_are_announced_when_they_change() {
    let mut c = DeathlinkClient::new();
    assert_eq!(c.handle_settings(DeathlinkSettings::default()), None);
    assert_eq!(c.handle_settings(on()), Some("Deathlink enabled".to_string()));
    assert_eq!(c.handle_settings(on()), None);
    let loss = DeathlinkSettings { rune_loss: true, ..on() };
    assert_eq!(c.handle_settings(loss), Some("Deathlink enabled".to_string()));
    assert_eq!(
        c.handle_settings(DeathlinkSettings::default()),
        Some("Deathlink disabled".to_string())
    );
}

#[test]
fn toggling_starts_over() {
    let mut c = enabled();
    c.handle_request(&link("a", None), "me");
    c.state.previous = Some(5);
    c.handle_settings(DeathlinkSettings { rune_loss: true, ..on() });
    assert!(c.state.pending.is_some());
    assert_eq!(c.state.previous, Some(5));
    c.handle_settings(DeathlinkSettings::default());
    assert!(c.state.pending.is_none());
    assert_eq!(c.state.previous, None);
}

#[test]
fn links_are_kept_only_from_others_and_while_enabled() {
    let mut c = DeathlinkClient::new();
    c.handle_request(&link("a", None), "me");
    assert!(c.state.pending.is_none());
    let mut c = enabled();
    c.handle_request(&link("me", None), "me");
    assert!(c.state.pending.is_none());
    c.handle_request(&link("a", None), "me");
    assert_eq!(c.state.pending.as_ref().unwrap().id, "a");
}

#[test]
fn messages_set_before_they_link() {
    let mut c = DeathlinkClient::new();
    let toast = c.handle_message(
        &DeathlinkApiRequest { settings: Some(on()), deathlink: Some(link("a", None)) },
        "me",
    );
    assert_eq!(toast, Some("Deathlink enabled".to_string()));
    assert!(c.state.pending.is_some());
}

#[test]
fn a_link_kills_in_the_main_game() {
    let mut c = enabled();
    c.handle_request(&link("a", Some("Rya")), "me");
    let out = c.tick(&world(player()), 100 * SECOND);
    assert_eq!(
        out.effects,
        vec![
            Effect::SpEffect { entity_id: 10000, effect_id: 4290 },
            Effect::ForceDeath { entity_id: 10000, receives_runes: false },
        ]
    );
    assert_eq!(out.toast, Some("Received deathlink from Rya!".to_string()));
    assert!(out.send.is_none());
    assert_eq!(c.state.previous, Some(100 * SECOND));
    assert!(c.state.pending.is_none());
}

#[test]
fn a_link_drains_in_the_tutorial() {
    let mut c = enabled();
    c.handle_request(&link("a", None), "me");
    let out = c.tick(&WorldSnapshot { in_main_game: false, ..world(player()) }, 0);
    assert_eq!(out.effects[1], Effect::SpEffect { entity_id: 10000, effect_id: 9639 });
}

#[test]
fn a_link_waits_for_a_mortal_player() {
    let mut c = enabled();
    c.handle_request(&link("a", None), "me");
    let thrown = PlayerSnapshot { invincible_as_thrown: true, ..player() };
    let thrower = PlayerSnapshot { invincible_as_thrower: true, ..player() };
    let perfect = PlayerSnapshot { perfect_invincibility: true, ..player() };
    for w in [
        WorldSnapshot { has_menu: false, ..world(player()) },
        WorldSnapshot { is_loading: true, ..world(player()) },
        WorldSnapshot { player: None, ..world(player()) },
        world(thrown),
        world(thrower),
        world(perfect),
    ] {
        let out = c.tick(&w, SECOND);
        assert!(out.effects.is_empty() && out.toast.is_none() && out.send.is_none());
        assert!(c.state.pending.is_some());
    }
    assert_eq!(c.tick(&world(player()), SECOND).effects.len(), 2);
}

#[test]
fn links_in_the_cooldown_are_dropped_with_a_word() {
    let mut c = enabled();
    c.state.previous = Some(100 * SECOND);
    c.handle_request(&link("a", None), "me");
    let out = c.tick(&world(player()), 130 * SECOND - 1);
    assert_eq!(out.toast, Some("Received deathlink! (ignored)".to_string()));
    assert!(out.effects.is_empty());
    assert!(c.state.pending.is_none());
    c.handle_request(&link("a", None), "me");
    assert_eq!(c.tick(&world(player()), 130 * SECOND).effects.len(), 2);
}

#[test]
fn disabled_links_are_dropped_silently() {
    let mut c = enabled();
    c.handle_request(&link("a", None), "me");
    c.state.settings.enable_deathlink = false;
    let out = c.tick(&world(player()), 0);
    assert!(out.toast.is_none());
    assert!(c.state.pending.is_none());
}

#[test]
fn a_death_is_passed_on_once() {
    let mut c = enabled();
    let dead = world(PlayerSnapshot { hp: 0, ..player() });
    let out = c.tick(&dead, SECOND);
    assert!(out.send.is_some());
    assert_eq!(out.toast, Some("Sending deathlink!".to_string()));
    assert!(c.tick(&dead, 2 * SECOND).send.is_none());
    let flagged = world(PlayerSnapshot { death_flag: true, ..player() });
    assert!(c.tick(&flagged, 31 * SECOND).send.is_some());
    assert!(c.tick(&world(player()), 100 * SECOND).send.is_none());
}

#[test]
fn scripted_deaths_are_not_passed_on() {
    let abducted = |anim, area, index| {
        world(PlayerSnapshot { hp: 0, anim, hit_by: Some(HitBy { area, index }), ..player() })
    };
    for (w, sent) in [
        (abducted(70290, 14, 251), false),
        (abducted(70299, 14, 251), false),
        (abducted(70300, 14, 251), true),
        (abducted(70289, 14, 251), true),
        (abducted(70290, 15, 251), true),
        (abducted(70290, 14, 250), true),
        (WorldSnapshot { in_main_game: false, ..world(PlayerSnapshot { hp: 0, ..player() }) }, false),
    ] {
        let mut c = enabled();
        assert_eq!(c.tick(&w, SECOND).send.is_some(), sent);
        assert_eq!(c.state.previous, Some(SECOND));
        c.handle_request(&link("a", None), "me");
        let dead = world(PlayerSnapshot { hp: 0, ..player() });
        let out = c.tick(&dead, 31 * SECOND - 1);
        assert!(out.send.is_none() && out.effects.is_empty());
        assert!(c.tick(&dead, 31 * SECOND).send.is_some());
        let mut all = enabled();
        all.state.settings.ignore_scripted = false;
        assert!(all.tick(&w, SECOND).send.is_some());
    }
}
