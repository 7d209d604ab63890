//! What the hooked game functions decide: which texts are names, whose healthbar is shown, and
//! which name takes a text's place.
use vstd::prelude::*;

use crate::game::FromGame;
use crate::names::client::ShownName;
use crate::names::templates::NameTemplates;
use crate::names::{NameClaim, NameClient, SPAWN_NAME_ID};
use crate::spawn::CHR_SET_CAPACITY;
use crate::wide::encode_wide_terminated;

verus! {

broadcast use vstd::std_specs::hash::group_hash_axioms;

/// Whether a text archive of Elden Ring holds names.
pub fn er_npc_bnd(bnd_id: u32) -> (r: bool)
    ensures
        r == (bnd_id == 18 || bnd_id == 328 || bnd_id == 428),
{
    bnd_id == 18 || bnd_id == 328 || bnd_id == 428
}

/// Whether a text archive of Dark Souls III holds names.
pub fn ds3_npc_bnd(bnd_id: u32) -> (r: bool)
    ensures
        r == (bnd_id == 18 || bnd_id == 215 || bnd_id == 255),
{
    bnd_id == 18 || bnd_id == 215 || bnd_id == 255
}

/// Whether a text archive of Sekiro holds names.
pub fn sekiro_npc_bnd(bnd_id: u32) -> (r: bool)
    ensures
        r == (bnd_id == 18),
{
    bnd_id == 18
}

/// Whether a game's text archive holds names. The hooked function of Dark Souls reads nothing
/// else.
pub open spec fn holds_names(game: FromGame, bnd_id: u32) -> bool {
    match game {
        FromGame::ER => bnd_id == 18 || bnd_id == 328 || bnd_id == 428,
        FromGame::DS3 => bnd_id == 18 || bnd_id == 215 || bnd_id == 255,
        FromGame::SDT => bnd_id == 18,
        FromGame::DS1R => true,
    }
}

/// A function of the game that is hooked.
#[derive(PartialEq, Eq, Structural, Clone, Copy, Debug)]
pub enum Hook {
    /// Reads a text of a text archive.
    GetMessage,
    /// Reads a name.
    GetNpcName,
    /// Reads the name of a character.
    GetChrName,
    /// Shows a boss's healthbar.
    BossHealthbar,
    /// Shows a boss's healthbar, from a script.
    BossHealthbarLua,
}

/// The functions that are hooked in a game, in order.
pub open spec fn hooks_of(game: FromGame) -> Seq<Hook> {
    match game {
        FromGame::ER => seq![Hook::GetMessage, Hook::GetChrName, Hook::BossHealthbar],
        FromGame::DS1R => seq![Hook::GetNpcName, Hook::BossHealthbarLua],
        FromGame::SDT => seq![Hook::GetMessage, Hook::BossHealthbarLua],
        FromGame::DS3 => seq![Hook::GetMessage, Hook::BossHealthbarLua],
    }
}

/// The functions that are hooked in a game, in order.
pub fn hook_messages(game: FromGame) -> (r: Vec<Hook>)
    ensures
        r@ == hooks_of(game),
{
    let mut hooks: Vec<Hook> = Vec::new();
    match game {
        FromGame::ER => {
            hooks.push(Hook::GetMessage);
            hooks.push(Hook::GetChrName);
            hooks.push(Hook::BossHealthbar);
        },
        FromGame::DS1R => {
            hooks.push(Hook::GetNpcName);
            hooks.push(Hook::BossHealthbarLua);
        },
        FromGame::SDT | FromGame::DS3 => {
            hooks.push(Hook::GetMessage);
            hooks.push(Hook::BossHealthbarLua);
        },
    }
    assert(hooks@ =~= hooks_of(game));
    hooks
}

/// What the game's own function gave for a text.
#[derive(PartialEq, Eq, Structural, Clone, Copy, Debug)]
pub enum VanillaText {
    Missing,
    /// Not valid text.
    Broken,
    Text,
}

/// Whether another name is looked for: for texts that are names, where the game has a text at all.
pub open spec fn looks_for_name(game: FromGame, bnd_id: u32, vanilla: VanillaText) -> bool {
    holds_names(game, bnd_id) && vanilla == VanillaText::Text
}

/// Whether the hooked function looks for another name: for texts that are names, where the game
/// has a text at all.
pub fn replaces_message(game: FromGame, bnd_id: u32, vanilla: VanillaText) -> (r: bool)
    ensures
        r == looks_for_name(game, bnd_id, vanilla),
{
    let is_npc_name = match game {
        FromGame::ER => er_npc_bnd(bnd_id),
        FromGame::DS3 => ds3_npc_bnd(bnd_id),
        FromGame::SDT => sekiro_npc_bnd(bnd_id),
        FromGame::DS1R => true,
    };
    is_npc_name && vanilla == VanillaText::Text
}

/// What takes a text's place: the shown name, or nothing at all for spawned enemies without one.
pub open spec fn replacement(shown: Option<Seq<char>>, msg_id: i32) -> Option<Seq<char>> {
    match shown {
        Some(name) => Some(name),
        None => if msg_id == SPAWN_NAME_ID {
            Some(seq![])
        } else {
            None
        },
    }
}

/// What takes a text's place, as ended code units, and the claim to report as used.
#[derive(Debug)]
pub struct Replacement {
    pub units: Option<Vec<u16>>,
    pub post: Option<NameClaim>,
}

/// Whether `r` holds what takes a text's place where the healthbar shows `shown`.
pub open spec fn is_replacement(
    r: Replacement,
    shown: crate::names::client::ShownModel,
    msg_id: i32,
) -> bool {
    let text = match shown {
        Some((name, _)) => replacement(Some(name), msg_id),
        None => replacement(None, msg_id),
    };
    &&& match text {
        Some(t) => r.units matches Some(units) && units@ == crate::wide::wide(t).push(0),
        None => r.units is None,
    }
    &&& match shown {
        Some((_, Some(claim))) => r.post matches Some(post) && post@ == claim,
        _ => r.post is None,
    }
}

/// What takes a text's place where the healthbar shows `shown`.
pub fn replacement_for(shown: Option<ShownName>, msg_id: i32) -> (r: Replacement)
    ensures
        is_replacement(r, crate::names::client::shown_model(shown), msg_id),
{
    match shown {
        Some(s) => {
            let units = encode_wide_terminated(s.name.as_str());
            Replacement { units: Some(units), post: s.post }
        },
        None => {
            if msg_id == SPAWN_NAME_ID {
                let units = encode_wide_terminated("");
                proof {
                    reveal_strlit("");
                    assert(""@ =~= seq![]);
                }
                Replacement { units: Some(units), post: None }
            } else {
                Replacement { units: None, post: None }
            }
        },
    }
}

/// What takes the place of a name's text, for the entity whose name is being read, or 0.
pub fn get_replace_npc_name(names: &mut NameClient, entity_id: u32, msg_id: i32) -> (r: Replacement)
    requires
        crate::names::client::can_show(
            old(names).state@,
            entity_id,
            msg_id,
            old(names).game,
            old(names).templates,
        ),
    ensures
        exists|draw: int|
            crate::names::client::shown_draw(
                old(names).state@,
                entity_id,
                msg_id,
                old(names).game,
                old(names).templates,
                draw,
            ) && final(names).state@ == (#[trigger] crate::names::client::shown_outcome(
                old(names).state@,
                entity_id,
                msg_id,
                old(names).game,
                old(names).templates,
                draw,
            )).0 && is_replacement(
                r,
                crate::names::client::shown_outcome(
                    old(names).state@,
                    entity_id,
                    msg_id,
                    old(names).game,
                    old(names).templates,
                    draw,
                ).1,
                msg_id,
            ),
        final(names).game == old(names).game,
        final(names).templates == old(names).templates,
{
    let shown = names.claim_name(entity_id, msg_id);
    replacement_for(shown, msg_id)
}

/// The boss of the first entity group that has one.
pub open spec fn group_boss(er_groups: Map<u32, u32>, groups: Seq<u32>) -> Option<u32>
    decreases groups.len(),
{
    if groups.len() == 0 {
        None
    } else {
        match group_boss(er_groups, groups.drop_last()) {
            Some(boss) => Some(boss),
            None => if groups.last() != 0 && er_groups.contains_key(groups.last()) {
                Some(er_groups[groups.last()])
            } else {
                None
            },
        }
    }
}

/// The boss whose healthbar is shown for an entity: the entity itself where it has a name
/// template, otherwise the boss of its first entity group that has one.
pub open spec fn healthbar_boss_of(templates: NameTemplates, entity_id: u32, groups: Seq<u32>) -> u32 {
    if templates.er@.contains_key(entity_id) {
        entity_id
    } else {
        match group_boss(templates.er_groups@, groups) {
            Some(boss) => boss,
            None => entity_id,
        }
    }
}

/// The boss whose healthbar is shown for an entity of Elden Ring in the given groups.
pub fn healthbar_boss(templates: &NameTemplates, entity_id: u32, groups: &Vec<u32>) -> (r: u32)
    ensures
        r == healthbar_boss_of(*templates, entity_id, groups@),
{
    if templates.er.contains_key(&entity_id) {
        return entity_id;
    }
    let mut boss: Option<u32> = None;
    let mut i: usize = 0;
    while i < groups.len()
        invariant
            i <= groups@.len(),
            boss == group_boss(templates.er_groups@, groups@.take(i as int)),
        decreases groups@.len() - i,
    {
        assert(groups@.take(i + 1).drop_last() =~= groups@.take(i as int));
        let group_id = groups[i];
        if boss.is_none() && group_id != 0 {
            if let Some(rep) = templates.er_groups.get(&group_id) {
                boss = Some(*rep);
            }
        }
        i = i + 1;
    }
    assert(groups@.take(groups@.len() as int) =~= groups@);
    match boss {
        Some(b) => b,
        None => entity_id,
    }
}

/// A healthbar is shown in Elden Ring: its boss is noted where the entity is there.
pub fn display_boss_healthbar_er(
    names: &mut NameClient,
    entity: Option<(u32, Vec<u32>)>,
    msg_id: i32,
)
    ensures
        match entity {
            Some((entity_id, groups)) => final(names).state@
                == crate::names::state::after_msg_boss(
                old(names).state@,
                healthbar_boss_of(old(names).templates, entity_id, groups@),
                msg_id,
            ),
            None => final(names).state@ == old(names).state@,
        },
        final(names).game == old(names).game,
        final(names).templates == old(names).templates,
{
    if let Some((entity_id, groups)) = entity {
        let boss = healthbar_boss(&names.templates, entity_id, &groups);
        names.set_msg_boss(boss, msg_id);
    }
}

/// The state after a healthbar is shown in one of the other games.
pub open spec fn after_lua_healthbar(
    m: crate::names::state::NameModel,
    entity_id: i32,
    msg_id: i32,
) -> crate::names::state::NameModel {
    if entity_id > 0 {
        crate::names::state::after_msg_boss(m, entity_id as u32, msg_id)
    } else {
        m
    }
}

/// A healthbar is shown in one of the other games: its boss is noted where it has an entity id.
pub fn display_boss_healthbar_lua(names: &mut NameClient, entity_id: i32, msg_id: i32)
    ensures
        final(names).state@ == after_lua_healthbar(old(names).state@, entity_id, msg_id),
        final(names).game == old(names).game,
        final(names).templates == old(names).templates,
{
    if entity_id > 0 {
        names.set_msg_boss(entity_id as u32, msg_id);
    }
}

/// What is written into the game to make room for spawned enemies: the set's size in bytes, at
/// sixteen bytes for each, and its capacity.
pub fn buddy_set_patch() -> (r: (u32, u32))
    ensures
        r.0 == CHR_SET_CAPACITY * 0x10,
        r.1 == CHR_SET_CAPACITY,
{
    (CHR_SET_CAPACITY * 0x10, CHR_SET_CAPACITY)
}

/// A spawned enemy never shows the game's own text, only its name or nothing.
pub proof fn lemma_spawned_never_vanilla(r: Replacement, shown: crate::names::client::ShownModel)
    requires
        is_replacement(r, shown, SPAWN_NAME_ID),
    ensures
        r.units is Some,
{
}

/// Texts are names in archive 18 of every game that has archives, in two more of Elden Ring and of
/// Dark Souls III, and all the texts that are read in Dark Souls. Only a text that the game has is
/// looked at.
pub proof fn lemma_which_texts_are_names(game: FromGame, bnd_id: u32, vanilla: VanillaText)
    ensures
        looks_for_name(game, 18, VanillaText::Text),
        game == FromGame::DS1R ==> looks_for_name(game, bnd_id, VanillaText::Text),
        game == FromGame::SDT && bnd_id != 18 ==> !looks_for_name(game, bnd_id, vanilla),
        game == FromGame::ER ==> looks_for_name(game, 328, VanillaText::Text) && looks_for_name(
            game,
            428,
            VanillaText::Text,
        ),
        game == FromGame::DS3 ==> looks_for_name(game, 215, VanillaText::Text) && looks_for_name(
            game,
            255,
            VanillaText::Text,
        ),
        game == FromGame::ER && looks_for_name(game, bnd_id, vanilla) ==> bnd_id == 18 || bnd_id
            == 328 || bnd_id == 428,
        game == FromGame::DS3 && looks_for_name(game, bnd_id, vanilla) ==> bnd_id == 18 || bnd_id
            == 215 || bnd_id == 255,
        vanilla != VanillaText::Text ==> !looks_for_name(game, bnd_id, vanilla),
{
}

/// In every game names are read through one hook, and healthbars are shown through one, from a
/// script in all but Elden Ring. Only there the names of characters are hooked too.
pub proof fn lemma_hooks(game: FromGame)
    ensures
        ({
            let hooks = hooks_of(game);
            &&& hooks.no_duplicates()
            &&& hooks[0] == if game == FromGame::DS1R {
                Hook::GetNpcName
            } else {
                Hook::GetMessage
            }
            &&& hooks.last() == if game == FromGame::ER {
                Hook::BossHealthbar
            } else {
                Hook::BossHealthbarLua
            }
            &&& game == FromGame::ER ==> hooks.len() == 3 && hooks[1] == Hook::GetChrName
            &&& game != FromGame::ER ==> hooks.len() == 2
        }),
{
}

/// What takes a text's place is the shown name, ended by a zero; without one, nothing for the text
/// of spawned enemies, and no other text is replaced. A claim is reported just where one was used.
pub proof fn lemma_replacement(
    r: Replacement,
    shown: crate::names::client::ShownModel,
    msg_id: i32,
)
    requires
        is_replacement(r, shown, msg_id),
    ensures
        match shown {
            Some((name, post)) => {
                &&& r.units is Some && r.units.unwrap()@ == crate::wide::wide(name).push(0)
                &&& r.post is Some <==> post is Some
                &&& post matches Some(claim) ==> r.post.unwrap()@ == claim
            },
            None => {
                &&& r.post is None
                &&& msg_id == SPAWN_NAME_ID ==> r.units is Some && r.units.unwrap()@ == seq![0u16]
                &&& msg_id != SPAWN_NAME_ID ==> r.units is None
            },
        },
{
    if shown is None && msg_id == SPAWN_NAME_ID {
        assert(crate::wide::wide(Seq::empty()).push(0) =~= seq![0u16]);
    }
}

/// The boss of groups is that of the first of them, other than 0, that has one.
pub proof fn lemma_group_boss(er_groups: Map<u32, u32>, groups: Seq<u32>)
    ensures
        match group_boss(er_groups, groups) {
            Some(boss) => exists|i: int|
                0 <= i < groups.len() && #[trigger] groups[i] != 0 && er_groups.contains_key(
                    groups[i],
                ) && er_groups[groups[i]] == boss && forall|j: int|
                    0 <= j < i ==> #[trigger] groups[j] == 0 || !er_groups.contains_key(groups[j]),
            None => forall|j: int|
                0 <= j < groups.len() ==> #[trigger] groups[j] == 0 || !er_groups.contains_key(
                    groups[j],
                ),
        },
    decreases groups.len(),
{
    if groups.len() > 0 {
        let rest = groups.drop_last();
        lemma_group_boss(er_groups, rest);
        match group_boss(er_groups, rest) {
            Some(boss) => {
                let i = choose|i: int|
                    0 <= i < rest.len() && #[trigger] rest[i] != 0 && er_groups.contains_key(
                        rest[i],
                    ) && er_groups[rest[i]] == boss && forall|j: int|
                        0 <= j < i ==> #[trigger] rest[j] == 0 || !er_groups.contains_key(rest[j]);
                assert(groups[i] == rest[i]);
                assert forall|j: int| 0 <= j < i implies #[trigger] groups[j] == 0
                    || !er_groups.contains_key(groups[j]) by {
                    assert(rest[j] == groups[j]);
                }
            },
            None => {
                assert forall|j: int| 0 <= j < rest.len() implies #[trigger] groups[j] == 0
                    || !er_groups.contains_key(groups[j]) by {
                    assert(rest[j] == groups[j]);
                }
                if group_boss(er_groups, groups) is Some {
                    assert(groups[groups.len() - 1] != 0);
                }
            },
        }
    }
}

/// Whose healthbar is noted: in Elden Ring that of an entity with a name template, otherwise that
/// of its group's boss, otherwise that of the entity; elsewhere that of the entity, where it has a
/// number above zero. Where there is none, nothing changes.
pub proof fn lemma_healthbar(
    m: crate::names::state::NameModel,
    templates: NameTemplates,
    entity_id: u32,
    groups: Seq<u32>,
    lua_id: i32,
    msg_id: i32,
)
    ensures
        templates.er@.contains_key(entity_id) ==> healthbar_boss_of(templates, entity_id, groups)
            == entity_id,
        !templates.er@.contains_key(entity_id) ==> match group_boss(
            templates.er_groups@,
            groups,
        ) {
            Some(boss) => healthbar_boss_of(templates, entity_id, groups) == boss,
            None => healthbar_boss_of(templates, entity_id, groups) == entity_id,
        },
        lua_id <= 0 ==> after_lua_healthbar(m, lua_id, msg_id) == m,
        lua_id > 0 ==> after_lua_healthbar(m, lua_id, msg_id)
            == crate::names::state::after_msg_boss(m, lua_id as u32, msg_id),
{
}

} // verus!
