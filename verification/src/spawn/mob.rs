//! Where a spawned enemy goes in the character set, and how it is asked for.
use vstd::bytes::u32_to_le_bytes;
use vstd::prelude::*;

use std::collections::hash_map::DefaultHasher;
use std::collections::HashSet;
use std::hash::Hasher;

use crate::spawn::{EnemySpawn, CHR_SET_CAPACITY, CHR_SET_START, SPAWN_ENTITY_BASE};
use crate::wide::encode_wide;

verus! {

broadcast use vstd::std_specs::hash::group_hash_axioms;

/// A handle to something in the game's world.
#[derive(PartialEq, Eq, Structural, Clone, Copy, Debug)]
pub struct FieldInsHandle {
    /// The kind in the top four bits, the container in the next eight, the index below.
    pub selector: u32,
    /// The block, or -1 where it belongs to none.
    pub block_id: i32,
}

/// The handle of a character with the given index in the set of spawned enemies: a character is
/// kind 1, the set is container 113, and an index has twenty bits.
pub open spec fn handle_of(index: u32) -> FieldInsHandle {
    FieldInsHandle {
        selector: (0x1000_0000 + 113 * 0x10_0000 + index as int % 0x10_0000) as u32,
        block_id: -1i32,
    }
}

/// The handle of a character with the given index in the set of spawned enemies.
pub fn generate_field_ins_handle(index: u32) -> (r: FieldInsHandle)
    ensures
        r == handle_of(index),
{
    FieldInsHandle {
        selector: 0x1000_0000 + 113 * 0x10_0000 + index % 0x10_0000,
        block_id: -1,
    }
}

/// The place in the character set for an enemy's index.
pub open spec fn set_index(index: u32) -> u32 {
    (CHR_SET_START + index as int % (CHR_SET_CAPACITY - CHR_SET_START)) as u32
}

/// The place in the character set for an enemy's index.
pub fn chr_set_index(index: u32) -> (r: u32)
    ensures
        r == set_index(index),
{
    CHR_SET_START + index % (CHR_SET_CAPACITY - CHR_SET_START)
}

/// Whether `index` is the one to use: a given one always, otherwise the last whose place is free,
/// and the first of all where none is.
pub open spec fn is_chosen(given: Option<u32>, taken: Set<u32>, index: u32) -> bool {
    match given {
        Some(i) => index == i,
        None => {
            &&& CHR_SET_START <= index < CHR_SET_CAPACITY
            &&& forall|i: u32|
                index < i < CHR_SET_CAPACITY ==> taken.contains(#[trigger] set_index(i))
            &&& taken.contains(set_index(index)) ==> index == CHR_SET_START
        },
    }
}

/// The index to use, where `taken` holds the places of the character set that are taken.
pub fn choose_index(given: Option<u32>, taken: &HashSet<u32>) -> (r: u32)
    ensures
        is_chosen(given, taken@, r),
{
    if let Some(index) = given {
        return index;
    }
    let mut index: u32 = CHR_SET_CAPACITY;
    while index > CHR_SET_START
        invariant
            given is None,
            CHR_SET_START <= index <= CHR_SET_CAPACITY,
            forall|i: u32| index <= i < CHR_SET_CAPACITY ==> taken@.contains(
                #[trigger] set_index(i),
            ),
        decreases index,
    {
        index = index - 1;
        let place = chr_set_index(index);
        if !taken.contains(&place) {
            return index;
        }
    }
    CHR_SET_START
}

/// Two different indices in the used range have different places.
pub proof fn lemma_places_are_distinct(a: u32, b: u32)
    requires
        CHR_SET_START <= a < CHR_SET_CAPACITY,
        CHR_SET_START <= b < CHR_SET_CAPACITY,
        a != b,
    ensures
        set_index(a) != set_index(b),
        handle_of(set_index(a)) != handle_of(set_index(b)),
{
}

/// Every place is within the used range of the set.
pub proof fn lemma_place_in_set(index: u32)
    ensures
        CHR_SET_START <= set_index(index) < CHR_SET_CAPACITY,
{
}

/// What is asked of the game for an enemy.
#[derive(Debug)]
pub struct MobPlan {
    pub handle: FieldInsHandle,
    pub entity_id: u32,
    /// Whether another enemy has to leave the place first.
    pub replaces: bool,
    pub npc_param: i32,
    pub npc_think_param: i32,
    pub chara_init_param: i32,
    /// The model's name in a field of sixteen code units.
    pub asset_name: Vec<u16>,
}

/// Whether `plan` asks for an enemy at an index.
pub open spec fn is_plan(plan: MobPlan, enemy: EnemySpawn, taken: Set<u32>, index: u32) -> bool {
    &&& plan.handle == handle_of(set_index(index))
    &&& plan.entity_id == SPAWN_ENTITY_BASE + index
    &&& plan.replaces == taken.contains(set_index(index))
    &&& plan.npc_param == enemy.npc_param
    &&& plan.npc_think_param == enemy.npc_think_param
    &&& plan.chara_init_param == match enemy.chara_init_param {
        Some(p) => p,
        None => -1i32,
    }
    &&& plan.asset_name@ == crate::wide::wide(enemy.model@) + Seq::new(11, |i: int| 0u16)
}

/// Whether an enemy can be asked for: its model's name has five code units, and a given index
/// leaves room for an entity id.
pub open spec fn can_spawn(enemy: EnemySpawn) -> bool {
    &&& crate::wide::wide(enemy.model@).len() == 5
    &&& enemy.index matches Some(i) ==> SPAWN_ENTITY_BASE + i <= u32::MAX
}

/// Whether an enemy can be asked for.
pub fn check_spawn(enemy: &EnemySpawn) -> (r: bool)
    ensures
        r == can_spawn(*enemy),
{
    encode_wide(enemy.model.as_str()).len() == 5 && match enemy.index {
        Some(i) => i <= u32::MAX - SPAWN_ENTITY_BASE,
        None => true,
    }
}

/// What is asked of the game for an enemy, where `taken` holds the places of the character set
/// that are taken.
pub fn spawn_mob(enemy: &EnemySpawn, taken: &HashSet<u32>) -> (r: MobPlan)
    requires
        can_spawn(*enemy),
    ensures
        exists|index: u32|
            #[trigger] is_chosen(enemy.index, taken@, index) && is_plan(r, *enemy, taken@, index),
{
    let index = choose_index(enemy.index, taken);
    let place = chr_set_index(index);
    let mut asset_name = encode_wide(enemy.model.as_str());
    let mut i: usize = 5;
    assert(Seq::new(0, |i: int| 0u16) =~= seq![]);
    while i < 16
        invariant
            5 <= i <= 16,
            asset_name@.len() == i,
            asset_name@ == crate::wide::wide(enemy.model@) + Seq::new(
                (i - 5) as nat,
                |i: int| 0u16,
            ),
        decreases 16 - i,
    {
        asset_name.push(0);
        assert(asset_name@ =~= crate::wide::wide(enemy.model@) + Seq::new(
            (i + 1 - 5) as nat,
            |i: int| 0u16,
        ));
        i = i + 1;
    }
    let chara_init_param: i32 = match enemy.chara_init_param {
        Some(p) => p,
        None => -1,
    };
    let plan = MobPlan {
        handle: generate_field_ins_handle(place),
        entity_id: SPAWN_ENTITY_BASE + index,
        replaces: taken.contains(&place),
        npc_param: enemy.npc_param,
        npc_think_param: enemy.npc_think_param,
        chara_init_param,
        asset_name,
    };
    assert(is_plan(plan, *enemy, taken@, index));
    plan
}

/// A knight in a fixed place of the set, to try spawning with.
pub fn buddy_spawn() -> (r: EnemySpawn)
    ensures
        r.entity_id is None,
        r.model@ == "c4351"@,
        r.npc_param == 43510010,
        r.npc_think_param == 43510000,
        r.chara_init_param == Some(-1i32),
        !r.mount,
        r.index == Some(20u32),
{
    EnemySpawn {
        entity_id: None,
        model: "c4351".to_owned(),
        npc_param: 43510010,
        npc_think_param: 43510000,
        chara_init_param: Some(-1),
        mount: false,
        index: Some(20),
    }
}

/// What is asked of the game's own way to spawn a character, apart from its position.
#[derive(PartialEq, Eq, Structural, Clone, Copy, Debug)]
pub struct DebugSpawn {
    pub chr_id: i32,
    pub chara_init_param_id: i32,
    pub npc_param_id: i32,
    pub npc_think_param_id: i32,
    pub event_entity_id: i32,
    pub talk_id: i32,
}

/// The crab with an entity id.
pub open spec fn crab(entity_id: i32) -> DebugSpawn {
    DebugSpawn {
        chr_id: 2275,
        chara_init_param_id: -1i32,
        npc_param_id: 22750020,
        npc_think_param_id: 22750000,
        event_entity_id: entity_id,
        talk_id: -1i32,
    }
}

/// Spawns crabs beside the player, each with the next entity id.
#[derive(PartialEq, Eq, Structural, Clone, Copy, Debug)]
pub struct DebugSpawner {
    pub next_id: i32,
}

impl DebugSpawner {
    /// The first crab takes the first entity id of spawned enemies.
    pub fn new() -> (r: Self)
        ensures
            r.next_id == SPAWN_ENTITY_BASE,
    {
        DebugSpawner { next_id: SPAWN_ENTITY_BASE as i32 }
    }

    /// The next crab; none, and no entity id used, where there is no player.
    pub fn debug_spawn(&mut self, has_player: bool) -> (r: Option<DebugSpawn>)
        requires
            has_player ==> old(self).next_id < i32::MAX,
        ensures
            final(self).next_id == if has_player {
                old(self).next_id + 1
            } else {
                old(self).next_id as int
            },
            r == if has_player {
                Some(crab(old(self).next_id))
            } else {
                None
            },
    {
        if !has_player {
            return None;
        }
        let id = self.next_id;
        self.next_id = id + 1;
        Some(
            DebugSpawn {
                chr_id: 2275,
                chara_init_param_id: -1,
                npc_param_id: 22750020,
                npc_think_param_id: 22750000,
                event_entity_id: id,
                talk_id: -1,
            },
        )
    }
}

/// The low sixteen bits of the default hasher's value over the position index.
pub open spec fn position_hash_of(start_index: u32) -> int {
    let hash = <DefaultHasher as vstd::std_specs::hash::DefaultHasherAdditionalSpecFns>::spec_finish(
        seq![vstd::bytes::spec_u32_to_le_bytes(start_index)],
    );
    hash as int % 0x10000
}

/// Scatters enemies: a number that depends on the position index alone, out of all `u16`.
pub fn position_hash(start_index: u32) -> (r: u16)
    ensures
        r == position_hash_of(start_index),
{
    let mut hasher = DefaultHasher::new();
    let bytes = u32_to_le_bytes(start_index);
    hasher.write(bytes.as_slice());
    assert(hasher@ =~= seq![bytes@]);
    let hash: u64 = hasher.finish();
    (hash % 0x10000) as u16
}

/// The position of the first arena in a block, among the arenas' blocks.
pub open spec fn arena_of(maps: Seq<i32>, block_id: i32) -> Option<int>
    decreases maps.len(),
{
    if maps.len() == 0 {
        None
    } else {
        match arena_of(maps.drop_last(), block_id) {
            Some(i) => Some(i),
            None => if maps.last() == block_id {
                Some(maps.len() - 1)
            } else {
                None
            },
        }
    }
}

/// The first arena in a block, among the arenas' blocks.
pub fn find_arena(maps: &Vec<i32>, block_id: i32) -> (r: Option<usize>)
    ensures
        match r {
            Some(i) => arena_of(maps@, block_id) == Some(i as int),
            None => arena_of(maps@, block_id) is None,
        },
{
    let mut found: Option<usize> = None;
    let mut i: usize = 0;
    while i < maps.len()
        invariant
            i <= maps@.len(),
            match found {
                Some(k) => arena_of(maps@.take(i as int), block_id) == Some(k as int),
                None => arena_of(maps@.take(i as int), block_id) is None,
            },
        decreases maps@.len() - i,
    {
        assert(maps@.take(i + 1).drop_last() =~= maps@.take(i as int));
        if found.is_none() && maps[i] == block_id {
            found = Some(i);
        }
        i = i + 1;
    }
    assert(maps@.take(maps@.len() as int) =~= maps@);
    found
}

/// The scatter of an index is what the hash of its four bytes leaves modulo 0x10000.
pub proof fn lemma_position_hash(start_index: u32)
    ensures
        ({
            let hash = <DefaultHasher as vstd::std_specs::hash::DefaultHasherAdditionalSpecFns>::spec_finish(
                seq![vstd::bytes::spec_u32_to_le_bytes(start_index)],
            );
            &&& 0 <= position_hash_of(start_index) < 0x10000
            &&& (hash - position_hash_of(start_index)) % 0x10000 == 0
        }),
{
}

} // verus!
