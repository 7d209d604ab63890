//! Laws of spawning.
use vstd::prelude::*;

use crate::spawn;
use crate::spawn::job;
use crate::spawn::job::{EventInit, SpawnJob};
use crate::spawn::mob;
use crate::spawn::mob::MobPlan;
use crate::spawn::{EnemyInit, EnemySpawn, SpawnRequest};

verus! {

// --- Places

/// A handle is that of a character, in the set of spawned enemies, with its index in the low twenty
/// bits; it belongs to no block.
pub proof fn lemma_handle(index: u32)
    ensures
        ({
            let h = mob::handle_of(index);
            &&& h.selector / 0x1000_0000 == 1
            &&& h.selector / 0x10_0000 % 0x100 == 113
            &&& h.selector % 0x10_0000 == index % 0x10_0000
            &&& h.block_id == -1
        }),
{
}

/// An index from 160 to 319 is its own place in the set, and places repeat every 160.
pub proof fn lemma_set_index(index: u32)
    ensures
        160 <= index < 320 ==> mob::set_index(index) == index,
        160 <= mob::set_index(index) < 320,
        index + 160 <= u32::MAX ==> mob::set_index((index + 160) as u32) == mob::set_index(index),
{
}

/// The index to use is the given one, and otherwise the highest from 160 to 319 that is not taken;
/// 160 where all are.
pub proof fn lemma_chosen(given: Option<u32>, taken: Set<u32>, index: u32)
    requires
        mob::is_chosen(given, taken, index),
    ensures
        given matches Some(i) ==> index == i,
        given is None ==> {
            &&& 160 <= index < 320
            &&& forall|i: u32| index < i < 320 ==> #[trigger] taken.contains(i)
            &&& taken.contains(index) ==> index == 160 && forall|i: u32|
                160 <= i < 320 ==> #[trigger] taken.contains(i)
        },
{
    if given is None {
        lemma_set_index(index);
        assert forall|i: u32| index < i < 320 implies #[trigger] taken.contains(i) by {
            lemma_set_index(i);
            assert(taken.contains(mob::set_index(i)));
        }
    }
}

/// What is asked for an enemy: its parameters, and the place of its index. The entity id counts on
/// from 460280000. The model's name is followed by zeros, up to sixteen code units.
pub proof fn lemma_plan(plan: MobPlan, enemy: EnemySpawn, taken: Set<u32>, index: u32)
    requires
        mob::is_plan(plan, enemy, taken, index),
        mob::can_spawn(enemy),
    ensures
        plan.entity_id == 460280000 + index,
        plan.npc_param == enemy.npc_param,
        plan.npc_think_param == enemy.npc_think_param,
        enemy.chara_init_param matches Some(p) ==> plan.chara_init_param == p,
        enemy.chara_init_param is None ==> plan.chara_init_param == -1,
        160 <= index < 320 ==> plan.handle.selector % 0x10_0000 == index && (plan.replaces
            <==> taken.contains(index)),
        plan.handle == mob::handle_of(mob::set_index(index)),
        plan.replaces <==> taken.contains(mob::set_index(index)),
        plan.asset_name@.len() == 16,
        plan.asset_name@.take(5) == crate::wide::wide(enemy.model@),
        forall|i: int| 5 <= i < 16 ==> #[trigger] plan.asset_name@[i] == 0,
{
    lemma_set_index(index);
    lemma_handle(mob::set_index(index));
    assert(plan.asset_name@.take(5) =~= crate::wide::wide(enemy.model@));
}

/// An enemy can be asked for where its model's name has five code units and its entity id fits.
pub proof fn lemma_can_spawn(enemy: EnemySpawn)
    ensures
        mob::can_spawn(enemy) <==> crate::wide::wide(enemy.model@).len() == 5 && (enemy.index is None
            || 460280000 + enemy.index.unwrap() <= 0xFFFF_FFFF),
{
}

/// Two crabs differ in nothing but their entity ids; each is the crab whose parameters go with its
/// model, and says and is nothing else.
pub proof fn lemma_crab(entity_id: i32)
    ensures
        ({
            let c = mob::crab(entity_id);
            &&& c.event_entity_id == entity_id
            &&& c.chr_id == 2275
            &&& c.npc_param_id / 10000 == c.chr_id && c.npc_param_id % 10000 == 20
            &&& c.npc_think_param_id / 10000 == c.chr_id && c.npc_think_param_id % 10000 == 0
            &&& c.chara_init_param_id == -1
            &&& c.talk_id == -1
        }),
{
}

/// The arena in a block is the first of that block, and there is none only where no arena is.
pub proof fn lemma_arena_of(maps: Seq<i32>, block_id: i32)
    ensures
        match mob::arena_of(maps, block_id) {
            Some(i) => 0 <= i < maps.len() && maps[i] == block_id && forall|j: int|
                0 <= j < i ==> #[trigger] maps[j] != block_id,
            None => forall|j: int| 0 <= j < maps.len() ==> #[trigger] maps[j] != block_id,
        },
    decreases maps.len(),
{
    if maps.len() > 0 {
        let rest = maps.drop_last();
        lemma_arena_of(rest, block_id);
        match mob::arena_of(maps, block_id) {
            Some(i) => {
                assert forall|j: int| 0 <= j < i implies #[trigger] maps[j] != block_id by {
                    assert(rest[j] == maps[j]);
                }
                if i < rest.len() {
                    assert(rest[i] == maps[i]);
                }
            },
            None => {
                assert forall|j: int| 0 <= j < maps.len() implies #[trigger] maps[j] != block_id by {
                    if j < rest.len() {
                        assert(rest[j] == maps[j]);
                    }
                }
            },
        }
    }
}

// --- Requests

/// Nothing is spawned where spawning is not enabled. A single enemy comes before a list, and a list
/// before a name; the list is passed on with all that goes with it, and a name counts only where it
/// is one of the two that are known. Whatever is passed on has a list of enemies.
pub proof fn lemma_leads_to(enabled: bool, item: SpawnRequest, r: Option<SpawnRequest>)
    requires
        spawn::leads_to(enabled, item, r),
    ensures
        !enabled ==> r is None,
        enabled && (item.spawn is Some || item.enemies is Some) ==> r is Some,
        r matches Some(req) ==> req.enemies is Some,
        item.spawn is Some && r is Some ==> {
            let req = r.unwrap();
            &&& req.enemies.unwrap()@ == seq![item.spawn.unwrap()]
            &&& req.inits is None && req.claim is None && !req.sequential && req.name is None
        },
        item.spawn is None && item.enemies is Some && r is Some ==> {
            let req = r.unwrap();
            &&& req.enemies.unwrap()@ == item.enemies.unwrap()@
            &&& req.name == item.name && req.claim == item.claim && req.sequential
                == item.sequential
            &&& req.inits is Some <==> item.inits is Some
            &&& req.inits is Some ==> req.inits.unwrap()@.len() == item.inits.unwrap()@.len()
                && forall|k: int|
                0 <= k < req.inits.unwrap()@.len() ==> (#[trigger] req.inits.unwrap()@[k]).id
                    == item.inits.unwrap()@[k].id && req.inits.unwrap()@[k].args@
                    == item.inits.unwrap()@[k].args@
        },
        item.spawn is None && item.enemies is None ==> (r is Some <==> enabled && (
        item.name matches Some(name) && (name@ == "Crab"@ || name@ == "Messmer"@))),
        item.spawn is None && item.enemies is None && r is Some ==> {
            let list = r.unwrap().enemies.unwrap()@;
            let e = list[0];
            &&& list.len() == 1
            &&& item.name.unwrap()@ == "Crab"@ ==> e.model@ == "c2275"@ && e.npc_param == 22750020
                && e.npc_think_param == 22750000
            &&& item.name.unwrap()@ != "Crab"@ ==> e.model@ == "c5130"@ && e.npc_param == 51300099
                && e.npc_think_param == 51300000
            &&& e.index is None && e.entity_id is None && e.chara_init_param is None && !e.mount
        },
{
}

/// A request whose first enemy has an index uses it and counts nothing; any other gets the next
/// position, so that two of them never stand in one.
pub proof fn lemma_positions(pos_index: u32, enemies: Seq<EnemySpawn>)
    ensures
        enemies.len() > 0 && enemies[0].index is Some ==> job::start_position(pos_index, enemies)
            == enemies[0].index.unwrap() && job::position_after(pos_index, enemies) == pos_index,
        enemies.len() == 0 || enemies[0].index is None ==> job::start_position(pos_index, enemies)
            == pos_index + 1 && job::position_after(pos_index, enemies) == job::start_position(
            pos_index,
            enemies,
        ),
{
}

/// The first enemy of a request wears its claim and rides; the others are named by nobody, and are
/// ridden where they are mounts.
pub proof fn lemma_first_and_others(
    claim: Option<crate::names::ClaimModel>,
    enemies: Seq<EnemySpawn>,
    number: int,
)
    requires
        0 <= number < enemies.len(),
    ensures
        number == 0 && claim is Some ==> job::claim_for(claim, number) == claim.unwrap(),
        number > 0 || claim is None ==> job::claim_for(claim, number).name.len() == 0
            && job::claim_for(claim, number).amount == 0 && !job::claim_for(claim, number).ignore
            && !job::claim_for(claim, number).claimed,
        !job::is_mounted(enemies, 0),
        number > 0 ==> (job::is_mounted(enemies, number) <==> enemies[number].mount),
{
}

/// An enemy's own entity id stands for the one that the request uses; an enemy without one changes
/// nothing, nor does any enemy change another's.
pub proof fn lemma_mapping(
    mapping: Map<u32, u32>,
    enemies: Seq<EnemySpawn>,
    number: int,
    entity_id: u32,
    other: u32,
)
    requires
        0 <= number < enemies.len(),
    ensures
        ({
            let after = job::mapping_after(mapping, enemies, number, entity_id);
            &&& enemies[number].entity_id matches Some(id) ==> after.contains_key(id) && after[id]
                == entity_id
            &&& enemies[number].entity_id != Some(other) ==> (after.contains_key(other)
                <==> mapping.contains_key(other)) && after[other] == mapping[other]
        }),
{
}

/// A request is started just where there is an arena and it has a list of enemies. It starts with
/// none of them there, and with all that the request says; where it is not started, no position is
/// used.
pub proof fn lemma_start(
    before: u32,
    req: SpawnRequest,
    in_arena: bool,
    after: u32,
    r: Option<SpawnJob>,
)
    requires
        job::is_start(before, req, in_arena, after, r),
    ensures
        r is Some <==> in_arena && req.enemies is Some,
        r is None ==> after == before,
        r matches Some(j) ==> {
            let enemies = req.enemies.unwrap();
            &&& j.done == 0 && j.mapping@.dom() == Set::<u32>::empty()
            &&& j.enemies == enemies && j.inits == req.inits && j.name == req.name && j.claim
                == req.claim && j.sequential == req.sequential
            &&& j.start_index == job::start_position(before, enemies@)
            &&& after == job::position_after(before, enemies@)
        },
{
    if let Some(j) = r {
        assert(j.mapping@.dom() =~= Set::<u32>::empty());
    }
}

// --- Events

/// An event that a later request starts again goes to a later slot.
pub proof fn lemma_later_request_later_slot(
    a: EventInit,
    b: EventInit,
    before: Map<u32, i32>,
    after: Map<u32, i32>,
    mapping: Map<u32, u32>,
    later_mapping: Map<u32, u32>,
    inits: Seq<EnemyInit>,
    later: Seq<EnemyInit>,
    i: int,
    j: int,
)
    requires
        job::are_counted(before, inits, after),
        0 <= i < inits.len(),
        0 <= j < later.len(),
        inits[i].id == later[j].id,
        job::is_event(a, before, mapping, inits, i),
        job::is_event(b, after, later_mapping, later, j),
    ensures
        a.slot_id < b.slot_id,
{
    let id = inits[i].id;
    assert(job::slots(after, id) == job::slots(before, id) + job::starts(inits, id));
    assert(inits.take(i + 1).drop_last() =~= inits.take(i));
    job::lemma_starts_bound(inits, i + 1, id);
}

/// An unsigned number and what it is read as are the same modulo 2 to the power of 32.
pub proof fn lemma_as_signed(n: u32)
    ensures
        -0x8000_0000 <= job::as_signed(n) < 0x8000_0000,
        job::as_signed(n) == n || job::as_signed(n) == n - 0x1_0000_0000,
{
}

/// The starts of an event among events are counted one by one.
pub proof fn lemma_starts(inits: Seq<EnemyInit>, next: EnemyInit, id: u32)
    ensures
        job::starts(Seq::empty(), id) == 0,
        job::starts(inits.push(next), id) == job::starts(inits, id) + if next.id == id {
            1int
        } else {
            0int
        },
{
    assert(inits.push(next).drop_last() =~= inits);
}

/// An event is started in the first slot that was never used for it: after all its starts by
/// earlier requests, which begin at zero, and those before it in the same one. Entity ids of the
/// request among its arguments become those of the enemies; other arguments stay.
pub proof fn lemma_event(
    event: EventInit,
    slot_count: Map<u32, i32>,
    mapping: Map<u32, u32>,
    inits: Seq<EnemyInit>,
    k: int,
)
    requires
        job::is_event(event, slot_count, mapping, inits, k),
        0 <= k < inits.len(),
    ensures
        event.event_id == inits[k].id,
        ({
            let before = job::starts(inits.take(k), inits[k].id);
            &&& slot_count.contains_key(inits[k].id) ==> event.slot_id == slot_count[inits[k].id]
                + before
            &&& !slot_count.contains_key(inits[k].id) ==> event.slot_id == before
        }),
        event.args@.len() == inits[k].args@.len(),
        forall|j: int|
            0 <= j < event.args@.len() ==> {
                let given = inits[k].args@[j];
                let own = if mapping.contains_key(given) {
                    mapping[given]
                } else {
                    given
                };
                #[trigger] event.args@[j] == own || event.args@[j] == own - 0x1_0000_0000
            },
{
    assert forall|j: int| 0 <= j < event.args@.len() implies {
        let given = inits[k].args@[j];
        let own = if mapping.contains_key(given) {
            mapping[given]
        } else {
            given
        };
        #[trigger] event.args@[j] == own || event.args@[j] == own - 0x1_0000_0000
    } by {
        assert(event.args@[j] == job::mapped_arg(mapping, inits[k].args@[j]));
    }
}

// --- Words

/// An amount is written in whole dollars, and with two digits of cents where there are any; read
/// back it is the amount.
pub proof fn lemma_dollars(amount: u32)
    ensures
        ({
            let whole = crate::text::decimal((amount / 100) as nat);
            &&& amount % 100 == 0 ==> job::dollars(amount) == whole
            &&& amount % 100 != 0 ==> {
                let cents = job::dollars(amount).skip(whole.len() as int + 1);
                &&& job::dollars(amount) == whole.push('.') + cents
                &&& cents.len() == 2
                &&& crate::text::number_of(whole, 10) * 100 + crate::text::number_of(cents, 10)
                    == amount
            }
        }),
{
    let whole = crate::text::decimal((amount / 100) as nat);
    crate::text::lemma_decimal((amount / 100) as nat);
    if amount % 100 == 0 {
        assert(job::dollars(amount) =~= whole);
    } else {
        let two = crate::text::two_digits((amount % 100) as nat);
        crate::text::lemma_two_digits((amount % 100) as nat);
        reveal_strlit(".");
        assert(job::dollars(amount).skip(whole.len() as int + 1) =~= two);
        assert(job::dollars(amount) =~= whole.push('.') + two);
    }
}

/// What is said of spawned enemies: by whom where there is a claim, what without the mark of
/// regular enemies, and the money where any was given.
pub proof fn lemma_spawn_text(name: Option<Seq<char>>, claim: Option<crate::names::ClaimModel>)
    ensures
        ({
            let given = match name {
                Some(n) => n,
                None => "an enemy"@,
            };
            let enemy = crate::text::replaced(given, " (Regular)"@, Seq::empty());
            &&& claim is None ==> job::spawn_text(name, claim) == "Spawned "@ + enemy
            &&& claim matches Some(c) ==> c.amount == 0 ==> job::spawn_text(name, claim) == c.name
                + " spawned "@ + enemy
            &&& claim matches Some(c) ==> c.amount > 0 ==> job::spawn_text(name, claim) == c.name
                + " spawned "@ + enemy + " with $"@ + job::dollars(c.amount)
        }),
{
    if let Some(c) = claim {
        let given = match name {
            Some(n) => n,
            None => "an enemy"@,
        };
        let enemy = crate::text::replaced(given, " (Regular)"@, Seq::empty());
        if c.amount == 0 {
            assert(job::spawn_text(name, claim) =~= c.name + " spawned "@ + enemy);
        } else {
            assert(job::spawn_text(name, claim) =~= c.name + " spawned "@ + enemy + " with $"@
                + job::dollars(c.amount));
        }
    }
}

} // verus!
