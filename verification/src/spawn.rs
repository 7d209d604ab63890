//! Spawning enemies on request.
use vstd::prelude::*;

pub mod job;
pub mod laws;
pub mod mob;

use crate::names::NameClaim;
use crate::text::{clone_text, same_text};

verus! {

/// The size of the character set that spawned enemies live in.
pub const CHR_SET_CAPACITY: u32 = 320;

/// The first place in the set that is used.
pub const CHR_SET_START: u32 = 160;

/// The entity id of a spawned enemy with index 0.
pub const SPAWN_ENTITY_BASE: u32 = 460280000;

/// A request to spawn enemies.
#[derive(Debug)]
pub struct SpawnRequest {
    pub name: Option<String>,
    pub spawn: Option<EnemySpawn>,
    pub enemies: Option<Vec<EnemySpawn>>,
    pub inits: Option<Vec<EnemyInit>>,
    pub claim: Option<NameClaim>,
    /// Whether enemies stand side by side, rather than scattered.
    pub sequential: bool,
}

/// An event to start for the spawned enemies, with entity ids of the request among its
/// arguments.
#[derive(Debug)]
pub struct EnemyInit {
    pub id: u32,
    pub args: Vec<u32>,
}

/// An enemy to spawn.
#[derive(Debug)]
pub struct EnemySpawn {
    /// What the request's events call the enemy.
    pub entity_id: Option<u32>,
    pub model: String,
    pub npc_param: i32,
    pub npc_think_param: i32,
    pub chara_init_param: Option<i32>,
    /// Whether the first enemy of the request rides this one.
    pub mount: bool,
    /// The place to take in the character set.
    pub index: Option<u32>,
}

impl Clone for EnemySpawn {
    fn clone(&self) -> (r: Self)
        ensures
            r == *self,
    {
        EnemySpawn {
            entity_id: self.entity_id,
            model: self.model.clone(),
            npc_param: self.npc_param,
            npc_think_param: self.npc_think_param,
            chara_init_param: self.chara_init_param,
            mount: self.mount,
            index: self.index,
        }
    }
}

/// An enemy with a model and parameters, and nothing else.
pub open spec fn is_plain_enemy(
    e: EnemySpawn,
    model: Seq<char>,
    npc_param: i32,
    npc_think_param: i32,
) -> bool {
    &&& e.entity_id is None
    &&& e.model@ == model
    &&& e.npc_param == npc_param
    &&& e.npc_think_param == npc_think_param
    &&& e.chara_init_param is None
    &&& !e.mount
    &&& e.index is None
}

/// Whether an enemy is the one known by a name.
pub open spec fn is_named_enemy(e: EnemySpawn, name: Seq<char>) -> bool {
    if name == "Crab"@ {
        is_plain_enemy(e, "c2275"@, 22750020, 22750000)
    } else if name == "Messmer"@ {
        is_plain_enemy(e, "c5130"@, 51300099, 51300000)
    } else {
        false
    }
}

/// Whether an enemy is known by a name.
pub open spec fn is_enemy_name(name: Seq<char>) -> bool {
    name == "Crab"@ || name == "Messmer"@
}

/// Whether a request spawns one enemy and nothing else.
pub open spec fn is_single(req: SpawnRequest, e: EnemySpawn) -> bool {
    &&& req.name is None
    &&& req.spawn is None
    &&& req.enemies matches Some(enemies) && enemies@ == seq![e]
    &&& req.inits is None
    &&& req.claim is None
    &&& !req.sequential
}

/// Whether two requests are the same.
pub open spec fn same_request(a: SpawnRequest, b: SpawnRequest) -> bool {
    &&& a.name == b.name
    &&& a.spawn == b.spawn
    &&& match (a.enemies, b.enemies) {
        (Some(x), Some(y)) => x@ == y@,
        (None, None) => true,
        _ => false,
    }
    &&& match (a.inits, b.inits) {
        (Some(x), Some(y)) => x@.len() == y@.len() && forall|k: int|
            0 <= k < x@.len() ==> (#[trigger] x@[k]).id == y@[k].id && x@[k].args@ == y@[k].args@,
        (None, None) => true,
        _ => false,
    }
    &&& a.claim == b.claim
    &&& a.sequential == b.sequential
}

/// Whether a request leads to another: to its single enemy where it has one, otherwise to its list
/// of enemies with all that goes with them, otherwise to the enemy with its name.
pub open spec fn leads_to(enabled: bool, item: SpawnRequest, r: Option<SpawnRequest>) -> bool {
    match (item.spawn, item.enemies, item.name) {
        (Some(e), _, _) => if enabled {
            r matches Some(req) && is_single(req, e)
        } else {
            r is None
        },
        (None, Some(_), _) => if enabled {
            r matches Some(req) && same_request(req, item)
        } else {
            r is None
        },
        (None, None, Some(name)) => if enabled && is_enemy_name(name@) {
            r matches Some(req) && exists|e: EnemySpawn|
                #[trigger] is_named_enemy(e, name@) && is_single(req, e)
        } else {
            r is None
        },
        (None, None, None) => r is None,
    }
}

fn clone_enemies(list: &Vec<EnemySpawn>) -> (r: Vec<EnemySpawn>)
    ensures
        r@ == list@,
{
    let mut out: Vec<EnemySpawn> = Vec::new();
    let mut i: usize = 0;
    while i < list.len()
        invariant
            i <= list@.len(),
            out@ == list@.take(i as int),
        decreases list@.len() - i,
    {
        out.push(list[i].clone());
        assert(list@.take(i + 1) =~= list@.take(i as int).push(list@[i as int]));
        i = i + 1;
    }
    assert(list@.take(list@.len() as int) =~= list@);
    out
}

fn clone_inits(list: &Vec<EnemyInit>) -> (r: Vec<EnemyInit>)
    ensures
        r@.len() == list@.len(),
        forall|k: int|
            0 <= k < r@.len() ==> (#[trigger] r@[k]).id == list@[k].id && r@[k].args@
                == list@[k].args@,
{
    let mut out: Vec<EnemyInit> = Vec::new();
    let mut i: usize = 0;
    while i < list.len()
        invariant
            i <= list@.len(),
            out@.len() == i,
            forall|k: int|
                0 <= k < i ==> (#[trigger] out@[k]).id == list@[k].id && out@[k].args@
                    == list@[k].args@,
        decreases list@.len() - i,
    {
        out.push(EnemyInit { id: list[i].id, args: list[i].args.clone() });
        i = i + 1;
    }
    out
}

impl SpawnRequest {
    /// A copy of the request.
    pub fn copy(&self) -> (r: Self)
        ensures
            same_request(r, *self),
    {
        let spawn = match &self.spawn {
            Some(e) => Some(e.clone()),
            None => None,
        };
        let enemies = match &self.enemies {
            Some(list) => Some(clone_enemies(list)),
            None => None,
        };
        let inits = match &self.inits {
            Some(list) => Some(clone_inits(list)),
            None => None,
        };
        let claim = match &self.claim {
            Some(c) => Some(c.clone()),
            None => None,
        };
        SpawnRequest {
            name: clone_text(&self.name),
            spawn,
            enemies,
            inits,
            claim,
            sequential: self.sequential,
        }
    }
}

/// Brings spawn requests into one form: a list of enemies.
#[derive(Debug)]
pub struct EnemySpawner {
    /// Whether anything is spawned at all.
    pub enabled: bool,
}

impl EnemySpawner {
    pub fn new(enabled: bool) -> (r: Self)
        ensures
            r.enabled == enabled,
    {
        EnemySpawner { enabled }
    }

    /// What a request leads to: its single enemy where it has one, otherwise its list of enemies
    /// with all that goes with them, otherwise the enemy with its name.
    pub fn spawn_req(&self, item: &SpawnRequest) -> (r: Option<SpawnRequest>)
        ensures
            leads_to(self.enabled, *item, r),
    {
        if let Some(enemy) = &item.spawn {
            self.spawn_enemy(enemy.clone())
        } else if item.enemies.is_some() {
            self.send_spawn(item)
        } else if let Some(name) = &item.name {
            self.spawn_name(name.as_str())
        } else {
            None
        }
    }

    fn send_spawn(&self, req: &SpawnRequest) -> (r: Option<SpawnRequest>)
        ensures
            if self.enabled {
                r matches Some(sent) && same_request(sent, *req)
            } else {
                r is None
            },
    {
        if self.enabled {
            Some(req.copy())
        } else {
            None
        }
    }

    /// What spawns the enemy with a name, where one is known by it.
    pub fn spawn_name(&self, name: &str) -> (r: Option<SpawnRequest>)
        ensures
            if self.enabled && is_enemy_name(name@) {
                r matches Some(req) && exists|e: EnemySpawn|
                    #[trigger] is_named_enemy(e, name@) && is_single(req, e)
            } else {
                r is None
            },
    {
        let enemy = if same_text(name, "Crab") {
            EnemySpawn {
                entity_id: None,
                model: "c2275".to_owned(),
                npc_param: 22750020,
                npc_think_param: 22750000,
                chara_init_param: None,
                mount: false,
                index: None,
            }
        } else if same_text(name, "Messmer") {
            EnemySpawn {
                entity_id: None,
                model: "c5130".to_owned(),
                npc_param: 51300099,
                npc_think_param: 51300000,
                chara_init_param: None,
                mount: false,
                index: None,
            }
        } else {
            return None;
        };
        assert(is_named_enemy(enemy, name@));
        self.spawn_enemy(enemy)
    }

    /// What spawns one enemy.
    pub fn spawn_enemy(&self, spawn: EnemySpawn) -> (r: Option<SpawnRequest>)
        ensures
            if self.enabled {
                r matches Some(req) && is_single(req, spawn)
            } else {
                r is None
            },
    {
        let mut enemies: Vec<EnemySpawn> = Vec::new();
        enemies.push(spawn);
        assert(enemies@ =~= seq![spawn]);
        let req = SpawnRequest {
            name: None,
            spawn: None,
            enemies: Some(enemies),
            inits: None,
            claim: None,
            sequential: false,
        };
        self.send_spawn(&req)
    }
}

} // verus!
