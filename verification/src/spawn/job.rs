//! Carrying out a spawn request: enemy by enemy, then their events, then a word about it.
use vstd::prelude::*;

use std::collections::HashMap;

use crate::names::NameClaim;
use crate::spawn::{EnemyInit, EnemySpawn, SpawnRequest};
use crate::text::{push_decimal, push_two_digits, replace_all};

verus! {

broadcast use vstd::std_specs::hash::group_hash_axioms;

/// What is counted across requests.
#[derive(Debug)]
pub struct SpawnCounters {
    /// The position index last given out.
    pub pos_index: u32,
    /// How often each event was started.
    pub slot_count: HashMap<u32, i32>,
}

/// A request that is being carried out.
#[derive(Debug)]
pub struct SpawnJob {
    pub enemies: Vec<EnemySpawn>,
    pub inits: Option<Vec<EnemyInit>>,
    pub name: Option<String>,
    pub claim: Option<NameClaim>,
    pub sequential: bool,
    /// Where the enemies stand.
    pub start_index: u32,
    /// How many enemies have been spawned.
    pub done: usize,
    /// The entity ids that the request uses, and those that the enemies got.
    pub mapping: HashMap<u32, u32>,
}

/// Whether the request needs a position index: where its first enemy does not have one.
pub open spec fn needs_index(enemies: Seq<EnemySpawn>) -> bool {
    enemies.len() == 0 || enemies[0].index is None
}

/// The position index last given out after a request for enemies.
pub open spec fn position_after(pos_index: u32, enemies: Seq<EnemySpawn>) -> int {
    if needs_index(enemies) {
        pos_index + 1
    } else {
        pos_index as int
    }
}

/// Where the enemies of a request stand: where the first of them says, otherwise at the next
/// position.
pub open spec fn start_position(pos_index: u32, enemies: Seq<EnemySpawn>) -> int {
    if needs_index(enemies) {
        pos_index + 1
    } else {
        enemies[0].index.unwrap() as int
    }
}

/// The claim that names the enemy of a request with a number: the request's for the first, and an
/// empty one for the others.
pub open spec fn claim_for(claim: Option<crate::names::ClaimModel>, number: int) -> crate::names::ClaimModel {
    match claim {
        Some(c) if number == 0 => c,
        _ => crate::names::ClaimModel { name: seq![], amount: 0, ignore: false, claimed: false },
    }
}

/// Whether the first enemy of a request mounts the one with a number.
pub open spec fn is_mounted(enemies: Seq<EnemySpawn>, number: int) -> bool {
    number > 0 && enemies[number].mount
}

/// The entity ids of a request and those of its enemies, once the one with a number is there.
pub open spec fn mapping_after(
    mapping: Map<u32, u32>,
    enemies: Seq<EnemySpawn>,
    number: int,
    entity_id: u32,
) -> Map<u32, u32> {
    match enemies[number].entity_id {
        Some(id) => mapping.insert(id, entity_id),
        None => mapping,
    }
}

/// How often an event was started.
pub open spec fn slots(slot_count: Map<u32, i32>, id: u32) -> int {
    if slot_count.contains_key(id) {
        slot_count[id] as int
    } else {
        0
    }
}

/// What is done for an enemy once it is there.
#[derive(Debug)]
pub struct Spawned {
    pub entity_id: u32,
    /// The claim that names it.
    pub claim: NameClaim,
    /// Whether the first enemy of the request mounts it.
    pub mounts: bool,
}

/// An event to start.
#[derive(Debug)]
pub struct EventInit {
    pub slot_id: i32,
    pub event_id: u32,
    pub args: Vec<i32>,
}

/// An unsigned number read as a signed one.
pub open spec fn as_signed(n: u32) -> int {
    if n < 0x8000_0000 {
        n as int
    } else {
        n - 0x1_0000_0000
    }
}

fn to_signed(n: u32) -> (r: i32)
    ensures
        r == as_signed(n),
{
    if n < 0x8000_0000 {
        n as i32
    } else {
        (n as i64 - 0x1_0000_0000) as i32
    }
}

/// An event's argument: an entity id of the request stands for the enemy's own.
pub open spec fn mapped_arg(mapping: Map<u32, u32>, arg: u32) -> int {
    as_signed(
        if mapping.contains_key(arg) {
            mapping[arg]
        } else {
            arg
        },
    )
}

/// How many of the events have the given id.
pub open spec fn starts(inits: Seq<EnemyInit>, id: u32) -> nat
    decreases inits.len(),
{
    if inits.len() == 0 {
        0
    } else {
        starts(inits.drop_last(), id) + if inits.last().id == id {
            1nat
        } else {
            0nat
        }
    }
}

/// Whether `event` starts the `k`-th of the events: in the next free slot of its event.
pub open spec fn is_event(
    event: EventInit,
    slot_count: Map<u32, i32>,
    mapping: Map<u32, u32>,
    inits: Seq<EnemyInit>,
    k: int,
) -> bool {
    &&& event.event_id == inits[k].id
    &&& event.slot_id == slots(slot_count, inits[k].id) + starts(inits.take(k), inits[k].id)
    &&& event.args@.len() == inits[k].args@.len()
    &&& forall|j: int|
        0 <= j < event.args@.len() ==> #[trigger] event.args@[j] == mapped_arg(
            mapping,
            inits[k].args@[j],
        )
}

/// The events of a request; none where it does not have a list.
pub open spec fn init_list(inits: Option<Vec<EnemyInit>>) -> Seq<EnemyInit> {
    match inits {
        Some(list) => list@,
        None => seq![],
    }
}

/// Every event can still be counted after the given ones.
pub open spec fn slots_fit(slot_count: Map<u32, i32>, inits: Seq<EnemyInit>) -> bool {
    forall|k: int|
        0 <= k < inits.len() ==> slots(slot_count, (#[trigger] inits[k]).id) + starts(
            inits,
            inits[k].id,
        ) <= i32::MAX
}

/// An amount of money in dollars, with cents where there are any.
pub open spec fn dollars(amount: u32) -> Seq<char> {
    crate::text::decimal((amount / 100) as nat) + (if amount % 100 == 0 {
        seq![]
    } else {
        "."@ + crate::text::two_digits((amount % 100) as nat)
    })
}

/// What is said about spawned enemies: who spawned what, and for how much.
pub open spec fn spawn_text(name: Option<Seq<char>>, claim: Option<crate::names::ClaimModel>) -> Seq<
    char,
> {
    let enemy = crate::text::replaced(
        match name {
            Some(n) => n,
            None => "an enemy"@,
        },
        " (Regular)"@,
        seq![],
    );
    match claim {
        Some(c) => c.name + " spawned "@ + enemy + (if c.amount > 0 {
            " with $"@ + dollars(c.amount)
        } else {
            seq![]
        }),
        None => "Spawned "@ + enemy,
    }
}

/// Whether events are counted after a request has started its own.
pub open spec fn are_counted(
    before: Map<u32, i32>,
    inits: Seq<EnemyInit>,
    after: Map<u32, i32>,
) -> bool {
    forall|id: u32| #[trigger] slots(after, id) == slots(before, id) + starts(inits, id)
}

/// Whether a request is started, or not, with the position index last given out before and after:
/// not outside an arena, and not without a list of enemies.
pub open spec fn is_start(
    before: u32,
    req: SpawnRequest,
    in_arena: bool,
    after: u32,
    r: Option<SpawnJob>,
) -> bool {
    match (in_arena, req.enemies) {
        (true, Some(enemies)) => {
            &&& after == position_after(before, enemies@)
            &&& r matches Some(job) && {
                &&& job.enemies == enemies
                &&& job.inits == req.inits
                &&& job.name == req.name
                &&& job.claim == req.claim
                &&& job.sequential == req.sequential
                &&& job.start_index == start_position(before, enemies@)
                &&& job.done == 0
                &&& job.mapping@ == Map::<u32, u32>::empty()
            }
        },
        _ => r is None && after == before,
    }
}

/// What ends a request.
#[derive(Debug)]
pub struct Finished {
    pub events: Vec<EventInit>,
    pub toast: String,
}

/// An optional claim as the rules see it.
pub open spec fn claim_model(claim: Option<NameClaim>) -> Option<crate::names::ClaimModel> {
    match claim {
        Some(c) => Some(c@),
        None => None,
    }
}

/// The first events start an event no more often than all of them.
pub proof fn lemma_starts_bound(inits: Seq<EnemyInit>, k: int, id: u32)
    requires
        0 <= k <= inits.len(),
    ensures
        starts(inits.take(k), id) <= starts(inits, id),
    decreases inits.len() - k,
{
    if k < inits.len() {
        lemma_starts_bound(inits, k + 1, id);
        assert(inits.take(k + 1).drop_last() =~= inits.take(k));
    } else {
        assert(inits.take(k) =~= inits);
    }
}

impl SpawnJob {
    /// The next enemy to spawn.
    pub fn next_enemy(&self) -> (r: Option<EnemySpawn>)
        requires
            self.done <= self.enemies@.len(),
        ensures
            r == if self.done < self.enemies@.len() {
                Some(self.enemies@[self.done as int])
            } else {
                None
            },
    {
        if self.done < self.enemies.len() {
            Some(self.enemies[self.done].clone())
        } else {
            None
        }
    }

    /// The next enemy was spawned with an entity id. The first enemy takes the request's claim,
    /// and the others an empty one.
    pub fn on_spawned(&mut self, entity_id: u32) -> (r: Spawned)
        requires
            old(self).done < old(self).enemies@.len(),
        ensures
            final(self).done == old(self).done + 1,
            final(self).mapping@ == mapping_after(
                old(self).mapping@,
                old(self).enemies@,
                old(self).done as int,
                entity_id,
            ),
            final(self).enemies == old(self).enemies,
            final(self).inits == old(self).inits,
            final(self).name == old(self).name,
            final(self).claim == old(self).claim,
            final(self).sequential == old(self).sequential,
            final(self).start_index == old(self).start_index,
            r.entity_id == entity_id,
            r.claim@ == claim_for(claim_model(old(self).claim), old(self).done as int),
            r.mounts == is_mounted(old(self).enemies@, old(self).done as int),
    {
        let first = self.done == 0;
        assert(self.done < self.enemies.len());
        let mount = self.enemies[self.done].mount;
        if let Some(id) = self.enemies[self.done].entity_id {
            self.mapping.insert(id, entity_id);
        }
        let mut claim = NameClaim::new(String::new(), 0);
        if first {
            if let Some(c) = &self.claim {
                claim = c.clone();
            }
        }
        self.done = self.done + 1;
        Spawned { entity_id, claim, mounts: !first && mount }
    }

    fn toast(&self) -> (r: String)
        ensures
            r@ == spawn_text(
                crate::bosses::records::text_model(self.name),
                claim_model(self.claim),
            ),
    {
        proof {
            reveal_strlit(" (Regular)");
            reveal_strlit("");
            assert(""@ =~= seq![]);
        }
        let enemy = match &self.name {
            Some(name) => replace_all(name.as_str(), " (Regular)", ""),
            None => replace_all("an enemy", " (Regular)", ""),
        };
        let mut out = String::new();
        match &self.claim {
            Some(claim) => {
                out.append(claim.name.as_str());
                out.append(" spawned ");
                out.append(enemy.as_str());
                if claim.amount > 0 {
                    out.append(" with $");
                    push_decimal(&mut out, (claim.amount / 100) as u64);
                    if claim.amount % 100 != 0 {
                        out.append(".");
                        push_two_digits(&mut out, (claim.amount % 100) as u64);
                    }
                }
            },
            None => {
                out.append("Spawned ");
                out.append(enemy.as_str());
            },
        }
        assert(out@ =~= spawn_text(
            crate::bosses::records::text_model(self.name),
            claim_model(self.claim),
        ));
        out
    }
}

fn count_starts(inits: &Vec<EnemyInit>, id: u32) -> (r: usize)
    ensures
        r == starts(inits@, id),
{
    let mut count: usize = 0;
    let mut i: usize = 0;
    while i < inits.len()
        invariant
            i <= inits@.len(),
            count <= i,
            count == starts(inits@.take(i as int), id),
        decreases inits@.len() - i,
    {
        assert(inits@.take(i + 1).drop_last() =~= inits@.take(i as int));
        if inits[i].id == id {
            count = count + 1;
        }
        i = i + 1;
    }
    assert(inits@.take(i as int) =~= inits@);
    count
}

fn map_args(mapping: &HashMap<u32, u32>, args: &Vec<u32>) -> (r: Vec<i32>)
    ensures
        r@.len() == args@.len(),
        forall|j: int|
            0 <= j < r@.len() ==> #[trigger] r@[j] == mapped_arg(mapping@, args@[j]),
{
    let mut out: Vec<i32> = Vec::new();
    let mut i: usize = 0;
    while i < args.len()
        invariant
            i <= args@.len(),
            out@.len() == i,
            forall|j: int| 0 <= j < i ==> #[trigger] out@[j] == mapped_arg(mapping@, args@[j]),
        decreases args@.len() - i,
    {
        let own = match mapping.get(&args[i]) {
            Some(id) => *id,
            None => args[i],
        };
        out.push(to_signed(own));
        i = i + 1;
    }
    out
}

impl SpawnCounters {
    pub fn new() -> (r: Self)
        ensures
            r.pos_index == 0,
            r.slot_count@ == Map::<u32, i32>::empty(),
    {
        SpawnCounters { pos_index: 0, slot_count: HashMap::new() }
    }

    /// Starts a request: not outside an arena, and not without a list of enemies. Its enemies
    /// stand where the first of them says, otherwise at the next position.
    pub fn start(&mut self, req: SpawnRequest, in_arena: bool) -> (r: Option<SpawnJob>)
        requires
            in_arena && (req.enemies matches Some(e) && needs_index(e@)) ==> old(self).pos_index
                < u32::MAX,
        ensures
            final(self).slot_count == old(self).slot_count,
            is_start(old(self).pos_index, req, in_arena, final(self).pos_index, r),
    {
        if !in_arena {
            return None;
        }
        let enemies = match req.enemies {
            Some(enemies) => enemies,
            None => {
                return None;
            },
        };
        let given: Option<u32> = if enemies.len() == 0 {
            None
        } else {
            enemies[0].index
        };
        let start_index: u32 = match given {
            Some(index) => index,
            None => {
                self.pos_index = self.pos_index + 1;
                self.pos_index
            },
        };
        Some(
            SpawnJob {
                enemies,
                inits: req.inits,
                name: req.name,
                claim: req.claim,
                sequential: req.sequential,
                start_index,
                done: 0,
                mapping: HashMap::new(),
            },
        )
    }

    /// Whether every event of a request can still be counted.
    pub fn can_finish(&self, job: &SpawnJob) -> (r: bool)
        ensures
            r == slots_fit(self.slot_count@, init_list(job.inits)),
    {
        let inits = match &job.inits {
            Some(inits) => inits,
            None => {
                return true;
            },
        };
        let mut i: usize = 0;
        while i < inits.len()
            invariant
                i <= inits@.len(),
                init_list(job.inits) == inits@,
                forall|k: int|
                    0 <= k < i ==> slots(self.slot_count@, (#[trigger] inits@[k]).id) + starts(
                        inits@,
                        inits@[k].id,
                    ) <= i32::MAX,
            decreases inits@.len() - i,
        {
            let id = inits[i].id;
            let started: i32 = match self.slot_count.get(&id) {
                Some(n) => *n,
                None => 0,
            };
            let more = count_starts(inits, id);
            assert(slots(self.slot_count@, inits@[i as int].id) == started);
            if started as i128 + more as i128 > i32::MAX as i128 {
                return false;
            }
            i = i + 1;
        }
        true
    }

    /// Ends a request whose enemies are all there: starts its events, each in the next free slot,
    /// and says a word about it.
    pub fn finish(&mut self, job: &SpawnJob) -> (r: Finished)
        requires
            job.done == job.enemies@.len(),
            slots_fit(old(self).slot_count@, init_list(job.inits)),
        ensures
            final(self).pos_index == old(self).pos_index,
            are_counted(old(self).slot_count@, init_list(job.inits), final(self).slot_count@),
            r.events@.len() == init_list(job.inits).len(),
            forall|k: int|
                0 <= k < r.events@.len() ==> is_event(
                    #[trigger] r.events@[k],
                    old(self).slot_count@,
                    job.mapping@,
                    init_list(job.inits),
                    k,
                ),
            r.toast@ == spawn_text(
                crate::bosses::records::text_model(job.name),
                claim_model(job.claim),
            ),
    {
        let ghost before = self.slot_count@;
        let mut events: Vec<EventInit> = Vec::new();
        if let Some(inits) = &job.inits {
            let mut i: usize = 0;
            while i < inits.len()
                invariant
                    i <= inits@.len(),
                    init_list(job.inits) == inits@,
                    slots_fit(before, inits@),
                    self.pos_index == old(self).pos_index,
                    forall|id: u32| #[trigger]
                        slots(self.slot_count@, id) == slots(before, id) + starts(
                            inits@.take(i as int),
                            id,
                        ),
                    events@.len() == i,
                    forall|k: int|
                        0 <= k < i ==> is_event(
                            #[trigger] events@[k],
                            before,
                            job.mapping@,
                            inits@,
                            k,
                        ),
                decreases inits@.len() - i,
            {
                let init = &inits[i];
                let ghost this = self.slot_count@;
                let slot_id: i32 = match self.slot_count.get(&init.id) {
                    Some(n) => *n,
                    None => 0,
                };
                proof {
                    assert(slots(this, init.id) == slot_id);
                    assert(inits@.take(i + 1).drop_last() =~= inits@.take(i as int));
                    lemma_starts_bound(inits@, i + 1, init.id);
                    assert(slots(before, inits@[i as int].id) + starts(
                        inits@,
                        inits@[i as int].id,
                    ) <= i32::MAX);
                }
                let args = map_args(&job.mapping, &init.args);
                let event = EventInit { slot_id, event_id: init.id, args };
                let ghost model = event;
                assert(is_event(event, before, job.mapping@, inits@, i as int));
                let ghost listed = events@;
                events.push(event);
                assert forall|k: int| 0 <= k < i + 1 implies is_event(
                    #[trigger] events@[k],
                    before,
                    job.mapping@,
                    inits@,
                    k,
                ) by {
                    if k < i {
                        assert(events@[k] == listed[k]);
                    }
                }
                self.slot_count.insert(init.id, slot_id + 1);
                assert forall|id: u32| #[trigger] slots(self.slot_count@, id) == slots(before, id)
                    + starts(inits@.take(i + 1), id) by {
                    assert(slots(this, id) == slots(before, id) + starts(
                        inits@.take(i as int),
                        id,
                    ));
                }
                i = i + 1;
            }
            assert(inits@.take(inits@.len() as int) =~= inits@);
        }
        Finished { events, toast: job.toast() }
    }
}

/// Two starts of the same event, in one request or in two, never share a slot.
pub proof fn lemma_slots_are_distinct(
    a: EventInit,
    b: EventInit,
    slot_count: Map<u32, i32>,
    mapping: Map<u32, u32>,
    inits: Seq<EnemyInit>,
    i: int,
    j: int,
)
    requires
        0 <= i < j < inits.len(),
        inits[i].id == inits[j].id,
        is_event(a, slot_count, mapping, inits, i),
        is_event(b, slot_count, mapping, inits, j),
    ensures
        a.slot_id < b.slot_id,
        b.slot_id < slots(slot_count, inits[j].id) + starts(inits, inits[j].id),
{
    let id = inits[j].id;
    assert(inits.take(i + 1).drop_last() =~= inits.take(i));
    lemma_starts_bound(inits.take(j), i + 1, id);
    assert(inits.take(j).take(i + 1) =~= inits.take(i + 1));
    assert(inits.take(j + 1).drop_last() =~= inits.take(j));
    lemma_starts_bound(inits, j + 1, id);
}

} // verus!
