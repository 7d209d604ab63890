//! Who has defeated a boss: the local player, and the players the server knows of.
use vstd::prelude::*;

use crate::sorting::key_order;
use crate::text::clone_text;

verus! {

/// A defeat as the rules see it.
#[verifier::ext_equal]
pub struct RecordModel {
    pub player_id: Seq<char>,
    pub flag_id: u32,
    pub defeated_at: Option<Seq<char>>,
    pub igt_ms: Option<u32>,
}

/// One player's defeat of one boss.
#[derive(Debug)]
pub struct BossRecord {
    pub player_id: String,
    pub flag_id: u32,
    pub defeated_at: Option<String>,
    /// The in-game time in milliseconds, where it could be told.
    pub igt_ms: Option<u32>,
}

/// An optional text as a sequence of characters.
pub open spec fn text_model(text: Option<String>) -> Option<Seq<char>> {
    match text {
        Some(t) => Some(t@),
        None => None,
    }
}

impl View for BossRecord {
    type V = RecordModel;

    open spec fn view(&self) -> RecordModel {
        RecordModel {
            player_id: self.player_id@,
            flag_id: self.flag_id,
            defeated_at: text_model(self.defeated_at),
            igt_ms: self.igt_ms,
        }
    }
}

impl Clone for BossRecord {
    fn clone(&self) -> (r: Self)
        ensures
            r == *self,
    {
        BossRecord {
            player_id: self.player_id.clone(),
            flag_id: self.flag_id,
            defeated_at: clone_text(&self.defeated_at),
            igt_ms: self.igt_ms,
        }
    }
}

/// Records as the rules see them.
pub open spec fn record_models(records: Seq<BossRecord>) -> Seq<RecordModel> {
    records.map_values(|r: BossRecord| r@)
}

/// The players of records.
pub open spec fn players(records: Seq<RecordModel>) -> Seq<Seq<char>> {
    records.map_values(|r: RecordModel| r.player_id)
}

/// The records with one more, in place of one of the same player.
pub open spec fn with_record(records: Seq<RecordModel>, record: RecordModel) -> Seq<RecordModel> {
    let i = crate::text::position_of(players(records), record.player_id);
    if i < records.len() {
        records.update(i, record)
    } else {
        records.push(record)
    }
}

/// A boss's defeats as the rules see them.
#[verifier::ext_equal]
pub struct BossModel {
    pub local: Option<RecordModel>,
    pub network: Seq<RecordModel>,
}

/// A boss's defeats: here, and by the players that the server knows of, one record for each.
#[derive(Debug)]
pub struct BossState {
    pub local: Option<BossRecord>,
    pub network: Vec<BossRecord>,
}

impl View for BossState {
    type V = BossModel;

    open spec fn view(&self) -> BossModel {
        BossModel {
            local: match self.local {
                Some(r) => Some(r@),
                None => None,
            },
            network: record_models(self.network@),
        }
    }
}

/// A boss that nobody has defeated.
pub open spec fn undefeated() -> BossModel {
    BossModel { local: None, network: seq![] }
}

/// Whether anybody has defeated the boss.
pub open spec fn dead(b: BossModel) -> bool {
    b.local is Some || b.network.len() > 0
}

/// No player has two records.
pub open spec fn one_record_each(b: BossModel) -> bool {
    players(b.network).no_duplicates()
}

/// The local defeat, where the server does not know of it.
pub open spec fn pending(b: BossModel) -> Option<RecordModel> {
    match b.local {
        Some(r) if !players(b.network).contains(r.player_id) => Some(r),
        _ => None,
    }
}

/// All defeats, the local one only where the server does not know of it.
pub open spec fn all_records(b: BossModel) -> Seq<RecordModel> {
    match pending(b) {
        Some(r) => seq![r] + b.network,
        None => b.network,
    }
}

/// What records are ordered by: the in-game time, those without one first.
pub open spec fn igt_key(r: RecordModel) -> u64 {
    match r.igt_ms {
        Some(t) => (t + 1) as u64,
        None => 0,
    }
}

/// The order of the records by in-game time, records of equal time as they stand.
pub open spec fn igt_order(records: Seq<RecordModel>, order: Seq<usize>) -> bool {
    crate::sorting::is_key_order(records.map_values(|r: RecordModel| igt_key(r)), order)
}

/// Adding a record keeps one record for each player, and the player's record is now the new one.
pub proof fn lemma_with_record(records: Seq<RecordModel>, record: RecordModel)
    requires
        players(records).no_duplicates(),
    ensures
        players(with_record(records, record)).no_duplicates(),
        with_record(records, record).contains(record),
        forall|p: Seq<char>|
            #[trigger] players(with_record(records, record)).contains(p) <==> p
                == record.player_id || players(records).contains(p),
        forall|i: int|
            0 <= i < records.len() && records[i].player_id != record.player_id
                ==> with_record(records, record).contains(#[trigger] records[i]),
{
    let list = players(records);
    crate::text::lemma_position_of(list, record.player_id);
    let at = crate::text::position_of(list, record.player_id);
    let after = with_record(records, record);
    let names = players(after);
    assert(after[at] == record);
    if at < records.len() {
        assert(names =~= list);
    } else {
        assert(names =~= list.push(record.player_id));
    }
    assert forall|p: Seq<char>| #[trigger] names.contains(p) <==> p == record.player_id
        || list.contains(p) by {
        if names.contains(p) {
            let i = choose|i: int| 0 <= i < names.len() && names[i] == p;
            if i < list.len() {
                assert(list[i] == p);
            }
        }
        if p == record.player_id {
            assert(names[at] == p);
        }
        if list.contains(p) {
            let i = choose|i: int| 0 <= i < list.len() && list[i] == p;
            assert(names[i] == p);
        }
    }
    assert forall|i: int|
        0 <= i < records.len() && records[i].player_id
            != record.player_id implies after.contains(#[trigger] records[i]) by {
        assert(list[i] == records[i].player_id);
        assert(after[i] == records[i]);
    }
}

/// A boss is pending exactly until the server has a record of the local player.
pub proof fn lemma_acknowledged_is_not_pending(b: BossModel, record: RecordModel)
    requires
        one_record_each(b),
    ensures
        pending(BossModel { network: with_record(b.network, record), ..b }) == (match pending(b) {
            Some(r) if r.player_id != record.player_id => Some(r),
            _ => None,
        }),
{
    lemma_with_record(b.network, record);
}

fn find_record(records: &Vec<BossRecord>, player_id: &String) -> (r: usize)
    ensures
        r == crate::text::position_of(players(record_models(records@)), player_id@),
        r <= records@.len(),
{
    let ghost list = players(record_models(records@));
    let mut i: usize = 0;
    while i < records.len() && records[i].player_id != *player_id
        invariant
            i <= records@.len(),
            list == players(record_models(records@)),
            forall|k: int| 0 <= k < i ==> #[trigger] list[k] != player_id@,
        decreases records@.len() - i,
    {
        assert(list[i as int] == records@[i as int].player_id@);
        i = i + 1;
    }
    proof {
        if i < list.len() {
            assert(list[i as int] == records@[i as int].player_id@);
        }
        crate::text::lemma_position_is(list, player_id@, i as int);
    }
    i
}

impl BossState {
    pub fn new() -> (r: Self)
        ensures
            r@ == undefeated(),
    {
        let r = BossState { local: None, network: Vec::new() };
        assert(r@.network =~= seq![]);
        r
    }

    pub fn local_dead(&self) -> (r: bool)
        ensures
            r == (self@.local is Some),
    {
        self.local.is_some()
    }

    pub fn network_dead(&self) -> (r: bool)
        ensures
            r == (self@.network.len() > 0),
    {
        self.network.len() > 0
    }

    pub fn any_dead(&self) -> (r: bool)
        ensures
            r == dead(self@),
    {
        self.local.is_some() || self.network.len() > 0
    }

    fn knows(&self, player_id: &String) -> (r: bool)
        ensures
            r == players(self@.network).contains(player_id@),
    {
        proof {
            crate::text::lemma_position_of(players(self@.network), player_id@);
        }
        find_record(&self.network, player_id) < self.network.len()
    }

    /// The local defeat, where the server does not know of it.
    pub fn pending_dead(&self) -> (r: Option<BossRecord>)
        ensures
            match r {
                Some(record) => pending(self@) == Some(record@),
                None => pending(self@) is None,
            },
    {
        match &self.local {
            Some(record) => {
                if self.knows(&record.player_id) {
                    None
                } else {
                    Some(record.clone())
                }
            },
            None => None,
        }
    }

    /// Takes in a defeat that the server knows of.
    pub fn record_network(&mut self, record: &BossRecord)
        ensures
            final(self)@ == (BossModel {
                network: with_record(old(self)@.network, record@),
                ..old(self)@
            }),
    {
        let ghost before = self@.network;
        let i = find_record(&self.network, &record.player_id);
        if i < self.network.len() {
            self.network.set(i, record.clone());
        } else {
            self.network.push(record.clone());
        }
        assert(self@.network =~= with_record(before, record@));
    }

    /// All defeats, one for each player, by in-game time.
    pub fn unique_records(&self) -> (r: Vec<BossRecord>)
        ensures
            exists|order: Seq<usize>|
                #[trigger] igt_order(all_records(self@), order) && record_models(r@) == Seq::new(
                    order.len(),
                    |i: int| all_records(self@)[order[i] as int],
                ),
    {
        let ghost all = all_records(self@);
        let mut records: Vec<BossRecord> = Vec::new();
        if let Some(local) = self.pending_dead() {
            records.push(local);
        }
        let ghost first = record_models(records@);
        let mut i: usize = 0;
        while i < self.network.len()
            invariant
                i <= self.network@.len(),
                record_models(records@) == first + self@.network.take(i as int),
            decreases self.network@.len() - i,
        {
            let ghost before = record_models(records@);
            records.push(self.network[i].clone());
            assert(record_models(records@) =~= before.push(self.network@[i as int]@));
            assert(self@.network.take(i + 1) =~= self@.network.take(i as int).push(
                self.network@[i as int]@,
            ));
            assert(first + self@.network.take(i + 1) =~= (first + self@.network.take(
                i as int,
            )).push(self.network@[i as int]@));
            i = i + 1;
        }
        assert(self@.network.take(self@.network.len() as int) =~= self@.network);
        assert(record_models(records@) =~= all);
        let mut keys: Vec<u64> = Vec::new();
        let mut i: usize = 0;
        while i < records.len()
            invariant
                i <= records@.len(),
                keys@.len() == i,
                forall|k: int| 0 <= k < i ==> #[trigger] keys@[k] == igt_key(records@[k]@),
            decreases records@.len() - i,
        {
            let key: u64 = match records[i].igt_ms {
                Some(t) => t as u64 + 1,
                None => 0,
            };
            keys.push(key);
            i = i + 1;
        }
        assert(keys@ =~= all.map_values(|r: RecordModel| igt_key(r))) by {
            assert forall|k: int| 0 <= k < all.len() implies keys@[k] == igt_key(all[k]) by {
                assert(all[k] == records@[k]@);
            }
        }
        let order = key_order(&keys);
        let mut sorted: Vec<BossRecord> = Vec::new();
        let mut i: usize = 0;
        while i < order.len()
            invariant
                i <= order@.len(),
                order@.len() == records@.len(),
                forall|k: int| 0 <= k < order@.len() ==> #[trigger] order@[k] < records@.len(),
                sorted@.len() == i,
                forall|k: int|
                    0 <= k < i ==> #[trigger] sorted@[k] == records@[order@[k] as int],
            decreases order@.len() - i,
        {
            sorted.push(records[order[i]].clone());
            i = i + 1;
        }
        assert(record_models(sorted@) =~= Seq::new(
            order@.len(),
            |i: int| all_records(self@)[order@[i] as int],
        )) by {
            assert forall|k: int| 0 <= k < sorted@.len() implies sorted@[k]@
                == all[order@[k] as int] by {
                assert(sorted@[k] == records@[order@[k] as int]);
            }
        }
        assert(igt_order(all, order@));
        sorted
    }

    /// Forgets all defeats.
    pub fn clear(&mut self)
        ensures
            final(self)@ == undefeated(),
    {
        self.local = None;
        self.network.clear();
        assert(self@.network =~= seq![]);
    }
}

} // verus!
