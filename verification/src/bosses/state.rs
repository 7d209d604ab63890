//! The state of all bosses: what the server says, what the game shows, and what is reported.
use vstd::prelude::*;

use std::collections::{HashMap, HashSet};

use crate::bosses::color::{parse_color, Color};
use crate::bosses::data::GameBossData;
use crate::bosses::records::{BossRecord, BossState};
use crate::client::time::{parse_network_time, write_network_time, NetworkTime};
use crate::client::StreamRequest;
use crate::text::{clone_text, push_decimal};

verus! {

broadcast use vstd::std_specs::hash::group_hash_axioms;

/// Nanoseconds that must pass between two reports to the server.
pub const REPORT_GAP_NANOS: u64 = 10_000_000_000;

/// A player of the run.
#[derive(Debug)]
pub struct Runner {
    pub id: String,
    pub name: Option<String>,
    pub character_name: Option<String>,
    pub color: Option<String>,
    /// The colour that `color` gives.
    pub hex_color: Option<Color>,
}

/// A runner as the rules see them.
#[verifier::ext_equal]
pub struct RunnerModel {
    pub id: Seq<char>,
    pub name: Option<Seq<char>>,
    pub character_name: Option<Seq<char>>,
    pub color: Option<Seq<char>>,
    pub hex_color: Option<Color>,
}

impl View for Runner {
    type V = RunnerModel;

    open spec fn view(&self) -> RunnerModel {
        RunnerModel {
            id: self.id@,
            name: crate::bosses::records::text_model(self.name),
            character_name: crate::bosses::records::text_model(self.character_name),
            color: crate::bosses::records::text_model(self.color),
            hex_color: self.hex_color,
        }
    }
}

/// The name that a runner is shown with: their own, else their character's.
pub open spec fn runner_name(r: RunnerModel) -> Seq<char> {
    match (r.name, r.character_name) {
        (Some(name), _) => name,
        (None, Some(name)) => name,
        (None, None) => "Unknown"@,
    }
}

/// A runner with the colour that their colour text gives.
pub open spec fn colored(r: RunnerModel) -> RunnerModel {
    RunnerModel {
        hex_color: match r.color {
            Some(text) => crate::bosses::color::color_of(text),
            None => None,
        },
        ..r
    }
}

impl Runner {
    /// The name that the runner is shown with.
    pub fn name(&self) -> (r: &str)
        ensures
            r@ == runner_name(self@),
    {
        match &self.name {
            Some(name) => name.as_str(),
            None => match &self.character_name {
                Some(name) => name.as_str(),
                None => "Unknown",
            },
        }
    }

    fn with_color(&self) -> (r: Runner)
        ensures
            r@ == colored(self@),
    {
        let hex_color = match &self.color {
            Some(text) => parse_color(text.as_str()),
            None => None,
        };
        Runner {
            id: self.id.clone(),
            name: clone_text(&self.name),
            character_name: clone_text(&self.character_name),
            color: clone_text(&self.color),
            hex_color,
        }
    }
}

/// A runner under their player id.
#[derive(Debug)]
pub struct RunnerEntry {
    pub player_id: String,
    pub runner: Runner,
}

/// The player ids of runners.
pub open spec fn runner_ids(entries: Seq<RunnerEntry>) -> Seq<Seq<char>> {
    entries.map_values(|e: RunnerEntry| e.player_id@)
}

/// The runners of entries.
pub open spec fn runner_models(entries: Seq<RunnerEntry>) -> Seq<RunnerModel> {
    entries.map_values(|e: RunnerEntry| e.runner@)
}

/// The runner with a player id.
pub open spec fn runner_of(ids: Seq<Seq<char>>, runners: Seq<RunnerModel>, id: Seq<char>) -> Option<
    RunnerModel,
> {
    let i = crate::text::position_of(ids, id);
    if i < ids.len() {
        Some(runners[i])
    } else {
        None
    }
}

/// What the server says about bosses.
#[derive(Debug)]
pub struct UpdateBossRequest {
    /// Newly known defeats.
    pub add: Option<Vec<BossRecord>>,
    /// All known defeats; none after a reset.
    pub set: Option<Vec<BossRecord>>,
    /// When the run started, or an empty text where there is none.
    pub run: Option<String>,
}

/// What the server says about bosses and runners.
#[derive(Debug)]
pub struct BossesApiRequest {
    pub bosses: Option<UpdateBossRequest>,
    pub runners: Option<Vec<RunnerEntry>>,
}

/// What is reported about bosses.
#[derive(Debug)]
pub enum BossStreamRequest {
    UpdateBosses { bosses: Vec<BossRecord> },
}

impl StreamRequest for BossStreamRequest {

}

/// The state of all bosses as the rules see it.
#[verifier::ext_equal]
pub struct BossesModel {
    pub bosses: Map<u32, crate::bosses::records::BossModel>,
    pub current_run: Option<NetworkTime>,
    pub runner_ids: Seq<Seq<char>>,
    pub runners: Seq<RunnerModel>,
    pub pending_update: Option<u64>,
    pub play_region: u32,
    pub block_id: Option<i32>,
    pub last_igt: Option<u32>,
    pub received_messages: bool,
    pub show_ui: bool,
}

/// The state of all bosses.
#[derive(Debug)]
pub struct GameBossState {
    /// By the flag that the boss's defeat sets.
    pub bosses: HashMap<u32, BossState>,
    /// When the run started, if there is one.
    pub current_run: Option<NetworkTime>,
    pub runners: Vec<RunnerEntry>,
    /// When the last report was sent, in nanoseconds, while it is not answered.
    pub pending_update: Option<u64>,
    /// Where the player was last seen.
    pub play_region: u32,
    pub block_id: Option<i32>,
    /// The in-game time last seen in the game.
    pub last_igt: Option<u32>,
    pub received_messages: bool,
    pub show_ui: bool,
}

/// The defeats of bosses as the rules see them.
pub open spec fn boss_models(bosses: Map<u32, BossState>) -> Map<
    u32,
    crate::bosses::records::BossModel,
> {
    bosses.map_values(|b: BossState| b@)
}

impl View for GameBossState {
    type V = BossesModel;

    open spec fn view(&self) -> BossesModel {
        BossesModel {
            bosses: boss_models(self.bosses@),
            current_run: self.current_run,
            runner_ids: runner_ids(self.runners@),
            runners: runner_models(self.runners@),
            pending_update: self.pending_update,
            play_region: self.play_region,
            block_id: self.block_id,
            last_igt: self.last_igt,
            received_messages: self.received_messages,
            show_ui: self.show_ui,
        }
    }
}

/// The state before anything is heard or seen, with the bosses of these flags.
pub open spec fn initial(flags: Seq<u32>) -> BossesModel {
    BossesModel {
        bosses: Map::new(
            |f: u32| flags.contains(f),
            |f: u32| crate::bosses::records::undefeated(),
        ),
        current_run: None,
        runner_ids: seq![],
        runners: seq![],
        pending_update: None,
        play_region: 0,
        block_id: None,
        last_igt: None,
        received_messages: false,
        show_ui: false,
    }
}

/// The bosses that satisfy a condition.
pub open spec fn bosses_with(
    bosses: Map<u32, crate::bosses::records::BossModel>,
    cond: spec_fn(crate::bosses::records::BossModel) -> bool,
) -> Set<u32> {
    bosses.dom().filter(|f: u32| cond(bosses[f]))
}

/// All bosses undefeated.
pub open spec fn all_undefeated(bosses: Map<u32, crate::bosses::records::BossModel>) -> Map<
    u32,
    crate::bosses::records::BossModel,
> {
    bosses.map_values(|b: crate::bosses::records::BossModel| crate::bosses::records::undefeated())
}

/// The bosses with one more defeat that the server knows of. A record of an unknown boss is
/// passed over.
pub open spec fn with_network_record(
    bosses: Map<u32, crate::bosses::records::BossModel>,
    record: crate::bosses::records::RecordModel,
) -> Map<u32, crate::bosses::records::BossModel> {
    if bosses.contains_key(record.flag_id) {
        let b = bosses[record.flag_id];
        bosses.insert(
            record.flag_id,
            crate::bosses::records::BossModel {
                network: crate::bosses::records::with_record(b.network, record),
                ..b
            },
        )
    } else {
        bosses
    }
}

/// The bosses with more defeats that the server knows of, one after another.
pub open spec fn with_network_records(
    bosses: Map<u32, crate::bosses::records::BossModel>,
    records: Seq<crate::bosses::records::RecordModel>,
) -> Map<u32, crate::bosses::records::BossModel>
    decreases records.len(),
{
    if records.len() == 0 {
        bosses
    } else {
        with_network_record(with_network_records(bosses, records.drop_last()), records.last())
    }
}

/// Whether some local defeat is not known to the server.
pub open spec fn any_pending(bosses: Map<u32, crate::bosses::records::BossModel>) -> bool {
    exists|f: u32|
        #[trigger] bosses.contains_key(f) && crate::bosses::records::pending(bosses[f]) is Some
}

/// The state after what the server says about bosses, where `run` is the point in time that its
/// text about the run gives. All defeats replace what was known, here too; new ones are added.
/// Once nothing is left that the server does not know, the next report need not wait.
pub open spec fn after_update(
    m: BossesModel,
    req: UpdateBossRequest,
    run: Option<NetworkTime>,
) -> BossesModel {
    let heard = BossesModel {
        received_messages: true,
        current_run: if req.run is Some {
            run
        } else {
            m.current_run
        },
        ..m
    };
    match (req.set, req.add) {
        (Some(set), _) => BossesModel {
            bosses: with_network_records(
                all_undefeated(m.bosses),
                crate::bosses::records::record_models(set@),
            ),
            pending_update: None,
            ..heard
        },
        (None, Some(add)) => {
            let bosses = with_network_records(
                m.bosses,
                crate::bosses::records::record_models(add@),
            );
            BossesModel {
                bosses,
                pending_update: if any_pending(bosses) {
                    m.pending_update
                } else {
                    None
                },
                ..heard
            }
        },
        (None, None) => heard,
    }
}

/// The state after what the server says about runners: all of them, each with the colour that
/// their colour text gives.
pub open spec fn after_runners(m: BossesModel, entries: Seq<RunnerEntry>) -> BossesModel {
    BossesModel {
        runner_ids: runner_ids(entries),
        runners: runner_models(entries).map_values(|r: RunnerModel| colored(r)),
        ..m
    }
}

/// What the game shows in one frame.
pub struct GameSnapshot {
    /// Whether the world is loaded.
    pub in_game: bool,
    /// The player's block id and play region, where there is a player.
    pub location: Option<(i32, u32)>,
    /// The in-game time, where it can be told.
    pub play_time: Option<u32>,
    /// The flags that are set, of those that belong to bosses.
    pub dead_flags: HashSet<u32>,
}

/// Whether a place is known in full: blocks and play regions load at different times.
pub open spec fn known_place(shot: GameSnapshot) -> Option<(i32, u32)> {
    match shot.location {
        Some((block, region)) if shot.in_game && block != -1 && region > 0 => Some(
            (block, (region / 1000) as u32),
        ),
        _ => None,
    }
}

/// The in-game time to record: only where less than a second of it has passed since the last
/// frame, in either direction.
pub open spec fn recorded_igt(last_igt: Option<u32>, play_time: Option<u32>) -> Option<u32> {
    match (last_igt, play_time) {
        (Some(last), Some(time)) if -1000 < time - last < 1000 => Some(time),
        _ => None,
    }
}

/// Whether a report may be sent: in the game, during a run, and not too soon after another.
pub open spec fn can_report(m: BossesModel, shot: GameSnapshot, instant: u64) -> bool {
    &&& shot.in_game
    &&& m.current_run is Some
    &&& m.pending_update matches Some(sent) ==> instant - sent > REPORT_GAP_NANOS
}

/// A local defeat, newly seen.
pub open spec fn new_record(
    player_id: Seq<char>,
    flag_id: u32,
    defeated_at: Seq<char>,
    igt_ms: Option<u32>,
) -> crate::bosses::records::RecordModel {
    crate::bosses::records::RecordModel {
        player_id,
        flag_id,
        defeated_at: Some(defeated_at),
        igt_ms,
    }
}

/// A boss after its flag was read: a first defeat is recorded, and a cleared flag forgets it.
pub open spec fn after_flag(
    b: crate::bosses::records::BossModel,
    is_dead: bool,
    record: crate::bosses::records::RecordModel,
) -> crate::bosses::records::BossModel {
    crate::bosses::records::BossModel {
        local: if !is_dead {
            None
        } else if b.local is None {
            Some(record)
        } else {
            b.local
        },
        ..b
    }
}

/// All bosses after the given flags were read.
pub open spec fn after_flags(
    bosses: Map<u32, crate::bosses::records::BossModel>,
    flags: Seq<u32>,
    dead_flags: Set<u32>,
    player_id: Seq<char>,
    defeated_at: Seq<char>,
    igt_ms: Option<u32>,
) -> Map<u32, crate::bosses::records::BossModel> {
    Map::new(
        |f: u32| bosses.contains_key(f),
        |f: u32|
            if flags.contains(f) {
                after_flag(
                    bosses[f],
                    dead_flags.contains(f),
                    new_record(player_id, f, defeated_at, igt_ms),
                )
            } else {
                bosses[f]
            },
    )
}

/// The defeats to report: those of the given flags that the server does not know of, in order.
pub open spec fn reports(
    bosses: Map<u32, crate::bosses::records::BossModel>,
    flags: Seq<u32>,
) -> Seq<crate::bosses::records::RecordModel>
    decreases flags.len(),
{
    if flags.len() == 0 {
        seq![]
    } else {
        let before = reports(bosses, flags.drop_last());
        let f = flags.last();
        if bosses.contains_key(f) {
            match crate::bosses::records::pending(bosses[f]) {
                Some(record) => before.push(record),
                None => before,
            }
        } else {
            before
        }
    }
}

/// The state and the report after a frame of the game. Outside the game, flags are unreliable
/// and change nothing.
pub open spec fn after_frame(
    m: BossesModel,
    flags: Seq<u32>,
    shot: GameSnapshot,
    player_id: Seq<char>,
    defeated_at: Seq<char>,
    instant: u64,
) -> (BossesModel, Seq<crate::bosses::records::RecordModel>) {
    let shown = BossesModel {
        show_ui: true,
        block_id: match known_place(shot) {
            Some((block, _)) => Some(block),
            None => m.block_id,
        },
        play_region: match known_place(shot) {
            Some((_, region)) => region,
            None => m.play_region,
        },
        ..m
    };
    if !shot.in_game {
        (shown, seq![])
    } else {
        let bosses = after_flags(
            m.bosses,
            flags,
            shot.dead_flags@,
            player_id,
            defeated_at,
            recorded_igt(m.last_igt, shot.play_time),
        );
        let sent = if can_report(m, shot, instant) {
            reports(bosses, flags)
        } else {
            seq![]
        };
        (
            BossesModel {
                bosses,
                last_igt: if shot.play_time is Some {
                    shot.play_time
                } else {
                    m.last_igt
                },
                pending_update: if sent.len() > 0 {
                    Some(instant)
                } else {
                    m.pending_update
                },
                ..shown
            },
            sent,
        )
    }
}

/// What an optional report holds.
pub open spec fn reported(req: Option<BossStreamRequest>) -> Seq<
    crate::bosses::records::RecordModel,
> {
    match req {
        Some(BossStreamRequest::UpdateBosses { bosses }) => crate::bosses::records::record_models(
            bosses@,
        ),
        None => seq![],
    }
}

fn flags_of(bosses: &HashMap<u32, BossState>) -> (r: Vec<u32>)
    ensures
        r@.no_duplicates(),
        r@.to_set() == bosses@.dom(),
{
    let ghost all = vstd::std_specs::iter::IteratorSpec::remaining(
        &vstd::std_specs::hash::spec_keys_iter(bosses),
    ).unref();
    let mut out: Vec<u32> = Vec::new();
    for f in it: bosses.keys()
        invariant
            it.seq().unref() == all,
            all.to_set() == bosses@.dom(),
            all.no_duplicates(),
            out@ == all.take(it.index()),
    {
        assert(it.seq().unref()[it.index()] == *f);
        assert(all.take(it.index() + 1) =~= all.take(it.index()).push(*f));
        out.push(*f);
    }
    assert(all.take(all.len() as int) =~= all);
    out
}

/// How many of the given bosses satisfy a condition.
pub open spec fn count_with(
    bosses: Map<u32, crate::bosses::records::BossModel>,
    cond: spec_fn(crate::bosses::records::BossModel) -> bool,
) -> nat {
    bosses_with(bosses, cond).len()
}

/// The numbers of bosses defeated here, known to the server as defeated, and defeated at all.
pub open spec fn summary_text(bosses: Map<u32, crate::bosses::records::BossModel>) -> Seq<char> {
    crate::text::decimal(
        count_with(bosses, |b: crate::bosses::records::BossModel| b.local is Some),
    ) + " local, "@ + crate::text::decimal(
        count_with(bosses, |b: crate::bosses::records::BossModel| b.network.len() > 0),
    ) + " network, "@ + crate::text::decimal(
        count_with(bosses, |b: crate::bosses::records::BossModel| crate::bosses::records::dead(b)),
    ) + "/"@ + crate::text::decimal(bosses.dom().len()) + " total"@
}

/// Whose defeat counts.
enum Whose {
    Local,
    Network,
    Any,
}

impl Whose {
    spec fn cond(self) -> spec_fn(crate::bosses::records::BossModel) -> bool {
        match self {
            Whose::Local => |b: crate::bosses::records::BossModel| b.local is Some,
            Whose::Network => |b: crate::bosses::records::BossModel| b.network.len() > 0,
            Whose::Any => |b: crate::bosses::records::BossModel| crate::bosses::records::dead(b),
        }
    }
}

impl GameBossState {
    /// All bosses of the data, undefeated; no run, no runners, and nothing seen of the game.
    pub fn from_data(data: &GameBossData) -> (r: Self)
        ensures
            r@ == initial(crate::bosses::data::boss_flags(data.regions@)),
    {
        let flags = data.bosses();
        let mut bosses: HashMap<u32, BossState> = HashMap::new();
        let mut i: usize = 0;
        while i < flags.len()
            invariant
                i <= flags@.len(),
                forall|f: u32|
                    #[trigger] bosses@.contains_key(f) <==> flags@.take(i as int).contains(f),
                forall|f: u32|
                    #[trigger] bosses@.contains_key(f) ==> bosses@[f]@
                        == crate::bosses::records::undefeated(),
            decreases flags@.len() - i,
        {
            bosses.insert(flags[i], BossState::new());
            proof {
                lemma_take_contains(flags@, i as int);
            }
            i = i + 1;
        }
        assert(flags@.take(flags@.len() as int) =~= flags@);
        let r = GameBossState {
            bosses,
            current_run: None,
            runners: Vec::new(),
            pending_update: None,
            play_region: 0,
            block_id: None,
            last_igt: None,
            received_messages: false,
            show_ui: false,
        };
        assert(r@.bosses =~= Map::new(
            |f: u32| crate::bosses::data::boss_flags(data.regions@).contains(f),
            |f: u32| crate::bosses::records::undefeated(),
        ));
        assert(r@.runners =~= seq![]);
        assert(r@.runner_ids =~= seq![]);
        r
    }

    fn count(&self, whose: Whose) -> (r: usize)
        ensures
            r == count_with(self@.bosses, whose.cond()),
    {
        let flags = flags_of(&self.bosses);
        let ghost models = self@.bosses;
        let ghost cond = whose.cond();
        let ghost mut seen: Set<u32> = Set::empty();
        let mut count: usize = 0;
        let mut i: usize = 0;
        while i < flags.len()
            invariant
                i <= flags@.len(),
                count <= i,
                flags@.no_duplicates(),
                flags@.to_set() == self.bosses@.dom(),
                models == self@.bosses,
                cond == whose.cond(),
                seen.finite(),
                seen.len() == count,
                forall|f: u32|
                    #[trigger] seen.contains(f) <==> flags@.take(i as int).contains(f) && cond(
                        models[f],
                    ),
            decreases flags@.len() - i,
        {
            let f = flags[i];
            assert(flags@.to_set().contains(f));
            proof {
                lemma_take_contains(flags@, i as int);
                assert(!flags@.take(i as int).contains(f));
            }
            if let Some(boss) = self.bosses.get(&f) {
                assert(models[f] == boss@);
                let counts = match whose {
                    Whose::Local => boss.local_dead(),
                    Whose::Network => boss.network_dead(),
                    Whose::Any => boss.any_dead(),
                };
                if counts {
                    count = count + 1;
                    proof {
                        seen = seen.insert(f);
                    }
                }
            }
            i = i + 1;
        }
        proof {
            assert(flags@.take(flags@.len() as int) =~= flags@);
            assert forall|f: u32| seen.contains(f) == bosses_with(models, cond).contains(f) by {
                assert(flags@.to_set().contains(f) == flags@.contains(f));
            }
            assert(seen =~= bosses_with(models, cond));
        }
        count
    }

    /// How many bosses anybody has defeated.
    pub fn dead_count(&self) -> (r: usize)
        ensures
            r == count_with(
                self@.bosses,
                |b: crate::bosses::records::BossModel| crate::bosses::records::dead(b),
            ),
    {
        self.count(Whose::Any)
    }

    /// How many bosses there are.
    pub fn boss_count(&self) -> (r: usize)
        ensures
            r == self@.bosses.dom().len(),
    {
        assert(self@.bosses.dom() =~= self.bosses@.dom());
        self.bosses.len()
    }

    /// The numbers of defeated bosses in words.
    pub fn summary(&self) -> (r: String)
        ensures
            r@ == summary_text(self@.bosses),
    {
        let mut out = String::new();
        push_decimal(&mut out, self.count(Whose::Local) as u64);
        out.append(" local, ");
        push_decimal(&mut out, self.count(Whose::Network) as u64);
        out.append(" network, ");
        push_decimal(&mut out, self.count(Whose::Any) as u64);
        out.append("/");
        push_decimal(&mut out, self.boss_count() as u64);
        out.append(" total");
        assert(out@ =~= summary_text(self@.bosses));
        out
    }

    fn clear_bosses(&mut self)
        ensures
            final(self)@ == (BossesModel { bosses: all_undefeated(old(self)@.bosses), ..old(self)@
            }),
    {
        let flags = flags_of(&self.bosses);
        let ghost before = self@;
        let mut bosses: HashMap<u32, BossState> = HashMap::new();
        let mut i: usize = 0;
        while i < flags.len()
            invariant
                i <= flags@.len(),
                forall|f: u32|
                    #[trigger] bosses@.contains_key(f) <==> flags@.take(i as int).contains(f),
                forall|f: u32|
                    #[trigger] bosses@.contains_key(f) ==> bosses@[f]@
                        == crate::bosses::records::undefeated(),
            decreases flags@.len() - i,
        {
            bosses.insert(flags[i], BossState::new());
            proof {
                lemma_take_contains(flags@, i as int);
            }
            i = i + 1;
        }
        assert(flags@.take(flags@.len() as int) =~= flags@);
        proof {
            assert forall|f: u32| bosses@.contains_key(f) == before.bosses.contains_key(f) by {
                assert(flags@.to_set().contains(f) == flags@.contains(f));
                assert(self.bosses@.dom().contains(f) == before.bosses.contains_key(f));
            }
        }
        self.bosses = bosses;
        assert(self@.bosses =~= all_undefeated(before.bosses));
    }

    fn record_network(&mut self, record: &BossRecord)
        ensures
            final(self)@ == (BossesModel {
                bosses: with_network_record(old(self)@.bosses, record@),
                ..old(self)@
            }),
    {
        let ghost before = self@;
        assert(self.bosses@.contains_key(record.flag_id) == before.bosses.contains_key(
            record.flag_id,
        ));
        if let Some(mut boss) = self.bosses.remove(&record.flag_id) {
            assert(boss@ == before.bosses[record.flag_id]);
            boss.record_network(record);
            self.bosses.insert(record.flag_id, boss);
        }
        assert(self@.bosses =~= with_network_record(before.bosses, record@));
    }

    fn has_pending(&self) -> (r: bool)
        ensures
            r == any_pending(self@.bosses),
    {
        let flags = flags_of(&self.bosses);
        let ghost models = self@.bosses;
        let mut i: usize = 0;
        while i < flags.len()
            invariant
                i <= flags@.len(),
                flags@.to_set() == self.bosses@.dom(),
                models == self@.bosses,
                forall|k: int|
                    0 <= k < i ==> crate::bosses::records::pending(models[#[trigger] flags@[k]]) is None,
            decreases flags@.len() - i,
        {
            let f = flags[i];
            assert(flags@.to_set().contains(f));
            if let Some(boss) = self.bosses.get(&f) {
                assert(models[f] == boss@);
                if boss.pending_dead().is_some() {
                    assert(models.contains_key(f));
                    return true;
                }
            }
            i = i + 1;
        }
        proof {
            if any_pending(models) {
                let f = choose|f: u32|
                    #[trigger] models.contains_key(f) && crate::bosses::records::pending(
                        models[f],
                    ) is Some;
                assert(self.bosses@.dom().contains(f));
                assert(flags@.to_set().contains(f));
                let k = choose|k: int| 0 <= k < flags@.len() && flags@[k] == f;
                assert(crate::bosses::records::pending(models[flags@[k]]) is None);
            }
        }
        false
    }

    fn record_all(&mut self, records: &Vec<BossRecord>)
        ensures
            final(self)@ == (BossesModel {
                bosses: with_network_records(
                    old(self)@.bosses,
                    crate::bosses::records::record_models(records@),
                ),
                ..old(self)@
            }),
    {
        let ghost before = self@;
        let ghost models = crate::bosses::records::record_models(records@);
        let mut i: usize = 0;
        while i < records.len()
            invariant
                i <= records@.len(),
                models == crate::bosses::records::record_models(records@),
                self@ == (BossesModel {
                    bosses: with_network_records(before.bosses, models.take(i as int)),
                    ..before
                }),
            decreases records@.len() - i,
        {
            assert(models.take(i + 1).drop_last() =~= models.take(i as int));
            self.record_network(&records[i]);
            i = i + 1;
        }
        assert(models.take(models.len() as int) =~= models);
    }

    /// Takes in what the server says about bosses, where `run` is the point in time that its text
    /// about the run gives.
    pub fn handle_request_with(&mut self, req: &UpdateBossRequest, run: Option<NetworkTime>)
        ensures
            final(self)@ == after_update(old(self)@, *req, run),
    {
        self.received_messages = true;
        if req.run.is_some() {
            self.current_run = run;
        }
        if let Some(set) = &req.set {
            self.clear_bosses();
            self.pending_update = None;
            self.record_all(set);
        } else if let Some(add) = &req.add {
            self.record_all(add);
        } else {
            return ;
        }
        if self.pending_update.is_some() && !self.has_pending() {
            self.pending_update = None;
        }
    }

    /// Takes in what the server says about bosses.
    pub fn handle_request(&mut self, req: &UpdateBossRequest)
        ensures
            final(self)@ == after_update(
                old(self)@,
                *req,
                match req.run {
                    Some(text) => crate::client::time::network_time(
                        text@,
                        crate::client::time::rfc3339_time(text@),
                    ),
                    None => None,
                },
            ),
    {
        let run = match &req.run {
            Some(text) => parse_network_time(text.as_str()),
            None => None,
        };
        self.handle_request_with(req, run);
    }

    /// Takes in all runners, each with the colour that their colour text gives.
    pub fn handle_runners(&mut self, req: &Vec<RunnerEntry>)
        ensures
            final(self)@ == after_runners(old(self)@, req@),
    {
        let mut runners: Vec<RunnerEntry> = Vec::new();
        let mut i: usize = 0;
        while i < req.len()
            invariant
                i <= req@.len(),
                runners@.len() == i,
                forall|k: int|
                    0 <= k < i ==> #[trigger] runners@[k].player_id@ == req@[k].player_id@
                        && runners@[k].runner@ == colored(req@[k].runner@),
            decreases req@.len() - i,
        {
            runners.push(
                RunnerEntry {
                    player_id: req[i].player_id.clone(),
                    runner: req[i].runner.with_color(),
                },
            );
            i = i + 1;
        }
        let ghost before = self@;
        self.runners = runners;
        assert(self@.runner_ids =~= runner_ids(req@)) by {
            assert forall|k: int| 0 <= k < req@.len() implies self@.runner_ids[k] == runner_ids(
                req@,
            )[k] by {
                assert(runners@[k].player_id@ == req@[k].player_id@);
            }
        }
        assert(self@.runners =~= runner_models(req@).map_values(|r: RunnerModel| colored(r))) by {
            assert forall|k: int| 0 <= k < req@.len() implies self@.runners[k] == colored(
                runner_models(req@)[k],
            ) by {
                assert(runners@[k].player_id@ == req@[k].player_id@);
            }
        }
        assert(self@.bosses =~= before.bosses);
    }
}

impl GameBossState {
    fn read_flag(
        &mut self,
        flag_id: u32,
        is_dead: bool,
        player_id: &str,
        defeated_at: &str,
        igt_ms: Option<u32>,
    ) -> (r: Option<BossRecord>)
        ensures
            final(self)@ == (BossesModel {
                bosses: if old(self)@.bosses.contains_key(flag_id) {
                    old(self)@.bosses.insert(
                        flag_id,
                        after_flag(
                            old(self)@.bosses[flag_id],
                            is_dead,
                            new_record(player_id@, flag_id, defeated_at@, igt_ms),
                        ),
                    )
                } else {
                    old(self)@.bosses
                },
                ..old(self)@
            }),
            match r {
                Some(record) => final(self)@.bosses.contains_key(flag_id)
                    && crate::bosses::records::pending(final(self)@.bosses[flag_id]) == Some(
                    record@,
                ),
                None => final(self)@.bosses.contains_key(flag_id)
                    ==> crate::bosses::records::pending(final(self)@.bosses[flag_id]) is None,
            },
    {
        let ghost before = self@;
        assert(self.bosses@.contains_key(flag_id) == before.bosses.contains_key(flag_id));
        if let Some(mut boss) = self.bosses.remove(&flag_id) {
            assert(boss@ == before.bosses[flag_id]);
            if is_dead && boss.local.is_none() {
                let record = BossRecord {
                    player_id: player_id.to_owned(),
                    flag_id,
                    defeated_at: Some(defeated_at.to_owned()),
                    igt_ms,
                };
                boss.local = Some(record);
            } else if !is_dead {
                boss.local = None;
            }
            let pending = boss.pending_dead();
            let ghost after = boss@;
            assert(after == after_flag(
                before.bosses[flag_id],
                is_dead,
                new_record(player_id@, flag_id, defeated_at@, igt_ms),
            ));
            self.bosses.insert(flag_id, boss);
            assert(self@.bosses =~= before.bosses.insert(flag_id, after));
            pending
        } else {
            assert(self@.bosses =~= before.bosses);
            None
        }
    }

    fn read_flags(
        &mut self,
        flags: &Vec<u32>,
        dead_flags: &HashSet<u32>,
        player_id: &str,
        defeated_at: &str,
        igt_ms: Option<u32>,
        can_update: bool,
    ) -> (r: Vec<BossRecord>)
        ensures
            final(self)@ == (BossesModel {
                bosses: after_flags(
                    old(self)@.bosses,
                    flags@,
                    dead_flags@,
                    player_id@,
                    defeated_at@,
                    igt_ms,
                ),
                ..old(self)@
            }),
            crate::bosses::records::record_models(r@) == if can_update {
                reports(final(self)@.bosses, flags@)
            } else {
                seq![]
            },
    {
        let ghost before = self@;
        let ghost goal = after_flags(
            before.bosses,
            flags@,
            dead_flags@,
            player_id@,
            defeated_at@,
            igt_ms,
        );
        let mut pending: Vec<BossRecord> = Vec::new();
        let mut i: usize = 0;
        assert(self@.bosses =~= after_flags(
            before.bosses,
            flags@.take(0),
            dead_flags@,
            player_id@,
            defeated_at@,
            igt_ms,
        ));
        assert(crate::bosses::records::record_models(pending@) =~= seq![]);
        while i < flags.len()
            invariant
                i <= flags@.len(),
                goal == after_flags(
                    before.bosses,
                    flags@,
                    dead_flags@,
                    player_id@,
                    defeated_at@,
                    igt_ms,
                ),
                self@ == (BossesModel {
                    bosses: after_flags(
                        before.bosses,
                        flags@.take(i as int),
                        dead_flags@,
                        player_id@,
                        defeated_at@,
                        igt_ms,
                    ),
                    ..before
                }),
                crate::bosses::records::record_models(pending@) == if can_update {
                    reports(goal, flags@.take(i as int))
                } else {
                    seq![]
                },
            decreases flags@.len() - i,
        {
            let f = flags[i];
            let is_dead = dead_flags.contains(&f);
            let ghost sofar = self@.bosses;
            let found = self.read_flag(f, is_dead, player_id, defeated_at, igt_ms);
            let ghost next = after_flags(
                before.bosses,
                flags@.take(i + 1),
                dead_flags@,
                player_id@,
                defeated_at@,
                igt_ms,
            );
            proof {
                lemma_take_contains(flags@, i as int);
                assert(self@.bosses =~= next) by {
                    assert forall|g: u32| next.contains_key(g) implies self@.bosses[g]
                        == next[g] by {
                        if g != f {
                            assert(flags@.take(i + 1).contains(g) == flags@.take(
                                i as int,
                            ).contains(g));
                        }
                    }
                }
                assert(flags@.contains(f));
                assert(flags@.take(i + 1).contains(f));
                assert(goal.contains_key(f) == self@.bosses.contains_key(f));
                assert(goal.contains_key(f) ==> goal[f] == self@.bosses[f]);
                assert(flags@.take(i + 1).drop_last() =~= flags@.take(i as int));
            }
            if can_update {
                if let Some(record) = found {
                    let ghost sent = crate::bosses::records::record_models(pending@);
                    let ghost model = record@;
                    pending.push(record);
                    assert(crate::bosses::records::record_models(pending@) =~= sent.push(model));
                }
            }
            i = i + 1;
        }
        assert(flags@.take(flags@.len() as int) =~= flags@);
        pending
    }

    /// Takes in a frame of the game, where `defeated_at` is what is recorded as the time of new
    /// defeats, and gives the report to send, if any. `instant` counts nanoseconds.
    pub fn tick_with(
        &mut self,
        data: &GameBossData,
        shot: &GameSnapshot,
        player_id: &str,
        defeated_at: &str,
        instant: u64,
    ) -> (r: Option<BossStreamRequest>)
        ensures
            (final(self)@, reported(r)) == after_frame(
                old(self)@,
                crate::bosses::data::boss_flags(data.regions@),
                *shot,
                player_id@,
                defeated_at@,
                instant,
            ),
            r is Some <==> reported(r).len() > 0,
    {
        let ghost before = self@;
        let can_update = shot.in_game && self.current_run.is_some() && match self.pending_update {
            Some(sent) => instant > sent && instant - sent > REPORT_GAP_NANOS,
            None => true,
        };
        if shot.in_game {
            if let Some((block, region)) = shot.location {
                if block != -1 && region > 0 {
                    self.block_id = Some(block);
                    self.play_region = region / 1000;
                }
            }
        }
        self.show_ui = true;
        if !shot.in_game {
            return None;
        }
        let mut igt_ms: Option<u32> = None;
        if let Some(time) = shot.play_time {
            if let Some(last) = self.last_igt {
                let apart: u32 = if last < time {
                    time - last
                } else {
                    last - time
                };
                if apart < 1000 {
                    igt_ms = Some(time);
                }
            }
            self.last_igt = Some(time);
        }
        assert(igt_ms == recorded_igt(before.last_igt, shot.play_time));
        let flags = data.bosses();
        let pending = self.read_flags(
            &flags,
            &shot.dead_flags,
            player_id,
            defeated_at,
            igt_ms,
            can_update,
        );
        if pending.len() > 0 {
            self.pending_update = Some(instant);
            Some(BossStreamRequest::UpdateBosses { bosses: pending })
        } else {
            assert(crate::bosses::records::record_models(pending@) =~= seq![]);
            None
        }
    }

    /// Takes in a frame of the game at the given time, and gives the report to send, if any.
    pub fn tick(
        &mut self,
        data: &GameBossData,
        shot: &GameSnapshot,
        player_id: &str,
        now: NetworkTime,
        instant: u64,
    ) -> (r: Option<BossStreamRequest>)
        requires
            now.valid(),
        ensures
            (final(self)@, reported(r)) == after_frame(
                old(self)@,
                crate::bosses::data::boss_flags(data.regions@),
                *shot,
                player_id@,
                crate::client::time::rfc3339_text(now.secs, now.nanos, now.offset),
                instant,
            ),
            r is Some <==> reported(r).len() > 0,
    {
        let defeated_at = write_network_time(now);
        self.tick_with(data, shot, player_id, defeated_at.as_str(), instant)
    }
}

proof fn lemma_take_contains(s: Seq<u32>, i: int)
    requires
        0 <= i < s.len(),
    ensures
        forall|f: u32|
            #[trigger] s.take(i + 1).contains(f) <==> s.take(i).contains(f) || f == s[i],
{
    let next = s.take(i + 1);
    let this = s.take(i);
    assert forall|f: u32| #[trigger] next.contains(f) <==> this.contains(f) || f == s[i] by {
        if this.contains(f) {
            let k = choose|k: int| 0 <= k < this.len() && this[k] == f;
            assert(next[k] == f);
        }
        if next.contains(f) {
            let k = choose|k: int| 0 <= k < next.len() && next[k] == f;
            if k < i {
                assert(this[k] == f);
            }
        }
        assert(next[i] == s[i]);
    }
}

} // verus!
