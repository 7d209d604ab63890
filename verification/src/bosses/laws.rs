//! Laws of boss tracking.
use vstd::prelude::*;

use crate::bosses::data::{GameBossData, RegionBossData};
use crate::bosses::panel::{Frame, PanelKeys, UiState};
use crate::bosses::records;
use crate::bosses::records::{BossModel, RecordModel};
use crate::bosses::state;
use crate::bosses::state::{BossesModel, GameSnapshot, RunnerEntry, RunnerModel, UpdateBossRequest};
use crate::client::time::NetworkTime;

verus! {

/// After a reset no boss is defeated, and nothing waits for an answer.
pub proof fn lemma_reset_clears_everything(
    m: crate::bosses::state::BossesModel,
    req: UpdateBossRequest,
    run: Option<crate::client::time::NetworkTime>,
    f: u32,
)
    requires
        req.set matches Some(set) && set@.len() == 0,
        m.bosses.contains_key(f),
    ensures
        ({
            let after = crate::bosses::state::after_update(m, req, run);
            &&& after.bosses.contains_key(f)
            &&& !crate::bosses::records::dead(after.bosses[f])
            &&& after.pending_update is None
        }),
{
    let set = req.set.unwrap();
    assert(crate::bosses::records::record_models(set@) =~= seq![]);
}

/// What the server says never makes a boss known or unknown.
pub proof fn lemma_update_keeps_bosses(
    m: crate::bosses::state::BossesModel,
    req: UpdateBossRequest,
    run: Option<crate::client::time::NetworkTime>,
)
    ensures
        crate::bosses::state::after_update(m, req, run).bosses.dom() == m.bosses.dom(),
{
    if let Some(set) = req.set {
        let cleared = crate::bosses::state::all_undefeated(m.bosses);
        assert(cleared.dom() =~= m.bosses.dom());
        lemma_records_keep(cleared, crate::bosses::records::record_models(set@));
    } else if let Some(add) = req.add {
        lemma_records_keep(m.bosses, crate::bosses::records::record_models(add@));
    }
}

/// Records from the server keep the bosses and the local defeats.
pub proof fn lemma_records_keep(
    bosses: Map<u32, crate::bosses::records::BossModel>,
    records: Seq<crate::bosses::records::RecordModel>,
)
    ensures
        crate::bosses::state::with_network_records(bosses, records).dom() == bosses.dom(),
        forall|f: u32|
            #[trigger] bosses.contains_key(f) ==> crate::bosses::state::with_network_records(
                bosses,
                records,
            )[f].local == bosses[f].local,
    decreases records.len(),
{
    if records.len() > 0 {
        lemma_records_keep(bosses, records.drop_last());
        let before = crate::bosses::state::with_network_records(bosses, records.drop_last());
        let after = crate::bosses::state::with_network_records(bosses, records);
        assert(after.dom() =~= before.dom());
    } else {
        assert(crate::bosses::state::with_network_records(bosses, records) == bosses);
    }
}

/// With one record for each player before, there is one for each after any records.
pub proof fn lemma_records_stay_single(
    bosses: Map<u32, crate::bosses::records::BossModel>,
    records: Seq<crate::bosses::records::RecordModel>,
    f: u32,
)
    requires
        bosses.contains_key(f),
        crate::bosses::records::one_record_each(bosses[f]),
    ensures
        crate::bosses::records::one_record_each(
            crate::bosses::state::with_network_records(bosses, records)[f],
        ),
    decreases records.len(),
{
    if records.len() > 0 {
        lemma_records_stay_single(bosses, records.drop_last(), f);
        lemma_records_keep(bosses, records.drop_last());
        let before = crate::bosses::state::with_network_records(bosses, records.drop_last());
        assert(before.contains_key(f));
        crate::bosses::records::lemma_with_record(before[f].network, records.last());
    }
}

/// Once records have arrived, the server knows each of their players, and all it knew before.
pub proof fn lemma_records_are_known(
    bosses: Map<u32, crate::bosses::records::BossModel>,
    records: Seq<crate::bosses::records::RecordModel>,
    f: u32,
    p: Seq<char>,
)
    requires
        bosses.contains_key(f),
        crate::bosses::records::one_record_each(bosses[f]),
    ensures
        crate::bosses::records::players(
            crate::bosses::state::with_network_records(bosses, records)[f].network,
        ).contains(p) <==> crate::bosses::records::players(bosses[f].network).contains(p)
            || exists|k: int|
            0 <= k < records.len() && (#[trigger] records[k]).flag_id == f && records[k].player_id
                == p,
    decreases records.len(),
{
    let known = crate::bosses::records::players(
        crate::bosses::state::with_network_records(bosses, records)[f].network,
    );
    if records.len() > 0 {
        let rest = records.drop_last();
        lemma_records_are_known(bosses, rest, f, p);
        lemma_records_keep(bosses, rest);
        lemma_records_stay_single(bosses, rest, f);
        let before = crate::bosses::state::with_network_records(bosses, rest);
        assert(before.contains_key(f));
        crate::bosses::records::lemma_with_record(before[f].network, records.last());
        if exists|k: int|
            0 <= k < records.len() && (#[trigger] records[k]).flag_id == f && records[k].player_id
                == p {
            let k = choose|k: int|
                0 <= k < records.len() && (#[trigger] records[k]).flag_id == f
                    && records[k].player_id == p;
            if k < rest.len() {
                assert(rest[k] == records[k]);
            }
        }
        if exists|k: int|
            0 <= k < rest.len() && (#[trigger] rest[k]).flag_id == f && rest[k].player_id == p {
            let k = choose|k: int|
                0 <= k < rest.len() && (#[trigger] rest[k]).flag_id == f && rest[k].player_id == p;
            assert(records[k] == rest[k]);
        }
        if records.last().flag_id == f && records.last().player_id == p {
            assert(records[records.len() - 1].flag_id == f);
        }
    }
}

/// A report holds exactly the defeats that the server does not know of.
pub proof fn lemma_reports_are_pending(
    bosses: Map<u32, crate::bosses::records::BossModel>,
    flags: Seq<u32>,
)
    ensures
        forall|k: int|
            0 <= k < crate::bosses::state::reports(bosses, flags).len() ==> exists|f: u32|
                #[trigger] flags.contains(f) && bosses.contains_key(f)
                    && crate::bosses::records::pending(bosses[f]) == Some(
                    #[trigger] crate::bosses::state::reports(bosses, flags)[k],
                ),
        forall|f: u32|
            #[trigger] flags.contains(f) && bosses.contains_key(f) ==> match crate::bosses::records::pending(
                bosses[f],
            ) {
                Some(r) => crate::bosses::state::reports(bosses, flags).contains(r),
                None => true,
            },
    decreases flags.len(),
{
    let sent = crate::bosses::state::reports(bosses, flags);
    if flags.len() > 0 {
        let rest = flags.drop_last();
        lemma_reports_are_pending(bosses, rest);
        let before = crate::bosses::state::reports(bosses, rest);
        assert forall|k: int| 0 <= k < sent.len() implies exists|f: u32|
            #[trigger] flags.contains(f) && bosses.contains_key(f)
                && crate::bosses::records::pending(bosses[f]) == Some(#[trigger] sent[k]) by {
            if k < before.len() {
                assert(sent[k] == before[k]);
                let f = choose|f: u32|
                    #[trigger] rest.contains(f) && bosses.contains_key(f)
                        && crate::bosses::records::pending(bosses[f]) == Some(before[k]);
                let j = choose|j: int| 0 <= j < rest.len() && rest[j] == f;
                assert(flags[j] == f);
                assert(flags.contains(f));
            } else {
                assert(flags[flags.len() - 1] == flags.last());
                assert(flags.contains(flags.last()));
            }
        }
        assert forall|f: u32| #[trigger]
            flags.contains(f) && bosses.contains_key(f) implies match crate::bosses::records::pending(
            bosses[f],
        ) {
            Some(r) => sent.contains(r),
            None => true,
        } by {
            if let Some(r) = crate::bosses::records::pending(bosses[f]) {
                if rest.contains(f) {
                    let j = choose|j: int| 0 <= j < before.len() && before[j] == r;
                    assert(sent[j] == r);
                } else {
                    let i = choose|i: int| 0 <= i < flags.len() && flags[i] == f;
                    if i < rest.len() {
                        assert(rest[i] == f);
                    }
                    assert(sent[sent.len() - 1] == r);
                }
            }
        }
    }
}

/// Whether no player has two records of a boss, and local records are of the boss they are kept at.
pub open spec fn well_formed(bosses: Map<u32, crate::bosses::records::BossModel>) -> bool {
    forall|f: u32| #[trigger]
        bosses.contains_key(f) ==> crate::bosses::records::one_record_each(bosses[f])
            && match bosses[f].local {
            Some(r) => r.flag_id == f,
            None => true,
        }
}

/// At the start, and after everything the server says and the game shows, no player has two
/// records of a boss.
pub proof fn lemma_stays_well_formed(
    m: crate::bosses::state::BossesModel,
    req: UpdateBossRequest,
    run: Option<crate::client::time::NetworkTime>,
    flags: Seq<u32>,
    shot: GameSnapshot,
    player_id: Seq<char>,
    defeated_at: Seq<char>,
    instant: u64,
)
    requires
        well_formed(m.bosses),
    ensures
        well_formed(crate::bosses::state::after_update(m, req, run).bosses),
        well_formed(
            crate::bosses::state::after_frame(
                m,
                flags,
                shot,
                player_id,
                defeated_at,
                instant,
            ).0.bosses,
        ),
        well_formed(
            Map::new(|f: u32| flags.contains(f), |f: u32| crate::bosses::records::undefeated()),
        ),
{
    let cleared = crate::bosses::state::all_undefeated(m.bosses);
    if let Some(set) = req.set {
        lemma_records_well_formed(cleared, crate::bosses::records::record_models(set@));
    } else if let Some(add) = req.add {
        lemma_records_well_formed(m.bosses, crate::bosses::records::record_models(add@));
    }
}

proof fn lemma_records_well_formed(
    bosses: Map<u32, crate::bosses::records::BossModel>,
    records: Seq<crate::bosses::records::RecordModel>,
)
    requires
        well_formed(bosses),
    ensures
        well_formed(crate::bosses::state::with_network_records(bosses, records)),
{
    lemma_records_keep(bosses, records);
    let after = crate::bosses::state::with_network_records(bosses, records);
    assert forall|f: u32| #[trigger]
        after.contains_key(f) implies crate::bosses::records::one_record_each(after[f])
        && match after[f].local {
        Some(r) => r.flag_id == f,
        None => true,
    } by {
        assert(bosses.dom().contains(f));
        assert(bosses.contains_key(f));
        lemma_records_stay_single(bosses, records, f);
    }
}

/// The last record of a player's defeat of a boss.
spec fn last_record(
    records: Seq<crate::bosses::records::RecordModel>,
    f: u32,
    p: Seq<char>,
) -> Option<crate::bosses::records::RecordModel>
    decreases records.len(),
{
    if records.len() == 0 {
        None
    } else if records.last().flag_id == f && records.last().player_id == p {
        Some(records.last())
    } else {
        last_record(records.drop_last(), f, p)
    }
}

proof fn lemma_last_record(
    records: Seq<crate::bosses::records::RecordModel>,
    f: u32,
    p: Seq<char>,
)
    ensures
        match last_record(records, f, p) {
            Some(r) => r.player_id == p && exists|k: int|
                0 <= k < records.len() && (#[trigger] records[k]).flag_id == f
                    && records[k].player_id == p,
            None => true,
        },
    decreases records.len(),
{
    if records.len() > 0 {
        let rest = records.drop_last();
        if records.last().flag_id == f && records.last().player_id == p {
            assert(records[records.len() - 1].flag_id == f);
        } else if last_record(records, f, p) is Some {
            lemma_last_record(rest, f, p);
            let k = choose|k: int|
                0 <= k < rest.len() && (#[trigger] rest[k]).flag_id == f && rest[k].player_id == p;
            assert(records[k] == rest[k]);
        }
    }
}

/// Where the records of a boss stand after more have arrived: those known before keep their
/// places, and each player's is the last that arrived of them, if any did.
proof fn lemma_records_in_place(
    bosses: Map<u32, crate::bosses::records::BossModel>,
    records: Seq<crate::bosses::records::RecordModel>,
    f: u32,
)
    requires
        bosses.contains_key(f),
        crate::bosses::records::one_record_each(bosses[f]),
    ensures
        ({
            let base = bosses[f].network;
            let now = crate::bosses::state::with_network_records(bosses, records)[f].network;
            &&& base.len() <= now.len()
            &&& forall|i: int|
                0 <= i < now.len() ==> match last_record(
                    records,
                    f,
                    (#[trigger] now[i]).player_id,
                ) {
                    Some(r) => now[i] == r,
                    None => i < base.len() && now[i] == base[i],
                }
            &&& forall|i: int|
                0 <= i < base.len() ==> (#[trigger] now[i]).player_id == base[i].player_id
        }),
    decreases records.len(),
{
    if records.len() > 0 {
        let rest = records.drop_last();
        let r = records.last();
        lemma_records_in_place(bosses, rest, f);
        lemma_records_keep(bosses, rest);
        lemma_records_stay_single(bosses, rest, f);
        let base = bosses[f].network;
        let all = crate::bosses::state::with_network_records(bosses, rest);
        let before = all[f].network;
        let now = crate::bosses::state::with_network_records(bosses, records)[f].network;
        assert(all.dom().contains(f));
        if r.flag_id == f {
            let names = crate::bosses::records::players(before);
            crate::text::lemma_position_of(names, r.player_id);
            let at = crate::text::position_of(names, r.player_id);
            assert forall|i: int| 0 <= i < now.len() implies match last_record(
                records,
                f,
                (#[trigger] now[i]).player_id,
            ) {
                Some(r) => now[i] == r,
                None => i < base.len() && now[i] == base[i],
            } by {
                if i == at {
                    assert(now[i] == r);
                } else {
                    assert(now[i] == before[i]);
                    assert(names[i] == before[i].player_id);
                    if before[i].player_id == r.player_id {
                        assert(at < before.len());
                        assert(names[at] == names[i]);
                    }
                }
            }
            assert forall|i: int| 0 <= i < base.len() implies (#[trigger] now[i]).player_id
                == base[i].player_id by {
                assert(before[i].player_id == base[i].player_id);
                if i == at {
                    assert(names[i] == before[i].player_id);
                }
            }
        } else {
            assert(now == before);
        }
    }
}

/// The same records, taken in twice, leave the bosses as after the first time.
pub proof fn lemma_records_twice(
    bosses: Map<u32, crate::bosses::records::BossModel>,
    records: Seq<crate::bosses::records::RecordModel>,
)
    requires
        well_formed(bosses),
    ensures
        crate::bosses::state::with_network_records(
            crate::bosses::state::with_network_records(bosses, records),
            records,
        ) == crate::bosses::state::with_network_records(bosses, records),
{
    let once = crate::bosses::state::with_network_records(bosses, records);
    let twice = crate::bosses::state::with_network_records(once, records);
    lemma_records_keep(bosses, records);
    lemma_records_keep(once, records);
    lemma_records_well_formed(bosses, records);
    assert forall|f: u32| #[trigger] once.contains_key(f) implies twice[f] == once[f] by {
        assert(bosses.dom().contains(f));
        assert(bosses.contains_key(f));
        lemma_records_in_place(bosses, records, f);
        lemma_records_in_place(once, records, f);
        lemma_records_stay_single(once, records, f);
        let a = once[f].network;
        let b = twice[f].network;
        assert forall|i: int| 0 <= i < a.len() implies #[trigger] b[i] == a[i] by {
            assert(b[i].player_id == a[i].player_id);
        }
        if b.len() > a.len() {
            let n = a.len() as int;
            let p = b[n].player_id;
            lemma_last_record(records, f, p);
            lemma_records_are_known(bosses, records, f, p);
            let names = crate::bosses::records::players(a);
            assert(names.contains(p));
            let j = choose|j: int| 0 <= j < names.len() && names[j] == p;
            assert(a[j].player_id == p);
            assert(b[j] == a[j]);
            let all = crate::bosses::records::players(b);
            assert(all[j] == p && all[n] == p);
        }
        assert(b =~= a);
    }
    assert(twice =~= once);
}

/// What the server says about bosses, heard twice, leaves the state as after the first time.
pub proof fn lemma_update_twice(
    m: crate::bosses::state::BossesModel,
    req: UpdateBossRequest,
    run: Option<crate::client::time::NetworkTime>,
)
    requires
        well_formed(m.bosses),
    ensures
        crate::bosses::state::after_update(
            crate::bosses::state::after_update(m, req, run),
            req,
            run,
        ) == crate::bosses::state::after_update(m, req, run),
{
    let after = crate::bosses::state::after_update(m, req, run);
    lemma_update_keeps_bosses(m, req, run);
    if req.set is Some {
        assert(crate::bosses::state::all_undefeated(after.bosses)
            =~= crate::bosses::state::all_undefeated(m.bosses));
    } else if let Some(add) = req.add {
        lemma_records_twice(m.bosses, crate::bosses::records::record_models(add@));
    }
}

/// Once the server has answered a report with the reported defeats, none of the bosses that were
/// read is pending any more.
pub proof fn lemma_answered_report_is_settled(
    bosses: Map<u32, crate::bosses::records::BossModel>,
    flags: Seq<u32>,
    f: u32,
)
    requires
        flags.contains(f),
        bosses.contains_key(f),
        well_formed(bosses),
    ensures
        crate::bosses::records::pending(
            crate::bosses::state::with_network_records(
                bosses,
                crate::bosses::state::reports(bosses, flags),
            )[f],
        ) is None,
{
    let sent = crate::bosses::state::reports(bosses, flags);
    lemma_reports_are_pending(bosses, flags);
    lemma_records_keep(bosses, sent);
    if let Some(r) = bosses[f].local {
        lemma_records_are_known(bosses, sent, f, r.player_id);
        if crate::bosses::records::pending(bosses[f]) is Some {
            assert(sent.contains(r));
            let k = choose|k: int| 0 <= k < sent.len() && sent[k] == r;
            assert(sent[k].flag_id == f);
        }
    }
}

/// After a report, nothing is reported until the gap has passed or the server has answered.
pub proof fn lemma_no_report_within_gap(
    m: crate::bosses::state::BossesModel,
    flags: Seq<u32>,
    shot: GameSnapshot,
    player_id: Seq<char>,
    defeated_at: Seq<char>,
    instant: u64,
    next_shot: GameSnapshot,
    next_defeated_at: Seq<char>,
    next_instant: u64,
)
    requires
        crate::bosses::state::after_frame(
            m,
            flags,
            shot,
            player_id,
            defeated_at,
            instant,
        ).1.len() > 0,
        next_instant - instant <= crate::bosses::state::REPORT_GAP_NANOS,
    ensures
        crate::bosses::state::after_frame(
            crate::bosses::state::after_frame(
                m,
                flags,
                shot,
                player_id,
                defeated_at,
                instant,
            ).0,
            flags,
            next_shot,
            player_id,
            next_defeated_at,
            next_instant,
        ).1.len() == 0,
{
}

/// While a boss stays defeated, its first record stays; when its flag is cleared, the local
/// defeat is forgotten.
pub proof fn lemma_first_defeat_stays(
    b: crate::bosses::records::BossModel,
    first: crate::bosses::records::RecordModel,
    later: crate::bosses::records::RecordModel,
)
    ensures
        crate::bosses::state::after_flag(
            crate::bosses::state::after_flag(b, true, first),
            true,
            later,
        ) == crate::bosses::state::after_flag(b, true, first),
        crate::bosses::state::after_flag(b, false, first).local is None,
        crate::bosses::state::after_flag(b, false, first).network == b.network,
{
}

/// Outside the game no defeat is recorded or forgotten, and nothing is reported.
pub proof fn lemma_menu_changes_no_defeats(
    m: crate::bosses::state::BossesModel,
    flags: Seq<u32>,
    shot: GameSnapshot,
    player_id: Seq<char>,
    defeated_at: Seq<char>,
    instant: u64,
)
    requires
        !shot.in_game,
    ensures
        ({
            let (after, sent) = crate::bosses::state::after_frame(
                m,
                flags,
                shot,
                player_id,
                defeated_at,
                instant,
            );
            after.bosses == m.bosses && after.last_igt == m.last_igt && sent.len() == 0
        }),
{
}

/// No more bosses are defeated than there are.
pub proof fn lemma_dead_at_most_all(
    bosses: Map<u32, crate::bosses::records::BossModel>,
    cond: spec_fn(crate::bosses::records::BossModel) -> bool,
)
    requires
        bosses.dom().finite(),
    ensures
        crate::bosses::state::count_with(bosses, cond) <= bosses.dom().len(),
{
    vstd::set_lib::lemma_len_subset(
        crate::bosses::state::bosses_with(bosses, cond),
        bosses.dom(),
    );
}

/// The equals key opens and closes again; the backslash key hides and shows again, closed.
pub proof fn lemma_keys_toggle(u: UiState)
    requires
        !u.is_hidden,
        !u.toggle_open,
    ensures
        ({
            let equal = PanelKeys { equal: true, backslash: false, minus: false };
            let backslash = PanelKeys { equal: false, backslash: true, minus: false };
            &&& crate::bosses::panel::after_keys(
                crate::bosses::panel::after_keys(u, equal),
                equal,
            ) == u
            &&& crate::bosses::panel::after_keys(
                crate::bosses::panel::after_keys(u, backslash),
                backslash,
            ) == (UiState { is_open: false, ..u })
        }),
{
}

/// In a frame without keys, in the region of the frame before, nothing is opened or closed anew.
pub proof fn lemma_steady_frame_sets_nothing(
    frame: Frame,
    m: crate::bosses::state::BossesModel,
    data: GameBossData,
    u: UiState,
    own_id: Seq<char>,
)
    requires
        !u.toggle_open,
        !u.hide_completed,
        data.region_at(m.block_id, m.play_region) == u.region_index,
        crate::bosses::panel::is_frame(
            frame,
            m,
            data,
            u,
            (PanelKeys { equal: false, backslash: false, minus: false }),
            own_id,
        ),
    ensures
        !frame.index_changed,
        !frame.start_hide_completed,
        crate::bosses::panel::frame_ended(
            crate::bosses::panel::frame_begun(
                u,
                PanelKeys { equal: false, backslash: false, minus: false },
            ),
            frame,
        ) == (UiState { next_visible: None, ..u }),
{
}

// --- Frames

/// After a frame in the game, a boss whose flag was read is defeated by the local player if and
/// only if its flag is set, whoever else has defeated it. A first defeat is recorded with the
/// player, the boss, the time, and the in-game time where less than a second of it has passed since
/// the last frame; an earlier record stays. Other bosses, and the server's records, stay as they
/// are.
pub proof fn lemma_frame_reads_flags(
    m: BossesModel,
    flags: Seq<u32>,
    shot: GameSnapshot,
    player_id: Seq<char>,
    defeated_at: Seq<char>,
    instant: u64,
    f: u32,
)
    requires
        shot.in_game,
        m.bosses.contains_key(f),
    ensures
        ({
            let after = state::after_frame(m, flags, shot, player_id, defeated_at, instant).0;
            let dead = shot.dead_flags@.contains(f);
            &&& after.bosses.contains_key(f)
            &&& after.bosses[f].network == m.bosses[f].network
            &&& !flags.contains(f) ==> after.bosses[f] == m.bosses[f]
            &&& flags.contains(f) ==> {
                &&& after.bosses[f].local is Some <==> dead
                &&& dead && m.bosses[f].local is Some ==> after.bosses[f].local
                    == m.bosses[f].local
                &&& dead && m.bosses[f].local is None ==> after.bosses[f].local == Some(
                    RecordModel {
                        player_id,
                        flag_id: f,
                        defeated_at: Some(defeated_at),
                        igt_ms: match (m.last_igt, shot.play_time) {
                            (Some(last), Some(now)) => if last - now < 1000 && now - last < 1000 {
                                Some(now)
                            } else {
                                None
                            },
                            _ => None,
                        },
                    },
                )
            }
        }),
{
}

/// Whether the server has a record of a player for a boss.
pub open spec fn server_knows(b: BossModel, player_id: Seq<char>) -> bool {
    exists|k: int| 0 <= k < b.network.len() && (#[trigger] b.network[k]).player_id == player_id
}

/// A defeat waits for the server where the server has no record of its player.
pub proof fn lemma_pending_is_unknown(b: BossModel)
    ensures
        records::pending(b) == (match b.local {
            Some(r) => if server_knows(b, r.player_id) {
                None
            } else {
                Some(r)
            },
            None => None,
        }),
{
    if let Some(r) = b.local {
        let names = records::players(b.network);
        if names.contains(r.player_id) {
            let k = choose|k: int| 0 <= k < names.len() && names[k] == r.player_id;
            assert(b.network[k].player_id == r.player_id);
        }
        if server_knows(b, r.player_id) {
            let k = choose|k: int|
                0 <= k < b.network.len() && (#[trigger] b.network[k]).player_id == r.player_id;
            assert(names[k] == r.player_id);
        }
    }
}

/// In the game, during a run, and with no report in the last ten seconds that was not answered, a
/// frame reports exactly the local defeats, of the bosses whose flags were read, that the server
/// has no record of; otherwise it reports nothing. A report is waited for, and no report changes
/// nothing about that.
pub proof fn lemma_frame_reports(
    m: BossesModel,
    flags: Seq<u32>,
    shot: GameSnapshot,
    player_id: Seq<char>,
    defeated_at: Seq<char>,
    instant: u64,
    f: u32,
    k: int,
)
    ensures
        ({
            let (after, sent) = state::after_frame(
                m,
                flags,
                shot,
                player_id,
                defeated_at,
                instant,
            );
            let may = shot.in_game && m.current_run is Some && match m.pending_update {
                Some(last) => instant - last > 10_000_000_000,
                None => true,
            };
            &&& !may ==> sent.len() == 0
            &&& may && flags.contains(f) && m.bosses.contains_key(f) ==> match after.bosses[f].local {
                Some(r) => !server_knows(m.bosses[f], r.player_id) ==> sent.contains(r),
                None => true,
            }
            &&& 0 <= k < sent.len() ==> exists|g: u32|
                #[trigger] flags.contains(g) && m.bosses.contains_key(g) && after.bosses[g].local
                    == Some(sent[k]) && !server_knows(m.bosses[g], sent[k].player_id)
            &&& after.pending_update == if sent.len() > 0 {
                Some(instant)
            } else {
                m.pending_update
            }
        }),
{
    let (after, sent) = state::after_frame(m, flags, shot, player_id, defeated_at, instant);
    lemma_reports_are_pending(after.bosses, flags);
    if shot.in_game {
        if m.bosses.contains_key(f) {
            lemma_pending_is_unknown(after.bosses[f]);
        }
        if 0 <= k < sent.len() {
            let g = choose|g: u32|
                #[trigger] flags.contains(g) && after.bosses.contains_key(g) && records::pending(
                    after.bosses[g],
                ) == Some(sent[k]);
            lemma_pending_is_unknown(after.bosses[g]);
            assert(flags.contains(g) && m.bosses.contains_key(g));
        }
    }
}

/// Defeats are reported in the order in which the flags are read.
pub proof fn lemma_reports_in_order(bosses: Map<u32, BossModel>, flags: Seq<u32>, f: u32)
    ensures
        state::reports(bosses, Seq::empty()).len() == 0,
        state::reports(bosses, flags.push(f)) == if bosses.contains_key(f) {
            match bosses[f].local {
                Some(r) => if server_knows(bosses[f], r.player_id) {
                    state::reports(bosses, flags)
                } else {
                    state::reports(bosses, flags).push(r)
                },
                None => state::reports(bosses, flags),
            }
        } else {
            state::reports(bosses, flags)
        },
{
    assert(flags.push(f).drop_last() =~= flags);
    if bosses.contains_key(f) {
        lemma_pending_is_unknown(bosses[f]);
    }
}

/// What a frame changes beside the bosses: in the game, the place where block and play region are
/// both known, and the in-game time where it can be told; and from the first frame on, the panel
/// may be shown.
pub proof fn lemma_frame_place_and_time(
    m: BossesModel,
    flags: Seq<u32>,
    shot: GameSnapshot,
    player_id: Seq<char>,
    defeated_at: Seq<char>,
    instant: u64,
)
    ensures
        ({
            let after = state::after_frame(m, flags, shot, player_id, defeated_at, instant).0;
            &&& after.show_ui
            &&& match shot.location {
                Some((block, region)) => if shot.in_game && block != -1 && region > 0 {
                    after.block_id == Some(block) && after.play_region == region / 1000
                } else {
                    after.block_id == m.block_id && after.play_region == m.play_region
                },
                None => after.block_id == m.block_id && after.play_region == m.play_region,
            }
            &&& after.last_igt == if shot.in_game && shot.play_time is Some {
                shot.play_time
            } else {
                m.last_igt
            }
            &&& after.bosses.dom() == m.bosses.dom()
            &&& after.current_run == m.current_run
            &&& after.runner_ids == m.runner_ids
            &&& after.runners == m.runners
            &&& after.received_messages == m.received_messages
        }),
{
    let after = state::after_frame(m, flags, shot, player_id, defeated_at, instant).0;
    assert(after.bosses.dom() =~= m.bosses.dom());
}

// --- What the server says

proof fn lemma_last_record_is(records: Seq<RecordModel>, f: u32, k: int)
    requires
        0 <= k < records.len(),
        records[k].flag_id == f,
        forall|j: int|
            k < j < records.len() ==> (#[trigger] records[j]).flag_id != f || records[j].player_id
                != records[k].player_id,
    ensures
        last_record(records, f, records[k].player_id) == Some(records[k]),
    decreases records.len(),
{
    if k < records.len() - 1 {
        let rest = records.drop_last();
        assert(records[records.len() - 1].flag_id != f || records[records.len() - 1].player_id
            != records[k].player_id);
        assert(rest[k] == records[k]);
        assert forall|j: int| k < j < rest.len() implies (#[trigger] rest[j]).flag_id != f
            || rest[j].player_id != rest[k].player_id by {
            assert(records[j].flag_id != f || records[j].player_id != records[k].player_id);
        }
        lemma_last_record_is(rest, f, k);
    }
}

/// Of the records that the server sends, the last of each player for a boss is that player's
/// record, and the only one.
pub proof fn lemma_last_record_counts(
    bosses: Map<u32, BossModel>,
    list: Seq<RecordModel>,
    k: int,
)
    requires
        well_formed(bosses),
        0 <= k < list.len(),
        bosses.contains_key(list[k].flag_id),
        forall|j: int|
            k < j < list.len() ==> (#[trigger] list[j]).flag_id != list[k].flag_id
                || list[j].player_id != list[k].player_id,
    ensures
        ({
            let now = state::with_network_records(bosses, list)[list[k].flag_id].network;
            &&& now.contains(list[k])
            &&& forall|i: int|
                0 <= i < now.len() && (#[trigger] now[i]).player_id == list[k].player_id
                    ==> now[i] == list[k]
        }),
{
    let f = list[k].flag_id;
    lemma_last_record_is(list, f, k);
    lemma_records_in_place(bosses, list, f);
    lemma_records_are_known(bosses, list, f, list[k].player_id);
    let now = state::with_network_records(bosses, list)[f].network;
    let names = records::players(now);
    let i = choose|i: int| 0 <= i < names.len() && names[i] == list[k].player_id;
    assert(now[i].player_id == list[k].player_id);
}

/// Records of players and bosses that the server does not speak of stay as they are, and it brings
/// no records but its own.
pub proof fn lemma_other_records_stay(bosses: Map<u32, BossModel>, list: Seq<RecordModel>, f: u32)
    requires
        well_formed(bosses),
        bosses.contains_key(f),
    ensures
        ({
            let was = bosses[f].network;
            let now = state::with_network_records(bosses, list)[f].network;
            &&& was.len() <= now.len()
            &&& forall|i: int|
                0 <= i < was.len() && (forall|k: int|
                    0 <= k < list.len() ==> (#[trigger] list[k]).flag_id != f || list[k].player_id
                        != was[i].player_id) ==> #[trigger] now[i] == was[i]
            &&& forall|i: int|
                0 <= i < now.len() ==> (i < was.len() && (#[trigger] now[i]) == was[i])
                    || list.contains(now[i])
        }),
{
    let was = bosses[f].network;
    let now = state::with_network_records(bosses, list)[f].network;
    lemma_records_in_place(bosses, list, f);
    assert forall|i: int|
        0 <= i < was.len() && (forall|k: int|
            0 <= k < list.len() ==> (#[trigger] list[k]).flag_id != f || list[k].player_id
                != was[i].player_id) implies #[trigger] now[i] == was[i] by {
        assert(now[i].player_id == was[i].player_id);
        lemma_last_record(list, f, was[i].player_id);
    }
    assert forall|i: int| 0 <= i < now.len() implies (i < was.len() && (#[trigger] now[i])
        == was[i]) || list.contains(now[i]) by {
        lemma_last_record_listed(list, f, now[i].player_id);
    }
}

proof fn lemma_last_record_listed(list: Seq<RecordModel>, f: u32, p: Seq<char>)
    ensures
        last_record(list, f, p) matches Some(r) ==> list.contains(r) && r.flag_id == f
            && r.player_id == p,
    decreases list.len(),
{
    if list.len() > 0 {
        if list.last().flag_id == f && list.last().player_id == p {
            assert(list[list.len() - 1] == list.last());
        } else {
            lemma_last_record_listed(list.drop_last(), f, p);
            if let Some(r) = last_record(list, f, p) {
                let k = choose|k: int|
                    0 <= k < list.drop_last().len() && list.drop_last()[k] == r;
                assert(list[k] == r);
            }
        }
    }
}

/// What a message of the server does. All known defeats replace everything, the local ones too;
/// newly known ones are added and leave the local ones. The run is what the message says of it, if
/// it does. After all defeats, or once the server knows of every local one, no answer is waited
/// for.
pub proof fn lemma_server_update(
    m: BossesModel,
    req: UpdateBossRequest,
    run: Option<NetworkTime>,
    f: u32,
)
    requires
        well_formed(m.bosses),
        m.bosses.contains_key(f),
    ensures
        ({
            let after = state::after_update(m, req, run);
            &&& after.received_messages
            &&& after.current_run == if req.run is Some {
                run
            } else {
                m.current_run
            }
            &&& after.bosses.dom() == m.bosses.dom()
            &&& match (req.set, req.add) {
                (Some(set), _) => after.bosses[f].local is None && after.pending_update is None && (
                forall|i: int|
                    0 <= i < after.bosses[f].network.len() ==> records::record_models(
                        set@,
                    ).contains(#[trigger] after.bosses[f].network[i])),
                (None, Some(add)) => {
                    &&& after.bosses[f].local == m.bosses[f].local
                    &&& after.pending_update == m.pending_update || after.pending_update is None
                    &&& (after.bosses[f].local matches Some(r) && !server_knows(
                        after.bosses[f],
                        r.player_id,
                    )) ==> after.pending_update == m.pending_update
                    &&& (forall|g: u32| #[trigger]
                        m.bosses.contains_key(g) ==> match after.bosses[g].local {
                            Some(r) => server_knows(after.bosses[g], r.player_id),
                            None => true,
                        }) ==> after.pending_update is None
                },
                (None, None) => after.bosses == m.bosses && after.pending_update
                    == m.pending_update,
            }
            &&& after.runner_ids == m.runner_ids && after.runners == m.runners
            &&& after.play_region == m.play_region && after.block_id == m.block_id
            &&& after.last_igt == m.last_igt && after.show_ui == m.show_ui
        }),
{
    let after = state::after_update(m, req, run);
    lemma_update_keeps_bosses(m, req, run);
    if let Some(set) = req.set {
        let list = records::record_models(set@);
        let cleared = state::all_undefeated(m.bosses);
        assert(cleared.contains_key(f));
        assert(well_formed(cleared));
        lemma_records_keep(cleared, list);
        lemma_other_records_stay(cleared, list, f);
    } else if let Some(add) = req.add {
        let list = records::record_models(add@);
        lemma_records_keep(m.bosses, list);
        lemma_pending_is_unknown(after.bosses[f]);
        assert(after.bosses.dom().contains(f));
        if forall|g: u32| #[trigger]
            m.bosses.contains_key(g) ==> match after.bosses[g].local {
                Some(r) => server_knows(after.bosses[g], r.player_id),
                None => true,
            } {
            assert forall|g: u32| #[trigger] after.bosses.contains_key(g) implies records::pending(
                after.bosses[g],
            ) is None by {
                assert(m.bosses.dom().contains(g));
                assert(m.bosses.contains_key(g));
                lemma_pending_is_unknown(after.bosses[g]);
            }
        }
        if after.bosses[f].local matches Some(r) && !server_knows(after.bosses[f], r.player_id) {
            assert(after.bosses.contains_key(f) && records::pending(after.bosses[f]) is Some);
        }
    }
}

/// The runners are those that the server sends, in order, each with their id, their names, and the
/// colour of their own colour text.
pub proof fn lemma_runners_are_those_sent(m: BossesModel, entries: Seq<RunnerEntry>, i: int)
    requires
        0 <= i < entries.len(),
    ensures
        ({
            let after = state::after_runners(m, entries);
            &&& after.runner_ids.len() == entries.len() && after.runners.len() == entries.len()
            &&& after.runner_ids[i] == entries[i].player_id@
            &&& after.runners[i].id == entries[i].runner.id@
            &&& entries[i].runner.name matches Some(n) ==> state::runner_name(after.runners[i])
                == n@
            &&& entries[i].runner.name is None ==> state::runner_name(after.runners[i]) == (
            match entries[i].runner.character_name {
                Some(n) => n@,
                None => "Unknown"@,
            })
            &&& after.runners[i].hex_color == match entries[i].runner.color {
                Some(text) => crate::bosses::color::color_of(text@),
                None => None,
            }
            &&& after.bosses == m.bosses && after.current_run == m.current_run
                && after.pending_update == m.pending_update && after.block_id == m.block_id
                && after.play_region == m.play_region && after.last_igt == m.last_igt
                && after.received_messages == m.received_messages && after.show_ui == m.show_ui
        }),
{
}

/// A player's runner is the first one with their id.
pub proof fn lemma_runner_of(ids: Seq<Seq<char>>, runners: Seq<RunnerModel>, id: Seq<char>)
    requires
        ids.len() == runners.len(),
    ensures
        match state::runner_of(ids, runners, id) {
            Some(r) => exists|p: int|
                0 <= p < ids.len() && #[trigger] ids[p] == id && runners[p] == r && forall|q: int|
                    0 <= q < p ==> #[trigger] ids[q] != id,
            None => forall|p: int| 0 <= p < ids.len() ==> #[trigger] ids[p] != id,
        },
{
    crate::text::lemma_position_of(ids, id);
    let at = crate::text::position_of(ids, id);
    if at < ids.len() {
        assert(ids[at] == id);
    } else {
        assert forall|p: int| 0 <= p < ids.len() implies #[trigger] ids[p] != id by {
            if ids[p] == id {
                assert(ids.contains(id));
            }
        }
    }
}

// --- Bosses and regions

/// The flags that are read are those of all bosses, region by region and in order.
pub proof fn lemma_boss_flags(regions: Seq<RegionBossData>, next: RegionBossData, f: u32)
    ensures
        crate::bosses::data::boss_flags(Seq::empty()).len() == 0,
        ({
            let before = crate::bosses::data::boss_flags(regions);
            let after = crate::bosses::data::boss_flags(regions.push(next));
            &&& after.len() == before.len() + next.bosses@.len()
            &&& forall|i: int| 0 <= i < before.len() ==> #[trigger] after[i] == before[i]
            &&& forall|i: int|
                0 <= i < next.bosses@.len() ==> after[before.len() + i] == (
                #[trigger] next.bosses@[i]).flag_id
        }),
{
    assert(regions.push(next).drop_last() =~= regions);
}

/// A place belongs to the last region with a boss in its block; where no region has one, to the
/// last region that lists its play region, itself or through a boss; and otherwise to none.
pub proof fn lemma_region_of_place(data: GameBossData, block_id: Option<i32>, play_region: u32)
    requires
        data.wf(),
    ensures
        ({
            let regions = data.regions@;
            let here = data.region_at(block_id, play_region);
            let in_block = |i: int|
                block_id matches Some(b) && exists|j: int, k: int|
                    #![trigger regions[i].bosses@[j].maps.unwrap()@[k]]
                    0 <= j < regions[i].bosses@.len() && regions[i].bosses@[j].maps is Some && 0
                        <= k < regions[i].bosses@[j].maps.unwrap()@.len()
                        && crate::bosses::data::block_of_map(
                        regions[i].bosses@[j].maps.unwrap()@[k],
                    ) == b;
            match here {
                Some(at) => {
                    &&& at < regions.len()
                    &&& if exists|i: int| 0 <= i < regions.len() && #[trigger] in_block(i) {
                        in_block(at as int) && forall|i: int|
                            at < i < regions.len() ==> !#[trigger] in_block(i)
                    } else {
                        lists_region(regions[at as int], play_region) && forall|i: int|
                            at < i < regions.len() ==> !lists_region(
                                #[trigger] regions[i],
                                play_region,
                            )
                    }
                },
                None => forall|i: int|
                    0 <= i < regions.len() ==> !#[trigger] in_block(i) && !lists_region(
                        regions[i],
                        play_region,
                    ),
            }
        }),
{
    let regions = data.regions@;
    let in_block = |i: int|
        block_id matches Some(b) && exists|j: int, k: int|
            #![trigger regions[i].bosses@[j].maps.unwrap()@[k]]
            0 <= j < regions[i].bosses@.len() && regions[i].bosses@[j].maps is Some && 0 <= k
                < regions[i].bosses@[j].maps.unwrap()@.len() && crate::bosses::data::block_of_map(
                regions[i].bosses@[j].maps.unwrap()@[k],
            ) == b;
    assert forall|i: int| 0 <= i < regions.len() implies #[trigger] in_block(i) == (
    block_id matches Some(b) && crate::bosses::data::region_has_block(regions[i], b)) by {
        if let Some(b) = block_id {
            if in_block(i) {
                let (j, k) = choose|j: int, k: int|
                    #![trigger regions[i].bosses@[j].maps.unwrap()@[k]]
                    0 <= j < regions[i].bosses@.len() && regions[i].bosses@[j].maps is Some && 0
                        <= k < regions[i].bosses@[j].maps.unwrap()@.len()
                        && crate::bosses::data::block_of_map(
                        regions[i].bosses@[j].maps.unwrap()@[k],
                    ) == b;
                assert(crate::bosses::data::boss_in_block(regions[i].bosses@[j], b));
            }
            if crate::bosses::data::region_has_block(regions[i], b) {
                let j = choose|j: int|
                    0 <= j < regions[i].bosses@.len() && crate::bosses::data::boss_in_block(
                        #[trigger] regions[i].bosses@[j],
                        b,
                    );
                let maps = regions[i].bosses@[j].maps.unwrap()@;
                let k = choose|k: int|
                    0 <= k < maps.len() && crate::bosses::data::block_of_map(#[trigger] maps[k])
                        == b;
                assert(crate::bosses::data::block_of_map(
                    regions[i].bosses@[j].maps.unwrap()@[k],
                ) == b);
            }
        }
    }
    assert forall|i: int| 0 <= i < regions.len() implies lists_region(
        #[trigger] regions[i],
        play_region,
    ) == crate::bosses::data::region_has_play_region(regions[i], play_region) by {
        lemma_lists_region(regions[i], play_region);
    }
    let owns = |r: RegionBossData, b: i32| crate::bosses::data::region_has_block(r, b);
    let owns_play = |r: RegionBossData, p: u32|
        crate::bosses::data::region_has_play_region(r, p);
    if let Some(b) = block_id {
        assert(data.block_id_indices@.contains_key(b) ==> owns(
            regions[data.block_id_indices@[b] as int],
            b,
        ));
        assert forall|i: int| 0 <= i < regions.len() implies #[trigger] in_block(i) == owns(
            regions[i],
            b,
        ) by {}
        if data.block_id_indices@.contains_key(b) {
            assert(in_block(data.block_id_indices@[b] as int));
        }
    }
    assert(data.play_region_indices@.contains_key(play_region) ==> owns_play(
        regions[data.play_region_indices@[play_region] as int],
        play_region,
    ));
    assert forall|i: int| 0 <= i < regions.len() implies lists_region(
        #[trigger] regions[i],
        play_region,
    ) == owns_play(regions[i], play_region) by {}
}

/// Whether a region lists a play region, itself or through one of its bosses.
pub open spec fn lists_region(region: RegionBossData, play_region: u32) -> bool {
    (region.regions matches Some(v) && v@.contains(play_region)) || exists|j: int|
        0 <= j < region.bosses@.len() && ((#[trigger] region.bosses@[j]).regions matches Some(v)
            && v@.contains(play_region))
}

proof fn lemma_lists_region(region: RegionBossData, play_region: u32)
    ensures
        lists_region(region, play_region) == crate::bosses::data::region_has_play_region(
            region,
            play_region,
        ),
{
    if lists_region(region, play_region) && !(region.regions matches Some(v) && v@.contains(
        play_region,
    )) {
        let j = choose|j: int|
            0 <= j < region.bosses@.len() && ((#[trigger] region.bosses@[j]).regions matches Some(
                v,
            ) && v@.contains(play_region));
        assert(crate::bosses::data::lists(region.bosses@[j].regions, play_region));
    }
    if crate::bosses::data::region_has_play_region(region, play_region)
        && !crate::bosses::data::lists(region.regions, play_region) {
        let j = choose|j: int|
            0 <= j < region.bosses@.len() && crate::bosses::data::lists(
                (#[trigger] region.bosses@[j]).regions,
                play_region,
            );
        assert(region.bosses@[j].regions is Some);
    }
}

/// A map written as four pairs of digits has the block id whose bytes are the four numbers.
pub proof fn lemma_block_of_map(area: u32, block: u32, region: u32, index: u32)
    requires
        area < 128,
        block < 100,
        region < 100,
        index < 100,
    ensures
        crate::bosses::data::block_of_map(
            (area * 1000000 + block * 10000 + region * 100 + index) as u32,
        ) == area * 0x1000000 + block * 0x10000 + region * 0x100 + index,
{
    let map = (area * 1000000 + block * 10000 + region * 100 + index) as u32;
    assert(map as int == area * 1000000 + block * 10000 + region * 100 + index);
    assert(map as int / 1000000 == area);
    assert(map as int / 10000 == area * 100 + block);
    assert(map as int / 100 == (area * 100 + block) * 100 + region);
}

/// The block id of a map is its four bytes read as one signed number, the area first.
pub proof fn lemma_block_is_signed(map: u32)
    ensures
        ({
            let n = crate::bosses::data::block_of_map(map);
            let bytes = (map as int / 1000000 % 256) * 0x1000000 + (map as int / 10000 % 100)
                * 0x10000 + (map as int / 100 % 100) * 0x100 + map as int % 100;
            &&& -0x8000_0000 <= n < 0x8000_0000
            &&& n == bytes || n == bytes - 0x1_0000_0000
        }),
{
}

} // verus!
