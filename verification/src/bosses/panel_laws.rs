//! Laws of the boss panel.
use vstd::prelude::*;

use crate::bosses::color::Color;
use crate::bosses::data::{BossData, GameBossData, RegionBossData};
use crate::bosses::laws;
use crate::bosses::panel;
use crate::bosses::panel::{BossRow, Frame, Layout, PanelKeys, RegionRow, UiState};
use crate::bosses::records;
use crate::bosses::records::{BossModel, RecordModel};
use crate::bosses::state;
use crate::bosses::state::{BossesApiRequest, BossesModel, RunnerModel};

verus! {

// --- Who has defeated a boss

/// Whether a record was made no later in the game than another; records without an in-game time
/// come first.
pub open spec fn no_later(a: RecordModel, b: RecordModel) -> bool {
    match (a.igt_ms, b.igt_ms) {
        (None, _) => true,
        (Some(_), None) => false,
        (Some(x), Some(y)) => x <= y,
    }
}

/// The defeats of a boss that are shown: every record of the server, and the local one where the
/// server has none of its player; nothing else, and none twice. They are in the order of in-game
/// time, those without one first.
pub proof fn lemma_ordered_records(
    bosses: Map<u32, BossModel>,
    flag_id: u32,
    list: Seq<RecordModel>,
)
    requires
        panel::ordered_records(bosses, flag_id, list),
    ensures
        !bosses.contains_key(flag_id) ==> list.len() == 0,
        bosses.contains_key(flag_id) ==> {
            let b = bosses[flag_id];
            let alone = b.local matches Some(r) && !laws::server_knows(b, r.player_id);
            &&& list.len() == b.network.len() + if alone {
                1int
            } else {
                0int
            }
            &&& forall|i: int, j: int|
                0 <= i < j < list.len() ==> no_later(#[trigger] list[i], #[trigger] list[j])
            &&& forall|k: int|
                0 <= k < b.network.len() ==> list.contains(#[trigger] b.network[k])
            &&& alone ==> list.contains(b.local.unwrap())
            &&& forall|i: int|
                0 <= i < list.len() ==> b.network.contains(#[trigger] list[i]) || (alone && list[i]
                    == b.local.unwrap())
        },
{
    if bosses.contains_key(flag_id) {
        let b = bosses[flag_id];
        let all = records::all_records(b);
        laws::lemma_pending_is_unknown(b);
        let alone = b.local matches Some(r) && !laws::server_knows(b, r.player_id);
        let order = choose|order: Seq<usize>|
            #[trigger] records::igt_order(all, order) && list == Seq::new(
                order.len(),
                |i: int| all[order[i] as int],
            );
        let keys = all.map_values(|r: RecordModel| records::igt_key(r));
        crate::sorting::lemma_key_order(keys, order);
        let first = if alone {
            1int
        } else {
            0int
        };
        assert forall|p: int| 0 <= p < all.len() implies list.contains(#[trigger] all[p]) by {
            assert(crate::sorting::holds_place(order, p));
            let k = choose|k: int| 0 <= k < order.len() && (#[trigger] order[k]) as int == p;
            assert(list[k] == all[p]);
        }
        assert forall|i: int, j: int| 0 <= i < j < list.len() implies no_later(
            #[trigger] list[i],
            #[trigger] list[j],
        ) by {
            assert(keys[order[i] as int] <= keys[order[j] as int]);
            assert(order[i] < keys.len() && order[j] < keys.len());
            assert(keys[order[i] as int] == records::igt_key(list[i]));
            assert(keys[order[j] as int] == records::igt_key(list[j]));
        }
        assert forall|k: int| 0 <= k < b.network.len() implies list.contains(
            #[trigger] b.network[k],
        ) by {
            assert(all[first + k] == b.network[k]);
        }
        if alone {
            assert(all[0] == b.local.unwrap());
        }
        assert forall|i: int| 0 <= i < list.len() implies b.network.contains(#[trigger] list[i])
            || (alone && list[i] == b.local.unwrap()) by {
            let p = order[i] as int;
            assert(order[i] < keys.len());
            if p >= first {
                assert(b.network[p - first] == list[i]);
            }
        }
    }
}

/// Whether a player is the one with a colour: the first runner with their id has it.
pub open spec fn player_has_color(m: BossesModel, id: Seq<char>, color: Option<Color>) -> bool {
    exists|p: int|
        0 <= p < m.runner_ids.len() && #[trigger] m.runner_ids[p] == id && m.runners[p].hex_color
            == color && forall|q: int| 0 <= q < p ==> #[trigger] m.runner_ids[q] != id
}

/// A boss is shown in the colour of the first runner, by in-game time, who has defeated it and has
/// a colour; in none only where no runner who has defeated it has one.
pub proof fn lemma_row_color(
    row: BossRow,
    m: BossesModel,
    region_name: Seq<char>,
    data: BossData,
)
    requires
        panel::is_boss_row(row, m, region_name, data),
        m.runner_ids.len() == m.runners.len(),
    ensures
        exists|list: Seq<RecordModel>|
            #[trigger] panel::ordered_records(m.bosses, data.flag_id, list) && match row.color {
                Some(c) => exists|i: int|
                    0 <= i < list.len() && player_has_color(
                        m,
                        (#[trigger] list[i]).player_id,
                        Some(c),
                    ) && forall|j: int, d: Color|
                        0 <= j < i ==> !#[trigger] player_has_color(m, list[j].player_id, Some(d)),
                None => forall|j: int, d: Color|
                    0 <= j < list.len() ==> !#[trigger] player_has_color(
                        m,
                        list[j].player_id,
                        Some(d),
                    ),
            },
{
    let list = choose|list: Seq<RecordModel>|
        #[trigger] panel::ordered_records(m.bosses, data.flag_id, list) && row.color
            == panel::first_color(panel::record_runners(m, list)) && row.tooltip@
            == panel::tooltip_of(data.place@, region_name, panel::record_runners(m, list));
    lemma_first_color(m, list);
}

proof fn lemma_color_of_player(m: BossesModel, id: Seq<char>, d: Color)
    requires
        m.runner_ids.len() == m.runners.len(),
    ensures
        player_has_color(m, id, Some(d)) <==> (state::runner_of(
            m.runner_ids,
            m.runners,
            id,
        ) matches Some(r) && r.hex_color == Some(d)),
{
    laws::lemma_runner_of(m.runner_ids, m.runners, id);
    if player_has_color(m, id, Some(d)) {
        let p = choose|p: int|
            0 <= p < m.runner_ids.len() && #[trigger] m.runner_ids[p] == id
                && m.runners[p].hex_color == Some(d) && forall|q: int|
                0 <= q < p ==> #[trigger] m.runner_ids[q] != id;
        let r = state::runner_of(m.runner_ids, m.runners, id);
        assert(m.runner_ids[p] == id);
        let s = choose|s: int|
            0 <= s < m.runner_ids.len() && #[trigger] m.runner_ids[s] == id && m.runners[s]
                == r.unwrap() && forall|q: int| 0 <= q < s ==> #[trigger] m.runner_ids[q] != id;
        if s < p {
            assert(m.runner_ids[s] != id);
        } else if p < s {
            assert(m.runner_ids[p] != id);
        }
    }
    if let Some(r) = state::runner_of(m.runner_ids, m.runners, id) {
        if r.hex_color == Some(d) {
            let s = choose|s: int|
                0 <= s < m.runner_ids.len() && #[trigger] m.runner_ids[s] == id && m.runners[s]
                    == r && forall|q: int| 0 <= q < s ==> #[trigger] m.runner_ids[q] != id;
            assert(m.runner_ids[s] == id && m.runners[s].hex_color == Some(d));
        }
    }
}

proof fn lemma_first_color(m: BossesModel, list: Seq<RecordModel>)
    requires
        m.runner_ids.len() == m.runners.len(),
    ensures
        match panel::first_color(panel::record_runners(m, list)) {
            Some(c) => exists|i: int|
                0 <= i < list.len() && player_has_color(
                    m,
                    (#[trigger] list[i]).player_id,
                    Some(c),
                ) && forall|j: int, d: Color|
                    0 <= j < i ==> !#[trigger] player_has_color(m, list[j].player_id, Some(d)),
            None => forall|j: int, d: Color|
                0 <= j < list.len() ==> !#[trigger] player_has_color(
                    m,
                    list[j].player_id,
                    Some(d),
                ),
        },
    decreases list.len(),
{
    if list.len() > 0 {
        let rest = list.drop_last();
        let n = list.len() - 1;
        lemma_first_color(m, rest);
        let before = panel::record_runners(m, rest);
        let all = panel::record_runners(m, list);
        if let Some(r) = state::runner_of(m.runner_ids, m.runners, list.last().player_id) {
            assert(all.drop_last() =~= before);
        }
        assert forall|d: Color| #[trigger] player_has_color(m, list[n].player_id, Some(d)) <==> (
        state::runner_of(m.runner_ids, m.runners, list[n].player_id) matches Some(r) && r.hex_color
            == Some(d)) by {
            lemma_color_of_player(m, list[n].player_id, d);
        }
        match panel::first_color(before) {
            Some(c) => {
                let i = choose|i: int|
                    0 <= i < rest.len() && player_has_color(
                        m,
                        (#[trigger] rest[i]).player_id,
                        Some(c),
                    ) && forall|j: int, d: Color|
                        0 <= j < i ==> !#[trigger] player_has_color(m, rest[j].player_id, Some(d));
                assert(list[i] == rest[i]);
                assert forall|j: int, d: Color| 0 <= j < i implies !#[trigger] player_has_color(
                    m,
                    list[j].player_id,
                    Some(d),
                ) by {
                    assert(rest[j] == list[j]);
                    assert(!player_has_color(m, rest[j].player_id, Some(d)));
                }
            },
            None => {
                assert forall|j: int, d: Color| 0 <= j < n implies !#[trigger] player_has_color(
                    m,
                    list[j].player_id,
                    Some(d),
                ) by {
                    assert(rest[j] == list[j]);
                    assert(!player_has_color(m, rest[j].player_id, Some(d)));
                }
                if let Some(c) = panel::first_color(all) {
                    assert(player_has_color(m, list[n].player_id, Some(c)));
                } else {
                    assert forall|j: int, d: Color|
                        0 <= j < list.len() implies !#[trigger] player_has_color(
                        m,
                        list[j].player_id,
                        Some(d),
                    ) by {
                        if j == n {
                            assert(!player_has_color(m, list[n].player_id, Some(d)));
                        }
                    }
                }
            },
        }
    }
}

/// The runners behind records are those of their players, in order; a record of a player who is no
/// runner is passed over.
pub proof fn lemma_record_runners(m: BossesModel, list: Seq<RecordModel>, next: RecordModel)
    requires
        m.runner_ids.len() == m.runners.len(),
    ensures
        panel::record_runners(m, Seq::empty()).len() == 0,
        ({
            let before = panel::record_runners(m, list);
            let after = panel::record_runners(m, list.push(next));
            ||| after == before && forall|p: int|
                0 <= p < m.runner_ids.len() ==> #[trigger] m.runner_ids[p] != next.player_id
            ||| exists|p: int|
                0 <= p < m.runner_ids.len() && #[trigger] m.runner_ids[p] == next.player_id
                    && after == before.push(m.runners[p]) && forall|q: int|
                    0 <= q < p ==> #[trigger] m.runner_ids[q] != next.player_id
        }),
{
    assert(list.push(next).drop_last() =~= list);
    laws::lemma_runner_of(m.runner_ids, m.runners, next.player_id);
}

// --- Rows

/// What a boss's row shows: its name; a check mark where anybody has defeated it, in bold where the
/// local player has; and on request where it is, the region where it has no place of its own, and
/// who has defeated it.
pub proof fn lemma_boss_row(
    row: BossRow,
    m: BossesModel,
    region_name: Seq<char>,
    data: BossData,
)
    requires
        panel::is_boss_row(row, m, region_name, data),
    ensures
        row.text@ == data.boss@,
        row.label@ == "##"@ + crate::text::decimal(data.flag_id as nat),
        row.checked <==> m.bosses.contains_key(data.flag_id) && (m.bosses[data.flag_id].local
            is Some || m.bosses[data.flag_id].network.len() > 0),
        row.bold <==> m.bosses.contains_key(data.flag_id) && m.bosses[data.flag_id].local is Some,
        exists|list: Seq<RecordModel>|
            #[trigger] panel::ordered_records(m.bosses, data.flag_id, list) && {
                let runners = panel::record_runners(m, list);
                let place = "In "@ + (if data.place@.len() == 0 {
                    region_name
                } else {
                    data.place@
                });
                if runners.len() == 0 {
                    row.tooltip@ == place
                } else {
                    row.tooltip@ == place + ("\nDefeated by "@ + crate::text::joined(
                        Seq::new(runners.len(), |i: int| state::runner_name(runners[i])),
                        ", "@,
                    ))
                }
            },
{
    let list = choose|list: Seq<RecordModel>|
        #[trigger] panel::ordered_records(m.bosses, data.flag_id, list) && row.color
            == panel::first_color(panel::record_runners(m, list)) && row.tooltip@
            == panel::tooltip_of(data.place@, region_name, panel::record_runners(m, list));
    let runners = panel::record_runners(m, list);
    let names = runners.map_values(
        |r: RunnerModel| state::runner_name(r),
    );
    assert(names =~= Seq::new(runners.len(), |i: int| state::runner_name(runners[i])));
    let place = "In "@ + (if data.place@.len() == 0 {
        region_name
    } else {
        data.place@
    });
    assert(place + Seq::<char>::empty() =~= place);
}

/// Whether anybody has defeated a boss.
pub open spec fn anybody_has(bosses: Map<u32, BossModel>, flag_id: u32) -> bool {
    bosses.contains_key(flag_id) && (bosses[flag_id].local is Some
        || bosses[flag_id].network.len() > 0)
}

/// The bosses of a region are shown in order; with the minus key held, those that anybody has
/// defeated are left out, and no others.
pub proof fn lemma_shown_bosses(
    bosses: Map<u32, BossModel>,
    region: Seq<BossData>,
    next: BossData,
    hide_completed: bool,
)
    ensures
        panel::shown_bosses(bosses, Seq::empty(), hide_completed).len() == 0,
        panel::shown_bosses(bosses, region.push(next), hide_completed) == if hide_completed
            && anybody_has(bosses, next.flag_id) {
            panel::shown_bosses(bosses, region, hide_completed)
        } else {
            panel::shown_bosses(bosses, region, hide_completed).push(next)
        },
{
    assert(region.push(next).drop_last() =~= region);
}

/// A region counts its bosses that anybody has defeated.
pub proof fn lemma_region_dead(bosses: Map<u32, BossModel>, region: Seq<BossData>, next: BossData)
    ensures
        panel::region_dead(bosses, Seq::empty()) == 0,
        panel::region_dead(bosses, region.push(next)) == panel::region_dead(bosses, region) + if
            anybody_has(bosses, next.flag_id) {
            1int
        } else {
            0int
        },
        panel::region_dead(bosses, region) <= region.len(),
        panel::region_dead(bosses, region) == region.len() <==> forall|i: int|
            0 <= i < region.len() ==> anybody_has(bosses, (#[trigger] region[i]).flag_id),
{
    assert(region.push(next).drop_last() =~= region);
    lemma_region_dead_all(bosses, region);
}

proof fn lemma_region_dead_all(bosses: Map<u32, BossModel>, region: Seq<BossData>)
    ensures
        panel::region_dead(bosses, region) <= region.len(),
        panel::region_dead(bosses, region) == region.len() <==> forall|i: int|
            0 <= i < region.len() ==> anybody_has(bosses, (#[trigger] region[i]).flag_id),
    decreases region.len(),
{
    if region.len() > 0 {
        let rest = region.drop_last();
        lemma_region_dead_all(bosses, rest);
        if panel::region_dead(bosses, region) == region.len() {
            assert forall|i: int| 0 <= i < region.len() implies anybody_has(
                bosses,
                (#[trigger] region[i]).flag_id,
            ) by {
                if i < rest.len() {
                    assert(rest[i] == region[i]);
                }
            }
        }
        if forall|i: int|
            0 <= i < region.len() ==> anybody_has(bosses, (#[trigger] region[i]).flag_id) {
            assert(anybody_has(bosses, region[region.len() - 1].flag_id));
            assert forall|i: int| 0 <= i < rest.len() implies anybody_has(
                bosses,
                (#[trigger] rest[i]).flag_id,
            ) by {
                assert(rest[i] == region[i]);
            }
        }
    }
}

/// All regions are shown in order; with the minus key held, those whose bosses are all defeated are
/// left out, and no others.
pub proof fn lemma_shown_regions(
    bosses: Map<u32, BossModel>,
    regions: Seq<RegionBossData>,
    next: RegionBossData,
    hide_completed: bool,
)
    ensures
        panel::shown_regions(bosses, Seq::empty(), hide_completed).len() == 0,
        panel::shown_regions(bosses, regions.push(next), hide_completed) == if hide_completed && (
        forall|i: int|
            0 <= i < next.bosses@.len() ==> anybody_has(
                bosses,
                (#[trigger] next.bosses@[i]).flag_id,
            )) {
            panel::shown_regions(bosses, regions, hide_completed)
        } else {
            panel::shown_regions(bosses, regions, hide_completed).push(regions.len() as int)
        },
{
    assert(regions.push(next).drop_last() =~= regions);
    lemma_region_dead_all(bosses, next.bosses@);
}

/// What a region's row shows: with the minus key held, how many bosses are left, and otherwise how
/// many of all are defeated; then its name, which alone identifies it. It is open where the player
/// is, and while the minus key is held; and its bosses are shown below it.
pub proof fn lemma_region_row(
    row: RegionRow,
    m: BossesModel,
    region: RegionBossData,
    index: int,
    frame: Frame,
)
    requires
        panel::is_region_row(row, m, region, index, frame),
        0 <= index <= usize::MAX,
    ensures
        row.index == index,
        ({
            let dead = panel::region_dead(m.bosses, region.bosses@);
            let total = region.bosses@.len();
            let name = region.region_name@;
            row.title@ == if frame.hide_completed {
                crate::text::decimal((total - dead) as nat) + " "@ + name + "###"@ + name
            } else {
                crate::text::decimal(dead) + "/"@ + crate::text::decimal(total) + " "@ + name
                    + "###"@ + name
            }
        }),
        row.open <==> frame.hide_completed || (frame.current_index matches Some(i) && i == index),
        row.set_open <==> frame.index_changed || frame.start_hide_completed,
        row.scroll_here <==> (frame.next_visible matches Some(i) && i == index),
        row.bosses@.len() == panel::shown_bosses(
            m.bosses,
            region.bosses@,
            frame.hide_completed,
        ).len(),
        forall|j: int|
            0 <= j < row.bosses@.len() ==> panel::is_boss_row(
                #[trigger] row.bosses@[j],
                m,
                region.region_name@,
                panel::shown_bosses(m.bosses, region.bosses@, frame.hide_completed)[j],
            ),
{
}

// --- Frames

/// What the keys do. The equals key, like a click before, opens and closes a panel that is shown,
/// and shows a hidden one closed. The backslash key then hides and shows, and closes.
pub proof fn lemma_keys(u: UiState, keys: PanelKeys)
    ensures
        ({
            let after = panel::after_keys(u, keys);
            let toggled = keys.equal || u.toggle_open;
            &&& !toggled && !keys.backslash ==> after == u
            &&& toggled ==> !after.toggle_open
            &&& toggled && !keys.backslash ==> !after.is_hidden && after.is_open == (!u.is_hidden
                && !u.is_open)
            &&& keys.backslash ==> !after.is_open && after.is_hidden == (!u.is_hidden || toggled)
            &&& after.is_big == u.is_big
            &&& after.hide_completed == u.hide_completed
            &&& after.region_index == u.region_index
            &&& after.next_visible == u.next_visible
        }),
{
}

/// What holds for a frame: a hidden panel shows nothing, an open one everything, and otherwise the
/// numbers of defeated and of all bosses in the corner. The own colour is the first runner's with
/// the own id, and white without one. The region is opened anew where the player has moved to
/// another, where the panel is opened or closed, and where the minus key is let go.
pub proof fn lemma_frame(
    frame: Frame,
    m: BossesModel,
    data: GameBossData,
    u: UiState,
    keys: PanelKeys,
    own_id: Seq<char>,
)
    requires
        panel::is_frame(frame, m, data, u, keys, own_id),
        m.runner_ids.len() == m.runners.len(),
    ensures
        frame.corner_text@ == crate::text::decimal(
            m.bosses.dom().filter(
                |f: u32| m.bosses[f].local is Some || m.bosses[f].network.len() > 0,
            ).len(),
        ) + "/"@ + crate::text::decimal(m.bosses.dom().len()),
        frame.layout == (if panel::after_keys(u, keys).is_hidden {
            Layout::Hidden
        } else if panel::after_keys(u, keys).is_open {
            Layout::Sidebar
        } else {
            Layout::Corner
        }),
        forall|c: Color| #[trigger]
            player_has_color(m, own_id, Some(c)) ==> frame.own_color == c,
        (forall|c: Color| !#[trigger] player_has_color(m, own_id, Some(c))) ==> frame.own_color
            == (Color { r: 255, g: 255, b: 255, a: 255 }),
        frame.is_big == u.is_big,
        frame.hide_completed == keys.minus,
        frame.start_hide_completed <==> keys.minus && !u.hide_completed,
        frame.next_visible == u.next_visible,
        frame.current_index == data.region_at(m.block_id, m.play_region),
        frame.index_changed <==> frame.current_index is Some && (frame.current_index
            != u.region_index || keys.equal || u.toggle_open || (u.hide_completed && !keys.minus)),
{
    let counted = m.bosses.dom().filter(
        |f: u32| m.bosses[f].local is Some || m.bosses[f].network.len() > 0,
    );
    assert(state::bosses_with(m.bosses, |b: BossModel| records::dead(b)) =~= counted);
    assert forall|c: Color| #[trigger] player_has_color(m, own_id, Some(c)) <==> (
    state::runner_of(m.runner_ids, m.runners, own_id) matches Some(r) && r.hex_color == Some(
        c,
    )) by {
        lemma_color_of_player(m, own_id, c);
    }
    if forall|c: Color| !#[trigger] player_has_color(m, own_id, Some(c)) {
        if let Some(r) = state::runner_of(m.runner_ids, m.runners, own_id) {
            if let Some(c) = r.hex_color {
                assert(player_has_color(m, own_id, Some(c)));
            }
        }
    }
}

/// What a frame leaves behind: what was scrolled to is scrolled to once; a region that was opened
/// anew where the player is, and was not all in sight, is scrolled to in the next frame, but not
/// while the minus key is held; and the region and the minus key are remembered.
pub proof fn lemma_frame_leaves(
    u: UiState,
    keys: PanelKeys,
    frame: Frame,
    index: usize,
    top: bool,
    bottom: bool,
)
    ensures
        panel::frame_begun(u, keys).next_visible is None,
        panel::frame_begun(u, keys) == (UiState {
            next_visible: None,
            ..panel::after_keys(u, keys)
        }),
        panel::scrolls_next(frame, index, top, bottom) <==> frame.index_changed
            && frame.current_index == Some(index) && !(top && bottom) && !frame.hide_completed,
        panel::frame_ended(u, frame).hide_completed == frame.hide_completed,
        frame.current_index is Some ==> panel::frame_ended(u, frame).region_index
            == frame.current_index,
        frame.current_index is None ==> panel::frame_ended(u, frame).region_index
            == u.region_index,
        panel::frame_ended(u, frame).is_open == u.is_open && panel::frame_ended(u, frame).is_hidden
            == u.is_hidden && panel::frame_ended(u, frame).is_big == u.is_big
            && panel::frame_ended(u, frame).toggle_open == u.toggle_open
            && panel::frame_ended(u, frame).next_visible == u.next_visible,
{
}

/// The summary counts bosses defeated here, known to the server, and defeated at all.
pub proof fn lemma_summary(bosses: Map<u32, BossModel>)
    ensures
        state::summary_text(bosses) == crate::text::decimal(
            bosses.dom().filter(|f: u32| bosses[f].local is Some).len(),
        ) + " local, "@ + crate::text::decimal(
            bosses.dom().filter(|f: u32| bosses[f].network.len() > 0).len(),
        ) + " network, "@ + crate::text::decimal(
            bosses.dom().filter(
                |f: u32| bosses[f].local is Some || bosses[f].network.len() > 0,
            ).len(),
        ) + "/"@ + crate::text::decimal(bosses.dom().len()) + " total"@,
{
    assert(state::bosses_with(bosses, |b: BossModel| b.local is Some) =~= bosses.dom().filter(
        |f: u32| bosses[f].local is Some,
    ));
    assert(state::bosses_with(bosses, |b: BossModel| b.network.len() > 0) =~= bosses.dom().filter(
        |f: u32| bosses[f].network.len() > 0,
    ));
    assert(state::bosses_with(bosses, |b: BossModel| records::dead(b)) =~= bosses.dom().filter(
        |f: u32| bosses[f].local is Some || bosses[f].network.len() > 0,
    ));
}

/// A colour text is a hash sign and two hexadecimal digits for each of red, green and blue, or one
/// that counts as both; the colour is opaque. Other lengths and beginnings give none.
pub proof fn lemma_color_of(text: Seq<char>)
    ensures
        text.len() != 4 && text.len() != 7 ==> crate::bosses::color::color_of(text) is None,
        text.len() > 0 && text[0] != '#' ==> crate::bosses::color::color_of(text) is None,
        text.len() == 7 && text[0] == '#' && (forall|i: int|
            1 <= i < 7 ==> ('0' <= #[trigger] text[i] <= '9' || 'a' <= text[i] <= 'f'))
            ==> crate::bosses::color::color_of(text) == Some(
            Color {
                r: crate::text::number_of(seq![text[1], text[2]], 16) as u8,
                g: crate::text::number_of(seq![text[3], text[4]], 16) as u8,
                b: crate::text::number_of(seq![text[5], text[6]], 16) as u8,
                a: 255,
            },
        ),
        text.len() == 4 && text[0] == '#' && (forall|i: int|
            1 <= i < 4 ==> ('0' <= #[trigger] text[i] <= '9' || 'a' <= text[i] <= 'f'))
            ==> crate::bosses::color::color_of(text) == Some(
            Color {
                r: crate::text::number_of(seq![text[1], text[1]], 16) as u8,
                g: crate::text::number_of(seq![text[2], text[2]], 16) as u8,
                b: crate::text::number_of(seq![text[3], text[3]], 16) as u8,
                a: 255,
            },
        ),
{
    if text.len() == 7 {
        lemma_pair(text[1], text[2]);
        lemma_pair(text[3], text[4]);
        lemma_pair(text[5], text[6]);
    } else if text.len() == 4 {
        lemma_pair(text[1], text[1]);
        lemma_pair(text[2], text[2]);
        lemma_pair(text[3], text[3]);
    }
}

proof fn lemma_pair(hi: char, lo: char)
    ensures
        crate::text::number_of(seq![hi, lo], 16) == crate::text::digit_value(hi) * 16
            + crate::text::digit_value(lo),
{
    assert(seq![hi, lo].drop_last() =~= seq![hi]);
    assert(seq![hi].drop_last() =~= Seq::empty());
    reveal_with_fuel(crate::text::number_of, 3);
}

/// A runner goes by their name, otherwise by their character's, and otherwise is unknown.
pub proof fn lemma_runner_name(r: RunnerModel)
    ensures
        r.name matches Some(name) ==> state::runner_name(r) == name,
        r.name is None && r.character_name is Some ==> state::runner_name(r)
            == r.character_name.unwrap(),
        r.name is None && r.character_name is None ==> state::runner_name(r) == "Unknown"@,
{
}

/// A frame begins just where the panel may be shown, which is from the first frame of the game on;
/// until then keys do nothing.
pub proof fn lemma_begin(
    r: Option<Frame>,
    m: BossesModel,
    data: GameBossData,
    u: UiState,
    keys: PanelKeys,
    own_id: Seq<char>,
    after: UiState,
)
    requires
        panel::is_begin(r, m, data, u, keys, own_id, after),
    ensures
        r is Some <==> m.show_ui,
        r is None ==> after == u,
        r matches Some(frame) ==> panel::is_frame(frame, m, data, u, keys, own_id) && after
            == panel::frame_begun(u, keys),
{
}

/// A click on the corner does in the next frame what the equals key does, and nothing before it.
pub proof fn lemma_click(u: UiState, keys: PanelKeys)
    ensures
        panel::after_keys(panel::clicked(u), keys) == panel::after_keys(
            u,
            (PanelKeys { equal: true, ..keys }),
        ),
        panel::clicked(u) == (UiState { toggle_open: true, ..u }),
{
}

/// Where a drawn region is to be scrolled to, it is the next that is; nothing else changes.
pub proof fn lemma_drawn(u: UiState, frame: Frame, index: usize, top: bool, bottom: bool)
    ensures
        ({
            let after = panel::after_drawn(u, frame, index, top, bottom);
            &&& frame.index_changed && frame.current_index == Some(index) && !(top && bottom)
                && !frame.hide_completed ==> after.next_visible == Some(index)
            &&& frame.hide_completed || !frame.index_changed || (top && bottom)
                || frame.current_index != Some(index) ==> after.next_visible == u.next_visible
            &&& after == (UiState { next_visible: after.next_visible, ..u })
        }),
{
}

/// What the server says of bosses and of runners takes effect together, each on its own part.
pub proof fn lemma_message_parts(m: BossesModel, req: BossesApiRequest)
    ensures
        ({
            let after = panel::after_message(m, req);
            &&& req.bosses is None ==> after.bosses == m.bosses && after.current_run
                == m.current_run && after.pending_update == m.pending_update
                && after.received_messages == m.received_messages
            &&& req.bosses matches Some(update) ==> {
                let run = match update.run {
                    Some(text) => if text@.len() == 0 {
                        None
                    } else {
                        match crate::client::time::rfc3339_time(text@) {
                            Some(t) => Some(
                                crate::client::time::NetworkTime {
                                    secs: t.0,
                                    nanos: t.1,
                                    offset: t.2,
                                },
                            ),
                            None => None,
                        }
                    },
                    None => None,
                };
                let updated = state::after_update(m, update, run);
                after.bosses == updated.bosses && after.current_run == updated.current_run
                    && after.pending_update == updated.pending_update && after.received_messages
            }
            &&& req.runners is None ==> after.runners == m.runners && after.runner_ids
                == m.runner_ids
            &&& req.runners matches Some(list) ==> after.runners == state::after_runners(
                m,
                list@,
            ).runners && after.runner_ids == state::after_runners(m, list@).runner_ids
            &&& after.play_region == m.play_region && after.block_id == m.block_id
                && after.last_igt == m.last_igt && after.show_ui == m.show_ui
        }),
{
}

/// At first the bosses of the flags are known and none is defeated, nobody runs, there is no run,
/// and the panel is not shown yet; once it is, it is closed, in the corner, and big.
pub proof fn lemma_first_state(flags: Seq<u32>, f: u32)
    ensures
        ({
            let first = state::initial(flags);
            let u = panel::first_ui();
            &&& first.bosses.contains_key(f) <==> flags.contains(f)
            &&& flags.contains(f) ==> first.bosses[f].local is None && first.bosses[f].network.len()
                == 0
            &&& first.runners.len() == 0 && first.runner_ids.len() == 0
            &&& first.current_run is None && first.pending_update is None && first.last_igt is None
            &&& first.block_id is None && first.play_region == 0
            &&& !first.show_ui && !first.received_messages
            &&& !u.is_open && !u.is_hidden && u.is_big && !u.toggle_open && !u.hide_completed
            &&& u.region_index is None && u.next_visible is None
        }),
{
}

} // verus!
