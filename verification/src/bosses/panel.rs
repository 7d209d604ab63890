//! What the boss panel shows, and how it reacts to keys and clicks.
use vstd::prelude::*;

use crate::bosses::color::Color;
use crate::bosses::data::{BossData, GameBossData, RegionBossData};
use crate::bosses::records::BossRecord;
use crate::bosses::state::{BossesApiRequest, GameBossState, RunnerEntry};
use crate::text::{join, push_decimal};

verus! {

broadcast use vstd::std_specs::hash::group_hash_axioms;

/// The panel's own state.
#[derive(PartialEq, Eq, Structural, Clone, Copy, Debug)]
pub struct UiState {
    /// Whether to open or close in the next frame.
    pub toggle_open: bool,
    pub is_open: bool,
    pub is_hidden: bool,
    pub is_big: bool,
    pub hide_completed: bool,
    /// The region that the player was last in.
    pub region_index: Option<usize>,
    /// The region to scroll to in the next frame.
    pub next_visible: Option<usize>,
}

/// The panel at first: shown, closed and big.
pub open spec fn first_ui() -> UiState {
    UiState {
        toggle_open: false,
        is_open: false,
        is_hidden: false,
        is_big: true,
        hide_completed: false,
        region_index: None,
        next_visible: None,
    }
}

impl UiState {
    /// A closed panel in big letters.
    pub fn new() -> (r: Self)
        ensures
            r == first_ui(),
    {
        UiState {
            toggle_open: false,
            is_open: false,
            is_hidden: false,
            is_big: true,
            hide_completed: false,
            region_index: None,
            next_visible: None,
        }
    }
}

/// The keys of one frame.
#[derive(PartialEq, Eq, Structural, Clone, Copy, Debug)]
pub struct PanelKeys {
    /// Whether the equals key was just pressed: opens, closes, and shows a hidden panel closed.
    pub equal: bool,
    /// Whether the backslash key was just pressed: hides and shows.
    pub backslash: bool,
    /// Whether the minus key is held: leaves out what is completed.
    pub minus: bool,
}

/// Whether the panel is opened or closed in this frame.
pub open spec fn toggles(u: UiState, keys: PanelKeys) -> bool {
    keys.equal || u.toggle_open
}

/// The panel after the frame's keys.
pub open spec fn after_keys(u: UiState, keys: PanelKeys) -> UiState {
    let toggled = if toggles(u, keys) {
        UiState {
            toggle_open: false,
            is_hidden: false,
            is_open: if u.is_hidden {
                false
            } else {
                !u.is_open
            },
            ..u
        }
    } else {
        u
    };
    if keys.backslash {
        UiState { is_open: false, is_hidden: !toggled.is_hidden, ..toggled }
    } else {
        toggled
    }
}

/// How the panel is drawn.
#[derive(PartialEq, Eq, Structural, Clone, Copy, Debug)]
pub enum Layout {
    /// With all regions.
    Sidebar,
    /// Only the number of defeated bosses.
    Corner,
    Hidden,
}

/// How a panel in this state is drawn.
pub open spec fn layout_of(u: UiState) -> Layout {
    if u.is_hidden {
        Layout::Hidden
    } else if u.is_open {
        Layout::Sidebar
    } else {
        Layout::Corner
    }
}

/// What holds for all of one frame.
#[derive(Debug)]
pub struct Frame {
    /// The numbers of defeated bosses and of all bosses.
    pub corner_text: String,
    /// This player's colour.
    pub own_color: Color,
    pub layout: Layout,
    pub is_big: bool,
    /// The region that the player is in.
    pub current_index: Option<usize>,
    /// Whether the region's entry is to be opened, and the others closed.
    pub index_changed: bool,
    pub hide_completed: bool,
    /// Whether completed entries are left out from this frame on.
    pub start_hide_completed: bool,
    /// The region to scroll to.
    pub next_visible: Option<usize>,
}

/// The numbers of defeated bosses and of all bosses.
pub open spec fn corner_of(
    bosses: Map<u32, crate::bosses::records::BossModel>,
) -> Seq<char> {
    crate::text::decimal(
        crate::bosses::state::count_with(
            bosses,
            |b: crate::bosses::records::BossModel| crate::bosses::records::dead(b),
        ),
    ) + "/"@ + crate::text::decimal(bosses.dom().len())
}

/// A player's colour: white where they have none.
pub open spec fn color_for(m: crate::bosses::state::BossesModel, id: Seq<char>) -> Color {
    match crate::bosses::state::runner_of(m.runner_ids, m.runners, id) {
        Some(r) => match r.hex_color {
            Some(c) => c,
            None => crate::bosses::color::white(),
        },
        None => crate::bosses::color::white(),
    }
}

/// What holds for a frame of a panel in state `u` with these keys.
pub open spec fn is_frame(
    frame: Frame,
    m: crate::bosses::state::BossesModel,
    data: GameBossData,
    u: UiState,
    keys: PanelKeys,
    own_id: Seq<char>,
) -> bool {
    let here = data.region_at(m.block_id, m.play_region);
    &&& frame.corner_text@ == corner_of(m.bosses)
    &&& frame.own_color == color_for(m, own_id)
    &&& frame.layout == layout_of(after_keys(u, keys))
    &&& frame.is_big == u.is_big
    &&& frame.current_index == here
    &&& frame.index_changed == (here is Some && (u.region_index != here || toggles(u, keys) || (
    u.hide_completed && !keys.minus)))
    &&& frame.hide_completed == keys.minus
    &&& frame.start_hide_completed == (!u.hide_completed && keys.minus)
    &&& frame.next_visible == u.next_visible
}

/// The panel once a frame has begun.
pub open spec fn frame_begun(u: UiState, keys: PanelKeys) -> UiState {
    UiState { next_visible: None, ..after_keys(u, keys) }
}

/// The panel once a frame is drawn: the region and the held key are remembered.
pub open spec fn frame_ended(u: UiState, frame: Frame) -> UiState {
    UiState {
        region_index: if frame.current_index is Some {
            frame.current_index
        } else {
            u.region_index
        },
        hide_completed: frame.hide_completed,
        ..u
    }
}

/// One boss in the panel.
#[derive(Debug)]
pub struct BossRow {
    /// The checkbox's label.
    pub label: String,
    /// Whether anybody has defeated the boss.
    pub checked: bool,
    /// Whether the local player has.
    pub bold: bool,
    /// The colour of the first runner, by in-game time, who has one.
    pub color: Option<Color>,
    pub text: String,
    pub tooltip: String,
}

/// One region in the panel.
#[derive(Debug)]
pub struct RegionRow {
    pub index: usize,
    pub title: String,
    /// Whether the entry is open, where that is decided anew.
    pub open: bool,
    /// Whether that is decided anew in this frame.
    pub set_open: bool,
    /// Whether to scroll to the entry.
    pub scroll_here: bool,
    pub bosses: Vec<BossRow>,
}

/// Whether a boss is known and defeated.
pub open spec fn flag_dead(
    bosses: Map<u32, crate::bosses::records::BossModel>,
    flag_id: u32,
) -> bool {
    bosses.contains_key(flag_id) && crate::bosses::records::dead(bosses[flag_id])
}

/// How many bosses of a region are defeated.
pub open spec fn region_dead(
    bosses: Map<u32, crate::bosses::records::BossModel>,
    region: Seq<BossData>,
) -> nat
    decreases region.len(),
{
    if region.len() == 0 {
        0
    } else {
        region_dead(bosses, region.drop_last()) + if flag_dead(bosses, region.last().flag_id) {
            1nat
        } else {
            0nat
        }
    }
}

/// Whether a region is left out: with the minus key held, where all its bosses are defeated.
pub open spec fn region_left_out(
    bosses: Map<u32, crate::bosses::records::BossModel>,
    region: RegionBossData,
    hide_completed: bool,
) -> bool {
    hide_completed && region_dead(bosses, region.bosses@) == region.bosses@.len()
}

/// A region's title: how many bosses are left, or how many of all are defeated, then its name.
/// The name alone identifies the entry.
pub open spec fn region_title(name: Seq<char>, dead: nat, total: nat, hide_completed: bool) -> Seq<
    char,
> {
    (if hide_completed {
        crate::text::decimal((total - dead) as nat)
    } else {
        crate::text::decimal(dead) + "/"@ + crate::text::decimal(total)
    }) + " "@ + name + "###"@ + name
}

/// The runners behind records, in order; records of unknown players are passed over.
pub open spec fn record_runners(
    m: crate::bosses::state::BossesModel,
    records: Seq<crate::bosses::records::RecordModel>,
) -> Seq<crate::bosses::state::RunnerModel>
    decreases records.len(),
{
    if records.len() == 0 {
        seq![]
    } else {
        let before = record_runners(m, records.drop_last());
        match crate::bosses::state::runner_of(m.runner_ids, m.runners, records.last().player_id) {
            Some(r) => before.push(r),
            None => before,
        }
    }
}

/// The first colour of runners.
pub open spec fn first_color(runners: Seq<crate::bosses::state::RunnerModel>) -> Option<Color>
    decreases runners.len(),
{
    if runners.len() == 0 {
        None
    } else {
        match first_color(runners.drop_last()) {
            Some(c) => Some(c),
            None => runners.last().hex_color,
        }
    }
}

/// Where the boss is and who has defeated it.
pub open spec fn tooltip_of(
    place: Seq<char>,
    region_name: Seq<char>,
    runners: Seq<crate::bosses::state::RunnerModel>,
) -> Seq<char> {
    let names = runners.map_values(
        |r: crate::bosses::state::RunnerModel| crate::bosses::state::runner_name(r),
    );
    "In "@ + (if place.len() == 0 {
        region_name
    } else {
        place
    }) + (if runners.len() == 0 {
        seq![]
    } else {
        "\nDefeated by "@ + crate::text::joined(names, ", "@)
    })
}

/// A boss's defeats in the order of in-game time; none for an unknown boss.
pub open spec fn ordered_records(
    bosses: Map<u32, crate::bosses::records::BossModel>,
    flag_id: u32,
    records: Seq<crate::bosses::records::RecordModel>,
) -> bool {
    if bosses.contains_key(flag_id) {
        let all = crate::bosses::records::all_records(bosses[flag_id]);
        exists|order: Seq<usize>|
            #[trigger] crate::bosses::records::igt_order(all, order) && records == Seq::new(
                order.len(),
                |i: int| all[order[i] as int],
            )
    } else {
        records.len() == 0
    }
}

/// Whether a row shows a boss of a region.
pub open spec fn is_boss_row(
    row: BossRow,
    m: crate::bosses::state::BossesModel,
    region_name: Seq<char>,
    data: BossData,
) -> bool {
    &&& row.label@ == "##"@ + crate::text::decimal(data.flag_id as nat)
    &&& row.checked == flag_dead(m.bosses, data.flag_id)
    &&& row.bold == (m.bosses.contains_key(data.flag_id) && m.bosses[data.flag_id].local is Some)
    &&& row.text@ == data.boss@
    &&& exists|records: Seq<crate::bosses::records::RecordModel>|
        #[trigger] ordered_records(m.bosses, data.flag_id, records) && row.color == first_color(
            record_runners(m, records),
        ) && row.tooltip@ == tooltip_of(data.place@, region_name, record_runners(m, records))
}

/// The bosses of a region that are shown: with the minus key held, those that are left.
pub open spec fn shown_bosses(
    bosses: Map<u32, crate::bosses::records::BossModel>,
    region: Seq<BossData>,
    hide_completed: bool,
) -> Seq<BossData>
    decreases region.len(),
{
    if region.len() == 0 {
        seq![]
    } else {
        let before = shown_bosses(bosses, region.drop_last(), hide_completed);
        if hide_completed && flag_dead(bosses, region.last().flag_id) {
            before
        } else {
            before.push(region.last())
        }
    }
}

/// Whether a row shows a region.
pub open spec fn is_region_row(
    row: RegionRow,
    m: crate::bosses::state::BossesModel,
    region: RegionBossData,
    index: int,
    frame: Frame,
) -> bool {
    let shown = shown_bosses(m.bosses, region.bosses@, frame.hide_completed);
    &&& row.index == index
    &&& row.title@ == region_title(
        region.region_name@,
        region_dead(m.bosses, region.bosses@),
        region.bosses@.len(),
        frame.hide_completed,
    )
    &&& row.open == (frame.current_index == Some(index as usize) || frame.hide_completed)
    &&& row.set_open == (frame.index_changed || frame.start_hide_completed)
    &&& row.scroll_here == (frame.next_visible == Some(index as usize))
    &&& row.bosses@.len() == shown.len()
    &&& forall|j: int|
        0 <= j < shown.len() ==> is_boss_row(
            #[trigger] row.bosses@[j],
            m,
            region.region_name@,
            shown[j],
        )
}

/// The positions of the regions that are shown, in order.
pub open spec fn shown_regions(
    bosses: Map<u32, crate::bosses::records::BossModel>,
    regions: Seq<RegionBossData>,
    hide_completed: bool,
) -> Seq<int>
    decreases regions.len(),
{
    if regions.len() == 0 {
        seq![]
    } else {
        let before = shown_regions(bosses, regions.drop_last(), hide_completed);
        if region_left_out(bosses, regions.last(), hide_completed) {
            before
        } else {
            before.push(regions.len() - 1)
        }
    }
}

/// Whether the region's entry, when it was out of sight, is scrolled to in the next frame.
pub open spec fn scrolls_next(frame: Frame, index: usize, top: bool, bottom: bool) -> bool {
    frame.index_changed && frame.current_index == Some(index) && (!top || !bottom)
        && !frame.hide_completed
}

/// The tracked bosses, their state, and the panel.
#[derive(Debug)]
pub struct BossClient {
    pub data: GameBossData,
    pub state: GameBossState,
    pub ui_state: UiState,
}

/// The state after what the server says, bosses first.
pub open spec fn after_message(
    m: crate::bosses::state::BossesModel,
    req: BossesApiRequest,
) -> crate::bosses::state::BossesModel {
    let updated = match req.bosses {
        Some(update) => crate::bosses::state::after_update(
            m,
            update,
            match update.run {
                Some(text) => crate::client::time::network_time(
                    text@,
                    crate::client::time::rfc3339_time(text@),
                ),
                None => None,
            },
        ),
        None => m,
    };
    match req.runners {
        Some(runners) => crate::bosses::state::after_runners(updated, runners@),
        None => updated,
    }
}

/// Whether a frame begins, or not, and leaves the panel as `after`: not before the panel may be
/// shown.
pub open spec fn is_begin(
    r: Option<Frame>,
    m: crate::bosses::state::BossesModel,
    data: GameBossData,
    u: UiState,
    keys: PanelKeys,
    own_id: Seq<char>,
    after: UiState,
) -> bool {
    match r {
        None => !m.show_ui && after == u,
        Some(frame) => m.show_ui && is_frame(frame, m, data, u, keys, own_id) && after
            == frame_begun(u, keys),
    }
}

/// The panel after a click on its corner.
pub open spec fn clicked(u: UiState) -> UiState {
    UiState { toggle_open: true, ..u }
}

/// The panel after a region was drawn.
pub open spec fn after_drawn(
    u: UiState,
    frame: Frame,
    index: usize,
    top: bool,
    bottom: bool,
) -> UiState {
    UiState {
        next_visible: if scrolls_next(frame, index, top, bottom) {
            Some(index)
        } else {
            u.next_visible
        },
        ..u
    }
}

fn find_runner<'a>(runners: &'a Vec<RunnerEntry>, id: &str) -> (r: Option<
    &'a crate::bosses::state::Runner,
>)
    ensures
        match r {
            Some(runner) => crate::bosses::state::runner_of(
                crate::bosses::state::runner_ids(runners@),
                crate::bosses::state::runner_models(runners@),
                id@,
            ) == Some(runner@),
            None => crate::bosses::state::runner_of(
                crate::bosses::state::runner_ids(runners@),
                crate::bosses::state::runner_models(runners@),
                id@,
            ) is None,
        },
{
    let ghost ids = crate::bosses::state::runner_ids(runners@);
    let mut i: usize = 0;
    while i < runners.len() && !crate::text::same_text(runners[i].player_id.as_str(), id)
        invariant
            i <= runners@.len(),
            ids == crate::bosses::state::runner_ids(runners@),
            forall|k: int| 0 <= k < i ==> #[trigger] ids[k] != id@,
        decreases runners@.len() - i,
    {
        assert(ids[i as int] == runners@[i as int].player_id@);
        i = i + 1;
    }
    proof {
        if i < ids.len() {
            assert(ids[i as int] == runners@[i as int].player_id@);
        }
        crate::text::lemma_position_is(ids, id@, i as int);
    }
    if i < runners.len() {
        Some(&runners[i].runner)
    } else {
        None
    }
}

impl BossClient {
    /// Tracks the bosses of the given regions.
    pub fn new(regions: Vec<RegionBossData>) -> (r: Self)
        ensures
            r.data.regions == regions,
            r.data.wf(),
            r.state@ == crate::bosses::state::initial(
                crate::bosses::data::boss_flags(regions@),
            ),
            r.ui_state == first_ui(),
    {
        let data = GameBossData::new(regions);
        let state = GameBossState::from_data(&data);
        BossClient { data, state, ui_state: UiState::new() }
    }

    /// Takes in what the server says: bosses first, then runners.
    pub fn handle_message(&mut self, req: &BossesApiRequest)
        ensures
            final(self).data == old(self).data,
            final(self).ui_state == old(self).ui_state,
            final(self).state@ == after_message(old(self).state@, *req),
    {
        if let Some(update) = &req.bosses {
            self.state.handle_request(update);
        }
        if let Some(runners) = &req.runners {
            self.state.handle_runners(runners);
        }
    }

    /// Begins a frame: takes in its keys and gives what holds for all of it. Nothing is shown,
    /// and the keys are passed over, until the game has shown a first frame.
    pub fn begin_frame(&mut self, keys: PanelKeys, own_id: &str) -> (r: Option<Frame>)
        ensures
            final(self).data == old(self).data,
            final(self).state == old(self).state,
            is_begin(
                r,
                old(self).state@,
                old(self).data,
                old(self).ui_state,
                keys,
                own_id@,
                final(self).ui_state,
            ),
    {
        if !self.state.show_ui {
            return None;
        }
        let mut corner_text = String::new();
        push_decimal(&mut corner_text, self.state.dead_count() as u64);
        corner_text.append("/");
        push_decimal(&mut corner_text, self.state.boss_count() as u64);
        assert(corner_text@ =~= corner_of(self.state@.bosses));
        let own_color = match find_runner(&self.state.runners, own_id) {
            Some(runner) => match runner.hex_color {
                Some(color) => color,
                None => Color::white(),
            },
            None => Color::white(),
        };
        let was = self.ui_state;
        let toggle_open = keys.equal || was.toggle_open;
        if toggle_open {
            if self.ui_state.is_hidden {
                self.ui_state.is_hidden = false;
                self.ui_state.is_open = false;
            } else {
                self.ui_state.is_open = !self.ui_state.is_open;
            }
            self.ui_state.toggle_open = false;
        }
        if keys.backslash {
            self.ui_state.is_open = false;
            self.ui_state.is_hidden = !self.ui_state.is_hidden;
        }
        let hide_completed = keys.minus;
        let current_index = self.data.region_index(self.state.block_id, self.state.play_region);
        let moved = match (current_index, was.region_index) {
            (Some(a), Some(b)) => a != b,
            (Some(_), None) => true,
            (None, _) => false,
        };
        let index_changed = current_index.is_some() && (moved || toggle_open || (was.hide_completed
            && !hide_completed));
        let start_hide_completed = !was.hide_completed && hide_completed;
        self.ui_state.next_visible = None;
        let layout = if self.ui_state.is_hidden {
            Layout::Hidden
        } else if self.ui_state.is_open {
            Layout::Sidebar
        } else {
            Layout::Corner
        };
        Some(
            Frame {
                corner_text,
                own_color,
                layout,
                is_big: was.is_big,
                current_index,
                index_changed,
                hide_completed,
                start_hide_completed,
                next_visible: was.next_visible,
            },
        )
    }

    /// The corner text was clicked: opens or closes in the next frame.
    pub fn click_corner(&mut self)
        ensures
            final(self).data == old(self).data,
            final(self).state == old(self).state,
            final(self).ui_state == clicked(old(self).ui_state),
    {
        self.ui_state.toggle_open = true;
    }

    fn runner_names(&self, records: &Vec<BossRecord>) -> (r: (Option<Color>, Vec<String>))
        ensures
            ({
                let runners = record_runners(
                    self.state@,
                    crate::bosses::records::record_models(records@),
                );
                &&& r.0 == first_color(runners)
                &&& crate::text::texts(r.1@) == runners.map_values(
                    |r: crate::bosses::state::RunnerModel| crate::bosses::state::runner_name(r),
                )
            }),
    {
        let ghost m = self.state@;
        let ghost models = crate::bosses::records::record_models(records@);
        let mut color: Option<Color> = None;
        let mut names: Vec<String> = Vec::new();
        let mut i: usize = 0;
        assert(crate::text::texts(names@) =~= record_runners(m, models.take(0)).map_values(
            |r: crate::bosses::state::RunnerModel| crate::bosses::state::runner_name(r),
        ));
        while i < records.len()
            invariant
                i <= records@.len(),
                m == self.state@,
                models == crate::bosses::records::record_models(records@),
                color == first_color(record_runners(m, models.take(i as int))),
                crate::text::texts(names@) == record_runners(m, models.take(i as int)).map_values(
                    |r: crate::bosses::state::RunnerModel| crate::bosses::state::runner_name(r),
                ),
            decreases records@.len() - i,
        {
            let ghost before = record_runners(m, models.take(i as int));
            assert(models.take(i + 1).drop_last() =~= models.take(i as int));
            assert(models.take(i + 1).last() == records@[i as int]@);
            if let Some(runner) = find_runner(
                &self.state.runners,
                records[i].player_id.as_str(),
            ) {
                let ghost shown = crate::text::texts(names@);
                names.push(runner.name().to_owned());
                proof {
                    let next = record_runners(m, models.take(i + 1));
                    assert(next == before.push(runner@));
                    assert(next.drop_last() =~= before);
                    assert(crate::text::texts(names@) =~= shown.push(
                        crate::bosses::state::runner_name(runner@),
                    ));
                    assert(crate::text::texts(names@) =~= next.map_values(
                        |r: crate::bosses::state::RunnerModel|
                            crate::bosses::state::runner_name(r),
                    ));
                }
                if color.is_none() {
                    color = runner.hex_color;
                }
            }
            i = i + 1;
        }
        assert(models.take(models.len() as int) =~= models);
        (color, names)
    }

    fn boss_row(&self, region_name: &String, data: &BossData) -> (r: BossRow)
        ensures
            is_boss_row(r, self.state@, region_name@, *data),
    {
        let ghost m = self.state@;
        assert(self.state.bosses@.contains_key(data.flag_id) == m.bosses.contains_key(
            data.flag_id,
        ));
        let mut label = "##".to_owned();
        push_decimal(&mut label, data.flag_id as u64);
        let mut checked = false;
        let mut bold = false;
        let mut records: Vec<BossRecord> = Vec::new();
        if let Some(boss) = self.state.bosses.get(&data.flag_id) {
            assert(m.bosses[data.flag_id] == boss@);
            checked = boss.any_dead();
            bold = boss.local_dead();
            records = boss.unique_records();
        }
        let ghost models = crate::bosses::records::record_models(records@);
        assert(ordered_records(m.bosses, data.flag_id, models));
        let (color, names) = self.runner_names(&records);
        let ghost runners = record_runners(m, models);
        assert(names@.len() == crate::text::texts(names@).len());
        let mut tooltip = "In ".to_owned();
        proof {
            reveal_strlit("");
        }
        if crate::text::same_text(data.place.as_str(), "") {
            assert(data.place@.len() == 0);
            tooltip.append(region_name.as_str());
        } else {
            assert(data.place@.len() == 0 ==> data.place@ =~= ""@);
            tooltip.append(data.place.as_str());
        }
        if names.len() > 0 {
            tooltip.append("\nDefeated by ");
            let list = join(&names, ", ");
            tooltip.append(list.as_str());
        }
        assert(tooltip@ =~= tooltip_of(data.place@, region_name@, runners));
        BossRow { label, checked, bold, color, text: data.boss.clone(), tooltip }
    }

    fn count_region(&self, region: &RegionBossData) -> (r: usize)
        ensures
            r == region_dead(self.state@.bosses, region.bosses@),
            r <= region.bosses@.len(),
    {
        let ghost m = self.state@;
        let mut count: usize = 0;
        let mut i: usize = 0;
        while i < region.bosses.len()
            invariant
                i <= region.bosses@.len(),
                count <= i,
                m == self.state@,
                count == region_dead(m.bosses, region.bosses@.take(i as int)),
            decreases region.bosses@.len() - i,
        {
            assert(region.bosses@.take(i + 1).drop_last() =~= region.bosses@.take(i as int));
            let flag_id = region.bosses[i].flag_id;
            assert(self.state.bosses@.contains_key(flag_id) == m.bosses.contains_key(flag_id));
            if let Some(boss) = self.state.bosses.get(&flag_id) {
                assert(m.bosses[flag_id] == boss@);
                if boss.any_dead() {
                    count = count + 1;
                }
            }
            i = i + 1;
        }
        assert(region.bosses@.take(region.bosses@.len() as int) =~= region.bosses@);
        count
    }

    fn boss_rows(&self, region: &RegionBossData, hide_completed: bool) -> (r: Vec<BossRow>)
        ensures
            ({
                let shown = shown_bosses(self.state@.bosses, region.bosses@, hide_completed);
                &&& r@.len() == shown.len()
                &&& forall|j: int|
                    0 <= j < shown.len() ==> is_boss_row(
                        #[trigger] r@[j],
                        self.state@,
                        region.region_name@,
                        shown[j],
                    )
            }),
    {
        let ghost m = self.state@;
        let mut rows: Vec<BossRow> = Vec::new();
        let mut i: usize = 0;
        while i < region.bosses.len()
            invariant
                i <= region.bosses@.len(),
                m == self.state@,
                ({
                    let shown = shown_bosses(
                        m.bosses,
                        region.bosses@.take(i as int),
                        hide_completed,
                    );
                    &&& rows@.len() == shown.len()
                    &&& forall|j: int|
                        0 <= j < shown.len() ==> is_boss_row(
                            #[trigger] rows@[j],
                            m,
                            region.region_name@,
                            shown[j],
                        )
                }),
            decreases region.bosses@.len() - i,
        {
            assert(region.bosses@.take(i + 1).drop_last() =~= region.bosses@.take(i as int));
            let row = self.boss_row(&region.region_name, &region.bosses[i]);
            if !(hide_completed && row.checked) {
                let ghost before = rows@;
                rows.push(row);
                proof {
                    let shown = shown_bosses(
                        m.bosses,
                        region.bosses@.take(i as int),
                        hide_completed,
                    );
                    let next = shown_bosses(m.bosses, region.bosses@.take(i + 1), hide_completed);
                    assert(next == shown.push(region.bosses@[i as int]));
                    assert forall|j: int| 0 <= j < next.len() implies is_boss_row(
                        #[trigger] rows@[j],
                        m,
                        region.region_name@,
                        next[j],
                    ) by {
                        if j < shown.len() {
                            assert(rows@[j] == before[j]);
                        }
                    }
                }
            }
            i = i + 1;
        }
        assert(region.bosses@.take(region.bosses@.len() as int) =~= region.bosses@);
        rows
    }

    /// The regions to show in a frame, with their bosses.
    pub fn region_rows(&self, frame: &Frame) -> (r: Vec<RegionRow>)
        ensures
            ({
                let shown = shown_regions(
                    self.state@.bosses,
                    self.data.regions@,
                    frame.hide_completed,
                );
                &&& r@.len() == shown.len()
                &&& forall|k: int|
                    0 <= k < shown.len() ==> is_region_row(
                        #[trigger] r@[k],
                        self.state@,
                        self.data.regions@[shown[k]],
                        shown[k],
                        *frame,
                    )
            }),
    {
        let ghost m = self.state@;
        let ghost regions = self.data.regions@;
        let mut rows: Vec<RegionRow> = Vec::new();
        let mut i: usize = 0;
        while i < self.data.regions.len()
            invariant
                i <= regions.len(),
                m == self.state@,
                regions == self.data.regions@,
                ({
                    let shown = shown_regions(
                        m.bosses,
                        regions.take(i as int),
                        frame.hide_completed,
                    );
                    &&& rows@.len() == shown.len()
                    &&& forall|k: int|
                        0 <= k < shown.len() ==> is_region_row(
                            #[trigger] rows@[k],
                            m,
                            regions[shown[k]],
                            shown[k],
                            *frame,
                        )
                }),
            decreases regions.len() - i,
        {
            assert(regions.take(i + 1).drop_last() =~= regions.take(i as int));
            let region = &self.data.regions[i];
            let dead = self.count_region(region);
            let total = region.bosses.len();
            if !(frame.hide_completed && dead == total) {
                let mut title = String::new();
                if frame.hide_completed {
                    push_decimal(&mut title, (total - dead) as u64);
                } else {
                    push_decimal(&mut title, dead as u64);
                    title.append("/");
                    push_decimal(&mut title, total as u64);
                }
                title.append(" ");
                title.append(region.region_name.as_str());
                title.append("###");
                title.append(region.region_name.as_str());
                assert(title@ =~= region_title(
                    region.region_name@,
                    dead as nat,
                    total as nat,
                    frame.hide_completed,
                ));
                let here = match frame.current_index {
                    Some(c) => c == i,
                    None => false,
                };
                let scroll_here = match frame.next_visible {
                    Some(c) => c == i,
                    None => false,
                };
                let row = RegionRow {
                    index: i,
                    title,
                    open: here || frame.hide_completed,
                    set_open: frame.index_changed || frame.start_hide_completed,
                    scroll_here,
                    bosses: self.boss_rows(region, frame.hide_completed),
                };
                assert(is_region_row(row, m, regions[i as int], i as int, *frame));
                let ghost before = rows@;
                let ghost model = row;
                rows.push(row);
                proof {
                    let shown = shown_regions(
                        m.bosses,
                        regions.take(i as int),
                        frame.hide_completed,
                    );
                    let next = shown_regions(m.bosses, regions.take(i + 1), frame.hide_completed);
                    assert(next == shown.push(i as int));
                    assert forall|k: int| 0 <= k < next.len() implies is_region_row(
                        #[trigger] rows@[k],
                        m,
                        regions[next[k]],
                        next[k],
                        *frame,
                    ) by {
                        if k < shown.len() {
                            assert(rows@[k] == before[k]);
                        } else {
                            assert(rows@[k] == model);
                        }
                    }
                }
            }
            i = i + 1;
        }
        assert(regions.take(regions.len() as int) =~= regions);
        rows
    }

    /// A region's entry was drawn with its top and bottom in or out of sight.
    pub fn region_drawn(
        &mut self,
        frame: &Frame,
        index: usize,
        top_visible: bool,
        bottom_visible: bool,
    )
        ensures
            final(self).data == old(self).data,
            final(self).state == old(self).state,
            final(self).ui_state == after_drawn(
                old(self).ui_state,
                *frame,
                index,
                top_visible,
                bottom_visible,
            ),
    {
        let here = match frame.current_index {
            Some(c) => c == index,
            None => false,
        };
        if frame.index_changed && here && (!top_visible || !bottom_visible)
            && !frame.hide_completed {
            self.ui_state.next_visible = Some(index);
        }
    }

    /// Ends a frame.
    pub fn end_frame(&mut self, frame: &Frame)
        ensures
            final(self).data == old(self).data,
            final(self).state == old(self).state,
            final(self).ui_state == frame_ended(old(self).ui_state, *frame),
    {
        if frame.current_index.is_some() {
            self.ui_state.region_index = frame.current_index;
        }
        self.ui_state.hide_completed = frame.hide_completed;
    }
}

} // verus!
