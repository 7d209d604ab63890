//! Death links: a death here kills the other linked players, and theirs kill here.
use vstd::prelude::*;

use crate::client::StreamRequest;
use crate::text::{clone_text, same_text};

verus! {

/// Nanoseconds after a death in which links are passed over.
pub const COOLDOWN_NANOS: u64 = 30_000_000_000;

/// The entity id of the local player.
pub const LOCAL_PLAYER: u32 = 10000;

/// The effect under which a death is followed by a plain respawn.
pub const RESPAWN_EFFECT: u32 = 4290;

/// The effect that takes all health where the player cannot be killed outright.
pub const DRAIN_EFFECT: u32 = 9639;

/// A death elsewhere.
#[derive(Debug)]
pub struct DeathlinkRequest {
    /// The client whose player died.
    pub id: String,
    pub name: Option<String>,
}

impl Clone for DeathlinkRequest {
    fn clone(&self) -> (r: Self)
        ensures
            r == *self,
    {
        DeathlinkRequest { id: self.id.clone(), name: clone_text(&self.name) }
    }
}

/// A death elsewhere as the rules see it.
#[verifier::ext_equal]
pub struct LinkModel {
    pub id: Seq<char>,
    pub name: Option<Seq<char>>,
}

impl View for DeathlinkRequest {
    type V = LinkModel;

    open spec fn view(&self) -> LinkModel {
        LinkModel {
            id: self.id@,
            name: match self.name {
                Some(name) => Some(name@),
                None => None,
            },
        }
    }
}

#[derive(PartialEq, Eq, Structural, Clone, Copy, Debug)]
pub struct DeathlinkSettings {
    pub enable_deathlink: bool,
    pub rune_loss: bool,
    /// Whether deaths that the game scripts are not passed on.
    pub ignore_scripted: bool,
}

impl Default for DeathlinkSettings {
    fn default() -> (r: Self)
        ensures
            r == (DeathlinkSettings {
                enable_deathlink: false,
                rune_loss: false,
                ignore_scripted: false,
            }),
    {
        DeathlinkSettings { enable_deathlink: false, rune_loss: false, ignore_scripted: false }
    }
}

/// What the server says about death links.
#[derive(Debug)]
pub struct DeathlinkApiRequest {
    pub settings: Option<DeathlinkSettings>,
    pub deathlink: Option<DeathlinkRequest>,
}

/// What is reported about death links.
#[derive(PartialEq, Eq, Structural, Clone, Copy, Debug)]
pub enum DeathlinkStreamRequest {
    Deathlink,
}

impl StreamRequest for DeathlinkStreamRequest {

}

/// The state of death links as the rules see it.
#[verifier::ext_equal]
pub struct DeathlinkModel {
    pub previous: Option<u64>,
    pub pending: Option<LinkModel>,
    pub settings: DeathlinkSettings,
}

#[derive(Debug)]
pub struct DeathlinkState {
    /// When the last death was, in nanoseconds.
    pub previous: Option<u64>,
    /// A death elsewhere that has not been acted on.
    pub pending: Option<DeathlinkRequest>,
    pub settings: DeathlinkSettings,
}

impl View for DeathlinkState {
    type V = DeathlinkModel;

    open spec fn view(&self) -> DeathlinkModel {
        DeathlinkModel {
            previous: self.previous,
            pending: match self.pending {
                Some(req) => Some(req@),
                None => None,
            },
            settings: self.settings,
        }
    }
}

impl DeathlinkState {
    /// Disabled, with nothing pending.
    pub fn new() -> (r: Self)
        ensures
            r@ == (DeathlinkModel {
                previous: None,
                pending: None,
                settings: DeathlinkSettings {
                    enable_deathlink: false,
                    rune_loss: false,
                    ignore_scripted: false,
                },
            }),
    {
        DeathlinkState { previous: None, pending: None, settings: DeathlinkSettings::default() }
    }
}

/// What last hit the player.
#[derive(PartialEq, Eq, Structural, Clone, Copy, Debug)]
pub struct HitBy {
    /// The area of the block it belongs to.
    pub area: u8,
    pub index: u32,
}

/// What the library reads of the player.
#[derive(PartialEq, Eq, Structural, Clone, Copy, Debug)]
pub struct PlayerSnapshot {
    pub perfect_invincibility: bool,
    pub invincible_as_thrower: bool,
    pub invincible_as_thrown: bool,
    pub death_flag: bool,
    pub hp: i32,
    pub anim: i32,
    pub hit_by: Option<HitBy>,
}

/// What the library reads of the world.
#[derive(PartialEq, Eq, Structural, Clone, Copy, Debug)]
pub struct WorldSnapshot {
    /// Whether the menus exist.
    pub has_menu: bool,
    pub is_loading: bool,
    pub player: Option<PlayerSnapshot>,
    /// Whether the tutorial is over.
    pub in_main_game: bool,
}

/// The player, where the game is loaded and they can die.
pub open spec fn mortal(world: WorldSnapshot) -> Option<PlayerSnapshot> {
    match world.player {
        Some(p) if world.has_menu && !world.is_loading && !p.perfect_invincibility
            && !p.invincible_as_thrower && !p.invincible_as_thrown => Some(p),
        _ => None,
    }
}

/// Whether the player is dead.
pub open spec fn is_dead(p: PlayerSnapshot) -> bool {
    p.death_flag || p.hp == 0
}

/// Whether the player's death is one that the game scripts: in the tutorial, or the abduction
/// from Raya Lucaria.
pub open spec fn is_scripted(p: PlayerSnapshot, in_main_game: bool) -> bool {
    ||| !in_main_game
    ||| 70290 <= p.anim <= 70299 && (p.hit_by matches Some(hit) && hit.area == 14 && hit.index
        == 251)
}

/// Whether a death was less than the cooldown ago.
pub open spec fn cooling_down(previous: Option<u64>, now: u64) -> bool {
    previous matches Some(p) && now - p < COOLDOWN_NANOS
}

/// What is shown of a death elsewhere.
pub open spec fn received_text(req: LinkModel, ignored: bool) -> Seq<char> {
    (match req.name {
        Some(name) => "Received deathlink from "@ + name + "!"@,
        None => "Received deathlink!"@,
    }) + (if ignored {
        " (ignored)"@
    } else {
        seq![]
    })
}

/// What is done to the player.
#[derive(PartialEq, Eq, Structural, Clone, Copy, Debug)]
pub enum Effect {
    SpEffect { entity_id: u32, effect_id: u32 },
    ForceDeath { entity_id: u32, receives_runes: bool },
}

/// How the player is killed: outright in the main game, by taking all health in the tutorial.
pub open spec fn kill(in_main_game: bool) -> Seq<Effect> {
    seq![
        Effect::SpEffect { entity_id: LOCAL_PLAYER, effect_id: RESPAWN_EFFECT },
        if in_main_game {
            Effect::ForceDeath { entity_id: LOCAL_PLAYER, receives_runes: false }
        } else {
            Effect::SpEffect { entity_id: LOCAL_PLAYER, effect_id: DRAIN_EFFECT }
        },
    ]
}

/// What one frame calls for, as the rules see it.
#[verifier::ext_equal]
pub struct OutcomeModel {
    pub effects: Seq<Effect>,
    pub toast: Option<Seq<char>>,
    pub send: bool,
}

/// What one frame calls for.
#[derive(Debug)]
pub struct Outcome {
    pub effects: Vec<Effect>,
    pub toast: Option<String>,
    pub send: Option<DeathlinkStreamRequest>,
}

impl View for Outcome {
    type V = OutcomeModel;

    open spec fn view(&self) -> OutcomeModel {
        OutcomeModel {
            effects: self.effects@,
            toast: match self.toast {
                Some(text) => Some(text@),
                None => None,
            },
            send: self.send is Some,
        }
    }
}

/// Nothing to do.
pub open spec fn nothing() -> OutcomeModel {
    OutcomeModel { effects: seq![], toast: None, send: false }
}

/// The state after new settings. Turning death links on or off starts over.
pub open spec fn after_settings(m: DeathlinkModel, settings: DeathlinkSettings) -> DeathlinkModel {
    if m.settings.enable_deathlink != settings.enable_deathlink {
        DeathlinkModel { previous: None, pending: None, settings }
    } else {
        DeathlinkModel { settings, ..m }
    }
}

/// What is shown of new settings.
pub open spec fn settings_text(m: DeathlinkModel, settings: DeathlinkSettings) -> Option<
    Seq<char>,
> {
    if m.settings == settings {
        None
    } else if settings.enable_deathlink {
        Some("Deathlink enabled"@)
    } else {
        Some("Deathlink disabled"@)
    }
}

/// The state after a death elsewhere, which is kept only while links are enabled and where it is
/// not this client's own.
pub open spec fn after_link(m: DeathlinkModel, req: LinkModel, own_id: Seq<char>) -> DeathlinkModel {
    if m.settings.enable_deathlink && req.id != own_id {
        DeathlinkModel { pending: Some(req), ..m }
    } else {
        m
    }
}

/// The state after a frame, and what it calls for. While links are disabled or just after a
/// death, a death elsewhere is dropped, in the second case with a word about it. Otherwise, once
/// the player can die, it kills them; and without one, their own death is passed on, unless it
/// is scripted and such deaths are to be ignored.
pub open spec fn after_tick(m: DeathlinkModel, world: WorldSnapshot, now: u64) -> (
    DeathlinkModel,
    OutcomeModel,
) {
    let dropped = DeathlinkModel { pending: None, ..m };
    let died = DeathlinkModel { pending: None, previous: Some(now), ..m };
    if !m.settings.enable_deathlink {
        (dropped, nothing())
    } else if cooling_down(m.previous, now) {
        (
            dropped,
            OutcomeModel {
                toast: match m.pending {
                    Some(req) => Some(received_text(req, true)),
                    None => None,
                },
                ..nothing()
            },
        )
    } else {
        match (mortal(world), m.pending) {
            (None, _) => (m, nothing()),
            (Some(_), Some(req)) => (
                died,
                OutcomeModel {
                    effects: kill(world.in_main_game),
                    toast: Some(received_text(req, false)),
                    send: false,
                },
            ),
            (Some(p), None) => if !is_dead(p) {
                (m, nothing())
            } else if m.settings.ignore_scripted && is_scripted(p, world.in_main_game) {
                (died, nothing())
            } else {
                (
                    died,
                    OutcomeModel { effects: seq![], toast: Some("Sending deathlink!"@), send: true },
                )
            },
        }
    }
}

/// The state after what the server says, settings first.
pub open spec fn after_message(
    m: DeathlinkModel,
    settings: Option<DeathlinkSettings>,
    link: Option<LinkModel>,
    own_id: Seq<char>,
) -> DeathlinkModel {
    let set = match settings {
        Some(s) => after_settings(m, s),
        None => m,
    };
    match link {
        Some(req) => after_link(set, req, own_id),
        None => set,
    }
}

/// An optional death elsewhere as the rules see it.
pub open spec fn link_model(link: Option<DeathlinkRequest>) -> Option<LinkModel> {
    match link {
        Some(req) => Some(req@),
        None => None,
    }
}

/// An optional text as a sequence of characters.
pub open spec fn toast_model(text: Option<String>) -> Option<Seq<char>> {
    match text {
        Some(t) => Some(t@),
        None => None,
    }
}

/// What is shown of a death elsewhere.
pub fn show_deathlink(req: &DeathlinkRequest, ignored: bool) -> (r: String)
    ensures
        r@ == received_text(req@, ignored),
{
    let mut out = match &req.name {
        Some(name) => {
            let mut text = "Received deathlink from ".to_owned();
            text.append(name.as_str());
            text.append("!");
            text
        },
        None => "Received deathlink!".to_owned(),
    };
    if ignored {
        out.append(" (ignored)");
    }
    assert(out@ =~= received_text(req@, ignored));
    out
}

/// The state of death links for a client.
#[derive(Debug)]
pub struct DeathlinkClient {
    pub state: DeathlinkState,
}

impl DeathlinkClient {
    pub fn new() -> (r: Self)
        ensures
            r.state@ == (DeathlinkModel {
                previous: None,
                pending: None,
                settings: DeathlinkSettings {
                    enable_deathlink: false,
                    rune_loss: false,
                    ignore_scripted: false,
                },
            }),
    {
        DeathlinkClient { state: DeathlinkState::new() }
    }

    /// Takes in settings, and gives what is shown of them: nothing where they are the same.
    pub fn handle_settings(&mut self, settings: DeathlinkSettings) -> (r: Option<String>)
        ensures
            final(self).state@ == after_settings(old(self).state@, settings),
            toast_model(r) == settings_text(old(self).state@, settings),
    {
        if self.state.settings == settings {
            return None;
        }
        let toast = if settings.enable_deathlink {
            "Deathlink enabled"
        } else {
            "Deathlink disabled"
        };
        if self.state.settings.enable_deathlink != settings.enable_deathlink {
            self.state.pending = None;
            self.state.previous = None;
        }
        self.state.settings = settings;
        Some(toast.to_owned())
    }

    /// Takes in a death elsewhere.
    pub fn handle_request(&mut self, req: &DeathlinkRequest, own_id: &str)
        ensures
            final(self).state@ == after_link(old(self).state@, req@, own_id@),
    {
        if self.state.settings.enable_deathlink && !same_text(req.id.as_str(), own_id) {
            self.state.pending = Some(req.clone());
        }
    }

    /// Takes in what the server says, settings first, and gives what is shown of it.
    pub fn handle_message(&mut self, req: &DeathlinkApiRequest, own_id: &str) -> (r: Option<String>)
        ensures
            final(self).state@ == after_message(
                old(self).state@,
                req.settings,
                link_model(req.deathlink),
                own_id@,
            ),
            toast_model(r) == match req.settings {
                Some(settings) => settings_text(old(self).state@, settings),
                None => None,
            },
    {
        let toast = match &req.settings {
            Some(settings) => self.handle_settings(*settings),
            None => None,
        };
        if let Some(link) = &req.deathlink {
            self.handle_request(link, own_id);
        }
        toast
    }

    /// Takes in a frame of the game, and gives what it calls for. `now` counts nanoseconds.
    pub fn tick(&mut self, world: &WorldSnapshot, now: u64) -> (r: Outcome)
        ensures
            (final(self).state@, r@) == after_tick(old(self).state@, *world, now),
    {
        let none = Outcome { effects: Vec::new(), toast: None, send: None };
        assert(none@ =~= nothing());
        if !self.state.settings.enable_deathlink {
            self.state.pending = None;
            return none;
        }
        if let Some(previous) = self.state.previous {
            if now < previous || now - previous < COOLDOWN_NANOS {
                let toast = match &self.state.pending {
                    Some(req) => Some(show_deathlink(req, true)),
                    None => None,
                };
                self.state.pending = None;
                let r = Outcome { effects: Vec::new(), toast, send: None };
                assert(r@.effects =~= seq![]);
                return r;
            }
        }
        if !world.has_menu || world.is_loading {
            return none;
        }
        let player = match world.player {
            Some(player) => player,
            None => {
                return none;
            },
        };
        if player.perfect_invincibility || player.invincible_as_thrower
            || player.invincible_as_thrown {
            return none;
        }
        if let Some(req) = self.state.pending.take() {
            let mut effects: Vec<Effect> = Vec::new();
            effects.push(
                Effect::SpEffect { entity_id: LOCAL_PLAYER, effect_id: RESPAWN_EFFECT },
            );
            if world.in_main_game {
                effects.push(
                    Effect::ForceDeath { entity_id: LOCAL_PLAYER, receives_runes: false },
                );
            } else {
                effects.push(
                    Effect::SpEffect { entity_id: LOCAL_PLAYER, effect_id: DRAIN_EFFECT },
                );
            }
            assert(effects@ =~= kill(world.in_main_game));
            self.state.previous = Some(now);
            return Outcome { effects, toast: Some(show_deathlink(&req, false)), send: None };
        }
        if player.death_flag || player.hp == 0 {
            let mut excluded = false;
            if self.state.settings.ignore_scripted {
                if !world.in_main_game {
                    excluded = true;
                }
                if let Some(hit) = player.hit_by {
                    if player.anim >= 70290 && player.anim <= 70299 && hit.area == 14 && hit.index
                        == 251 {
                        excluded = true;
                    }
                }
            }
            self.state.previous = Some(now);
            if !excluded {
                let r = Outcome {
                    effects: Vec::new(),
                    toast: Some("Sending deathlink!".to_owned()),
                    send: Some(DeathlinkStreamRequest::Deathlink),
                };
                assert(r@.effects =~= seq![]);
                return r;
            }
        }
        none
    }
}

/// A death counts once, whether it is passed on, comes from elsewhere or is scripted: until the
/// cooldown is over, neither is another one passed on nor does one elsewhere kill.
pub proof fn lemma_cooldown_after_death(
    m: DeathlinkModel,
    world: WorldSnapshot,
    now: u64,
    later_world: WorldSnapshot,
    later: u64,
)
    requires
        after_tick(m, world, now).0.previous == Some(now),
        later - now < COOLDOWN_NANOS,
    ensures
        ({
            let next = after_tick(after_tick(m, world, now).0, later_world, later);
            !next.1.send && next.1.effects.len() == 0
        }),
{
}

/// Whenever a death is passed on, or one elsewhere kills, or a scripted one is passed over, the
/// cooldown starts.
pub proof fn lemma_death_starts_cooldown(m: DeathlinkModel, world: WorldSnapshot, now: u64)
    requires
        ({
            ||| after_tick(m, world, now).1.send
            ||| after_tick(m, world, now).1.effects.len() > 0
            ||| m.settings.enable_deathlink && !cooling_down(m.previous, now) && m.pending is None
                && (mortal(world) matches Some(p) && is_dead(p))
        }),
    ensures
        after_tick(m, world, now).0.previous == Some(now),
{
}

/// A death elsewhere never both kills and is passed on.
pub proof fn lemma_link_is_not_returned(m: DeathlinkModel, world: WorldSnapshot, now: u64)
    ensures
        !(after_tick(m, world, now).1.send && after_tick(m, world, now).1.effects.len() > 0),
{
}

/// While links are disabled, nothing kills and nothing is passed on or shown.
pub proof fn lemma_disabled_does_nothing(
    m: DeathlinkModel,
    req: LinkModel,
    own_id: Seq<char>,
    world: WorldSnapshot,
    now: u64,
)
    requires
        !m.settings.enable_deathlink,
    ensures
        after_link(m, req, own_id) == m,
        after_tick(m, world, now).1 == nothing(),
{
}

/// This client's own death, coming back from the server, is passed over.
pub proof fn lemma_own_death_is_ignored(m: DeathlinkModel, req: LinkModel, own_id: Seq<char>)
    requires
        req.id == own_id,
    ensures
        after_link(m, req, own_id) == m,
{
}

/// Turning links off and on again leaves nothing pending and no cooldown.
pub proof fn lemma_toggle_starts_over(
    m: DeathlinkModel,
    off: DeathlinkSettings,
    on: DeathlinkSettings,
)
    requires
        m.settings.enable_deathlink,
        !off.enable_deathlink,
        on.enable_deathlink,
    ensures
        after_settings(after_settings(m, off), on) == (DeathlinkModel {
            previous: None,
            pending: None,
            settings: on,
        }),
{
}

/// Whether the player is there to be killed: the game is past its menus and loaded, and they are
/// not invincible in any way.
pub open spec fn can_die(world: WorldSnapshot) -> bool {
    world.has_menu && !world.is_loading && (world.player matches Some(p) && !p.perfect_invincibility
        && !p.invincible_as_thrower && !p.invincible_as_thrown)
}

/// Whether the last death was less than thirty seconds ago.
pub open spec fn just_died(m: DeathlinkModel, now: u64) -> bool {
    m.previous is Some && now - m.previous.unwrap() < 30_000_000_000
}

/// A frame kills exactly where links are enabled, a death elsewhere is pending, the last one is
/// thirty seconds ago and the player can die. The player then respawns as usual, and dies at once
/// in the main game, and by losing all health before it.
pub proof fn lemma_when_a_frame_kills(m: DeathlinkModel, world: WorldSnapshot, now: u64)
    ensures
        ({
            let effects = after_tick(m, world, now).1.effects;
            let respawn = Effect::SpEffect { entity_id: 10000, effect_id: 4290 };
            if m.settings.enable_deathlink && m.pending is Some && !just_died(m, now) && can_die(
                world,
            ) {
                &&& effects.len() == 2
                &&& effects[0] == respawn
                &&& world.in_main_game ==> effects[1] == (Effect::ForceDeath {
                    entity_id: 10000,
                    receives_runes: false,
                })
                &&& !world.in_main_game ==> effects[1] == (Effect::SpEffect {
                    entity_id: 10000,
                    effect_id: 9639,
                })
            } else {
                effects.len() == 0
            }
        }),
{
}

/// A frame passes a death on exactly where links are enabled, none is pending, the last one is
/// thirty seconds ago, and the player could die and is dead; but not one in the tutorial, nor the
/// abduction from Raya Lucaria, where scripted deaths are ignored.
pub proof fn lemma_when_a_death_is_sent(m: DeathlinkModel, world: WorldSnapshot, now: u64)
    ensures
        after_tick(m, world, now).1.send <==> {
            &&& m.settings.enable_deathlink
            &&& m.pending is None
            &&& !just_died(m, now)
            &&& can_die(world)
            &&& world.player.unwrap().death_flag || world.player.unwrap().hp == 0
            &&& m.settings.ignore_scripted ==> world.in_main_game && !(70290
                <= world.player.unwrap().anim <= 70299 && (
            world.player.unwrap().hit_by matches Some(hit) && hit.area == 14 && hit.index == 251))
        },
{
}

/// What a frame leaves behind. Settings stay. A pending death stays just while it waits for the
/// player to be able to die. The time of the last death is the frame's just where the player was
/// killed, or was dead with nothing pending.
pub proof fn lemma_what_a_frame_leaves(m: DeathlinkModel, world: WorldSnapshot, now: u64)
    ensures
        ({
            let after = after_tick(m, world, now).0;
            let acted = m.settings.enable_deathlink && !just_died(m, now) && can_die(world) && (
            m.pending is Some || world.player.unwrap().death_flag || world.player.unwrap().hp
                == 0);
            let waits = m.settings.enable_deathlink && !just_died(m, now) && !can_die(world);
            &&& after.settings == m.settings
            &&& after.pending == if waits {
                m.pending
            } else {
                None
            }
            &&& after.previous == if acted {
                Some(now)
            } else {
                m.previous
            }
        }),
{
}

/// What a frame shows: a death elsewhere that kills or is dropped just after another, by whom where
/// that is known, and a death that is passed on. Nothing else is shown.
pub proof fn lemma_what_a_frame_shows(m: DeathlinkModel, world: WorldSnapshot, now: u64)
    ensures
        ({
            let outcome = after_tick(m, world, now).1;
            let kills = outcome.effects.len() > 0;
            let dropped = m.settings.enable_deathlink && just_died(m, now) && m.pending is Some;
            if kills || dropped {
                let name = m.pending.unwrap().name;
                &&& kills && name is None ==> outcome.toast == Some("Received deathlink!"@)
                &&& kills && name is Some ==> outcome.toast == Some(
                    "Received deathlink from "@ + name.unwrap() + "!"@,
                )
                &&& dropped && name is None ==> outcome.toast == Some(
                    "Received deathlink!"@ + " (ignored)"@,
                )
                &&& dropped && name is Some ==> outcome.toast == Some(
                    "Received deathlink from "@ + name.unwrap() + "!"@ + " (ignored)"@,
                )
            } else if outcome.send {
                outcome.toast == Some("Sending deathlink!"@)
            } else {
                outcome.toast is None
            }
        }),
{
    if let Some(req) = m.pending {
        assert(received_text(req, false) =~= match req.name {
            Some(name) => "Received deathlink from "@ + name + "!"@,
            None => "Received deathlink!"@,
        });
    }
}

/// What the server says takes effect settings first. The settings are those it sends; turning links
/// on or off forgets what was pending and the last death, and anything else keeps them. A death
/// elsewhere is pending where links are then enabled and it is another client's; it replaces one
/// that is.
pub proof fn lemma_message(
    m: DeathlinkModel,
    settings: Option<DeathlinkSettings>,
    link: Option<LinkModel>,
    own_id: Seq<char>,
)
    ensures
        ({
            let after = after_message(m, settings, link, own_id);
            let set = match settings {
                Some(s) => s,
                None => m.settings,
            };
            let switched = set.enable_deathlink != m.settings.enable_deathlink;
            let taken = set.enable_deathlink && (link matches Some(req) && req.id != own_id);
            &&& after.settings == set
            &&& after.previous == if switched {
                None
            } else {
                m.previous
            }
            &&& after.pending == if taken {
                link
            } else if switched {
                None
            } else {
                m.pending
            }
        }),
{
}

/// Settings are spoken of just where they differ, as turned on or off.
pub proof fn lemma_settings_text(m: DeathlinkModel, s: DeathlinkSettings)
    ensures
        ({
            let same = s.enable_deathlink == m.settings.enable_deathlink && s.rune_loss
                == m.settings.rune_loss && s.ignore_scripted == m.settings.ignore_scripted;
            settings_text(m, s) == if same {
                None
            } else if s.enable_deathlink {
                Some("Deathlink enabled"@)
            } else {
                Some("Deathlink disabled"@)
            }
        }),
{
}

} // verus!
