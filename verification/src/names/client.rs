//! The name client: answers which name a healthbar shows.
use vstd::prelude::*;

use crate::game::FromGame;
use crate::names::state::NameClientState;
use crate::names::templates::NameTemplates;
use crate::names::{NameApiRequest, NameClaim};

verus! {

/// A name to show, and the claim to report as used, if any, as the rules see them.
pub type ShownModel = Option<(Seq<char>, Option<crate::names::ClaimModel>)>;

/// A name to show, and the claim to report as used, if any.
#[derive(Debug)]
pub struct ShownName {
    pub name: String,
    pub post: Option<NameClaim>,
}

/// An optional shown name as the rules see it.
pub open spec fn shown_model(r: Option<ShownName>) -> ShownModel {
    match r {
        Some(shown) => Some(
            (
                shown.name@,
                match shown.post {
                    Some(claim) => Some(claim@),
                    None => None,
                },
            ),
        ),
        None => None,
    }
}

/// The state and the shown name after a healthbar asks for its name. A remembered name is shown
/// again; otherwise a new one is looked for, and a used claim is reported. A healthbar of an
/// unknown boss shows no name.
pub open spec fn shown_outcome(
    m: crate::names::state::NameModel,
    entity_id: u32,
    msg_id: i32,
    game: FromGame,
    templates: NameTemplates,
    draw: int,
) -> (crate::names::state::NameModel, ShownModel) {
    match crate::names::state::boss_of(m, entity_id, msg_id) {
        None => (m, None),
        Some(boss) => match crate::names::state::remembered(m, boss, msg_id) {
            Some(rewrite) => (m, Some((rewrite.name, None))),
            None => {
                let (after, rewrite) = crate::names::state::claim_outcome(
                    m,
                    boss,
                    msg_id,
                    game,
                    templates,
                    draw,
                );
                match rewrite {
                    None => (after, None),
                    Some(w) => (
                        after,
                        Some(
                            (
                                w.name,
                                if w.update {
                                    Some(w.claim)
                                } else {
                                    None
                                },
                            ),
                        ),
                    ),
                }
            },
        },
    }
}

/// Whether a new name is looked for, and for which boss.
pub open spec fn asks_for(
    m: crate::names::state::NameModel,
    entity_id: u32,
    msg_id: i32,
) -> Option<u32> {
    match crate::names::state::boss_of(m, entity_id, msg_id) {
        Some(boss) if crate::names::state::remembered(m, boss, msg_id) is None => Some(boss),
        _ => None,
    }
}

/// A new name, where one is looked for, can be given.
pub open spec fn can_show(
    m: crate::names::state::NameModel,
    entity_id: u32,
    msg_id: i32,
    game: FromGame,
    templates: NameTemplates,
) -> bool {
    asks_for(m, entity_id, msg_id) matches Some(boss) ==> crate::names::state::can_name(
        m,
        boss,
        msg_id,
        game,
        templates,
    )
}

/// Whether `draw` is a possible outcome of the draw, where showing a name makes one.
pub open spec fn shown_draw(
    m: crate::names::state::NameModel,
    entity_id: u32,
    msg_id: i32,
    game: FromGame,
    templates: NameTemplates,
    draw: int,
) -> bool {
    asks_for(m, entity_id, msg_id) matches Some(boss) ==> crate::names::state::draw_of(
        m,
        boss,
        msg_id,
        game,
        templates,
        draw,
    )
}

/// The name state of a running game.
pub struct NameClient {
    pub state: NameClientState,
    pub game: FromGame,
    pub templates: NameTemplates,
}

impl NameClient {
    /// A client without claims or names.
    pub fn new(game: FromGame, templates: NameTemplates) -> (r: Self)
        ensures
            r.game == game,
            r.templates == templates,
            r.state@ == crate::names::state::initial(),
            crate::names::state::well_formed(r.state@),
    {
        NameClient { state: NameClientState::default(), game, templates }
    }

    /// Gives a spawned enemy's healthbar the name of a claim.
    pub fn set_spawn_name(&mut self, entity_id: u32, claim: NameClaim)
        ensures
            final(self).state@ == crate::names::state::after_spawn_name(
                old(self).state@,
                entity_id,
                claim@,
            ),
            final(self).game == old(self).game,
            final(self).templates == old(self).templates,
    {
        self.state.set_spawn_name(entity_id, claim);
    }

    /// Notes which boss a healthbar message belongs to.
    pub fn set_msg_boss(&mut self, entity_id: u32, msg_id: i32)
        ensures
            final(self).state@ == crate::names::state::after_msg_boss(
                old(self).state@,
                entity_id,
                msg_id,
            ),
            final(self).game == old(self).game,
            final(self).templates == old(self).templates,
    {
        self.state.set_msg_boss(entity_id, msg_id);
    }

    /// Takes in what the server says about names.
    pub fn handle_message(&mut self, req: &NameApiRequest)
        ensures
            final(self).state@ == crate::names::state::after_request(old(self).state@, *req),
            crate::names::state::well_formed(old(self).state@)
                ==> crate::names::state::well_formed(final(self).state@),
            final(self).game == old(self).game,
            final(self).templates == old(self).templates,
    {
        self.state.update(req);
    }

    /// The name a healthbar shows, where a draw, if one is made, gives the `draw`-th of its pool.
    pub fn claim_name_with(&mut self, entity_id: u32, msg_id: i32, draw: usize) -> (r: Option<
        ShownName,
    >)
        requires
            can_show(old(self).state@, entity_id, msg_id, old(self).game, old(self).templates),
            shown_draw(
                old(self).state@,
                entity_id,
                msg_id,
                old(self).game,
                old(self).templates,
                draw as int,
            ),
        ensures
            (final(self).state@, shown_model(r)) == shown_outcome(
                old(self).state@,
                entity_id,
                msg_id,
                old(self).game,
                old(self).templates,
                draw as int,
            ),
            final(self).game == old(self).game,
            final(self).templates == old(self).templates,
    {
        let boss = match self.state.get_msg_boss(entity_id, msg_id) {
            Some(boss) => boss,
            None => {
                return None;
            },
        };
        if let Some(rewrite) = self.state.get_healthbar_rewrite(boss, msg_id) {
            return Some(ShownName { name: rewrite.name, post: None });
        }
        match self.state.make_claim_with(boss, msg_id, self.game, &self.templates, draw) {
            None => None,
            Some(rewrite) => {
                let post = if rewrite.update {
                    Some(rewrite.claim)
                } else {
                    None
                };
                Some(ShownName { name: rewrite.name, post })
            },
        }
    }

    /// The name a healthbar shows, with the claim to report as used, if any.
    pub fn claim_name(&mut self, entity_id: u32, msg_id: i32) -> (r: Option<ShownName>)
        requires
            can_show(old(self).state@, entity_id, msg_id, old(self).game, old(self).templates),
        ensures
            exists|draw: int|
                shown_draw(
                    old(self).state@,
                    entity_id,
                    msg_id,
                    old(self).game,
                    old(self).templates,
                    draw,
                ) && (final(self).state@, shown_model(r)) == #[trigger] shown_outcome(
                    old(self).state@,
                    entity_id,
                    msg_id,
                    old(self).game,
                    old(self).templates,
                    draw,
                ),
            final(self).game == old(self).game,
            final(self).templates == old(self).templates,
    {
        let mut draw: usize = 0;
        if let Some(boss) = self.state.get_msg_boss(entity_id, msg_id) {
            if self.state.get_healthbar_rewrite(boss, msg_id).is_none() {
                draw = self.state.draw_claim(boss, msg_id, self.game, &self.templates);
            }
        }
        self.claim_name_with(entity_id, msg_id, draw)
    }

    /// Whether a healthbar may ask for its name.
    pub fn can_claim_name(&self, entity_id: u32, msg_id: i32) -> (r: bool)
        ensures
            r == can_show(self.state@, entity_id, msg_id, self.game, self.templates),
    {
        match self.state.get_msg_boss(entity_id, msg_id) {
            Some(boss) => self.state.get_healthbar_rewrite(boss, msg_id).is_some()
                || self.state.can_claim(boss, msg_id, self.game, &self.templates),
            None => true,
        }
    }
}

} // verus!
