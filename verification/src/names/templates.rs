//! Name templates: what stands around the name on a boss's healthbar.
use vstd::prelude::*;

use std::collections::HashMap;

use crate::game::FromGame;

verus! {

/// The templates of each game by boss entity id, with `$1` in the place of the name, and the
/// boss entity ids of Elden Ring's entity groups.
pub struct NameTemplates {
    pub ds1r: HashMap<u32, String>,
    pub ds3: HashMap<u32, String>,
    pub sdt: HashMap<u32, String>,
    pub er: HashMap<u32, String>,
    pub er_groups: HashMap<u32, u32>,
}

impl Default for NameTemplates {
    fn default() -> (r: Self)
        ensures
            forall|game: FromGame| (#[trigger] r.table(game)).dom() == Set::<u32>::empty(),
            r.er_groups@.dom() == Set::<u32>::empty(),
    {
        NameTemplates {
            ds1r: HashMap::new(),
            ds3: HashMap::new(),
            sdt: HashMap::new(),
            er: HashMap::new(),
            er_groups: HashMap::new(),
        }
    }
}

impl NameTemplates {
    /// The templates of one game.
    pub open spec fn table(self, game: FromGame) -> Map<u32, String> {
        match game {
            FromGame::DS1R => self.ds1r@,
            FromGame::DS3 => self.ds3@,
            FromGame::SDT => self.sdt@,
            FromGame::ER => self.er@,
        }
    }

    /// The template for a boss's healthbar message, if it gets a name. A boss without a template
    /// of its own wears the bare name; in Elden Ring only where its entity id is a boss's. The
    /// first part of the fight with Malenia has a template of its own.
    pub open spec fn template(self, game: FromGame, entity_id: u32, msg_id: i32) -> Option<
        Seq<char>,
    > {
        let table = self.table(game);
        if !table.contains_key(entity_id) && game == FromGame::ER && (entity_id / 100) % 10 != 8 {
            None
        } else if entity_id == 15000800 && msg_id == 902120001 {
            Some("$1, Goddess of Rot"@)
        } else if table.contains_key(entity_id) {
            Some(table[entity_id]@)
        } else {
            Some("$1"@)
        }
    }

    /// The template for a boss's healthbar message.
    pub fn find_template(&self, game: FromGame, entity_id: u32, msg_id: i32) -> (r: Option<String>)
        ensures
            match r {
                Some(t) => self.template(game, entity_id, msg_id) == Some(t@),
                None => self.template(game, entity_id, msg_id) is None,
            },
    {
        let table = match game {
            FromGame::DS1R => &self.ds1r,
            FromGame::DS3 => &self.ds3,
            FromGame::SDT => &self.sdt,
            FromGame::ER => &self.er,
        };
        let own = match table.get(&entity_id) {
            Some(template) => template.clone(),
            None => {
                if game == FromGame::ER && (entity_id / 100) % 10 != 8 {
                    return None;
                }
                "$1".to_owned()
            },
        };
        if entity_id == 15000800 && msg_id == 902120001 {
            return Some("$1, Goddess of Rot".to_owned());
        }
        Some(own)
    }
}

} // verus!
