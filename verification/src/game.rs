//! The supported games, and what identifies a running game.
use vstd::bytes::{u32_to_le_bytes, u64_to_le_bytes};
use vstd::prelude::*;

use std::collections::hash_map::DefaultHasher;
use std::hash::Hasher;

use crate::text::{push_four_hex, same_text};
use crate::wide::{decode_wide, until_zero};

verus! {

broadcast use vstd::std_specs::hash::group_hash_axioms;

#[derive(PartialEq, Eq, Structural, Debug, Clone, Copy)]
pub enum FromGame {
    DS1R,
    DS3,
    SDT,
    ER,
}

/// The game with the given product name and product version.
pub open spec fn game_of(product: Seq<char>, version: Seq<char>) -> Option<FromGame> {
    if product == "DARK SOULS: REMASTERED"@ && version == "1.0.0.0"@ {
        Some(FromGame::DS1R)
    } else if product == "DARK SOULS™ III"@ && version == "1.15.2.0"@ {
        Some(FromGame::DS3)
    } else if product == "Sekiro™: Shadows Die Twice"@ && version == "1.6.0.0"@ {
        Some(FromGame::SDT)
    } else if product == "ELDEN RING™"@ && version == "2.6.2.0"@ {
        Some(FromGame::ER)
    } else {
        None
    }
}

/// Identifies a game by its product name and version; other products and versions have none.
pub fn identify_game(product: &str, version: &str) -> (r: Option<FromGame>)
    ensures
        r == game_of(product@, version@),
{
    if same_text(product, "DARK SOULS: REMASTERED") && same_text(version, "1.0.0.0") {
        Some(FromGame::DS1R)
    } else if same_text(product, "DARK SOULS™ III") && same_text(version, "1.15.2.0") {
        Some(FromGame::DS3)
    } else if same_text(product, "Sekiro™: Shadows Die Twice") && same_text(version, "1.6.0.0") {
        Some(FromGame::SDT)
    } else if same_text(product, "ELDEN RING™") && same_text(version, "2.6.2.0") {
        Some(FromGame::ER)
    } else {
        None
    }
}

/// The short hash of a game id: the low 16 bits, as four hexadecimal digits, of the default
/// hasher's value over a fixed salt and the id.
pub open spec fn game_hash_text(game_id: u64) -> Seq<char> {
    let written = seq![
        vstd::bytes::spec_u32_to_le_bytes(0x2B0708A2),
        vstd::bytes::spec_u64_to_le_bytes(game_id),
    ];
    let hash = <DefaultHasher as vstd::std_specs::hash::DefaultHasherAdditionalSpecFns>::spec_finish(
        written,
    );
    crate::text::four_hex(hash as nat % 0x10000)
}

/// The short hash of the given game id.
pub fn game_hash(game_id: u64) -> (r: String)
    ensures
        r@ == game_hash_text(game_id),
{
    let mut hasher = DefaultHasher::new();
    let salt = u32_to_le_bytes(0x2B0708A2);
    hasher.write(salt.as_slice());
    let id = u64_to_le_bytes(game_id);
    hasher.write(id.as_slice());
    assert(hasher@ =~= seq![salt@, id@]);
    let hash: u64 = hasher.finish();
    let mut out = String::new();
    push_four_hex(&mut out, hash % 0x10000);
    assert(out@ =~= game_hash_text(game_id));
    out
}

/// `rand::RngExt::random` on the thread's generator: any number at all.
#[verifier::external_body]
fn random_id() -> u64 {
    rand::RngExt::random::<u64>(&mut rand::rng())
}

/// A random game id, for games that have no account id to offer.
pub fn get_game_id() -> u64 {
    random_id()
}

/// The short hash of a random game id, another one in every run.
pub fn get_game_hash() -> (r: String)
    ensures
        exists|game_id: u64| r@ == #[trigger] game_hash_text(game_id),
{
    let game_id = get_game_id();
    game_hash(game_id)
}

/// What the library reads of a player's game data.
pub struct PlayerGameData {
    /// The character's name as UTF-16 code units, ended by a zero where it is shorter than the
    /// field.
    pub character_name: Vec<u16>,
}

pub trait PlayerGameDataExt {
    spec fn name_units(&self) -> Seq<u16>;

    /// The character's name: the text before the first zero.
    fn character_name(&self) -> (r: String)
        requires
            crate::wide::is_wide_text(crate::wide::before_zero(self.name_units())),
        ensures
            crate::wide::wide(r@) == crate::wide::before_zero(self.name_units()),
    ;
}

impl PlayerGameDataExt for PlayerGameData {
    open spec fn name_units(&self) -> Seq<u16> {
        self.character_name@
    }

    fn character_name(&self) -> (r: String) {
        let units = until_zero(&self.character_name);
        match decode_wide(units.as_slice()) {
            Some(name) => name,
            None => String::new(),
        }
    }
}

/// Each game is known in one version only, and no two games under one name.
pub proof fn lemma_game_of(product: Seq<char>, version: Seq<char>, other: Seq<char>)
    ensures
        game_of(product, version) is Some && game_of(product, other) is Some ==> version == other,
        game_of("DARK SOULS: REMASTERED"@, version) == if version == "1.0.0.0"@ {
            Some(FromGame::DS1R)
        } else {
            None
        },
        game_of("DARK SOULS™ III"@, version) == if version == "1.15.2.0"@ {
            Some(FromGame::DS3)
        } else {
            None
        },
        game_of("Sekiro™: Shadows Die Twice"@, version) == if version == "1.6.0.0"@ {
            Some(FromGame::SDT)
        } else {
            None
        },
        game_of("ELDEN RING™"@, version) == if version == "2.6.2.0"@ {
            Some(FromGame::ER)
        } else {
            None
        },
        game_of(product, version) is Some ==> product == "DARK SOULS: REMASTERED"@ || product
            == "DARK SOULS™ III"@ || product == "Sekiro™: Shadows Die Twice"@ || product
            == "ELDEN RING™"@,
{
    reveal_strlit("DARK SOULS: REMASTERED");
    reveal_strlit("DARK SOULS™ III");
    reveal_strlit("Sekiro™: Shadows Die Twice");
    reveal_strlit("ELDEN RING™");
    assert("DARK SOULS: REMASTERED"@[10] == ':');
    assert("DARK SOULS™ III"@[10] == '™');
    assert("DARK SOULS: REMASTERED"@[0] == 'D');
    assert("DARK SOULS™ III"@[0] == 'D');
    assert("Sekiro™: Shadows Die Twice"@[0] == 'S');
    assert("ELDEN RING™"@[0] == 'E');
}

/// The short hash is four hexadecimal digits: the low sixteen bits of the hash of eight bytes of
/// the id after four of a salt.
pub proof fn lemma_game_hash(game_id: u64)
    ensures
        game_hash_text(game_id).len() == 4,
        crate::text::number_of(game_hash_text(game_id), 16)
            == <DefaultHasher as vstd::std_specs::hash::DefaultHasherAdditionalSpecFns>::spec_finish(
            seq![
                vstd::bytes::spec_u32_to_le_bytes(0x2B0708A2),
                vstd::bytes::spec_u64_to_le_bytes(game_id),
            ],
        ) as nat % 0x10000,
{
    let hash = <DefaultHasher as vstd::std_specs::hash::DefaultHasherAdditionalSpecFns>::spec_finish(
        seq![
            vstd::bytes::spec_u32_to_le_bytes(0x2B0708A2),
            vstd::bytes::spec_u64_to_le_bytes(game_id),
        ],
    );
    crate::text::lemma_four_hex(hash as nat % 0x10000);
}

} // verus!
