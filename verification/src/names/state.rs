//! The state of name claims and healthbar names.
use vstd::prelude::*;

use std::collections::HashMap;

use crate::game::FromGame;
use crate::names::picks::{plan_pick, pool_amounts, Pick};
use crate::names::templates::NameTemplates;
use crate::names::{
    HealthbarKey, HealthbarRewrite, NameApiRequest, NameClaim, NameCommand, NameMode,
    SPAWN_NAME_ID,
};
use crate::sorting::sort_numbers;
use crate::text::{push_decimal, push_signed_decimal, replace_all};

verus! {

broadcast use vstd::std_specs::hash::group_hash_axioms;

/// The claims and names as the rules see them.
#[verifier::ext_equal]
pub struct NameModel {
    pub mode: NameMode,
    pub claims: Seq<crate::names::ClaimModel>,
    pub tiers: Seq<u32>,
    pub rewrites: Map<HealthbarKey, crate::names::RewriteModel>,
    pub bosses: Map<i32, u32>,
    pub test_count: u32,
}

/// Claims, tiers, and the names that healthbars have been given.
pub struct NameClientState {
    pub name_mode: NameMode,
    pub name_claims: Vec<NameClaim>,
    /// In ascending order. Claims of at least the last are taken highest first; below that, one
    /// is drawn by weight from the highest tier between two neighbours that has any.
    pub tiers: Vec<u32>,
    pub entity_rewrites: HashMap<u32, HealthbarRewrite>,
    pub msg_rewrites: HashMap<i32, HealthbarRewrite>,
    pub msg_to_entity_id: HashMap<i32, u32>,
    /// The number of the next placeholder name.
    pub test_count: u32,
}

impl View for NameClientState {
    type V = NameModel;

    open spec fn view(&self) -> NameModel {
        NameModel {
            mode: self.name_mode,
            claims: crate::names::picks::claim_models(self.name_claims@),
            tiers: self.tiers@,
            rewrites: Map::new(
                |k: HealthbarKey|
                    match k {
                        HealthbarKey::EntityId(e) => self.entity_rewrites@.contains_key(e),
                        HealthbarKey::MsgId(m) => self.msg_rewrites@.contains_key(m),
                    },
                |k: HealthbarKey|
                    match k {
                        HealthbarKey::EntityId(e) => self.entity_rewrites@[e]@,
                        HealthbarKey::MsgId(m) => self.msg_rewrites@[m]@,
                    },
            ),
            bosses: self.msg_to_entity_id@,
            test_count: self.test_count,
        }
    }
}

/// The state before anything is asked for: no names, and placeholders counted from one.
pub open spec fn initial() -> NameModel {
    NameModel {
        mode: NameMode::Off,
        claims: seq![],
        tiers: seq![],
        rewrites: Map::empty(),
        bosses: Map::empty(),
        test_count: 1,
    }
}

/// No two claims have the same name, and the tier bounds ascend.
pub open spec fn well_formed(m: NameModel) -> bool {
    &&& forall|i: int, j: int|
        0 <= i < j < m.claims.len() ==> #[trigger] m.claims[i].name != #[trigger] m.claims[j].name
    &&& crate::sorting::is_ascending(m.tiers)
}

/// The state without the names of healthbar messages; the names of spawned enemies stay.
pub open spec fn without_cached_names(m: NameModel) -> NameModel {
    NameModel {
        rewrites: Map::new(
            |k: HealthbarKey| m.rewrites.contains_key(k) && k is EntityId,
            |k: HealthbarKey| m.rewrites[k],
        ),
        ..m
    }
}

/// The state after one command. Names that a mode gave to healthbar messages outlast a change of
/// mode only where the new mode goes by such names.
pub open spec fn after_command(m: NameModel, command: NameCommand) -> NameModel {
    match command {
        NameCommand::SetNameMode { mode } => if mode != m.mode && mode != NameMode::Cache {
            NameModel { mode, ..without_cached_names(m) }
        } else {
            NameModel { mode, ..m }
        },
        NameCommand::SetTiers { tiers } => NameModel {
            tiers: crate::sorting::ascending(tiers@),
            ..m
        },
        NameCommand::ClearNameCache => NameModel { claims: seq![], ..without_cached_names(m) },
    }
}

/// The state after commands, one after another.
pub open spec fn after_commands(m: NameModel, commands: Seq<NameCommand>) -> NameModel
    decreases commands.len(),
{
    if commands.len() == 0 {
        m
    } else {
        after_command(after_commands(m, commands.drop_last()), commands.last())
    }
}

/// The position of the first claim with a name, or the number of claims where none has it.
pub open spec fn claim_position(claims: Seq<crate::names::ClaimModel>, name: Seq<char>) -> int
    decreases claims.len(),
{
    if claims.len() == 0 {
        0
    } else {
        let before = claim_position(claims.drop_last(), name);
        if before < claims.len() - 1 || claims.last().name == name {
            before
        } else {
            claims.len() as int
        }
    }
}

/// The claims with one more: a claim whose name is known takes the new amount and can be claimed
/// again, another one goes to the end.
pub open spec fn with_claim(
    claims: Seq<crate::names::ClaimModel>,
    claim: crate::names::ClaimModel,
) -> Seq<crate::names::ClaimModel> {
    let i = claim_position(claims, claim.name);
    if i < claims.len() {
        claims.update(i, crate::names::ClaimModel { claimed: false, ..claim })
    } else {
        claims.push(claim)
    }
}

/// The claims with more of them, one after another.
pub open spec fn with_claims(
    claims: Seq<crate::names::ClaimModel>,
    more: Seq<crate::names::ClaimModel>,
) -> Seq<crate::names::ClaimModel>
    decreases more.len(),
{
    if more.len() == 0 {
        claims
    } else {
        with_claim(with_claims(claims, more.drop_last()), more.last())
    }
}

/// The state after a request: first its commands, then its claims.
pub open spec fn after_request(m: NameModel, req: NameApiRequest) -> NameModel {
    let commanded = match req.names {
        Some(commands) => after_commands(m, commands@),
        None => m,
    };
    match req.claims {
        Some(claims) => NameModel {
            claims: with_claims(
                commanded.claims,
                crate::names::picks::claim_models(claims@),
            ),
            ..commanded
        },
        None => commanded,
    }
}

/// A claim's position is where its name is first found.
pub proof fn lemma_claim_position(claims: Seq<crate::names::ClaimModel>, name: Seq<char>)
    ensures
        0 <= claim_position(claims, name) <= claims.len(),
        claim_position(claims, name) < claims.len() ==> claims[claim_position(claims, name)].name
            == name,
        forall|i: int|
            0 <= i < claim_position(claims, name) ==> #[trigger] claims[i].name != name,
    decreases claims.len(),
{
    if claims.len() > 0 {
        let rest = claims.drop_last();
        lemma_claim_position(rest, name);
        assert forall|i: int| 0 <= i < claim_position(claims, name) implies #[trigger] claims[i].name
            != name by {
            if i < rest.len() {
                assert(rest[i] == claims[i]);
            }
        }
        if claim_position(rest, name) < rest.len() {
            assert(rest[claim_position(rest, name)] == claims[claim_position(rest, name)]);
        }
    }
}

/// A claim's position is wherever its name is first found.
proof fn lemma_claim_position_is(
    claims: Seq<crate::names::ClaimModel>,
    name: Seq<char>,
    at: int,
)
    requires
        0 <= at <= claims.len(),
        at < claims.len() ==> claims[at].name == name,
        forall|i: int| 0 <= i < at ==> #[trigger] claims[i].name != name,
    ensures
        claim_position(claims, name) == at,
{
    lemma_claim_position(claims, name);
    let p = claim_position(claims, name);
    if p < at {
        assert(claims[p].name != name);
    } else if at < p {
        assert(claims[at].name != name);
    }
}

/// Adding claims keeps the names distinct.
pub proof fn lemma_with_claims_distinct(
    claims: Seq<crate::names::ClaimModel>,
    more: Seq<crate::names::ClaimModel>,
)
    requires
        forall|i: int, j: int|
            0 <= i < j < claims.len() ==> #[trigger] claims[i].name != #[trigger] claims[j].name,
    ensures
        ({
            let all = with_claims(claims, more);
            forall|i: int, j: int|
                0 <= i < j < all.len() ==> #[trigger] all[i].name != #[trigger] all[j].name
        }),
    decreases more.len(),
{
    if more.len() > 0 {
        lemma_with_claims_distinct(claims, more.drop_last());
        let before = with_claims(claims, more.drop_last());
        lemma_claim_position(before, more.last().name);
        let all = with_claims(claims, more);
        let p = claim_position(before, more.last().name);
        assert forall|i: int, j: int| 0 <= i < j < all.len() implies #[trigger] all[i].name
            != #[trigger] all[j].name by {
            if p < before.len() {
                assert(all[i].name == before[i].name);
                assert(all[j].name == before[j].name);
            } else if j < before.len() {
                assert(all[i] == before[i] && all[j] == before[j]);
            } else {
                assert(all[i] == before[i]);
            }
        }
    }
}

/// Every request leaves claim names distinct and tiers ascending.
pub proof fn lemma_request_well_formed(m: NameModel, req: NameApiRequest)
    requires
        well_formed(m),
    ensures
        well_formed(after_request(m, req)),
{
    if let Some(commands) = req.names {
        lemma_commands_well_formed(m, commands@);
    }
    let commanded = match req.names {
        Some(commands) => after_commands(m, commands@),
        None => m,
    };
    if let Some(claims) = req.claims {
        lemma_with_claims_distinct(
            commanded.claims,
            crate::names::picks::claim_models(claims@),
        );
    }
}

/// Commands leave claim names distinct and tiers ascending.
pub proof fn lemma_commands_well_formed(m: NameModel, commands: Seq<NameCommand>)
    requires
        well_formed(m),
    ensures
        well_formed(after_commands(m, commands)),
    decreases commands.len(),
{
    if commands.len() > 0 {
        lemma_commands_well_formed(m, commands.drop_last());
        if let NameCommand::SetTiers { tiers } = commands.last() {
            crate::sorting::lemma_ascending(tiers@);
        }
    }
}

impl Default for NameClientState {
    fn default() -> (r: Self)
        ensures
            r@ == initial(),
    {
        let r = NameClientState {
            name_mode: NameMode::Off,
            name_claims: Vec::new(),
            tiers: Vec::new(),
            entity_rewrites: HashMap::new(),
            msg_rewrites: HashMap::new(),
            msg_to_entity_id: HashMap::new(),
            test_count: 1,
        };
        assert(r@.rewrites =~= Map::empty());
        assert(r@.claims =~= seq![]);
        r
    }
}

impl NameClientState {
    fn clear_cached_names(&mut self)
        ensures
            final(self)@ == without_cached_names(old(self)@),
    {
        self.msg_rewrites.clear();
        assert(self@.rewrites =~= without_cached_names(old(self)@).rewrites);
    }

    fn run_command(&mut self, command: &NameCommand)
        ensures
            final(self)@ == after_command(old(self)@, *command),
    {
        match command {
            NameCommand::SetNameMode { mode } => {
                if *mode != self.name_mode && *mode != NameMode::Cache {
                    self.clear_cached_names();
                }
                let ghost kept = self@;
                self.name_mode = *mode;
                assert(self@.rewrites =~= kept.rewrites);
            },
            NameCommand::SetTiers { tiers } => {
                self.tiers = sort_numbers(tiers);
                assert(self@.rewrites =~= old(self)@.rewrites);
            },
            NameCommand::ClearNameCache => {
                self.clear_cached_names();
                let ghost cleared = self@;
                self.name_claims.clear();
                assert(self@.rewrites =~= cleared.rewrites);
                assert(self@.claims =~= seq![]);
            },
        }
    }

    fn merge_claim(&mut self, claim: &NameClaim)
        ensures
            final(self)@ == (NameModel {
                claims: with_claim(old(self)@.claims, claim@),
                ..old(self)@
            }),
    {
        let ghost models = self@.claims;
        let mut i: usize = 0;
        while i < self.name_claims.len() && self.name_claims[i].name != claim.name
            invariant
                *self == *old(self),
                models == self@.claims,
                i <= self.name_claims@.len(),
                forall|k: int| 0 <= k < i ==> #[trigger] models[k].name != claim.name@,
            decreases self.name_claims@.len() - i,
        {
            assert(models[i as int] == self.name_claims@[i as int]@);
            i = i + 1;
        }
        proof {
            if i < models.len() {
                assert(models[i as int] == self.name_claims@[i as int]@);
            }
            lemma_claim_position_is(models, claim.name@, i as int);
        }
        if i < self.name_claims.len() {
            let known = NameClaim {
                name: self.name_claims[i].name.clone(),
                amount: claim.amount,
                ignore: claim.ignore,
                claimed: false,
            };
            self.name_claims.set(i, known);
        } else {
            self.name_claims.push(claim.clone());
        }
        assert(self@.claims =~= with_claim(models, claim@));
        assert(self@.rewrites =~= old(self)@.rewrites);
    }

    /// Takes in what the server says: commands first, then claims.
    pub fn update(&mut self, req: &NameApiRequest)
        ensures
            final(self)@ == after_request(old(self)@, *req),
            well_formed(old(self)@) ==> well_formed(final(self)@),
    {
        proof {
            if well_formed(self@) {
                lemma_request_well_formed(self@, *req);
            }
        }
        let ghost start = self@;
        if let Some(commands) = &req.names {
            let mut i: usize = 0;
            while i < commands.len()
                invariant
                    i <= commands@.len(),
                    self@ == after_commands(start, commands@.take(i as int)),
                decreases commands@.len() - i,
            {
                assert(commands@.take(i + 1).drop_last() =~= commands@.take(i as int));
                self.run_command(&commands[i]);
                i = i + 1;
            }
            assert(commands@.take(commands@.len() as int) =~= commands@);
        }
        let ghost commanded = self@;
        if let Some(claims) = &req.claims {
            let ghost more = crate::names::picks::claim_models(claims@);
            let mut i: usize = 0;
            while i < claims.len()
                invariant
                    i <= claims@.len(),
                    more == crate::names::picks::claim_models(claims@),
                    self@ == (NameModel {
                        claims: with_claims(commanded.claims, more.take(i as int)),
                        ..commanded
                    }),
                decreases claims@.len() - i,
            {
                assert(more.take(i + 1).drop_last() =~= more.take(i as int));
                self.merge_claim(&claims[i]);
                i = i + 1;
            }
            assert(more.take(more.len() as int) =~= more);
        }
    }
}

/// What a healthbar's name is remembered by: spawned enemies by entity, all else by message.
pub open spec fn key_of(entity_id: u32, msg_id: i32) -> HealthbarKey {
    if msg_id == SPAWN_NAME_ID {
        HealthbarKey::EntityId(entity_id)
    } else {
        HealthbarKey::MsgId(msg_id)
    }
}

/// The boss entity behind a healthbar: the entity given, or the one last seen with the message.
pub open spec fn boss_of(m: NameModel, entity_id: u32, msg_id: i32) -> Option<u32> {
    if entity_id > 0 {
        Some(entity_id)
    } else if m.bosses.contains_key(msg_id) {
        Some(m.bosses[msg_id])
    } else {
        None
    }
}

/// The state once a healthbar message is known to belong to a boss. In the fresh mode the message
/// loses its name.
pub open spec fn after_msg_boss(m: NameModel, entity_id: u32, msg_id: i32) -> NameModel {
    NameModel {
        bosses: m.bosses.insert(msg_id, entity_id),
        rewrites: if m.mode == NameMode::Fresh {
            m.rewrites.remove(HealthbarKey::MsgId(msg_id))
        } else {
            m.rewrites
        },
        ..m
    }
}

/// The name remembered for a healthbar.
pub open spec fn remembered(m: NameModel, entity_id: u32, msg_id: i32) -> Option<
    crate::names::RewriteModel,
> {
    let key = key_of(entity_id, msg_id);
    if m.rewrites.contains_key(key) {
        Some(m.rewrites[key])
    } else {
        None
    }
}

/// The numbered placeholder name for a healthbar.
pub open spec fn placeholder(entity_id: u32, msg_id: i32, count: u32) -> Seq<char> {
    seq!['['] + crate::text::decimal(entity_id as nat) + seq!['-'] + crate::text::signed_decimal(
        msg_id as int,
    ) + seq![' ', '#'] + crate::text::decimal(count as nat) + seq![']']
}

/// The state once a healthbar has been given a name.
pub open spec fn with_rewrite(
    m: NameModel,
    key: HealthbarKey,
    rewrite: crate::names::RewriteModel,
) -> NameModel {
    NameModel { rewrites: m.rewrites.insert(key, rewrite), ..m }
}

/// The state after a spawned enemy is given a claim's name.
pub open spec fn after_spawn_name(
    m: NameModel,
    entity_id: u32,
    claim: crate::names::ClaimModel,
) -> NameModel {
    with_rewrite(
        m,
        HealthbarKey::EntityId(entity_id),
        (crate::names::RewriteModel { claim, name: claim.name, update: false }),
    )
}

/// Whether a new name is looked for at all, and with which template: not for spawned enemies,
/// not in the mode without names, and not without a template.
pub open spec fn naming_template(
    m: NameModel,
    entity_id: u32,
    msg_id: i32,
    game: FromGame,
    templates: NameTemplates,
) -> Option<Seq<char>> {
    if key_of(entity_id, msg_id) is EntityId || m.mode == NameMode::Off {
        None
    } else {
        templates.template(game, entity_id, msg_id)
    }
}

/// The state and the name after a healthbar asks for a new one, where a draw, if one is made,
/// gives the `draw`-th of its pool.
pub open spec fn claim_outcome(
    m: NameModel,
    entity_id: u32,
    msg_id: i32,
    game: FromGame,
    templates: NameTemplates,
    draw: int,
) -> (NameModel, Option<crate::names::RewriteModel>) {
    let key = key_of(entity_id, msg_id);
    match naming_template(m, entity_id, msg_id, game, templates) {
        None => (
            m,
            if key is EntityId {
                remembered(m, entity_id, msg_id)
            } else {
                None
            },
        ),
        Some(template) => if m.mode == NameMode::Test {
            let claim = crate::names::ClaimModel {
                name: placeholder(entity_id, msg_id, m.test_count),
                amount: 0,
                ignore: false,
                claimed: false,
            };
            let rewrite = crate::names::RewriteModel {
                claim,
                name: crate::text::replaced(template, "$1"@, claim.name),
                update: false,
            };
            (
                with_rewrite(
                    NameModel { test_count: (m.test_count + 1) as u32, ..m },
                    key,
                    rewrite,
                ),
                Some(rewrite),
            )
        } else {
            match crate::names::picks::picked(m.claims, m.tiers, draw) {
                None => (m, None),
                Some(i) => {
                    let claim = crate::names::ClaimModel {
                        amount: 0,
                        claimed: true,
                        ..m.claims[i]
                    };
                    let rewrite = crate::names::RewriteModel {
                        claim,
                        name: crate::text::replaced(template, "$1"@, claim.name),
                        update: true,
                    };
                    (
                        with_rewrite(
                            NameModel { claims: m.claims.update(i, claim), ..m },
                            key,
                            rewrite,
                        ),
                        Some(rewrite),
                    )
                },
            }
        },
    }
}

/// Where naming a healthbar takes a placeholder, the next one has a number; where it takes a draw,
/// the weights can be added up.
pub open spec fn can_name(
    m: NameModel,
    entity_id: u32,
    msg_id: i32,
    game: FromGame,
    templates: NameTemplates,
) -> bool {
    naming_template(m, entity_id, msg_id, game, templates) is Some ==> if m.mode
        == NameMode::Test {
        m.test_count < u32::MAX
    } else {
        crate::names::picks::drawable(m.claims, m.tiers)
    }
}

/// Whether `draw` is a possible outcome of the draw, where naming a healthbar makes one.
pub open spec fn draw_of(
    m: NameModel,
    entity_id: u32,
    msg_id: i32,
    game: FromGame,
    templates: NameTemplates,
    draw: int,
) -> bool {
    naming_template(m, entity_id, msg_id, game, templates) is Some && m.mode != NameMode::Test
        ==> crate::names::picks::possible_draw(m.claims, m.tiers, draw)
}

/// The weights of the draw that naming a healthbar makes, where it makes one: the amounts of the
/// claims in its pool, in order.
pub open spec fn draw_weights_of(
    m: NameModel,
    entity_id: u32,
    msg_id: i32,
    game: FromGame,
    templates: NameTemplates,
) -> Option<Seq<u32>> {
    if naming_template(m, entity_id, msg_id, game, templates) is Some && m.mode != NameMode::Test {
        match crate::names::picks::pick_rule(m.claims, m.tiers) {
            crate::names::picks::PickRule::Draw(pool) => Some(
                pool.map_values(|i: int| m.claims[i].amount),
            ),
            _ => None,
        }
    } else {
        None
    }
}

/// An optional name as the rules see it.
pub open spec fn rewrite_model(r: Option<HealthbarRewrite>) -> Option<crate::names::RewriteModel> {
    match r {
        Some(rewrite) => Some(rewrite@),
        None => None,
    }
}

impl NameClientState {
    /// What a healthbar's name is remembered by.
    pub fn healthbar_key(&self, entity_id: u32, msg_id: i32) -> (r: HealthbarKey)
        ensures
            r == key_of(entity_id, msg_id),
    {
        if msg_id == SPAWN_NAME_ID {
            HealthbarKey::EntityId(entity_id)
        } else {
            HealthbarKey::MsgId(msg_id)
        }
    }

    /// The boss entity behind a healthbar.
    pub fn get_msg_boss(&self, entity_id: u32, msg_id: i32) -> (r: Option<u32>)
        ensures
            r == boss_of(self@, entity_id, msg_id),
    {
        if entity_id > 0 {
            Some(entity_id)
        } else {
            match self.msg_to_entity_id.get(&msg_id) {
                Some(boss_id) => Some(*boss_id),
                None => None,
            }
        }
    }

    /// Notes which boss a healthbar message belongs to. In the fresh mode the boss gets a new
    /// name.
    pub fn set_msg_boss(&mut self, entity_id: u32, msg_id: i32)
        ensures
            final(self)@ == after_msg_boss(old(self)@, entity_id, msg_id),
    {
        let ghost before = self@;
        self.msg_to_entity_id.insert(msg_id, entity_id);
        if self.name_mode == NameMode::Fresh {
            self.msg_rewrites.remove(&msg_id);
            assert(self@.rewrites =~= before.rewrites.remove(HealthbarKey::MsgId(msg_id)));
        } else {
            assert(self@.rewrites =~= before.rewrites);
        }
    }

    /// The name remembered for a healthbar.
    pub fn get_healthbar_rewrite(&self, entity_id: u32, msg_id: i32) -> (r: Option<
        HealthbarRewrite,
    >)
        ensures
            rewrite_model(r) == remembered(self@, entity_id, msg_id),
    {
        let found = match self.healthbar_key(entity_id, msg_id) {
            HealthbarKey::EntityId(e) => self.entity_rewrites.get(&e),
            HealthbarKey::MsgId(m) => self.msg_rewrites.get(&m),
        };
        match found {
            Some(rewrite) => Some(rewrite.clone()),
            None => None,
        }
    }

    /// Gives a spawned enemy's healthbar the name of a claim.
    pub fn set_spawn_name(&mut self, entity_id: u32, claim: NameClaim)
        ensures
            final(self)@ == after_spawn_name(old(self)@, entity_id, claim@),
    {
        let ghost before = self@;
        let ghost model = crate::names::RewriteModel {
            claim: claim@,
            name: claim.name@,
            update: false,
        };
        let name = claim.name.clone();
        let rewrite = HealthbarRewrite { claim, name, update: false };
        self.entity_rewrites.insert(entity_id, rewrite);
        assert(self@.rewrites =~= before.rewrites.insert(
            HealthbarKey::EntityId(entity_id),
            model,
        ));
    }

    /// How the next claim would be found.
    pub fn plan(&self) -> (r: Pick)
        ensures
            r@ == crate::names::picks::pick_rule(self@.claims, self@.tiers),
    {
        plan_pick(&self.name_claims, &self.tiers)
    }

    fn remember(&mut self, msg_id: i32, claim: NameClaim, template: &str, update: bool) -> (r:
        HealthbarRewrite)
        ensures
            r@ == (crate::names::RewriteModel {
                claim: claim@,
                name: crate::text::replaced(template@, "$1"@, claim.name@),
                update,
            }),
            final(self)@ == with_rewrite(old(self)@, HealthbarKey::MsgId(msg_id), r@),
    {
        proof {
            reveal_strlit("$1");
        }
        let ghost before = self@;
        let name = replace_all(template, "$1", claim.name.as_str());
        let rewrite = HealthbarRewrite { claim, name, update };
        let kept = rewrite.clone();
        self.msg_rewrites.insert(msg_id, kept);
        assert(self@.rewrites =~= before.rewrites.insert(
            HealthbarKey::MsgId(msg_id),
            rewrite@,
        ));
        rewrite
    }

    /// Gives a healthbar a new name if it can have one, where a draw, if one is made, gives the
    /// `draw`-th of its pool. The claim behind the name is used up.
    pub fn make_claim_with(
        &mut self,
        entity_id: u32,
        msg_id: i32,
        game: FromGame,
        templates: &NameTemplates,
        draw: usize,
    ) -> (r: Option<HealthbarRewrite>)
        requires
            can_name(old(self)@, entity_id, msg_id, game, *templates),
            draw_of(old(self)@, entity_id, msg_id, game, *templates, draw as int),
        ensures
            (final(self)@, rewrite_model(r)) == claim_outcome(
                old(self)@,
                entity_id,
                msg_id,
                game,
                *templates,
                draw as int,
            ),
    {
        let ghost before = self@;
        if msg_id == SPAWN_NAME_ID {
            return self.get_healthbar_rewrite(entity_id, msg_id);
        }
        if self.name_mode == NameMode::Off {
            return None;
        }
        let template = match templates.find_template(game, entity_id, msg_id) {
            Some(template) => template,
            None => {
                return None;
            },
        };
        if self.name_mode == NameMode::Test {
            let mut name = String::new();
            name.push('[');
            push_decimal(&mut name, entity_id as u64);
            name.push('-');
            push_signed_decimal(&mut name, msg_id as i64);
            name.push(' ');
            name.push('#');
            push_decimal(&mut name, self.test_count as u64);
            name.push(']');
            assert(name@ =~= placeholder(entity_id, msg_id, self.test_count));
            let claim = NameClaim { name, amount: 0, ignore: false, claimed: false };
            self.test_count = self.test_count + 1;
            assert(self@.rewrites =~= before.rewrites);
            return Some(self.remember(msg_id, claim, template.as_str(), false));
        }
        let i: usize = match self.plan() {
            Pick::Top(i) => i,
            Pick::Draw(pool) => {
                assert(pool@.map_values(|i: usize| i as int)[draw as int] == pool@[draw as int]);
                pool[draw]
            },
            Pick::Nothing => {
                return None;
            },
        };
        proof {
            crate::names::picks::lemma_picked_usable(before.claims, before.tiers, draw as int);
            assert(before.claims[i as int] == self.name_claims@[i as int]@);
        }
        let claim = NameClaim {
            name: self.name_claims[i].name.clone(),
            amount: 0,
            ignore: self.name_claims[i].ignore,
            claimed: true,
        };
        self.name_claims.set(i, claim.clone());
        assert(self@.claims =~= before.claims.update(i as int, claim@));
        assert(self@.rewrites =~= before.rewrites);
        Some(self.remember(msg_id, claim, template.as_str(), true))
    }

    /// Gives a healthbar a new name if it can have one, drawing by weight where the claims call
    /// for a draw.
    pub fn make_claim(
        &mut self,
        entity_id: u32,
        msg_id: i32,
        game: FromGame,
        templates: &NameTemplates,
    ) -> (r: Option<HealthbarRewrite>)
        requires
            can_name(old(self)@, entity_id, msg_id, game, *templates),
        ensures
            exists|draw: int|
                draw_of(old(self)@, entity_id, msg_id, game, *templates, draw) && (
                final(self)@,
                rewrite_model(r),
            ) == #[trigger] claim_outcome(
                    old(self)@,
                    entity_id,
                    msg_id,
                    game,
                    *templates,
                    draw,
                ),
    {
        let draw = self.draw_claim(entity_id, msg_id, game, templates);
        self.make_claim_with(entity_id, msg_id, game, templates, draw)
    }

    /// What is drawn by where giving a healthbar a new name calls for a draw.
    pub fn draw_weights(
        &self,
        entity_id: u32,
        msg_id: i32,
        game: FromGame,
        templates: &NameTemplates,
    ) -> (r: Option<Vec<u32>>)
        ensures
            match r {
                Some(weights) => draw_weights_of(self@, entity_id, msg_id, game, *templates)
                    == Some(weights@),
                None => draw_weights_of(self@, entity_id, msg_id, game, *templates) is None,
            },
    {
        if !self.draws(entity_id, msg_id, game, templates) {
            return None;
        }
        match self.plan() {
            Pick::Draw(pool) => {
                let ghost positions = pool@.map_values(|i: usize| i as int);
                proof {
                    if self@.tiers.len() > 0 {
                        crate::names::picks::lemma_tier_pool(
                            self@.claims,
                            self@.tiers,
                            self@.tiers.len() - 1,
                        );
                    }
                    assert forall|k: int| 0 <= k < pool@.len() implies #[trigger] pool@[k]
                        < self.name_claims@.len() by {
                        assert(positions[k] == pool@[k]);
                    }
                }
                let weights = pool_amounts(&self.name_claims, &pool);
                assert(weights@ =~= positions.map_values(|i: int| self@.claims[i].amount));
                Some(weights)
            },
            _ => None,
        }
    }

    /// Draws by weight where giving a healthbar a new name calls for it.
    pub fn draw_claim(
        &self,
        entity_id: u32,
        msg_id: i32,
        game: FromGame,
        templates: &NameTemplates,
    ) -> (draw: usize)
        requires
            can_name(self@, entity_id, msg_id, game, *templates),
        ensures
            draw_of(self@, entity_id, msg_id, game, *templates, draw as int),
            match draw_weights_of(self@, entity_id, msg_id, game, *templates) {
                Some(weights) => draw < weights.len() && weights[draw as int] > 0,
                None => draw == 0,
            },
    {
        match self.draw_weights(entity_id, msg_id, game, templates) {
            Some(weights) => {
                proof {
                    lemma_draw_adds_up(self@, entity_id, msg_id, game, *templates);
                }
                match draw_weighted(&weights) {
                    Ok(i) => i,
                    Err(_) => 0,
                }
            },
            None => 0,
        }
    }

    fn draws(&self, entity_id: u32, msg_id: i32, game: FromGame, templates: &NameTemplates) -> (r:
        bool)
        ensures
            r == (naming_template(self@, entity_id, msg_id, game, *templates) is Some
                && self.name_mode != NameMode::Test),
    {
        msg_id != SPAWN_NAME_ID && self.name_mode != NameMode::Off && self.name_mode
            != NameMode::Test && templates.find_template(game, entity_id, msg_id).is_some()
    }

    /// Whether a healthbar may ask for a new name.
    pub fn can_claim(
        &self,
        entity_id: u32,
        msg_id: i32,
        game: FromGame,
        templates: &NameTemplates,
    ) -> (r: bool)
        ensures
            r == can_name(self@, entity_id, msg_id, game, *templates),
    {
        if !self.draws(entity_id, msg_id, game, templates) {
            return self.name_mode != NameMode::Test || msg_id == SPAWN_NAME_ID || self.test_count
                < u32::MAX || templates.find_template(game, entity_id, msg_id).is_none();
        }
        match self.draw_weights(entity_id, msg_id, game, templates) {
            Some(weights) => {
                proof {
                    lemma_draw_weight(self@, entity_id, msg_id, game, *templates);
                }
                sum_fits(&weights)
            },
            None => true,
        }
    }
}

/// The sum of weights.
pub open spec fn sum_of(weights: Seq<u32>) -> nat
    decreases weights.len(),
{
    if weights.len() == 0 {
        0
    } else {
        sum_of(weights.drop_last()) + weights.last() as nat
    }
}

proof fn lemma_weights(
    claims: Seq<crate::names::ClaimModel>,
    pool: Seq<int>,
    weights: Seq<u32>,
)
    requires
        weights.len() == pool.len(),
        forall|k: int| 0 <= k < pool.len() ==> #[trigger] weights[k] == claims[pool[k]].amount,
    ensures
        sum_of(weights) == crate::names::picks::pool_weight(claims, pool),
    decreases pool.len(),
{
    if pool.len() > 0 {
        assert forall|k: int| 0 <= k < pool.len() - 1 implies #[trigger] weights.drop_last()[k]
            == claims[pool.drop_last()[k]].amount by {
            assert(weights[k] == claims[pool[k]].amount);
        }
        lemma_weights(claims, pool.drop_last(), weights.drop_last());
    }
}

proof fn lemma_draw_weight(
    m: NameModel,
    entity_id: u32,
    msg_id: i32,
    game: FromGame,
    templates: NameTemplates,
)
    ensures
        draw_weights_of(m, entity_id, msg_id, game, templates) matches Some(weights) ==> (
        crate::names::picks::pick_rule(m.claims, m.tiers) matches crate::names::picks::PickRule::Draw(
            pool,
        ) && weights.len() == pool.len() && sum_of(weights)
            == crate::names::picks::pool_weight(m.claims, pool)),
{
    if let Some(weights) = draw_weights_of(m, entity_id, msg_id, game, templates) {
        if let crate::names::picks::PickRule::Draw(pool) = crate::names::picks::pick_rule(
            m.claims,
            m.tiers,
        ) {
            lemma_weights(m.claims, pool, weights);
        }
    }
}

/// The weights of a draw are positive, and add up to a number the draw can count to.
proof fn lemma_draw_adds_up(
    m: NameModel,
    entity_id: u32,
    msg_id: i32,
    game: FromGame,
    templates: NameTemplates,
)
    requires
        can_name(m, entity_id, msg_id, game, templates),
    ensures
        draw_weights_of(m, entity_id, msg_id, game, templates) matches Some(weights) ==> 0 < sum_of(
            weights,
        ) <= u32::MAX,
{
    lemma_draw_weight(m, entity_id, msg_id, game, templates);
    if let Some(weights) = draw_weights_of(m, entity_id, msg_id, game, templates) {
        if m.tiers.len() > 0 {
            crate::names::picks::lemma_tier_pool(m.claims, m.tiers, m.tiers.len() - 1);
        }
        lemma_sum_positive(weights, 0);
    }
}

proof fn lemma_sum_positive(weights: Seq<u32>, at: int)
    requires
        0 <= at < weights.len(),
    ensures
        sum_of(weights) >= weights[at],
    decreases weights.len(),
{
    if at < weights.len() - 1 {
        lemma_sum_positive(weights.drop_last(), at);
    }
}

proof fn lemma_sum_prefix(weights: Seq<u32>, n: int)
    requires
        0 <= n <= weights.len(),
    ensures
        sum_of(weights.take(n)) <= sum_of(weights),
    decreases weights.len() - n,
{
    if n < weights.len() {
        lemma_sum_prefix(weights, n + 1);
        assert(weights.take(n + 1).drop_last() =~= weights.take(n));
    } else {
        assert(weights.take(n) =~= weights);
    }
}

fn sum_fits(weights: &Vec<u32>) -> (r: bool)
    ensures
        r == (sum_of(weights@) <= u32::MAX),
{
    let mut sum: u32 = 0;
    let mut i: usize = 0;
    while i < weights.len()
        invariant
            i <= weights@.len(),
            sum == sum_of(weights@.take(i as int)),
        decreases weights@.len() - i,
    {
        assert(weights@.take(i + 1).drop_last() =~= weights@.take(i as int));
        if weights[i] > u32::MAX - sum {
            proof {
                lemma_sum_prefix(weights@, i + 1);
            }
            return false;
        }
        sum = sum + weights[i];
        i = i + 1;
    }
    assert(weights@.take(weights@.len() as int) =~= weights@);
    true
}

/// The error of `rand`'s weighted distributions.
#[verifier::external_type_specification]
#[verifier::external_body]
pub struct ExWeightedError(rand::distr::weighted::Error);

/// `WeightedIndex::new` with the weights, and one `sample` of it with the thread's generator. It
/// fails exactly where there are no weights, they are all zero, or their sum exceeds their type;
/// otherwise it gives a position whose weight is not zero. Which one is left to chance.
#[verifier::external_body]
fn draw_weighted(weights: &Vec<u32>) -> (r: Result<usize, rand::distr::weighted::Error>)
    ensures
        r is Ok <==> 0 < sum_of(weights@) <= u32::MAX,
        r matches Ok(i) ==> i < weights@.len() && weights@[i as int] > 0,
{
    let dist = rand::distr::weighted::WeightedIndex::new(weights)?;
    Ok(rand::distr::Distribution::sample(&dist, &mut rand::rng()))
}

} // verus!
