//! Laws of healthbar names.
use vstd::prelude::*;

use crate::game::FromGame;
use crate::names::picks;
use crate::names::state;
use crate::names::state::NameModel;
use crate::names::templates::NameTemplates;
use crate::names::{ClaimModel, HealthbarKey, NameApiRequest, NameClaim, NameCommand, NameMode};

verus! {

/// A name, once shown, is remembered: the same healthbar shows the same name again, nothing more
/// is reported, and the state stays as it is.
pub proof fn lemma_shown_name_stays(
    m: crate::names::state::NameModel,
    entity_id: u32,
    msg_id: i32,
    game: crate::game::FromGame,
    templates: crate::names::templates::NameTemplates,
    draw: int,
    later_draw: int,
)
    requires
        crate::names::client::shown_outcome(m, entity_id, msg_id, game, templates, draw).1 is Some,
    ensures
        ({
            let (after, shown) = crate::names::client::shown_outcome(
                m,
                entity_id,
                msg_id,
                game,
                templates,
                draw,
            );
            crate::names::client::shown_outcome(
                after,
                entity_id,
                msg_id,
                game,
                templates,
                later_draw,
            ) == (after, Some((shown.unwrap().0, None::<crate::names::ClaimModel>)))
        }),
{
}

/// A claim that is reported as used cannot be used again: no claim of its name is usable.
pub proof fn lemma_reported_claim_is_used_up(
    m: crate::names::state::NameModel,
    entity_id: u32,
    msg_id: i32,
    game: crate::game::FromGame,
    templates: crate::names::templates::NameTemplates,
    draw: int,
    i: int,
)
    requires
        crate::names::state::well_formed(m),
        crate::names::client::shown_draw(m, entity_id, msg_id, game, templates, draw),
        crate::names::client::shown_outcome(m, entity_id, msg_id, game, templates, draw).1 matches Some(
            shown,
        ) && shown.1 is Some,
        0 <= i < crate::names::client::shown_outcome(
            m,
            entity_id,
            msg_id,
            game,
            templates,
            draw,
        ).0.claims.len(),
    ensures
        ({
            let (after, shown) = crate::names::client::shown_outcome(
                m,
                entity_id,
                msg_id,
                game,
                templates,
                draw,
            );
            let used = shown.unwrap().1.unwrap();
            after.claims[i].name == used.name ==> !crate::names::picks::usable(after.claims[i])
        }),
{
    crate::names::picks::lemma_picked_usable(m.claims, m.tiers, draw);
}

/// Asking for a name keeps claim names distinct and tiers ascending.
pub proof fn lemma_shown_well_formed(
    m: crate::names::state::NameModel,
    entity_id: u32,
    msg_id: i32,
    game: crate::game::FromGame,
    templates: crate::names::templates::NameTemplates,
    draw: int,
)
    requires
        crate::names::state::well_formed(m),
        crate::names::client::shown_draw(m, entity_id, msg_id, game, templates, draw),
    ensures
        crate::names::state::well_formed(
            crate::names::client::shown_outcome(m, entity_id, msg_id, game, templates, draw).0,
        ),
{
    if crate::names::picks::possible_draw(m.claims, m.tiers, draw) {
        crate::names::picks::lemma_picked_usable(m.claims, m.tiers, draw);
    }
    let after = crate::names::client::shown_outcome(
        m,
        entity_id,
        msg_id,
        game,
        templates,
        draw,
    ).0;
    assert forall|i: int, j: int| 0 <= i < j < after.claims.len() implies #[trigger] after.claims[i].name
        != #[trigger] after.claims[j].name by {
        assert(after.claims[i].name == m.claims[i].name);
        assert(after.claims[j].name == m.claims[j].name);
    }
}

/// A spawned enemy shows the name it was spawned with, whatever the mode.
pub proof fn lemma_spawn_name_shows(
    m: crate::names::state::NameModel,
    entity_id: u32,
    claim: crate::names::ClaimModel,
    game: crate::game::FromGame,
    templates: crate::names::templates::NameTemplates,
    draw: int,
)
    requires
        entity_id > 0,
    ensures
        ({
            let named = crate::names::state::after_spawn_name(m, entity_id, claim);
            crate::names::client::shown_outcome(
                named,
                entity_id,
                crate::names::SPAWN_NAME_ID,
                game,
                templates,
                draw,
            ) == (named, Some((claim.name, None::<crate::names::ClaimModel>)))
        }),
{
}

/// No request makes spawned enemies lose their names.
pub proof fn lemma_spawn_names_survive(
    m: crate::names::state::NameModel,
    req: crate::names::NameApiRequest,
    entity_id: u32,
)
    ensures
        ({
            let key = crate::names::HealthbarKey::EntityId(entity_id);
            let after = crate::names::state::after_request(m, req);
            after.rewrites.contains_key(key) == m.rewrites.contains_key(key)
                && (m.rewrites.contains_key(key) ==> after.rewrites[key] == m.rewrites[key])
        }),
{
    if let Some(commands) = req.names {
        lemma_spawn_names_survive_commands(m, commands@, entity_id);
    }
}

proof fn lemma_spawn_names_survive_commands(
    m: crate::names::state::NameModel,
    commands: Seq<crate::names::NameCommand>,
    entity_id: u32,
)
    ensures
        ({
            let key = crate::names::HealthbarKey::EntityId(entity_id);
            let after = crate::names::state::after_commands(m, commands);
            after.rewrites.contains_key(key) == m.rewrites.contains_key(key)
                && (m.rewrites.contains_key(key) ==> after.rewrites[key] == m.rewrites[key])
        }),
    decreases commands.len(),
{
    if commands.len() > 0 {
        lemma_spawn_names_survive_commands(m, commands.drop_last(), entity_id);
    }
}

/// Without names, a healthbar whose message has no remembered name shows none and uses no claim.
pub proof fn lemma_off_uses_no_claims(
    m: crate::names::state::NameModel,
    entity_id: u32,
    msg_id: i32,
    game: crate::game::FromGame,
    templates: crate::names::templates::NameTemplates,
    draw: int,
)
    requires
        m.mode == crate::names::NameMode::Off,
    ensures
        crate::names::client::shown_outcome(m, entity_id, msg_id, game, templates, draw).0 == m,
        crate::names::client::asks_for(m, entity_id, msg_id) is Some
            ==> crate::names::client::shown_outcome(
            m,
            entity_id,
            msg_id,
            game,
            templates,
            draw,
        ).1 is None,
{
}

/// Clearing the cache leaves no claims and no names of healthbar messages.
pub proof fn lemma_clear_forgets(m: crate::names::state::NameModel, msg_id: i32)
    ensures
        ({
            let after = crate::names::state::after_command(
                m,
                crate::names::NameCommand::ClearNameCache,
            );
            after.claims.len() == 0 && !after.rewrites.contains_key(
                crate::names::HealthbarKey::MsgId(msg_id),
            )
        }),
{
}

/// Changing the mode keeps the names of healthbar messages if and only if the new mode is the one
/// that goes by remembered names. Spawned enemies keep their names, and claims, tiers and bosses
/// stay as they are.
pub proof fn lemma_mode_change(
    m: crate::names::state::NameModel,
    mode: crate::names::NameMode,
    key: crate::names::HealthbarKey,
)
    requires
        mode != m.mode,
    ensures
        ({
            let after = crate::names::state::after_command(
                m,
                crate::names::NameCommand::SetNameMode { mode },
            );
            &&& after.mode == mode
            &&& after.rewrites.contains_key(key) <==> m.rewrites.contains_key(key) && (key
                is EntityId || mode == crate::names::NameMode::Cache)
            &&& after.rewrites.contains_key(key) ==> after.rewrites[key] == m.rewrites[key]
            &&& after.claims == m.claims
            &&& after.tiers == m.tiers
            &&& after.bosses == m.bosses
            &&& after.test_count == m.test_count
        }),
{
}

/// The order in which tier bounds are sent does not matter.
pub proof fn lemma_tiers_order_is_free(
    m: crate::names::state::NameModel,
    a: Vec<u32>,
    b: Vec<u32>,
)
    requires
        a@.to_multiset() == b@.to_multiset(),
    ensures
        crate::names::state::after_command(m, crate::names::NameCommand::SetTiers { tiers: a })
            == crate::names::state::after_command(
            m,
            crate::names::NameCommand::SetTiers { tiers: b },
        ),
{
    let leq = |x: u32, y: u32| x <= y;
    a@.lemma_sort_by_ensures(leq);
    b@.lemma_sort_by_ensures(leq);
    vstd::seq_lib::lemma_sorted_unique(
        crate::sorting::ascending(a@),
        crate::sorting::ascending(b@),
        leq,
    );
}

// --- Claims

proof fn lemma_sent_claim(claims: Seq<ClaimModel>, more: Seq<ClaimModel>, k: int)
    requires
        forall|i: int, j: int|
            0 <= i < j < claims.len() ==> #[trigger] claims[i].name != #[trigger] claims[j].name,
        0 <= k < more.len(),
        forall|j: int| k < j < more.len() ==> (#[trigger] more[j]).name != more[k].name,
    ensures
        ({
            let all = state::with_claims(claims, more);
            &&& exists|i: int| 0 <= i < all.len() && (#[trigger] all[i]).name == more[k].name
            &&& forall|i: int|
                0 <= i < all.len() && (#[trigger] all[i]).name == more[k].name ==> {
                    &&& all[i].amount == more[k].amount
                    &&& all[i].ignore == more[k].ignore
                    &&& !more[k].claimed ==> !all[i].claimed
                    &&& i < claims.len() ==> !all[i].claimed
                }
        }),
    decreases more.len(),
{
    let rest = more.drop_last();
    let last = more.last();
    let before = state::with_claims(claims, rest);
    let all = state::with_claims(claims, more);
    state::lemma_with_claims_distinct(claims, rest);
    lemma_claims_keep_their_place(claims, rest);
    state::lemma_claim_position(before, last.name);
    let p = state::claim_position(before, last.name);
    if k == more.len() - 1 {
        assert(all[p].name == last.name);
        assert forall|i: int| 0 <= i < all.len() && (#[trigger] all[i]).name == more[k].name implies {
            &&& all[i].amount == more[k].amount
            &&& all[i].ignore == more[k].ignore
            &&& !more[k].claimed ==> !all[i].claimed
            &&& i < claims.len() ==> !all[i].claimed
        } by {
            if i < p {
                assert(before[i].name != last.name);
            } else if i > p {
                assert(before[i].name != before[p].name);
            }
        }
    } else {
        assert(rest[k] == more[k]);
        assert forall|j: int| k < j < rest.len() implies (#[trigger] rest[j]).name
            != rest[k].name by {
            assert(more[j].name != more[k].name);
        }
        lemma_sent_claim(claims, rest, k);
        assert(last.name != more[k].name) by {
            assert(more[more.len() - 1].name != more[k].name);
        }
        let i = choose|i: int|
            0 <= i < before.len() && (#[trigger] before[i]).name == more[k].name;
        assert(all[i].name == more[k].name) by {
            if i == p {
                assert(before[p].name == last.name);
            }
        }
        assert forall|i: int| 0 <= i < all.len() && (#[trigger] all[i]).name == more[k].name implies {
            &&& all[i].amount == more[k].amount
            &&& all[i].ignore == more[k].ignore
            &&& !more[k].claimed ==> !all[i].claimed
            &&& i < claims.len() ==> !all[i].claimed
        } by {
            assert(i != p);
            assert(all[i] == before[i]);
        }
    }
}

proof fn lemma_claims_keep_their_place(claims: Seq<ClaimModel>, more: Seq<ClaimModel>)
    ensures
        ({
            let all = state::with_claims(claims, more);
            &&& all.len() >= claims.len()
            &&& forall|i: int|
                0 <= i < claims.len() ==> (#[trigger] all[i]).name == claims[i].name && ((forall|
                    k: int,
                | 0 <= k < more.len() ==> (#[trigger] more[k]).name != claims[i].name) ==> all[i]
                    == claims[i])
            &&& forall|i: int|
                claims.len() <= i < all.len() ==> exists|k: int|
                    0 <= k < more.len() && (#[trigger] more[k]).name == (#[trigger] all[i]).name
        }),
    decreases more.len(),
{
    let all = state::with_claims(claims, more);
    if more.len() > 0 {
        let rest = more.drop_last();
        let last = more.last();
        let before = state::with_claims(claims, rest);
        lemma_claims_keep_their_place(claims, rest);
        state::lemma_claim_position(before, last.name);
        let p = state::claim_position(before, last.name);
        assert forall|i: int| 0 <= i < claims.len() implies (#[trigger] all[i]).name
            == claims[i].name && ((forall|k: int|
            0 <= k < more.len() ==> (#[trigger] more[k]).name != claims[i].name) ==> all[i]
            == claims[i]) by {
            assert(before[i].name == claims[i].name);
            if forall|k: int|
                0 <= k < more.len() ==> (#[trigger] more[k]).name != claims[i].name {
                assert(more[more.len() - 1].name != claims[i].name);
                assert forall|k: int| 0 <= k < rest.len() implies (#[trigger] rest[k]).name
                    != claims[i].name by {
                    assert(more[k].name != claims[i].name);
                }
                assert(p != i);
            }
        }
        assert forall|i: int| claims.len() <= i < all.len() implies exists|k: int|
            0 <= k < more.len() && (#[trigger] more[k]).name == (#[trigger] all[i]).name by {
            if i < before.len() {
                assert(before[i].name == all[i].name);
                let k = choose|k: int|
                    0 <= k < rest.len() && (#[trigger] rest[k]).name == before[i].name;
                assert(more[k].name == all[i].name);
            } else {
                assert(more[more.len() - 1].name == all[i].name);
            }
        }
    }
}

/// Whatever amount the server sends for a name last is the amount of the claim with that name,
/// higher or lower than before, and so is the mark to ignore it. A claim sent without an amount is
/// not usable, and one sent anew can be claimed again.
pub proof fn lemma_sent_claims_take_effect(
    m: NameModel,
    req: NameApiRequest,
    claims: Seq<NameClaim>,
    k: int,
)
    requires
        state::well_formed(m),
        req.claims matches Some(list) && list@ == claims,
        0 <= k < claims.len(),
        forall|j: int| k < j < claims.len() ==> (#[trigger] claims[j]).name@ != claims[k].name@,
    ensures
        ({
            let after = state::after_request(m, req);
            &&& exists|i: int|
                0 <= i < after.claims.len() && (#[trigger] after.claims[i]).name
                    == claims[k].name@
            &&& forall|i: int|
                0 <= i < after.claims.len() && (#[trigger] after.claims[i]).name
                    == claims[k].name@ ==> {
                    &&& after.claims[i].amount == claims[k].amount
                    &&& after.claims[i].ignore == claims[k].ignore
                    &&& !claims[k].claimed ==> !after.claims[i].claimed
                    &&& picks::usable(after.claims[i]) <==> claims[k].amount > 0
                        && !claims[k].ignore
                }
        }),
{
    let commanded = match req.names {
        Some(commands) => state::after_commands(m, commands@),
        None => m,
    };
    if let Some(commands) = req.names {
        state::lemma_commands_well_formed(m, commands@);
    }
    let more = picks::claim_models(claims);
    assert forall|j: int| k < j < more.len() implies (#[trigger] more[j]).name != more[k].name by {
        assert(claims[j].name@ != claims[k].name@);
    }
    lemma_sent_claim(commanded.claims, more, k);
    let after = state::after_request(m, req);
    assert(after.claims == state::with_claims(commanded.claims, more));
    assert(more[k].name == claims[k].name@);
    let i = choose|i: int|
        0 <= i < after.claims.len() && (#[trigger] after.claims[i]).name == more[k].name;
    assert(after.claims[i].name == claims[k].name@);
}

/// Claims that a request does not speak of stay as they are and where they are, and it brings no
/// claims but its own.
pub proof fn lemma_other_claims_stay(m: NameModel, req: NameApiRequest, claims: Seq<NameClaim>)
    requires
        req.names is None,
        claims == match req.claims {
            Some(list) => list@,
            None => seq![],
        },
    ensures
        ({
            let after = state::after_request(m, req);
            &&& after.claims.len() >= m.claims.len()
            &&& forall|i: int|
                0 <= i < m.claims.len() ==> (#[trigger] after.claims[i]).name == m.claims[i].name
                    && ((forall|k: int|
                    0 <= k < claims.len() ==> (#[trigger] claims[k]).name@ != m.claims[i].name)
                    ==> after.claims[i] == m.claims[i])
            &&& forall|i: int|
                m.claims.len() <= i < after.claims.len() ==> exists|k: int|
                    0 <= k < claims.len() && (#[trigger] claims[k]).name@ == (
                    #[trigger] after.claims[i]).name
            &&& after.mode == m.mode
            &&& after.tiers == m.tiers
            &&& after.rewrites == m.rewrites
            &&& after.bosses == m.bosses
            &&& after.test_count == m.test_count
        }),
{
    let after = state::after_request(m, req);
    if req.claims is Some {
        let more = picks::claim_models(claims);
        lemma_claims_keep_their_place(m.claims, more);
        assert forall|i: int| 0 <= i < m.claims.len() implies (#[trigger] after.claims[i]).name
            == m.claims[i].name && ((forall|k: int|
            0 <= k < claims.len() ==> (#[trigger] claims[k]).name@ != m.claims[i].name)
            ==> after.claims[i] == m.claims[i]) by {
            if forall|k: int|
                0 <= k < claims.len() ==> (#[trigger] claims[k]).name@ != m.claims[i].name {
                assert forall|k: int| 0 <= k < more.len() implies (#[trigger] more[k]).name
                    != m.claims[i].name by {
                    assert(claims[k].name@ != m.claims[i].name);
                }
            }
        }
        assert forall|i: int| m.claims.len() <= i < after.claims.len() implies exists|k: int|
            0 <= k < claims.len() && (#[trigger] claims[k]).name@ == (
            #[trigger] after.claims[i]).name by {
            let k = choose|k: int|
                0 <= k < more.len() && (#[trigger] more[k]).name == after.claims[i].name;
            assert(claims[k].name@ == after.claims[i].name);
        }
    }
}

// --- Commands

/// What one more command does after others.
pub proof fn lemma_commands_run_in_order(
    m: NameModel,
    commands: Seq<NameCommand>,
    command: NameCommand,
    key: HealthbarKey,
)
    ensures
        state::after_commands(m, Seq::empty()) == m,
        ({
            let before = state::after_commands(m, commands);
            let after = state::after_commands(m, commands.push(command));
            &&& after.bosses == before.bosses
            &&& after.test_count == before.test_count
            &&& after.rewrites.contains_key(key) ==> before.rewrites.contains_key(key)
                && after.rewrites[key] == before.rewrites[key]
            &&& match command {
                NameCommand::SetNameMode { mode } => {
                    &&& after.mode == mode
                    &&& after.claims == before.claims
                    &&& after.tiers == before.tiers
                    &&& before.rewrites.contains_key(key) ==> (after.rewrites.contains_key(key)
                        <==> key is EntityId || mode == NameMode::Cache || mode == before.mode)
                },
                NameCommand::SetTiers { tiers } => {
                    &&& after.mode == before.mode
                    &&& after.claims == before.claims
                    &&& after.tiers.to_multiset() == tiers@.to_multiset()
                    &&& forall|i: int, j: int|
                        0 <= i <= j < after.tiers.len() ==> after.tiers[i] <= after.tiers[j]
                    &&& after.rewrites == before.rewrites
                },
                NameCommand::ClearNameCache => {
                    &&& after.mode == before.mode
                    &&& after.claims.len() == 0
                    &&& after.tiers == before.tiers
                    &&& before.rewrites.contains_key(key) ==> (after.rewrites.contains_key(key)
                        <==> key is EntityId)
                },
            }
        }),
{
    assert(commands.push(command).drop_last() =~= commands);
    if let NameCommand::SetTiers { tiers } = command {
        crate::sorting::lemma_ascending(tiers@);
    }
}

/// Where a request clears the cache, only its own claims are left after it.
pub proof fn lemma_cleared_claims_are_gone(
    m: NameModel,
    req: NameApiRequest,
    commands: Seq<NameCommand>,
    at: int,
    i: int,
)
    requires
        req.names matches Some(list) && list@ == commands,
        0 <= at < commands.len(),
        commands[at] is ClearNameCache,
        0 <= i < state::after_request(m, req).claims.len(),
    ensures
        req.claims matches Some(list) && exists|k: int|
            0 <= k < list@.len() && (#[trigger] list@[k]).name@ == state::after_request(
                m,
                req,
            ).claims[i].name,
{
    lemma_clear_empties(m, commands, at);
    if let Some(list) = req.claims {
        let more = picks::claim_models(list@);
        lemma_claims_keep_their_place(state::after_commands(m, commands).claims, more);
        let k = choose|k: int|
            0 <= k < more.len() && (#[trigger] more[k]).name == state::after_request(
                m,
                req,
            ).claims[i].name;
        assert(list@[k].name@ == more[k].name);
    }
}

proof fn lemma_clear_empties(m: NameModel, commands: Seq<NameCommand>, at: int)
    requires
        0 <= at < commands.len(),
        commands[at] is ClearNameCache,
    ensures
        state::after_commands(m, commands).claims.len() == 0,
    decreases commands.len(),
{
    if at < commands.len() - 1 {
        assert(commands.drop_last()[at] == commands[at]);
        lemma_clear_empties(m, commands.drop_last(), at);
    }
}

// --- Picking a claim

/// The claim behind a new name, in the modes that name after viewers: a usable one. Where one has
/// at least the highest tier's amount, or there are no tiers, it is the highest, and of several
/// such the last; otherwise it is of the highest tier that has any. It is used up, and nothing else
/// changes but the name of the healthbar's message. Without a name, no usable claim reaches the
/// lowest tier, and nothing changes.
pub proof fn lemma_name_goes_to_the_right_claim(
    m: NameModel,
    entity_id: u32,
    msg_id: i32,
    game: FromGame,
    templates: NameTemplates,
    draw: int,
)
    requires
        state::well_formed(m),
        m.mode == NameMode::Cache || m.mode == NameMode::Fresh,
        msg_id != 10104137,
        templates.template(game, entity_id, msg_id) is Some,
        state::draw_of(m, entity_id, msg_id, game, templates, draw),
    ensures
        ({
            let (after, made) = state::claim_outcome(
                m,
                entity_id,
                msg_id,
                game,
                templates,
                draw,
            );
            let template = templates.template(game, entity_id, msg_id).unwrap();
            match made {
                Some(w) => exists|i: int|
                    {
                        &&& 0 <= i < m.claims.len()
                        &&& (#[trigger] m.claims[i]).amount > 0 && !m.claims[i].ignore
                        &&& w.claim == (ClaimModel {
                            name: m.claims[i].name,
                            amount: 0,
                            ignore: false,
                            claimed: true,
                        })
                        &&& w.name == crate::text::replaced(template, "$1"@, m.claims[i].name)
                        &&& w.update
                        &&& after.claims == m.claims.update(i, w.claim)
                        &&& after.rewrites == m.rewrites.insert(HealthbarKey::MsgId(msg_id), w)
                        &&& after.mode == m.mode && after.tiers == m.tiers && after.bosses
                            == m.bosses && after.test_count == m.test_count
                        &&& is_right_claim(m.claims, m.tiers, i)
                    },
                None => after == m && forall|j: int|
                    0 <= j < m.claims.len() && (#[trigger] m.claims[j]).amount > 0
                        && !m.claims[j].ignore ==> m.tiers.len() > 0 && m.claims[j].amount
                        < m.tiers[0],
            }
        }),
{
    let lo = picks::min_for_top(m.tiers);
    let last = m.tiers.len() - 1;
    picks::lemma_top_index(m.claims, lo);
    picks::lemma_picked_usable(m.claims, m.tiers, draw);
    if m.tiers.len() > 0 {
        picks::lemma_tier_pool(m.claims, m.tiers, last);
    }
    match picks::picked(m.claims, m.tiers, draw) {
        Some(i) => {
            assert(m.claims[i].amount > 0 && !m.claims[i].ignore);
            if let Some(top) = picks::top_index(m.claims, lo) {
                assert forall|j: int|
                    0 <= j < m.claims.len() && (#[trigger] m.claims[j]).amount > 0
                        && !m.claims[j].ignore implies m.claims[j].amount < m.claims[i].amount || (
                m.claims[j].amount == m.claims[i].amount && j <= i) by {
                    assert(picks::in_range(m.claims[j], lo, None) || m.claims[j].amount < lo);
                }
                assert(is_right_claim(m.claims, m.tiers, i));
            } else {
                let pool = picks::tier_pool(m.claims, m.tiers, last);
                let t = choose|t: int|
                    1 <= t <= last && pool == #[trigger] picks::range_pool(
                        m.claims,
                        m.tiers[t - 1],
                        m.tiers[t],
                    ) && forall|u: int|
                        t < u <= last ==> (#[trigger] picks::range_pool(
                            m.claims,
                            m.tiers[u - 1],
                            m.tiers[u],
                        )).len() == 0;
                picks::lemma_range_pool(m.claims, m.tiers[t - 1], m.tiers[t]);
                assert(picks::in_range(m.claims[pool[draw]], m.tiers[t - 1], Some(m.tiers[t])));
                assert forall|j: int|
                    0 <= j < m.claims.len() && (#[trigger] m.claims[j]).amount > 0
                        && !m.claims[j].ignore implies m.claims[j].amount < m.tiers[t] by {
                    assert(!picks::in_range(m.claims[j], lo, None));
                    if m.claims[j].amount >= m.tiers[t] {
                        lemma_in_some_tier(m.claims, m.tiers, j, t, last);
                    }
                }
                assert(is_right_claim(m.claims, m.tiers, i));
            }
        },
        None => {
            assert forall|j: int|
                0 <= j < m.claims.len() && (#[trigger] m.claims[j]).amount > 0
                    && !m.claims[j].ignore implies m.tiers.len() > 0 && m.claims[j].amount
                < m.tiers[0] by {
                assert(!picks::in_range(m.claims[j], lo, None));
                if m.tiers.len() > 0 && m.claims[j].amount >= m.tiers[0] {
                    lemma_in_some_tier(m.claims, m.tiers, j, 0, last);
                }
            }
        },
    }
}

/// Whether a claim is one to take: the highest usable one, and of several such the last, where it
/// has at least the highest tier's amount or there are no tiers; otherwise one of a tier that no
/// usable claim is above.
pub open spec fn is_right_claim(claims: Seq<ClaimModel>, tiers: Seq<u32>, i: int) -> bool {
    if tiers.len() == 0 || claims[i].amount >= tiers[tiers.len() - 1] {
        forall|j: int|
            0 <= j < claims.len() && (#[trigger] claims[j]).amount > 0 && !claims[j].ignore
                ==> claims[j].amount < claims[i].amount || (claims[j].amount == claims[i].amount
                && j <= i)
    } else {
        exists|t: int|
            1 <= t < tiers.len() && tiers[t - 1] <= claims[i].amount < #[trigger] tiers[t]
                && forall|j: int|
                0 <= j < claims.len() && (#[trigger] claims[j]).amount > 0 && !claims[j].ignore
                    ==> claims[j].amount < tiers[t]
    }
}

proof fn lemma_in_some_tier(
    claims: Seq<ClaimModel>,
    tiers: Seq<u32>,
    j: int,
    lo: int,
    hi: int,
)
    requires
        0 <= lo <= hi < tiers.len(),
        0 <= j < claims.len(),
        claims[j].amount > 0 && !claims[j].ignore,
        tiers[lo] <= claims[j].amount < tiers[hi],
    ensures
        exists|u: int|
            lo < u <= hi && (#[trigger] picks::range_pool(claims, tiers[u - 1], tiers[u])).len()
                > 0,
    decreases hi - lo,
{
    picks::lemma_range_pool(claims, tiers[hi - 1], tiers[hi]);
    if claims[j].amount >= tiers[hi - 1] {
        assert(picks::in_range(claims[j], tiers[hi - 1], Some(tiers[hi])));
        assert(picks::range_pool(claims, tiers[hi - 1], tiers[hi]).contains(j));
    } else {
        lemma_in_some_tier(claims, tiers, j, lo, hi - 1);
    }
}

/// Every usable claim of the tier that is drawn from can be drawn, and each draw counts with the
/// amount of the claim that it gives.
pub proof fn lemma_draws_reach_the_tier(
    m: NameModel,
    entity_id: u32,
    msg_id: i32,
    game: FromGame,
    templates: NameTemplates,
    t: int,
    j: int,
)
    requires
        state::well_formed(m),
        m.mode == NameMode::Cache || m.mode == NameMode::Fresh,
        msg_id != 10104137,
        templates.template(game, entity_id, msg_id) is Some,
        1 <= t < m.tiers.len(),
        0 <= j < m.claims.len(),
        m.claims[j].amount > 0 && !m.claims[j].ignore,
        m.tiers[t - 1] <= m.claims[j].amount < m.tiers[t],
        forall|i: int|
            0 <= i < m.claims.len() && (#[trigger] m.claims[i]).amount > 0 && !m.claims[i].ignore
                ==> m.claims[i].amount < m.tiers[t],
    ensures
        state::draw_weights_of(m, entity_id, msg_id, game, templates) matches Some(weights) && {
            &&& exists|draw: int|
                0 <= draw < weights.len() && weights[draw] == m.claims[j].amount && (
                #[trigger] state::claim_outcome(
                    m,
                    entity_id,
                    msg_id,
                    game,
                    templates,
                    draw,
                )).0.claims == m.claims.update(
                    j,
                    (ClaimModel { amount: 0, claimed: true, ..m.claims[j] }),
                )
            &&& forall|draw: int|
                0 <= draw < weights.len() ==> state::draw_of(
                    m,
                    entity_id,
                    msg_id,
                    game,
                    templates,
                    draw,
                ) && (#[trigger] state::claim_outcome(
                    m,
                    entity_id,
                    msg_id,
                    game,
                    templates,
                    draw,
                )).1 is Some
        },
{
    let last = m.tiers.len() - 1;
    let lo = picks::min_for_top(m.tiers);
    assert(m.tiers[t] <= m.tiers[last]);
    picks::lemma_top_index(m.claims, lo);
    if let Some(top) = picks::top_index(m.claims, lo) {
        assert(m.claims[top].amount < m.tiers[t]);
    }
    picks::lemma_tier_pool(m.claims, m.tiers, last);
    let pool = picks::tier_pool(m.claims, m.tiers, last);
    assert(pool.contains(j)) by {
        if pool.len() == 0 {
            lemma_in_some_tier(m.claims, m.tiers, j, t - 1, t);
        } else {
            let s = choose|s: int|
                1 <= s <= last && pool == #[trigger] picks::range_pool(
                    m.claims,
                    m.tiers[s - 1],
                    m.tiers[s],
                ) && forall|u: int|
                    s < u <= last ==> (#[trigger] picks::range_pool(
                        m.claims,
                        m.tiers[u - 1],
                        m.tiers[u],
                    )).len() == 0;
            picks::lemma_range_pool(m.claims, m.tiers[s - 1], m.tiers[s]);
            if s < t {
                lemma_in_some_tier(m.claims, m.tiers, j, t - 1, t);
            } else if s > t {
                let i = pool[0];
                assert(picks::in_range(m.claims[i], m.tiers[s - 1], Some(m.tiers[s])));
                assert(m.claims[i].amount < m.tiers[t]);
                assert(m.tiers[t] <= m.tiers[s - 1]);
            }
            assert(picks::in_range(m.claims[j], m.tiers[s - 1], Some(m.tiers[s])));
        }
    }
    let draw = choose|d: int| 0 <= d < pool.len() && pool[d] == j;
    let weights = state::draw_weights_of(m, entity_id, msg_id, game, templates).unwrap();
    assert(weights[draw] == m.claims[j].amount);
    assert(state::claim_outcome(m, entity_id, msg_id, game, templates, draw).0.claims
        == m.claims.update(j, (ClaimModel { amount: 0, claimed: true, ..m.claims[j] })));
}

/// Placeholder names hold the entity, the message and a number that no other placeholder has. They
/// use no claim, and are not reported.
pub proof fn lemma_placeholder_names(
    m: NameModel,
    entity_id: u32,
    msg_id: i32,
    game: FromGame,
    templates: NameTemplates,
    draw: int,
)
    requires
        m.mode == NameMode::Test,
        msg_id != 10104137,
        m.test_count < u32::MAX,
        templates.template(game, entity_id, msg_id) is Some,
    ensures
        ({
            let (after, made) = state::claim_outcome(
                m,
                entity_id,
                msg_id,
                game,
                templates,
                draw,
            );
            let template = templates.template(game, entity_id, msg_id).unwrap();
            let name = seq!['['] + crate::text::decimal(entity_id as nat) + seq!['-']
                + crate::text::signed_decimal(msg_id as int) + seq![' ', '#']
                + crate::text::decimal(m.test_count as nat) + seq![']'];
            &&& made matches Some(w) && w.name == crate::text::replaced(template, "$1"@, name)
                && !w.update && w.claim.name == name && after.rewrites == m.rewrites.insert(
                HealthbarKey::MsgId(msg_id),
                w,
            )
            &&& after.test_count == m.test_count + 1
            &&& after.claims == m.claims && after.mode == m.mode && after.tiers == m.tiers
                && after.bosses == m.bosses
        }),
{
}

// --- Showing a name

/// Whose name a healthbar shows: that of the entity it is shown for, or of the boss last seen with
/// its message. Spawned enemies are told apart by entity, all others by message. A remembered name
/// is shown without a report; a spawned enemy without one, and any healthbar while names are off,
/// shows none; otherwise the new name is shown, and a viewer's claim is reported.
pub proof fn lemma_whose_name_is_shown(
    m: NameModel,
    entity_id: u32,
    msg_id: i32,
    game: FromGame,
    templates: NameTemplates,
    draw: int,
)
    ensures
        ({
            let shown = crate::names::client::shown_outcome(
                m,
                entity_id,
                msg_id,
                game,
                templates,
                draw,
            );
            if entity_id == 0 && !m.bosses.contains_key(msg_id) {
                shown == (m, None::<(Seq<char>, Option<ClaimModel>)>)
            } else {
                let boss = if entity_id > 0 {
                    entity_id
                } else {
                    m.bosses[msg_id]
                };
                let key = if msg_id == 10104137 {
                    HealthbarKey::EntityId(boss)
                } else {
                    HealthbarKey::MsgId(msg_id)
                };
                if m.rewrites.contains_key(key) {
                    shown == (m, Some((m.rewrites[key].name, None::<ClaimModel>)))
                } else if msg_id == 10104137 || m.mode == NameMode::Off || templates.template(
                    game,
                    boss,
                    msg_id,
                ) is None {
                    shown == (m, None::<(Seq<char>, Option<ClaimModel>)>)
                } else {
                    let made = state::claim_outcome(m, boss, msg_id, game, templates, draw);
                    shown.0 == made.0 && match made.1 {
                        Some(w) => shown.1 == Some(
                            (
                                w.name,
                                if m.mode == NameMode::Test {
                                    None
                                } else {
                                    Some(w.claim)
                                },
                            ),
                        ),
                        None => shown.1 is None,
                    }
                }
            }
        }),
{
}

/// Once a message is known to belong to a boss, its healthbar is that boss's; in the fresh mode,
/// and in no other, its name is forgotten. Nothing else changes.
pub proof fn lemma_msg_boss(m: NameModel, entity_id: u32, msg_id: i32, key: HealthbarKey, other: i32)
    ensures
        ({
            let after = state::after_msg_boss(m, entity_id, msg_id);
            &&& state::boss_of(after, 0, msg_id) == Some(entity_id)
            &&& other != msg_id ==> state::boss_of(after, 0, other) == state::boss_of(m, 0, other)
            &&& after.rewrites.contains_key(key) <==> m.rewrites.contains_key(key) && !(m.mode
                == NameMode::Fresh && key == HealthbarKey::MsgId(msg_id))
            &&& after.rewrites.contains_key(key) ==> after.rewrites[key] == m.rewrites[key]
            &&& after.mode == m.mode && after.claims == m.claims && after.tiers == m.tiers
                && after.test_count == m.test_count
        }),
{
}

// --- Templates

/// What stands around a name: the boss's template of the game at hand. Without one the bare name
/// is shown, in Elden Ring only for entities whose hundreds digit is 8, and no name for others. The
/// first part of the fight with Malenia is the one exception.
pub proof fn lemma_template(templates: NameTemplates, game: FromGame, entity_id: u32, msg_id: i32)
    ensures
        ({
            let table = match game {
                FromGame::DS1R => templates.ds1r@,
                FromGame::DS3 => templates.ds3@,
                FromGame::SDT => templates.sdt@,
                FromGame::ER => templates.er@,
            };
            let template = templates.template(game, entity_id, msg_id);
            if entity_id == 15000800 && msg_id == 902120001 {
                template == Some("$1, Goddess of Rot"@)
            } else if table.contains_key(entity_id) {
                template == Some(table[entity_id]@)
            } else if game == FromGame::ER && entity_id % 1000 / 100 != 8 {
                template is None
            } else {
                template == Some("$1"@)
            }
        }),
{
}

/// A template is filled in: the bare template shows the name alone, and Malenia's shows it before
/// her title.
pub proof fn lemma_template_filled(name: Seq<char>)
    ensures
        crate::text::replaced("$1"@, "$1"@, name) == name,
        crate::text::replaced("$1, Goddess of Rot"@, "$1"@, name) == name
            + ", Goddess of Rot"@,
{
    reveal_strlit("$1");
    reveal_strlit("$1, Goddess of Rot");
    reveal_strlit(", Goddess of Rot");
    let pat = "$1"@;
    let long = "$1, Goddess of Rot"@;
    let rest = ", Goddess of Rot"@;
    assert(pat.subrange(0, 2) =~= pat);
    assert(pat.skip(2) =~= Seq::<char>::empty());
    assert(crate::text::replaced(Seq::empty(), pat, name) == Seq::<char>::empty());
    assert(name + Seq::<char>::empty() =~= name);
    assert(long.subrange(0, 2) =~= pat);
    assert(long.skip(2) =~= rest);
    assert forall|at: int| !#[trigger] crate::text::occurs_at(rest, pat, at) by {
        crate::text::lemma_occurs_at(rest, pat, at);
        if crate::text::occurs_at(rest, pat, at) {
            assert(rest[at + 0] == pat[0]);
        }
    }
    crate::text::lemma_nothing_replaced(rest, pat, name);
}

/// Naming a spawned enemy changes nothing but that enemy's name.
pub proof fn lemma_spawn_name_changes_nothing_else(
    m: NameModel,
    entity_id: u32,
    claim: ClaimModel,
    key: HealthbarKey,
)
    ensures
        ({
            let after = state::after_spawn_name(m, entity_id, claim);
            &&& key != HealthbarKey::EntityId(entity_id) ==> (after.rewrites.contains_key(key)
                <==> m.rewrites.contains_key(key)) && after.rewrites[key] == m.rewrites[key]
            &&& after.mode == m.mode && after.claims == m.claims && after.tiers == m.tiers
                && after.bosses == m.bosses && after.test_count == m.test_count
        }),
{
}

/// At first no name is shown and no text is a boss's; and once placeholders are asked for, they are
/// counted from one.
pub proof fn lemma_first_names(
    entity_id: u32,
    msg_id: i32,
    game: FromGame,
    templates: NameTemplates,
    draw: int,
)
    ensures
        ({
            let first = state::initial();
            &&& crate::names::client::shown_outcome(
                first,
                entity_id,
                msg_id,
                game,
                templates,
                draw,
            ) == (first, None::<(Seq<char>, Option<ClaimModel>)>)
            &&& state::boss_of(first, 0, msg_id) is None
            &&& first.claims.len() == 0 && first.tiers.len() == 0
            &&& first.test_count == 1
            &&& first.mode == NameMode::Off
        }),
{
}

} // verus!
